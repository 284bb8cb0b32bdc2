//! What indexing reports, and where the places it reports lie.

use vstd::prelude::*;

use crate::ir::{FileId, Span};
use crate::merge;
use crate::merge::{Diagnostic, DiagnosticView, Severity};
use crate::text;
use crate::text::{append, chars_of, decimal_chars, string_of};

verus! {

/// A report about a unit as a whole.
pub open spec fn unit_report(severity: Severity, message: Seq<char>, stage: Seq<char>) -> DiagnosticView {
    DiagnosticView { severity, file: None, line: 0, message, stage }
}

/// The report of a unit that could not be parsed.
pub fn parse_failure(message: String) -> (r: Diagnostic)
    ensures
        r@ == unit_report(Severity::Error, message@, "parse"@),
{
    Diagnostic { severity: Severity::Error, file: None, line: 0, message, stage: "parse".to_owned() }
}

/// The report of a unit whose text the grammar did not take whole.
pub fn parse_errors(path: &str) -> (r: Diagnostic)
    ensures
        r@ == unit_report(Severity::Warning, "parse errors in "@ + path@, "parse"@),
{
    let mut message = chars_of("parse errors in ");
    append(&mut message, &chars_of(path));
    Diagnostic {
        severity: Severity::Warning,
        file: None,
        line: 0,
        message: string_of(&message),
        stage: "parse".to_owned(),
    }
}

fn explore_report(message: &[char]) -> (r: Diagnostic)
    ensures
        r@ == unit_report(Severity::Warning, message@, "explore"@),
{
    Diagnostic {
        severity: Severity::Warning,
        file: None,
        line: 0,
        message: string_of(message),
        stage: "explore".to_owned(),
    }
}

/// What is said where the budget for configurations leaves some out.
pub open spec fn budget_text(budget: nat, omitted: nat) -> Seq<char> {
    "variant exploration budget ("@ + text::decimal(budget) + ") reached; omitted "@
        + text::decimal(omitted) + " candidate activation goal(s)"@
}

/// The report of the configurations that were not explored, if any.
pub fn explored_short(budget: u32, omitted: u32) -> (r: Option<Diagnostic>)
    ensures
        match r {
            Some(d) => omitted > 0 && d@ == unit_report(
                Severity::Warning,
                budget_text(budget as nat, omitted as nat),
                "explore"@,
            ),
            None => omitted == 0,
        },
{
    if omitted == 0 {
        return None;
    }
    let mut message = chars_of("variant exploration budget (");
    append(&mut message, &decimal_chars(budget));
    append(&mut message, &chars_of(") reached; omitted "));
    append(&mut message, &decimal_chars(omitted));
    append(&mut message, &chars_of(" candidate activation goal(s)"));
    Some(explore_report(&message))
}

/// The step that a configuration of a unit failed in.
#[derive(Debug, Clone, Copy, PartialEq, Eq, Structural)]
pub enum FailedStep {
    Preprocess,
    Lower,
}

pub open spec fn step_text(step: FailedStep) -> Seq<char> {
    match step {
        FailedStep::Preprocess => "variant preprocess failed for "@,
        FailedStep::Lower => "variant lower failed for "@,
    }
}

/// The report of a configuration that failed.
pub fn variant_failure(step: FailedStep, path: &str, error: &str) -> (r: Diagnostic)
    ensures
        r@ == unit_report(
            Severity::Warning,
            step_text(step) + path@ + ": "@ + error@,
            "explore"@,
        ),
{
    let mut message = match step {
        FailedStep::Preprocess => chars_of("variant preprocess failed for "),
        FailedStep::Lower => chars_of("variant lower failed for "),
    };
    append(&mut message, &chars_of(path));
    append(&mut message, &chars_of(": "));
    append(&mut message, &chars_of(error));
    explore_report(&message)
}

/// What the preprocessor found, in the file it happened in where it says one.
#[derive(Debug, PartialEq, Eq)]
pub struct Finding {
    pub severity: Severity,
    pub file: Option<FileId>,
    pub line: u32,
    pub message: String,
}

/// A finding as it is reported: one without a file lies in the unit's own.
pub open spec fn forwarded(f: Finding, unit_file: FileId) -> DiagnosticView {
    DiagnosticView {
        severity: f.severity,
        file: Some(
            match f.file {
                Some(file) => file,
                None => unit_file,
            },
        ),
        line: f.line,
        message: f.message@,
        stage: "preprocess"@,
    }
}

pub open spec fn all_forwarded(v: Seq<Finding>, unit_file: FileId) -> Seq<DiagnosticView> {
    Seq::new(v.len(), |i: int| forwarded(v[i], unit_file))
}

fn forward(f: &Finding, unit_file: FileId) -> (r: Diagnostic)
    ensures
        r@ == forwarded(*f, unit_file),
{
    Diagnostic {
        severity: f.severity,
        file: match f.file {
            Some(file) => Some(file),
            None => Some(unit_file),
        },
        line: f.line,
        message: f.message.clone(),
        stage: "preprocess".to_owned(),
    }
}

/// Report what the preprocessor found in a unit, each finding once.
pub fn add_preprocess_diagnostics(
    diagnostics: &mut Vec<Diagnostic>,
    known: &mut Vec<Diagnostic>,
    findings: &Vec<Finding>,
    unit_file: FileId,
)
    ensures
        merge::reports(final(diagnostics)@) == merge::reports(old(diagnostics)@)
            + merge::added_reports(
            merge::reports(old(known)@),
            all_forwarded(findings@, unit_file),
            true,
        ),
        merge::reports(final(known)@) == merge::known_after(
            merge::reports(old(known)@),
            all_forwarded(findings@, unit_file),
        ),
{
    let ghost first = merge::reports(diagnostics@);
    let ghost seen = merge::reports(known@);
    let ghost all = all_forwarded(findings@, unit_file);
    let mut k: usize = 0;
    assert(all.take(0) =~= Seq::<DiagnosticView>::empty());
    assert(first + Seq::<DiagnosticView>::empty() =~= first);
    while k < findings.len()
        invariant
            k <= findings@.len(),
            all == all_forwarded(findings@, unit_file),
            merge::reports(diagnostics@) == first + merge::added_reports(
                seen,
                all.take(k as int),
                true,
            ),
            merge::reports(known@) == merge::known_after(seen, all.take(k as int)),
        decreases findings@.len() - k,
    {
        proof {
            assert(all.take(k as int + 1).drop_last() =~= all.take(k as int));
            assert(all.take(k as int + 1).last() == all[k as int]);
        }
        let own = forward(&findings[k], unit_file);
        let ghost one = own@;
        let ghost before = merge::reports(diagnostics@);
        let ghost noted = merge::reports(known@);
        if !merge::knows(known, &own) {
            known.push(merge::copy_report(&own));
            diagnostics.push(own);
            assert(merge::reports(known@) =~= noted.push(one));
            assert(merge::reports(diagnostics@) =~= before.push(one));
            assert(first + merge::added_reports(seen, all.take(k as int), true).push(one)
                =~= before.push(one));
        }
        k += 1;
    }
    assert(all.take(k as int) =~= all);
}

/// The place of a node: the one that the line map gives for its first byte,
/// else where it stands in the text. `row` and `col` count from zero.
pub open spec fn span_at(mapped: Option<Span>, file: FileId, row: nat, col: nat) -> Span {
    match mapped {
        Some(span) => span,
        None => Span { file, line: (row + 1) as u32, col: (col + 1) as u32 },
    }
}

/// Where a node stands, in the coordinates of the file it was written in.
pub fn node_span(mapped: Option<Span>, file: FileId, row: u32, col: u32) -> (r: Span)
    requires
        row < u32::MAX,
        col < u32::MAX,
    ensures
        r == span_at(mapped, file, row as nat, col as nat),
{
    match mapped {
        Some(span) => span,
        None => Span { file, line: row + 1, col: col + 1 },
    }
}

/// How the last byte of a node maps back.
#[derive(Debug, Clone, Copy, PartialEq, Eq, Structural)]
pub enum EndPlace {
    /// The text was not preprocessed: its row counts, from zero.
    Row(u32),
    /// The line map gives a file and a line.
    Mapped { file: FileId, line: u32 },
    /// The line map knows nothing of it.
    Unmapped,
}

/// The last line of a node that starts at `span`. A body that ends in another
/// file has no range in one file, so its first line stands for it.
pub fn node_end_line(span: Span, end: EndPlace) -> (r: u32)
    requires
        end matches EndPlace::Row(row) ==> row < u32::MAX,
    ensures
        r == match end {
            EndPlace::Row(row) => (row + 1) as u32,
            EndPlace::Mapped { file, line } => if file == span.file {
                line
            } else {
                span.line
            },
            EndPlace::Unmapped => span.line,
        },
{
    match end {
        EndPlace::Row(row) => row + 1,
        EndPlace::Mapped { file, line } => if file.0 == span.file.0 {
            line
        } else {
            span.line
        },
        EndPlace::Unmapped => span.line,
    }
}

} // verus!
