//! Merging a unit into the program: what each mode takes over, the numbers its
//! files get and the reports it adds.

use crate::ir::{FileId, Span};
use crate::text::str_eq;
use vstd::prelude::*;

verus! {

/// What of a unit is merged.
#[derive(Debug, Clone, Copy, PartialEq, Eq, Structural)]
pub enum MergeMode {
    /// A unit of its own.
    Full,
    /// A header nested in another: types, typedefs and inheritance.
    TypesOnly,
    /// A header a unit includes: types and symbols, and the facts of internal
    /// C++ bodies, which belong to the receiving unit.
    SymbolsOnly,
    /// A header's own unit ahead of the units that include it.
    HeaderPreamble,
    /// Another configuration of a unit that is already merged.
    Variant,
}

impl MergeMode {
    /// The mode takes over what the unit reports.
    pub open spec fn reports(self) -> bool {
        self == MergeMode::Full || self == MergeMode::HeaderPreamble || self == MergeMode::Variant
    }

    pub fn takes_reports(self) -> (r: bool)
        ensures
            r == self.reports(),
    {
        match self {
            MergeMode::Full => true,
            MergeMode::HeaderPreamble => true,
            MergeMode::Variant => true,
            _ => false,
        }
    }
}

/// A file of a unit or a program.
#[derive(Debug, PartialEq, Eq)]
pub struct FileInfo {
    pub path: String,
    /// The file lies under a dependency root: it offers its declarations, and
    /// its bodies are not the program's code.
    pub is_dep: bool,
}

/// Where a path stands in the table, from position `k`; past the end where it
/// does not.
pub open spec fn path_at(files: Seq<FileInfo>, path: Seq<char>, k: int) -> int
    decreases files.len() - k,
{
    if k < 0 || k >= files.len() {
        files.len() as int
    } else if files[k].path@ == path {
        k
    } else {
        path_at(files, path, k + 1)
    }
}

pub proof fn lemma_path_at(files: Seq<FileInfo>, path: Seq<char>, k: int)
    requires
        0 <= k <= files.len(),
    ensures
        k <= path_at(files, path, k) <= files.len(),
        path_at(files, path, k) < files.len() ==> files[path_at(files, path, k)].path@ == path,
        forall|j: int|
            k <= j < path_at(files, path, k) ==> (#[trigger] files[j]).path@ != path,
    decreases files.len() - k,
{
    if k < files.len() && files[k].path@ != path {
        lemma_path_at(files, path, k + 1);
    }
}

proof fn lemma_path_stays(files: Seq<FileInfo>, more: Seq<FileInfo>, path: Seq<char>, k: int)
    requires
        0 <= k <= files.len(),
        files.is_prefix_of(more),
        path_at(files, path, k) < files.len(),
    ensures
        path_at(more, path, k) == path_at(files, path, k),
    decreases files.len() - k,
{
    if k < files.len() {
        assert(files[k] == more[k]);
        if files[k].path@ != path {
            lemma_path_stays(files, more, path, k + 1);
        }
    }
}

/// A path's number in the table, which is given one if it has none.
pub fn add_file(files: &mut Vec<FileInfo>, file: &FileInfo) -> (r: FileId)
    requires
        old(files)@.len() < u32::MAX,
    ensures
        r.0 == path_at(old(files)@, file.path@, 0),
        final(files)@ == if r.0 < old(files)@.len() {
            old(files)@
        } else {
            old(files)@.push(*file)
        },
        r.0 < final(files)@.len(),
        final(files)@[r.0 as int].path@ == file.path@,
        path_at(final(files)@, file.path@, 0) == r.0,
{
    let mut k: usize = 0;
    while k < files.len()
        invariant
            k <= files@.len(),
            files@.len() < u32::MAX,
            files@ == old(files)@,
            path_at(files@, file.path@, 0) == path_at(files@, file.path@, k as int),
        decreases files@.len() - k,
    {
        if str_eq(files[k].path.as_str(), file.path.as_str()) {
            return FileId(k as u32);
        }
        k += 1;
    }
    let ghost before = files@;
    files.push(FileInfo { path: file.path.clone(), is_dep: file.is_dep });
    proof {
        assert(files@ =~= before.push(*file));
        lemma_path_at(before, file.path@, 0);
        lemma_path_at(files@, file.path@, 0);
        let p = path_at(files@, file.path@, 0);
        assert(files@[k as int].path@ == file.path@);
        if p < k {
            assert(files@[p] == before[p]);
        }
    }
    FileId(k as u32)
}

/// The numbers of a unit's files in the program.
#[derive(Debug, PartialEq, Eq)]
pub struct FileMap {
    /// By the unit's own numbers.
    pub files: Vec<FileId>,
    /// The unit's own file.
    pub primary: FileId,
}

impl FileMap {
    /// The number of a file of the unit. One the unit does not list is its own
    /// file.
    pub open spec fn spec_of(&self, id: FileId) -> FileId {
        if id.0 < self.files@.len() {
            self.files@[id.0 as int]
        } else {
            self.primary
        }
    }

    pub fn of(&self, id: FileId) -> (r: FileId)
        ensures
            r == self.spec_of(id),
    {
        let at = id.0 as usize;
        if at < self.files.len() {
            self.files[at]
        } else {
            self.primary
        }
    }

    pub open spec fn spec_span(&self, span: Span) -> Span {
        Span { file: self.spec_of(span.file), line: span.line, col: span.col }
    }

    pub fn span(&self, span: Span) -> (r: Span)
        ensures
            r == self.spec_span(span),
    {
        Span { file: self.of(span.file), line: span.line, col: span.col }
    }
}

/// The table with the files added that it does not hold.
pub open spec fn with_files(table: Seq<FileInfo>, files: Seq<FileInfo>) -> Seq<FileInfo>
    decreases files.len(),
{
    if files.len() == 0 {
        table
    } else {
        with_file(with_files(table, files.drop_last()), files.last())
    }
}

pub open spec fn with_file(table: Seq<FileInfo>, file: FileInfo) -> Seq<FileInfo> {
    if path_at(table, file.path@, 0) < table.len() {
        table
    } else {
        table.push(file)
    }
}

proof fn lemma_with_file(table: Seq<FileInfo>, file: FileInfo)
    ensures
        table.is_prefix_of(with_file(table, file)),
        path_at(with_file(table, file), file.path@, 0) < with_file(table, file).len(),
        with_file(table, file).len() <= table.len() + 1,
{
    let more = with_file(table, file);
    lemma_path_at(table, file.path@, 0);
    lemma_path_at(more, file.path@, 0);
    if path_at(table, file.path@, 0) >= table.len() {
        let p = path_at(more, file.path@, 0);
        if p >= more.len() {
            assert(more[table.len() as int].path@ == file.path@);
        }
    }
}

pub proof fn lemma_with_files(table: Seq<FileInfo>, files: Seq<FileInfo>)
    ensures
        table.is_prefix_of(with_files(table, files)),
        with_files(table, files).len() <= table.len() + files.len(),
    decreases files.len(),
{
    if files.len() > 0 {
        lemma_with_files(table, files.drop_last());
        lemma_with_file(with_files(table, files.drop_last()), files.last());
    }
}

proof fn lemma_added_are_found(table: Seq<FileInfo>, files: Seq<FileInfo>, k: int)
    requires
        0 <= k < files.len(),
    ensures
        path_at(with_files(table, files), files[k].path@, 0) < with_files(table, files).len(),
    decreases files.len(),
{
    let shorter = with_files(table, files.drop_last());
    lemma_with_file(shorter, files.last());
    if k < files.len() - 1 {
        lemma_added_are_found(table, files.drop_last(), k);
        assert(files.drop_last()[k] == files[k]);
        lemma_path_stays(shorter, with_files(table, files), files[k].path@, 0);
    }
}

proof fn lemma_known_are_not_added(table: Seq<FileInfo>, files: Seq<FileInfo>)
    requires
        forall|k: int|
            0 <= k < files.len() ==> path_at(table, (#[trigger] files[k]).path@, 0) < table.len(),
    ensures
        with_files(table, files) == table,
    decreases files.len(),
{
    if files.len() > 0 {
        let shorter = files.drop_last();
        assert forall|k: int| 0 <= k < shorter.len() implies path_at(
            table,
            (#[trigger] shorter[k]).path@,
            0,
        ) < table.len() by {
            assert(shorter[k] == files[k]);
        }
        lemma_known_are_not_added(table, shorter);
        assert(path_at(table, files[files.len() - 1].path@, 0) < table.len());
    }
}

/// The files of a unit have their numbers once: merging it again adds none.
pub proof fn law_files_are_added_once(
    table: Seq<FileInfo>,
    files: Seq<FileInfo>,
    own: FileInfo,
)
    ensures
        ({
            let all = with_file(with_files(table, files), own);
            with_file(with_files(all, files), own) == all
        }),
{
    let some = with_files(table, files);
    let all = with_file(some, own);
    lemma_with_file(some, own);
    assert forall|k: int| 0 <= k < files.len() implies path_at(
        all,
        (#[trigger] files[k]).path@,
        0,
    ) < all.len() by {
        lemma_added_are_found(table, files, k);
        lemma_path_stays(some, all, files[k].path@, 0);
    }
    lemma_known_are_not_added(all, files);
}

/// Give files their numbers in the table, those it does not hold yet new ones.
pub fn add_files(table: &mut Vec<FileInfo>, files: &Vec<FileInfo>) -> (out: Vec<FileId>)
    requires
        old(table)@.len() + files@.len() <= u32::MAX,
    ensures
        final(table)@ == with_files(old(table)@, files@),
        final(table)@.len() <= old(table)@.len() + files@.len(),
        out@.len() == files@.len(),
        forall|k: int|
            0 <= k < files@.len() ==> (#[trigger] out@[k]).0 == path_at(
                final(table)@,
                files@[k].path@,
                0,
            ) && out@[k].0 < final(table)@.len(),
{
    let ghost first = table@;
    let mut out: Vec<FileId> = Vec::new();
    let mut k: usize = 0;
    while k < files.len()
        invariant
            k <= files@.len(),
            first.len() + files@.len() <= u32::MAX,
            table@ == with_files(first, files@.take(k as int)),
            table@.len() <= first.len() + k,
            out@.len() == k,
            forall|j: int|
                0 <= j < k ==> (#[trigger] out@[j]).0 == path_at(table@, files@[j].path@, 0)
                    && out@[j].0 < table@.len(),
        decreases files@.len() - k,
    {
        let ghost before = table@;
        let id = add_file(table, &files[k]);
        proof {
            assert(files@.take(k + 1).drop_last() =~= files@.take(k as int));
            assert(files@.take(k + 1).last() == files@[k as int]);
            lemma_with_file(before, files@[k as int]);
            lemma_path_at(before, files@[k as int].path@, 0);
            assert forall|j: int| 0 <= j < k implies (#[trigger] out@[j]).0 == path_at(
                table@,
                files@[j].path@,
                0,
            ) by {
                assert(out@[j].0 == path_at(before, files@[j].path@, 0));
                lemma_path_stays(before, table@, files@[j].path@, 0);
            }
        }
        out.push(id);
        k += 1;
    }
    assert(files@.take(k as int) =~= files@);
    out
}

/// Give a unit's files their numbers in the program, its own file last, and
/// note which files the unit's own file brings in.
pub fn merge_files(
    table: &mut Vec<FileInfo>,
    brought_in: &mut Vec<(FileId, FileId)>,
    files: &Vec<FileInfo>,
    own: &FileInfo,
) -> (r: FileMap)
    requires
        old(table)@.len() + files@.len() < u32::MAX,
    ensures
        final(table)@ == with_file(with_files(old(table)@, files@), *own),
        r.files@.len() == files@.len(),
        forall|k: int|
            0 <= k < files@.len() ==> (#[trigger] r.files@[k]).0 == path_at(
                final(table)@,
                files@[k].path@,
                0,
            ) && r.files@[k].0 < final(table)@.len(),
        r.primary.0 == path_at(final(table)@, own.path@, 0),
        r.primary.0 < final(table)@.len(),
        final(brought_in)@ == with_pairs(old(brought_in)@, r.primary, r.files@),
{
    let out = add_files(table, files);
    let ghost before = table@;
    let primary = add_file(table, own);
    proof {
        lemma_with_file(before, *own);
        lemma_path_at(before, own.path@, 0);
        assert forall|j: int| 0 <= j < out@.len() implies (#[trigger] out@[j]).0 == path_at(
            table@,
            files@[j].path@,
            0,
        ) by {
            assert(out@[j].0 == path_at(before, files@[j].path@, 0));
            lemma_path_stays(before, table@, files@[j].path@, 0);
        }
    }
    add_pairs(brought_in, primary, &out);
    FileMap { files: out, primary }
}

/// The pairs with those of `from` and each other file added, once each.
pub open spec fn with_pairs(
    pairs: Seq<(FileId, FileId)>,
    from: FileId,
    files: Seq<FileId>,
) -> Seq<(FileId, FileId)>
    decreases files.len(),
{
    if files.len() == 0 {
        pairs
    } else {
        let before = with_pairs(pairs, from, files.drop_last());
        let pair = (from, files.last());
        if files.last() == from || before.contains(pair) {
            before
        } else {
            before.push(pair)
        }
    }
}

fn holds_pair(pairs: &Vec<(FileId, FileId)>, a: FileId, b: FileId) -> (r: bool)
    ensures
        r == pairs@.contains((a, b)),
{
    let mut k: usize = 0;
    while k < pairs.len()
        invariant
            k <= pairs@.len(),
            forall|j: int| 0 <= j < k ==> #[trigger] pairs@[j] != (a, b),
        decreases pairs@.len() - k,
    {
        if pairs[k].0 == a && pairs[k].1 == b {
            assert(pairs@[k as int] == (a, b));
            return true;
        }
        k += 1;
    }
    false
}

fn add_pairs(pairs: &mut Vec<(FileId, FileId)>, from: FileId, files: &Vec<FileId>)
    ensures
        final(pairs)@ == with_pairs(old(pairs)@, from, files@),
{
    let ghost first = pairs@;
    let mut k: usize = 0;
    while k < files.len()
        invariant
            k <= files@.len(),
            pairs@ == with_pairs(first, from, files@.take(k as int)),
        decreases files@.len() - k,
    {
        proof {
            assert(files@.take(k + 1).drop_last() =~= files@.take(k as int));
            assert(files@.take(k + 1).last() == files@[k as int]);
        }
        if files[k] != from && !holds_pair(pairs, from, files[k]) {
            pairs.push((from, files[k]));
        }
        k += 1;
    }
    assert(files@.take(k as int) =~= files@);
}

#[derive(Debug, Clone, Copy, PartialEq, Eq, Structural)]
pub enum Severity {
    Warning,
    Error,
}

/// A report of one of the stages of indexing.
#[derive(Debug, PartialEq, Eq)]
pub struct Diagnostic {
    pub severity: Severity,
    pub file: Option<FileId>,
    pub line: u32,
    pub message: String,
    pub stage: String,
}

pub struct DiagnosticView {
    pub severity: Severity,
    pub file: Option<FileId>,
    pub line: u32,
    pub message: Seq<char>,
    pub stage: Seq<char>,
}

impl View for Diagnostic {
    type V = DiagnosticView;

    open spec fn view(&self) -> DiagnosticView {
        DiagnosticView {
            severity: self.severity,
            file: self.file,
            line: self.line,
            message: self.message@,
            stage: self.stage@,
        }
    }
}

pub open spec fn reports(v: Seq<Diagnostic>) -> Seq<DiagnosticView> {
    v.map_values(|d: Diagnostic| d@)
}

/// Two reports of one finding: whatever its severity, it is told by where it
/// stands, what it says and which stage says it.
pub open spec fn same_finding(a: DiagnosticView, b: DiagnosticView) -> bool {
    a.file == b.file && a.line == b.line && a.message == b.message && a.stage == b.stage
}

pub open spec fn is_known(known: Seq<DiagnosticView>, d: DiagnosticView) -> bool {
    exists|k: int| 0 <= k < known.len() && same_finding(#[trigger] known[k], d)
}

pub open spec fn placed_report(d: DiagnosticView, map: FileMap) -> DiagnosticView {
    DiagnosticView {
        file: match d.file {
            Some(f) => Some(map.spec_of(f)),
            None => None,
        },
        ..d
    }
}

/// A report that is added: the first of its finding, or one of a stage that
/// may repeat itself. Another configuration of a unit repeats all its stages.
pub open spec fn is_added(known: Seq<DiagnosticView>, d: DiagnosticView, variant: bool) -> bool {
    !is_known(known, d) || !variant && d.stage != "preprocess"@
}

/// The findings known after the reports of a unit.
pub open spec fn known_after(
    known: Seq<DiagnosticView>,
    unit: Seq<DiagnosticView>,
) -> Seq<DiagnosticView>
    decreases unit.len(),
{
    if unit.len() == 0 {
        known
    } else {
        let before = known_after(known, unit.drop_last());
        if is_known(before, unit.last()) {
            before
        } else {
            before.push(unit.last())
        }
    }
}

/// What the reports of a unit add to those of the program.
pub open spec fn added_reports(
    known: Seq<DiagnosticView>,
    unit: Seq<DiagnosticView>,
    variant: bool,
) -> Seq<DiagnosticView>
    decreases unit.len(),
{
    if unit.len() == 0 {
        seq![]
    } else {
        let before = added_reports(known, unit.drop_last(), variant);
        if is_added(known_after(known, unit.drop_last()), unit.last(), variant) {
            before.push(unit.last())
        } else {
            before
        }
    }
}

pub open spec fn placed_reports(unit: Seq<Diagnostic>, map: FileMap) -> Seq<DiagnosticView> {
    unit.map_values(|d: Diagnostic| placed_report(d@, map))
}

fn same_file(a: Option<FileId>, b: Option<FileId>) -> (r: bool)
    ensures
        r == (a == b),
{
    match (a, b) {
        (Some(x), Some(y)) => x == y,
        (None, None) => true,
        _ => false,
    }
}

pub(crate) fn knows(known: &Vec<Diagnostic>, d: &Diagnostic) -> (r: bool)
    ensures
        r == is_known(reports(known@), d@),
{
    let mut k: usize = 0;
    while k < known.len()
        invariant
            k <= known@.len(),
            forall|j: int| 0 <= j < k ==> !same_finding(#[trigger] reports(known@)[j], d@),
        decreases known@.len() - k,
    {
        let own = &known[k];
        assert(reports(known@)[k as int] == own@);
        if same_file(own.file, d.file) && own.line == d.line && str_eq(
            own.message.as_str(),
            d.message.as_str(),
        ) && str_eq(own.stage.as_str(), d.stage.as_str()) {
            return true;
        }
        k += 1;
    }
    false
}

pub(crate) fn copy_report(d: &Diagnostic) -> (r: Diagnostic)
    ensures
        r@ == d@,
{
    Diagnostic {
        severity: d.severity,
        file: d.file,
        line: d.line,
        message: d.message.clone(),
        stage: d.stage.clone(),
    }
}

/// Add the reports of a unit, its files under their numbers in the program.
/// Every finding is noted, whether or not it is added.
pub fn merge_diagnostics(
    diagnostics: &mut Vec<Diagnostic>,
    known: &mut Vec<Diagnostic>,
    unit: &Vec<Diagnostic>,
    map: &FileMap,
    variant: bool,
)
    ensures
        reports(final(diagnostics)@) == reports(old(diagnostics)@) + added_reports(
            reports(old(known)@),
            placed_reports(unit@, *map),
            variant,
        ),
        reports(final(known)@) == known_after(
            reports(old(known)@),
            placed_reports(unit@, *map),
        ),
{
    let ghost first = reports(diagnostics@);
    let ghost seen = reports(known@);
    let ghost all = placed_reports(unit@, *map);
    let mut k: usize = 0;
    assert(first + seq![] =~= first);
    while k < unit.len()
        invariant
            k <= unit@.len(),
            all == placed_reports(unit@, *map),
            reports(diagnostics@) == first + added_reports(seen, all.take(k as int), variant),
            reports(known@) == known_after(seen, all.take(k as int)),
        decreases unit@.len() - k,
    {
        let own = &unit[k];
        let placed = Diagnostic {
            severity: own.severity,
            file: match own.file {
                Some(f) => Some(map.of(f)),
                None => None,
            },
            line: own.line,
            message: own.message.clone(),
            stage: own.stage.clone(),
        };
        proof {
            assert(all.take(k + 1).drop_last() =~= all.take(k as int));
            assert(all.take(k + 1).last() == all[k as int]);
            assert(all[k as int] == placed@);
        }
        let is_first = !knows(known, &placed);
        if is_first {
            let ghost before = known@;
            known.push(copy_report(&placed));
            assert(reports(known@) =~= reports(before).push(placed@));
        }
        if is_first || (!variant && !str_eq(placed.stage.as_str(), "preprocess")) {
            let ghost before = diagnostics@;
            diagnostics.push(placed);
            assert(reports(diagnostics@) =~= reports(before).push(all[k as int]));
        }
        proof {
            assert(reports(diagnostics@) =~= first + added_reports(
                seen,
                all.take(k + 1),
                variant,
            ));
        }
        k += 1;
    }
    assert(all.take(k as int) =~= all);
}

/// A configuration that repeats only findings that are known adds no report.
pub proof fn law_a_variant_repeats_no_report(
    known: Seq<DiagnosticView>,
    unit: Seq<DiagnosticView>,
)
    requires
        forall|k: int| 0 <= k < unit.len() ==> is_known(known, #[trigger] unit[k]),
    ensures
        added_reports(known, unit, true) == Seq::<DiagnosticView>::empty(),
        known_after(known, unit) == known,
    decreases unit.len(),
{
    if unit.len() > 0 {
        assert forall|k: int| 0 <= k < unit.drop_last().len() implies is_known(
            known,
            #[trigger] unit.drop_last()[k],
        ) by {
            assert(unit.drop_last()[k] == unit[k]);
        }
        law_a_variant_repeats_no_report(known, unit.drop_last());
        assert(is_known(known, unit[unit.len() - 1]));
    }
}

/// Whatever the mode, a finding that nothing reported before is added, and
/// every finding of the unit is known afterwards.
pub proof fn law_new_findings_are_reported(
    known: Seq<DiagnosticView>,
    unit: Seq<DiagnosticView>,
    variant: bool,
    k: int,
)
    requires
        0 <= k < unit.len(),
    ensures
        is_known(known_after(known, unit), unit[k]),
        !is_known(known, unit[k]) ==> is_known(added_reports(known, unit, variant), unit[k]),
    decreases unit.len(),
{
    let shorter = unit.drop_last();
    let before = known_after(known, shorter);
    let added = added_reports(known, shorter, variant);
    if k < shorter.len() {
        law_new_findings_are_reported(known, shorter, variant, k);
        assert(shorter[k] == unit[k]);
        if !is_known(before, unit.last()) {
            lemma_still_known(before, unit.last(), unit[k]);
        }
        if !is_known(known, unit[k]) && is_added(before, unit.last(), variant) {
            lemma_still_known(added, unit.last(), unit[k]);
        }
    } else {
        lemma_known_pushed(before, unit.last());
        lemma_known_pushed(added, unit.last());
        if !is_known(known, unit[k]) && is_known(before, unit[k]) {
            lemma_known_were_added(known, shorter, variant, unit[k]);
            if is_added(before, unit.last(), variant) {
                lemma_still_known(added, unit.last(), unit[k]);
            }
        }
    }
}

proof fn lemma_known_pushed(known: Seq<DiagnosticView>, d: DiagnosticView)
    ensures
        is_known(known.push(d), d),
{
    assert(same_finding(known.push(d)[known.len() as int], d));
}

proof fn lemma_still_known(known: Seq<DiagnosticView>, more: DiagnosticView, d: DiagnosticView)
    requires
        is_known(known, d),
    ensures
        is_known(known.push(more), d),
{
    let k = choose|k: int| 0 <= k < known.len() && same_finding(#[trigger] known[k], d);
    assert(known.push(more)[k] == known[k]);
}

proof fn lemma_known_were_added(
    known: Seq<DiagnosticView>,
    unit: Seq<DiagnosticView>,
    variant: bool,
    d: DiagnosticView,
)
    requires
        !is_known(known, d),
        is_known(known_after(known, unit), d),
    ensures
        is_known(added_reports(known, unit, variant), d),
    decreases unit.len(),
{
    if unit.len() > 0 {
        let shorter = unit.drop_last();
        let before = known_after(known, shorter);
        let added = added_reports(known, shorter, variant);
        if is_known(before, d) {
            lemma_known_were_added(known, shorter, variant, d);
            if is_added(before, unit.last(), variant) {
                lemma_still_known(added, unit.last(), d);
            }
        } else {
            let all = known_after(known, unit);
            let k = choose|k: int| 0 <= k < all.len() && same_finding(#[trigger] all[k], d);
            if k < before.len() {
                assert(all[k] == before[k]);
            }
            assert(same_finding(unit.last(), d));
            assert(added.push(unit.last())[added.len() as int] == unit.last());
        }
    }
}

} // verus!
