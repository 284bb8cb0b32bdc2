//! Constraints, returns and reports of a configuration that repeats the first one
//! of its source.

use crate::ir::{FnId, VarId};
use crate::merge;
use crate::merge::{DiagnosticView, MergeMode};
use crate::merge_flow;
use crate::merge_flow::{FlowContext, FlowTablesView};
use crate::program;
use crate::remap;
use crate::remap::{FlowView, ReturnView};
use vstd::prelude::*;

verus! {

/// Two contexts of the constraints of one unit: its first configuration and
/// another one, in which its functions and variables have the same numbers and the
/// same bodies are shared.
pub open spec fn are_flow_configurations(a: FlowContext<'_>, b: FlowContext<'_>) -> bool {
    &&& a.mode == MergeMode::Full
    &&& b.mode == MergeMode::Variant
    &&& a.files@ == b.files@
    &&& program::fn_views(a.functions@) == program::fn_views(b.functions@)
    &&& *a.unit_vars == *b.unit_vars
    &&& a.users@ == b.users@
    &&& a.shares_headers == b.shares_headers
    &&& a.fn_map@ == b.fn_map@
    &&& a.var_map@ == b.var_map@
    &&& a.dropped@ == b.dropped@
}

/// The constraint is among those that a configuration may repeat: of a shared body,
/// or of the unit's first configuration.
spec fn is_held(s: FlowTablesView, from: int, c: FlowContext<'_>, f: FlowView) -> bool {
    let own = remap::flow_in(f, c.fn_map@, c.var_map@);
    if merge_flow::has_shared_var(c, f) {
        s.header_flow.contains(own)
    } else {
        s.flow.skip(from).contains(own)
    }
}

proof fn lemma_still_held(
    s: FlowTablesView,
    from: int,
    c: FlowContext<'_>,
    f: FlowView,
    more: FlowView,
)
    requires
        0 <= from <= s.flow.len(),
        is_held(s, from, c, f),
    ensures
        is_held(FlowTablesView { flow: s.flow.push(more), ..s }, from, c, f),
        is_held(
            FlowTablesView {
                flow: s.flow.push(more),
                header_flow: s.header_flow.push(more),
                ..s
            },
            from,
            c,
            f,
        ),
{
    let own = remap::flow_in(f, c.fn_map@, c.var_map@);
    if merge_flow::has_shared_var(c, f) {
        let i = choose|i: int| 0 <= i < s.header_flow.len() && s.header_flow[i] == own;
        assert(s.header_flow.push(more)[i] == own);
    } else {
        let had = s.flow.skip(from);
        let i = choose|i: int| 0 <= i < had.len() && had[i] == own;
        assert(s.flow.push(more).skip(from)[i] == own);
    }
}

proof fn lemma_first_flow(s: FlowTablesView, c: FlowContext<'_>, flow: Seq<FlowView>, k: int)
    requires
        0 <= k <= flow.len(),
        c.mode == MergeMode::Full,
    ensures
        s.flow.len() <= merge_flow::flow_merged(s, c, flow, k).flow.len(),
        forall|j: int|
            0 <= j < k && remap::is_placed(#[trigger] flow[j], c.fn_map@, c.var_map@) ==> is_held(
                merge_flow::flow_merged(s, c, flow, k),
                s.flow.len() as int,
                c,
                flow[j],
            ),
    decreases k,
{
    if k > 0 {
        lemma_first_flow(s, c, flow, k - 1);
        let b = merge_flow::flow_merged(s, c, flow, k - 1);
        let r = merge_flow::flow_merged(s, c, flow, k);
        let n = s.flow.len() as int;
        let f = flow[k - 1];
        let own = remap::flow_in(f, c.fn_map@, c.var_map@);
        assert forall|j: int| 0 <= j < k && remap::is_placed(
            #[trigger] flow[j],
            c.fn_map@,
            c.var_map@,
        ) implies is_held(r, n, c, flow[j]) by {
            if j < k - 1 {
                lemma_still_held(b, n, c, flow[j], own);
            } else if merge_flow::has_shared_var(c, f) {
                if !b.header_flow.contains(own) {
                    assert(r.header_flow[b.header_flow.len() as int] == own);
                }
            } else {
                assert(r.flow == b.flow.push(own));
                assert(r.flow.skip(n)[b.flow.len() - n] == own);
            }
        }
    }
}

proof fn lemma_same_sharing(a: FlowContext<'_>, b: FlowContext<'_>, f: FlowView)
    requires
        are_flow_configurations(a, b),
    ensures
        merge_flow::has_shared_var(a, f) == merge_flow::has_shared_var(b, f),
{
    assert forall|v: VarId| merge_flow::is_shared_var(a, v) == #[trigger] merge_flow::is_shared_var(
        b,
        v,
    ) by {}
    if merge_flow::has_shared_var(a, f) {
        let k = choose|k: int|
            0 <= k < remap::vars_of(f).len() && merge_flow::is_shared_var(
                a,
                #[trigger] remap::vars_of(f)[k],
            );
        assert(merge_flow::is_shared_var(b, remap::vars_of(f)[k]));
    }
    if merge_flow::has_shared_var(b, f) {
        let k = choose|k: int|
            0 <= k < remap::vars_of(f).len() && merge_flow::is_shared_var(
                b,
                #[trigger] remap::vars_of(f)[k],
            );
        assert(merge_flow::is_shared_var(b, remap::vars_of(f)[k]));
        assert(merge_flow::is_shared_var(a, remap::vars_of(f)[k]));
    }
}

proof fn lemma_again_flow(
    t: FlowTablesView,
    from: int,
    a: FlowContext<'_>,
    b: FlowContext<'_>,
    flow: Seq<FlowView>,
    k: int,
)
    requires
        0 <= k <= flow.len(),
        are_flow_configurations(a, b),
        t.variant_flow == t.flow.skip(from),
        forall|j: int|
            0 <= j < flow.len() && remap::is_placed(#[trigger] flow[j], a.fn_map@, a.var_map@)
                ==> is_held(t, from, a, flow[j]),
    ensures
        merge_flow::flow_merged(t, b, flow, k) == t,
    decreases k,
{
    if k > 0 {
        lemma_again_flow(t, from, a, b, flow, k - 1);
        lemma_same_sharing(a, b, flow[k - 1]);
    }
}

/// A configuration that has the constraints of the first one adds none: they are
/// what the first one added, or what the bodies it shares have.
pub proof fn law_a_repeated_configuration_adds_no_constraint(
    s: FlowTablesView,
    a: FlowContext<'_>,
    b: FlowContext<'_>,
    flow: Seq<FlowView>,
)
    requires
        are_flow_configurations(a, b),
    ensures
        ({
            let first = merge_flow::flow_merged(s, a, flow, flow.len() as int);
            let begun = FlowTablesView {
                variant_flow: first.flow.skip(s.flow.len() as int),
                ..first
            };
            merge_flow::flow_merged(begun, b, flow, flow.len() as int) == begun
        }),
{
    lemma_first_flow(s, a, flow, flow.len() as int);
    let n = s.flow.len() as int;
    let first = merge_flow::flow_merged(s, a, flow, flow.len() as int);
    let begun = FlowTablesView { variant_flow: first.flow.skip(n), ..first };
    assert forall|j: int| 0 <= j < flow.len() && remap::is_placed(
        #[trigger] flow[j],
        a.fn_map@,
        a.var_map@,
    ) implies is_held(begun, n, a, flow[j]) by {
        assert(is_held(first, n, a, flow[j]));
    }
    lemma_again_flow(begun, n, a, b, flow, flow.len() as int);
}

proof fn lemma_entry_at(v: Seq<(FnId, Seq<ReturnView>)>, f: FnId, k: int)
    requires
        0 <= k <= v.len(),
    ensures
        match merge_flow::entry_at(v, f, k) {
            Some(i) => k <= i < v.len() && v[i].0 == f && forall|j: int|
                k <= j < i ==> (#[trigger] v[j]).0 != f,
            None => forall|j: int| k <= j < v.len() ==> (#[trigger] v[j]).0 != f,
        },
    decreases v.len() - k,
{
    if k < v.len() && v[k].0 != f {
        lemma_entry_at(v, f, k + 1);
    }
}

/// There is an entry of `f`, and it holds the facts.
spec fn holds_returns(
    v: Seq<(FnId, Seq<ReturnView>)>,
    f: FnId,
    facts: Seq<ReturnView>,
) -> bool {
    match merge_flow::entry_at(v, f, 0) {
        Some(i) => forall|j: int| 0 <= j < facts.len() ==> v[i].1.contains(#[trigger] facts[j]),
        None => false,
    }
}

/// What an entry of the unit adds to the program's returns.
spec fn facts_of(c: FlowContext<'_>, unit: Seq<ReturnView>) -> Seq<ReturnView> {
    merge_flow::returns_in(unit, c.fn_map@, c.var_map@, unit.len() as int)
}

proof fn lemma_entry_stays(
    v: Seq<(FnId, Seq<ReturnView>)>,
    w: Seq<(FnId, Seq<ReturnView>)>,
    f: FnId,
)
    requires
        v.len() <= w.len(),
        forall|i: int| 0 <= i < v.len() ==> (#[trigger] w[i]).0 == v[i].0,
        merge_flow::entry_at(v, f, 0) is Some,
    ensures
        merge_flow::entry_at(w, f, 0) == merge_flow::entry_at(v, f, 0),
{
    lemma_entry_at(v, f, 0);
    lemma_entry_at(w, f, 0);
    let i = merge_flow::entry_at(v, f, 0)->0;
    assert(w[i].0 == f);
    if let Some(j) = merge_flow::entry_at(w, f, 0) {
        if j < i {
            assert(v[j].0 == w[j].0);
        }
    }
}

proof fn lemma_joined_holds(held: Seq<ReturnView>, more: Seq<ReturnView>, k: int, x: ReturnView)
    requires
        0 <= k <= more.len(),
    ensures
        held.contains(x) ==> merge_flow::returns_joined(held, more, k).contains(x),
        more.take(k).contains(x) ==> merge_flow::returns_joined(held, more, k).contains(x),
    decreases k,
{
    if k > 0 {
        lemma_joined_holds(held, more, k - 1, x);
        let before = merge_flow::returns_joined(held, more, k - 1);
        let after = merge_flow::returns_joined(held, more, k);
        if more.take(k).contains(x) && x != more[k - 1] {
            let i = choose|i: int| 0 <= i < more.take(k).len() && more.take(k)[i] == x;
            assert(more.take(k - 1)[i] == x);
        }
        if before.contains(x) {
            let i = choose|i: int| 0 <= i < before.len() && before[i] == x;
            assert(after[i] == x);
        } else if x == more[k - 1] {
            assert(after[before.len() as int] == x);
        }
    }
}

proof fn lemma_step_holds(
    s: Seq<(FnId, Seq<ReturnView>)>,
    c: FlowContext<'_>,
    f: FnId,
    unit: Seq<ReturnView>,
)
    ensures
        forall|g: FnId, facts: Seq<ReturnView>|
            holds_returns(s, g, facts) ==> #[trigger] holds_returns(
                merge_flow::return_step(s, c, f, unit),
                g,
                facts,
            ),
        merge_flow::returning_fn(c, f) matches Some(own) ==> holds_returns(
            merge_flow::return_step(s, c, f, unit),
            own,
            facts_of(c, unit),
        ),
{
    let t = merge_flow::return_step(s, c, f, unit);
    if let Some(own) = merge_flow::returning_fn(c, f) {
        let facts = facts_of(c, unit);
        lemma_entry_at(s, own, 0);
        lemma_entry_at(t, own, 0);
        let held = match merge_flow::entry_at(s, own, 0) {
            Some(k) => s[k].1,
            None => seq![],
        };
        assert(facts.take(facts.len() as int) =~= facts);
        let at = match merge_flow::entry_at(s, own, 0) {
            Some(k) => k,
            None => s.len() as int,
        };
        assert(t[at].0 == own);
        assert(merge_flow::entry_at(t, own, 0) == Some(at)) by {
            if let Some(j) = merge_flow::entry_at(t, own, 0) {
                if j < at {
                    assert(s[j].0 == t[j].0);
                }
            }
        }
        assert forall|x: ReturnView| facts.contains(x) || held.contains(x) implies #[trigger]
        t[at].1.contains(x) by {
            lemma_joined_holds(held, facts, facts.len() as int, x);
            let sum = held + facts;
            if held.contains(x) {
                let i = choose|i: int| 0 <= i < held.len() && held[i] == x;
                assert(sum[i] == x);
            } else {
                let i = choose|i: int| 0 <= i < facts.len() && facts[i] == x;
                assert(sum[held.len() + i] == x);
            }
        }
        assert forall|j: int| 0 <= j < facts.len() implies t[at].1.contains(
            #[trigger] facts[j],
        ) by {
            assert(facts.contains(facts[j]));
        }
        assert forall|g: FnId, more: Seq<ReturnView>| holds_returns(s, g, more) implies #[trigger]
        holds_returns(t, g, more) by {
            lemma_entry_at(s, g, 0);
            lemma_entry_stays(s, t, g);
            let i = merge_flow::entry_at(s, g, 0)->0;
            assert forall|j: int| 0 <= j < more.len() implies t[i].1.contains(
                #[trigger] more[j],
            ) by {
                assert(s[i].1.contains(more[j]));
            }
        }
    }
}

proof fn lemma_first_returns(
    s: Seq<(FnId, Seq<ReturnView>)>,
    c: FlowContext<'_>,
    unit: Seq<(FnId, Seq<ReturnView>)>,
    k: int,
)
    requires
        0 <= k <= unit.len(),
    ensures
        forall|j: int|
            0 <= j < k ==> (merge_flow::returning_fn(c, (#[trigger] unit[j]).0) matches Some(own)
                ==> holds_returns(
                merge_flow::returns_merged(s, c, unit, k),
                own,
                facts_of(c, unit[j].1),
            )),
    decreases k,
{
    if k > 0 {
        lemma_first_returns(s, c, unit, k - 1);
        let before = merge_flow::returns_merged(s, c, unit, k - 1);
        lemma_step_holds(before, c, unit[k - 1].0, unit[k - 1].1);
    }
}

proof fn lemma_joined_is_held(held: Seq<ReturnView>, more: Seq<ReturnView>, k: int)
    requires
        0 <= k <= more.len(),
        forall|i: int| 0 <= i < more.len() ==> held.contains(#[trigger] more[i]),
    ensures
        merge_flow::returns_joined(held, more, k) == held,
    decreases k,
{
    if k > 0 {
        lemma_joined_is_held(held, more, k - 1);
        assert(held.contains(more[k - 1]));
    }
}

/// A configuration that returns what the first one returned adds no return.
pub proof fn law_a_repeated_configuration_adds_no_return(
    s: Seq<(FnId, Seq<ReturnView>)>,
    a: FlowContext<'_>,
    b: FlowContext<'_>,
    unit: Seq<(FnId, Seq<ReturnView>)>,
)
    requires
        are_flow_configurations(a, b),
    ensures
        ({
            let first = merge_flow::returns_merged(s, a, unit, unit.len() as int);
            merge_flow::returns_merged(first, b, unit, unit.len() as int) == first
        }),
{
    lemma_first_returns(s, a, unit, unit.len() as int);
    lemma_again_returns(
        merge_flow::returns_merged(s, a, unit, unit.len() as int),
        a,
        b,
        unit,
        unit.len() as int,
    );
}

proof fn lemma_again_returns(
    t: Seq<(FnId, Seq<ReturnView>)>,
    a: FlowContext<'_>,
    b: FlowContext<'_>,
    unit: Seq<(FnId, Seq<ReturnView>)>,
    k: int,
)
    requires
        0 <= k <= unit.len(),
        are_flow_configurations(a, b),
        forall|j: int|
            0 <= j < unit.len() ==> (merge_flow::returning_fn(
                a,
                (#[trigger] unit[j]).0,
            ) matches Some(own) ==> holds_returns(t, own, facts_of(a, unit[j].1))),
    ensures
        merge_flow::returns_merged(t, b, unit, k) == t,
    decreases k,
{
    if k > 0 {
        lemma_again_returns(t, a, b, unit, k - 1);
        let f = unit[k - 1].0;
        assert(merge_flow::returning_fn(a, f) == merge_flow::returning_fn(b, f));
        if let Some(own) = merge_flow::returning_fn(b, f) {
            let facts = facts_of(a, unit[k - 1].1);
            assert(holds_returns(t, own, facts));
            lemma_entry_at(t, own, 0);
            let i = merge_flow::entry_at(t, own, 0)->0;
            lemma_joined_is_held(t[i].1, facts, facts.len() as int);
            assert(t.update(i, (own, t[i].1)) =~= t);
        }
    }
}

/// A configuration that reports what the first one reported adds no report.
pub proof fn law_a_repeated_configuration_adds_no_report(
    known: Seq<DiagnosticView>,
    reports: Seq<DiagnosticView>,
)
    ensures
        merge::added_reports(merge::known_after(known, reports), reports, true).len() == 0,
        merge::known_after(merge::known_after(known, reports), reports) == merge::known_after(
            known,
            reports,
        ),
{
    let all = merge::known_after(known, reports);
    assert forall|k: int| 0 <= k < reports.len() implies merge::is_known(
        all,
        #[trigger] reports[k],
    ) by {
        merge::law_new_findings_are_reported(known, reports, true, k);
    }
    merge::law_a_variant_repeats_no_report(all, reports);
}

} // verus!
