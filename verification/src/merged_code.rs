//! What merging a unit takes over of its code: the constraints, what functions return,
//! the variables and the files.

use crate::ir::{FileId, FnId, StorageClass, VarId};
use crate::merge;
use crate::merge::{FileInfo, MergeMode};
use crate::merge_flow;
use crate::merge_flow::{FlowContext, FlowTablesView};
use crate::merge_vars;
use crate::merge_vars::{VarContext, VarTablesView};
use crate::program;
use crate::program::{FnView, Variable};
use crate::remap;
use crate::remap::{FlowView, ReturnView};
use vstd::prelude::*;

verus! {

/// The variable has the number in the program.
pub open spec fn becomes(vars: Map<u32, u32>, own: VarId, id: VarId) -> bool {
    vars.dom().contains(own.0) && vars[own.0] == id.0
}

/// The function has the number in the program.
pub open spec fn fn_becomes(fns: Map<u32, u32>, own: FnId, id: FnId) -> bool {
    fns.dom().contains(own.0) && fns[own.0] == id.0
}

/// The constraint `g` says in the program's numbers what `f` says in the unit's.
pub open spec fn says_the_same(
    f: FlowView,
    g: FlowView,
    fns: Map<u32, u32>,
    vars: Map<u32, u32>,
) -> bool {
    match (f, g) {
        (FlowView::Copy { dst: a, src: b }, FlowView::Copy { dst, src }) => becomes(vars, a, dst)
            && becomes(vars, b, src),
        (FlowView::AddrOfVar { dst: a, src: b }, FlowView::AddrOfVar { dst, src }) => becomes(
            vars,
            a,
            dst,
        ) && becomes(vars, b, src),
        (FlowView::AddrOfFn { dst: a, callee: b }, FlowView::AddrOfFn { dst, callee }) => becomes(
            vars,
            a,
            dst,
        ) && fn_becomes(fns, b, callee),
        (FlowView::Load { dst: a, src: b }, FlowView::Load { dst, src }) => becomes(vars, a, dst)
            && becomes(vars, b, src),
        (FlowView::Store { dst: a, src: b }, FlowView::Store { dst, src }) => becomes(vars, a, dst)
            && becomes(vars, b, src),
        (
            FlowView::UnwrapPointer { dst: a, src: b },
            FlowView::UnwrapPointer { dst, src },
        ) => becomes(vars, a, dst) && becomes(vars, b, src),
        (
            FlowView::GepField { dst: a, base: b, field: x, field_name: m },
            FlowView::GepField { dst, base, field, field_name },
        ) => becomes(vars, a, dst) && becomes(vars, b, base) && x == field && m == field_name,
        (
            FlowView::ArrayFnMember { array: a, callee: b },
            FlowView::ArrayFnMember { array, callee },
        ) => becomes(vars, a, array) && fn_becomes(fns, b, callee),
        (
            FlowView::CallReturn { dst: a, callee_name: m, caller: b },
            FlowView::CallReturn { dst, callee_name, caller },
        ) => becomes(vars, a, dst) && m == callee_name && (match (b, caller) {
            (Some(x), Some(y)) => fn_becomes(fns, x, y),
            (None, None) => true,
            _ => false,
        }),
        (
            FlowView::CallReturnIndirect { dst: a, callee_var: b },
            FlowView::CallReturnIndirect { dst, callee_var },
        ) => becomes(vars, a, dst) && becomes(vars, b, callee_var),
        (FlowView::NewHeap { dst: a }, FlowView::NewHeap { dst }) => becomes(vars, a, dst),
        (FlowView::StringConst { dst: a, value: m }, FlowView::StringConst { dst, value }) => {
            becomes(vars, a, dst) && m == value
        },
        _ => false,
    }
}

/// A constraint whose variables and functions the program knows says the same there.
pub proof fn law_renumbered_constraints_say_the_same(
    f: FlowView,
    fns: Map<u32, u32>,
    vars: Map<u32, u32>,
)
    ensures
        remap::is_placed(f, fns, vars) <==> says_the_same(
            f,
            remap::flow_in(f, fns, vars),
            fns,
            vars,
        ),
{
    let v = remap::vars_of(f);
    if remap::is_placed(f, fns, vars) {
        assert(v.len() > 0 ==> vars.dom().contains(v[0].0));
        assert(v.len() > 1 ==> vars.dom().contains(v[1].0));
    }
    if says_the_same(f, remap::flow_in(f, fns, vars), fns, vars) {
        assert forall|k: int| 0 <= k < v.len() implies vars.dom().contains((#[trigger] v[k]).0) by {
            assert(k == 0 || k == 1);
        }
    }
}

/// What the tables of header bodies and of configurations hold, the program holds.
pub open spec fn holds_its_own(s: FlowTablesView) -> bool {
    &&& forall|i: int|
        0 <= i < s.header_flow.len() ==> s.flow.contains(#[trigger] s.header_flow[i])
    &&& forall|i: int|
        0 <= i < s.variant_flow.len() ==> s.flow.contains(#[trigger] s.variant_flow[i])
}

pub open spec fn arrives(
    f: FlowView,
    flow: Seq<FlowView>,
    fns: Map<u32, u32>,
    vars: Map<u32, u32>,
) -> bool {
    exists|i: int| 0 <= i < flow.len() && says_the_same(f, #[trigger] flow[i], fns, vars)
}

proof fn lemma_step(
    s: FlowTablesView,
    c: FlowContext<'_>,
    unit: Seq<FlowView>,
    f: FlowView,
)
    requires
        holds_its_own(s),
    ensures
        ({
            let e = merge_flow::flow_step(s, c, unit, f);
            &&& holds_its_own(e)
            &&& s.flow.is_prefix_of(e.flow)
            &&& merge_flow::is_taken(c, unit, f) ==> e.flow.contains(
                remap::flow_in(f, c.fn_map@, c.var_map@),
            )
        }),
{
    let own = remap::flow_in(f, c.fn_map@, c.var_map@);
    let e = merge_flow::flow_step(s, c, unit, f);
    if e.flow != s.flow {
        assert(e.flow == s.flow.push(own));
        assert(e.flow[s.flow.len() as int] == own);
        assert(s.flow.is_prefix_of(e.flow)) by {
            assert(e.flow.take(s.flow.len() as int) =~= s.flow);
        }
        assert forall|i: int| 0 <= i < e.header_flow.len() implies e.flow.contains(
            #[trigger] e.header_flow[i],
        ) by {
            if i < s.header_flow.len() {
                assert(e.header_flow[i] == s.header_flow[i]);
                let j = choose|j: int| 0 <= j < s.flow.len() && s.flow[j] == s.header_flow[i];
                assert(e.flow[j] == e.header_flow[i]);
            }
        }
        assert forall|i: int| 0 <= i < e.variant_flow.len() implies e.flow.contains(
            #[trigger] e.variant_flow[i],
        ) by {
            if i < s.variant_flow.len() {
                assert(e.variant_flow[i] == s.variant_flow[i]);
                let j = choose|j: int| 0 <= j < s.flow.len() && s.flow[j] == s.variant_flow[i];
                assert(e.flow[j] == e.variant_flow[i]);
            }
        }
    } else if merge_flow::is_taken(c, unit, f) {
        if merge_flow::has_shared_var(c, f) {
            if !s.header_flow.contains(own) {
                assert(e.flow.len() == s.flow.len() + 1);
            }
            let i = choose|i: int| 0 <= i < s.header_flow.len() && s.header_flow[i] == own;
            assert(s.flow.contains(s.header_flow[i]));
        } else if c.mode == MergeMode::Variant {
            if !s.variant_flow.contains(own) {
                assert(e.flow.len() == s.flow.len() + 1);
            }
            let i = choose|i: int| 0 <= i < s.variant_flow.len() && s.variant_flow[i] == own;
            assert(s.flow.contains(s.variant_flow[i]));
        } else {
            assert(e.flow.len() == s.flow.len() + 1);
        }
    } else {
        assert(s.flow.is_prefix_of(e.flow));
    }
}

proof fn lemma_merged(
    s: FlowTablesView,
    c: FlowContext<'_>,
    unit: Seq<FlowView>,
    k: int,
    j: int,
)
    requires
        holds_its_own(s),
        0 <= k <= unit.len(),
        0 <= j < unit.len(),
    ensures
        ({
            let e = merge_flow::flow_merged(s, c, unit, k);
            &&& holds_its_own(e)
            &&& s.flow.is_prefix_of(e.flow)
            &&& j < k && merge_flow::is_taken(c, unit, unit[j]) ==> e.flow.contains(
                remap::flow_in(unit[j], c.fn_map@, c.var_map@),
            )
        }),
    decreases k,
{
    if k > 0 {
        lemma_merged(s, c, unit, k - 1, j);
        let before = merge_flow::flow_merged(s, c, unit, k - 1);
        let e = merge_flow::flow_merged(s, c, unit, k);
        lemma_step(before, c, unit, unit[k - 1]);
        assert(s.flow =~= e.flow.take(s.flow.len() as int));
        let own = remap::flow_in(unit[j], c.fn_map@, c.var_map@);
        if j < k - 1 && merge_flow::is_taken(c, unit, unit[j]) {
            let i = choose|i: int| 0 <= i < before.flow.len() && before.flow[i] == own;
            assert(e.flow[i] == own);
        }
    }
}

/// Merging a unit loses no constraint that the program can name: each arrives, and what
/// the program held stays where it was.
pub proof fn law_every_constraint_arrives(
    s: FlowTablesView,
    c: FlowContext<'_>,
    unit: Seq<FlowView>,
    j: int,
)
    requires
        holds_its_own(s),
        0 <= j < unit.len(),
        remap::is_placed(unit[j], c.fn_map@, c.var_map@),
    ensures
        s.flow.is_prefix_of(merge_flow::flow_merged(s, c, unit, unit.len() as int).flow),
        c.mode != MergeMode::SymbolsOnly ==> arrives(
            unit[j],
            merge_flow::flow_merged(s, c, unit, unit.len() as int).flow,
            c.fn_map@,
            c.var_map@,
        ),
        merge_flow::has_internal_var(c, unit[j]) || merge_flow::names_internal(c, unit[j])
            ==> arrives(
            unit[j],
            merge_flow::flow_merged(s, c, unit, unit.len() as int).flow,
            c.fn_map@,
            c.var_map@,
        ),
{
    lemma_merged(s, c, unit, unit.len() as int, j);
    law_renumbered_constraints_say_the_same(unit[j], c.fn_map@, c.var_map@);
    let e = merge_flow::flow_merged(s, c, unit, unit.len() as int).flow;
    let own = remap::flow_in(unit[j], c.fn_map@, c.var_map@);
    if merge_flow::is_taken(c, unit, unit[j]) {
        let i = choose|i: int| 0 <= i < e.len() && e[i] == own;
        assert(says_the_same(unit[j], e[i], c.fn_map@, c.var_map@));
    }
}

/// A unit of its own, which shares no header body, adds each of its constraints once, in
/// order.
pub proof fn law_a_unit_adds_its_constraints_in_order(
    s: FlowTablesView,
    c: FlowContext<'_>,
    unit: Seq<FlowView>,
)
    requires
        c.mode == MergeMode::Full || c.mode == MergeMode::HeaderPreamble,
        !c.shares_headers,
    ensures
        merge_flow::flow_merged(s, c, unit, unit.len() as int).flow == s.flow + unit.filter(
            |f: FlowView| remap::is_placed(f, c.fn_map@, c.var_map@),
        ).map_values(|f: FlowView| remap::flow_in(f, c.fn_map@, c.var_map@)),
{
    lemma_in_order(s, c, unit, unit.len() as int);
    assert(unit.take(unit.len() as int) =~= unit);
}

proof fn lemma_in_order(s: FlowTablesView, c: FlowContext<'_>, unit: Seq<FlowView>, k: int)
    requires
        c.mode == MergeMode::Full || c.mode == MergeMode::HeaderPreamble,
        !c.shares_headers,
        0 <= k <= unit.len(),
    ensures
        merge_flow::flow_merged(s, c, unit, k).flow == s.flow + unit.take(k).filter(
            |f: FlowView| remap::is_placed(f, c.fn_map@, c.var_map@),
        ).map_values(|f: FlowView| remap::flow_in(f, c.fn_map@, c.var_map@)),
    decreases k,
{
    reveal(Seq::filter);
    let p = |f: FlowView| remap::is_placed(f, c.fn_map@, c.var_map@);
    let m = |f: FlowView| remap::flow_in(f, c.fn_map@, c.var_map@);
    if k > 0 {
        lemma_in_order(s, c, unit, k - 1);
        let some = unit.take(k);
        assert(some.drop_last() =~= unit.take(k - 1));
        assert(some.last() == unit[k - 1]);
        let before = unit.take(k - 1).filter(p);
        if p(unit[k - 1]) {
            assert(some.filter(p) =~= before.push(unit[k - 1]));
            assert(some.filter(p).map_values(m) =~= before.map_values(m).push(m(unit[k - 1])));
            assert(s.flow + some.filter(p).map_values(m) =~= (s.flow + before.map_values(m)).push(
                m(unit[k - 1]),
            ));
        } else {
            assert(some.filter(p) =~= before);
        }
    } else {
        assert(unit.take(0) =~= Seq::empty());
        assert(s.flow + unit.take(0).filter(p).map_values(m) =~= s.flow);
    }
}

/// A header that a unit brings in adds no constraint but those of internal bodies and of
/// the variables that lead to them.
pub proof fn law_headers_add_internal_constraints_only(
    s: FlowTablesView,
    c: FlowContext<'_>,
    unit: Seq<FlowView>,
)
    requires
        c.mode == MergeMode::SymbolsOnly,
        forall|j: int|
            0 <= j < unit.len() ==> !merge_flow::has_internal_var(c, #[trigger] unit[j])
                && !merge_flow::names_internal(c, unit[j]),
    ensures
        merge_flow::flow_merged(s, c, unit, unit.len() as int) == s,
{
    lemma_nothing(s, c, unit, unit.len() as int);
}

proof fn lemma_nothing(s: FlowTablesView, c: FlowContext<'_>, unit: Seq<FlowView>, k: int)
    requires
        c.mode == MergeMode::SymbolsOnly,
        forall|j: int|
            0 <= j < unit.len() ==> !merge_flow::has_internal_var(c, #[trigger] unit[j])
                && !merge_flow::names_internal(c, unit[j]),
        0 <= k <= unit.len(),
    ensures
        merge_flow::flow_merged(s, c, unit, k) == s,
    decreases k,
{
    if k > 0 {
        lemma_nothing(s, c, unit, k - 1);
        let f = unit[k - 1];
        if merge_flow::supports(c, unit, f) {
            let (a, b) = merge_flow::ties(f)->0;
            let path = choose|path: Seq<VarId>| #[trigger]
                merge_flow::is_way(c, unit, path) && path.last() == a;
            let i = choose|i: int|
                0 <= i < unit.len() && merge_flow::names_internal(c, #[trigger] unit[i])
                    && remap::vars_of(unit[i]).contains(path[0]);
            assert(!merge_flow::names_internal(c, unit[i]));
        }
    }
}

/// What a function returns says the same in the program.
pub open spec fn returns_the_same(
    f: ReturnView,
    g: ReturnView,
    fns: Map<u32, u32>,
    vars: Map<u32, u32>,
) -> bool {
    match (f, g) {
        (ReturnView::AddrOfVar { src: a }, ReturnView::AddrOfVar { src }) => becomes(vars, a, src),
        (ReturnView::AddrOfFn { callee: a }, ReturnView::AddrOfFn { callee }) => fn_becomes(
            fns,
            a,
            callee,
        ),
        (ReturnView::Copy { src: a }, ReturnView::Copy { src }) => becomes(vars, a, src),
        (ReturnView::Call { callee_name: m }, ReturnView::Call { callee_name }) => m
            == callee_name,
        _ => false,
    }
}

proof fn lemma_returns_in(
    v: Seq<ReturnView>,
    fns: Map<u32, u32>,
    vars: Map<u32, u32>,
    k: int,
    j: int,
)
    requires
        0 <= k <= v.len(),
        0 <= j < v.len(),
        remap::return_is_placed(v[j], fns, vars),
    ensures
        j < k ==> merge_flow::returns_in(v, fns, vars, k).contains(
            remap::return_in(v[j], fns, vars),
        ),
    decreases k,
{
    if k > 0 {
        lemma_returns_in(v, fns, vars, k - 1, j);
        let before = merge_flow::returns_in(v, fns, vars, k - 1);
        let all = merge_flow::returns_in(v, fns, vars, k);
        let own = remap::return_in(v[j], fns, vars);
        if j == k - 1 {
            assert(all[before.len() as int] == own);
        } else if j < k - 1 {
            let i = choose|i: int| 0 <= i < before.len() && before[i] == own;
            assert(all[i] == own);
        }
    }
}

proof fn lemma_returns_joined(held: Seq<ReturnView>, more: Seq<ReturnView>, k: int, x: ReturnView)
    requires
        0 <= k <= more.len(),
    ensures
        merge_flow::returns_joined(held, more, k).contains(x) <==> held.contains(x) || exists|
            i: int,
        |
            0 <= i < k && #[trigger] more[i] == x,
    decreases k,
{
    if k > 0 {
        lemma_returns_joined(held, more, k - 1, x);
        let before = merge_flow::returns_joined(held, more, k - 1);
        let all = merge_flow::returns_joined(held, more, k);
        if !before.contains(more[k - 1]) {
            assert(all[before.len() as int] == more[k - 1]);
            if before.contains(x) {
                let i = choose|i: int| 0 <= i < before.len() && before[i] == x;
                assert(all[i] == x);
            }
        }
        if more[k - 1] == x {
            assert(all.contains(x));
        }
    }
}

/// A function of the program returns `x`.
pub open spec fn is_returned(s: Seq<(FnId, Seq<ReturnView>)>, f: FnId, x: ReturnView) -> bool {
    exists|k: int| 0 <= k < s.len() && (#[trigger] s[k]).0 == f && s[k].1.contains(x)
}

proof fn lemma_entry_at(v: Seq<(FnId, Seq<ReturnView>)>, f: FnId, k: int)
    requires
        0 <= k <= v.len(),
    ensures
        match merge_flow::entry_at(v, f, k) {
            Some(i) => k <= i < v.len() && v[i].0 == f && forall|j: int|
                k <= j < i ==> (#[trigger] v[j]).0 != f,
            None => forall|j: int| k <= j < v.len() ==> (#[trigger] v[j]).0 != f,
        },
    decreases v.len() - k,
{
    if k < v.len() && v[k].0 != f {
        lemma_entry_at(v, f, k + 1);
    }
}

/// What the program knew that functions return it still knows, but for functions with two
/// entries it is kept in the first.
pub open spec fn has_one_entry(s: Seq<(FnId, Seq<ReturnView>)>) -> bool {
    forall|i: int, j: int| 0 <= i < j < s.len() ==> (#[trigger] s[i]).0 != (#[trigger] s[j]).0
}

proof fn lemma_return_step(
    s: Seq<(FnId, Seq<ReturnView>)>,
    c: FlowContext<'_>,
    f: FnId,
    unit: Seq<ReturnView>,
    j: int,
    g: FnId,
    x: ReturnView,
)
    requires
        has_one_entry(s),
    ensures
        ({
            let e = merge_flow::return_step(s, c, f, unit);
            &&& has_one_entry(e)
            &&& is_returned(s, g, x) ==> is_returned(e, g, x)
            &&& 0 <= j < unit.len() && remap::return_is_placed(unit[j], c.fn_map@, c.var_map@)
                && merge_flow::returning_fn(c, f) is Some ==> is_returned(
                e,
                merge_flow::returning_fn(c, f)->0,
                remap::return_in(unit[j], c.fn_map@, c.var_map@),
            )
        }),
{
    let e = merge_flow::return_step(s, c, f, unit);
    if let Some(own) = merge_flow::returning_fn(c, f) {
        lemma_entry_at(s, own, 0);
        let facts = merge_flow::returns_in(unit, c.fn_map@, c.var_map@, unit.len() as int);
        let held = match merge_flow::entry_at(s, own, 0) {
            Some(k) => s[k].1,
            None => seq![],
        };
        let at = match merge_flow::entry_at(s, own, 0) {
            Some(k) => k,
            None => s.len() as int,
        };
        let all = e[at].1;
        assert(e[at].0 == own);
        assert forall|y: ReturnView| held.contains(y) || facts.contains(y) implies all.contains(
            y,
        ) by {
            lemma_returns_joined(held, facts, facts.len() as int, y);
            if facts.contains(y) {
                let i = choose|i: int| 0 <= i < facts.len() && facts[i] == y;
                assert(facts[i] == y);
                assert((held + facts)[held.len() + i] == y);
            }
            if held.contains(y) {
                let i = choose|i: int| 0 <= i < held.len() && held[i] == y;
                assert((held + facts)[i] == y);
            }
        }
        if 0 <= j < unit.len() && remap::return_is_placed(unit[j], c.fn_map@, c.var_map@) {
            lemma_returns_in(unit, c.fn_map@, c.var_map@, unit.len() as int, j);
            assert(e[at].1.contains(remap::return_in(unit[j], c.fn_map@, c.var_map@)));
        }
        if is_returned(s, g, x) {
            let k = choose|k: int| 0 <= k < s.len() && (#[trigger] s[k]).0 == g && s[k].1.contains(
                x,
            );
            if g == own {
                assert(k == at);
                assert(e[at].1.contains(x));
            } else {
                assert(e[k] == s[k]);
            }
        }
    }
}

proof fn lemma_returns_merged(
    s: Seq<(FnId, Seq<ReturnView>)>,
    c: FlowContext<'_>,
    unit: Seq<(FnId, Seq<ReturnView>)>,
    k: int,
    i: int,
    j: int,
    g: FnId,
    x: ReturnView,
)
    requires
        has_one_entry(s),
        0 <= k <= unit.len(),
        0 <= i < unit.len(),
        0 <= j < unit[i].1.len(),
    ensures
        ({
            let e = merge_flow::returns_merged(s, c, unit, k);
            &&& has_one_entry(e)
            &&& is_returned(s, g, x) ==> is_returned(e, g, x)
            &&& i < k && remap::return_is_placed(unit[i].1[j], c.fn_map@, c.var_map@)
                && merge_flow::returning_fn(c, unit[i].0) is Some ==> is_returned(
                e,
                merge_flow::returning_fn(c, unit[i].0)->0,
                remap::return_in(unit[i].1[j], c.fn_map@, c.var_map@),
            )
        }),
    decreases k,
{
    if k > 0 {
        lemma_returns_merged(s, c, unit, k - 1, i, j, g, x);
        let before = merge_flow::returns_merged(s, c, unit, k - 1);
        let own = remap::return_in(unit[i].1[j], c.fn_map@, c.var_map@);
        lemma_return_step(before, c, unit[k - 1].0, unit[k - 1].1, j, g, x);
        if merge_flow::returning_fn(c, unit[i].0) is Some {
            lemma_return_step(
                before,
                c,
                unit[k - 1].0,
                unit[k - 1].1,
                j,
                merge_flow::returning_fn(c, unit[i].0)->0,
                own,
            );
        }
    }
}

/// Merging a unit loses nothing that its functions return: what the program can name is
/// returned there by the function that the unit's became, and what was known stays.
pub proof fn law_every_return_arrives(
    s: Seq<(FnId, Seq<ReturnView>)>,
    c: FlowContext<'_>,
    unit: Seq<(FnId, Seq<ReturnView>)>,
    i: int,
    j: int,
    id: FnId,
    g: FnId,
    x: ReturnView,
)
    requires
        has_one_entry(s),
        0 <= i < unit.len(),
        0 <= j < unit[i].1.len(),
    ensures
        ({
            let e = merge_flow::returns_merged(s, c, unit, unit.len() as int);
            let fns = program::fn_views(c.functions@);
            &&& is_returned(s, g, x) ==> is_returned(e, g, x)
            &&& fn_becomes(c.fn_map@, unit[i].0, id) && !c.dropped@.contains(unit[i].0.0) && !(
            program::fn_by_id(fns, id) matches Some(own) && merge_vars::is_dep(
                c.files@,
                own.file,
            )) && c.mode != MergeMode::SymbolsOnly && remap::return_is_placed(
                unit[i].1[j],
                c.fn_map@,
                c.var_map@,
            ) ==> exists|y: ReturnView| #[trigger]
                is_returned(e, id, y) && returns_the_same(
                    unit[i].1[j],
                    y,
                    c.fn_map@,
                    c.var_map@,
                )
        }),
{
    lemma_returns_merged(s, c, unit, unit.len() as int, i, j, g, x);
    let e = merge_flow::returns_merged(s, c, unit, unit.len() as int);
    let own = remap::return_in(unit[i].1[j], c.fn_map@, c.var_map@);
    if merge_flow::returning_fn(c, unit[i].0) == Some(id) && remap::return_is_placed(
        unit[i].1[j],
        c.fn_map@,
        c.var_map@,
    ) {
        assert(is_returned(e, id, own));
        assert(returns_the_same(unit[i].1[j], own, c.fn_map@, c.var_map@));
    }
}

/// The program's variable says of itself what the unit's does, but for its numbers and
/// its file.
pub open spec fn is_taken_over(v: Variable, var: Variable, c: VarContext<'_>) -> bool {
    &&& v.name == var.name
    &&& v.storage == var.storage
    &&& v.param_index == var.param_index
    &&& v.is_pointer == var.is_pointer
    &&& v.is_defined == var.is_defined
    &&& v.is_weak == var.is_weak
    &&& v.is_namespaced == var.is_namespaced
    &&& v.symbol == var.symbol
    &&& v.target == var.target
    &&& v.span.line == var.span.line
    &&& v.span.col == var.span.col
    &&& v.span.file == c.map.spec_of(var.span.file)
    &&& var.type_id.0 < c.type_map@.len() ==> v.type_id == c.type_map@[var.type_id.0 as int]
}

/// A variable that the program takes in is there as the unit has it, in the function that
/// its own became, under a number that it is from there on known by.
pub proof fn law_new_variables_are_taken_over(s: VarTablesView, c: VarContext<'_>, var: Variable)
    requires
        s.next_var < u32::MAX,
        merge_vars::var_route(s, c, var) is New,
    ensures
        ({
            let e = merge_vars::var_step(s, c, var);
            &&& e.variables.len() == s.variables.len() + 1
            &&& e.variables.drop_last() == s.variables
            &&& is_taken_over(e.variables.last(), var, c)
            &&& e.variables.last().id.0 == s.next_var
            &&& becomes(e.var_map, var.id, e.variables.last().id)
            &&& e.next_var == s.next_var + 1
            &&& var.fn_id is None ==> e.variables.last().fn_id is None
            &&& var.fn_id matches Some(f) ==> (e.variables.last().fn_id matches Some(g)
                ==> fn_becomes(c.fn_map@, f, g)) && (c.fn_map@.dom().contains(f.0)
                ==> e.variables.last().fn_id is Some)
        }),
{
    let e = merge_vars::var_step(s, c, var);
    assert(e.variables.drop_last() =~= s.variables);
}

/// A local of a function is listed with it, a parameter of one that is taken in anew is
/// not.
pub proof fn law_new_locals_are_listed(
    s: VarTablesView,
    c: VarContext<'_>,
    var: Variable,
    owner: FnId,
    k: int,
)
    requires
        s.next_var < u32::MAX,
        merge_vars::var_route(s, c, var) is New,
        var.fn_id is Some,
        fn_becomes(c.fn_map@, var.fn_id->0, owner),
        0 <= k < s.functions.len(),
        s.functions[k].id == owner,
        forall|j: int| 0 <= j < k ==> (#[trigger] s.functions[j]).id != owner,
    ensures
        ({
            let e = merge_vars::var_step(s, c, var);
            let listed = var.param_index is None || c.remerged@.contains(owner.0);
            &&& listed ==> e.functions[k].locals == s.functions[k].locals.push(VarId(s.next_var))
            &&& !listed ==> e.functions == s.functions
            &&& e.functions.len() == s.functions.len()
            &&& forall|j: int| 0 <= j < s.functions.len() && j != k ==> #[trigger] e.functions[j]
                == s.functions[j]
        }),
{
    lemma_fn_at(s.functions, owner, 0, k);
}

proof fn lemma_fn_at(fns: Seq<FnView>, id: FnId, from: int, k: int)
    requires
        0 <= from <= k < fns.len(),
        fns[k].id == id,
        forall|j: int| from <= j < k ==> (#[trigger] fns[j]).id != id,
    ensures
        program::fn_at(fns, id, from) == Some(k),
    decreases k - from,
{
    if from < k {
        assert(fns[from].id != id);
        lemma_fn_at(fns, id, from + 1, k);
    }
}

/// A variable that no other unit's stands for gets a number of the program, unless its
/// function was left out, it lies in a body of a dependency, or it is a local of a header
/// that only offers its symbols.
pub proof fn law_every_variable_gets_a_number(
    s: VarTablesView,
    c: VarContext<'_>,
    unit: Seq<Variable>,
    k: int,
    j: int,
)
    requires
        0 <= j < k <= unit.len(),
        !(unit[j].fn_id matches Some(f) && c.dropped@.contains(f.0)),
        !(unit[j].storage == StorageClass::Local && merge_vars::is_dep(
            c.files@,
            c.map.spec_of(unit[j].span.file),
        )),
        c.mode != MergeMode::SymbolsOnly || unit[j].storage != StorageClass::Local,
    ensures
        merge_vars::vars_merged(s, c, unit, k).var_map.dom().contains(unit[j].id.0),
    decreases k,
{
    let before = merge_vars::vars_merged(s, c, unit, k - 1);
    if j < k - 1 {
        law_every_variable_gets_a_number(s, c, unit, k - 1, j);
    }
}

/// A definition takes over from a declaration, and a strong one from a weak one; no other
/// changes what the program holds.
pub proof fn law_definitions_take_over(s: VarTablesView, c: VarContext<'_>, var: Variable)
    requires
        merge_vars::var_route(s, c, var) is IsGlobal,
    ensures
        ({
            let at = merge_vars::var_route(s, c, var)->at;
            let e = merge_vars::var_step(s, c, var);
            let held = s.variables[at];
            &&& 0 <= at < s.variables.len()
            &&& held.target is Some && held.target == var.target
            &&& held.symbol is Some && var.symbol is Some && held.symbol->0@ == var.symbol->0@
            &&& becomes(e.var_map, var.id, held.id)
            &&& e.variables.len() == s.variables.len()
            &&& forall|i: int| 0 <= i < s.variables.len() && i != at ==> #[trigger] e.variables[i]
                == s.variables[i]
            &&& e.variables[at].id == held.id
            &&& var.is_defined && (!held.is_defined || held.is_weak && !var.is_weak)
                ==> is_taken_over(e.variables[at], var, c)
            &&& !(var.is_defined && (!held.is_defined || held.is_weak && !var.is_weak))
                ==> e.variables == s.variables
        }),
{
    lemma_image_global(s.variables, var, 0);
}

proof fn lemma_image_global(vars: Seq<Variable>, like: Variable, k: int)
    requires
        0 <= k <= vars.len(),
    ensures
        match merge_vars::image_global(vars, like, k) {
            Some(i) => k <= i < vars.len() && merge_vars::same_global(vars[i], like),
            None => forall|i: int|
                k <= i < vars.len() ==> !merge_vars::same_global(#[trigger] vars[i], like),
        },
    decreases vars.len() - k,
{
    if k < vars.len() && !merge_vars::same_global(vars[k], like) {
        lemma_image_global(vars, like, k + 1);
    }
}

/// The parameters of a function that is taken in are those its own became, in order; the
/// others keep theirs.
pub proof fn law_parameters_become_the_programs(
    fns: Seq<FnView>,
    adopted: Set<u32>,
    vars: Map<u32, u32>,
    k: int,
)
    requires
        0 <= k < fns.len(),
    ensures
        merge_vars::params_placed(fns, adopted, vars).len() == fns.len(),
        adopted.contains(fns[k].id.0) ==> merge_vars::params_placed(fns, adopted, vars)[k].params
            == fns[k].params.filter(|v: VarId| vars.dom().contains(v.0)).map_values(
            |v: VarId| VarId(vars[v.0]),
        ),
        !adopted.contains(fns[k].id.0) ==> merge_vars::params_placed(fns, adopted, vars)[k]
            == fns[k],
{
    let p = fns[k].params;
    lemma_params_in(p, vars, p.len() as int);
    assert(p.take(p.len() as int) =~= p);
}

proof fn lemma_params_in(p: Seq<VarId>, vars: Map<u32, u32>, k: int)
    requires
        0 <= k <= p.len(),
    ensures
        merge_vars::params_in(p, vars, k) == p.take(k).filter(
            |v: VarId| vars.dom().contains(v.0),
        ).map_values(|v: VarId| VarId(vars[v.0])),
    decreases k,
{
    reveal(Seq::filter);
    let kept = |v: VarId| vars.dom().contains(v.0);
    let placed = |v: VarId| VarId(vars[v.0]);
    if k > 0 {
        lemma_params_in(p, vars, k - 1);
        let some = p.take(k);
        assert(some.drop_last() =~= p.take(k - 1));
        assert(some.last() == p[k - 1]);
        let before = p.take(k - 1).filter(kept);
        if kept(p[k - 1]) {
            assert(some.filter(kept) =~= before.push(p[k - 1]));
            assert(some.filter(kept).map_values(placed) =~= before.map_values(placed).push(
                placed(p[k - 1]),
            ));
        } else {
            assert(some.filter(kept) =~= before);
        }
    } else {
        assert(p.take(0) =~= Seq::empty());
        assert(p.take(0).filter(kept).map_values(placed) =~= Seq::empty());
    }
}

proof fn lemma_path_at(files: Seq<FileInfo>, path: Seq<char>, k: int)
    requires
        0 <= k <= files.len(),
    ensures
        k <= merge::path_at(files, path, k) <= files.len(),
        merge::path_at(files, path, k) < files.len() ==> files[merge::path_at(
            files,
            path,
            k,
        )].path@ == path,
        forall|j: int|
            k <= j < merge::path_at(files, path, k) ==> (#[trigger] files[j]).path@ != path,
    decreases files.len() - k,
{
    if k < files.len() && files[k].path@ != path {
        lemma_path_at(files, path, k + 1);
    }
}

/// A file of the table bears the path.
pub open spec fn is_listed(files: Seq<FileInfo>, path: Seq<char>) -> bool {
    exists|i: int| 0 <= i < files.len() && (#[trigger] files[i]).path@ == path
}

proof fn lemma_with_file(table: Seq<FileInfo>, file: FileInfo)
    ensures
        table.is_prefix_of(merge::with_file(table, file)),
        is_listed(merge::with_file(table, file), file.path@),
{
    lemma_path_at(table, file.path@, 0);
    let e = merge::with_file(table, file);
    if e.len() == table.len() {
        assert(e[merge::path_at(table, file.path@, 0)].path@ == file.path@);
    } else {
        assert(e[table.len() as int].path@ == file.path@);
        assert(e.take(table.len() as int) =~= table);
    }
}

/// Every file of a unit is in the program's table, whose files keep their places.
pub proof fn law_every_file_is_listed(table: Seq<FileInfo>, files: Seq<FileInfo>, i: int)
    requires
        0 <= i < files.len(),
    ensures
        table.is_prefix_of(merge::with_files(table, files)),
        is_listed(merge::with_files(table, files), files[i].path@),
    decreases files.len(),
{
    lemma_with_files(table, files);
    let before = merge::with_files(table, files.drop_last());
    let e = merge::with_files(table, files);
    lemma_with_file(before, files.last());
    if i < files.len() - 1 {
        law_every_file_is_listed(table, files.drop_last(), i);
        let j = choose|j: int| 0 <= j < before.len() && (#[trigger] before[j]).path@
            == files[i].path@;
        assert(e[j].path@ == files[i].path@);
    }
}

proof fn lemma_with_files(table: Seq<FileInfo>, files: Seq<FileInfo>)
    ensures
        table.is_prefix_of(merge::with_files(table, files)),
    decreases files.len(),
{
    if files.len() > 0 {
        lemma_with_files(table, files.drop_last());
        let before = merge::with_files(table, files.drop_last());
        lemma_with_file(before, files.last());
        assert(table =~= merge::with_files(table, files).take(table.len() as int));
    } else {
        assert(table =~= table.take(table.len() as int));
    }
}

/// A unit is recorded to bring in each of its files but itself, and nothing is forgotten.
pub proof fn law_a_unit_brings_its_files_in(
    pairs: Seq<(FileId, FileId)>,
    from: FileId,
    files: Seq<FileId>,
    p: (FileId, FileId),
)
    ensures
        merge::with_pairs(pairs, from, files).contains(p) <==> pairs.contains(p) || p.0 == from
            && p.1 != from && files.contains(p.1),
    decreases files.len(),
{
    if files.len() > 0 {
        law_a_unit_brings_its_files_in(pairs, from, files.drop_last(), p);
        let before = merge::with_pairs(pairs, from, files.drop_last());
        let e = merge::with_pairs(pairs, from, files);
        let some = files.drop_last();
        assert(files.contains(p.1) <==> some.contains(p.1) || files.last() == p.1) by {
            if files.contains(p.1) {
                let i = choose|i: int| 0 <= i < files.len() && files[i] == p.1;
                if i < files.len() - 1 {
                    assert(some[i] == p.1);
                }
            }
            if some.contains(p.1) {
                let i = choose|i: int| 0 <= i < some.len() && some[i] == p.1;
                assert(files[i] == p.1);
            }
            if files.last() == p.1 {
                assert(files[files.len() - 1] == p.1);
            }
        }
        if e.len() != before.len() {
            assert(e == before.push((from, files.last())));
            assert(e[before.len() as int] == (from, files.last()));
            if before.contains(p) {
                let i = choose|i: int| 0 <= i < before.len() && before[i] == p;
                assert(e[i] == p);
            }
            if e.contains(p) {
                let i = choose|i: int| 0 <= i < e.len() && e[i] == p;
                if i < before.len() {
                    assert(before[i] == p);
                }
            }
        }
    } else {
        assert(!files.contains(p.1));
    }
}

} // verus!
