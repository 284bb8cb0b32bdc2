//! What dispatch adds to a call, and what linking leaves of a unit.

use crate::call_laws;
use crate::calls;
use crate::calls::SiteView;
use crate::dispatch;
use crate::dispatch::{Hierarchy, MemberCallView};
use crate::finalize;
use crate::finalize::{Expanded, Overloads, Overrides};
use crate::ir::{FnId, Linkage, ReturnFlow, TargetId};
use crate::merge::FileInfo;
use crate::merge_vars;
use crate::methods;
use crate::methods::MethodView;
use crate::program;
use crate::program::{CallRecord, FnView, RecordView, Variable};
use crate::remap;
use crate::remap::FlowView;
use crate::selection;
use crate::selection::ContenderView;
use crate::spelling;
use crate::syntax::SyntaxTree;
use crate::target;
use crate::target::LinkSpec;
use crate::text;
use crate::unit::UnitIndex;
use crate::weak;
use vstd::prelude::*;

verus! {

/// The call names a C++ member that is no constructor.
pub open spec fn calls_member(
    fns: Seq<FnView>,
    s: SiteView,
    f: FnView,
    cls: Seq<char>,
    kind: MethodView,
) -> bool {
    &&& s.callee_fn_id matches Some(id) && program::fn_by_id(fns, id) == Some(f)
    &&& f.traits.is_cpp
    &&& methods::method_of(f.name) == Some((cls, kind))
}

proof fn lemma_reached_among(
    fns: Seq<FnView>,
    vars: Seq<Variable>,
    m: MemberCallView,
    h: Hierarchy,
    k: int,
    i: int,
    t: FnView,
)
    requires
        0 <= k <= h.members@.len(),
        0 <= i < h.members@.len(),
        program::fn_by_id(fns, h.members@[i].0) == Some(t),
        dispatch::may_reach(vars, m, h, t, h.members@[i].1),
    ensures
        i < k ==> dispatch::reached_among(fns, vars, m, h, k).contains((h.members@[i].0, t.name)),
    decreases k,
{
    if k > 0 {
        lemma_reached_among(fns, vars, m, h, k - 1, i, t);
        let before = dispatch::reached_among(fns, vars, m, h, k - 1);
        let all = dispatch::reached_among(fns, vars, m, h, k);
        let own = (h.members@[i].0, t.name);
        if i == k - 1 {
            assert(all[before.len() as int] == own);
        } else if i < k - 1 {
            let j = choose|j: int| 0 <= j < before.len() && before[j] == own;
            assert(all[j] == own);
        }
    }
}

/// A call of a virtual member reaches every member found for it that all units see, that
/// is linked into the same image and that takes as many arguments.
pub proof fn law_virtual_calls_reach_their_overrides(
    fns: Seq<FnView>,
    vars: Seq<Variable>,
    s: SiteView,
    h: Hierarchy,
    f: FnView,
    cls: Seq<char>,
    kind: MethodView,
    i: int,
    t: FnView,
)
    requires
        calls_member(fns, s, f, cls, kind),
        !(kind is Ctor),
        f.traits.is_virtual || kind is Dtor,
        f.traits.linkage == Linkage::External,
        !h.anonymous,
        0 <= i < h.members@.len(),
        program::fn_by_id(fns, h.members@[i].0) == Some(t),
        t.traits.linkage == Linkage::External,
        t.target == f.target,
        dispatch::explicit_arity(vars, f) == dispatch::explicit_arity(vars, t),
    ensures
        dispatch::reached_from(fns, vars, s, h).contains((h.members@[i].0, t.name)),
{
    let m = dispatch::member_call_of(fns, s)->0;
    lemma_reached_among(fns, vars, m, h, h.members@.len() as int, i, t);
}

/// A call of a member that is nowhere virtual reaches no other, nor does one of a
/// constructor or of a function that is no member.
pub proof fn law_plain_calls_reach_no_overrides(
    fns: Seq<FnView>,
    vars: Seq<Variable>,
    s: SiteView,
    h: Hierarchy,
    f: FnView,
    cls: Seq<char>,
    kind: MethodView,
)
    requires
        calls_member(fns, s, f, cls, kind),
        kind is Ctor || kind is Named && !f.traits.is_virtual && forall|i: int|
            0 <= i < fns.len() ==> !((#[trigger] fns[i]).name == methods::member_name(kind, cls)
                && fns[i].traits.is_virtual),
    ensures
        dispatch::reached_from(fns, vars, s, h).len() == 0,
{
    if dispatch::finds_virtual(fns, methods::member_name(kind, cls), h.seen@) {
        let i = choose|i: int|
            0 <= i < fns.len() && dispatch::is_seen_virtual(
                #[trigger] fns[i],
                methods::member_name(kind, cls),
                h.seen@,
            );
        assert(fns[i].traits.is_virtual);
    }
}

/// The number of arguments a function takes leaves its object out.
pub proof fn law_arities_leave_the_object_out(vars: Seq<Variable>, f: FnView)
    ensures
        f.params.len() > 0 && finalize::takes_this(vars, f) ==> dispatch::explicit_arity(vars, f)
            == Some((f.params.len() - 1) as nat),
        f.params.len() > 0 && !finalize::takes_this(vars, f) ==> dispatch::explicit_arity(vars, f)
            == Some(f.params.len()),
        f.params.len() == 0 ==> (f.traits.explicit_arity matches Some(n)
            ==> dispatch::explicit_arity(vars, f) == Some(n as nat)),
{
}

/// The record is a call of `callee` at the same place, with the same arguments.
pub open spec fn is_call_of(r: RecordView, like: RecordView, callee: FnId, name: Seq<char>) -> bool {
    &&& r.site.callee_fn_id == Some(callee)
    &&& r.site.callee_name == name
    &&& r.site.callee_var is None
    &&& r.site.is_direct
    &&& r.site.caller == like.site.caller
    &&& r.site.span == like.site.span
    &&& r.site.args == like.site.args
    &&& r.site.args_bound_past_this == like.site.args_bound_past_this
    &&& r.site.receiver_class == like.site.receiver_class
    &&& r.site.return_dst == like.site.return_dst
    &&& r.site.tu == like.site.tu
    &&& r.addr_of_args == like.addr_of_args
    &&& r.expansion_span == like.expansion_span
    &&& r.scope_file == like.scope_file
    &&& r.occurrence == like.occurrence
}

/// A call of the function at the line of the caller was known before, or is recorded now
/// as one that some call may come to.
pub open spec fn is_covered(
    start: Expanded,
    e: Expanded,
    r: RecordView,
    callee: FnId,
) -> bool {
    start.seen.contains(finalize::reached_by(r, callee)) || exists|i: int|
        start.records.len() <= i < e.records.len() && (#[trigger] e.records[i]).site.callee_fn_id
            == Some(callee) && e.records[i].site.caller == r.site.caller
            && e.records[i].site.span.line == r.site.span.line && e.records[i].site.span.col
            == r.site.span.col
}

/// Every override that a call may reach is called from where the call stands: unless a
/// call of it from there was known, one is recorded.
pub proof fn law_every_override_is_called(
    start: Expanded,
    calls: Seq<RecordView>,
    overrides: Seq<Overrides>,
    k: int,
    j: int,
)
    requires
        0 <= k < calls.len(),
        overrides.len() == calls.len(),
        0 <= j < overrides[k].members@.len(),
    ensures
        is_covered(
            start,
            finalize::expand_all(start, calls, overrides, calls.len() as int),
            calls[k],
            overrides[k].members@[j].0,
        ),
{
    let n = calls.len() as int;
    let e = finalize::expand_all(start, calls, overrides, n);
    lemma_seen_all(start, calls, overrides, n, k, j);
    finalize::law_expansion_adds_only_what_is_new(start, calls, overrides, n);
    let key = finalize::reached_by(calls[k], overrides[k].members@[j].0);
    let at = choose|at: int| 0 <= at < e.seen.len() && e.seen[at] == key;
    if at < start.seen.len() {
        assert(start.seen[at] == e.seen[at]);
    } else {
        let i = at - start.seen.len() + start.records.len();
        let r = e.records[i];
        assert(finalize::key_of(r) == e.seen[start.seen.len() + i - start.records.len()]);
        assert(finalize::is_override(r, calls, overrides));
        let (a, b) = choose|a: int, b: int| #[trigger]
            finalize::expands(r, calls, overrides, a, b);
        assert(r.site.callee_fn_id is Some);
        assert(e.records[i].site.callee_fn_id == Some(overrides[k].members@[j].0));
    }
}

proof fn lemma_seen_call(
    e: Expanded,
    r: RecordView,
    ts: Seq<(FnId, String)>,
    n: int,
    j: int,
    key: finalize::Reached,
)
    requires
        0 <= n <= ts.len(),
    ensures
        0 <= j < n ==> finalize::expand_call(e, r, ts, n).seen.contains(
            finalize::reached_by(r, ts[j].0),
        ),
        e.seen.contains(key) ==> finalize::expand_call(e, r, ts, n).seen.contains(key),
    decreases n,
{
    if n > 0 {
        lemma_seen_call(e, r, ts, n - 1, j, key);
        let before = finalize::expand_call(e, r, ts, n - 1);
        let after = finalize::expand_call(e, r, ts, n);
        let own = finalize::reached_by(r, ts[n - 1].0);
        lemma_seen_one(before, r, ts[n - 1], key);
        if 0 <= j < n {
            lemma_seen_one(before, r, ts[n - 1], finalize::reached_by(r, ts[j].0));
        }
    }
}

proof fn lemma_seen_one(e: Expanded, r: RecordView, t: (FnId, String), key: finalize::Reached)
    ensures
        finalize::expand_one(e, r, t).seen.contains(finalize::reached_by(r, t.0)),
        e.seen.contains(key) ==> finalize::expand_one(e, r, t).seen.contains(key),
{
    let own = finalize::reached_by(r, t.0);
    let after = finalize::expand_one(e, r, t);
    if !e.seen.contains(own) {
        assert(after.seen[e.seen.len() as int] == own);
        if e.seen.contains(key) {
            let i = choose|i: int| 0 <= i < e.seen.len() && e.seen[i] == key;
            assert(after.seen[i] == key);
        }
    }
}

proof fn lemma_seen_all(
    e: Expanded,
    calls: Seq<RecordView>,
    overrides: Seq<Overrides>,
    n: int,
    k: int,
    j: int,
)
    requires
        0 <= n <= calls.len(),
        0 <= k < calls.len(),
        overrides.len() == calls.len(),
        0 <= j < overrides[k].members@.len(),
    ensures
        k < n ==> finalize::expand_all(e, calls, overrides, n).seen.contains(
            finalize::reached_by(calls[k], overrides[k].members@[j].0),
        ),
    decreases n,
{
    if n > 0 {
        lemma_seen_all(e, calls, overrides, n - 1, k, j);
        let ts = overrides[n - 1].members@;
        lemma_seen_call(
            finalize::expand_all(e, calls, overrides, n - 1),
            calls[n - 1],
            ts,
            ts.len() as int,
            j,
            finalize::reached_by(calls[k], overrides[k].members@[j].0),
        );
    }
}

/// What is recorded for an override says of the call what the call said of itself.
pub proof fn law_added_calls_stand_where_the_call_does(
    start: Expanded,
    calls: Seq<RecordView>,
    overrides: Seq<Overrides>,
    i: int,
)
    requires
        overrides.len() == calls.len(),
        start.records.len() <= i < finalize::expand_all(
            start,
            calls,
            overrides,
            calls.len() as int,
        ).records.len(),
    ensures
        ({
            let e = finalize::expand_all(start, calls, overrides, calls.len() as int);
            exists|k: int, j: int|
                0 <= k < calls.len() && 0 <= j < overrides[k].members@.len() && #[trigger]
                is_call_of(
                    e.records[i],
                    calls[k],
                    overrides[k].members@[j].0,
                    overrides[k].members@[j].1@,
                )
        }),
{
    let n = calls.len() as int;
    let e = finalize::expand_all(start, calls, overrides, n);
    finalize::law_expansion_adds_only_what_is_new(start, calls, overrides, n);
    let r = e.records[i];
    assert(finalize::is_override(r, calls, overrides));
    let (k, j) = choose|k: int, j: int| #[trigger] finalize::expands(r, calls, overrides, k, j);
    assert(is_call_of(r, calls[k], overrides[k].members@[j].0, overrides[k].members@[j].1@));
}

/// A call of a member that does not count the object yet counts it, and no other changes.
pub proof fn law_members_are_bound_past_their_object(
    fns: Seq<FnView>,
    vars: Seq<Variable>,
    s: SiteView,
    callees: Seq<FnId>,
    f: FnView,
)
    requires
        calls::args_shiftable(s.args),
        s.callee_fn_id matches Some(id) && program::fn_by_id(fns, id) == Some(f),
    ensures
        ({
            let b = finalize::bound_site(fns, vars, s, callees);
            let passes = s.args.var_args.len() > 0 || s.args.fn_args.len() > 0;
            &&& !s.args_bound_past_this && passes && finalize::takes_this(vars, f)
                ==> b.args_bound_past_this && call_laws::is_shifted(s.args, b.args)
                && b.callee_fn_id == s.callee_fn_id && b.caller == s.caller && b.return_dst
                == s.return_dst
            &&& s.args_bound_past_this || !passes || f.params.len() > 0 && !finalize::takes_this(
                vars,
                f,
            ) ==> b == s
        }),
{
}

proof fn lemma_overloads(v: Seq<Overloads>, k: int, i: int)
    requires
        0 <= k <= i < v.len(),
        forall|j: int|
            0 <= j < i ==> !((#[trigger] v[j]).callee == v[i].callee && v[j].file == v[i].file),
    ensures
        finalize::overloads_of(v, v[i].callee, v[i].file, k) == v[i].others@,
    decreases i - k,
{
    if k < i {
        assert(!(v[k].callee == v[i].callee && v[k].file == v[i].file));
        lemma_overloads(v, k + 1, i);
    }
}

/// Where the name of an overloaded function is taken by its address, the address of each
/// overload is taken.
pub proof fn law_addresses_of_overloads_are_all_taken(
    v: Seq<Overloads>,
    vars: Seq<Variable>,
    flow: Seq<FlowView>,
    k: int,
    i: int,
    j: int,
    x: Variable,
)
    requires
        0 <= k < flow.len(),
        0 <= i < v.len(),
        forall|a: int|
            0 <= a < i ==> !((#[trigger] v[a]).callee == v[i].callee && v[a].file == v[i].file),
        0 <= j < v[i].others@.len(),
        v[i].file == x.span.file,
    ensures
        flow[k] matches FlowView::AddrOfFn { dst, callee } ==> (callee == v[i].callee
            && program::var_by_id(vars, dst) == Some(x) ==> finalize::all_widened(
            v,
            vars,
            flow,
            flow.len() as int,
        ).contains(FlowView::AddrOfFn { dst, callee: v[i].others@[j] })),
        flow[k] matches FlowView::ArrayFnMember { array, callee } ==> (callee == v[i].callee
            && program::var_by_id(vars, array) == Some(x) ==> finalize::all_widened(
            v,
            vars,
            flow,
            flow.len() as int,
        ).contains(FlowView::ArrayFnMember { array, callee: v[i].others@[j] })),
{
    lemma_overloads(v, 0, i);
    let own = finalize::widened(v, vars, flow[k]);
    if let FlowView::AddrOfFn { dst, callee } = flow[k] {
        if callee == v[i].callee && program::var_by_id(vars, dst) == Some(x) {
            assert(own[j] == FlowView::AddrOfFn { dst, callee: v[i].others@[j] });
            lemma_widened(v, vars, flow, flow.len() as int, k, j);
        }
    }
    if let FlowView::ArrayFnMember { array, callee } = flow[k] {
        if callee == v[i].callee && program::var_by_id(vars, array) == Some(x) {
            assert(own[j] == FlowView::ArrayFnMember { array, callee: v[i].others@[j] });
            lemma_widened(v, vars, flow, flow.len() as int, k, j);
        }
    }
}

proof fn lemma_widened(
    v: Seq<Overloads>,
    vars: Seq<Variable>,
    flow: Seq<FlowView>,
    n: int,
    k: int,
    j: int,
)
    requires
        0 <= n <= flow.len(),
        0 <= k < flow.len(),
        0 <= j < finalize::widened(v, vars, flow[k]).len(),
    ensures
        k < n ==> finalize::all_widened(v, vars, flow, n).contains(
            finalize::widened(v, vars, flow[k])[j],
        ),
    decreases n,
{
    if n > 0 {
        lemma_widened(v, vars, flow, n - 1, k, j);
        let before = finalize::all_widened(v, vars, flow, n - 1);
        let all = finalize::all_widened(v, vars, flow, n);
        let own = finalize::widened(v, vars, flow[k])[j];
        if k == n - 1 {
            assert(all[before.len() + j] == own);
        } else if k < n - 1 {
            let i = choose|i: int| 0 <= i < before.len() && before[i] == own;
            assert(all[i] == own);
        }
    }
}

/// What a unit keeps in an image: the calls and the results of the functions that stay.
pub proof fn law_images_keep_what_stays(
    calls: Seq<CallRecord>,
    given: Seq<(FnId, Vec<ReturnFlow>)>,
    removed: Seq<FnId>,
)
    ensures
        target::calls_kept(calls, removed, calls.len() as int) == calls.filter(
            |c: CallRecord| !removed.contains(c.site.caller),
        ),
        target::returns_kept(given, removed, given.len() as int) == given.filter(
            |r: (FnId, Vec<ReturnFlow>)| !removed.contains(r.0),
        ),
{
    lemma_calls_kept(calls, removed, calls.len() as int);
    lemma_returns_kept(given, removed, given.len() as int);
    assert(calls.take(calls.len() as int) =~= calls);
    assert(given.take(given.len() as int) =~= given);
}

proof fn lemma_calls_kept(calls: Seq<CallRecord>, removed: Seq<FnId>, k: int)
    requires
        0 <= k <= calls.len(),
    ensures
        target::calls_kept(calls, removed, k) == calls.take(k).filter(
            |c: CallRecord| !removed.contains(c.site.caller),
        ),
    decreases k,
{
    reveal(Seq::filter);
    if k > 0 {
        lemma_calls_kept(calls, removed, k - 1);
        assert(calls.take(k).drop_last() =~= calls.take(k - 1));
        assert(calls.take(k).last() == calls[k - 1]);
    }
}

proof fn lemma_returns_kept(given: Seq<(FnId, Vec<ReturnFlow>)>, removed: Seq<FnId>, k: int)
    requires
        0 <= k <= given.len(),
    ensures
        target::returns_kept(given, removed, k) == given.take(k).filter(
            |r: (FnId, Vec<ReturnFlow>)| !removed.contains(r.0),
        ),
    decreases k,
{
    reveal(Seq::filter);
    if k > 0 {
        lemma_returns_kept(given, removed, k - 1);
        assert(given.take(k).drop_last() =~= given.take(k - 1));
        assert(given.take(k).last() == given[k - 1]);
    }
}

/// The variable is in the image what it was, but that a weak definition counts as none
/// beside a strong one.
pub open spec fn is_in_image(
    v: Variable,
    own: Variable,
    id: TargetId,
    strong: Seq<Seq<char>>,
) -> bool {
    &&& v == (Variable { target: Some(id), is_defined: v.is_defined, ..own })
    &&& !own.is_weak || !strong.contains(own.name@) ==> v.is_defined == own.is_defined
    &&& target::is_plain_global(own) && own.is_weak && strong.contains(own.name@)
        ==> !v.is_defined
}

/// An image has each variable of a unit but those of the functions that go, in order.
pub proof fn law_images_keep_the_other_variables(
    vars: Seq<Variable>,
    id: TargetId,
    removed: Seq<FnId>,
    strong: Seq<Seq<char>>,
)
    ensures
        ({
            let kept = vars.filter(
                |v: Variable| !(v.fn_id is Some && removed.contains(v.fn_id->0)),
            );
            let got = target::scoped_vars(vars, id, removed, strong, vars.len() as int);
            &&& got.len() == kept.len()
            &&& forall|i: int|
                0 <= i < kept.len() ==> is_in_image(#[trigger] got[i], kept[i], id, strong)
        }),
{
    lemma_scoped_vars(vars, id, removed, strong, vars.len() as int);
    assert(vars.take(vars.len() as int) =~= vars);
}

proof fn lemma_scoped_vars(
    vars: Seq<Variable>,
    id: TargetId,
    removed: Seq<FnId>,
    strong: Seq<Seq<char>>,
    k: int,
)
    requires
        0 <= k <= vars.len(),
    ensures
        ({
            let kept = vars.take(k).filter(
                |v: Variable| !(v.fn_id is Some && removed.contains(v.fn_id->0)),
            );
            let got = target::scoped_vars(vars, id, removed, strong, k);
            &&& got.len() == kept.len()
            &&& forall|i: int|
                0 <= i < kept.len() ==> is_in_image(#[trigger] got[i], kept[i], id, strong)
        }),
    decreases k,
{
    reveal(Seq::filter);
    if k > 0 {
        lemma_scoped_vars(vars, id, removed, strong, k - 1);
        assert(vars.take(k).drop_last() =~= vars.take(k - 1));
        assert(vars.take(k).last() == vars[k - 1]);
    }
}

/// A function that stays is in the image what it was; one that goes is declared there.
pub proof fn law_images_keep_their_functions(f: FnView, id: TargetId, removed: Seq<FnId>)
    ensures
        !removed.contains(f.id) ==> target::scoped_fn(f, id, removed) == (FnView {
            target: Some(id),
            ..f
        }),
        removed.contains(f.id) ==> !target::scoped_fn(f, id, removed).traits.is_defined
            && target::scoped_fn(f, id, removed).name == f.name && target::scoped_fn(
            f,
            id,
            removed,
        ).id == f.id && target::scoped_fn(f, id, removed).target == Some(id),
{
}

proof fn lemma_scoped_flow(
    unit: UnitIndex,
    removed: Seq<FnId>,
    strong: Seq<Seq<char>>,
    vars: Seq<Variable>,
    k: int,
    n: int,
)
    requires
        0 <= k <= unit.flow@.len(),
        0 <= n < unit.flow@.len(),
        !target::is_excluded(unit, removed, strong, n),
        target::speaks_of(vars, unit.flow@[n]@),
    ensures
        n < k ==> target::scoped_flow(unit, removed, strong, vars, k).contains(unit.flow@[n]@),
    decreases k,
{
    if k > 0 {
        lemma_scoped_flow(unit, removed, strong, vars, k - 1, n);
        let before = target::scoped_flow(unit, removed, strong, vars, k - 1);
        let all = target::scoped_flow(unit, removed, strong, vars, k);
        let own = unit.flow@[n]@;
        if n == k - 1 {
            assert(all[before.len() as int] == own);
        } else if n < k - 1 {
            let i = choose|i: int| 0 <= i < before.len() && before[i] == own;
            assert(all[i] == own);
        }
    }
}

/// A constraint stays in an image unless a body that goes or the initializer of a global
/// that is overridden adds it, or it speaks of a variable that goes.
pub proof fn law_images_keep_the_other_constraints(
    unit: UnitIndex,
    removed: Seq<FnId>,
    strong: Seq<Seq<char>>,
    vars: Seq<Variable>,
    n: int,
)
    requires
        0 <= n < unit.flow@.len(),
        forall|k: int|
            0 <= k < unit.function_flow_ranges@.len() && removed.contains(
                (#[trigger] unit.function_flow_ranges@[k]).0,
            ) ==> !(unit.function_flow_ranges@[k].1 <= n < unit.function_flow_ranges@[k].2),
        forall|k: int|
            0 <= k < unit.global_initializer_ranges@.len()
                ==> !((#[trigger] unit.global_initializer_ranges@[k]).1 <= n
                < unit.global_initializer_ranges@[k].2),
        forall|i: int|
            0 <= i < remap::vars_of(unit.flow@[n]@).len() ==> program::holds_var(
                vars,
                #[trigger] remap::vars_of(unit.flow@[n]@)[i],
            ),
    ensures
        target::scoped_flow(unit, removed, strong, vars, unit.flow@.len() as int).contains(
            unit.flow@[n]@,
        ),
{
    assert forall|i: int| 0 <= i < remap::vars_of(unit.flow@[n]@).len() implies target::has_var(
        vars,
        #[trigger] remap::vars_of(unit.flow@[n]@)[i],
    ) by {
        let v = remap::vars_of(unit.flow@[n]@)[i];
        assert(program::holds_var(vars, v));
        let j = choose|j: int| 0 <= j < vars.len() && (#[trigger] vars[j]).id == v;
        assert(vars[j].id == v);
    }
    lemma_scoped_flow(unit, removed, strong, vars, unit.flow@.len() as int, n);
}

/// The globals that override are the plain ones that are defined and not weak outside
/// dependencies.
pub proof fn law_strong_globals_are_named(vars: Seq<Variable>, files: Seq<FileInfo>, i: int)
    requires
        0 <= i < vars.len(),
        target::is_plain_global(vars[i]),
        vars[i].is_defined,
        !vars[i].is_weak,
        !merge_vars::is_dep(files, vars[i].span.file),
    ensures
        target::strong_names(vars, files, vars.len() as int).contains(vars[i].name@),
{
    lemma_strong(vars, files, vars.len() as int, i);
}

proof fn lemma_strong(vars: Seq<Variable>, files: Seq<FileInfo>, k: int, i: int)
    requires
        0 <= k <= vars.len(),
        0 <= i < vars.len(),
        target::is_strong(vars[i], files),
    ensures
        i < k ==> target::strong_names(vars, files, k).contains(vars[i].name@),
    decreases k,
{
    if k > 0 {
        lemma_strong(vars, files, k - 1, i);
        let before = target::strong_names(vars, files, k - 1);
        let all = target::strong_names(vars, files, k);
        if i == k - 1 {
            assert(all[before.len() as int] == vars[i].name@);
        } else if i < k - 1 {
            let j = choose|j: int| 0 <= j < before.len() && before[j] == vars[i].name@;
            assert(all[j] == vars[i].name@);
        }
    }
}

/// An image is made of the sources it lists, and of those under the configurations it
/// takes of them.
pub proof fn law_images_are_made_of_their_sources(
    spec: LinkSpec,
    i: int,
    compilation: Option<usize>,
)
    requires
        0 <= i < spec.sources@.len(),
    ensures
        (forall|k: int|
            0 <= k < spec.configurations@.len() ==> (#[trigger] spec.configurations@[k]).0@
                != spec.sources@[i]@) ==> target::is_made_of(
            spec,
            spec.sources@[i]@,
            compilation,
        ),
        forall|k: int|
            0 <= k < spec.configurations@.len() && (#[trigger] spec.configurations@[k]).0@
                == spec.sources@[i]@ && (forall|j: int|
                0 <= j < k ==> (#[trigger] spec.configurations@[j]).0@ != spec.sources@[i]@) ==> (
            target::is_made_of(spec, spec.sources@[i]@, compilation) <==> compilation is Some
                && spec.configurations@[k].1@.contains(compilation->0)),
{
    let s = spec.sources@[i]@;
    let v = spec.configurations@;
    assert(spelling::views(spec.sources@)[i] == s);
    if forall|k: int| 0 <= k < v.len() ==> (#[trigger] v[k]).0@ != s {
        lemma_none_taken(v, s, 0);
    }
    assert forall|k: int|
        0 <= k < v.len() && (#[trigger] v[k]).0@ == s && (forall|j: int|
            0 <= j < k ==> (#[trigger] v[j]).0@ != s) implies (target::is_made_of(
        spec,
        s,
        compilation,
    ) <==> compilation is Some && v[k].1@.contains(compilation->0)) by {
        lemma_taken(v, s, 0, k);
    }
}

proof fn lemma_taken(v: Seq<(String, Vec<usize>)>, s: Seq<char>, from: int, k: int)
    requires
        0 <= from <= k < v.len(),
        v[k].0@ == s,
        forall|j: int| 0 <= j < k ==> (#[trigger] v[j]).0@ != s,
    ensures
        target::taken(v, s, from) == Some(v[k].1@),
    decreases k - from,
{
    if from < k {
        assert(v[from].0@ != s);
        lemma_taken(v, s, from + 1, k);
    }
}

proof fn lemma_none_taken(v: Seq<(String, Vec<usize>)>, s: Seq<char>, from: int)
    requires
        0 <= from <= v.len(),
        forall|k: int| 0 <= k < v.len() ==> (#[trigger] v[k]).0@ != s,
    ensures
        target::taken(v, s, from) is None,
    decreases v.len() - from,
{
    if from < v.len() {
        lemma_none_taken(v, s, from + 1);
    }
}

proof fn lemma_competing_in(units: Seq<&UnitIndex>, weak: bool, u: int, n: int, k: int)
    requires
        0 <= n <= units[u].functions@.len(),
        0 <= k < units[u].functions@.len(),
        selection::competes(units, u, k),
        units[u].functions@[k].traits.is_weak == weak,
    ensures
        k < n ==> selection::competing_in(units, weak, u, n).contains(
            selection::contender_at(units, u, k),
        ),
    decreases n,
{
    if n > 0 {
        lemma_competing_in(units, weak, u, n - 1, k);
        let before = selection::competing_in(units, weak, u, n - 1);
        let all = selection::competing_in(units, weak, u, n);
        let own = selection::contender_at(units, u, k);
        if k == n - 1 {
            assert(all[before.len() as int] == own);
        } else if k < n - 1 {
            let i = choose|i: int| 0 <= i < before.len() && before[i] == own;
            assert(all[i] == own);
        }
    }
}

proof fn lemma_competing_upto(units: Seq<&UnitIndex>, weak: bool, n: int, u: int, k: int)
    requires
        0 <= n <= units.len(),
        0 <= u < units.len(),
        0 <= k < units[u].functions@.len(),
        selection::competes(units, u, k),
        units[u].functions@[k].traits.is_weak == weak,
    ensures
        u < n ==> selection::competing_upto(units, weak, n).contains(
            selection::contender_at(units, u, k),
        ),
    decreases n,
{
    if n > 0 {
        lemma_competing_upto(units, weak, n - 1, u, k);
        let before = selection::competing_upto(units, weak, n - 1);
        let all = selection::competing_upto(units, weak, n);
        let more = selection::competing_in(
            units,
            weak,
            n - 1,
            units[n - 1].functions@.len() as int,
        );
        let own = selection::contender_at(units, u, k);
        if u == n - 1 {
            lemma_competing_in(units, weak, u, units[u].functions@.len() as int, k);
            let i = choose|i: int| 0 <= i < more.len() && more[i] == own;
            assert(all[before.len() + i] == own);
        } else if u < n - 1 {
            let i = choose|i: int| 0 <= i < before.len() && before[i] == own;
            assert(all[i] == own);
        }
    }
}

/// Every defined body that all units see competes where some unit defines its name weakly,
/// unless it lies in a dependency's file.
pub proof fn law_every_body_of_a_weak_name_competes(
    units: Seq<&UnitIndex>,
    u: int,
    k: int,
    v: int,
    j: int,
)
    requires
        0 <= u < units.len(),
        0 <= k < units[u].functions@.len(),
        0 <= v < units.len(),
        0 <= j < units[v].functions@.len(),
        ({
            let f = units[u].functions@[k]@;
            let g = units[v].functions@[j]@;
            &&& f.traits.is_defined && f.traits.linkage == Linkage::External
            &&& !merge_vars::is_dep(units[u].files@, f.file)
            &&& g.traits.is_defined && g.traits.linkage == Linkage::External && g.traits.is_weak
            &&& g.name == f.name
        }),
    ensures
        exists|c: ContenderView| #[trigger]
            selection::competing_of(units).contains(c) && c.unit == u && c.at == k && c.id
                == units[u].functions@[k].id && c.weak == units[u].functions@[k].traits.is_weak,
{
    assert(selection::weakens(units, v, j, units[u].functions@[k]@.name));
    assert(selection::competes(units, u, k));
    let own = selection::contender_at(units, u, k);
    let weak = units[u].functions@[k].traits.is_weak;
    lemma_competing_upto(units, weak, units.len() as int, u, k);
    let a = selection::competing_upto(units, false, units.len() as int);
    let b = selection::competing_upto(units, true, units.len() as int);
    let all = selection::competing_of(units);
    assert(all == a + b);
    if weak {
        let i = choose|i: int| 0 <= i < b.len() && b[i] == own;
        assert(all[a.len() + i] == own);
    } else {
        let i = choose|i: int| 0 <= i < a.len() && a[i] == own;
        assert(all[i] == own);
    }
    assert(all.contains(own));
}

/// Every body that is silenced is named to its unit.
pub proof fn law_silenced_bodies_are_named(
    all: Seq<ContenderView>,
    got: Seq<FnId>,
    n: int,
    k: int,
)
    requires
        0 <= k < n <= all.len(),
        selection::is_silenced(all, got, k),
    ensures
        selection::silenced_in(all, got, all[k].unit, n).contains(all[k].id),
    decreases n,
{
    let before = selection::silenced_in(all, got, all[k].unit, n - 1);
    let now = selection::silenced_in(all, got, all[k].unit, n);
    if k == n - 1 {
        assert(now[before.len() as int] == all[k].id);
    } else {
        law_silenced_bodies_are_named(all, got, n - 1, k);
        let i = choose|i: int| 0 <= i < before.len() && before[i] == all[k].id;
        assert(now[i] == all[k].id);
    }
}

/// An attribute that spells `weak` among its arguments is weak, and so is what it stands
/// under, but for bodies, parameters, values and classes.
pub proof fn law_weak_attributes_are_found(
    t: SyntaxTree,
    source: Seq<char>,
    n: int,
    i: int,
    j: int,
)
    requires
        t.wf(),
        0 <= n < t.len(),
        0 <= i < t.children(n).len(),
        t.rows@[t.children(n)[i] as int].is_named,
    ensures
        ({
            let c = t.children(n)[i] as int;
            let kind = t.rows@[n].kind@;
            &&& (kind == "attribute_specifier"@ || kind == "attribute_declaration"@) && 0 <= j
                < t.children(c).len() && is_weak_word(t, source, t.children(c)[j] as int)
                ==> weak::weak_under(t, source, n)
            &&& kind != "compound_statement"@ && kind != "parameter_list"@ && kind
                != "initializer_list"@ && kind != "struct_specifier"@ && kind
                != "class_specifier"@ && kind != "attribute_specifier"@ && kind
                != "attribute_declaration"@ && t.fielded(n, "value"@) != Some(t.children(n)[i])
                && weak::weak_under(t, source, c) ==> weak::weak_under(t, source, n)
            &&& kind == "compound_statement"@ || kind == "parameter_list"@ ==> !weak::weak_under(
                t,
                source,
                n,
            )
        }),
{
    reveal_strlit("attribute_specifier");
    reveal_strlit("attribute_declaration");
    reveal_strlit("compound_statement");
    reveal_strlit("parameter_list");
    reveal_strlit("initializer_list");
    reveal_strlit("struct_specifier");
    reveal_strlit("class_specifier");
    assert("attribute_specifier"@[0] == 'a');
    assert("attribute_declaration"@[0] == 'a');
    assert("compound_statement"@[0] == 'c');
    assert("parameter_list"@[0] == 'p');
    assert("initializer_list"@[0] == 'i');
    assert("struct_specifier"@[0] == 's');
    assert("class_specifier"@[0] == 'c');
    let c = t.children(n)[i] as int;
    if 0 <= j < t.children(c).len() && is_weak_word(t, source, t.children(c)[j] as int) {
        assert(weak::weak_argument(t, source, t.children(c)[j] as int));
        assert(weak::weak_arguments(t, source, t.children(n)[i] as int));
        assert(weak::weak_attribute(t, source, n));
    }
}

/// The word `weak`, or the one with underscores around it.
pub open spec fn is_weak_word(t: SyntaxTree, source: Seq<char>, n: int) -> bool {
    t.rows@[n].is_named && t.rows@[n].kind@ == "identifier"@ && (t.text(source, n) == "weak"@
        || t.text(source, n) == "__weak__"@)
}

/// Lines end where a line break stands.
pub proof fn law_lines_end_at_line_breaks(a: Seq<char>, b: Seq<char>)
    requires
        !a.contains('\n'),
    ensures
        weak::lines_of(a.push('\n') + b) == seq![a] + weak::lines_of(b),
        weak::lines_of(a) == seq![a],
{
    let s = a.push('\n') + b;
    let at = a.len() as int;
    assert(s[at] == '\n');
    s.index_of_first_ensures('\n');
    let f = s.index_of_first('\n')->0;
    assert(s.contains('\n'));
    if f < at {
        assert(a[f] == '\n');
    }
    assert(s.take(at) =~= a);
    assert(s.skip(at + 1) =~= b);
    a.index_of_first_ensures('\n');
}

/// A text that no space stands in.
pub open spec fn is_unspaced(s: Seq<char>) -> bool {
    forall|i: int| 0 <= i < s.len() ==> !text::is_space(#[trigger] s[i])
}

proof fn lemma_word_len(w: Seq<char>, rest: Seq<char>)
    requires
        is_unspaced(w),
        rest.len() == 0 || text::is_space(rest[0]),
    ensures
        spelling::word_len(w + rest) == w.len(),
    decreases w.len(),
{
    if w.len() > 0 {
        let s = w + rest;
        assert(s[0] == w[0]);
        assert(s.drop_first() =~= w.drop_first() + rest);
        lemma_word_len(w.drop_first(), rest);
    } else {
        assert(w + rest =~= rest);
    }
}

/// Words are what spaces part.
pub proof fn law_words_are_parted_by_spaces(w: Seq<char>, rest: Seq<char>)
    requires
        w.len() > 0,
        is_unspaced(w),
    ensures
        spelling::words(w) == seq![w],
        spelling::words(w + seq![' '] + rest) == seq![w] + spelling::words(rest),
{
    let s = w + seq![' '] + rest;
    assert(s =~= w + (seq![' '] + rest));
    lemma_word_len(w, seq![' '] + rest);
    assert(s[0] == w[0]);
    assert(text::trim_start(s) == s);
    assert(s.take(w.len() as int) =~= w);
    assert(s.skip(w.len() as int) =~= seq![' '] + rest);
    let tail = seq![' '] + rest;
    assert(tail.drop_first() =~= rest);
    assert(text::trim_start(tail) == text::trim_start(rest));
    assert(spelling::words(tail) == spelling::words(rest));
    lemma_word_len(w, Seq::empty());
    assert(w + Seq::<char>::empty() =~= w);
    assert(text::trim_start(w) == w);
    assert(w.take(w.len() as int) =~= w);
    assert(w.skip(w.len() as int) =~= Seq::empty());
    assert(spelling::words(Seq::empty()) =~= Seq::empty());
}

/// A pragma that spells a name weak makes it so.
pub proof fn law_pragmas_name_weak_symbols(name: Seq<char>)
    requires
        name.len() > 0,
        is_unspaced(name),
        !name.contains('='),
    ensures
        weak::weak_pragma("#pragma weak "@ + name) == Some(name),
{
    reveal_strlit("#pragma weak ");
    reveal_strlit("pragma");
    reveal_strlit("weak");
    let line = "#pragma weak "@ + name;
    assert(line[0] == '#');
    assert(text::trim_start(line) == line);
    let rest = "weak"@ + seq![' '] + name;
    assert(line.skip(1) =~= "pragma"@ + seq![' '] + rest);
    law_words_are_parted_by_spaces("pragma"@, rest);
    law_words_are_parted_by_spaces("weak"@, name);
    law_words_are_parted_by_spaces(name, Seq::empty());
    let words = spelling::words(line.skip(1));
    assert(words =~= seq!["pragma"@, "weak"@, name]);
    name.index_of_first_ensures('=');
}

} // verus!
