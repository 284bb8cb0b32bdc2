//! What a merged call says: whom it calls, and what it passes, in the program's
//! numbers.

use crate::ir::{FnId, VarId};
use crate::merge::MergeMode;
use crate::merge_calls;
use crate::merge_calls::{CallContext, CallRoute, CallTablesView};
use crate::merge_vars;
use crate::program::{CallRecord, RecordView};
use vstd::prelude::*;

verus! {

/// The functions that a call passes, each at its position, in the numbers that the
/// map gives. What the map does not know is no argument of the program.
pub open spec fn passed_fns(args: Seq<(u32, FnId)>, map: Map<u32, u32>) -> Seq<(u32, FnId)> {
    args.filter(|a: (u32, FnId)| map.dom().contains(a.1.0)).map_values(
        |a: (u32, FnId)| (a.0, FnId(map[a.1.0])),
    )
}

pub open spec fn passed_vars(args: Seq<(u32, VarId)>, map: Map<u32, u32>) -> Seq<(u32, VarId)> {
    args.filter(|a: (u32, VarId)| map.dom().contains(a.1.0)).map_values(
        |a: (u32, VarId)| (a.0, VarId(map[a.1.0])),
    )
}

proof fn lemma_passed_fns(args: Seq<(u32, FnId)>, map: Map<u32, u32>, k: int)
    requires
        0 <= k <= args.len(),
    ensures
        merge_calls::fn_args_in(args, map, k) == passed_fns(args.take(k), map),
    decreases k,
{
    reveal(Seq::filter);
    if k > 0 {
        lemma_passed_fns(args, map, k - 1);
        let some = args.take(k);
        assert(some.drop_last() =~= args.take(k - 1));
        let kept = |a: (u32, FnId)| map.dom().contains(a.1.0);
        let placed = |a: (u32, FnId)| (a.0, FnId(map[a.1.0]));
        let before = args.take(k - 1).filter(kept);
        assert(some.last() == args[k - 1]);
        if kept(args[k - 1]) {
            assert(some.filter(kept) =~= before.push(args[k - 1]));
            assert(before.push(args[k - 1]).map_values(placed) =~= before.map_values(placed).push(
                placed(args[k - 1]),
            ));
        } else {
            assert(some.filter(kept) =~= before);
        }
    } else {
        assert(args.take(0) =~= Seq::empty());
        assert(passed_fns(args.take(0), map) =~= Seq::empty());
    }
}

proof fn lemma_passed_vars(args: Seq<(u32, VarId)>, map: Map<u32, u32>, k: int)
    requires
        0 <= k <= args.len(),
    ensures
        merge_calls::var_args_in(args, map, k) == passed_vars(args.take(k), map),
    decreases k,
{
    reveal(Seq::filter);
    if k > 0 {
        lemma_passed_vars(args, map, k - 1);
        let some = args.take(k);
        assert(some.drop_last() =~= args.take(k - 1));
        let kept = |a: (u32, VarId)| map.dom().contains(a.1.0);
        let placed = |a: (u32, VarId)| (a.0, VarId(map[a.1.0]));
        let before = args.take(k - 1).filter(kept);
        assert(some.last() == args[k - 1]);
        if kept(args[k - 1]) {
            assert(some.filter(kept) =~= before.push(args[k - 1]));
            assert(before.push(args[k - 1]).map_values(placed) =~= before.map_values(placed).push(
                placed(args[k - 1]),
            ));
        } else {
            assert(some.filter(kept) =~= before);
        }
    } else {
        assert(args.take(0) =~= Seq::empty());
        assert(passed_vars(args.take(0), map) =~= Seq::empty());
    }
}

/// The optional number, where the map knows it, in the number that it gives.
pub open spec fn carried(from: Option<u32>, map: Map<u32, u32>) -> Option<u32> {
    if from is Some && map.dom().contains(from->0) {
        Some(map[from->0])
    } else {
        None
    }
}

pub open spec fn fn_number(f: Option<FnId>) -> Option<u32> {
    match f {
        Some(f) => Some(f.0),
        None => None,
    }
}

pub open spec fn var_number(v: Option<VarId>) -> Option<u32> {
    match v {
        Some(v) => Some(v.0),
        None => None,
    }
}

/// `placed` is the unit's call `own` in the program's numbers: it passes, position
/// by position and in order, the program's function or variable for each that the
/// unit's passes and that has a number, calls the same and returns into the same,
/// and says all else as before, in the program's files.
pub open spec fn is_renumbered(c: CallContext<'_>, own: RecordView, placed: RecordView) -> bool {
    &&& placed.site.args.fn_args == passed_fns(own.site.args.fn_args, c.fn_map@)
    &&& placed.site.args.var_args == passed_vars(own.site.args.var_args, c.var_map@)
    &&& placed.site.args.addr_of_member_args == own.site.args.addr_of_member_args
    &&& placed.addr_of_args == own.addr_of_args
    &&& Some(placed.site.caller.0) == carried(Some(own.site.caller.0), c.fn_map@)
    &&& fn_number(placed.site.callee_fn_id) == carried(
        fn_number(own.site.callee_fn_id),
        c.fn_map@,
    )
    &&& var_number(placed.site.callee_var) == carried(
        var_number(own.site.callee_var),
        c.var_map@,
    )
    &&& var_number(placed.site.return_dst) == carried(
        var_number(own.site.return_dst),
        c.var_map@,
    )
    &&& placed.site.callee_name == own.site.callee_name
    &&& placed.site.is_direct == own.site.is_direct
    &&& placed.site.receiver_class == own.site.receiver_class
    &&& placed.site.args_bound_past_this == own.site.args_bound_past_this
    &&& placed.site.span == c.map.spec_span(own.site.span)
    &&& placed.scope_file == c.map.spec_of(own.scope_file)
    &&& placed.occurrence.span == c.map.spec_span(own.occurrence.span)
    &&& placed.occurrence.expansion_id == own.occurrence.expansion_id
    &&& (placed.expansion_span is Some) == (own.expansion_span is Some)
    &&& own.expansion_span is Some ==> placed.expansion_span->0 == c.map.spec_span(
        own.expansion_span->0,
    )
    &&& (placed.occurrence.expansion_span is Some) == (own.occurrence.expansion_span is Some)
    &&& own.occurrence.expansion_span is Some ==> placed.occurrence.expansion_span->0
        == c.map.spec_span(own.occurrence.expansion_span->0)
}

/// The call's function was given a number, its body is merged, and its file is the
/// program's own code; a unit that contributes symbols alone contributes no call of
/// a function that other units can see.
pub open spec fn is_merged(c: CallContext<'_>, r: RecordView) -> bool {
    &&& c.fn_map@.dom().contains(r.site.caller.0)
    &&& !c.dropped@.contains(r.site.caller.0)
    &&& !merge_vars::is_dep(c.files@, c.map.spec_of(r.scope_file))
    &&& c.mode == MergeMode::SymbolsOnly ==> merge_calls::caller_is_internal(
        c,
        FnId(c.fn_map@[r.site.caller.0]),
    )
}

/// Merging a call keeps what it calls and passes. A call that is merged gets a
/// number; where the program takes a record in for it, that record is the unit's
/// call renumbered, under that number and for the unit.
pub proof fn law_merged_calls_pass_what_they_passed(
    s: CallTablesView,
    c: CallContext<'_>,
    r: RecordView,
    name: String,
)
    ensures
        ({
            let after = merge_calls::call_step(s, c, r, name);
            &&& !is_merged(c, r) ==> after == s
            &&& is_merged(c, r) ==> after.call_map.dom().contains(r.site.id)
            &&& after.records.len() > s.records.len() ==> {
                &&& after.records.drop_last() == s.records
                &&& after.call_map[r.site.id] == s.next_call
                &&& after.records.last().site.id == s.next_call
                &&& after.records.last().site.tu == Some(c.map.primary)
                &&& is_renumbered(c, r, after.records.last())
            }
            &&& after.records.len() <= s.records.len() ==> after.records == s.records
        }),
{
    let fns = r.site.args.fn_args;
    let vars = r.site.args.var_args;
    lemma_passed_fns(fns, c.fn_map@, fns.len() as int);
    lemma_passed_vars(vars, c.var_map@, vars.len() as int);
    assert(fns.take(fns.len() as int) =~= fns);
    assert(vars.take(vars.len() as int) =~= vars);
    let after = merge_calls::call_step(s, c, r, name);
    if after.records.len() > s.records.len() {
        assert(after.records.drop_last() =~= s.records);
    }
}

/// Each pair that a call passes and whose function has a number is passed by the
/// merged call, and the merged call passes no other.
pub proof fn law_each_passed_function_arrives(
    args: Seq<(u32, FnId)>,
    map: Map<u32, u32>,
    at: u32,
    f: FnId,
)
    ensures
        args.contains((at, f)) && map.dom().contains(f.0) ==> merge_calls::fn_args_in(
            args,
            map,
            args.len() as int,
        ).contains((at, FnId(map[f.0]))),
        merge_calls::fn_args_in(args, map, args.len() as int).contains((at, f)) ==> exists|i: int|
            0 <= i < args.len() && (#[trigger] args[i]).0 == at && map.dom().contains(args[i].1.0)
                && map[args[i].1.0] == f.0,
{
    let kept = |a: (u32, FnId)| map.dom().contains(a.1.0);
    let placed = |a: (u32, FnId)| (a.0, FnId(map[a.1.0]));
    lemma_passed_fns(args, map, args.len() as int);
    assert(args.take(args.len() as int) =~= args);
    let some = args.filter(kept);
    let got = merge_calls::fn_args_in(args, map, args.len() as int);
    args.filter_lemma(kept);
    if args.contains((at, f)) && map.dom().contains(f.0) {
        let i = args.index_of((at, f));
        assert(args[i] == (at, f));
        assert(some.contains(args[i]));
        let j = some.index_of((at, f));
        assert(got[j] == (at, FnId(map[f.0])));
    }
    if got.contains((at, f)) {
        let j = got.index_of((at, f));
        assert(got[j] == placed(some[j]));
        assert(kept(some[j]));
        args.lemma_filter_contains_rev(kept, some[j]);
        let i = args.index_of(some[j]);
        assert(args[i] == some[j]);
    }
}

/// Every call of the unit that is merged has its number once the unit's calls are.
pub proof fn law_every_merged_call_has_its_number(
    s: CallTablesView,
    c: CallContext<'_>,
    unit: Seq<CallRecord>,
    j: int,
    k: int,
)
    requires
        0 <= j < k <= unit.len(),
        is_merged(c, unit[j]@),
    ensures
        merge_calls::calls_merged(s, c, unit, k).call_map.dom().contains(unit[j]@.site.id),
    decreases k,
{
    let before = merge_calls::calls_merged(s, c, unit, k - 1);
    law_merged_calls_pass_what_they_passed(
        before,
        c,
        unit[k - 1]@,
        unit[k - 1].site.callee_name,
    );
    if j < k - 1 {
        law_every_merged_call_has_its_number(s, c, unit, j, k - 1);
    }
}

/// A call of a configuration, or of a body that units share, is taken for a record
/// of the program only where that record says what the call does.
pub proof fn law_a_shared_record_says_what_the_call_does(
    s: CallTablesView,
    c: CallContext<'_>,
    r: RecordView,
)
    requires
        c.mode == MergeMode::Variant,
    ensures
        merge_calls::call_route(s, c, r) matches CallRoute::Is { id, .. } ==> exists|i: int|
            0 <= i < s.records.len() && (#[trigger] s.records[i]).site.id == id && is_renumbered(
                c,
                r,
                s.records[i],
            ),
{
    let fns = r.site.args.fn_args;
    let vars = r.site.args.var_args;
    lemma_passed_fns(fns, c.fn_map@, fns.len() as int);
    lemma_passed_vars(vars, c.var_map@, vars.len() as int);
    assert(fns.take(fns.len() as int) =~= fns);
    assert(vars.take(vars.len() as int) =~= vars);
    if let CallRoute::Is { id, .. } = merge_calls::call_route(s, c, r) {
        let caller = merge_calls::merged_caller(c, r)->0;
        let own = merge_calls::record_in(c, r, caller);
        lemma_repeated(s, own, 0);
        assert(merge_calls::states(s.records, id, own));
        let i = lemma_record_at(s.records, id, 0);
        assert(merge_calls::facts(s.records[i]) == merge_calls::facts(own));
        assert(merge_calls::facts(s.records[i]).site.args == own.site.args);
    }
}

proof fn lemma_record_at(v: Seq<RecordView>, id: u32, k: int) -> (i: int)
    requires
        0 <= k,
        merge_calls::record_at(v, id, k) is Some,
    ensures
        k <= i < v.len(),
        v[i].site.id == id,
        merge_calls::record_at(v, id, k) == Some(v[i]),
    decreases v.len() - k,
{
    if v[k].site.id == id {
        k
    } else {
        lemma_record_at(v, id, k + 1)
    }
}

proof fn lemma_repeated(s: CallTablesView, own: RecordView, k: int)
    requires
        0 <= k,
    ensures
        merge_calls::repeated_at(s.repeats, s.records, own, k) matches Some(id)
            ==> merge_calls::states(s.records, id, own),
    decreases s.repeats.len() - k,
{
    if k < s.repeats.len() {
        lemma_repeated(s, own, k + 1);
    }
}

} // verus!
