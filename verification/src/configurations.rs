//! A source that is compiled twice in one and the same way: what the second
//! configuration does to the program.

use crate::facts;
use crate::idmap;
use crate::ir::{FileId, FnId, StorageClass, TypeId, VarId};
use crate::merge;
use crate::merge::{FileMap, MergeMode};
use crate::merge_calls;
use crate::merge_calls::{CallContext, CallTablesView};
use crate::merge_flow;
use crate::merge_flow::{FlowContext, FlowTablesView};
use crate::merge_fns;
use crate::merge_fns::{FnContext, FnKey, FnMerge, FnMergeView, Placement, Registered};
use crate::merge_vars;
use crate::merge_vars::{VarContext, VarTablesView};
use crate::program;
use crate::program::{FnView, Variable};
use crate::repeated_calls;
use crate::repeated_vars;
use crate::repeats;
use crate::unit;
use crate::unit::{Program, UnitIndex};
use vstd::prelude::*;

verus! {

/// A unit merged as the first configuration of its source and then as another one:
/// the programs in the order in which they come about, and the numbers that the
/// unit's files and functions have in each.
pub struct Repeat<'a> {
    pub unit: UnitIndex,
    pub type_map: Vec<TypeId>,
    /// Before the unit.
    pub start: Program,
    /// With the unit begun, its functions placed, and then merged.
    pub begun: Program,
    pub map: FileMap,
    pub placed: Program,
    pub fns: FnMerge,
    pub scope: u32,
    pub first: Program,
    /// With the source's configurations begun, and its source numbered.
    pub variants: Program,
    pub scoped: Program,
    /// With the configuration begun, its functions placed, merged and counted.
    pub begun_again: Program,
    pub map_again: FileMap,
    pub c_again: FnContext<'a>,
    pub placed_again: Program,
    pub fns_again: FnMerge,
    pub again: Program,
    pub ended: Program,
}

/// What merging a unit first and as a configuration is, where the first merge takes
/// every function of it in.
pub open spec fn is_repeat(r: Repeat<'_>) -> bool {
    &&& r.begun.is_begun(&r.start, r.unit, MergeMode::Full, r.map)
    &&& r.placed == (Program {
        keys: r.placed.keys,
        header_users: r.placed.header_users,
        definitions: r.placed.definitions,
        symbols: r.placed.symbols,
        ..r.begun
    })
    &&& r.placed.symbols@ == (VarTablesView {
        functions: r.placed.symbols@.functions,
        ..r.begun.symbols@
    })
    &&& r.fns@ == (FnMergeView {
        fn_map: r.fns@.fn_map,
        adopted: r.fns@.adopted,
        ..merge_fns::nothing_settled()
    })
    &&& r.first.is_finished(
        &r.placed,
        r.unit,
        MergeMode::Full,
        r.map,
        r.type_map,
        r.fns,
        r.scope,
    )
    &&& r.variants.has_variants_begun(
        &r.first,
        r.unit,
        r.map,
        r.start.flow@.flow.len() as int,
        r.start.symbols@.variables.len() as int,
    )
    &&& r.scoped.sources@ == merge::with_file(r.variants.sources@, r.unit.own)
    &&& r.scoped == (Program { sources: r.scoped.sources, ..r.variants })
    &&& r.begun_again.is_begun(&r.scoped, r.unit, MergeMode::Variant, r.map_again)
    &&& r.placed_again.are_placed(
        &r.begun_again,
        merge_fns::nothing_settled(),
        r.fns_again@,
        r.c_again,
        r.unit,
        0,
        r.unit.functions@.len() as int,
    )
    &&& r.again.is_finished(
        &r.placed_again,
        r.unit,
        MergeMode::Variant,
        r.map_again,
        r.type_map,
        r.fns_again,
        merge::path_at(r.variants.sources@, r.unit.own.path@, 0) as u32,
    )
    &&& r.ended.has_variant_ended(&r.again, r.unit, r.map_again)
}

/// The configuration finds every function of the unit as the one that it became.
pub open spec fn are_found_again(r: Repeat<'_>) -> bool {
    &&& forall|k: int|
        0 <= k < r.unit.functions@.len() ==> r.fns@.fn_map.dom().contains(
            (#[trigger] r.unit.functions@[k]).id.0,
        ) && r.begun_again.place_of(r.c_again, r.unit, k) == (Placement::Extends {
            id: FnId(r.fns@.fn_map[r.unit.functions@[k].id.0]),
            shared: false,
        })
    &&& forall|f: u32| #[trigger]
        r.fns@.fn_map.dom().contains(f) ==> is_function_of(r.unit, f)
}

/// The parameters of the unit's functions: each is a variable that its function
/// lists, under a name that no other of them has, and the program took the lists
/// over with the functions.
pub open spec fn are_listed(r: Repeat<'_>) -> bool {
    &&& forall|k: int, i: int|
        0 <= k < r.unit.functions@.len() && 0 <= i < r.unit.functions@[k].params@.len()
            ==> #[trigger] is_param(r.unit, k, i, param_var(r.unit, k, i))
    &&& forall|j: int|
        0 <= j < r.unit.variables@.len() && (#[trigger] r.unit.variables@[j]).fn_id is Some
            && r.unit.variables@[j].param_index is Some ==> is_listed(r.unit, j)
    &&& forall|k: int, i: int, j: int|
        0 <= k < r.unit.functions@.len() && 0 <= i < j < r.unit.functions@[k].params@.len()
            ==> r.unit.variables@[#[trigger] param_var(r.unit, k, i)].name@
            != r.unit.variables@[#[trigger] param_var(r.unit, k, j)].name@
    &&& forall|k: int|
        0 <= k < r.unit.functions@.len() ==> takes_over(r, #[trigger] r.unit.functions@[k]@)
}

/// The variable at `j` is the parameter at `i` of the function at `k`.
pub open spec fn is_param(unit: UnitIndex, k: int, i: int, j: int) -> bool {
    &&& 0 <= j < unit.variables@.len()
    &&& unit.variables@[j].id == unit.functions@[k].params@[i]
    &&& unit.variables@[j].storage == StorageClass::Param
    &&& unit.variables@[j].fn_id is Some
    &&& unit.variables@[j].param_index is Some
}

/// The variable that is the parameter at `i` of the function at `k`.
pub open spec fn param_var(unit: UnitIndex, k: int, i: int) -> int {
    choose|j: int| is_param(unit, k, i, j)
}

/// Some function lists the variable at `j`.
pub open spec fn is_listed(unit: UnitIndex, j: int) -> bool {
    exists|k: int, i: int|
        0 <= k < unit.functions@.len() && 0 <= i < unit.functions@[k].params@.len() && param_var(
            unit,
            k,
            i,
        ) == j && #[trigger] is_param(unit, k, i, j)
}

/// The program's function lists the parameters of the unit's.
pub open spec fn takes_over(r: Repeat<'_>, f: FnView) -> bool {
    let id = r.fns@.fn_map[f.id.0];
    &&& r.fns@.adopted.contains(id)
    &&& program::fn_by_id(r.placed.symbols@.functions, FnId(id)) matches Some(own) && own.params
        == f.params
}

pub open spec fn is_function_of(unit: UnitIndex, f: u32) -> bool {
    exists|k: int| 0 <= k < unit.functions@.len() && (#[trigger] unit.functions@[k]).id.0 == f
}

/// The context in which the variables of the first configuration are merged.
pub open spec fn var_context<'a>(r: &'a Repeat<'a>) -> VarContext<'a> {
    VarContext {
        mode: MergeMode::Full,
        map: &r.map,
        files: &r.placed.files,
        type_map: &r.type_map,
        fn_map: &r.fns.fn_map,
        dropped: &r.fns.dropped,
        remerged: &r.fns.remerged,
        scope: r.scope,
    }
}

/// The context in which the calls of the first configuration are merged.
pub open spec fn call_context<'a>(r: &'a Repeat<'a>) -> CallContext<'a> {
    CallContext {
        mode: MergeMode::Full,
        map: &r.map,
        files: &r.placed.files,
        functions: &r.first.symbols.functions,
        users: &r.placed.header_users,
        fn_map: &r.fns.fn_map,
        var_map: &r.first.symbols.var_map,
        dropped: &r.fns.dropped,
    }
}

/// The variables and the calls of the unit each stand in a place of their own, and
/// its functions became bodies that had no locals before.
pub open spec fn stands_apart(r: Repeat<'_>) -> bool {
    &&& repeated_vars::stand_apart(r.unit.variables@, var_context(&r))
    &&& repeated_vars::are_new_bodies(r.placed.symbols@, var_context(&r))
    &&& repeated_calls::are_numbered(r.start.calls@)
    &&& repeated_calls::calls_stand_apart(r.start.calls@, call_context(&r), r.unit.call_sites@)
    &&& r.start.symbols.next_var + r.unit.variables@.len() <= u32::MAX
    &&& r.start.calls.next_call + r.unit.call_sites@.len() <= u32::MAX
}

proof fn lemma_same_files(r: Repeat<'_>)
    requires
        is_repeat(r),
    ensures
        r.begun_again.files@ == r.begun.files@,
        r.map_again.files@ == r.map.files@,
        r.map_again.primary == r.map.primary,
{
    merge::law_files_are_added_once(r.start.files@, r.unit.files@, r.unit.own);
    assert forall|k: int| 0 <= k < r.map.files@.len() implies r.map_again.files@[k]
        == r.map.files@[k] by {
        assert(r.map.files@[k].0 == merge::path_at(
            r.begun.files@,
            r.unit.files@[k].path@,
            0,
        ));
        assert(r.map_again.files@[k].0 == merge::path_at(
            r.begun_again.files@,
            r.unit.files@[k].path@,
            0,
        ));
    }
    assert(r.map_again.files@ =~= r.map.files@);
}

proof fn lemma_source_is_first(r: Repeat<'_>)
    requires
        is_repeat(r),
    ensures
        merge::path_at(r.variants.sources@, r.unit.own.path@, 0) == 0,
{
    assert(r.variants.sources@[0] == r.unit.own);
}

/// What the functions of a repeated configuration become, up to the first `k`.
proof fn lemma_settled_again(r: Repeat<'_>, k: int)
    requires
        are_found_again(r),
        0 <= k <= r.unit.functions@.len(),
    ensures
        ({
            let t = r.begun_again.settled_up_to(
                merge_fns::nothing_settled(),
                r.c_again,
                r.unit,
                0,
                k,
            );
            &&& t == (FnMergeView {
                fn_map: t.fn_map,
                remerged: t.remerged,
                var_map: t.var_map,
                ..merge_fns::nothing_settled()
            })
            &&& forall|f: u32| #[trigger]
                t.fn_map.dom().contains(f) ==> r.fns@.fn_map.dom().contains(f) && t.fn_map[f]
                    == r.fns@.fn_map[f]
            &&& forall|j: int|
                0 <= j < k ==> t.fn_map.dom().contains((#[trigger] r.unit.functions@[j]).id.0)
                    && t.remerged.contains(r.fns@.fn_map[r.unit.functions@[j].id.0])
            &&& forall|id: u32| #[trigger]
                t.remerged.contains(id) ==> repeated_vars::is_body(var_context(&r), id)
            &&& r.begun_again.users_up_to(r.c_again, r.unit, 0, k)
                == r.begun_again.header_users@
        }),
    decreases k,
{
    if k > 0 {
        lemma_settled_again(r, k - 1);
        let f = r.unit.functions@[k - 1];
        assert(r.begun_again.place_of(r.c_again, r.unit, k - 1) == (Placement::Extends {
            id: FnId(r.fns@.fn_map[f.id.0]),
            shared: false,
        }));
        assert(repeated_vars::is_body(var_context(&r), r.fns@.fn_map[f.id.0])) by {
            assert(var_context(&r).fn_map@.dom().contains(f.id.0));
        }
        assert(f@.id == f.id);
    }
}

proof fn lemma_same_functions(r: Repeat<'_>)
    requires
        is_repeat(r),
        are_found_again(r),
    ensures
        r.fns_again.fn_map@ == r.fns.fn_map@,
        r.fns_again.dropped@ == r.fns.dropped@,
        r.fns_again.adopted@ == Set::<u32>::empty(),
        r.fns_again.shares_headers == r.fns.shares_headers,
        forall|id: u32| #[trigger]
            r.fns_again.remerged@.contains(id) <==> repeated_vars::is_body(var_context(&r), id),
        r.placed_again.header_users@ == r.placed.header_users@,
{
    let n = r.unit.functions@.len() as int;
    lemma_settled_again(r, n);
    assert forall|f: u32| r.fns@.fn_map.dom().contains(f) implies #[trigger]
    r.fns_again@.fn_map.dom().contains(f) by {
        assert(is_function_of(r.unit, f));
        let k = choose|k: int|
            0 <= k < r.unit.functions@.len() && (#[trigger] r.unit.functions@[k]).id.0 == f;
        assert(r.fns_again@.fn_map.dom().contains(r.unit.functions@[k].id.0));
    }
    assert(r.fns_again@.fn_map =~= r.fns@.fn_map);
    assert forall|id: u32| repeated_vars::is_body(var_context(&r), id) implies #[trigger]
    r.fns_again.remerged@.contains(id) by {
        let f = choose|f: u32| #[trigger]
            var_context(&r).fn_map@.dom().contains(f) && var_context(&r).fn_map@[f] == id;
        assert(r.fns@.fn_map.dom().contains(f));
        assert(is_function_of(r.unit, f));
        let k = choose|k: int|
            0 <= k < r.unit.functions@.len() && (#[trigger] r.unit.functions@[k]).id.0 == f;
        assert(r.fns_again@.remerged.contains(r.fns@.fn_map[r.unit.functions@[k].id.0]));
    }
}

proof fn lemma_params_in(params: Seq<VarId>, vars: Map<u32, u32>, k: int)
    requires
        0 <= k <= params.len(),
        forall|i: int|
            0 <= i < params.len() ==> vars.dom().contains((#[trigger] params[i]).0),
    ensures
        merge_vars::params_in(params, vars, k) == Seq::new(
            k as nat,
            |i: int| VarId(vars[params[i].0]),
        ),
    decreases k,
{
    if k > 0 {
        lemma_params_in(params, vars, k - 1);
        assert(vars.dom().contains(params[k - 1].0));
    }
    assert(merge_vars::params_in(params, vars, k) =~= Seq::new(
        k as nat,
        |i: int| VarId(vars[params[i].0]),
    ));
}

proof fn lemma_param_name(vars: Seq<Variable>, j: int, k: int)
    requires
        0 <= j < k <= vars.len(),
        vars[j].storage == StorageClass::Param,
        forall|i: int, l: int|
            0 <= i < l < vars.len() ==> (#[trigger] vars[i]).id != (#[trigger] vars[l]).id,
    ensures
        merge_fns::param_name(vars, vars[j].id, k) == Some(vars[j].name@),
    decreases k,
{
    if j < k - 1 {
        assert(vars[j].id != vars[k - 1].id);
        lemma_param_name(vars, j, k - 1);
    }
}

proof fn lemma_param_called(
    vars: Seq<Variable>,
    merged: Seq<VarId>,
    names: Seq<Seq<char>>,
    i: int,
    k: int,
)
    requires
        0 <= i < k <= merged.len(),
        names.len() == merged.len(),
        forall|q: int|
            0 <= q < merged.len() ==> (program::var_by_id(vars, #[trigger] merged[q]) matches Some(v)
                && v.name@ == names[q]),
        forall|p: int, q: int|
            0 <= p < q < names.len() ==> (#[trigger] names[p]) != (#[trigger] names[q]),
    ensures
        merge_fns::param_called(vars, merged, names[i], k) == Some(merged[i]),
    decreases k,
{
    assert(program::var_by_id(vars, merged[k - 1]) matches Some(v) && v.name@ == names[k - 1]);
    if i < k - 1 {
        assert(names[i] != names[k - 1]);
        lemma_param_called(vars, merged, names, i, k - 1);
    }
}

/// What pairing the first `k` parameters of a list makes of the numbers before.
#[verifier::opaque]
spec fn pairs(
    before: Map<u32, u32>,
    after: Map<u32, u32>,
    own: Seq<VarId>,
    numbers: Map<u32, u32>,
    k: int,
) -> bool {
    &&& forall|i: int| 0 <= i < k ==> after.dom().contains((#[trigger] own[i]).0)
    &&& forall|x: u32| #[trigger]
        after.dom().contains(x) ==> (before.dom().contains(x) && after[x] == before[x]) || (is_own(
            own,
            x,
        ) && numbers.dom().contains(x) && after[x] == numbers[x])
    &&& forall|x: u32| before.dom().contains(x) ==> #[trigger] after.dom().contains(x)
}

proof fn lemma_pairs_step(
    before: Map<u32, u32>,
    b: Map<u32, u32>,
    own: Seq<VarId>,
    numbers: Map<u32, u32>,
    k: int,
)
    requires
        0 < k <= own.len(),
        pairs(before, b, own, numbers, k - 1),
        numbers.dom().contains(own[k - 1].0),
    ensures
        pairs(before, b.insert(own[k - 1].0, numbers[own[k - 1].0]), own, numbers, k),
{
    reveal(pairs);
    let after = b.insert(own[k - 1].0, numbers[own[k - 1].0]);
    assert(is_own(own, own[k - 1].0));
    assert forall|x: u32| #[trigger] after.dom().contains(x) implies (before.dom().contains(x)
        && after[x] == before[x]) || (is_own(own, x) && numbers.dom().contains(x) && after[x]
        == numbers[x]) by {
        if x != own[k - 1].0 {
            assert(b.dom().contains(x));
        }
    }
    assert forall|x: u32| before.dom().contains(x) implies #[trigger] after.dom().contains(x) by {
        assert(b.dom().contains(x));
    }
    assert forall|i: int| 0 <= i < k implies after.dom().contains((#[trigger] own[i]).0) by {
        if i < k - 1 {
            assert(b.dom().contains(own[i].0));
        }
    }
}

/// The number in the program of the function at `m`.
spec fn number_of(r: Repeat<'_>, m: int) -> FnId {
    FnId(r.fns@.fn_map[r.unit.functions@[m].id.0])
}

/// The program's function lists the unit's parameters under their numbers.
proof fn lemma_base(r: Repeat<'_>, m: int)
    requires
        is_repeat(r),
        stands_apart(r),
        are_listed(r),
        0 <= m < r.unit.functions@.len(),
    ensures
        ({
            let own = r.unit.functions@[m].params@;
            let numbers = r.first.symbols@.var_map;
            &&& program::fn_by_id(
                r.first.symbols@.functions,
                number_of(r, m),
            ) matches Some(base) && base.params == Seq::new(
                own.len(),
                |i: int| VarId(numbers[own[i].0]),
            )
            &&& forall|i: int|
                0 <= i < own.len() ==> numbers.dom().contains((#[trigger] own[i]).0)
        }),
{
    let unit = r.unit;
    let own = unit.functions@[m].params@;
    let vars = unit.variables@;
    let a = var_context(&r);
    let s = r.placed.symbols@;
    let first = merge_vars::vars_merged(repeated_vars::opened(s), a, vars, vars.len() as int);
    lemma_first_symbols(r);
    assert(takes_over(r, unit.functions@[m]@));
    repeated_vars::lemma_bodies_keep_parameters(s, a, vars);
    lemma_kept_base(r, first.functions, number_of(r, m));
    assert forall|i: int| 0 <= i < own.len() implies first.var_map.dom().contains(
        (#[trigger] own[i]).0,
    ) by {
        assert(is_param(unit, m, i, param_var(unit, m, i)));
        repeated_vars::lemma_parameter_is_found(s, a, vars, param_var(unit, m, i));
    }
    lemma_params_in(own, first.var_map, own.len() as int);
}

/// A parameter is found by its name.
proof fn lemma_pairing(r: Repeat<'_>, m: int, i: int)
    requires
        is_repeat(r),
        stands_apart(r),
        are_listed(r),
        0 <= m < r.unit.functions@.len(),
        0 <= i < r.unit.functions@[m].params@.len(),
    ensures
        ({
            let own = r.unit.functions@[m].params@;
            let vars = r.unit.variables@;
            let base = program::fn_by_id(r.first.symbols@.functions, number_of(r, m))->0;
            merge_fns::param_name(vars, own[i], vars.len() as int) matches Some(name)
                && merge_fns::param_called(
                r.first.symbols@.variables,
                base.params,
                name,
                base.params.len() as int,
            ) == Some(VarId(r.first.symbols@.var_map[own[i].0]))
        }),
{
    let unit = r.unit;
    let own = unit.functions@[m].params@;
    let vars = unit.variables@;
    let a = var_context(&r);
    let s = r.placed.symbols@;
    lemma_base(r, m);
    lemma_first_symbols(r);
    let base = program::fn_by_id(r.first.symbols@.functions, number_of(r, m))->0;
    let j = param_var(unit, m, i);
    assert(is_param(unit, m, i, j));
    lemma_param_name(vars, j, vars.len() as int);
    let names = Seq::new(own.len(), |q: int| vars[param_var(unit, m, q)].name@);
    assert forall|q: int| 0 <= q < base.params.len() implies (program::var_by_id(
        r.first.symbols@.variables,
        #[trigger] base.params[q],
    ) matches Some(v) && v.name@ == names[q]) by {
        assert(is_param(unit, m, q, param_var(unit, m, q)));
        repeated_vars::lemma_parameter_is_found(s, a, vars, param_var(unit, m, q));
    }
    assert forall|p: int, q: int| 0 <= p < q < names.len() implies (#[trigger] names[p]) != (
    #[trigger] names[q]) by {
        assert(vars[param_var(unit, m, p)].name@ != vars[param_var(unit, m, q)].name@);
    }
    lemma_param_called(
        r.first.symbols@.variables,
        base.params,
        names,
        i,
        base.params.len() as int,
    );
}

/// The parameters of one function pair with those that the program's lists.
proof fn lemma_paired(r: Repeat<'_>, before: Map<u32, u32>, m: int, k: int)
    requires
        is_repeat(r),
        stands_apart(r),
        are_listed(r),
        0 <= m < r.unit.functions@.len(),
        0 <= k <= r.unit.functions@[m].params@.len(),
    ensures
        pairs(
            before,
            merge_fns::paired(
                before,
                r.unit.variables@,
                r.first.symbols@.variables,
                r.unit.functions@[m].params@,
                program::fn_by_id(r.first.symbols@.functions, number_of(r, m))->0.params,
                k,
            ),
            r.unit.functions@[m].params@,
            r.first.symbols@.var_map,
            k,
        ),
    decreases k,
{
    if k == 0 {
        reveal(pairs);
    } else {
        lemma_paired(r, before, m, k - 1);
        lemma_base(r, m);
        lemma_pairing(r, m, k - 1);
        let own = r.unit.functions@[m].params@;
        let b = merge_fns::paired(
            before,
            r.unit.variables@,
            r.first.symbols@.variables,
            own,
            program::fn_by_id(r.first.symbols@.functions, number_of(r, m))->0.params,
            k - 1,
        );
        assert(r.first.symbols@.var_map.dom().contains(own[k - 1].0));
        lemma_pairs_step(before, b, own, r.first.symbols@.var_map, k);
    }
}

/// The list holds the number.
pub open spec fn is_own(params: Seq<VarId>, x: u32) -> bool {
    exists|i: int| 0 <= i < params.len() && (#[trigger] params[i]).0 == x
}

/// What the first configuration makes of the program's symbols.
proof fn lemma_first_symbols(r: Repeat<'_>)
    requires
        is_repeat(r),
    ensures
        ({
            let vars = r.unit.variables@;
            let first = merge_vars::vars_merged(
                repeated_vars::opened(r.placed.symbols@),
                var_context(&r),
                vars,
                vars.len() as int,
            );
            r.first.symbols@ == (VarTablesView {
                functions: merge_vars::params_placed(
                    first.functions,
                    r.fns.adopted@,
                    first.var_map,
                ),
                ..first
            })
        }),
{
    let s = r.placed.symbols@;
    assert(unit::symbols_opened(s, r.fns) == repeated_vars::opened(s)) by {
        lemma_nothing_extended(repeated_vars::opened(s), s.functions.len() as int);
    }
}

/// A function that took the parameters of the unit's over lists them under their
/// numbers.
proof fn lemma_kept_base(r: Repeat<'_>, fns: Seq<FnView>, id: FnId)
    requires
        is_repeat(r),
        r.fns@.adopted.contains(id.0),
        program::fn_by_id(r.placed.symbols@.functions, id) is Some,
        fns.len() == r.placed.symbols@.functions.len(),
        forall|p: int|
            0 <= p < fns.len() ==> (#[trigger] fns[p]).id == r.placed.symbols@.functions[p].id
                && fns[p].params == r.placed.symbols@.functions[p].params,
        r.first.symbols@.functions == merge_vars::params_placed(
            fns,
            r.fns.adopted@,
            r.first.symbols@.var_map,
        ),
    ensures
        program::fn_by_id(r.first.symbols@.functions, id) matches Some(base) && base.params
            == merge_vars::params_in(
            program::fn_by_id(r.placed.symbols@.functions, id)->0.params,
            r.first.symbols@.var_map,
            program::fn_by_id(r.placed.symbols@.functions, id)->0.params.len() as int,
        ),
{
    let old = r.placed.symbols@.functions;
    let new = r.first.symbols@.functions;
    program::lemma_fn_at(old, id, 0);
    program::lemma_fn_at(new, id, 0);
    let p = program::fn_at(old, id, 0)->0;
    assert(fns[p].id == id);
    assert(new[p].id == id);
    let q = program::fn_at(new, id, 0)->0;
    assert(fns[q].id == new[q].id);
    assert(fns[p].id == old[p].id);
    if q < p {
        assert(old[q].id != id);
    }
    if p < q {
        assert(new[p].id != id);
    }
}

/// A function of the unit among the first `k` lists the number.
spec fn is_listed_upto(unit: UnitIndex, x: u32, k: int) -> bool {
    exists|m: int|
        0 <= m < k && m < unit.functions@.len() && #[trigger] is_own(
            unit.functions@[m].params@,
            x,
        )
}

/// The parameters of the unit's first `k` functions, and no others, have their
/// numbers.
#[verifier::opaque]
spec fn are_numbered(
    t: Map<u32, u32>,
    unit: UnitIndex,
    numbers: Map<u32, u32>,
    k: int,
) -> bool {
    &&& forall|x: u32| #[trigger]
        t.dom().contains(x) ==> is_listed_upto(unit, x, k) && numbers.dom().contains(x) && t[x]
            == numbers[x]
    &&& forall|m: int, i: int|
        0 <= m < k && 0 <= i < unit.functions@[m].params@.len() ==> t.dom().contains(
            (#[trigger] unit.functions@[m].params@[i]).0,
        )
}

proof fn lemma_numbered_step(
    b: Map<u32, u32>,
    t: Map<u32, u32>,
    unit: UnitIndex,
    numbers: Map<u32, u32>,
    k: int,
)
    requires
        0 < k <= unit.functions@.len(),
        are_numbered(b, unit, numbers, k - 1),
        pairs(
            b,
            t,
            unit.functions@[k - 1].params@,
            numbers,
            unit.functions@[k - 1].params@.len() as int,
        ),
    ensures
        are_numbered(t, unit, numbers, k),
{
    reveal(are_numbered);
    reveal(pairs);
    assert forall|x: u32| #[trigger] t.dom().contains(x) implies is_listed_upto(unit, x, k)
        && numbers.dom().contains(x) && t[x] == numbers[x] by {
        if b.dom().contains(x) && t[x] == b[x] {
            assert(is_listed_upto(unit, x, k - 1));
            let m = choose|m: int|
                0 <= m < k - 1 && m < unit.functions@.len() && #[trigger] is_own(
                    unit.functions@[m].params@,
                    x,
                );
            assert(is_own(unit.functions@[m].params@, x));
        } else {
            assert(is_own(unit.functions@[k - 1].params@, x));
        }
    }
    assert forall|m: int, i: int|
        0 <= m < k && 0 <= i < unit.functions@[m].params@.len() implies t.dom().contains(
        (#[trigger] unit.functions@[m].params@[i]).0,
    ) by {
        if m < k - 1 {
            assert(b.dom().contains(unit.functions@[m].params@[i].0));
        }
    }
}

proof fn lemma_params_again(r: Repeat<'_>, k: int)
    requires
        is_repeat(r),
        are_found_again(r),
        stands_apart(r),
        are_listed(r),
        0 <= k <= r.unit.functions@.len(),
    ensures
        are_numbered(
            r.begun_again.settled_up_to(
                merge_fns::nothing_settled(),
                r.c_again,
                r.unit,
                0,
                k,
            ).var_map,
            r.unit,
            r.first.symbols@.var_map,
            k,
        ),
    decreases k,
{
    if k == 0 {
        reveal(are_numbered);
    } else {
        lemma_params_again(r, k - 1);
        let b = r.begun_again.settled_up_to(
            merge_fns::nothing_settled(),
            r.c_again,
            r.unit,
            0,
            k - 1,
        );
        let t = r.begun_again.settled_up_to(
            merge_fns::nothing_settled(),
            r.c_again,
            r.unit,
            0,
            k,
        );
        let f = r.unit.functions@[k - 1];
        let own = f.params@;
        assert(r.begun_again.place_of(r.c_again, r.unit, k - 1) == (Placement::Extends {
            id: number_of(r, k - 1),
            shared: false,
        }));
        lemma_base(r, k - 1);
        lemma_paired(r, b.var_map, k - 1, own.len() as int);
        assert(f@.params == own);
        assert(r.begun_again.symbols@.functions == r.first.symbols@.functions);
        assert(r.begun_again.symbols.variables@ == r.first.symbols@.variables);
        assert(t == merge_fns::settled(
            b,
            r.first.symbols@.functions,
            r.first.symbols@.variables,
            r.unit.variables@,
            f@,
            Placement::Extends { id: number_of(r, k - 1), shared: false },
        ));
        lemma_numbered_step(b.var_map, t.var_map, r.unit, r.first.symbols@.var_map, k);
    }
}

/// The parameters of a repeated configuration have their numbers.
proof fn lemma_are_paired(r: Repeat<'_>)
    requires
        is_repeat(r),
        are_found_again(r),
        stands_apart(r),
        are_listed(r),
    ensures
        repeated_vars::are_paired(
            r.fns_again@.var_map,
            r.first.symbols@.var_map,
            r.unit.variables@,
        ),
{
    let unit = r.unit;
    let vars = unit.variables@;
    let n = unit.functions@.len() as int;
    lemma_params_again(r, n);
    reveal(are_numbered);
    let params = r.fns_again@.var_map;
    assert forall|j: int|
        0 <= j < vars.len() && r.first.symbols@.var_map.dom().contains(
            (#[trigger] vars[j]).id.0,
        ) implies (params.dom().contains(vars[j].id.0) <==> vars[j].fn_id is Some
        && vars[j].param_index is Some) by {
        if vars[j].fn_id is Some && vars[j].param_index is Some {
            assert(is_listed(unit, j));
            let (k, i) = choose|k: int, i: int|
                0 <= k < unit.functions@.len() && 0 <= i < unit.functions@[k].params@.len()
                    && param_var(unit, k, i) == j && #[trigger] is_param(unit, k, i, j);
            assert(params.dom().contains(unit.functions@[k].params@[i].0));
        }
        if params.dom().contains(vars[j].id.0) {
            let x = vars[j].id.0;
            assert(is_listed_upto(unit, x, n));
            let m = choose|m: int|
                0 <= m < n && m < unit.functions@.len() && #[trigger] is_own(
                    unit.functions@[m].params@,
                    x,
                );
            let i = choose|i: int|
                0 <= i < unit.functions@[m].params@.len() && (
                #[trigger] unit.functions@[m].params@[i]).0 == x;
            let l = param_var(unit, m, i);
            assert(is_param(unit, m, i, l));
            if l < j {
                assert(vars[l].id != vars[j].id);
            }
            if j < l {
                assert(vars[j].id != vars[l].id);
            }
        }
    }
}

proof fn lemma_nothing_extended(s: VarTablesView, k: int)
    ensures
        merge_vars::bodies_noted(s, Set::empty(), k) == s,
    decreases k,
{
    if k > 0 {
        lemma_nothing_extended(s, k - 1);
    }
}

proof fn lemma_same_symbols(r: Repeat<'_>)
    requires
        is_repeat(r),
        are_found_again(r),
        stands_apart(r),
        are_listed(r),
    ensures
        r.again.symbols@.variables == r.first.symbols@.variables,
        r.again.symbols@.functions == r.first.symbols@.functions,
        r.again.symbols@.next_var == r.first.symbols@.next_var,
        r.again.symbols@.var_map == r.first.symbols@.var_map,
{
    lemma_same_files(r);
    lemma_source_is_first(r);
    lemma_same_functions(r);
    lemma_are_paired(r);
    lemma_first_symbols(r);
    let vars = r.unit.variables@;
    let n = vars.len() as int;
    let a = var_context(&r);
    let b = VarContext {
        mode: MergeMode::Variant,
        map: &r.map_again,
        files: &r.placed_again.files,
        type_map: &r.type_map,
        fn_map: &r.fns_again.fn_map,
        dropped: &r.fns_again.dropped,
        remerged: &r.fns_again.remerged,
        scope: 0,
    };
    let s = r.placed.symbols@;
    let first = merge_vars::vars_merged(repeated_vars::opened(s), a, vars, n);
    let fns = r.first.symbols@.functions;
    assert(fns == merge_vars::params_placed(first.functions, r.fns.adopted@, first.var_map));
    assert(r.first.symbols@ == (VarTablesView { functions: fns, ..first }));
    assert(repeated_vars::same_bodies(first.functions, fns));
    repeated_vars::law_a_repeated_configuration_adds_no_variable(
        s,
        fns,
        r.fns_again@.var_map,
        a,
        b,
        vars,
    );
    let again = merge_vars::vars_merged(
        repeated_vars::reopened(
            s,
            r.first.symbols@,
            r.fns_again@.var_map,
            r.fns_again.remerged@,
        ),
        b,
        vars,
        n,
    );
    assert(unit::symbols_opened(r.placed_again.symbols@, r.fns_again) == repeated_vars::reopened(
        s,
        r.first.symbols@,
        r.fns_again@.var_map,
        r.fns_again.remerged@,
    ));
    assert(merge_vars::params_placed(again.functions, r.fns_again.adopted@, again.var_map)
        =~= again.functions);
}

proof fn lemma_same_flow(r: Repeat<'_>)
    requires
        is_repeat(r),
        are_found_again(r),
        stands_apart(r),
        r.again.symbols@.var_map == r.first.symbols@.var_map,
        r.again.symbols@.functions == r.first.symbols@.functions,
    ensures
        r.again.flow@.flow == r.first.flow@.flow,
        r.again.calls@.records == r.first.calls@.records,
        r.again.returns@ == r.first.returns@,
{
    lemma_same_files(r);
    lemma_same_functions(r);
    if !merge_vars::is_dep(r.begun.files@, r.map.primary) {
        let a = FlowContext {
            mode: MergeMode::Full,
            files: &r.placed.files,
            functions: &r.first.symbols.functions,
            variables: &r.first.symbols.variables,
            unit_vars: &r.unit.variables,
            users: &r.placed.header_users,
            shares_headers: r.fns.shares_headers,
            fn_map: &r.fns.fn_map,
            var_map: &r.first.symbols.var_map,
            dropped: &r.fns.dropped,
        };
        let b = FlowContext {
            mode: MergeMode::Variant,
            files: &r.placed_again.files,
            functions: &r.again.symbols.functions,
            variables: &r.again.symbols.variables,
            unit_vars: &r.unit.variables,
            users: &r.placed_again.header_users,
            shares_headers: r.fns_again.shares_headers,
            fn_map: &r.fns_again.fn_map,
            var_map: &r.again.symbols.var_map,
            dropped: &r.fns_again.dropped,
        };
        let flow = merge_flow::flow_views(r.unit.flow@);
        repeats::law_a_repeated_configuration_adds_no_constraint(r.start.flow@, a, b, flow);
        assert(r.first.flow@ == merge_flow::flow_merged(
            r.start.flow@,
            a,
            flow,
            flow.len() as int,
        ));
        assert(r.variants.flow@ == (FlowTablesView {
            variant_flow: r.first.flow@.flow.skip(r.start.flow@.flow.len() as int),
            ..r.first.flow@
        }));
        let entries = merge_flow::entry_views(r.unit.fn_returns@);
        repeats::law_a_repeated_configuration_adds_no_return(r.start.returns@, a, b, entries);
        lemma_same_calls(r);
    }
}

proof fn lemma_same_calls(r: Repeat<'_>)
    requires
        is_repeat(r),
        are_found_again(r),
        stands_apart(r),
        r.again.symbols@.var_map == r.first.symbols@.var_map,
        r.again.symbols@.functions == r.first.symbols@.functions,
        !merge_vars::is_dep(r.begun.files@, r.map.primary),
    ensures
        r.again.calls@.records == r.first.calls@.records,
{
    lemma_same_files(r);
    lemma_same_functions(r);
    let a = call_context(&r);
    let b = CallContext {
        mode: MergeMode::Variant,
        map: &r.map_again,
        files: &r.placed_again.files,
        functions: &r.again.symbols.functions,
        users: &r.placed_again.header_users,
        fn_map: &r.fns_again.fn_map,
        var_map: &r.again.symbols.var_map,
        dropped: &r.fns_again.dropped,
    };
    let calls = r.unit.call_sites@;
    let s = CallTablesView { call_map: idmap::no_entries(), ..r.start.calls@ };
    let first = merge_calls::calls_merged(s, a, calls, calls.len() as int);
    assert(r.first.calls@ == first);
    repeated_calls::law_a_repeated_configuration_adds_no_call(s, a, b, calls);
}

proof fn lemma_same_reports(r: Repeat<'_>)
    requires
        is_repeat(r),
    ensures
        merge::reports(r.begun_again.diagnostics@) == merge::reports(r.begun.diagnostics@),
{
    lemma_same_files(r);
    let reports = merge::placed_reports(r.unit.diagnostics@, r.map);
    assert(merge::placed_reports(r.unit.diagnostics@, r.map_again) =~= reports);
    repeats::law_a_repeated_configuration_adds_no_report(
        merge::reports(r.start.findings@),
        reports,
    );
    assert(merge::reports(r.begun_again.diagnostics@) =~= merge::reports(
        r.begun.diagnostics@,
    ));
}

proof fn lemma_same_classes(r: Repeat<'_>)
    requires
        is_repeat(r),
    ensures
        r.begun_again.classes.states_what(&r.begun.classes),
{
    lemma_same_files(r);
    let u = r.unit.classes;
    let s = r.start.classes;
    assert(facts::classes_in(u.anonymous_classes@, r.map_again) =~= facts::classes_in(
        u.anonymous_classes@,
        r.map,
    ));
    assert(facts::classes_in(u.anonymous_final_classes@, r.map_again) =~= facts::classes_in(
        u.anonymous_final_classes@,
        r.map,
    ));
    assert(facts::classes_in(u.anonymous_bases@, r.map_again) =~= facts::classes_in(
        u.anonymous_bases@,
        r.map,
    ));
    facts::law_facts_are_taken_over_once(
        facts::all_stated(s.inheritance@),
        facts::all_stated(u.inheritance@),
    );
    facts::law_facts_are_taken_over_once(
        facts::all_stated(s.template_bases@),
        facts::all_stated(u.template_bases@),
    );
    facts::law_facts_are_taken_over_once(
        facts::all_stated(s.arrow_returns@),
        facts::all_stated(u.arrow_returns@),
    );
    facts::law_facts_are_taken_over_once(
        facts::all_stated(s.member_returns@),
        facts::all_stated(u.member_returns@),
    );
    facts::law_facts_are_taken_over_once(
        facts::all_stated(s.final_classes@),
        facts::all_stated(u.final_classes@),
    );
    facts::law_facts_are_taken_over_once(
        facts::all_stated(s.namespaces@),
        facts::all_stated(u.namespaces@),
    );
    facts::law_facts_are_taken_over_once(
        facts::all_stated(s.anonymous_classes@),
        facts::classes_in(u.anonymous_classes@, r.map),
    );
    facts::law_facts_are_taken_over_once(
        facts::all_stated(s.anonymous_final_classes@),
        facts::classes_in(u.anonymous_final_classes@, r.map),
    );
    facts::law_facts_are_taken_over_once(
        facts::all_stated(s.anonymous_bases@),
        facts::classes_in(u.anonymous_bases@, r.map),
    );
}

/// A configuration that repeats the first one of its source adds nothing, and is
/// counted: where its functions are found as what they became and list their own
/// parameters, and its variables and calls each stand in a place of their own, the
/// program has the functions, variables, constraints, calls, returns, reports, files and facts on classes that
/// it had.
pub proof fn law_a_repeated_configuration_adds_nothing(r: Repeat<'_>)
    requires
        is_repeat(r),
        are_found_again(r),
        stands_apart(r),
        are_listed(r),
        r.again.variants_merged < usize::MAX,
    ensures
        r.ended.symbols@.variables == r.first.symbols@.variables,
        r.ended.symbols@.functions == r.first.symbols@.functions,
        r.ended.flow@.flow == r.first.flow@.flow,
        r.ended.calls@.records == r.first.calls@.records,
        r.ended.returns@ == r.first.returns@,
        merge::reports(r.ended.diagnostics@) == merge::reports(r.first.diagnostics@),
        r.ended.files@ == r.first.files@,
        r.ended.classes.states_what(&r.first.classes),
        r.ended.variants_merged == r.first.variants_merged + 1,
        r.ended.layouts_unioned,
{
    lemma_same_files(r);
    lemma_same_symbols(r);
    lemma_same_flow(r);
    lemma_same_reports(r);
    lemma_same_classes(r);
}

proof fn lemma_line_pushed(
    v: Seq<FnKey>,
    w: Seq<FnKey>,
    file: FileId,
    name: Seq<char>,
    line: u32,
    k: int,
)
    requires
        0 <= k <= v.len() <= w.len(),
        forall|i: int| 0 <= i < v.len() ==> (#[trigger] w[i]) == v[i],
    ensures
        merge_fns::line_fn(w, file, name, line, k) == merge_fns::line_fn(v, file, name, line, k),
    decreases k,
{
    if k > 0 {
        lemma_line_pushed(v, w, file, name, line, k - 1);
        assert(w[k - 1] == v[k - 1]);
    }
}

/// A function that was taken in and that other units can see is known by where it
/// stands, and no other place is known for another function.
pub proof fn law_a_function_is_known_where_it_stands(
    before: Program,
    after: Program,
    c: FnContext<'_>,
    unit: UnitIndex,
    k: int,
    got: Registered,
)
    requires
        0 <= k < unit.functions@.len(),
        after.is_taken_in(&before, c, unit, k, got),
        !program::internal_cpp(unit.functions@[k]@.traits),
    ensures
        merge_fns::line_fn(
            after.keys.lines@,
            c.map.spec_of(unit.functions@[k].span.file),
            unit.functions@[k].name@,
            unit.functions@[k].span.line,
            after.keys.lines@.len() as int,
        ) == Some(got.id),
        forall|file: FileId, name: Seq<char>, line: u32|
            !(file == c.map.spec_of(unit.functions@[k].span.file) && name
                == unit.functions@[k].name@ && line == unit.functions@[k].span.line)
                ==> #[trigger] merge_fns::line_fn(
                after.keys.lines@,
                file,
                name,
                line,
                after.keys.lines@.len() as int,
            ) == merge_fns::line_fn(
                before.keys.lines@,
                file,
                name,
                line,
                before.keys.lines@.len() as int,
            ),
{
    let v = before.keys.lines@;
    let w = after.keys.lines@;
    assert forall|i: int| 0 <= i < v.len() implies (#[trigger] w[i]) == v[i] by {
        assert(w.drop_last()[i] == w[i]);
    }
    assert forall|file: FileId, name: Seq<char>, line: u32|
        !(file == c.map.spec_of(unit.functions@[k].span.file) && name == unit.functions@[k].name@
            && line == unit.functions@[k].span.line) implies #[trigger] merge_fns::line_fn(
        w,
        file,
        name,
        line,
        w.len() as int,
    ) == merge_fns::line_fn(v, file, name, line, v.len() as int) by {
        lemma_line_pushed(v, w, file, name, line, v.len() as int);
    }
}

/// A configuration extends the function that is known where one of its own stands.
pub proof fn law_a_known_function_is_extended(
    p: Program,
    c: FnContext<'_>,
    unit: UnitIndex,
    k: int,
    id: FnId,
)
    requires
        0 <= k < unit.functions@.len(),
        c.mode == MergeMode::Variant,
        !program::internal_cpp(unit.functions@[k]@.traits),
        !merge_fns::is_respelled(c.respelled@, unit.functions@[k].id),
        c.map.spec_of(unit.functions@[k].span.file) == c.map.primary,
        merge_fns::line_fn(
            p.keys.lines@,
            c.map.primary,
            unit.functions@[k].name@,
            unit.functions@[k].span.line,
            p.keys.lines@.len() as int,
        ) == Some(id),
    ensures
        p.place_of(c, unit, k) == (Placement::Extends { id, shared: false }),
{
}

} // verus!
