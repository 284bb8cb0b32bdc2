//! What the program gains once its units are merged.

use crate::calls::SiteView;
use crate::externs;
use crate::finalize;
use crate::finalize::Overloads;
use crate::ir::{FileId, FnId, Linkage, Span, StorageClass, TargetId, TypeId, VarId};
use crate::merge;
use crate::merge::{Diagnostic, FileMap};
use crate::merge_fns;
use crate::merge_fns::{FnKeys, HeaderFn};
use crate::merge_vars;
use crate::merge_vars::{LocalAt, VarTablesView};
use crate::program;
use crate::program::{FnView, RecordView, Variable};
use crate::remap::ReturnView;
use vstd::prelude::*;

verus! {

/// The variables have different numbers.
pub open spec fn are_distinct(vars: Seq<Variable>) -> bool {
    forall|i: int, j: int|
        0 <= i < j < vars.len() ==> (#[trigger] vars[i]).id != (#[trigger] vars[j]).id
}

proof fn lemma_moved(vars: Seq<Variable>, params: Seq<VarId>, k: int, i: int)
    requires
        are_distinct(vars),
        finalize::can_move(vars, params),
        params.no_duplicates(),
        0 <= k <= params.len(),
        0 <= i < vars.len(),
    ensures
        finalize::moved_on(vars, params, k).len() == vars.len(),
        are_distinct(finalize::moved_on(vars, params, k)),
        ({
            let own = finalize::moved_on(vars, params, k)[i];
            if params.take(k).contains(vars[i].id) && vars[i].param_index is Some {
                own == (Variable {
                    param_index: Some((vars[i].param_index->0 + 1) as u32),
                    ..vars[i]
                })
            } else {
                own == vars[i]
            }
        }),
    decreases k,
{
    if k > 0 {
        lemma_moved(vars, params, k - 1, i);
        let before = finalize::moved_on(vars, params, k - 1);
        program::lemma_var_at(before, params[k - 1], 0);
        assert(before[i].id == vars[i].id);
        assert forall|a: int, b: int| 0 <= a < b < before.len() implies (#[trigger] before[a]).id
            != (#[trigger] before[b]).id by {}
        let all = params.take(k);
        let less = params.take(k - 1);
        assert(all[k - 1] == params[k - 1]);
        if less.contains(vars[i].id) {
            let j = choose|j: int| 0 <= j < less.len() && less[j] == vars[i].id;
            assert(all[j] == vars[i].id);
            assert(params[j] != params[k - 1]);
        }
        if all.contains(vars[i].id) && vars[i].id != params[k - 1] {
            let j = choose|j: int| 0 <= j < all.len() && all[j] == vars[i].id;
            assert(less[j] == vars[i].id);
        }
        if vars[i].id == params[k - 1] {
            assert(!less.contains(vars[i].id)) by {
                if less.contains(vars[i].id) {
                    let j = choose|j: int| 0 <= j < less.len() && less[j] == vars[i].id;
                    assert(params[j] == params[k - 1]);
                }
            }
            let at = program::var_at(before, params[k - 1], 0);
            assert(at is Some);
            let p = at->0;
            if p < i {
                assert(before[p].id != before[i].id);
            } else if i < p {
                assert(before[i].id != before[p].id);
            }
        }
    }
}

/// Where a member is given its `this`, each of its other parameters moves one on, and no
/// other variable changes.
pub proof fn law_parameters_move_behind_this(vars: Seq<Variable>, params: Seq<VarId>, i: int)
    requires
        are_distinct(vars),
        finalize::can_move(vars, params),
        params.no_duplicates(),
        0 <= i < vars.len(),
    ensures
        ({
            let own = finalize::moved_on(vars, params, params.len() as int)[i];
            &&& params.contains(vars[i].id) ==> (vars[i].param_index matches Some(p)
                ==> own.param_index == Some((p + 1) as u32))
            &&& !params.contains(vars[i].id) ==> own == vars[i]
            &&& own.id == vars[i].id && own.name == vars[i].name && own.type_id
                == vars[i].type_id && own.fn_id == vars[i].fn_id && own.span == vars[i].span
        }),
{
    assert(params.take(params.len() as int) =~= params);
    lemma_moved(vars, params, params.len() as int, i);
}

/// `this` is the first parameter of its function, a pointer of the given type.
pub proof fn law_this_is_a_parameter(v: Variable, id: VarId, type_id: TypeId, f: FnView)
    requires
        finalize::is_this_of(v, id, type_id, f),
    ensures
        v.id == id && v.name@ == "this"@ && v.type_id == type_id && v.fn_id == Some(f.id),
        v.param_index == Some(0u32) && v.is_pointer && v.storage == StorageClass::Param,
        v.span == f.span && v.target == f.target && !v.is_defined,
{
}

/// A call that passes something to a known member passes it behind `this`, unless it did
/// already; a call of a function that takes none passes it as it did.
pub proof fn law_members_are_passed_this_first(
    fns: Seq<FnView>,
    vars: Seq<Variable>,
    s: SiteView,
    callees: Seq<FnId>,
    f: FnView,
)
    requires
        s.callee_fn_id == Some(f.id),
        program::fn_by_id(fns, f.id) == Some(f),
        s.args.var_args.len() > 0 || s.args.fn_args.len() > 0,
        f.params.len() > 0,
    ensures
        ({
            let own = finalize::bound_site(fns, vars, s, callees);
            let has_this = program::var_by_id(vars, f.params[0]) matches Some(v) && v.name@
                == "this"@;
            &&& has_this && !s.args_bound_past_this ==> {
                &&& own.args_bound_past_this
                &&& own.args.var_args.len() == s.args.var_args.len()
                &&& own.args.fn_args.len() == s.args.fn_args.len()
                &&& forall|k: int|
                    0 <= k < s.args.var_args.len() ==> (#[trigger] own.args.var_args[k]).1
                        == s.args.var_args[k].1 && own.args.var_args[k].0 == (s.args.var_args[k].0
                        + 1) as u32
                &&& forall|k: int|
                    0 <= k < s.args.fn_args.len() ==> (#[trigger] own.args.fn_args[k]).1
                        == s.args.fn_args[k].1 && own.args.fn_args[k].0 == (s.args.fn_args[k].0
                        + 1) as u32
            }
            &&& !has_this || s.args_bound_past_this ==> own == s
        }),
{
}

proof fn lemma_overloads(v: Seq<Overloads>, callee: FnId, file: FileId, k: int, i: int)
    requires
        0 <= k <= i < v.len(),
        v[i].callee == callee,
        v[i].file == file,
        forall|j: int|
            k <= j < i ==> !((#[trigger] v[j]).callee == callee && v[j].file == file),
    ensures
        finalize::overloads_of(v, callee, file, k) == v[i].others@,
    decreases i - k,
{
    if k < i {
        assert(!(v[k].callee == callee && v[k].file == file));
        lemma_overloads(v, callee, file, k + 1, i);
    }
}

proof fn lemma_returns_widened(
    v: Seq<Overloads>,
    file: FileId,
    flows: Seq<ReturnView>,
    k: int,
    i: int,
    callee: FnId,
    g: FnId,
)
    requires
        0 <= i < k <= flows.len(),
        flows[i] == (ReturnView::AddrOfFn { callee }),
        finalize::overloads_of(v, callee, file, 0).contains(g),
    ensures
        finalize::returns_widened(v, Some(file), flows, k).contains(
            ReturnView::AddrOfFn { callee: g },
        ),
    decreases k,
{
    let before = finalize::returns_widened(v, Some(file), flows, k - 1);
    let all = finalize::returns_widened(v, Some(file), flows, k);
    let own = ReturnView::AddrOfFn { callee: g };
    if i < k - 1 {
        lemma_returns_widened(v, file, flows, k - 1, i, callee, g);
        let j = choose|j: int| 0 <= j < before.len() && before[j] == own;
        assert(all[j] == own);
    } else {
        let others = finalize::overloads_of(v, callee, file, 0);
        let j = choose|j: int| 0 <= j < others.len() && others[j] == g;
        assert(all[before.len() + j] == own);
    }
}

/// A function that returns the address of an overloaded function of its file may return
/// that of each overload; what it was known to return stays first.
pub proof fn law_returned_addresses_are_of_every_overload(
    v: Seq<Overloads>,
    fns: Seq<FnView>,
    e: (FnId, Seq<ReturnView>),
    f: FnView,
    i: int,
    o: int,
    g: FnId,
    j: int,
)
    requires
        program::fn_by_id(fns, e.0) == Some(f),
        0 <= i < e.1.len(),
        0 <= o < v.len(),
        v[o].file == f.span.file,
        e.1[i] == (ReturnView::AddrOfFn { callee: v[o].callee }),
        forall|j: int|
            0 <= j < o ==> !((#[trigger] v[j]).callee == v[o].callee && v[j].file == v[o].file),
        v[o].others@.contains(g),
        0 <= j < e.1.len(),
    ensures
        finalize::entry_widened(v, fns, e).0 == e.0,
        finalize::entry_widened(v, fns, e).1[j] == e.1[j],
        finalize::entry_widened(v, fns, e).1.contains(ReturnView::AddrOfFn { callee: g }),
{
    lemma_overloads(v, v[o].callee, v[o].file, 0, o);
    lemma_returns_widened(v, f.span.file, e.1, e.1.len() as int, i, v[o].callee, g);
    let more = finalize::returns_widened(v, Some(f.span.file), e.1, e.1.len() as int);
    let own = ReturnView::AddrOfFn { callee: g };
    let m = choose|m: int| 0 <= m < more.len() && more[m] == own;
    assert(finalize::entry_widened(v, fns, e).1[e.1.len() + m] == own);
}

/// Returns of anything else stay as they are.
pub proof fn law_other_returns_stay(
    v: Seq<Overloads>,
    fns: Seq<FnView>,
    e: (FnId, Seq<ReturnView>),
)
    requires
        forall|i: int| 0 <= i < e.1.len() ==> !((#[trigger] e.1[i]) is AddrOfFn),
    ensures
        finalize::entry_widened(v, fns, e) == e,
{
    let file = match program::fn_by_id(fns, e.0) {
        Some(f) => Some(f.span.file),
        None => None,
    };
    lemma_none_widened(v, file, e.1, e.1.len() as int);
    assert(finalize::entry_widened(v, fns, e).1 =~= e.1);
}

proof fn lemma_none_widened(
    v: Seq<Overloads>,
    file: Option<FileId>,
    flows: Seq<ReturnView>,
    k: int,
)
    requires
        0 <= k <= flows.len(),
        forall|i: int| 0 <= i < flows.len() ==> !((#[trigger] flows[i]) is AddrOfFn),
    ensures
        finalize::returns_widened(v, file, flows, k).len() == 0,
    decreases k,
{
    if k > 0 {
        lemma_none_widened(v, file, flows, k - 1);
        assert(!(flows[k - 1] is AddrOfFn));
    }
}

proof fn lemma_resolved(calls: Seq<RecordView>, k: int, i: int)
    requires
        0 <= i < k <= calls.len(),
        calls[i].site.callee_fn_id is Some,
    ensures
        finalize::resolved(calls, k).contains(
            finalize::reached_by(calls[i], calls[i].site.callee_fn_id->0),
        ),
    decreases k,
{
    let before = finalize::resolved(calls, k - 1);
    let all = finalize::resolved(calls, k);
    let own = finalize::reached_by(calls[i], calls[i].site.callee_fn_id->0);
    if i < k - 1 {
        lemma_resolved(calls, k - 1, i);
        let j = choose|j: int| 0 <= j < before.len() && before[j] == own;
        assert(all[j] == own);
    } else {
        assert(all[before.len() as int] == own);
    }
}

/// Every call with a known callee is known before overrides are added: by who calls, whom,
/// and where.
pub proof fn law_known_calls_are_seen(calls: Seq<RecordView>, i: int, callee: FnId)
    requires
        0 <= i < calls.len(),
        calls[i].site.callee_fn_id == Some(callee),
    ensures
        exists|j: int|
            0 <= j < finalize::resolved(calls, calls.len() as int).len() && {
                let known = #[trigger] finalize::resolved(calls, calls.len() as int)[j];
                known.callee == callee && known.caller == calls[i].site.caller && known.line
                    == calls[i].site.span.line && known.col == calls[i].site.span.col
            },
{
    lemma_resolved(calls, calls.len() as int, i);
    let all = finalize::resolved(calls, calls.len() as int);
    let own = finalize::reached_by(calls[i], callee);
    let j = choose|j: int| 0 <= j < all.len() && all[j] == own;
    assert(all[j].callee == callee);
}

/// A report of a unit says the same of the program's file.
pub proof fn law_reports_are_of_the_programs_files(unit: Seq<Diagnostic>, map: FileMap, i: int)
    requires
        0 <= i < unit.len(),
    ensures
        merge::placed_reports(unit, map).len() == unit.len(),
        ({
            let own = merge::placed_reports(unit, map)[i];
            &&& own.line == unit[i]@.line && own.message == unit[i]@.message && own.stage
                == unit[i]@.stage
            &&& unit[i]@.file is None ==> own.file is None
            &&& unit[i]@.file matches Some(f) ==> own.file == Some(map.spec_of(f))
        }),
{
}

proof fn lemma_header_fn(
    v: Seq<HeaderFn>,
    k: int,
    i: int,
)
    requires
        0 <= i < k <= v.len(),
        forall|j: int|
            i < j < k ==> !((#[trigger] v[j]).origin == v[i].origin && v[j].name@ == v[i].name@
                && v[j].text@ == v[i].text@),
    ensures
        merge_fns::header_fn(v, v[i].origin, v[i].name@, v[i].text@, k) == Some(v[i].id),
    decreases k,
{
    if i < k - 1 {
        assert(!(v[k - 1].origin == v[i].origin && v[k - 1].name@ == v[i].name@ && v[k - 1].text@
            == v[i].text@));
        lemma_header_fn(v, k - 1, i);
    }
}

/// A function of a header is the one that another unit brought from the same place with
/// the same name and text; one of the unit's own file is shared with none.
pub proof fn law_header_functions_are_shared(
    keys: FnKeys,
    map: FileMap,
    f: FnView,
    text: Seq<char>,
    i: int,
)
    requires
        0 <= i < keys.headers@.len(),
        map.spec_span(f.span) == keys.headers@[i].origin,
        f.name == keys.headers@[i].name@,
        text == keys.headers@[i].text@,
        forall|j: int|
            i < j < keys.headers@.len() ==> !((#[trigger] keys.headers@[j]).origin
                == keys.headers@[i].origin && keys.headers@[j].name@ == keys.headers@[i].name@
                && keys.headers@[j].text@ == keys.headers@[i].text@),
    ensures
        map.spec_of(f.span.file) != map.primary ==> merge_fns::shared_by(keys, map, f, Some(text))
            == Some(keys.headers@[i].id),
        map.spec_of(f.span.file) == map.primary ==> merge_fns::shared_by(
            keys,
            map,
            f,
            Some(text),
        ) is None,
        merge_fns::shared_by(keys, map, f, None) is None,
{
    lemma_header_fn(keys.headers@, keys.headers@.len() as int, i);
}

/// Two definitions in C are arms of one function; two in C++ are only where they take as
/// many parameters.
pub proof fn law_arms_take_as_many_parameters(
    vars: Seq<Variable>,
    types: Map<u32, u32>,
    agree: Seq<(TypeId, TypeId)>,
    base: FnView,
    f: FnView,
)
    ensures
        !f.traits.is_cpp || !base.traits.is_cpp ==> merge_fns::is_other_arm(
            vars,
            types,
            agree,
            base,
            f,
        ),
        f.traits.is_cpp && base.traits.is_cpp && base.params.len() != f.params.len()
            ==> !merge_fns::is_other_arm(vars, types, agree, base, f),
        f.params.len() == 0 && base.params.len() == 0 ==> merge_fns::is_other_arm(
            vars,
            types,
            agree,
            base,
            f,
        ),
{
}

/// Parameters of known and different types, not held to agree, tell two functions of C++
/// apart.
pub proof fn law_parameter_types_tell_functions_apart(
    vars: Seq<Variable>,
    types: Map<u32, u32>,
    agree: Seq<(TypeId, TypeId)>,
    base: FnView,
    f: FnView,
    i: int,
)
    requires
        f.traits.is_cpp,
        base.traits.is_cpp,
        0 <= i < f.params.len(),
        i < base.param_type_ids.len(),
        types.dom().contains(f.params[i].0),
        base.param_type_ids[i].0 != types[f.params[i].0],
        !agree.contains((base.param_type_ids[i], TypeId(types[f.params[i].0]))),
    ensures
        !merge_fns::is_other_arm(vars, types, agree, base, f),
{
    assert(!merge_fns::arm_param_agrees(vars, types, agree, base, f, i));
}

proof fn lemma_noted(s: VarTablesView, f: FnView, k: int, j: int, v: Variable)
    requires
        0 <= j < k <= f.locals.len(),
        program::var_by_id(s.variables, f.locals[j]) == Some(v),
    ensures
        ({
            let own = merge_vars::body_noted(s, f, k);
            match merge_vars::temp_kind(v.name@) {
                Some(kind) => exists|i: int|
                    0 <= i < own.temps.len() && {
                        let e = #[trigger] own.temps[i];
                        e.0.owner == f.id && e.0.span == v.span && e.0.kind == kind && e.1
                            == f.locals[j]
                    },
                None => exists|i: int|
                    0 <= i < own.locals.len() && {
                        let e = #[trigger] own.locals[i];
                        e.owner == f.id && e.span == v.span && e.name@ == v.name@
                    },
            }
        }),
    decreases k,
{
    let before = merge_vars::body_noted(s, f, k - 1);
    let own = merge_vars::body_noted(s, f, k);
    if j < k - 1 {
        lemma_noted(s, f, k - 1, j, v);
        match merge_vars::temp_kind(v.name@) {
            Some(kind) => {
                let i = choose|i: int|
                    0 <= i < before.temps.len() && {
                        let e = #[trigger] before.temps[i];
                        e.0.owner == f.id && e.0.span == v.span && e.0.kind == kind && e.1
                            == f.locals[j]
                    };
                assert(own.temps[i] == before.temps[i]);
            },
            None => {
                let i = choose|i: int|
                    0 <= i < before.locals.len() && {
                        let e = #[trigger] before.locals[i];
                        e.owner == f.id && e.span == v.span && e.name@ == v.name@
                    };
                assert(own.locals[i] == before.locals[i]);
            },
        }
    } else {
        match merge_vars::temp_kind(v.name@) {
            Some(kind) => {
                assert(own.temps[before.temps.len() as int].1 == f.locals[j]);
            },
            None => {
                if merge_vars::local_at(before.locals, f.id, v.span, v.name@, 0) is Some {
                    lemma_local_at(before.locals, f.id, v.span, v.name@, 0);
                } else {
                    assert(own.locals[before.locals.len() as int].name@ == v.name@);
                }
            },
        }
    }
}

proof fn lemma_local_at(
    v: Seq<LocalAt>,
    owner: FnId,
    span: Span,
    name: Seq<char>,
    k: int,
)
    requires
        0 <= k,
        merge_vars::local_at(v, owner, span, name, k) is Some,
    ensures
        exists|i: int|
            0 <= i < v.len() && (#[trigger] v[i]).owner == owner && v[i].span == span
                && v[i].name@ == name,
    decreases v.len() - k,
{
    if k < v.len() {
        if v[k].owner == owner && v[k].span == span && v[k].name@ == name {
        } else {
            lemma_local_at(v, owner, span, name, k + 1);
        }
    }
}

/// Every local of a body is found again by its place, and by its name where it has one of
/// its own.
pub proof fn law_locals_are_found_again(s: VarTablesView, f: FnView, j: int, v: Variable)
    requires
        0 <= j < f.locals.len(),
        program::var_by_id(s.variables, f.locals[j]) == Some(v),
    ensures
        ({
            let own = merge_vars::body_noted(s, f, f.locals.len() as int);
            match merge_vars::temp_kind(v.name@) {
                Some(kind) => exists|i: int|
                    0 <= i < own.temps.len() && {
                        let e = #[trigger] own.temps[i];
                        e.0.owner == f.id && e.0.span == v.span && e.0.kind == kind && e.1
                            == f.locals[j]
                    },
                None => exists|i: int|
                    0 <= i < own.locals.len() && {
                        let e = #[trigger] own.locals[i];
                        e.owner == f.id && e.span == v.span && e.name@ == v.name@
                    },
            }
        }),
{
    lemma_noted(s, f, f.locals.len() as int, j, v);
}

/// A function that lists parameters is a member where the first is `this`; one that lists
/// none where a class of C++ declares it.
pub proof fn law_members_are_told_by_this_or_their_class(vars: Seq<Variable>, f: FnView, v: Variable)
    ensures
        f.params.len() == 0 ==> finalize::is_member_fn(vars, f) == (f.traits.is_cpp
            && f.traits.declared_in_class),
        f.params.len() > 0 && program::var_by_id(vars, f.params[0]) == Some(v)
            ==> finalize::is_member_fn(vars, f) == (v.name@ == "this"@),
{
}

/// A function that no unit defines is entered where it is first called: outside of every
/// class, with nothing known of its parameters.
pub proof fn law_outside_functions_are_bare(
    id: FnId,
    name: Seq<char>,
    image: Option<TargetId>,
    at: Span,
    return_type: TypeId,
)
    ensures
        ({
            let f = externs::outside_fn(id, name, image, at, return_type);
            &&& f.id == id && f.name == name && f.return_type == return_type && f.target == image
            &&& f.span == at && f.file == at.file && f.end_line == at.line && f.tu is None
            &&& f.params.len() == 0 && f.param_type_ids.len() == 0 && f.locals.len() == 0
            &&& f.traits.linkage == Linkage::External && !f.traits.is_defined
                && !f.traits.is_weak && !f.traits.is_cpp
            &&& !f.traits.is_virtual && !f.traits.is_final && !f.traits.variadic
            &&& !f.traits.owner_unresolved && !f.traits.defaulted_in_class
                && !f.traits.declared_in_class
            &&& f.traits.explicit_arity is None && f.traits.default_args == 0
        }),
{
}

/// What is in no image comes before what is in one, and images come by their number.
pub proof fn law_images_come_by_their_number(a: TargetId, b: TargetId)
    ensures
        externs::image_before(None, Some(a)),
        !externs::image_before(Some(a), None),
        !externs::image_before(None, None),
        externs::image_before(Some(a), Some(b)) == (a.0 < b.0),
{
}

} // verus!
