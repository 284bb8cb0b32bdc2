//! The closing steps of a run, once every unit is merged: members get the
//! `this` their units could not give them, calls are bound past it, and
//! references widen to every overload a name may mean.

use crate::calls;
use crate::calls::{copy_positions, copy_vars, shift_past_this, CallSite, SiteView};
use crate::ir::{
    FileId, FlowConstraint, FnId, ReturnFlow, StorageClass, TypeId, VarId,
};
use crate::merge_flow;
use crate::naming;
use crate::naming::scope_part;
use crate::program;
use crate::program::{
    function_index, variable_index, CallRecord, FnView, Function, RecordView, Variable,
};
use crate::remap::{FlowView, ReturnView};
use crate::text;
use crate::text::{chars_of, ends, holds, part, rfind, str_eq, string_of};
use vstd::prelude::*;

verus! {

/// The class a member's name is qualified with. A conversion operator's target
/// is part of its name and no qualifier.
pub open spec fn owner_of(name: Seq<char>) -> Option<Seq<char>> {
    let scope = naming::scope_of(name);
    if scope.len() < name.len() {
        if text::ends_with(scope, "::"@) {
            Some(scope.take(scope.len() - "::"@.len()))
        } else {
            None
        }
    } else {
        let at = text::find_last(name, "::"@, name.len() as int);
        if at >= 0 {
            Some(name.take(at))
        } else {
            None
        }
    }
}

/// The class a member's name is qualified with.
pub fn member_owner(name: &str) -> (r: Option<String>)
    ensures
        match r {
            Some(cls) => owner_of(name@) == Some(cls@),
            None => owner_of(name@) is None,
        },
{
    let own = chars_of(name);
    let scope = chars_of(scope_part(name).as_str());
    let sep = chars_of("::");
    if scope.len() < own.len() {
        if ends(&scope, &sep) {
            let cls = part(&scope, 0, scope.len() - sep.len());
            assert(cls@ =~= scope@.take(scope@.len() - sep@.len()));
            Some(string_of(&cls))
        } else {
            None
        }
    } else {
        match rfind(&own, &sep) {
            Some(at) => {
                let cls = part(&own, 0, at);
                assert(cls@ =~= own@.take(at as int));
                Some(string_of(&cls))
            },
            None => None,
        }
    }
}

/// The variables with the positions of the first `k` parameters moved one on.
pub open spec fn moved_on(vars: Seq<Variable>, params: Seq<VarId>, k: int) -> Seq<Variable>
    decreases k,
{
    if k <= 0 {
        vars
    } else {
        let before = moved_on(vars, params, k - 1);
        match program::var_at(before, params[k - 1], 0) {
            Some(p) => match before[p].param_index {
                Some(i) => before.update(
                    p,
                    Variable { param_index: Some((i + 1) as u32), ..before[p] },
                ),
                None => before,
            },
            None => before,
        }
    }
}

/// A parameter's position can be moved on, however often the list names it.
pub open spec fn can_move(vars: Seq<Variable>, params: Seq<VarId>) -> bool {
    forall|i: int|
        0 <= i < vars.len() ==> ((#[trigger] vars[i]).param_index matches Some(p) ==> p
            + params.len() <= u32::MAX)
}

proof fn lemma_moved_on(vars: Seq<Variable>, params: Seq<VarId>, k: int)
    requires
        can_move(vars, params),
        0 <= k <= params.len(),
    ensures
        moved_on(vars, params, k).len() == vars.len(),
        forall|i: int|
            0 <= i < vars.len() ==> ((#[trigger] moved_on(vars, params, k)[i]).param_index matches Some(
                p,
            ) ==> p + params.len() - k <= u32::MAX),
    decreases k,
{
    if k > 0 {
        lemma_moved_on(vars, params, k - 1);
        let before = moved_on(vars, params, k - 1);
        program::lemma_var_at(before, params[k - 1], 0);
    }
}

/// `v` is the `this` of `f`, whose class a value of type `type_id` points to.
pub open spec fn is_this_of(v: Variable, id: VarId, type_id: TypeId, f: FnView) -> bool {
    v == (Variable {
        id,
        name: v.name,
        type_id,
        storage: StorageClass::Param,
        fn_id: Some(f.id),
        param_index: Some(0),
        span: f.span,
        is_pointer: true,
        is_defined: false,
        is_weak: false,
        is_namespaced: false,
        symbol: None,
        target: f.target,
    }) && v.name@ == "this"@
}

/// Give a member the `this` it has where its class was in view: a parameter of
/// its own ahead of the others, which move one on. `this_type` is the type of
/// a pointer to its class.
pub fn add_this_param(
    fns: &mut Vec<Function>,
    vars: &mut Vec<Variable>,
    at: usize,
    id: VarId,
    this_type: TypeId,
)
    requires
        at < old(fns)@.len(),
        can_move(old(vars)@, old(fns)@[at as int].params@),
        forall|i: int| 0 <= i < old(vars)@.len() ==> (#[trigger] old(vars)@[i]).id != id,
    ensures
        final(fns)@.len() == old(fns)@.len(),
        final(fns)@[at as int]@ == (FnView {
            params: seq![id] + old(fns)@[at as int].params@,
            ..old(fns)@[at as int]@
        }),
        forall|i: int|
            0 <= i < old(fns)@.len() && i != at ==> #[trigger] final(fns)@[i] == old(fns)@[i],
        final(vars)@.len() == old(vars)@.len() + 1,
        final(vars)@.drop_last() == moved_on(
            old(vars)@,
            old(fns)@[at as int].params@,
            old(fns)@[at as int].params@.len() as int,
        ),
        is_this_of(final(vars)@.last(), id, this_type, old(fns)@[at as int]@),
{
    let ghost first = vars@;
    let ghost params = fns@[at as int].params@;
    let f_id = fns[at].id;
    let span = fns[at].span;
    let target = fns[at].target;
    let mut k: usize = 0;
    while k < fns[at].params.len()
        invariant
            at < fns@.len(),
            fns@ == old(fns)@,
            params == fns@[at as int].params@,
            k <= params.len(),
            can_move(first, params),
            vars@ == moved_on(first, params, k as int),
        decreases params.len() - k,
    {
        proof {
            lemma_moved_on(first, params, k as int);
        }
        match variable_index(vars, fns[at].params[k]) {
            Some(p) => {
                assert(vars@[p as int] == moved_on(first, params, k as int)[p as int]);
                match vars[p].param_index {
                    Some(i) => {
                        let mut own = vars[p].copy();
                        own.param_index = Some(i + 1);
                        vars.set(p, own);
                    },
                    None => {},
                }
            },
            None => {},
        }
        k += 1;
    }
    proof {
        lemma_moved_on(first, params, k as int);
    }
    let ghost moved = vars@;
    vars.push(
        Variable {
            id,
            name: string_of(&chars_of("this")),
            type_id: this_type,
            storage: StorageClass::Param,
            fn_id: Some(f_id),
            param_index: Some(0),
            span,
            is_pointer: true,
            is_defined: false,
            is_weak: false,
            is_namespaced: false,
            symbol: None,
            target,
        },
    );
    assert(vars@.drop_last() =~= moved);
    fns[at].params.insert(0, id);
    assert(fns@[at as int].params@ =~= seq![id] + params);
}

/// The function's first parameter is `this`.
pub open spec fn takes_this(vars: Seq<Variable>, f: FnView) -> bool {
    f.params.len() > 0 && (program::var_by_id(vars, f.params[0]) matches Some(v) && v.name@
        == "this"@)
}

/// Whether the function's first parameter is `this`.
pub fn has_this_param(vars: &Vec<Variable>, f: &Function) -> (r: bool)
    ensures
        r == takes_this(vars@, f@),
{
    if f.params.len() == 0 {
        return false;
    }
    match variable_index(vars, f.params[0]) {
        Some(p) => str_eq(vars[p].name.as_str(), "this"),
        None => false,
    }
}

/// A member function: its first parameter is `this`, or without parameters it
/// is declared in a class.
pub open spec fn is_member_fn(vars: Seq<Variable>, f: FnView) -> bool {
    if f.params.len() == 0 {
        f.traits.is_cpp && f.traits.declared_in_class
    } else {
        takes_this(vars, f)
    }
}

pub open spec fn names_member(fns: Seq<FnView>, vars: Seq<Variable>, id: FnId) -> bool {
    program::fn_by_id(fns, id) matches Some(f) && is_member_fn(vars, f)
}

/// Whether the function with that number is a member.
pub fn is_member_function(fns: &Vec<Function>, vars: &Vec<Variable>, id: FnId) -> (r: bool)
    ensures
        r == names_member(program::fn_views(fns@), vars@, id),
{
    match function_index(fns, id) {
        Some(k) => {
            assert(program::fn_views(fns@)[k as int] == fns@[k as int]@);
            let f = &fns[k];
            if f.params.len() == 0 {
                return f.traits.is_cpp && f.traits.declared_in_class;
            }
            has_this_param(vars, f)
        },
        None => false,
    }
}

/// The call's arguments are bound past a `this` that lowering did not bind
/// them past: it passes some, and every function it may mean is a member. A
/// call that resolved to none is looked up by its name where that is
/// qualified, which a member's always is.
pub open spec fn binds_past_this(
    fns: Seq<FnView>,
    vars: Seq<Variable>,
    s: SiteView,
    callees: Seq<FnId>,
) -> bool {
    !s.args_bound_past_this && (s.args.var_args.len() > 0 || s.args.fn_args.len() > 0) && match s.callee_fn_id {
        Some(f) => names_member(fns, vars, f),
        None => text::contains(s.callee_name, "::"@) && callees.len() > 0 && forall|k: int|
            0 <= k < callees.len() ==> names_member(fns, vars, #[trigger] callees[k]),
    }
}

fn all_members(fns: &Vec<Function>, vars: &Vec<Variable>, callees: &Vec<FnId>) -> (r: bool)
    ensures
        r == forall|k: int|
            0 <= k < callees@.len() ==> names_member(
                program::fn_views(fns@),
                vars@,
                #[trigger] callees@[k],
            ),
{
    let mut k: usize = 0;
    while k < callees.len()
        invariant
            k <= callees@.len(),
            forall|j: int|
                0 <= j < k ==> names_member(
                    program::fn_views(fns@),
                    vars@,
                    #[trigger] callees@[j],
                ),
        decreases callees@.len() - k,
    {
        if !is_member_function(fns, vars, callees[k]) {
            assert(!names_member(program::fn_views(fns@), vars@, callees@[k as int]));
            return false;
        }
        k += 1;
    }
    true
}

fn should_bind(
    fns: &Vec<Function>,
    vars: &Vec<Variable>,
    s: &CallSite,
    callees: &Vec<FnId>,
) -> (r: bool)
    ensures
        r == binds_past_this(program::fn_views(fns@), vars@, s@, callees@),
{
    if s.args_bound_past_this || (s.var_args.len() == 0 && s.fn_args.len() == 0) {
        return false;
    }
    match s.callee_fn_id {
        Some(f) => is_member_function(fns, vars, f),
        None => holds(&chars_of(s.callee_name.as_str()), &chars_of("::")) && callees.len() > 0
            && all_members(fns, vars, callees),
    }
}

/// A call once its arguments are bound past `this`, where they have to be.
pub open spec fn bound_site(
    fns: Seq<FnView>,
    vars: Seq<Variable>,
    s: SiteView,
    callees: Seq<FnId>,
) -> SiteView {
    if binds_past_this(fns, vars, s, callees) {
        SiteView { args: calls::past_this(s.args), args_bound_past_this: true, ..s }
    } else {
        s
    }
}

/// Bind the arguments of one call past `this` where its unit could not tell
/// that its callee is a member. `callees` are the functions its name may mean.
pub fn bind_past_this(
    fns: &Vec<Function>,
    vars: &Vec<Variable>,
    s: &mut CallSite,
    callees: &Vec<FnId>,
)
    requires
        calls::args_shiftable(old(s)@.args),
    ensures
        final(s)@ == bound_site(program::fn_views(fns@), vars@, old(s)@, callees@),
{
    if should_bind(fns, vars, s, callees) {
        let ghost args = s@.args;
        assert(args.var_args == s.var_args@);
        assert(args.fn_args == s.fn_args@);
        assert(args.addr_of_member_args == s.addr_of_member_args@);
        shift_past_this(&mut s.var_args, &mut s.fn_args, &mut s.addr_of_member_args);
        s.args_bound_past_this = true;
    }
}

/// A call is bound past `this` once: binding again changes nothing.
pub proof fn law_binding_past_this_happens_once(
    fns: Seq<FnView>,
    vars: Seq<Variable>,
    s: SiteView,
    callees: Seq<FnId>,
)
    ensures
        bound_site(fns, vars, bound_site(fns, vars, s, callees), callees) == bound_site(
            fns,
            vars,
            s,
            callees,
        ),
{
}

/// The overloads of a function that a file sees besides it, where the function
/// is one of several of its name that no other unit sees.
#[derive(Debug, PartialEq, Eq)]
pub struct Overloads {
    pub callee: FnId,
    pub file: FileId,
    pub others: Vec<FnId>,
}

/// The overloads of `callee` seen from `file`, by the first entry from `k`.
pub open spec fn overloads_of(v: Seq<Overloads>, callee: FnId, file: FileId, k: int) -> Seq<FnId>
    decreases v.len() - k,
{
    if k < 0 || k >= v.len() {
        seq![]
    } else if v[k].callee == callee && v[k].file == file {
        v[k].others@
    } else {
        overloads_of(v, callee, file, k + 1)
    }
}

fn find_overloads(v: &Vec<Overloads>, callee: FnId, file: FileId) -> (r: Vec<FnId>)
    ensures
        r@ == overloads_of(v@, callee, file, 0),
{
    let mut k: usize = 0;
    while k < v.len()
        invariant
            k <= v@.len(),
            overloads_of(v@, callee, file, 0) == overloads_of(v@, callee, file, k as int),
        decreases v@.len() - k,
    {
        if v[k].callee == callee && v[k].file == file {
            return copy_fns(&v[k].others);
        }
        k += 1;
    }
    Vec::new()
}

fn copy_fns(v: &Vec<FnId>) -> (r: Vec<FnId>)
    ensures
        r@ == v@,
{
    let mut out: Vec<FnId> = Vec::new();
    let mut k: usize = 0;
    while k < v.len()
        invariant
            k <= v@.len(),
            out@ == v@.take(k as int),
        decreases v@.len() - k,
    {
        out.push(v[k]);
        k += 1;
        assert(out@ =~= v@.take(k as int));
    }
    assert(v@.take(k as int) =~= v@);
    out
}

/// What a reference to a function by name widens to: one to each overload its
/// variable's file sees.
pub open spec fn widened(v: Seq<Overloads>, vars: Seq<Variable>, f: FlowView) -> Seq<FlowView> {
    match f {
        FlowView::AddrOfFn { dst, callee } => match program::var_by_id(vars, dst) {
            Some(own) => overloads_of(v, callee, own.span.file, 0).map_values(
                |g: FnId| FlowView::AddrOfFn { dst, callee: g },
            ),
            None => seq![],
        },
        FlowView::ArrayFnMember { array, callee } => match program::var_by_id(vars, array) {
            Some(own) => overloads_of(v, callee, own.span.file, 0).map_values(
                |g: FnId| FlowView::ArrayFnMember { array, callee: g },
            ),
            None => seq![],
        },
        _ => seq![],
    }
}

/// What the first `k` constraints widen to.
pub open spec fn all_widened(
    v: Seq<Overloads>,
    vars: Seq<Variable>,
    flow: Seq<FlowView>,
    k: int,
) -> Seq<FlowView>
    decreases k,
{
    if k <= 0 {
        seq![]
    } else {
        all_widened(v, vars, flow, k - 1) + widened(v, vars, flow[k - 1])
    }
}

fn var_file(vars: &Vec<Variable>, id: VarId) -> (r: Option<FileId>)
    ensures
        r == match program::var_by_id(vars@, id) {
            Some(v) => Some(v.span.file),
            None => None,
        },
{
    match variable_index(vars, id) {
        Some(k) => Some(vars[k].span.file),
        None => None,
    }
}

fn add_widened(
    out: &mut Vec<FlowConstraint>,
    v: &Vec<Overloads>,
    vars: &Vec<Variable>,
    var: VarId,
    callee: FnId,
    is_array: bool,
)
    ensures
        merge_flow::flow_views(final(out)@) == merge_flow::flow_views(old(out)@) + widened(
            v@,
            vars@,
            if is_array {
                FlowView::ArrayFnMember { array: var, callee }
            } else {
                FlowView::AddrOfFn { dst: var, callee }
            },
        ),
{
    let ghost own = if is_array {
        FlowView::ArrayFnMember { array: var, callee }
    } else {
        FlowView::AddrOfFn { dst: var, callee }
    };
    let ghost first = merge_flow::flow_views(out@);
    let ghost more = widened(v@, vars@, own);
    let file = match var_file(vars, var) {
        Some(f) => f,
        None => {
            assert(first + seq![] =~= first);
            return;
        },
    };
    let others = find_overloads(v, callee, file);
    let mut k: usize = 0;
    assert(more.len() == others@.len());
    assert(first + more.take(0) =~= first);
    while k < others.len()
        invariant
            k <= others@.len(),
            more.len() == others@.len(),
            forall|j: int|
                0 <= j < others@.len() ==> #[trigger] more[j] == if is_array {
                    FlowView::ArrayFnMember { array: var, callee: others@[j] }
                } else {
                    FlowView::AddrOfFn { dst: var, callee: others@[j] }
                },
            merge_flow::flow_views(out@) == first + more.take(k as int),
        decreases others@.len() - k,
    {
        let f = if is_array {
            FlowConstraint::ArrayFnMember { array: var, callee: others[k] }
        } else {
            FlowConstraint::AddrOfFn { dst: var, callee: others[k] }
        };
        let ghost before = out@;
        assert(more[k as int] == f@);
        out.push(f);
        proof {
            assert(merge_flow::flow_views(out@) =~= merge_flow::flow_views(before).push(f@));
            assert(first + more.take(k + 1) =~= (first + more.take(k as int)).push(more[k as int]));
        }
        k += 1;
    }
    assert(more.take(k as int) =~= more);
}

/// Widen each reference to a function by name to every overload the name may
/// mean: a function pointer's type does not say which of them it takes.
pub fn widen_overload_refs(v: &Vec<Overloads>, vars: &Vec<Variable>, flow: &mut Vec<FlowConstraint>)
    ensures
        merge_flow::flow_views(final(flow)@) == merge_flow::flow_views(old(flow)@) + all_widened(
            v@,
            vars@,
            merge_flow::flow_views(old(flow)@),
            old(flow)@.len() as int,
        ),
{
    let ghost first = merge_flow::flow_views(flow@);
    let n = flow.len();
    let mut k: usize = 0;
    assert(first + seq![] =~= first);
    while k < n
        invariant
            k <= n,
            n == first.len(),
            n <= flow@.len(),
            merge_flow::flow_views(flow@) == first + all_widened(v@, vars@, first, k as int),
        decreases n - k,
    {
        let ghost so_far = all_widened(v@, vars@, first, k as int);
        let ghost now = merge_flow::flow_views(flow@);
        assert(now[k as int] == flow@[k as int]@);
        assert(now[k as int] == first[k as int]);
        let found = match &flow[k] {
            FlowConstraint::AddrOfFn { dst, callee } => Some((*dst, *callee, false)),
            FlowConstraint::ArrayFnMember { array, callee } => Some((*array, *callee, true)),
            _ => None,
        };
        match found {
            Some((var, callee, is_array)) => {
                add_widened(flow, v, vars, var, callee, is_array);
                assert(merge_flow::flow_views(flow@).len() == flow@.len());
            },
            None => {
                assert(now + seq![] =~= now);
            },
        }
        proof {
            let own = widened(v@, vars@, first[k as int]);
            assert((first + so_far) + own =~= first + (so_far + own));
        }
        k += 1;
    }
}

/// What a function's first `k` returned values widen to, seen from its file.
pub open spec fn returns_widened(
    v: Seq<Overloads>,
    file: Option<FileId>,
    flows: Seq<ReturnView>,
    k: int,
) -> Seq<ReturnView>
    decreases k,
{
    if k <= 0 {
        seq![]
    } else {
        let before = returns_widened(v, file, flows, k - 1);
        match (flows[k - 1], file) {
            (ReturnView::AddrOfFn { callee }, Some(f)) => before + overloads_of(v, callee, f, 0).map_values(
                |g: FnId| ReturnView::AddrOfFn { callee: g },
            ),
            _ => before,
        }
    }
}

/// A function's entry with what its returned values widen to.
pub open spec fn entry_widened(
    v: Seq<Overloads>,
    fns: Seq<FnView>,
    e: (FnId, Seq<ReturnView>),
) -> (FnId, Seq<ReturnView>) {
    let file = match program::fn_by_id(fns, e.0) {
        Some(f) => Some(f.span.file),
        None => None,
    };
    (e.0, e.1 + returns_widened(v, file, e.1, e.1.len() as int))
}

fn widen_returns(v: &Vec<Overloads>, file: Option<FileId>, flows: &mut Vec<ReturnFlow>)
    ensures
        merge_flow::return_views(final(flows)@) == merge_flow::return_views(old(flows)@)
            + returns_widened(
            v@,
            file,
            merge_flow::return_views(old(flows)@),
            old(flows)@.len() as int,
        ),
{
    let ghost first = merge_flow::return_views(flows@);
    let n = flows.len();
    let mut k: usize = 0;
    assert(first + seq![] =~= first);
    while k < n
        invariant
            k <= n,
            n == first.len(),
            n <= flows@.len(),
            merge_flow::return_views(flows@) == first + returns_widened(v@, file, first, k as int),
        decreases n - k,
    {
        let ghost so_far = returns_widened(v@, file, first, k as int);
        let ghost now = merge_flow::return_views(flows@);
        assert(now[k as int] == flows@[k as int]@);
        assert(now[k as int] == first[k as int]);
        let found = match (&flows[k], file) {
            (ReturnFlow::AddrOfFn { callee }, Some(f)) => Some((*callee, f)),
            _ => None,
        };
        match found {
            Some((callee, f)) => {
                let others = find_overloads(v, callee, f);
                let ghost more = others@.map_values(|g: FnId| ReturnView::AddrOfFn { callee: g });
                let mut j: usize = 0;
                assert(now + more.take(0) =~= now);
                while j < others.len()
                    invariant
                        j <= others@.len(),
                        n <= flows@.len(),
                        more == others@.map_values(|g: FnId| ReturnView::AddrOfFn { callee: g }),
                        merge_flow::return_views(flows@) == now + more.take(j as int),
                    decreases others@.len() - j,
                {
                    let own = ReturnFlow::AddrOfFn { callee: others[j] };
                    let ghost before = flows@;
                    assert(more[j as int] == own@);
                    flows.push(own);
                    proof {
                        assert(merge_flow::return_views(flows@) =~= merge_flow::return_views(
                            before,
                        ).push(own@));
                        assert(now + more.take(j + 1) =~= (now + more.take(j as int)).push(
                            more[j as int],
                        ));
                    }
                    j += 1;
                }
                assert(more.take(j as int) =~= more);
                assert((first + so_far) + more =~= first + (so_far + more));
            },
            None => {},
        }
        k += 1;
    }
}

/// Widen each function returned by name to every overload the name may mean.
pub fn widen_return_refs(
    v: &Vec<Overloads>,
    fns: &Vec<Function>,
    entries: &mut Vec<(FnId, Vec<ReturnFlow>)>,
)
    ensures
        merge_flow::entry_views(final(entries)@) == merge_flow::entry_views(
            old(entries)@,
        ).map_values(
            |e: (FnId, Seq<ReturnView>)| entry_widened(v@, program::fn_views(fns@), e),
        ),
{
    let ghost all = program::fn_views(fns@);
    let ghost first = merge_flow::entry_views(entries@);
    let ghost goal = first.map_values(|e: (FnId, Seq<ReturnView>)| entry_widened(v@, all, e));
    let mut k: usize = 0;
    while k < entries.len()
        invariant
            k <= entries@.len(),
            all == program::fn_views(fns@),
            entries@.len() == first.len(),
            goal == first.map_values(|e: (FnId, Seq<ReturnView>)| entry_widened(v@, all, e)),
            forall|j: int|
                0 <= j < k ==> #[trigger] merge_flow::entry_views(entries@)[j] == goal[j],
            forall|j: int|
                k <= j < first.len() ==> #[trigger] merge_flow::entry_views(entries@)[j]
                    == first[j],
        decreases first.len() - k,
    {
        let file = match function_index(fns, entries[k].0) {
            Some(p) => {
                assert(all[p as int] == fns@[p as int]@);
                Some(fns[p].span.file)
            },
            None => None,
        };
        let ghost before = entries@;
        assert(merge_flow::entry_views(before)[k as int] == first[k as int]);
        widen_returns(v, file, &mut entries[k].1);
        assert forall|j: int| 0 <= j < k + 1 implies #[trigger] merge_flow::entry_views(
            entries@,
        )[j] == goal[j] by {
            if j < k {
                assert(merge_flow::entry_views(before)[j] == goal[j]);
            }
        }
        assert forall|j: int| k + 1 <= j < first.len() implies #[trigger] merge_flow::entry_views(
            entries@,
        )[j] == first[j] by {
            assert(merge_flow::entry_views(before)[j] == first[j]);
        }
        k += 1;
    }
    assert(merge_flow::entry_views(entries@) =~= goal);
}

/// A call as it was expanded: who calls, where, and what is reached.
#[derive(Debug, Clone, Copy, PartialEq, Eq, Structural)]
pub struct Reached {
    pub caller: FnId,
    pub line: u32,
    pub col: u32,
    pub callee: FnId,
}

/// What a call reaches, where it resolved.
pub open spec fn reached_by(r: RecordView, callee: FnId) -> Reached {
    Reached {
        caller: r.site.caller,
        line: r.site.span.line,
        col: r.site.span.col,
        callee,
    }
}

/// The record of a call that reaches an override: as the call, but for its
/// number and its callee.
pub open spec fn override_record(r: RecordView, id: u32, callee: FnId, name: Seq<char>) -> RecordView {
    RecordView {
        site: SiteView {
            id,
            callee_name: name,
            callee_var: None,
            callee_fn_id: Some(callee),
            is_direct: true,
            ..r.site
        },
        ..r
    }
}

/// The functions a call is found to reach besides its callee, with their names.
#[derive(Debug, PartialEq, Eq)]
pub struct Overrides {
    pub members: Vec<(FnId, String)>,
}

/// The call records while calls are expanded: what is recorded, the number the
/// next record gets, and what is reached from where.
pub struct Expanded {
    pub records: Seq<RecordView>,
    pub next: u32,
    pub seen: Seq<Reached>,
}

pub open spec fn expand_one(e: Expanded, r: RecordView, t: (FnId, String)) -> Expanded {
    let key = reached_by(r, t.0);
    if e.seen.contains(key) {
        e
    } else {
        Expanded {
            records: e.records.push(override_record(r, e.next, t.0, t.1@)),
            next: (e.next + 1) as u32,
            seen: e.seen.push(key),
        }
    }
}

/// The records once the first `j` overrides of a call are recorded.
pub open spec fn expand_call(e: Expanded, r: RecordView, ts: Seq<(FnId, String)>, j: int) -> Expanded
    decreases j,
{
    if j <= 0 {
        e
    } else {
        expand_one(expand_call(e, r, ts, j - 1), r, ts[j - 1])
    }
}

/// The records once the first `k` calls are expanded.
pub open spec fn expand_all(
    e: Expanded,
    calls: Seq<RecordView>,
    overrides: Seq<Overrides>,
    k: int,
) -> Expanded
    decreases k,
{
    if k <= 0 {
        e
    } else {
        let ts = overrides[k - 1].members@;
        expand_call(
            expand_all(e, calls, overrides, k - 1),
            calls[k - 1],
            ts,
            ts.len() as int,
        )
    }
}

/// What the first `k` calls reach as they were resolved.
pub open spec fn resolved(calls: Seq<RecordView>, k: int) -> Seq<Reached>
    decreases k,
{
    if k <= 0 {
        seq![]
    } else {
        let before = resolved(calls, k - 1);
        match calls[k - 1].site.callee_fn_id {
            Some(f) => before.push(reached_by(calls[k - 1], f)),
            None => before,
        }
    }
}

/// How many overrides the first `k` calls have.
pub open spec fn override_count(overrides: Seq<Overrides>, k: int) -> nat
    decreases k,
{
    if k <= 0 {
        0
    } else {
        override_count(overrides, k - 1) + overrides[k - 1].members@.len()
    }
}

proof fn lemma_override_count(overrides: Seq<Overrides>, k: int, n: int)
    requires
        0 <= k <= n,
    ensures
        override_count(overrides, k) <= override_count(overrides, n),
    decreases n,
{
    if k < n {
        lemma_override_count(overrides, k, n - 1);
    }
}

fn holds_reached(v: &Vec<Reached>, x: Reached) -> (r: bool)
    ensures
        r == v@.contains(x),
{
    let mut k: usize = 0;
    while k < v.len()
        invariant
            k <= v@.len(),
            forall|j: int| 0 <= j < k ==> #[trigger] v@[j] != x,
        decreases v@.len() - k,
    {
        if v[k] == x {
            assert(v@[k as int] == x);
            return true;
        }
        k += 1;
    }
    false
}

fn record_of_override(r: &CallRecord, id: u32, callee: FnId, name: &String) -> (own: CallRecord)
    ensures
        own@ == override_record(r@, id, callee, name@),
{
    CallRecord {
        site: CallSite {
            id,
            caller: r.site.caller,
            callee_name: name.clone(),
            callee_var: None,
            callee_fn_id: Some(callee),
            var_args: copy_vars(&r.site.var_args),
            fn_args: calls::copy_fns(&r.site.fn_args),
            addr_of_member_args: copy_positions(&r.site.addr_of_member_args),
            args_bound_past_this: r.site.args_bound_past_this,
            span: r.site.span,
            is_direct: true,
            receiver_class: match &r.site.receiver_class {
                Some(c) => Some(c.clone()),
                None => None,
            },
            return_dst: r.site.return_dst,
            tu: r.site.tu,
        },
        addr_of_args: copy_positions(&r.addr_of_args),
        expansion_span: r.expansion_span,
        scope_file: r.scope_file,
        occurrence: r.occurrence,
    }
}

/// Record every member that the calls are found to reach once all units are
/// merged: lowering saw only the classes of its own unit. `overrides` lists
/// those of each call; what a call reaches already is not recorded again.
pub fn expand_virtual_overrides(
    records: &mut Vec<CallRecord>,
    next_call: &mut u32,
    overrides: &Vec<Overrides>,
)
    requires
        overrides@.len() == old(records)@.len(),
        *old(next_call) + override_count(overrides@, overrides@.len() as int) <= u32::MAX,
    ensures
        ({
            let calls = program::record_views(old(records)@);
            let e = expand_all(
                Expanded {
                    records: calls,
                    next: *old(next_call),
                    seen: resolved(calls, calls.len() as int),
                },
                calls,
                overrides@,
                calls.len() as int,
            );
            program::record_views(final(records)@) == e.records && *final(next_call) == e.next
        }),
{
    let ghost calls = program::record_views(records@);
    let n = records.len();
    let ghost total = override_count(overrides@, n as int);
    let ghost from = *next_call;
    let mut seen: Vec<Reached> = Vec::new();
    let mut i: usize = 0;
    while i < n
        invariant
            i <= n,
            n == records@.len(),
            calls == program::record_views(records@),
            seen@ == resolved(calls, i as int),
        decreases n - i,
    {
        assert(calls[i as int] == records@[i as int]@);
        match records[i].site.callee_fn_id {
            Some(f) => seen.push(
                Reached {
                    caller: records[i].site.caller,
                    line: records[i].site.span.line,
                    col: records[i].site.span.col,
                    callee: f,
                },
            ),
            None => {},
        }
        i += 1;
    }
    let ghost start = Expanded { records: calls, next: *next_call, seen: seen@ };
    let mut k: usize = 0;
    while k < n
        invariant
            k <= n,
            n == calls.len(),
            n == overrides@.len(),
            n <= records@.len(),
            total == override_count(overrides@, n as int),
            from + total <= u32::MAX,
            *next_call <= from + override_count(overrides@, k as int),
            forall|j: int| 0 <= j < n ==> (#[trigger] records@[j])@ == calls[j],
            expand_all(start, calls, overrides@, k as int) == (Expanded {
                records: program::record_views(records@),
                next: *next_call,
                seen: seen@,
            }),
        decreases n - k,
    {
        let ghost e = expand_all(start, calls, overrides@, k as int);
        let ghost ts = overrides@[k as int].members@;
        proof {
            lemma_override_count(overrides@, k + 1, n as int);
        }
        let mut j: usize = 0;
        while j < overrides[k].members.len()
            invariant
                k < n,
                n == calls.len(),
                n == overrides@.len(),
                n <= records@.len(),
                ts == overrides@[k as int].members@,
                j <= ts.len(),
                from + override_count(overrides@, k as int) + ts.len() <= u32::MAX,
                *next_call <= from + override_count(overrides@, k as int) + j,
                forall|i: int| 0 <= i < n ==> (#[trigger] records@[i])@ == calls[i],
                expand_call(e, calls[k as int], ts, j as int) == (Expanded {
                    records: program::record_views(records@),
                    next: *next_call,
                    seen: seen@,
                }),
            decreases ts.len() - j,
        {
            let t = &overrides[k].members[j];
            assert(*t == ts[j as int]);
            assert(records@[k as int]@ == calls[k as int]);
            let key = Reached {
                caller: records[k].site.caller,
                line: records[k].site.span.line,
                col: records[k].site.span.col,
                callee: t.0,
            };
            if !holds_reached(&seen, key) {
                let own = record_of_override(&records[k], *next_call, t.0, &t.1);
                let ghost before = records@;
                seen.push(key);
                records.push(own);
                *next_call = *next_call + 1;
                proof {
                    assert(program::record_views(records@) =~= program::record_views(before).push(
                        own@,
                    ));
                    assert forall|i: int| 0 <= i < n implies (#[trigger] records@[i])@ == calls[i] by {
                        assert(before[i]@ == calls[i]);
                    }
                }
            }
            j += 1;
        }
        k += 1;
    }
}

/// Record `i` of an expansion stands for a member that a call is found to
/// reach: it is the record of call `k` but for its number and its callee, which
/// is member `j` of the call's overrides.
pub open spec fn expands(
    r: RecordView,
    calls: Seq<RecordView>,
    overrides: Seq<Overrides>,
    k: int,
    j: int,
) -> bool {
    &&& 0 <= k < calls.len()
    &&& 0 <= j < overrides[k].members@.len()
    &&& r == override_record(
        calls[k],
        r.site.id,
        overrides[k].members@[j].0,
        overrides[k].members@[j].1@,
    )
}

pub open spec fn is_override(
    r: RecordView,
    calls: Seq<RecordView>,
    overrides: Seq<Overrides>,
) -> bool {
    exists|k: int, j: int| #[trigger] expands(r, calls, overrides, k, j)
}

/// What a record reaches.
pub open spec fn key_of(r: RecordView) -> Reached {
    reached_by(r, r.site.callee_fn_id->0)
}

/// The expansion `e` of the calls from `s`: the records of `s` stand first, each
/// further one stands for a member of some call's overrides, and no two of these
/// reach one function from one place, nor one that was reached already.
pub open spec fn is_expansion(
    s: Expanded,
    e: Expanded,
    calls: Seq<RecordView>,
    overrides: Seq<Overrides>,
) -> bool {
    let n = s.records.len();
    &&& s.records.is_prefix_of(e.records)
    &&& s.seen.is_prefix_of(e.seen)
    &&& e.records.len() - n == e.seen.len() - s.seen.len()
    &&& forall|i: int|
        n <= i < e.records.len() ==> is_override(#[trigger] e.records[i], calls, overrides)
    &&& forall|i: int|
        n <= i < e.records.len() ==> key_of(#[trigger] e.records[i]) == e.seen[s.seen.len() + i - n]
    &&& forall|i: int|
        n <= i < e.records.len() ==> !s.seen.contains(key_of(#[trigger] e.records[i]))
    &&& forall|a: int, b: int|
        n <= a < b < e.records.len() ==> key_of(#[trigger] e.records[a]) != key_of(
            #[trigger] e.records[b],
        )
}

/// Expanding calls keeps the records there are, and adds one for each member
/// that a call is found to reach and that nothing reached from there before.
pub proof fn law_expansion_adds_only_what_is_new(
    s: Expanded,
    calls: Seq<RecordView>,
    overrides: Seq<Overrides>,
    k: int,
)
    requires
        0 <= k <= calls.len(),
    ensures
        is_expansion(s, expand_all(s, calls, overrides, k), calls, overrides),
    decreases k,
{
    if k > 0 {
        law_expansion_adds_only_what_is_new(s, calls, overrides, k - 1);
        lemma_call_expansion(
            s,
            expand_all(s, calls, overrides, k - 1),
            calls,
            overrides,
            k - 1,
            overrides[k - 1].members@.len() as int,
        );
    }
}

proof fn lemma_call_expansion(
    s: Expanded,
    e: Expanded,
    calls: Seq<RecordView>,
    overrides: Seq<Overrides>,
    k: int,
    j: int,
)
    requires
        0 <= k < calls.len(),
        0 <= j <= overrides[k].members@.len(),
        is_expansion(s, e, calls, overrides),
    ensures
        is_expansion(s, expand_call(e, calls[k], overrides[k].members@, j), calls, overrides),
    decreases j,
{
    if j > 0 {
        lemma_call_expansion(s, e, calls, overrides, k, j - 1);
        let ts = overrides[k].members@;
        let before = expand_call(e, calls[k], ts, j - 1);
        let after = expand_call(e, calls[k], ts, j);
        let key = reached_by(calls[k], ts[j - 1].0);
        if !before.seen.contains(key) {
            let n = s.records.len();
            let last = before.records.len() as int;
            assert(after.records[last] == override_record(
                calls[k],
                before.next,
                ts[j - 1].0,
                ts[j - 1].1@,
            ));
            assert(expands(after.records[last], calls, overrides, k, j - 1));
            assert(key_of(after.records[last]) == key);
            assert forall|i: int| n <= i < after.records.len() implies is_override(
                #[trigger] after.records[i],
                calls,
                overrides,
            ) by {
                if i < last {
                    assert(after.records[i] == before.records[i]);
                }
            }
            assert forall|i: int| n <= i < after.records.len() implies key_of(
                #[trigger] after.records[i],
            ) == after.seen[s.seen.len() + i - n] && !s.seen.contains(key_of(after.records[i])) by {
                if i < last {
                    assert(after.records[i] == before.records[i]);
                } else if s.seen.contains(key) {
                    let at = choose|at: int| 0 <= at < s.seen.len() && s.seen[at] == key;
                    assert(before.seen[at] == key);
                }
            }
            assert forall|a: int, b: int| n <= a < b < after.records.len() implies key_of(
                #[trigger] after.records[a],
            ) != key_of(#[trigger] after.records[b]) by {
                assert(after.records[a] == before.records[a]);
                if b < last {
                    assert(after.records[b] == before.records[b]);
                } else {
                    assert(before.seen.contains(before.seen[s.seen.len() + a - n]));
                }
            }
        }
    }
}

} // verus!
