//! Renumbering: what the constraints of a unit say once its functions and
//! variables have their numbers in the program.

use crate::idmap;
use crate::idmap::IdMap;
use crate::ir::{FieldId, FlowConstraint, FnId, ReturnFlow, TypeId, VarId};
use crate::text::str_eq;
use vstd::prelude::*;

verus! {

/// A constraint, with its texts as sequences.
pub enum FlowView {
    Copy { dst: VarId, src: VarId },
    AddrOfVar { dst: VarId, src: VarId },
    AddrOfFn { dst: VarId, callee: FnId },
    Load { dst: VarId, src: VarId },
    Store { dst: VarId, src: VarId },
    UnwrapPointer { dst: VarId, src: VarId },
    GepField { dst: VarId, base: VarId, field: FieldId, field_name: Seq<char> },
    ArrayFnMember { array: VarId, callee: FnId },
    CallReturn { dst: VarId, callee_name: Seq<char>, caller: Option<FnId> },
    CallReturnIndirect { dst: VarId, callee_var: VarId },
    NewHeap { dst: VarId },
    StringConst { dst: VarId, value: Seq<char> },
}

/// What a function may return, with its texts as sequences.
pub enum ReturnView {
    AddrOfVar { src: VarId },
    AddrOfFn { callee: FnId },
    Copy { src: VarId },
    Call { callee_name: Seq<char> },
}

impl FlowConstraint {
    pub open spec fn view(&self) -> FlowView {
        match *self {
            FlowConstraint::Copy { dst, src } => FlowView::Copy { dst, src },
            FlowConstraint::AddrOfVar { dst, src } => FlowView::AddrOfVar { dst, src },
            FlowConstraint::AddrOfFn { dst, callee } => FlowView::AddrOfFn { dst, callee },
            FlowConstraint::Load { dst, src } => FlowView::Load { dst, src },
            FlowConstraint::Store { dst, src } => FlowView::Store { dst, src },
            FlowConstraint::UnwrapPointer { dst, src } => FlowView::UnwrapPointer { dst, src },
            FlowConstraint::GepField { dst, base, field, field_name } => FlowView::GepField {
                dst,
                base,
                field,
                field_name: field_name@,
            },
            FlowConstraint::ArrayFnMember { array, callee } => FlowView::ArrayFnMember {
                array,
                callee,
            },
            FlowConstraint::CallReturn { dst, callee_name, caller } => FlowView::CallReturn {
                dst,
                callee_name: callee_name@,
                caller,
            },
            FlowConstraint::CallReturnIndirect { dst, callee_var } => FlowView::CallReturnIndirect {
                dst,
                callee_var,
            },
            FlowConstraint::NewHeap { dst } => FlowView::NewHeap { dst },
            FlowConstraint::StringConst { dst, value } => FlowView::StringConst {
                dst,
                value: value@,
            },
        }
    }
}

impl ReturnFlow {
    pub open spec fn view(&self) -> ReturnView {
        match *self {
            ReturnFlow::AddrOfVar { src } => ReturnView::AddrOfVar { src },
            ReturnFlow::AddrOfFn { callee } => ReturnView::AddrOfFn { callee },
            ReturnFlow::Copy { src } => ReturnView::Copy { src },
            ReturnFlow::Call { callee_name } => ReturnView::Call { callee_name: callee_name@ },
        }
    }
}

/// The variables a constraint speaks of.
pub open spec fn vars_of(f: FlowView) -> Seq<VarId> {
    match f {
        FlowView::Copy { dst, src } => seq![dst, src],
        FlowView::AddrOfVar { dst, src } => seq![dst, src],
        FlowView::AddrOfFn { dst, .. } => seq![dst],
        FlowView::Load { dst, src } => seq![dst, src],
        FlowView::Store { dst, src } => seq![dst, src],
        FlowView::UnwrapPointer { dst, src } => seq![dst, src],
        FlowView::GepField { dst, base, .. } => seq![dst, base],
        FlowView::ArrayFnMember { array, .. } => seq![array],
        FlowView::CallReturn { dst, .. } => seq![dst],
        FlowView::CallReturnIndirect { dst, callee_var } => seq![dst, callee_var],
        FlowView::NewHeap { dst } => seq![dst],
        FlowView::StringConst { dst, .. } => seq![dst],
    }
}

/// The function a constraint stands or falls with: the one it takes the
/// address of, or for a call the function it is written in.
pub open spec fn fn_of(f: FlowView) -> Option<FnId> {
    match f {
        FlowView::AddrOfFn { callee, .. } => Some(callee),
        FlowView::ArrayFnMember { callee, .. } => Some(callee),
        FlowView::CallReturn { caller, .. } => caller,
        _ => None,
    }
}

pub open spec fn returned_var(f: ReturnView) -> Option<VarId> {
    match f {
        ReturnView::AddrOfVar { src } => Some(src),
        ReturnView::Copy { src } => Some(src),
        _ => None,
    }
}

pub open spec fn returned_fn(f: ReturnView) -> Option<FnId> {
    match f {
        ReturnView::AddrOfFn { callee } => Some(callee),
        _ => None,
    }
}

pub open spec fn var_in(vars: Map<u32, u32>, v: VarId) -> VarId {
    VarId(idmap::renamed(vars, v.0))
}

pub open spec fn fn_in(fns: Map<u32, u32>, f: FnId) -> FnId {
    FnId(idmap::renamed(fns, f.0))
}

/// A constraint over the program's numbers.
pub open spec fn flow_in(f: FlowView, fns: Map<u32, u32>, vars: Map<u32, u32>) -> FlowView {
    match f {
        FlowView::Copy { dst, src } => FlowView::Copy {
            dst: var_in(vars, dst),
            src: var_in(vars, src),
        },
        FlowView::AddrOfVar { dst, src } => FlowView::AddrOfVar {
            dst: var_in(vars, dst),
            src: var_in(vars, src),
        },
        FlowView::AddrOfFn { dst, callee } => FlowView::AddrOfFn {
            dst: var_in(vars, dst),
            callee: fn_in(fns, callee),
        },
        FlowView::Load { dst, src } => FlowView::Load {
            dst: var_in(vars, dst),
            src: var_in(vars, src),
        },
        FlowView::Store { dst, src } => FlowView::Store {
            dst: var_in(vars, dst),
            src: var_in(vars, src),
        },
        FlowView::UnwrapPointer { dst, src } => FlowView::UnwrapPointer {
            dst: var_in(vars, dst),
            src: var_in(vars, src),
        },
        FlowView::GepField { dst, base, field, field_name } => FlowView::GepField {
            dst: var_in(vars, dst),
            base: var_in(vars, base),
            field,
            field_name,
        },
        FlowView::ArrayFnMember { array, callee } => FlowView::ArrayFnMember {
            array: var_in(vars, array),
            callee: fn_in(fns, callee),
        },
        FlowView::CallReturn { dst, callee_name, caller } => FlowView::CallReturn {
            dst: var_in(vars, dst),
            callee_name,
            caller: match caller {
                Some(f) => Some(fn_in(fns, f)),
                None => None,
            },
        },
        FlowView::CallReturnIndirect { dst, callee_var } => FlowView::CallReturnIndirect {
            dst: var_in(vars, dst),
            callee_var: var_in(vars, callee_var),
        },
        FlowView::NewHeap { dst } => FlowView::NewHeap { dst: var_in(vars, dst) },
        FlowView::StringConst { dst, value } => FlowView::StringConst {
            dst: var_in(vars, dst),
            value,
        },
    }
}

pub open spec fn return_in(f: ReturnView, fns: Map<u32, u32>, vars: Map<u32, u32>) -> ReturnView {
    match f {
        ReturnView::AddrOfVar { src } => ReturnView::AddrOfVar { src: var_in(vars, src) },
        ReturnView::AddrOfFn { callee } => ReturnView::AddrOfFn { callee: fn_in(fns, callee) },
        ReturnView::Copy { src } => ReturnView::Copy { src: var_in(vars, src) },
        ReturnView::Call { callee_name } => ReturnView::Call { callee_name },
    }
}

/// Everything a constraint speaks of has a number in the program.
pub open spec fn is_placed(f: FlowView, fns: Map<u32, u32>, vars: Map<u32, u32>) -> bool {
    &&& forall|k: int|
        0 <= k < vars_of(f).len() ==> vars.dom().contains((#[trigger] vars_of(f)[k]).0)
    &&& match fn_of(f) {
        Some(own) => fns.dom().contains(own.0),
        None => true,
    }
}

pub open spec fn return_is_placed(
    f: ReturnView,
    fns: Map<u32, u32>,
    vars: Map<u32, u32>,
) -> bool {
    &&& match returned_var(f) {
        Some(v) => vars.dom().contains(v.0),
        None => true,
    }
    &&& match returned_fn(f) {
        Some(own) => fns.dom().contains(own.0),
        None => true,
    }
}

fn renamed_var(vars: &IdMap, v: VarId) -> (r: VarId)
    ensures
        r == var_in(vars@, v),
{
    VarId(vars.rename(v.0))
}

fn renamed_fn(fns: &IdMap, f: FnId) -> (r: FnId)
    ensures
        r == fn_in(fns@, f),
{
    FnId(fns.rename(f.0))
}

/// The constraint over the program's numbers. What has no number there keeps
/// its own.
pub fn remap_flow(flow: &FlowConstraint, fn_map: &IdMap, var_map: &IdMap) -> (r: FlowConstraint)
    ensures
        r@ == flow_in(flow@, fn_map@, var_map@),
{
    match flow {
        FlowConstraint::Copy { dst, src } => FlowConstraint::Copy {
            dst: renamed_var(var_map, *dst),
            src: renamed_var(var_map, *src),
        },
        FlowConstraint::AddrOfVar { dst, src } => FlowConstraint::AddrOfVar {
            dst: renamed_var(var_map, *dst),
            src: renamed_var(var_map, *src),
        },
        FlowConstraint::AddrOfFn { dst, callee } => FlowConstraint::AddrOfFn {
            dst: renamed_var(var_map, *dst),
            callee: renamed_fn(fn_map, *callee),
        },
        FlowConstraint::Load { dst, src } => FlowConstraint::Load {
            dst: renamed_var(var_map, *dst),
            src: renamed_var(var_map, *src),
        },
        FlowConstraint::Store { dst, src } => FlowConstraint::Store {
            dst: renamed_var(var_map, *dst),
            src: renamed_var(var_map, *src),
        },
        FlowConstraint::UnwrapPointer { dst, src } => FlowConstraint::UnwrapPointer {
            dst: renamed_var(var_map, *dst),
            src: renamed_var(var_map, *src),
        },
        FlowConstraint::GepField { dst, base, field, field_name } => FlowConstraint::GepField {
            dst: renamed_var(var_map, *dst),
            base: renamed_var(var_map, *base),
            field: *field,
            field_name: field_name.clone(),
        },
        FlowConstraint::ArrayFnMember { array, callee } => FlowConstraint::ArrayFnMember {
            array: renamed_var(var_map, *array),
            callee: renamed_fn(fn_map, *callee),
        },
        FlowConstraint::CallReturn { dst, callee_name, caller } => FlowConstraint::CallReturn {
            dst: renamed_var(var_map, *dst),
            callee_name: callee_name.clone(),
            caller: match caller {
                Some(f) => Some(renamed_fn(fn_map, *f)),
                None => None,
            },
        },
        FlowConstraint::CallReturnIndirect { dst, callee_var } => {
            FlowConstraint::CallReturnIndirect {
                dst: renamed_var(var_map, *dst),
                callee_var: renamed_var(var_map, *callee_var),
            }
        },
        FlowConstraint::NewHeap { dst } => FlowConstraint::NewHeap {
            dst: renamed_var(var_map, *dst),
        },
        FlowConstraint::StringConst { dst, value } => FlowConstraint::StringConst {
            dst: renamed_var(var_map, *dst),
            value: value.clone(),
        },
    }
}

/// What a function returns, over the program's numbers.
pub fn remap_return_flow(flow: &ReturnFlow, fn_map: &IdMap, var_map: &IdMap) -> (r: ReturnFlow)
    ensures
        r@ == return_in(flow@, fn_map@, var_map@),
{
    match flow {
        ReturnFlow::AddrOfVar { src } => ReturnFlow::AddrOfVar { src: renamed_var(var_map, *src) },
        ReturnFlow::AddrOfFn { callee } => ReturnFlow::AddrOfFn {
            callee: renamed_fn(fn_map, *callee),
        },
        ReturnFlow::Copy { src } => ReturnFlow::Copy { src: renamed_var(var_map, *src) },
        ReturnFlow::Call { callee_name } => ReturnFlow::Call { callee_name: callee_name.clone() },
    }
}

/// A unit's type number in the program: its entry, or itself past the end.
pub open spec fn type_in(map: Seq<TypeId>, id: TypeId) -> TypeId {
    if id.0 < map.len() {
        map[id.0 as int]
    } else {
        id
    }
}

/// The type's number in the program. The map is indexed by the unit's own
/// numbers; a number outside it is its own.
pub fn remap_type(id: TypeId, map: &[TypeId]) -> (r: TypeId)
    ensures
        r == type_in(map@, id),
{
    let at = id.0 as usize;
    if at < map.len() {
        map[at]
    } else {
        id
    }
}

/// The variables a constraint speaks of, in order.
pub fn flow_vars(flow: &FlowConstraint) -> (r: Vec<VarId>)
    ensures
        r@ == vars_of(flow@),
{
    let r = match flow {
        FlowConstraint::Copy { dst, src } => vec![*dst, *src],
        FlowConstraint::AddrOfVar { dst, src } => vec![*dst, *src],
        FlowConstraint::AddrOfFn { dst, callee: _ } => vec![*dst],
        FlowConstraint::Load { dst, src } => vec![*dst, *src],
        FlowConstraint::Store { dst, src } => vec![*dst, *src],
        FlowConstraint::UnwrapPointer { dst, src } => vec![*dst, *src],
        FlowConstraint::GepField { dst, base, field: _, field_name: _ } => vec![*dst, *base],
        FlowConstraint::ArrayFnMember { array, callee: _ } => vec![*array],
        FlowConstraint::CallReturn { dst, callee_name: _, caller: _ } => vec![*dst],
        FlowConstraint::CallReturnIndirect { dst, callee_var } => vec![*dst, *callee_var],
        FlowConstraint::NewHeap { dst } => vec![*dst],
        FlowConstraint::StringConst { dst, value: _ } => vec![*dst],
    };
    assert(r@ =~= vars_of(flow@));
    r
}

/// The function a constraint takes the address of, or a call is written in.
pub fn flow_fn(flow: &FlowConstraint) -> (r: Option<FnId>)
    ensures
        r == fn_of(flow@),
{
    match flow {
        FlowConstraint::AddrOfFn { dst: _, callee } => Some(*callee),
        FlowConstraint::ArrayFnMember { array: _, callee } => Some(*callee),
        FlowConstraint::CallReturn { dst: _, callee_name: _, caller } => *caller,
        _ => None,
    }
}

/// Whether everything the constraint speaks of has a number in the program.
pub fn flow_is_placed(flow: &FlowConstraint, fn_map: &IdMap, var_map: &IdMap) -> (r: bool)
    ensures
        r == is_placed(flow@, fn_map@, var_map@),
{
    match flow_fn(flow) {
        Some(own) => {
            if !fn_map.has_key(own.0) {
                return false;
            }
        },
        None => {},
    }
    let vars = flow_vars(flow);
    let mut k: usize = 0;
    while k < vars.len()
        invariant
            k <= vars@.len(),
            vars@ == vars_of(flow@),
            match fn_of(flow@) {
                Some(own) => fn_map@.dom().contains(own.0),
                None => true,
            },
            forall|j: int| 0 <= j < k ==> var_map@.dom().contains((#[trigger] vars@[j]).0),
        decreases vars@.len() - k,
    {
        if !var_map.has_key(vars[k].0) {
            assert(!var_map@.dom().contains(vars_of(flow@)[k as int].0));
            return false;
        }
        k += 1;
    }
    true
}

/// Whether what is returned has a number in the program.
pub fn return_flow_is_placed(flow: &ReturnFlow, fn_map: &IdMap, var_map: &IdMap) -> (r: bool)
    ensures
        r == return_is_placed(flow@, fn_map@, var_map@),
{
    match flow {
        ReturnFlow::AddrOfVar { src } => var_map.has_key(src.0),
        ReturnFlow::AddrOfFn { callee } => fn_map.has_key(callee.0),
        ReturnFlow::Copy { src } => var_map.has_key(src.0),
        ReturnFlow::Call { callee_name: _ } => true,
    }
}

/// Whether two constraints are one.
pub fn flow_eq(a: &FlowConstraint, b: &FlowConstraint) -> (r: bool)
    ensures
        r == (a@ == b@),
{
    match (a, b) {
        (FlowConstraint::Copy { dst: d, src: s }, FlowConstraint::Copy { dst: e, src: t }) => *d
            == *e && *s == *t,
        (
            FlowConstraint::AddrOfVar { dst: d, src: s },
            FlowConstraint::AddrOfVar { dst: e, src: t },
        ) => *d == *e && *s == *t,
        (
            FlowConstraint::AddrOfFn { dst: d, callee: f },
            FlowConstraint::AddrOfFn { dst: e, callee: g },
        ) => *d == *e && *f == *g,
        (FlowConstraint::Load { dst: d, src: s }, FlowConstraint::Load { dst: e, src: t }) => *d
            == *e && *s == *t,
        (FlowConstraint::Store { dst: d, src: s }, FlowConstraint::Store { dst: e, src: t }) => *d
            == *e && *s == *t,
        (
            FlowConstraint::UnwrapPointer { dst: d, src: s },
            FlowConstraint::UnwrapPointer { dst: e, src: t },
        ) => *d == *e && *s == *t,
        (
            FlowConstraint::GepField { dst: d, base: s, field: i, field_name: m },
            FlowConstraint::GepField { dst: e, base: t, field: j, field_name: n },
        ) => *d == *e && *s == *t && *i == *j && str_eq(m.as_str(), n.as_str()),
        (
            FlowConstraint::ArrayFnMember { array: d, callee: f },
            FlowConstraint::ArrayFnMember { array: e, callee: g },
        ) => *d == *e && *f == *g,
        (
            FlowConstraint::CallReturn { dst: d, callee_name: m, caller: f },
            FlowConstraint::CallReturn { dst: e, callee_name: n, caller: g },
        ) => *d == *e && same_fn(*f, *g) && str_eq(m.as_str(), n.as_str()),
        (
            FlowConstraint::CallReturnIndirect { dst: d, callee_var: s },
            FlowConstraint::CallReturnIndirect { dst: e, callee_var: t },
        ) => *d == *e && *s == *t,
        (FlowConstraint::NewHeap { dst: d }, FlowConstraint::NewHeap { dst: e }) => *d == *e,
        (
            FlowConstraint::StringConst { dst: d, value: m },
            FlowConstraint::StringConst { dst: e, value: n },
        ) => *d == *e && str_eq(m.as_str(), n.as_str()),
        _ => false,
    }
}

fn same_fn(a: Option<FnId>, b: Option<FnId>) -> (r: bool)
    ensures
        r == (a == b),
{
    match (a, b) {
        (Some(x), Some(y)) => x == y,
        (None, None) => true,
        _ => false,
    }
}

/// Whether two return facts are one.
pub fn return_flow_eq(a: &ReturnFlow, b: &ReturnFlow) -> (r: bool)
    ensures
        r == (a@ == b@),
{
    match (a, b) {
        (ReturnFlow::AddrOfVar { src: s }, ReturnFlow::AddrOfVar { src: t }) => *s == *t,
        (ReturnFlow::AddrOfFn { callee: f }, ReturnFlow::AddrOfFn { callee: g }) => *f == *g,
        (ReturnFlow::Copy { src: s }, ReturnFlow::Copy { src: t }) => *s == *t,
        (ReturnFlow::Call { callee_name: m }, ReturnFlow::Call { callee_name: n }) => str_eq(
            m.as_str(),
            n.as_str(),
        ),
        _ => false,
    }
}

/// Renumbering moves every variable and the function of a constraint, each to
/// its own number, and nothing else about it.
pub proof fn law_renumbering_moves_each_endpoint(
    f: FlowView,
    fns: Map<u32, u32>,
    vars: Map<u32, u32>,
)
    ensures
        vars_of(flow_in(f, fns, vars)) == vars_of(f).map_values(|v: VarId| var_in(vars, v)),
        fn_of(flow_in(f, fns, vars)) == match fn_of(f) {
            Some(own) => Some(fn_in(fns, own)),
            None => None,
        },
{
    assert(vars_of(flow_in(f, fns, vars)) =~= vars_of(f).map_values(|v: VarId| var_in(vars, v)));
}

/// Maps that give no two numbers the same one never make two constraints one,
/// as long as everything they speak of is placed.
pub proof fn law_renumbering_keeps_constraints_apart(
    f: FlowView,
    g: FlowView,
    fns: Map<u32, u32>,
    vars: Map<u32, u32>,
)
    requires
        fns.is_injective(),
        vars.is_injective(),
        is_placed(f, fns, vars),
        is_placed(g, fns, vars),
    ensures
        flow_in(f, fns, vars) == flow_in(g, fns, vars) ==> f == g,
{
    if flow_in(f, fns, vars) == flow_in(g, fns, vars) {
        let a = vars_of(f);
        let b = vars_of(g);
        law_renumbering_moves_each_endpoint(f, fns, vars);
        law_renumbering_moves_each_endpoint(g, fns, vars);
        assert(a.len() == b.len()) by {
            assert(a.map_values(|v: VarId| var_in(vars, v)).len() == a.len());
            assert(b.map_values(|v: VarId| var_in(vars, v)).len() == b.len());
        }
        assert forall|k: int| 0 <= k < a.len() implies a[k] == b[k] by {
            let x = a.map_values(|v: VarId| var_in(vars, v));
            let y = b.map_values(|v: VarId| var_in(vars, v));
            assert(x[k] == y[k]);
            assert(vars.dom().contains(a[k].0));
            assert(vars.dom().contains(b[k].0));
            assert(vars[a[k].0] == vars[b[k].0]);
        }
        assert(a =~= b);
        match (fn_of(f), fn_of(g)) {
            (Some(x), Some(y)) => {
                assert(fns.dom().contains(x.0) && fns.dom().contains(y.0));
                assert(fns[x.0] == fns[y.0]);
            },
            _ => {},
        }
        assert(vars_of(f).len() > 0);
        assert(vars_of(f)[0] == vars_of(g)[0]);
        if vars_of(f).len() > 1 {
            assert(vars_of(f)[1] == vars_of(g)[1]);
        }
    }
}

} // verus!
