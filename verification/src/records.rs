//! The records that lowering makes of what a unit declares and calls.

use crate::calls::CallSite;
use crate::ir::{FileId, FnId, Linkage, Span, StorageClass, TypeId, VarId};
use crate::program::{CallRecord, FnTraits, Occurrence, Variable};
use crate::variables::Declared;
use vstd::prelude::*;

verus! {

/// Where a variable stands: its number, the function it belongs to, its place
/// and its type.
#[derive(Debug, Clone, Copy, PartialEq, Eq, Structural)]
pub struct VarPlace {
    pub id: VarId,
    pub owner: Option<FnId>,
    pub span: Span,
    pub type_id: TypeId,
}

/// A variable at a place that nothing but its function sees.
pub open spec fn is_local_record(v: Variable, at: VarPlace, name: Seq<char>) -> bool {
    &&& v.id == at.id
    &&& v.name@ == name
    &&& v.type_id == at.type_id
    &&& v.fn_id == at.owner
    &&& v.span == at.span
    &&& !v.is_defined
    &&& !v.is_weak
    &&& !v.is_namespaced
    &&& v.symbol is None
    &&& v.target is None
}

/// The implicit `this` of a member: its first parameter, a pointer.
pub fn this_variable(at: VarPlace) -> (r: Variable)
    ensures
        is_local_record(r, at, "this"@),
        r.storage == StorageClass::Param,
        r.param_index == Some(0u32),
        r.is_pointer,
{
    param_variable(at, "this".to_owned(), 0, true)
}

/// A parameter in its place.
pub fn param_variable(at: VarPlace, name: String, index: u32, is_pointer: bool) -> (r: Variable)
    ensures
        is_local_record(r, at, name@),
        r.storage == StorageClass::Param,
        r.param_index == Some(index),
        r.is_pointer == is_pointer,
{
    Variable {
        id: at.id,
        name,
        type_id: at.type_id,
        storage: StorageClass::Param,
        fn_id: at.owner,
        param_index: Some(index),
        span: at.span,
        is_pointer,
        is_defined: false,
        is_weak: false,
        is_namespaced: false,
        symbol: None,
        target: None,
    }
}

/// The variable of a capture that a lambda initializes.
pub fn capture_variable(at: VarPlace, name: String, is_pointer: bool) -> (r: Variable)
    ensures
        is_local_record(r, at, name@),
        r.storage == StorageClass::Local,
        r.param_index is None,
        r.is_pointer == is_pointer,
{
    Variable {
        id: at.id,
        name,
        type_id: at.type_id,
        storage: StorageClass::Local,
        fn_id: at.owner,
        param_index: None,
        span: at.span,
        is_pointer,
        is_defined: false,
        is_weak: false,
        is_namespaced: false,
        symbol: None,
        target: None,
    }
}

/// A declared variable. `symbol` is the name that other units reach it by.
pub fn declared_variable(at: VarPlace, d: Declared, symbol: Option<String>) -> (r: Variable)
    ensures
        r == (Variable {
            id: at.id,
            name: d.name,
            type_id: at.type_id,
            storage: d.storage,
            fn_id: at.owner,
            param_index: None,
            span: at.span,
            is_pointer: d.is_pointer,
            is_defined: d.is_defined,
            is_weak: d.is_weak,
            is_namespaced: d.is_namespaced,
            symbol,
            target: None,
        }),
{
    Variable {
        id: at.id,
        name: d.name,
        type_id: at.type_id,
        storage: d.storage,
        fn_id: at.owner,
        param_index: None,
        span: at.span,
        is_pointer: d.is_pointer,
        is_defined: d.is_defined,
        is_weak: d.is_weak,
        is_namespaced: d.is_namespaced,
        symbol,
        target: None,
    }
}

/// What is known of the function that a lambda with `arity` parameters
/// becomes: a definition that only its unit sees.
pub fn lambda_traits(arity: u32) -> (r: FnTraits)
    ensures
        r == (FnTraits {
            linkage: Linkage::Internal,
            is_defined: true,
            is_weak: false,
            is_cpp: true,
            is_virtual: false,
            is_final: false,
            variadic: false,
            owner_unresolved: false,
            defaulted_in_class: false,
            declared_in_class: false,
            explicit_arity: Some(arity),
            default_args: 0,
        }),
{
    FnTraits {
        linkage: Linkage::Internal,
        is_defined: true,
        is_weak: false,
        is_cpp: true,
        is_virtual: false,
        is_final: false,
        variadic: false,
        owner_unresolved: false,
        defaulted_in_class: false,
        declared_in_class: false,
        explicit_arity: Some(arity),
        default_args: 0,
    }
}

/// The record of a call as its unit hands it over: in the scope of its unit's
/// file, and at the place it is spelled.
pub fn call_record(site: CallSite, own: FileId) -> (r: CallRecord)
    ensures
        r.site == site,
        r.addr_of_args@.len() == 0,
        r.expansion_span is None,
        r.scope_file == match site.tu {
            Some(tu) => tu,
            None => own,
        },
        r.occurrence == (Occurrence {
            span: site.span,
            expansion_span: None,
            expansion_id: None,
        }),
{
    let scope_file = match site.tu {
        Some(tu) => tu,
        None => own,
    };
    let occurrence = Occurrence { span: site.span, expansion_span: None, expansion_id: None };
    CallRecord { site, addr_of_args: Vec::new(), expansion_span: None, scope_file, occurrence }
}

/// The ranges of constraints that deferred references add to their owners, by
/// the first `k` owners. A reference that nothing settles adds none.
pub open spec fn ranges_owned<T>(
    owners: Seq<(usize, T)>,
    ranges: Seq<(usize, usize)>,
    k: int,
) -> Seq<(T, usize, usize)>
    decreases k,
{
    if k <= 0 {
        Seq::empty()
    } else {
        let before = ranges_owned(owners, ranges, k - 1);
        let (place, owner) = owners[k - 1];
        if place < ranges.len() && ranges[place as int].0 < ranges[place as int].1 {
            before.push((owner, ranges[place as int].0, ranges[place as int].1))
        } else {
            before
        }
    }
}

/// Add the constraints of settled references to the ranges of those that
/// recorded them.
pub fn own_settled<T: Copy>(
    list: &mut Vec<(T, usize, usize)>,
    owners: &Vec<(usize, T)>,
    ranges: &Vec<(usize, usize)>,
)
    ensures
        final(list)@ == old(list)@ + ranges_owned(owners@, ranges@, owners@.len() as int),
{
    let ghost first = list@;
    let mut k: usize = 0;
    assert(first + Seq::<(T, usize, usize)>::empty() =~= first);
    while k < owners.len()
        invariant
            k <= owners@.len(),
            list@ == first + ranges_owned(owners@, ranges@, k as int),
        decreases owners@.len() - k,
    {
        let (place, owner) = owners[k];
        if place < ranges.len() {
            let (from, to) = ranges[place];
            if from < to {
                let ghost before = ranges_owned(owners@, ranges@, k as int);
                list.push((owner, from, to));
                assert(first + before.push((owner, from, to)) =~= (first + before).push(
                    (owner, from, to),
                ));
            }
        }
        k += 1;
    }
}

} // verus!
