//! The merged program: its files, symbols and call records, and what is looked
//! up in them while units are merged.

use crate::calls::{CallSite, SiteView};
use crate::ir::{FileId, FnId, Linkage, Span, StorageClass, TargetId, TypeId, VarId};
use vstd::prelude::*;

verus! {

/// What a function is declared as, besides its name and its variables.
#[derive(Debug, Clone, Copy, PartialEq, Eq)]
pub struct FnTraits {
    pub linkage: Linkage,
    pub is_defined: bool,
    pub is_weak: bool,
    pub is_cpp: bool,
    pub is_virtual: bool,
    pub is_final: bool,
    pub variadic: bool,
    pub owner_unresolved: bool,
    pub defaulted_in_class: bool,
    pub declared_in_class: bool,
    /// The parameters the declaration spells, where that is known.
    pub explicit_arity: Option<u32>,
    pub default_args: u32,
}

#[derive(Debug, PartialEq, Eq)]
pub struct Function {
    pub id: FnId,
    pub name: String,
    pub traits: FnTraits,
    pub return_type: TypeId,
    pub params: Vec<VarId>,
    pub param_type_ids: Vec<TypeId>,
    pub locals: Vec<VarId>,
    pub span: Span,
    pub end_line: u32,
    pub file: FileId,
    pub tu: Option<FileId>,
    pub target: Option<TargetId>,
}

/// A function with its texts and lists as sequences.
pub struct FnView {
    pub id: FnId,
    pub name: Seq<char>,
    pub traits: FnTraits,
    pub return_type: TypeId,
    pub params: Seq<VarId>,
    pub param_type_ids: Seq<TypeId>,
    pub locals: Seq<VarId>,
    pub span: Span,
    pub end_line: u32,
    pub file: FileId,
    pub tu: Option<FileId>,
    pub target: Option<TargetId>,
}

impl View for Function {
    type V = FnView;

    open spec fn view(&self) -> FnView {
        FnView {
            id: self.id,
            name: self.name@,
            traits: self.traits,
            return_type: self.return_type,
            params: self.params@,
            param_type_ids: self.param_type_ids@,
            locals: self.locals@,
            span: self.span,
            end_line: self.end_line,
            file: self.file,
            tu: self.tu,
            target: self.target,
        }
    }
}

#[derive(Debug, PartialEq, Eq)]
pub struct Variable {
    pub id: VarId,
    pub name: String,
    pub type_id: TypeId,
    pub storage: StorageClass,
    pub fn_id: Option<FnId>,
    pub param_index: Option<u32>,
    pub span: Span,
    pub is_pointer: bool,
    pub is_defined: bool,
    pub is_weak: bool,
    pub is_namespaced: bool,
    /// The name other units reach it by, where it has external linkage.
    pub symbol: Option<String>,
    pub target: Option<TargetId>,
}

impl Variable {
    /// The same variable once more.
    pub fn copy(&self) -> (r: Variable)
        ensures
            r == *self,
    {
        Variable {
            id: self.id,
            name: self.name.clone(),
            type_id: self.type_id,
            storage: self.storage,
            fn_id: self.fn_id,
            param_index: self.param_index,
            span: self.span,
            is_pointer: self.is_pointer,
            is_defined: self.is_defined,
            is_weak: self.is_weak,
            is_namespaced: self.is_namespaced,
            symbol: match &self.symbol {
                Some(s) => Some(s.clone()),
                None => None,
            },
            target: self.target,
        }
    }
}

/// Where a call stands for those who ask about it: its spelling, the macro
/// expansion it comes from, and which expansion of that macro.
#[derive(Debug, Clone, Copy, PartialEq, Eq)]
pub struct Occurrence {
    pub span: Span,
    pub expansion_span: Option<Span>,
    pub expansion_id: Option<u32>,
}

/// A call site with the places it stands at.
#[derive(Debug, PartialEq, Eq)]
pub struct CallRecord {
    pub site: CallSite,
    pub addr_of_args: Vec<u32>,
    /// Where the macro that the call comes from is expanded.
    pub expansion_span: Option<Span>,
    /// The file whose code the call is.
    pub scope_file: FileId,
    pub occurrence: Occurrence,
}

pub struct RecordView {
    pub site: SiteView,
    pub addr_of_args: Seq<u32>,
    pub expansion_span: Option<Span>,
    pub scope_file: FileId,
    pub occurrence: Occurrence,
}

impl View for CallRecord {
    type V = RecordView;

    open spec fn view(&self) -> RecordView {
        RecordView {
            site: self.site@,
            addr_of_args: self.addr_of_args@,
            expansion_span: self.expansion_span,
            scope_file: self.scope_file,
            occurrence: self.occurrence,
        }
    }
}

pub open spec fn record_views(v: Seq<CallRecord>) -> Seq<RecordView> {
    v.map_values(|r: CallRecord| r@)
}

pub open spec fn fn_views(v: Seq<Function>) -> Seq<FnView> {
    v.map_values(|f: Function| f@)
}

/// The position of the first function with that number, from position `k`.
pub open spec fn fn_at(fns: Seq<FnView>, id: FnId, k: int) -> Option<int>
    decreases fns.len() - k,
{
    if k < 0 || k >= fns.len() {
        None
    } else if fns[k].id == id {
        Some(k)
    } else {
        fn_at(fns, id, k + 1)
    }
}

pub open spec fn fn_by_id(fns: Seq<FnView>, id: FnId) -> Option<FnView> {
    match fn_at(fns, id, 0) {
        Some(k) => Some(fns[k]),
        None => None,
    }
}

/// The first variable with that number, from position `k`.
pub open spec fn var_at(vars: Seq<Variable>, id: VarId, k: int) -> Option<int>
    decreases vars.len() - k,
{
    if k < 0 || k >= vars.len() {
        None
    } else if vars[k].id == id {
        Some(k)
    } else {
        var_at(vars, id, k + 1)
    }
}

pub open spec fn var_by_id(vars: Seq<Variable>, id: VarId) -> Option<Variable> {
    match var_at(vars, id, 0) {
        Some(k) => Some(vars[k]),
        None => None,
    }
}

pub proof fn lemma_fn_at(fns: Seq<FnView>, id: FnId, k: int)
    requires
        0 <= k,
    ensures
        match fn_at(fns, id, k) {
            Some(p) => k <= p < fns.len() && fns[p].id == id && forall|j: int|
                k <= j < p ==> (#[trigger] fns[j]).id != id,
            None => forall|j: int| k <= j < fns.len() ==> (#[trigger] fns[j]).id != id,
        },
    decreases fns.len() - k,
{
    if k < fns.len() && fns[k].id != id {
        lemma_fn_at(fns, id, k + 1);
    }
}

pub proof fn lemma_var_at(vars: Seq<Variable>, id: VarId, k: int)
    requires
        0 <= k,
    ensures
        match var_at(vars, id, k) {
            Some(p) => k <= p < vars.len() && vars[p].id == id && forall|j: int|
                k <= j < p ==> (#[trigger] vars[j]).id != id,
            None => forall|j: int| k <= j < vars.len() ==> (#[trigger] vars[j]).id != id,
        },
    decreases vars.len() - k,
{
    if k < vars.len() && vars[k].id != id {
        lemma_var_at(vars, id, k + 1);
    }
}

/// The position of the function with that number.
pub fn function_index(fns: &Vec<Function>, id: FnId) -> (r: Option<usize>)
    ensures
        match r {
            Some(k) => fn_at(fn_views(fns@), id, 0) == Some(k as int) && k < fns@.len(),
            None => fn_at(fn_views(fns@), id, 0) is None,
        },
{
    let ghost all = fn_views(fns@);
    let mut k: usize = 0;
    while k < fns.len()
        invariant
            k <= fns@.len(),
            all == fn_views(fns@),
            fn_at(all, id, 0) == fn_at(all, id, k as int),
        decreases fns@.len() - k,
    {
        assert(all[k as int] == fns@[k as int]@);
        if fns[k].id == id {
            return Some(k);
        }
        k += 1;
    }
    None
}

/// The position of the variable with that number.
pub fn variable_index(vars: &Vec<Variable>, id: VarId) -> (r: Option<usize>)
    ensures
        match r {
            Some(k) => var_at(vars@, id, 0) == Some(k as int) && k < vars@.len(),
            None => var_at(vars@, id, 0) is None,
        },
{
    let mut k: usize = 0;
    while k < vars.len()
        invariant
            k <= vars@.len(),
            var_at(vars@, id, 0) == var_at(vars@, id, k as int),
        decreases vars@.len() - k,
    {
        if vars[k].id == id {
            return Some(k);
        }
        k += 1;
    }
    None
}

/// A function of C++ that no other unit sees.
pub open spec fn internal_cpp(t: FnTraits) -> bool {
    t.linkage == Linkage::Internal && t.is_cpp
}

pub open spec fn is_internal_fn(fns: Seq<FnView>, id: FnId) -> bool {
    match fn_by_id(fns, id) {
        Some(f) => internal_cpp(f.traits),
        None => false,
    }
}

pub fn has_internal_cpp(t: &FnTraits) -> (r: bool)
    ensures
        r == internal_cpp(*t),
{
    t.linkage == Linkage::Internal && t.is_cpp
}

/// Whether the function with that number is one of C++ that no other unit sees.
pub fn is_internal_function(fns: &Vec<Function>, id: FnId) -> (r: bool)
    ensures
        r == is_internal_fn(fn_views(fns@), id),
{
    match function_index(fns, id) {
        Some(k) => {
            assert(fn_views(fns@)[k as int] == fns@[k as int]@);
            has_internal_cpp(&fns[k].traits)
        },
        None => false,
    }
}

/// The same numbers once more.
pub fn copy_ids(v: &Vec<VarId>) -> (r: Vec<VarId>)
    ensures
        r@ == v@,
{
    let mut out: Vec<VarId> = Vec::new();
    let mut k: usize = 0;
    while k < v.len()
        invariant
            k <= v@.len(),
            out@ == v@.take(k as int),
        decreases v@.len() - k,
    {
        out.push(v[k]);
        k += 1;
        assert(out@ =~= v@.take(k as int));
    }
    assert(v@.take(k as int) =~= v@);
    out
}

/// The same types once more.
pub fn copy_types(v: &Vec<TypeId>) -> (r: Vec<TypeId>)
    ensures
        r@ == v@,
{
    let mut out: Vec<TypeId> = Vec::new();
    let mut k: usize = 0;
    while k < v.len()
        invariant
            k <= v@.len(),
            out@ == v@.take(k as int),
        decreases v@.len() - k,
    {
        out.push(v[k]);
        k += 1;
        assert(out@ =~= v@.take(k as int));
    }
    assert(v@.take(k as int) =~= v@);
    out
}

impl Function {
    /// The same function once more.
    pub fn copy(&self) -> (r: Function)
        ensures
            r@ == self@,
    {
        Function {
            id: self.id,
            name: self.name.clone(),
            traits: self.traits,
            return_type: self.return_type,
            params: copy_ids(&self.params),
            param_type_ids: copy_types(&self.param_type_ids),
            locals: copy_ids(&self.locals),
            span: self.span,
            end_line: self.end_line,
            file: self.file,
            tu: self.tu,
            target: self.target,
        }
    }
}

/// A function and its definition text, where the text decides whether two
/// units hold one body.
#[derive(Debug, PartialEq, Eq)]
pub struct Definition {
    pub id: FnId,
    pub text: String,
}

/// The text of the definition with that number, from position `k`.
pub open spec fn text_at(defs: Seq<Definition>, id: FnId, k: int) -> Option<Seq<char>>
    decreases defs.len() - k,
{
    if k < 0 || k >= defs.len() {
        None
    } else if defs[k].id == id {
        Some(defs[k].text@)
    } else {
        text_at(defs, id, k + 1)
    }
}

/// The text of the definition with that number.
pub fn definition_text(defs: &Vec<Definition>, id: FnId) -> (r: Option<&String>)
    ensures
        match r {
            Some(t) => text_at(defs@, id, 0) == Some(t@),
            None => text_at(defs@, id, 0) is None,
        },
{
    let mut k: usize = 0;
    while k < defs.len()
        invariant
            k <= defs@.len(),
            text_at(defs@, id, 0) == text_at(defs@, id, k as int),
        decreases defs@.len() - k,
    {
        if defs[k].id == id {
            return Some(&defs[k].text);
        }
        k += 1;
    }
    None
}

/// Some variable has that number.
pub open spec fn holds_var(vars: Seq<Variable>, id: VarId) -> bool {
    exists|i: int| 0 <= i < vars.len() && (#[trigger] vars[i]).id == id
}

/// Some function has that number.
pub open spec fn holds_fn(fns: Seq<FnView>, id: FnId) -> bool {
    exists|i: int| 0 <= i < fns.len() && (#[trigger] fns[i]).id == id
}

/// Every number that the map gives is that of a variable.
pub open spec fn gives_vars(map: Map<u32, u32>, vars: Seq<Variable>) -> bool {
    forall|k: u32| #[trigger] map.dom().contains(k) ==> holds_var(vars, VarId(map[k]))
}

/// Every number that the map gives is that of a function.
pub open spec fn gives_fns(map: Map<u32, u32>, fns: Seq<FnView>) -> bool {
    forall|k: u32| #[trigger] map.dom().contains(k) ==> holds_fn(fns, FnId(map[k]))
}

pub proof fn lemma_var_is_held(vars: Seq<Variable>, id: VarId, k: int)
    requires
        0 <= k,
        var_at(vars, id, k) is Some,
    ensures
        holds_var(vars, id),
    decreases vars.len() - k,
{
    if vars[k].id != id {
        lemma_var_is_held(vars, id, k + 1);
    }
}

} // verus!
