//! The constraints that member accesses give rise to: chains of field
//! addresses, the loads through them, and the stores into them.

use vstd::prelude::*;

use crate::expr;
use crate::expr::{op_is, peel_expression, pointer_arg, FnNames};
use crate::fields;
use crate::fields::{FieldPath, Layouts};
use crate::infer::Typing;
use crate::ir::{DescView, FieldId, FlowConstraint, FnId, TypeDesc, VarId};
use crate::parse::node_text;
use crate::syntax::SyntaxTree;

verus! {

/// A temporary that lowering makes.
#[derive(Debug, Clone, Copy, PartialEq, Eq, Structural)]
pub enum Temp {
    /// The address of a field.
    Gep(VarId),
    /// A value read through an address.
    Load(VarId),
    /// A value on its way into a store, or what a call yields.
    Ret(VarId),
    /// The object that an overloaded arrow yields.
    Recv(VarId),
}

/// What lowering adds to a function: constraints and temporaries.
pub struct Emitter {
    pub flows: Vec<FlowConstraint>,
    pub temps: Vec<Temp>,
    /// The classes of the objects that overloaded arrows yield.
    pub receivers: Vec<(VarId, String)>,
    /// The variable that the next temporary gets.
    pub next_var: u32,
}

/// What is added at one place.
#[verifier::ext_equal]
pub struct Emitted {
    pub flows: Seq<FlowConstraint>,
    pub temps: Seq<Temp>,
    pub receivers: Seq<(VarId, String)>,
}

pub open spec fn nothing_emitted() -> Emitted {
    Emitted { flows: Seq::empty(), temps: Seq::empty(), receivers: Seq::empty() }
}

impl Emitter {
    /// `self` is `before` with `e` added.
    pub open spec fn is_with(&self, before: &Emitter, e: Emitted) -> bool {
        &&& self.flows@ == before.flows@ + e.flows
        &&& self.temps@ == before.temps@ + e.temps
        &&& self.receivers@ == before.receivers@ + e.receivers
        &&& self.next_var == before.next_var + e.temps.len()
    }

    /// There are numbers left for `n` more temporaries.
    pub open spec fn room(&self, n: int) -> bool {
        self.next_var + n <= u32::MAX
    }

    /// The address of a field of what `base` points to.
    pub fn alloc_gep_temp(&mut self, base: VarId, field: FieldId, field_name: String) -> (r: VarId)
        requires
            old(self).room(1),
        ensures
            r == VarId(old(self).next_var),
            final(self).is_with(
                old(self),
                (Emitted {
                    flows: seq![FlowConstraint::GepField { dst: r, base, field, field_name }],
                    temps: seq![Temp::Gep(r)],
                    receivers: Seq::empty(),
                }),
            ),
    {
        let r = VarId(self.next_var);
        self.next_var = self.next_var + 1;
        self.flows.push(FlowConstraint::GepField { dst: r, base, field, field_name });
        self.temps.push(Temp::Gep(r));
        assert(self.flows@ =~= old(self).flows@ + seq![
            FlowConstraint::GepField { dst: r, base, field, field_name },
        ]);
        assert(self.temps@ =~= old(self).temps@ + seq![Temp::Gep(r)]);
        assert(self.receivers@ =~= old(self).receivers@ + Seq::empty());
        r
    }

    /// The value that is read through `src`.
    pub fn alloc_load_temp(&mut self, src: VarId) -> (r: VarId)
        requires
            old(self).room(1),
        ensures
            r == VarId(old(self).next_var),
            final(self).is_with(
                old(self),
                (Emitted {
                    flows: seq![FlowConstraint::Load { dst: r, src }],
                    temps: seq![Temp::Load(r)],
                    receivers: Seq::empty(),
                }),
            ),
    {
        let r = VarId(self.next_var);
        self.next_var = self.next_var + 1;
        self.flows.push(FlowConstraint::Load { dst: r, src });
        self.temps.push(Temp::Load(r));
        assert(self.flows@ =~= old(self).flows@ + seq![FlowConstraint::Load { dst: r, src }]);
        assert(self.temps@ =~= old(self).temps@ + seq![Temp::Load(r)]);
        assert(self.receivers@ =~= old(self).receivers@ + Seq::empty());
        r
    }
}

/// The variable that a chain of `k` field addresses ends in.
pub open spec fn chain_end(base: VarId, next: int, k: int) -> VarId {
    if k <= 0 {
        base
    } else {
        VarId((next + k - 1) as u32)
    }
}

/// The first `k` addresses of a chain of fields, each of what the one before
/// it points to.
pub open spec fn gep_chain(
    base: VarId,
    next: int,
    ids: Seq<FieldId>,
    names: Seq<String>,
    k: int,
) -> Emitted
    decreases k,
{
    if k <= 0 {
        nothing_emitted()
    } else {
        let before = gep_chain(base, next, ids, names, k - 1);
        let dst = chain_end(base, next, k);
        Emitted {
            flows: before.flows.push(
                FlowConstraint::GepField {
                    dst,
                    base: chain_end(base, next, k - 1),
                    field: ids[k - 1],
                    field_name: names[k - 1],
                },
            ),
            temps: before.temps.push(Temp::Gep(dst)),
            receivers: Seq::empty(),
        }
    }
}

pub proof fn lemma_chain_temps(
    base: VarId,
    next: int,
    ids: Seq<FieldId>,
    names: Seq<String>,
    k: int,
)
    requires
        0 <= k,
    ensures
        gep_chain(base, next, ids, names, k).temps.len() == k,
        gep_chain(base, next, ids, names, k).flows.len() == k,
    decreases k,
{
    if k > 0 {
        lemma_chain_temps(base, next, ids, names, k - 1);
    }
}

/// A pointer that is followed through a field stands for what the field
/// points to: a load separates it from the next field.
pub open spec fn load_chain(
    base: VarId,
    next: int,
    ids: Seq<FieldId>,
    names: Seq<String>,
    types: Seq<DescView>,
    k: int,
) -> (Emitted, VarId)
    decreases k,
{
    if k <= 0 {
        (nothing_emitted(), base)
    } else {
        let (before, current) = load_chain(base, next, ids, names, types, k - 1);
        let gep = VarId((next + before.temps.len()) as u32);
        let address = Emitted {
            flows: before.flows.push(
                FlowConstraint::GepField {
                    dst: gep,
                    base: current,
                    field: ids[k - 1],
                    field_name: names[k - 1],
                },
            ),
            temps: before.temps.push(Temp::Gep(gep)),
            receivers: Seq::empty(),
        };
        if k == ids.len() || types[k - 1] is Ptr {
            let load = VarId((next + before.temps.len() + 1) as u32);
            (
                Emitted {
                    flows: address.flows.push(FlowConstraint::Load { dst: load, src: gep }),
                    temps: address.temps.push(Temp::Load(load)),
                    receivers: Seq::empty(),
                },
                load,
            )
        } else {
            (address, gep)
        }
    }
}

proof fn lemma_load_temps(
    base: VarId,
    next: int,
    ids: Seq<FieldId>,
    names: Seq<String>,
    types: Seq<DescView>,
    k: int,
)
    requires
        0 <= k,
    ensures
        load_chain(base, next, ids, names, types, k).0.temps.len() <= 2 * k,
    decreases k,
{
    if k > 0 {
        lemma_load_temps(base, next, ids, names, types, k - 1);
    }
}

impl Emitter {
    /// The address of the field at the end of a path.
    pub fn emit_gep_chain(&mut self, base: VarId, ids: &Vec<FieldId>, names: &Vec<String>) -> (r:
        VarId)
        requires
            ids@.len() == names@.len(),
            old(self).room(ids@.len() as int),
        ensures
            r == chain_end(base, old(self).next_var as int, ids@.len() as int),
            final(self).is_with(
                old(self),
                gep_chain(base, old(self).next_var as int, ids@, names@, ids@.len() as int),
            ),
    {
        let ghost next = self.next_var as int;
        let mut current = base;
        let mut k: usize = 0;
        assert(self.flows@ =~= old(self).flows@ + Seq::<FlowConstraint>::empty());
        assert(self.temps@ =~= old(self).temps@ + Seq::<Temp>::empty());
        assert(self.receivers@ =~= old(self).receivers@ + Seq::<(VarId, String)>::empty());
        while k < ids.len()
            invariant
                k <= ids@.len(),
                ids@.len() == names@.len(),
                next == old(self).next_var,
                next + ids@.len() <= u32::MAX,
                self.is_with(old(self), gep_chain(base, next, ids@, names@, k as int)),
                self.next_var == next + k,
                current == chain_end(base, next, k as int),
            decreases ids@.len() - k,
        {
            let ghost before = gep_chain(base, next, ids@, names@, k as int);
            let ghost after = gep_chain(base, next, ids@, names@, k as int + 1);
            let name = names[k].clone();
            current = self.alloc_gep_temp(current, ids[k], name);
            proof {
                lemma_chain_temps(base, next, ids@, names@, k as int);
                lemma_chain_temps(base, next, ids@, names@, k as int + 1);
                assert(self.flows@ =~= old(self).flows@ + after.flows);
                assert(self.temps@ =~= old(self).temps@ + after.temps);
                assert(self.receivers@ =~= old(self).receivers@ + after.receivers);
            }
            k += 1;
        }
        current
    }

    /// The function pointer that the field at the end of a path holds. A
    /// pointer on the way is loaded before the next field is looked up.
    pub fn emit_field_fn_ptr_load(
        &mut self,
        base: VarId,
        ids: &Vec<FieldId>,
        names: &Vec<String>,
        types: &Vec<TypeDesc>,
    ) -> (r: Option<VarId>)
        requires
            ids@.len() == names@.len(),
            ids@.len() == types@.len(),
            old(self).room(2 * ids@.len() as int),
        ensures
            r is None <==> ids@.len() == 0,
            ({
                let (e, end) = load_chain(
                    base,
                    old(self).next_var as int,
                    ids@,
                    names@,
                    fields::descs(types@),
                    ids@.len() as int,
                );
                final(self).is_with(old(self), e) && (r matches Some(v) ==> v == end)
            }),
    {
        let ghost next = self.next_var as int;
        let ghost all = fields::descs(types@);
        let mut current = base;
        let mut k: usize = 0;
        assert(self.flows@ =~= old(self).flows@ + Seq::<FlowConstraint>::empty());
        assert(self.temps@ =~= old(self).temps@ + Seq::<Temp>::empty());
        assert(self.receivers@ =~= old(self).receivers@ + Seq::<(VarId, String)>::empty());
        while k < ids.len()
            invariant
                k <= ids@.len(),
                ids@.len() == names@.len(),
                ids@.len() == types@.len(),
                all == fields::descs(types@),
                next == old(self).next_var,
                next + 2 * ids@.len() <= u32::MAX,
                self.is_with(old(self), load_chain(base, next, ids@, names@, all, k as int).0),
                current == load_chain(base, next, ids@, names@, all, k as int).1,
            decreases ids@.len() - k,
        {
            let ghost before = load_chain(base, next, ids@, names@, all, k as int).0;
            let ghost after = load_chain(base, next, ids@, names@, all, k as int + 1).0;
            proof {
                lemma_load_temps(base, next, ids@, names@, all, k as int);
                assert(all[k as int] == types@[k as int]@);
            }
            let name = names[k].clone();
            let gep = self.alloc_gep_temp(current, ids[k], name);
            let pointer = match &types[k] {
                TypeDesc::Ptr(_) => true,
                _ => false,
            };
            if k + 1 == ids.len() || pointer {
                current = self.alloc_load_temp(gep);
            } else {
                current = gep;
            }
            proof {
                assert(self.flows@ =~= old(self).flows@ + after.flows);
                assert(self.temps@ =~= old(self).temps@ + after.temps);
                assert(self.receivers@ =~= old(self).receivers@ + after.receivers);
            }
            k += 1;
        }
        if ids.len() == 0 {
            None
        } else {
            Some(current)
        }
    }

    /// Store the address of a function through `dst`.
    pub fn store_fn(&mut self, dst: VarId, callee: FnId)
        requires
            old(self).room(1),
        ensures
            final(self).is_with(old(self), fn_stored(dst, callee, VarId(old(self).next_var))),
    {
        let src = VarId(self.next_var);
        self.next_var = self.next_var + 1;
        self.temps.push(Temp::Ret(src));
        self.flows.push(FlowConstraint::AddrOfFn { dst: src, callee });
        self.flows.push(FlowConstraint::Store { dst, src });
        assert(self.flows@ =~= old(self).flows@ + fn_stored(dst, callee, src).flows);
        assert(self.temps@ =~= old(self).temps@ + fn_stored(dst, callee, src).temps);
        assert(self.receivers@ =~= old(self).receivers@ + Seq::empty());
    }

    /// Store a variable through `dst`.
    pub fn store_var(&mut self, dst: VarId, src: VarId)
        ensures
            final(self).is_with(
                old(self),
                (Emitted {
                    flows: seq![FlowConstraint::Store { dst, src }],
                    temps: Seq::empty(),
                    receivers: Seq::empty(),
                }),
            ),
    {
        self.flows.push(FlowConstraint::Store { dst, src });
        assert(self.flows@ =~= old(self).flows@ + seq![FlowConstraint::Store { dst, src }]);
        assert(self.temps@ =~= old(self).temps@ + Seq::<Temp>::empty());
        assert(self.receivers@ =~= old(self).receivers@ + Seq::<(VarId, String)>::empty());
    }
}

/// The address of a function on its way through a temporary.
pub open spec fn fn_stored(dst: VarId, callee: FnId, src: VarId) -> Emitted {
    Emitted {
        flows: seq![
            FlowConstraint::AddrOfFn { dst: src, callee },
            FlowConstraint::Store { dst, src },
        ],
        temps: seq![Temp::Ret(src)],
        receivers: Seq::empty(),
    }
}

/// Each address in a chain is of what the address before it points to, and the
/// first of what the base does.
pub proof fn law_field_chains_hang_together(
    base: VarId,
    next: int,
    ids: Seq<FieldId>,
    names: Seq<String>,
    k: int,
    i: int,
)
    requires
        0 <= i < k,
    ensures
        gep_chain(base, next, ids, names, k).flows[i] matches FlowConstraint::GepField {
            dst,
            base: from,
            field,
            field_name,
        } && dst == chain_end(base, next, i + 1) && from == chain_end(base, next, i) && field
            == ids[i] && field_name == names[i],
    decreases k,
{
    lemma_chain_temps(base, next, ids, names, k - 1);
    if i < k - 1 {
        law_field_chains_hang_together(base, next, ids, names, k - 1, i);
    }
}

/// What is stored into a field.
#[derive(Debug, PartialEq, Eq)]
pub enum FieldValue {
    /// A variable.
    Var(VarId),
    /// The address of a member.
    Address(FieldPath),
    /// A function.
    Fn(FnId),
    /// A name that may be a function defined later.
    Pending(String),
    Lambda,
    /// The result of a call.
    Call,
    /// What the value of the expression gives rise to.
    Flow,
}

pub enum FieldValueView {
    Var(VarId),
    Address(fields::PathView),
    Fn(FnId),
    Pending(Seq<char>),
    Lambda,
    Call,
    Flow,
}

impl FieldValue {
    pub open spec fn view(&self) -> FieldValueView {
        match self {
            FieldValue::Var(v) => FieldValueView::Var(*v),
            FieldValue::Address(p) => FieldValueView::Address(p@),
            FieldValue::Fn(f) => FieldValueView::Fn(*f),
            FieldValue::Pending(name) => FieldValueView::Pending(name@),
            FieldValue::Lambda => FieldValueView::Lambda,
            FieldValue::Call => FieldValueView::Call,
            FieldValue::Flow => FieldValueView::Flow,
        }
    }
}

/// The variable or the member address that a store takes its value from.
pub open spec fn store_src(
    ty: Typing,
    lay: Layouts,
    this: Option<VarId>,
    t: SyntaxTree,
    source: Seq<char>,
    n: int,
) -> Option<FieldValueView> {
    let kind = t.spec_kind(n);
    if kind == "pointer_expression"@ {
        match expr::pointer_operand(t, n) {
            Some(arg) if expr::operator_of(t, source, n) == Some("&"@) => {
                match fields::address_path(ty, lay, this, t, source, arg as int) {
                    Some(p) => Some(FieldValueView::Address(p)),
                    None => match expr::lvalue_var(*ty.vars, t, source, arg as int) {
                        Some(v) => Some(FieldValueView::Var(v)),
                        None => None,
                    },
                }
            },
            _ => None,
        }
    } else {
        let found = if kind == "identifier"@ {
            expr::lvalue_var(*ty.vars, t, source, n)
        } else {
            expr::expr_var(*ty.vars, t, source, n)
        };
        match found {
            Some(v) => Some(FieldValueView::Var(v)),
            None => None,
        }
    }
}

/// What the expression at `n` stores into a field.
pub open spec fn stored_value(
    ty: Typing,
    f: FnNames,
    lay: Layouts,
    this: Option<VarId>,
    t: SyntaxTree,
    source: Seq<char>,
    n: int,
) -> FieldValueView {
    let kind = t.spec_kind(n);
    match store_src(ty, lay, this, t, source, n) {
        Some(v) => v,
        None => if kind == "identifier"@ {
            match f.spec_named(t.text(source, n)) {
                Some(callee) => FieldValueView::Fn(callee),
                None => FieldValueView::Pending(t.text(source, n)),
            }
        } else if kind == "lambda_expression"@ && ty.scope.is_cpp {
            FieldValueView::Lambda
        } else if kind == "call_expression"@ {
            FieldValueView::Call
        } else {
            FieldValueView::Flow
        },
    }
}

pub open spec fn opt_value(v: Option<FieldValue>) -> Option<FieldValueView> {
    match v {
        Some(v) => Some(v@),
        None => None,
    }
}

impl<'a> Typing<'a> {
    /// The variable or member address that a store takes its value from.
    pub fn expr_to_store_src(
        &self,
        lay: &Layouts,
        this: Option<VarId>,
        source: &str,
        tree: &SyntaxTree,
        node: usize,
    ) -> (r: Option<FieldValue>)
        requires
            self.vars.wf(),
            tree.fits(source@),
            node < tree.len(),
        ensures
            opt_value(r) == store_src(*self, *lay, this, *tree, source@, node as int),
    {
        if tree.kind_is(node, "pointer_expression") {
            let arg = match pointer_arg(tree, node) {
                Some(c) => c,
                None => {
                    return None;
                },
            };
            if !op_is(source, tree, node, "&") {
                return None;
            }
            return match self.addr_of_field_path(lay, this, source, tree, arg) {
                Some(p) => Some(FieldValue::Address(p)),
                None => match self.vars.resolve_lvalue_var(source, tree, arg) {
                    Some(v) => Some(FieldValue::Var(v)),
                    None => None,
                },
            };
        }
        let found = if tree.kind_is(node, "identifier") {
            self.vars.resolve_lvalue_var(source, tree, node)
        } else {
            self.vars.resolve_expr_var(source, tree, node)
        };
        match found {
            Some(v) => Some(FieldValue::Var(v)),
            None => None,
        }
    }

    /// What an expression stores into a field: a variable, an address, a
    /// function, a name to settle later, or the value it computes.
    pub fn field_value(
        &self,
        fns: &FnNames,
        lay: &Layouts,
        this: Option<VarId>,
        source: &str,
        tree: &SyntaxTree,
        node: usize,
    ) -> (r: FieldValue)
        requires
            self.vars.wf(),
            tree.fits(source@),
            node < tree.len(),
        ensures
            r@ == stored_value(*self, *fns, *lay, this, *tree, source@, node as int),
    {
        match self.expr_to_store_src(lay, this, source, tree, node) {
            Some(v) => {
                return v;
            },
            None => {},
        }
        if tree.kind_is(node, "identifier") {
            let name = node_text(source, tree, node);
            return match fns.resolve_function_named(name) {
                Some(callee) => FieldValue::Fn(callee),
                None => FieldValue::Pending(name.to_owned()),
            };
        }
        if tree.kind_is(node, "lambda_expression") && self.scope.is_cpp {
            return FieldValue::Lambda;
        }
        if tree.kind_is(node, "call_expression") {
            FieldValue::Call
        } else {
            FieldValue::Flow
        }
    }
}

/// The member path that the callee at `n` loads its function from.
pub open spec fn loaded_callee(
    ty: Typing,
    lay: Layouts,
    t: SyntaxTree,
    source: Seq<char>,
    n: int,
) -> Option<fields::PathView> {
    let m = expr::peeled(t, n);
    if t.spec_kind(m) == "field_expression"@ {
        match fields::path_of(ty, lay, t, source, m) {
            Some(p) if p.ids.len() > 0 => Some(p),
            _ => None,
        }
    } else {
        None
    }
}

impl<'a> Typing<'a> {
    /// A callee reached through members is called through the function
    /// pointer that the last of them holds; any other callee is what it names.
    pub fn callee_load(&self, lay: &Layouts, source: &str, tree: &SyntaxTree, node: usize) -> (r:
        Option<FieldPath>)
        requires
            self.vars.wf(),
            tree.fits(source@),
            node < tree.len(),
        ensures
            match r {
                Some(p) => loaded_callee(*self, *lay, *tree, source@, node as int) == Some(p@),
                None => loaded_callee(*self, *lay, *tree, source@, node as int) is None,
            },
    {
        let m = peel_expression(tree, node);
        if !tree.kind_is(m, "field_expression") {
            return None;
        }
        match self.decompose_field_path(lay, source, tree, m) {
            Some(p) => if p.ids.len() > 0 {
                Some(p)
            } else {
                None
            },
            None => None,
        }
    }
}

} // verus!
