//! The constraints that a value, once it is told what it is, gives rise to.

use vstd::prelude::*;

use crate::expr::{FnNames, VarNames};
use crate::fields;
use crate::fields::{FieldPath, Layouts, PathBase, PathView};
use crate::flows::RhsFlow;
use crate::infer::Typing;
use crate::ir::{FlowConstraint, FnId, Span, VarId};
use crate::pending;
use crate::pending::PendingFnRef;
use crate::stores;
use crate::stores::{Emitted, Emitter, FieldValue, Temp};
use crate::syntax::SyntaxTree;

verus! {

/// What is added at one place and then at the next.
pub open spec fn both(a: Emitted, b: Emitted) -> Emitted {
    Emitted {
        flows: a.flows + b.flows,
        temps: a.temps + b.temps,
        receivers: a.receivers + b.receivers,
    }
}

/// A constraint by itself.
pub open spec fn one(f: FlowConstraint) -> Emitted {
    Emitted { flows: seq![f], temps: Seq::empty(), receivers: Seq::empty() }
}

proof fn lemma_both(first: Emitter, mid: Emitter, last: Emitter, a: Emitted, b: Emitted)
    requires
        mid.is_with(&first, a),
        last.is_with(&mid, b),
    ensures
        last.is_with(&first, both(a, b)),
{
    assert(last.flows@ =~= first.flows@ + (a.flows + b.flows));
    assert(last.temps@ =~= first.temps@ + (a.temps + b.temps));
    assert(last.receivers@ =~= first.receivers@ + (a.receivers + b.receivers));
}

proof fn lemma_nothing(e: Emitter)
    ensures
        e.is_with(&e, stores::nothing_emitted()),
{
    assert(e.flows@ =~= e.flows@ + Seq::<FlowConstraint>::empty());
    assert(e.temps@ =~= e.temps@ + Seq::<Temp>::empty());
    assert(e.receivers@ =~= e.receivers@ + Seq::<(VarId, String)>::empty());
}

/// The variable a member path starts at. The object that an overloaded arrow
/// yields is a separate one, so it gets a variable of its own.
pub open spec fn based(base: PathBase, next: int) -> (Emitted, VarId) {
    match base {
        PathBase::Var(v) => (stores::nothing_emitted(), v),
        PathBase::Receiver(cls) => {
            let v = VarId(next as u32);
            (
                Emitted {
                    flows: Seq::empty(),
                    temps: seq![Temp::Recv(v)],
                    receivers: seq![(v, cls)],
                },
                v,
            )
        },
    }
}

/// The address of the field at the end of a path.
pub open spec fn path_addressed(p: FieldPath, next: int) -> (Emitted, VarId) {
    let (start, base) = based(p.base, next);
    let after = next + start.temps.len();
    (
        both(start, stores::gep_chain(base, after, p.ids@, p.names@, p.ids@.len() as int)),
        stores::chain_end(base, after, p.ids@.len() as int),
    )
}

/// The function pointer that the field at the end of a path holds.
pub open spec fn path_called(p: FieldPath, next: int) -> (Emitted, VarId) {
    let (start, base) = based(p.base, next);
    let (e, end) = stores::load_chain(
        base,
        next + start.temps.len(),
        p.ids@,
        p.names@,
        fields::descs(p.types@),
        p.ids@.len() as int,
    );
    (both(start, e), end)
}

impl Emitter {
    /// A constraint.
    pub fn add(&mut self, f: FlowConstraint)
        ensures
            final(self).is_with(old(self), one(f)),
    {
        self.flows.push(f);
        assert(self.flows@ =~= old(self).flows@ + seq![f]);
        assert(self.temps@ =~= old(self).temps@ + Seq::<Temp>::empty());
        assert(self.receivers@ =~= old(self).receivers@ + Seq::<(VarId, String)>::empty());
    }

    /// A temporary for a value on its way.
    pub fn alloc_ret_temp(&mut self) -> (r: VarId)
        requires
            old(self).room(1),
        ensures
            r == VarId(old(self).next_var),
            final(self).is_with(
                old(self),
                (Emitted {
                    flows: Seq::empty(),
                    temps: seq![Temp::Ret(r)],
                    receivers: Seq::empty(),
                }),
            ),
    {
        let r = VarId(self.next_var);
        self.next_var = self.next_var + 1;
        self.temps.push(Temp::Ret(r));
        assert(self.flows@ =~= old(self).flows@ + Seq::<FlowConstraint>::empty());
        assert(self.temps@ =~= old(self).temps@ + seq![Temp::Ret(r)]);
        assert(self.receivers@ =~= old(self).receivers@ + Seq::<(VarId, String)>::empty());
        r
    }

    /// The variable a member path starts at.
    pub fn alloc_recv_temp(&mut self, base: &PathBase) -> (r: VarId)
        requires
            old(self).room(1),
        ensures
            r == based(*base, old(self).next_var as int).1,
            final(self).is_with(old(self), based(*base, old(self).next_var as int).0),
    {
        match base {
            PathBase::Var(v) => {
                proof {
                    lemma_nothing(*self);
                }
                *v
            },
            PathBase::Receiver(cls) => {
                let r = VarId(self.next_var);
                self.next_var = self.next_var + 1;
                self.temps.push(Temp::Recv(r));
                self.receivers.push((r, cls.clone()));
                assert(self.flows@ =~= old(self).flows@ + Seq::<FlowConstraint>::empty());
                assert(self.temps@ =~= old(self).temps@ + seq![Temp::Recv(r)]);
                assert(self.receivers@ =~= old(self).receivers@ + seq![(r, *cls)]);
                r
            },
        }
    }

    /// The address of the field at the end of a path.
    pub fn emit_path_address(&mut self, p: &FieldPath) -> (r: VarId)
        requires
            p.ids@.len() == p.names@.len(),
            old(self).room((p.ids@.len() + 1) as int),
        ensures
            r == path_addressed(*p, old(self).next_var as int).1,
            final(self).is_with(old(self), path_addressed(*p, old(self).next_var as int).0),
    {
        let ghost first = *self;
        let base = self.alloc_recv_temp(&p.base);
        let ghost mid = *self;
        let r = self.emit_gep_chain(base, &p.ids, &p.names);
        proof {
            lemma_both(
                first,
                mid,
                *self,
                based(p.base, first.next_var as int).0,
                stores::gep_chain(
                    base,
                    mid.next_var as int,
                    p.ids@,
                    p.names@,
                    p.ids@.len() as int,
                ),
            );
        }
        r
    }

    /// The function pointer that the field at the end of a path holds.
    pub fn emit_path_call(&mut self, p: &FieldPath) -> (r: VarId)
        requires
            p.ids@.len() == p.names@.len(),
            p.ids@.len() == p.types@.len(),
            p.ids@.len() > 0,
            old(self).room((2 * p.ids@.len() + 1) as int),
        ensures
            r == path_called(*p, old(self).next_var as int).1,
            final(self).is_with(old(self), path_called(*p, old(self).next_var as int).0),
    {
        let ghost first = *self;
        let base = self.alloc_recv_temp(&p.base);
        let ghost mid = *self;
        let found = self.emit_field_fn_ptr_load(base, &p.ids, &p.names, &p.types);
        proof {
            lemma_both(
                first,
                mid,
                *self,
                based(p.base, first.next_var as int).0,
                stores::load_chain(
                    base,
                    mid.next_var as int,
                    p.ids@,
                    p.names@,
                    fields::descs(p.types@),
                    p.ids@.len() as int,
                ).0,
            );
        }
        match found {
            Some(r) => r,
            None => base,
        }
    }
}

/// What is left to do for a value.
#[derive(Debug, Clone, Copy, PartialEq, Eq, Structural)]
pub enum ValueRest {
    /// The value has reached its destination.
    Flowed,
    /// Nothing flows, or not before the unit's end.
    Unflowed,
    /// The function of a lambda is the value.
    Lambda(usize),
    /// The call's result is the value, by the callee's name.
    Call(usize),
    /// The call's result is the value, by the variable it goes through.
    CallIndirect(usize),
    /// An allocated object is the value.
    New(usize),
}

/// What a value adds on its way into `dst`: `path` is the member path that its
/// text stands for, if it is one.
pub open spec fn value_emitted(
    flow: RhsFlow,
    path: Option<FieldPath>,
    dst: VarId,
    caller: Option<FnId>,
    next: int,
) -> Emitted
    decreases flow,
{
    match flow {
        RhsFlow::Function(callee) => one(FlowConstraint::AddrOfFn { dst, callee }),
        RhsFlow::Copy(src) => one(FlowConstraint::Copy { dst, src }),
        RhsFlow::Load(src) => one(FlowConstraint::Load { dst, src }),
        RhsFlow::Address(src) => one(FlowConstraint::AddrOfVar { dst, src }),
        RhsFlow::Text(value) => one(FlowConstraint::StringConst { dst, value }),
        RhsFlow::Call(_, callee_name) => one(
            FlowConstraint::CallReturn { dst, callee_name, caller },
        ),
        RhsFlow::MemberOrLater(_) => match path {
            Some(p) => {
                let (e, src) = path_addressed(p, next);
                both(e, one(FlowConstraint::Load { dst, src }))
            },
            None => stores::nothing_emitted(),
        },
        RhsFlow::Member(_) => match path {
            Some(p) if p.ids@.len() > 0 => {
                let (e, src) = path_addressed(p, next);
                both(e, one(FlowConstraint::Load { dst, src }))
            },
            _ => stores::nothing_emitted(),
        },
        RhsFlow::MemberAddress(_, otherwise) => match path {
            Some(p) => {
                let (e, src) = path_addressed(p, next);
                both(e, one(FlowConstraint::Copy { dst, src }))
            },
            None => value_emitted(*otherwise, None, dst, caller, next),
        },
        _ => stores::nothing_emitted(),
    }
}

/// The name that a value waits for.
pub open spec fn value_pending(flow: RhsFlow, path: Option<FieldPath>, dst: VarId) -> Seq<
    PendingFnRef,
>
    decreases flow,
{
    match flow {
        RhsFlow::MemberOrLater(name) => if path is None {
            seq![PendingFnRef::RhsIdent { dst, name }]
        } else {
            Seq::empty()
        },
        RhsFlow::AddressLater(name) => seq![PendingFnRef::AddrOfIdent { dst, name }],
        RhsFlow::MemberAddress(_, otherwise) => if path is None {
            value_pending(*otherwise, None, dst)
        } else {
            Seq::empty()
        },
        _ => Seq::empty(),
    }
}

pub open spec fn value_rest(flow: RhsFlow, path: Option<FieldPath>) -> ValueRest
    decreases flow,
{
    match flow {
        RhsFlow::Lambda(n) => ValueRest::Lambda(n),
        RhsFlow::Call(n, _) => ValueRest::Call(n),
        RhsFlow::CallIndirect(n) => ValueRest::CallIndirect(n),
        RhsFlow::New(n) => ValueRest::New(n),
        RhsFlow::Nothing | RhsFlow::AddressLater(_) => ValueRest::Unflowed,
        RhsFlow::MemberOrLater(_) => if path is Some {
            ValueRest::Flowed
        } else {
            ValueRest::Unflowed
        },
        RhsFlow::Member(_) => if path matches Some(p) && p.ids@.len() > 0 {
            ValueRest::Flowed
        } else {
            ValueRest::Unflowed
        },
        RhsFlow::MemberAddress(_, otherwise) => if path is Some {
            ValueRest::Flowed
        } else {
            value_rest(*otherwise, None)
        },
        _ => ValueRest::Flowed,
    }
}

impl Emitter {
    fn load_path(&mut self, p: &FieldPath, dst: VarId, copies: bool)
        requires
            p.ids@.len() == p.names@.len(),
            old(self).room((p.ids@.len() + 1) as int),
        ensures
            ({
                let (e, src) = path_addressed(*p, old(self).next_var as int);
                final(self).is_with(
                    old(self),
                    both(
                        e,
                        one(
                            if copies {
                                FlowConstraint::Copy { dst, src }
                            } else {
                                FlowConstraint::Load { dst, src }
                            },
                        ),
                    ),
                )
            }),
    {
        let ghost first = *self;
        let src = self.emit_path_address(p);
        let ghost mid = *self;
        let f = if copies {
            FlowConstraint::Copy { dst, src }
        } else {
            FlowConstraint::Load { dst, src }
        };
        let ghost added = f;
        self.add(f);
        proof {
            lemma_both(
                first,
                mid,
                *self,
                path_addressed(*p, first.next_var as int).0,
                one(added),
            );
        }
    }

    /// Let a value flow into `dst`. A name that is no function yet waits for
    /// the end of the unit.
    pub fn emit_value(
        &mut self,
        pending: &mut Vec<PendingFnRef>,
        flow: RhsFlow,
        path: Option<&FieldPath>,
        dst: VarId,
        caller: Option<FnId>,
    ) -> (r: ValueRest)
        requires
            path matches Some(p) ==> p.ids@.len() == p.names@.len() && old(self).room(
                (p.ids@.len() + 1) as int,
            ),
        ensures
            ({
                let at = match path {
                    Some(p) => Some(*p),
                    None => None,
                };
                &&& r == value_rest(flow, at)
                &&& final(self).is_with(
                    old(self),
                    value_emitted(flow, at, dst, caller, old(self).next_var as int),
                )
                &&& final(pending)@ == old(pending)@ + value_pending(flow, at, dst)
            }),
        decreases flow,
    {
        let ghost waiting = pending@;
        proof {
            lemma_nothing(*self);
            assert(waiting + Seq::<PendingFnRef>::empty() =~= waiting);
        }
        match flow {
            RhsFlow::Function(callee) => {
                self.add(FlowConstraint::AddrOfFn { dst, callee });
                ValueRest::Flowed
            },
            RhsFlow::Copy(src) => {
                self.add(FlowConstraint::Copy { dst, src });
                ValueRest::Flowed
            },
            RhsFlow::Load(src) => {
                self.add(FlowConstraint::Load { dst, src });
                ValueRest::Flowed
            },
            RhsFlow::Address(src) => {
                self.add(FlowConstraint::AddrOfVar { dst, src });
                ValueRest::Flowed
            },
            RhsFlow::Text(value) => {
                self.add(FlowConstraint::StringConst { dst, value });
                ValueRest::Flowed
            },
            RhsFlow::Call(n, callee_name) => {
                self.add(FlowConstraint::CallReturn { dst, callee_name, caller });
                ValueRest::Call(n)
            },
            RhsFlow::MemberOrLater(name) => match path {
                Some(p) => {
                    self.load_path(p, dst, false);
                    ValueRest::Flowed
                },
                None => {
                    pending.push(PendingFnRef::RhsIdent { dst, name });
                    assert(pending@ =~= waiting + seq![PendingFnRef::RhsIdent { dst, name }]);
                    ValueRest::Unflowed
                },
            },
            RhsFlow::Member(_) => match path {
                Some(p) => {
                    if p.ids.len() > 0 {
                        self.load_path(p, dst, false);
                        ValueRest::Flowed
                    } else {
                        ValueRest::Unflowed
                    }
                },
                None => ValueRest::Unflowed,
            },
            RhsFlow::MemberAddress(_, otherwise) => match path {
                Some(p) => {
                    self.load_path(p, dst, true);
                    ValueRest::Flowed
                },
                None => {
                    let rest = self.emit_value(pending, *otherwise, None, dst, caller);
                    rest
                },
            },
            RhsFlow::AddressLater(name) => {
                pending.push(PendingFnRef::AddrOfIdent { dst, name });
                assert(pending@ =~= waiting + seq![PendingFnRef::AddrOfIdent { dst, name }]);
                ValueRest::Unflowed
            },
            RhsFlow::Lambda(n) => ValueRest::Lambda(n),
            RhsFlow::CallIndirect(n) => ValueRest::CallIndirect(n),
            RhsFlow::New(n) => ValueRest::New(n),
            RhsFlow::Nothing => ValueRest::Unflowed,
        }
    }
}

/// The node that a value's member path is read from.
pub open spec fn member_node(flow: RhsFlow) -> Option<usize> {
    match flow {
        RhsFlow::MemberAddress(arg, _) => Some(arg),
        RhsFlow::Member(n) => Some(n),
        _ => None,
    }
}

/// The member path that a value's text stands for, if it is one.
pub open spec fn path_meant(
    ty: Typing,
    lay: Layouts,
    this: Option<VarId>,
    t: SyntaxTree,
    source: Seq<char>,
    flow: RhsFlow,
) -> Option<PathView> {
    match flow {
        RhsFlow::MemberOrLater(name) => fields::this_member(ty, lay, this, name@),
        RhsFlow::MemberAddress(arg, _) => fields::address_path(
            ty,
            lay,
            this,
            t,
            source,
            arg as int,
        ),
        RhsFlow::Member(n) => fields::path_of(ty, lay, t, source, n as int),
        _ => None,
    }
}

impl<'a> Typing<'a> {
    /// The member path that a value's text stands for, if it is one.
    pub fn value_path(
        &self,
        lay: &Layouts,
        this: Option<VarId>,
        source: &str,
        tree: &SyntaxTree,
        flow: &RhsFlow,
    ) -> (r: Option<FieldPath>)
        requires
            self.vars.wf(),
            tree.fits(source@),
            member_node(*flow) matches Some(n) ==> n < tree.len(),
        ensures
            match r {
                Some(p) => path_meant(*self, *lay, this, *tree, source@, *flow) == Some(p@),
                None => path_meant(*self, *lay, this, *tree, source@, *flow) is None,
            },
    {
        match flow {
            RhsFlow::MemberOrLater(name) => self.resolve_implicit_this_member(
                lay,
                this,
                name.as_str(),
            ),
            RhsFlow::MemberAddress(arg, _) => self.addr_of_field_path(
                lay,
                this,
                source,
                tree,
                *arg,
            ),
            RhsFlow::Member(n) => self.decompose_field_path(lay, source, tree, *n),
            _ => None,
        }
    }
}

/// What is left to do for a store into a field.
#[derive(Debug, Clone, Copy, PartialEq, Eq, Structural)]
pub enum StoreRest {
    /// The path names no field.
    Nothing,
    Stored,
    /// The name waits for the end of the unit.
    Waiting,
    /// The function of a lambda goes through `dst`.
    Lambda { dst: VarId },
    /// A call's result goes into `temp`, and from there through `dst`.
    Call { dst: VarId, temp: VarId },
    /// A value flows into `temp`, and where it does, from there through `dst`.
    Value { dst: VarId, temp: VarId },
}

pub open spec fn temp_for(v: VarId) -> Emitted {
    Emitted { flows: Seq::empty(), temps: seq![Temp::Ret(v)], receivers: Seq::empty() }
}

/// What a store into the field at the end of `path` adds.
pub open spec fn store_emitted(path: FieldPath, value: FieldValue, next: int) -> Emitted {
    let (e, dst) = path_addressed(path, next);
    let after = next + e.temps.len();
    if path.ids@.len() == 0 {
        stores::nothing_emitted()
    } else {
        match value {
            FieldValue::Var(src) => both(e, one(FlowConstraint::Store { dst, src })),
            FieldValue::Address(p) => {
                let (more, src) = path_addressed(p, after);
                both(both(e, more), one(FlowConstraint::Store { dst, src }))
            },
            FieldValue::Fn(callee) => both(e, stores::fn_stored(dst, callee, VarId(after as u32))),
            FieldValue::Call | FieldValue::Flow => both(e, temp_for(VarId(after as u32))),
            _ => e,
        }
    }
}

pub open spec fn store_rest(path: FieldPath, value: FieldValue, next: int) -> StoreRest {
    let (e, dst) = path_addressed(path, next);
    let temp = VarId((next + e.temps.len()) as u32);
    if path.ids@.len() == 0 {
        StoreRest::Nothing
    } else {
        match value {
            FieldValue::Pending(_) => StoreRest::Waiting,
            FieldValue::Lambda => StoreRest::Lambda { dst },
            FieldValue::Call => StoreRest::Call { dst, temp },
            FieldValue::Flow => StoreRest::Value { dst, temp },
            _ => StoreRest::Stored,
        }
    }
}

/// The temporaries a store into a field takes at most.
pub open spec fn store_room(path: FieldPath, value: FieldValue) -> int {
    let more: nat = match value {
        FieldValue::Address(p) => p.ids@.len() + 1,
        _ => 0,
    };
    (path.ids@.len() + 2 + more) as int
}

proof fn lemma_path_temps(p: FieldPath, next: int)
    ensures
        path_addressed(p, next).0.temps.len() <= p.ids@.len() + 1,
{
    let (start, base) = based(p.base, next);
    stores::lemma_chain_temps(
        base,
        next + start.temps.len(),
        p.ids@,
        p.names@,
        p.ids@.len() as int,
    );
}

impl Emitter {
    /// Store a value into the field at the end of a path. A function's name
    /// that nothing bears yet waits for the end of the unit.
    pub fn emit_field_store(
        &mut self,
        pending: &mut Vec<PendingFnRef>,
        path: &FieldPath,
        value: FieldValue,
        span: Span,
    ) -> (r: StoreRest)
        requires
            path.ids@.len() == path.names@.len(),
            value matches FieldValue::Address(p) ==> p.ids@.len() == p.names@.len(),
            old(self).room(store_room(*path, value)),
        ensures
            r == store_rest(*path, value, old(self).next_var as int),
            final(self).is_with(
                old(self),
                store_emitted(*path, value, old(self).next_var as int),
            ),
            final(pending)@ == match value {
                FieldValue::Pending(name) if path.ids@.len() > 0 => old(pending)@.push(
                    PendingFnRef::FieldStore {
                        dst: path_addressed(*path, old(self).next_var as int).1,
                        name,
                        span,
                    },
                ),
                _ => old(pending)@,
            },
    {
        if path.ids.len() == 0 {
            proof {
                lemma_nothing(*self);
            }
            return StoreRest::Nothing;
        }
        let ghost first = *self;
        let ghost next = self.next_var as int;
        let dst = self.emit_path_address(path);
        let ghost mid = *self;
        let ghost e = path_addressed(*path, next).0;
        proof {
            lemma_path_temps(*path, next);
        }
        match value {
            FieldValue::Var(src) => {
                self.store_var(dst, src);
                proof {
                    lemma_both(first, mid, *self, e, one(FlowConstraint::Store { dst, src }));
                }
                StoreRest::Stored
            },
            FieldValue::Address(p) => {
                let src = self.emit_path_address(&p);
                let ghost more = path_addressed(p, mid.next_var as int).0;
                let ghost then_at = *self;
                self.store_var(dst, src);
                proof {
                    lemma_both(first, mid, then_at, e, more);
                    lemma_both(
                        first,
                        then_at,
                        *self,
                        both(e, more),
                        one(FlowConstraint::Store { dst, src }),
                    );
                }
                StoreRest::Stored
            },
            FieldValue::Fn(callee) => {
                self.store_fn(dst, callee);
                proof {
                    lemma_both(
                        first,
                        mid,
                        *self,
                        e,
                        stores::fn_stored(dst, callee, VarId(mid.next_var)),
                    );
                }
                StoreRest::Stored
            },
            FieldValue::Pending(name) => {
                pending.push(PendingFnRef::FieldStore { dst, name, span });
                StoreRest::Waiting
            },
            FieldValue::Lambda => StoreRest::Lambda { dst },
            FieldValue::Call => {
                let temp = self.alloc_ret_temp();
                proof {
                    lemma_both(first, mid, *self, e, temp_for(temp));
                }
                StoreRest::Call { dst, temp }
            },
            FieldValue::Flow => {
                let temp = self.alloc_ret_temp();
                proof {
                    lemma_both(first, mid, *self, e, temp_for(temp));
                }
                StoreRest::Value { dst, temp }
            },
        }
    }
}

/// Where a function is defined does not matter. A value, an address or a field
/// store that names a function adds the same constraints where the function is
/// known already as where the name waits for a definition further down.
pub proof fn law_later_definitions_count_as_earlier_ones(
    vars: VarNames,
    fns: FnNames,
    name: String,
    callee: FnId,
    dst: VarId,
    span: Span,
    caller: Option<FnId>,
    next: u32,
)
    requires
        fns.spec_in_scope(name@) == Some(callee),
    ensures
        value_pending(RhsFlow::MemberOrLater(name), None, dst) == seq![
            PendingFnRef::RhsIdent { dst, name },
        ],
        pending::settled(vars, fns, PendingFnRef::RhsIdent { dst, name }, next as nat).flows
            == value_emitted(RhsFlow::Function(callee), None, dst, caller, next as int).flows,
        value_pending(RhsFlow::AddressLater(name), None, dst) == seq![
            PendingFnRef::AddrOfIdent { dst, name },
        ],
        pending::settled(vars, fns, PendingFnRef::AddrOfIdent { dst, name }, next as nat).flows
            == value_emitted(RhsFlow::Function(callee), None, dst, caller, next as int).flows,
        pending::settled(
            vars,
            fns,
            PendingFnRef::FieldStore { dst, name, span },
            next as nat,
        ).flows == stores::fn_stored(dst, callee, VarId(next)).flows,
{
}

} // verus!
