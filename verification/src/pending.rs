//! References to names that were not known yet where they stood, settled when
//! the whole unit is.

use crate::expr::{FnNames, VarNames};
use crate::ir::{FlowConstraint, FnId, ReturnFlow, Span, VarId};
use vstd::prelude::*;

verus! {

/// A reference to a name that may be a function defined later in the unit.
#[derive(Debug, PartialEq, Eq)]
pub enum PendingFnRef {
    /// `base.field = FnName`, whose address goes through a temporary.
    FieldStore { dst: VarId, name: String, span: Span },
    /// `dst = FnName` in an initializer or assignment.
    RhsIdent { dst: VarId, name: String },
    /// `dst = &FnName`.
    AddrOfIdent { dst: VarId, name: String },
    /// `return FnName;` from function `owner`.
    ReturnIdent { owner: FnId, name: String },
    /// `return &FnName;` from function `owner`.
    ReturnAddrOf { owner: FnId, name: String },
}

/// What settling a unit's references adds to.
pub struct FlowState {
    pub flows: Vec<FlowConstraint>,
    pub returns: Vec<(FnId, ReturnFlow)>,
    /// The temporaries made so far, with the places they stand for.
    pub temps: Vec<(VarId, Span)>,
    /// The variable that the next temporary gets.
    pub next_var: u32,
}

/// What one reference adds.
pub struct Added {
    pub flows: Seq<FlowConstraint>,
    pub returns: Seq<(FnId, ReturnFlow)>,
    pub temps: Seq<(VarId, Span)>,
}

pub open spec fn nothing() -> Added {
    Added { flows: seq![], returns: seq![], temps: seq![] }
}

pub open spec fn flow(f: FlowConstraint) -> Added {
    Added { flows: seq![f], returns: seq![], temps: seq![] }
}

pub open spec fn handed_out(owner: FnId, r: ReturnFlow) -> Added {
    Added { flows: seq![], returns: seq![(owner, r)], temps: seq![] }
}

/// What settling one reference adds, where the next temporary is `next`. A
/// function is preferred to a variable; what is neither stays unsettled.
pub open spec fn settled(v: VarNames, f: FnNames, item: PendingFnRef, next: nat) -> Added {
    match item {
        PendingFnRef::FieldStore { dst, name, span } => match f.spec_named(name@) {
            Some(callee) => {
                let tmp = VarId(next as u32);
                Added {
                    flows: seq![
                        FlowConstraint::AddrOfFn { dst: tmp, callee },
                        FlowConstraint::Store { dst, src: tmp },
                    ],
                    returns: seq![],
                    temps: seq![(tmp, span)],
                }
            },
            None => nothing(),
        },
        PendingFnRef::RhsIdent { dst, name } => match (f.spec_named(name@), v.spec_var(name@)) {
            (Some(callee), _) => flow(FlowConstraint::AddrOfFn { dst, callee }),
            (None, Some(src)) => flow(FlowConstraint::Copy { dst, src }),
            (None, None) => nothing(),
        },
        PendingFnRef::AddrOfIdent { dst, name } => match (f.spec_named(name@), v.spec_var(name@)) {
            (Some(callee), _) => flow(FlowConstraint::AddrOfFn { dst, callee }),
            (None, Some(src)) => flow(FlowConstraint::AddrOfVar { dst, src }),
            (None, None) => nothing(),
        },
        PendingFnRef::ReturnIdent { owner, name } => match (
            f.spec_named(name@),
            v.spec_var(name@),
        ) {
            (Some(callee), _) => handed_out(owner, ReturnFlow::AddrOfFn { callee }),
            (None, Some(src)) => handed_out(owner, ReturnFlow::Copy { src }),
            (None, None) => nothing(),
        },
        PendingFnRef::ReturnAddrOf { owner, name } => match (
            f.spec_named(name@),
            v.spec_var(name@),
        ) {
            (Some(callee), _) => handed_out(owner, ReturnFlow::AddrOfFn { callee }),
            (None, Some(src)) => handed_out(owner, ReturnFlow::AddrOfVar { src }),
            (None, None) => nothing(),
        },
    }
}

/// What settling the references in turn adds.
pub open spec fn all_settled(v: VarNames, f: FnNames, items: Seq<PendingFnRef>, next: nat) -> Added
    decreases items.len(),
{
    if items.len() == 0 {
        nothing()
    } else {
        let before = all_settled(v, f, items.drop_last(), next);
        let own = settled(v, f, items.last(), next + before.temps.len());
        Added {
            flows: before.flows + own.flows,
            returns: before.returns + own.returns,
            temps: before.temps + own.temps,
        }
    }
}

impl FlowState {
    /// `self` is `before` with `a` added.
    pub open spec fn is_with(&self, before: &FlowState, a: Added) -> bool {
        &&& self.flows@ == before.flows@ + a.flows
        &&& self.returns@ == before.returns@ + a.returns
        &&& self.temps@ == before.temps@ + a.temps
        &&& self.next_var == before.next_var + a.temps.len()
    }

    /// Settle one reference against the names of the whole unit.
    pub fn settle(&mut self, vars: &VarNames, fns: &FnNames, item: &PendingFnRef)
        requires
            vars.wf(),
            old(self).next_var < u32::MAX,
        ensures
            final(self).is_with(
                old(self),
                settled(*vars, *fns, *item, old(self).next_var as nat),
            ),
    {
        let ghost before = *self;
        match item {
            PendingFnRef::FieldStore { dst, name, span } => {
                match fns.resolve_function_named(name.as_str()) {
                    Some(callee) => {
                        let tmp = VarId(self.next_var);
                        self.next_var = self.next_var + 1;
                        self.temps.push((tmp, *span));
                        self.flows.push(FlowConstraint::AddrOfFn { dst: tmp, callee });
                        self.flows.push(FlowConstraint::Store { dst: *dst, src: tmp });
                    },
                    None => {},
                }
            },
            PendingFnRef::RhsIdent { dst, name } => {
                match fns.resolve_function_named(name.as_str()) {
                    Some(callee) => {
                        self.flows.push(FlowConstraint::AddrOfFn { dst: *dst, callee });
                    },
                    None => {
                        match vars.lookup_var(name.as_str()) {
                            Some(src) => {
                                self.flows.push(FlowConstraint::Copy { dst: *dst, src });
                            },
                            None => {},
                        }
                    },
                }
            },
            PendingFnRef::AddrOfIdent { dst, name } => {
                match fns.resolve_function_named(name.as_str()) {
                    Some(callee) => {
                        self.flows.push(FlowConstraint::AddrOfFn { dst: *dst, callee });
                    },
                    None => {
                        match vars.lookup_var(name.as_str()) {
                            Some(src) => {
                                self.flows.push(FlowConstraint::AddrOfVar { dst: *dst, src });
                            },
                            None => {},
                        }
                    },
                }
            },
            PendingFnRef::ReturnIdent { owner, name } => {
                match fns.resolve_function_named(name.as_str()) {
                    Some(callee) => {
                        self.returns.push((*owner, ReturnFlow::AddrOfFn { callee }));
                    },
                    None => {
                        match vars.lookup_var(name.as_str()) {
                            Some(src) => {
                                self.returns.push((*owner, ReturnFlow::Copy { src }));
                            },
                            None => {},
                        }
                    },
                }
            },
            PendingFnRef::ReturnAddrOf { owner, name } => {
                match fns.resolve_function_named(name.as_str()) {
                    Some(callee) => {
                        self.returns.push((*owner, ReturnFlow::AddrOfFn { callee }));
                    },
                    None => {
                        match vars.lookup_var(name.as_str()) {
                            Some(src) => {
                                self.returns.push((*owner, ReturnFlow::AddrOfVar { src }));
                            },
                            None => {},
                        }
                    },
                }
            },
        }
        proof {
            let a = settled(*vars, *fns, *item, before.next_var as nat);
            assert(self.flows@ =~= before.flows@ + a.flows);
            assert(self.returns@ =~= before.returns@ + a.returns);
            assert(self.temps@ =~= before.temps@ + a.temps);
        }
    }

    /// Second-chance resolution for references recorded while lowering: the
    /// whole unit's names are known now, so definitions that appear after
    /// their use are visible. The result gives, for each reference, the range
    /// of the flows it added, which belongs to whatever recorded it.
    pub fn resolve_pending_fn_refs(
        &mut self,
        vars: &VarNames,
        fns: &FnNames,
        pending: &Vec<PendingFnRef>,
    ) -> (ranges: Vec<(usize, usize)>)
        requires
            vars.wf(),
            old(self).next_var + pending@.len() <= u32::MAX,
        ensures
            final(self).is_with(
                old(self),
                all_settled(*vars, *fns, pending@, old(self).next_var as nat),
            ),
            ranges@.len() == pending@.len(),
            forall|i: int|
                0 <= i < pending@.len() ==> (#[trigger] ranges@[i]).0 == old(self).flows@.len()
                    + all_settled(
                    *vars,
                    *fns,
                    pending@.take(i),
                    old(self).next_var as nat,
                ).flows.len() && ranges@[i].1 == old(self).flows@.len() + all_settled(
                    *vars,
                    *fns,
                    pending@.take(i + 1),
                    old(self).next_var as nat,
                ).flows.len(),
    {
        let ghost first = *self;
        let ghost next = self.next_var as nat;
        let mut ranges: Vec<(usize, usize)> = Vec::new();
        let mut k: usize = 0;
        proof {
            assert(pending@.take(0) =~= seq![]);
            assert(first.flows@ + nothing().flows =~= first.flows@);
            assert(first.returns@ + nothing().returns =~= first.returns@);
            assert(first.temps@ + nothing().temps =~= first.temps@);
        }
        while k < pending.len()
            invariant
                vars.wf(),
                k <= pending@.len(),
                next == first.next_var,
                first.next_var + pending@.len() <= u32::MAX,
                self.is_with(&first, all_settled(*vars, *fns, pending@.take(k as int), next)),
                all_settled(*vars, *fns, pending@.take(k as int), next).temps.len() <= k,
                ranges@.len() == k,
                forall|i: int|
                    0 <= i < k ==> (#[trigger] ranges@[i]).0 == first.flows@.len() + all_settled(
                        *vars,
                        *fns,
                        pending@.take(i),
                        next,
                    ).flows.len() && ranges@[i].1 == first.flows@.len() + all_settled(
                        *vars,
                        *fns,
                        pending@.take(i + 1),
                        next,
                    ).flows.len(),
            decreases pending@.len() - k,
        {
            let ghost before = all_settled(*vars, *fns, pending@.take(k as int), next);
            let ghost own = settled(
                *vars,
                *fns,
                pending@[k as int],
                next + before.temps.len(),
            );
            let start = self.flows.len();
            self.settle(vars, fns, &pending[k]);
            let end = self.flows.len();
            ranges.push((start, end));
            proof {
                assert(pending@.take(k + 1).drop_last() =~= pending@.take(k as int));
                assert(pending@.take(k + 1).last() == pending@[k as int]);
                let after = all_settled(*vars, *fns, pending@.take(k + 1), next);
                assert(first.flows@ + before.flows + own.flows =~= first.flows@ + after.flows);
                assert(first.returns@ + before.returns + own.returns =~= first.returns@
                    + after.returns);
                assert(first.temps@ + before.temps + own.temps =~= first.temps@ + after.temps);
            }
            k += 1;
        }
        assert(pending@.take(k as int) =~= pending@);
        ranges
    }
}

} // verus!
