//! Calls from the expression to the sites that stand for them: what a call
//! calls is settled first, its arguments are read next, and the sites are
//! recorded last.

use vstd::prelude::*;

use crate::calls;
use crate::calls::{
    choose_callees, emit_free_call, emit_member_targets, emit_unresolved_site, CallArgs, CallPlace,
    CallTable, FreeCall, NamedCallee,
};
use crate::expr;
use crate::expr::FnNames;
use crate::flows;
use crate::flows::{field_callee_text, resolve_callee, Callee, CalleeView};
use crate::infer::Typing;
use crate::ir::{FnId, VarId};
use crate::methods;
use crate::methods::{MethodKind, MethodView};
use crate::overload;
use crate::overload::{Candidate, TypeShape};
use crate::routes;
use crate::routes::{settle_callee, Dispatch, Route, RouteView};
use crate::syntax::SyntaxTree;

verus! {

/// What a call calls, as far as it is known before the arguments are read.
#[derive(Debug, PartialEq, Eq)]
pub enum CallTarget {
    /// There is no call here.
    Nothing,
    /// A member of a class that declares none of that name.
    Unresolved { name: String, cls: String },
    /// One of a class's members.
    Member { cls: String, kind: MethodKind, targets: Vec<FnId> },
    /// What the callee names, or the function a variable holds.
    Free { func: usize, callee: Callee },
}

pub enum TargetView {
    Nothing,
    Unresolved { name: Seq<char>, cls: Seq<char> },
    Member { cls: Seq<char>, kind: MethodView, targets: Seq<FnId> },
    Free { func: usize, callee: CalleeView },
}

impl CallTarget {
    pub open spec fn view(&self) -> TargetView {
        match self {
            CallTarget::Nothing => TargetView::Nothing,
            CallTarget::Unresolved { name, cls } => TargetView::Unresolved {
                name: name@,
                cls: cls@,
            },
            CallTarget::Member { cls, kind, targets } => TargetView::Member {
                cls: cls@,
                kind: kind@,
                targets: targets@,
            },
            CallTarget::Free { func, callee } => TargetView::Free { func: *func, callee: callee@ },
        }
    }
}

/// What the call at `n` calls.
pub open spec fn target_of(
    ty: Typing,
    d: Dispatch,
    fns: FnNames,
    t: SyntaxTree,
    source: Seq<char>,
    n: int,
    loaded: Option<VarId>,
) -> TargetView {
    match routes::route_of(ty, d, t, source, n) {
        RouteView::Nothing => TargetView::Nothing,
        RouteView::Unresolved { name, cls } => TargetView::Unresolved { name, cls },
        RouteView::Member { cls, kind, targets } => TargetView::Member { cls, kind, targets },
        RouteView::Free { func } => {
            let callee = match loaded {
                Some(v) => flows::callee_named(
                    flows::access_text(t, source, expr::peeled(t, func as int)),
                    false,
                    Some(v),
                ),
                None => flows::callee_of(*ty.vars, fns, t, source, func as int),
            };
            match routes::settled_callee(fns, callee) {
                Some(c) => TargetView::Free { func, callee: c },
                None => TargetView::Nothing,
            }
        },
    }
}

impl<'a> Typing<'a> {
    /// What a call calls. `loaded` is the variable that holds the callee where
    /// the callee is a member that a function pointer is loaded from.
    pub fn call_target(
        &self,
        d: &Dispatch,
        fns: &FnNames,
        source: &str,
        tree: &SyntaxTree,
        call: usize,
        loaded: Option<VarId>,
    ) -> (r: CallTarget)
        requires
            self.vars.wf(),
            tree.fits(source@),
            call < tree.len(),
            tree.fielded(call as int, "function"@) matches Some(f) ==> flows::names_operand(
                *tree,
                f as int,
            ),
        ensures
            r@ == target_of(*self, *d, *fns, *tree, source@, call as int, loaded),
    {
        let route = self.call_route(d, source, tree, call);
        proof {
            tree.lemma_fielded(call as int, "function"@);
        }
        match route {
            Route::Nothing => CallTarget::Nothing,
            Route::Unresolved { name, cls } => CallTarget::Unresolved { name, cls },
            Route::Member { cls, kind, targets } => CallTarget::Member { cls, kind, targets },
            Route::Free { func } => {
                let callee = match loaded {
                    Some(v) => Callee {
                        name: field_callee_text(source, tree, func),
                        is_direct: false,
                        var: Some(v),
                    },
                    None => resolve_callee(self.vars, fns, source, tree, func),
                };
                match settle_callee(fns, callee) {
                    Some(callee) => CallTarget::Free { func, callee },
                    None => CallTarget::Nothing,
                }
            },
        }
    }
}

/// The functions a call may mean, with what resolution asks of each.
pub struct Callees<'a> {
    pub ids: &'a Vec<FnId>,
    pub names: &'a Vec<String>,
    pub shapes: &'a Vec<Candidate>,
    pub named: &'a Vec<NamedCallee>,
    /// Whether the function takes a `this`.
    pub members: &'a Vec<bool>,
}

impl<'a> Callees<'a> {
    pub open spec fn wf(&self) -> bool {
        &&& self.names@.len() == self.ids@.len()
        &&& self.shapes@.len() == self.ids@.len()
        &&& self.named@.len() == self.ids@.len()
        &&& self.members@.len() == self.ids@.len()
        &&& forall|k: int|
            0 <= k < self.named@.len() ==> (#[trigger] self.named@[k]).signature.params@.len()
                <= u32::MAX
    }
}

/// Which of the functions a call by name means. C takes the one the name has
/// in scope; C++ chooses by the arguments, and a callee that a variable holds
/// means none by name.
pub open spec fn means(
    picked: Seq<usize>,
    is_cpp: bool,
    var: Option<VarId>,
    found: Callees<'_>,
    argc: nat,
    args: Seq<TypeShape>,
) -> bool {
    if !is_cpp {
        picked == Seq::new(found.ids@.len(), |k: int| k as usize)
    } else if var is Some {
        picked.len() == 0
    } else {
        let keeps_unknown = argc == 0;
        exists|by_arity: Seq<usize>|
            {
                &&& #[trigger] calls::reached(by_arity, found.shapes@, argc, args, keeps_unknown)
                &&& picked == calls::without_displaced(
                    found.named@,
                    calls::ranked_of(found.shapes@, by_arity, args),
                )
            }
    }
}

/// The sites a call leaves.
pub open spec fn is_recorded(
    before: Seq<calls::SiteView>,
    after: Seq<calls::SiteView>,
    first_id: u32,
    place: CallPlace,
    is_cpp: bool,
    target: CallTarget,
    found: Callees<'_>,
    args: CallArgs,
    arg_types: Seq<TypeShape>,
) -> bool {
    match target {
        CallTarget::Nothing => after == before,
        CallTarget::Unresolved { name, cls } => after == before.push(
            calls::unresolved_site(first_id, place, name@, cls@, calls::bound(args@, None)),
        ),
        CallTarget::Member { cls, kind, targets } => if targets@.len() == 0 {
            after == before.push(
                calls::unresolved_site(
                    first_id,
                    place,
                    methods::member_name(kind@, cls@),
                    cls@,
                    calls::bound(args@, None),
                ),
            )
        } else {
            exists|picked: Seq<usize>|
                {
                    &&& #[trigger] calls::reached(
                        picked,
                        found.shapes@,
                        args.argc as nat,
                        arg_types,
                        true,
                    )
                    &&& after == before + calls::member_sites(
                        first_id,
                        place,
                        found.ids@,
                        found.names@.map_values(|n: String| n@),
                        picked,
                        cls@,
                        calls::bound(args@, None),
                    )
                }
        },
        CallTarget::Free { callee, .. } => exists|picked: Seq<usize>|
            {
                &&& #[trigger] means(
                    picked,
                    is_cpp,
                    callee.var,
                    found,
                    args.argc as nat,
                    arg_types,
                )
                &&& after == before + calls::free_sites(
                    first_id,
                    place,
                    (FreeCall {
                        callee_name: callee.name,
                        callee_var: callee.var,
                        is_direct: callee.is_direct,
                        is_cpp,
                    }),
                    picked.map_values(|k: usize| found.ids@[k as int]),
                    picked.map_values(|k: usize| found.members@[k as int]),
                    args@,
                    args.argc as nat,
                )
            },
    }
}

fn positions(n: usize) -> (r: Vec<usize>)
    ensures
        r@ == Seq::new(n as nat, |k: int| k as usize),
{
    let mut out: Vec<usize> = Vec::new();
    let mut k: usize = 0;
    while k < n
        invariant
            k <= n,
            out@ == Seq::new(k as nat, |j: int| j as usize),
        decreases n - k,
    {
        out.push(k);
        k += 1;
        assert(out@ =~= Seq::new(k as nat, |j: int| j as usize));
    }
    out
}

/// The functions a call by name means, as positions.
pub fn meant_callees(
    is_cpp: bool,
    var: Option<VarId>,
    found: &Callees<'_>,
    argc: usize,
    args: &Vec<TypeShape>,
) -> (r: Vec<usize>)
    requires
        found.wf(),
    ensures
        means(r@, is_cpp, var, *found, argc as nat, args@),
        forall|k: int| 0 <= k < r@.len() ==> #[trigger] r@[k] < found.ids@.len(),
        r@.len() <= found.ids@.len(),
{
    if !is_cpp {
        positions(found.ids.len())
    } else if var.is_some() {
        Vec::new()
    } else {
        let (by_arity, chosen) = choose_callees(found.shapes, found.named, argc, args);
        proof {
            calls::lemma_picked_fits(by_arity@, found.shapes@, argc as nat, args@, argc == 0);
            let ranked = calls::ranked_of(found.shapes@, by_arity@, args@);
            ranked.lemma_filter_len(|c: usize| calls::undisplaced(found.named@, ranked, c));
        }
        chosen
    }
}

/// Record the call at one place, once its target is settled, the functions it
/// may mean are looked up and its arguments are read.
pub fn collect_call_at_node(
    table: &mut CallTable,
    place: CallPlace,
    is_cpp: bool,
    target: CallTarget,
    found: &Callees<'_>,
    args: CallArgs,
    arg_types: &Vec<TypeShape>,
)
    requires
        found.wf(),
        target matches CallTarget::Member { targets, .. } ==> found.ids@ == targets@,
        old(table).room((found.ids@.len() + 1) as int),
        args.shiftable(),
    ensures
        is_recorded(
            old(table)@,
            final(table)@,
            old(table).next_id,
            place,
            is_cpp,
            target,
            *found,
            args,
            arg_types@,
        ),
        final(table).next_id == old(table).next_id + (final(table)@.len() - old(table)@.len()),
{
    match target {
        CallTarget::Nothing => {},
        CallTarget::Unresolved { name, cls } => {
            emit_unresolved_site(table, place, name, cls, args);
        },
        CallTarget::Member { cls, kind, targets: _ } => {
            let display = kind.name_on(cls.as_str());
            let picked = emit_member_targets(
                table,
                place,
                &cls,
                display,
                None,
                args,
                arg_types,
                found.ids,
                found.names,
                found.shapes,
            );
        },
        CallTarget::Free { func: _, callee } => {
            let picked = meant_callees(
                is_cpp,
                callee.var,
                found,
                args.argc as usize,
                arg_types,
            );
            let mut chosen: Vec<FnId> = Vec::new();
            let mut members: Vec<bool> = Vec::new();
            let ghost ids = picked@.map_values(|k: usize| found.ids@[k as int]);
            let ghost flags = picked@.map_values(|k: usize| found.members@[k as int]);
            let mut k: usize = 0;
            while k < picked.len()
                invariant
                    found.wf(),
                    k <= picked@.len(),
                    forall|j: int| 0 <= j < picked@.len() ==> #[trigger] picked@[j]
                        < found.ids@.len(),
                    ids == picked@.map_values(|k: usize| found.ids@[k as int]),
                    flags == picked@.map_values(|k: usize| found.members@[k as int]),
                    chosen@ == ids.take(k as int),
                    members@ == flags.take(k as int),
                decreases picked@.len() - k,
            {
                chosen.push(found.ids[picked[k]]);
                members.push(found.members[picked[k]]);
                k += 1;
                assert(chosen@ =~= ids.take(k as int));
                assert(members@ =~= flags.take(k as int));
            }
            assert(chosen@ =~= ids);
            assert(members@ =~= flags);
            let call = FreeCall {
                callee_name: callee.name,
                callee_var: callee.var,
                is_direct: callee.is_direct,
                is_cpp,
            };
            emit_free_call(table, place, call, &chosen, &members, args);
        },
    }
}

/// Every call leaves a site: where nothing that is known can be meant, one
/// that says so.
pub proof fn law_calls_leave_sites(
    before: Seq<calls::SiteView>,
    after: Seq<calls::SiteView>,
    first_id: u32,
    place: CallPlace,
    is_cpp: bool,
    target: CallTarget,
    found: Callees<'_>,
    args: CallArgs,
    arg_types: Seq<TypeShape>,
)
    requires
        found.wf(),
        target matches CallTarget::Member { targets, .. } ==> found.ids@ == targets@,
        target !is Nothing,
        is_recorded(
            before,
            after,
            first_id,
            place,
            is_cpp,
            target,
            found,
            args,
            arg_types,
        ),
    ensures
        after.len() > before.len(),
        after.take(before.len() as int) == before,
{
    if let CallTarget::Member { cls, kind, targets } = target {
        if targets@.len() > 0 {
            let picked = choose|picked: Seq<usize>|
                {
                    &&& #[trigger] calls::reached(
                        picked,
                        found.shapes@,
                        args.argc as nat,
                        arg_types,
                        true,
                    )
                    &&& after == before + calls::member_sites(
                        first_id,
                        place,
                        found.ids@,
                        found.names@.map_values(|n: String| n@),
                        picked,
                        cls@,
                        calls::bound(args@, None),
                    )
                };
            overload::law_counting_keeps_a_target(
                found.shapes@,
                args.argc as nat,
                arg_types,
                true,
                picked,
            );
        }
    }
    assert(after.take(before.len() as int) =~= before);
}

} // verus!
