//! Call sites: the arguments a call passes, the functions it means and the
//! sites that record it.

use crate::ir::{FileId, FnId, Span, VarId};
use crate::overload;
use crate::overload::{copy_indices, filter_targets_by_argc, rank_overloads, Candidate, TypeShape};
use crate::text;
use crate::text::{append, chars_of, decimal_chars, string_of};
use vstd::prelude::*;

verus! {

/// Collected call arguments: value arguments as `(position, variable)`,
/// function arguments as `(position, function)`, the positions passed as
/// `&base.member`, and how many arguments the call spells.
#[derive(Debug, PartialEq, Eq)]
pub struct CallArgs {
    pub var_args: Vec<(u32, VarId)>,
    pub fn_args: Vec<(u32, FnId)>,
    pub addr_of_member_args: Vec<u32>,
    pub argc: u32,
}

/// The argument lists of a call, as sequences.
pub struct ArgsView {
    pub var_args: Seq<(u32, VarId)>,
    pub fn_args: Seq<(u32, FnId)>,
    pub addr_of_member_args: Seq<u32>,
}

impl CallArgs {
    pub open spec fn view(&self) -> ArgsView {
        ArgsView {
            var_args: self.var_args@,
            fn_args: self.fn_args@,
            addr_of_member_args: self.addr_of_member_args@,
        }
    }

    /// Every position can be moved one on.
    pub open spec fn shiftable(&self) -> bool {
        args_shiftable(self@)
    }
}

pub open spec fn args_shiftable(a: ArgsView) -> bool {
    &&& forall|i: int| 0 <= i < a.var_args.len() ==> (#[trigger] a.var_args[i]).0 < u32::MAX
    &&& forall|i: int| 0 <= i < a.fn_args.len() ==> (#[trigger] a.fn_args[i]).0 < u32::MAX
    &&& forall|i: int|
        0 <= i < a.addr_of_member_args.len() ==> #[trigger] a.addr_of_member_args[i] < u32::MAX
}

pub open spec fn shifted_vars(v: Seq<(u32, VarId)>) -> Seq<(u32, VarId)> {
    Seq::new(v.len(), |i: int| ((v[i].0 + 1) as u32, v[i].1))
}

pub open spec fn shifted_fns(v: Seq<(u32, FnId)>) -> Seq<(u32, FnId)> {
    Seq::new(v.len(), |i: int| ((v[i].0 + 1) as u32, v[i].1))
}

pub open spec fn shifted_positions(v: Seq<u32>) -> Seq<u32> {
    Seq::new(v.len(), |i: int| (v[i] + 1) as u32)
}

/// The arguments, each one position on.
pub open spec fn past_this(a: ArgsView) -> ArgsView {
    ArgsView {
        var_args: shifted_vars(a.var_args),
        fn_args: shifted_fns(a.fn_args),
        addr_of_member_args: shifted_positions(a.addr_of_member_args),
    }
}

/// The arguments bound past `this`, which is `receiver` where there is one.
pub open spec fn bound(a: ArgsView, receiver: Option<VarId>) -> ArgsView {
    let s = past_this(a);
    match receiver {
        Some(v) => ArgsView { var_args: seq![(0u32, v)] + s.var_args, ..s },
        None => s,
    }
}

/// Move argument positions one on, past the implicit `this` a member function
/// takes as parameter 0.
pub fn shift_past_this(
    var_args: &mut Vec<(u32, VarId)>,
    fn_args: &mut Vec<(u32, FnId)>,
    addr_of_member_args: &mut Vec<u32>,
)
    requires
        forall|i: int| 0 <= i < old(var_args)@.len() ==> (#[trigger] old(var_args)@[i]).0 < u32::MAX,
        forall|i: int| 0 <= i < old(fn_args)@.len() ==> (#[trigger] old(fn_args)@[i]).0 < u32::MAX,
        forall|i: int|
            0 <= i < old(addr_of_member_args)@.len() ==> #[trigger] old(addr_of_member_args)@[i]
                < u32::MAX,
    ensures
        final(var_args)@ == shifted_vars(old(var_args)@),
        final(fn_args)@ == shifted_fns(old(fn_args)@),
        final(addr_of_member_args)@ == shifted_positions(old(addr_of_member_args)@),
{
    let ghost v0 = var_args@;
    let ghost f0 = fn_args@;
    let ghost m0 = addr_of_member_args@;
    let mut i: usize = 0;
    while i < var_args.len()
        invariant
            i <= var_args@.len(),
            var_args@.len() == v0.len(),
            forall|j: int| 0 <= j < v0.len() ==> (#[trigger] v0[j]).0 < u32::MAX,
            forall|j: int| 0 <= j < i ==> #[trigger] var_args@[j] == shifted_vars(v0)[j],
            forall|j: int| i <= j < v0.len() ==> #[trigger] var_args@[j] == v0[j],
        decreases var_args@.len() - i,
    {
        let (at, v) = var_args[i];
        assert(var_args@[i as int] == v0[i as int]);
        var_args.set(i, (at + 1, v));
        i += 1;
    }
    assert(var_args@ =~= shifted_vars(v0));
    let mut k: usize = 0;
    while k < fn_args.len()
        invariant
            k <= fn_args@.len(),
            fn_args@.len() == f0.len(),
            forall|j: int| 0 <= j < f0.len() ==> (#[trigger] f0[j]).0 < u32::MAX,
            forall|j: int| 0 <= j < k ==> #[trigger] fn_args@[j] == shifted_fns(f0)[j],
            forall|j: int| k <= j < f0.len() ==> #[trigger] fn_args@[j] == f0[j],
        decreases fn_args@.len() - k,
    {
        let (at, f) = fn_args[k];
        assert(fn_args@[k as int] == f0[k as int]);
        fn_args.set(k, (at + 1, f));
        k += 1;
    }
    assert(fn_args@ =~= shifted_fns(f0));
    let mut m: usize = 0;
    while m < addr_of_member_args.len()
        invariant
            m <= addr_of_member_args@.len(),
            addr_of_member_args@.len() == m0.len(),
            forall|j: int| 0 <= j < m0.len() ==> #[trigger] m0[j] < u32::MAX,
            forall|j: int|
                0 <= j < m ==> #[trigger] addr_of_member_args@[j] == shifted_positions(m0)[j],
            forall|j: int| m <= j < m0.len() ==> #[trigger] addr_of_member_args@[j] == m0[j],
        decreases addr_of_member_args@.len() - m,
    {
        let at = addr_of_member_args[m];
        assert(addr_of_member_args@[m as int] == m0[m as int]);
        addr_of_member_args.set(m, at + 1);
        m += 1;
    }
    assert(addr_of_member_args@ =~= shifted_positions(m0));
}

pub fn copy_vars(v: &Vec<(u32, VarId)>) -> (r: Vec<(u32, VarId)>)
    ensures
        r@ == v@,
{
    let mut r: Vec<(u32, VarId)> = Vec::new();
    let mut i: usize = 0;
    while i < v.len()
        invariant
            i <= v@.len(),
            r@ == v@.take(i as int),
        decreases v@.len() - i,
    {
        r.push(v[i]);
        i += 1;
        assert(r@ =~= v@.take(i as int));
    }
    r
}

pub fn copy_fns(v: &Vec<(u32, FnId)>) -> (r: Vec<(u32, FnId)>)
    ensures
        r@ == v@,
{
    let mut r: Vec<(u32, FnId)> = Vec::new();
    let mut i: usize = 0;
    while i < v.len()
        invariant
            i <= v@.len(),
            r@ == v@.take(i as int),
        decreases v@.len() - i,
    {
        r.push(v[i]);
        i += 1;
        assert(r@ =~= v@.take(i as int));
    }
    r
}

pub fn copy_positions(v: &Vec<u32>) -> (r: Vec<u32>)
    ensures
        r@ == v@,
{
    let mut r: Vec<u32> = Vec::new();
    let mut i: usize = 0;
    while i < v.len()
        invariant
            i <= v@.len(),
            r@ == v@.take(i as int),
        decreases v@.len() - i,
    {
        r.push(v[i]);
        i += 1;
        assert(r@ =~= v@.take(i as int));
    }
    r
}

impl CallArgs {
    /// No arguments.
    pub fn empty() -> (r: CallArgs)
        ensures
            r@ == (ArgsView {
                var_args: Seq::empty(),
                fn_args: Seq::empty(),
                addr_of_member_args: Seq::empty(),
            }),
            r.argc == 0,
    {
        CallArgs {
            var_args: Vec::new(),
            fn_args: Vec::new(),
            addr_of_member_args: Vec::new(),
            argc: 0,
        }
    }

    /// The same arguments once more.
    pub fn copy(&self) -> (r: CallArgs)
        ensures
            r@ == self@,
            r.argc == self.argc,
    {
        CallArgs {
            var_args: copy_vars(&self.var_args),
            fn_args: copy_fns(&self.fn_args),
            addr_of_member_args: copy_positions(&self.addr_of_member_args),
            argc: self.argc,
        }
    }

    /// Bind the explicit arguments to a member function's parameters: one
    /// position on, past the implicit `this` it takes as parameter 0, which is
    /// `receiver` when the caller has the object.
    pub fn bind_past_this(self, receiver: Option<VarId>) -> (r: CallArgs)
        requires
            self.shiftable(),
        ensures
            r@ == bound(self@, receiver),
            r.argc == self.argc,
    {
        proof {
            assert forall|i: int| 0 <= i < self.var_args@.len() implies (
            #[trigger] self.var_args@[i]).0 < u32::MAX by {
                assert(self@.var_args[i].0 < u32::MAX);
            }
            assert forall|i: int| 0 <= i < self.fn_args@.len() implies (
            #[trigger] self.fn_args@[i]).0 < u32::MAX by {
                assert(self@.fn_args[i].0 < u32::MAX);
            }
            assert forall|i: int| 0 <= i < self.addr_of_member_args@.len() implies
                #[trigger] self.addr_of_member_args@[i] < u32::MAX by {
                assert(self@.addr_of_member_args[i] < u32::MAX);
            }
        }
        let CallArgs { mut var_args, mut fn_args, mut addr_of_member_args, argc } = self;
        shift_past_this(&mut var_args, &mut fn_args, &mut addr_of_member_args);
        match receiver {
            Some(v) => {
                var_args.insert(0, (0, v));
                assert(var_args@ =~= seq![(0u32, v)] + shifted_vars(self.var_args@));
            },
            None => {},
        }
        CallArgs { var_args, fn_args, addr_of_member_args, argc }
    }

    /// One argument list for each of several sites emitted from one call: the
    /// last site takes it, the ones before it copy.
    pub fn take_for(&mut self, last: bool) -> (r: CallArgs)
        ensures
            r@ == old(self)@,
            r.argc == old(self).argc,
            !last ==> final(self)@ == old(self)@ && final(self).argc == old(self).argc,
            last ==> final(self)@ == (ArgsView {
                var_args: Seq::empty(),
                fn_args: Seq::empty(),
                addr_of_member_args: Seq::empty(),
            }) && final(self).argc == 0,
    {
        if last {
            let mut taken = CallArgs::empty();
            std::mem::swap(&mut taken, self);
            taken
        } else {
            self.copy()
        }
    }
}

/// One call in a body.
#[derive(Debug, PartialEq, Eq)]
pub struct CallSite {
    pub id: u32,
    pub caller: FnId,
    pub callee_name: String,
    pub callee_var: Option<VarId>,
    pub callee_fn_id: Option<FnId>,
    pub var_args: Vec<(u32, VarId)>,
    pub fn_args: Vec<(u32, FnId)>,
    pub addr_of_member_args: Vec<u32>,
    pub args_bound_past_this: bool,
    pub span: Span,
    pub is_direct: bool,
    pub receiver_class: Option<String>,
    pub return_dst: Option<VarId>,
    pub tu: Option<FileId>,
}

/// A call site with its texts and lists as sequences.
pub struct SiteView {
    pub id: u32,
    pub caller: FnId,
    pub callee_name: Seq<char>,
    pub callee_var: Option<VarId>,
    pub callee_fn_id: Option<FnId>,
    pub args: ArgsView,
    pub args_bound_past_this: bool,
    pub span: Span,
    pub is_direct: bool,
    pub receiver_class: Option<Seq<char>>,
    pub return_dst: Option<VarId>,
    pub tu: Option<FileId>,
}

impl View for CallSite {
    type V = SiteView;

    open spec fn view(&self) -> SiteView {
        SiteView {
            id: self.id,
            caller: self.caller,
            callee_name: self.callee_name@,
            callee_var: self.callee_var,
            callee_fn_id: self.callee_fn_id,
            args: ArgsView {
                var_args: self.var_args@,
                fn_args: self.fn_args@,
                addr_of_member_args: self.addr_of_member_args@,
            },
            args_bound_past_this: self.args_bound_past_this,
            span: self.span,
            is_direct: self.is_direct,
            receiver_class: match self.receiver_class {
                Some(c) => Some(c@),
                None => None,
            },
            return_dst: self.return_dst,
            tu: self.tu,
        }
    }
}

/// The call sites of a unit; ids are given out in order.
#[derive(Debug, PartialEq, Eq)]
pub struct CallTable {
    pub sites: Vec<CallSite>,
    pub next_id: u32,
}

impl CallTable {
    pub open spec fn view(&self) -> Seq<SiteView> {
        self.sites@.map_values(|s: CallSite| s@)
    }

    /// The table has an id left for each of `n` sites.
    pub open spec fn room(&self, n: int) -> bool {
        self.next_id + n <= u32::MAX
    }

    fn push(&mut self, site: CallSite)
        requires
            old(self).room(1),
            site.id == old(self).next_id,
        ensures
            final(self)@ == old(self)@.push(site@),
            final(self).next_id == old(self).next_id + 1,
    {
        self.next_id = self.next_id + 1;
        self.sites.push(site);
        assert(self@ =~= old(self)@.push(site@));
    }
}

/// What every site of one call shares.
#[derive(Clone, Copy)]
pub struct CallPlace {
    pub caller: FnId,
    pub span: Span,
    pub tu: Option<FileId>,
    pub return_dst: Option<VarId>,
}

/// A member call nothing could be resolved for, spelled as the source spells
/// it, with its arguments bound past the member's `this`.
pub open spec fn unresolved_site(
    id: u32,
    place: CallPlace,
    callee_name: Seq<char>,
    receiver_class: Seq<char>,
    args: ArgsView,
) -> SiteView {
    SiteView {
        id,
        caller: place.caller,
        callee_name,
        callee_var: None,
        callee_fn_id: None,
        args,
        args_bound_past_this: true,
        span: place.span,
        is_direct: false,
        receiver_class: Some(receiver_class),
        return_dst: None,
        tu: place.tu,
    }
}

/// A call that reaches the member `target` of `receiver_class`.
pub open spec fn member_site(
    id: u32,
    place: CallPlace,
    target: FnId,
    name: Seq<char>,
    receiver_class: Seq<char>,
    args: ArgsView,
) -> SiteView {
    SiteView {
        callee_name: name,
        callee_fn_id: Some(target),
        is_direct: true,
        ..unresolved_site(id, place, name, receiver_class, args)
    }
}

/// Record a member call that resolves to nothing.
pub fn emit_unresolved_site(
    table: &mut CallTable,
    place: CallPlace,
    callee_name: String,
    receiver_class: String,
    args: CallArgs,
)
    requires
        old(table).room(1),
        args.shiftable(),
    ensures
        final(table)@ == old(table)@.push(
            unresolved_site(
                old(table).next_id,
                place,
                callee_name@,
                receiver_class@,
                bound(args@, None),
            ),
        ),
        final(table).next_id == old(table).next_id + 1,
{
    let CallArgs { var_args, fn_args, addr_of_member_args, argc: _ } = args.bind_past_this(None);
    let id = table.next_id;
    table.push(
        CallSite {
            id,
            caller: place.caller,
            callee_name,
            callee_var: None,
            callee_fn_id: None,
            var_args,
            fn_args,
            addr_of_member_args,
            args_bound_past_this: true,
            span: place.span,
            is_direct: false,
            receiver_class: Some(receiver_class),
            return_dst: None,
            tu: place.tu,
        },
    );
}

/// The positions of the targets that a call of these arguments reaches.
pub open spec fn reached(
    picked: Seq<usize>,
    targets: Seq<Candidate>,
    argc: nat,
    args: Seq<TypeShape>,
    keep_unknown: bool,
) -> bool {
    &&& overload::some_fits(targets, argc, keep_unknown) ==> overload::lists(
        picked,
        targets.len() as int,
        |i: int| overload::left_by_argc(targets, i, argc, args, keep_unknown),
    )
    &&& !overload::some_fits(targets, argc, keep_unknown) ==> overload::lists(
        picked,
        targets.len() as int,
        |i: int| true,
    )
}

/// The sites of a member call on the targets picked, one each.
pub open spec fn member_sites(
    first_id: u32,
    place: CallPlace,
    ids: Seq<FnId>,
    names: Seq<Seq<char>>,
    picked: Seq<usize>,
    receiver_class: Seq<char>,
    args: ArgsView,
) -> Seq<SiteView> {
    Seq::new(
        picked.len(),
        |k: int|
            member_site(
                (first_id + k) as u32,
                place,
                ids[picked[k] as int],
                names[picked[k] as int],
                receiver_class,
                args,
            ),
    )
}

/// Emit call sites for a member of `cls` whose override set is `targets`: one
/// per target that takes the arguments, or an unresolved site named `display`
/// when there is no target at all. The positions of the targets reached are
/// returned. The explicit arguments are bound past the
/// member's `this`, which is `receiver` when the caller has the object.
pub fn emit_member_targets(
    table: &mut CallTable,
    place: CallPlace,
    cls: &String,
    display: String,
    receiver: Option<VarId>,
    args: CallArgs,
    arg_types: &Vec<TypeShape>,
    ids: &Vec<FnId>,
    names: &Vec<String>,
    targets: &Vec<Candidate>,
) -> (picked: Vec<usize>)
    requires
        old(table).room((targets@.len() + 1) as int),
        args.shiftable(),
        ids@.len() == targets@.len(),
        names@.len() == targets@.len(),
    ensures
        targets@.len() == 0 ==> final(table)@ == old(table)@.push(
            unresolved_site(
                old(table).next_id,
                place,
                display@,
                cls@,
                bound(args@, receiver),
            ),
        ),
        targets@.len() > 0 ==> {
            &&& reached(picked@, targets@, args.argc as nat, arg_types@, true)
            &&& picked@.len() > 0
            &&& final(table)@ == old(table)@ + member_sites(
                old(table).next_id,
                place,
                ids@,
                names@.map_values(|n: String| n@),
                picked@,
                cls@,
                bound(args@, receiver),
            )
        },
        final(table).next_id == old(table).next_id + (final(table)@.len() - old(table)@.len()),
{
    let argc = args.argc;
    let mut args = args.bind_past_this(receiver);
    let ghost all_args = args@;
    let picked = filter_targets_by_argc(targets, argc as usize, arg_types, true);
    let id = table.next_id;
    if targets.len() == 0 {
        let CallArgs { var_args, fn_args, addr_of_member_args, argc: _ } = args;
        table.push(
            CallSite {
                id,
                caller: place.caller,
                callee_name: display,
                callee_var: None,
                callee_fn_id: None,
                var_args,
                fn_args,
                addr_of_member_args,
                args_bound_past_this: true,
                span: place.span,
                is_direct: false,
                receiver_class: Some(cls.clone()),
                return_dst: None,
                tu: place.tu,
            },
        );
        return picked;
    }
    let ghost texts = names@.map_values(|n: String| n@);
    let ghost start = table@;
    let ghost goal = member_sites(id, place, ids@, texts, picked@, cls@, all_args);
    proof {
        overload::law_counting_keeps_a_target(
            targets@,
            argc as nat,
            arg_types@,
            true,
            picked@,
        );
        lemma_picked_fits(picked@, targets@, argc as nat, arg_types@, true);
        assert(start + goal.take(0) =~= start);
    }
    let mut k: usize = 0;
    while k < picked.len()
        invariant
            k <= picked@.len(),
            picked@.len() <= targets@.len(),
            ids@.len() == targets@.len(),
            names@.len() == targets@.len(),
            texts == names@.map_values(|n: String| n@),
            forall|j: int| 0 <= j < picked@.len() ==> #[trigger] picked@[j] < targets@.len(),
            goal == member_sites(id, place, ids@, texts, picked@, cls@, all_args),
            id + targets@.len() + 1 <= u32::MAX,
            table.next_id == id + k,
            table@ == start + goal.take(k as int),
            k < picked@.len() ==> args@ == all_args,
        decreases picked@.len() - k,
    {
        let t = picked[k];
        let site_args = args.take_for(k + 1 == picked.len());
        let CallArgs { var_args, fn_args, addr_of_member_args, argc: _ } = site_args;
        let site_id = table.next_id;
        table.push(
            CallSite {
                id: site_id,
                caller: place.caller,
                callee_name: names[t].clone(),
                callee_var: None,
                callee_fn_id: Some(ids[t]),
                var_args,
                fn_args,
                addr_of_member_args,
                args_bound_past_this: true,
                span: place.span,
                is_direct: true,
                receiver_class: Some(cls.clone()),
                return_dst: None,
                tu: place.tu,
            },
        );
        proof {
            assert(texts[t as int] == names@[t as int]@);
            assert(goal.take(k + 1) =~= goal.take(k as int).push(goal[k as int]));
            assert(table@ =~= start + goal.take(k + 1));
        }
        k += 1;
    }
    assert(goal.take(k as int) =~= goal);
    picked
}

proof fn lemma_sorted_below(picked: Seq<usize>, n: int)
    requires
        forall|i: int, j: int| 0 <= i < j < picked.len() ==> picked[i] < picked[j],
        forall|i: int| 0 <= i < picked.len() ==> #[trigger] picked[i] < n,
        0 <= n,
    ensures
        picked.len() <= n,
    decreases picked.len(),
{
    if picked.len() > 0 {
        let last = picked.last();
        assert(picked[picked.len() - 1] < n);
        assert forall|i: int| 0 <= i < picked.drop_last().len() implies #[trigger] picked.drop_last()[i]
            < last as int by {
            assert(picked[i] < picked[picked.len() - 1]);
        }
        lemma_sorted_below(picked.drop_last(), last as int);
    }
}

pub proof fn lemma_picked_fits(
    picked: Seq<usize>,
    targets: Seq<Candidate>,
    argc: nat,
    args: Seq<TypeShape>,
    keep_unknown: bool,
)
    requires
        reached(picked, targets, argc, args, keep_unknown),
    ensures
        picked.len() <= targets.len(),
        forall|j: int| 0 <= j < picked.len() ==> #[trigger] picked[j] < targets.len(),
{
    lemma_sorted_below(picked, targets.len() as int);
}

/// What tells the declarations of one function from another: whether it is
/// variadic, the arity its declaration recorded, and the classes of its explicit
/// parameter types that the type table takes for one; no class where nothing is
/// known of a parameter.
#[derive(Debug, PartialEq, Eq)]
pub struct Signature {
    pub variadic: bool,
    pub explicit_arity: Option<u32>,
    pub params: Vec<Option<u32>>,
}

/// The arity a signature goes by when one of two lists no parameters.
pub open spec fn arity_or_len(s: Signature) -> int {
    match s.explicit_arity {
        Some(n) => n as int,
        None => s.params@.len() as int,
    }
}

/// Two entries declare one function.
pub open spec fn same_signature(a: Signature, b: Signature) -> bool {
    if a.variadic != b.variadic {
        false
    } else if a.params@.len() == 0 || b.params@.len() == 0 {
        arity_or_len(a) == arity_or_len(b)
    } else {
        &&& a.params@.len() == b.params@.len()
        &&& forall|i: int|
            0 <= i < a.params@.len() ==> (#[trigger] a.params@[i]) is Some && a.params@[i]
                == b.params@[i]
    }
}

pub fn has_same_signature(a: &Signature, b: &Signature) -> (r: bool)
    requires
        a.params@.len() <= u32::MAX,
        b.params@.len() <= u32::MAX,
    ensures
        r == same_signature(*a, *b),
{
    if a.variadic != b.variadic {
        return false;
    }
    if a.params.len() == 0 || b.params.len() == 0 {
        let m: u32 = match a.explicit_arity {
            Some(n) => n,
            None => a.params.len() as u32,
        };
        let n: u32 = match b.explicit_arity {
            Some(n) => n,
            None => b.params.len() as u32,
        };
        return m == n;
    }
    if a.params.len() != b.params.len() {
        return false;
    }
    let mut i: usize = 0;
    while i < a.params.len()
        invariant
            i <= a.params@.len(),
            a.params@.len() == b.params@.len(),
            forall|j: int|
                0 <= j < i ==> (#[trigger] a.params@[j]) is Some && a.params@[j] == b.params@[j],
        decreases a.params@.len() - i,
    {
        let same_class = match (a.params[i], b.params[i]) {
            (Some(x), Some(y)) => x == y,
            _ => false,
        };
        if !same_class {
            assert(!(a.params@[i as int] is Some && a.params@[i as int] == b.params@[i as int]));
            return false;
        }
        i += 1;
    }
    true
}

/// A candidate of a call by name: what ranks it, what tells it apart and
/// whether its body is known.
#[derive(Debug, PartialEq, Eq)]
pub struct NamedCallee {
    pub signature: Signature,
    pub is_defined: bool,
}

/// Candidate `c` stays beside the others in `ranked`: it is a definition, or no
/// definition among them declares the same function.
pub open spec fn undisplaced(named: Seq<NamedCallee>, ranked: Seq<usize>, c: usize) -> bool {
    named[c as int].is_defined || !exists|k: int|
        0 <= k < ranked.len() && #[trigger] ranked[k] != c && named[ranked[k] as int].is_defined
            && same_signature(named[c as int].signature, named[ranked[k] as int].signature)
}

/// Some candidate in `ranked` is a definition.
pub open spec fn some_defined(named: Seq<NamedCallee>, ranked: Seq<usize>) -> bool {
    exists|k: int| 0 <= k < ranked.len() && named[#[trigger] ranked[k] as int].is_defined
}

fn is_undisplaced(named: &Vec<NamedCallee>, ranked: &Vec<usize>, c: usize) -> (r: bool)
    requires
        c < named@.len(),
        forall|k: int| 0 <= k < ranked@.len() ==> #[trigger] ranked@[k] < named@.len(),
        forall|k: int|
            0 <= k < named@.len() ==> (#[trigger] named@[k]).signature.params@.len() <= u32::MAX,
    ensures
        r == undisplaced(named@, ranked@, c),
{
    if named[c].is_defined {
        return true;
    }
    let mut k: usize = 0;
    while k < ranked.len()
        invariant
            k <= ranked@.len(),
            c < named@.len(),
            !named@[c as int].is_defined,
            forall|j: int| 0 <= j < ranked@.len() ==> #[trigger] ranked@[j] < named@.len(),
            forall|j: int|
                0 <= j < named@.len() ==> (#[trigger] named@[j]).signature.params@.len()
                    <= u32::MAX,
            forall|j: int|
                0 <= j < k ==> !(#[trigger] ranked@[j] != c && named@[ranked@[j] as int].is_defined
                    && same_signature(
                    named@[c as int].signature,
                    named@[ranked@[j] as int].signature,
                )),
        decreases ranked@.len() - k,
    {
        let other = ranked[k];
        assert(named@[c as int].signature.params@.len() <= u32::MAX);
        assert(named@[other as int].signature.params@.len() <= u32::MAX);
        if other != c && named[other].is_defined && has_same_signature(
            &named[c].signature,
            &named[other].signature,
        ) {
            assert(ranked@[k as int] != c);
            return false;
        }
        k += 1;
    }
    true
}

/// The candidates of a call by name that ranking leaves.
pub open spec fn ranked_of(
    shapes: Seq<Candidate>,
    by_arity: Seq<usize>,
    args: Seq<TypeShape>,
) -> Seq<usize> {
    if by_arity.len() > 1 {
        overload::ranked(shapes, by_arity, args)
    } else {
        by_arity
    }
}

/// The candidates left when prototypes give way to their definitions.
pub open spec fn without_displaced(named: Seq<NamedCallee>, ranked: Seq<usize>) -> Seq<usize> {
    if ranked.len() > 1 && some_defined(named, ranked) {
        ranked.filter(|c: usize| undisplaced(named, ranked, c))
    } else {
        ranked
    }
}

/// The functions a C++ call by name means: of the candidates, those that take
/// its arguments, then the one that alone matches their types exactly where there
/// is one, then without the prototypes whose definition is among them.
pub fn choose_callees(
    shapes: &Vec<Candidate>,
    named: &Vec<NamedCallee>,
    argc: usize,
    args: &Vec<TypeShape>,
) -> (r: (Vec<usize>, Vec<usize>))
    requires
        shapes@.len() == named@.len(),
        forall|k: int|
            0 <= k < named@.len() ==> (#[trigger] named@[k]).signature.params@.len() <= u32::MAX,
    ensures
        reached(r.0@, shapes@, argc as nat, args@, argc == 0),
        r.1@ == without_displaced(named@, ranked_of(shapes@, r.0@, args@)),
        forall|k: int| 0 <= k < r.1@.len() ==> #[trigger] r.1@[k] < shapes@.len(),
{
    let by_arity = filter_targets_by_argc(shapes, argc, args, argc == 0);
    let ranked = if by_arity.len() > 1 {
        rank_overloads(shapes, &by_arity, args)
    } else {
        copy_indices(&by_arity)
    };
    let ghost ranked_seq = ranked@;
    let mut defined = false;
    let mut k: usize = 0;
    while k < ranked.len()
        invariant
            k <= ranked@.len(),
            shapes@.len() == named@.len(),
            forall|j: int| 0 <= j < ranked@.len() ==> #[trigger] ranked@[j] < shapes@.len(),
            defined == exists|j: int| 0 <= j < k && named@[#[trigger] ranked@[j] as int].is_defined,
        decreases ranked@.len() - k,
    {
        if named[ranked[k]].is_defined {
            assert(named@[ranked@[k as int] as int].is_defined);
            defined = true;
        }
        k += 1;
    }
    assert(defined == some_defined(named@, ranked@));
    if ranked.len() <= 1 || !defined {
        return (by_arity, ranked);
    }
    let ghost keeps = |c: usize| undisplaced(named@, ranked@, c);
    let mut chosen: Vec<usize> = Vec::new();
    let mut i: usize = 0;
    proof {
        reveal(Seq::filter);
        assert(ranked@.take(0).filter(keeps) =~= Seq::empty());
    }
    while i < ranked.len()
        invariant
            i <= ranked@.len(),
            shapes@.len() == named@.len(),
            forall|j: int|
                0 <= j < named@.len() ==> (#[trigger] named@[j]).signature.params@.len()
                    <= u32::MAX,
            forall|j: int| 0 <= j < ranked@.len() ==> #[trigger] ranked@[j] < shapes@.len(),
            keeps == (|c: usize| undisplaced(named@, ranked@, c)),
            chosen@ == ranked@.take(i as int).filter(keeps),
            forall|j: int| 0 <= j < chosen@.len() ==> #[trigger] chosen@[j] < shapes@.len(),
        decreases ranked@.len() - i,
    {
        proof {
            reveal(Seq::filter);
            assert(ranked@.take(i + 1).drop_last() =~= ranked@.take(i as int));
            assert(ranked@.take(i + 1).last() == ranked@[i as int]);
        }
        let c = ranked[i];
        if is_undisplaced(named, &ranked, c) {
            chosen.push(c);
        }
        i += 1;
    }
    assert(ranked@.take(i as int) =~= ranked@);
    (by_arity, chosen)
}

/// What a call by name is recorded with.
#[derive(Debug, PartialEq, Eq)]
pub struct FreeCall {
    pub callee_name: String,
    pub callee_var: Option<VarId>,
    pub is_direct: bool,
    pub is_cpp: bool,
}

/// The name of the site for `target`: the callee as written for the first
/// function chosen, with the function's number for the others.
pub open spec fn site_name(callee: Seq<char>, target: FnId, first: FnId) -> Seq<char> {
    if target != first {
        callee + "::"@ + text::decimal(target.0 as nat)
    } else {
        callee
    }
}

/// The site of a call by name that means `target`.
pub open spec fn free_site(
    id: u32,
    place: CallPlace,
    call: FreeCall,
    target: FnId,
    first: FnId,
    is_member: bool,
    args: ArgsView,
    argc: nat,
) -> SiteView {
    let past = argc > 0 && call.is_cpp && is_member;
    SiteView {
        id,
        caller: place.caller,
        callee_name: site_name(call.callee_name@, target, first),
        callee_var: call.callee_var,
        callee_fn_id: Some(target),
        args: if past {
            bound(args, None)
        } else {
            args
        },
        args_bound_past_this: past,
        span: place.span,
        is_direct: true,
        receiver_class: None,
        return_dst: place.return_dst,
        tu: place.tu,
    }
}

/// The site of a call by name that means no known function.
pub open spec fn open_site(id: u32, place: CallPlace, call: FreeCall, args: ArgsView) -> SiteView {
    SiteView {
        id,
        caller: place.caller,
        callee_name: call.callee_name@,
        callee_var: call.callee_var,
        callee_fn_id: None,
        args,
        args_bound_past_this: false,
        span: place.span,
        is_direct: call.is_direct,
        receiver_class: None,
        return_dst: place.return_dst,
        tu: place.tu,
    }
}

/// The sites of a call by name, one for each function it may mean.
pub open spec fn free_sites(
    first_id: u32,
    place: CallPlace,
    call: FreeCall,
    chosen: Seq<FnId>,
    members: Seq<bool>,
    args: ArgsView,
    argc: nat,
) -> Seq<SiteView> {
    if chosen.len() == 0 {
        seq![open_site(first_id, place, call, args)]
    } else {
        Seq::new(
            chosen.len(),
            |k: int|
                free_site(
                    (first_id + k) as u32,
                    place,
                    call,
                    chosen[k],
                    chosen[0],
                    members[k],
                    args,
                    argc,
                ),
        )
    }
}

/// Record a call by name: one site for each function it may mean, with its
/// arguments bound past `this` where the function is a member, or one site
/// without a callee when it means none that is known.
pub fn emit_free_call(
    table: &mut CallTable,
    place: CallPlace,
    call: FreeCall,
    chosen: &Vec<FnId>,
    members: &Vec<bool>,
    args: CallArgs,
)
    requires
        old(table).room((chosen@.len() + 1) as int),
        members@.len() == chosen@.len(),
        args.shiftable(),
    ensures
        final(table)@ == old(table)@ + free_sites(
            old(table).next_id,
            place,
            call,
            chosen@,
            members@,
            args@,
            args.argc as nat,
        ),
        final(table).next_id == old(table).next_id + (final(table)@.len() - old(table)@.len()),
{
    let ghost start = table@;
    let id = table.next_id;
    let argc = args.argc;
    let ghost goal = free_sites(id, place, call, chosen@, members@, args@, argc as nat);
    if chosen.len() == 0 {
        let CallArgs { var_args, fn_args, addr_of_member_args, argc: _ } = args;
        table.push(
            CallSite {
                id,
                caller: place.caller,
                callee_name: call.callee_name,
                callee_var: call.callee_var,
                callee_fn_id: None,
                var_args,
                fn_args,
                addr_of_member_args,
                args_bound_past_this: false,
                span: place.span,
                is_direct: call.is_direct,
                receiver_class: None,
                return_dst: place.return_dst,
                tu: place.tu,
            },
        );
        assert(table@ =~= start + goal);
        return;
    }
    let ghost all_args = args@;
    let mut args = args;
    let mut k: usize = 0;
    assert(start + goal.take(0) =~= start);
    while k < chosen.len()
        invariant
            k <= chosen@.len(),
            chosen@.len() > 0,
            members@.len() == chosen@.len(),
            id + chosen@.len() + 1 <= u32::MAX,
            goal == free_sites(id, place, call, chosen@, members@, all_args, argc as nat),
            table.next_id == id + k,
            table@ == start + goal.take(k as int),
            args_shiftable(all_args),
            k < chosen@.len() ==> args@ == all_args,
        decreases chosen@.len() - k,
    {
        let t = chosen[k];
        let taken = args.take_for(k + 1 == chosen.len());
        let past = argc > 0 && call.is_cpp && members[k];
        let site_args = if past {
            taken.bind_past_this(None)
        } else {
            taken
        };
        let CallArgs { var_args, fn_args, addr_of_member_args, argc: _ } = site_args;
        let callee_name = if t != chosen[0] {
            let mut name = chars_of(call.callee_name.as_str());
            append(&mut name, &chars_of("::"));
            append(&mut name, &decimal_chars(t.0));
            string_of(&name)
        } else {
            call.callee_name.clone()
        };
        let site_id = table.next_id;
        table.push(
            CallSite {
                id: site_id,
                caller: place.caller,
                callee_name,
                callee_var: call.callee_var,
                callee_fn_id: Some(t),
                var_args,
                fn_args,
                addr_of_member_args,
                args_bound_past_this: past,
                span: place.span,
                is_direct: true,
                receiver_class: None,
                return_dst: place.return_dst,
                tu: place.tu,
            },
        );
        proof {
            assert(goal.take(k + 1) =~= goal.take(k as int).push(goal[k as int]));
            assert(table@ =~= start + goal.take(k + 1));
        }
        k += 1;
    }
    assert(goal.take(k as int) =~= goal);
}

} // verus!
