//! What a call leaves behind: the sites, what they pass, and whom they may reach.

use crate::calls;
use crate::calls::{ArgsView, CallArgs, CallPlace, NamedCallee, Signature, SiteView};
use crate::candidates;
use crate::collect;
use crate::collect::{CallTarget, Callees};
use crate::hierarchy;
use crate::ir::{FnId, VarId};
use crate::lookup::ClassIndex;
use crate::methods;
use crate::methods::MethodView;
use crate::overload;
use crate::overload::TypeShape;
use crate::routes;
use crate::routes::Dispatch;
use crate::scope;
use crate::text;
use vstd::prelude::*;

verus! {

/// What is passed stands one place further on, behind the object.
pub open spec fn is_shifted(own: ArgsView, moved: ArgsView) -> bool {
    &&& moved.var_args.len() == own.var_args.len()
    &&& moved.fn_args.len() == own.fn_args.len()
    &&& moved.addr_of_member_args.len() == own.addr_of_member_args.len()
    &&& forall|i: int|
        0 <= i < own.var_args.len() ==> (#[trigger] moved.var_args[i]).0 == own.var_args[i].0 + 1
            && moved.var_args[i].1 == own.var_args[i].1
    &&& forall|i: int|
        0 <= i < own.fn_args.len() ==> (#[trigger] moved.fn_args[i]).0 == own.fn_args[i].0 + 1
            && moved.fn_args[i].1 == own.fn_args[i].1
    &&& forall|i: int|
        0 <= i < own.addr_of_member_args.len() ==> #[trigger] moved.addr_of_member_args[i]
            == own.addr_of_member_args[i] + 1
}

/// A member is passed its object in the first place and the arguments after it; where
/// the object is no variable, the place stays empty.
pub proof fn law_members_are_passed_their_object_first(a: ArgsView, receiver: VarId)
    requires
        calls::args_shiftable(a),
    ensures
        is_shifted(a, calls::bound(a, None)),
        calls::bound(a, Some(receiver)).var_args.len() == a.var_args.len() + 1,
        calls::bound(a, Some(receiver)).var_args[0] == (0u32, receiver),
        is_shifted(
            a,
            ArgsView {
                var_args: calls::bound(a, Some(receiver)).var_args.skip(1),
                ..calls::bound(a, Some(receiver))
            },
        ),
{
    let b = calls::bound(a, Some(receiver));
    assert(b.var_args.skip(1) =~= calls::shifted_vars(a.var_args));
}

/// A site tells where the call stands.
pub open spec fn stands_at(s: SiteView, place: CallPlace) -> bool {
    s.caller == place.caller && s.span == place.span && s.tu == place.tu
}

/// A call of a member leaves one site for each function that it may reach, numbered on,
/// each for one of the members, with the arguments behind the object.
pub proof fn law_member_calls_leave_a_site_for_each_member(
    before: Seq<SiteView>,
    after: Seq<SiteView>,
    first_id: u32,
    place: CallPlace,
    is_cpp: bool,
    target: CallTarget,
    found: Callees<'_>,
    args: CallArgs,
    arg_types: Seq<TypeShape>,
    k: int,
)
    requires
        found.wf(),
        target is Member,
        target->targets@.len() > 0,
        found.ids@ == target->targets@,
        args.shiftable(),
        first_id + found.ids@.len() <= u32::MAX,
        collect::is_recorded(
            before,
            after,
            first_id,
            place,
            is_cpp,
            target,
            found,
            args,
            arg_types,
        ),
        before.len() <= k < after.len(),
    ensures
        stands_at(after[k], place),
        after[k].id == first_id + (k - before.len()),
        after[k].is_direct,
        after[k].args_bound_past_this,
        is_shifted(args@, after[k].args),
        after[k].receiver_class == Some(target->Member_cls@),
        after[k].callee_var is None,
        exists|i: int|
            0 <= i < found.ids@.len() && after[k].callee_fn_id == Some(#[trigger] found.ids@[i])
                && after[k].callee_name == found.names@[i]@,
{
    let picked = choose|picked: Seq<usize>|
        {
            &&& #[trigger] calls::reached(picked, found.shapes@, args.argc as nat, arg_types, true)
            &&& after == before + calls::member_sites(
                first_id,
                place,
                found.ids@,
                found.names@.map_values(|n: String| n@),
                picked,
                target->Member_cls@,
                calls::bound(args@, None),
            )
        };
    let at = k - before.len();
    let i = picked[at] as int;
    lemma_few(picked, found.shapes@.len() as int, at);
    assert(after[k].callee_fn_id == Some(found.ids@[i]));
    assert(after[k].callee_name == found.names@[i]@);
}

proof fn lemma_few(picked: Seq<usize>, n: int, k: int)
    requires
        forall|i: int, j: int| 0 <= i < j < picked.len() ==> picked[i] < picked[j],
        forall|i: int| 0 <= i < picked.len() ==> 0 <= #[trigger] picked[i] < n,
        0 <= k < picked.len(),
    ensures
        picked.len() - k <= n - picked[k],
        k < n,
    decreases picked.len() - k,
{
    if k + 1 < picked.len() {
        lemma_few(picked, n, k + 1);
    }
    lemma_least(picked, k);
}

proof fn lemma_least(picked: Seq<usize>, k: int)
    requires
        forall|i: int, j: int| 0 <= i < j < picked.len() ==> picked[i] < picked[j],
        0 <= k < picked.len(),
    ensures
        k <= picked[k],
    decreases k,
{
    if k > 0 {
        lemma_least(picked, k - 1);
    }
}

/// Every member that takes as many arguments as are passed, and is not variadic, is
/// reached by a site of its own.
pub proof fn law_members_that_take_the_arguments_are_reached(
    before: Seq<SiteView>,
    after: Seq<SiteView>,
    first_id: u32,
    place: CallPlace,
    is_cpp: bool,
    target: CallTarget,
    found: Callees<'_>,
    args: CallArgs,
    arg_types: Seq<TypeShape>,
    i: int,
)
    requires
        found.wf(),
        target is Member,
        target->targets@.len() > 0,
        found.ids@ == target->targets@,
        collect::is_recorded(
            before,
            after,
            first_id,
            place,
            is_cpp,
            target,
            found,
            args,
            arg_types,
        ),
        0 <= i < found.ids@.len(),
        !found.shapes@[i].variadic,
        overload::arity_of(found.shapes@[i]) == Some(args.argc as nat) || overload::arity_of(
            found.shapes@[i],
        ) is None,
    ensures
        exists|k: int|
            before.len() <= k < after.len() && (#[trigger] after[k]).callee_fn_id == Some(
                found.ids@[i],
            ),
{
    let picked = choose|picked: Seq<usize>|
        {
            &&& #[trigger] calls::reached(picked, found.shapes@, args.argc as nat, arg_types, true)
            &&& after == before + calls::member_sites(
                first_id,
                place,
                found.ids@,
                found.names@.map_values(|n: String| n@),
                picked,
                target->Member_cls@,
                calls::bound(args@, None),
            )
        };
    assert(overload::fits(found.shapes@, i, args.argc as nat, true));
    let p = |i: int| overload::left_by_argc(found.shapes@, i, args.argc as nat, arg_types, true);
    assert(p(i));
    let at = choose|at: int| 0 <= at < picked.len() && picked[at] == i as usize;
    assert(found.ids@.len() == found.ids.len());
    assert(picked[at] as int == i);
    assert(after[before.len() + at].callee_fn_id == Some(found.ids@[i]));
}

/// A member that the class does not declare leaves one site under its full name that
/// names no function.
pub proof fn law_undeclared_members_leave_an_open_site(
    before: Seq<SiteView>,
    after: Seq<SiteView>,
    first_id: u32,
    place: CallPlace,
    is_cpp: bool,
    target: CallTarget,
    found: Callees<'_>,
    args: CallArgs,
    arg_types: Seq<TypeShape>,
)
    requires
        args.shiftable(),
        target is Unresolved || target is Member && target->targets@.len() == 0,
        collect::is_recorded(
            before,
            after,
            first_id,
            place,
            is_cpp,
            target,
            found,
            args,
            arg_types,
        ),
    ensures
        after.len() == before.len() + 1,
        after.take(before.len() as int) == before,
        stands_at(after.last(), place),
        after.last().id == first_id,
        after.last().callee_fn_id is None,
        after.last().callee_var is None,
        !after.last().is_direct,
        after.last().args_bound_past_this,
        is_shifted(args@, after.last().args),
        target matches CallTarget::Unresolved { name, cls } ==> after.last().callee_name == name@
            && after.last().receiver_class == Some(cls@),
        target matches CallTarget::Member { cls, kind, .. } ==> after.last().callee_name
            == methods::member_name(kind@, cls@) && after.last().receiver_class == Some(cls@),
{
    assert(after.take(before.len() as int) =~= before);
}

/// A call in C reaches every function of the name; where there is none, or it goes through
/// a variable in C++, it leaves one site that says what is called.
pub proof fn law_free_calls_leave_a_site_for_each_function(
    before: Seq<SiteView>,
    after: Seq<SiteView>,
    first_id: u32,
    place: CallPlace,
    is_cpp: bool,
    target: CallTarget,
    found: Callees<'_>,
    args: CallArgs,
    arg_types: Seq<TypeShape>,
    k: int,
)
    requires
        found.wf(),
        target is Free,
        first_id + found.ids@.len() <= u32::MAX,
        found.ids@.len() <= usize::MAX,
        collect::is_recorded(
            before,
            after,
            first_id,
            place,
            is_cpp,
            target,
            found,
            args,
            arg_types,
        ),
        before.len() <= k < after.len(),
    ensures
        stands_at(after[k], place),
        after[k].return_dst == place.return_dst,
        after[k].callee_var == target->callee.var,
        after[k].receiver_class is None,
        !is_cpp ==> after[k].args == args@ && !after[k].args_bound_past_this,
        !is_cpp && found.ids@.len() > 0 ==> after.len() == before.len() + found.ids@.len()
            && after[k].callee_fn_id == Some(found.ids@[k - before.len()]) && after[k].is_direct
            && after[k].id == first_id + (k - before.len()),
        (if is_cpp {
            target->callee.var is Some
        } else {
            found.ids@.len() == 0
        }) ==> after.len() == before.len() + 1 && after[k].callee_fn_id is None
            && after[k].callee_name == target->callee.name@ && after[k].is_direct
            == target->callee.is_direct && after[k].args == args@ && after[k].id == first_id,
        k == before.len() ==> after[k].callee_name == target->callee.name@,
{
    let callee = target->callee;
    let picked = choose|picked: Seq<usize>|
        {
            &&& #[trigger] collect::means(
                picked,
                is_cpp,
                callee.var,
                found,
                args.argc as nat,
                arg_types,
            )
            &&& after == before + calls::free_sites(
                first_id,
                place,
                (calls::FreeCall {
                    callee_name: callee.name,
                    callee_var: callee.var,
                    is_direct: callee.is_direct,
                    is_cpp,
                }),
                picked.map_values(|k: usize| found.ids@[k as int]),
                picked.map_values(|k: usize| found.members@[k as int]),
                args@,
                args.argc as nat,
            )
        };
    assert(picked.len() == 0 || picked.len() > 0);
}

/// Only a declaration that a definition of the same signature stands beside gives way.
pub proof fn law_definitions_displace_their_declarations(
    named: Seq<NamedCallee>,
    ranked: Seq<usize>,
    i: int,
)
    requires
        0 <= i < ranked.len(),
    ensures
        named[ranked[i] as int].is_defined ==> calls::without_displaced(named, ranked).contains(
            ranked[i],
        ),
        (forall|j: int|
            0 <= j < ranked.len() && named[#[trigger] ranked[j] as int].is_defined
                ==> !calls::same_signature(
                named[ranked[i] as int].signature,
                named[ranked[j] as int].signature,
            )) ==> calls::without_displaced(named, ranked).contains(ranked[i]),
        !named[ranked[i] as int].is_defined && (exists|j: int|
            0 <= j < ranked.len() && ranked[j] != ranked[i] && named[#[trigger] ranked[j] as int].is_defined
                && calls::same_signature(
                named[ranked[i] as int].signature,
                named[ranked[j] as int].signature,
            )) ==> !calls::without_displaced(named, ranked).contains(ranked[i]),
        ranked.len() == 1 ==> calls::without_displaced(named, ranked) == ranked,
{
    let p = |c: usize| calls::undisplaced(named, ranked, c);
    assert(ranked.contains(ranked[i]));
    if p(ranked[i]) {
        ranked.lemma_filter_contains(p, i);
    }
    if ranked.filter(p).contains(ranked[i]) {
        let k = choose|k: int| 0 <= k < ranked.filter(p).len() && ranked.filter(p)[k] == ranked[i];
        ranked.lemma_filter_pred(p, k);
    }
}

/// Two signatures are the same where both list the same parameters; where one lists none,
/// where both take as many.
pub proof fn law_signatures_agree_in_every_parameter(a: Signature, b: Signature, i: int)
    ensures
        a.variadic != b.variadic ==> !calls::same_signature(a, b),
        a.params@.len() > 0 && b.params@.len() > 0 && a.params@.len() != b.params@.len()
            ==> !calls::same_signature(a, b),
        a.params@.len() > 0 && a.params@.len() == b.params@.len() && 0 <= i < a.params@.len()
            && a.params@[i] != b.params@[i] ==> !calls::same_signature(a, b),
        a.params@.len() > 0 && a.params@ == b.params@ && a.variadic == b.variadic && (forall|j: int|
            0 <= j < a.params@.len() ==> (#[trigger] a.params@[j]) is Some)
            ==> calls::same_signature(a, b),
        calls::same_signature(a, b) ==> calls::same_signature(b, a),
{
    if calls::same_signature(a, b) && a.params@.len() > 0 && b.params@.len() > 0 {
        assert forall|j: int| 0 <= j < b.params@.len() implies (#[trigger] b.params@[j]) is Some
            && b.params@[j] == a.params@[j] by {
            assert(a.params@[j] is Some);
        }
    }
}

pub proof fn lemma_joined_in<T>(list: Seq<T>, more: Seq<T>, x: T)
    ensures
        scope::joined_in(list, more).contains(x) <==> list.contains(x) || more.contains(x),
    decreases more.len(),
{
    if more.len() > 0 {
        let before = scope::joined_in(list, more.drop_last());
        lemma_joined_in(list, more.drop_last(), x);
        let all = scope::joined_in(list, more);
        if more.contains(x) {
            let i = choose|i: int| 0 <= i < more.len() && more[i] == x;
            if i < more.len() - 1 {
                assert(more.drop_last()[i] == x);
            }
        }
        if more.drop_last().contains(x) {
            let i = choose|i: int| 0 <= i < more.drop_last().len() && more.drop_last()[i] == x;
            assert(more[i] == x);
        }
        assert(more[more.len() - 1] == more.last());
        if !before.contains(more.last()) {
            assert(all == before.push(more.last()));
            assert(all[before.len() as int] == more.last());
            if before.contains(x) {
                let i = choose|i: int| 0 <= i < before.len() && before[i] == x;
                assert(all[i] == x);
            }
            if all.contains(x) {
                let i = choose|i: int| 0 <= i < all.len() && all[i] == x;
                if i < before.len() {
                    assert(before[i] == x);
                }
            }
        }
    } else {
        assert(!more.contains(x));
    }
}

pub open spec fn answered(found: Seq<Vec<FnId>>, f: FnId) -> bool {
    exists|k: int| 0 <= k < found.len() && (#[trigger] found[k])@.contains(f)
}

proof fn lemma_answers(list: Seq<FnId>, found: Seq<Vec<FnId>>, k: int, f: FnId)
    requires
        0 <= k <= found.len(),
    ensures
        candidates::with_answers(list, found, k).contains(f) <==> list.contains(f) || exists|i: int|
            0 <= i < k && (#[trigger] found[i])@.contains(f),
    decreases k,
{
    if k > 0 {
        lemma_answers(list, found, k - 1, f);
        lemma_joined_in(candidates::with_answers(list, found, k - 1), found[k - 1]@, f);
    }
}

proof fn lemma_nearest(found: Seq<Vec<FnId>>, k: int, i: int)
    requires
        0 <= k <= i <= found.len(),
        i < found.len() ==> found[i]@.len() > 0,
        forall|j: int| k <= j < i ==> (#[trigger] found[j])@.len() == 0,
    ensures
        i < found.len() ==> candidates::nearest_declared(found, k) == found[i]@,
        i == found.len() ==> candidates::nearest_declared(found, k).len() == 0,
    decreases i - k,
{
    if k < i {
        assert(found[k]@.len() == 0);
        lemma_nearest(found, k + 1, i);
    }
}

/// The functions that a bare name may mean: those of the nearest scope that declares any,
/// those that a directive shows, those of the arguments' namespaces and those that are
/// imported under the name, and no others.
pub proof fn law_a_bare_name_means_all_that_it_can_see(
    enclosing: Seq<Vec<FnId>>,
    directives: Seq<Vec<FnId>>,
    argument: Seq<Vec<FnId>>,
    imports: Seq<Vec<FnId>>,
    i: int,
    f: FnId,
)
    requires
        0 <= i <= enclosing.len(),
        i < enclosing.len() ==> enclosing[i]@.len() > 0,
        forall|j: int| 0 <= j < i ==> (#[trigger] enclosing[j])@.len() == 0,
    ensures
        candidates::candidates_of(enclosing, directives, argument, imports).contains(f) <==> i
            < enclosing.len() && enclosing[i]@.contains(f) || answered(directives, f) || answered(
            argument,
            f,
        ) || answered(imports, f),
{
    lemma_nearest(enclosing, 0, i);
    let near = candidates::nearest_declared(enclosing, 0);
    let ordinary = scope::joined_in(seq![], near);
    lemma_joined_in(Seq::<FnId>::empty(), near, f);
    assert(Seq::<FnId>::empty() =~= seq![]);
    assert(!Seq::<FnId>::empty().contains(f));
    if i == enclosing.len() {
        assert(!near.contains(f));
    }
    let visible = candidates::with_answers(ordinary, directives, directives.len() as int);
    lemma_answers(ordinary, directives, directives.len() as int, f);
    let dependent = candidates::with_answers(visible, argument, argument.len() as int);
    lemma_answers(visible, argument, argument.len() as int, f);
    lemma_answers(dependent, imports, imports.len() as int, f);
}

/// A scope of a qualified name is what stands before one of its separators.
pub proof fn law_a_name_lies_in_the_scopes_before_it(s: Seq<char>, at: int)
    requires
        forall|i: int| !(#[trigger] text::has_at(s, "::"@, i) && text::has_at(s, "::"@, i + 1)),
        text::has_at(s, "::"@, at),
    ensures
        candidates::scopes_from(s, 0).contains(s.take(at)),
{
    lemma_scopes(s, 0, at);
}

proof fn lemma_scopes(s: Seq<char>, from: int, at: int)
    requires
        0 <= from <= at,
        forall|i: int| !(#[trigger] text::has_at(s, "::"@, i) && text::has_at(s, "::"@, i + 1)),
        text::has_at(s, "::"@, at),
    ensures
        candidates::scopes_from(s, from).contains(s.take(at)),
    decreases s.len() - from,
{
    reveal_strlit("::");
    lemma_found(s, from, at);
    let f = text::find_from(s, "::"@, from);
    let rest = candidates::scopes_from(s, f + "::"@.len());
    let all = candidates::scopes_from(s, from);
    assert(all == seq![s.take(f)] + rest);
    if f == at {
        assert(all[0] == s.take(at));
    } else {
        if at == f + 1 {
            assert(text::has_at(s, "::"@, f) && text::has_at(s, "::"@, f + 1));
        }
        lemma_scopes(s, f + 2, at);
        let k = choose|k: int| 0 <= k < rest.len() && rest[k] == s.take(at);
        assert(all[k + 1] == s.take(at));
    }
}

proof fn lemma_found(s: Seq<char>, from: int, at: int)
    requires
        0 <= from <= at,
        text::has_at(s, "::"@, at),
    ensures
        from <= text::find_from(s, "::"@, from) <= at,
        text::has_at(s, "::"@, text::find_from(s, "::"@, from)),
    decreases at - from,
{
    if from < at && !text::has_at(s, "::"@, from) {
        lemma_found(s, from + 1, at);
    }
}

/// A call of a member that is not virtual reaches the functions of the nearest class that
/// declares it; one that is, or a destructor, reaches what the dispatch lists for the
/// class, and so does a member that no class declares.
pub proof fn law_members_are_dispatched(d: Dispatch, x: ClassIndex, cls: Seq<char>, kind: MethodView)
    ensures
        ({
            let own = hierarchy::first_members(x, hierarchy::ancestry(x, cls), kind, 0);
            let listed = routes::closure_from(d.closures@, methods::member_name(kind, cls), 0);
            &&& kind is Dtor ==> d.targets(x, cls, kind) == listed
            &&& kind is Named && own.len() == 0 ==> d.targets(x, cls, kind) == listed
            &&& kind is Ctor && own.len() == 0 ==> d.targets(x, cls, kind).len() == 0
            &&& kind !is Dtor && own.len() > 0 && (forall|i: int|
                0 <= i < own.len() ==> !d.virtuals@.contains(#[trigger] own[i])) ==> d.targets(
                x,
                cls,
                kind,
            ) == own
            &&& (exists|i: int| 0 <= i < own.len() && d.virtuals@.contains(#[trigger] own[i]))
                ==> d.targets(x, cls, kind) == listed
        }),
{
}

} // verus!
