//! What ranking overloads by their arguments comes to: the same type beats every
//! conversion, and a better conversion never hides a worse one.

use crate::ir::{ScalarKind, TypeDesc};
use crate::overload;
use crate::overload::{Candidate, TypeShape};
use vstd::prelude::*;

verus! {

/// Both types are known.
pub open spec fn are_known(arg: TypeShape, param: TypeShape) -> bool {
    !(arg.desc is Unknown) && !(param.desc is Unknown)
}

/// An argument ranks as exact against a parameter just where the types are one or
/// one of them is not known.
pub proof fn law_exact_is_the_same_type(arg: TypeShape, param: TypeShape)
    ensures
        are_known(arg, param) ==> (overload::match_rank(arg, param) == 0 <==> arg.desc@
            == param.desc@),
        !are_known(arg, param) ==> overload::match_rank(arg, param) == 0,
{
}

/// A value that is a number and no pointer.
pub open spec fn is_whole_number(t: TypeShape) -> bool {
    !t.pointer_like && (t.scalar == ScalarKind::Char || t.scalar == ScalarKind::Short || t.scalar
        == ScalarKind::Int || t.scalar == ScalarKind::Long || t.scalar == ScalarKind::LongLong)
}

pub open spec fn is_fraction(t: TypeShape) -> bool {
    !t.pointer_like && (t.scalar == ScalarKind::Float || t.scalar == ScalarKind::Double)
}

/// Among conversions of one argument, those within a family cost less than those
/// between families: a promotion costs least, then a whole number becoming a
/// fraction and a pointer becoming another one, then a fraction losing its digits and
/// a truth value, and a pointer becoming no pointer or the other way round most.
pub proof fn law_conversions_cost_more_the_further_they_go(
    near: (TypeShape, TypeShape),
    far: (TypeShape, TypeShape),
)
    requires
        are_known(near.0, near.1) && near.0.desc@ != near.1.desc@,
        are_known(far.0, far.1) && far.0.desc@ != far.1.desc@,
    ensures
        ({
            let a = overload::match_rank(near.0, near.1);
            let b = overload::match_rank(far.0, far.1);
            let promotes = is_whole_number(near.0) && is_whole_number(near.1) || is_fraction(near.0)
                && is_fraction(near.1);
            let widens = is_whole_number(far.0) && is_fraction(far.1);
            let narrows = is_fraction(far.0) && is_whole_number(far.1);
            let pointers = far.0.pointer_like && far.1.pointer_like;
            let breaks = far.0.pointer_like != far.1.pointer_like;
            &&& promotes && (widens || narrows || pointers || breaks) ==> a < b
            &&& (is_whole_number(near.0) && is_fraction(near.1) || near.0.pointer_like
                && near.1.pointer_like) && (narrows || breaks) ==> a < b
            &&& is_fraction(near.0) && is_whole_number(near.1) && breaks ==> a < b
        }),
{
}

proof fn lemma_score(c: Candidate, args: Seq<TypeShape>, n: int)
    requires
        0 <= n <= c.params@.len(),
    ensures
        overload::score_up_to(c, args, n) == 0 <==> forall|i: int|
            0 <= i < n && i < args.len() ==> overload::match_rank(
                args[i],
                #[trigger] c.params@[i],
            ) == 0,
    decreases n,
{
    if n > 0 {
        lemma_score(c, args, n - 1);
        if n - 1 < args.len() {
            assert(c.params@[n - 1] == c.params@[n - 1]);
        }
    }
}

/// The arguments have the types of the parameters, as far as both are known.
pub open spec fn matches_exactly(c: Candidate, args: Seq<TypeShape>) -> bool {
    forall|i: int|
        0 <= i < args.len() && i < c.params@.len() && are_known(
            args[i],
            #[trigger] c.params@[i],
        ) ==> args[i].desc@ == c.params@[i].desc@
}

/// An overload matches exactly just where its parameters have the types of the
/// arguments, as far as both are known.
pub proof fn law_exact_overloads_take_the_types_passed(c: Candidate, args: Seq<TypeShape>)
    ensures
        overload::score(c, args) == 0 <==> matches_exactly(c, args),
{
    let n = c.params@.len() as int;
    lemma_score(c, args, n);
    if matches_exactly(c, args) {
        assert forall|i: int| 0 <= i < n && i < args.len() implies overload::match_rank(
            args[i],
            #[trigger] c.params@[i],
        ) == 0 by {
            law_exact_is_the_same_type(args[i], c.params@[i]);
        }
    }
    if overload::score(c, args) == 0 {
        assert forall|i: int|
            0 <= i < args.len() && i < c.params@.len() && are_known(
                args[i],
                #[trigger] c.params@[i],
            ) implies args[i].desc@ == c.params@[i].desc@ by {
            law_exact_is_the_same_type(args[i], c.params@[i]);
        }
    }
}

/// An overload whose parameters have the types of the arguments is the only one
/// kept, where every other differs from them in a parameter whose type is known.
/// Where none or several match, all are kept as they were.
pub proof fn law_the_overload_of_the_types_passed_is_kept_alone(
    candidates: Seq<Candidate>,
    among: Seq<usize>,
    args: Seq<TypeShape>,
    at: int,
)
    requires
        0 <= at < among.len(),
    ensures
        matches_exactly(candidates[among[at] as int], args) && (forall|k: int|
            0 <= k < among.len() && k != at ==> !matches_exactly(
                candidates[#[trigger] among[k] as int],
                args,
            )) ==> overload::ranked(candidates, among, args) == seq![among[at]],
        (forall|k: int|
            0 <= k < among.len() ==> !matches_exactly(
                candidates[#[trigger] among[k] as int],
                args,
            )) ==> overload::ranked(candidates, among, args) == among,
        matches_exactly(candidates[among[at] as int], args) && (exists|k: int|
            0 <= k < among.len() && k != at && matches_exactly(
                candidates[#[trigger] among[k] as int],
                args,
            )) ==> overload::ranked(candidates, among, args) == among,
{
    assert forall|k: int| 0 <= k < among.len() implies overload::score(
        candidates[#[trigger] among[k] as int],
        args,
    ) == 0 <==> matches_exactly(candidates[among[k] as int], args) by {
        law_exact_overloads_take_the_types_passed(candidates[among[k] as int], args);
    }
    let own = matches_exactly(candidates[among[at] as int], args);
    if own && (forall|k: int|
        0 <= k < among.len() && k != at ==> !matches_exactly(
            candidates[#[trigger] among[k] as int],
            args,
        )) {
        assert(overload::sole_match(candidates, among, args, at));
        let got = choose|got: int| #[trigger] overload::sole_match(candidates, among, args, got);
        if got != at {
            assert(overload::score(candidates[among[at] as int], args) > 0);
        }
    }
    if overload::ranks_apart(candidates, among, args) {
        let got = choose|got: int| #[trigger] overload::sole_match(candidates, among, args, got);
        assert(matches_exactly(candidates[among[got] as int], args));
        if own && got != at {
            assert(overload::score(candidates[among[at] as int], args) > 0);
        }
        assert forall|k: int| 0 <= k < among.len() && k != got implies !matches_exactly(
            candidates[#[trigger] among[k] as int],
            args,
        ) by {
            assert(overload::score(candidates[among[k] as int], args) > 0);
        }
    }
}

/// A call of `argc` arguments fits a function of fixed arity where it passes at
/// least the parameters without a default and at most all of them; one with a
/// variadic tail takes more; one whose arity is not recorded is kept on request.
pub proof fn law_arguments_are_counted(targets: Seq<Candidate>, i: int, argc: nat, keep: bool)
    requires
        0 <= i < targets.len(),
        targets[i].has_params,
    ensures
        ({
            let c = targets[i];
            let n = c.params@.len();
            &&& argc == n ==> overload::fits(targets, i, argc, keep)
            &&& argc > n ==> (overload::fits(targets, i, argc, keep) <==> c.variadic)
            &&& argc < n && n - argc <= c.default_args ==> overload::fits(targets, i, argc, keep)
            &&& argc < n && (forall|j: int|
                0 <= j < targets.len() ==> n - argc > (#[trigger] targets[j]).default_args)
                ==> !overload::fits(targets, i, argc, keep)
        }),
{
    let n = targets[i].params@.len();
    if argc < n && overload::fits(targets, i, argc, keep) && !overload::takes(
        targets[i],
        n,
        argc,
    ) {
        let j = choose|j: int| overload::lends_defaults(targets, i, j, n, argc);
        assert(targets[j].default_args >= n - argc);
    }
}

/// A recorded arity counts where there are no parameters to count, and without one
/// the target stays where unknown ones are kept.
pub proof fn law_recorded_arities_count(targets: Seq<Candidate>, i: int, argc: nat, keep: bool)
    requires
        0 <= i < targets.len(),
        !targets[i].has_params,
    ensures
        targets[i].explicit_arity is None ==> overload::fits(targets, i, argc, keep) == keep,
        targets[i].explicit_arity matches Some(n) ==> (argc == n ==> overload::fits(
            targets,
            i,
            argc,
            keep,
        )) && (argc > n ==> overload::fits(targets, i, argc, keep) == targets[i].variadic),
{
}

/// Two declarations lend each other their defaults only where their parameter types
/// may be one: a pointer and a number are two.
pub proof fn law_signatures_differ_in_a_known_type(a: Candidate, b: Candidate, i: int)
    requires
        0 <= i < a.params@.len(),
        i < b.params@.len(),
    ensures
        a.params@[i].desc is Ptr && b.params@[i].desc is Int ==> !overload::same_signature(a, b),
        a.params@[i].desc is Int && b.params@[i].desc is Double ==> !overload::same_signature(a, b),
        overload::same_signature(a, b) ==> overload::loosely_same(
            a.params@[i].desc,
            b.params@[i].desc,
        ),
{
    assert(a.params@[i] == a.params@[i]);
}

/// Types are compared loosely: each is the type of itself, and the comparison goes
/// both ways and through pointers.
pub proof fn law_loose_comparison_goes_both_ways(a: TypeDesc, b: TypeDesc)
    ensures
        overload::loosely_same(a, b) == overload::loosely_same(b, a),
        overload::loosely_same(
            TypeDesc::Ptr(Box::new(a)),
            TypeDesc::Ptr(Box::new(b)),
        ) == overload::loosely_same(a, b),
        a@ == b@ ==> overload::loosely_same(a, b),
        a is Unknown ==> overload::loosely_same(a, b),
    decreases a,
{
    match (a, b) {
        (TypeDesc::Ptr(x), TypeDesc::Ptr(y)) => law_loose_comparison_goes_both_ways(*x, *y),
        _ => {},
    }
}

/// A fixed overload that takes the arguments for sure drops the variadic ones, and
/// nothing else is dropped that fits.
pub proof fn law_sure_overloads_hide_variadic_ones(
    targets: Seq<Candidate>,
    i: int,
    j: int,
    argc: nat,
    args: Seq<TypeShape>,
    keep: bool,
)
    requires
        0 <= i < targets.len(),
        0 <= j < targets.len(),
        overload::fits(targets, i, argc, keep),
        overload::fits(targets, j, argc, keep),
    ensures
        !targets[i].variadic ==> overload::left_by_argc(targets, i, argc, args, keep),
        !targets[i].variadic && overload::surely_takes(targets[i], args) && targets[j].variadic
            ==> !overload::left_by_argc(targets, j, argc, args, keep),
{
}

/// Arguments are taken for sure where all types are known and none is a pointer to
/// a number or a fraction to a pointer.
pub proof fn law_a_pointer_is_no_number(c: Candidate, args: Seq<TypeShape>, i: int)
    requires
        0 <= i < args.len(),
    ensures
        args[i].desc is Unknown ==> !overload::surely_takes(c, args),
        i < c.params@.len() && args[i].pointer_like && is_whole_number(c.params@[i])
            ==> !overload::surely_takes(c, args),
        i < c.params@.len() && is_fraction(args[i]) && c.params@[i].pointer_like
            ==> !overload::surely_takes(c, args),
        (forall|j: int| 0 <= j < args.len() ==> !((#[trigger] args[j]).desc is Unknown) && !args[j].pointer_like
            && !is_fraction(args[j])) ==> overload::surely_takes(c, args),
{
    if (forall|j: int| 0 <= j < args.len() ==> !((#[trigger] args[j]).desc is Unknown)
        && !args[j].pointer_like && !is_fraction(args[j])) {
        assert forall|j: int| 0 <= j < args.len() && j < c.params@.len() implies overload::can_bind(
            args[j],
            #[trigger] c.params@[j],
        ) by {
            assert(!args[j].pointer_like);
        }
    }
}

} // verus!
