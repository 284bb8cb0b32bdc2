//! Which of several functions of one name a call means: by the number of its
//! arguments, then by how well their types match.

use crate::ir::{desc_eq, ScalarKind, TypeDesc};
use crate::normalize;
use crate::normalize::last_type_segment;
use crate::text::str_eq;
use vstd::prelude::*;

verus! {

/// A type together with how the type table classifies it.
#[derive(Debug, PartialEq, Eq)]
pub struct TypeShape {
    pub desc: TypeDesc,
    pub scalar: ScalarKind,
    pub pointer_like: bool,
}

/// What overload resolution reads of a function: the types of its explicit
/// parameters (`this` left out), whether it has parameter variables at all, and
/// what its declaration recorded of its parameter list.
#[derive(Debug, PartialEq, Eq)]
pub struct Candidate {
    pub has_params: bool,
    pub params: Vec<TypeShape>,
    pub explicit_arity: Option<u32>,
    pub default_args: u32,
    pub variadic: bool,
}

/// `picked` are, in order, the positions below `n` that satisfy `p`.
pub open spec fn lists(picked: Seq<usize>, n: int, p: spec_fn(int) -> bool) -> bool {
    &&& forall|i: int, j: int| 0 <= i < j < picked.len() ==> picked[i] < picked[j]
    &&& forall|i: int| 0 <= i < picked.len() ==> 0 <= #[trigger] picked[i] < n && p(picked[i] as int)
    &&& forall|k: int| 0 <= k < n && #[trigger] p(k) ==> picked.contains(k as usize)
}

/// The number of explicit parameters: of the list where there is one, else the
/// one the declaration recorded.
pub open spec fn arity_of(c: Candidate) -> Option<nat> {
    if c.has_params {
        Some(c.params@.len())
    } else {
        match c.explicit_arity {
            Some(n) => Some(n as nat),
            None => None,
        }
    }
}

/// Explicit (non-`this`) parameter count: the parameter list when the entry
/// has one, else the count its declaration recorded. `None` means nothing
/// records it, so the candidate must be kept.
pub fn method_explicit_arity(c: &Candidate) -> (r: Option<usize>)
    ensures
        match r {
            Some(n) => arity_of(*c) == Some(n as nat),
            None => arity_of(*c) is None,
        },
{
    if c.has_params {
        Some(c.params.len())
    } else {
        match c.explicit_arity {
            Some(n) => Some(n as usize),
            None => None,
        }
    }
}

/// Two arities that may be one: an unrecorded arity fits any.
pub fn arity_compatible(expected: Option<usize>, got: Option<usize>) -> (r: bool)
    ensures
        r == (expected is None || got is None || expected == got),
{
    match (expected, got) {
        (Some(a), Some(b)) => a == b,
        _ => true,
    }
}

/// A function of `declared` explicit parameters takes `argc` arguments on its
/// own defaults and variadic tail.
pub open spec fn takes(c: Candidate, declared: nat, argc: nat) -> bool {
    if argc == declared {
        true
    } else if argc > declared {
        c.variadic
    } else {
        argc + c.default_args >= declared
    }
}

pub fn arity_takes(c: &Candidate, declared: usize, argc: usize) -> (r: bool)
    ensures
        r == takes(*c, declared as nat, argc as nat),
{
    if argc == declared {
        true
    } else if argc > declared {
        c.variadic
    } else {
        c.default_args as u64 >= (declared - argc) as u64
    }
}

/// Two parameter types that plausibly are one: up to the qualification of a
/// class name, with an unknown type matching anything and `int` matching a
/// class, which is what an unresolved type name is lowered as.
pub open spec fn loosely_same(a: TypeDesc, b: TypeDesc) -> bool
    decreases a,
{
    match (a, b) {
        (TypeDesc::Unknown, _) => true,
        (_, TypeDesc::Unknown) => true,
        (TypeDesc::Struct { .. }, TypeDesc::Int) => true,
        (TypeDesc::Int, TypeDesc::Struct { .. }) => true,
        (TypeDesc::Ptr(x), TypeDesc::Ptr(y)) => loosely_same(*x, *y),
        (TypeDesc::Struct { name: m, .. }, TypeDesc::Struct { name: n, .. }) => {
            normalize::last_segment(m@) == normalize::last_segment(n@)
        },
        _ => a@ == b@,
    }
}

fn same_type(a: &TypeDesc, b: &TypeDesc) -> (r: bool)
    ensures
        r == loosely_same(*a, *b),
    decreases a,
{
    match (a, b) {
        (TypeDesc::Unknown, _) => true,
        (_, TypeDesc::Unknown) => true,
        (TypeDesc::Struct { .. }, TypeDesc::Int) => true,
        (TypeDesc::Int, TypeDesc::Struct { .. }) => true,
        (TypeDesc::Ptr(x), TypeDesc::Ptr(y)) => same_type(x, y),
        (TypeDesc::Struct { name: m, .. }, TypeDesc::Struct { name: n, .. }) => {
            let x = last_type_segment(m.as_str());
            let y = last_type_segment(n.as_str());
            str_eq(x.as_str(), y.as_str())
        },
        _ => desc_eq(a, b),
    }
}

/// Two declarations plausibly declare the same function: their parameter types
/// agree as far as both list them. An entry without parameters names no types.
pub open spec fn same_signature(a: Candidate, b: Candidate) -> bool {
    ||| a.params@.len() == 0
    ||| b.params@.len() == 0
    ||| forall|i: int|
        0 <= i < a.params@.len() && i < b.params@.len() ==> loosely_same(
            (#[trigger] a.params@[i]).desc,
            b.params@[i].desc,
        )
}

pub fn same_signature_loosely(a: &Candidate, b: &Candidate) -> (r: bool)
    ensures
        r == same_signature(*a, *b),
{
    if a.params.len() == 0 || b.params.len() == 0 {
        return true;
    }
    let mut i: usize = 0;
    while i < a.params.len() && i < b.params.len()
        invariant
            a.params@.len() > 0,
            b.params@.len() > 0,
            i <= a.params@.len(),
            i <= b.params@.len(),
            forall|j: int|
                0 <= j < i ==> loosely_same((#[trigger] a.params@[j]).desc, b.params@[j].desc),
        decreases a.params@.len() - i,
    {
        if !same_type(&a.params[i].desc, &b.params[i].desc) {
            return false;
        }
        i += 1;
    }
    true
}

pub open spec fn floating(s: ScalarKind) -> bool {
    s == ScalarKind::Float || s == ScalarKind::Double
}

/// An argument can bind a parameter: no pointer binds an arithmetic parameter,
/// and no floating-point value a pointer.
pub open spec fn can_bind(arg: TypeShape, param: TypeShape) -> bool {
    !(arg.pointer_like && param.scalar != ScalarKind::Aggregate || floating(arg.scalar)
        && param.pointer_like)
}

/// The types say with confidence that the function takes the arguments: each
/// is known and can bind its parameter.
pub open spec fn surely_takes(c: Candidate, args: Seq<TypeShape>) -> bool {
    &&& forall|i: int| 0 <= i < args.len() ==> !((#[trigger] args[i]).desc is Unknown)
    &&& forall|i: int|
        0 <= i < args.len() && i < c.params@.len() ==> can_bind(args[i], #[trigger] c.params@[i])
}

pub fn confidently_takes(c: &Candidate, args: &Vec<TypeShape>) -> (r: bool)
    ensures
        r == surely_takes(*c, args@),
{
    let mut i: usize = 0;
    while i < args.len()
        invariant
            i <= args@.len(),
            forall|j: int| 0 <= j < i ==> !((#[trigger] args@[j]).desc is Unknown),
        decreases args@.len() - i,
    {
        if matches!(args[i].desc, TypeDesc::Unknown) {
            return false;
        }
        i += 1;
    }
    let mut k: usize = 0;
    while k < args.len() && k < c.params.len()
        invariant
            k <= args@.len(),
            k <= c.params@.len(),
            forall|j: int| 0 <= j < args@.len() ==> !((#[trigger] args@[j]).desc is Unknown),
            forall|j: int| 0 <= j < k ==> can_bind(args@[j], #[trigger] c.params@[j]),
        decreases args@.len() - k,
    {
        let arg = &args[k];
        let param = &c.params[k];
        let is_floating = arg.scalar == ScalarKind::Float || arg.scalar == ScalarKind::Double;
        if arg.pointer_like && param.scalar != ScalarKind::Aggregate || is_floating
            && param.pointer_like {
            assert(!can_bind(args@[k as int], c.params@[k as int]));
            return false;
        }
        k += 1;
    }
    true
}

/// Target `i` fits a call of `argc` arguments: by its own parameters, defaults
/// and variadic tail, or by the defaults of a target of the same arity and
/// signature. A target of unrecorded arity fits where `keep_unknown` says so.
pub open spec fn fits(targets: Seq<Candidate>, i: int, argc: nat, keep_unknown: bool) -> bool {
    match arity_of(targets[i]) {
        Some(declared) => takes(targets[i], declared, argc) || (declared > argc && exists|j: int|
            lends_defaults(targets, i, j, declared, argc)),
        None => keep_unknown,
    }
}

pub open spec fn lends_defaults(
    targets: Seq<Candidate>,
    i: int,
    j: int,
    declared: nat,
    argc: nat,
) -> bool {
    &&& 0 <= j < targets.len()
    &&& arity_of(targets[j]) == Some(declared)
    &&& argc + targets[j].default_args >= declared
    &&& same_signature(targets[i], targets[j])
}

/// A fixed target that fits takes the arguments with confidence, so that the
/// variadic ones that fit are ranked below it.
pub open spec fn outranks_variadic(
    targets: Seq<Candidate>,
    argc: nat,
    args: Seq<TypeShape>,
    keep_unknown: bool,
) -> bool {
    exists|i: int|
        0 <= i < targets.len() && fits(targets, i, argc, keep_unknown) && !(
        #[trigger] targets[i]).variadic && surely_takes(targets[i], args)
}

/// Target `i` is left after the arguments are counted: it fits, and is no
/// variadic one that a fixed target outranks.
pub open spec fn left_by_argc(
    targets: Seq<Candidate>,
    i: int,
    argc: nat,
    args: Seq<TypeShape>,
    keep_unknown: bool,
) -> bool {
    fits(targets, i, argc, keep_unknown) && !(targets[i].variadic && outranks_variadic(
        targets,
        argc,
        args,
        keep_unknown,
    ))
}

/// Some target fits.
pub open spec fn some_fits(targets: Seq<Candidate>, argc: nat, keep_unknown: bool) -> bool {
    exists|i: int| 0 <= i < targets.len() && #[trigger] fits(targets, i, argc, keep_unknown)
}

fn is_fitting(targets: &Vec<Candidate>, i: usize, argc: usize, keep_unknown: bool) -> (r: bool)
    requires
        i < targets@.len(),
    ensures
        r == fits(targets@, i as int, argc as nat, keep_unknown),
{
    match method_explicit_arity(&targets[i]) {
        None => keep_unknown,
        Some(declared) => {
            if arity_takes(&targets[i], declared, argc) {
                return true;
            }
            if declared <= argc {
                return false;
            }
            let mut j: usize = 0;
            while j < targets.len()
                invariant
                    i < targets@.len(),
                    j <= targets@.len(),
                    declared > argc,
                    forall|k: int|
                        0 <= k < j ==> !lends_defaults(
                            targets@,
                            i as int,
                            k,
                            declared as nat,
                            argc as nat,
                        ),
                    arity_of(targets@[i as int]) == Some(declared as nat),
                    !takes(targets@[i as int], declared as nat, argc as nat),
                decreases targets@.len() - j,
            {
                let other = &targets[j];
                let same_arity = match method_explicit_arity(other) {
                    Some(n) => n == declared,
                    None => false,
                };
                if same_arity && other.default_args as u64 >= (declared - argc) as u64
                    && same_signature_loosely(&targets[i], other) {
                    assert(lends_defaults(
                        targets@,
                        i as int,
                        j as int,
                        declared as nat,
                        argc as nat,
                    ));
                    return true;
                }
                j += 1;
            }
            false
        },
    }
}

/// The targets a call passing `argc` arguments fits: no more arguments than a
/// target declares, and no fewer than its parameters without a default. A
/// variadic target takes more, but is dropped when a fixed target confidently
/// takes the call. When none fits, all stay.
pub fn filter_targets_by_argc(
    targets: &Vec<Candidate>,
    argc: usize,
    args: &Vec<TypeShape>,
    keep_unknown: bool,
) -> (picked: Vec<usize>)
    ensures
        some_fits(targets@, argc as nat, keep_unknown) ==> lists(
            picked@,
            targets@.len() as int,
            |i: int| left_by_argc(targets@, i, argc as nat, args@, keep_unknown),
        ),
        !some_fits(targets@, argc as nat, keep_unknown) ==> lists(
            picked@,
            targets@.len() as int,
            |i: int| true,
        ),
{
    let ghost n = argc as nat;
    let mut fitting: Vec<bool> = Vec::new();
    let mut outranked = false;
    let mut any = false;
    let mut i: usize = 0;
    while i < targets.len()
        invariant
            i <= targets@.len(),
            n == argc as nat,
            fitting@.len() == i,
            forall|k: int|
                0 <= k < i ==> #[trigger] fitting@[k] == fits(targets@, k, n, keep_unknown),
            any == exists|k: int| 0 <= k < i && #[trigger] fits(targets@, k, n, keep_unknown),
            outranked == exists|k: int|
                0 <= k < i && fits(targets@, k, n, keep_unknown) && !(
                #[trigger] targets@[k]).variadic && surely_takes(targets@[k], args@),
        decreases targets@.len() - i,
    {
        let fit = is_fitting(targets, i, argc, keep_unknown);
        if fit {
            any = true;
        }
        if fit && !targets[i].variadic && confidently_takes(&targets[i], args) {
            outranked = true;
        }
        fitting.push(fit);
        i += 1;
    }
    assert(any == some_fits(targets@, n, keep_unknown));
    assert(outranked == outranks_variadic(targets@, n, args@, keep_unknown));
    let mut picked: Vec<usize> = Vec::new();
    let mut k: usize = 0;
    while k < targets.len()
        invariant
            k <= targets@.len(),
            n == argc as nat,
            fitting@.len() == targets@.len(),
            forall|j: int|
                0 <= j < targets@.len() ==> #[trigger] fitting@[j] == fits(
                    targets@,
                    j,
                    n,
                    keep_unknown,
                ),
            outranked == outranks_variadic(targets@, n, args@, keep_unknown),
            forall|a: int, b: int| 0 <= a < b < picked@.len() ==> picked@[a] < picked@[b],
            forall|a: int| 0 <= a < picked@.len() ==> #[trigger] picked@[a] < k,
            any ==> forall|a: int|
                0 <= a < picked@.len() ==> left_by_argc(
                    targets@,
                    #[trigger] picked@[a] as int,
                    n,
                    args@,
                    keep_unknown,
                ),
            any ==> forall|j: int|
                0 <= j < k && #[trigger] left_by_argc(targets@, j, n, args@, keep_unknown)
                    ==> picked@.contains(j as usize),
            !any ==> picked@.len() == k && forall|j: int|
                0 <= j < k ==> #[trigger] picked@[j] == j,
        decreases targets@.len() - k,
    {
        let ghost before = picked@;
        if !any || (fitting[k] && !(targets[k].variadic && outranked)) {
            picked.push(k);
        }
        proof {
            assert forall|j: int|
                0 <= j < k + 1 && any && #[trigger] left_by_argc(
                    targets@,
                    j,
                    n,
                    args@,
                    keep_unknown,
                ) implies picked@.contains(j as usize) by {
                if j < k {
                    let at = choose|at: int| 0 <= at < before.len() && before[at] == j as usize;
                    assert(picked@[at] == j as usize);
                } else {
                    assert(picked@[before.len() as int] == k);
                }
            }
        }
        k += 1;
    }
    proof {
        if !any {
            let all = |i: int| true;
            assert forall|j: int| 0 <= j < targets@.len() && #[trigger] all(j) implies picked@.contains(
                j as usize,
            ) by {
                assert(picked@[j] == j);
            }
            assert(lists(picked@, targets@.len() as int, all));
        } else {
            let left = |i: int| left_by_argc(targets@, i, argc as nat, args@, keep_unknown);
            assert(lists(picked@, targets@.len() as int, left));
        }
    }
    picked
}

/// How far an argument is from a parameter: 0 for the same type or an unknown
/// one, more for each kind of conversion.
pub open spec fn match_rank(arg: TypeShape, param: TypeShape) -> nat {
    if arg.desc@ == param.desc@ || arg.desc is Unknown || param.desc is Unknown {
        0
    } else if arg.pointer_like && param.pointer_like {
        2
    } else if arg.pointer_like || param.pointer_like {
        4
    } else if floating(arg.scalar) && floating(param.scalar) {
        1
    } else if floating(arg.scalar) && integral(param.scalar) {
        3
    } else if integral(arg.scalar) && floating(param.scalar) {
        2
    } else if arg.scalar == ScalarKind::Bool || param.scalar == ScalarKind::Bool {
        3
    } else {
        1
    }
}

pub open spec fn integral(s: ScalarKind) -> bool {
    s == ScalarKind::Int || s == ScalarKind::Short || s == ScalarKind::Long || s
        == ScalarKind::LongLong || s == ScalarKind::Char
}

fn is_floating(s: ScalarKind) -> (r: bool)
    ensures
        r == floating(s),
{
    s == ScalarKind::Float || s == ScalarKind::Double
}

fn is_integral(s: ScalarKind) -> (r: bool)
    ensures
        r == integral(s),
{
    s == ScalarKind::Int || s == ScalarKind::Short || s == ScalarKind::Long || s
        == ScalarKind::LongLong || s == ScalarKind::Char
}

pub fn param_match_rank(arg: &TypeShape, param: &TypeShape) -> (r: usize)
    ensures
        r == match_rank(*arg, *param),
{
    if desc_eq(&arg.desc, &param.desc) || matches!(arg.desc, TypeDesc::Unknown) || matches!(
        param.desc,
        TypeDesc::Unknown
    ) {
        0
    } else if arg.pointer_like && param.pointer_like {
        2
    } else if arg.pointer_like || param.pointer_like {
        4
    } else if is_floating(arg.scalar) && is_floating(param.scalar) {
        1
    } else if is_floating(arg.scalar) && is_integral(param.scalar) {
        3
    } else if is_integral(arg.scalar) && is_floating(param.scalar) {
        2
    } else if arg.scalar == ScalarKind::Bool || param.scalar == ScalarKind::Bool {
        3
    } else {
        1
    }
}

/// The ranks of the parameters of `c` up to `n`, added; a parameter without an
/// argument is matched by an unknown one.
pub open spec fn score_up_to(c: Candidate, args: Seq<TypeShape>, n: int) -> nat
    decreases n,
{
    if n <= 0 {
        0
    } else {
        score_up_to(c, args, n - 1) + (if n - 1 < args.len() {
            match_rank(args[n - 1], c.params@[n - 1])
        } else {
            0
        })
    }
}

pub open spec fn score(c: Candidate, args: Seq<TypeShape>) -> nat {
    score_up_to(c, args, c.params@.len() as int)
}

fn is_exact(c: &Candidate, args: &Vec<TypeShape>) -> (r: bool)
    ensures
        r == (score(*c, args@) == 0),
{
    let mut n: usize = 0;
    while n < c.params.len()
        invariant
            n <= c.params@.len(),
            score_up_to(*c, args@, n as int) == 0,
        decreases c.params@.len() - n,
    {
        if n < args.len() && param_match_rank(&args[n], &c.params[n]) != 0 {
            proof {
                lemma_score_grows(*c, args@, n + 1, c.params@.len() as int);
            }
            return false;
        }
        n += 1;
    }
    true
}

proof fn lemma_score_grows(c: Candidate, args: Seq<TypeShape>, m: int, n: int)
    requires
        0 <= m <= n,
    ensures
        score_up_to(c, args, m) <= score_up_to(c, args, n),
    decreases n - m,
{
    if m < n {
        lemma_score_grows(c, args, m, n - 1);
    }
}

/// Candidate `at` of those in `among` matches the arguments exactly, and no
/// other does.
pub open spec fn sole_match(
    candidates: Seq<Candidate>,
    among: Seq<usize>,
    args: Seq<TypeShape>,
    at: int,
) -> bool {
    &&& 0 <= at < among.len()
    &&& score(candidates[among[at] as int], args) == 0
    &&& forall|k: int|
        0 <= k < among.len() && k != at ==> score(
            candidates[#[trigger] among[k] as int],
            args,
        ) > 0
}

/// One of the candidates in `among` is the best match: it alone matches the
/// arguments exactly.
pub open spec fn ranks_apart(
    candidates: Seq<Candidate>,
    among: Seq<usize>,
    args: Seq<TypeShape>,
) -> bool {
    exists|at: int| #[trigger] sole_match(candidates, among, args, at)
}

/// Pick among candidates of one arity by the types of the arguments: one that
/// alone matches exactly beats every conversion. Any ambiguity keeps the whole
/// list.
pub fn rank_overloads(
    candidates: &Vec<Candidate>,
    among: &Vec<usize>,
    args: &Vec<TypeShape>,
) -> (picked: Vec<usize>)
    requires
        forall|k: int| 0 <= k < among@.len() ==> #[trigger] among@[k] < candidates@.len(),
    ensures
        picked@ == ranked(candidates@, among@, args@),
        forall|k: int| 0 <= k < picked@.len() ==> #[trigger] picked@[k] < candidates@.len(),
{
    let mut first: Option<usize> = None;
    let mut i: usize = 0;
    while i < among.len()
        invariant
            i <= among@.len(),
            forall|k: int| 0 <= k < among@.len() ==> #[trigger] among@[k] < candidates@.len(),
            match first {
                Some(at) => at < i && score(candidates@[among@[at as int] as int], args@) == 0
                    && forall|k: int|
                    0 <= k < i && k != at ==> score(
                        candidates@[#[trigger] among@[k] as int],
                        args@,
                    ) > 0,
                None => forall|k: int|
                    0 <= k < i ==> score(candidates@[#[trigger] among@[k] as int], args@) > 0,
            },
        decreases among@.len() - i,
    {
        if is_exact(&candidates[among[i]], args) {
            if let Some(at) = first {
                proof {
                    assert(score(candidates@[among@[i as int] as int], args@) == 0);
                    assert forall|j: int| !#[trigger] sole_match(candidates@, among@, args@, j) by {
                        if j == at {
                            assert(among@[i as int] == among@[i as int]);
                        } else {
                            assert(among@[at as int] == among@[at as int]);
                        }
                    }
                }
                return copy_indices(among);
            }
            first = Some(i);
        }
        i += 1;
    }
    match first {
        Some(at) => {
            proof {
                assert(sole_match(candidates@, among@, args@, at as int));
                assert forall|j: int| #[trigger]
                    sole_match(candidates@, among@, args@, j) implies j == at by {
                    if j != at {
                        assert(score(candidates@[among@[j] as int], args@) > 0);
                    }
                }
            }
            let mut picked: Vec<usize> = Vec::new();
            picked.push(among[at]);
            assert(picked@ =~= seq![among@[at as int]]);
            picked
        },
        None => {
            assert(!ranks_apart(candidates@, among@, args@));
            copy_indices(among)
        },
    }
}

/// The candidates that ranking leaves: the best match alone, where there is
/// one.
pub open spec fn ranked(
    candidates: Seq<Candidate>,
    among: Seq<usize>,
    args: Seq<TypeShape>,
) -> Seq<usize> {
    if ranks_apart(candidates, among, args) {
        seq![among[choose|at: int| #[trigger] sole_match(candidates, among, args, at)]]
    } else {
        among
    }
}

pub fn copy_indices(list: &Vec<usize>) -> (r: Vec<usize>)
    ensures
        r@ == list@,
{
    let mut r: Vec<usize> = Vec::new();
    let mut k: usize = 0;
    while k < list.len()
        invariant
            k <= list@.len(),
            r@ == list@.take(k as int),
        decreases list@.len() - k,
    {
        r.push(list[k]);
        assert(r@ =~= list@.take(k + 1));
        k += 1;
    }
    assert(r@ =~= list@);
    r
}

/// Whatever the arguments, ranking keeps some candidate of a list that has one,
/// and two candidates that match exactly keep the whole list.
pub proof fn law_ranking_keeps_a_candidate(
    candidates: Seq<Candidate>,
    among: Seq<usize>,
    args: Seq<TypeShape>,
    i: int,
    j: int,
)
    requires
        among.len() > 0,
    ensures
        ranked(candidates, among, args).len() > 0,
        0 <= i < j < among.len() && score(candidates[among[i] as int], args) == 0 && score(
            candidates[among[j] as int],
            args,
        ) == 0 ==> ranked(candidates, among, args) == among,
{
    if 0 <= i < j < among.len() && score(candidates[among[i] as int], args) == 0 && score(
        candidates[among[j] as int],
        args,
    ) == 0 {
        assert forall|at: int| !#[trigger] sole_match(candidates, among, args, at) by {
            if at == i {
                assert(among[j] == among[j]);
            } else {
                assert(among[i] == among[i]);
            }
        }
    }
}

/// Counting the arguments keeps some target of a list that has one.
pub proof fn law_counting_keeps_a_target(
    targets: Seq<Candidate>,
    argc: nat,
    args: Seq<TypeShape>,
    keep_unknown: bool,
    picked: Seq<usize>,
)
    requires
        targets.len() > 0,
        some_fits(targets, argc, keep_unknown) ==> lists(
            picked,
            targets.len() as int,
            |i: int| left_by_argc(targets, i, argc, args, keep_unknown),
        ),
        !some_fits(targets, argc, keep_unknown) ==> lists(
            picked,
            targets.len() as int,
            |i: int| true,
        ),
    ensures
        picked.len() > 0,
{
    let left = |i: int| left_by_argc(targets, i, argc, args, keep_unknown);
    let all = |i: int| true;
    if some_fits(targets, argc, keep_unknown) {
        if outranks_variadic(targets, argc, args, keep_unknown) {
            let i = choose|i: int|
                0 <= i < targets.len() && fits(targets, i, argc, keep_unknown) && !(
                #[trigger] targets[i]).variadic && surely_takes(targets[i], args);
            assert(left(i));
            assert(picked.contains(i as usize));
        } else {
            let i = choose|i: int|
                0 <= i < targets.len() && #[trigger] fits(targets, i, argc, keep_unknown);
            assert(left(i));
            assert(picked.contains(i as usize));
        }
    } else {
        assert(all(0));
        assert(picked.contains(0usize));
    }
}

} // verus!
