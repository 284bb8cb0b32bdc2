//! The names members are declared under: where a declared name's scope ends,
//! and one name per conversion operator however far its target is spelled out.

use crate::normalize;
use crate::normalize::{drop_prefix, requalified, respaced};
use crate::text;
use crate::text::{append, begins, chars_of, ends, find, part, string_of, word_char};
use vstd::prelude::*;

verus! {

/// The `operator` that stands at `at` is the keyword: it opens the name or
/// follows a scope, and no identifier goes on behind it.
pub open spec fn keyword_at(s: Seq<char>, at: int) -> bool {
    let end = at + "operator"@.len();
    &&& at == 0 || text::ends_with(s.take(at), "::"@)
    &&& !(end < s.len() && text::is_word(s[end]))
}

/// Where the `operator` keyword stands at or after `from`, or -1.
pub open spec fn operator_at(s: Seq<char>, from: int) -> int
    decreases s.len() - from,
    when true
    via operator_at_decreases
{
    let at = text::find_from(s, "operator"@, from);
    if from < 0 || at < 0 {
        -1
    } else if keyword_at(s, at) {
        at
    } else {
        operator_at(s, at + "operator"@.len())
    }
}

#[via_fn]
proof fn operator_at_decreases(s: Seq<char>, from: int) {
    reveal_strlit("operator");
    if from >= 0 {
        text::lemma_find_from(s, "operator"@, from);
    }
}

/// The part of a declared name that can name a scope.
pub open spec fn scope_of(s: Seq<char>) -> Seq<char> {
    if operator_at(s, 0) < 0 {
        s
    } else {
        s.take(operator_at(s, 0))
    }
}

proof fn lemma_operator_at(s: Seq<char>, from: int)
    requires
        0 <= from,
    ensures
        operator_at(s, from) >= 0 ==> {
            &&& from <= operator_at(s, from)
            &&& text::has_at(s, "operator"@, operator_at(s, from))
            &&& keyword_at(s, operator_at(s, from))
        },
        operator_at(s, from) < 0 ==> operator_at(s, from) == -1,
    decreases s.len() - from,
{
    reveal_strlit("operator");
    text::lemma_find_from(s, "operator"@, from);
    let at = text::find_from(s, "operator"@, from);
    if at >= 0 && !keyword_at(s, at) {
        lemma_operator_at(s, at + "operator"@.len());
    }
}

/// How long the scope of a declared name is.
fn scope_len(name: &[char]) -> (n: usize)
    ensures
        n <= name@.len(),
        scope_of(name@) == name@.take(n as int),
{
    proof {
        reveal_strlit("operator");
    }
    let word = chars_of("operator");
    let sep = chars_of("::");
    let mut from: usize = 0;
    loop
        invariant
            word@ == "operator"@,
            word@.len() == 8,
            sep@ == "::"@,
            from <= name@.len(),
            operator_at(name@, 0) == operator_at(name@, from as int),
        decreases name@.len() - from,
    {
        proof {
            text::lemma_find_from(name@, word@, from as int);
        }
        match find(name, &word, from) {
            None => {
                assert(name@.take(name@.len() as int) =~= name@);
                return name.len();
            },
            Some(at) => {
                let end = at + word.len();
                let before = part(name, 0, at);
                assert(before@ =~= name@.take(at as int));
                let opens = at == 0 || ends(&before, &sep);
                if opens && !(end < name.len() && word_char(name[end])) {
                    return at;
                }
                from = end;
            },
        }
    }
}

/// The part of a declared name that can name a scope: everything before the
/// `operator` keyword, or the whole name when there is none. A conversion
/// operator's target is part of the name, so `operator ns::S` names no scope
/// while `Cls::operator ns::S` names `Cls::`.
pub fn scope_part(name: &str) -> (r: String)
    ensures
        r@ == scope_of(name@),
{
    let s = chars_of(name);
    let n = scope_len(&s);
    assert(s@.take(n as int) =~= s@.subrange(0, n as int));
    string_of(&part(&s, 0, n))
}

/// The target of a conversion operator's name: what follows its scope and
/// `operator `.
pub open spec fn is_conversion(s: Seq<char>) -> bool {
    text::starts_with(s.skip(scope_of(s).len() as int), "operator "@)
}

pub open spec fn target_of(s: Seq<char>) -> Seq<char> {
    s.skip((scope_of(s).len() + "operator "@.len()) as int)
}

/// A declared name without argument lists and spare white space, except that
/// the target of a conversion operator keeps its arguments.
pub open spec fn declared_text(s: Seq<char>) -> Seq<char> {
    if is_conversion(s) {
        normalize::qualified_text(scope_of(s)) + "operator "@ + normalize::spaced_text(target_of(s))
    } else {
        normalize::qualified_text(s)
    }
}

/// The scope of `s`, and the target where `s` names a conversion operator.
fn split_conversion(s: &[char]) -> (r: (Vec<char>, Option<Vec<char>>))
    ensures
        r.0@ == scope_of(s@),
        match r.1 {
            Some(t) => is_conversion(s@) && t@ == target_of(s@),
            None => !is_conversion(s@),
        },
{
    let n = scope_len(s);
    let scope = part(s, 0, n);
    let rest = part(s, n, s.len());
    proof {
        assert(scope@ =~= s@.take(n as int));
        assert(rest@ =~= s@.skip(n as int));
    }
    let word = chars_of("operator ");
    if begins(&rest, &word) {
        let target = part(&rest, word.len(), rest.len());
        assert(target@ =~= target_of(s@));
        (scope, Some(target))
    } else {
        (scope, None)
    }
}

pub fn declared_chars(raw: &[char]) -> (r: Vec<char>)
    ensures
        r@ == declared_text(raw@),
{
    match split_conversion(raw) {
        (scope, Some(target)) => {
            let mut out = requalified(&scope);
            append(&mut out, &chars_of("operator "));
            append(&mut out, &respaced(&target));
            out
        },
        (_, None) => requalified(raw),
    }
}

/// Normalize a declared name: argument lists and spare white space go, except
/// in the target of a conversion operator, whose arguments tell it apart.
pub fn normalize_declared_name(raw_name: &str) -> (r: String)
    ensures
        r@ == declared_text(raw_name@),
{
    string_of(&declared_chars(&chars_of(raw_name)))
}

/// `s` without the `::` it ends with, however often.
pub open spec fn without_colons(s: Seq<char>) -> Seq<char>
    decreases s.len(),
    when true
    via without_colons_decreases
{
    if text::ends_with(s, "::"@) {
        without_colons(s.take(s.len() - "::"@.len()))
    } else {
        s
    }
}

#[via_fn]
proof fn without_colons_decreases(s: Seq<char>) {
    reveal_strlit("::");
}

/// The pieces of `s` between `::`.
pub open spec fn segments(s: Seq<char>) -> Seq<Seq<char>>
    decreases s.len(),
    when true
    via segments_decreases
{
    let at = text::find_from(s, "::"@, 0);
    if at < 0 {
        seq![s]
    } else {
        seq![s.take(at)] + segments(s.skip(at + "::"@.len()))
    }
}

#[via_fn]
proof fn segments_decreases(s: Seq<char>) {
    reveal_strlit("::");
    text::lemma_find_from(s, "::"@, 0);
}

pub open spec fn piece_views(v: Seq<Vec<char>>) -> Seq<Seq<char>> {
    v.map_values(|w: Vec<char>| w@)
}

/// The pieces of `s` between `::`, in order.
pub fn split_segments(s: &[char]) -> (v: Vec<Vec<char>>)
    ensures
        piece_views(v@) == segments(s@),
        v@.len() > 0,
{
    proof {
        reveal_strlit("::");
    }
    let sep = chars_of("::");
    let mut v: Vec<Vec<char>> = Vec::new();
    let mut rest = part(s, 0, s.len());
    proof {
        assert(rest@ =~= s@);
        assert(piece_views(v@) + segments(s@) =~= segments(s@));
    }
    loop
        invariant
            sep@ == "::"@,
            sep@.len() == 2,
            piece_views(v@) + segments(rest@) == segments(s@),
        decreases rest@.len(),
    {
        proof {
            text::lemma_find_from(rest@, sep@, 0);
        }
        let ghost before = v@;
        match find(&rest, &sep, 0) {
            None => {
                let ghost last = rest@;
                v.push(rest);
                assert(piece_views(v@) =~= piece_views(before) + seq![last]);
                return v;
            },
            Some(at) => {
                let head = part(&rest, 0, at);
                let tail = part(&rest, at + 2, rest.len());
                proof {
                    assert(head@ =~= rest@.take(at as int));
                    assert(tail@ =~= rest@.skip(at + 2));
                }
                v.push(head);
                proof {
                    assert(piece_views(v@) =~= piece_views(before) + seq![head@]);
                    assert(piece_views(v@) + segments(tail@) =~= piece_views(before) + segments(
                        rest@,
                    ));
                }
                rest = tail;
            },
        }
    }
}

fn drop_colons(s: &[char]) -> (r: Vec<char>)
    ensures
        r@ == without_colons(s@),
    decreases s@.len(),
{
    proof {
        reveal_strlit("::");
    }
    let sep = chars_of("::");
    if ends(s, &sep) {
        let shorter = part(s, 0, s.len() - 2);
        assert(shorter@ =~= s@.take(s@.len() - "::"@.len()));
        drop_colons(&shorter)
    } else {
        assert(s@.subrange(0, s@.len() as int) =~= s@);
        part(s, 0, s.len())
    }
}

/// The classes and namespaces a member sits in, outermost first.
pub open spec fn own_scopes(scope: Seq<char>) -> Seq<Seq<char>> {
    if scope.len() == 0 {
        Seq::empty()
    } else {
        segments(without_colons(scope))
    }
}

/// The segments of `segs` from `a` to `b`, each with its `::`.
pub open spec fn run_text(segs: Seq<Seq<char>>, a: int, b: int) -> Seq<char>
    decreases b - a + 1,
{
    if b < a {
        Seq::empty()
    } else {
        run_text(segs, a, b - 1) + segs[b] + "::"@
    }
}

/// The length of the longest run of `segs` that `probe` starts with, of those
/// that start at `a` and end at `b` or later and of those that start after `a`.
pub open spec fn longest_run(probe: Seq<char>, segs: Seq<Seq<char>>, a: int, b: int) -> nat
    decreases segs.len() - a, segs.len() - b,
{
    if a < 0 || b < a || a >= segs.len() {
        0
    } else if b >= segs.len() {
        longest_run(probe, segs, a + 1, a + 1)
    } else {
        let here = if text::starts_with(probe, run_text(segs, a, b)) {
            run_text(segs, a, b).len()
        } else {
            0
        };
        let there = longest_run(probe, segs, a, b + 1);
        if here > there {
            here
        } else {
            there
        }
    }
}

/// How much of `probe` spells scopes that the member sits in: the longest run
/// of its own scopes that `probe` starts with.
pub open spec fn own_prefix(probe: Seq<char>, segs: Seq<Seq<char>>) -> nat {
    longest_run(probe, segs, 0, 0)
}

fn own_prefix_len(probe: &[char], segs: &Vec<Vec<char>>) -> (n: usize)
    ensures
        n == own_prefix(probe@, piece_views(segs@)),
        n <= probe@.len(),
{
    let ghost views = piece_views(segs@);
    let sep = chars_of("::");
    let mut best: usize = 0;
    let mut a: usize = 0;
    while a < segs.len()
        invariant
            a <= segs.len(),
            views == piece_views(segs@),
            sep@ == "::"@,
            best <= probe@.len(),
            own_prefix(probe@, views) == (if best > longest_run(probe@, views, a as int, a as int) {
                best as nat
            } else {
                longest_run(probe@, views, a as int, a as int)
            }),
        decreases segs.len() - a,
    {
        let mut run: Vec<char> = Vec::new();
        let mut b: usize = a;
        while b < segs.len()
            invariant
                a <= b <= segs.len(),
                a < segs.len(),
                views == piece_views(segs@),
                sep@ == "::"@,
                best <= probe@.len(),
                run@ == run_text(views, a as int, b - 1),
                own_prefix(probe@, views) == (if best > longest_run(
                    probe@,
                    views,
                    a as int,
                    b as int,
                ) {
                    best as nat
                } else {
                    longest_run(probe@, views, a as int, b as int)
                }),
            decreases segs.len() - b,
        {
            assert(views[b as int] == segs@[b as int]@);
            append(&mut run, &segs[b]);
            append(&mut run, &sep);
            assert(run@ =~= run_text(views, a as int, b as int));
            if begins(probe, &run) && run.len() > best {
                best = run.len();
            }
            b += 1;
        }
        a += 1;
    }
    best
}

/// A qualified name can begin behind this character.
pub open spec fn opens_name(c: char) -> bool {
    c == '<' || c == ',' || c == ' ' || c == '(' || c == '*' || c == '&'
}

/// `rest` without a leading `::`.
pub open spec fn unrooted(rest: Seq<char>) -> Seq<char> {
    normalize::after_prefix(rest, "::"@)
}

/// `rest` with the own scopes dropped from every name that begins in it; a
/// name begins at its start where `start` says so.
pub open spec fn scopes_stripped(rest: Seq<char>, segs: Seq<Seq<char>>, start: bool) -> Seq<char>
    decreases rest.len(),
    when true
    via scopes_stripped_decreases
{
    if rest.len() == 0 {
        Seq::empty()
    } else if start && own_prefix(unrooted(rest), segs) > 0 {
        scopes_stripped(unrooted(rest).skip(own_prefix(unrooted(rest), segs) as int), segs, false)
    } else {
        seq![rest[0]] + scopes_stripped(rest.skip(1), segs, opens_name(rest[0]))
    }
}

proof fn lemma_longest_run_fits(probe: Seq<char>, segs: Seq<Seq<char>>, a: int, b: int)
    ensures
        longest_run(probe, segs, a, b) <= probe.len(),
    decreases segs.len() - a, segs.len() - b,
{
    if a < 0 || b < a || a >= segs.len() {
    } else if b >= segs.len() {
        lemma_longest_run_fits(probe, segs, a + 1, a + 1);
    } else {
        lemma_longest_run_fits(probe, segs, a, b + 1);
    }
}

#[via_fn]
proof fn scopes_stripped_decreases(rest: Seq<char>, segs: Seq<Seq<char>>, start: bool) {
    reveal_strlit("::");
    lemma_longest_run_fits(unrooted(rest), segs, 0, 0);
}

/// Drop, from every qualified name inside `text`, the longest run of the own
/// scopes that the name begins with: the head and each template argument is
/// decided on its own, and a leading `::` goes only with a scope it re-spells.
fn strip_own_scopes(text: &[char], segs: &Vec<Vec<char>>) -> (out: Vec<char>)
    ensures
        out@ == scopes_stripped(text@, piece_views(segs@), true),
{
    let ghost views = piece_views(segs@);
    let sep = chars_of("::");
    let mut out: Vec<char> = Vec::new();
    let mut rest = part(text, 0, text.len());
    let mut start = true;
    proof {
        reveal_strlit("::");
        assert(rest@ =~= text@);
        assert(out@ + scopes_stripped(text@, views, true) =~= scopes_stripped(text@, views, true));
    }
    while rest.len() > 0
        invariant
            views == piece_views(segs@),
            sep@ == "::"@,
            sep@.len() == 2,
            out@ + scopes_stripped(rest@, views, start) == scopes_stripped(text@, views, true),
        decreases rest.len(),
    {
        let ghost now = rest@;
        let mut hit: usize = 0;
        if start {
            let probe = drop_prefix(&rest, &sep);
            hit = own_prefix_len(&probe, segs);
            if hit > 0 {
                let tail = part(&probe, hit, probe.len());
                assert(tail@ =~= unrooted(now).skip(hit as int));
                rest = tail;
                start = false;
            }
        }
        if hit == 0 {
            let c = rest[0];
            let ghost before = out@;
            out.push(c);
            let tail = part(&rest, 1, rest.len());
            proof {
                assert(tail@ =~= now.skip(1));
                assert(scopes_stripped(now, views, start) == seq![c] + scopes_stripped(
                    tail@,
                    views,
                    opens_name(c),
                ));
                assert(out@ + scopes_stripped(tail@, views, opens_name(c)) =~= before
                    + scopes_stripped(now, views, start));
            }
            rest = tail;
            start = c == '<' || c == ',' || c == ' ' || c == '(' || c == '*' || c == '&';
        }
    }
    assert(out@ + Seq::<char>::empty() =~= out@);
    out
}

/// The one name of a member: the target of a conversion operator without the
/// scopes that the member itself sits in.
pub open spec fn canonical_name(s: Seq<char>) -> Seq<char> {
    if is_conversion(s) {
        scope_of(s) + "operator "@ + scopes_stripped(target_of(s), own_scopes(scope_of(s)), true)
    } else {
        s
    }
}

pub fn canonical_chars(name: &[char]) -> (r: Vec<char>)
    ensures
        r@ == canonical_name(name@),
{
    match split_conversion(name) {
        (scope, Some(target)) => {
            let segs: Vec<Vec<char>> = if scope.len() == 0 {
                Vec::new()
            } else {
                split_segments(&drop_colons(&scope))
            };
            proof {
                assert(piece_views(segs@) =~= own_scopes(scope@));
            }
            let stripped = strip_own_scopes(&target, &segs);
            let mut out = scope;
            append(&mut out, &chars_of("operator "));
            append(&mut out, &stripped);
            out
        },
        (_, None) => {
            assert(name@.subrange(0, name@.len() as int) =~= name@);
            part(name, 0, name.len())
        },
    }
}

/// A conversion operator's name with the scopes its own member sits in dropped
/// from its target, so that how far the target is spelled out stops deciding
/// which member it is: `ns::Handle::operator ns::S` and `ns::Handle::operator S`
/// are one. A scope the member does not sit in stays.
pub fn canonicalize_conversion_target(name: &str) -> (r: String)
    ensures
        r@ == canonical_name(name@),
{
    string_of(&canonical_chars(&chars_of(name)))
}

/// No name that begins in `rest` starts with a scope the member sits in.
pub open spec fn settled(rest: Seq<char>, segs: Seq<Seq<char>>, start: bool) -> bool
    decreases rest.len(),
{
    rest.len() > 0 ==> {
        &&& start ==> own_prefix(unrooted(rest), segs) == 0
        &&& settled(rest.skip(1), segs, opens_name(rest[0]))
    }
}

/// A target in which no name starts with an own scope is kept as it is: types
/// outside the member's scopes never lose a part of their names.
pub proof fn law_settled_target_is_kept(rest: Seq<char>, segs: Seq<Seq<char>>, start: bool)
    requires
        settled(rest, segs, start),
    ensures
        scopes_stripped(rest, segs, start) == rest,
    decreases rest.len(),
{
    if rest.len() > 0 {
        law_settled_target_is_kept(rest.skip(1), segs, opens_name(rest[0]));
        assert(seq![rest[0]] + rest.skip(1) =~= rest);
    }
}

/// Two settled targets of one class name one member only if they are one.
pub proof fn law_settled_targets_stay_apart(a: Seq<char>, b: Seq<char>, segs: Seq<Seq<char>>)
    requires
        settled(a, segs, true),
        settled(b, segs, true),
        scopes_stripped(a, segs, true) == scopes_stripped(b, segs, true),
    ensures
        a == b,
{
    law_settled_target_is_kept(a, segs, true);
    law_settled_target_is_kept(b, segs, true);
}

/// Two names that agree up to `end` agree on the keyword before it.
proof fn lemma_operator_at_depends_on_prefix(s: Seq<char>, t: Seq<char>, from: int, at: int)
    requires
        0 <= from <= at,
        operator_at(s, from) == at,
        at + 9 <= s.len(),
        at + 9 <= t.len(),
        s.take(at + 9) == t.take(at + 9),
    ensures
        operator_at(t, from) == at,
    decreases s.len() - from,
{
    reveal_strlit("operator");
    let w = "operator"@;
    text::lemma_find_from(s, w, from);
    text::lemma_find_from(t, w, from);
    lemma_operator_at(s, from);
    let first = text::find_from(s, w, from);
    assert forall|j: int| from <= j <= at implies text::has_at(s, w, j) == text::has_at(t, w, j) by {
        assert(s.subrange(j, j + 8) =~= s.take(at + 9).subrange(j, j + 8));
        assert(t.subrange(j, j + 8) =~= t.take(at + 9).subrange(j, j + 8));
    }
    if !keyword_at(s, first) {
        lemma_operator_at(s, first + 8);
    }
    assert(first <= at);
    assert(text::has_at(t, w, first));
    let found = text::find_from(t, w, from);
    assert(found >= 0);
    assert(found <= at);
    assert(found == first) by {
        if found < first {
            assert(text::has_at(s, w, found));
        }
    }
    assert(s.take(first) =~= s.take(at + 9).take(first));
    assert(t.take(first) =~= t.take(at + 9).take(first));
    assert(s[first + 8] == s.take(at + 9)[first + 8]);
    assert(t[first + 8] == t.take(at + 9)[first + 8]);
    assert(keyword_at(s, first) == keyword_at(t, first));
    if !keyword_at(s, first) {
        lemma_operator_at_depends_on_prefix(s, t, first + 8, at);
    }
}

/// Canonicalizing a canonical name changes nothing, where no name left in its
/// target starts with an own scope again.
pub proof fn law_canonical_names_are_stable(s: Seq<char>)
    requires
        is_conversion(s) ==> settled(
            scopes_stripped(target_of(s), own_scopes(scope_of(s)), true),
            own_scopes(scope_of(s)),
            true,
        ),
    ensures
        canonical_name(canonical_name(s)) == canonical_name(s),
{
    if is_conversion(s) {
        reveal_strlit("operator ");
        reveal_strlit("operator");
        let scope = scope_of(s);
        let at = scope.len() as int;
        let stripped = scopes_stripped(target_of(s), own_scopes(scope), true);
        let t = canonical_name(s);
        lemma_operator_at(s, 0);
        assert(operator_at(s, 0) == at) by {
            if operator_at(s, 0) < 0 {
                assert(s.skip(at).len() == 0);
            }
        }
        assert(s.skip(at).subrange(0, 9) =~= s.subrange(at, at + 9));
        assert(s.take(at + 9) =~= scope + "operator "@) by {
            assert(s.subrange(at, at + 9) == "operator "@);
            assert(s.take(at + 9) =~= s.take(at) + s.subrange(at, at + 9));
        }
        assert(t.take(at + 9) =~= scope + "operator "@);
        lemma_operator_at_depends_on_prefix(s, t, 0, at);
        assert(scope_of(t) =~= scope);
        assert(t.skip(at).subrange(0, 9) =~= "operator "@);
        assert(target_of(t) =~= stripped);
        law_settled_target_is_kept(stripped, own_scopes(scope), true);
    }
}

} // verus!
