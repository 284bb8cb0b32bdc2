//! What holds of the names of conversion operators: every spelling of one type
//! names one member, two types name two, and a canonical name stays.

use crate::naming;
use crate::text;
use vstd::prelude::*;

verus! {

/// A character that ends a name: one that another can begin behind, or the end
/// of an argument list.
pub open spec fn ends_name(c: char) -> bool {
    naming::opens_name(c) || c == '>'
}

/// A name with no argument list, and no other name, in it.
pub open spec fn is_plain(s: Seq<char>) -> bool {
    s.len() > 0 && forall|i: int| 0 <= i < s.len() ==> !ends_name(#[trigger] s[i])
}

/// A name with no scope in it.
pub open spec fn is_bare(s: Seq<char>) -> bool {
    is_plain(s) && forall|i: int| 0 <= i < s.len() ==> #[trigger] s[i] != ':'
}

/// The scopes are bare names.
pub open spec fn are_bare(segs: Seq<Seq<char>>) -> bool {
    forall|j: int| 0 <= j < segs.len() ==> is_bare(#[trigger] segs[j])
}

/// The target `head<arg>`.
pub open spec fn applied(head: Seq<char>, arg: Seq<char>) -> Seq<char> {
    head + seq!['<'] + arg + seq!['>']
}

/// A spelling of the type `name` that is declared in the innermost of the first
/// `depth` scopes: with all of them, rooted or not, or with some outer ones
/// elided.
pub open spec fn spells(
    form: Seq<char>,
    segs: Seq<Seq<char>>,
    depth: int,
    name: Seq<char>,
) -> bool {
    ||| form == "::"@ + naming::run_text(segs, 0, depth - 1) + name
    ||| exists|from: int|
        0 <= from <= depth && form == #[trigger] naming::run_text(segs, from, depth - 1) + name
}

proof fn lemma_run(segs: Seq<Seq<char>>, a: int, b: int)
    requires
        are_bare(segs),
        0 <= a,
        b < segs.len(),
    ensures
        forall|i: int|
            0 <= i < naming::run_text(segs, a, b).len() ==> !ends_name(
                #[trigger] naming::run_text(segs, a, b)[i],
            ),
        a <= b ==> naming::run_text(segs, a, b).len() >= 3 && naming::run_text(segs, a, b)[0] != ':'
            && naming::run_text(segs, a, b).last() == ':',
        b < a ==> naming::run_text(segs, a, b).len() == 0,
    decreases b - a + 1,
{
    reveal_strlit("::");
    if a <= b {
        lemma_run(segs, a, b - 1);
        let before = naming::run_text(segs, a, b - 1);
        let run = naming::run_text(segs, a, b);
        assert(is_bare(segs[b]));
        assert forall|i: int| 0 <= i < run.len() implies !ends_name(#[trigger] run[i]) by {
            if i < before.len() {
                assert(run[i] == before[i]);
            } else if i < before.len() + segs[b].len() {
                assert(run[i] == segs[b][i - before.len()]);
            } else {
                assert(run[i] == ':');
            }
        }
        if before.len() > 0 {
            assert(run[0] == before[0]);
        } else {
            assert(run[0] == segs[b][0]);
        }
        assert(run.last() == ':');
    }
}

/// What follows the end of a name does not decide which scopes it begins with.
proof fn lemma_run_ignores_tail(
    segs: Seq<Seq<char>>,
    p: Seq<char>,
    tail: Seq<char>,
    a: int,
    b: int,
)
    requires
        are_bare(segs),
        tail.len() > 0 ==> ends_name(tail[0]),
        0 <= a <= b,
    ensures
        naming::longest_run(p + tail, segs, a, b) == naming::longest_run(p, segs, a, b),
    decreases segs.len() - a, segs.len() - b,
{
    if a < segs.len() {
        if b >= segs.len() {
            lemma_run_ignores_tail(segs, p, tail, a + 1, a + 1);
        } else {
            lemma_run_ignores_tail(segs, p, tail, a, b + 1);
            lemma_run(segs, a, b);
            let run = naming::run_text(segs, a, b);
            let n = run.len() as int;
            if n <= p.len() {
                assert((p + tail).subrange(0, n) =~= p.subrange(0, n));
            } else if text::starts_with(p + tail, run) {
                assert((p + tail).subrange(0, n)[p.len() as int] == tail[0]);
                assert(!ends_name(run[p.len() as int]));
            }
        }
    }
}

proof fn lemma_unrooted_with_tail(p: Seq<char>, tail: Seq<char>)
    requires
        tail.len() > 0 ==> ends_name(tail[0]),
    ensures
        naming::unrooted(p + tail) == naming::unrooted(p) + tail,
{
    reveal_strlit("::");
    if p.len() >= 2 {
        assert((p + tail).subrange(0, 2) =~= p.subrange(0, 2));
        if text::starts_with(p, "::"@) {
            assert((p + tail).skip(2) =~= p.skip(2) + tail);
        }
    } else if text::starts_with(p + tail, "::"@) {
        assert((p + tail).subrange(0, 2)[p.len() as int] == tail[0]);
        assert("::"@[p.len() as int] == ':');
    }
}

proof fn lemma_prefix_ignores_tail(segs: Seq<Seq<char>>, p: Seq<char>, tail: Seq<char>)
    requires
        are_bare(segs),
        tail.len() > 0 ==> ends_name(tail[0]),
    ensures
        naming::own_prefix(naming::unrooted(p + tail), segs) == naming::own_prefix(
            naming::unrooted(p),
            segs,
        ),
{
    lemma_unrooted_with_tail(p, tail);
    lemma_run_ignores_tail(segs, naming::unrooted(p), tail, 0, 0);
}

/// What is left of a name goes through as it is.
proof fn lemma_rest_of_name(segs: Seq<Seq<char>>, p: Seq<char>, tail: Seq<char>)
    requires
        forall|i: int| 0 <= i < p.len() ==> !naming::opens_name(#[trigger] p[i]),
    ensures
        naming::scopes_stripped(p + tail, segs, false) == p + naming::scopes_stripped(
            tail,
            segs,
            false,
        ),
    decreases p.len(),
{
    if p.len() == 0 {
        assert(p + tail =~= tail);
        assert(p + naming::scopes_stripped(tail, segs, false) =~= naming::scopes_stripped(
            tail,
            segs,
            false,
        ));
    } else {
        let q = p.skip(1);
        assert forall|i: int| 0 <= i < q.len() implies !naming::opens_name(#[trigger] q[i]) by {
            assert(q[i] == p[i + 1]);
        }
        lemma_rest_of_name(segs, q, tail);
        let whole = p + tail;
        assert(whole.skip(1) =~= q + tail);
        assert(whole[0] == p[0]);
        assert(!naming::opens_name(p[0]));
        let done = naming::scopes_stripped(tail, segs, false);
        assert(seq![p[0]] + (q + done) =~= p + done);
    }
}

/// A name is stripped by itself, whatever follows it.
proof fn lemma_name_then_tail(segs: Seq<Seq<char>>, p: Seq<char>, tail: Seq<char>)
    requires
        are_bare(segs),
        is_plain(p),
        tail.len() > 0 ==> ends_name(tail[0]),
    ensures
        naming::scopes_stripped(p + tail, segs, true) == naming::scopes_stripped(p, segs, true)
            + naming::scopes_stripped(tail, segs, false),
{
    reveal_strlit("::");
    let whole = p + tail;
    let done = naming::scopes_stripped(tail, segs, false);
    lemma_prefix_ignores_tail(segs, p, tail);
    lemma_unrooted_with_tail(p, tail);
    let probe = naming::unrooted(p);
    let n = naming::own_prefix(probe, segs);
    lemma_own_prefix_fits(probe, segs, 0, 0);
    assert forall|i: int| 0 <= i < p.len() implies !naming::opens_name(#[trigger] p[i]) by {
        assert(!ends_name(p[i]));
    }
    if n > 0 {
        let rest = probe.skip(n as int);
        let off = p.len() - rest.len();
        assert forall|i: int| 0 <= i < rest.len() implies !naming::opens_name(#[trigger] rest[i]) by {
            assert(rest[i] == p[off + i]);
        }
        assert(naming::unrooted(whole).skip(n as int) =~= rest + tail);
        lemma_rest_of_name(segs, rest, tail);
        lemma_rest_of_name(segs, rest, Seq::empty());
        assert(rest + Seq::<char>::empty() =~= rest);
    } else {
        let q = p.skip(1);
        assert forall|i: int| 0 <= i < q.len() implies !naming::opens_name(#[trigger] q[i]) by {
            assert(q[i] == p[i + 1]);
        }
        assert(whole.skip(1) =~= q + tail);
        assert(whole[0] == p[0]);
        lemma_rest_of_name(segs, q, tail);
        lemma_rest_of_name(segs, q, Seq::empty());
        assert(q + Seq::<char>::empty() =~= q);
        assert(seq![p[0]] + (q + done) =~= (seq![p[0]] + q) + done);
    }
}

proof fn lemma_own_prefix_fits(probe: Seq<char>, segs: Seq<Seq<char>>, a: int, b: int)
    ensures
        naming::longest_run(probe, segs, a, b) <= probe.len(),
    decreases segs.len() - a, segs.len() - b,
{
    if a < 0 || b < a || a >= segs.len() {
    } else if b >= segs.len() {
        lemma_own_prefix_fits(probe, segs, a + 1, a + 1);
    } else {
        lemma_own_prefix_fits(probe, segs, a, b + 1);
    }
}

/// A template and its argument are stripped each by itself: the scopes of one
/// do not count for the other.
pub proof fn law_arguments_are_stripped_on_their_own(
    segs: Seq<Seq<char>>,
    head: Seq<char>,
    arg: Seq<char>,
)
    requires
        are_bare(segs),
        is_plain(head),
        is_plain(arg),
    ensures
        naming::scopes_stripped(applied(head, arg), segs, true) == applied(
            naming::scopes_stripped(head, segs, true),
            naming::scopes_stripped(arg, segs, true),
        ),
{
    let end = seq!['>'];
    let list = seq!['<'] + arg + end;
    assert(applied(head, arg) =~= head + list);
    lemma_name_then_tail(segs, head, list);
    assert(list[0] == '<');
    assert(list.skip(1) =~= arg + end);
    lemma_name_then_tail(segs, arg, end);
    assert(end.skip(1) =~= Seq::<char>::empty());
    let none = naming::scopes_stripped(Seq::empty(), segs, naming::opens_name('>'));
    assert(none =~= Seq::<char>::empty());
    assert(naming::scopes_stripped(end, segs, false) =~= end);
    let h = naming::scopes_stripped(head, segs, true);
    let a = naming::scopes_stripped(arg, segs, true);
    assert(naming::scopes_stripped(list, segs, false) == seq!['<'] + (a + end));
    assert(h + (seq!['<'] + (a + end)) =~= applied(h, a));
}

proof fn lemma_runs_end_in_scope(
    segs: Seq<Seq<char>>,
    run: Seq<char>,
    name: Seq<char>,
    a: int,
    b: int,
)
    requires
        are_bare(segs),
        forall|i: int| 0 <= i < name.len() ==> #[trigger] name[i] != ':',
        0 <= a <= b,
    ensures
        naming::longest_run(run + name, segs, a, b) <= run.len(),
    decreases segs.len() - a, segs.len() - b,
{
    if a < segs.len() {
        if b >= segs.len() {
            lemma_runs_end_in_scope(segs, run, name, a + 1, a + 1);
        } else {
            lemma_runs_end_in_scope(segs, run, name, a, b + 1);
            lemma_run(segs, a, b);
            let own = naming::run_text(segs, a, b);
            let n = own.len() as int;
            if text::starts_with(run + name, own) && n > run.len() {
                assert((run + name).subrange(0, n)[n - 1] == name[n - 1 - run.len()]);
                assert(own[n - 1] == ':');
            }
        }
    }
}

proof fn lemma_run_is_found(
    probe: Seq<char>,
    segs: Seq<Seq<char>>,
    a: int,
    b: int,
    from: int,
    to: int,
)
    requires
        0 <= a <= b,
        a < from || (a == from && b <= to),
        from <= to < segs.len(),
        text::starts_with(probe, naming::run_text(segs, from, to)),
    ensures
        naming::longest_run(probe, segs, a, b) >= naming::run_text(segs, from, to).len(),
    decreases segs.len() - a, segs.len() - b,
{
    if b >= segs.len() {
        lemma_run_is_found(probe, segs, a + 1, a + 1, from, to);
    } else if !(a == from && b == to) {
        lemma_run_is_found(probe, segs, a, b + 1, from, to);
    }
}

proof fn lemma_not_rooted(s: Seq<char>)
    requires
        s.len() > 0,
        s[0] != ':',
    ensures
        naming::unrooted(s) == s,
{
    reveal_strlit("::");
    if text::starts_with(s, "::"@) {
        assert(s.subrange(0, 2)[0] == "::"@[0]);
    }
}

proof fn lemma_bare_is_kept(segs: Seq<Seq<char>>, name: Seq<char>)
    requires
        are_bare(segs),
        is_bare(name),
    ensures
        naming::own_prefix(naming::unrooted(name), segs) == 0,
        naming::scopes_stripped(name, segs, true) == name,
        naming::settled(name, segs, true),
{
    lemma_not_rooted(name);
    lemma_runs_end_in_scope(segs, Seq::empty(), name, 0, 0);
    assert(Seq::<char>::empty() + name =~= name);
    let q = name.skip(1);
    assert forall|i: int| 0 <= i < q.len() implies !naming::opens_name(#[trigger] q[i]) by {
        assert(!ends_name(name[i + 1]));
    }
    assert(!ends_name(name[0]));
    lemma_rest_of_name(segs, q, Seq::empty());
    assert(q + Seq::<char>::empty() =~= q);
    assert(naming::scopes_stripped(Seq::empty(), segs, false) =~= Seq::<char>::empty());
    assert(seq![name[0]] + q =~= name);
    lemma_rest_is_settled(segs, q, Seq::empty());
}

proof fn lemma_rest_is_settled(segs: Seq<Seq<char>>, p: Seq<char>, tail: Seq<char>)
    requires
        forall|i: int| 0 <= i < p.len() ==> !naming::opens_name(#[trigger] p[i]),
        naming::settled(tail, segs, false),
    ensures
        naming::settled(p + tail, segs, false),
    decreases p.len(),
{
    if p.len() == 0 {
        assert(p + tail =~= tail);
    } else {
        let q = p.skip(1);
        assert forall|i: int| 0 <= i < q.len() implies !naming::opens_name(#[trigger] q[i]) by {
            assert(q[i] == p[i + 1]);
        }
        lemma_rest_is_settled(segs, q, tail);
        assert((p + tail).skip(1) =~= q + tail);
        assert((p + tail)[0] == p[0]);
        assert(!naming::opens_name(p[0]));
    }
}

proof fn lemma_run_then_name(segs: Seq<Seq<char>>, from: int, to: int, name: Seq<char>)
    requires
        are_bare(segs),
        is_bare(name),
        0 <= from <= to < segs.len(),
    ensures
        naming::scopes_stripped(naming::run_text(segs, from, to) + name, segs, true) == name,
        naming::scopes_stripped("::"@ + naming::run_text(segs, from, to) + name, segs, true) == name,
{
    reveal_strlit("::");
    let run = naming::run_text(segs, from, to);
    let whole = run + name;
    let rooted = "::"@ + run + name;
    lemma_run(segs, from, to);
    assert(whole[0] == run[0]);
    lemma_not_rooted(whole);
    assert(whole.subrange(0, run.len() as int) =~= run);
    lemma_runs_end_in_scope(segs, run, name, 0, 0);
    lemma_run_is_found(whole, segs, 0, 0, from, to);
    assert(naming::own_prefix(whole, segs) == run.len());
    assert(whole.skip(run.len() as int) =~= name);
    assert forall|i: int| 0 <= i < name.len() implies !naming::opens_name(#[trigger] name[i]) by {
        assert(!ends_name(name[i]));
    }
    lemma_rest_of_name(segs, name, Seq::empty());
    assert(name + Seq::<char>::empty() =~= name);
    assert(naming::scopes_stripped(Seq::empty(), segs, false) =~= Seq::<char>::empty());
    assert(rooted.subrange(0, 2) =~= "::"@);
    assert(rooted.skip(2) =~= whole);
    assert(naming::unrooted(rooted) == whole);
}

/// Every spelling of a type of the member's own scopes is stripped to its name:
/// spelled in full, rooted, or with enclosing scopes elided.
pub proof fn law_every_spelling_is_stripped_to_the_name(
    segs: Seq<Seq<char>>,
    depth: int,
    name: Seq<char>,
    form: Seq<char>,
)
    requires
        are_bare(segs),
        is_bare(name),
        1 <= depth <= segs.len(),
        spells(form, segs, depth, name),
    ensures
        naming::scopes_stripped(form, segs, true) == name,
        is_plain(form),
{
    reveal_strlit("::");
    if form == "::"@ + naming::run_text(segs, 0, depth - 1) + name {
        lemma_run(segs, 0, depth - 1);
        lemma_run_then_name(segs, 0, depth - 1, name);
        let run = naming::run_text(segs, 0, depth - 1);
        assert forall|i: int| 0 <= i < form.len() implies !ends_name(#[trigger] form[i]) by {
            if i < 2 {
                assert(form[i] == ':');
            } else if i < 2 + run.len() {
                assert(form[i] == run[i - 2]);
            } else {
                assert(form[i] == name[i - 2 - run.len()]);
            }
        }
    } else {
        let from = choose|from: int|
            0 <= from <= depth && form == #[trigger] naming::run_text(segs, from, depth - 1) + name;
        lemma_run(segs, from, depth - 1);
        let run = naming::run_text(segs, from, depth - 1);
        assert forall|i: int| 0 <= i < form.len() implies !ends_name(#[trigger] form[i]) by {
            if i < run.len() {
                assert(form[i] == run[i]);
            } else {
                assert(form[i] == name[i - run.len()]);
            }
        }
        if from < depth {
            lemma_run_then_name(segs, from, depth - 1, name);
        } else {
            assert(form =~= name);
            lemma_bare_is_kept(segs, name);
        }
    }
}

/// Every spelling of one template applied to one type names one member: however
/// far the template and its argument are spelled out.
pub proof fn law_every_spelling_of_a_template_names_one_member(
    segs: Seq<Seq<char>>,
    head_depth: int,
    head: Seq<char>,
    head_form: Seq<char>,
    arg_depth: int,
    arg: Seq<char>,
    arg_form: Seq<char>,
)
    requires
        are_bare(segs),
        is_bare(head),
        is_bare(arg),
        1 <= head_depth <= segs.len(),
        1 <= arg_depth <= segs.len(),
        spells(head_form, segs, head_depth, head),
        spells(arg_form, segs, arg_depth, arg),
    ensures
        naming::scopes_stripped(applied(head_form, arg_form), segs, true) == applied(head, arg),
{
    law_every_spelling_is_stripped_to_the_name(segs, head_depth, head, head_form);
    law_every_spelling_is_stripped_to_the_name(segs, arg_depth, arg, arg_form);
    law_arguments_are_stripped_on_their_own(segs, head_form, arg_form);
}

proof fn lemma_stripped_is_plain(segs: Seq<Seq<char>>, p: Seq<char>)
    requires
        are_bare(segs),
        is_plain(p),
    ensures
        forall|i: int|
            0 <= i < naming::scopes_stripped(p, segs, true).len() ==> !ends_name(
                #[trigger] naming::scopes_stripped(p, segs, true)[i],
            ),
{
    reveal_strlit("::");
    let probe = naming::unrooted(p);
    let n = naming::own_prefix(probe, segs);
    lemma_own_prefix_fits(probe, segs, 0, 0);
    let rest = if n > 0 {
        probe.skip(n as int)
    } else {
        p.skip(1)
    };
    let off = p.len() - rest.len();
    assert forall|i: int| 0 <= i < rest.len() implies !ends_name(#[trigger] rest[i]) by {
        assert(rest[i] == p[off + i]);
    }
    lemma_rest_of_name(segs, rest, Seq::empty());
    assert(rest + Seq::<char>::empty() =~= rest);
    assert(naming::scopes_stripped(Seq::empty(), segs, false) =~= Seq::<char>::empty());
    assert(rest + Seq::<char>::empty() =~= rest);
    let done = naming::scopes_stripped(p, segs, true);
    if n > 0 {
        assert(done =~= rest);
    } else {
        assert(!ends_name(p[0]));
        assert(done =~= seq![p[0]] + rest);
    }
}

/// Two templates with arguments name one member only where the templates do and
/// the arguments do, and none names the member of a plain type.
pub proof fn law_two_templates_name_two_members(
    segs: Seq<Seq<char>>,
    head: Seq<char>,
    arg: Seq<char>,
    other_head: Seq<char>,
    other_arg: Seq<char>,
)
    requires
        are_bare(segs),
        is_plain(head),
        is_plain(arg),
        is_plain(other_head),
        is_plain(other_arg),
    ensures
        naming::scopes_stripped(applied(head, arg), segs, true) == naming::scopes_stripped(
            applied(other_head, other_arg),
            segs,
            true,
        ) <==> (naming::scopes_stripped(head, segs, true) == naming::scopes_stripped(
            other_head,
            segs,
            true,
        ) && naming::scopes_stripped(arg, segs, true) == naming::scopes_stripped(
            other_arg,
            segs,
            true,
        )),
        naming::scopes_stripped(applied(head, arg), segs, true) != naming::scopes_stripped(
            other_head,
            segs,
            true,
        ),
{
    law_arguments_are_stripped_on_their_own(segs, head, arg);
    law_arguments_are_stripped_on_their_own(segs, other_head, other_arg);
    let h = naming::scopes_stripped(head, segs, true);
    let a = naming::scopes_stripped(arg, segs, true);
    let g = naming::scopes_stripped(other_head, segs, true);
    let b = naming::scopes_stripped(other_arg, segs, true);
    lemma_stripped_is_plain(segs, head);
    lemma_stripped_is_plain(segs, other_head);
    let x = applied(h, a);
    let y = applied(g, b);
    assert(x[h.len() as int] == '<');
    assert(y[g.len() as int] == '<');
    if x == y {
        if h.len() < g.len() {
            assert(y[h.len() as int] == g[h.len() as int]);
        }
        if g.len() < h.len() {
            assert(x[g.len() as int] == h[g.len() as int]);
        }
        assert(h.len() == g.len());
        assert(h =~= x.take(h.len() as int));
        assert(g =~= y.take(g.len() as int));
        assert(a =~= x.subrange(h.len() as int + 1, x.len() - 1));
        assert(b =~= y.subrange(g.len() as int + 1, y.len() - 1));
    }
    if x == g {
        assert(!ends_name(g[h.len() as int]));
    }
}

/// What is left of a template with an argument is stripped no further, where
/// neither the template nor the argument is.
pub proof fn law_settled_templates_are_settled(
    segs: Seq<Seq<char>>,
    head: Seq<char>,
    arg: Seq<char>,
)
    requires
        are_bare(segs),
        is_plain(head),
        is_plain(arg),
        naming::own_prefix(naming::unrooted(head), segs) == 0,
        naming::own_prefix(naming::unrooted(arg), segs) == 0,
    ensures
        naming::settled(applied(head, arg), segs, true),
{
    let end = seq!['>'];
    let list = seq!['<'] + arg + end;
    assert(applied(head, arg) =~= head + list);
    assert(naming::settled(Seq::empty(), segs, false));
    assert(end.skip(1) =~= Seq::<char>::empty());
    assert(naming::settled(end, segs, false));
    lemma_settled_name(segs, arg, end);
    assert(list.skip(1) =~= arg + end);
    assert(list[0] == '<');
    assert(naming::settled(list, segs, false));
    lemma_settled_name(segs, head, list);
}

proof fn lemma_settled_name(segs: Seq<Seq<char>>, p: Seq<char>, tail: Seq<char>)
    requires
        are_bare(segs),
        is_plain(p),
        tail.len() > 0 ==> ends_name(tail[0]),
        naming::own_prefix(naming::unrooted(p), segs) == 0,
        naming::settled(tail, segs, false),
    ensures
        naming::settled(p + tail, segs, true),
{
    lemma_prefix_ignores_tail(segs, p, tail);
    let q = p.skip(1);
    assert forall|i: int| 0 <= i < q.len() implies !naming::opens_name(#[trigger] q[i]) by {
        assert(!ends_name(p[i + 1]));
    }
    assert(!ends_name(p[0]));
    lemma_rest_is_settled(segs, q, tail);
    assert((p + tail).skip(1) =~= q + tail);
    assert((p + tail)[0] == p[0]);
}

/// A spelling of a type outside the member's scopes: a global one, or one of
/// another namespace, rooted or not.
pub open spec fn is_foreign(form: Seq<char>, segs: Seq<Seq<char>>) -> bool {
    &&& is_plain(form)
    &&& forall|j: int|
        0 <= j < segs.len() ==> !text::starts_with(
            naming::unrooted(form),
            #[trigger] segs[j] + "::"@,
        )
}

/// A spelling of a type that is named `left` once the own scopes are dropped: one
/// of the member's own scopes, or one outside them, which keeps its spelling.
pub open spec fn stands_for(form: Seq<char>, segs: Seq<Seq<char>>, left: Seq<char>) -> bool {
    ||| is_bare(left) && exists|depth: int|
        1 <= depth <= segs.len() && #[trigger] spells(form, segs, depth, left)
    ||| is_foreign(form, segs) && left == form
}

proof fn lemma_run_starts_with_a_scope(
    probe: Seq<char>,
    segs: Seq<Seq<char>>,
    a: int,
    b: int,
)
    requires
        0 <= a <= b < segs.len(),
        text::starts_with(probe, naming::run_text(segs, a, b)),
    ensures
        text::starts_with(probe, segs[a] + "::"@),
    decreases b - a,
{
    let run = naming::run_text(segs, a, b);
    let before = naming::run_text(segs, a, b - 1);
    if a < b {
        assert(probe.subrange(0, before.len() as int) =~= run.take(before.len() as int));
        assert(run.take(before.len() as int) =~= before);
        lemma_run_starts_with_a_scope(probe, segs, a, b - 1);
    } else {
        assert(before + segs[b] + "::"@ =~= segs[a] + "::"@);
    }
}

proof fn lemma_foreign_has_no_own_scope(
    probe: Seq<char>,
    segs: Seq<Seq<char>>,
    a: int,
    b: int,
)
    requires
        forall|j: int|
            0 <= j < segs.len() ==> !text::starts_with(probe, #[trigger] segs[j] + "::"@),
    ensures
        naming::longest_run(probe, segs, a, b) == 0,
    decreases segs.len() - a, segs.len() - b,
{
    if 0 <= a <= b && a < segs.len() {
        if b >= segs.len() {
            lemma_foreign_has_no_own_scope(probe, segs, a + 1, a + 1);
        } else {
            if text::starts_with(probe, naming::run_text(segs, a, b)) {
                lemma_run_starts_with_a_scope(probe, segs, a, b);
                assert(!text::starts_with(probe, segs[a] + "::"@));
            }
            lemma_foreign_has_no_own_scope(probe, segs, a, b + 1);
        }
    }
}

/// A spelling of a type loses the member's own scopes and no other: a type
/// outside them keeps its spelling.
pub proof fn law_spellings_lose_own_scopes_alone(
    segs: Seq<Seq<char>>,
    form: Seq<char>,
    left: Seq<char>,
)
    requires
        are_bare(segs),
        stands_for(form, segs, left),
    ensures
        naming::scopes_stripped(form, segs, true) == left,
        is_plain(form),
        is_plain(left),
        naming::own_prefix(naming::unrooted(left), segs) == 0,
        naming::settled(left, segs, true),
{
    if is_foreign(form, segs) && left == form {
        lemma_foreign_has_no_own_scope(naming::unrooted(form), segs, 0, 0);
        lemma_settled_name(segs, form, Seq::empty());
        assert(form + Seq::<char>::empty() =~= form);
        naming::law_settled_target_is_kept(form, segs, true);
    } else {
        let depth = choose|depth: int|
            1 <= depth <= segs.len() && #[trigger] spells(form, segs, depth, left);
        law_every_spelling_is_stripped_to_the_name(segs, depth, left, form);
        lemma_bare_is_kept(segs, left);
    }
}

/// Canonicalizing the name of a conversion a second time changes nothing: to a
/// type of the member's own scopes, a global one or one of another namespace, or
/// to a template of any of these applied to one.
pub proof fn law_canonicalizing_twice_changes_nothing(
    s: Seq<char>,
    head: Seq<char>,
    head_form: Seq<char>,
    arg: Seq<char>,
    arg_form: Seq<char>,
)
    requires
        naming::is_conversion(s),
        are_bare(naming::own_scopes(naming::scope_of(s))),
        stands_for(head_form, naming::own_scopes(naming::scope_of(s)), head),
        stands_for(arg_form, naming::own_scopes(naming::scope_of(s)), arg),
        naming::target_of(s) == head_form || naming::target_of(s) == applied(head_form, arg_form),
    ensures
        naming::canonical_name(naming::canonical_name(s)) == naming::canonical_name(s),
{
    let segs = naming::own_scopes(naming::scope_of(s));
    law_spellings_lose_own_scopes_alone(segs, head_form, head);
    law_spellings_lose_own_scopes_alone(segs, arg_form, arg);
    law_arguments_are_stripped_on_their_own(segs, head_form, arg_form);
    law_settled_templates_are_settled(segs, head, arg);
    naming::law_canonical_names_are_stable(s);
}

} // verus!
