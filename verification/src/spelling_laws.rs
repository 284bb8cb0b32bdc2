//! What texts spell: numbers and strings, names and their parts, types.

use crate::ir::DescView;
use crate::literal;
use crate::lookup::ClassIndex;
use crate::methods;
use crate::methods::MethodView;
use crate::naming;
use crate::normalize;
use crate::scope;
use crate::scope::NameScope;
use crate::spelling;
use crate::syntax::SyntaxTree;
use crate::text;
use crate::tree_laws;
use crate::types;
use vstd::prelude::*;

verus! {

/// All of the text is space.
pub open spec fn is_blank(s: Seq<char>) -> bool {
    forall|i: int| 0 <= i < s.len() ==> text::is_space(#[trigger] s[i])
}

/// Neither end of the text is space.
pub open spec fn is_trimmed(s: Seq<char>) -> bool {
    s.len() > 0 ==> !text::is_space(s[0]) && !text::is_space(s.last())
}

proof fn lemma_trim_start(s: Seq<char>) -> (a: int)
    ensures
        0 <= a <= s.len(),
        text::trim_start(s) == s.skip(a),
        is_blank(s.take(a)),
        a < s.len() ==> !text::is_space(s[a]),
    decreases s.len(),
{
    if s.len() > 0 && text::is_space(s[0]) {
        let b = lemma_trim_start(s.drop_first());
        assert(s.drop_first().skip(b) =~= s.skip(b + 1));
        assert forall|i: int| 0 <= i < b + 1 implies text::is_space(#[trigger] s.take(b + 1)[i]) by {
            if i > 0 {
                assert(s.drop_first().take(b)[i - 1] == s[i]);
            }
        }
        if b < s.drop_first().len() {
            assert(s.drop_first()[b] == s[b + 1]);
        }
        b + 1
    } else {
        assert(s.skip(0) =~= s);
        0
    }
}

proof fn lemma_trim_end(s: Seq<char>) -> (b: int)
    ensures
        0 <= b <= s.len(),
        text::trim_end(s) == s.take(b),
        is_blank(s.skip(b)),
        b > 0 ==> !text::is_space(s[b - 1]),
    decreases s.len(),
{
    if s.len() > 0 && text::is_space(s.last()) {
        let b = lemma_trim_end(s.drop_last());
        assert(s.drop_last().take(b) =~= s.take(b));
        assert forall|i: int| 0 <= i < s.skip(b).len() implies text::is_space(
            #[trigger] s.skip(b)[i],
        ) by {
            if b + i < s.len() - 1 {
                assert(s.drop_last().skip(b)[i] == s[b + i]);
            }
        }
        b
    } else {
        assert(s.take(s.len() as int) =~= s);
        s.len() as int
    }
}

/// Trimming takes the space off both ends, and nothing else.
pub proof fn law_trimming_takes_the_space_off(s: Seq<char>)
    ensures
        is_trimmed(text::trim(s)),
        exists|a: int, b: int|
            0 <= a <= b <= s.len() && #[trigger] s.subrange(a, b) == text::trim(s) && is_blank(
                s.take(a),
            ) && is_blank(s.skip(b)),
        is_trimmed(s) ==> text::trim(s) == s,
{
    let a = lemma_trim_start(s);
    let t = s.skip(a);
    let b = lemma_trim_end(t);
    assert(s.subrange(a, a + b) =~= t.take(b));
    assert(t.skip(b) =~= s.skip(a + b));
    let r = text::trim(s);
    if r.len() > 0 {
        assert(r[0] == s[a]);
        assert(r.last() == t[b - 1]);
    }
    if is_trimmed(s) && s.len() > 0 {
        if a > 0 {
            assert(text::is_space(s.take(a)[0]));
        }
        if a + b < s.len() {
            assert(s.skip(a + b).last() == s.last());
        }
        assert(s.take(s.len() as int) =~= s);
    }
}

proof fn lemma_find_from(s: Seq<char>, p: Seq<char>, from: int)
    requires
        0 <= from,
    ensures
        ({
            let at = text::find_from(s, p, from);
            &&& at >= 0 ==> from <= at && text::has_at(s, p, at) && forall|i: int|
                from <= i < at ==> !(#[trigger] text::has_at(s, p, i))
            &&& at < 0 ==> at == -1 && forall|i: int|
                from <= i ==> !(#[trigger] text::has_at(s, p, i))
        }),
    decreases s.len() + 1 - from,
{
    if from + p.len() <= s.len() && !text::has_at(s, p, from) {
        lemma_find_from(s, p, from + 1);
    }
}

/// A search finds the first place, or the last, where the text stands.
pub proof fn law_searches_find_the_first_and_the_last(s: Seq<char>, p: Seq<char>)
    ensures
        text::contains(s, p) <==> text::find_from(s, p, 0) >= 0,
        text::find_from(s, p, 0) >= 0 ==> text::has_at(s, p, text::find_from(s, p, 0)) && forall|
            i: int,
        |
            0 <= i < text::find_from(s, p, 0) ==> !(#[trigger] text::has_at(s, p, i)),
        text::contains(s, p) <==> text::find_last(s, p, s.len() as int) >= 0,
        text::find_last(s, p, s.len() as int) >= 0 ==> text::has_at(
            s,
            p,
            text::find_last(s, p, s.len() as int),
        ) && forall|i: int|
            text::find_last(s, p, s.len() as int) < i ==> !(#[trigger] text::has_at(s, p, i)),
{
    lemma_find_from(s, p, 0);
    lemma_find_last(s, p, s.len() as int);
    if text::contains(s, p) {
        let i = choose|i: int| text::has_at(s, p, i);
        assert(text::has_at(s, p, i));
    }
}

proof fn lemma_find_last(s: Seq<char>, p: Seq<char>, from: int)
    requires
        -1 <= from <= s.len(),
    ensures
        ({
            let at = text::find_last(s, p, from);
            &&& at >= 0 ==> at <= from && text::has_at(s, p, at) && forall|i: int|
                at < i <= from ==> !(#[trigger] text::has_at(s, p, i))
            &&& at < 0 ==> forall|i: int| 0 <= i <= from ==> !(#[trigger] text::has_at(s, p, i))
        }),
    decreases from + 1,
{
    if from >= 0 && !text::has_at(s, p, from) {
        lemma_find_last(s, p, from - 1);
    }
}

/// The number that decimal digits spell.
pub open spec fn spelled_number(s: Seq<char>) -> int
    decreases s.len(),
{
    if s.len() == 0 {
        0
    } else {
        spelled_number(s.drop_last()) * 10 + (s.last() as int - '0' as int)
    }
}

/// A number is spelled in decimal digits, without a zero in front of another digit.
pub proof fn law_numbers_are_spelled_in_decimal(n: nat)
    ensures
        spelled_number(text::decimal(n)) == n,
        text::decimal(n).len() > 0,
        forall|i: int|
            0 <= i < text::decimal(n).len() ==> '0' <= #[trigger] text::decimal(n)[i] <= '9',
        n > 0 ==> text::decimal(n)[0] != '0',
    decreases n,
{
    if n < 10 {
        let s = text::decimal(n);
        assert(s =~= seq![text::digit(n)]);
        assert(s.drop_last() =~= Seq::empty());
        assert(spelled_number(s.drop_last()) == 0);
        assert(s.last() as int == 48 + n);
    } else {
        law_numbers_are_spelled_in_decimal(n / 10);
        let s = text::decimal(n);
        let d = text::decimal(n / 10);
        assert(s.drop_last() =~= d);
        assert(s.last() as int == 48 + n % 10);
        assert(s[0] == d[0]);
    }
}

proof fn lemma_contents_shift(a: Seq<char>, s: Seq<char>, i: int)
    requires
        0 <= i,
    ensures
        literal::contents_from(a + s, a.len() + i) == literal::contents_from(s, i),
    decreases s.len() - i,
{
    let all = a + s;
    if i < s.len() {
        assert(all[a.len() + i] == s[i]);
        if s[i] == '\\' && i + 1 < s.len() {
            assert(all[a.len() + i + 1] == s[i + 1]);
            lemma_contents_shift(a, s, i + 2);
        } else {
            lemma_contents_shift(a, s, i + 1);
        }
    }
}

/// The character that an escape stands for: a control character for its letter, and any
/// other character for itself.
pub proof fn law_escapes_stand_for_their_character(c: char, s: Seq<char>)
    ensures
        c != '\\' ==> literal::contents_from(seq![c] + s, 0) == seq![c] + literal::contents_from(
            s,
            0,
        ),
        literal::contents_from(seq!['\\', 'n'] + s, 0) == seq!['\n'] + literal::contents_from(s, 0),
        literal::contents_from(seq!['\\', 't'] + s, 0) == seq!['\t'] + literal::contents_from(s, 0),
        literal::contents_from(seq!['\\', 'r'] + s, 0) == seq!['\r'] + literal::contents_from(s, 0),
        literal::contents_from(seq!['\\', '0'] + s, 0) == seq!['\0'] + literal::contents_from(s, 0),
        literal::contents_from(seq!['\\', '"'] + s, 0) == seq!['"'] + literal::contents_from(s, 0),
        literal::contents_from(seq!['\\', '\\'] + s, 0) == seq!['\\'] + literal::contents_from(
            s,
            0,
        ),
        literal::contents_from(seq!['\\', '\''] + s, 0) == seq!['\''] + literal::contents_from(
            s,
            0,
        ),
{
    lemma_contents_shift(seq![c], s, 0);
    lemma_escape('n', s);
    lemma_escape('t', s);
    lemma_escape('r', s);
    lemma_escape('0', s);
    lemma_escape('"', s);
    lemma_escape('\\', s);
    lemma_escape('\'', s);
    assert((seq![c] + s)[0] == c);
}

proof fn lemma_escape(c: char, s: Seq<char>)
    ensures
        literal::contents_from(seq!['\\', c] + s, 0) == seq![literal::escaped(c)]
            + literal::contents_from(s, 0),
{
    let a = seq!['\\', c];
    lemma_contents_shift(a, s, 0);
    assert((a + s)[0] == '\\');
    assert((a + s)[1] == c);
}

/// A string holds what stands between its quotes.
pub proof fn law_strings_hold_what_is_quoted(s: Seq<char>)
    ensures
        literal::literal_contents(seq!['"'] + s + seq!['"']) == Some(literal::contents_from(s, 0)),
        !s.contains('\\') ==> literal::contents_from(s, 0) == s,
{
    let raw = seq!['"'] + s + seq!['"'];
    assert(raw[0] == '"' && raw.last() == '"');
    law_trimming_takes_the_space_off(raw);
    reveal_strlit("u8");
    reveal_strlit("u");
    reveal_strlit("U");
    reveal_strlit("L");
    if text::starts_with(raw, "u8"@) {
        assert(raw.subrange(0, 2)[0] == "u8"@[0]);
    }
    if text::starts_with(raw, "u"@) {
        assert(raw.subrange(0, 1)[0] == "u"@[0]);
    }
    if text::starts_with(raw, "U"@) {
        assert(raw.subrange(0, 1)[0] == "U"@[0]);
    }
    if text::starts_with(raw, "L"@) {
        assert(raw.subrange(0, 1)[0] == "L"@[0]);
    }
    assert(raw.subrange(1, raw.len() - 1) =~= s);
    if !s.contains('\\') {
        lemma_plain_contents(s, 0);
        assert(s.skip(0) =~= s);
    }
}

proof fn lemma_plain_contents(s: Seq<char>, i: int)
    requires
        0 <= i <= s.len(),
        !s.contains('\\'),
    ensures
        literal::contents_from(s, i) == s.skip(i),
    decreases s.len() - i,
{
    if i < s.len() {
        assert(s[i] != '\\');
        lemma_plain_contents(s, i + 1);
        assert(s.skip(i) =~= seq![s[i]] + s.skip(i + 1));
    } else {
        assert(s.skip(i) =~= Seq::empty());
    }
}

/// The type of a number: a fraction or an exponent makes it floating, its suffix short or
/// long; a based number has no exponent.
pub proof fn law_numbers_have_the_type_they_are_spelled_with(s: Seq<char>)
    requires
        is_trimmed(s),
        s.len() > 0,
    ensures
        ({
            let d = literal::number_type(s);
            let based = s.len() >= 2 && s[0] == '0' && (s[1] == 'x' || s[1] == 'X' || s[1] == 'b'
                || s[1] == 'B');
            let floating = s.contains('.') || !based && (s.contains('e') || s.contains('E')
                || s.contains('p') || s.contains('P'));
            let single = s.last() == 'f' || s.last() == 'F';
            let long = s.last() == 'u' || s.last() == 'U' || s.last() == 'l' || s.last() == 'L';
            &&& floating && single ==> d == DescView::Float
            &&& floating && !single ==> d == DescView::Double
            &&& !floating && long ==> d == DescView::Long
            &&& !floating && !long ==> d == DescView::Int
        }),
{
    law_trimming_takes_the_space_off(s);
}

/// What stands behind the last separator of a name is its last part.
pub proof fn law_the_last_part_of_a_name(outer: Seq<char>, short: Seq<char>)
    requires
        forall|i: int| !(#[trigger] text::has_at(":"@ + short, "::"@, i)),
    ensures
        normalize::last_segment(outer + "::"@ + short) == short,
        normalize::last_segment(short) == short,
{
    reveal_strlit("::");
    reveal_strlit(":");
    let name = outer + "::"@ + short;
    let at = outer.len() as int;
    assert(name.subrange(at, at + 2) =~= "::"@);
    assert(text::has_at(name, "::"@, at));
    lemma_find_last(name, "::"@, name.len() as int);
    let f = text::find_last(name, "::"@, name.len() as int);
    let rest = ":"@ + short;
    if f > at {
        let j = f - (at + 1);
        assert(rest.subrange(j, j + 2) =~= name.subrange(f, f + 2));
        assert(text::has_at(rest, "::"@, j));
    }
    assert(name.skip(at + 2) =~= short);
    lemma_find_last(short, "::"@, short.len() as int);
    let g = text::find_last(short, "::"@, short.len() as int);
    if g >= 0 {
        assert(rest.subrange(g + 1, g + 3) =~= short.subrange(g, g + 2));
        assert(text::has_at(rest, "::"@, g + 1));
    }
}

/// Part of a name: no colon stands in it.
pub open spec fn is_part(s: Seq<char>) -> bool {
    !s.contains(':')
}

proof fn lemma_part(s: Seq<char>)
    requires
        is_part(s),
    ensures
        forall|i: int| !(#[trigger] text::has_at(s, "::"@, i)),
        naming::segments(s) == seq![s],
{
    reveal_strlit("::");
    assert forall|i: int| !(#[trigger] text::has_at(s, "::"@, i)) by {
        if text::has_at(s, "::"@, i) {
            assert(s.subrange(i, i + 2)[0] == ':');
            assert(s[i] == ':');
        }
    }
    lemma_find_from(s, "::"@, 0);
}

/// A name is parted at its separators.
pub proof fn law_names_are_parted_at_their_separators(a: Seq<char>, rest: Seq<char>)
    requires
        is_part(a),
    ensures
        naming::segments(a) == seq![a],
        naming::segments(a + "::"@ + rest) == seq![a] + naming::segments(rest),
{
    lemma_part(a);
    reveal_strlit("::");
    let s = a + "::"@ + rest;
    let at = a.len() as int;
    assert(s.subrange(at, at + 2) =~= "::"@);
    assert(text::has_at(s, "::"@, at));
    lemma_find_from(s, "::"@, 0);
    let f = text::find_from(s, "::"@, 0);
    if f < at {
        assert(s.subrange(f, f + 2)[0] == ':');
        assert(a[f] == ':');
    }
    assert(s.take(at) =~= a);
    assert(s.skip(at + 2) =~= rest);
}

/// A member is told by its last part: the name of the class makes it a constructor, a
/// tilde a destructor, and any other name a member of that name.
pub proof fn law_members_are_told_by_their_last_part(cls: Seq<char>, short: Seq<char>)
    requires
        is_part(cls),
        is_part(short),
    ensures
        methods::method_of(short) is None,
        text::starts_with(short, "~"@) ==> methods::method_of(cls + "::"@ + short) == Some(
            (cls, MethodView::Dtor),
        ),
        !text::starts_with(short, "~"@) && short == cls ==> methods::method_of(
            cls + "::"@ + short,
        ) == Some((cls, MethodView::Ctor)),
        !text::starts_with(short, "~"@) && short != cls ==> methods::method_of(
            cls + "::"@ + short,
        ) == Some((cls, MethodView::Named(short))),
        methods::member_name(MethodView::Named(short), cls) == cls + "::"@ + short,
        methods::member_name(MethodView::Ctor, cls) == cls + "::"@ + cls,
        methods::member_name(MethodView::Dtor, cls) == cls + "::"@ + ("~"@ + cls),
{
    law_names_are_parted_at_their_separators(cls, short);
    law_names_are_parted_at_their_separators(short, short);
    lemma_part(cls);
    let segs = naming::segments(cls + "::"@ + short);
    assert(segs =~= seq![cls, short]);
    assert(segs.drop_last() =~= seq![cls]);
    assert(scope::joined(seq![cls]) == cls);
    lemma_find_last(cls, "::"@, cls.len() as int);
    assert(normalize::last_segment(cls) == cls);
    assert(cls + "::"@ + "~"@ + cls =~= cls + "::"@ + ("~"@ + cls));
}

/// No bracket, comma or parenthesis stands in the text.
pub open spec fn is_flat(s: Seq<char>) -> bool {
    forall|i: int|
        0 <= i < s.len() ==> (#[trigger] s[i]) != '<' && s[i] != '>' && s[i] != ',' && s[i] != '('
            && s[i] != ')'
}

proof fn lemma_arguments(s: Seq<char>, from: int, i: int, to: int, first: bool)
    requires
        0 <= from <= i <= to < s.len(),
        is_flat(s.subrange(from, to)),
    ensures
        s[to] == '>' ==> spelling::arguments_from(s, from, i, 0, 0, first) == (if text::trim(
            s.subrange(from, to),
        ).len() == 0 && first {
            Seq::empty()
        } else {
            seq![text::trim(s.subrange(from, to))]
        }),
        s[to] == ',' ==> spelling::arguments_from(s, from, i, 0, 0, first) == seq![
            text::trim(s.subrange(from, to)),
        ] + spelling::arguments_from(s, to + 1, to + 1, 0, 0, false),
    decreases to - i,
{
    if i < to {
        assert(s.subrange(from, to)[i - from] == s[i]);
        lemma_arguments(s, from, i + 1, to, first);
    }
}

/// The arguments of a template are what stands in its brackets between commas.
pub proof fn law_template_arguments_stand_in_brackets(
    head: Seq<char>,
    a: Seq<char>,
    b: Seq<char>,
)
    requires
        is_flat(head),
        is_flat(a),
        is_flat(b),
        text::trim(a).len() > 0,
    ensures
        spelling::arguments_of(head) == Seq::<Seq<char>>::empty(),
        spelling::arguments_of(head + seq!['<'] + a + seq!['>']) == seq![text::trim(a)],
        spelling::arguments_of(head + seq!['<'] + a + seq![','] + b + seq!['>']) == seq![
            text::trim(a),
            text::trim(b),
        ],
{
    let h = head.len() as int;
    head.index_of_first_ensures('<');
    if head.contains('<') {
        let i = choose|i: int| 0 <= i < head.len() && head[i] == '<';
        assert(head[i] != '<');
    }
    let s = head + seq!['<'] + a + seq!['>'];
    lemma_opening(s, h);
    let e = h + 1 + a.len();
    assert(s.subrange(h + 1, e) =~= a);
    assert(s[e] == '>');
    lemma_arguments(s, h + 1, h + 1, e, true);
    let t = head + seq!['<'] + a + seq![','] + b + seq!['>'];
    lemma_opening(t, h);
    assert(t.subrange(h + 1, e) =~= a);
    assert(t[e] == ',');
    lemma_arguments(t, h + 1, h + 1, e, true);
    let f = e + 1 + b.len();
    assert(t.subrange(e + 1, f) =~= b);
    assert(t[f] == '>');
    lemma_arguments(t, e + 1, e + 1, f, false);
    assert(seq![text::trim(a)] + seq![text::trim(b)] =~= seq![text::trim(a), text::trim(b)]);
}

proof fn lemma_opening(s: Seq<char>, h: int)
    requires
        0 <= h < s.len(),
        s[h] == '<',
        is_flat(s.take(h)),
    ensures
        s.index_of_first('<') == Some(h),
{
    s.index_of_first_ensures('<');
    assert(s.contains('<'));
    let f = s.index_of_first('<')->0;
    if f < h {
        assert(s.take(h)[f] == '<');
    }
}

/// The name of a template without its arguments.
pub proof fn law_template_names_lose_their_arguments(head: Seq<char>, a: Seq<char>)
    requires
        is_flat(head),
        is_flat(a),
        is_trimmed(head),
        head.len() > 0,
    ensures
        normalize::without_arguments(head + seq!['<'] + a + seq!['>']) == head,
        normalize::without_arguments(head) == head,
        normalize::head_of(head + seq!['<'] + a + seq!['>']) == head,
        normalize::head_of(head) == head,
{
    let s = head + seq!['<'] + a + seq!['>'];
    let h = head.len() as int;
    assert(s.last() == '>');
    assert(text::trim_end(s) == s);
    lemma_bracket(s, h, s.len() - 2, 1);
    assert(normalize::opening_of(s, s.len() - 1, 0) == h);
    assert(s.take(h) =~= head);
    assert(text::trim_end(head) == head);
    assert(head[h - 1] != '>');
    lemma_opening(s, h);
    assert(s[0] == head[0]);
    law_trimming_takes_the_space_off(s);
    law_trimming_takes_the_space_off(head);
    head.index_of_first_ensures('<');
    if head.contains('<') {
        let i = choose|i: int| 0 <= i < head.len() && head[i] == '<';
        assert(head[i] != '<');
    }
}

proof fn lemma_bracket(s: Seq<char>, h: int, i: int, depth: nat)
    requires
        0 <= h <= i < s.len(),
        s[h] == '<',
        depth == 1,
        forall|j: int| h < j <= i ==> (#[trigger] s[j]) != '<' && s[j] != '>',
    ensures
        normalize::opening_of(s, i, depth) == h,
    decreases i - h,
{
    if i > h {
        assert(s[i] != '<' && s[i] != '>');
        lemma_bracket(s, h, i - 1, depth);
    }
}

/// A pointer or a reference is told from what it is to.
pub proof fn law_stars_are_parted_from_the_type(s: Seq<char>)
    requires
        s.len() > 0,
    ensures
        normalize::without_stars(s.push('*')) == normalize::without_stars(s),
        normalize::without_stars(s.push('&')) == normalize::without_stars(s),
        s.last() != '*' && s.last() != '&' ==> normalize::without_stars(s) == s,
{
    assert(s.push('*').drop_last() =~= s);
    assert(s.push('&').drop_last() =~= s);
}

proof fn lemma_kinds()
    ensures
        "union_specifier"@.len() == 15,
        "struct_specifier"@.len() == 16,
        "class_specifier"@.len() == 15,
        "placeholder_type_specifier"@.len() == 26,
        "qualified_identifier"@.len() == 20,
        "type_identifier"@.len() == 15,
        "template_type"@.len() == 13,
        "type_descriptor"@.len() == 15,
        "primitive_type"@.len() == 14,
        "union_specifier"@[0] == 'u',
        "class_specifier"@[0] == 'c',
        "type_identifier"@[0] == 't',
        "type_descriptor"@[0] == 't',
        "type_identifier"@[5] == 'i',
        "type_descriptor"@[5] == 'd',
{
    reveal_strlit("union_specifier");
    reveal_strlit("struct_specifier");
    reveal_strlit("class_specifier");
    reveal_strlit("placeholder_type_specifier");
    reveal_strlit("qualified_identifier");
    reveal_strlit("type_identifier");
    reveal_strlit("template_type");
    reveal_strlit("type_descriptor");
    reveal_strlit("primitive_type");
}

/// The type that a specifier names: a class or a union by its tag, `auto` none yet, a
/// callable wrapper a function, an alias of the block what it stands for.
pub proof fn law_specifiers_name_their_type(
    s: NameScope,
    x: ClassIndex,
    t: SyntaxTree,
    source: Seq<char>,
    n: int,
    tag: Seq<char>,
    c: usize,
)
    requires
        t.wf(),
        0 <= n < t.len(),
    ensures
        ({
            let kind = t.rows@[n].kind@;
            let d = types::type_of(s, x, t, source, n, tag);
            let raw = normalize::qualified_text(t.text(source, n));
            let named = kind == "qualified_identifier"@ || kind == "type_identifier"@ || kind
                == "template_type"@;
            &&& kind == "struct_specifier"@ || kind == "class_specifier"@ ==> d
                == (DescView::Struct { name: tag, fields: Seq::empty() })
            &&& kind == "union_specifier"@ ==> d == (DescView::Union {
                name: tag,
                fields: Seq::empty(),
            })
            &&& kind == "placeholder_type_specifier"@ ==> d == DescView::Unknown
            &&& named && s.spec_local_alias(raw) is Some ==> d == s.spec_local_alias(raw)->0
            &&& named && s.spec_local_alias(raw) is None && (normalize::head_of(raw)
                == "std::function"@ || normalize::head_of(raw) == "::std::function"@) ==> d
                == (DescView::FnPtr { ret: Box::new(DescView::Int), params: Seq::empty() })
            &&& kind == "type_descriptor"@ && tree_laws::fills_field(t, n, "type"@, c) ==> d
                == types::type_of(s, x, t, source, c as int, tag)
        }),
{
    lemma_kinds();
    if tree_laws::fills_field(t, n, "type"@, c) {
        tree_laws::lemma_first_is_one(t, n, "type"@, c);
        t.lemma_fielded(n, "type"@);
    }
}

/// Nothing is known of the name as a type.
pub open spec fn is_no_type(x: ClassIndex, name: Seq<char>) -> bool {
    !x.spec_declared(name) && x.spec_typed(name) is None && x.spec_alias(name) is None
}

proof fn lemma_first_type(
    x: ClassIndex,
    all: Seq<(Seq<char>, bool)>,
    spelled_global: bool,
    k: int,
    i: int,
)
    requires
        0 <= k <= i < all.len(),
        forall|j: int| k <= j < i ==> is_no_type(x, (#[trigger] all[j]).0),
    ensures
        types::first_type(x, all, spelled_global, k) == types::first_type(
            x,
            all,
            spelled_global,
            i,
        ),
    decreases i - k,
{
    if k < i {
        assert(is_no_type(x, all[k].0));
        lemma_first_type(x, all, spelled_global, k + 1, i);
    }
}

/// A type name means the class or the alias of the nearest scope that has one.
pub proof fn law_type_names_mean_the_nearest_type(
    s: NameScope,
    x: ClassIndex,
    raw: Seq<char>,
    i: int,
)
    requires
        s.is_cpp,
        normalize::without_arguments(raw) == raw,
        !spelling::fundamental_name(raw),
        0 <= i < s.spec_candidates(x, raw).len(),
        forall|j: int| 0 <= j < i ==> is_no_type(x, (#[trigger] s.spec_candidates(x, raw)[j]).0),
    ensures
        ({
            let (name, global) = s.spec_candidates(x, raw)[i];
            &&& x.spec_declared(name) || x.spec_typed(name) is Some ==> types::named_type(
                s,
                x,
                raw,
            ) == Some(DescView::Struct { name, fields: Seq::empty() })
            &&& !x.spec_declared(name) && x.spec_typed(name) is None && x.spec_alias(name) is Some
                && !global ==> types::named_type(s, x, raw) == x.spec_alias(name)
        }),
{
    lemma_first_type(
        x,
        s.spec_candidates(x, raw),
        text::starts_with(raw, "::"@),
        0,
        i,
    );
}

/// The scalar that the words of a type spell: a wider word goes before a shorter one.
pub proof fn law_scalars_are_what_their_words_say(s: Seq<char>)
    requires
        is_trimmed(s),
        !text::contains(s, "long double"@),
    ensures
        text::contains(s, "bool"@) ==> types::scalar_of(s) == Some(DescView::Bool),
        !text::contains(s, "bool"@) && text::contains(s, "long long"@) ==> types::scalar_of(s)
            == Some(DescView::LongLong),
        !text::contains(s, "bool"@) && !text::contains(s, "long long"@) ==> {
            &&& text::contains(s, "double"@) ==> types::scalar_of(s) == Some(DescView::Double)
            &&& !text::contains(s, "double"@) && text::contains(s, "float"@) ==> types::scalar_of(s)
                == Some(DescView::Float)
            &&& !text::contains(s, "double"@) && !text::contains(s, "float"@) && text::contains(
                s,
                "short"@,
            ) ==> types::scalar_of(s) == Some(DescView::Short)
            &&& !text::contains(s, "double"@) && !text::contains(s, "float"@) && !text::contains(
                s,
                "short"@,
            ) && text::contains(s, "long"@) ==> types::scalar_of(s) == Some(DescView::Long)
            &&& !text::contains(s, "double"@) && !text::contains(s, "float"@) && !text::contains(
                s,
                "short"@,
            ) && !text::contains(s, "long"@) && text::contains(s, "unsigned"@)
                ==> types::scalar_of(s) == Some(DescView::Int)
        },
{
    law_trimming_takes_the_space_off(s);
}

} // verus!
