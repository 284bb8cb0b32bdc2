//! How C and C++ types and names are spelled: template argument lists,
//! qualifiers, pointer suffixes and the white space macro expansion leaves.

use crate::text;
use crate::text::{chars_of, ends, part, space_char, str_eq, string_of, trimmed, trimmed_end, trimmed_start};
use vstd::prelude::*;

verus! {

/// The arguments that the list of `s` open at `i` still holds. `from` is where
/// the argument being read starts, `paren` and `depth` how many parentheses and
/// nested lists are open, `first` whether no argument was read yet.
pub open spec fn arguments_from(
    s: Seq<char>,
    from: int,
    i: int,
    paren: nat,
    depth: nat,
    first: bool,
) -> Seq<Seq<char>>
    decreases s.len() - i,
{
    if i < 0 || i >= s.len() {
        Seq::empty()
    } else if s[i] == '(' {
        arguments_from(s, from, i + 1, paren + 1, depth, first)
    } else if s[i] == ')' && paren > 0 {
        arguments_from(s, from, i + 1, (paren - 1) as nat, depth, first)
    } else if paren > 0 {
        arguments_from(s, from, i + 1, paren, depth, first)
    } else if s[i] == '<' {
        arguments_from(s, from, i + 1, paren, depth + 1, first)
    } else if s[i] == '>' && depth > 0 {
        arguments_from(s, from, i + 1, paren, (depth - 1) as nat, first)
    } else if s[i] == ',' && depth == 0 {
        seq![text::trim(s.subrange(from, i))] + arguments_from(s, i + 1, i + 1, paren, depth, false)
    } else if s[i] == '>' && depth == 0 {
        let arg = text::trim(s.subrange(from, i));
        if arg.len() == 0 && first {
            Seq::empty()
        } else {
            seq![arg]
        }
    } else {
        arguments_from(s, from, i + 1, paren, depth, first)
    }
}

/// The top-level arguments of the first template argument list of a spelling.
pub open spec fn arguments_of(s: Seq<char>) -> Seq<Seq<char>> {
    let start = s.index_of_first('<');
    match start {
        Some(at) => arguments_from(s, at + 1, at + 1, 0, 0, true),
        None => Seq::empty(),
    }
}

pub open spec fn views(v: Seq<String>) -> Seq<Seq<char>> {
    v.map_values(|t: String| t@)
}

/// Where the first `c` of `s` stands.
pub fn position(s: &[char], c: char) -> (r: Option<usize>)
    ensures
        match r {
            Some(i) => s@.index_of_first(c) == Some(i as int) && i < s.len() && s@[i as int] == c,
            None => s@.index_of_first(c) is None && !s@.contains(c),
        },
{
    proof {
        s@.index_of_first_ensures(c);
    }
    let mut i: usize = 0;
    while i < s.len()
        invariant
            i <= s.len(),
            forall|j: int| 0 <= j < i ==> s@[j] != c,
            s@.contains(c) ==> exists|k: int| s@.index_of_first(c) == Some(k) && 0 <= k < s@.len()
                && s@[k] == c && forall|j: int| 0 <= j < k ==> s@[j] != c,
        decreases s.len() - i,
    {
        if s[i] == c {
            assert(s@.contains(c));
            return Some(i);
        }
        i += 1;
    }
    None
}

/// The top-level arguments of a template spelling: `W<A, B<C>, D>` yields `A`,
/// `B<C>` and `D`; a spelling without `<` yields nothing, and neither does the
/// empty list of `W<>`. Commas inside parentheses and nested lists separate
/// nothing.
pub fn template_arguments(raw: &str) -> (args: Vec<String>)
    ensures
        views(args@) == arguments_of(raw@),
{
    let s = chars_of(raw);
    let mut args: Vec<String> = Vec::new();
    let start = match position(&s, '<') {
        Some(at) => at,
        None => {
            assert(views(args@) =~= Seq::empty());
            return args;
        },
    };
    let mut depth: usize = 0;
    let mut paren: usize = 0;
    let mut from: usize = start + 1;
    let mut i: usize = start + 1;
    proof {
        assert(views(args@) + arguments_of(s@) =~= arguments_of(s@));
    }
    while i < s.len()
        invariant
            s@ == raw@,
            0 < from <= i <= s.len(),
            depth <= i,
            paren <= i,
            views(args@) + arguments_from(
                s@,
                from as int,
                i as int,
                paren as nat,
                depth as nat,
                args@.len() == 0,
            ) == arguments_of(s@),
        decreases s.len() - i,
    {
        let c = s[i];
        let ghost rest = arguments_from(
            s@,
            from as int,
            i as int,
            paren as nat,
            depth as nat,
            args@.len() == 0,
        );
        let ghost before = args@;
        if c == '(' {
            paren += 1;
        } else if c == ')' && paren > 0 {
            paren -= 1;
        } else if paren > 0 {
        } else if c == '<' {
            depth += 1;
        } else if c == '>' && depth > 0 {
            depth -= 1;
        } else if (c == ',' || c == '>') && depth == 0 {
            let arg = trimmed(&part(&s, from, i));
            if !(arg.len() == 0 && args.len() == 0 && c == '>') {
                args.push(string_of(&arg));
                assert(views(args@) =~= views(before) + seq![arg@]);
            }
            from = i + 1;
            if c == '>' {
                assert(views(before) + rest =~= views(args@));
                return args;
            }
            assert(rest == seq![arg@] + arguments_from(s@, i + 1, i + 1, 0, 0, false));
            assert(views(before) + rest =~= views(args@) + arguments_from(
                s@,
                i + 1,
                i + 1,
                0,
                0,
                false,
            ));
        }
        i += 1;
    }
    assert(views(args@) + Seq::<Seq<char>>::empty() =~= views(args@));
    args
}

/// What follows the list in which `s` stands at `i`, with `paren` parentheses
/// and `depth` lists open.
pub open spec fn tail_from(s: Seq<char>, i: int, paren: nat, depth: nat) -> Seq<char>
    decreases s.len() - i,
{
    if i < 0 || i >= s.len() {
        Seq::empty()
    } else if s[i] == '(' {
        tail_from(s, i + 1, paren + 1, depth)
    } else if s[i] == ')' && paren > 0 {
        tail_from(s, i + 1, (paren - 1) as nat, depth)
    } else if paren > 0 {
        tail_from(s, i + 1, paren, depth)
    } else if s[i] == '<' {
        tail_from(s, i + 1, paren, depth + 1)
    } else if s[i] == '>' && depth <= 1 {
        s.skip(i + 1)
    } else if s[i] == '>' {
        tail_from(s, i + 1, paren, (depth - 1) as nat)
    } else {
        tail_from(s, i + 1, paren, depth)
    }
}

pub open spec fn tail_of(s: Seq<char>) -> Seq<char> {
    match s.index_of_first('<') {
        Some(at) => tail_from(s, at + 1, 0, 1),
        None => Seq::empty(),
    }
}

/// What follows a spelling's first template argument list: `::Inner` for
/// `Outer<A>::Inner`, empty for `Outer<A>`, for a spelling without arguments
/// and for an unbalanced one.
pub fn template_tail(raw: &str) -> (tail: String)
    ensures
        tail@ == tail_of(raw@),
{
    let s = chars_of(raw);
    let start = match position(&s, '<') {
        Some(at) => at,
        None => {
            return String::new();
        },
    };
    let mut depth: usize = 1;
    let mut paren: usize = 0;
    let mut i: usize = start + 1;
    while i < s.len()
        invariant
            s@ == raw@,
            i <= s.len(),
            0 < depth <= i,
            paren <= i,
            tail_from(s@, i as int, paren as nat, depth as nat) == tail_of(s@),
        decreases s.len() - i,
    {
        let c = s[i];
        if c == '(' {
            paren += 1;
        } else if c == ')' && paren > 0 {
            paren -= 1;
        } else if paren > 0 {
        } else if c == '<' {
            depth += 1;
        } else if c == '>' {
            if depth == 1 {
                assert(s@.skip(i + 1) =~= s@.subrange(i + 1, s@.len() as int));
                return string_of(&part(&s, i + 1, s.len()));
            }
            depth -= 1;
        }
        i += 1;
    }
    String::new()
}

/// The text without the `const` and `volatile` it ends with, each set off by
/// white space or pointer punctuation.
pub open spec fn cv_stripped(s: Seq<char>) -> Seq<char>
    decreases s.len(),
    when true
    via cv_stripped_decreases
{
    let t = text::trim_end(s);
    let rest = if text::ends_with(t, "const"@) {
        t.take(t.len() - "const"@.len())
    } else if text::ends_with(t, "volatile"@) {
        t.take(t.len() - "volatile"@.len())
    } else {
        Seq::empty()
    };
    if rest.len() > 0 && (text::is_space(rest.last()) || rest.last() == '*' || rest.last() == '&') {
        cv_stripped(rest)
    } else {
        t
    }
}

#[via_fn]
proof fn cv_stripped_decreases(s: Seq<char>) {
    reveal_strlit("const");
    reveal_strlit("volatile");
    text::lemma_trim_end_is_prefix(s);
}

pub fn without_trailing_cv(s: &[char]) -> (v: Vec<char>)
    ensures
        v@ == cv_stripped(s@),
    decreases s@.len(),
{
    proof {
        reveal_strlit("const");
        reveal_strlit("volatile");
        text::lemma_trim_end_is_prefix(s@);
    }
    let t = trimmed_end(s);
    let c = chars_of("const");
    let v = chars_of("volatile");
    let rest: Vec<char> = if ends(&t, &c) {
        part(&t, 0, t.len() - c.len())
    } else if ends(&t, &v) {
        part(&t, 0, t.len() - v.len())
    } else {
        Vec::new()
    };
    proof {
        assert(text::ends_with(t@, "const"@) ==> rest@ =~= t@.take(t@.len() - "const"@.len()));
        assert(!text::ends_with(t@, "const"@) && text::ends_with(t@, "volatile"@) ==> rest@ =~= t@.take(
            t@.len() - "volatile"@.len(),
        ));
    }
    if rest.len() > 0 && (space_char(rest[rest.len() - 1]) || rest[rest.len() - 1] == '*'
        || rest[rest.len() - 1] == '&') {
        without_trailing_cv(&rest)
    } else {
        t
    }
}

/// `T const` / `T volatile` spelled after the type, also directly after
/// pointer or reference punctuation (`T*const`).
pub fn strip_trailing_cv(s: &str) -> (r: String)
    ensures
        r@ == cv_stripped(s@),
{
    string_of(&without_trailing_cv(&chars_of(s)))
}

pub proof fn lemma_cv_stripped_shrinks(s: Seq<char>)
    ensures
        cv_stripped(s).len() <= s.len(),
    decreases s.len(),
{
    reveal_strlit("const");
    reveal_strlit("volatile");
    text::lemma_trim_end_is_prefix(s);
    let t = text::trim_end(s);
    if text::ends_with(t, "const"@) {
        lemma_cv_stripped_shrinks(t.take(t.len() - "const"@.len()));
    } else if text::ends_with(t, "volatile"@) {
        lemma_cv_stripped_shrinks(t.take(t.len() - "volatile"@.len()));
    }
}

/// What names the type in `rest`, and the pointer and reference punctuation
/// after it.
pub open spec fn pointer_split(rest: Seq<char>) -> (Seq<char>, Seq<char>)
    decreases rest.len(),
    when true
    via pointer_split_decreases
{
    let bare = text::trim_end(cv_stripped(rest));
    if bare.len() > 0 && (bare.last() == '*' || bare.last() == '&') {
        let inner = pointer_split(bare.drop_last());
        (inner.0, inner.1.push(bare.last()))
    } else {
        (bare, Seq::empty())
    }
}

#[via_fn]
proof fn pointer_split_decreases(rest: Seq<char>) {
    lemma_cv_stripped_shrinks(rest);
    text::lemma_trim_end_is_prefix(cv_stripped(rest));
}

fn split_pointers(rest: &[char]) -> (r: (Vec<char>, Vec<char>))
    ensures
        (r.0@, r.1@) == pointer_split(rest@),
    decreases rest@.len(),
{
    proof {
        lemma_cv_stripped_shrinks(rest@);
        text::lemma_trim_end_is_prefix(cv_stripped(rest@));
    }
    let bare = trimmed_end(&without_trailing_cv(rest));
    let n = bare.len();
    if n > 0 && (bare[n - 1] == '*' || bare[n - 1] == '&') {
        let shorter = part(&bare, 0, n - 1);
        assert(shorter@ =~= bare@.drop_last());
        let (base, mut suffix) = split_pointers(&shorter);
        suffix.push(bare[n - 1]);
        (base, suffix)
    } else {
        (bare, Vec::new())
    }
}

/// A template argument split into what names the type and the pointer or
/// reference punctuation after it, every level kept and cv-qualifiers at any
/// level dropped: `T * const *` is (`T`, `**`), `T &` is (`T`, `&`).
pub fn split_pointer_suffix(arg: &str) -> (r: (String, String))
    ensures
        (r.0@, r.1@) == pointer_split(text::trim(arg@)),
{
    let (base, suffix) = split_pointers(&trimmed(&chars_of(arg)));
    (string_of(&base), string_of(&suffix))
}

/// A literal among template arguments.
pub open spec fn literal_spelling(s: Seq<char>) -> bool {
    ||| s.len() > 0 && ('0' <= s[0] <= '9' || s[0] == '\'' || s[0] == '"' || s[0] == '-')
    ||| s == "true"@
    ||| s == "false"@
    ||| s == "nullptr"@
}

/// A non-type template argument spelled as a literal (`4`, `-1`, `true`,
/// `'a'`): never a class, so never qualified to a namespace.
pub fn is_template_literal(arg: &str) -> (r: bool)
    ensures
        r == literal_spelling(arg@),
{
    let s = chars_of(arg);
    (s.len() > 0 && (('0' <= s[0] && s[0] <= '9') || s[0] == '\'' || s[0] == '"' || s[0] == '-'))
        || str_eq(arg, "true") || str_eq(arg, "false") || str_eq(arg, "nullptr")
}

/// How many characters `s` starts with that are no white space.
pub open spec fn word_len(s: Seq<char>) -> int
    decreases s.len(),
{
    if s.len() > 0 && !text::is_space(s[0]) {
        1 + word_len(s.drop_first())
    } else {
        0
    }
}

proof fn lemma_word_len(s: Seq<char>)
    ensures
        0 <= word_len(s) <= s.len(),
        s.len() > 0 && !text::is_space(s[0]) ==> word_len(s) > 0,
    decreases s.len(),
{
    if s.len() > 0 && !text::is_space(s[0]) {
        lemma_word_len(s.drop_first());
    }
}

/// The words of `s`: its longest runs without white space.
pub open spec fn words(s: Seq<char>) -> Seq<Seq<char>>
    decreases s.len(),
    when true
    via words_decreases
{
    let t = text::trim_start(s);
    if t.len() == 0 {
        Seq::empty()
    } else {
        seq![t.take(word_len(t))] + words(t.skip(word_len(t)))
    }
}

#[via_fn]
proof fn words_decreases(s: Seq<char>) {
    text::lemma_trim_start_is_suffix(s);
    lemma_word_len(text::trim_start(s));
}

/// The words of `s`, in order.
pub fn split_words(s: &[char]) -> (v: Vec<Vec<char>>)
    ensures
        v@.map_values(|w: Vec<char>| w@) == words(s@),
{
    let mut v: Vec<Vec<char>> = Vec::new();
    let mut rest: Vec<char> = trimmed_start(s);
    proof {
        assert(v@.map_values(|w: Vec<char>| w@) + words(s@) =~= words(s@));
        text::lemma_trim_start_is_suffix(s@);
        assert(text::trim_start(rest@) == rest@);
    }
    while rest.len() > 0
        invariant
            v@.map_values(|w: Vec<char>| w@) + words(rest@) == words(s@),
            text::trim_start(rest@) == rest@,
        decreases rest.len(),
    {
        let mut n: usize = 0;
        proof {
            assert(rest@.skip(0) =~= rest@);
            lemma_word_len(rest@);
            text::lemma_trim_start_is_suffix(rest@);
        }
        while n < rest.len() && !space_char(rest[n])
            invariant
                n <= rest.len(),
                word_len(rest@) == n + word_len(rest@.skip(n as int)),
            decreases rest.len() - n,
        {
            assert(rest@.skip(n as int).drop_first() =~= rest@.skip(n + 1));
            n += 1;
        }
        assert(word_len(rest@.skip(n as int)) == 0);
        let word = part(&rest, 0, n);
        let after = part(&rest, n, rest.len());
        let ghost old_v = v@;
        proof {
            assert(word@ =~= rest@.take(n as int));
            assert(after@ =~= rest@.skip(n as int));
            text::lemma_trim_start_is_suffix(after@);
        }
        v.push(word);
        let next = trimmed_start(&after);
        proof {
            assert(words(rest@) == seq![word@] + words(after@));
            assert(v@.map_values(|w: Vec<char>| w@) =~= old_v.map_values(|w: Vec<char>| w@)
                + seq![word@]);
            assert(text::trim_start(next@) == next@);
            assert(words(next@) == words(after@));
            assert(v@.map_values(|w: Vec<char>| w@) + words(next@) =~= old_v.map_values(
                |w: Vec<char>| w@,
            ) + words(rest@));
        }
        rest = next;
    }
    assert(v@.map_values(|w: Vec<char>| w@) + Seq::<Seq<char>>::empty() =~= v@.map_values(
        |w: Vec<char>| w@,
    ));
    v
}

/// A keyword scalar, `auto`, or a standard integer or `nullptr_t` name.
pub open spec fn fundamental_word(w: Seq<char>) -> bool {
    ||| w == "int"@ || w == "char"@ || w == "void"@ || w == "bool"@ || w == "float"@
    ||| w == "double"@ || w == "short"@ || w == "long"@ || w == "signed"@ || w == "unsigned"@
    ||| w == "wchar_t"@ || w == "char8_t"@ || w == "char16_t"@ || w == "char32_t"@
    ||| w == "size_t"@ || w == "ssize_t"@ || w == "ptrdiff_t"@ || w == "intptr_t"@
    ||| w == "uintptr_t"@ || w == "int8_t"@ || w == "int16_t"@ || w == "int32_t"@
    ||| w == "int64_t"@ || w == "uint8_t"@ || w == "uint16_t"@ || w == "uint32_t"@
    ||| w == "uint64_t"@ || w == "intmax_t"@ || w == "uintmax_t"@ || w == "nullptr_t"@
    ||| w == "auto"@
}

fn is_fundamental_word(word: &str) -> (r: bool)
    ensures
        r == fundamental_word(word@),
{
    str_eq(word, "int") || str_eq(word, "char") || str_eq(word, "void") || str_eq(word, "bool")
        || str_eq(word, "float") || str_eq(word, "double") || str_eq(word, "short") || str_eq(
        word,
        "long",
    ) || str_eq(word, "signed") || str_eq(word, "unsigned") || str_eq(word, "wchar_t") || str_eq(
        word,
        "char8_t",
    ) || str_eq(word, "char16_t") || str_eq(word, "char32_t") || str_eq(word, "size_t") || str_eq(
        word,
        "ssize_t",
    ) || str_eq(word, "ptrdiff_t") || str_eq(word, "intptr_t") || str_eq(word, "uintptr_t")
        || str_eq(word, "int8_t") || str_eq(word, "int16_t") || str_eq(word, "int32_t") || str_eq(
        word,
        "int64_t",
    ) || str_eq(word, "uint8_t") || str_eq(word, "uint16_t") || str_eq(word, "uint32_t") || str_eq(
        word,
        "uint64_t",
    ) || str_eq(word, "intmax_t") || str_eq(word, "uintmax_t") || str_eq(word, "nullptr_t")
        || str_eq(word, "auto")
}

/// A text whose words are all fundamental type words: never a class.
pub open spec fn fundamental_name(s: Seq<char>) -> bool {
    s.len() > 0 && forall|i: int| 0 <= i < words(s).len() ==> fundamental_word(#[trigger] words(s)[i])
}

/// A keyword scalar, `auto`, or a standard integer or `nullptr_t` name: never
/// a class, so never qualified to the namespace it is spelled in.
pub fn is_fundamental_type_name(name: &str) -> (r: bool)
    ensures
        r == fundamental_name(name@),
{
    let s = chars_of(name);
    if s.len() == 0 {
        return false;
    }
    let all = split_words(&s);
    let ghost texts = all@.map_values(|w: Vec<char>| w@);
    let mut i: usize = 0;
    while i < all.len()
        invariant
            i <= all.len(),
            texts == words(s@),
            texts == all@.map_values(|w: Vec<char>| w@),
            s@ == name@,
            forall|j: int| 0 <= j < i ==> fundamental_word(#[trigger] words(s@)[j]),
        decreases all.len() - i,
    {
        let word = string_of(&all[i]);
        assert(words(s@)[i as int] == word@);
        if !is_fundamental_word(word.as_str()) {
            return false;
        }
        i += 1;
    }
    true
}

pub open spec fn all_shorter(v: Seq<Seq<char>>, n: nat) -> bool {
    forall|k: int| 0 <= k < v.len() ==> (#[trigger] v[k]).len() < n
}

proof fn lemma_arguments_from(
    s: Seq<char>,
    from: int,
    i: int,
    paren: nat,
    depth: nat,
    first: bool,
)
    requires
        0 < from <= i <= s.len(),
    ensures
        all_shorter(arguments_from(s, from, i, paren, depth, first), s.len()),
    decreases s.len() - i,
{
    if i < s.len() {
        text::lemma_trim_shrinks(s.subrange(from, i));
        if s[i] == '(' {
            lemma_arguments_from(s, from, i + 1, paren + 1, depth, first);
        } else if s[i] == ')' && paren > 0 {
            lemma_arguments_from(s, from, i + 1, (paren - 1) as nat, depth, first);
        } else if paren > 0 {
            lemma_arguments_from(s, from, i + 1, paren, depth, first);
        } else if s[i] == '<' {
            lemma_arguments_from(s, from, i + 1, paren, depth + 1, first);
        } else if s[i] == '>' && depth > 0 {
            lemma_arguments_from(s, from, i + 1, paren, (depth - 1) as nat, first);
        } else if s[i] == ',' && depth == 0 {
            lemma_arguments_from(s, i + 1, i + 1, paren, depth, false);
            let rest = arguments_from(s, i + 1, i + 1, paren, depth, false);
            let all = arguments_from(s, from, i, paren, depth, first);
            assert(all =~= seq![text::trim(s.subrange(from, i))] + rest);
            assert forall|k: int| 0 <= k < all.len() implies (#[trigger] all[k]).len()
                < s.len() by {
                if k > 0 {
                    assert(all[k] == rest[k - 1]);
                    assert(rest[k - 1].len() < s.len());
                }
            }
        } else if s[i] == '>' && depth == 0 {
        } else {
            lemma_arguments_from(s, from, i + 1, paren, depth, first);
        }
    }
}

/// An argument is shorter than the spelling that holds it.
pub proof fn lemma_arguments_are_shorter(s: Seq<char>)
    ensures
        all_shorter(arguments_of(s), s.len()),
{
    match s.index_of_first('<') {
        Some(at) => {
            s.index_of_first_ensures('<');
            lemma_arguments_from(s, at + 1, at + 1, 0, 0, true);
        },
        None => {},
    }
}

proof fn lemma_tail_from(s: Seq<char>, i: int, paren: nat, depth: nat)
    ensures
        tail_from(s, i, paren, depth).len() == 0 || tail_from(s, i, paren, depth).len() < s.len(),
    decreases s.len() - i,
{
    if 0 <= i < s.len() {
        if s[i] == '(' {
            lemma_tail_from(s, i + 1, paren + 1, depth);
        } else if s[i] == ')' && paren > 0 {
            lemma_tail_from(s, i + 1, (paren - 1) as nat, depth);
        } else if paren > 0 {
            lemma_tail_from(s, i + 1, paren, depth);
        } else if s[i] == '<' {
            lemma_tail_from(s, i + 1, paren, depth + 1);
        } else if s[i] == '>' && depth <= 1 {
        } else if s[i] == '>' {
            lemma_tail_from(s, i + 1, paren, (depth - 1) as nat);
        } else {
            lemma_tail_from(s, i + 1, paren, depth);
        }
    }
}

/// What follows an argument list is shorter than the spelling.
pub proof fn lemma_tail_is_shorter(s: Seq<char>)
    ensures
        tail_of(s).len() == 0 || tail_of(s).len() < s.len(),
{
    match s.index_of_first('<') {
        Some(at) => {
            lemma_tail_from(s, at + 1, 0, 1);
        },
        None => {},
    }
}

/// What names the type is no longer than the spelling with its punctuation.
pub proof fn lemma_pointer_split_shrinks(rest: Seq<char>)
    ensures
        pointer_split(rest).0.len() <= rest.len(),
    decreases rest.len(),
{
    lemma_cv_stripped_shrinks(rest);
    text::lemma_trim_end_is_prefix(cv_stripped(rest));
    let bare = text::trim_end(cv_stripped(rest));
    if bare.len() > 0 && (bare.last() == '*' || bare.last() == '&') {
        lemma_pointer_split_shrinks(bare.drop_last());
    }
}

} // verus!
