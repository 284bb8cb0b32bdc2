//! One spelling per name: the white space a macro expansion leaves inside a
//! name, the template arguments of its segments, and what a name is looked up
//! under.

use crate::spelling;
use crate::spelling::{position, without_trailing_cv};
use crate::text;
use crate::text::{
    begins, chars_of, part, rfind, space_char, str_eq, string_of, trimmed, trimmed_end,
    trimmed_start, word_char,
};
use vstd::prelude::*;

verus! {

/// What is written of a text, and whether white space was read since.
pub open spec fn spacing_state(s: Seq<char>) -> (Seq<char>, bool)
    decreases s.len(),
{
    if s.len() == 0 {
        (Seq::empty(), false)
    } else {
        spacing_step(spacing_state(s.drop_last()), s.last())
    }
}

/// White space is held back; one space of it is written between two words.
pub open spec fn spacing_step(state: (Seq<char>, bool), c: char) -> (Seq<char>, bool) {
    let (out, pending) = state;
    if text::is_space(c) {
        (out, out.len() > 0)
    } else {
        (spaced(out, pending, c).push(c), false)
    }
}

/// `out` with the space that sets `c` off from it, where one was held back and
/// it separates two words.
pub open spec fn spaced(out: Seq<char>, pending: bool, c: char) -> Seq<char> {
    if pending && text::is_word(c) && out.len() > 0 && text::is_word(out.last()) {
        out.push(' ')
    } else {
        out
    }
}

/// The text with white space kept only between words, one space of it.
pub open spec fn spaced_text(s: Seq<char>) -> Seq<char> {
    spacing_state(s).0
}

fn push_spaced(out: &mut Vec<char>, pending: bool, c: char)
    ensures
        final(out)@ == spaced(old(out)@, pending, c),
{
    if pending && word_char(c) && out.len() > 0 && word_char(out[out.len() - 1]) {
        out.push(' ');
    }
}

pub fn respaced(s: &[char]) -> (out: Vec<char>)
    ensures
        out@ == spaced_text(s@),
{
    let mut out: Vec<char> = Vec::new();
    let mut pending = false;
    let mut i: usize = 0;
    while i < s.len()
        invariant
            i <= s.len(),
            (out@, pending) == spacing_state(s@.take(i as int)),
        decreases s.len() - i,
    {
        let c = s[i];
        assert(s@.take(i + 1).drop_last() =~= s@.take(i as int));
        if space_char(c) {
            pending = out.len() > 0;
        } else {
            push_spaced(&mut out, pending, c);
            out.push(c);
            pending = false;
        }
        i += 1;
    }
    assert(s@.take(i as int) =~= s@);
    out
}

/// Collapse the white space of a name and keep everything else:
/// `Vec < int >` becomes `Vec<int>`, `A :: b` becomes `A::b`,
/// `operator  new` becomes `operator new`. A conversion operator's target is
/// normalized with this, since its arguments are what tells it from another.
pub fn normalize_spacing(text: &str) -> (r: String)
    ensures
        r@ == spaced_text(text@),
{
    string_of(&respaced(&chars_of(text)))
}

/// White space stands only between two word characters, one space of it.
pub open spec fn well_spaced(s: Seq<char>) -> bool {
    forall|i: int|
        0 <= i < s.len() && text::is_space(#[trigger] s[i]) ==> {
            &&& s[i] == ' '
            &&& 0 < i < s.len() - 1
            &&& text::is_word(s[i - 1])
            &&& text::is_word(s[i + 1])
        }
}

proof fn lemma_spacing_state_well_spaced(s: Seq<char>)
    ensures
        well_spaced(spacing_state(s).0),
        spacing_state(s).0.len() > 0 ==> !text::is_space(spacing_state(s).0.last()),
    decreases s.len(),
{
    if s.len() > 0 {
        lemma_spacing_state_well_spaced(s.drop_last());
        let (out, pending) = spacing_state(s.drop_last());
        let c = s.last();
        if !text::is_space(c) {
            let mid = spaced(out, pending, c);
            let end = mid.push(c);
            assert forall|i: int| 0 <= i < end.len() && text::is_space(#[trigger] end[i]) implies {
                &&& end[i] == ' '
                &&& 0 < i < end.len() - 1
                &&& text::is_word(end[i - 1])
                &&& text::is_word(end[i + 1])
            } by {
                if i < out.len() {
                    assert(out[i] == end[i]);
                    assert(end[i - 1] == out[i - 1]);
                    assert(end[i + 1] == out[i + 1]);
                } else if i < mid.len() {
                    assert(end[i - 1] == out.last());
                    assert(end[i + 1] == c);
                }
            }
        }
    }
}

proof fn lemma_well_spaced_prefix(s: Seq<char>, n: int)
    requires
        well_spaced(s),
        0 <= n <= s.len(),
    ensures
        n > 0 && text::is_space(s[n - 1]) ==> spacing_state(s.take(n)) == (s.take(n - 1), true),
        n == 0 || !text::is_space(s[n - 1]) ==> spacing_state(s.take(n)) == (s.take(n), false),
    decreases n,
{
    if n > 0 {
        lemma_well_spaced_prefix(s, n - 1);
        assert(s.take(n).drop_last() =~= s.take(n - 1));
        assert(s.take(n).last() == s[n - 1]);
        if text::is_space(s[n - 1]) {
            assert(text::is_word(s[n - 2]));
            assert(!text::is_space(s[n - 2]));
        } else if n > 1 && text::is_space(s[n - 2]) {
            assert(text::is_word(s[n - 1]) && text::is_word(s[n - 3]));
            assert(s.take(n - 2).last() == s[n - 3]);
            assert(s.take(n - 2).push(' ').push(s[n - 1]) =~= s.take(n));
        } else {
            assert(s.take(n - 1).push(s[n - 1]) =~= s.take(n));
        }
    }
}

/// A text that is spaced as a normalized one is left as it is.
pub proof fn law_well_spaced_text_is_kept(s: Seq<char>)
    requires
        well_spaced(s),
    ensures
        spaced_text(s) == s,
{
    lemma_well_spaced_prefix(s, s.len() as int);
    assert(s.take(s.len() as int) =~= s);
}

/// Normalizing the spacing of a normalized name changes nothing.
pub proof fn law_spacing_is_settled(s: Seq<char>)
    ensures
        spaced_text(spaced_text(s)) == spaced_text(s),
{
    lemma_spacing_state_well_spaced(s);
    law_well_spaced_text_is_kept(spaced_text(s));
}

/// The last segment of a `::`-qualified name.
pub open spec fn last_segment(s: Seq<char>) -> Seq<char> {
    let at = text::find_last(s, "::"@, s.len() as int);
    if at < 0 {
        s
    } else {
        s.skip(at + 2)
    }
}

pub fn last_segment_chars(s: &[char]) -> (r: Vec<char>)
    ensures
        r@ == last_segment(s@),
{
    proof {
        reveal_strlit("::");
    }
    let sep = chars_of("::");
    match rfind(s, &sep) {
        Some(at) => {
            assert(s@.len() == s.len() && sep@.len() == 2);
            assert(s@.skip(at + 2) =~= s@.subrange(at + 2, s@.len() as int));
            part(s, at + 2, s.len())
        },
        None => {
            assert(s@.subrange(0, s@.len() as int) =~= s@);
            part(s, 0, s.len())
        },
    }
}

/// The last segment of a qualified name, or the name where it has one only.
pub fn last_type_segment(qual: &str) -> (r: String)
    ensures
        r@ == last_segment(qual@),
{
    string_of(&last_segment_chars(&chars_of(qual)))
}

/// An operator name whose symbol, as far as it goes, could go on with `<`.
pub open spec fn in_operator_name(out: Seq<char>) -> bool {
    let segment = last_segment(out);
    &&& text::starts_with(segment, "operator"@)
    &&& forall|i: int|
        "operator"@.len() <= i < segment.len() ==> #[trigger] segment[i] == '<' || segment[i] == '='
            || segment[i] == '>'
}

fn is_operator_name(out: &[char]) -> (r: bool)
    ensures
        r == in_operator_name(out@),
{
    let segment = last_segment_chars(out);
    let word = chars_of("operator");
    if !begins(&segment, &word) {
        return false;
    }
    let mut i: usize = word.len();
    while i < segment.len()
        invariant
            word@ == "operator"@,
            word@.len() <= i <= segment.len(),
            segment@ == last_segment(out@),
            forall|j: int|
                word@.len() <= j < i ==> #[trigger] segment@[j] == '<' || segment@[j] == '='
                    || segment@[j] == '>',
        decreases segment.len() - i,
    {
        if segment[i] != '<' && segment[i] != '=' && segment[i] != '>' {
            return false;
        }
        i += 1;
    }
    true
}

/// What is written of a qualified name, whether white space was read since,
/// and how many argument lists are open.
pub open spec fn qualified_state(s: Seq<char>) -> (Seq<char>, bool, nat)
    decreases s.len(),
{
    if s.len() == 0 {
        (Seq::empty(), false, 0)
    } else {
        qualified_step(qualified_state(s.drop_last()), s.last())
    }
}

/// Argument lists are skipped, except for what spells an operator.
pub open spec fn qualified_step(state: (Seq<char>, bool, nat), c: char) -> (Seq<char>, bool, nat) {
    let (out, pending, depth) = state;
    if depth > 0 {
        if c == '<' {
            (out, pending, depth + 1)
        } else if c == '>' {
            (out, pending, (depth - 1) as nat)
        } else {
            state
        }
    } else if text::is_space(c) {
        (out, out.len() > 0, 0)
    } else {
        let set_off = spaced(out, pending, c);
        if c == '<' && !in_operator_name(set_off) {
            (set_off, false, 1)
        } else {
            (set_off.push(c), false, 0)
        }
    }
}

/// A qualified name without its argument lists and with its spacing collapsed.
pub open spec fn qualified_text(s: Seq<char>) -> Seq<char> {
    qualified_state(s).0
}

pub fn requalified(s: &[char]) -> (out: Vec<char>)
    ensures
        out@ == qualified_text(s@),
{
    let mut out: Vec<char> = Vec::new();
    let mut pending = false;
    let mut depth: usize = 0;
    let mut i: usize = 0;
    while i < s.len()
        invariant
            i <= s.len(),
            depth <= i,
            (out@, pending, depth as nat) == qualified_state(s@.take(i as int)),
        decreases s.len() - i,
    {
        let c = s[i];
        assert(s@.take(i + 1).drop_last() =~= s@.take(i as int));
        if depth > 0 {
            if c == '<' {
                depth += 1;
            } else if c == '>' {
                depth -= 1;
            }
        } else if space_char(c) {
            pending = out.len() > 0;
        } else {
            push_spaced(&mut out, pending, c);
            pending = false;
            if c == '<' && !is_operator_name(&out) {
                depth = 1;
            } else {
                out.push(c);
            }
        }
        i += 1;
    }
    assert(s@.take(i as int) =~= s@);
    out
}

/// Collapse the white space inside a qualified name and strip the argument
/// list of each segment: `outer :: inner :: Box < int >` becomes
/// `outer::inner::Box`. White space between two words is significant and
/// stays as one space (`operator new`), and `operator<` keeps its symbol.
pub fn normalize_qualified(text: &str) -> (r: String)
    ensures
        r@ == qualified_text(text@),
{
    string_of(&requalified(&chars_of(text)))
}

proof fn lemma_qualified_without_lists(s: Seq<char>)
    requires
        !s.contains('<'),
    ensures
        qualified_state(s) == (spacing_state(s).0, spacing_state(s).1, 0nat),
    decreases s.len(),
{
    if s.len() > 0 {
        assert forall|c: char| s.drop_last().contains(c) implies s.contains(c) by {
            let i = choose|i: int| 0 <= i < s.drop_last().len() && s.drop_last()[i] == c;
            assert(s[i] == c);
        }
        assert(s[s.len() - 1] == s.last());
        lemma_qualified_without_lists(s.drop_last());
    }
}

/// A name without any `<` is normalized by its spacing alone.
pub proof fn law_names_without_lists_are_respaced(s: Seq<char>)
    requires
        !s.contains('<'),
    ensures
        qualified_text(s) == spaced_text(s),
{
    lemma_qualified_without_lists(s);
}

/// A text without white space.
pub open spec fn template_spelling(s: Seq<char>) -> Seq<char> {
    s.filter(|c: char| !text::is_space(c))
}

/// Remove all white space from a template-base spelling and keep its
/// arguments: `IRemoteStub < IFoo >` becomes `IRemoteStub<IFoo>`.
pub fn normalize_template_spelling(text: &str) -> (r: String)
    ensures
        r@ == template_spelling(text@),
{
    let s = chars_of(text);
    let mut out: Vec<char> = Vec::new();
    let mut i: usize = 0;
    let ghost solid = |c: char| !text::is_space(c);
    proof {
        reveal(Seq::filter);
        assert(s@.take(0).filter(solid) =~= Seq::empty());
    }
    while i < s.len()
        invariant
            i <= s.len(),
            solid == (|c: char| !text::is_space(c)),
            out@ == s@.take(i as int).filter(solid),
        decreases s.len() - i,
    {
        proof {
            reveal(Seq::filter);
            assert(s@.take(i + 1).drop_last() =~= s@.take(i as int));
            assert(s@.take(i + 1).last() == s@[i as int]);
        }
        if !space_char(s[i]) {
            out.push(s[i]);
        }
        i += 1;
    }
    assert(s@.take(i as int) =~= s@);
    string_of(&out)
}

/// Where the list that `s` ends with was opened, read leftwards from `i` with
/// `depth` lists closed so far; -1 where it was not.
pub open spec fn opening_of(s: Seq<char>, i: int, depth: nat) -> int
    decreases i + 1,
{
    if i < 0 || i >= s.len() {
        -1
    } else if s[i] == '>' {
        opening_of(s, i - 1, depth + 1)
    } else if s[i] == '<' && depth <= 1 {
        i
    } else if s[i] == '<' {
        opening_of(s, i - 1, (depth - 1) as nat)
    } else {
        opening_of(s, i - 1, depth)
    }
}

/// A spelling without the balanced argument list it ends with.
pub open spec fn without_arguments(s: Seq<char>) -> Seq<char> {
    let t = text::trim_end(s);
    if t.len() > 0 && t.last() == '>' && opening_of(t, t.len() - 1, 0) >= 0 {
        text::trim_end(t.take(opening_of(t, t.len() - 1, 0)))
    } else {
        t
    }
}

pub fn arguments_stripped(s: &[char]) -> (r: Vec<char>)
    ensures
        r@ == without_arguments(s@),
{
    let t = trimmed_end(s);
    if t.len() == 0 || t[t.len() - 1] != '>' {
        return t;
    }
    let mut i: usize = t.len();
    let mut depth: usize = 0;
    while i > 0
        invariant
            i <= t.len(),
            depth <= t.len() - i,
            i < t.len() ==> depth > 0,
            t@ == text::trim_end(s@),
            t@.len() > 0,
            t@.last() == '>',
            opening_of(t@, t@.len() - 1, 0) == opening_of(t@, i - 1, depth as nat),
        decreases i,
    {
        i -= 1;
        if t[i] == '>' {
            depth += 1;
        } else if t[i] == '<' {
            if depth == 1 {
                assert(t@.take(i as int) =~= t@.subrange(0, i as int));
                return trimmed_end(&part(&t, 0, i));
            }
            depth -= 1;
        }
    }
    t
}

/// Strip the balanced argument list a type or function spelling ends with:
/// `clampT<double>` becomes `clampT`, `Box<int>` becomes `Box`.
pub fn strip_template_args(text: &str) -> (r: String)
    ensures
        r@ == without_arguments(text@),
{
    string_of(&arguments_stripped(&chars_of(text)))
}

/// The class a tag is looked up under: a wrapper instantiation keeps its
/// arguments in its name, the class is spelled without them.
pub fn receiver_lookup_name(name: &str) -> (r: String)
    ensures
        r@ == without_arguments(name@),
{
    strip_template_args(name)
}

/// What a spelling names before its first argument list.
pub open spec fn head_of(s: Seq<char>) -> Seq<char> {
    let t = text::trim(s);
    match t.index_of_first('<') {
        Some(at) => text::trim(t.take(at)),
        None => t,
    }
}

pub fn head_chars(raw: &[char]) -> (r: Vec<char>)
    ensures
        r@ == head_of(raw@),
{
    let s = trimmed(raw);
    match position(&s, '<') {
        Some(at) => {
            assert(s@.take(at as int) =~= s@.subrange(0, at as int));
            trimmed(&part(&s, 0, at))
        },
        None => s,
    }
}

pub fn type_name_before_template(raw: &str) -> (r: String)
    ensures
        r@ == head_of(raw@),
{
    string_of(&head_chars(&chars_of(raw)))
}

pub open spec fn callable_wrapper(s: Seq<char>) -> bool {
    head_of(s) == "std::function"@ || head_of(s) == "::std::function"@
}

/// `std::function<Sig>` and `::std::function<Sig>` hold a function value. A
/// `function` of any other namespace is a class like others.
pub fn is_callable_wrapper(raw: &str) -> (r: bool)
    ensures
        r == callable_wrapper(raw@),
{
    let s = chars_of(raw);
    let head = string_of(&head_chars(&s));
    str_eq(head.as_str(), "std::function") || str_eq(head.as_str(), "::std::function")
}

/// The standard smart pointers, taken on their name alone.
pub open spec fn smart_ptr_name(s: Seq<char>) -> bool {
    ||| last_segment(s) == "shared_ptr"@
    ||| last_segment(s) == "unique_ptr"@
    ||| last_segment(s) == "weak_ptr"@
}

pub fn is_std_smart_ptr_name(cls: &str) -> (r: bool)
    ensures
        r == smart_ptr_name(cls@),
{
    let last = last_type_segment(cls);
    str_eq(last.as_str(), "shared_ptr") || str_eq(last.as_str(), "unique_ptr") || str_eq(
        last.as_str(),
        "weak_ptr",
    )
}

/// The functions that look a symbol up by its name at run time.
pub fn is_symbol_lookup_callee(name: &str) -> (r: bool)
    ensures
        r == (last_segment(name@) == "dlsym"@ || last_segment(name@) == "dlvsym"@ || last_segment(
            name@,
        ) == "GetProcAddress"@),
{
    let last = last_type_segment(name);
    str_eq(last.as_str(), "dlsym") || str_eq(last.as_str(), "dlvsym") || str_eq(
        last.as_str(),
        "GetProcAddress",
    )
}

/// `s` without the `p` it starts with, if it does.
pub open spec fn after_prefix(s: Seq<char>, p: Seq<char>) -> Seq<char> {
    if text::starts_with(s, p) {
        s.skip(p.len() as int)
    } else {
        s
    }
}

pub fn drop_prefix(s: &[char], p: &[char]) -> (r: Vec<char>)
    ensures
        r@ == after_prefix(s@, p@),
{
    if begins(s, p) {
        assert(s@.skip(p@.len() as int) =~= s@.subrange(p@.len() as int, s@.len() as int));
        part(s, p.len(), s.len())
    } else {
        assert(s@.subrange(0, s@.len() as int) =~= s@);
        part(s, 0, s.len())
    }
}

/// The name the index holds a callee spelled `name` under: a leading `::` only
/// says that the lookup starts at the global scope.
pub fn global_lookup_name(name: &str) -> (r: String)
    ensures
        r@ == after_prefix(name@, "::"@),
{
    string_of(&drop_prefix(&chars_of(name), &chars_of("::")))
}

/// `s` without the elaborating keywords and qualifiers it starts with.
pub open spec fn unelaborated(s: Seq<char>) -> Seq<char>
    decreases s.len(),
    when true
    via unelaborated_decreases
{
    let t = text::trim_start(s);
    if text::starts_with(t, "const "@) {
        unelaborated(t.skip("const "@.len() as int))
    } else if text::starts_with(t, "volatile "@) {
        unelaborated(t.skip("volatile "@.len() as int))
    } else if text::starts_with(t, "class "@) {
        unelaborated(t.skip("class "@.len() as int))
    } else if text::starts_with(t, "struct "@) {
        unelaborated(t.skip("struct "@.len() as int))
    } else if text::starts_with(t, "typename "@) {
        unelaborated(t.skip("typename "@.len() as int))
    } else {
        s
    }
}

#[via_fn]
proof fn unelaborated_decreases(s: Seq<char>) {
    reveal_strlit("const ");
    reveal_strlit("volatile ");
    reveal_strlit("class ");
    reveal_strlit("struct ");
    reveal_strlit("typename ");
    text::lemma_trim_start_is_suffix(s);
}

fn drop_elaboration(s: &[char]) -> (r: Vec<char>)
    ensures
        r@ == unelaborated(s@),
    decreases s@.len(),
{
    proof {
        reveal_strlit("const ");
        reveal_strlit("volatile ");
        reveal_strlit("class ");
        reveal_strlit("struct ");
        reveal_strlit("typename ");
        text::lemma_trim_start_is_suffix(s@);
    }
    let t = trimmed_start(s);
    let k1 = chars_of("const ");
    let k2 = chars_of("volatile ");
    let k3 = chars_of("class ");
    let k4 = chars_of("struct ");
    let k5 = chars_of("typename ");
    if begins(&t, &k1) {
        drop_elaboration(&drop_prefix(&t, &k1))
    } else if begins(&t, &k2) {
        drop_elaboration(&drop_prefix(&t, &k2))
    } else if begins(&t, &k3) {
        drop_elaboration(&drop_prefix(&t, &k3))
    } else if begins(&t, &k4) {
        drop_elaboration(&drop_prefix(&t, &k4))
    } else if begins(&t, &k5) {
        drop_elaboration(&drop_prefix(&t, &k5))
    } else {
        assert(s@.subrange(0, s@.len() as int) =~= s@);
        part(s, 0, s.len())
    }
}

/// `s` without the pointer and reference punctuation it ends with.
pub open spec fn without_stars(s: Seq<char>) -> Seq<char>
    decreases s.len(),
{
    if s.len() > 0 && (s.last() == '*' || s.last() == '&') {
        without_stars(s.drop_last())
    } else {
        s
    }
}

fn drop_stars(s: &[char]) -> (r: Vec<char>)
    ensures
        r@ == without_stars(s@),
{
    let mut n: usize = s.len();
    assert(s@.take(n as int) =~= s@);
    while n > 0 && (s[n - 1] == '*' || s[n - 1] == '&')
        invariant
            n <= s.len(),
            without_stars(s@) == without_stars(s@.take(n as int)),
        decreases n,
    {
        assert(s@.take(n as int).drop_last() =~= s@.take(n - 1));
        n -= 1;
    }
    assert(s@.take(n as int) =~= s@.subrange(0, n as int));
    part(s, 0, n)
}

/// The type a spelling names, without keywords, qualifiers and pointers.
pub open spec fn bare_type(s: Seq<char>) -> Seq<char> {
    let t = text::trim(unelaborated(text::trim(s)));
    text::trim(without_stars(spelling::cv_stripped(text::trim(without_stars(t)))))
}

pub fn bare_type_chars(arg: &[char]) -> (r: Vec<char>)
    ensures
        r@ == bare_type(arg@),
{
    let t = trimmed(&drop_elaboration(&trimmed(arg)));
    let inner = without_trailing_cv(&trimmed(&drop_stars(&t)));
    trimmed(&drop_stars(&inner))
}

/// The type an argument spells: elaborating keywords, cv-qualifiers and
/// pointer or reference punctuation around it dropped.
pub fn sanitize_type_name(arg: &str) -> (r: String)
    ensures
        r@ == bare_type(arg@),
{
    string_of(&bare_type_chars(&chars_of(arg)))
}

proof fn lemma_unelaborated_shrinks(s: Seq<char>)
    ensures
        unelaborated(s).len() <= s.len(),
    decreases s.len(),
{
    reveal_strlit("const ");
    reveal_strlit("volatile ");
    reveal_strlit("class ");
    reveal_strlit("struct ");
    reveal_strlit("typename ");
    text::lemma_trim_start_is_suffix(s);
    let t = text::trim_start(s);
    if text::starts_with(t, "const "@) {
        lemma_unelaborated_shrinks(t.skip("const "@.len() as int));
    } else if text::starts_with(t, "volatile "@) {
        lemma_unelaborated_shrinks(t.skip("volatile "@.len() as int));
    } else if text::starts_with(t, "class "@) {
        lemma_unelaborated_shrinks(t.skip("class "@.len() as int));
    } else if text::starts_with(t, "struct "@) {
        lemma_unelaborated_shrinks(t.skip("struct "@.len() as int));
    } else if text::starts_with(t, "typename "@) {
        lemma_unelaborated_shrinks(t.skip("typename "@.len() as int));
    }
}

proof fn lemma_without_stars_shrinks(s: Seq<char>)
    ensures
        without_stars(s).len() <= s.len(),
    decreases s.len(),
{
    if s.len() > 0 && (s.last() == '*' || s.last() == '&') {
        lemma_without_stars_shrinks(s.drop_last());
    }
}

/// The type a spelling names is no longer than the spelling.
pub proof fn lemma_bare_type_shrinks(s: Seq<char>)
    ensures
        bare_type(s).len() <= s.len(),
{
    text::lemma_trim_shrinks(s);
    lemma_unelaborated_shrinks(text::trim(s));
    let u = unelaborated(text::trim(s));
    text::lemma_trim_shrinks(u);
    let t = text::trim(u);
    lemma_without_stars_shrinks(t);
    text::lemma_trim_shrinks(without_stars(t));
    let v = text::trim(without_stars(t));
    spelling::lemma_cv_stripped_shrinks(v);
    lemma_without_stars_shrinks(spelling::cv_stripped(v));
    text::lemma_trim_shrinks(without_stars(spelling::cv_stripped(v)));
}

} // verus!
