//! Literals: the type of a number and the contents of a string.

use crate::ir::{DescView, TypeDesc};
use crate::spelling::position;
use crate::text;
use crate::text::{begins, chars_of, part, string_of, trimmed, trimmed_start};
use vstd::prelude::*;

verus! {

/// The text ends with one of two letters.
pub open spec fn ends_in(s: Seq<char>, lower: char, upper: char) -> bool {
    s.len() > 0 && (s.last() == lower || s.last() == upper)
}

/// The text has a base prefix: hexadecimal or binary.
pub open spec fn is_based(s: Seq<char>) -> bool {
    s.len() >= 2 && s[0] == '0' && (s[1] == 'x' || s[1] == 'X' || s[1] == 'b' || s[1] == 'B')
}

/// A number with a point, or with an exponent and no base prefix.
pub open spec fn is_fractional(s: Seq<char>) -> bool {
    s.contains('.') || !is_based(s) && (s.contains('e') || s.contains('E') || s.contains('p')
        || s.contains('P'))
}

/// The type of a number literal.
pub open spec fn number_type(raw: Seq<char>) -> DescView {
    let s = text::trim(raw);
    if is_fractional(s) {
        if ends_in(s, 'f', 'F') {
            DescView::Float
        } else {
            DescView::Double
        }
    } else if ends_in(s, 'u', 'U') || ends_in(s, 'l', 'L') {
        DescView::Long
    } else {
        DescView::Int
    }
}

fn has_char(s: &[char], c: char) -> (r: bool)
    ensures
        r == s@.contains(c),
{
    let found = position(s, c);
    assert(found is Some ==> s@.contains(c));
    found.is_some()
}

/// The type a number literal has: a point or an exponent makes it a `double`,
/// or a `float` with an `f`; a suffix makes an integer `long`.
pub fn number_literal_desc(raw: &str) -> (r: TypeDesc)
    ensures
        r@ == number_type(raw@),
{
    let s = trimmed(&chars_of(raw));
    let n = s.len();
    let based = n >= 2 && s[0] == '0' && (s[1] == 'x' || s[1] == 'X' || s[1] == 'b' || s[1] == 'B');
    if has_char(&s, '.') || !based && (has_char(&s, 'e') || has_char(&s, 'E') || has_char(&s, 'p') || has_char(&s, 'P')) {
        if n > 0 && (s[n - 1] == 'f' || s[n - 1] == 'F') {
            TypeDesc::Float
        } else {
            TypeDesc::Double
        }
    } else if n > 0 && (s[n - 1] == 'u' || s[n - 1] == 'U' || s[n - 1] == 'l' || s[n - 1] == 'L') {
        TypeDesc::Long
    } else {
        TypeDesc::Int
    }
}

/// The character an escape stands for; any other escaped character stands for
/// itself.
pub open spec fn escaped(c: char) -> char {
    if c == 'n' {
        '\n'
    } else if c == 't' {
        '\t'
    } else if c == 'r' {
        '\r'
    } else if c == '0' {
        '\0'
    } else if c == 'a' {
        '\u{0007}'
    } else if c == 'b' {
        '\u{0008}'
    } else if c == 'f' {
        '\u{000c}'
    } else if c == 'v' {
        '\u{000b}'
    } else {
        c
    }
}

/// The contents that the text of a literal spells from position `i` on: an
/// escape, or the character itself.
pub open spec fn contents_from(s: Seq<char>, i: int) -> Seq<char>
    decreases s.len() - i,
{
    if i < 0 || i >= s.len() {
        seq![]
    } else if s[i] == '\\' && i + 1 < s.len() {
        seq![escaped(s[i + 1])] + contents_from(s, i + 2)
    } else {
        seq![s[i]] + contents_from(s, i + 1)
    }
}

/// The literal without its encoding prefix.
pub open spec fn unprefixed_literal(s: Seq<char>) -> Seq<char> {
    if text::starts_with(s, "u8"@) {
        text::trim_start(s.skip("u8"@.len() as int))
    } else if text::starts_with(s, "u"@) {
        text::trim_start(s.skip("u"@.len() as int))
    } else if text::starts_with(s, "U"@) {
        text::trim_start(s.skip("U"@.len() as int))
    } else if text::starts_with(s, "L"@) {
        text::trim_start(s.skip("L"@.len() as int))
    } else {
        s
    }
}

/// What stands between the quotes of a literal.
pub open spec fn quoted(raw: Seq<char>) -> Option<Seq<char>> {
    let s = unprefixed_literal(text::trim(raw));
    if s.len() >= 2 && s[0] == '"' && s.last() == '"' {
        Some(s.subrange(1, s.len() - 1))
    } else {
        None
    }
}

/// The contents of a string literal.
pub open spec fn literal_contents(raw: Seq<char>) -> Option<Seq<char>> {
    match quoted(raw) {
        Some(inner) => Some(contents_from(inner, 0)),
        None => None,
    }
}

fn escaped_char(c: char) -> (r: char)
    ensures
        r == escaped(c),
{
    if c == 'n' {
        '\n'
    } else if c == 't' {
        '\t'
    } else if c == 'r' {
        '\r'
    } else if c == '0' {
        '\0'
    } else if c == 'a' {
        '\u{0007}'
    } else if c == 'b' {
        '\u{0008}'
    } else if c == 'f' {
        '\u{000c}'
    } else if c == 'v' {
        '\u{000b}'
    } else {
        c
    }
}

fn without_prefix(s: &[char]) -> (r: Vec<char>)
    ensures
        r@ == unprefixed_literal(s@),
{
    let p1 = chars_of("u8");
    let p2 = chars_of("u");
    let p3 = chars_of("U");
    let p4 = chars_of("L");
    let skip: usize = if begins(s, &p1) {
        p1.len()
    } else if begins(s, &p2) {
        p2.len()
    } else if begins(s, &p3) {
        p3.len()
    } else if begins(s, &p4) {
        p4.len()
    } else {
        let own = part(s, 0, s.len());
        assert(own@ =~= s@);
        return own;
    };
    let rest = part(s, skip, s.len());
    assert(rest@ =~= s@.skip(skip as int));
    trimmed_start(&rest)
}

/// The contents of a C or C++ string literal, its encoding prefix and quotes
/// gone and its simple escapes replaced. `None` where the text is no literal.
pub fn decode_c_string_literal(raw: &str) -> (r: Option<String>)
    ensures
        match r {
            Some(value) => literal_contents(raw@) == Some(value@),
            None => literal_contents(raw@) is None,
        },
{
    let s = without_prefix(&trimmed(&chars_of(raw)));
    let n = s.len();
    if n < 2 || s[0] != '"' || s[n - 1] != '"' {
        return None;
    }
    let inner = part(&s, 1, n - 1);
    assert(inner@ =~= s@.subrange(1, s@.len() - 1));
    let ghost all = inner@;
    let mut out: Vec<char> = Vec::new();
    let mut i: usize = 0;
    assert(out@ + contents_from(all, 0) =~= contents_from(all, 0));
    while i < inner.len()
        invariant
            inner@ == all,
            i <= inner@.len(),
            out@ + contents_from(all, i as int) == contents_from(all, 0),
        decreases inner@.len() - i,
    {
        let ghost before = out@;
        if inner[i] == '\\' && i < inner.len() - 1 {
            let c = escaped_char(inner[i + 1]);
            out.push(c);
            assert(before + (seq![c] + contents_from(all, i + 2)) =~= out@ + contents_from(
                all,
                i + 2,
            ));
            i += 2;
        } else {
            let c = inner[i];
            out.push(c);
            assert(before + (seq![c] + contents_from(all, i + 1)) =~= out@ + contents_from(
                all,
                i + 1,
            ));
            i += 1;
        }
    }
    assert(out@ =~= contents_from(all, 0));
    Some(string_of(&out))
}

} // verus!
