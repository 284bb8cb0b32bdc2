//! Text as sequences of characters: conversions, searching and trimming.

use vstd::prelude::*;

verus! {

/// The characters past ASCII with the Unicode property `White_Space`.
pub open spec fn is_wide_space(c: char) -> bool {
    let n = c as u32;
    ||| n == 0x85
    ||| n == 0xa0
    ||| n == 0x1680
    ||| 0x2000 <= n <= 0x200a
    ||| n == 0x2028
    ||| n == 0x2029
    ||| n == 0x202f
    ||| n == 0x205f
    ||| n == 0x3000
}

/// Whether a character past ASCII is alphabetic or numeric in Unicode.
pub uninterp spec fn unicode_alphanumeric(c: char) -> bool;

/// A space, a tab, a line break or another Unicode white space.
pub open spec fn is_space(c: char) -> bool {
    if (c as u32) < 128 {
        c == ' ' || 9 <= (c as u32) <= 13
    } else {
        is_wide_space(c)
    }
}

/// A letter or a digit of any script.
pub open spec fn is_alnum(c: char) -> bool {
    if (c as u32) < 128 {
        ('0' <= c && c <= '9') || ('a' <= c && c <= 'z') || ('A' <= c && c <= 'Z')
    } else {
        unicode_alphanumeric(c)
    }
}

/// A character an identifier can hold.
pub open spec fn is_word(c: char) -> bool {
    is_alnum(c) || c == '_'
}

/// `char::is_whitespace`: in ASCII the space and the controls from tab to
/// carriage return, past it the other characters that Unicode lists as white
/// space.
#[verifier::external_body]
pub(crate) fn space_char(c: char) -> (r: bool)
    ensures
        r == is_space(c),
{
    c.is_whitespace()
}

/// `char::is_alphanumeric`: in ASCII the letters and the digits, past it
/// whatever Unicode says.
#[verifier::external_body]
pub(crate) fn alnum_char(c: char) -> (r: bool)
    ensures
        r == (if (c as u32) < 128 {
            ('0' <= c && c <= '9') || ('a' <= c && c <= 'z') || ('A' <= c && c <= 'Z')
        } else {
            unicode_alphanumeric(c)
        }),
{
    c.is_alphanumeric()
}

/// `String::push` puts one character at the end.
pub assume_specification[ String::push ](s: &mut String, c: char)
    ensures
        final(s)@ == old(s)@.push(c),
;

pub(crate) fn word_char(c: char) -> (r: bool)
    ensures
        r == is_word(c),
{
    alnum_char(c) || c == '_'
}

/// The characters of `s`, in order.
pub fn chars_of(s: &str) -> (v: Vec<char>)
    ensures
        v@ == s@,
{
    let mut v: Vec<char> = Vec::new();
    for c in it: s.chars()
        invariant
            v@ == it.seq().take(it.index() as int),
            it.seq() == s@,
    {
        v.push(c);
    }
    v
}

/// The text the characters spell.
pub fn string_of(v: &[char]) -> (s: String)
    ensures
        s@ == v@,
{
    let mut s = String::new();
    let mut i: usize = 0;
    while i < v.len()
        invariant
            i <= v.len(),
            s@ == v@.take(i as int),
        decreases v.len() - i,
    {
        s.push(v[i]);
        i += 1;
    }
    s
}

/// `p` stands in `s` at position `i`.
pub open spec fn has_at(s: Seq<char>, p: Seq<char>, i: int) -> bool {
    0 <= i && i + p.len() <= s.len() && s.subrange(i, i + p.len()) == p
}

/// `p` stands somewhere in `s`.
pub open spec fn contains(s: Seq<char>, p: Seq<char>) -> bool {
    exists|i: int| has_at(s, p, i)
}

pub open spec fn starts_with(s: Seq<char>, p: Seq<char>) -> bool {
    has_at(s, p, 0)
}

pub open spec fn ends_with(s: Seq<char>, p: Seq<char>) -> bool {
    has_at(s, p, s.len() - p.len())
}

/// The first position at or after `from` where `p` stands, or -1.
pub open spec fn find_from(s: Seq<char>, p: Seq<char>, from: int) -> int
    decreases s.len() + 1 - from,
{
    if from < 0 || from + p.len() > s.len() {
        -1
    } else if has_at(s, p, from) {
        from
    } else {
        find_from(s, p, from + 1)
    }
}

/// The last position at or before `from` where `p` stands, or -1.
pub open spec fn find_last(s: Seq<char>, p: Seq<char>, from: int) -> int
    decreases from + 1,
{
    if from < 0 {
        -1
    } else if has_at(s, p, from) {
        from
    } else {
        find_last(s, p, from - 1)
    }
}

pub proof fn lemma_find_from(s: Seq<char>, p: Seq<char>, from: int)
    requires
        0 <= from,
    ensures
        find_from(s, p, from) >= 0 ==> {
            &&& from <= find_from(s, p, from)
            &&& has_at(s, p, find_from(s, p, from))
            &&& forall|j: int| from <= j < find_from(s, p, from) ==> !has_at(s, p, j)
        },
        find_from(s, p, from) < 0 ==> find_from(s, p, from) == -1 && forall|j: int|
            from <= j ==> !has_at(s, p, j),
    decreases s.len() + 1 - from,
{
    if from + p.len() > s.len() {
    } else if has_at(s, p, from) {
    } else {
        lemma_find_from(s, p, from + 1);
    }
}

pub proof fn lemma_find_last(s: Seq<char>, p: Seq<char>, from: int)
    ensures
        find_last(s, p, from) >= 0 ==> {
            &&& find_last(s, p, from) <= from
            &&& has_at(s, p, find_last(s, p, from))
            &&& forall|j: int| find_last(s, p, from) < j <= from ==> !has_at(s, p, j)
        },
        find_last(s, p, from) < 0 ==> find_last(s, p, from) == -1 && forall|j: int|
            j <= from ==> !has_at(s, p, j),
    decreases from + 1,
{
    if from < 0 {
    } else if has_at(s, p, from) {
    } else {
        lemma_find_last(s, p, from - 1);
    }
}

/// A text that holds `p` is one in which a search from the start succeeds.
pub proof fn lemma_contains_is_found(s: Seq<char>, p: Seq<char>)
    ensures
        contains(s, p) <==> find_from(s, p, 0) >= 0,
{
    lemma_find_from(s, p, 0);
}

/// Whether `p` stands in `s` at `i`.
pub fn match_at(s: &[char], p: &[char], i: usize) -> (r: bool)
    ensures
        r == has_at(s@, p@, i as int),
{
    if i > s.len() || p.len() > s.len() - i {
        return false;
    }
    let mut k: usize = 0;
    while k < p.len()
        invariant
            k <= p.len(),
            i + p.len() <= s.len(),
            forall|j: int| 0 <= j < k ==> s@[i + j] == p@[j],
        decreases p.len() - k,
    {
        if s[i + k] != p[k] {
            assert(s@.subrange(i as int, i + p.len())[k as int] != p@[k as int]);
            return false;
        }
        k += 1;
    }
    assert(s@.subrange(i as int, i + p.len()) =~= p@);
    true
}

/// The first position at or after `from` where `p` stands.
pub fn find(s: &[char], p: &[char], from: usize) -> (r: Option<usize>)
    ensures
        r matches Some(i) ==> i == find_from(s@, p@, from as int) && i <= s.len(),
        r is None ==> find_from(s@, p@, from as int) == -1,
{
    let mut i: usize = from;
    while i <= s.len() && p.len() <= s.len() - i
        invariant
            find_from(s@, p@, from as int) == find_from(s@, p@, i as int),
        decreases s.len() + 1 - i,
    {
        if match_at(s, p, i) {
            return Some(i);
        }
        assert(p@.len() == 0 ==> s@.subrange(i as int, i + p@.len()) =~= p@);
        i += 1;
    }
    None
}

/// The last position where `p` stands.
pub fn rfind(s: &[char], p: &[char]) -> (r: Option<usize>)
    ensures
        r matches Some(i) ==> i == find_last(s@, p@, s@.len() as int) && i + p@.len() <= s@.len(),
        r is None ==> find_last(s@, p@, s@.len() as int) == -1,
{
    let mut i: usize = s.len();
    loop
        invariant
            i <= s.len(),
            find_last(s@, p@, s@.len() as int) == find_last(s@, p@, i as int),
        decreases i,
    {
        if match_at(s, p, i) {
            return Some(i);
        }
        if i == 0 {
            assert(find_last(s@, p@, 0) == -1) by {
                reveal_with_fuel(find_last, 2);
            }
            return None;
        }
        i -= 1;
    }
}

pub fn holds(s: &[char], p: &[char]) -> (r: bool)
    ensures
        r == contains(s@, p@),
{
    proof {
        lemma_contains_is_found(s@, p@);
    }
    find(s, p, 0).is_some()
}

pub fn begins(s: &[char], p: &[char]) -> (r: bool)
    ensures
        r == starts_with(s@, p@),
{
    match_at(s, p, 0)
}

pub fn ends(s: &[char], p: &[char]) -> (r: bool)
    ensures
        r == ends_with(s@, p@),
{
    if p.len() > s.len() {
        false
    } else {
        match_at(s, p, s.len() - p.len())
    }
}

/// The text without the white space it starts with.
pub open spec fn trim_start(s: Seq<char>) -> Seq<char>
    decreases s.len(),
{
    if s.len() > 0 && is_space(s[0]) {
        trim_start(s.drop_first())
    } else {
        s
    }
}

/// The text without the white space it ends with.
pub open spec fn trim_end(s: Seq<char>) -> Seq<char>
    decreases s.len(),
{
    if s.len() > 0 && is_space(s.last()) {
        trim_end(s.drop_last())
    } else {
        s
    }
}

pub open spec fn trim(s: Seq<char>) -> Seq<char> {
    trim_end(trim_start(s))
}

/// The part of `s` from `from` up to `to`.
pub fn part(s: &[char], from: usize, to: usize) -> (v: Vec<char>)
    requires
        from <= to <= s.len(),
    ensures
        v@ == s@.subrange(from as int, to as int),
{
    let mut v: Vec<char> = Vec::new();
    let mut i: usize = from;
    while i < to
        invariant
            from <= i <= to <= s.len(),
            v@ == s@.subrange(from as int, i as int),
        decreases to - i,
    {
        v.push(s[i]);
        i += 1;
    }
    v
}

pub fn trimmed_start(s: &[char]) -> (v: Vec<char>)
    ensures
        v@ == trim_start(s@),
{
    let mut i: usize = 0;
    proof {
        assert(s@.skip(0) =~= s@);
    }
    while i < s.len() && space_char(s[i])
        invariant
            i <= s.len(),
            trim_start(s@) == trim_start(s@.skip(i as int)),
        decreases s.len() - i,
    {
        assert(s@.skip(i as int).drop_first() =~= s@.skip(i + 1));
        i += 1;
    }
    assert(s@.skip(i as int) =~= s@.subrange(i as int, s.len() as int));
    part(s, i, s.len())
}

pub fn trimmed_end(s: &[char]) -> (v: Vec<char>)
    ensures
        v@ == trim_end(s@),
{
    let mut n: usize = s.len();
    proof {
        assert(s@.take(n as int) =~= s@);
    }
    while n > 0 && space_char(s[n - 1])
        invariant
            n <= s.len(),
            trim_end(s@) == trim_end(s@.take(n as int)),
        decreases n,
    {
        assert(s@.take(n as int).drop_last() =~= s@.take(n - 1));
        n -= 1;
    }
    assert(s@.take(n as int) =~= s@.subrange(0, n as int));
    part(s, 0, n)
}

pub fn trimmed(s: &[char]) -> (v: Vec<char>)
    ensures
        v@ == trim(s@),
{
    let t = trimmed_start(s);
    trimmed_end(&t)
}

/// Trimming keeps a part of the text, in place.
pub proof fn lemma_trim_end_is_prefix(s: Seq<char>)
    ensures
        trim_end(s).len() <= s.len(),
        trim_end(s) == s.take(trim_end(s).len() as int),
        trim_end(s).len() > 0 ==> !is_space(trim_end(s).last()),
    decreases s.len(),
{
    if s.len() > 0 && is_space(s.last()) {
        lemma_trim_end_is_prefix(s.drop_last());
        assert(s.drop_last().take(trim_end(s).len() as int) =~= s.take(trim_end(s).len() as int));
    } else {
        assert(s.take(s.len() as int) =~= s);
    }
}

pub proof fn lemma_trim_start_is_suffix(s: Seq<char>)
    ensures
        trim_start(s).len() <= s.len(),
        trim_start(s) == s.skip(s.len() - trim_start(s).len()),
        trim_start(s).len() > 0 ==> !is_space(trim_start(s)[0]),
    decreases s.len(),
{
    if s.len() > 0 && is_space(s[0]) {
        lemma_trim_start_is_suffix(s.drop_first());
        let n = trim_start(s).len() as int;
        assert(s.drop_first().skip(s.drop_first().len() - n) =~= s.skip(s.len() - n));
    } else {
        assert(s.skip(0) =~= s);
    }
}

/// Whether two texts are the same.
pub fn same(a: &[char], b: &[char]) -> (r: bool)
    ensures
        r == (a@ == b@),
{
    if a.len() != b.len() {
        return false;
    }
    let r = match_at(a, b, 0);
    assert(a@.subrange(0, a@.len() as int) =~= a@);
    r
}

/// Whether two texts hold the same characters.
pub(crate) fn str_eq(a: &str, b: &str) -> (r: bool)
    ensures
        r == (a@ == b@),
{
    same(&chars_of(a), &chars_of(b))
}

/// Append the characters of `b` to `a`.
pub fn append(a: &mut Vec<char>, b: &[char])
    ensures
        final(a)@ == old(a)@ + b@,
{
    let mut i: usize = 0;
    let ghost start = a@;
    proof {
        assert(start + b@.take(0) =~= start);
    }
    while i < b.len()
        invariant
            i <= b.len(),
            a@ == start + b@.take(i as int),
        decreases b.len() - i,
    {
        a.push(b[i]);
        i += 1;
        assert(a@ =~= start + b@.take(i as int));
    }
    assert(b@.take(i as int) =~= b@);
}

/// The decimal digits of a number.
pub open spec fn decimal(n: nat) -> Seq<char>
    decreases n,
{
    if n < 10 {
        seq![digit(n)]
    } else {
        decimal(n / 10).push(digit(n % 10))
    }
}

/// The digit of a number below ten.
pub open spec fn digit(d: nat) -> char {
    (('0' as u32) + d) as char
}

fn digit_char(d: u32) -> (c: char)
    requires
        d < 10,
    ensures
        c == digit(d as nat),
{
    if d == 0 {
        '0'
    } else if d == 1 {
        '1'
    } else if d == 2 {
        '2'
    } else if d == 3 {
        '3'
    } else if d == 4 {
        '4'
    } else if d == 5 {
        '5'
    } else if d == 6 {
        '6'
    } else if d == 7 {
        '7'
    } else if d == 8 {
        '8'
    } else {
        '9'
    }
}

/// The decimal digits of a number, as text.
pub fn decimal_chars(n: u32) -> (v: Vec<char>)
    ensures
        v@ == decimal(n as nat),
    decreases n,
{
    if n < 10 {
        let mut v: Vec<char> = Vec::new();
        v.push(digit_char(n));
        assert(v@ =~= seq![digit(n as nat)]);
        v
    } else {
        let mut v = decimal_chars(n / 10);
        v.push(digit_char(n % 10));
        v
    }
}

/// White space at the ends is all that trimming takes.
pub proof fn lemma_trim_shrinks(s: Seq<char>)
    ensures
        trim(s).len() <= s.len(),
{
    lemma_trim_start_is_suffix(s);
    lemma_trim_end_is_prefix(s);
    lemma_trim_start_is_suffix(trim_end(s));
    lemma_trim_end_is_prefix(trim_start(s));
}

/// A number's digits are digits, and there are some.
pub proof fn lemma_decimal(n: nat)
    ensures
        decimal(n).len() > 0,
        forall|i: int|
            0 <= i < decimal(n).len() ==> '0' <= #[trigger] decimal(n)[i] && decimal(n)[i] <= '9',
    decreases n,
{
    if n >= 10 {
        lemma_decimal(n / 10);
    }
}

proof fn lemma_digit_tells(a: nat, b: nat)
    requires
        a < 10,
        b < 10,
        digit(a) == digit(b),
    ensures
        a == b,
{
    assert(digit(a) as int == 48 + a);
    assert(digit(b) as int == 48 + b);
}

/// Two numbers with the same digits are one.
pub proof fn lemma_decimal_tells(a: nat, b: nat)
    requires
        decimal(a) == decimal(b),
    ensures
        a == b,
    decreases a,
{
    lemma_decimal(a / 10);
    lemma_decimal(b / 10);
    if a >= 10 && b >= 10 {
        assert(decimal(a).drop_last() =~= decimal(a / 10));
        assert(decimal(b).drop_last() =~= decimal(b / 10));
        lemma_decimal_tells(a / 10, b / 10);
        assert(decimal(a).last() == digit(a % 10));
        assert(decimal(b).last() == digit(b % 10));
        lemma_digit_tells(a % 10, b % 10);
    } else if a < 10 && b < 10 {
        assert(decimal(a) == seq![digit(a)]);
        assert(decimal(b) == seq![digit(b)]);
        assert(seq![digit(a)][0] == seq![digit(b)][0]);
        lemma_digit_tells(a, b);
    } else if a < 10 {
        assert(decimal(a).len() == 1);
        assert(decimal(b).len() == decimal(b / 10).len() + 1);
    } else {
        assert(decimal(b).len() == 1);
        assert(decimal(a).len() == decimal(a / 10).len() + 1);
    }
}

} // verus!
