//! Member functions by name: constructors, destructors and named methods, and
//! which callee names an index can hold.

use crate::naming;
use crate::naming::{scope_part, split_segments};
use crate::normalize;
use crate::normalize::last_segment_chars;
use crate::scope;
use crate::scope::join_segments;
use crate::spelling::position;
use crate::text;
use crate::text::{append, begins, chars_of, holds, same, string_of};
use vstd::prelude::*;

verus! {

/// Which member of a class a function is.
#[derive(Debug, PartialEq, Eq)]
pub enum MethodKind {
    Ctor,
    Dtor,
    Named(String),
}

/// A method kind with its name as characters.
pub enum MethodView {
    Ctor,
    Dtor,
    Named(Seq<char>),
}

impl View for MethodKind {
    type V = MethodView;

    open spec fn view(&self) -> MethodView {
        match self {
            MethodKind::Ctor => MethodView::Ctor,
            MethodKind::Dtor => MethodView::Dtor,
            MethodKind::Named(name) => MethodView::Named(name@),
        }
    }
}

/// The full name of a member of `cls`.
pub open spec fn member_name(kind: MethodView, cls: Seq<char>) -> Seq<char> {
    match kind {
        MethodView::Ctor => cls + "::"@ + normalize::last_segment(cls),
        MethodView::Dtor => cls + "::"@ + "~"@ + normalize::last_segment(cls),
        MethodView::Named(name) => cls + "::"@ + name,
    }
}

impl MethodKind {
    /// The full name this member has on `cls`: a constructor is called like
    /// its class, a destructor with a `~`.
    pub fn name_on(&self, cls: &str) -> (r: String)
        ensures
            r@ == member_name(self@, cls@),
    {
        let own = chars_of(cls);
        let mut out = chars_of(cls);
        append(&mut out, &chars_of("::"));
        match self {
            MethodKind::Ctor => {
                append(&mut out, &last_segment_chars(&own));
            },
            MethodKind::Dtor => {
                append(&mut out, &chars_of("~"));
                append(&mut out, &last_segment_chars(&own));
            },
            MethodKind::Named(name) => {
                append(&mut out, &chars_of(name.as_str()));
            },
        }
        string_of(&out)
    }
}

/// The class that a full function name names, and which member of it.
pub open spec fn method_of(name: Seq<char>) -> Option<(Seq<char>, MethodView)> {
    let segs = naming::segments(name);
    if segs.len() < 2 {
        None
    } else {
        let cls = scope::joined(segs.drop_last());
        let short = segs.last();
        Some(
            (
                cls,
                if text::starts_with(short, "~"@) {
                    MethodView::Dtor
                } else if short == normalize::last_segment(cls) {
                    MethodView::Ctor
                } else {
                    MethodView::Named(short)
                },
            ),
        )
    }
}

/// The class a qualified function name is a member of, and which member it is.
pub fn method_kind_of_function(name: &str) -> (r: Option<(String, MethodKind)>)
    ensures
        match r {
            Some((cls, kind)) => method_of(name@) == Some((cls@, kind@)),
            None => method_of(name@) is None,
        },
{
    let segs = split_segments(&chars_of(name));
    let n = segs.len();
    assert(n == naming::piece_views(segs@).len());
    if n < 2 {
        return None;
    }
    let cls = join_segments(&segs, n - 1);
    let ghost all = naming::piece_views(segs@);
    assert(all.take(n - 1) =~= all.drop_last());
    let short = &segs[n - 1];
    assert(short@ == all[n - 1]);
    let kind = if begins(short, &chars_of("~")) {
        MethodKind::Dtor
    } else if same(short, &last_segment_chars(&cls)) {
        MethodKind::Ctor
    } else {
        MethodKind::Named(string_of(short))
    };
    Some((string_of(&cls), kind))
}

/// A name made of ASCII letters, digits and underscores.
pub open spec fn plain_ident(s: Seq<char>) -> bool {
    s.len() > 0 && forall|i: int| 0 <= i < s.len() ==> ident_char(#[trigger] s[i])
}

pub open spec fn ident_char(c: char) -> bool {
    'a' <= c <= 'z' || 'A' <= c <= 'Z' || '0' <= c <= '9' || c == '_'
}

pub fn is_plain_ident(name: &str) -> (r: bool)
    ensures
        r == plain_ident(name@),
{
    let s = chars_of(name);
    let mut k: usize = 0;
    while k < s.len()
        invariant
            k <= s@.len(),
            s@ == name@,
            forall|i: int| 0 <= i < k ==> ident_char(#[trigger] s@[i]),
        decreases s@.len() - k,
    {
        let c = s[k];
        if !(('a' <= c && c <= 'z') || ('A' <= c && c <= 'Z') || ('0' <= c && c <= '9') || c
            == '_') {
            assert(!ident_char(s@[k as int]));
            return false;
        }
        k += 1;
    }
    s.len() > 0
}

/// A callee name that can become an external function: an identifier, or a
/// qualified name that is no field access and no fragment of a declarator.
pub open spec fn synthesizable(s: Seq<char>) -> bool {
    plain_ident(s) || text::contains(s, "::"@) && !text::contains(s, "->"@) && !s.contains('.')
        && !(s.contains(' ') && naming::scope_of(s).len() == s.len()) && !s.contains('(')
}

fn has_char(s: &[char], c: char) -> (r: bool)
    ensures
        r == s@.contains(c),
{
    let found = position(s, c);
    assert(found is Some ==> s@.contains(c));
    found.is_some()
}

/// Names that should become synthesized `external` callees instead of
/// unresolved-indirect noise: C identifiers, plus C++ qualified names that are
/// not field or arrow expressions. An operator name has a space of its own
/// (`operator new`) and is a perfectly good callee.
pub fn is_synthesizable_extern(name: &str) -> (r: bool)
    ensures
        r == synthesizable(name@),
{
    if is_plain_ident(name) {
        return true;
    }
    let s = chars_of(name);
    let scope = chars_of(scope_part(name).as_str());
    let spurious_space = has_char(&s, ' ') && scope.len() == s.len();
    holds(&s, &chars_of("::")) && !holds(&s, &chars_of("->")) && !has_char(&s, '.') && !spurious_space
        && !has_char(&s, '(')
}

/// A name in capitals, longer than two characters: more likely a macro than a
/// function.
pub open spec fn macro_name(s: Seq<char>) -> bool {
    s.len() > 2 && forall|i: int| 0 <= i < s.len() ==> capital(#[trigger] s[i])
}

pub open spec fn capital(c: char) -> bool {
    'A' <= c <= 'Z' || '0' <= c <= '9' || c == '_'
}

/// Whether an unresolved callee is more likely a macro than a function.
pub fn is_likely_macro_callee(name: &str) -> (r: bool)
    ensures
        r == macro_name(name@),
{
    let s = chars_of(name);
    let mut k: usize = 0;
    while k < s.len()
        invariant
            k <= s@.len(),
            s@ == name@,
            forall|i: int| 0 <= i < k ==> capital(#[trigger] s@[i]),
        decreases s@.len() - k,
    {
        let c = s[k];
        if !(('A' <= c && c <= 'Z') || ('0' <= c && c <= '9') || c == '_') {
            assert(!capital(s@[k as int]));
            return false;
        }
        k += 1;
    }
    s.len() > 2
}

/// Segments put together again are the name they were cut from.
pub proof fn lemma_segments_join(name: Seq<char>)
    ensures
        scope::joined(naming::segments(name)) == name,
    decreases name.len(),
{
    reveal_strlit("::");
    text::lemma_find_from(name, "::"@, 0);
    let at = text::find_from(name, "::"@, 0);
    if at >= 0 {
        let rest = name.skip(at + 2);
        lemma_segments_join(rest);
        lemma_joined_front(name.take(at), naming::segments(rest));
        assert(naming::segments(name) == seq![name.take(at)] + naming::segments(rest));
        lemma_has_segments(rest);
        assert(name =~= name.take(at) + "::"@ + rest);
    } else {
        assert(naming::segments(name) == seq![name]);
    }
}

proof fn lemma_has_segments(name: Seq<char>)
    ensures
        naming::segments(name).len() > 0,
{
    reveal_strlit("::");
    text::lemma_find_from(name, "::"@, 0);
}

proof fn lemma_joined_front(first: Seq<char>, rest: Seq<Seq<char>>)
    requires
        rest.len() > 0,
    ensures
        scope::joined(seq![first] + rest) == first + "::"@ + scope::joined(rest),
    decreases rest.len(),
{
    let all = seq![first] + rest;
    assert(all.drop_last() =~= seq![first] + rest.drop_last());
    assert(all.last() == rest.last());
    if rest.len() == 1 {
        assert(all.drop_last() =~= seq![first]);
        assert(scope::joined(all.drop_last()) == first);
        assert(scope::joined(all) =~= first + "::"@ + rest[0]);
    } else {
        lemma_joined_front(first, rest.drop_last());
        assert(scope::joined(all) =~= first + "::"@ + scope::joined(rest));
    }
}

/// A member read off a full name has that name again on its class. A name that
/// spells a `~` in front of anything but its class is no destructor of it.
pub proof fn law_members_keep_their_names(name: Seq<char>)
    requires
        method_of(name) matches Some((cls, kind)) && (kind is Dtor ==> naming::segments(name).last()
            == "~"@ + normalize::last_segment(cls)),
    ensures
        method_of(name) matches Some((cls, kind)) && member_name(kind, cls) == name,
{
    let segs = naming::segments(name);
    let (cls, kind) = method_of(name)->0;
    lemma_segments_join(name);
    assert(scope::joined(segs) == cls + "::"@ + segs.last());
    assert(cls + "::"@ + ("~"@ + normalize::last_segment(cls)) =~= cls + "::"@ + "~"@
        + normalize::last_segment(cls));
}

} // verus!
