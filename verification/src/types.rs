//! The types that declarations spell: scalars, tags, aliases, and class
//! templates with their arguments.

use crate::ir::{copy_desc, fn_ptr_to, struct_named, union_named};
use crate::ir::{copy_fields, DescView, TypeDesc};
use crate::lookup;
use crate::lookup::ClassIndex;
use crate::normalize;
use crate::normalize::{
    arguments_stripped, bare_type_chars, head_chars, is_callable_wrapper, is_std_smart_ptr_name,
    requalified, respaced,
};
use crate::parse::node_text;
use crate::scope;
use crate::scope::NameScope;
use crate::spelling;
use crate::spelling::{
    is_fundamental_type_name, is_template_literal, position, split_pointer_suffix,
    template_arguments, template_tail,
};
use crate::syntax::SyntaxTree;
use crate::text;
use crate::text::{
    append, begins, chars_of, find, holds, part, same, space_char, string_of, trimmed, word_char,
};
use vstd::prelude::*;

verus! {

/// The scalar that a type text spells. `unsigned` collapses into its signed
/// companion; `long double` is a `double`.
pub open spec fn scalar_of(s: Seq<char>) -> Option<DescView> {
    let t = text::trim(s);
    if text::contains(t, "long double"@) {
        Some(DescView::Double)
    } else if text::contains(t, "bool"@) {
        Some(DescView::Bool)
    } else if text::contains(t, "long long"@) {
        Some(DescView::LongLong)
    } else if text::contains(t, "double"@) {
        Some(DescView::Double)
    } else if text::contains(t, "float"@) {
        Some(DescView::Float)
    } else if text::contains(t, "short"@) {
        Some(DescView::Short)
    } else if text::contains(t, "long"@) {
        Some(DescView::Long)
    } else if text::contains(t, "unsigned"@) || t == "signed"@ {
        Some(DescView::Int)
    } else {
        None
    }
}

/// Distinguish primitive scalar types (`double` and `int`, `short`,
/// `long long`, ...): overloads of one arity are told apart by them.
pub fn primitive_scalar_desc(raw: &str) -> (r: Option<TypeDesc>)
    ensures
        match r {
            Some(d) => scalar_of(raw@) == Some(d@),
            None => scalar_of(raw@) is None,
        },
{
    let t = trimmed(&chars_of(raw));
    if holds(&t, &chars_of("long double")) {
        Some(TypeDesc::Double)
    } else if holds(&t, &chars_of("bool")) {
        Some(TypeDesc::Bool)
    } else if holds(&t, &chars_of("long long")) {
        Some(TypeDesc::LongLong)
    } else if holds(&t, &chars_of("double")) {
        Some(TypeDesc::Double)
    } else if holds(&t, &chars_of("float")) {
        Some(TypeDesc::Float)
    } else if holds(&t, &chars_of("short")) {
        Some(TypeDesc::Short)
    } else if holds(&t, &chars_of("long")) {
        Some(TypeDesc::Long)
    } else if holds(&t, &chars_of("unsigned")) || same(&t, &chars_of("signed")) {
        Some(TypeDesc::Int)
    } else {
        None
    }
}

/// The word that `s` starts with.
pub open spec fn leading_word(s: Seq<char>) -> Seq<char>
    decreases s.len(),
{
    if s.len() > 0 && text::is_word(s[0]) {
        seq![s[0]] + leading_word(s.skip(1))
    } else {
        seq![]
    }
}

/// The tag behind the first `keyword` of a type text, up to the next one.
pub open spec fn tag_behind(s: Seq<char>, keyword: Seq<char>) -> Seq<char> {
    let at = text::find_from(s, keyword, 0);
    if at < 0 {
        "anon"@
    } else {
        let rest = s.skip(at + keyword.len());
        let next = text::find_from(rest, keyword, 0);
        leading_word(
            text::trim(
                if next < 0 {
                    rest
                } else {
                    rest.take(next)
                },
            ),
        )
    }
}

fn word_at_start(s: &[char]) -> (r: Vec<char>)
    ensures
        r@ == leading_word(s@),
{
    let mut k: usize = 0;
    assert(s@.skip(0) =~= s@);
    assert(s@.take(0) + leading_word(s@) =~= leading_word(s@));
    while k < s.len() && word_char(s[k])
        invariant
            k <= s@.len(),
            s@.take(k as int) + leading_word(s@.skip(k as int)) == leading_word(s@),
        decreases s@.len() - k,
    {
        proof {
            let rest = s@.skip(k as int);
            assert(rest.skip(1) =~= s@.skip(k + 1));
            assert(s@.take(k + 1) =~= s@.take(k as int).push(s@[k as int]));
            assert(s@.take(k as int) + (seq![rest[0]] + leading_word(rest.skip(1))) =~= s@.take(
                k + 1,
            ) + leading_word(s@.skip(k + 1)));
        }
        k += 1;
    }
    let r = part(s, 0, k);
    assert(r@ =~= s@.take(k as int) + leading_word(s@.skip(k as int)));
    r
}

/// The tag of an elaborated type text: the word behind `struct` or `union`.
pub fn extract_tag_name(text_of_type: &str, keyword: &str) -> (r: String)
    requires
        keyword@.len() > 0,
    ensures
        r@ == tag_behind(text_of_type@, keyword@),
{
    let s = chars_of(text_of_type);
    let k = chars_of(keyword);
    proof {
        text::lemma_find_from(s@, k@, 0);
    }
    match find(&s, &k, 0) {
        Some(at) => {
            assert(s@.len() == s.len() && k@.len() == k.len());
            let rest = part(&s, at + k.len(), s.len());
            assert(rest@ =~= s@.skip(at + k@.len()));
            let to: usize = match find(&rest, &k, 0) {
                Some(next) => next,
                None => rest.len(),
            };
            proof {
                text::lemma_find_from(rest@, k@, 0);
            }
            let piece = part(&rest, 0, to);
            assert(to == rest@.len() ==> piece@ =~= rest@);
            assert(piece@ =~= rest@.take(to as int));
            string_of(&word_at_start(&trimmed(&piece)))
        },
        None => string_of(&chars_of("anon")),
    }
}

/// The kinds of node that a type is read from.
pub open spec fn type_kind(kind: Seq<char>) -> bool {
    kind == "qualified_identifier"@ || kind == "type_identifier"@ || kind == "template_type"@
        || kind == "placeholder_type_specifier"@ || kind == "struct_specifier"@ || kind
        == "class_specifier"@ || kind == "union_specifier"@ || kind == "primitive_type"@
}

/// The first named child of `n`, from position `k`, that names a type.
pub open spec fn type_name_from(t: SyntaxTree, n: int, k: int) -> Option<usize>
    decreases t.children(n).len() - k,
{
    if k < 0 || k >= t.children(n).len() {
        None
    } else {
        let c = t.children(n)[k];
        let kind = t.spec_kind(c as int);
        if t.rows@[c as int].is_named && (kind == "qualified_identifier"@ || kind
            == "template_type"@ || kind == "type_identifier"@) {
            Some(c)
        } else {
            type_name_from(t, n, k + 1)
        }
    }
}

/// The node a type is read from.
pub open spec fn peeled_type(t: SyntaxTree, n: int) -> int
    decreases t.len() - n,
    when t.wf() && 0 <= n < t.len()
    via peeled_type_decreases
{
    if t.spec_kind(n) == "type_descriptor"@ {
        match t.fielded(n, "type"@) {
            Some(c) => peeled_type(t, c as int),
            None => n,
        }
    } else if type_kind(t.spec_kind(n)) {
        n
    } else {
        match type_name_from(t, n, 0) {
            Some(c) => peeled_type(t, c as int),
            None => n,
        }
    }
}

#[via_fn]
proof fn peeled_type_decreases(t: SyntaxTree, n: int) {
    t.lemma_fielded(n, "type"@);
    lemma_type_name_from(t, n, 0);
}

proof fn lemma_type_name_from(t: SyntaxTree, n: int, k: int)
    requires
        t.wf(),
        0 <= n < t.len(),
    ensures
        type_name_from(t, n, k) matches Some(c) ==> n < c < t.len(),
    decreases t.children(n).len() - k,
{
    if 0 <= k < t.children(n).len() {
        assert(n < t.children(n)[k] < t.len());
        lemma_type_name_from(t, n, k + 1);
    }
}

fn find_type_name(tree: &SyntaxTree, n: usize) -> (r: Option<usize>)
    requires
        tree.wf(),
        n < tree.len(),
    ensures
        r == type_name_from(*tree, n as int, 0),
        r matches Some(c) ==> n < c < tree.len(),
{
    let mut k: usize = 0;
    while k < tree.kids[n].len()
        invariant
            tree.wf(),
            n < tree.len(),
            k <= tree.children(n as int).len(),
            type_name_from(*tree, n as int, 0) == type_name_from(*tree, n as int, k as int),
        decreases tree.children(n as int).len() - k,
    {
        let c = tree.kids[n][k];
        assert(c == tree.children(n as int)[k as int]);
        if tree.rows[c].is_named && (tree.kind_is(c, "qualified_identifier") || tree.kind_is(
            c,
            "template_type",
        ) || tree.kind_is(c, "type_identifier")) {
            return Some(c);
        }
        k += 1;
    }
    None
}

fn is_type_kind(tree: &SyntaxTree, n: usize) -> (r: bool)
    requires
        n < tree.len(),
    ensures
        r == type_kind(tree.spec_kind(n as int)),
{
    tree.kind_is(n, "qualified_identifier") || tree.kind_is(n, "type_identifier") || tree.kind_is(
        n,
        "template_type",
    ) || tree.kind_is(n, "placeholder_type_specifier") || tree.kind_is(n, "struct_specifier")
        || tree.kind_is(n, "class_specifier") || tree.kind_is(n, "union_specifier")
        || tree.kind_is(n, "primitive_type")
}

/// The node a type is read from: below descriptors and qualifiers.
pub fn peel_cpp_type_node(tree: &SyntaxTree, node: usize) -> (r: usize)
    requires
        tree.wf(),
        node < tree.len(),
    ensures
        r == peeled_type(*tree, node as int),
        node <= r < tree.len(),
    decreases tree.len() - node,
{
    if tree.kind_is(node, "type_descriptor") {
        return match tree.child_by_field_name(node, "type") {
            Some(c) => peel_cpp_type_node(tree, c),
            None => node,
        };
    }
    if is_type_kind(tree, node) {
        return node;
    }
    match find_type_name(tree, node) {
        Some(c) => peel_cpp_type_node(tree, c),
        None => node,
    }
}

/// Texts put together with commas.
pub open spec fn listed(args: Seq<Seq<char>>) -> Seq<char>
    decreases args.len(),
{
    if args.len() == 0 {
        seq![]
    } else if args.len() == 1 {
        args[0]
    } else {
        listed(args.drop_last()) + ","@ + args.last()
    }
}

/// What a template argument names, without its pointer punctuation.
pub open spec fn argument_base(arg: Seq<char>) -> Seq<char> {
    normalize::bare_type(spelling::pointer_split(text::trim(arg)).0)
}

pub open spec fn argument_suffix(arg: Seq<char>) -> Seq<char> {
    spelling::pointer_split(text::trim(arg)).1
}

/// A template spelling under the class `head`, every class among its arguments
/// qualified.
pub open spec fn template_text(
    s: NameScope,
    x: ClassIndex,
    raw: Seq<char>,
    head: Seq<char>,
) -> Seq<char>
    decreases raw.len(), spelling::arguments_of(raw).len() + 1,
    via template_text_decreases
{
    let tail = text::trim(spelling::tail_of(raw));
    let shown = if tail.len() == 0 {
        seq![]
    } else if tail.contains('<') {
        template_text(s, x, tail, normalize::spaced_text(normalize::head_of(tail)))
    } else {
        normalize::spaced_text(tail)
    };
    head + "<"@ + listed(argument_texts(s, x, raw, spelling::arguments_of(raw).len() as int))
        + ">"@ + shown
}

/// The first `k` arguments of a template spelling, qualified.
pub open spec fn argument_texts(s: NameScope, x: ClassIndex, raw: Seq<char>, k: int) -> Seq<
    Seq<char>,
>
    decreases raw.len(), k,
    via argument_texts_decreases
{
    if k <= 0 || k > spelling::arguments_of(raw).len() {
        seq![]
    } else {
        let arg = spelling::arguments_of(raw)[k - 1];
        let clean = argument_base(arg);
        let qualified = if clean.contains('(') {
            normalize::spaced_text(clean)
        } else if clean.contains('<') {
            template_text(
                s,
                x,
                clean,
                s.spec_qualified_class(x, normalize::qualified_text(normalize::head_of(clean))),
            )
        } else if spelling::literal_spelling(clean) || spelling::fundamental_name(clean)
            || scalar_of(clean) is Some {
            clean
        } else {
            s.spec_qualified_class(x, normalize::qualified_text(clean))
        };
        argument_texts(s, x, raw, k - 1).push(qualified + argument_suffix(arg))
    }
}

#[via_fn]
proof fn template_text_decreases(s: NameScope, x: ClassIndex, raw: Seq<char>, head: Seq<char>) {
    spelling::lemma_tail_is_shorter(raw);
    text::lemma_trim_shrinks(spelling::tail_of(raw));
}

#[via_fn]
proof fn argument_texts_decreases(s: NameScope, x: ClassIndex, raw: Seq<char>, k: int) {
    if 0 < k <= spelling::arguments_of(raw).len() {
        lemma_argument_base(raw, k - 1);
    }
}

pub proof fn lemma_argument_base(raw: Seq<char>, k: int)
    requires
        0 <= k < spelling::arguments_of(raw).len(),
    ensures
        argument_base(spelling::arguments_of(raw)[k]).len() < raw.len(),
{
    let arg = spelling::arguments_of(raw)[k];
    spelling::lemma_arguments_are_shorter(raw);
    assert(arg.len() < raw.len());
    text::lemma_trim_shrinks(arg);
    spelling::lemma_pointer_split_shrinks(text::trim(arg));
    normalize::lemma_bare_type_shrinks(spelling::pointer_split(text::trim(arg)).0);
}

impl NameScope {
    /// A template spelling under a class that is settled already: the
    /// arguments are qualified, and a tail (`::Inner<B>` of `Outer<A>::Inner<B>`)
    /// keeps its separator and its own head as written, since a member type of
    /// `Outer` is not looked up through the enclosing namespaces.
    pub fn qualify_template_spelling_under(
        &self,
        index: &ClassIndex,
        raw: &str,
        head: &[char],
    ) -> (r: Vec<char>)
        ensures
            r@ == template_text(*self, *index, raw@, head@),
        decreases raw@.len(),
    {
        let args = template_arguments(raw);
        let ghost all = spelling::arguments_of(raw@);
        let mut out = part(head, 0, head.len());
        assert(out@ =~= head@);
        append(&mut out, &chars_of("<"));
        let mut inner: Vec<char> = Vec::new();
        let mut k: usize = 0;
        while k < args.len()
            invariant
                k <= args@.len(),
                spelling::views(args@) == all,
                all == spelling::arguments_of(raw@),
                inner@ == listed(argument_texts(*self, *index, raw@, k as int)),
                argument_texts(*self, *index, raw@, k as int).len() == k,
            decreases args@.len() - k,
        {
            let arg = args[k].as_str();
            let ghost before = argument_texts(*self, *index, raw@, k as int);
            proof {
                assert(all[k as int] == spelling::views(args@)[k as int]);
                lemma_argument_base(raw@, k as int);
            }
            let (base, suffix) = split_pointer_suffix(arg);
            let clean = bare_type_chars(&chars_of(base.as_str()));
            let spelled = string_of(&clean);
            let mut own = if position(&clean, '(').is_some() {
                assert(clean@.contains('('));
                respaced(&clean)
            } else if position(&clean, '<').is_some() {
                assert(clean@.contains('<'));
                let head = self.qualify_class_name(index, &requalified(&head_chars(&clean)));
                self.qualify_template_spelling_under(index, spelled.as_str(), &head)
            } else if is_template_literal(spelled.as_str()) || is_fundamental_type_name(
                spelled.as_str(),
            ) || primitive_scalar_desc(spelled.as_str()).is_some() {
                clean
            } else {
                self.qualify_class_name(index, &requalified(&clean))
            };
            append(&mut own, &chars_of(suffix.as_str()));
            if k > 0 {
                append(&mut inner, &chars_of(","));
            }
            append(&mut inner, &own);
            proof {
                let after = argument_texts(*self, *index, raw@, k + 1);
                assert(after == before.push(own@));
                assert(after.drop_last() =~= before);
                assert(k == 0 ==> inner@ =~= own@);
            }
            k += 1;
        }
        append(&mut out, &inner);
        append(&mut out, &chars_of(">"));
        proof {
            assert(all.len() == args@.len());
            spelling::lemma_tail_is_shorter(raw@);
            text::lemma_trim_shrinks(spelling::tail_of(raw@));
        }
        let tail = trimmed(&chars_of(template_tail(raw).as_str()));
        if tail.len() == 0 {
            assert(out@ + Seq::<char>::empty() =~= out@);
            return out;
        }
        if position(&tail, '<').is_some() {
            assert(tail@.contains('<'));
            let spelled = string_of(&tail);
            let own = self.qualify_template_spelling_under(
                index,
                spelled.as_str(),
                &respaced(&head_chars(&tail)),
            );
            append(&mut out, &own);
        } else {
            append(&mut out, &respaced(&tail));
        }
        out
    }

    pub open spec fn spec_template(&self, x: ClassIndex, raw: Seq<char>) -> Seq<char> {
        template_text(
            *self,
            x,
            raw,
            self.spec_qualified_class(x, normalize::qualified_text(normalize::head_of(raw))),
        )
    }

    /// A template spelling with every class in it qualified to the current
    /// scope, so that an argument names its class the way the index does:
    /// `sptr<Plugin>` inside `namespace ohos` is `ohos::sptr<ohos::Plugin>`.
    pub fn qualify_template_spelling(&self, index: &ClassIndex, raw: &str) -> (r: String)
        ensures
            r@ == self.spec_template(*index, raw@),
    {
        let head = self.qualify_class_name(index, &requalified(&head_chars(&chars_of(raw))));
        string_of(&self.qualify_template_spelling_under(index, raw, &head))
    }
}

/// A class known by its name alone.
pub open spec fn class_desc(name: Seq<char>) -> DescView {
    DescView::Struct { name, fields: Seq::empty() }
}

/// What the first of the candidates that denotes a type denotes, from position
/// `k`. A bare alias at the global scope is left to the caller, unless the
/// name was spelled globally.
pub open spec fn first_type(
    x: ClassIndex,
    all: Seq<(Seq<char>, bool)>,
    spelled_global: bool,
    k: int,
) -> Option<DescView>
    decreases all.len() - k,
{
    if k < 0 || k >= all.len() {
        None
    } else {
        let (name, global) = all[k];
        if x.spec_declared(name) || x.spec_typed(name) is Some {
            Some(class_desc(name))
        } else if global && !spelled_global && !text::contains(name, "::"@) {
            first_type(x, all, spelled_global, k + 1)
        } else {
            match x.spec_alias(name) {
                Some(d) => Some(d),
                None => first_type(x, all, spelled_global, k + 1),
            }
        }
    }
}

/// The data members of a class whose type is known.
pub open spec fn fields_of(x: ClassIndex, cls: Seq<char>) -> Seq<(Seq<char>, DescView)> {
    match x.spec_typed(cls) {
        Some(DescView::Struct { fields, .. }) => fields,
        _ => Seq::empty(),
    }
}

/// The member type of the class `cls` that a template spelling goes on to.
pub open spec fn template_member(cls: Seq<char>, raw: Seq<char>) -> Option<Seq<char>> {
    let tail = text::trim(spelling::tail_of(raw));
    if text::starts_with(tail, "::"@) {
        Some(cls + normalize::without_arguments(normalize::spaced_text(tail)))
    } else {
        None
    }
}

/// The type a template spelling denotes.
pub open spec fn template_type(s: NameScope, x: ClassIndex, raw: Seq<char>) -> Option<DescView> {
    let cls = s.spec_qualified_class(x, normalize::qualified_text(normalize::head_of(raw)));
    let member = template_member(cls, raw);
    let alias = match member {
        Some(m) => x.spec_alias(m),
        None => None,
    };
    if alias is Some {
        alias
    } else if !x.spec_defined(cls) || x.spec_arrow(cls) || normalize::smart_ptr_name(cls)
        || x.spec_template_returns(cls) {
        Some(DescView::Struct { name: s.spec_template(x, raw), fields: fields_of(x, cls) })
    } else if text::trim(spelling::tail_of(raw)).len() == 0 || member is Some {
        Some(
            class_desc(
                match member {
                    Some(m) => m,
                    None => cls,
                },
            ),
        )
    } else {
        None
    }
}

/// The class that a name denotes which no alias of the current function and
/// no template answered.
pub open spec fn named_type(s: NameScope, x: ClassIndex, raw: Seq<char>) -> Option<DescView> {
    let stripped = normalize::without_arguments(raw);
    let scoped = s.is_cpp && !spelling::fundamental_name(stripped);
    let found = if scoped {
        first_type(x, s.spec_candidates(x, stripped), text::starts_with(stripped, "::"@), 0)
    } else {
        None
    };
    if found is Some {
        found
    } else if text::contains(stripped, "::"@) {
        Some(class_desc(stripped))
    } else if stripped != raw || !scoped && x.spec_typed(
        scope::within(s.spec_levels(), stripped),
    ) is Some {
        Some(class_desc(scope::within(s.spec_levels(), stripped)))
    } else {
        None
    }
}

/// The text holds white space.
pub open spec fn is_spaced(s: Seq<char>) -> bool {
    exists|i: int| 0 <= i < s.len() && text::is_space(#[trigger] s[i])
}

/// The type that a bare text spells.
pub open spec fn flat_type(x: ClassIndex, raw: Seq<char>) -> DescView {
    if text::contains(raw, "union"@) {
        DescView::Union { name: tag_behind(raw, "union"@), fields: Seq::empty() }
    } else if text::contains(raw, "struct"@) {
        class_desc(tag_behind(raw, "struct"@))
    } else if scalar_of(raw) is Some {
        scalar_of(raw)->0
    } else if text::contains(raw, "char"@) {
        DescView::Char
    } else if text::contains(raw, "void"@) {
        DescView::Void
    } else {
        let alias = text::trim(raw);
        if alias.len() > 0 && !is_spaced(alias) && x.spec_alias(alias) is Some {
            x.spec_alias(alias)->0
        } else {
            DescView::Int
        }
    }
}

/// The type that node `n` spells. `lowered` is the tag that lowering the class
/// specifier at the node gave, where there is one.
pub open spec fn type_of(
    s: NameScope,
    x: ClassIndex,
    t: SyntaxTree,
    source: Seq<char>,
    n: int,
    lowered: Seq<char>,
) -> DescView {
    let p = peeled_type(t, n);
    let kind = t.spec_kind(p);
    let spelled = t.text(source, p);
    if kind == "union_specifier"@ {
        DescView::Union { name: lowered, fields: Seq::empty() }
    } else if kind == "struct_specifier"@ || kind == "class_specifier"@ {
        class_desc(lowered)
    } else if kind == "placeholder_type_specifier"@ {
        DescView::Unknown
    } else if kind == "qualified_identifier"@ || kind == "type_identifier"@ || kind
        == "template_type"@ {
        let raw = normalize::qualified_text(spelled);
        let template = if s.is_cpp && spelled.contains('<') {
            template_type(s, x, spelled)
        } else {
            None
        };
        if s.spec_local_alias(raw) is Some {
            s.spec_local_alias(raw)->0
        } else if normalize::callable_wrapper(raw) {
            DescView::FnPtr { ret: Box::new(DescView::Int), params: Seq::empty() }
        } else if template is Some {
            template->0
        } else if named_type(s, x, raw) is Some {
            named_type(s, x, raw)->0
        } else {
            flat_type(x, spelled)
        }
    } else {
        flat_type(x, spelled)
    }
}

pub fn has_space(s: &[char]) -> (r: bool)
    ensures
        r == is_spaced(s@),
{
    let mut k: usize = 0;
    while k < s.len()
        invariant
            k <= s@.len(),
            forall|i: int| 0 <= i < k ==> !text::is_space(#[trigger] s@[i]),
        decreases s@.len() - k,
    {
        if space_char(s[k]) {
            return true;
        }
        k += 1;
    }
    false
}

fn flat_desc(index: &ClassIndex, raw: &str) -> (r: TypeDesc)
    ensures
        r@ == flat_type(*index, raw@),
{
    proof {
        reveal_strlit("union");
        reveal_strlit("struct");
    }
    let s = chars_of(raw);
    if holds(&s, &chars_of("union")) {
        return union_named(extract_tag_name(raw, "union"));
    }
    if holds(&s, &chars_of("struct")) {
        return struct_named(extract_tag_name(raw, "struct"));
    }
    match primitive_scalar_desc(raw) {
        Some(d) => {
            return d;
        },
        None => {},
    }
    if holds(&s, &chars_of("char")) {
        return TypeDesc::Char;
    }
    if holds(&s, &chars_of("void")) {
        return TypeDesc::Void;
    }
    let alias = trimmed(&s);
    if alias.len() > 0 && !has_space(&alias) {
        match index.resolve_alias(&alias) {
            Some(d) => {
                return copy_desc(d);
            },
            None => {},
        }
    }
    TypeDesc::Int
}

impl NameScope {
    /// What a type name spelled here denotes: a class declared under a
    /// candidate spelling, or an alias registered under one, with the alias's
    /// pointer shape kept.
    pub fn scoped_type_desc(&self, index: &ClassIndex, name: &[char]) -> (r: Option<TypeDesc>)
        ensures
            match r {
                Some(d) => first_type(
                    *index,
                    self.spec_candidates(*index, name@),
                    text::starts_with(name@, "::"@),
                    0,
                ) == Some(d@),
                None => first_type(
                    *index,
                    self.spec_candidates(*index, name@),
                    text::starts_with(name@, "::"@),
                    0,
                ) is None,
            },
    {
        let sep = chars_of("::");
        let spelled_global = begins(name, &sep);
        let all = self.scope_candidates(index, name);
        let ghost cands = lookup::candidate_views(all@);
        let mut k: usize = 0;
        while k < all.len()
            invariant
                k <= all@.len(),
                sep@ == "::"@,
                cands == lookup::candidate_views(all@),
                cands == self.spec_candidates(*index, name@),
                spelled_global == text::starts_with(name@, "::"@),
                first_type(*index, cands, spelled_global, 0) == first_type(
                    *index,
                    cands,
                    spelled_global,
                    k as int,
                ),
            decreases all@.len() - k,
        {
            let name = &all[k].0;
            assert(cands[k as int] == (name@, all@[k as int].1));
            if index.is_declared(name) || index.type_by_tag(name).is_some() {
                return Some(struct_named(string_of(name)));
            }
            if !(all[k].1 && !spelled_global && !holds(name, &sep)) {
                match index.resolve_alias(name) {
                    Some(d) => {
                        return Some(copy_desc(d));
                    },
                    None => {},
                }
            }
            k += 1;
        }
        None
    }

    fn template_desc(&self, index: &ClassIndex, raw: &str) -> (r: Option<TypeDesc>)
        ensures
            match r {
                Some(d) => template_type(*self, *index, raw@) == Some(d@),
                None => template_type(*self, *index, raw@) is None,
            },
    {
        let s = chars_of(raw);
        let cls = self.qualify_class_name(index, &requalified(&head_chars(&s)));
        let tail = trimmed(&chars_of(template_tail(raw).as_str()));
        let member: Option<Vec<char>> = if begins(&tail, &chars_of("::")) {
            let mut m = part(&cls, 0, cls.len());
            assert(m@ =~= cls@);
            append(&mut m, &arguments_stripped(&respaced(&tail)));
            Some(m)
        } else {
            None
        };
        match &member {
            Some(m) => {
                match index.resolve_alias(m) {
                    Some(d) => {
                        return Some(copy_desc(d));
                    },
                    None => {},
                }
            },
            None => {},
        }
        if !index.is_defined(&cls) || index.declares_arrow(&cls) || is_std_smart_ptr_name(
            string_of(&cls).as_str(),
        ) || index.has_template_returns(&cls) {
            let name = self.qualify_template_spelling(index, raw);
            return match index.type_by_tag(&cls) {
                Some(TypeDesc::Struct { name: _, fields }) => Some(
                    TypeDesc::Struct { name, fields: copy_fields(fields) },
                ),
                _ => Some(struct_named(name)),
            };
        }
        match member {
            Some(m) => Some(struct_named(string_of(&m))),
            None => if tail.len() == 0 {
                Some(struct_named(string_of(&cls)))
            } else {
                None
            },
        }
    }

    fn named_desc(&self, index: &ClassIndex, raw: &[char]) -> (r: Option<TypeDesc>)
        ensures
            match r {
                Some(d) => named_type(*self, *index, raw@) == Some(d@),
                None => named_type(*self, *index, raw@) is None,
            },
    {
        let stripped = arguments_stripped(raw);
        let scoped = self.is_cpp && !is_fundamental_type_name(string_of(&stripped).as_str());
        if scoped {
            match self.scoped_type_desc(index, &stripped) {
                Some(d) => {
                    return Some(d);
                },
                None => {},
            }
        }
        if holds(&stripped, &chars_of("::")) {
            return Some(struct_named(string_of(&stripped)));
        }
        let inner = self.qualify_type_name(&stripped);
        if !same(&stripped, raw) || !scoped && index.type_by_tag(&inner).is_some() {
            return Some(struct_named(string_of(&inner)));
        }
        None
    }

    /// The type a node spells. A class specifier stands for the tag `lowered`
    /// that lowering it gave; a name is looked up through the aliases of the
    /// current function, the callable and smart-pointer wrappers, which keep
    /// their arguments in their tag, and the scopes around; anything else is
    /// read as a scalar, a tag or a plain alias.
    pub fn type_desc_from_node(
        &self,
        index: &ClassIndex,
        source: &str,
        tree: &SyntaxTree,
        node: usize,
        lowered: &str,
    ) -> (r: TypeDesc)
        requires
            tree.fits(source@),
            node < tree.len(),
        ensures
            r@ == type_of(*self, *index, *tree, source@, node as int, lowered@),
    {
        let p = peel_cpp_type_node(tree, node);
        if tree.kind_is(p, "union_specifier") {
            return union_named(string_of(&chars_of(lowered)));
        }
        if tree.kind_is(p, "struct_specifier") || tree.kind_is(p, "class_specifier") {
            return struct_named(string_of(&chars_of(lowered)));
        }
        if tree.kind_is(p, "placeholder_type_specifier") {
            return TypeDesc::Unknown;
        }
        let spelled = node_text(source, tree, p);
        if tree.kind_is(p, "qualified_identifier") || tree.kind_is(p, "type_identifier")
            || tree.kind_is(p, "template_type") {
            let s = chars_of(spelled);
            let raw = requalified(&s);
            match self.local_alias(&raw) {
                Some(d) => {
                    return copy_desc(d);
                },
                None => {},
            }
            if is_callable_wrapper(string_of(&raw).as_str()) {
                return fn_ptr_to(TypeDesc::Int);
            }
            if self.is_cpp && position(&s, '<').is_some() {
                assert(spelled@.contains('<'));
                match self.template_desc(index, spelled) {
                    Some(d) => {
                        return d;
                    },
                    None => {},
                }
            }
            match self.named_desc(index, &raw) {
                Some(d) => {
                    return d;
                },
                None => {},
            }
        }
        flat_desc(index, spelled)
    }
}

/// A scalar, a literal or a fundamental name among the arguments of a template
/// is never a class: it is kept as it is, whatever scope it is spelled in.
pub proof fn law_scalar_arguments_are_not_qualified(
    s: NameScope,
    x: ClassIndex,
    raw: Seq<char>,
    k: int,
)
    requires
        0 < k <= spelling::arguments_of(raw).len(),
        ({
            let clean = argument_base(spelling::arguments_of(raw)[k - 1]);
            &&& !clean.contains('(')
            &&& !clean.contains('<')
            &&& spelling::literal_spelling(clean) || spelling::fundamental_name(clean) || scalar_of(
                clean,
            ) is Some
        }),
    ensures
        argument_texts(s, x, raw, k).last() == argument_base(spelling::arguments_of(raw)[k - 1])
            + argument_suffix(spelling::arguments_of(raw)[k - 1]),
{
}

} // verus!
