//! Template parameters: their names, which spellings mention them, and which
//! return types depend on them.

use crate::ir::TypeDesc;
use crate::normalize;
use crate::normalize::last_type_segment;
use crate::parse::node_text;
use crate::syntax::SyntaxTree;
use crate::text;
use crate::text::{chars_of, ends, find, part, str_eq, string_of, trimmed, trimmed_end, word_char};
use vstd::prelude::*;

verus! {

/// Where a type spelling tested for template parameters comes from.
#[derive(Debug, Clone, Copy, PartialEq, Eq, Structural)]
pub enum Spelling {
    /// As written: `OHOS::Event` names a member of `OHOS`, never a parameter.
    Source,
    /// As lowering qualified it: a parameter `T` of a member template of `C`
    /// reads `C::T`, so a qualified identifier can still be the parameter.
    Lowered,
}

/// `name` stands at `at` as a whole identifier, outside any qualification
/// when the spelling is as written.
pub open spec fn mentions_at(s: Seq<char>, from: Spelling, name: Seq<char>, at: int) -> bool {
    let end = at + name.len();
    &&& !(at > 0 && text::is_word(s[at - 1]))
    &&& !(end < s.len() && text::is_word(s[end]))
    &&& from == Spelling::Lowered || !text::ends_with(text::trim_end(s.take(at)), "::"@)
}

/// One of the occurrences of `name` from `i` on, each behind the one before,
/// is a mention.
pub open spec fn mentions_from(s: Seq<char>, from: Spelling, name: Seq<char>, i: int) -> bool
    decreases s.len() + 1 - i,
    when 0 <= i
    via mentions_from_decreases
{
    let at = text::find_from(s, name, i);
    at >= 0 && (mentions_at(s, from, name, at) || mentions_from(s, from, name, past(name, at)))
}

/// Where the search goes on behind an occurrence at `at`.
pub open spec fn past(name: Seq<char>, at: int) -> int {
    if name.len() == 0 {
        at + 1
    } else {
        at + name.len()
    }
}

#[via_fn]
proof fn mentions_from_decreases(s: Seq<char>, from: Spelling, name: Seq<char>, i: int) {
    text::lemma_find_from(s, name, i);
}

pub open spec fn mentions(s: Seq<char>, from: Spelling, name: Seq<char>) -> bool {
    mentions_from(s, from, name, 0)
}

/// Whether the type spelling names `name` as a whole identifier, outside any
/// qualification when it is as written.
pub fn spelling_mentions(spelling: &str, from: Spelling, name: &str) -> (r: bool)
    ensures
        r == mentions(spelling@, from, name@),
{
    let s = chars_of(spelling);
    let n = chars_of(name);
    let sep = chars_of("::");
    let mut i: usize = 0;
    loop
        invariant
            s@ == spelling@,
            n@ == name@,
            sep@ == "::"@,
            i <= s@.len() + 1,
            mentions(spelling@, from, name@) == mentions_from(s@, from, n@, i as int),
        decreases s@.len() + 1 - i,
    {
        proof {
            text::lemma_find_from(s@, n@, i as int);
        }
        if i > s.len() {
            return false;
        }
        let at = match find(&s, &n, i) {
            Some(at) => at,
            None => {
                return false;
            },
        };
        assert(s@.len() == s.len() && n@.len() == n.len());
        let end = at + n.len();
        let before = part(&s, 0, at);
        assert(before@ =~= s@.take(at as int));
        if !(at > 0 && word_char(s[at - 1])) && !(end < s.len() && word_char(s[end])) && (from
            == Spelling::Lowered || !ends(&trimmed_end(&before), &sep)) {
            return true;
        }
        if n.len() > 0 {
            i = end;
        } else if at < s.len() {
            i = at + 1;
        } else {
            assert(text::find_from(s@, n@, at + 1) == -1);
            assert(!mentions_from(s@, from, n@, at + 1));
            return false;
        }
    }
}

/// The first child of `n`, from position `k`, that the grammar names and that
/// is of the given kind.
pub open spec fn named_of_kind(t: SyntaxTree, n: int, kind: Seq<char>, k: int) -> Option<usize>
    decreases t.children(n).len() - k,
{
    if k < 0 || k >= t.children(n).len() {
        None
    } else {
        let c = t.children(n)[k];
        if t.rows@[c as int].is_named && t.spec_kind(c as int) == kind {
            Some(c)
        } else {
            named_of_kind(t, n, kind, k + 1)
        }
    }
}

fn named_child_of_kind(tree: &SyntaxTree, n: usize, kind: &str) -> (r: Option<usize>)
    requires
        tree.wf(),
        n < tree.len(),
    ensures
        r == named_of_kind(*tree, n as int, kind@, 0),
        r matches Some(c) ==> n < c < tree.len(),
{
    let mut k: usize = 0;
    while k < tree.kids[n].len()
        invariant
            tree.wf(),
            n < tree.len(),
            k <= tree.children(n as int).len(),
            named_of_kind(*tree, n as int, kind@, 0) == named_of_kind(
                *tree,
                n as int,
                kind@,
                k as int,
            ),
        decreases tree.children(n as int).len() - k,
    {
        let c = tree.kids[n][k];
        assert(c == tree.children(n as int)[k as int]);
        if tree.rows[c].is_named && tree.kind_is(c, kind) {
            return Some(c);
        }
        k += 1;
    }
    None
}

/// The first named child of `n`, from position `k`, that is an identifier or a
/// declarator.
pub open spec fn declarator_part(t: SyntaxTree, n: int, k: int) -> Option<usize>
    decreases t.children(n).len() - k,
{
    if k < 0 || k >= t.children(n).len() {
        None
    } else {
        let c = t.children(n)[k];
        if t.rows@[c as int].is_named && (t.spec_kind(c as int) == "identifier"@ || t.kind_ends(
            c as int,
            "_declarator"@,
        )) {
            Some(c)
        } else {
            declarator_part(t, n, k + 1)
        }
    }
}

/// The identifier that a declarator declares.
pub open spec fn identifier_of(t: SyntaxTree, n: int) -> Option<usize>
    decreases t.len() - n,
    when t.wf() && 0 <= n < t.len()
    via identifier_of_decreases
{
    if t.spec_kind(n) == "identifier"@ {
        Some(n as usize)
    } else {
        match t.fielded(n, "declarator"@) {
            Some(c) => identifier_of(t, c as int),
            None => match declarator_part(t, n, 0) {
                Some(c) => identifier_of(t, c as int),
                None => None,
            },
        }
    }
}

#[via_fn]
proof fn identifier_of_decreases(t: SyntaxTree, n: int) {
    t.lemma_fielded(n, "declarator"@);
    lemma_declarator_part(t, n, 0);
}

proof fn lemma_declarator_part(t: SyntaxTree, n: int, k: int)
    requires
        t.wf(),
        0 <= n < t.len(),
    ensures
        declarator_part(t, n, k) matches Some(c) ==> n < c < t.len(),
    decreases t.children(n).len() - k,
{
    if 0 <= k < t.children(n).len() {
        assert(n < t.children(n)[k] < t.len());
        lemma_declarator_part(t, n, k + 1);
    }
}

/// The identifier a declarator declares, through pointer, reference and
/// pack layers; `None` for an abstract declarator.
pub fn declarator_identifier(tree: &SyntaxTree, node: usize) -> (r: Option<usize>)
    requires
        tree.wf(),
        node < tree.len(),
    ensures
        r == identifier_of(*tree, node as int),
        r matches Some(c) ==> node <= c < tree.len(),
    decreases tree.len() - node,
{
    if tree.kind_is(node, "identifier") {
        return Some(node);
    }
    match tree.child_by_field_name(node, "declarator") {
        Some(c) => {
            return declarator_identifier(tree, c);
        },
        None => {},
    }
    let mut k: usize = 0;
    while k < tree.kids[node].len()
        invariant
            tree.wf(),
            node < tree.len(),
            k <= tree.children(node as int).len(),
            tree.fielded(node as int, "declarator"@) is None,
            tree.spec_kind(node as int) != "identifier"@,
            declarator_part(*tree, node as int, 0) == declarator_part(
                *tree,
                node as int,
                k as int,
            ),
        decreases tree.children(node as int).len() - k,
    {
        let c = tree.kids[node][k];
        assert(c == tree.children(node as int)[k as int]);
        if tree.rows[c].is_named && (tree.kind_is(c, "identifier") || tree.kind_ends_with(
            c,
            "_declarator",
        )) {
            return declarator_identifier(tree, c);
        }
        k += 1;
    }
    None
}

/// The first named child of `n`, from position `k`, that is no parameter list.
pub open spec fn past_parameters(t: SyntaxTree, n: int, k: int) -> Option<usize>
    decreases t.children(n).len() - k,
{
    if k < 0 || k >= t.children(n).len() {
        None
    } else {
        let c = t.children(n)[k];
        if t.rows@[c as int].is_named && t.spec_kind(c as int) != "template_parameter_list"@ {
            Some(c)
        } else {
            past_parameters(t, n, k + 1)
        }
    }
}

/// The node that names a template parameter.
pub open spec fn parameter_node(t: SyntaxTree, p: int) -> Option<usize> {
    let kind = t.spec_kind(p);
    if kind == "type_parameter_declaration"@ || kind == "variadic_type_parameter_declaration"@ {
        named_of_kind(t, p, "type_identifier"@, 0)
    } else if kind == "optional_type_parameter_declaration"@ {
        t.fielded(p, "name"@)
    } else if kind == "template_template_parameter_declaration"@ {
        match past_parameters(t, p, 0) {
            Some(c) => named_of_kind(t, c as int, "type_identifier"@, 0),
            None => None,
        }
    } else if kind == "parameter_declaration"@ || kind == "optional_parameter_declaration"@ || kind
        == "variadic_parameter_declaration"@ {
        match t.fielded(p, "declarator"@) {
            Some(d) => identifier_of(t, d as int),
            None => None,
        }
    } else {
        None
    }
}

/// The name of a template parameter; a zero-width name, as error recovery can
/// leave one, is none.
pub open spec fn parameter_name(t: SyntaxTree, source: Seq<char>, p: int) -> Option<Seq<char>> {
    match parameter_node(t, p) {
        Some(c) => if t.text(source, c as int).len() > 0 {
            Some(t.text(source, c as int))
        } else {
            None
        },
        None => None,
    }
}

/// The parameters among the first `k` children of a list.
pub open spec fn parameter_names(t: SyntaxTree, source: Seq<char>, n: int, k: int) -> Seq<
    Option<Seq<char>>,
>
    decreases k,
{
    if k <= 0 || k > t.children(n).len() {
        seq![]
    } else {
        let p = t.children(n)[k - 1] as int;
        let before = parameter_names(t, source, n, k - 1);
        if t.rows@[p].is_named && t.spec_kind(p) != "comment"@ {
            before.push(parameter_name(t, source, p))
        } else {
            before
        }
    }
}

fn find_past_parameters(tree: &SyntaxTree, n: usize) -> (r: Option<usize>)
    requires
        tree.wf(),
        n < tree.len(),
    ensures
        r == past_parameters(*tree, n as int, 0),
        r matches Some(c) ==> n < c < tree.len(),
{
    let mut k: usize = 0;
    while k < tree.kids[n].len()
        invariant
            tree.wf(),
            n < tree.len(),
            k <= tree.children(n as int).len(),
            past_parameters(*tree, n as int, 0) == past_parameters(*tree, n as int, k as int),
        decreases tree.children(n as int).len() - k,
    {
        let c = tree.kids[n][k];
        assert(c == tree.children(n as int)[k as int]);
        if tree.rows[c].is_named && !tree.kind_is(c, "template_parameter_list") {
            return Some(c);
        }
        k += 1;
    }
    None
}

fn find_parameter_node(tree: &SyntaxTree, p: usize) -> (r: Option<usize>)
    requires
        tree.wf(),
        p < tree.len(),
    ensures
        r == parameter_node(*tree, p as int),
        r matches Some(c) ==> c < tree.len(),
{
    if tree.kind_is(p, "type_parameter_declaration") || tree.kind_is(
        p,
        "variadic_type_parameter_declaration",
    ) {
        named_child_of_kind(tree, p, "type_identifier")
    } else if tree.kind_is(p, "optional_type_parameter_declaration") {
        tree.child_by_field_name(p, "name")
    } else if tree.kind_is(p, "template_template_parameter_declaration") {
        match find_past_parameters(tree, p) {
            Some(c) => named_child_of_kind(tree, c, "type_identifier"),
            None => None,
        }
    } else if tree.kind_is(p, "parameter_declaration") || tree.kind_is(
        p,
        "optional_parameter_declaration",
    ) || tree.kind_is(p, "variadic_parameter_declaration") {
        match tree.child_by_field_name(p, "declarator") {
            Some(d) => declarator_identifier(tree, d),
            None => None,
        }
    } else {
        None
    }
}

pub open spec fn name_views(v: Seq<Option<String>>) -> Seq<Option<Seq<char>>> {
    v.map_values(
        |n: Option<String>|
            match n {
                Some(s) => Some(s@),
                None => None,
            },
    )
}

/// The name of each parameter of a template parameter list, by position;
/// `None` for an unnamed one. Comments between parameters are not positions.
/// A type parameter's name is its identifier (`class T`, `class... Ts`,
/// `template<class> class TT`); a value parameter's is in its declarator
/// (`size_t N`), never its type.
pub fn template_parameter_names(source: &str, tree: &SyntaxTree, params: usize) -> (r: Vec<
    Option<String>,
>)
    requires
        tree.fits(source@),
        params < tree.len(),
    ensures
        name_views(r@) == parameter_names(
            *tree,
            source@,
            params as int,
            tree.children(params as int).len() as int,
        ),
{
    let mut out: Vec<Option<String>> = Vec::new();
    let mut k: usize = 0;
    assert(name_views(out@) =~= seq![]);
    while k < tree.kids[params].len()
        invariant
            tree.fits(source@),
            params < tree.len(),
            k <= tree.children(params as int).len(),
            name_views(out@) == parameter_names(*tree, source@, params as int, k as int),
        decreases tree.children(params as int).len() - k,
    {
        let p = tree.kids[params][k];
        assert(p == tree.children(params as int)[k as int]);
        if tree.rows[p].is_named && !tree.kind_is(p, "comment") {
            let ghost before = out@;
            let name: Option<String> = match find_parameter_node(tree, p) {
                Some(c) => {
                    let own = chars_of(node_text(source, tree, c));
                    if own.len() > 0 {
                        Some(string_of(&own))
                    } else {
                        None
                    }
                },
                None => None,
            };
            out.push(name);
            assert(name_views(out@) =~= name_views(before).push(
                parameter_name(*tree, source@, p as int),
            ));
        }
        k += 1;
    }
    out
}

/// One of the parameters is mentioned in the spelling.
pub open spec fn mentions_any(
    names: Seq<Option<Seq<char>>>,
    spelling: Seq<char>,
    from: Spelling,
) -> bool {
    exists|k: int|
        0 <= k < names.len() && (#[trigger] names[k]) is Some && mentions(
            spelling,
            from,
            names[k]->0,
        )
}

/// The template declaration `n` has a parameter that the spelling mentions.
pub open spec fn template_mentions(
    t: SyntaxTree,
    source: Seq<char>,
    n: int,
    spelling: Seq<char>,
    from: Spelling,
) -> bool {
    &&& t.spec_kind(n) == "template_declaration"@
    &&& t.fielded(n, "parameters"@) matches Some(params) && mentions_any(
        parameter_names(
            t,
            source,
            params as int,
            t.children(params as int).len() as int,
        ),
        spelling,
        from,
    )
}

/// A template declaration that `n` stands in has a parameter that the spelling
/// mentions.
pub open spec fn mentioned_above(
    t: SyntaxTree,
    source: Seq<char>,
    n: int,
    spelling: Seq<char>,
    from: Spelling,
) -> bool
    decreases n,
    when t.wf() && 0 <= n < t.len()
{
    match t.spec_parent(n) {
        Some(p) => p < n && (template_mentions(t, source, p as int, spelling, from)
            || mentioned_above(t, source, p as int, spelling, from)),
        None => false,
    }
}

fn is_mentioned_by(
    source: &str,
    tree: &SyntaxTree,
    n: usize,
    spelling: &str,
    from: Spelling,
) -> (r: bool)
    requires
        tree.fits(source@),
        n < tree.len(),
    ensures
        r == template_mentions(*tree, source@, n as int, spelling@, from),
{
    if !tree.kind_is(n, "template_declaration") {
        return false;
    }
    let params = match tree.child_by_field_name(n, "parameters") {
        Some(p) => p,
        None => {
            return false;
        },
    };
    let names = template_parameter_names(source, tree, params);
    let ghost all = name_views(names@);
    let mut k: usize = 0;
    while k < names.len()
        invariant
            k <= names@.len(),
            all == name_views(names@),
            tree.spec_kind(n as int) == "template_declaration"@,
            tree.fielded(n as int, "parameters"@) == Some(params),
            all == parameter_names(
                *tree,
                source@,
                params as int,
                tree.children(params as int).len() as int,
            ),
            forall|i: int|
                0 <= i < k ==> !((#[trigger] all[i]) is Some && mentions(
                    spelling@,
                    from,
                    all[i]->0,
                )),
        decreases names@.len() - k,
    {
        match &names[k] {
            Some(name) => {
                assert(all[k as int] == Some(name@));
                if spelling_mentions(spelling, from, name.as_str()) {
                    return true;
                }
            },
            None => {
                assert(all[k as int] is None);
            },
        }
        k += 1;
    }
    false
}

/// Whether a type spelled at `node` mentions a parameter of a template around
/// it. `has_templates` says that the unit can hold a template at all.
pub fn spelling_is_dependent(
    source: &str,
    tree: &SyntaxTree,
    has_templates: bool,
    node: usize,
    spelling: &str,
    from: Spelling,
) -> (r: bool)
    requires
        tree.fits(source@),
        node < tree.len(),
    ensures
        r == (has_templates && mentioned_above(*tree, source@, node as int, spelling@, from)),
{
    if !has_templates {
        return false;
    }
    let mut at: usize = node;
    loop
        invariant
            tree.fits(source@),
            has_templates,
            at <= node < tree.len(),
            mentioned_above(*tree, source@, node as int, spelling@, from) == mentioned_above(
                *tree,
                source@,
                at as int,
                spelling@,
                from,
            ),
        decreases at,
    {
        match tree.parents[at] {
            Some(p) => {
                assert(at >= 1);
                if is_mentioned_by(source, tree, p, spelling, from) {
                    return true;
                }
                at = p;
            },
            None => {
                return false;
            },
        }
    }
}

/// The class spelling a type holds, under its pointer and array layers,
/// mentions a parameter of a template around `n`.
pub open spec fn dependent_desc(
    t: SyntaxTree,
    source: Seq<char>,
    n: int,
    desc: TypeDesc,
) -> bool
    decreases desc,
{
    match desc {
        TypeDesc::Ptr(inner) => dependent_desc(t, source, n, *inner),
        TypeDesc::Array { elem, .. } => dependent_desc(t, source, n, *elem),
        TypeDesc::Struct { name, .. } => mentioned_above(t, source, n, name@, Spelling::Lowered),
        TypeDesc::Union { name, .. } => mentioned_above(t, source, n, name@, Spelling::Lowered),
        _ => false,
    }
}

/// Whether the type lowering gave a value depends on a template parameter.
pub fn type_is_dependent(
    source: &str,
    tree: &SyntaxTree,
    has_templates: bool,
    node: usize,
    desc: &TypeDesc,
) -> (r: bool)
    requires
        tree.fits(source@),
        node < tree.len(),
    ensures
        r == (has_templates && dependent_desc(*tree, source@, node as int, *desc)),
    decreases desc,
{
    match desc {
        TypeDesc::Ptr(inner) => type_is_dependent(source, tree, has_templates, node, inner),
        TypeDesc::Array { elem, size: _ } => type_is_dependent(
            source,
            tree,
            has_templates,
            node,
            elem,
        ),
        TypeDesc::Struct { name, fields: _ } => spelling_is_dependent(
            source,
            tree,
            has_templates,
            node,
            name.as_str(),
            Spelling::Lowered,
        ),
        TypeDesc::Union { name, fields: _ } => spelling_is_dependent(
            source,
            tree,
            has_templates,
            node,
            name.as_str(),
            Spelling::Lowered,
        ),
        _ => false,
    }
}

/// The first of `n` and the declarators in it that is a type name.
pub open spec fn alias_name_node(t: SyntaxTree, n: int) -> Option<usize>
    decreases t.len() - n,
    when t.wf() && 0 <= n < t.len()
    via alias_name_node_decreases
{
    if t.spec_kind(n) == "type_identifier"@ {
        Some(n as usize)
    } else {
        match t.fielded(n, "declarator"@) {
            Some(d) => alias_name_node(t, d as int),
            None => None,
        }
    }
}

#[via_fn]
proof fn alias_name_node_decreases(t: SyntaxTree, n: int) {
    t.lemma_fielded(n, "declarator"@);
}

fn find_alias_name(tree: &SyntaxTree, n: usize) -> (r: Option<usize>)
    requires
        tree.wf(),
        n < tree.len(),
    ensures
        r == alias_name_node(*tree, n as int),
        r matches Some(c) ==> c < tree.len(),
    decreases tree.len() - n,
{
    if tree.kind_is(n, "type_identifier") {
        return Some(n);
    }
    match tree.child_by_field_name(n, "declarator") {
        Some(d) => find_alias_name(tree, d),
        None => None,
    }
}

/// The name that a member alias declares, and the text of what it stands for.
pub open spec fn alias_of(t: SyntaxTree, source: Seq<char>, m: int) -> Option<
    (Seq<char>, Seq<char>),
> {
    if t.spec_kind(m) == "alias_declaration"@ {
        match (t.fielded(m, "name"@), t.fielded(m, "type"@)) {
            (Some(name), Some(ty)) => Some(
                (t.text(source, name as int), t.text(source, ty as int)),
            ),
            _ => None,
        }
    } else if t.spec_kind(m) == "type_definition"@ {
        match t.fielded(m, "declarator"@) {
            Some(d) => match alias_name_node(t, d as int) {
                Some(name) => Some((t.text(source, name as int), t.text(source, m))),
                None => None,
            },
            None => None,
        }
    } else {
        None
    }
}

/// The name a member `using` alias or `typedef` declares, and the text of the
/// type it stands for.
pub fn member_alias<'a>(source: &'a str, tree: &SyntaxTree, member: usize) -> (r: Option<
    (&'a str, &'a str),
>)
    requires
        tree.fits(source@),
        member < tree.len(),
    ensures
        match r {
            Some((name, aliased)) => alias_of(*tree, source@, member as int) == Some(
                (name@, aliased@),
            ),
            None => alias_of(*tree, source@, member as int) is None,
        },
{
    if tree.kind_is(member, "alias_declaration") {
        return match (
            tree.child_by_field_name(member, "name"),
            tree.child_by_field_name(member, "type"),
        ) {
            (Some(name), Some(ty)) => Some(
                (node_text(source, tree, name), node_text(source, tree, ty)),
            ),
            _ => None,
        };
    }
    if tree.kind_is(member, "type_definition") {
        return match tree.child_by_field_name(member, "declarator") {
            Some(d) => match find_alias_name(tree, d) {
                Some(name) => Some(
                    (node_text(source, tree, name), node_text(source, tree, member)),
                ),
                None => None,
            },
            None => None,
        };
    }
    None
}

/// How many aliases deep a dependent type is followed.
pub const MAX_ALIAS_DEPTH: u8 = 4;

/// A type spelled in the declaration `o` names a template parameter, directly
/// or through member aliases of the classes around.
pub open spec fn names_dependent(
    t: SyntaxTree,
    source: Seq<char>,
    o: int,
    spelling: Seq<char>,
    depth: nat,
) -> bool
    decreases MAX_ALIAS_DEPTH - depth, t.len(), 0int,
    when t.wf() && 0 <= o < t.len() && depth <= MAX_ALIAS_DEPTH
{
    mentioned_above(t, source, o, spelling, Spelling::Source) || depth < MAX_ALIAS_DEPTH
        && dependent_alias_above(t, source, o, o, spelling, depth)
}

/// A class body that `at` stands in declares an alias that the spelling names
/// and that is dependent.
pub open spec fn dependent_alias_above(
    t: SyntaxTree,
    source: Seq<char>,
    o: int,
    at: int,
    spelling: Seq<char>,
    depth: nat,
) -> bool
    decreases MAX_ALIAS_DEPTH - depth, at, 0int,
    when t.wf() && 0 <= o < t.len() && 0 <= at < t.len() && depth < MAX_ALIAS_DEPTH
{
    match t.spec_parent(at) {
        Some(p) => p < at && (t.spec_kind(p as int) == "field_declaration_list"@
            && dependent_alias_in(t, source, o, p as int, spelling, depth, 0)
            || dependent_alias_above(t, source, o, p as int, spelling, depth)),
        None => false,
    }
}

/// The body declares such an alias, from position `k` on.
pub open spec fn dependent_alias_in(
    t: SyntaxTree,
    source: Seq<char>,
    o: int,
    body: int,
    spelling: Seq<char>,
    depth: nat,
    k: int,
) -> bool
    decreases MAX_ALIAS_DEPTH - depth, body, t.children(body).len() - k,
    when t.wf() && 0 <= o < t.len() && 0 <= body < t.len() && depth < MAX_ALIAS_DEPTH && 0 <= k
{
    k < t.children(body).len() && {
        let m = t.children(body)[k] as int;
        ||| t.rows@[m].is_named && (alias_of(t, source, m) matches Some((name, aliased))
            && mentions(spelling, Spelling::Source, name) && names_dependent(
            t,
            source,
            o,
            aliased,
            depth + 1,
        ))
        ||| dependent_alias_in(t, source, o, body, spelling, depth, k + 1)
    }
}

fn has_dependent_alias(
    source: &str,
    tree: &SyntaxTree,
    owner: usize,
    body: usize,
    spelling: &str,
    depth: u8,
) -> (r: bool)
    requires
        tree.fits(source@),
        owner < tree.len(),
        body < tree.len(),
        depth < MAX_ALIAS_DEPTH,
    ensures
        r == dependent_alias_in(
            *tree,
            source@,
            owner as int,
            body as int,
            spelling@,
            depth as nat,
            0,
        ),
    decreases MAX_ALIAS_DEPTH - depth, 0int,
{
    let mut k: usize = 0;
    while k < tree.kids[body].len()
        invariant
            tree.fits(source@),
            owner < tree.len(),
            body < tree.len(),
            depth < MAX_ALIAS_DEPTH,
            k <= tree.children(body as int).len(),
            dependent_alias_in(
                *tree,
                source@,
                owner as int,
                body as int,
                spelling@,
                depth as nat,
                0,
            ) == dependent_alias_in(
                *tree,
                source@,
                owner as int,
                body as int,
                spelling@,
                depth as nat,
                k as int,
            ),
        decreases tree.children(body as int).len() - k,
    {
        let m = tree.kids[body][k];
        assert(m == tree.children(body as int)[k as int]);
        if tree.rows[m].is_named {
            match member_alias(source, tree, m) {
                Some((name, aliased)) => {
                    if spelling_mentions(spelling, Spelling::Source, name)
                        && spelling_names_dependent_type(source, tree, owner, aliased, depth + 1) {
                        return true;
                    }
                },
                None => {},
            }
        }
        k += 1;
    }
    false
}

/// Whether a type spelled in a template names one of its parameters, directly
/// or through a member alias of an enclosing class
/// (`using Ptr = std::shared_ptr<T>; Ptr Get();`), a few aliases deep. The
/// templates and classes are those around the declaration `owner`.
pub fn spelling_names_dependent_type(
    source: &str,
    tree: &SyntaxTree,
    owner: usize,
    spelling: &str,
    depth: u8,
) -> (r: bool)
    requires
        tree.fits(source@),
        owner < tree.len(),
        depth <= MAX_ALIAS_DEPTH,
    ensures
        r == names_dependent(*tree, source@, owner as int, spelling@, depth as nat),
    decreases MAX_ALIAS_DEPTH - depth, 1int,
{
    if spelling_is_dependent(source, tree, true, owner, spelling, Spelling::Source) {
        return true;
    }
    if depth >= MAX_ALIAS_DEPTH {
        return false;
    }
    let mut at: usize = owner;
    loop
        invariant
            tree.fits(source@),
            at <= owner < tree.len(),
            depth < MAX_ALIAS_DEPTH,
            names_dependent(*tree, source@, owner as int, spelling@, depth as nat)
                == dependent_alias_above(
                *tree,
                source@,
                owner as int,
                at as int,
                spelling@,
                depth as nat,
            ),
        decreases at,
    {
        match tree.parents[at] {
            Some(p) => {
                assert(at >= 1);
                if tree.kind_is(p, "field_declaration_list") && has_dependent_alias(
                    source,
                    tree,
                    owner,
                    p,
                    spelling,
                    depth,
                ) {
                    return true;
                }
                at = p;
            },
            None => {
                return false;
            },
        }
    }
}

/// The nearest of `n` and the nodes around it that has a type of its own.
pub open spec fn typed_around(t: SyntaxTree, n: int) -> Option<usize>
    decreases n,
    when t.wf() && 0 <= n < t.len()
{
    if t.fielded(n, "type"@) is Some {
        Some(n as usize)
    } else {
        match t.spec_parent(n) {
            Some(p) => if p < n {
                typed_around(t, p as int)
            } else {
                None
            },
            None => None,
        }
    }
}

/// `n` stands in a template declaration.
pub open spec fn in_template(t: SyntaxTree, n: int) -> bool
    decreases n,
    when t.wf() && 0 <= n < t.len()
{
    match t.spec_parent(n) {
        Some(p) => p < n && (t.spec_kind(p as int) == "template_declaration"@ || in_template(
            t,
            p as int,
        )),
        None => false,
    }
}

/// The return type of the declaration at `n` depends on a template parameter.
pub open spec fn dependent_return(t: SyntaxTree, source: Seq<char>, n: int) -> bool {
    match typed_around(t, n) {
        Some(o) => in_template(t, o as int) && names_dependent(
            t,
            source,
            o as int,
            t.text(source, t.fielded(o as int, "type"@)->0 as int),
            0,
        ),
        None => false,
    }
}

fn stands_in_template(tree: &SyntaxTree, n: usize) -> (r: bool)
    requires
        tree.wf(),
        n < tree.len(),
    ensures
        r == in_template(*tree, n as int),
{
    let mut at: usize = n;
    loop
        invariant
            tree.wf(),
            at <= n < tree.len(),
            in_template(*tree, n as int) == in_template(*tree, at as int),
        decreases at,
    {
        match tree.parents[at] {
            Some(p) => {
                assert(at >= 1);
                if tree.kind_is(p, "template_declaration") {
                    return true;
                }
                at = p;
            },
            None => {
                return false;
            },
        }
    }
}

/// Whether a declaration's return type is dependent, and so stays unknown in
/// the shared function signature.
pub fn return_is_dependent(source: &str, tree: &SyntaxTree, has_templates: bool, node: usize) -> (r:
    bool)
    requires
        tree.fits(source@),
        node < tree.len(),
    ensures
        r == (has_templates && dependent_return(*tree, source@, node as int)),
{
    if !has_templates {
        return false;
    }
    let mut at: usize = node;
    loop
        invariant
            tree.fits(source@),
            has_templates,
            at <= node < tree.len(),
            typed_around(*tree, node as int) == typed_around(*tree, at as int),
        decreases at,
    {
        match tree.child_by_field_name(at, "type") {
            Some(ty) => {
                return stands_in_template(tree, at) && spelling_names_dependent_type(
                    source,
                    tree,
                    at,
                    node_text(source, tree, ty),
                    0,
                );
            },
            None => {},
        }
        match tree.parents[at] {
            Some(p) => {
                assert(at >= 1);
                at = p;
            },
            None => {
                return false;
            },
        }
    }
}

/// What a class-template member declared to return a bare type parameter
/// yields: the parameter by position, under the pointer layers the declaration
/// adds. Without a position the return cannot be substituted.
#[derive(Debug, Clone, Copy, PartialEq, Eq, Structural)]
pub struct TemplateReturn {
    pub arity: u32,
    pub parameter: Option<usize>,
    pub pointer_depth: usize,
}

/// The first named child of `n`, from position `k`, that is a class specifier.
pub open spec fn class_child(t: SyntaxTree, n: int, k: int) -> Option<usize>
    decreases t.children(n).len() - k,
{
    if k < 0 || k >= t.children(n).len() {
        None
    } else {
        let c = t.children(n)[k];
        if t.rows@[c as int].is_named && (t.spec_kind(c as int) == "class_specifier"@
            || t.spec_kind(c as int) == "struct_specifier"@) {
            Some(c)
        } else {
            class_child(t, n, k + 1)
        }
    }
}

/// The nearest class template around `n`: how many other templates stand
/// between, the template, and its class.
pub open spec fn class_template(t: SyntaxTree, n: int, between: nat) -> Option<(nat, usize, usize)>
    decreases n,
    when t.wf() && 0 <= n < t.len()
{
    match t.spec_parent(n) {
        Some(p) => if p >= n {
            None
        } else if t.spec_kind(p as int) == "template_declaration"@ {
            match class_child(t, p as int, 0) {
                Some(c) => Some((between, p, c)),
                None => class_template(t, p as int, between + 1),
            }
        } else {
            class_template(t, p as int, between)
        },
        None => None,
    }
}

/// The first position, from `k`, at which the list names `name`.
pub open spec fn position_of(names: Seq<Option<Seq<char>>>, name: Seq<char>, k: int) -> Option<
    usize,
>
    decreases names.len() - k,
{
    if k < 0 || k >= names.len() {
        None
    } else if names[k] == Some(name) {
        Some(k as usize)
    } else {
        position_of(names, name, k + 1)
    }
}

/// The class template that owns the member at `n`, a member of the class
/// `owner`: its parameter list, and whether no other template stands between.
pub open spec fn owning_parameters(
    t: SyntaxTree,
    source: Seq<char>,
    n: int,
    owner: Seq<char>,
) -> Option<(usize, bool)> {
    match class_template(t, n, 0) {
        Some((between, template, class)) => match (
            t.fielded(class as int, "name"@),
            t.fielded(template as int, "parameters"@),
        ) {
            (Some(name), Some(params)) => if t.text(source, name as int)
                == normalize::last_segment(owner) {
                Some((params, between == 0))
            } else {
                None
            },
            _ => None,
        },
        None => None,
    }
}

fn find_class_child(tree: &SyntaxTree, n: usize) -> (r: Option<usize>)
    requires
        tree.wf(),
        n < tree.len(),
    ensures
        r == class_child(*tree, n as int, 0),
        r matches Some(c) ==> c < tree.len(),
{
    let mut k: usize = 0;
    while k < tree.kids[n].len()
        invariant
            tree.wf(),
            n < tree.len(),
            k <= tree.children(n as int).len(),
            class_child(*tree, n as int, 0) == class_child(*tree, n as int, k as int),
        decreases tree.children(n as int).len() - k,
    {
        let c = tree.kids[n][k];
        assert(c == tree.children(n as int)[k as int]);
        if tree.rows[c].is_named && (tree.kind_is(c, "class_specifier") || tree.kind_is(
            c,
            "struct_specifier",
        )) {
            return Some(c);
        }
        k += 1;
    }
    None
}

fn find_owning_parameters(source: &str, tree: &SyntaxTree, node: usize, owner: &str) -> (r: Option<
    (usize, bool),
>)
    requires
        tree.fits(source@),
        node < tree.len(),
    ensures
        r == owning_parameters(*tree, source@, node as int, owner@),
        r matches Some((p, _)) ==> p < tree.len(),
{
    let mut at: usize = node;
    let mut between: usize = 0;
    loop
        invariant
            tree.fits(source@),
            at <= node < tree.len(),
            between <= node - at,
            class_template(*tree, node as int, 0) == class_template(
                *tree,
                at as int,
                between as nat,
            ),
        decreases at,
    {
        let p = match tree.parents[at] {
            Some(p) => p,
            None => {
                return None;
            },
        };
        assert(at >= 1);
        if tree.kind_is(p, "template_declaration") {
            match find_class_child(tree, p) {
                Some(class) => {
                    return match (
                        tree.child_by_field_name(class, "name"),
                        tree.child_by_field_name(p, "parameters"),
                    ) {
                        (Some(name), Some(params)) => if str_eq(
                            node_text(source, tree, name),
                            last_type_segment(owner).as_str(),
                        ) {
                            Some((params, between == 0))
                        } else {
                            None
                        },
                        _ => None,
                    };
                },
                None => {
                    between += 1;
                },
            }
        }
        at = p;
    }
}

/// The substitution fact that a member of `owner` with a dependent return
/// records: the parameter of the owning class template that its type spells,
/// by position. Only a bare parameter of the class template itself can be
/// substituted; a member template, or any other dependent type, records a fact
/// without a position, so that it is not taken for another overload's.
pub fn template_return(
    source: &str,
    tree: &SyntaxTree,
    node: usize,
    owner: &str,
    arity: u32,
    pointer_depth: usize,
) -> (r: Option<TemplateReturn>)
    requires
        tree.fits(source@),
        node < tree.len(),
    ensures
        match (
            tree.fielded(node as int, "type"@),
            owning_parameters(*tree, source@, node as int, owner@),
        ) {
            (Some(ty), Some((params, direct))) => r == Some(
                (TemplateReturn {
                    arity,
                    parameter: if direct {
                        position_of(
                            parameter_names(
                                *tree,
                                source@,
                                params as int,
                                tree.children(params as int).len() as int,
                            ),
                            text::trim(tree.text(source@, ty as int)),
                            0,
                        )
                    } else {
                        None
                    },
                    pointer_depth,
                }),
            ),
            _ => r is None,
        },
{
    let ty = match tree.child_by_field_name(node, "type") {
        Some(ty) => ty,
        None => {
            return None;
        },
    };
    let (params, direct) = match find_owning_parameters(source, tree, node, owner) {
        Some(found) => found,
        None => {
            return None;
        },
    };
    if !direct {
        return Some(TemplateReturn { arity, parameter: None, pointer_depth });
    }
    let wanted = string_of(&trimmed(&chars_of(node_text(source, tree, ty))));
    let names = template_parameter_names(source, tree, params);
    let ghost all = name_views(names@);
    let mut k: usize = 0;
    let mut parameter: Option<usize> = None;
    while k < names.len() && parameter.is_none()
        invariant
            k <= names@.len(),
            all == name_views(names@),
            position_of(all, wanted@, 0) == if parameter is Some {
                parameter
            } else {
                position_of(all, wanted@, k as int)
            },
        decreases names@.len() - k,
    {
        let is_own = match &names[k] {
            Some(name) => str_eq(name.as_str(), wanted.as_str()),
            None => false,
        };
        assert(is_own == (all[k as int] == Some(wanted@)));
        if is_own {
            parameter = Some(k);
        }
        k += 1;
    }
    Some(TemplateReturn { arity, parameter, pointer_depth })
}

} // verus!
