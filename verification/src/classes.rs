//! Class specifiers and their members: which specifiers define, declare or
//! refer to a class, how a member class is named, and what the members of a
//! class body are.

use crate::members;
use crate::members::member_decl_is_function;
use crate::normalize;
use crate::normalize::{arguments_stripped, requalified};
use crate::parse::node_text;
use crate::syntax::SyntaxTree;
use crate::text;
use crate::text::{append, chars_of, holds, string_of};
use vstd::prelude::*;

verus! {

/// What the specifiers of a member function say.
#[derive(Debug, Clone, Copy, PartialEq, Eq, Structural)]
pub struct VirtualFlags {
    pub is_virtual: bool,
    pub is_final: bool,
}

/// `n` holds a `virtual`, `override` or `final`.
pub open spec fn virtual_under(t: SyntaxTree, n: int) -> bool
    decreases t.len() - n,
    when t.wf() && 0 <= n < t.len()
{
    exists|k: int|
        0 <= k < t.children(n).len() && {
            let c = #[trigger] t.children(n)[k] as int;
            t.spec_kind(c) == "virtual"@ || t.spec_kind(c) == "virtual_specifier"@
                || virtual_under(t, c)
        }
}

/// `n` holds a specifier that spells `final`.
pub open spec fn final_under(t: SyntaxTree, source: Seq<char>, n: int) -> bool
    decreases t.len() - n,
    when t.wf() && 0 <= n < t.len()
{
    exists|k: int|
        0 <= k < t.children(n).len() && {
            let c = #[trigger] t.children(n)[k] as int;
            if t.spec_kind(c) == "virtual"@ {
                false
            } else if t.spec_kind(c) == "virtual_specifier"@ {
                text::contains(t.text(source, c), "final"@)
            } else {
                final_under(t, source, c)
            }
        }
}

/// The virtuality a member declaration spells, anywhere in it.
pub fn virtual_flags(source: &str, tree: &SyntaxTree, node: usize) -> (r: VirtualFlags)
    requires
        tree.fits(source@),
        node < tree.len(),
    ensures
        r.is_virtual == virtual_under(*tree, node as int),
        r.is_final == final_under(*tree, source@, node as int),
    decreases tree.len() - node,
{
    let mut is_virtual = false;
    let mut is_final = false;
    let mut k: usize = 0;
    while k < tree.kids[node].len()
        invariant
            tree.fits(source@),
            node < tree.len(),
            k <= tree.children(node as int).len(),
            is_virtual == exists|j: int|
                0 <= j < k && {
                    let c = #[trigger] tree.children(node as int)[j] as int;
                    tree.spec_kind(c) == "virtual"@ || tree.spec_kind(c) == "virtual_specifier"@
                        || virtual_under(*tree, c)
                },
            is_final == exists|j: int|
                0 <= j < k && {
                    let c = #[trigger] tree.children(node as int)[j] as int;
                    if tree.spec_kind(c) == "virtual"@ {
                        false
                    } else if tree.spec_kind(c) == "virtual_specifier"@ {
                        text::contains(tree.text(source@, c), "final"@)
                    } else {
                        final_under(*tree, source@, c)
                    }
                },
        decreases tree.children(node as int).len() - k,
    {
        let c = tree.kids[node][k];
        assert(c == tree.children(node as int)[k as int]);
        if tree.kind_is(c, "virtual") {
            is_virtual = true;
        } else if tree.kind_is(c, "virtual_specifier") {
            is_virtual = true;
            if holds(&chars_of(node_text(source, tree, c)), &chars_of("final")) {
                is_final = true;
            }
        } else {
            let inner = virtual_flags(source, tree, c);
            is_virtual = is_virtual || inner.is_virtual;
            is_final = is_final || inner.is_final;
        }
        k += 1;
    }
    VirtualFlags { is_virtual, is_final }
}

/// The specifier is marked `final`.
pub open spec fn final_class(t: SyntaxTree, source: Seq<char>, n: int) -> bool {
    exists|k: int|
        0 <= k < t.children(n).len() && {
            let c = #[trigger] t.children(n)[k] as int;
            t.spec_kind(c) == "virtual_specifier"@ && text::contains(t.text(source, c), "final"@)
        }
}

/// `class C final { ... }`.
pub fn class_specifier_is_final(source: &str, tree: &SyntaxTree, node: usize) -> (r: bool)
    requires
        tree.fits(source@),
        node < tree.len(),
    ensures
        r == final_class(*tree, source@, node as int),
{
    let mut k: usize = 0;
    while k < tree.kids[node].len()
        invariant
            tree.fits(source@),
            node < tree.len(),
            k <= tree.children(node as int).len(),
            forall|j: int|
                0 <= j < k ==> {
                    let c = #[trigger] tree.children(node as int)[j] as int;
                    !(tree.spec_kind(c) == "virtual_specifier"@ && text::contains(
                        tree.text(source@, c),
                        "final"@,
                    ))
                },
        decreases tree.children(node as int).len() - k,
    {
        let c = tree.kids[node][k];
        assert(c == tree.children(node as int)[k as int]);
        if tree.kind_is(c, "virtual_specifier") && holds(
            &chars_of(node_text(source, tree, c)),
            &chars_of("final"),
        ) {
            return true;
        }
        k += 1;
    }
    false
}

/// The kinds of class body members that declare or define something.
pub open spec fn member_kind(kind: Seq<char>) -> bool {
    kind == "function_definition"@ || kind == "field_declaration"@ || kind == "declaration"@ || kind
        == "template_declaration"@
}

/// The members of the class body of `n`.
pub open spec fn members_of(t: SyntaxTree, n: int) -> Seq<usize> {
    match t.fielded(n, "body"@) {
        Some(body) => t.children(body as int).filter(|m: usize| member_kind(t.spec_kind(m as int))),
        None => seq![],
    }
}

/// The members of a class body the two member passes look at.
pub fn class_members(tree: &SyntaxTree, node: usize) -> (r: Vec<usize>)
    requires
        tree.wf(),
        node < tree.len(),
    ensures
        r@ == members_of(*tree, node as int),
        forall|i: int| 0 <= i < r@.len() ==> node < #[trigger] r@[i] < tree.len(),
{
    let mut out: Vec<usize> = Vec::new();
    let body = match tree.child_by_field_name(node, "body") {
        Some(b) => b,
        None => {
            return out;
        },
    };
    let ghost keeps = |m: usize| member_kind(tree.spec_kind(m as int));
    let mut k: usize = 0;
    proof {
        reveal(Seq::filter);
        assert(tree.children(body as int).take(0).filter(keeps) =~= seq![]);
    }
    while k < tree.kids[body].len()
        invariant
            tree.wf(),
            node < body < tree.len(),
            k <= tree.children(body as int).len(),
            keeps == (|m: usize| member_kind(tree.spec_kind(m as int))),
            out@ == tree.children(body as int).take(k as int).filter(keeps),
            forall|i: int| 0 <= i < out@.len() ==> node < #[trigger] out@[i] < tree.len(),
        decreases tree.children(body as int).len() - k,
    {
        let m = tree.kids[body][k];
        assert(m == tree.children(body as int)[k as int]);
        proof {
            reveal(Seq::filter);
            let upto = tree.children(body as int).take(k + 1);
            assert(upto.drop_last() =~= tree.children(body as int).take(k as int));
            assert(upto.last() == m);
        }
        if tree.kind_is(m, "function_definition") || tree.kind_is(m, "field_declaration")
            || tree.kind_is(m, "declaration") || tree.kind_is(m, "template_declaration") {
            out.push(m);
        }
        k += 1;
    }
    assert(tree.children(body as int).take(k as int) =~= tree.children(body as int));
    out
}

pub open spec fn class_kind(kind: Seq<char>) -> bool {
    kind == "class_specifier"@ || kind == "struct_specifier"@
}

fn is_class_kind(tree: &SyntaxTree, n: usize) -> (r: bool)
    requires
        n < tree.len(),
    ensures
        r == class_kind(tree.spec_kind(n as int)),
{
    tree.kind_is(n, "class_specifier") || tree.kind_is(n, "struct_specifier")
}

pub open spec fn named_class(t: SyntaxTree, n: int) -> bool {
    class_kind(t.spec_kind(n)) && t.fielded(n, "name"@) is Some
}

pub open spec fn named_definition(t: SyntaxTree, n: int) -> bool {
    named_class(t, n) && t.fielded(n, "body"@) is Some
}

/// A `class` / `struct` specifier with a name.
pub fn is_named_class_specifier(tree: &SyntaxTree, node: usize) -> (r: bool)
    requires
        tree.wf(),
        node < tree.len(),
    ensures
        r == named_class(*tree, node as int),
{
    is_class_kind(tree, node) && tree.child_by_field_name(node, "name").is_some()
}

/// A `class` / `struct` specifier with a name and a body.
pub fn is_named_class_definition(tree: &SyntaxTree, node: usize) -> (r: bool)
    requires
        tree.wf(),
        node < tree.len(),
    ensures
        r == named_definition(*tree, node as int),
{
    is_named_class_specifier(tree, node) && tree.child_by_field_name(node, "body").is_some()
}

pub open spec fn class_reference(t: SyntaxTree, n: int) -> bool {
    &&& t.fielded(n, "body"@) is None
    &&& t.spec_parent(n) matches Some(p) && t.fielded(p as int, "declarator"@) is Some
}

/// A body-less specifier inside a declaration of something else
/// (`struct Node *next;`, `void f(class Impl *p)`): it refers to a class
/// rather than declaring one, as a standalone `class Impl;` does.
pub fn is_class_reference(tree: &SyntaxTree, spec: usize) -> (r: bool)
    requires
        tree.wf(),
        spec < tree.len(),
    ensures
        r == class_reference(*tree, spec as int),
{
    if tree.child_by_field_name(spec, "body").is_some() {
        return false;
    }
    match tree.parents[spec] {
        Some(p) => tree.child_by_field_name(p, "declarator").is_some(),
        None => false,
    }
}

/// The first named child of `n`, from position `k`, that defines a named
/// class.
pub open spec fn definition_from(t: SyntaxTree, n: int, k: int) -> Option<usize>
    decreases t.children(n).len() - k,
{
    if k < 0 || k >= t.children(n).len() {
        None
    } else {
        let c = t.children(n)[k];
        if t.rows@[c as int].is_named && named_definition(t, c as int) {
            Some(c)
        } else {
            definition_from(t, n, k + 1)
        }
    }
}

/// The class a member declaration defines.
pub open spec fn member_definition(t: SyntaxTree, member: int) -> Option<usize> {
    if t.spec_kind(member) == "field_declaration"@ {
        match t.fielded(member, "type"@) {
            Some(ty) => if named_definition(t, ty as int) {
                Some(ty)
            } else {
                None
            },
            None => None,
        }
    } else if t.spec_kind(member) == "template_declaration"@ {
        definition_from(t, member, 0)
    } else {
        None
    }
}

/// The class a member declaration defines: `class Inner { ... };`, with or
/// without a declarator, or `template<...> class Inner { ... };`.
pub fn member_class_definition(tree: &SyntaxTree, member: usize) -> (r: Option<usize>)
    requires
        tree.wf(),
        member < tree.len(),
    ensures
        r == member_definition(*tree, member as int),
        r matches Some(c) ==> member < c < tree.len(),
{
    if tree.kind_is(member, "field_declaration") {
        return match tree.child_by_field_name(member, "type") {
            Some(ty) => if is_named_class_definition(tree, ty) {
                Some(ty)
            } else {
                None
            },
            None => None,
        };
    }
    if !tree.kind_is(member, "template_declaration") {
        return None;
    }
    let mut k: usize = 0;
    while k < tree.kids[member].len()
        invariant
            tree.wf(),
            member < tree.len(),
            k <= tree.children(member as int).len(),
            member_definition(*tree, member as int) == definition_from(
                *tree,
                member as int,
                k as int,
            ),
        decreases tree.children(member as int).len() - k,
    {
        let c = tree.kids[member][k];
        assert(c == tree.children(member as int)[k as int]);
        if tree.rows[c].is_named && is_named_class_definition(tree, c) {
            return Some(c);
        }
        k += 1;
    }
    None
}

/// The class specifier whose body declares `spec` as a member.
pub open spec fn outer_class(t: SyntaxTree, spec: int) -> Option<usize> {
    match t.spec_parent(spec) {
        Some(member) => if t.spec_kind(member as int) == "field_declaration"@ || t.spec_kind(
            member as int,
        ) == "template_declaration"@ {
            match t.spec_parent(member as int) {
                Some(body) => if t.spec_kind(body as int) == "field_declaration_list"@ {
                    match t.spec_parent(body as int) {
                        Some(outer) => if class_kind(t.spec_kind(outer as int)) {
                            Some(outer)
                        } else {
                            None
                        },
                        None => None,
                    }
                } else {
                    None
                },
                None => None,
            }
        } else {
            None
        },
        None => None,
    }
}

/// The class specifier whose body declares `spec` as a member.
pub fn enclosing_member_class(tree: &SyntaxTree, spec: usize) -> (r: Option<usize>)
    requires
        tree.wf(),
        spec < tree.len(),
    ensures
        r == outer_class(*tree, spec as int),
        r matches Some(c) ==> c < spec,
{
    let member = match tree.parents[spec] {
        Some(m) => m,
        None => {
            return None;
        },
    };
    if !tree.kind_is(member, "field_declaration") && !tree.kind_is(
        member,
        "template_declaration",
    ) {
        return None;
    }
    let body = match tree.parents[member] {
        Some(b) => b,
        None => {
            return None;
        },
    };
    if !tree.kind_is(body, "field_declaration_list") {
        return None;
    }
    match tree.parents[body] {
        Some(outer) => if is_class_kind(tree, outer) {
            Some(outer)
        } else {
            None
        },
        None => None,
    }
}

/// A class body member that C has no place for.
pub open spec fn cpp_member(t: SyntaxTree, m: int) -> bool {
    let kind = t.spec_kind(m);
    &&& t.rows@[m].is_named
    &&& if kind == "field_declaration"@ {
        members::function_member(t, m)
    } else {
        kind == "function_definition"@ || kind == "declaration"@ || kind == "access_specifier"@
            || kind == "alias_declaration"@ || kind == "type_definition"@ || kind
            == "template_declaration"@ || kind == "using_declaration"@ || kind
            == "friend_declaration"@ || kind == "static_assert_declaration"@
    }
}

/// The specifier uses something a C struct cannot.
pub open spec fn cpp_only(t: SyntaxTree, n: int) -> bool {
    ||| t.spec_kind(n) == "class_specifier"@
    ||| t.stands_under(n, "template_declaration"@)
    ||| t.of_kind(n, "base_class_clause"@) is Some
    ||| t.fielded(n, "body"@) matches Some(body) && exists|k: int|
        0 <= k < t.children(body as int).len() && cpp_member(
            t,
            #[trigger] t.children(body as int)[k] as int,
        )
}

fn is_cpp_member(tree: &SyntaxTree, m: usize) -> (r: bool)
    requires
        tree.wf(),
        m < tree.len(),
    ensures
        r == cpp_member(*tree, m as int),
{
    if !tree.rows[m].is_named {
        return false;
    }
    if tree.kind_is(m, "field_declaration") {
        return member_decl_is_function(tree, m);
    }
    tree.kind_is(m, "function_definition") || tree.kind_is(m, "declaration") || tree.kind_is(
        m,
        "access_specifier",
    ) || tree.kind_is(m, "alias_declaration") || tree.kind_is(m, "type_definition")
        || tree.kind_is(m, "template_declaration") || tree.kind_is(m, "using_declaration")
        || tree.kind_is(m, "friend_declaration") || tree.kind_is(m, "static_assert_declaration")
}

/// Whether a class specifier uses anything a C struct cannot: the `class`
/// keyword, a template head, bases, or members other than data fields.
pub fn is_cpp_only_class(tree: &SyntaxTree, spec: usize) -> (r: bool)
    requires
        tree.wf(),
        spec < tree.len(),
    ensures
        r == cpp_only(*tree, spec as int),
{
    if tree.kind_is(spec, "class_specifier") || tree.parent_is(spec, "template_declaration")
        || tree.child_of_kind(spec, "base_class_clause").is_some() {
        return true;
    }
    let body = match tree.child_by_field_name(spec, "body") {
        Some(b) => b,
        None => {
            return false;
        },
    };
    let mut k: usize = 0;
    while k < tree.kids[body].len()
        invariant
            tree.wf(),
            spec < body < tree.len(),
            tree.fielded(spec as int, "body"@) == Some(body),
            k <= tree.children(body as int).len(),
            forall|j: int|
                0 <= j < k ==> !cpp_member(
                    *tree,
                    #[trigger] tree.children(body as int)[j] as int,
                ),
        decreases tree.children(body as int).len() - k,
    {
        let m = tree.kids[body][k];
        assert(m == tree.children(body as int)[k as int]);
        if is_cpp_member(tree, m) {
            assert(cpp_member(*tree, tree.children(body as int)[k as int] as int));
            return true;
        }
        k += 1;
    }
    false
}

/// `spec` or one of the classes it is a member of uses what C has not.
pub open spec fn nests_in_cpp(t: SyntaxTree, spec: int) -> bool
    decreases spec,
    when t.wf() && 0 <= spec < t.len()
    via nests_in_cpp_decreases
{
    cpp_only(t, spec) || match outer_class(t, spec) {
        Some(outer) => nests_in_cpp(t, outer as int),
        None => false,
    }
}

#[via_fn]
proof fn nests_in_cpp_decreases(t: SyntaxTree, spec: int) {
    lemma_outer_class(t, spec);
}

proof fn lemma_outer_class(t: SyntaxTree, spec: int)
    requires
        t.wf(),
        0 <= spec < t.len(),
    ensures
        outer_class(t, spec) matches Some(o) ==> o < spec,
{
    match t.spec_parent(spec) {
        Some(member) => {
            assert(spec >= 1);
            match t.spec_parent(member as int) {
                Some(body) => {
                    assert(member >= 1);
                    match t.spec_parent(body as int) {
                        Some(o) => {
                            assert(body >= 1);
                        },
                        None => {},
                    }
                },
                None => {},
            }
        },
        None => {},
    }
}

/// How a class defined as a member of another is named.
#[derive(Debug, PartialEq, Eq)]
pub struct MemberClassTag {
    /// The C++ spelling, `Outer::Inner`.
    pub spelling: String,
    /// Whether the class registers under that spelling. A struct C would also
    /// accept, nested only in such structs, keeps the namespace tag instead:
    /// C gives a nested struct file scope, and a header shared by C and C++
    /// units has to name it alike in both.
    pub nests: bool,
}

/// A name without template arguments, spelled canonically.
pub open spec fn bare_tag(raw: Seq<char>) -> Seq<char> {
    normalize::without_arguments(normalize::qualified_text(raw))
}

/// The spelling and nesting of the class that `spec` declares in the body of
/// the class `scope`.
pub open spec fn member_tag_of(
    t: SyntaxTree,
    source: Seq<char>,
    is_cpp: bool,
    scope: Option<Seq<char>>,
    spec: int,
) -> Option<(Seq<char>, bool)> {
    if !is_cpp || outer_class(t, spec) is None || !named_class(t, spec) || class_reference(
        t,
        spec,
    ) {
        None
    } else {
        let name = bare_tag(t.text(source, t.fielded(spec, "name"@)->0 as int));
        match scope {
            Some(outer) => if text::contains(name, "::"@) {
                None
            } else {
                Some((outer + "::"@ + name, nests_in_cpp(t, spec)))
            },
            None => None,
        }
    }
}

/// The tag of a class declared in the body of the class being lowered, whose
/// name is `scope`, with its body or ahead of it (`struct Impl;`). `None` for
/// a specifier that is no member, only refers to a class, is spelled
/// qualified, or is lowered without its outer class in scope.
pub fn member_class_tag(
    source: &str,
    tree: &SyntaxTree,
    is_cpp: bool,
    scope: Option<&str>,
    spec: usize,
) -> (r: Option<MemberClassTag>)
    requires
        tree.fits(source@),
        spec < tree.len(),
    ensures
        match r {
            Some(tag) => member_tag_of(
                *tree,
                source@,
                is_cpp,
                opt_text(scope),
                spec as int,
            ) == Some((tag.spelling@, tag.nests)),
            None => member_tag_of(
                *tree,
                source@,
                is_cpp,
                opt_text(scope),
                spec as int,
            ) is None,
        },
{
    if !is_cpp || enclosing_member_class(tree, spec).is_none() || !is_named_class_specifier(
        tree,
        spec,
    ) || is_class_reference(tree, spec) {
        return None;
    }
    let mut nests = false;
    let mut at: usize = spec;
    loop
        invariant_except_break
            !nests,
        invariant
            tree.wf(),
            at < tree.len(),
            spec < tree.len(),
            nests_in_cpp(*tree, spec as int) == nests_in_cpp(*tree, at as int),
        ensures
            nests == nests_in_cpp(*tree, spec as int),
        decreases at,
    {
        if is_cpp_only_class(tree, at) {
            nests = true;
            break;
        }
        match enclosing_member_class(tree, at) {
            Some(outer) => {
                at = outer;
            },
            None => {
                break;
            },
        }
    }
    match (tree.child_by_field_name(spec, "name"), scope) {
        (Some(name_node), Some(outer)) => {
            let name = arguments_stripped(
                &requalified(&chars_of(node_text(source, tree, name_node))),
            );
            if holds(&name, &chars_of("::")) {
                return None;
            }
            let mut spelling = chars_of(outer);
            append(&mut spelling, &chars_of("::"));
            append(&mut spelling, &name);
            Some(MemberClassTag { spelling: string_of(&spelling), nests })
        },
        _ => None,
    }
}

pub open spec fn opt_text(s: Option<&str>) -> Option<Seq<char>> {
    match s {
        Some(t) => Some(t@),
        None => None,
    }
}

/// The last of the first `k` children of `n` that declares something.
pub open spec fn declared_last(t: SyntaxTree, n: int, k: int) -> Option<usize>
    decreases k,
{
    if k <= 0 || k > t.children(n).len() {
        None
    } else if t.declares(t.children(n)[k - 1] as int, true) {
        Some(t.children(n)[k - 1])
    } else {
        declared_last(t, n, k - 1)
    }
}

/// Unwrap the declaration wrapped by a `template_declaration`, if any.
pub fn template_member_decl(tree: &SyntaxTree, node: usize) -> (r: Option<usize>)
    requires
        tree.wf(),
        node < tree.len(),
    ensures
        r == declared_last(*tree, node as int, tree.children(node as int).len() as int),
        r matches Some(c) ==> node < c < tree.len(),
{
    let mut k: usize = tree.kids[node].len();
    while k > 0
        invariant
            tree.wf(),
            node < tree.len(),
            k <= tree.children(node as int).len(),
            declared_last(*tree, node as int, tree.children(node as int).len() as int)
                == declared_last(*tree, node as int, k as int),
        decreases k,
    {
        let c = tree.kids[node][k - 1];
        assert(c == tree.children(node as int)[k - 1]);
        if tree.kind_is(c, "function_definition") || tree.kind_is(c, "field_declaration")
            || tree.kind_is(c, "declaration") {
            return Some(c);
        }
        k -= 1;
    }
    None
}

/// The member before `n` ends in a semicolon that is not there.
pub open spec fn continues_member(t: SyntaxTree, n: int) -> bool {
    match t.prev_named(n) {
        Some(prev) => match t.last_child(prev as int) {
            Some(last) => t.rows@[last as int].is_missing && t.spec_kind(last as int) == ";"@,
            None => false,
        },
        None => false,
    }
}

/// Whether a class-body `declaration` is only the tail of the member before
/// it, split off by error recovery rather than declared in its own right: a
/// member ending in a *missing* `;` is one the author wrote no `;` after, so
/// whatever the parser parked after it is the rest of that same declaration.
pub fn continues_previous_member(tree: &SyntaxTree, node: usize) -> (r: bool)
    requires
        tree.wf(),
        node < tree.len(),
    ensures
        r == continues_member(*tree, node as int),
{
    match tree.prev_named_sibling(node) {
        Some(prev) => match tree.last_child_of(prev) {
            Some(last) => tree.rows[last].is_missing && tree.kind_is(last, ";"),
            None => false,
        },
        None => false,
    }
}

} // verus!
