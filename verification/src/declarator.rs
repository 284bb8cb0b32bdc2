//! Declarators: the names they declare, the shapes they give a type and the
//! functions they stand for, also where error recovery moved their parts.

use crate::ir::{fn_ptr_to, DescView, TypeDesc};
use crate::normalize;
use crate::normalize::{drop_prefix, requalified, respaced};
use crate::parse::node_text;
use crate::syntax;
use crate::syntax::{span_chars, SyntaxTree};
use crate::text;
use crate::text::{append, begins, chars_of, string_of, trimmed_start};
use vstd::prelude::*;

verus! {

/// The child at position 0.
pub open spec fn first_child(t: SyntaxTree, n: int) -> Option<usize> {
    if t.children(n).len() > 0 {
        Some(t.children(n)[0])
    } else {
        None
    }
}

/// Where the function declarator of a conversion operator begins: down the
/// declarators of `n` to the first one that makes it a function.
pub open spec fn function_layer(t: SyntaxTree, n: int) -> Option<usize>
    decreases t.len() - n,
    when t.wf() && 0 <= n < t.len()
    via function_layer_decreases
{
    if t.spec_kind(n) == "abstract_function_declarator"@ {
        Some(n as usize)
    } else {
        match t.fielded_or_first(n, "declarator"@) {
            Some(c) => function_layer(t, c as int),
            None => None,
        }
    }
}

#[via_fn]
proof fn function_layer_decreases(t: SyntaxTree, n: int) {
    t.lemma_fielded(n, "declarator"@);
    t.lemma_named(n);
}

/// The `(...)` that makes the declarator of a conversion operator a function.
pub open spec fn own_parameters(t: SyntaxTree, n: int) -> Option<usize> {
    match t.fielded(n, "declarator"@) {
        Some(d) => match function_layer(t, d as int) {
            Some(f) => match t.fielded(f as int, "parameters"@) {
                Some(p) => Some(p),
                None => Some(f),
            },
            None => None,
        },
        None => None,
    }
}

fn find_function_layer(tree: &SyntaxTree, n: usize) -> (r: Option<usize>)
    requires
        tree.wf(),
        n < tree.len(),
    ensures
        r == function_layer(*tree, n as int),
        r matches Some(c) ==> n <= c < tree.len(),
    decreases tree.len() - n,
{
    if tree.kind_is(n, "abstract_function_declarator") {
        Some(n)
    } else {
        match tree.field_or_first(n, "declarator") {
            Some(c) => find_function_layer(tree, c),
            None => None,
        }
    }
}

/// Where the name of a conversion operator ends.
pub open spec fn conversion_end(t: SyntaxTree, n: int) -> int {
    match own_parameters(t, n) {
        Some(p) => t.rows@[p as int].start as int,
        None => t.rows@[n].end as int,
    }
}

/// The name of a conversion operator: everything up to its own parameter list,
/// with `operator` set off as a word of its own.
pub open spec fn conversion_text(t: SyntaxTree, source: Seq<char>, n: int) -> Seq<char> {
    let spelled = normalize::spaced_text(
        syntax::span_text(source, t.rows@[n].start as int, conversion_end(t, n)),
    );
    if text::starts_with(spelled, "operator"@) {
        "operator "@ + text::trim_start(spelled.skip("operator"@.len() as int))
    } else {
        spelled
    }
}

fn conversion_chars(source: &str, tree: &SyntaxTree, n: usize) -> (r: Vec<char>)
    requires
        tree.fits(source@),
        n < tree.len(),
    ensures
        r@ == conversion_text(*tree, source@, n as int),
{
    let end_node: Option<usize> = match tree.child_by_field_name(n, "declarator") {
        Some(d) => match find_function_layer(tree, d) {
            Some(f) => match tree.child_by_field_name(f, "parameters") {
                Some(p) => Some(p),
                None => Some(f),
            },
            None => None,
        },
        None => None,
    };
    let end = match end_node {
        Some(p) => {
            assert(syntax::in_text(tree@[p as int], source@));
            tree.rows[p].start
        },
        None => tree.rows[n].end,
    };
    assert(syntax::in_text(tree@[n as int], source@));
    let spelled = respaced(&span_chars(source, tree.rows[n].start, end));
    let word = chars_of("operator");
    if begins(&spelled, &word) {
        let mut out = chars_of("operator ");
        append(&mut out, &trimmed_start(&drop_prefix(&spelled, &word)));
        out
    } else {
        spelled
    }
}

/// The name a conversion operator declares: `operator const char *() const`
/// becomes `operator const char*`.
pub fn conversion_operator_name(source: &str, tree: &SyntaxTree, node: usize) -> (r: String)
    requires
        tree.fits(source@),
        node < tree.len(),
    ensures
        r@ == conversion_text(*tree, source@, node as int),
{
    string_of(&conversion_chars(source, tree, node))
}

/// A child of `n`, from position `k`, that is an error opened by the
/// `operator` keyword.
pub open spec fn keyword_error_from(t: SyntaxTree, n: int, k: int) -> Option<usize>
    decreases t.children(n).len() - k,
{
    if k < 0 || k >= t.children(n).len() {
        None
    } else if opens_with_operator(t, t.children(n)[k] as int) {
        Some(t.children(n)[k])
    } else {
        keyword_error_from(t, n, k + 1)
    }
}

/// An error node that the `operator` keyword opens.
pub open spec fn opens_with_operator(t: SyntaxTree, c: int) -> bool {
    &&& t.spec_kind(c) == "ERROR"@
    &&& first_child(t, c) matches Some(k) && t.spec_kind(k as int) == "operator"@
}

pub fn is_operator_error(tree: &SyntaxTree, c: usize) -> (r: bool)
    requires
        tree.wf(),
        c < tree.len(),
    ensures
        r == opens_with_operator(*tree, c as int),
{
    if !tree.kind_is(c, "ERROR") || tree.kids[c].len() == 0 {
        return false;
    }
    let first = tree.kids[c][0];
    assert(first == tree.children(c as int)[0]);
    tree.kind_is(first, "operator")
}

/// The `operator` keyword parked alone in an error, which is what recovery
/// leaves when an unknown macro takes the type of a conversion operator.
pub fn conversion_keyword_error(tree: &SyntaxTree, node: usize) -> (r: Option<usize>)
    requires
        tree.wf(),
        node < tree.len(),
    ensures
        r == keyword_error_from(*tree, node as int, 0),
        r matches Some(c) ==> node < c < tree.len(),
{
    let mut k: usize = 0;
    while k < tree.kids[node].len()
        invariant
            tree.wf(),
            node < tree.len(),
            k <= tree.children(node as int).len(),
            keyword_error_from(*tree, node as int, 0) == keyword_error_from(
                *tree,
                node as int,
                k as int,
            ),
        decreases tree.children(node as int).len() - k,
    {
        let c = tree.kids[node][k];
        assert(c == tree.children(node as int)[k as int]);
        if is_operator_error(tree, c) {
            return Some(c);
        }
        k += 1;
    }
    None
}

/// The qualified identifier nested in the name of `n`, one scope further in.
pub open spec fn inner_qualified(t: SyntaxTree, n: int) -> Option<usize> {
    match t.fielded(n, "name"@) {
        Some(c) => if t.spec_kind(c as int) == "qualified_identifier"@ {
            Some(c)
        } else {
            None
        },
        None => None,
    }
}

fn next_qualified(tree: &SyntaxTree, n: usize) -> (r: Option<usize>)
    requires
        tree.wf(),
        n < tree.len(),
    ensures
        r == inner_qualified(*tree, n as int),
        r matches Some(c) ==> n < c < tree.len(),
{
    match tree.child_by_field_name(n, "name") {
        Some(c) => if tree.kind_is(c, "qualified_identifier") {
            Some(c)
        } else {
            None
        },
        None => None,
    }
}

/// The first stranded `operator` keyword along the scopes of a qualified name.
pub open spec fn chained_keyword(t: SyntaxTree, n: int) -> Option<usize>
    decreases t.len() - n,
    when t.wf() && 0 <= n < t.len()
    via chained_keyword_decreases
{
    match keyword_error_from(t, n, 0) {
        Some(e) => Some(e),
        None => match inner_qualified(t, n) {
            Some(c) => chained_keyword(t, c as int),
            None => None,
        },
    }
}

#[via_fn]
proof fn chained_keyword_decreases(t: SyntaxTree, n: int) {
    t.lemma_fielded(n, "name"@);
}

fn find_chained_keyword(tree: &SyntaxTree, n: usize) -> (r: Option<usize>)
    requires
        tree.wf(),
        n < tree.len(),
    ensures
        r == chained_keyword(*tree, n as int),
        r matches Some(c) ==> n < c < tree.len(),
    decreases tree.len() - n,
{
    match conversion_keyword_error(tree, n) {
        Some(e) => Some(e),
        None => match next_qualified(tree, n) {
            Some(c) => find_chained_keyword(tree, c),
            None => None,
        },
    }
}

/// A `::` that recovery put between the children of `n`, from position `k`.
pub open spec fn missing_separator(t: SyntaxTree, n: int) -> bool {
    exists|k: int|
        0 <= k < t.children(n).len() && t.spec_kind(#[trigger] t.children(n)[k] as int) == "::"@
            && t.rows@[t.children(n)[k] as int].is_missing
}

/// The first error child of `n`, from position `k`, that starts in `from..to`.
pub open spec fn error_within(t: SyntaxTree, n: int, from: int, to: int, k: int) -> Option<usize>
    decreases t.children(n).len() - k,
{
    if k < 0 || k >= t.children(n).len() {
        None
    } else {
        let c = t.children(n)[k];
        let start = t.rows@[c as int].start;
        if t.spec_kind(c as int) == "ERROR"@ && from <= start && start < to {
            Some(c)
        } else {
            error_within(t, n, from, to, k + 1)
        }
    }
}

/// Where the real name starts at one level of a qualified identifier that error
/// recovery invented: at its name where the joining `::` is missing, else at the
/// error that stands between the leftover type and the `::`.
pub open spec fn repaired_at(t: SyntaxTree, n: int) -> Option<usize> {
    if missing_separator(t, n) {
        match t.fielded(n, "name"@) {
            Some(c) => Some(t.rows@[c as int].start),
            None => None,
        }
    } else {
        match (t.fielded(n, "scope"@), t.of_kind(n, "::"@)) {
            (Some(s), Some(sep)) => match error_within(
                t,
                n,
                t.rows@[s as int].end as int,
                t.rows@[sep as int].start as int,
                0,
            ) {
                Some(e) => Some(t.rows@[e as int].start),
                None => None,
            },
            _ => None,
        }
    }
}

fn has_missing_separator(tree: &SyntaxTree, n: usize) -> (r: bool)
    requires
        tree.wf(),
        n < tree.len(),
    ensures
        r == missing_separator(*tree, n as int),
{
    let mut k: usize = 0;
    while k < tree.kids[n].len()
        invariant
            tree.wf(),
            n < tree.len(),
            k <= tree.children(n as int).len(),
            forall|j: int|
                0 <= j < k ==> !(tree.spec_kind(#[trigger] tree.children(n as int)[j] as int)
                    == "::"@ && tree.rows@[tree.children(n as int)[j] as int].is_missing),
        decreases tree.children(n as int).len() - k,
    {
        let c = tree.kids[n][k];
        assert(c == tree.children(n as int)[k as int]);
        if tree.kind_is(c, "::") && tree.rows[c].is_missing {
            return true;
        }
        k += 1;
    }
    false
}

/// Some node of the tree starts at this offset.
pub open spec fn node_starts_at(t: SyntaxTree, at: usize) -> bool {
    exists|c: int| 0 <= c < t.len() && (#[trigger] t.rows@[c]).start == at
}

fn find_repair(tree: &SyntaxTree, n: usize) -> (r: Option<usize>)
    requires
        tree.wf(),
        n < tree.len(),
    ensures
        r == repaired_at(*tree, n as int),
        r matches Some(at) ==> node_starts_at(*tree, at),
{
    if has_missing_separator(tree, n) {
        return match tree.child_by_field_name(n, "name") {
            Some(c) => Some(tree.rows[c].start),
            None => None,
        };
    }
    let scope = match tree.child_by_field_name(n, "scope") {
        Some(s) => s,
        None => {
            return None;
        },
    };
    let sep = match tree.child_of_kind(n, "::") {
        Some(s) => s,
        None => {
            return None;
        },
    };
    let from = tree.rows[scope].end;
    let to = tree.rows[sep].start;
    let mut k: usize = 0;
    while k < tree.kids[n].len()
        invariant
            tree.wf(),
            n < tree.len(),
            k <= tree.children(n as int).len(),
            error_within(*tree, n as int, from as int, to as int, 0) == error_within(
                *tree,
                n as int,
                from as int,
                to as int,
                k as int,
            ),
            repaired_at(*tree, n as int) == (match error_within(
                *tree,
                n as int,
                from as int,
                to as int,
                0,
            ) {
                Some(e) => Some(tree.rows@[e as int].start),
                None => None,
            }),
        decreases tree.children(n as int).len() - k,
    {
        let c = tree.kids[n][k];
        assert(c == tree.children(n as int)[k as int]);
        let start = tree.rows[c].start;
        if tree.kind_is(c, "ERROR") && from <= start && start < to {
            return Some(start);
        }
        k += 1;
    }
    None
}

/// Where the real name starts inside a qualified identifier that error recovery
/// invented, at whichever of its scopes the repair was made.
pub open spec fn fabricated_at(t: SyntaxTree, n: int) -> Option<usize>
    decreases t.len() - n,
    when t.wf() && 0 <= n < t.len()
    via fabricated_at_decreases
{
    match repaired_at(t, n) {
        Some(at) => Some(at),
        None => match inner_qualified(t, n) {
            Some(c) => fabricated_at(t, c as int),
            None => None,
        },
    }
}

#[via_fn]
proof fn fabricated_at_decreases(t: SyntaxTree, n: int) {
    t.lemma_fielded(n, "name"@);
}

/// Where the real name starts inside a qualified identifier that error recovery
/// invented, or `None` for an honest one. An unknown macro in front of a return
/// type leaves the parser to qualify the name with that type.
pub fn fabricated_qualified_name(tree: &SyntaxTree, node: usize) -> (r: Option<usize>)
    requires
        tree.wf(),
        node < tree.len(),
    ensures
        r == fabricated_at(*tree, node as int),
        r matches Some(at) ==> node_starts_at(*tree, at),
    decreases tree.len() - node,
{
    match find_repair(tree, node) {
        Some(at) => Some(at),
        None => match next_qualified(tree, node) {
            Some(c) => fabricated_qualified_name(tree, c),
            None => None,
        },
    }
}

/// The conversion operator a declarator is, or ends in.
pub open spec fn operator_cast_of(t: SyntaxTree, n: int) -> Option<usize>
    decreases t.len() - n,
    when t.wf() && 0 <= n < t.len()
    via operator_cast_of_decreases
{
    if t.spec_kind(n) == "qualified_identifier"@ {
        match t.fielded(n, "name"@) {
            Some(c) => operator_cast_of(t, c as int),
            None => None,
        }
    } else if t.spec_kind(n) == "operator_cast"@ {
        Some(n as usize)
    } else {
        None
    }
}

#[via_fn]
proof fn operator_cast_of_decreases(t: SyntaxTree, n: int) {
    t.lemma_fielded(n, "name"@);
}

/// The conversion operator a declarator is, or ends in: `operator T` for an
/// in-class definition, `A::B::operator T` for an out-of-class one.
pub fn declarator_operator_cast(tree: &SyntaxTree, node: usize) -> (r: Option<usize>)
    requires
        tree.wf(),
        node < tree.len(),
    ensures
        r == operator_cast_of(*tree, node as int),
        r matches Some(c) ==> node <= c < tree.len(),
    decreases tree.len() - node,
{
    if tree.kind_is(node, "qualified_identifier") {
        match tree.child_by_field_name(node, "name") {
            Some(c) => declarator_operator_cast(tree, c),
            None => None,
        }
    } else if tree.kind_is(node, "operator_cast") {
        Some(node)
    } else {
        None
    }
}

/// The name a qualified identifier declares.
pub open spec fn qualified_name(t: SyntaxTree, source: Seq<char>, n: int) -> Seq<char> {
    let start = t.rows@[n].start as int;
    let end = t.rows@[n].end as int;
    match chained_keyword(t, n) {
        Some(e) => {
            let scope = syntax::span_text(source, start, t.rows@[e as int].start as int);
            let target = syntax::span_text(source, t.rows@[e as int].end as int, end);
            normalize::qualified_text(scope) + "operator "@ + text::trim_start(
                normalize::spaced_text(target),
            )
        },
        None => {
            let from = match fabricated_at(t, n) {
                Some(at) => at as int,
                None => start,
            };
            match operator_cast_of(t, n) {
                Some(op) => normalize::qualified_text(
                    syntax::span_text(source, from, t.rows@[op as int].start as int),
                ) + conversion_text(t, source, op as int),
                None => normalize::qualified_text(syntax::span_text(source, from, end)),
            }
        },
    }
}

fn qualified_name_chars(source: &str, tree: &SyntaxTree, n: usize) -> (r: Vec<char>)
    requires
        tree.fits(source@),
        n < tree.len(),
    ensures
        r@ == qualified_name(*tree, source@, n as int),
{
    assert(syntax::in_text(tree@[n as int], source@));
    let start = tree.rows[n].start;
    let end = tree.rows[n].end;
    match find_chained_keyword(tree, n) {
        Some(e) => {
            assert(syntax::in_text(tree@[e as int], source@));
            let mut out = requalified(&span_chars(source, start, tree.rows[e].start));
            let target = respaced(&span_chars(source, tree.rows[e].end, end));
            append(&mut out, &chars_of("operator "));
            append(&mut out, &trimmed_start(&target));
            out
        },
        None => {
            let from = match fabricated_qualified_name(tree, n) {
                Some(at) => {
                    proof {
                        let c = choose|c: int|
                            0 <= c < tree.len() && (#[trigger] tree.rows@[c]).start == at;
                        assert(syntax::in_text(tree@[c], source@));
                    }
                    at
                },
                None => start,
            };
            match declarator_operator_cast(tree, n) {
                Some(op) => {
                    assert(syntax::in_text(tree@[op as int], source@));
                    let mut out = requalified(&span_chars(source, from, tree.rows[op].start));
                    append(&mut out, &conversion_chars(source, tree, op));
                    out
                },
                None => requalified(&span_chars(source, from, end)),
            }
        },
    }
}

/// The name a declarator declares, and whether it declares a pointer or a
/// reference.
pub open spec fn declared_name(t: SyntaxTree, source: Seq<char>, n: int) -> (Seq<char>, bool)
    decreases t.len() - n,
    when t.wf() && 0 <= n < t.len()
    via declared_name_decreases
{
    let kind = t.spec_kind(n);
    if kind == "identifier"@ {
        (t.text(source, n), false)
    } else if kind == "pointer_declarator"@ || kind == "reference_declarator"@ {
        match t.fielded_or_first(n, "declarator"@) {
            Some(c) => (declared_name(t, source, c as int).0, true),
            None => (Seq::empty(), true),
        }
    } else if kind == "qualified_identifier"@ {
        (qualified_name(t, source, n), false)
    } else if kind == "destructor_name"@ || kind == "operator_name"@ {
        (normalize::qualified_text(t.text(source, n)), false)
    } else if kind == "operator_cast"@ {
        (conversion_text(t, source, n), false)
    } else if kind == "parenthesized_declarator"@ {
        match t.named_first(n) {
            Some(c) => declared_name(t, source, c as int),
            None => (Seq::empty(), false),
        }
    } else {
        match t.fielded(n, "declarator"@) {
            Some(c) => declared_name(t, source, c as int),
            None => if kind == "function_declarator"@ || kind == "array_declarator"@ {
                (Seq::empty(), false)
            } else {
                (t.text(source, n), false)
            },
        }
    }
}

#[via_fn]
proof fn declared_name_decreases(t: SyntaxTree, source: Seq<char>, n: int) {
    t.lemma_fielded(n, "declarator"@);
    t.lemma_named(n);
}

/// The name a declarator declares, through its pointer, reference, function and
/// array layers, and whether its outermost layer is a pointer or a reference.
pub fn parse_declarator_name(source: &str, tree: &SyntaxTree, node: usize) -> (r: (String, bool))
    requires
        tree.fits(source@),
        node < tree.len(),
    ensures
        (r.0@, r.1) == declared_name(*tree, source@, node as int),
    decreases tree.len() - node,
{
    if tree.kind_is(node, "identifier") {
        (node_text(source, tree, node).to_owned(), false)
    } else if tree.kind_is(node, "pointer_declarator") || tree.kind_is(
        node,
        "reference_declarator",
    ) {
        match tree.field_or_first(node, "declarator") {
            Some(c) => {
                let (name, _) = parse_declarator_name(source, tree, c);
                (name, true)
            },
            None => (String::new(), true),
        }
    } else if tree.kind_is(node, "qualified_identifier") {
        (string_of(&qualified_name_chars(source, tree, node)), false)
    } else if tree.kind_is(node, "destructor_name") || tree.kind_is(node, "operator_name") {
        (string_of(&requalified(&chars_of(node_text(source, tree, node)))), false)
    } else if tree.kind_is(node, "operator_cast") {
        (conversion_operator_name(source, tree, node), false)
    } else if tree.kind_is(node, "parenthesized_declarator") {
        match tree.named_child(node, 0) {
            Some(c) => parse_declarator_name(source, tree, c),
            None => (String::new(), false),
        }
    } else {
        match tree.child_by_field_name(node, "declarator") {
            Some(c) => parse_declarator_name(source, tree, c),
            None => {
                if tree.kind_is(node, "function_declarator") || tree.kind_is(
                    node,
                    "array_declarator",
                ) {
                    (String::new(), false)
                } else {
                    (node_text(source, tree, node).to_owned(), false)
                }
            },
        }
    }
}

/// A function declarator whose own declarator is parenthesized or a pointer
/// declares a function pointer.
pub open spec fn function_pointer(t: SyntaxTree, n: int) -> bool {
    &&& t.spec_kind(n) == "function_declarator"@
    &&& t.fielded(n, "declarator"@) matches Some(c) && (t.spec_kind(c as int)
        == "parenthesized_declarator"@ || t.spec_kind(c as int) == "pointer_declarator"@)
}

pub fn is_function_pointer_declarator(tree: &SyntaxTree, decl: usize) -> (r: bool)
    requires
        tree.wf(),
        decl < tree.len(),
    ensures
        r == function_pointer(*tree, decl as int),
{
    if !tree.kind_is(decl, "function_declarator") {
        return false;
    }
    match tree.child_by_field_name(decl, "declarator") {
        Some(c) => tree.kind_is(c, "parenthesized_declarator") || tree.kind_is(
            c,
            "pointer_declarator",
        ),
        None => false,
    }
}

/// The function that a declarator chain declares below `n`, with the pointer
/// layers and references above it; `None` for variables.
pub open spec fn declared_function(
    t: SyntaxTree,
    n: int,
    depth: nat,
    reference: bool,
) -> Option<(usize, nat, bool)>
    decreases t.len() - n,
    when t.wf() && 0 <= n < t.len()
    via declared_function_decreases
{
    let kind = t.spec_kind(n);
    if kind == "pointer_declarator"@ {
        match t.fielded_or_first(n, "declarator"@) {
            Some(c) => declared_function(t, c as int, depth + 1, reference),
            None => None,
        }
    } else if kind == "parenthesized_declarator"@ || kind == "reference_declarator"@ {
        match t.named_first(n) {
            Some(c) => declared_function(
                t,
                c as int,
                depth,
                reference || kind == "reference_declarator"@,
            ),
            None => None,
        }
    } else if kind == "function_declarator"@ && !function_pointer(t, n) {
        Some((n as usize, depth, reference))
    } else {
        None
    }
}

#[via_fn]
proof fn declared_function_decreases(t: SyntaxTree, n: int, depth: nat, reference: bool) {
    t.lemma_fielded(n, "declarator"@);
    t.lemma_named(n);
}

fn function_below(tree: &SyntaxTree, decl: usize, depth: usize, reference: bool) -> (r: Option<
    (usize, usize, bool),
>)
    requires
        tree.wf(),
        decl < tree.len(),
        depth <= decl,
    ensures
        match r {
            Some((f, d, b)) => declared_function(*tree, decl as int, depth as nat, reference) == Some(
                (f, d as nat, b),
            ) && decl <= f < tree.len(),
            None => declared_function(*tree, decl as int, depth as nat, reference) is None,
        },
    decreases tree.len() - decl,
{
    if tree.kind_is(decl, "pointer_declarator") {
        match tree.field_or_first(decl, "declarator") {
            Some(c) => function_below(tree, c, depth + 1, reference),
            None => None,
        }
    } else if tree.kind_is(decl, "parenthesized_declarator") || tree.kind_is(
        decl,
        "reference_declarator",
    ) {
        let is_reference = tree.kind_is(decl, "reference_declarator");
        match tree.named_child(decl, 0) {
            Some(c) => function_below(tree, c, depth, reference || is_reference),
            None => None,
        }
    } else if tree.kind_is(decl, "function_declarator") && !is_function_pointer_declarator(
        tree,
        decl,
    ) {
        Some((decl, depth, reference))
    } else {
        None
    }
}

/// If `decl` denotes a function whose declarator chain starts with pointer
/// levels (`T *f(...)`), the innermost `function_declarator`, the number of
/// pointer levels, and whether a reference layer sits above it. Variables
/// (plain pointers, arrays, function-pointer variables) yield `None`.
pub fn fn_decl_under_pointer(tree: &SyntaxTree, decl: usize) -> (r: Option<(usize, usize, bool)>)
    requires
        tree.wf(),
        decl < tree.len(),
    ensures
        match r {
            Some((f, d, b)) => declared_function(*tree, decl as int, 0, false) == Some(
                (f, d as nat, b),
            ) && decl <= f < tree.len(),
            None => declared_function(*tree, decl as int, 0, false) is None,
        },
{
    function_below(tree, decl, 0, false)
}

/// A function type that lists no parameters.
pub open spec fn bare_fn_ptr(ret: DescView) -> DescView {
    DescView::FnPtr { ret: Box::new(ret), params: Seq::empty() }
}

/// The declarator below the pointer that a function declarator parenthesizes:
/// of `(*Name)(...)`, what the pointer applies to.
pub open spec fn pointed_under(t: SyntaxTree, n: int) -> Option<usize> {
    match t.fielded(n, "declarator"@) {
        Some(c) => {
            let peeled = if t.spec_kind(c as int) == "parenthesized_declarator"@ {
                t.named_first(c as int)
            } else {
                Some(c)
            };
            match peeled {
                Some(p) => if t.spec_kind(p as int) == "pointer_declarator"@ {
                    t.fielded(p as int, "declarator"@)
                } else {
                    None
                },
                None => None,
            }
        },
        None => None,
    }
}

pub proof fn lemma_pointed_under(t: SyntaxTree, n: int)
    requires
        t.wf(),
        0 <= n < t.len(),
    ensures
        pointed_under(t, n) matches Some(u) ==> n < u < t.len(),
{
    t.lemma_fielded(n, "declarator"@);
    match t.fielded(n, "declarator"@) {
        Some(c) => {
            t.lemma_named(c as int);
            t.lemma_fielded(c as int, "declarator"@);
            if t.named_first(c as int) is Some {
                t.lemma_fielded(t.named_first(c as int)->0 as int, "declarator"@);
            }
        },
        None => {},
    }
}

fn find_pointed_under(tree: &SyntaxTree, n: usize) -> (r: Option<usize>)
    requires
        tree.wf(),
        n < tree.len(),
    ensures
        r == pointed_under(*tree, n as int),
        r matches Some(u) ==> n < u < tree.len(),
{
    let c = match tree.child_by_field_name(n, "declarator") {
        Some(c) => c,
        None => {
            return None;
        },
    };
    let peeled: Option<usize> = if tree.kind_is(c, "parenthesized_declarator") {
        tree.named_child(c, 0)
    } else {
        Some(c)
    };
    match peeled {
        Some(p) => if tree.kind_is(p, "pointer_declarator") {
            tree.child_by_field_name(p, "declarator")
        } else {
            None
        },
        None => None,
    }
}

/// `base` in the pointer, array and function layers of the declarator `n`.
pub open spec fn shaped(t: SyntaxTree, n: int, base: DescView) -> DescView
    decreases t.len() - n,
    when t.wf() && 0 <= n < t.len()
    via shaped_decreases
{
    let kind = t.spec_kind(n);
    let inner = t.fielded(n, "declarator"@);
    if kind == "pointer_declarator"@ {
        DescView::Ptr(
            Box::new(
                match inner {
                    Some(c) => shaped(t, c as int, base),
                    None => base,
                },
            ),
        )
    } else if kind == "array_declarator"@ {
        DescView::Array {
            elem: Box::new(
                match inner {
                    Some(c) => shaped(t, c as int, base),
                    None => base,
                },
            ),
            size: None,
        }
    } else if kind == "function_declarator"@ {
        match pointed_under(t, n) {
            Some(under) => DescView::Ptr(Box::new(bare_fn_ptr(shaped(t, under as int, base)))),
            None => bare_fn_ptr(
                match inner {
                    Some(c) => shaped(t, c as int, base),
                    None => base,
                },
            ),
        }
    } else if kind == "parenthesized_declarator"@ {
        match t.named_first(n) {
            Some(c) => shaped(t, c as int, base),
            None => base,
        }
    } else {
        base
    }
}

#[via_fn]
proof fn shaped_decreases(t: SyntaxTree, n: int, base: DescView) {
    t.lemma_fielded(n, "declarator"@);
    t.lemma_named(n);
    lemma_pointed_under(t, n);
}

/// The type a declarator declares over `base`. The pointer of
/// `void (*Name)(...)` sits inside the parentheses, so it binds first and the
/// declared name is a pointer to a function.
pub fn walk_declarator_shape(tree: &SyntaxTree, node: usize, base: TypeDesc) -> (r: TypeDesc)
    requires
        tree.wf(),
        node < tree.len(),
    ensures
        r@ == shaped(*tree, node as int, base@),
    decreases tree.len() - node,
{
    if tree.kind_is(node, "pointer_declarator") {
        let inner = match tree.child_by_field_name(node, "declarator") {
            Some(c) => walk_declarator_shape(tree, c, base),
            None => base,
        };
        TypeDesc::Ptr(Box::new(inner))
    } else if tree.kind_is(node, "array_declarator") {
        let inner = match tree.child_by_field_name(node, "declarator") {
            Some(c) => walk_declarator_shape(tree, c, base),
            None => base,
        };
        TypeDesc::Array { elem: Box::new(inner), size: None }
    } else if tree.kind_is(node, "function_declarator") {
        match find_pointed_under(tree, node) {
            Some(under) => {
                let ret = walk_declarator_shape(tree, under, base);
                TypeDesc::Ptr(Box::new(fn_ptr_to(ret)))
            },
            None => {
                let ret = match tree.child_by_field_name(node, "declarator") {
                    Some(c) => walk_declarator_shape(tree, c, base),
                    None => base,
                };
                fn_ptr_to(ret)
            },
        }
    } else if tree.kind_is(node, "parenthesized_declarator") {
        match tree.named_child(node, 0) {
            Some(c) => walk_declarator_shape(tree, c, base),
            None => base,
        }
    } else {
        base
    }
}

/// `desc` in the layers of the abstract declarator `n`. A function layer with
/// nothing nested is the function type itself where `bare` says so.
pub open spec fn abstract_shaped(t: SyntaxTree, desc: DescView, n: int, bare: bool) -> DescView
    decreases t.len() - n,
    when t.wf() && 0 <= n < t.len()
    via abstract_shaped_decreases
{
    let kind = t.spec_kind(n);
    let inner = t.fielded(n, "declarator"@);
    if kind == "abstract_pointer_declarator"@ || kind == "abstract_reference_declarator"@ {
        let layered = DescView::Ptr(Box::new(desc));
        match t.fielded_or_first(n, "declarator"@) {
            Some(c) => abstract_shaped(t, layered, c as int, bare),
            None => layered,
        }
    } else if kind == "abstract_parenthesized_declarator"@ {
        match t.named_first(n) {
            Some(c) => abstract_shaped(t, desc, c as int, bare),
            None => desc,
        }
    } else if kind == "abstract_array_declarator"@ {
        let layered = DescView::Array { elem: Box::new(desc), size: None };
        match inner {
            Some(c) => abstract_shaped(t, layered, c as int, bare),
            None => layered,
        }
    } else if kind == "abstract_function_declarator"@ {
        match inner {
            Some(c) => abstract_shaped(t, bare_fn_ptr(desc), c as int, bare),
            None => if bare {
                bare_fn_ptr(desc)
            } else {
                desc
            },
        }
    } else {
        desc
    }
}

#[via_fn]
proof fn abstract_shaped_decreases(t: SyntaxTree, desc: DescView, n: int, bare: bool) {
    t.lemma_fielded(n, "declarator"@);
    t.lemma_named(n);
}

/// `desc` wrapped in the pointer, reference and function layers of an abstract
/// declarator (`T *`, `void (*)(int)`). A function declarator with nothing
/// nested is the function type itself when `bare_function_is_type`
/// (`using F = void(int);`), and the declaring member's own parameter list
/// otherwise (`operator T *()`).
pub fn abstract_declarator_shape(
    tree: &SyntaxTree,
    desc: TypeDesc,
    declarator: Option<usize>,
    bare_function_is_type: bool,
) -> (r: TypeDesc)
    requires
        tree.wf(),
        declarator matches Some(d) ==> d < tree.len(),
    ensures
        match declarator {
            Some(d) => r@ == abstract_shaped(*tree, desc@, d as int, bare_function_is_type),
            None => r@ == desc@,
        },
    decreases tree.len() - (match declarator {
        Some(d) => d as int,
        None => tree.len(),
    }),
{
    let n = match declarator {
        Some(d) => d,
        None => {
            return desc;
        },
    };
    if tree.kind_is(n, "abstract_pointer_declarator") || tree.kind_is(
        n,
        "abstract_reference_declarator",
    ) {
        let layered = TypeDesc::Ptr(Box::new(desc));
        let next = tree.field_or_first(n, "declarator");
        abstract_declarator_shape(tree, layered, next, bare_function_is_type)
    } else if tree.kind_is(n, "abstract_parenthesized_declarator") {
        let next = tree.named_child(n, 0);
        abstract_declarator_shape(tree, desc, next, bare_function_is_type)
    } else if tree.kind_is(n, "abstract_array_declarator") {
        let layered = TypeDesc::Array { elem: Box::new(desc), size: None };
        let next = tree.child_by_field_name(n, "declarator");
        abstract_declarator_shape(tree, layered, next, bare_function_is_type)
    } else if tree.kind_is(n, "abstract_function_declarator") {
        match tree.child_by_field_name(n, "declarator") {
            Some(c) => abstract_declarator_shape(
                tree,
                fn_ptr_to(desc),
                Some(c),
                bare_function_is_type,
            ),
            None => if bare_function_is_type {
                fn_ptr_to(desc)
            } else {
                desc
            },
        }
    } else {
        desc
    }
}

/// How many `*` stand before the name that `n` declares.
pub open spec fn pointers_above(t: SyntaxTree, n: int) -> nat
    decreases t.len() - n,
    when t.wf() && 0 <= n < t.len()
    via pointers_above_decreases
{
    let here: nat = if t.spec_kind(n) == "pointer_declarator"@ {
        1
    } else {
        0
    };
    match next_layer(t, n) {
        Some(c) => here + pointers_above(t, c as int),
        None => here,
    }
}

/// The declarator one layer in.
pub open spec fn next_layer(t: SyntaxTree, n: int) -> Option<usize> {
    match t.fielded(n, "declarator"@) {
        Some(c) => Some(c),
        None => if t.spec_kind(n) == "reference_declarator"@ || t.spec_kind(n)
            == "parenthesized_declarator"@ {
            t.named_first(n)
        } else {
            None
        },
    }
}

#[via_fn]
proof fn pointers_above_decreases(t: SyntaxTree, n: int) {
    t.lemma_fielded(n, "declarator"@);
    t.lemma_named(n);
}

/// How many `*` a declarator puts in front of its name, through references and
/// parentheses (`**p`, `*&p`).
pub fn declarator_pointer_depth(tree: &SyntaxTree, decl: usize) -> (r: usize)
    requires
        tree.wf(),
        decl < tree.len(),
    ensures
        r == pointers_above(*tree, decl as int),
        r <= tree.len() - decl,
    decreases tree.len() - decl,
{
    let next = match tree.child_by_field_name(decl, "declarator") {
        Some(c) => Some(c),
        None => if tree.kind_is(decl, "reference_declarator") || tree.kind_is(
            decl,
            "parenthesized_declarator",
        ) {
            tree.named_child(decl, 0)
        } else {
            None
        },
    };
    let below: usize = match next {
        Some(c) => declarator_pointer_depth(tree, c),
        None => 0,
    };
    assert(tree.rows@.len() == tree.rows.len());
    if tree.kind_is(decl, "pointer_declarator") {
        below + 1
    } else {
        below
    }
}

/// The declarator is a pointer, under its function, parenthesis and array
/// layers.
pub open spec fn pointer_declared(t: SyntaxTree, n: int) -> bool
    decreases t.len() - n,
    when t.wf() && 0 <= n < t.len()
    via pointer_declared_decreases
{
    let kind = t.spec_kind(n);
    if kind == "pointer_declarator"@ {
        true
    } else if kind == "function_declarator"@ || kind == "parenthesized_declarator"@ || kind
        == "array_declarator"@ {
        match t.fielded(n, "declarator"@) {
            Some(c) => pointer_declared(t, c as int),
            None => false,
        }
    } else {
        false
    }
}

#[via_fn]
proof fn pointer_declared_decreases(t: SyntaxTree, n: int) {
    t.lemma_fielded(n, "declarator"@);
}

pub fn declarator_is_pointer(tree: &SyntaxTree, decl: usize) -> (r: bool)
    requires
        tree.wf(),
        decl < tree.len(),
    ensures
        r == pointer_declared(*tree, decl as int),
    decreases tree.len() - decl,
{
    if tree.kind_is(decl, "pointer_declarator") {
        true
    } else if tree.kind_is(decl, "function_declarator") || tree.kind_is(
        decl,
        "parenthesized_declarator",
    ) || tree.kind_is(decl, "array_declarator") {
        match tree.child_by_field_name(decl, "declarator") {
            Some(c) => declarator_is_pointer(tree, c),
            None => false,
        }
    } else {
        false
    }
}

/// The declarator chain bottoms out in a function pointer.
pub open spec fn pointer_to_function(t: SyntaxTree, n: int) -> bool
    decreases t.len() - n,
    when t.wf() && 0 <= n < t.len()
    via pointer_to_function_decreases
{
    let kind = t.spec_kind(n);
    if kind == "pointer_declarator"@ || kind == "parenthesized_declarator"@ {
        match t.fielded_or_first(n, "declarator"@) {
            Some(c) => pointer_to_function(t, c as int),
            None => false,
        }
    } else {
        function_pointer(t, n)
    }
}

#[via_fn]
proof fn pointer_to_function_decreases(t: SyntaxTree, n: int) {
    t.lemma_fielded(n, "declarator"@);
    t.lemma_named(n);
}

/// True when the declarator chain (through any number of pointer and
/// parenthesized levels) bottoms out in a function declarator, as
/// `T * (*Ref)(args)` does.
pub fn declarator_is_pointer_to_fn(tree: &SyntaxTree, decl: usize) -> (r: bool)
    requires
        tree.wf(),
        decl < tree.len(),
    ensures
        r == pointer_to_function(*tree, decl as int),
    decreases tree.len() - decl,
{
    if tree.kind_is(decl, "pointer_declarator") || tree.kind_is(decl, "parenthesized_declarator") {
        match tree.field_or_first(decl, "declarator") {
            Some(c) => declarator_is_pointer_to_fn(tree, c),
            None => false,
        }
    } else {
        is_function_pointer_declarator(tree, decl)
    }
}

/// The type of the field that `n` declares over `base`: a function pointer, a
/// pointer, or the type itself.
pub open spec fn field_desc(t: SyntaxTree, n: int, base: DescView) -> DescView {
    if function_pointer(t, n) || pointer_to_function(t, n) {
        bare_fn_ptr(base)
    } else if pointer_declared(t, n) {
        DescView::Ptr(Box::new(base))
    } else {
        base
    }
}

/// The type of a declared field over its base type. A pointer-wrapped function
/// declarator is a function pointer too: as a plain pointer it would reject the
/// functions stored into it.
pub fn field_type(tree: &SyntaxTree, decl: usize, base: TypeDesc) -> (r: TypeDesc)
    requires
        tree.wf(),
        decl < tree.len(),
    ensures
        r@ == field_desc(*tree, decl as int, base@),
{
    if is_function_pointer_declarator(tree, decl) || declarator_is_pointer_to_fn(tree, decl) {
        fn_ptr_to(base)
    } else if declarator_is_pointer(tree, decl) {
        TypeDesc::Ptr(Box::new(base))
    } else {
        base
    }
}

/// Some node at or below `n` is an array declarator.
pub open spec fn array_declared(t: SyntaxTree, n: int) -> bool
    decreases t.len() - n,
    when t.wf() && 0 <= n < t.len()
{
    t.spec_kind(n) == "array_declarator"@ || exists|k: int|
        0 <= k < t.children(n).len() && array_declared(t, #[trigger] t.children(n)[k] as int)
}

pub fn declarator_is_array(tree: &SyntaxTree, decl: usize) -> (r: bool)
    requires
        tree.wf(),
        decl < tree.len(),
    ensures
        r == array_declared(*tree, decl as int),
    decreases tree.len() - decl,
{
    if tree.kind_is(decl, "array_declarator") {
        return true;
    }
    let mut k: usize = 0;
    while k < tree.kids[decl].len()
        invariant
            tree.wf(),
            decl < tree.len(),
            k <= tree.children(decl as int).len(),
            tree.spec_kind(decl as int) != "array_declarator"@,
            forall|j: int|
                0 <= j < k ==> !array_declared(
                    *tree,
                    #[trigger] tree.children(decl as int)[j] as int,
                ),
        decreases tree.children(decl as int).len() - k,
    {
        let c = tree.kids[decl][k];
        assert(c == tree.children(decl as int)[k as int]);
        if declarator_is_array(tree, c) {
            return true;
        }
        k += 1;
    }
    false
}

/// The first function declarator at or below `n`, in source order.
pub open spec fn first_function(t: SyntaxTree, n: int) -> Option<usize>
    decreases t.len() - n, t.children(n).len() + 1,
    when t.wf() && 0 <= n < t.len()
{
    if t.spec_kind(n) == "function_declarator"@ {
        Some(n as usize)
    } else {
        first_function_from(t, n, 0)
    }
}

/// The first function declarator below the children of `n` from position `k`.
pub open spec fn first_function_from(t: SyntaxTree, n: int, k: int) -> Option<usize>
    decreases t.len() - n, t.children(n).len() - k,
    when t.wf() && 0 <= n < t.len()
{
    if k < 0 || k >= t.children(n).len() {
        None
    } else {
        match first_function(t, t.children(n)[k] as int) {
            Some(f) => Some(f),
            None => first_function_from(t, n, k + 1),
        }
    }
}

pub fn find_function_declarator(tree: &SyntaxTree, node: usize) -> (r: Option<usize>)
    requires
        tree.wf(),
        node < tree.len(),
    ensures
        r == first_function(*tree, node as int),
        r matches Some(f) ==> node <= f < tree.len(),
    decreases tree.len() - node,
{
    if tree.kind_is(node, "function_declarator") {
        return Some(node);
    }
    let mut k: usize = 0;
    while k < tree.kids[node].len()
        invariant
            tree.wf(),
            node < tree.len(),
            k <= tree.children(node as int).len(),
            first_function(*tree, node as int) == first_function_from(*tree, node as int, k as int),
        decreases tree.children(node as int).len() - k,
    {
        let c = tree.kids[node][k];
        assert(c == tree.children(node as int)[k as int]);
        match find_function_declarator(tree, c) {
            Some(f) => {
                return Some(f);
            },
            None => {},
        }
        k += 1;
    }
    None
}

/// The parameter list of the first function declarator at or below `n` that
/// has one.
pub open spec fn params_of(t: SyntaxTree, n: int) -> Option<usize>
    decreases t.len() - n, t.children(n).len() + 1,
    when t.wf() && 0 <= n < t.len()
{
    if t.spec_kind(n) == "function_declarator"@ {
        t.fielded(n, "parameters"@)
    } else {
        params_of_from(t, n, 0)
    }
}

pub open spec fn params_of_from(t: SyntaxTree, n: int, k: int) -> Option<usize>
    decreases t.len() - n, t.children(n).len() - k,
    when t.wf() && 0 <= n < t.len()
{
    if k < 0 || k >= t.children(n).len() {
        None
    } else {
        match params_of(t, t.children(n)[k] as int) {
            Some(p) => Some(p),
            None => params_of_from(t, n, k + 1),
        }
    }
}

/// The parameter list that a declarator carries.
pub fn find_params(tree: &SyntaxTree, decl: usize) -> (r: Option<usize>)
    requires
        tree.wf(),
        decl < tree.len(),
    ensures
        r == params_of(*tree, decl as int),
        r matches Some(p) ==> decl < p < tree.len(),
    decreases tree.len() - decl,
{
    if tree.kind_is(decl, "function_declarator") {
        return tree.child_by_field_name(decl, "parameters");
    }
    let mut k: usize = 0;
    while k < tree.kids[decl].len()
        invariant
            tree.wf(),
            decl < tree.len(),
            k <= tree.children(decl as int).len(),
            params_of(*tree, decl as int) == params_of_from(*tree, decl as int, k as int),
        decreases tree.children(decl as int).len() - k,
    {
        let c = tree.kids[decl][k];
        assert(c == tree.children(decl as int)[k as int]);
        match find_params(tree, c) {
            Some(p) => {
                return Some(p);
            },
            None => {},
        }
        k += 1;
    }
    None
}

} // verus!
