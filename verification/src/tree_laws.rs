//! What is found in a syntax tree: the children by field, kind and place.

use crate::syntax::SyntaxTree;
use vstd::prelude::*;

verus! {

/// The first child of `n` that the property holds of, and no other, is `c`.
pub open spec fn is_first(t: SyntaxTree, n: int, c: usize, p: spec_fn(int) -> bool) -> bool {
    exists|i: int|
        0 <= i < t.children(n).len() && #[trigger] t.children(n)[i] == c && p(c as int) && forall|
            j: int,
        |
            0 <= j < i ==> !p(#[trigger] t.children(n)[j] as int)
}

pub open spec fn has_none(t: SyntaxTree, n: int, p: spec_fn(int) -> bool) -> bool {
    forall|j: int| 0 <= j < t.children(n).len() ==> !p(#[trigger] t.children(n)[j] as int)
}

/// The child that fills a field of `n`.
pub open spec fn fills_field(t: SyntaxTree, n: int, name: Seq<char>, c: usize) -> bool {
    is_first(t, n, c, |m: int| t.rows@[m].field is Some && t.rows@[m].field->0@ == name)
}

proof fn lemma_fielded_from(t: SyntaxTree, n: int, name: Seq<char>, k: int)
    requires
        0 <= k <= t.children(n).len(),
    ensures
        ({
            let p = |m: int| t.rows@[m].field is Some && t.rows@[m].field->0@ == name;
            match t.fielded_from(n, name, k) {
                Some(c) => exists|i: int|
                    k <= i < t.children(n).len() && #[trigger] t.children(n)[i] == c && p(c as int)
                        && forall|j: int| k <= j < i ==> !p(#[trigger] t.children(n)[j] as int),
                None => forall|j: int|
                    k <= j < t.children(n).len() ==> !p(#[trigger] t.children(n)[j] as int),
            }
        }),
    decreases t.children(n).len() - k,
{
    let p = |m: int| t.rows@[m].field is Some && t.rows@[m].field->0@ == name;
    if k < t.children(n).len() {
        if p(t.children(n)[k] as int) {
            assert(t.children(n)[k] == t.children(n)[k]);
        } else {
            lemma_fielded_from(t, n, name, k + 1);
            if let Some(c) = t.fielded_from(n, name, k + 1) {
                let i = choose|i: int|
                    k + 1 <= i < t.children(n).len() && #[trigger] t.children(n)[i] == c && p(
                        c as int,
                    ) && forall|j: int|
                        k + 1 <= j < i ==> !p(#[trigger] t.children(n)[j] as int);
                assert(t.children(n)[i] == c);
            }
        }
    }
}

/// A child is found by its field just where it is the first that fills it.
pub proof fn law_fields_find_the_child_that_fills_them(
    t: SyntaxTree,
    n: int,
    name: Seq<char>,
)
    ensures
        t.fielded(n, name) matches Some(c) ==> fills_field(t, n, name, c),
        t.fielded(n, name) is None ==> has_none(
            t,
            n,
            |m: int| t.rows@[m].field is Some && t.rows@[m].field->0@ == name,
        ),
{
    lemma_fielded_from(t, n, name, 0);
}

pub proof fn lemma_first_is_one(t: SyntaxTree, n: int, name: Seq<char>, c: usize)
    requires
        fills_field(t, n, name, c),
    ensures
        t.fielded(n, name) == Some(c),
{
    law_fields_find_the_child_that_fills_them(t, n, name);
    let p = |m: int| t.rows@[m].field is Some && t.rows@[m].field->0@ == name;
    let i = choose|i: int|
        0 <= i < t.children(n).len() && #[trigger] t.children(n)[i] == c && p(c as int) && forall|
            j: int,
        |
            0 <= j < i ==> !p(#[trigger] t.children(n)[j] as int);
    assert(p(t.children(n)[i] as int));
    assert(t.fielded(n, name) is Some);
    let d = t.fielded(n, name)->0;
    let k = choose|k: int|
        0 <= k < t.children(n).len() && #[trigger] t.children(n)[k] == d && p(d as int) && forall|
            j: int,
        |
            0 <= j < k ==> !p(#[trigger] t.children(n)[j] as int);
    if k < i {
        assert(!p(t.children(n)[k] as int));
    }
    if i < k {
        assert(!p(t.children(n)[i] as int));
    }
}

proof fn lemma_of_kind_from(t: SyntaxTree, n: int, kind: Seq<char>, k: int)
    requires
        0 <= k <= t.children(n).len(),
    ensures
        ({
            let p = |m: int| t.rows@[m].kind@ == kind;
            match t.of_kind_from(n, kind, k) {
                Some(c) => exists|i: int|
                    k <= i < t.children(n).len() && #[trigger] t.children(n)[i] == c && p(c as int)
                        && forall|j: int| k <= j < i ==> !p(#[trigger] t.children(n)[j] as int),
                None => forall|j: int|
                    k <= j < t.children(n).len() ==> !p(#[trigger] t.children(n)[j] as int),
            }
        }),
    decreases t.children(n).len() - k,
{
    let p = |m: int| t.rows@[m].kind@ == kind;
    if k < t.children(n).len() {
        if p(t.children(n)[k] as int) {
            assert(t.children(n)[k] == t.children(n)[k]);
        } else {
            lemma_of_kind_from(t, n, kind, k + 1);
            if let Some(c) = t.of_kind_from(n, kind, k + 1) {
                let i = choose|i: int|
                    k + 1 <= i < t.children(n).len() && #[trigger] t.children(n)[i] == c && p(
                        c as int,
                    ) && forall|j: int|
                        k + 1 <= j < i ==> !p(#[trigger] t.children(n)[j] as int);
                assert(t.children(n)[i] == c);
            }
        }
    }
}

/// A child is found by its kind just where it is the first of it.
pub proof fn law_kinds_find_the_first_child_of_them(t: SyntaxTree, n: int, kind: Seq<char>)
    ensures
        t.of_kind(n, kind) matches Some(c) ==> is_first(
            t,
            n,
            c,
            |m: int| t.rows@[m].kind@ == kind,
        ),
        t.of_kind(n, kind) is None ==> has_none(t, n, |m: int| t.rows@[m].kind@ == kind),
{
    lemma_of_kind_from(t, n, kind, 0);
}

/// The named children are the children that are named, in order, and the first of
/// them is the first child that is.
pub proof fn law_named_children_are_the_named_ones(t: SyntaxTree, n: int)
    ensures
        forall|i: int|
            0 <= i < t.named(n).len() ==> t.rows@[#[trigger] t.named(n)[i] as int].is_named
                && t.children(n).contains(t.named(n)[i]),
        forall|j: int|
            0 <= j < t.children(n).len() && t.rows@[#[trigger] t.children(n)[j] as int].is_named
                ==> t.named(n).contains(t.children(n)[j]),
        t.named_first(n) matches Some(c) ==> t.rows@[c as int].is_named && t.named(n)[0] == c,
        t.named_first(n) is None ==> t.named(n).len() == 0,
{
    let p = |c: usize| t.rows@[c as int].is_named;
    t.children(n).filter_lemma(p);
    assert forall|i: int| 0 <= i < t.named(n).len() implies t.children(n).contains(
        #[trigger] t.named(n)[i],
    ) by {
        t.children(n).lemma_filter_contains_rev(p, t.named(n)[i]);
    }
    assert forall|j: int|
        0 <= j < t.children(n).len() && t.rows@[#[trigger] t.children(n)[j] as int].is_named implies t.named(
        n,
    ).contains(t.children(n)[j]) by {
        t.children(n).lemma_filter_contains(p, j);
    }
}

/// The named neighbours of a node are the nearest named ones of its parent on either
/// side.
pub proof fn law_neighbours_are_the_nearest(t: SyntaxTree, n: int)
    requires
        t.wf(),
        0 <= n < t.len(),
    ensures
        t.next_named(n) matches Some(m) ==> m > n && t.spec_parent(n) is Some && t.named(
            t.spec_parent(n)->0 as int,
        ).contains(m),
        t.prev_named(n) matches Some(m) ==> m < n && t.spec_parent(n) is Some && t.named(
            t.spec_parent(n)->0 as int,
        ).contains(m),
        t.next_named(n) is None && t.spec_parent(n) is Some ==> forall|i: int|
            0 <= i < t.named(t.spec_parent(n)->0 as int).len() ==> #[trigger] t.named(
                t.spec_parent(n)->0 as int,
            )[i] <= n,
        t.prev_named(n) is None && t.spec_parent(n) is Some ==> forall|i: int|
            0 <= i < t.named(t.spec_parent(n)->0 as int).len() ==> #[trigger] t.named(
                t.spec_parent(n)->0 as int,
            )[i] >= n,
{
    if let Some(p) = t.spec_parent(n) {
        let nodes = t.named(p as int);
        lemma_first_after(nodes, n, 0);
        lemma_last_before(nodes, n, nodes.len() as int);
    }
}

proof fn lemma_first_after(nodes: Seq<usize>, n: int, k: int)
    requires
        0 <= k <= nodes.len(),
    ensures
        match crate::syntax::first_after(nodes, n, k) {
            Some(m) => m > n && nodes.contains(m),
            None => forall|i: int| k <= i < nodes.len() ==> #[trigger] nodes[i] <= n,
        },
    decreases nodes.len() - k,
{
    if k < nodes.len() {
        lemma_first_after(nodes, n, k + 1);
        assert(nodes.contains(nodes[k]));
    }
}

proof fn lemma_last_before(nodes: Seq<usize>, n: int, k: int)
    requires
        0 <= k <= nodes.len(),
    ensures
        match crate::syntax::last_before(nodes, n, k) {
            Some(m) => m < n && nodes.contains(m),
            None => forall|i: int| 0 <= i < k ==> #[trigger] nodes[i] >= n,
        },
    decreases k,
{
    if k > 0 {
        lemma_last_before(nodes, n, k - 1);
        assert(nodes.contains(nodes[k - 1]));
    }
}

/// The declaration around a node is the nearest one that holds it.
pub proof fn law_the_declaration_around_a_node_is_the_nearest(
    t: SyntaxTree,
    n: int,
    functions: bool,
)
    requires
        t.wf(),
        0 <= n < t.len(),
    ensures
        t.declares(n, functions) ==> t.declaration_of(n, functions) == Some(n as usize),
        !t.declares(n, functions) && t.spec_parent(n) is Some ==> t.declaration_of(n, functions)
            == t.declaration_of(t.spec_parent(n)->0 as int, functions),
        !t.declares(n, functions) && t.spec_parent(n) is None ==> t.declaration_of(n, functions)
            is None,
        t.spec_kind(n) == "declaration"@ || t.spec_kind(n) == "field_declaration"@ ==> t.declares(
            n,
            functions,
        ),
        t.declares(n, false) ==> t.declares(n, true),
        t.spec_kind(n) == "function_definition"@ ==> t.declares(n, true),
{
}

} // verus!
