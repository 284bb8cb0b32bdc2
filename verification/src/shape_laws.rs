//! What declarators declare: the shapes they give a type, and the names they carry.

use crate::declarator;
use crate::ir::DescView;
use crate::syntax::SyntaxTree;
use crate::tree_laws;
use vstd::prelude::*;

verus! {

pub proof fn lemma_layers()
    ensures
        "pointer_declarator"@.len() == 18,
        "array_declarator"@.len() == 16,
        "function_declarator"@.len() == 19,
        "parenthesized_declarator"@.len() == 24,
        "reference_declarator"@.len() == 20,
        "reference_declarator"@[0] == 'r',
        "qualified_identifier"@.len() == 20,
        "qualified_identifier"@[0] == 'q',
        "identifier"@.len() == 10,
        "type_identifier"@.len() == 15,
        "type_identifier"@[0] == 't',
        "destructor_name"@.len() == 15,
        "destructor_name"@[0] == 'd',
        "field_identifier"@.len() == 16,
        "field_identifier"@[0] == 'f',
        "array_declarator"@[0] == 'a',
        "operator_name"@.len() == 13,
        "operator_name"@[9] == 'n',
        "operator_cast"@.len() == 13,
        "operator_cast"@[9] == 'c',
        "abstract_pointer_declarator"@.len() == 27,
        "abstract_reference_declarator"@.len() == 29,
        "abstract_parenthesized_declarator"@.len() == 33,
        "abstract_array_declarator"@.len() == 25,
        "abstract_function_declarator"@.len() == 28,
{
    reveal_strlit("pointer_declarator");
    reveal_strlit("array_declarator");
    reveal_strlit("function_declarator");
    reveal_strlit("parenthesized_declarator");
    reveal_strlit("reference_declarator");
    reveal_strlit("qualified_identifier");
    reveal_strlit("identifier");
    reveal_strlit("type_identifier");
    reveal_strlit("destructor_name");
    reveal_strlit("field_identifier");
    reveal_strlit("operator_name");
    reveal_strlit("operator_cast");
    reveal_strlit("abstract_pointer_declarator");
    reveal_strlit("abstract_reference_declarator");
    reveal_strlit("abstract_parenthesized_declarator");
    reveal_strlit("abstract_array_declarator");
    reveal_strlit("abstract_function_declarator");
}

/// The node is a layer of the kind around the declarator `c`.
pub open spec fn is_layer(t: SyntaxTree, n: int, kind: Seq<char>, c: usize) -> bool {
    t.rows@[n].kind@ == kind && tree_laws::fills_field(t, n, "declarator"@, c)
}

/// The node is a pair of parentheses around the declarator `c`.
pub open spec fn is_parens(t: SyntaxTree, n: int, kind: Seq<char>, c: usize) -> bool {
    t.rows@[n].kind@ == kind && t.named(n).len() > 0 && t.named(n)[0] == c
}

/// The node is a plain name: of a variable, a member or a type.
pub open spec fn is_plain_name(t: SyntaxTree, n: int) -> bool {
    let kind = t.rows@[n].kind@;
    kind == "identifier"@ || kind == "field_identifier"@ || kind == "type_identifier"@
}

/// The type that a declarator declares: a name declares the base itself, `*d` a pointer
/// to what `d` declares, `d[]` an array of it, `d(...)` a function that gives it, and
/// parentheses around `d` change nothing.
pub proof fn law_declarators_shape_the_type(t: SyntaxTree, n: int, base: DescView, c: usize)
    requires
        t.wf(),
        0 <= n < t.len(),
    ensures
        is_plain_name(t, n) ==> declarator::shaped(t, n, base) == base,
        is_layer(t, n, "pointer_declarator"@, c) ==> declarator::shaped(t, n, base)
            == DescView::Ptr(Box::new(declarator::shaped(t, c as int, base))),
        is_layer(t, n, "array_declarator"@, c) ==> declarator::shaped(t, n, base)
            == (DescView::Array {
            elem: Box::new(declarator::shaped(t, c as int, base)),
            size: None,
        }),
        is_parens(t, n, "parenthesized_declarator"@, c) ==> declarator::shaped(t, n, base)
            == declarator::shaped(t, c as int, base),
        is_layer(t, n, "function_declarator"@, c) && t.rows@[c as int].kind@
            != "parenthesized_declarator"@ && t.rows@[c as int].kind@ != "pointer_declarator"@
            ==> declarator::shaped(t, n, base) == (DescView::FnPtr {
            ret: Box::new(declarator::shaped(t, c as int, base)),
            params: Seq::empty(),
        }),
{
    lemma_layers();
    tree_laws::law_named_children_are_the_named_ones(t, n);
    if tree_laws::fills_field(t, n, "declarator"@, c) {
        tree_laws::lemma_first_is_one(t, n, "declarator"@, c);
    }
}

/// `(*Name)(...)` declares a pointer to a function, whose result is what the declarator
/// under the pointer declares over the base.
pub proof fn law_a_parenthesized_pointer_points_to_a_function(
    t: SyntaxTree,
    n: int,
    base: DescView,
    parens: usize,
    pointer: usize,
    under: usize,
)
    requires
        t.wf(),
        0 <= n < t.len(),
        is_layer(t, n, "function_declarator"@, parens),
        is_parens(t, parens as int, "parenthesized_declarator"@, pointer) || parens == pointer,
        is_layer(t, pointer as int, "pointer_declarator"@, under),
    ensures
        declarator::shaped(t, n, base) == DescView::Ptr(
            Box::new(
                DescView::FnPtr {
                    ret: Box::new(declarator::shaped(t, under as int, base)),
                    params: Seq::empty(),
                },
            ),
        ),
        is_plain_name(t, under as int) ==> declarator::shaped(t, n, base) == DescView::Ptr(
            Box::new(DescView::FnPtr { ret: Box::new(base), params: Seq::empty() }),
        ),
        declarator::pointer_to_function(t, n),
{
    lemma_layers();
    tree_laws::lemma_first_is_one(t, n, "declarator"@, parens);
    tree_laws::lemma_first_is_one(t, pointer as int, "declarator"@, under);
    tree_laws::law_named_children_are_the_named_ones(t, parens as int);
    declarator::lemma_pointed_under(t, n);
    law_declarators_shape_the_type(t, under as int, base, 0);
}

/// A function declarator that parenthesizes something else than a pointer declares the
/// function itself.
pub proof fn law_parentheses_alone_make_no_pointer(
    t: SyntaxTree,
    n: int,
    base: DescView,
    parens: usize,
    c: usize,
)
    requires
        t.wf(),
        0 <= n < t.len(),
        is_layer(t, n, "function_declarator"@, parens),
        is_parens(t, parens as int, "parenthesized_declarator"@, c),
        t.rows@[c as int].kind@ != "pointer_declarator"@,
    ensures
        declarator::shaped(t, n, base) == (DescView::FnPtr {
            ret: Box::new(declarator::shaped(t, c as int, base)),
            params: Seq::empty(),
        }),
{
    lemma_layers();
    tree_laws::lemma_first_is_one(t, n, "declarator"@, parens);
    t.lemma_fielded(n, "declarator"@);
    tree_laws::law_named_children_are_the_named_ones(t, parens as int);
    law_declarators_shape_the_type(t, parens as int, base, c);
}

/// The layers of an abstract declarator wrap the type from the outside in: a pointer or
/// a reference makes a pointer to it, an array an array of it, a function a function that
/// gives it, and parentheses nothing.
pub proof fn law_abstract_declarators_shape_the_type(
    t: SyntaxTree,
    n: int,
    desc: DescView,
    bare: bool,
    c: usize,
)
    requires
        t.wf(),
        0 <= n < t.len(),
    ensures
        is_layer(t, n, "abstract_pointer_declarator"@, c) || is_layer(
            t,
            n,
            "abstract_reference_declarator"@,
            c,
        ) ==> declarator::abstract_shaped(t, desc, n, bare) == declarator::abstract_shaped(
            t,
            DescView::Ptr(Box::new(desc)),
            c as int,
            bare,
        ),
        is_layer(t, n, "abstract_array_declarator"@, c) ==> declarator::abstract_shaped(
            t,
            desc,
            n,
            bare,
        ) == declarator::abstract_shaped(
            t,
            DescView::Array { elem: Box::new(desc), size: None },
            c as int,
            bare,
        ),
        is_layer(t, n, "abstract_function_declarator"@, c) ==> declarator::abstract_shaped(
            t,
            desc,
            n,
            bare,
        ) == declarator::abstract_shaped(
            t,
            DescView::FnPtr { ret: Box::new(desc), params: Seq::empty() },
            c as int,
            bare,
        ),
        is_parens(t, n, "abstract_parenthesized_declarator"@, c) ==> declarator::abstract_shaped(
            t,
            desc,
            n,
            bare,
        ) == declarator::abstract_shaped(t, desc, c as int, bare),
{
    lemma_layers();
    tree_laws::law_named_children_are_the_named_ones(t, n);
    if tree_laws::fills_field(t, n, "declarator"@, c) {
        tree_laws::lemma_first_is_one(t, n, "declarator"@, c);
    }
}

/// Where nothing is nested, the layer applies to the type itself, but that a bare
/// parameter list makes a function only where it may.
pub proof fn law_last_abstract_layers(t: SyntaxTree, n: int, desc: DescView, bare: bool)
    requires
        t.wf(),
        0 <= n < t.len(),
        t.children(n).len() == 0,
    ensures
        t.rows@[n].kind@ == "abstract_pointer_declarator"@ || t.rows@[n].kind@
            == "abstract_reference_declarator"@ ==> declarator::abstract_shaped(t, desc, n, bare)
            == DescView::Ptr(Box::new(desc)),
        t.rows@[n].kind@ == "abstract_array_declarator"@ ==> declarator::abstract_shaped(
            t,
            desc,
            n,
            bare,
        ) == (DescView::Array { elem: Box::new(desc), size: None }),
        t.rows@[n].kind@ == "abstract_function_declarator"@ && bare
            ==> declarator::abstract_shaped(t, desc, n, bare) == (DescView::FnPtr {
            ret: Box::new(desc),
            params: Seq::empty(),
        }),
        t.rows@[n].kind@ == "abstract_function_declarator"@ && !bare
            ==> declarator::abstract_shaped(t, desc, n, bare) == desc,
{
    lemma_layers();
    tree_laws::law_fields_find_the_child_that_fills_them(t, n, "declarator"@);
    tree_laws::law_named_children_are_the_named_ones(t, n);
    if t.named(n).len() > 0 {
        assert(t.children(n).contains(t.named(n)[0]));
    }
}

/// The name that a declarator declares is the name at its core, whatever the layers
/// around it; that it declares a pointer is what its outermost layer but parentheses,
/// function and array says.
pub proof fn law_layers_keep_the_declared_name(
    t: SyntaxTree,
    source: Seq<char>,
    n: int,
    c: usize,
)
    requires
        t.wf(),
        0 <= n < t.len(),
    ensures
        is_plain_name(t, n) && tree_laws::has_none(
            t,
            n,
            |m: int| t.rows@[m].field is Some && t.rows@[m].field->0@ == "declarator"@,
        ) ==> declarator::declared_name(t, source, n) == (t.text(source, n), false),
        is_layer(t, n, "pointer_declarator"@, c) || is_layer(t, n, "reference_declarator"@, c)
            ==> declarator::declared_name(t, source, n) == (
            declarator::declared_name(t, source, c as int).0,
            true,
        ),
        is_layer(t, n, "function_declarator"@, c) || is_layer(t, n, "array_declarator"@, c)
            ==> declarator::declared_name(t, source, n) == declarator::declared_name(
            t,
            source,
            c as int,
        ),
        is_parens(t, n, "parenthesized_declarator"@, c) ==> declarator::declared_name(t, source, n)
            == declarator::declared_name(t, source, c as int),
{
    lemma_layers();
    tree_laws::law_named_children_are_the_named_ones(t, n);
    tree_laws::law_fields_find_the_child_that_fills_them(t, n, "declarator"@);
    if let Some(d) = t.fielded(n, "declarator"@) {
        let p = |m: int| t.rows@[m].field is Some && t.rows@[m].field->0@ == "declarator"@;
        let i = choose|i: int|
            0 <= i < t.children(n).len() && #[trigger] t.children(n)[i] == d && p(d as int)
                && forall|j: int| 0 <= j < i ==> !p(#[trigger] t.children(n)[j] as int);
        assert(p(t.children(n)[i] as int));
    }
    if tree_laws::fills_field(t, n, "declarator"@, c) {
        tree_laws::lemma_first_is_one(t, n, "declarator"@, c);
    }
}

/// The function that a declarator declares lies under its pointers, which are counted,
/// its references, which are noted, and its parentheses; a pointer to a function
/// declares none.
pub proof fn law_the_declared_function_lies_under_its_layers(
    t: SyntaxTree,
    n: int,
    depth: nat,
    reference: bool,
    c: usize,
)
    requires
        t.wf(),
        0 <= n < t.len(),
    ensures
        is_layer(t, n, "pointer_declarator"@, c) ==> declarator::declared_function(
            t,
            n,
            depth,
            reference,
        ) == declarator::declared_function(t, c as int, depth + 1, reference),
        is_parens(t, n, "parenthesized_declarator"@, c) ==> declarator::declared_function(
            t,
            n,
            depth,
            reference,
        ) == declarator::declared_function(t, c as int, depth, reference),
        is_parens(t, n, "reference_declarator"@, c) ==> declarator::declared_function(
            t,
            n,
            depth,
            reference,
        ) == declarator::declared_function(t, c as int, depth, true),
        is_layer(t, n, "function_declarator"@, c) && t.rows@[c as int].kind@
            != "parenthesized_declarator"@ && t.rows@[c as int].kind@ != "pointer_declarator"@
            ==> declarator::declared_function(t, n, depth, reference) == Some(
            (n as usize, depth, reference),
        ),
        is_layer(t, n, "function_declarator"@, c) && (t.rows@[c as int].kind@
            == "parenthesized_declarator"@ || t.rows@[c as int].kind@ == "pointer_declarator"@)
            ==> declarator::declared_function(t, n, depth, reference) is None,
        is_plain_name(t, n) || t.rows@[n].kind@ == "array_declarator"@
            ==> declarator::declared_function(t, n, depth, reference) is None,
{
    lemma_layers();
    tree_laws::law_named_children_are_the_named_ones(t, n);
    if tree_laws::fills_field(t, n, "declarator"@, c) {
        tree_laws::lemma_first_is_one(t, n, "declarator"@, c);
    }
}

/// The pointers above a name are the pointer layers around it.
pub proof fn law_pointer_layers_are_counted(t: SyntaxTree, n: int, c: usize)
    requires
        t.wf(),
        0 <= n < t.len(),
    ensures
        is_layer(t, n, "pointer_declarator"@, c) ==> declarator::pointers_above(t, n)
            == declarator::pointers_above(t, c as int) + 1 && declarator::pointer_declared(t, n),
        tree_laws::fills_field(t, n, "declarator"@, c) && t.rows@[n].kind@
            != "pointer_declarator"@ ==> declarator::pointers_above(t, n)
            == declarator::pointers_above(t, c as int),
        is_parens(t, n, "parenthesized_declarator"@, c) && tree_laws::has_none(
            t,
            n,
            |m: int| t.rows@[m].field is Some && t.rows@[m].field->0@ == "declarator"@,
        ) ==> declarator::pointers_above(t, n) == declarator::pointers_above(t, c as int),
        t.children(n).len() == 0 && is_plain_name(t, n) ==> declarator::pointers_above(t, n) == 0
            && !declarator::pointer_declared(t, n),
        is_layer(t, n, "function_declarator"@, c) || is_layer(t, n, "array_declarator"@, c)
            ==> declarator::pointer_declared(t, n) == declarator::pointer_declared(t, c as int),
{
    lemma_layers();
    tree_laws::law_named_children_are_the_named_ones(t, n);
    tree_laws::law_fields_find_the_child_that_fills_them(t, n, "declarator"@);
    if tree_laws::fills_field(t, n, "declarator"@, c) {
        tree_laws::lemma_first_is_one(t, n, "declarator"@, c);
    }
    if let Some(d) = t.fielded(n, "declarator"@) {
        let p = |m: int| t.rows@[m].field is Some && t.rows@[m].field->0@ == "declarator"@;
        let i = choose|i: int|
            0 <= i < t.children(n).len() && #[trigger] t.children(n)[i] == d && p(d as int)
                && forall|j: int| 0 <= j < i ==> !p(#[trigger] t.children(n)[j] as int);
        assert(p(t.children(n)[i] as int));
    }
}

} // verus!
