//! What an expression's type is, and what a call is passed.

use crate::arguments;
use crate::arguments::{ArgStep, ArgValue, FnArg};
use crate::arrows;
use crate::expr;
use crate::expr::FnNames;
use crate::expression_laws;
use crate::hierarchy;
use crate::infer;
use crate::infer::Typing;
use crate::ir::{DescView, FnId, TypeDesc, VarId};
use crate::literal;
use crate::lookup::ClassIndex;
use crate::methods;
use crate::methods::MethodView;
use crate::receivers;
use crate::syntax::SyntaxTree;
use crate::tree_laws;
use vstd::prelude::*;

verus! {

proof fn lemma_kinds()
    ensures
        "this"@.len() == 4,
        "identifier"@.len() == 10,
        "pointer_expression"@.len() == 18,
        "field_expression"@.len() == 16,
        "subscript_expression"@.len() == 20,
        "cast_expression"@.len() == 15,
        "call_expression"@.len() == 15,
        "new_expression"@.len() == 14,
        "parenthesized_expression"@.len() == 24,
        "number_literal"@.len() == 14,
        "char_literal"@.len() == 12,
        "true"@.len() == 4,
        "false"@.len() == 5,
        "string_literal"@.len() == 14,
        "nullptr"@.len() == 7,
        "lambda_expression"@.len() == 17,
        "comment"@.len() == 7,
        "this"@[1] == 'h',
        "true"@[1] == 'r',
        "cast_expression"@[2] == 's',
        "call_expression"@[2] == 'l',
        "new_expression"@[1] == 'e',
        "number_literal"@[1] == 'u',
        "new_expression"@[0] == 'n',
        "string_literal"@[0] == 's',
        "number_literal"@[0] == 'n',
        "nullptr"@[0] == 'n',
        "comment"@[0] == 'c',
{
    reveal_strlit("this");
    reveal_strlit("identifier");
    reveal_strlit("pointer_expression");
    reveal_strlit("field_expression");
    reveal_strlit("subscript_expression");
    reveal_strlit("cast_expression");
    reveal_strlit("call_expression");
    reveal_strlit("new_expression");
    reveal_strlit("parenthesized_expression");
    reveal_strlit("number_literal");
    reveal_strlit("char_literal");
    reveal_strlit("true");
    reveal_strlit("false");
    reveal_strlit("string_literal");
    reveal_strlit("nullptr");
    reveal_strlit("lambda_expression");
    reveal_strlit("comment");
}

/// A variable is first entered with the type.
pub open spec fn is_typed(v: Seq<(VarId, TypeDesc)>, id: VarId, d: DescView) -> bool {
    exists|i: int|
        0 <= i < v.len() && (#[trigger] v[i]).0 == id && v[i].1@ == d && forall|j: int|
            0 <= j < i ==> (#[trigger] v[j]).0 != id
}

proof fn lemma_var_desc(v: Seq<(VarId, TypeDesc)>, id: VarId, k: int, i: int)
    requires
        0 <= k <= i < v.len(),
        v[i].0 == id,
        forall|j: int| k <= j < i ==> (#[trigger] v[j]).0 != id,
    ensures
        infer::var_desc(v, id, k) == Some(v[i].1@),
    decreases i - k,
{
    if k < i {
        assert(v[k].0 != id);
        lemma_var_desc(v, id, k + 1, i);
    }
}

proof fn lemma_no_var_desc(v: Seq<(VarId, TypeDesc)>, id: VarId, k: int)
    requires
        0 <= k,
        forall|j: int| 0 <= j < v.len() ==> (#[trigger] v[j]).0 != id,
    ensures
        infer::var_desc(v, id, k) is None,
    decreases v.len() - k,
{
    if k < v.len() {
        lemma_no_var_desc(v, id, k + 1);
    }
}

/// A variable has the type that it is entered with, and one that is entered nowhere none;
/// a reference has the type that it refers to.
pub proof fn law_variables_have_the_type_they_are_entered_with(
    ty: Typing,
    id: VarId,
    d: DescView,
)
    ensures
        is_typed(ty.var_types@, id, d) ==> infer::var_desc(ty.var_types@, id, 0) == Some(d),
        (forall|j: int| 0 <= j < ty.var_types@.len() ==> (#[trigger] ty.var_types@[j]).0 != id)
            ==> infer::var_desc(ty.var_types@, id, 0) is None,
        is_typed(ty.var_types@, id, d) && !ty.references@.contains(id) ==> ty.value_desc(id)
            == Some(d),
        is_typed(ty.var_types@, id, DescView::Ptr(Box::new(d))) && ty.references@.contains(id)
            ==> ty.value_desc(id) == Some(d),
{
    let v = ty.var_types@;
    if is_typed(v, id, d) {
        let i = choose|i: int|
            0 <= i < v.len() && (#[trigger] v[i]).0 == id && v[i].1@ == d && forall|j: int|
                0 <= j < i ==> (#[trigger] v[j]).0 != id;
        lemma_var_desc(v, id, 0, i);
    }
    let p = DescView::Ptr(Box::new(d));
    if is_typed(v, id, p) {
        let i = choose|i: int|
            0 <= i < v.len() && (#[trigger] v[i]).0 == id && v[i].1@ == p && forall|j: int|
                0 <= j < i ==> (#[trigger] v[j]).0 != id;
        lemma_var_desc(v, id, 0, i);
    }
    if forall|j: int| 0 <= j < v.len() ==> (#[trigger] v[j]).0 != id {
        lemma_no_var_desc(v, id, 0);
    }
}

/// A class is first entered with a member of the type.
pub open spec fn is_own_field(
    x: ClassIndex,
    cls: Seq<char>,
    name: Seq<char>,
    d: DescView,
) -> bool {
    x.spec_typed(cls) matches Some(DescView::Struct { fields, .. }) && exists|i: int|
        0 <= i < fields.len() && (#[trigger] fields[i]).0 == name && fields[i].1 == d && forall|
            j: int,
        |
            0 <= j < i ==> (#[trigger] fields[j]).0 != name
}

/// A class has no member of the name itself.
pub open spec fn has_no_own_field(x: ClassIndex, cls: Seq<char>, name: Seq<char>) -> bool {
    match x.spec_typed(cls) {
        Some(DescView::Struct { fields, .. }) => forall|j: int|
            0 <= j < fields.len() ==> (#[trigger] fields[j]).0 != name,
        _ => true,
    }
}

proof fn lemma_field_from(fields: Seq<(Seq<char>, DescView)>, name: Seq<char>, k: int, i: int)
    requires
        0 <= k <= i <= fields.len(),
        i < fields.len() ==> fields[i].0 == name,
        forall|j: int| k <= j < i ==> (#[trigger] fields[j]).0 != name,
    ensures
        i < fields.len() ==> hierarchy::field_from(fields, name, k) == Some(fields[i].1),
        i == fields.len() ==> hierarchy::field_from(fields, name, k) is None,
    decreases i - k,
{
    if k < i {
        assert(fields[k].0 != name);
        lemma_field_from(fields, name, k + 1, i);
    }
}

proof fn lemma_own_field(x: ClassIndex, cls: Seq<char>, name: Seq<char>, d: DescView)
    ensures
        is_own_field(x, cls, name, d) ==> hierarchy::own_field(x, cls, name) == Some(d),
        has_no_own_field(x, cls, name) ==> hierarchy::own_field(x, cls, name) is None,
{
    if let Some(DescView::Struct { fields, .. }) = x.spec_typed(cls) {
        if is_own_field(x, cls, name, d) {
            let i = choose|i: int|
                0 <= i < fields.len() && (#[trigger] fields[i]).0 == name && fields[i].1 == d
                    && forall|j: int| 0 <= j < i ==> (#[trigger] fields[j]).0 != name;
            lemma_field_from(fields, name, 0, i);
        }
        if has_no_own_field(x, cls, name) {
            lemma_field_from(fields, name, 0, fields.len() as int);
        }
    }
}

proof fn lemma_first_field(
    x: ClassIndex,
    order: Seq<Seq<char>>,
    name: Seq<char>,
    k: int,
    i: int,
    d: DescView,
)
    requires
        0 <= k <= i < order.len(),
        is_own_field(x, order[i], name, d),
        forall|j: int| k <= j < i ==> has_no_own_field(x, #[trigger] order[j], name),
    ensures
        hierarchy::first_field(x, order, name, k) == Some(d),
    decreases i - k,
{
    lemma_own_field(x, order[k], name, d);
    if k < i {
        assert(has_no_own_field(x, order[k], name));
        lemma_first_field(x, order, name, k + 1, i, d);
    }
}

/// A member is the class's own, whatever its bases hold; where the class has none of the
/// name, the one of the nearest class that it inherits from.
pub proof fn law_members_are_found_in_the_nearest_class(
    ty: Typing,
    cls: Seq<char>,
    name: Seq<char>,
    i: int,
    d: DescView,
)
    requires
        ({
            let order = hierarchy::ancestry(*ty.index, cls);
            &&& 0 <= i < order.len()
            &&& is_own_field(*ty.index, order[i], name, d)
            &&& forall|j: int|
                0 <= j < i ==> has_no_own_field(*ty.index, #[trigger] order[j], name)
        }),
    ensures
        ty.member_desc(cls, name) == Some(d),
{
    lemma_first_field(*ty.index, hierarchy::ancestry(*ty.index, cls), name, 0, i, d);
}

/// A class's own member is found before any that it inherits.
pub proof fn law_own_members_hide_inherited_ones(
    ty: Typing,
    cls: Seq<char>,
    name: Seq<char>,
    d: DescView,
)
    requires
        is_own_field(*ty.index, cls, name, d),
    ensures
        ty.member_desc(cls, name) == Some(d),
{
    hierarchy::law_ancestry_is_complete(*ty.index, cls);
    lemma_first_field(*ty.index, hierarchy::ancestry(*ty.index, cls), name, 0, 0, d);
}

proof fn lemma_first_members(
    x: ClassIndex,
    order: Seq<Seq<char>>,
    kind: MethodView,
    k: int,
    i: int,
)
    requires
        0 <= k <= i < order.len(),
        x.spec_members(methods::member_name(kind, order[i])).len() > 0,
        forall|j: int|
            k <= j < i ==> x.spec_members(methods::member_name(kind, #[trigger] order[j])).len()
                == 0,
    ensures
        hierarchy::first_members(x, order, kind, k) == x.spec_members(
            methods::member_name(kind, order[i]),
        ),
    decreases i - k,
{
    if k < i {
        assert(x.spec_members(methods::member_name(kind, order[k])).len() == 0);
        lemma_first_members(x, order, kind, k + 1, i);
    }
}

/// The member functions of a name are those of the nearest class that has any.
pub proof fn law_the_nearest_member_functions_are_found(
    x: ClassIndex,
    cls: Seq<char>,
    kind: MethodView,
    i: int,
)
    requires
        ({
            let order = hierarchy::ancestry(x, cls);
            &&& 0 <= i < order.len()
            &&& x.spec_members(methods::member_name(kind, order[i])).len() > 0
            &&& forall|j: int|
                0 <= j < i ==> x.spec_members(
                    methods::member_name(kind, #[trigger] order[j]),
                ).len() == 0
        }),
    ensures
        hierarchy::first_members(x, hierarchy::ancestry(x, cls), kind, 0) == x.spec_members(
            methods::member_name(kind, hierarchy::ancestry(x, cls)[i]),
        ),
{
    lemma_first_members(x, hierarchy::ancestry(x, cls), kind, 0, i);
}

/// The functions that are entered under a name are all that are, in order.
pub proof fn law_functions_are_all_that_bear_the_name(x: ClassIndex, name: Seq<char>, k: int)
    requires
        0 <= k < x.members@.len(),
    ensures
        x.members@[k].0@ == name ==> x.spec_members(name).contains(x.members@[k].1),
        x.spec_members(name).len() <= x.members@.len(),
        forall|i: int|
            0 <= i < x.spec_members(name).len() ==> is_entered(
                x,
                name,
                #[trigger] x.spec_members(name)[i],
            ),
{
    lemma_members_upto(x, name, x.members@.len() as int, k);
}

pub open spec fn is_entered(x: ClassIndex, name: Seq<char>, f: FnId) -> bool {
    exists|k: int|
        0 <= k < x.members@.len() && (#[trigger] x.members@[k]).0@ == name && x.members@[k].1 == f
}

proof fn lemma_members_upto(x: ClassIndex, name: Seq<char>, n: int, k: int)
    requires
        0 <= n <= x.members@.len(),
        0 <= k < x.members@.len(),
    ensures
        ({
            let all = crate::lookup::members_upto(x.members@, name, n);
            &&& all.len() <= n
            &&& k < n && x.members@[k].0@ == name ==> all.contains(x.members@[k].1)
            &&& forall|i: int| 0 <= i < all.len() ==> is_entered(x, name, #[trigger] all[i])
        }),
    decreases n,
{
    if n > 0 {
        lemma_members_upto(x, name, n - 1, k);
        let before = crate::lookup::members_upto(x.members@, name, n - 1);
        let all = crate::lookup::members_upto(x.members@, name, n);
        if x.members@[n - 1].0@ == name {
            assert(is_entered(x, name, x.members@[n - 1].1));
            assert(all == before.push(x.members@[n - 1].1));
            assert(all[before.len() as int] == x.members@[n - 1].1);
            if k < n - 1 && x.members@[k].0@ == name {
                let i = choose|i: int| 0 <= i < before.len() && before[i] == x.members@[k].1;
                assert(all[i] == x.members@[k].1);
            }
            assert forall|i: int| 0 <= i < all.len() implies is_entered(
                x,
                name,
                #[trigger] all[i],
            ) by {
                if i < before.len() {
                    assert(all[i] == before[i]);
                }
            }
        }
    }
}

/// What a receiver is: `this` points to the class around, a name is its variable or the
/// member of the class, `*p` what `p` points to, `&x` a pointer to `x`, a new object a
/// pointer to its class, and a call what it was typed.
pub proof fn law_receivers_have_their_type(
    ty: Typing,
    t: SyntaxTree,
    source: Seq<char>,
    n: int,
    c: usize,
)
    requires
        t.wf(),
        0 <= n < t.len(),
    ensures
        t.rows@[n].kind@ == "this"@ && ty.scope.class_ctx is Some ==> infer::receiver(
            ty,
            t,
            source,
            n,
        ) == Some(
            DescView::Ptr(
                Box::new(
                    DescView::Struct { name: ty.scope.class_ctx->0@, fields: Seq::empty() },
                ),
            ),
        ) && infer::static_class(ty, t, source, n) == Some(ty.scope.class_ctx->0@),
        t.rows@[n].kind@ == "this"@ && ty.scope.class_ctx is None ==> infer::receiver(
            ty,
            t,
            source,
            n,
        ) is None && infer::static_class(ty, t, source, n) is None,
        t.rows@[n].kind@ == "identifier"@ ==> infer::receiver(ty, t, source, n) == (
        match ty.vars.spec_var(t.text(source, n)) {
            Some(v) => ty.value_desc(v),
            None => match ty.scope.class_ctx {
                Some(cls) => ty.member_desc(cls@, t.text(source, n)),
                None => None,
            },
        }),
        expression_laws::is_pointer_to(t, source, n, "*"@, c) && t.named(n).len() > 0 && t.named(
            n,
        )[0] == c ==> (infer::receiver(ty, t, source, c as int) matches Some(DescView::Ptr(inner))
            ==> infer::receiver(ty, t, source, n) == Some(*inner)),
        expression_laws::is_pointer_to(t, source, n, "&"@, c) && t.named(n).len() > 0 && t.named(
            n,
        )[0] == c && infer::receiver(ty, t, source, c as int) is Some ==> infer::receiver(
            ty,
            t,
            source,
            n,
        ) == Some(DescView::Ptr(Box::new(infer::receiver(ty, t, source, c as int)->0))),
        expression_laws::is_parens(t, n, c) ==> infer::receiver(ty, t, source, n)
            == infer::receiver(ty, t, source, c as int) && infer::static_class(ty, t, source, n)
            == infer::static_class(ty, t, source, c as int),
{
    lemma_kinds();
    expression_laws::lemma_amp();
    tree_laws::law_named_children_are_the_named_ones(t, n);
    expr::lemma_peeled(t, n);
    t.lemma_named(n);
    if expression_laws::is_pointer_to(t, source, n, "*"@, c) {
        expression_laws::lemma_pointer(t, source, n, "*"@, c);
    }
    if expression_laws::is_pointer_to(t, source, n, "&"@, c) {
        expression_laws::lemma_pointer(t, source, n, "&"@, c);
    }
}

/// A member access has the type of the member in the class of its object: the class that
/// the object has for `.`, and the one that it leads to for `->`.
pub proof fn law_accesses_have_the_type_of_the_member(
    ty: Typing,
    t: SyntaxTree,
    source: Seq<char>,
    n: int,
    base: usize,
    field: usize,
)
    requires
        t.wf(),
        0 <= n < t.len(),
        t.rows@[n].kind@ == "field_expression"@,
        tree_laws::fills_field(t, n, "argument"@, base),
        tree_laws::fills_field(t, n, "field"@, field),
    ensures
        tree_laws::has_none(t, n, |m: int| t.rows@[m].kind@ == "->"@) && infer::static_class(
            ty,
            t,
            source,
            base as int,
        ) is Some ==> infer::receiver(ty, t, source, n) == ty.member_desc(
            infer::static_class(ty, t, source, base as int)->0,
            t.text(source, field as int),
        ),
        !tree_laws::has_none(t, n, |m: int| t.rows@[m].kind@ == "->"@) && infer::receiver(
            ty,
            t,
            source,
            base as int,
        ) is Some && arrows::spec_arrow_class(
            *ty.index,
            ty.arrows@,
            infer::receiver(ty, t, source, base as int)->0,
        ) is Some ==> infer::receiver(ty, t, source, n) == ty.member_desc(
            arrows::spec_arrow_class(
                *ty.index,
                ty.arrows@,
                infer::receiver(ty, t, source, base as int)->0,
            )->0,
            t.text(source, field as int),
        ),
{
    lemma_kinds();
    expr::lemma_peeled(t, n);
    tree_laws::lemma_first_is_one(t, n, "argument"@, base);
    tree_laws::lemma_first_is_one(t, n, "field"@, field);
    tree_laws::law_kinds_find_the_first_child_of_them(t, n, "->"@);
    t.lemma_fielded(n, "argument"@);
    let p = |m: int| t.rows@[m].kind@ == "->"@;
    if let Some(d) = t.of_kind(n, "->"@) {
        let i = choose|i: int|
            0 <= i < t.children(n).len() && #[trigger] t.children(n)[i] == d && p(d as int)
                && forall|j: int| 0 <= j < i ==> !p(#[trigger] t.children(n)[j] as int);
        assert(p(t.children(n)[i] as int));
    }
}

/// A pointer to a class leads to that class.
pub proof fn law_pointers_lead_to_their_class(
    x: ClassIndex,
    facts: Seq<arrows::ArrowReturn>,
    name: Seq<char>,
    fields: Seq<(Seq<char>, DescView)>,
)
    ensures
        ({
            let p = DescView::Ptr(Box::new(DescView::Struct { name, fields }));
            &&& arrows::spec_arrow_receiver(x, facts, p) == Some(name)
            &&& arrows::dereferenced(x, facts, p) == Some(DescView::Struct { name, fields })
            &&& arrows::class_spelling(p) == Some(name)
            &&& arrows::class_spelling(DescView::Struct { name, fields }) == Some(name)
        }),
{
    reveal_with_fuel(arrows::class_spelling, 3);
}

/// What a written argument is typed: a literal as its kind says, a variable as it is
/// entered, and what is neither as unknown.
pub proof fn law_arguments_are_typed(ty: Typing, t: SyntaxTree, source: Seq<char>, n: int)
    requires
        t.wf(),
        0 <= n < t.len(),
    ensures
        ({
            let kind = t.rows@[n].kind@;
            let d = arguments::known_desc(ty, t, source, n);
            &&& kind == "char_literal"@ ==> d == DescView::Char
            &&& kind == "true"@ || kind == "false"@ ==> d == DescView::Bool
            &&& kind == "string_literal"@ ==> d == DescView::Ptr(Box::new(DescView::Char))
            &&& kind == "nullptr"@ ==> d == DescView::Ptr(Box::new(DescView::Unknown))
            &&& kind == "number_literal"@ ==> d == literal::number_type(t.text(source, n))
            &&& kind == "identifier"@ ==> d == (match ty.vars.spec_var(t.text(source, n)) {
                Some(v) => match infer::var_desc(ty.var_types@, v, 0) {
                    Some(own) => own,
                    None => DescView::Unknown,
                },
                None => DescView::Unknown,
            })
        }),
{
    lemma_kinds();
    expr::lemma_peeled(t, n);
}

/// An element read from a pointer has the type pointed to; a member of a class is not
/// known by the class alone.
pub proof fn law_stored_types(d: DescView)
    ensures
        arguments::stored_desc(DescView::Ptr(Box::new(d)), true) == d,
        d is Struct || d is Union ==> arguments::stored_desc(d, false) == DescView::Unknown
            && arguments::stored_desc(DescView::Ptr(Box::new(d)), false) == DescView::Unknown,
        !(d is Struct || d is Union || d is Ptr) ==> arguments::stored_desc(d, false) == d
            && arguments::stored_desc(DescView::Ptr(Box::new(d)), false) == d,
{
}

/// A cast to a type with stars gives as many pointers to it.
pub proof fn law_casts_count_their_stars(d: DescView, spelled: Seq<char>)
    requires
        !spelled.contains('['),
    ensures
        !spelled.contains('*') ==> arguments::cast_desc(d, spelled) == d,
        arguments::cast_desc(d, spelled.push('*')) == DescView::Ptr(
            Box::new(arguments::cast_desc(d, spelled)),
        ),
{
    assert(spelled.push('*').drop_last() =~= spelled);
    assert(!spelled.push('*').contains('['));
    lemma_no_stars(spelled);
    reveal_with_fuel(receivers::stars, 2);
    reveal_with_fuel(receivers::pointed, 2);
}

proof fn lemma_no_stars(s: Seq<char>)
    ensures
        !s.contains('*') ==> receivers::stars(s) == 0,
    decreases s.len(),
{
    if s.len() > 0 {
        lemma_no_stars(s.drop_last());
        if !s.contains('*') {
            assert(s[s.len() - 1] != '*');
            assert(!s.drop_last().contains('*')) by {
                if s.drop_last().contains('*') {
                    let i = choose|i: int| 0 <= i < s.drop_last().len() && s.drop_last()[i] == '*';
                    assert(s[i] == '*');
                }
            }
        }
    }
}

/// The arguments of a call are the named children of its argument list but the comments,
/// in order.
pub proof fn law_arguments_are_what_is_written(t: SyntaxTree, call: int, list: usize)
    requires
        tree_laws::fills_field(t, call, "arguments"@, list),
    ensures
        arguments::call_args(t, call) == t.named(list as int).filter(
            |c: usize| t.rows@[c as int].kind@ != "comment"@,
        ),
{
    tree_laws::lemma_first_is_one(t, call, "arguments"@, list);
    lemma_counted(t, t.named(list as int));
}

proof fn lemma_counted(t: SyntaxTree, nodes: Seq<usize>)
    ensures
        arguments::counted(t, nodes) == nodes.filter(
            |c: usize| t.rows@[c as int].kind@ != "comment"@,
        ),
    decreases nodes.len(),
{
    reveal(Seq::filter);
    if nodes.len() > 0 {
        lemma_counted(t, nodes.drop_last());
    }
}

/// What is written in a list is its children but the brackets and the commas, in order.
pub proof fn law_lists_hold_what_is_written(t: SyntaxTree, n: usize)
    ensures
        arguments::written(t, Some(n)) == t.children(n as int).filter(
            |c: usize| is_written(t, c),
        ),
        arguments::written(t, None).len() == 0,
{
    let all = t.children(n as int);
    lemma_written(t, n as int, all.len() as int);
    assert(all.take(all.len() as int) =~= all);
}

pub open spec fn is_written(t: SyntaxTree, c: usize) -> bool {
    let kind = t.rows@[c as int].kind@;
    kind != "("@ && kind != ")"@ && kind != "{"@ && kind != "}"@ && kind != ","@
}

proof fn lemma_written(t: SyntaxTree, n: int, k: int)
    requires
        0 <= k <= t.children(n).len(),
    ensures
        arguments::written_upto(t, n, k) == t.children(n).take(k).filter(
            |c: usize| is_written(t, c),
        ),
    decreases k,
{
    reveal(Seq::filter);
    if k > 0 {
        lemma_written(t, n, k - 1);
        assert(t.children(n).take(k).drop_last() =~= t.children(n).take(k - 1));
        assert(t.children(n).take(k).last() == t.children(n)[k - 1]);
    }
}

/// A function passed by its name or its address is that function; a lambda is one in C++.
pub proof fn law_passed_functions_are_named(
    f: FnNames,
    t: SyntaxTree,
    source: Seq<char>,
    n: int,
    cpp: bool,
    c: usize,
)
    requires
        t.wf(),
        0 <= n < t.len(),
    ensures
        t.rows@[n].kind@ == "identifier"@ ==> arguments::fn_argument(f, t, source, n, cpp) == (
        match f.spec_named(t.text(source, n)) {
            Some(id) => Some(FnArg::Named(id)),
            None => None,
        }),
        t.rows@[n].kind@ == "pointer_expression"@ && tree_laws::fills_field(
            t,
            n,
            "argument"@,
            c,
        ) ==> arguments::fn_argument(f, t, source, n, cpp) == arguments::fn_argument(
            f,
            t,
            source,
            c as int,
            cpp,
        ),
        expression_laws::is_parens(t, n, c) ==> arguments::fn_argument(f, t, source, n, cpp)
            == arguments::fn_argument(f, t, source, c as int, cpp),
        t.rows@[n].kind@ == "lambda_expression"@ && cpp ==> arguments::fn_argument(
            f,
            t,
            source,
            n,
            cpp,
        ) == Some(FnArg::Lambda(n as usize)),
        t.rows@[n].kind@ == "call_expression"@ ==> arguments::fn_argument(f, t, source, n, cpp)
            is None,
{
    lemma_kinds();
    tree_laws::law_named_children_are_the_named_ones(t, n);
    expr::lemma_peeled(t, n);
    expr::lemma_operands(t, n);
    t.lemma_named(n);
    if tree_laws::fills_field(t, n, "argument"@, c) {
        tree_laws::lemma_first_is_one(t, n, "argument"@, c);
    }
}

/// A plain variable is passed itself, one of its members or elements as a load of it.
pub proof fn law_passed_variables(
    s: ArgStep,
    ty: Typing,
    t: SyntaxTree,
    source: Seq<char>,
    n: int,
    x: VarId,
)
    requires
        t.wf(),
        0 <= n < t.len(),
        arguments::is_step_of(s, *ty.vars, t, source, n),
        expr::expr_var(*ty.vars, t, source, n) == Some(x),
    ensures
        t.rows@[n].kind@ == "identifier"@ ==> s == ArgStep::Var(x, false),
        t.rows@[n].kind@ == "field_expression"@ || t.rows@[n].kind@ == "subscript_expression"@
            ==> s == ArgStep::Load(x),
{
    lemma_kinds();
}

/// What is passed at each place is there exactly once, as what it is, and nothing else is.
pub proof fn law_passed_values_are_all_recorded(values: Seq<ArgValue>, i: int)
    requires
        values.len() <= u32::MAX,
    ensures
        ({
            let all = values.len() as int;
            let vars = arguments::var_positions(values, all);
            let fns = arguments::fn_positions(values, all);
            &&& 0 <= i < values.len() ==> (forall|f: FnId| #[trigger] fns.contains((i as u32, f))
                <==> values[i] == ArgValue::Fn(f))
            &&& 0 <= i < values.len() ==> (forall|v: VarId| #[trigger] vars.contains((i as u32, v))
                <==> values[i] == ArgValue::Var(v) || values[i] == ArgValue::MemberOf(v))
            &&& 0 <= i < values.len() ==> (arguments::member_positions(values, all).contains(
                i as u32,
            ) <==> values[i] is MemberOf)
        }),
{
    if 0 <= i < values.len() {
        lemma_positions(values, values.len() as int, i);
    }
}

proof fn lemma_positions(values: Seq<ArgValue>, k: int, i: int)
    requires
        values.len() <= u32::MAX,
        0 <= k <= values.len(),
        0 <= i < values.len(),
    ensures
        ({
            let vars = arguments::var_positions(values, k);
            let fns = arguments::fn_positions(values, k);
            let members = arguments::member_positions(values, k);
            &&& forall|f: FnId| #[trigger] fns.contains((i as u32, f)) <==> i < k && values[i]
                == ArgValue::Fn(f)
            &&& forall|v: VarId| #[trigger] vars.contains((i as u32, v)) <==> i < k && (values[i]
                == ArgValue::Var(v) || values[i] == ArgValue::MemberOf(v))
            &&& members.contains(i as u32) <==> i < k && values[i] is MemberOf
        }),
    decreases k,
{
    if k > 0 {
        lemma_positions(values, k - 1, i);
        let at = (k - 1) as u32;
        assert(i as u32 as int == i && at as int == k - 1);
        let vars = arguments::var_positions(values, k - 1);
        let fns = arguments::fn_positions(values, k - 1);
        let members = arguments::member_positions(values, k - 1);
        match values[k - 1] {
            ArgValue::Fn(f) => {
                assert(arguments::fn_positions(values, k) == fns.push((at, f)));
                assert(arguments::var_positions(values, k) == vars);
                assert(arguments::member_positions(values, k) == members);
                lemma_pushed(fns, (at, f));
            },
            ArgValue::Var(v) => {
                assert(arguments::var_positions(values, k) == vars.push((at, v)));
                assert(arguments::fn_positions(values, k) == fns);
                assert(arguments::member_positions(values, k) == members);
                lemma_pushed(vars, (at, v));
            },
            ArgValue::MemberOf(v) => {
                assert(arguments::var_positions(values, k) == vars.push((at, v)));
                assert(arguments::fn_positions(values, k) == fns);
                assert(arguments::member_positions(values, k) == members.push(at));
                lemma_pushed(vars, (at, v));
                lemma_pushed(members, at);
            },
            ArgValue::Value => {
                assert(arguments::var_positions(values, k) == vars);
                assert(arguments::fn_positions(values, k) == fns);
                assert(arguments::member_positions(values, k) == members);
            },
        }
    }
}

proof fn lemma_pushed<T>(s: Seq<T>, x: T)
    ensures
        forall|y: T| #[trigger] s.push(x).contains(y) <==> s.contains(y) || y == x,
{
    assert forall|y: T| #[trigger] s.push(x).contains(y) <==> s.contains(y) || y == x by {
        if s.contains(y) {
            let i = choose|i: int| 0 <= i < s.len() && s[i] == y;
            assert(s.push(x)[i] == y);
        }
        if y == x {
            assert(s.push(x)[s.len() as int] == y);
        }
    }
}

} // verus!
