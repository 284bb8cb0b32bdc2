//! What is met in a unit and in a body, and in which scope.

use crate::aliases;
use crate::arrows;
use crate::declarator;
use crate::ir::{DescView, VarId};
use crate::lambda;
use crate::lambda::CapturesView;
use crate::locals;
use crate::lookup;
use crate::lookup::ClassIndex;
use crate::naming;
use crate::normalize;
use crate::receivers;
use crate::receivers::TemplateBase;
use crate::scope;
use crate::scope::NameScope;
use crate::shape_laws;
use crate::spelling;
use crate::substitution;
use crate::syntax::SyntaxTree;
use crate::templates;
use crate::templates::{Spelling, TemplateReturn};
use crate::text;
use crate::tree_laws;
use crate::types;
use crate::walk;
use crate::walk::{BodyEvent, UnitEvent, MAX_AST_WALK_DEPTH};
use vstd::prelude::*;

verus! {

proof fn lemma_kinds()
    ensures
        "declaration"@.len() == 11,
        "using_declaration"@.len() == 17,
        "type_definition"@.len() == 15,
        "alias_declaration"@.len() == 17,
        "assignment_expression"@.len() == 21,
        "call_expression"@.len() == 15,
        "lambda_expression"@.len() == 17,
        "return_statement"@.len() == 16,
        "new_expression"@.len() == 14,
        "delete_expression"@.len() == 17,
        "field_initializer_list"@.len() == 22,
        "compound_statement"@.len() == 18,
        "function_definition"@.len() == 19,
        "struct_specifier"@.len() == 16,
        "union_specifier"@.len() == 15,
        "class_specifier"@.len() == 15,
        "namespace_definition"@.len() == 20,
        "template_declaration"@.len() == 20,
        "template_parameter_list"@.len() == 23,
        "namespace_identifier"@.len() == 20,
        "nested_namespace_specifier"@.len() == 26,
        "this"@.len() == 4,
        "identifier"@.len() == 10,
        "lambda_default_capture"@.len() == 22,
        "lambda_capture_initializer"@.len() == 26,
        "type_parameter_declaration"@.len() == 26,
        "pointer_declarator"@.len() == 18,
        "function_declarator"@.len() == 19,
        "parenthesized_declarator"@.len() == 24,
        "array_declarator"@.len() == 16,
        "field_identifier"@.len() == 16,
        "using_declaration"@[0] == 'u',
        "alias_declaration"@[0] == 'a',
        "lambda_expression"@[0] == 'l',
        "delete_expression"@[0] == 'd',
        "type_definition"@[0] == 't',
        "call_expression"@[0] == 'c',
        "union_specifier"@[0] == 'u',
        "class_specifier"@[0] == 'c',
        "call_expression"@[1] == 'a',
        "class_specifier"@[1] == 'l',
        "return_statement"@[0] == 'r',
        "struct_specifier"@[0] == 's',
        "array_declarator"@[0] == 'a',
        "field_identifier"@[0] == 'f',
        "field_initializer_list"@[0] == 'f',
        "lambda_default_capture"@[0] == 'l',
        "compound_statement"@[0] == 'c',
        "pointer_declarator"@[0] == 'p',
        "function_definition"@[11] == 'f',
        "function_declarator"@[11] == 'c',
        "namespace_definition"@[0] == 'n',
        "template_declaration"@[0] == 't',
        "namespace_definition"@[10] == 'd',
        "namespace_identifier"@[10] == 'i',
        "namespace_identifier"@[0] == 'n',
        "nested_namespace_specifier"@[0] == 'n',
        "lambda_capture_initializer"@[0] == 'l',
        "type_parameter_declaration"@[0] == 't',
{
    reveal_strlit("declaration");
    reveal_strlit("using_declaration");
    reveal_strlit("type_definition");
    reveal_strlit("alias_declaration");
    reveal_strlit("assignment_expression");
    reveal_strlit("call_expression");
    reveal_strlit("lambda_expression");
    reveal_strlit("return_statement");
    reveal_strlit("new_expression");
    reveal_strlit("delete_expression");
    reveal_strlit("field_initializer_list");
    reveal_strlit("compound_statement");
    reveal_strlit("function_definition");
    reveal_strlit("struct_specifier");
    reveal_strlit("union_specifier");
    reveal_strlit("class_specifier");
    reveal_strlit("namespace_definition");
    reveal_strlit("template_declaration");
    reveal_strlit("template_parameter_list");
    reveal_strlit("namespace_identifier");
    reveal_strlit("nested_namespace_specifier");
    reveal_strlit("this");
    reveal_strlit("identifier");
    reveal_strlit("lambda_default_capture");
    reveal_strlit("lambda_capture_initializer");
    reveal_strlit("type_parameter_declaration");
    reveal_strlit("pointer_declarator");
    reveal_strlit("function_declarator");
    reveal_strlit("parenthesized_declarator");
    reveal_strlit("array_declarator");
    reveal_strlit("field_identifier");
}

proof fn lemma_events_from(
    t: SyntaxTree,
    n: int,
    cpp: bool,
    depth: nat,
    k: int,
    i: int,
    e: BodyEvent,
)
    requires
        t.wf(),
        0 <= n < t.len(),
        0 <= k <= i < t.children(n).len(),
        walk::body_events(t, t.children(n)[i] as int, cpp, depth).contains(e),
    ensures
        walk::body_events_from(t, n, cpp, depth, k).contains(e),
    decreases i - k,
{
    let own = walk::body_events(t, t.children(n)[k] as int, cpp, depth);
    let rest = walk::body_events_from(t, n, cpp, depth, k + 1);
    let all = walk::body_events_from(t, n, cpp, depth, k);
    assert(all == own + rest);
    if k == i {
        let j = choose|j: int| 0 <= j < own.len() && own[j] == e;
        assert(all[j] == e);
    } else {
        lemma_events_from(t, n, cpp, depth, k + 1, i, e);
        let j = choose|j: int| 0 <= j < rest.len() && rest[j] == e;
        assert(all[own.len() + j] == e);
    }
}

/// What a part of a body holds, the body holds, but that the body of a lambda is one of
/// its own.
pub proof fn law_bodies_hold_what_their_parts_hold(
    t: SyntaxTree,
    n: int,
    cpp: bool,
    depth: nat,
    i: int,
    e: BodyEvent,
)
    requires
        t.wf(),
        0 <= n < t.len(),
        depth < MAX_AST_WALK_DEPTH,
        !(cpp && t.rows@[n].kind@ == "lambda_expression"@),
        0 <= i < t.children(n).len(),
        walk::body_events(t, t.children(n)[i] as int, cpp, depth + 1).contains(e),
    ensures
        walk::body_events(t, n, cpp, depth).contains(e),
{
    lemma_kinds();
    lemma_events_from(t, n, cpp, depth + 1, 0, i, e);
    let head = walk::just(walk::own_event(t, n, cpp)) + walk::enters(t, n, cpp);
    let inner = walk::body_events_from(t, n, cpp, depth + 1, 0);
    let all = walk::body_events(t, n, cpp, depth);
    assert(all == head + inner + walk::leaves(t, n, cpp));
    let j = choose|j: int| 0 <= j < inner.len() && inner[j] == e;
    assert(all[head.len() + j] == e);
}

/// A node of a body is met as what it is: a call as a call, a declaration as one, and
/// what only C++ has only there.
pub proof fn law_bodies_meet_what_stands_in_them(
    t: SyntaxTree,
    n: int,
    cpp: bool,
    depth: nat,
)
    requires
        t.wf(),
        0 <= n < t.len(),
        depth < MAX_AST_WALK_DEPTH,
    ensures
        ({
            let kind = t.rows@[n].kind@;
            let all = walk::body_events(t, n, cpp, depth);
            let node = n as usize;
            &&& kind == "call_expression"@ ==> all.contains(BodyEvent::Call { node })
            &&& kind == "assignment_expression"@ ==> all.contains(BodyEvent::Assignment { node })
            &&& kind == "declaration"@ ==> all.contains(BodyEvent::Declaration { node })
            &&& kind == "return_statement"@ ==> all.contains(BodyEvent::Return { node })
            &&& kind == "lambda_expression"@ && cpp ==> all == seq![BodyEvent::Lambda { node }]
            &&& kind == "new_expression"@ && cpp ==> all.contains(BodyEvent::New { node })
            &&& kind == "using_declaration"@ && cpp ==> all.contains(BodyEvent::Using { node })
            &&& kind == "field_initializer_list"@ && cpp ==> all.contains(
                BodyEvent::Initializers { node },
            )
            &&& kind == "delete_expression"@ && cpp && t.named(n).len() > 0 ==> exists|e: BodyEvent|
                #[trigger] all.contains(e) && e is Delete && e->Delete_node == node
            &&& kind == "compound_statement"@ ==> all.len() >= 2 && all[0] == (BodyEvent::Enter {
                block: true,
                scope: cpp,
            }) && all.last() == (BodyEvent::Leave { block: true, scope: cpp })
        }),
{
    lemma_kinds();
    let all = walk::body_events(t, n, cpp, depth);
    let own = walk::own_event(t, n, cpp);
    if t.rows@[n].kind@ == "delete_expression"@ && cpp && t.named(n).len() > 0 {
        tree_laws::law_named_children_are_the_named_ones(t, n);
        let c = t.named(n)[0];
        assert(t.children(n).contains(c));
        let j = choose|j: int| 0 <= j < t.children(n).len() && t.children(n)[j] == c;
        lemma_last_named(t, n, t.children(n).len() as int, j);
    }
    if let Some(e) = own {
        assert(all[0] == e);
        assert(all.contains(e));
    }
}

proof fn lemma_last_named(t: SyntaxTree, n: int, k: int, j: int)
    requires
        0 <= k <= t.children(n).len(),
        0 <= j < t.children(n).len(),
        t.rows@[t.children(n)[j] as int].is_named,
    ensures
        j < k ==> walk::last_named_upto(t, n, k) is Some,
    decreases k,
{
    if k > 0 {
        lemma_last_named(t, n, k - 1, j);
    }
}

proof fn lemma_unit_from(
    t: SyntaxTree,
    n: int,
    cpp: bool,
    depth: nat,
    k: int,
    i: int,
    e: UnitEvent,
)
    requires
        t.wf(),
        0 <= n < t.len(),
        0 <= k <= i < t.children(n).len(),
        !walk::skips_child(t, n, t.children(n)[i] as int),
        walk::unit_events(t, t.children(n)[i] as int, cpp, depth).contains(e),
    ensures
        walk::unit_events_from(t, n, cpp, depth, k).contains(e),
    decreases i - k,
{
    let c = t.children(n)[k] as int;
    let own = if walk::skips_child(t, n, c) {
        seq![]
    } else {
        walk::unit_events(t, c, cpp, depth)
    };
    let rest = walk::unit_events_from(t, n, cpp, depth, k + 1);
    let all = walk::unit_events_from(t, n, cpp, depth, k);
    assert(all == own + rest);
    if k == i {
        let j = choose|j: int| 0 <= j < own.len() && own[j] == e;
        assert(all[j] == e);
    } else {
        lemma_unit_from(t, n, cpp, depth, k + 1, i, e);
        let j = choose|j: int| 0 <= j < rest.len() && rest[j] == e;
        assert(all[own.len() + j] == e);
    }
}

/// A unit holds every function, class, declaration, namespace and alias in it, each as
/// what it is; what is none of these is looked into.
pub proof fn law_units_meet_what_stands_in_them(
    t: SyntaxTree,
    n: int,
    cpp: bool,
    depth: nat,
    i: int,
    e: UnitEvent,
)
    requires
        t.wf(),
        0 <= n < t.len(),
        depth < MAX_AST_WALK_DEPTH,
    ensures
        ({
            let kind = t.rows@[n].kind@;
            let all = walk::unit_events(t, n, cpp, depth);
            let node = n as usize;
            &&& kind == "function_definition"@ ==> all == seq![UnitEvent::Function { node }]
            &&& kind == "declaration"@ ==> all == seq![UnitEvent::Declaration { node }]
            &&& kind == "class_specifier"@ ==> all == seq![
                UnitEvent::Class { node, has_members: true },
            ]
            &&& kind == "struct_specifier"@ ==> all == seq![
                UnitEvent::Class { node, has_members: cpp },
            ]
            &&& kind == "union_specifier"@ ==> all == seq![
                UnitEvent::Class { node, has_members: false },
            ]
            &&& kind == "namespace_definition"@ ==> all == seq![UnitEvent::Namespace { node }]
            &&& kind == "using_declaration"@ ==> all == seq![UnitEvent::Using { node }]
            &&& kind == "type_definition"@ || kind == "alias_declaration"@ ==> all == seq![
                UnitEvent::Alias { node },
            ]
            &&& walk::unit_event(t, n, cpp) is None && 0 <= i < t.children(n).len() && !(kind
                == "template_declaration"@ && t.rows@[t.children(n)[i] as int].kind@
                == "template_parameter_list"@) && walk::unit_events(
                t,
                t.children(n)[i] as int,
                cpp,
                depth + 1,
            ).contains(e) ==> all.contains(e)
        }),
{
    lemma_kinds();
    if walk::unit_event(t, n, cpp) is None && 0 <= i < t.children(n).len() && !walk::skips_child(
        t,
        n,
        t.children(n)[i] as int,
    ) && walk::unit_events(t, t.children(n)[i] as int, cpp, depth + 1).contains(e) {
        lemma_unit_from(t, n, cpp, depth + 1, 0, i, e);
    }
}

/// The calls in a stretch of nodes are all of them, the inner ones before those around.
pub proof fn law_calls_are_met_from_the_inside(t: SyntaxTree, from: int, to: int, m: int)
    requires
        0 <= from <= to <= t.len() <= usize::MAX,
    ensures
        from <= m < to && t.rows@[m].kind@ == "call_expression"@ ==> walk::calls_down(
            t,
            from,
            to,
        ).contains(m as usize),
        forall|i: int|
            0 <= i < walk::calls_down(t, from, to).len() ==> from <= #[trigger] walk::calls_down(
                t,
                from,
                to,
            )[i] < to && t.rows@[walk::calls_down(t, from, to)[i] as int].kind@
                == "call_expression"@,
        forall|i: int, j: int|
            0 <= i < j < walk::calls_down(t, from, to).len() ==> #[trigger] walk::calls_down(
                t,
                from,
                to,
            )[j] < #[trigger] walk::calls_down(t, from, to)[i],
    decreases to - from,
{
    if from < to {
        law_calls_are_met_from_the_inside(t, from + 1, to, m);
        let rest = walk::calls_down(t, from + 1, to);
        let all = walk::calls_down(t, from, to);
        if t.rows@[from].kind@ == "call_expression"@ {
            assert(all[rest.len() as int] == from as usize);
            if from < m < to && t.rows@[m].kind@ == "call_expression"@ {
                let i = choose|i: int| 0 <= i < rest.len() && rest[i] == m as usize;
                assert(all[i] == m as usize);
            }
        }
    }
}

/// A name that is declared in namespaces is qualified with them, one that is declared in a
/// class with the class, and one that is spelled from the root with nothing.
pub proof fn law_declared_names_are_qualified(
    levels: Seq<Seq<char>>,
    cls: Seq<char>,
    is_cpp: bool,
    name: Seq<char>,
)
    requires
        naming::declared_text(name) == name,
        !text::starts_with(name, "::"@),
        !text::contains(naming::scope_of(name), "::"@),
    ensures
        scope::qualified_decl(levels, Some(cls), is_cpp, name) == cls + "::"@ + name,
        levels.len() == 0 ==> scope::qualified_decl(levels, None, is_cpp, name) == name,
        levels.len() > 0 ==> scope::qualified_decl(levels, None, is_cpp, name) == scope::joined(
            levels,
        ) + "::"@ + name,
{
    assert(levels.push(name).drop_last() =~= levels);
    if levels.len() == 0 {
        assert(levels.push(name) =~= seq![name]);
    }
}

/// A name that is spelled from the root is declared there.
pub proof fn law_rooted_names_are_declared_at_the_root(
    levels: Seq<Seq<char>>,
    cls: Option<Seq<char>>,
    is_cpp: bool,
    raw: Seq<char>,
    bare: Seq<char>,
)
    requires
        naming::declared_text(raw) == "::"@ + bare,
    ensures
        scope::qualified_decl(levels, cls, is_cpp, raw) == bare,
{
    let s = "::"@ + bare;
    assert(s.subrange(0, "::"@.len() as int) =~= "::"@);
    assert(s.skip("::"@.len() as int) =~= bare);
}

/// Only the namespaces that have a name count.
pub proof fn law_anonymous_namespaces_have_no_level(stack: Seq<Option<String>>, name: String)
    ensures
        scope::named_levels(stack.push(None)) == scope::named_levels(stack),
        scope::named_levels(stack.push(Some(name))) == scope::named_levels(stack).push(name@),
{
    assert(stack.push(None).drop_last() =~= stack);
    assert(stack.push(Some(name)).drop_last() =~= stack);
}

proof fn lemma_prefixes(levels: Seq<Seq<char>>, n: int, k: int)
    requires
        0 <= n <= levels.len(),
    ensures
        scope::prefixes_from(levels, n).len() == n + 1,
        0 <= k <= n ==> scope::prefixes_from(levels, n)[n - k] == scope::joined(levels.take(k)),
    decreases n,
{
    if n > 0 {
        lemma_prefixes(levels, n - 1, k);
    }
}

/// What a directive names may lie in every namespace around it, the innermost first, and
/// at the root.
pub proof fn law_directives_name_every_scope_around(
    levels: Seq<Seq<char>>,
    name: Seq<char>,
    k: int,
)
    requires
        name.len() > 0,
        !text::starts_with(name, "::"@),
        0 <= k <= levels.len(),
    ensures
        scope::using_targets(levels, name).len() == levels.len() + 2,
        scope::using_targets(levels, name)[levels.len() - k] == scope::joined(levels.take(k))
            + "::"@ + name,
        scope::using_targets(levels, name).last() == name,
        scope::using_imports(levels, name).len() == levels.len() + 2,
        scope::using_imports(levels, name)[levels.len() - k] == (
            normalize::last_segment(name),
            scope::joined(levels.take(k)) + "::"@ + name,
        ),
{
    lemma_prefixes(levels, levels.len() as int, k);
}

/// A namespace opens a level of its name, one without a name an anonymous one.
pub proof fn law_namespaces_open_their_level(t: SyntaxTree, source: Seq<char>, n: int, c: usize)
    requires
        t.wf(),
        0 <= n < t.len(),
    ensures
        tree_laws::is_first(t, n, c, |m: int| names_namespace(t, m)) && t.rows@[c as int].kind@
            == "namespace_identifier"@ ==> scope::opened_levels(t, source, n) == seq![
            Some(normalize::qualified_text(t.text(source, c as int))),
        ],
        tree_laws::has_none(t, n, |m: int| names_namespace(t, m)) ==> scope::opened_levels(
            t,
            source,
            n,
        ) == seq![None::<Seq<char>>],
{
    lemma_kinds();
    lemma_namespace_name(t, n, 0);
    let p = |m: int| names_namespace(t, m);
    if tree_laws::is_first(t, n, c, p) {
        let i = choose|i: int|
            0 <= i < t.children(n).len() && #[trigger] t.children(n)[i] == c && p(c as int)
                && forall|j: int| 0 <= j < i ==> !p(#[trigger] t.children(n)[j] as int);
        lemma_namespace_at(t, n, 0, i);
    }
    if tree_laws::has_none(t, n, p) {
        assert forall|j: int| 0 <= j < t.children(n).len() implies !names_namespace(
            t,
            #[trigger] t.children(n)[j] as int,
        ) by {
            assert(!p(t.children(n)[j] as int));
        }
    }
}

pub open spec fn names_namespace(t: SyntaxTree, m: int) -> bool {
    t.rows@[m].kind@ == "namespace_identifier"@ || t.rows@[m].kind@
        == "nested_namespace_specifier"@
}

proof fn lemma_namespace_at(t: SyntaxTree, n: int, k: int, i: int)
    requires
        0 <= k <= i < t.children(n).len(),
        names_namespace(t, t.children(n)[i] as int),
        forall|j: int| k <= j < i ==> !names_namespace(t, #[trigger] t.children(n)[j] as int),
    ensures
        scope::namespace_name(t, n, k) == Some(t.children(n)[i]),
    decreases i - k,
{
    if k < i {
        assert(!names_namespace(t, t.children(n)[k] as int));
        lemma_namespace_at(t, n, k + 1, i);
    }
}

proof fn lemma_namespace_name(t: SyntaxTree, n: int, k: int)
    requires
        0 <= k <= t.children(n).len(),
    ensures
        (forall|j: int|
            k <= j < t.children(n).len() ==> !names_namespace(
                t,
                #[trigger] t.children(n)[j] as int,
            )) ==> scope::namespace_name(t, n, k) is None,
    decreases t.children(n).len() - k,
{
    if k < t.children(n).len() {
        lemma_namespace_name(t, n, k + 1);
    }
}

/// An alias is known in a class by the class's scope, in namespaces by theirs and by its
/// own, and else by its own name.
pub proof fn law_aliases_are_known_by_their_scope(
    levels: Seq<Seq<char>>,
    around: Seq<Seq<char>>,
    alias: Seq<char>,
)
    ensures
        around.len() > 0 ==> scope::alias_names_of(levels, around, true, true, alias) == seq![
            around.last() + "::"@ + alias,
        ],
        levels.len() > 0 ==> scope::alias_names_of(levels, around, true, false, alias) == seq![
            scope::joined(levels) + "::"@ + alias,
            alias,
        ],
        levels.len() == 0 ==> scope::alias_names_of(levels, around, true, false, alias) == seq![
            alias,
        ],
        scope::alias_names_of(levels, around, false, false, alias) == seq![alias],
{
    assert(levels.push(alias).drop_last() =~= levels);
}

/// A typedef names the type that its declarator makes of the one it spells, and `using`
/// the one that its abstract declarator makes.
pub proof fn law_aliases_name_the_shaped_type(
    s: NameScope,
    x: ClassIndex,
    t: SyntaxTree,
    source: Seq<char>,
    n: int,
    tag: Seq<char>,
    d: usize,
    ty: usize,
)
    requires
        t.wf(),
        0 <= n < t.len(),
        tree_laws::fills_field(t, n, "type"@, ty),
    ensures
        t.rows@[n].kind@ == "type_definition"@ && tree_laws::fills_field(t, n, "declarator"@, d)
            && declarator::declared_name(t, source, d as int).0.len() > 0 && t.rows@[ty as int].kind@
            != "struct_specifier"@ && t.rows@[ty as int].kind@ != "union_specifier"@
            ==> aliases::alias_at(s, x, t, source, n, tag) == Some(
            (
                declarator::declared_name(t, source, d as int).0,
                declarator::shaped(
                    t,
                    d as int,
                    types::type_of(s, x, t, source, ty as int, tag),
                ),
            ),
        ),
        t.rows@[n].kind@ == "type_definition"@ && tree_laws::fills_field(t, n, "declarator"@, d)
            && declarator::declared_name(t, source, d as int).0.len() > 0 && t.rows@[ty as int].kind@
            == "struct_specifier"@ && tag.len() > 0 ==> aliases::alias_at(
            s,
            x,
            t,
            source,
            n,
            tag,
        ) == Some(
            (
                declarator::declared_name(t, source, d as int).0,
                declarator::shaped(
                    t,
                    d as int,
                    DescView::Struct { name: tag, fields: Seq::empty() },
                ),
            ),
        ),
        t.rows@[n].kind@ == "alias_declaration"@ && !t.stands_under(n, "template_declaration"@)
            && tree_laws::fills_field(t, n, "name"@, d) && normalize::qualified_text(
            t.text(source, d as int),
        ).len() > 0 && t.fielded(ty as int, "declarator"@) is None ==> aliases::alias_at(
            s,
            x,
            t,
            source,
            n,
            tag,
        ) == Some(
            (
                normalize::qualified_text(t.text(source, d as int)),
                types::type_of(s, x, t, source, ty as int, tag),
            ),
        ),
{
    lemma_kinds();
    tree_laws::lemma_first_is_one(t, n, "type"@, ty);
    if tree_laws::fills_field(t, n, "declarator"@, d) {
        tree_laws::lemma_first_is_one(t, n, "declarator"@, d);
    }
    if tree_laws::fills_field(t, n, "name"@, d) {
        tree_laws::lemma_first_is_one(t, n, "name"@, d);
    }
}

/// A field is its base, a pointer to it behind a star, and a function behind a pointer to
/// one.
pub proof fn law_fields_have_the_declared_type(
    t: SyntaxTree,
    d: int,
    base: DescView,
    c: usize,
    e: usize,
)
    requires
        t.wf(),
        0 <= d < t.len(),
    ensures
        t.rows@[d].kind@ == "field_identifier"@ ==> declarator::field_desc(t, d, base) == base,
        shape_laws::is_layer(t, d, "pointer_declarator"@, c) && t.rows@[c as int].kind@
            == "field_identifier"@ ==> declarator::field_desc(t, d, base) == DescView::Ptr(
            Box::new(base),
        ),
        shape_laws::is_layer(t, d, "function_declarator"@, c) && (t.rows@[c as int].kind@
            == "parenthesized_declarator"@ || t.rows@[c as int].kind@ == "pointer_declarator"@)
            ==> declarator::field_desc(t, d, base) == (DescView::FnPtr {
            ret: Box::new(base),
            params: Seq::empty(),
        }),
{
    lemma_kinds();
    if tree_laws::fills_field(t, d, "declarator"@, c) {
        tree_laws::lemma_first_is_one(t, d, "declarator"@, c);
        t.lemma_fielded(d, "declarator"@);
        assert(t.rows@[c as int].kind@ == "field_identifier"@ ==> !declarator::pointer_to_function(
            t,
            c as int,
        ));
    }
}

proof fn lemma_captures(
    t: SyntaxTree,
    source: Seq<char>,
    list: int,
    has_this: bool,
    k: int,
    i: int,
)
    requires
        0 <= k <= t.children(list).len(),
        0 <= i < t.children(list).len(),
    ensures
        ({
            let got = lambda::captures_upto(t, source, list, has_this, k);
            let c = t.children(list)[i] as int;
            let kind = t.rows@[c].kind@;
            &&& i < k && kind == "this"@ ==> got.this
            &&& i < k && kind == "lambda_default_capture"@ ==> got.all && (has_this ==> got.this)
            &&& i < k && kind == "identifier"@ ==> got.named.contains(t.text(source, c))
        }),
    decreases k,
{
    if k > 0 {
        lemma_kinds();
        lemma_captures(t, source, list, has_this, k - 1, i);
        let before = lambda::captures_upto(t, source, list, has_this, k - 1);
        let got = lambda::captures_upto(t, source, list, has_this, k);
        let c = t.children(list)[i] as int;
        if t.rows@[c].kind@ == "identifier"@ {
            if i == k - 1 {
                assert(got.named[before.named.len() as int] == t.text(source, c));
            } else if i < k - 1 {
                let j = choose|j: int| 0 <= j < before.named.len() && before.named[j] == t.text(
                    source,
                    c,
                );
                assert(got.named[j] == t.text(source, c));
            }
        }
    }
}

/// A lambda captures what it lists: each name, the object where it says so, and all with a
/// default capture.
pub proof fn law_lambdas_capture_what_they_list(
    t: SyntaxTree,
    source: Seq<char>,
    n: int,
    has_this: bool,
    list: usize,
    i: int,
)
    requires
        tree_laws::is_first(
            t,
            n,
            list,
            |m: int| t.rows@[m].kind@ == "lambda_capture_specifier"@,
        ),
        0 <= i < t.children(list as int).len(),
    ensures
        ({
            let got = lambda::captures_of(t, source, n, has_this);
            let c = t.children(list as int)[i] as int;
            let kind = t.rows@[c].kind@;
            &&& kind == "this"@ ==> got.this
            &&& kind == "lambda_default_capture"@ ==> got.all && (has_this ==> got.this)
            &&& kind == "identifier"@ ==> got.named.contains(t.text(source, c))
        }),
{
    let p = |m: int| t.rows@[m].kind@ == "lambda_capture_specifier"@;
    tree_laws::law_kinds_find_the_first_child_of_them(t, n, "lambda_capture_specifier"@);
    let a = choose|a: int|
        0 <= a < t.children(n).len() && #[trigger] t.children(n)[a] == list && p(list as int)
            && forall|j: int| 0 <= j < a ==> !p(#[trigger] t.children(n)[j] as int);
    assert(p(t.children(n)[a] as int));
    let d = t.of_kind(n, "lambda_capture_specifier"@)->0;
    let b = choose|b: int|
        0 <= b < t.children(n).len() && #[trigger] t.children(n)[b] == d && p(d as int)
            && forall|j: int| 0 <= j < b ==> !p(#[trigger] t.children(n)[j] as int);
    if a < b {
        assert(!p(t.children(n)[a] as int));
    }
    if b < a {
        assert(!p(t.children(n)[b] as int));
    }
    lemma_captures(
        t,
        source,
        list as int,
        has_this,
        t.children(list as int).len() as int,
        i,
    );
}

proof fn lemma_bound(m: Map<Seq<char>, VarId>, pairs: Seq<(String, VarId)>, k: int, name: Seq<char>)
    requires
        0 <= k <= pairs.len(),
        forall|j: int| 0 <= j < k ==> (#[trigger] pairs[j]).0@ != name,
    ensures
        lambda::bound_in_turn(m, pairs, k).dom().contains(name) == m.dom().contains(name),
        m.dom().contains(name) ==> lambda::bound_in_turn(m, pairs, k)[name] == m[name],
    decreases k,
{
    if k > 0 {
        lemma_bound(m, pairs, k - 1, name);
        assert(pairs[k - 1].0@ != name);
    }
}

/// The body of a lambda sees what it captures as the variable around it, and the object
/// where it captures it.
pub proof fn law_captured_names_are_those_around(
    around: Map<Seq<char>, VarId>,
    c: CapturesView,
    inits: Seq<(String, VarId)>,
    params: Seq<(String, VarId)>,
    name: Seq<char>,
)
    requires
        around.dom().contains(name),
        name != "this"@,
        c.all || c.named.contains(name),
        forall|k: int| 0 <= k < inits.len() ==> (#[trigger] inits[k]).0@ != name,
        forall|k: int| 0 <= k < params.len() ==> (#[trigger] params[k]).0@ != name,
    ensures
        lambda::body_names(around, c, inits, params).dom().contains(name),
        lambda::body_names(around, c, inits, params)[name] == around[name],
{
    let base = locals::captured_of(around, c.all, c.named);
    lemma_bound(base, inits, inits.len() as int, name);
    let own = lambda::bound_in_turn(base, inits, inits.len() as int);
    let with_this = if c.this && around.dom().contains("this"@) {
        own.insert("this"@, around["this"@])
    } else {
        own
    };
    lemma_bound(with_this, params, params.len() as int, name);
}

/// The object that a lambda captures is the one around it.
pub proof fn law_the_captured_object_is_the_one_around(
    around: Map<Seq<char>, VarId>,
    c: CapturesView,
    inits: Seq<(String, VarId)>,
    params: Seq<(String, VarId)>,
)
    requires
        c.this,
        around.dom().contains("this"@),
        forall|k: int| 0 <= k < params.len() ==> (#[trigger] params[k]).0@ != "this"@,
    ensures
        lambda::body_names(around, c, inits, params).dom().contains("this"@),
        lambda::body_names(around, c, inits, params)["this"@] == around["this"@],
{
    let own = lambda::bound_in_turn(
        locals::captured_of(around, c.all, c.named),
        inits,
        inits.len() as int,
    );
    lemma_bound(own.insert("this"@, around["this"@]), params, params.len() as int, "this"@);
}

/// A spelling that is a parameter of a template around the node depends on it, and so does
/// every node further in.
pub proof fn law_parameters_are_seen_from_inside(
    t: SyntaxTree,
    source: Seq<char>,
    n: int,
    p: usize,
    spelled: Seq<char>,
    from: Spelling,
)
    requires
        t.wf(),
        0 <= n < t.len(),
        t.spec_parent(n) == Some(p),
    ensures
        t.rows@[p as int].kind@ == "template_declaration"@ && templates::template_mentions(
            t,
            source,
            p as int,
            spelled,
            from,
        ) ==> templates::mentioned_above(t, source, n, spelled, from),
        templates::mentioned_above(t, source, p as int, spelled, from)
            ==> templates::mentioned_above(t, source, n, spelled, from),
        t.rows@[p as int].kind@ == "template_declaration"@ || templates::in_template(t, p as int)
            ==> templates::in_template(t, n),
{
    if n == 0 {
        assert(t.parents@[0] is None);
    }
    assert(t.parents@[n] is Some && t.parents@[n]->0 < n);
}

/// A word is mentioned where it stands for itself.
pub proof fn law_words_mention_themselves(name: Seq<char>, from: Spelling)
    ensures
        templates::mentions(name, from, name),
{
    reveal_strlit("::");
    assert(name.subrange(0, name.len() as int) =~= name);
    assert(text::has_at(name, name, 0));
    assert(text::find_from(name, name, 0) == 0);
    assert(name.take(0) =~= Seq::empty());
    assert(text::trim_end(Seq::<char>::empty()) =~= Seq::empty());
    assert(!text::ends_with(Seq::<char>::empty(), "::"@));
    assert(templates::mentions_at(name, from, name, 0));
}

proof fn lemma_parameter_names(t: SyntaxTree, source: Seq<char>, n: int, k: int)
    requires
        0 <= k <= t.children(n).len(),
    ensures
        templates::parameter_names(t, source, n, k) == t.children(n).take(k).filter(
            |c: usize| t.rows@[c as int].is_named && t.rows@[c as int].kind@ != "comment"@,
        ).map_values(|c: usize| templates::parameter_name(t, source, c as int)),
    decreases k,
{
    reveal(Seq::filter);
    let kept = |c: usize| t.rows@[c as int].is_named && t.rows@[c as int].kind@ != "comment"@;
    let named = |c: usize| templates::parameter_name(t, source, c as int);
    if k > 0 {
        lemma_parameter_names(t, source, n, k - 1);
        let some = t.children(n).take(k);
        assert(some.drop_last() =~= t.children(n).take(k - 1));
        let c = t.children(n)[k - 1];
        assert(some.last() == c);
        let before = t.children(n).take(k - 1).filter(kept);
        if kept(c) {
            assert(some.filter(kept) =~= before.push(c));
            assert(some.filter(kept).map_values(named) =~= before.map_values(named).push(named(c)));
        } else {
            assert(some.filter(kept) =~= before);
        }
    } else {
        assert(t.children(n).take(0) =~= Seq::empty());
        assert(t.children(n).take(0).filter(kept).map_values(named) =~= Seq::empty());
    }
}

/// The parameters of a template are those of its list, each in its place.
pub proof fn law_template_parameters_keep_their_place(t: SyntaxTree, source: Seq<char>, n: int)
    ensures
        templates::parameter_names(t, source, n, t.children(n).len() as int) == t.children(
            n,
        ).filter(
            |c: usize| t.rows@[c as int].is_named && t.rows@[c as int].kind@ != "comment"@,
        ).map_values(|c: usize| templates::parameter_name(t, source, c as int)),
{
    let k = t.children(n).len() as int;
    lemma_parameter_names(t, source, n, k);
    assert(t.children(n).take(k) =~= t.children(n));
}

/// A class is looked for in the scope, then in the scopes around it.
pub proof fn law_classes_are_looked_for_outwards(
    x: ClassIndex,
    scope: Seq<char>,
    name: Seq<char>,
)
    requires
        scope.len() > 0,
        !text::starts_with(name, "::"@),
    ensures
        lookup::class_named(x, scope + "::"@ + name) is Some ==> substitution::class_from(
            x,
            scope,
            name,
        ) == lookup::class_named(x, scope + "::"@ + name),
        lookup::class_named(x, scope + "::"@ + name) is None ==> substitution::class_from(
            x,
            scope,
            name,
        ) == substitution::class_from(x, lookup::around(scope), name),
        lookup::class_named(x, name) is Some ==> substitution::class_from(x, Seq::empty(), name)
            == lookup::class_named(x, name),
{
}

/// The arguments of a receiver of the class itself are its own; those of a class that
/// inherits from it are what the base is spelled with.
pub proof fn law_arguments_are_those_of_the_owner(
    x: ClassIndex,
    table: Seq<(String, Vec<TemplateBase>)>,
    receiver: Seq<char>,
    owner: Seq<char>,
    k: int,
    i: int,
)
    ensures
        normalize::without_arguments(receiver) == owner ==> substitution::arguments_for(
            x,
            table,
            receiver,
            owner,
        ) == Some((spelling::arguments_of(receiver), None::<Seq<char>>)),
        normalize::without_arguments(receiver) != owner && 0 <= k < table.len() && table[k].0@
            == normalize::without_arguments(receiver) && (forall|j: int|
            0 <= j < k ==> (#[trigger] table[j]).0@ != table[k].0@) && 0 <= i < table[k].1@.len()
            && normalize::without_arguments(table[k].1@[i].spelling@) == owner && (forall|j: int|
            0 <= j < i ==> normalize::without_arguments((#[trigger] table[k].1@[j]).spelling@)
                != owner) && !table[k].1@[i].is_dependent ==> substitution::arguments_for(
            x,
            table,
            receiver,
            owner,
        ) == Some(
            (
                spelling::arguments_of(table[k].1@[i].spelling@),
                Some(table[k].1@[i].declaration_scope@),
            ),
        ),
{
    let cls = normalize::without_arguments(receiver);
    if 0 <= k < table.len() && table[k].0@ == cls && (forall|j: int|
        0 <= j < k ==> (#[trigger] table[j]).0@ != table[k].0@) && 0 <= i < table[k].1@.len()
        && normalize::without_arguments(table[k].1@[i].spelling@) == owner && (forall|j: int|
        0 <= j < i ==> normalize::without_arguments((#[trigger] table[k].1@[j]).spelling@)
            != owner) {
        lemma_template_bases(table, cls, 0, k);
        lemma_base_naming(table[k].1@, owner, 0, i);
    }
}

proof fn lemma_template_bases(
    table: Seq<(String, Vec<TemplateBase>)>,
    cls: Seq<char>,
    from: int,
    k: int,
)
    requires
        0 <= from <= k < table.len(),
        table[k].0@ == cls,
        forall|j: int| 0 <= j < k ==> (#[trigger] table[j]).0@ != cls,
    ensures
        receivers::template_bases_from(table, cls, from) == table[k].1@,
    decreases k - from,
{
    if from < k {
        assert(table[from].0@ != cls);
        lemma_template_bases(table, cls, from + 1, k);
    }
}

proof fn lemma_base_naming(bases: Seq<TemplateBase>, owner: Seq<char>, from: int, i: int)
    requires
        0 <= from <= i < bases.len(),
        normalize::without_arguments(bases[i].spelling@) == owner,
        forall|j: int|
            0 <= j < i ==> normalize::without_arguments((#[trigger] bases[j]).spelling@) != owner,
    ensures
        receivers::base_naming(bases, owner, from) == Some(bases[i]),
    decreases i - from,
{
    if from < i {
        assert(normalize::without_arguments(bases[from].spelling@) != owner);
        lemma_base_naming(bases, owner, from + 1, i);
    }
}

/// A result that is a parameter of the class's template is the argument in its place,
/// behind the pointers of both.
pub proof fn law_results_are_substituted(
    args: Seq<Seq<char>>,
    fact: TemplateReturn,
    cls: Seq<char>,
    i: usize,
)
    requires
        fact.parameter == Some(i),
    ensures
        i >= args.len() ==> receivers::substituted(args, fact, Some(cls)) is None,
        i < args.len() && fact.pointer_depth == 0 && !spelling::pointer_split(
            text::trim(args[i as int]),
        ).1.contains('*') ==> receivers::substituted(args, fact, Some(cls)) == Some(
            DescView::Struct { name: cls, fields: Seq::empty() },
        ),
        i < args.len() && fact.pointer_depth == 1 && !spelling::pointer_split(
            text::trim(args[i as int]),
        ).1.contains('*') ==> receivers::substituted(args, fact, Some(cls)) == Some(
            DescView::Ptr(Box::new(DescView::Struct { name: cls, fields: Seq::empty() })),
        ),
{
    if i < args.len() {
        lemma_no_stars(spelling::pointer_split(text::trim(args[i as int])).1);
    }
    reveal_with_fuel(receivers::pointed, 3);
}

proof fn lemma_no_stars(s: Seq<char>)
    ensures
        !s.contains('*') ==> receivers::stars(s) == 0,
    decreases s.len(),
{
    if s.len() > 0 {
        lemma_no_stars(s.drop_last());
        if !s.contains('*') {
            assert(s[s.len() - 1] != '*');
            if s.drop_last().contains('*') {
                let i = choose|i: int| 0 <= i < s.drop_last().len() && s.drop_last()[i] == '*';
                assert(s[i] == '*');
            }
        }
    }
}

/// Results that agree are the result; where one differs or is missing there is none.
pub proof fn law_results_have_to_agree(all: Seq<Option<DescView>>, i: int, d: DescView)
    requires
        0 <= i < all.len(),
    ensures
        (forall|k: int| 0 <= k < all.len() ==> #[trigger] all[k] == Some(d))
            ==> receivers::agreed_on(all) == Some(d),
        all[i] is None ==> receivers::agreed_on(all) is None,
        all[i] != all[0] ==> receivers::agreed_on(all) is None,
{
}

/// A smart pointer that is not defined in the unit leads to what it holds.
pub proof fn law_smart_pointers_lead_to_what_they_hold(
    x: ClassIndex,
    facts: Seq<arrows::ArrowReturn>,
    name: Seq<char>,
    held: Seq<char>,
)
    requires
        normalize::smart_ptr_name(normalize::without_arguments(name)),
        spelling::arguments_of(name) == seq![held],
        forall|k: int| 0 <= k < facts.len() ==> (#[trigger] facts[k]).class_name@
            != normalize::without_arguments(name),
        arrows::arrow_owner(
            x,
            crate::hierarchy::ancestry(x, normalize::without_arguments(name)),
            0,
        ) is None,
    ensures
        arrows::spec_arrow_receiver(x, facts, DescView::Struct { name, fields: Seq::empty() })
            == Some(normalize::bare_type(held)),
{
    let cls = normalize::without_arguments(name);
    lemma_silent(facts, cls, spelling::arguments_of(name), facts.len() as int);
    assert(!(Seq::<Seq<char>>::empty().contains(name)));
}

proof fn lemma_silent(
    facts: Seq<arrows::ArrowReturn>,
    cls: Seq<char>,
    args: Seq<Seq<char>>,
    k: int,
)
    requires
        0 <= k <= facts.len(),
        forall|j: int| 0 <= j < facts.len() ==> (#[trigger] facts[j]).class_name@ != cls,
    ensures
        arrows::agreed_upto(facts, cls, None, args, k) == arrows::Agreed::Silent,
    decreases k,
{
    if k > 0 {
        lemma_silent(facts, cls, args, k - 1);
        assert(facts[k - 1].class_name@ != cls);
    }
}

} // verus!
