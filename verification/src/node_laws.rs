//! What single nodes of a unit say.

use crate::arguments;
use crate::arguments::ArgValue;
use crate::arrows;
use crate::calls::SiteView;
use crate::classes;
use crate::declarations::Visible;
use crate::declarator;
use crate::dispatch;
use crate::expr;
use crate::expr::{FnNames, VarNames};
use crate::fields;
use crate::fields::Layouts;
use crate::finalize;
use crate::flows;
use crate::functions;
use crate::infer;
use crate::infer::Typing;
use crate::ir::DescView;
use crate::lambda;
use crate::literal;
use crate::locals;
use crate::lookup::ClassIndex;
use crate::members;
use crate::methods;
use crate::methods::MethodView;
use crate::normalize;
use crate::overload;
use crate::overload::Candidate;
use crate::parse;
use crate::program;
use crate::program::{FnView, Variable};
use crate::registration;
use crate::registration::BodyStep;
use crate::results;
use crate::results::ShapeView;
use crate::routes;
use crate::scope::NameScope;
use crate::spelling;
use crate::stores;
use crate::syntax::SyntaxTree;
use crate::templates;
use crate::text;
use crate::tree_laws;
use crate::types;
use crate::variables;
use crate::walk;
use crate::walk::BodyEvent;
use vstd::prelude::*;

verus! {

proof fn lemma_kinds()
    ensures
        "parenthesized_expression"@.len() == 24,
        "cast_expression"@.len() == 15,
        "field_declaration"@.len() == 17,
        "template_declaration"@.len() == 20,
        "type_definition"@.len() == 15,
        "alias_declaration"@.len() == 17,
        "function_definition"@.len() == 19,
        "number_literal"@.len() == 14,
        "char_literal"@.len() == 12,
        "true"@.len() == 4,
        "false"@.len() == 5,
        "string_literal"@.len() == 14,
        "nullptr"@.len() == 7,
        "field_expression"@.len() == 16,
        "identifier"@.len() == 10,
        "type_identifier"@.len() == 15,
        "virtual"@.len() == 7,
        "virtual_specifier"@.len() == 17,
        "access_specifier"@.len() == 16,
        "operator_cast"@.len() == 13,
        "this"@.len() == 4,
        "pointer_expression"@.len() == 18,
        "call_expression"@.len() == 15,
        "new_expression"@.len() == 14,
        "pointer_declarator"@.len() == 18,
        "reference_declarator"@.len() == 20,
        "qualified_identifier"@.len() == 20,
        "destructor_name"@.len() == 15,
        "operator_name"@.len() == 13,
        "cast_expression"@[0] == 'c',
        "type_definition"@[0] == 't',
        "type_identifier"@[0] == 't',
        "cast_expression"@[2] == 's',
        "call_expression"@[2] == 'l',
        "destructor_name"@[0] == 'd',
        "type_definition"@[5] == 'd',
        "type_identifier"@[5] == 'i',
        "call_expression"@[0] == 'c',
        "field_declaration"@[0] == 'f',
        "alias_declaration"@[0] == 'a',
        "virtual_specifier"@[0] == 'v',
        "template_declaration"@[0] == 't',
        "reference_declarator"@[0] == 'r',
        "qualified_identifier"@[0] == 'q',
        "number_literal"@[0] == 'n',
        "string_literal"@[0] == 's',
        "number_literal"@[1] == 'u',
        "new_expression"@[1] == 'e',
        "new_expression"@[0] == 'n',
        "true"@[1] == 'r',
        "this"@[1] == 'h',
        "nullptr"@[0] == 'n',
        "virtual"@[0] == 'v',
        "field_expression"@[0] == 'f',
        "access_specifier"@[0] == 'a',
        "operator_cast"@[9] == 'c',
        "operator_name"@[9] == 'n',
        "pointer_expression"@[8] == 'e',
        "pointer_declarator"@[8] == 'd',
{
    reveal_strlit("parenthesized_expression");
    reveal_strlit("cast_expression");
    reveal_strlit("field_declaration");
    reveal_strlit("template_declaration");
    reveal_strlit("type_definition");
    reveal_strlit("alias_declaration");
    reveal_strlit("function_definition");
    reveal_strlit("number_literal");
    reveal_strlit("char_literal");
    reveal_strlit("true");
    reveal_strlit("false");
    reveal_strlit("string_literal");
    reveal_strlit("nullptr");
    reveal_strlit("field_expression");
    reveal_strlit("identifier");
    reveal_strlit("type_identifier");
    reveal_strlit("virtual");
    reveal_strlit("virtual_specifier");
    reveal_strlit("access_specifier");
    reveal_strlit("operator_cast");
    reveal_strlit("this");
    reveal_strlit("pointer_expression");
    reveal_strlit("call_expression");
    reveal_strlit("new_expression");
    reveal_strlit("pointer_declarator");
    reveal_strlit("reference_declarator");
    reveal_strlit("qualified_identifier");
    reveal_strlit("destructor_name");
    reveal_strlit("operator_name");
}

/// Parentheses and casts are seen through to the first thing in them; anything else stands
/// for itself.
pub proof fn law_wrappings_are_seen_through(t: SyntaxTree, n: int, c: usize)
    requires
        t.wf(),
        0 <= n < t.len(),
    ensures
        (t.rows@[n].kind@ == "parenthesized_expression"@ || t.rows@[n].kind@
            == "cast_expression"@) && t.named_first(n) == Some(c) ==> expr::unwrapped(t, n)
            == expr::unwrapped(t, c as int),
        t.rows@[n].kind@ != "parenthesized_expression"@ && t.rows@[n].kind@
            != "cast_expression"@ ==> expr::unwrapped(t, n) == Some(n as usize),
{
    t.lemma_named(n);
    reveal_with_fuel(expr::unwrapped, 2);
}

/// What a literal passed as an argument is known to be.
pub proof fn law_literals_have_their_type(ty: Typing, t: SyntaxTree, source: Seq<char>, n: int)
    requires
        t.wf(),
        0 <= n < t.len(),
    ensures
        t.rows@[n].kind@ == "number_literal"@ ==> arguments::known_desc(ty, t, source, n)
            == literal::number_type(t.text(source, n)),
        t.rows@[n].kind@ == "char_literal"@ ==> arguments::known_desc(ty, t, source, n)
            == DescView::Char,
        t.rows@[n].kind@ == "true"@ || t.rows@[n].kind@ == "false"@ ==> arguments::known_desc(
            ty,
            t,
            source,
            n,
        ) == DescView::Bool,
        t.rows@[n].kind@ == "string_literal"@ ==> arguments::known_desc(ty, t, source, n)
            == DescView::Ptr(Box::new(DescView::Char)),
        t.rows@[n].kind@ == "nullptr"@ ==> arguments::known_desc(ty, t, source, n)
            == DescView::Ptr(Box::new(DescView::Unknown)),
        t.rows@[n].kind@ == "cast_expression"@ ==> arguments::known_desc(ty, t, source, n)
            == DescView::Unknown,
{
    lemma_kinds();
    expr::lemma_peeled(t, n);
}

/// The class whose members an access names: through an arrow the one that the arrow leads
/// to, else the object's own.
pub proof fn law_accesses_name_members_of_the_class(
    ty: Typing,
    t: SyntaxTree,
    source: Seq<char>,
    n: int,
    d: DescView,
)
    ensures
        infer::member_class(ty, t, source, n, false) == infer::static_class(ty, t, source, n),
        infer::receiver(ty, t, source, n) == Some(d) ==> infer::member_class(
            ty,
            t,
            source,
            n,
            true,
        ) == arrows::spec_arrow_class(*ty.index, ty.arrows@, d),
        infer::receiver(ty, t, source, n) is None ==> infer::member_class(
            ty,
            t,
            source,
            n,
            true,
        ) is None,
{
}

/// A cast has the class that its type spells where that is known, and none else.
pub proof fn law_casts_have_the_class_they_spell(
    ty: Typing,
    t: SyntaxTree,
    source: Seq<char>,
    n: int,
    d: usize,
    c: usize,
)
    requires
        t.wf(),
        0 <= n < t.len(),
        t.rows@[n].kind@ == "cast_expression"@,
        tree_laws::fills_field(t, n, "type"@, d),
        tree_laws::fills_field(t, d as int, "type"@, c),
    ensures
        ({
            let cls = ty.spelled_class(t.text(source, c as int));
            &&& ty.index.spec_typed(cls) is Some ==> infer::static_class(ty, t, source, n) == Some(
                cls,
            )
            &&& ty.index.spec_typed(cls) is None ==> infer::static_class(ty, t, source, n) is None
        }),
{
    lemma_kinds();
    expr::lemma_peeled(t, n);
    tree_laws::lemma_first_is_one(t, n, "type"@, d);
    tree_laws::lemma_first_is_one(t, d as int, "type"@, c);
}

/// What stands in the body of a class: fields, in C++ the classes and aliases that it
/// declares; its functions are no fields.
pub proof fn law_bodies_hold_fields_and_classes(
    t: SyntaxTree,
    is_cpp: bool,
    c: int,
    ty: usize,
    spec: usize,
)
    ensures
        ({
            let kind = t.rows@[c].kind@;
            let step = registration::step_of(t, is_cpp, c);
            &&& kind == "field_declaration"@ && members::function_member(t, c) ==> step
                == BodyStep::Nothing
            &&& kind == "field_declaration"@ && !members::function_member(t, c) && (t.fielded(
                c,
                "declarator"@,
            ) is Some || !is_cpp) ==> step == BodyStep::Field(c as usize)
            &&& kind == "field_declaration"@ && !members::function_member(t, c) && is_cpp
                && t.fielded(c, "declarator"@) is None && tree_laws::fills_field(t, c, "type"@, ty)
                && classes::named_class(t, ty as int) ==> step == BodyStep::Class(ty)
            &&& kind == "template_declaration"@ && is_cpp && classes::member_definition(t, c)
                == Some(spec) ==> step == BodyStep::Class(spec)
            &&& (kind == "type_definition"@ || kind == "alias_declaration"@) && is_cpp ==> step
                == BodyStep::Alias(c as usize)
            &&& !is_cpp && kind != "field_declaration"@ ==> step == BodyStep::Nothing
        }),
{
    lemma_kinds();
    if tree_laws::fills_field(t, c, "type"@, ty) {
        tree_laws::lemma_first_is_one(t, c, "type"@, ty);
    }
}

/// A function defined in a class is its definition, also as a template; a declaration is
/// none.
pub proof fn law_members_defined_in_their_class(t: SyntaxTree, m: int, inner: usize)
    requires
        0 <= m < t.len(),
        t.wf(),
    ensures
        t.rows@[m].kind@ == "function_definition"@ ==> registration::defined_in_class(t, m)
            == Some(m as usize),
        t.rows@[m].kind@ == "template_declaration"@ && classes::declared_last(
            t,
            m,
            t.children(m).len() as int,
        ) == Some(inner) && t.rows@[inner as int].kind@ == "function_definition"@
            ==> registration::defined_in_class(t, m) == Some(inner),
        t.rows@[m].kind@ == "field_declaration"@ && !members::function_member(t, m)
            ==> registration::defined_in_class(t, m) is None,
        t.rows@[m].kind@ == "access_specifier"@ ==> registration::defined_in_class(t, m) is None,
{
    lemma_kinds();
    assert(t.rows@.len() == t.rows.len());
}

/// What is listed in a block is off the list behind it; elsewhere what is listed stays.
pub proof fn law_blocks_take_back_what_they_list<A>(
    enter: BodyEvent,
    leave: BodyEvent,
    list: Seq<A>,
    marks: Seq<nat>,
    inside: Seq<A>,
)
    requires
        enter is Enter,
        leave is Leave,
    ensures
        ({
            let opened = walk::list_step(enter, Seq::empty(), (list, marks));
            let closed = walk::list_step(leave, Seq::empty(), (list + inside, opened.1));
            &&& opened.0 == list
            &&& closed.1 == marks
            &&& leave->Leave_block ==> closed.0 == list
            &&& !leave->Leave_block ==> closed.0 == list + inside
        }),
{
    let n = list.len();
    assert(marks.push(n).drop_last() =~= marks);
    assert((list + inside).take(n as int) =~= list);
}

/// What a bare name in a list of values stands for: a local variable before all else, no
/// value where it names a type, then a field, a variable, a function.
pub proof fn law_names_in_lists_are_values(v: Visible, name: Seq<char>)
    ensures
        locals::bound(v.vars.locals@, name) matches Some(id) ==> v.spec_argument(name) == Some(
            ArgValue::Var(id),
        ),
        locals::bound(v.vars.locals@, name) is None && v.scope.spec_names_type(*v.index, name)
            ==> v.spec_argument(name) is None,
        locals::bound(v.vars.locals@, name) is None && !v.scope.spec_names_type(*v.index, name) ==> {
            &&& v.names_field(name) ==> v.spec_argument(name) == Some(
                ArgValue::Value,
            )
            &&& !v.names_field(name) ==> {
                &&& v.vars.spec_var(name) matches Some(id) ==> v.spec_argument(name) == Some(
                    ArgValue::Var(id),
                )
                &&& v.vars.spec_var(name) is None ==> (v.fns.spec_named(name) matches Some(f)
                    ==> v.spec_argument(name) == Some(ArgValue::Fn(f)))
                &&& v.vars.spec_var(name) is None && v.fns.spec_named(name) is None
                    ==> v.spec_argument(name) is None
            }
        },
{
}

/// The keyword `virtual`, and what stands under it, makes nothing final.
pub proof fn law_virtual_members_are_not_final(t: SyntaxTree, source: Seq<char>, n: int)
    requires
        t.wf(),
        0 <= n < t.len(),
        forall|k: int|
            0 <= k < t.children(n).len() ==> t.rows@[(#[trigger] t.children(n)[k]) as int].kind@
                == "virtual"@ || t.rows@[t.children(n)[k] as int].kind@ == "virtual_specifier"@
                && !text::contains(t.text(source, t.children(n)[k] as int), "final"@),
    ensures
        !classes::final_under(t, source, n),
{
    lemma_kinds();
}

/// An error that the parser did not recover from: never in a node without one, always at
/// one that is an error or is missing, and above one.
pub proof fn law_errors_are_found_below(t: SyntaxTree, n: int, depth: nat, k: int)
    ensures
        !t.rows@[n].has_error ==> !parse::unrecovered(t, n, depth),
        parse::benign(t, n) ==> !parse::unrecovered(t, n, depth),
        t.rows@[n].has_error && !parse::benign(t, n) && depth < parse::MAX_PARSE_WALK_DEPTH
            && (t.rows@[n].is_error || t.rows@[n].is_missing) ==> parse::unrecovered(t, n, depth),
        t.rows@[n].has_error && !parse::benign(t, n) && depth < parse::MAX_PARSE_WALK_DEPTH && 0
            <= k < t.children(n).len() && parse::unrecovered(t, t.children(n)[k] as int, depth + 1)
            ==> parse::unrecovered(t, n, depth),
{
}

/// Only initializers of members construct what they name.
pub proof fn law_only_member_initializers_construct(
    x: ClassIndex,
    t: SyntaxTree,
    source: Seq<char>,
    cls: Seq<char>,
    c: usize,
)
    requires
        t.rows@[c as int].kind@ != "field_initializer"@,
    ensures
        routes::initialized(x, t, source, cls, c) is None,
{
}

/// A call through an arrow is of the members of the class that the arrow leads to.
pub proof fn law_calls_through_arrows_are_of_what_they_lead_to(
    ty: Typing,
    t: SyntaxTree,
    source: Seq<char>,
    n: int,
    func: int,
    recv: usize,
    f: usize,
    d: DescView,
    own: Seq<char>,
)
    requires
        tree_laws::fills_field(t, func, "argument"@, recv),
        tree_laws::fills_field(t, func, "field"@, f),
        infer::receiver(ty, t, source, recv as int) == Some(d),
        infer::by_arrow(t, func),
    ensures
        arrows::spec_arrow_receiver(*ty.index, ty.arrows@, d) == Some(own)
            ==> results::member_shape(ty, false, t, source, n, func) == (ShapeView::Declared {
            members: results::members_named(
                *ty.index,
                normalize::without_arguments(own),
                normalize::without_arguments(normalize::qualified_text(t.text(source, f as int))),
            ),
            receiver: Some(own),
        }),
        arrows::spec_arrow_receiver(*ty.index, ty.arrows@, d) is None ==> results::member_shape(
            ty,
            false,
            t,
            source,
            n,
            func,
        ) == ShapeView::Untyped,
{
    tree_laws::lemma_first_is_one(t, func, "argument"@, recv);
    tree_laws::lemma_first_is_one(t, func, "field"@, f);
}

/// A callee is loaded from the path of fields that it names; what names no field is not.
pub proof fn law_callees_are_loaded_from_their_field(
    ty: Typing,
    lay: Layouts,
    t: SyntaxTree,
    source: Seq<char>,
    n: int,
    p: fields::PathView,
)
    requires
        t.wf(),
        0 <= n < t.len(),
    ensures
        t.rows@[n].kind@ == "field_expression"@ && fields::path_of(ty, lay, t, source, n) == Some(
            p,
        ) && p.ids.len() > 0 ==> stores::loaded_callee(ty, lay, t, source, n) == Some(p),
        t.rows@[n].kind@ == "identifier"@ ==> stores::loaded_callee(ty, lay, t, source, n) is None,
{
    lemma_kinds();
    expr::lemma_peeled(t, n);
}

/// A function takes as many arguments as it declares parameters; more where it is variadic,
/// fewer where the rest have defaults.
pub proof fn law_functions_take_what_they_declare(c: Candidate, declared: nat, argc: nat)
    ensures
        overload::takes(c, declared, declared),
        argc > declared ==> overload::takes(c, declared, argc) == c.variadic,
        argc < declared ==> overload::takes(c, declared, argc) == (declared - argc
            <= c.default_args),
{
}

/// The template around a node is the nearest.
pub proof fn law_the_nearest_template_is_around(t: SyntaxTree, n: int, p: usize)
    requires
        t.wf(),
        0 <= n < t.len(),
        t.spec_parent(n) == Some(p),
        p < n,
    ensures
        t.rows@[p as int].kind@ == "template_declaration"@ ==> functions::template_around(t, n)
            == Some(p),
        t.rows@[p as int].kind@ != "template_declaration"@ ==> functions::template_around(t, n)
            == functions::template_around(t, p as int),
{
}

/// The name of an alias is found through its declarators.
pub proof fn law_alias_names_are_found_through_declarators(t: SyntaxTree, n: int, d: usize)
    requires
        t.wf(),
        0 <= n < t.len(),
    ensures
        t.rows@[n].kind@ == "type_identifier"@ ==> templates::alias_name_node(t, n) == Some(
            n as usize,
        ),
        t.rows@[n].kind@ != "type_identifier"@ && tree_laws::fills_field(t, n, "declarator"@, d)
            ==> templates::alias_name_node(t, n) == templates::alias_name_node(t, d as int),
{
    if tree_laws::fills_field(t, n, "declarator"@, d) {
        tree_laws::lemma_first_is_one(t, n, "declarator"@, d);
    }
}

proof fn lemma_class_node(t: SyntaxTree, n: int, k: int, i: int)
    requires
        0 <= k <= i < t.children(n).len(),
        infer::names_class(t.spec_kind(t.children(n)[i] as int)),
        forall|j: int|
            k <= j < i ==> !infer::names_class(t.spec_kind((#[trigger] t.children(n)[j]) as int)),
    ensures
        infer::class_node_from(t, n, k) == Some(t.children(n)[i]),
    decreases i - k,
{
    if k < i {
        assert(!infer::names_class(t.spec_kind(t.children(n)[k] as int)));
        lemma_class_node(t, n, k + 1, i);
    }
}

/// An allocation names its class by the first child that names one.
pub proof fn law_allocations_name_their_class(t: SyntaxTree, n: int, i: int)
    requires
        0 <= i < t.children(n).len(),
        infer::names_class(t.rows@[t.children(n)[i] as int].kind@),
        forall|j: int|
            0 <= j < i ==> !infer::names_class(
                t.rows@[(#[trigger] t.children(n)[j]) as int].kind@,
            ),
    ensures
        infer::class_node_from(t, n, 0) == Some(t.children(n)[i]),
{
    assert forall|j: int| 0 <= j < i implies !infer::names_class(
        t.spec_kind((#[trigger] t.children(n)[j]) as int),
    ) by {
        assert(!infer::names_class(t.rows@[t.children(n)[j] as int].kind@));
    }
    lemma_class_node(t, n, 0, i);
}

/// A conversion is named by what it converts to.
pub proof fn law_conversions_are_named_by_their_target(t: SyntaxTree, source: Seq<char>, n: int)
    requires
        t.wf(),
        0 <= n < t.len(),
        t.rows@[n].kind@ == "operator_cast"@,
    ensures
        declarator::declared_name(t, source, n) == (
            declarator::conversion_text(t, source, n),
            false,
        ),
        members::short_name(t, source, n) == Some(declarator::conversion_text(t, source, n)),
{
    lemma_kinds();
    reveal_strlit("decltype");
    reveal_strlit("attribute_declaration");
    reveal_strlit("attribute_specifier");
    reveal_strlit("ms_declspec_modifier");
    reveal_strlit("ms_call_modifier");
    reveal_strlit("ERROR");
    reveal_strlit("field_identifier");
    reveal_strlit("operator_cast");
    reveal_strlit("parenthesized_declarator");
}

/// What a list of values is made of: a list in it is taken apart, a value stands for
/// itself.
pub proof fn law_nested_lists_are_taken_apart(t: SyntaxTree, c: int)
    requires
        t.wf(),
        0 <= c < t.len(),
        !variables::separates(t, c),
    ensures
        t.rows@[c].kind@ == "initializer_list"@ ==> variables::element(t, c)
            == variables::list_members(t, c),
        t.rows@[c].kind@ != "initializer_list"@ && !variables::pairs(t, c) ==> variables::element(
            t,
            c,
        ) == seq![c as usize],
        t.rows@[c].kind@ != "initializer_list"@ && variables::pairs(t, c) ==> (
        variables::pair_value(t, c) matches Some(v) ==> t.rows@[v as int].kind@
            != "initializer_list"@ ==> variables::element(t, c) == seq![v]),
{
}

/// Behind pointers and arrays stands what they are made of, down to the given depth.
pub proof fn law_aggregates_stand_behind_their_layers(d: DescView, size: Option<u64>, n: nat)
    ensures
        fields::aggregate(DescView::Ptr(Box::new(d)), n + 1) == fields::aggregate(d, n),
        fields::aggregate(d, 0) == d,
        fields::aggregate(DescView::Int, n) == DescView::Int,
{
}

/// A call of an overridable member, other than a constructor, is one of the class of its
/// receiver, else of the one that declares the member.
pub proof fn law_member_calls_start_at_the_receivers_class(
    fns: Seq<FnView>,
    s: SiteView,
    f: FnView,
    class: Seq<char>,
    kind: MethodView,
)
    requires
        s.callee_fn_id == Some(f.id),
        program::fn_by_id(fns, f.id) == Some(f),
        methods::method_of(f.name) == Some((class, kind)),
    ensures
        kind is Ctor || !f.traits.is_cpp ==> dispatch::member_call_of(fns, s) is None,
        !(kind is Ctor) && f.traits.is_cpp ==> (dispatch::member_call_of(fns, s) matches Some(m)
            && m.callee == f && m.class == class && m.kind == kind && m.from == s.span.file && (
        s.receiver_class is None ==> m.root == class) && (s.receiver_class matches Some(r)
            ==> m.root == r)),
{
}

/// How many arguments a member is called with: its parameters but for `this`, or what its
/// declaration says where it lists none.
pub proof fn law_this_is_no_explicit_argument(vars: Seq<Variable>, f: FnView)
    ensures
        f.params.len() > 0 && finalize::takes_this(vars, f) ==> dispatch::explicit_arity(vars, f)
            == Some((f.params.len() - 1) as nat),
        f.params.len() > 0 && !finalize::takes_this(vars, f) ==> dispatch::explicit_arity(vars, f)
            == Some(f.params.len()),
        f.params.len() == 0 ==> (f.traits.explicit_arity matches Some(n)
            ==> dispatch::explicit_arity(vars, f) == Some(n as nat)),
        f.params.len() == 0 && f.traits.explicit_arity is None ==> dispatch::explicit_arity(
            vars,
            f,
        ) is None,
{
}

/// A declaration of a function outside of its class is neither virtual nor final nor a
/// member's; one in its class is what it spells.
pub proof fn law_prototypes_are_what_they_spell(
    place: functions::FnPlace,
    t: SyntaxTree,
    source: Seq<char>,
    n: int,
    is_static: bool,
    arity: u32,
    shape: members::ParamListShape,
)
    ensures
        ({
            let f = functions::prototype_of(place, t, source, n, is_static, arity, shape);
            &&& !f.is_defined && !f.is_virtual && !f.is_final && !f.owner_unresolved
                && !f.defaulted_in_class && !f.declared_in_class
            &&& f.is_cpp == place.is_cpp
        }),
        ({
            let f = functions::member_prototype_of(place, t, source, n, arity, shape);
            &&& !f.is_defined && !f.is_weak && !f.owner_unresolved && !f.defaulted_in_class
            &&& f.declared_in_class && f.is_cpp == place.is_cpp
            &&& f.is_virtual == classes::virtual_under(t, n)
            &&& f.is_final == classes::final_under(t, source, n)
        }),
{
}

/// A callee that a variable names is called through it; one that a function names directly.
pub proof fn law_named_callees_are_direct_where_a_function_is(
    v: VarNames,
    f: FnNames,
    t: SyntaxTree,
    source: Seq<char>,
    n: int,
)
    requires
        t.wf(),
        0 <= n < t.len(),
    ensures
        t.rows@[n].kind@ == "identifier"@ ==> {
            let c = flows::callee_of(v, f, t, source, n);
            &&& c.name == t.text(source, n)
            &&& c.var == v.spec_var(t.text(source, n))
            &&& c.is_direct == (v.spec_var(t.text(source, n)) is None && f.spec_named(
                t.text(source, n),
            ) is Some)
        },
        t.rows@[n].kind@ == "qualified_identifier"@ ==> {
            let c = flows::callee_of(v, f, t, source, n);
            c.name == normalize::qualified_text(t.text(source, n)) && !c.is_direct && c.var is None
        },
{
    lemma_kinds();
    expr::lemma_peeled(t, n);
}

/// A parameter without a declarator has no name and is no pointer.
pub proof fn law_parameters_without_declarators_are_unnamed(
    t: SyntaxTree,
    source: Seq<char>,
    p: int,
    d: usize,
)
    ensures
        t.fielded(p, "declarator"@) is None ==> members::declarator_of(t, source, p).0.len() == 0
            && !members::declarator_of(t, source, p).1,
        tree_laws::fills_field(t, p, "declarator"@, d) ==> members::declarator_of(t, source, p)
            == declarator::declared_name(t, source, d as int),
{
    if tree_laws::fills_field(t, p, "declarator"@, d) {
        tree_laws::lemma_first_is_one(t, p, "declarator"@, d);
    }
}

/// Destructors, operators and qualified names are declared as they are spelled, and are no
/// pointers.
pub proof fn law_special_names_are_declared_as_spelled(t: SyntaxTree, source: Seq<char>, n: int)
    requires
        t.wf(),
        0 <= n < t.len(),
    ensures
        t.rows@[n].kind@ == "destructor_name"@ || t.rows@[n].kind@ == "operator_name"@
            ==> declarator::declared_name(t, source, n) == (
            normalize::qualified_text(t.text(source, n)),
            false,
        ),
        t.rows@[n].kind@ == "qualified_identifier"@ ==> declarator::declared_name(t, source, n)
            == (declarator::qualified_name(t, source, n), false),
{
    lemma_kinds();
}

/// What makes a member a function: a destructor, a conversion or an operator; a type that
/// is computed or another body makes none.
pub proof fn law_special_members_are_functions(t: SyntaxTree, n: int)
    requires
        t.wf(),
        0 <= n < t.len(),
    ensures
        t.rows@[n].kind@ == "destructor_name"@ || t.rows@[n].kind@ == "operator_cast"@
            ==> members::function_member(t, n),
        t.rows@[n].kind@ == "decltype"@ || t.rows@[n].kind@ == "field_declaration_list"@
            ==> !members::function_member(t, n),
        declarator::opens_with_operator(t, n) && t.rows@[n].kind@ != "decltype"@
            && t.rows@[n].kind@ != "field_declaration_list"@ ==> members::function_member(t, n),
{
    reveal_strlit("destructor_name");
    reveal_strlit("operator_cast");
    reveal_strlit("decltype");
    reveal_strlit("field_declaration_list");
    assert("destructor_name"@.len() == 15 && "operator_cast"@.len() == 13 && "decltype"@.len()
        == 8 && "field_declaration_list"@.len() == 22);
}

/// A template that is spelled with its arguments keeps them where what it holds matters: an
/// unknown class, one with an arrow, or a smart pointer; an alias that it declares is what
/// that stands for.
pub proof fn law_templates_keep_their_arguments(
    s: NameScope,
    x: ClassIndex,
    raw: Seq<char>,
    d: DescView,
)
    ensures
        ({
            let cls = s.spec_qualified_class(
                x,
                normalize::qualified_text(normalize::head_of(raw)),
            );
            let member = types::template_member(cls, raw);
            &&& (member matches Some(m) && x.spec_alias(m) == Some(d)) ==> types::template_type(
                s,
                x,
                raw,
            ) == Some(d)
            &&& member is None && (!x.spec_defined(cls) || x.spec_arrow(cls)
                || normalize::smart_ptr_name(cls)) ==> (types::template_type(s, x, raw) matches Some(
                DescView::Struct { name, .. },
            ) && name == s.spec_template(x, raw))
            &&& member is None && x.spec_defined(cls) && !x.spec_arrow(cls)
                && !normalize::smart_ptr_name(cls) && !x.spec_template_returns(cls) && text::trim(
                spelling::tail_of(raw),
            ).len() == 0 ==> types::template_type(s, x, raw) == Some(
                DescView::Struct { name: cls, fields: Seq::empty() },
            )
        }),
{
}

/// A literal among a template's arguments is told by how it begins.
pub proof fn law_literals_are_told_by_their_start(s: Seq<char>)
    ensures
        s.len() > 0 && ('0' <= s[0] <= '9' || s[0] == '-' || s[0] == '"' || s[0] == '\'')
            ==> spelling::literal_spelling(s),
        s == "true"@ || s == "false"@ || s == "nullptr"@ ==> spelling::literal_spelling(s),
        s.len() == 0 ==> !spelling::literal_spelling(s),
        s.len() > 0 && (s[0] == '_' || s[0] == ':' || 'A' <= s[0] <= 'Z')
            ==> !spelling::literal_spelling(s),
{
    reveal_strlit("true");
    reveal_strlit("false");
    reveal_strlit("nullptr");
    assert("true"@[0] == 't' && "false"@[0] == 'f' && "nullptr"@[0] == 'n');
}

/// A class that is only named where something is declared with it is a reference to it.
pub proof fn law_named_classes_are_references(t: SyntaxTree, n: int, p: usize, d: usize)
    requires
        t.spec_parent(n) == Some(p),
    ensures
        t.fielded(n, "body"@) is Some ==> !classes::class_reference(t, n),
        t.fielded(n, "body"@) is None && tree_laws::fills_field(t, p as int, "declarator"@, d)
            ==> classes::class_reference(t, n),
        t.fielded(p as int, "declarator"@) is None ==> !classes::class_reference(t, n),
{
    if tree_laws::fills_field(t, p as int, "declarator"@, d) {
        tree_laws::lemma_first_is_one(t, p as int, "declarator"@, d);
    }
}

/// A lambda that lists nothing captures nothing.
pub proof fn law_empty_captures_capture_nothing(
    t: SyntaxTree,
    source: Seq<char>,
    list: int,
    has_this: bool,
)
    requires
        t.children(list).len() == 0,
    ensures
        ({
            let c = lambda::captures_upto(t, source, list, has_this, 0);
            !c.this && !c.all && c.named.len() == 0 && c.inits.len() == 0
        }),
{
}

} // verus!
