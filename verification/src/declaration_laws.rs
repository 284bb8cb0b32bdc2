//! What declarations declare: variables, parameters, functions and classes.

use crate::classes;
use crate::declarations;
use crate::declarations::DeclStep;
use crate::declarator;
use crate::functions;
use crate::functions::FnPlace;
use crate::ir::{DescView, FnId, Linkage, StorageClass, VarId};
use crate::lookup::ClassIndex;
use crate::members;
use crate::members::ParamListShape;
use crate::receivers;
use crate::registration;
use crate::registration::{BodyStep, MemberRole};
use crate::scope::NameScope;
use crate::shape_laws;
use crate::signature;
use crate::syntax::SyntaxTree;
use crate::text;
use crate::tree_laws;
use crate::variables;
use crate::variables::{Declared, DeclPlace, DirectInit, InitSubject};
use vstd::prelude::*;

verus! {

proof fn lemma_kinds()
    ensures
        "identifier"@.len() == 10,
        "init_declarator"@.len() == 15,
        "declarator"@.len() == 10,
        "pointer_declarator"@.len() == 18,
        "reference_declarator"@.len() == 20,
        "function_declarator"@.len() == 19,
        "array_declarator"@.len() == 16,
        "initializer_list"@.len() == 16,
        "argument_list"@.len() == 13,
        "initializer_pair"@.len() == 16,
        "designated_initializer"@.len() == 22,
        "parenthesized_declarator"@.len() == 24,
        "field_declaration"@.len() == 17,
        "template_declaration"@.len() == 20,
        "type_definition"@.len() == 15,
        "alias_declaration"@.len() == 17,
        "declaration"@.len() == 11,
        "field_declaration_list"@.len() == 22,
        "decltype"@.len() == 8,
        "ERROR"@.len() == 5,
        "destructor_name"@.len() == 15,
        "operator_cast"@.len() == 13,
        "field_identifier"@.len() == 16,
        "operator_name"@.len() == 13,
        "function_definition"@.len() == 19,
        "("@.len() == 1,
        ")"@.len() == 1,
        ","@.len() == 1,
        "identifier"@[0] == 'i',
        "declarator"@[0] == 'd',
        "init_declarator"@[0] == 'i',
        "type_definition"@[0] == 't',
        "destructor_name"@[0] == 'd',
        "reference_declarator"@[0] == 'r',
        "template_declaration"@[0] == 't',
        "function_declarator"@[11] == 'c',
        "function_definition"@[11] == 'f',
        "array_declarator"@[0] == 'a',
        "initializer_list"@[0] == 'i',
        "initializer_pair"@[0] == 'i',
        "field_identifier"@[0] == 'f',
        "initializer_list"@[12] == 'l',
        "initializer_pair"@[12] == 'p',
        "argument_list"@[0] == 'a',
        "operator_cast"@[0] == 'o',
        "operator_name"@[0] == 'o',
        "operator_cast"@[9] == 'c',
        "operator_name"@[9] == 'n',
        "designated_initializer"@[0] == 'd',
        "field_declaration_list"@[0] == 'f',
        "field_declaration"@[0] == 'f',
        "alias_declaration"@[0] == 'a',
        "("@[0] == '(',
        ")"@[0] == ')',
        ","@[0] == ',',
{
    reveal_strlit("identifier");
    reveal_strlit("init_declarator");
    reveal_strlit("declarator");
    reveal_strlit("pointer_declarator");
    reveal_strlit("reference_declarator");
    reveal_strlit("function_declarator");
    reveal_strlit("array_declarator");
    reveal_strlit("initializer_list");
    reveal_strlit("argument_list");
    reveal_strlit("initializer_pair");
    reveal_strlit("designated_initializer");
    reveal_strlit("parenthesized_declarator");
    reveal_strlit("field_declaration");
    reveal_strlit("template_declaration");
    reveal_strlit("type_definition");
    reveal_strlit("alias_declaration");
    reveal_strlit("declaration");
    reveal_strlit("field_declaration_list");
    reveal_strlit("decltype");
    reveal_strlit("ERROR");
    reveal_strlit("destructor_name");
    reveal_strlit("operator_cast");
    reveal_strlit("field_identifier");
    reveal_strlit("operator_name");
    reveal_strlit("function_definition");
    reveal_strlit("(");
    reveal_strlit(")");
    reveal_strlit(",");
}

/// The node spells `static`.
pub open spec fn spells_static(t: SyntaxTree, n: int) -> bool {
    exists|k: int, j: int|
        0 <= k < t.children(n).len() && t.rows@[t.children(n)[k] as int].kind@
            == "storage_class_specifier"@ && 0 <= j < t.children(t.children(n)[k] as int).len()
            && t.rows@[#[trigger] t.children(t.children(n)[k] as int)[j] as int].kind@
            == "static"@
}

/// A declaration is static just where it spells so.
pub proof fn law_static_is_what_is_spelled(t: SyntaxTree, n: int)
    ensures
        variables::statically_declared(t, n) <==> spells_static(t, n),
{
    if variables::statically_declared(t, n) {
        let k = choose|k: int|
            0 <= k < t.children(n).len() && variables::static_specifier(
                t,
                #[trigger] t.children(n)[k] as int,
            );
        let c = t.children(n)[k] as int;
        tree_laws::law_kinds_find_the_first_child_of_them(t, c, "static"@);
        let d = t.of_kind(c, "static"@)->0;
        let p = |m: int| t.rows@[m].kind@ == "static"@;
        let j = choose|j: int|
            0 <= j < t.children(c).len() && #[trigger] t.children(c)[j] == d && p(d as int)
                && forall|i: int| 0 <= i < j ==> !p(#[trigger] t.children(c)[i] as int);
        assert(t.rows@[t.children(t.children(n)[k] as int)[j] as int].kind@ == "static"@);
    }
    if spells_static(t, n) {
        let (k, j) = choose|k: int, j: int|
            0 <= k < t.children(n).len() && t.rows@[t.children(n)[k] as int].kind@
                == "storage_class_specifier"@ && 0 <= j < t.children(
                t.children(n)[k] as int,
            ).len() && t.rows@[#[trigger] t.children(t.children(n)[k] as int)[j] as int].kind@
                == "static"@;
        let c = t.children(n)[k] as int;
        tree_laws::law_kinds_find_the_first_child_of_them(t, c, "static"@);
        let p = |m: int| t.rows@[m].kind@ == "static"@;
        assert(p(t.children(c)[j] as int));
        assert(variables::static_specifier(t, t.children(n)[k] as int));
    }
}

/// Where a variable is kept is told by where it is declared and whether it is static.
pub proof fn law_storage_is_told_by_the_place(
    v: Declared,
    place: DeclPlace,
    t: SyntaxTree,
    source: Seq<char>,
    owner: int,
    initialized: bool,
)
    requires
        variables::is_declared_as(v, place, t, source, owner, initialized),
        place.storage_override is None,
    ensures
        place.in_function && place.is_static ==> v.storage == StorageClass::FnStatic,
        place.in_function && !place.is_static ==> v.storage == StorageClass::Local,
        !place.in_function && place.is_static ==> v.storage == StorageClass::FileStatic,
        !place.in_function && !place.is_static ==> v.storage == StorageClass::Global,
        v.is_weak || v.is_namespaced ==> v.storage == StorageClass::Global,
        v.storage == StorageClass::Global ==> v.is_namespaced == place.in_namespace,
        place.in_function ==> !v.is_defined && !v.is_weak && !v.is_namespaced,
        !place.in_function && initialized ==> v.is_defined,
{
}

/// A declaration outside functions defines its variable, unless it spells `extern` and
/// gives no value.
pub proof fn law_declarations_define_unless_they_say_otherwise(
    v: Declared,
    place: DeclPlace,
    t: SyntaxTree,
    source: Seq<char>,
    owner: int,
    d: usize,
)
    requires
        variables::is_declared_as(v, place, t, source, owner, false),
        !place.in_function,
        t.declaration_of(owner, false) == Some(d),
    ensures
        v.is_defined <==> forall|k: int|
            0 <= k < t.named(d as int).len() ==> !(t.rows@[#[trigger] t.named(d as int)[
                k
            ] as int].kind@ == "storage_class_specifier"@ && t.text(
                source,
                t.named(d as int)[k] as int,
            ) == "extern"@),
{
    let nodes = t.named(d as int);
    assert forall|k: int|
        0 <= k < nodes.len() && !(#[trigger] variables::outside_specifier(
            t,
            source,
            nodes[k] as int,
        )) implies !(t.rows@[nodes[k] as int].kind@ == "storage_class_specifier"@ && t.text(
        source,
        nodes[k] as int,
    ) == "extern"@) by {}
    if !v.is_defined {
        let k = choose|k: int|
            0 <= k < nodes.len() && variables::outside_specifier(
                t,
                source,
                #[trigger] nodes[k] as int,
            );
        assert(t.rows@[nodes[k] as int].kind@ == "storage_class_specifier"@);
    }
}

/// What a variable is initialized with flows into it, unless its class is constructed from
/// it or the file is no code of the program's.
pub proof fn law_initial_values_flow(
    t: SyntaxTree,
    s: InitSubject,
    owner: int,
    decl: int,
    value: usize,
)
    ensures
        ({
            let plan = variables::plan_of(t, s, owner, decl, Some(value));
            let kind = t.rows@[value as int].kind@;
            let constructed = s.is_cpp && s.in_function && s.is_class && t.rows@[owner].kind@
                == "init_declarator"@;
            let to_fn = declarator::function_pointer(t, decl);
            &&& s.in_dep_file ==> plan.flow is None && plan.ctor_args is None
                && !plan.parks_members
            &&& !s.in_dep_file && kind != "argument_list"@ && kind != "initializer_list"@
                ==> plan.flow == Some(value)
            &&& !s.in_dep_file && kind == "initializer_list"@ && !(constructed && s.has_user_ctor)
                ==> plan.flow == Some(value)
            &&& !s.in_dep_file && !to_fn && kind == "initializer_list"@ && constructed
                && s.has_user_ctor ==> plan.flow is None && plan.ctor_args == Some(value)
            &&& !s.in_dep_file && !to_fn && kind == "argument_list"@ ==> plan.flow is None
            &&& !s.in_dep_file && !to_fn && kind == "argument_list"@ && constructed
                ==> plan.ctor_args == Some(value)
            &&& plan.parks_members ==> plan.flow == Some(value) && kind == "initializer_list"@
            &&& plan.flow == Some(value) && kind == "initializer_list"@ && s.is_array
                ==> plan.parks_members
        }),
{
    lemma_kinds();
}

/// An object that parenthesized values initialize is constructed where it is a class, and
/// else takes over the one variable or the one function.
pub proof fn law_direct_initialization(v: VarId, f: FnId, at: u32, in_function: bool)
    ensures
        variables::direct_effect(seq![(at, v)], seq![], false, in_function, false)
            == DirectInit::Copy(v),
        variables::direct_effect(seq![], seq![(at, f)], false, in_function, false)
            == DirectInit::AddrOfFn(f),
        forall|vars: Seq<(u32, VarId)>, fns: Seq<(u32, FnId)>|
            #[trigger] variables::direct_effect(vars, fns, true, true, false)
                == DirectInit::Construct,
        forall|vars: Seq<(u32, VarId)>, fns: Seq<(u32, FnId)>, c: bool|
            #[trigger] variables::direct_effect(vars, fns, c, in_function, true)
                == DirectInit::Nothing,
{
}

/// The type of a variable is what its declarator makes of the spelled type; what is
/// inferred replaces it where it has as many pointers as are spelled.
pub proof fn law_variables_have_the_declared_type(
    t: SyntaxTree,
    decl: int,
    base: DescView,
    inferred: DescView,
)
    ensures
        variables::variable_desc(t, decl, base, None) == declarator::shaped(t, decl, base),
        declarator::pointers_above(t, decl) == 0 ==> variables::variable_desc(
            t,
            decl,
            base,
            Some(inferred),
        ) == inferred,
        declarator::pointers_above(t, decl) > 0 && !(inferred is Ptr) ==> variables::variable_desc(
            t,
            decl,
            base,
            Some(inferred),
        ) == declarator::shaped(t, decl, base),
        variables::depth_of(DescView::Ptr(Box::new(inferred))) == variables::depth_of(inferred) + 1,
{
}

proof fn lemma_list_from(t: SyntaxTree, n: int, k: int, i: int, m: usize)
    requires
        t.wf(),
        0 <= n < t.len(),
        0 <= k <= i < t.children(n).len(),
        variables::element(t, t.children(n)[i] as int).contains(m),
    ensures
        variables::list_members_from(t, n, k).contains(m),
    decreases i - k,
{
    let own = variables::element(t, t.children(n)[k] as int);
    let rest = variables::list_members_from(t, n, k + 1);
    let all = variables::list_members_from(t, n, k);
    assert(all == own + rest);
    if k == i {
        let j = choose|j: int| 0 <= j < own.len() && own[j] == m;
        assert(all[j] == m);
    } else {
        lemma_list_from(t, n, k + 1, i, m);
        let j = choose|j: int| 0 <= j < rest.len() && rest[j] == m;
        assert(all[own.len() + j] == m);
    }
}

/// The members of an initializer list are its values, and those of the lists in it.
pub proof fn law_lists_hold_their_values(t: SyntaxTree, n: int, i: int, m: usize)
    requires
        t.wf(),
        0 <= n < t.len(),
        0 <= i < t.children(n).len(),
    ensures
        ({
            let c = t.children(n)[i];
            let kind = t.rows@[c as int].kind@;
            &&& kind != "("@ && kind != ")"@ && kind != ","@ && kind != "initializer_list"@ && kind
                != "initializer_pair"@ && kind != "designated_initializer"@
                ==> variables::list_members(t, n).contains(c)
            &&& kind == "initializer_list"@ && variables::list_members(t, c as int).contains(m)
                ==> variables::list_members(t, n).contains(m)
        }),
{
    let c = t.children(n)[i];
    lemma_kinds();
    let e = variables::element(t, c as int);
    let kind = t.rows@[c as int].kind@;
    if kind != "("@ && kind != ")"@ && kind != ","@ && kind != "initializer_list"@ && kind
        != "initializer_pair"@ && kind != "designated_initializer"@ {
        assert(e[0] == c);
        lemma_list_from(t, n, 0, i, c);
    }
    if kind == "initializer_list"@ && variables::list_members(t, c as int).contains(m) {
        lemma_list_from(t, n, 0, i, m);
    }
}

proof fn lemma_steps(t: SyntaxTree, n: int, in_function: bool, k: int, i: int)
    requires
        0 <= k <= t.children(n).len(),
        0 <= i < t.children(n).len(),
        declarations::step_of(t, t.children(n)[i], in_function) is Some,
    ensures
        i < k ==> declarations::steps_upto(t, n, in_function, k).contains(
            declarations::step_of(t, t.children(n)[i], in_function)->0,
        ),
    decreases k,
{
    if k > 0 {
        lemma_steps(t, n, in_function, k - 1, i);
        let before = declarations::steps_upto(t, n, in_function, k - 1);
        let all = declarations::steps_upto(t, n, in_function, k);
        let own = declarations::step_of(t, t.children(n)[i], in_function)->0;
        if i == k - 1 {
            assert(all[before.len() as int] == own);
        } else if i < k - 1 {
            let j = choose|j: int| 0 <= j < before.len() && before[j] == own;
            assert(all[j] == own);
        }
    }
}

/// Every declarator of a declaration is lowered: one with a value with it, a bare name as
/// a variable, a pointer or an array as a variable that it shapes, and a function
/// declarator as a function.
pub proof fn law_every_declarator_is_lowered(
    t: SyntaxTree,
    n: int,
    in_function: bool,
    i: int,
    d: usize,
    v: usize,
)
    requires
        t.wf(),
        0 <= n < t.len(),
        t.fielded(n, "type"@) is Some,
        t.fielded(n, "value"@) is None,
        0 <= i < t.children(n).len(),
    ensures
        ({
            let c = t.children(n)[i];
            let kind = t.rows@[c as int].kind@;
            let steps = declarations::steps_of(t, n, in_function);
            &&& kind == "init_declarator"@ && tree_laws::fills_field(t, c as int, "declarator"@, d)
                && tree_laws::fills_field(t, c as int, "value"@, v) ==> steps.contains(
                DeclStep::Initialized { owner: c, decl: d, value: Some(v) },
            )
            &&& kind == "identifier"@ ==> steps.contains(DeclStep::Plain { name: c })
            &&& kind == "array_declarator"@ ==> steps.contains(DeclStep::Shaped { decl: c })
            &&& shape_laws::is_layer(t, c as int, "pointer_declarator"@, d)
                && shape_laws::is_plain_name(t, d as int) ==> steps.contains(
                DeclStep::Shaped { decl: c },
            )
            &&& shape_laws::is_layer(t, c as int, "function_declarator"@, d)
                && shape_laws::is_plain_name(t, d as int) ==> steps.contains(
                DeclStep::FnLike { decl: c, depth: 0, binds_reference: false },
            )
        }),
{
    let c = t.children(n)[i];
    let kind = t.rows@[c as int].kind@;
    lemma_kinds();
    shape_laws::lemma_layers();
    if tree_laws::fills_field(t, c as int, "declarator"@, d) {
        tree_laws::lemma_first_is_one(t, c as int, "declarator"@, d);
        t.lemma_fielded(c as int, "declarator"@);
    }
    if tree_laws::fills_field(t, c as int, "value"@, v) {
        tree_laws::lemma_first_is_one(t, c as int, "value"@, v);
    }
    shape_laws::law_the_declared_function_lies_under_its_layers(t, c as int, 0, false, d);
    if shape_laws::is_layer(t, c as int, "pointer_declarator"@, d) {
        shape_laws::law_the_declared_function_lies_under_its_layers(t, d as int, 1, false, 0);
    }
    if declarations::step_of(t, c, in_function) is Some {
        lemma_steps(t, n, in_function, t.children(n).len() as int, i);
    }
}

/// A parameter is passed as its declarator shapes the spelled type; an unnamed one takes
/// its place under a name that counts, and `void` alone is none.
pub proof fn law_parameters_are_as_declared(
    s: NameScope,
    x: ClassIndex,
    tags: Seq<(usize, String)>,
    t: SyntaxTree,
    source: Seq<char>,
    p: int,
    index: nat,
)
    ensures
        ({
            let (name, pointer) = members::declarator_of(t, source, p);
            let got = functions::param_at(s, x, tags, t, source, p, index);
            &&& name.len() > 0 || pointer ==> got is Some
            &&& got matches Some(own) ==> own.node == p as usize && own.is_pointer == pointer
                && own.is_named == (name.len() > 0) && (name.len() > 0 ==> own.name == name)
                && (name.len() == 0 ==> own.name == "$arg"@ + text::decimal(index))
        }),
{
}

/// The type of a parameter: the declarator's shape, and a pointer for a reference.
pub proof fn law_references_are_passed_as_pointers(
    t: SyntaxTree,
    source: Seq<char>,
    p: int,
    d: usize,
    c: usize,
    base: DescView,
)
    requires
        t.wf(),
        0 <= p < t.len(),
        tree_laws::fills_field(t, p, "declarator"@, d),
        !(base is Ptr) && !(base is Array),
    ensures
        t.rows@[d as int].kind@ == "reference_declarator"@ ==> members::parameter_desc(
            t,
            source,
            p,
            base,
        ) == DescView::Ptr(Box::new(base)),
        shape_laws::is_plain_name(t, d as int) && t.children(d as int).len() == 0
            ==> members::parameter_desc(t, source, p, base) == base,
        shape_laws::is_layer(t, d as int, "pointer_declarator"@, c) ==> members::parameter_desc(
            t,
            source,
            p,
            base,
        ) == declarator::shaped(t, d as int, base),
{
    lemma_kinds();
    shape_laws::lemma_layers();
    tree_laws::lemma_first_is_one(t, p, "declarator"@, d);
    t.lemma_fielded(p, "declarator"@);
    shape_laws::law_declarators_shape_the_type(t, d as int, base, c);
    tree_laws::law_fields_find_the_child_that_fills_them(t, d as int, "declarator"@);
    if t.children(d as int).len() == 0 {
        assert(t.fielded(d as int, "declarator"@) is None);
        shape_laws::law_layers_keep_the_declared_name(t, source, d as int, c);
    }
}

/// The parameters are counted one by one: each that is declared and is not `void` alone
/// counts, and each with a default is optional.
pub proof fn law_parameters_are_counted(t: SyntaxTree, source: Seq<char>, n: int)
    ensures
        members::parameters_upto(t, source, n, t.children(n).len() as int) == t.children(n).filter(
            |c: usize| is_parameter(t, source, c),
        ).len(),
        members::defaults_upto(t, n, t.children(n).len() as int) == t.children(n).filter(
            |c: usize| t.rows@[c as int].kind@ == "optional_parameter_declaration"@,
        ).len(),
{
    let k = t.children(n).len() as int;
    lemma_counted(t, source, n, k);
    assert(t.children(n).take(k) =~= t.children(n));
}

pub open spec fn is_parameter(t: SyntaxTree, source: Seq<char>, c: usize) -> bool {
    let kind = t.rows@[c as int].kind@;
    &&& kind == "parameter_declaration"@ || kind == "optional_parameter_declaration"@
    &&& !(t.fielded(c as int, "declarator"@) is None && (t.fielded(c as int, "type"@) matches Some(
        ty,
    ) && t.text(source, ty as int) == "void"@))
}

proof fn lemma_counted(t: SyntaxTree, source: Seq<char>, n: int, k: int)
    requires
        0 <= k <= t.children(n).len(),
    ensures
        members::parameters_upto(t, source, n, k) == t.children(n).take(k).filter(
            |c: usize| is_parameter(t, source, c),
        ).len(),
        members::defaults_upto(t, n, k) == t.children(n).take(k).filter(
            |c: usize| t.rows@[c as int].kind@ == "optional_parameter_declaration"@,
        ).len(),
    decreases k,
{
    reveal(Seq::filter);
    if k > 0 {
        lemma_counted(t, source, n, k - 1);
        let some = t.children(n).take(k);
        assert(some.drop_last() =~= t.children(n).take(k - 1));
        assert(some.last() == t.children(n)[k - 1]);
    }
}

/// A function is seen by its unit alone where it is static and no member, or where it or
/// its class stands in an anonymous namespace; a definition in a dependency's file counts
/// as a declaration.
pub proof fn law_functions_are_linked_as_spelled(
    place: FnPlace,
    t: SyntaxTree,
    source: Seq<char>,
    n: int,
    arity: u32,
    shape: ParamListShape,
)
    ensures
        ({
            let f = functions::definition_of(place, t, source, n, arity, shape);
            let hidden = spells_static(t, n) && !place.is_member || place.in_anonymous
                || place.is_member && place.class_is_anonymous;
            &&& f.linkage == (if hidden {
                Linkage::Internal
            } else {
                Linkage::External
            })
            &&& f.is_defined == !place.is_dep_file
            &&& f.is_cpp == place.is_cpp
            &&& f.variadic == shape.variadic
            &&& f.default_args == shape.defaults
            &&& f.explicit_arity == Some(arity)
            &&& f.declared_in_class == place.in_class
            &&& f.owner_unresolved == place.owner_unresolved
            &&& hidden ==> !f.is_weak
        }),
        ({
            let f = functions::prototype_of(place, t, source, n, true, arity, shape);
            let g = functions::prototype_of(place, t, source, n, false, arity, shape);
            &&& f.linkage == Linkage::Internal && g.linkage == Linkage::External
            &&& !f.is_weak
            &&& g.explicit_arity == Some(arity) && g.variadic == shape.variadic && g.default_args
                == shape.defaults
        }),
        ({
            let f = functions::member_prototype_of(place, t, source, n, arity, shape);
            &&& f.linkage == (if place.in_anonymous {
                Linkage::Internal
            } else {
                Linkage::External
            })
            &&& f.declared_in_class
            &&& f.explicit_arity == Some(arity) && f.variadic == shape.variadic && f.default_args
                == shape.defaults
        }),
{
    law_static_is_what_is_spelled(t, n);
}

/// What stands under a node that spells it makes a member virtual.
pub proof fn law_virtual_is_what_is_spelled(t: SyntaxTree, n: int, i: int)
    requires
        t.wf(),
        0 <= n < t.len(),
        0 <= i < t.children(n).len(),
    ensures
        ({
            let c = t.children(n)[i] as int;
            &&& t.rows@[c].kind@ == "virtual"@ || t.rows@[c].kind@ == "virtual_specifier"@
                ==> classes::virtual_under(t, n)
            &&& classes::virtual_under(t, c) ==> classes::virtual_under(t, n)
        }),
        t.children(n).len() == 0 ==> !classes::virtual_under(t, n),
{
    let c = t.children(n)[i] as int;
    assert(t.children(n)[i] as int == c);
}

/// A function gives what its type is, behind the pointers of its declarator; where that
/// depends on a template's parameter, it is not known.
pub proof fn law_results_count_their_pointers(
    t: SyntaxTree,
    source: Seq<char>,
    n: int,
    base: DescView,
    d: usize,
    c: usize,
    e: usize,
)
    requires
        t.wf(),
        0 <= n < t.len(),
        tree_laws::fills_field(t, n, "declarator"@, d),
    ensures
        shape_laws::is_layer(t, d as int, "function_declarator"@, c) && shape_laws::is_plain_name(
            t,
            c as int,
        ) ==> functions::return_desc(false, t, source, n, base) == base,
        shape_laws::is_layer(t, d as int, "pointer_declarator"@, c) && shape_laws::is_layer(
            t,
            c as int,
            "function_declarator"@,
            e,
        ) && shape_laws::is_plain_name(t, e as int) ==> functions::return_desc(
            false,
            t,
            source,
            n,
            base,
        ) == DescView::Ptr(Box::new(base)),
{
    lemma_kinds();
    shape_laws::lemma_layers();
    tree_laws::lemma_first_is_one(t, n, "declarator"@, d);
    t.lemma_fielded(n, "declarator"@);
    shape_laws::law_the_declared_function_lies_under_its_layers(t, d as int, 0, false, c);
    if shape_laws::is_layer(t, d as int, "pointer_declarator"@, c) {
        tree_laws::lemma_first_is_one(t, d as int, "declarator"@, c);
        t.lemma_fielded(d as int, "declarator"@);
        shape_laws::law_the_declared_function_lies_under_its_layers(t, c as int, 1, false, e);
    }
    reveal_with_fuel(receivers::pointed, 3);
}

proof fn lemma_bases_in(t: SyntaxTree, clause: int, k: int)
    requires
        0 <= k <= t.children(clause).len(),
    ensures
        registration::bases_in(t, clause, k) == t.children(clause).take(k).filter(
            |c: usize| registration::names_base(t, c as int),
        ),
    decreases k,
{
    reveal(Seq::filter);
    if k > 0 {
        lemma_bases_in(t, clause, k - 1);
        let some = t.children(clause).take(k);
        assert(some.drop_last() =~= t.children(clause).take(k - 1));
        assert(some.last() == t.children(clause)[k - 1]);
    }
}

proof fn lemma_bases_upto(t: SyntaxTree, n: int, k: int, i: int, j: int)
    requires
        0 <= k <= t.children(n).len(),
        0 <= i < t.children(n).len(),
        t.rows@[t.children(n)[i] as int].kind@ == "base_class_clause"@,
        0 <= j < t.children(t.children(n)[i] as int).len(),
        registration::names_base(t, t.children(t.children(n)[i] as int)[j] as int),
    ensures
        i < k ==> registration::bases_upto(t, n, k).contains(
            t.children(t.children(n)[i] as int)[j],
        ),
    decreases k,
{
    if k > 0 {
        lemma_bases_upto(t, n, k - 1, i, j);
        let clause = t.children(n)[i] as int;
        let b = t.children(clause)[j];
        let before = registration::bases_upto(t, n, k - 1);
        let all = registration::bases_upto(t, n, k);
        if i == k - 1 {
            let len = t.children(clause).len() as int;
            lemma_bases_in(t, clause, len);
            assert(t.children(clause).take(len) =~= t.children(clause));
            let p = |c: usize| registration::names_base(t, c as int);
            t.children(clause).lemma_filter_contains(p, j);
            let own = registration::bases_in(t, clause, len);
            let m = choose|m: int| 0 <= m < own.len() && own[m] == b;
            assert(all[before.len() + m] == b);
        } else if i < k - 1 {
            let m = choose|m: int| 0 <= m < before.len() && before[m] == b;
            assert(all[m] == b);
        }
    }
}

/// Every class that the base clause of a class names is one of its bases.
pub proof fn law_named_bases_are_bases(t: SyntaxTree, n: int, i: int, j: int)
    requires
        0 <= i < t.children(n).len(),
        t.rows@[t.children(n)[i] as int].kind@ == "base_class_clause"@,
        0 <= j < t.children(t.children(n)[i] as int).len(),
    ensures
        ({
            let c = t.children(t.children(n)[i] as int)[j];
            let kind = t.rows@[c as int].kind@;
            t.rows@[c as int].is_named && (kind == "type_identifier"@ || kind
                == "qualified_identifier"@ || kind == "template_type"@)
                ==> registration::bases_named(t, n).contains(c)
        }),
{
    let c = t.children(t.children(n)[i] as int)[j];
    if registration::names_base(t, c as int) {
        lemma_bases_upto(t, n, t.children(n).len() as int, i, j);
    }
}

/// What the body of a class declares: a field is a data member unless it declares a
/// function, a class that is defined in it is registered, and so is an alias in C++.
pub proof fn law_bodies_declare_their_members(t: SyntaxTree, is_cpp: bool, c: int, ty: usize)
    requires
        t.wf(),
        0 <= c < t.len(),
    ensures
        ({
            let kind = t.rows@[c].kind@;
            let step = registration::step_of(t, is_cpp, c);
            &&& kind == "field_declaration"@ && !members::function_member(t, c) && (!is_cpp
                || t.fielded(c, "declarator"@) is Some) ==> step == BodyStep::Field(c as usize)
            &&& kind == "field_declaration"@ && members::function_member(t, c) ==> step
                == BodyStep::Nothing
            &&& (kind == "type_definition"@ || kind == "alias_declaration"@) && is_cpp ==> step
                == BodyStep::Alias(c as usize)
            &&& (kind == "type_definition"@ || kind == "alias_declaration"@) && !is_cpp ==> step
                == BodyStep::Nothing
            &&& kind == "field_declaration"@ && is_cpp && !members::function_member(t, c)
                && t.fielded(c, "declarator"@) is None && tree_laws::fills_field(
                t,
                c,
                "type"@,
                ty,
            ) && classes::named_class(t, ty as int) ==> step == BodyStep::Class(ty)
        }),
{
    lemma_kinds();
    if tree_laws::fills_field(t, c, "type"@, ty) {
        tree_laws::lemma_first_is_one(t, c, "type"@, ty);
    }
}

/// A member declaration that declares a function registers its prototype.
pub proof fn law_member_functions_are_registered(t: SyntaxTree, m: int)
    requires
        t.wf(),
        0 <= m < t.len(),
        t.rows@[m].kind@ == "field_declaration"@,
        classes::member_definition(t, m) is None,
    ensures
        members::function_member(t, m) ==> registration::role_of(t, m) == MemberRole::Prototype(
            m as usize,
        ),
        !members::function_member(t, m) ==> registration::role_of(t, m) == MemberRole::Nothing,
{
    lemma_kinds();
}

/// A declaration holds a function member where one of its declarators names one.
pub proof fn law_function_members_are_recognized(t: SyntaxTree, n: int, i: int, c: usize)
    requires
        t.wf(),
        0 <= n < t.len(),
    ensures
        shape_laws::is_layer(t, n, "function_declarator"@, c) && t.rows@[c as int].kind@
            == "field_identifier"@ ==> members::function_member(t, n),
        t.rows@[n].kind@ == "field_declaration"@ && 0 <= i < t.children(n).len()
            && members::function_member(t, t.children(n)[i] as int) ==> members::function_member(
            t,
            n,
        ),
        t.children(n).len() == 0 && is_field_name(t, n) ==> !members::function_member(t, n),
{
    lemma_kinds();
    if tree_laws::fills_field(t, n, "declarator"@, c) {
        tree_laws::lemma_first_is_one(t, n, "declarator"@, c);
    }
    if 0 <= i < t.children(n).len() {
        assert(t.children(n)[i] == t.children(n)[i]);
    }
}

pub open spec fn is_field_name(t: SyntaxTree, n: int) -> bool {
    t.rows@[n].kind@ == "field_identifier"@ || t.rows@[n].kind@ == "identifier"@
}

proof fn lemma_find_last(s: Seq<char>, p: Seq<char>, from: int, at: int)
    requires
        0 <= at <= from,
        text::has_at(s, p, at),
        forall|i: int| at < i <= from ==> !(#[trigger] text::has_at(s, p, i)),
    ensures
        text::find_last(s, p, from) == at,
    decreases from - at,
{
    if from > at {
        lemma_find_last(s, p, from - 1, at);
    }
}

/// The class that a definition outside it belongs to is the one its name is qualified
/// with.
pub proof fn law_members_defined_outside_belong_to_their_class(
    x: ClassIndex,
    cls: Seq<char>,
    short: Seq<char>,
)
    requires
        x.spec_typed(cls) is Some,
        forall|i: int| !(#[trigger] text::has_at(":"@ + short, "::"@, i)),
    ensures
        signature::owner_class(x, cls + "::"@ + short) == Some(cls),
        signature::parted(cls + "::"@ + short) == Some((cls, short)),
{
    reveal_strlit("::");
    reveal_strlit(":");
    let name = cls + "::"@ + short;
    let at = cls.len() as int;
    assert(name.subrange(at, at + 2) =~= "::"@);
    assert forall|i: int| at < i <= name.len() implies !(#[trigger] text::has_at(
        name,
        "::"@,
        i,
    )) by {
        if text::has_at(name, "::"@, i) {
            let rest = ":"@ + short;
            let j = i - (at + 1);
            assert(rest.subrange(j, j + 2) =~= name.subrange(i, i + 2));
            assert(text::has_at(rest, "::"@, j));
        }
    }
    lemma_find_last(name, "::"@, name.len() as int, at);
    assert(name.take(at) =~= cls);
    assert(name.skip(at + 2) =~= short);
}

} // verus!
