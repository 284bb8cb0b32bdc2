//! Whom a call is for, and what it yields.

use crate::arrows;
use crate::arrows::ArrowReturn;
use crate::call_laws;
use crate::calls;
use crate::candidates;
use crate::candidates::CalleeLookup;
use crate::expr;
use crate::expr::FnNames;
use crate::flows;
use crate::hierarchy;
use crate::infer;
use crate::infer::Typing;
use crate::ir::{DescView, FnId, TypeDesc};
use crate::lookup;
use crate::lookup::ClassIndex;
use crate::methods;
use crate::methods::MethodView;
use crate::normalize;
use crate::overload;
use crate::overload::{Candidate, TypeShape};
use crate::receivers;
use crate::results;
use crate::results::{Choice, Returning, ShapeView};
use crate::routes;
use crate::routes::{Dispatch, MemberInitView, RouteView};
use crate::scope::NameScope;
use crate::syntax::SyntaxTree;
use crate::text;
use crate::tree_laws;
use vstd::prelude::*;

verus! {

proof fn lemma_kinds()
    ensures
        "field_expression"@.len() == 16,
        "identifier"@.len() == 10,
        "qualified_identifier"@.len() == 20,
        "template_function"@.len() == 17,
        "field_identifier"@.len() == 16,
        "destructor_name"@.len() == 15,
        "call_expression"@.len() == 15,
        "cast_expression"@.len() == 15,
        "new_expression"@.len() == 14,
        "field_initializer"@.len() == 17,
        "argument_list"@.len() == 13,
        "initializer_list"@.len() == 16,
        "parenthesized_expression"@.len() == 24,
        "field_expression"@[6] == 'e',
        "field_identifier"@[6] == 'i',
        "field_expression"@[0] == 'f',
        "initializer_list"@[0] == 'i',
        "field_identifier"@[0] == 'f',
        "template_function"@[0] == 't',
        "field_initializer"@[0] == 'f',
        "destructor_name"@[0] == 'd',
        "call_expression"@[0] == 'c',
        "cast_expression"@[0] == 'c',
        "call_expression"@[2] == 'l',
        "cast_expression"@[2] == 's',
{
    reveal_strlit("field_expression");
    reveal_strlit("identifier");
    reveal_strlit("qualified_identifier");
    reveal_strlit("template_function");
    reveal_strlit("field_identifier");
    reveal_strlit("destructor_name");
    reveal_strlit("call_expression");
    reveal_strlit("cast_expression");
    reveal_strlit("new_expression");
    reveal_strlit("field_initializer");
    reveal_strlit("argument_list");
    reveal_strlit("initializer_list");
    reveal_strlit("parenthesized_expression");
}

/// The call calls `func`, which stands for the member `field` of `recv`, behind a dot.
pub open spec fn is_member_call(
    t: SyntaxTree,
    n: int,
    func: usize,
    recv: usize,
    field: usize,
) -> bool {
    &&& tree_laws::fills_field(t, n, "function"@, func)
    &&& t.rows@[func as int].kind@ == "field_expression"@
    &&& tree_laws::fills_field(t, func as int, "argument"@, recv)
    &&& tree_laws::fills_field(t, func as int, "field"@, field)
    &&& tree_laws::has_none(t, func as int, |m: int| t.rows@[m].kind@ == "->"@)
    &&& !tree_laws::has_none(t, func as int, |m: int| t.rows@[m].kind@ == "."@)
}

proof fn lemma_of_kind(t: SyntaxTree, n: int, kind: Seq<char>)
    ensures
        t.of_kind(n, kind) is None <==> tree_laws::has_none(
            t,
            n,
            |m: int| t.rows@[m].kind@ == kind,
        ),
{
    tree_laws::law_kinds_find_the_first_child_of_them(t, n, kind);
    let p = |m: int| t.rows@[m].kind@ == kind;
    if let Some(d) = t.of_kind(n, kind) {
        let i = choose|i: int|
            0 <= i < t.children(n).len() && #[trigger] t.children(n)[i] == d && p(d as int)
                && forall|j: int| 0 <= j < i ==> !p(#[trigger] t.children(n)[j] as int);
        assert(p(t.children(n)[i] as int));
    }
}

proof fn lemma_member_call(t: SyntaxTree, n: int, func: usize, recv: usize, field: usize)
    requires
        is_member_call(t, n, func, recv, field),
    ensures
        t.fielded(n, "function"@) == Some(func),
        t.fielded(func as int, "argument"@) == Some(recv),
        t.fielded(func as int, "field"@) == Some(field),
        !infer::by_arrow(t, func as int),
        t.of_kind(func as int, "."@) is Some,
{
    tree_laws::lemma_first_is_one(t, n, "function"@, func);
    tree_laws::lemma_first_is_one(t, func as int, "argument"@, recv);
    tree_laws::lemma_first_is_one(t, func as int, "field"@, field);
    lemma_of_kind(t, func as int, "->"@);
    lemma_of_kind(t, func as int, "."@);
}

/// A call of a member of an object is for the members of that name that its class, or the
/// nearest it inherits from, dispatches to; where there is none, it stays unresolved under
/// the class's name for it.
pub proof fn law_member_calls_are_for_the_members(
    ty: Typing,
    d: Dispatch,
    t: SyntaxTree,
    source: Seq<char>,
    n: int,
    func: usize,
    recv: usize,
    field: usize,
    cls: Seq<char>,
)
    requires
        t.wf(),
        0 <= n < t.len(),
        ty.scope.is_cpp,
        is_member_call(t, n, func, recv, field),
        infer::static_class(ty, t, source, recv as int) == Some(cls),
    ensures
        ({
            let own = normalize::without_arguments(cls);
            let short = normalize::without_arguments(
                normalize::qualified_text(t.text(source, field as int)),
            );
            let named = d.targets(*ty.index, own, MethodView::Named(short));
            let destroyed = d.targets(*ty.index, own, MethodView::Dtor);
            let r = routes::route_of(ty, d, t, source, n);
            &&& t.rows@[field as int].kind@ == "field_identifier"@ && named.len() > 0 ==> r
                == (RouteView::Member { cls: own, kind: MethodView::Named(short), targets: named })
            &&& t.rows@[field as int].kind@ == "destructor_name"@ && destroyed.len() > 0 ==> r
                == (RouteView::Member { cls: own, kind: MethodView::Dtor, targets: destroyed })
            &&& t.rows@[field as int].kind@ == "field_identifier"@ && named.len() == 0
                && routes::functor(ty, d, t, source, func as int) is None && ty.member_desc(
                own,
                short,
            ) is None ==> r == (RouteView::Unresolved { name: own + "::"@ + short, cls: own })
            &&& t.rows@[field as int].kind@ == "field_identifier"@ && named.len() == 0
                && routes::functor(ty, d, t, source, func as int) is None && ty.member_desc(
                own,
                short,
            ) is Some ==> r == (RouteView::Free { func })
        }),
{
    lemma_kinds();
    lemma_member_call(t, n, func, recv, field);
}

/// In C every call is for what its callee names.
pub proof fn law_c_calls_are_free(
    ty: Typing,
    d: Dispatch,
    t: SyntaxTree,
    source: Seq<char>,
    n: int,
    func: usize,
)
    requires
        !ty.scope.is_cpp,
        tree_laws::fills_field(t, n, "function"@, func),
    ensures
        routes::route_of(ty, d, t, source, n) == (RouteView::Free { func }),
{
    tree_laws::lemma_first_is_one(t, n, "function"@, func);
}

/// A bare name in a member calls the class's own member of that name, unless a variable
/// hides it; else it constructs the class it names, calls the object it names, or is free.
pub proof fn law_bare_names_call_members_first(
    ty: Typing,
    d: Dispatch,
    t: SyntaxTree,
    source: Seq<char>,
    n: int,
    func: usize,
    cls: Seq<char>,
)
    requires
        ty.scope.is_cpp,
        tree_laws::fills_field(t, n, "function"@, func),
        t.rows@[func as int].kind@ == "identifier"@,
        normalize::without_arguments(normalize::qualified_text(t.text(source, func as int)))
            == t.text(source, func as int),
        normalize::qualified_text(t.text(source, func as int)) == t.text(source, func as int),
    ensures
        ({
            let name = t.text(source, func as int);
            let r = routes::route_of(ty, d, t, source, n);
            let var = ty.vars.spec_var(name);
            let constructs = ty.scope.spec_constructs(*ty.index, name);
            &&& ty.scope.class_ctx is Some && ty.scope.class_ctx->0@ == cls && var is None ==> {
                let own = normalize::without_arguments(cls);
                let found = d.targets(*ty.index, own, MethodView::Named(name));
                found.len() > 0 ==> r == (RouteView::Member {
                    cls: own,
                    kind: MethodView::Named(name),
                    targets: found,
                })
            }
            &&& ty.scope.class_ctx is None && var is None && constructs is Some ==> {
                let own = normalize::without_arguments(constructs->0);
                r == (RouteView::Member {
                    cls: own,
                    kind: MethodView::Ctor,
                    targets: d.targets(*ty.index, own, MethodView::Ctor),
                })
            }
            &&& ty.scope.class_ctx is None && var is None && constructs is None ==> r
                == (RouteView::Free { func })
            &&& ty.scope.class_ctx is None && var is Some && infer::opt_class(
                infer::var_desc(ty.var_types@, var->0, 0),
            ) is None ==> r == (RouteView::Free { func })
        }),
{
    lemma_kinds();
    tree_laws::lemma_first_is_one(t, n, "function"@, func);
}

proof fn lemma_constructed(
    x: ClassIndex,
    all: Seq<(Seq<char>, bool)>,
    last: Seq<char>,
    k: int,
    i: int,
)
    requires
        0 <= k <= i < all.len(),
        forall|j: int|
            k <= j < i ==> !x.spec_function((#[trigger] all[j]).0) && lookup::class_named(
                x,
                all[j].0,
            ) is None,
    ensures
        routes::first_constructed(x, all, last, k) == routes::first_constructed(x, all, last, i),
    decreases i - k,
{
    if k < i {
        assert(!x.spec_function(all[k].0));
        lemma_constructed(x, all, last, k + 1, i);
    }
}

/// A name constructs the nearest class of it, unless a function of it is as near.
pub proof fn law_functions_hide_classes(s: NameScope, x: ClassIndex, name: Seq<char>, i: int)
    requires
        s.spec_local_alias(name) is None,
        0 <= i < s.spec_candidates(x, name).len(),
        forall|j: int|
            0 <= j < i ==> !x.spec_function((#[trigger] s.spec_candidates(x, name)[j]).0)
                && lookup::class_named(x, s.spec_candidates(x, name)[j].0) is None,
    ensures
        ({
            let here = s.spec_candidates(x, name)[i].0;
            &&& !x.spec_function(here) && lookup::class_named(x, here) is Some
                ==> s.spec_constructed(x, name) == lookup::class_named(x, here)
            &&& x.spec_function(here) && !routes::injected(here, normalize::last_segment(name))
                ==> s.spec_constructed(x, name) is None
        }),
{
    lemma_constructed(x, s.spec_candidates(x, name), normalize::last_segment(name), 0, i);
}

/// A text is no callee, nor is a macro that names no function; any other callee is direct
/// where a function of its name is known.
pub proof fn law_callees_are_settled(f: FnNames, c: flows::CalleeView)
    ensures
        text::contains(c.name, "\""@) ==> routes::settled_callee(f, c) is None,
        !text::contains(c.name, "\""@) && c.var is Some && !methods::macro_name(c.name)
            ==> routes::settled_callee(f, c) == Some(c),
        !text::contains(c.name, "\""@) && c.var is None && !text::starts_with(c.name, "::"@)
            && f.spec_named(c.name) is Some ==> routes::settled_callee(f, c) == Some(
            flows::CalleeView { name: c.name, is_direct: true, var: None },
        ),
        !c.is_direct && c.var is None && f.spec_named(
            normalize::after_prefix(c.name, "::"@),
        ) is None && methods::macro_name(c.name) ==> routes::settled_callee(f, c) is None,
        c.is_direct && !text::contains(c.name, "\""@) ==> routes::settled_callee(f, c) == Some(c),
{
}

proof fn lemma_base_called(bases: Seq<Seq<char>>, name: Seq<char>, k: int, i: int)
    requires
        0 <= k <= i <= bases.len(),
        i < bases.len() ==> normalize::last_segment(bases[i]) == name,
        forall|j: int| k <= j < i ==> normalize::last_segment(#[trigger] bases[j]) != name,
    ensures
        i < bases.len() ==> routes::base_called(bases, name, k) == Some(bases[i]),
        i == bases.len() ==> routes::base_called(bases, name, k) is None,
    decreases i - k,
{
    if k < i {
        assert(normalize::last_segment(bases[k]) != name);
        lemma_base_called(bases, name, k + 1, i);
    }
}

/// A member initializer constructs the base it names, else the class of the member.
pub proof fn law_initializers_construct_what_they_name(
    x: ClassIndex,
    cls: Seq<char>,
    name: Seq<char>,
    i: int,
)
    requires
        0 <= i <= x.spec_bases(cls).len(),
        i < x.spec_bases(cls).len() ==> normalize::last_segment(x.spec_bases(cls)[i]) == name,
        forall|j: int|
            0 <= j < i ==> normalize::last_segment(#[trigger] x.spec_bases(cls)[j]) != name,
    ensures
        i < x.spec_bases(cls).len() ==> routes::initialized_class(x, cls, name) == Some(
            x.spec_bases(cls)[i],
        ),
        i == x.spec_bases(cls).len() ==> (hierarchy::own_field(x, cls, name) matches Some(
            DescView::Struct { name: tag, .. },
        ) ==> routes::initialized_class(x, cls, name) == Some(tag)),
        i == x.spec_bases(cls).len() && !(hierarchy::own_field(x, cls, name) matches Some(
            DescView::Struct { .. },
        )) ==> routes::initialized_class(x, cls, name) is None,
{
    lemma_base_called(x.spec_bases(cls), name, 0, i);
}

proof fn lemma_initialized(
    x: ClassIndex,
    t: SyntaxTree,
    source: Seq<char>,
    cls: Seq<char>,
    n: int,
    k: int,
    i: int,
)
    requires
        0 <= k <= t.children(n).len(),
        0 <= i < t.children(n).len(),
        routes::initialized(x, t, source, cls, t.children(n)[i]) is Some,
    ensures
        i < k ==> routes::initialized_upto(x, t, source, cls, n, k).contains(
            routes::initialized(x, t, source, cls, t.children(n)[i])->0,
        ),
    decreases k,
{
    if k > 0 {
        lemma_initialized(x, t, source, cls, n, k - 1, i);
        let before = routes::initialized_upto(x, t, source, cls, n, k - 1);
        let all = routes::initialized_upto(x, t, source, cls, n, k);
        let own = routes::initialized(x, t, source, cls, t.children(n)[i])->0;
        if i == k - 1 {
            assert(all[before.len() as int] == own);
        } else if i < k - 1 {
            let j = choose|j: int| 0 <= j < before.len() && before[j] == own;
            assert(all[j] == own);
        }
    }
}

/// Every initializer of a constructor that names a class constructs it with its values.
pub proof fn law_every_initializer_constructs(
    x: ClassIndex,
    t: SyntaxTree,
    source: Seq<char>,
    cls: Seq<char>,
    n: int,
    i: int,
    name: usize,
    values: usize,
    own: Seq<char>,
)
    requires
        0 <= i < t.children(n).len(),
        t.rows@[t.children(n)[i] as int].kind@ == "field_initializer"@,
        tree_laws::is_first(
            t,
            t.children(n)[i] as int,
            name,
            |m: int| t.rows@[m].kind@ == "field_identifier"@ || t.rows@[m].kind@ == "identifier"@,
        ),
        tree_laws::is_first(
            t,
            t.children(n)[i] as int,
            values,
            |m: int| t.rows@[m].kind@ == "argument_list"@ || t.rows@[m].kind@
                == "initializer_list"@,
        ),
        routes::initialized_class(
            x,
            cls,
            normalize::qualified_text(t.text(source, name as int)),
        ) == Some(own),
    ensures
        routes::initialized_upto(x, t, source, cls, n, t.children(n).len() as int).contains(
            MemberInitView { node: t.children(n)[i], cls: own, values: Some(values) },
        ),
{
    let c = t.children(n)[i] as int;
    let p = |m: int|
        t.rows@[m].kind@ == "field_identifier"@ || t.rows@[m].kind@ == "identifier"@;
    let a = choose|a: int|
        0 <= a < t.children(c).len() && #[trigger] t.children(c)[a] == name && p(name as int)
            && forall|j: int| 0 <= j < a ==> !p(#[trigger] t.children(c)[j] as int);
    assert forall|j: int| 0 <= j < a implies !routes::names_field(
        t.spec_kind(#[trigger] t.children(c)[j] as int),
    ) by {
        assert(!p(t.children(c)[j] as int));
    }
    lemma_field_node(t, c, 0, a);
    let q = |m: int|
        t.rows@[m].kind@ == "argument_list"@ || t.rows@[m].kind@ == "initializer_list"@;
    let b = choose|b: int|
        0 <= b < t.children(c).len() && #[trigger] t.children(c)[b] == values && q(values as int)
            && forall|j: int| 0 <= j < b ==> !q(#[trigger] t.children(c)[j] as int);
    assert forall|j: int| 0 <= j < b implies !routes::lists_values(
        t.spec_kind(#[trigger] t.children(c)[j] as int),
    ) by {
        assert(!q(t.children(c)[j] as int));
    }
    lemma_values_node(t, c, 0, b);
    lemma_initialized(x, t, source, cls, n, t.children(n).len() as int, i);
}

proof fn lemma_field_node(t: SyntaxTree, c: int, k: int, a: int)
    requires
        0 <= k <= a < t.children(c).len(),
        routes::names_field(t.spec_kind(t.children(c)[a] as int)),
        forall|j: int|
            0 <= j < a ==> !routes::names_field(t.spec_kind(#[trigger] t.children(c)[j] as int)),
    ensures
        routes::field_node_from(t, c, k) == Some(t.children(c)[a]),
    decreases a - k,
{
    if k < a {
        assert(!routes::names_field(t.spec_kind(t.children(c)[k] as int)));
        lemma_field_node(t, c, k + 1, a);
    }
}

proof fn lemma_values_node(t: SyntaxTree, c: int, k: int, a: int)
    requires
        0 <= k <= a < t.children(c).len(),
        routes::lists_values(t.spec_kind(t.children(c)[a] as int)),
        forall|j: int|
            0 <= j < a ==> !routes::lists_values(t.spec_kind(#[trigger] t.children(c)[j] as int)),
    ensures
        routes::values_node_from(t, c, k) == Some(t.children(c)[a]),
    decreases a - k,
{
    if k < a {
        assert(!routes::lists_values(t.spec_kind(t.children(c)[k] as int)));
        lemma_values_node(t, c, k + 1, a);
    }
}

/// What a factory of the standard library makes.
pub proof fn law_factories_make_their_pointer(s: NameScope, k: int)
    ensures
        receivers::factory_of(s, "std::make_shared"@) == Some("std::shared_ptr"@),
        receivers::factory_of(s, "std::make_unique"@) == Some("std::unique_ptr"@),
        0 <= k < s.using_nss@.len() && s.using_nss@[k]@ == "std"@ ==> receivers::factory_of(
            s,
            "make_shared"@,
        ) == Some("std::shared_ptr"@) && receivers::factory_of(s, "make_unique"@) == Some(
            "std::unique_ptr"@,
        ),
        s.using_nss@.len() == 0 && s.using_name_imports@.len() == 0 ==> receivers::factory_of(
            s,
            "make_shared"@,
        ) is None,
{
    reveal_strlit("std::make_shared");
    reveal_strlit("std::make_unique");
    reveal_strlit("make_shared");
    reveal_strlit("make_unique");
    reveal_strlit("::");
    assert("std::make_shared"@[10] == 's');
    assert("std::make_unique"@[10] == 'u');
    assert("make_shared"@[5] == 's');
    assert("make_unique"@[5] == 'u');
    lemma_unrooted("std::make_shared"@);
    lemma_unrooted("std::make_unique"@);
    lemma_unrooted("make_shared"@);
    lemma_unrooted("make_unique"@);
}

proof fn lemma_unrooted(s: Seq<char>)
    requires
        s.len() > 0,
        s[0] != ':',
    ensures
        normalize::after_prefix(s, "::"@) == s,
{
    reveal_strlit("::");
    if text::starts_with(s, "::"@) {
        assert(s.subrange(0, 2)[0] == ':');
    }
}

/// A weak pointer that is locked yields the strong one beside it.
pub proof fn law_weak_pointers_are_upgraded(outer: Seq<char>, method: Seq<char>)
    requires
        normalize::last_segment(outer + "weak_ptr"@) == "weak_ptr"@,
    ensures
        receivers::upgraded(outer + "weak_ptr"@, "lock"@) == Some(outer + "shared_ptr"@),
        method != "lock"@ && method != "promote"@ ==> receivers::upgraded(
            outer + "weak_ptr"@,
            method,
        ) is None,
{
    let cls = outer + "weak_ptr"@;
    assert(cls.take(cls.len() - "weak_ptr"@.len()) =~= outer);
}

/// What a call yields by its callee: nothing known through a variable, what the class's
/// own member gives for a bare name, and else what the function of the name does.
pub proof fn law_named_calls_yield_by_name(
    ty: Typing,
    f: FnNames,
    t: SyntaxTree,
    source: Seq<char>,
    func: usize,
)
    requires
        t.wf(),
        func < t.len(),
        t.rows@[func as int].kind@ == "identifier"@,
        !text::contains(t.text(source, func as int), "::"@),
    ensures
        ({
            let name = t.text(source, func as int);
            let shape = results::named_shape(ty, f, t, source, func);
            &&& ty.vars.spec_var(name) is Some ==> shape == ShapeView::Untyped
            &&& ty.vars.spec_var(name) is None && ty.scope.class_ctx is None ==> shape
                == (ShapeView::ByName { func, name })
            &&& ty.vars.spec_var(name) is None && ty.scope.class_ctx is Some ==> {
                let cls = ty.scope.class_ctx->0@;
                let members = hierarchy::first_members(
                    *ty.index,
                    hierarchy::ancestry(*ty.index, cls),
                    MethodView::Named(name),
                    0,
                );
                &&& members.len() > 0 ==> shape == (ShapeView::Declared {
                    members,
                    receiver: Some(cls),
                })
                &&& members.len() == 0 ==> shape == (ShapeView::ByName { func, name })
            }
        }),
{
    lemma_kinds();
    expr::lemma_peeled(t, func as int);
}

/// A function yields the type that it declares, to calls that it takes.
pub proof fn law_functions_yield_their_result(
    c: Choice,
    shape: Candidate,
    f: Returning,
    argc: nat,
    arity: nat,
)
    requires
        overload::arity_of(shape) == Some(arity),
    ensures
        overload::takes(shape, arity, argc) && f.ret@ != DescView::Unknown ==> c.yields(
            shape,
            f,
            argc,
        ) == Some(f.ret@),
        !overload::takes(shape, arity, argc) ==> c.yields(shape, f, argc) is None,
        f.ret@ == DescView::Unknown && f.facts is None ==> c.yields(shape, f, argc) is None,
{
}

/// What initializes a variable tells its type: a call its result, any other expression
/// its own, unless it depends on a template.
pub proof fn law_initializers_tell_the_type(
    ty: Typing,
    t: SyntaxTree,
    source: Seq<char>,
    n: int,
    call: Option<DescView>,
    tag: Seq<char>,
)
    requires
        t.wf(),
        0 <= n < t.len(),
    ensures
        t.rows@[n].kind@ == "call_expression"@ ==> results::initializer_desc(
            ty,
            false,
            t,
            source,
            n,
            call,
            tag,
        ) == call,
        t.rows@[n].kind@ == "identifier"@ || t.rows@[n].kind@ == "new_expression"@
            ==> results::initializer_desc(ty, false, t, source, n, call, tag) == infer::receiver(
            ty,
            t,
            source,
            n,
        ),
{
    lemma_kinds();
    expr::lemma_peeled(t, n);
}

/// How a callee is looked for: a bare name by all that it can see, a qualified one from
/// the scopes around, and anything else at the root.
pub proof fn law_callees_are_looked_for_as_spelled(t: SyntaxTree, func: int, name: Seq<char>)
    ensures
        t.rows@[func].kind@ == "identifier"@ && !text::contains(name, "::"@)
            ==> candidates::lookup_of(t, func, name) == CalleeLookup::Bare,
        t.rows@[func].kind@ == "qualified_identifier"@ ==> candidates::lookup_of(t, func, name)
            == CalleeLookup::Scoped,
        t.rows@[func].kind@ == "template_function"@ && text::contains(name, "::"@)
            ==> candidates::lookup_of(t, func, name) == CalleeLookup::Scoped,
        t.rows@[func].kind@ == "field_expression"@ ==> candidates::lookup_of(t, func, name)
            == CalleeLookup::Global,
{
    lemma_kinds();
}

proof fn lemma_through(directives: Seq<String>, name: Seq<char>, k: int, i: int)
    requires
        0 <= k <= directives.len(),
    ensures
        candidates::through_upto(directives, name, k).len() == k,
        0 <= i < k ==> candidates::through_upto(directives, name, k)[i] == directives[i]@ + "::"@
            + name,
    decreases k,
{
    if k > 0 {
        lemma_through(directives, name, k - 1, i);
    }
}

/// A qualified name is looked for in the scopes around, then in the namespaces that
/// directives show.
pub proof fn law_qualified_names_are_looked_for_through_directives(
    s: NameScope,
    x: ClassIndex,
    name: Seq<char>,
    i: int,
    j: int,
)
    requires
        0 <= i < s.spec_candidates(x, name).len(),
        0 <= j < s.using_nss@.len(),
    ensures
        ({
            let all = candidates::scoped_names(s, x, name);
            let n = s.spec_candidates(x, name).len();
            &&& all[i] == s.spec_candidates(x, name)[i].0
            &&& text::starts_with(name, "::"@) ==> all.len() == n
            &&& !text::starts_with(name, "::"@) ==> all.len() == n + s.using_nss@.len() && all[n
                + j] == s.using_nss@[j]@ + "::"@ + name
        }),
{
    lemma_through(s.using_nss@, name, s.using_nss@.len() as int, j);
}

proof fn lemma_imports(v: Seq<(String, String)>, base: Seq<char>, k: int, i: int)
    requires
        0 <= k <= v.len(),
        0 <= i < v.len(),
        v[i].0@ == base,
    ensures
        i < k ==> candidates::imports_upto(v, base, k).contains(v[i].1@),
    decreases k,
{
    if k > 0 {
        lemma_imports(v, base, k - 1, i);
        let before = candidates::imports_upto(v, base, k - 1);
        let all = candidates::imports_upto(v, base, k);
        if i == k - 1 {
            assert(all[before.len() as int] == v[i].1@);
        } else if i < k - 1 {
            let j = choose|j: int| 0 <= j < before.len() && before[j] == v[i].1@;
            assert(all[j] == v[i].1@);
        }
    }
}

/// What is imported under a name is looked for under it.
pub proof fn law_imported_names_are_looked_for(v: Seq<(String, String)>, i: int)
    requires
        0 <= i < v.len(),
    ensures
        candidates::imports_upto(v, v[i].0@, v.len() as int).contains(v[i].1@),
{
    lemma_imports(v, v[i].0@, v.len() as int, i);
}

/// The first of several functions that a call may reach keeps the name; each other has
/// its number behind it.
pub proof fn law_sites_of_one_call_are_told_apart(callee: Seq<char>, first: FnId, other: FnId)
    requires
        first != other,
    ensures
        calls::site_name(callee, first, first) == callee,
        calls::site_name(callee, other, first) == callee + "::"@ + text::decimal(other.0 as nat),
{
}

/// Where the type of an argument is not known, the functions are not told apart by types.
pub proof fn law_unknown_arguments_tell_nothing(
    shapes: Seq<Candidate>,
    by: Seq<usize>,
    args: Seq<TypeShape>,
    k: int,
)
    requires
        0 <= k < args.len(),
        args[k].desc is Unknown,
    ensures
        results::left_by_type(shapes, by, args) == by,
{
}

proof fn lemma_namespaces(descs: Seq<TypeDesc>, k: int, i: int, ns: Seq<char>)
    requires
        0 <= k <= descs.len(),
        0 <= i < descs.len(),
        candidates::namespaces_of(descs[i]@).contains(ns),
    ensures
        i < k ==> candidates::namespaces_upto(descs, k).contains(ns),
    decreases k,
{
    if k > 0 {
        lemma_namespaces(descs, k - 1, i, ns);
        let before = candidates::namespaces_upto(descs, k - 1);
        call_laws::lemma_joined_in(before, candidates::namespaces_of(descs[k - 1]@), ns);
    }
}

/// The namespaces of an argument's class are searched, behind its pointers.
pub proof fn law_the_namespaces_of_arguments_are_searched(
    descs: Seq<TypeDesc>,
    i: int,
    ns: Seq<char>,
    d: DescView,
)
    requires
        0 <= i < descs.len(),
        candidates::namespaces_of(descs[i]@).contains(ns),
    ensures
        candidates::namespaces_upto(descs, descs.len() as int).contains(ns),
        candidates::namespaces_of(DescView::Ptr(Box::new(d))) == candidates::namespaces_of(d),
{
    lemma_namespaces(descs, descs.len() as int, i, ns);
}

proof fn lemma_closure(v: Seq<(String, Vec<FnId>)>, k: int, i: int)
    requires
        0 <= k <= i < v.len(),
        forall|j: int| k <= j < i ==> (#[trigger] v[j]).0@ != v[i].0@,
    ensures
        routes::closure_from(v, v[i].0@, k) == v[i].1@,
    decreases i - k,
{
    if k < i {
        assert(v[k].0@ != v[i].0@);
        lemma_closure(v, k + 1, i);
    }
}

/// A call of a virtual member may reach every function recorded for it; one of a member
/// that is not reaches that member alone.
pub proof fn law_virtual_calls_reach_what_is_recorded(
    d: Dispatch,
    x: ClassIndex,
    cls: Seq<char>,
    kind: MethodView,
    i: int,
    f: FnId,
)
    requires
        0 <= i < d.closures@.len(),
        d.closures@[i].0@ == methods::member_name(kind, cls),
        forall|j: int| 0 <= j < i ==> (#[trigger] d.closures@[j]).0@ != d.closures@[i].0@,
        !(kind is Dtor),
    ensures
        ({
            let own = hierarchy::first_members(x, hierarchy::ancestry(x, cls), kind, 0);
            &&& own.contains(f) && d.virtuals@.contains(f) ==> d.targets(x, cls, kind)
                == d.closures@[i].1@
            &&& own.len() == 0 && !(kind is Ctor) ==> d.targets(x, cls, kind)
                == d.closures@[i].1@
            &&& own.len() > 0 && (forall|k: int|
                0 <= k < own.len() ==> !d.virtuals@.contains(#[trigger] own[k])) ==> d.targets(
                x,
                cls,
                kind,
            ) == own
        }),
{
    lemma_closure(d.closures@, 0, i);
    let own = hierarchy::first_members(x, hierarchy::ancestry(x, cls), kind, 0);
    if own.contains(f) && d.virtuals@.contains(f) {
        let k = choose|k: int| 0 <= k < own.len() && own[k] == f;
        assert(d.virtuals@.contains(own[k]));
    }
}

/// The class that an arrow leads to is named without its arguments.
pub proof fn law_arrows_lead_to_a_class(
    x: ClassIndex,
    facts: Seq<ArrowReturn>,
    d: DescView,
    name: Seq<char>,
)
    requires
        arrows::spec_arrow_receiver(x, facts, d) == Some(name),
    ensures
        text::ends_with(text::trim_end(name), ">"@) ==> arrows::spec_arrow_class(x, facts, d)
            == Some(normalize::without_arguments(name)),
        !text::ends_with(text::trim_end(name), ">"@) ==> arrows::spec_arrow_class(x, facts, d)
            == Some(name),
{
}

} // verus!
