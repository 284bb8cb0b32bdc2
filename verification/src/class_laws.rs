//! How classes and their members are named and entered.

use crate::arrows::ArrowReturn;
use crate::classes;
use crate::declarator;
use crate::functions;
use crate::functions::FnPlace;
use crate::ir::{DescView, Linkage};
use crate::lookup::ClassIndex;
use crate::members;
use crate::naming;
use crate::normalize;
use crate::registration;
use crate::registration::ClassEntry;
use crate::scope;
use crate::scope::NameScope;
use crate::signature;
use crate::syntax::SyntaxTree;
use crate::text;
use crate::tree_laws;
use crate::types;
use crate::variables;
use vstd::prelude::*;

verus! {

proof fn lemma_kinds()
    ensures
        "function_definition"@.len() == 19,
        "field_declaration"@.len() == 17,
        "declaration"@.len() == 11,
        "template_declaration"@.len() == 20,
        "virtual"@.len() == 7,
        "virtual_specifier"@.len() == 17,
        "class_specifier"@.len() == 15,
        "struct_specifier"@.len() == 16,
        "decltype"@.len() == 8,
        "attribute_declaration"@.len() == 21,
        "attribute_specifier"@.len() == 19,
        "ms_declspec_modifier"@.len() == 20,
        "ms_call_modifier"@.len() == 16,
        "ERROR"@.len() == 5,
        "destructor_name"@.len() == 15,
        "operator_name"@.len() == 13,
        "field_identifier"@.len() == 16,
        "identifier"@.len() == 10,
        "operator_cast"@.len() == 13,
        "function_declarator"@.len() == 19,
        "parameter_declaration"@.len() == 21,
        "optional_parameter_declaration"@.len() == 30,
        "access_specifier"@.len() == 16,
        "base_class_clause"@.len() == 17,
        "field_declaration_list"@.len() == 22,
        "pointer_declarator"@.len() == 18,
        "function_definition"@[0] == 'f',
        "attribute_specifier"@[0] == 'a',
        "function_definition"@[11] == 'f',
        "function_declarator"@[11] == 'c',
        "function_declarator"@[0] == 'f',
        "field_declaration"@[0] == 'f',
        "virtual_specifier"@[0] == 'v',
        "base_class_clause"@[0] == 'b',
        "template_declaration"@[0] == 't',
        "ms_declspec_modifier"@[0] == 'm',
        "class_specifier"@[0] == 'c',
        "destructor_name"@[0] == 'd',
        "struct_specifier"@[0] == 's',
        "ms_call_modifier"@[0] == 'm',
        "field_identifier"@[0] == 'f',
        "access_specifier"@[0] == 'a',
        "attribute_declaration"@[0] == 'a',
        "parameter_declaration"@[0] == 'p',
        "operator_name"@[9] == 'n',
        "operator_cast"@[9] == 'c',
{
    reveal_strlit("function_definition");
    reveal_strlit("field_declaration");
    reveal_strlit("declaration");
    reveal_strlit("template_declaration");
    reveal_strlit("virtual");
    reveal_strlit("virtual_specifier");
    reveal_strlit("class_specifier");
    reveal_strlit("struct_specifier");
    reveal_strlit("decltype");
    reveal_strlit("attribute_declaration");
    reveal_strlit("attribute_specifier");
    reveal_strlit("ms_declspec_modifier");
    reveal_strlit("ms_call_modifier");
    reveal_strlit("ERROR");
    reveal_strlit("destructor_name");
    reveal_strlit("operator_name");
    reveal_strlit("field_identifier");
    reveal_strlit("identifier");
    reveal_strlit("operator_cast");
    reveal_strlit("function_declarator");
    reveal_strlit("parameter_declaration");
    reveal_strlit("optional_parameter_declaration");
    reveal_strlit("access_specifier");
    reveal_strlit("base_class_clause");
    reveal_strlit("field_declaration_list");
    reveal_strlit("pointer_declarator");
}

/// The members of a class are the declarations in its body, in order, and nothing else.
pub proof fn law_members_stand_in_the_body(t: SyntaxTree, n: int, body: usize, i: int)
    requires
        tree_laws::fills_field(t, n, "body"@, body),
        0 <= i < t.children(body as int).len(),
    ensures
        ({
            let m = t.children(body as int)[i];
            let kind = t.rows@[m as int].kind@;
            &&& kind == "function_definition"@ || kind == "field_declaration"@ || kind
                == "declaration"@ || kind == "template_declaration"@ ==> classes::members_of(
                t,
                n,
            ).contains(m)
            &&& classes::members_of(t, n).len() <= t.children(body as int).len()
            &&& forall|j: int|
                0 <= j < classes::members_of(t, n).len() ==> t.children(body as int).contains(
                    #[trigger] classes::members_of(t, n)[j],
                )
        }),
{
    tree_laws::lemma_first_is_one(t, n, "body"@, body);
    let all = t.children(body as int);
    let p = |m: usize| classes::member_kind(t.spec_kind(m as int));
    all.lemma_filter_len(p);
    lemma_filtered(all, p, i);
    assert forall|j: int| 0 <= j < all.filter(p).len() implies all.contains(
        #[trigger] all.filter(p)[j],
    ) by {
        lemma_filtered_from(all, p, j);
    }
}

proof fn lemma_filtered(all: Seq<usize>, p: spec_fn(usize) -> bool, i: int)
    requires
        0 <= i < all.len(),
    ensures
        p(all[i]) ==> all.filter(p).contains(all[i]),
    decreases all.len(),
{
    reveal(Seq::filter);
    let less = all.drop_last();
    if i < all.len() - 1 {
        lemma_filtered(less, p, i);
        if p(all[i]) {
            assert(less[i] == all[i]);
            let j = choose|j: int| 0 <= j < less.filter(p).len() && less.filter(p)[j] == all[i];
            assert(all.filter(p)[j] == all[i]);
        }
    } else if p(all[i]) {
        assert(all.filter(p)[less.filter(p).len() as int] == all[i]);
    }
}

proof fn lemma_filtered_from(all: Seq<usize>, p: spec_fn(usize) -> bool, j: int)
    requires
        0 <= j < all.filter(p).len(),
    ensures
        all.contains(all.filter(p)[j]),
    decreases all.len(),
{
    reveal(Seq::filter);
    let less = all.drop_last();
    if j < less.filter(p).len() {
        lemma_filtered_from(less, p, j);
        let i = choose|i: int| 0 <= i < less.len() && less[i] == less.filter(p)[j];
        assert(all[i] == less[i]);
    } else {
        assert(all[all.len() - 1] == all.last());
    }
}

/// A class is final where it says so.
pub proof fn law_final_classes_say_so(t: SyntaxTree, source: Seq<char>, n: int, k: int)
    requires
        0 <= k < t.children(n).len(),
    ensures
        t.rows@[t.children(n)[k] as int].kind@ == "virtual_specifier"@ && text::contains(
            t.text(source, t.children(n)[k] as int),
            "final"@,
        ) ==> classes::final_class(t, source, n),
        classes::final_class(t, source, n) ==> !tree_laws::has_none(
            t,
            n,
            |m: int| t.rows@[m].kind@ == "virtual_specifier"@,
        ),
{
    if classes::final_class(t, source, n) {
        let p = |m: int| t.rows@[m].kind@ == "virtual_specifier"@;
        let j = choose|j: int|
            0 <= j < t.children(n).len() && {
                let c = #[trigger] t.children(n)[j] as int;
                t.spec_kind(c) == "virtual_specifier"@ && text::contains(
                    t.text(source, c),
                    "final"@,
                )
            };
        assert(p(t.children(n)[j] as int));
    }
}

/// A member is final where its declarator says so, at any depth.
pub proof fn law_final_members_say_so(t: SyntaxTree, source: Seq<char>, n: int, k: int)
    requires
        t.wf(),
        0 <= n < t.len(),
        0 <= k < t.children(n).len(),
    ensures
        ({
            let c = t.children(n)[k] as int;
            let kind = t.rows@[c].kind@;
            &&& kind == "virtual_specifier"@ && text::contains(t.text(source, c), "final"@)
                ==> classes::final_under(t, source, n)
            &&& kind != "virtual"@ && kind != "virtual_specifier"@ && classes::final_under(
                t,
                source,
                c,
            ) ==> classes::final_under(t, source, n)
        }),
{
    lemma_kinds();
    let c = t.children(n)[k] as int;
}

/// A class that only C++ can hold: one declared with `class`, with bases, or with a
/// function.
pub proof fn law_classes_of_cpp_are_told(t: SyntaxTree, n: int, body: usize, k: int)
    requires
        tree_laws::fills_field(t, n, "body"@, body),
        0 <= k < t.children(body as int).len(),
    ensures
        t.rows@[n].kind@ == "class_specifier"@ ==> classes::cpp_only(t, n),
        !tree_laws::has_none(t, n, |m: int| t.rows@[m].kind@ == "base_class_clause"@)
            ==> classes::cpp_only(t, n),
        ({
            let m = t.rows@[t.children(body as int)[k] as int];
            m.is_named && (m.kind@ == "function_definition"@ || m.kind@ == "access_specifier"@
                || m.kind@ == "template_declaration"@) ==> classes::cpp_only(t, n)
        }),
{
    lemma_kinds();
    tree_laws::lemma_first_is_one(t, n, "body"@, body);
    tree_laws::law_kinds_find_the_first_child_of_them(t, n, "base_class_clause"@);
    let m = t.children(body as int)[k] as int;
    if classes::cpp_member(t, m) {
        let found = t.fielded(n, "body"@)->0;
        assert(0 <= k < t.children(found as int).len() && classes::cpp_member(
            t,
            t.children(found as int)[k] as int,
        ));
        assert(t.fielded(n, "body"@) matches Some(b) && exists|j: int|
            0 <= j < t.children(b as int).len() && classes::cpp_member(
                t,
                #[trigger] t.children(b as int)[j] as int,
            ));
        assert(classes::cpp_only(t, n));
    }
}

/// A class declared in another is called by that one's name before its own.
pub proof fn law_nested_classes_are_named_in_the_outer(
    t: SyntaxTree,
    source: Seq<char>,
    outer: Seq<char>,
    spec: int,
    member: usize,
    body: usize,
    around: usize,
    name: usize,
)
    requires
        t.spec_parent(spec) == Some(member),
        t.rows@[member as int].kind@ == "field_declaration"@ || t.rows@[member as int].kind@
            == "template_declaration"@,
        t.spec_parent(member as int) == Some(body),
        t.rows@[body as int].kind@ == "field_declaration_list"@,
        t.spec_parent(body as int) == Some(around),
        t.rows@[around as int].kind@ == "class_specifier"@ || t.rows@[around as int].kind@
            == "struct_specifier"@,
        t.rows@[spec].kind@ == "class_specifier"@ || t.rows@[spec].kind@ == "struct_specifier"@,
        tree_laws::fills_field(t, spec, "name"@, name),
        t.fielded(spec, "body"@) is Some,
        !text::contains(
            normalize::without_arguments(normalize::qualified_text(t.text(source, name as int))),
            "::"@,
        ),
    ensures
        ({
            let own = classes::member_tag_of(t, source, true, Some(outer), spec);
            own is Some && (own->0).0 == outer + "::"@ + normalize::without_arguments(
                normalize::qualified_text(t.text(source, name as int)),
            ) && (own->0).1 == classes::nests_in_cpp(t, spec)
        }),
        classes::member_tag_of(t, source, false, Some(outer), spec) is None,
        classes::member_tag_of(t, source, true, None, spec) is None,
{
    lemma_kinds();
    tree_laws::lemma_first_is_one(t, spec, "name"@, name);
}

/// A class is entered under its nested name where it has one; in C under its own; in C++
/// under the scopes around it.
pub proof fn law_classes_are_entered_under_their_scopes(
    s: NameScope,
    x: ClassIndex,
    t: SyntaxTree,
    source: Seq<char>,
    n: int,
    name: Seq<char>,
)
    requires
        t.rows@[n].kind@ == "class_specifier"@ || t.rows@[n].kind@ == "struct_specifier"@,
        !text::contains(name, "::"@),
        t.fielded(n, "body"@) is Some,
    ensures
        ({
            let tag = registration::own_member_tag(s, t, source, n);
            let own = registration::registered_name(s, x, t, source, n, name);
            &&& tag matches Some((spelled, true)) ==> own == spelled
            &&& tag is None && !s.is_cpp ==> own == name
            &&& tag is None && s.is_cpp ==> own == scope::joined(s.spec_levels().push(name))
        }),
{
}

/// What the entry of a class holds.
pub proof fn law_entries_hold_what_the_class_says(
    entry: ClassEntry,
    s: NameScope,
    x: ClassIndex,
    t: SyntaxTree,
    source: Seq<char>,
    n: int,
    name: Seq<char>,
    i: int,
)
    requires
        registration::is_entry_of(entry, s, x, t, source, n, name),
        t.rows@[n].kind@ == "class_specifier"@ || t.rows@[n].kind@ == "struct_specifier"@,
    ensures
        entry.is_cpp_class == s.is_cpp,
        entry.has_body == (t.fielded(n, "body"@) is Some),
        entry.is_final ==> s.is_cpp,
        s.is_cpp ==> entry.is_final == classes::final_class(t, source, n),
        s.is_cpp ==> entry.bases@.len() == registration::bases_named(t, n).len(),
        !s.is_cpp ==> entry.bases@.len() == 0,
        s.is_cpp && 0 <= i < entry.bases@.len() ==> entry.bases@[i].spelled@ == t.text(
            source,
            registration::bases_named(t, n)[i] as int,
        ),
        ({
            let tag = registration::own_member_tag(s, t, source, n);
            &&& tag is None ==> entry.body_scope@ == entry.name@ && entry.alias is None
            &&& tag matches Some((spelled, nested)) ==> entry.body_scope@ == spelled && (nested
                ==> entry.alias is None && entry.name@ == spelled) && (!nested ==> (
            entry.alias matches Some(a) && a@ == spelled))
        }),
        s.is_cpp && t.fielded(n, "body"@) is Some && 0 <= i < s.ns_stack@.len()
            && s.ns_stack@[i] is None ==> entry.is_anonymous,
        t.fielded(n, "body"@) is None ==> !entry.is_anonymous,
{
    if s.is_cpp && 0 <= i < entry.bases@.len() {
        assert(registration::is_base_entry(
            entry.bases@[i],
            s,
            x,
            t.text(source, registration::bases_named(t, n)[i] as int),
        ));
    }
}

/// A base is the class that its name means, arguments left out; a name that means none
/// is taken to stand in the scopes around.
pub proof fn law_bases_are_the_classes_they_name(s: NameScope, x: ClassIndex, spelled: Seq<char>)
    ensures
        ({
            let short = normalize::without_arguments(normalize::qualified_text(spelled));
            &&& s.spec_class(x, short) matches Some(cls) ==> registration::base_class(
                s,
                x,
                spelled,
            ) == cls
            &&& s.spec_class_seen(x, short) is None && !text::contains(short, "::"@)
                && !text::starts_with(short, "::"@) ==> registration::base_class(s, x, spelled)
                == scope::joined(s.spec_levels().push(short))
            &&& s.spec_class_seen(x, short) is None && text::contains(short, "::"@)
                && !text::starts_with(short, "::"@) ==> registration::base_class(s, x, spelled)
                == short
        }),
{
}

/// The short name of a member: what its declarator names, whatever stands around it; an
/// attribute names nothing.
pub proof fn law_declarators_name_the_member(t: SyntaxTree, source: Seq<char>, n: int, c: usize)
    requires
        t.wf(),
        0 <= n < t.len(),
    ensures
        ({
            let kind = t.rows@[n].kind@;
            let own = normalize::qualified_text(t.text(source, n));
            &&& kind == "identifier"@ || kind == "field_identifier"@ || kind == "destructor_name"@
                || kind == "operator_name"@ ==> members::short_name(t, source, n) == Some(own)
            &&& kind == "function_declarator"@ && tree_laws::fills_field(t, n, "declarator"@, c)
                ==> members::short_name(t, source, n) == members::short_name(
                t,
                source,
                c as int,
            )
            &&& kind == "decltype"@ || kind == "attribute_declaration"@ || kind
                == "attribute_specifier"@ ==> members::short_name(t, source, n) is None
        }),
{
    lemma_kinds();
    if tree_laws::fills_field(t, n, "declarator"@, c) {
        tree_laws::lemma_first_is_one(t, n, "declarator"@, c);
    }
}

proof fn lemma_among(t: SyntaxTree, source: Seq<char>, n: int, k: int, i: int, name: Seq<char>)
    requires
        t.wf(),
        0 <= n < t.len(),
        0 <= k <= i < t.children(n).len(),
        members::short_name(t, source, t.children(n)[i] as int) == Some(name),
        forall|j: int|
            k <= j < i ==> members::short_name(
                t,
                source,
                (#[trigger] t.children(n)[j]) as int,
            ) is None,
    ensures
        members::name_among(t, source, n, k, members::Among::All) == Some(name),
    decreases i - k,
{
    if k < i {
        assert(members::short_name(t, source, t.children(n)[k] as int) is None);
        lemma_among(t, source, n, k + 1, i, name);
    }
}

/// Through any other node, the first child that names something names the member.
pub proof fn law_the_first_name_is_the_members(
    t: SyntaxTree,
    source: Seq<char>,
    n: int,
    i: int,
    name: Seq<char>,
)
    requires
        t.wf(),
        0 <= n < t.len(),
        t.rows@[n].kind@ == "declaration"@ || t.rows@[n].kind@ == "field_declaration"@
            || t.rows@[n].kind@ == "function_definition"@ || t.rows@[n].kind@
            == "pointer_declarator"@,
        members::tilde_from(t, source, n, 0) is None,
        declarator::keyword_error_from(t, n, 0) is None,
        0 <= i < t.children(n).len(),
        members::short_name(t, source, t.children(n)[i] as int) == Some(name),
        forall|j: int|
            0 <= j < i ==> members::short_name(
                t,
                source,
                (#[trigger] t.children(n)[j]) as int,
            ) is None,
    ensures
        members::short_name(t, source, n) == Some(name),
{
    lemma_kinds();
    lemma_among(t, source, n, 0, i, name);
}

/// A member of a class is known under the class's name before its own; a nameless one, or
/// an operator that names no target, under none.
pub proof fn law_members_are_known_under_their_class(
    t: SyntaxTree,
    source: Seq<char>,
    n: int,
    cls: Seq<char>,
    short: Seq<char>,
)
    requires
        members::short_name(t, source, n) == Some(short),
    ensures
        short.len() > 0 && short != "operator"@ ==> registration::prototype_name(
            t,
            source,
            n,
            cls,
        ) == Some(naming::canonical_name(cls + "::"@ + short)),
        short.len() == 0 || short == "operator"@ ==> registration::prototype_name(
            t,
            source,
            n,
            cls,
        ) is None,
{
}

/// A definition's name is what its declarator declares.
pub proof fn law_definitions_are_named_by_their_declarator(
    t: SyntaxTree,
    source: Seq<char>,
    n: int,
    d: usize,
)
    requires
        signature::parked_declarator(t, n) is None,
        declarator::keyword_error_from(t, n, 0) is None,
        tree_laws::fills_field(t, n, "declarator"@, d),
    ensures
        ({
            let own = declarator::declared_name(t, source, d as int).0;
            &&& own.len() > 0 ==> signature::raw_name(t, source, n) == Some(own)
            &&& own.len() == 0 ==> signature::raw_name(t, source, n) is None
        }),
{
    tree_laws::lemma_first_is_one(t, n, "declarator"@, d);
}

/// A function belongs to the class it is defined in; outside of one, to the class that its
/// qualified name names.
pub proof fn law_functions_belong_to_their_class(
    s: NameScope,
    x: ClassIndex,
    raw: Seq<char>,
    prefix: Seq<char>,
    member: Seq<char>,
)
    ensures
        s.class_ctx matches Some(cls) ==> signature::owned_name(s, x, raw).1 == Some(cls@)
            && signature::lookup_scope_of(s, x, raw) == Some(cls@),
        ({
            let full = naming::canonical_name(
                scope::qualified_decl(s.spec_levels(), None, s.is_cpp, raw),
            );
            &&& s.class_ctx is None && signature::owner_class(x, full) is Some
                ==> signature::owned_name(s, x, raw) == (full, signature::owner_class(x, full))
            &&& s.class_ctx is None && signature::owner_class(x, full) is None && text::find_last(
                full,
                "::"@,
                full.len() as int,
            ) < 0 ==> signature::owned_name(s, x, raw) == (full, None::<Seq<char>>)
        }),
{
}

proof fn lemma_owner(x: ClassIndex, name: Seq<char>, at: int)
    requires
        at == text::find_last(name, "::"@, name.len() as int),
        at >= 0,
        x.spec_typed(name.take(at)) is Some,
    ensures
        signature::owner_class(x, name) == Some(name.take(at)),
{
}

/// The class that owns a function is the longest known one that its name begins with.
pub proof fn law_the_longest_known_class_owns(x: ClassIndex, name: Seq<char>, at: int)
    requires
        at == text::find_last(name, "::"@, name.len() as int),
        at >= 0,
    ensures
        x.spec_typed(name.take(at)) is Some ==> signature::owner_class(x, name) == Some(
            name.take(at),
        ),
        x.spec_typed(name.take(at)) is None ==> signature::owner_class(x, name)
            == signature::owner_class(x, name.take(at)),
{
    if x.spec_typed(name.take(at)) is Some {
        lemma_owner(x, name, at);
    }
}

/// A function is internal where it is static outside of a class, or stands in a namespace
/// or a class without a name; any other is external.
pub proof fn law_static_functions_are_internal(place: FnPlace, is_static: bool, t: SyntaxTree, n: int)
    requires
        is_static == variables::statically_declared(t, n),
    ensures
        functions::linkage_of(functions::internal(place, t, n)) == Linkage::Internal <==> (
        is_static && !place.is_member || place.in_anonymous || place.is_member
            && place.class_is_anonymous),
        functions::linkage_of(functions::internal(place, t, n)) == Linkage::External <==> !(
        is_static && !place.is_member || place.in_anonymous || place.is_member
            && place.class_is_anonymous),
{
}

/// A function returns what it spells; a conversion what it converts to; else an integer.
pub proof fn law_conversions_return_their_target(
    s: NameScope,
    x: ClassIndex,
    t: SyntaxTree,
    source: Seq<char>,
    n: int,
    decl: int,
    lowered: Seq<char>,
    ty: usize,
    op: usize,
)
    ensures
        tree_laws::fills_field(t, n, "type"@, ty) ==> functions::spelled_return(
            s,
            x,
            t,
            source,
            n,
            decl,
            lowered,
        ) == types::type_of(s, x, t, source, ty as int, lowered),
        t.fielded(n, "type"@) is None && declarator::operator_cast_of(t, decl) == Some(op)
            && tree_laws::fills_field(t, op as int, "type"@, ty) && t.fielded(
            op as int,
            "declarator"@,
        ) is None ==> functions::spelled_return(s, x, t, source, n, decl, lowered)
            == types::type_of(s, x, t, source, ty as int, lowered),
        t.fielded(n, "type"@) is None && declarator::operator_cast_of(t, decl) is None
            ==> functions::spelled_return(s, x, t, source, n, decl, lowered) == DescView::Int,
{
    if tree_laws::fills_field(t, n, "type"@, ty) {
        tree_laws::lemma_first_is_one(t, n, "type"@, ty);
    }
    if tree_laws::fills_field(t, op as int, "type"@, ty) {
        tree_laws::lemma_first_is_one(t, op as int, "type"@, ty);
    }
}

/// What an arrow operator of a class returns: a pointer is taken off, and a parameter of
/// the template is held by its place.
pub proof fn law_arrows_lead_to_what_they_return(
    f: ArrowReturn,
    s: NameScope,
    x: ClassIndex,
    t: SyntaxTree,
    source: Seq<char>,
    n: int,
    ty: int,
    cls: Seq<char>,
    lowered: Seq<char>,
    inner: DescView,
    d: usize,
)
    requires
        functions::is_arrow_fact(f, s, x, t, source, n, ty, cls, lowered),
        functions::names_around(t, source, n).len() == 0,
    ensures
        f.class_name@ == cls,
        f.parameter is None,
        types::type_of(s, x, t, source, ty, lowered) == DescView::Ptr(Box::new(inner))
            ==> f.pointer && f.target@ == inner,
        !(types::type_of(s, x, t, source, ty, lowered) is Ptr) ==> f.target@ == types::type_of(
            s,
            x,
            t,
            source,
            ty,
            lowered,
        ) && (tree_laws::fills_field(t, n, "declarator"@, d) ==> f.pointer == (
        t.rows@[d as int].kind@ == "pointer_declarator"@)),
{
    if tree_laws::fills_field(t, n, "declarator"@, d) {
        tree_laws::lemma_first_is_one(t, n, "declarator"@, d);
    }
}

proof fn lemma_last_position(names: Seq<Option<Seq<char>>>, name: Seq<char>, k: int, i: int)
    requires
        0 <= i < k <= names.len(),
        names[i] == Some(name),
        forall|j: int| i < j < k ==> #[trigger] names[j] != Some(name),
    ensures
        functions::last_position(names, name, k) == Some(i as usize),
    decreases k,
{
    if i < k - 1 {
        assert(names[k - 1] != Some(name));
        lemma_last_position(names, name, k - 1, i);
    }
}

/// A parameter of a template is held by its place, the last where two share a name.
pub proof fn law_template_parameters_are_held_by_place(
    names: Seq<Option<Seq<char>>>,
    name: Seq<char>,
    i: int,
)
    requires
        0 <= i < names.len(),
        names[i] == Some(name),
        forall|j: int| i < j < names.len() ==> #[trigger] names[j] != Some(name),
    ensures
        functions::last_position(names, name, names.len() as int) == Some(i as usize),
{
    lemma_last_position(names, name, names.len() as int, i);
}

proof fn lemma_params(
    s: NameScope,
    x: ClassIndex,
    tags: Seq<(usize, String)>,
    t: SyntaxTree,
    source: Seq<char>,
    n: int,
    first: nat,
    k: int,
    i: int,
)
    requires
        0 <= i < k <= t.children(n).len(),
        members::parameter_kind(t.spec_kind(t.children(n)[i] as int)),
        members::declarator_of(t, source, t.children(n)[i] as int).0.len() > 0,
    ensures
        exists|j: int|
            0 <= j < functions::params_upto(s, x, tags, t, source, n, first, k).len() && (
            #[trigger] functions::params_upto(s, x, tags, t, source, n, first, k)[j]).node
                == t.children(n)[i] as int as usize && functions::params_upto(
                s,
                x,
                tags,
                t,
                source,
                n,
                first,
                k,
            )[j].name == members::declarator_of(t, source, t.children(n)[i] as int).0,
    decreases k,
{
    let before = functions::params_upto(s, x, tags, t, source, n, first, k - 1);
    let all = functions::params_upto(s, x, tags, t, source, n, first, k);
    let c = t.children(n)[i] as int;
    if i < k - 1 {
        lemma_params(s, x, tags, t, source, n, first, k - 1, i);
        let j = choose|j: int|
            0 <= j < before.len() && (#[trigger] before[j]).node == c as usize && before[j].name
                == members::declarator_of(t, source, c).0;
        assert(all[j] == before[j]);
    } else {
        assert(all[before.len() as int].node == c as usize);
    }
}

/// Every named parameter of the list is a parameter of the function, under its name.
pub proof fn law_named_parameters_are_taken(
    s: NameScope,
    x: ClassIndex,
    tags: Seq<(usize, String)>,
    t: SyntaxTree,
    source: Seq<char>,
    decl: int,
    list: usize,
    first: nat,
    i: int,
)
    requires
        declarator::params_of(t, decl) == Some(list),
        0 <= i < t.children(list as int).len(),
        t.rows@[t.children(list as int)[i] as int].kind@ == "parameter_declaration"@
            || t.rows@[t.children(list as int)[i] as int].kind@
            == "optional_parameter_declaration"@,
        members::declarator_of(t, source, t.children(list as int)[i] as int).0.len() > 0,
    ensures
        ({
            let all = functions::params_of(s, x, tags, t, source, decl, first);
            exists|j: int|
                0 <= j < all.len() && (#[trigger] all[j]).node == t.children(list as int)[i]
                    && all[j].name == members::declarator_of(
                    t,
                    source,
                    t.children(list as int)[i] as int,
                ).0
        }),
{
    let n = list as int;
    let k = t.children(n).len() as int;
    lemma_params(s, x, tags, t, source, n, first, k, i);
    let all = functions::params_upto(s, x, tags, t, source, n, first, k);
    let j = choose|j: int|
        0 <= j < all.len() && (#[trigger] all[j]).node == t.children(n)[i] as int as usize
            && all[j].name == members::declarator_of(t, source, t.children(n)[i] as int).0;
    assert(functions::params_of(s, x, tags, t, source, decl, first)[j].node == t.children(n)[i]);
}

proof fn lemma_params_order(
    s: NameScope,
    x: ClassIndex,
    tags: Seq<(usize, String)>,
    t: SyntaxTree,
    source: Seq<char>,
    n: int,
    first: nat,
    k: int,
    j: int,
)
    requires
        0 <= k <= t.children(n).len(),
        0 <= j < functions::params_upto(s, x, tags, t, source, n, first, k).len(),
    ensures
        functions::params_upto(s, x, tags, t, source, n, first, k).len() <= k,
        ({
            let p = functions::params_upto(s, x, tags, t, source, n, first, k)[j];
            &&& t.children(n).take(k).contains(p.node)
            &&& !p.is_named ==> p.name == "$arg"@ + text::decimal(first + j as nat)
            &&& p.is_named ==> p.name == members::declarator_of(t, source, p.node as int).0
        }),
    decreases k,
{
    if k > 0 {
        let before = functions::params_upto(s, x, tags, t, source, n, first, k - 1);
        let c = t.children(n)[k - 1];
        assert(c as int as usize == c);
        assert(t.children(n).take(k)[k - 1] == c);
        if before.len() > 0 {
            lemma_params_order(s, x, tags, t, source, n, first, k - 1, 0);
        }
        if j < before.len() {
            lemma_params_order(s, x, tags, t, source, n, first, k - 1, j);
            let less = t.children(n).take(k - 1);
            let own = before[j].node;
            let i = choose|i: int| 0 <= i < less.len() && less[i] == own;
            assert(t.children(n).take(k)[i] == own);
        }
    }
}

/// A function has no more parameters than its list has entries; one without a name is
/// named by its place.
pub proof fn law_unnamed_parameters_are_named_by_place(
    s: NameScope,
    x: ClassIndex,
    tags: Seq<(usize, String)>,
    t: SyntaxTree,
    source: Seq<char>,
    decl: int,
    list: usize,
    first: nat,
    j: int,
)
    requires
        declarator::params_of(t, decl) == Some(list),
        0 <= j < functions::params_of(s, x, tags, t, source, decl, first).len(),
    ensures
        ({
            let all = functions::params_of(s, x, tags, t, source, decl, first);
            &&& all.len() <= t.children(list as int).len()
            &&& t.children(list as int).contains(all[j].node)
            &&& !all[j].is_named ==> all[j].name == "$arg"@ + text::decimal(first + j as nat)
            &&& all[j].is_named ==> all[j].name == members::declarator_of(
                t,
                source,
                all[j].node as int,
            ).0
        }),
{
    let n = list as int;
    let k = t.children(n).len() as int;
    assert(t.children(n).take(k) =~= t.children(n));
    lemma_params_order(s, x, tags, t, source, n, first, k, j);
}

/// A struct that holds fields only may stand in C too.
pub proof fn law_plain_structs_are_not_of_cpp(t: SyntaxTree, n: int, body: usize)
    requires
        t.rows@[n].kind@ == "struct_specifier"@,
        t.spec_parent(n) is None || t.rows@[t.spec_parent(n)->0 as int].kind@
            != "template_declaration"@,
        tree_laws::has_none(t, n, |m: int| t.rows@[m].kind@ == "base_class_clause"@),
        tree_laws::fills_field(t, n, "body"@, body),
        forall|k: int|
            0 <= k < t.children(body as int).len() ==> !t.rows@[(#[trigger] t.children(
                body as int,
            )[k]) as int].is_named || t.rows@[t.children(body as int)[k] as int].kind@
                == "field_declaration"@ && !members::function_member(
                t,
                t.children(body as int)[k] as int,
            ),
    ensures
        !classes::cpp_only(t, n),
{
    lemma_kinds();
    tree_laws::lemma_first_is_one(t, n, "body"@, body);
    tree_laws::law_kinds_find_the_first_child_of_them(t, n, "base_class_clause"@);
    let p = |m: int| t.rows@[m].kind@ == "base_class_clause"@;
    if let Some(d) = t.of_kind(n, "base_class_clause"@) {
        let i = choose|i: int|
            0 <= i < t.children(n).len() && #[trigger] t.children(n)[i] == d && p(d as int)
                && forall|j: int| 0 <= j < i ==> !p(#[trigger] t.children(n)[j] as int);
        assert(p(t.children(n)[i] as int));
    }
}

} // verus!
