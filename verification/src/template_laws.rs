//! What types, templates and the facts about classes say.

use crate::arrows;
use crate::arrows::{Agreed, ArrowReturn};
use crate::call_laws;
use crate::facts;
use crate::facts::ClassFacts;
use crate::hierarchy;
use crate::ir::{DescView, FileId, TypeDesc};
use crate::lookup;
use crate::lookup::ClassIndex;
use crate::merge::FileMap;
use crate::normalize;
use crate::receivers;
use crate::receivers::TemplateBase;
use crate::registration::ClassEntry;
use crate::scope::NameScope;
use crate::spelling;
use crate::substitution;
use crate::syntax::SyntaxTree;
use crate::templates;
use crate::templates::{Spelling, TemplateReturn};
use crate::text;
use crate::tree_laws;
use crate::types;
use vstd::prelude::*;

verus! {

proof fn lemma_kinds()
    ensures
        "type_parameter_declaration"@.len() == 26,
        "variadic_type_parameter_declaration"@.len() == 35,
        "optional_type_parameter_declaration"@.len() == 35,
        "template_template_parameter_declaration"@.len() == 39,
        "parameter_declaration"@.len() == 21,
        "optional_parameter_declaration"@.len() == 30,
        "variadic_parameter_declaration"@.len() == 30,
        "alias_declaration"@.len() == 17,
        "type_definition"@.len() == 15,
        "template_declaration"@.len() == 20,
        "variadic_type_parameter_declaration"@[0] == 'v',
        "optional_type_parameter_declaration"@[0] == 'o',
        "optional_parameter_declaration"@[0] == 'o',
        "variadic_parameter_declaration"@[0] == 'v',
{
    reveal_strlit("type_parameter_declaration");
    reveal_strlit("variadic_type_parameter_declaration");
    reveal_strlit("optional_type_parameter_declaration");
    reveal_strlit("template_template_parameter_declaration");
    reveal_strlit("parameter_declaration");
    reveal_strlit("optional_parameter_declaration");
    reveal_strlit("variadic_parameter_declaration");
    reveal_strlit("alias_declaration");
    reveal_strlit("type_definition");
    reveal_strlit("template_declaration");
}

proof fn lemma_leading_word(s: Seq<char>)
    requires
        forall|i: int| 0 <= i < s.len() ==> text::is_word(#[trigger] s[i]),
    ensures
        types::leading_word(s) == s,
    decreases s.len(),
{
    if s.len() > 0 {
        assert(text::is_word(s[0]));
        assert forall|i: int| 0 <= i < s.skip(1).len() implies text::is_word(
            #[trigger] s.skip(1)[i],
        ) by {
            assert(text::is_word(s[i + 1]));
        }
        lemma_leading_word(s.skip(1));
        assert(seq![s[0]] + s.skip(1) =~= s);
    }
}

/// A tag is the word behind its keyword.
pub proof fn law_tags_stand_behind_their_keyword(keyword: Seq<char>, rest: Seq<char>)
    requires
        keyword.len() > 0,
        !text::contains(rest, keyword),
        forall|i: int| 0 <= i < text::trim(rest).len() ==> text::is_word(#[trigger] text::trim(rest)[i]),
    ensures
        types::tag_behind(keyword + rest, keyword) == text::trim(rest),
{
    let all = keyword + rest;
    assert(all.subrange(0, keyword.len() as int) =~= keyword);
    assert(text::has_at(all, keyword, 0));
    assert(text::find_from(all, keyword, 0) == 0);
    assert(all.skip(keyword.len() as int) =~= rest);
    text::lemma_contains_is_found(rest, keyword);
    lemma_leading_word(text::trim(rest));
}

/// A type told by its words alone: a union or a struct by its tag, else a scalar, else what
/// the word is another name for.
pub proof fn law_words_tell_the_type(x: ClassIndex, raw: Seq<char>)
    ensures
        text::contains(raw, "union"@) ==> types::flat_type(x, raw) == (DescView::Union {
            name: types::tag_behind(raw, "union"@),
            fields: Seq::empty(),
        }),
        !text::contains(raw, "union"@) && text::contains(raw, "struct"@) ==> types::flat_type(
            x,
            raw,
        ) == (DescView::Struct { name: types::tag_behind(raw, "struct"@), fields: Seq::empty() }),
        !text::contains(raw, "union"@) && !text::contains(raw, "struct"@) ==> {
            &&& types::scalar_of(raw) is Some ==> Some(types::flat_type(x, raw))
                == types::scalar_of(raw)
            &&& types::scalar_of(raw) is None && text::contains(raw, "char"@)
                ==> types::flat_type(x, raw) == DescView::Char
            &&& types::scalar_of(raw) is None && !text::contains(raw, "char"@) && text::contains(
                raw,
                "void"@,
            ) ==> types::flat_type(x, raw) == DescView::Void
            &&& types::scalar_of(raw) is None && !text::contains(raw, "char"@) && !text::contains(
                raw,
                "void"@,
            ) && text::trim(raw).len() > 0 && !types::is_spaced(text::trim(raw)) ==> (
            x.spec_alias(text::trim(raw)) matches Some(d) ==> types::flat_type(x, raw) == d)
            &&& types::scalar_of(raw) is None && !text::contains(raw, "char"@) && !text::contains(
                raw,
                "void"@,
            ) && x.spec_alias(text::trim(raw)) is None ==> types::flat_type(x, raw)
                == DescView::Int
        },
{
}

proof fn lemma_named_of_kind(t: SyntaxTree, n: int, kind: Seq<char>, k: int, i: int)
    requires
        0 <= k <= i < t.children(n).len(),
        t.rows@[t.children(n)[i] as int].is_named,
        t.spec_kind(t.children(n)[i] as int) == kind,
        forall|j: int|
            k <= j < i ==> !(t.rows@[(#[trigger] t.children(n)[j]) as int].is_named && t.spec_kind(
                t.children(n)[j] as int,
            ) == kind),
    ensures
        templates::named_of_kind(t, n, kind, k) == Some(t.children(n)[i]),
    decreases i - k,
{
    if k < i {
        assert(!(t.rows@[t.children(n)[k] as int].is_named && t.spec_kind(
            t.children(n)[k] as int,
        ) == kind));
        lemma_named_of_kind(t, n, kind, k + 1, i);
    }
}

/// What names a parameter of a template: the identifier of a type, or the declarator of a
/// value.
pub proof fn law_template_parameters_are_named(t: SyntaxTree, p: int, i: int, name: usize)
    ensures
        ({
            let kind = t.rows@[p].kind@;
            &&& (kind == "type_parameter_declaration"@ || kind
                == "variadic_type_parameter_declaration"@) && tree_laws::is_first(
                t,
                p,
                name,
                |m: int| t.rows@[m].is_named && t.rows@[m].kind@ == "type_identifier"@,
            ) ==> templates::parameter_node(t, p) == Some(name)
            &&& kind == "optional_type_parameter_declaration"@ && tree_laws::fills_field(
                t,
                p,
                "name"@,
                name,
            ) ==> templates::parameter_node(t, p) == Some(name)
            &&& (kind == "parameter_declaration"@ || kind == "optional_parameter_declaration"@
                || kind == "variadic_parameter_declaration"@) && tree_laws::fills_field(
                t,
                p,
                "declarator"@,
                name,
            ) ==> templates::parameter_node(t, p) == templates::identifier_of(t, name as int)
        }),
{
    lemma_kinds();
    let q = |m: int| t.rows@[m].is_named && t.rows@[m].kind@ == "type_identifier"@;
    if tree_laws::is_first(t, p, name, q) {
        let i = choose|i: int|
            0 <= i < t.children(p).len() && #[trigger] t.children(p)[i] == name && q(name as int)
                && forall|j: int| 0 <= j < i ==> !q(#[trigger] t.children(p)[j] as int);
        assert forall|j: int| 0 <= j < i implies !(t.rows@[(#[trigger] t.children(
            p,
        )[j]) as int].is_named && t.spec_kind(t.children(p)[j] as int)
            == "type_identifier"@) by {
            assert(!q(t.children(p)[j] as int));
        }
        lemma_named_of_kind(t, p, "type_identifier"@, 0, i);
    }
    if tree_laws::fills_field(t, p, "name"@, name) {
        tree_laws::lemma_first_is_one(t, p, "name"@, name);
    }
    if tree_laws::fills_field(t, p, "declarator"@, name) {
        tree_laws::lemma_first_is_one(t, p, "declarator"@, name);
    }
}

/// A type depends on a template where what it is made of does.
pub proof fn law_types_depend_on_their_parts(
    t: SyntaxTree,
    source: Seq<char>,
    n: int,
    inner: TypeDesc,
    len: Option<u64>,
)
    ensures
        templates::dependent_desc(t, source, n, TypeDesc::Ptr(Box::new(inner)))
            == templates::dependent_desc(t, source, n, inner),
        !templates::dependent_desc(t, source, n, TypeDesc::Int),
        !templates::dependent_desc(t, source, n, TypeDesc::Void),
        !templates::dependent_desc(t, source, n, TypeDesc::Unknown),
        (inner matches TypeDesc::Struct { name, .. } ==> templates::dependent_desc(
            t,
            source,
            n,
            inner,
        ) == templates::mentioned_above(t, source, n, name@, Spelling::Lowered)),
{
    reveal_with_fuel(templates::dependent_desc, 2);
}

/// A template that names the parameter somewhere above is a template the text depends on.
pub proof fn law_mentions_are_looked_for_outward(
    t: SyntaxTree,
    source: Seq<char>,
    n: int,
    p: usize,
    spelling: Seq<char>,
    from: Spelling,
)
    requires
        t.wf(),
        0 <= n < t.len(),
        t.spec_parent(n) == Some(p),
        p < n,
    ensures
        templates::template_mentions(t, source, p as int, spelling, from)
            ==> templates::mentioned_above(t, source, n, spelling, from),
        templates::mentioned_above(t, source, p as int, spelling, from)
            ==> templates::mentioned_above(t, source, n, spelling, from),
        t.rows@[p as int].kind@ == "template_declaration"@ ==> templates::in_template(t, n),
        templates::in_template(t, p as int) ==> templates::in_template(t, n),
{
}

/// What a function returns depends on a template where it stands in one and its type
/// mentions a parameter of it.
pub proof fn law_dependent_results_mention_a_parameter(
    t: SyntaxTree,
    source: Seq<char>,
    n: int,
    ty: usize,
)
    requires
        t.wf(),
        0 <= n < t.len(),
        tree_laws::fills_field(t, n, "type"@, ty),
    ensures
        !templates::in_template(t, n) ==> !templates::dependent_return(t, source, n),
        templates::in_template(t, n) && templates::mentioned_above(
            t,
            source,
            n,
            t.text(source, ty as int),
            Spelling::Source,
        ) ==> templates::dependent_return(t, source, n),
{
    tree_laws::lemma_first_is_one(t, n, "type"@, ty);
    assert(t.rows@.len() == t.rows.len());
}

/// An alias stands for the type behind its name.
pub proof fn law_aliases_name_a_type(
    t: SyntaxTree,
    source: Seq<char>,
    m: int,
    name: usize,
    ty: usize,
)
    requires
        t.rows@[m].kind@ == "alias_declaration"@,
        tree_laws::fills_field(t, m, "name"@, name),
        tree_laws::fills_field(t, m, "type"@, ty),
    ensures
        templates::alias_of(t, source, m) == Some(
            (t.text(source, name as int), t.text(source, ty as int)),
        ),
{
    tree_laws::lemma_first_is_one(t, m, "name"@, name);
    tree_laws::lemma_first_is_one(t, m, "type"@, ty);
}

/// What a template's argument holds: the class that its name means where the template was
/// named.
pub proof fn law_arguments_hold_the_class_they_name(
    x: ClassIndex,
    scope: Seq<char>,
    arg: Seq<char>,
    cls: Seq<char>,
)
    requires
        substitution::class_from(x, scope, normalize::without_arguments(arg)) == Some(cls),
    ensures
        !arg.contains('<') ==> substitution::held_in(x, scope, arg) == Some(cls),
        arg.contains('<') ==> (substitution::held_in(x, scope, arg) matches Some(held)
            && held.len() >= cls.len() + 2 && held.take(cls.len() as int) == cls
            && held[cls.len() as int] == '<'),
{
    reveal_strlit("<");
    reveal_strlit(">");
    if let Some(held) = substitution::held_in(x, scope, arg) {
        assert(held.take(cls.len() as int) =~= cls);
    }
}

/// A name is looked for from the scope outward, until a class has it.
pub proof fn law_arguments_are_looked_for_outward(x: ClassIndex, scope: Seq<char>, name: Seq<char>)
    requires
        !text::starts_with(name, "::"@),
    ensures
        scope.len() > 0 && lookup::class_named(x, scope + "::"@ + name) is Some
            ==> substitution::class_from(x, scope, name) == lookup::class_named(
            x,
            scope + "::"@ + name,
        ),
        scope.len() > 0 && lookup::class_named(x, scope + "::"@ + name) is None
            ==> substitution::class_from(x, scope, name) == substitution::class_from(
            x,
            lookup::around(scope),
            name,
        ),
        scope.len() == 0 && lookup::class_named(x, name) is Some ==> substitution::class_from(
            x,
            scope,
            name,
        ) == lookup::class_named(x, name),
{
}

proof fn lemma_base_naming(bases: Seq<TemplateBase>, owner: Seq<char>, k: int, i: int)
    requires
        0 <= k <= i < bases.len(),
        normalize::without_arguments(bases[i].spelling@) == owner,
        forall|j: int|
            k <= j < i ==> normalize::without_arguments((#[trigger] bases[j]).spelling@) != owner,
    ensures
        receivers::base_naming(bases, owner, k) == Some(bases[i]),
    decreases i - k,
{
    if k < i {
        assert(normalize::without_arguments(bases[k].spelling@) != owner);
        lemma_base_naming(bases, owner, k + 1, i);
    }
}

proof fn lemma_template_bases(
    table: Seq<(String, Vec<TemplateBase>)>,
    cls: Seq<char>,
    k: int,
    e: int,
)
    requires
        0 <= k <= e < table.len(),
        table[e].0@ == cls,
        forall|j: int| k <= j < e ==> (#[trigger] table[j]).0@ != cls,
    ensures
        receivers::template_bases_from(table, cls, k) == table[e].1@,
    decreases e - k,
{
    if k < e {
        assert(table[k].0@ != cls);
        lemma_template_bases(table, cls, k + 1, e);
    }
}

/// A template that a class derives from is found in the class's own bases first, and in
/// those of its base else.
pub proof fn law_template_bases_are_inherited(
    x: ClassIndex,
    table: Seq<(String, Vec<TemplateBase>)>,
    owner: Seq<char>,
    cls: Seq<char>,
    base: Seq<char>,
    e: int,
    i: int,
)
    requires
        base != cls,
        x.spec_bases(cls) == seq![base],
        receivers::base_naming(receivers::template_bases_from(table, cls, 0), owner, 0) is None,
        0 <= e < table.len(),
        table[e].0@ == base,
        forall|j: int| 0 <= j < e ==> (#[trigger] table[j]).0@ != base,
        0 <= i < table[e].1@.len(),
        normalize::without_arguments(table[e].1@[i].spelling@) == owner,
        forall|j: int|
            0 <= j < i ==> normalize::without_arguments((#[trigger] table[e].1@[j]).spelling@)
                != owner,
    ensures
        substitution::inherited_from(x, table, owner, seq![cls], seq![cls]) == Some(
            table[e].1@[i],
        ),
{
    lemma_template_bases(table, base, 0, e);
    lemma_base_naming(table[e].1@, owner, 0, i);
    reveal_with_fuel(substitution::inherited_from, 3);
    reveal_with_fuel(substitution::newly_seen, 3);
    assert(seq![cls].skip(1) =~= seq![]);
    assert(seq![base].len() == 1);
    let q = Seq::<Seq<char>>::empty().push(base);
    let s = seq![cls].push(base);
    assert(!seq![cls].contains(base));
    assert(substitution::newly_seen(x.spec_bases(cls), seq![cls].skip(1), seq![cls], 1) == (q, s));
    assert(q[0] == base);
    assert(seq![cls][0] == cls);
}

/// The class's own bases answer before any other.
pub proof fn law_own_template_bases_answer_first(
    x: ClassIndex,
    table: Seq<(String, Vec<TemplateBase>)>,
    owner: Seq<char>,
    cls: Seq<char>,
    e: int,
    i: int,
)
    requires
        0 <= e < table.len(),
        table[e].0@ == cls,
        forall|j: int| 0 <= j < e ==> (#[trigger] table[j]).0@ != cls,
        0 <= i < table[e].1@.len(),
        normalize::without_arguments(table[e].1@[i].spelling@) == owner,
        forall|j: int|
            0 <= j < i ==> normalize::without_arguments((#[trigger] table[e].1@[j]).spelling@)
                != owner,
    ensures
        substitution::inherited_from(x, table, owner, seq![cls], seq![cls]) == Some(
            table[e].1@[i],
        ),
{
    lemma_template_bases(table, cls, 0, e);
    lemma_base_naming(table[e].1@, owner, 0, i);
    assert(seq![cls][0] == cls);
}

proof fn lemma_substitutes(
    s: NameScope,
    x: ClassIndex,
    args: Seq<Seq<char>>,
    scope: Option<Seq<char>>,
    facts: Seq<TemplateReturn>,
    arity: nat,
    k: int,
    i: int,
)
    requires
        0 <= k <= facts.len(),
        0 <= i < facts.len(),
        forall|j: int| 0 <= j < facts.len() && j != i ==> (#[trigger] facts[j]).arity != arity,
    ensures
        k <= i || facts[i].arity != arity ==> substitution::substitutes_upto(
            s,
            x,
            args,
            scope,
            facts,
            arity,
            k,
        ).len() == 0,
        k > i && facts[i].arity == arity ==> substitution::substitutes_upto(
            s,
            x,
            args,
            scope,
            facts,
            arity,
            k,
        ) == seq![
            receivers::substituted(
                args,
                facts[i],
                substitution::held_for(s, x, args, scope, facts[i]),
            ),
        ],
    decreases k,
{
    if k > 0 {
        lemma_substitutes(s, x, args, scope, facts, arity, k - 1, i);
        let before = substitution::substitutes_upto(s, x, args, scope, facts, arity, k - 1);
        if k - 1 != i {
            assert(facts[k - 1].arity != arity);
        } else {
            assert(before =~= seq![]);
        }
    }
}

/// A member of a template returns what its only form of that arity does; it returns nothing
/// known where it has none.
pub proof fn law_the_form_of_the_arity_is_substituted(
    s: NameScope,
    x: ClassIndex,
    args: Seq<Seq<char>>,
    scope: Option<Seq<char>>,
    facts: Seq<TemplateReturn>,
    arity: nat,
    i: int,
)
    requires
        0 <= i < facts.len(),
        forall|j: int| 0 <= j < facts.len() && j != i ==> (#[trigger] facts[j]).arity != arity,
    ensures
        facts[i].arity == arity ==> substitution::substituted_return(
            s,
            x,
            args,
            scope,
            facts,
            arity,
        ) == receivers::substituted(
            args,
            facts[i],
            substitution::held_for(s, x, args, scope, facts[i]),
        ),
        facts[i].arity != arity ==> substitution::substituted_return(
            s,
            x,
            args,
            scope,
            facts,
            arity,
        ) is None,
{
    lemma_substitutes(s, x, args, scope, facts, arity, facts.len() as int, i);
    let all = substitution::substitutes_upto(s, x, args, scope, facts, arity, facts.len() as int);
    if facts[i].arity == arity {
        assert(all.len() == 1);
        assert(forall|k: int| 0 <= k < all.len() ==> #[trigger] all[k] == all[0]);
    }
}

/// The argument that a result is held by is the one at the parameter's place.
pub proof fn law_results_are_held_by_their_argument(
    s: NameScope,
    x: ClassIndex,
    args: Seq<Seq<char>>,
    scope: Seq<char>,
    fact: TemplateReturn,
)
    ensures
        fact.parameter is None ==> substitution::held_for(s, x, args, Some(scope), fact) is None,
        fact.parameter matches Some(i) ==> {
            &&& i >= args.len() ==> substitution::held_for(s, x, args, Some(scope), fact) is None
            &&& i < args.len() ==> substitution::held_for(s, x, args, Some(scope), fact)
                == substitution::held_in(x, scope, types::argument_base(args[i as int]))
            &&& i < args.len() ==> substitution::held_for(s, x, args, None, fact)
                == receivers::spec_held(s, x, types::argument_base(args[i as int]))
        },
{
}

/// What can be called on: a class, a union or a function, also behind a pointer; a number
/// cannot.
pub proof fn law_receivers_are_classes(
    s: NameScope,
    x: ClassIndex,
    name: Seq<char>,
    fields: Seq<(Seq<char>, DescView)>,
    d: DescView,
)
    ensures
        !normalize::smart_ptr_name(normalize::without_arguments(name)) ==> s.spec_receiver_type(
            x,
            DescView::Struct { name, fields },
        ) == Some(DescView::Struct { name, fields }),
        s.spec_receiver_type(x, DescView::Int) is None,
        s.spec_receiver_type(x, DescView::Void) is None,
        s.spec_receiver_type(x, DescView::Unknown) is None,
        s.spec_receiver_type(x, d) is None ==> s.spec_receiver_type(
            x,
            DescView::Ptr(Box::new(d)),
        ) is None,
        (s.spec_receiver_type(x, d) matches Some(own) ==> s.spec_receiver_type(
            x,
            DescView::Ptr(Box::new(d)),
        ) == Some(DescView::Ptr(Box::new(own)))),
{
    reveal_with_fuel(NameScope::spec_receiver_type, 2);
}

/// What an arrow operator leads to: the type it returns, or the argument at the place of
/// its parameter where the class is the one that declares it; behind a pointer where it
/// returns one.
pub proof fn law_arrow_operators_return_their_target(
    fact: ArrowReturn,
    cls: Seq<char>,
    args: Seq<Seq<char>>,
)
    ensures
        fact.parameter is None && !fact.pointer ==> arrows::fact_target(fact, cls, args) == Some(
            fact.target@,
        ),
        fact.parameter is None && fact.pointer ==> arrows::fact_target(fact, cls, args) == Some(
            DescView::Ptr(Box::new(fact.target@)),
        ),
        fact.parameter matches Some(i) ==> {
            let own = DescView::Struct { name: args[i as int], fields: Seq::empty() };
            &&& fact.class_name@ == cls && i < args.len() && fact.pointer ==> arrows::fact_target(
                fact,
                cls,
                args,
            ) == Some(DescView::Ptr(Box::new(own)))
            &&& fact.class_name@ == cls && i < args.len() && !fact.pointer
                ==> arrows::fact_target(fact, cls, args) == Some(own)
            &&& fact.class_name@ != cls || i >= args.len() ==> arrows::fact_target(
                fact,
                cls,
                args,
            ) is None
        },
{
}

proof fn lemma_agreed(
    facts: Seq<ArrowReturn>,
    cls: Seq<char>,
    owner: Option<Seq<char>>,
    args: Seq<Seq<char>>,
    k: int,
    d: DescView,
)
    requires
        0 <= k <= facts.len(),
        forall|i: int|
            0 <= i < facts.len() && arrows::applies(#[trigger] facts[i], cls, owner)
                ==> arrows::fact_target(facts[i], cls, args) == Some(d),
    ensures
        arrows::agreed_upto(facts, cls, owner, args, k) == Agreed::Silent || arrows::agreed_upto(
            facts,
            cls,
            owner,
            args,
            k,
        ) == Agreed::On(d),
        (exists|i: int| 0 <= i < k && arrows::applies(#[trigger] facts[i], cls, owner))
            ==> arrows::agreed_upto(facts, cls, owner, args, k) == Agreed::On(d),
    decreases k,
{
    if k > 0 {
        lemma_agreed(facts, cls, owner, args, k - 1, d);
        if exists|i: int| 0 <= i < k && arrows::applies(#[trigger] facts[i], cls, owner) {
            let i = choose|i: int| 0 <= i < k && arrows::applies(#[trigger] facts[i], cls, owner);
            if i < k - 1 {
                assert(arrows::applies(facts[i], cls, owner));
            }
        }
        if arrows::applies(facts[k - 1], cls, owner) {
            assert(arrows::fact_target(facts[k - 1], cls, args) == Some(d));
        }
    }
}

proof fn lemma_broken(
    facts: Seq<ArrowReturn>,
    cls: Seq<char>,
    owner: Option<Seq<char>>,
    args: Seq<Seq<char>>,
    k: int,
    i: int,
    j: int,
)
    requires
        0 <= i < k <= facts.len(),
        0 <= j < k,
        arrows::applies(facts[i], cls, owner),
        arrows::applies(facts[j], cls, owner),
        arrows::fact_target(facts[i], cls, args) != arrows::fact_target(facts[j], cls, args),
    ensures
        arrows::agreed_upto(facts, cls, owner, args, k) == Agreed::Broken,
    decreases k,
{
    if i < k - 1 && j < k - 1 {
        lemma_broken(facts, cls, owner, args, k - 1, i, j);
    } else if i < k - 1 {
        lemma_held(facts, cls, owner, args, k - 1, i);
    } else {
        lemma_held(facts, cls, owner, args, k - 1, j);
    }
}

proof fn lemma_held(
    facts: Seq<ArrowReturn>,
    cls: Seq<char>,
    owner: Option<Seq<char>>,
    args: Seq<Seq<char>>,
    k: int,
    i: int,
)
    requires
        0 <= i < k <= facts.len(),
        arrows::applies(facts[i], cls, owner),
    ensures
        arrows::agreed_upto(facts, cls, owner, args, k) != Agreed::Silent,
        arrows::agreed_upto(facts, cls, owner, args, k) matches Agreed::On(d) ==> Some(d)
            == arrows::fact_target(facts[i], cls, args),
    decreases k,
{
    if i < k - 1 {
        lemma_held(facts, cls, owner, args, k - 1, i);
    }
}

/// The arrow operators of a class, and of the class it has them from, must agree: what all
/// of them lead to is what the arrow leads to, and where two differ it leads nowhere.
pub proof fn law_arrow_operators_agree(
    facts: Seq<ArrowReturn>,
    cls: Seq<char>,
    owner: Seq<char>,
    args: Seq<Seq<char>>,
    i: int,
    j: int,
    d: DescView,
)
    requires
        0 <= i < facts.len(),
        0 <= j < facts.len(),
        facts[i].class_name@ == cls || facts[i].class_name@ == owner,
        facts[j].class_name@ == cls || facts[j].class_name@ == owner,
    ensures
        arrows::fact_target(facts[i], cls, args) != arrows::fact_target(facts[j], cls, args)
            ==> arrows::agreed_upto(facts, cls, Some(owner), args, facts.len() as int)
            == Agreed::Broken,
        (forall|m: int|
            0 <= m < facts.len() && ((#[trigger] facts[m]).class_name@ == cls
                || facts[m].class_name@ == owner) ==> arrows::fact_target(facts[m], cls, args)
                == Some(d)) ==> arrows::agreed_upto(
            facts,
            cls,
            Some(owner),
            args,
            facts.len() as int,
        ) == Agreed::On(d),
{
    assert(arrows::applies(facts[i], cls, Some(owner)));
    assert(arrows::applies(facts[j], cls, Some(owner)));
    if arrows::fact_target(facts[i], cls, args) != arrows::fact_target(facts[j], cls, args) {
        lemma_broken(facts, cls, Some(owner), args, facts.len() as int, i, j);
    }
    if forall|m: int|
        0 <= m < facts.len() && ((#[trigger] facts[m]).class_name@ == cls || facts[m].class_name@
            == owner) ==> arrows::fact_target(facts[m], cls, args) == Some(d) {
        lemma_agreed(facts, cls, Some(owner), args, facts.len() as int, d);
    }
}

/// An arrow through a pointer that an operator returns leads to the class it points to.
pub proof fn law_arrows_follow_the_operator(
    x: ClassIndex,
    facts: Seq<ArrowReturn>,
    name: Seq<char>,
    fields: Seq<(Seq<char>, DescView)>,
    fuel: nat,
    held: Seq<char>,
)
    requires
        fuel >= 2,
        x.spec_defined(normalize::without_arguments(name)),
        arrows::agreed_upto(
            facts,
            normalize::without_arguments(name),
            arrows::arrow_owner(
                x,
                hierarchy::ancestry(x, normalize::without_arguments(name)),
                0,
            ),
            spelling::arguments_of(name),
            facts.len() as int,
        ) == Agreed::On(
            DescView::Ptr(Box::new(DescView::Struct { name: held, fields: Seq::empty() })),
        ),
    ensures
        arrows::arrow_target(x, facts, DescView::Struct { name, fields }, seq![], fuel) == Some(
            held,
        ),
{
    reveal_with_fuel(arrows::arrow_target, 3);
    reveal_with_fuel(arrows::class_spelling, 2);
    assert(!Seq::<Seq<char>>::empty().contains(name));
}

/// A class states each of its bases, in order.
pub proof fn law_classes_state_their_bases(entry: ClassEntry, file: FileId, i: int)
    requires
        0 <= i < entry.bases@.len(),
    ensures
        ({
            let n = entry.bases@.len() as int;
            &&& facts::base_facts(entry, n).len() == n
            &&& facts::base_facts(entry, n)[i] == (entry.name@, entry.bases@[i].class@)
            &&& !entry.is_anonymous ==> facts::file_base_facts(entry, file, n).len() == 0
            &&& entry.is_anonymous ==> facts::file_base_facts(entry, file, n).len() == n
                && facts::file_base_facts(entry, file, n)[i] == (
                entry.name@,
                file,
                Some(entry.bases@[i].class@),
            )
        }),
{
}

proof fn lemma_template_facts(
    entry: ClassEntry,
    scope: Seq<char>,
    dependent: Seq<bool>,
    k: int,
    i: int,
    spelled: Seq<char>,
)
    requires
        0 <= i < k <= entry.bases@.len(),
        entry.bases@[i].template matches Some(own) && own@ == spelled,
    ensures
        facts::template_facts(entry, scope, dependent, k).contains(
            (entry.name@, spelled, scope, dependent[i]),
        ),
    decreases k,
{
    let before = facts::template_facts(entry, scope, dependent, k - 1);
    let all = facts::template_facts(entry, scope, dependent, k);
    let own = (entry.name@, spelled, scope, dependent[i]);
    if i < k - 1 {
        lemma_template_facts(entry, scope, dependent, k - 1, i, spelled);
        let j = choose|j: int| 0 <= j < before.len() && before[j] == own;
        assert(all[j] == own);
    } else {
        assert(all[before.len() as int] == own);
    }
}

/// A base that is a template is stated as it is spelled, with the scope that it was named in.
pub proof fn law_template_bases_are_stated(
    entry: ClassEntry,
    scope: Seq<char>,
    dependent: Seq<bool>,
    i: int,
    spelled: Seq<char>,
)
    requires
        0 <= i < entry.bases@.len(),
        entry.bases@[i].template matches Some(own) && own@ == spelled,
    ensures
        facts::template_facts(entry, scope, dependent, entry.bases@.len() as int).contains(
            (entry.name@, spelled, scope, dependent[i]),
        ),
{
    lemma_template_facts(entry, scope, dependent, entry.bases@.len() as int, i, spelled);
}

/// Joining the facts of a unit to those of a program keeps each of both, and makes up none.
pub proof fn law_joined_facts_are_those_of_both(
    own: ClassFacts,
    before: ClassFacts,
    unit: ClassFacts,
    map: FileMap,
    base: (Seq<char>, Seq<char>),
    name: Seq<char>,
)
    requires
        own.is_joined(&before, &unit, map),
    ensures
        facts::all_stated(own.inheritance@).contains(base) <==> facts::all_stated(
            before.inheritance@,
        ).contains(base) || facts::all_stated(unit.inheritance@).contains(base),
        facts::all_stated(own.final_classes@).contains(name) <==> facts::all_stated(
            before.final_classes@,
        ).contains(name) || facts::all_stated(unit.final_classes@).contains(name),
        facts::all_stated(own.namespaces@).contains(name) <==> facts::all_stated(
            before.namespaces@,
        ).contains(name) || facts::all_stated(unit.namespaces@).contains(name),
        own.anon_types >= before.anon_types && own.anon_types >= unit.anon_types,
        own.anon_types == before.anon_types || own.anon_types == unit.anon_types,
{
    call_laws::lemma_joined_in(
        facts::all_stated(before.inheritance@),
        facts::all_stated(unit.inheritance@),
        base,
    );
    call_laws::lemma_joined_in(
        facts::all_stated(before.final_classes@),
        facts::all_stated(unit.final_classes@),
        name,
    );
    call_laws::lemma_joined_in(
        facts::all_stated(before.namespaces@),
        facts::all_stated(unit.namespaces@),
        name,
    );
}

} // verus!
