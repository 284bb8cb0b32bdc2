//! How a class specifier enters the index: the name it registers under, the
//! bases it lists, and what the members of its body ask for.

use crate::classes;
use crate::classes::{
    class_specifier_is_final, continues_previous_member, is_class_reference,
    is_named_class_specifier, member_class_definition, member_class_tag, template_member_decl,
};
use crate::lookup::ClassIndex;
use crate::members;
use crate::members::{member_decl_is_function, member_short_name};
use crate::naming;
use crate::naming::canonical_chars;
use crate::normalize;
use crate::normalize::{arguments_stripped, normalize_template_spelling, requalified};
use crate::parse::node_text;
use crate::scope;
use crate::scope::NameScope;
use crate::spelling;
use crate::spelling::{position, template_tail};
use crate::syntax::SyntaxTree;
use crate::text;
use crate::text::{append, chars_of, decimal_chars, holds, part, str_eq, string_of};
use crate::types;
use vstd::prelude::*;

verus! {

/// The name that a class specifier spells; empty where it spells none.
pub open spec fn spelled_class(t: SyntaxTree, source: Seq<char>, n: int) -> Seq<char> {
    match t.fielded(n, "name"@) {
        Some(name) => {
            let raw = t.text(source, name as int);
            if t.spec_kind(name as int) == "template_type"@ || raw.contains('<') {
                classes::bare_tag(raw)
            } else if text::contains(raw, "::"@) || types::is_spaced(raw) {
                normalize::qualified_text(raw)
            } else {
                raw
            }
        },
        None => seq![],
    }
}

/// The name of the `k`-th type without one.
pub open spec fn anonymous_class(k: nat) -> Seq<char> {
    "anon_"@ + text::decimal(k)
}

/// The name that a class specifier spells. A specialization (`Box<int>`)
/// registers under the bare template tag; a specifier without a name takes the
/// next anonymous one.
pub fn class_name(source: &str, tree: &SyntaxTree, node: usize, anonymous: &mut u32) -> (r: String)
    requires
        tree.fits(source@),
        node < tree.len(),
        *old(anonymous) < u32::MAX,
    ensures
        spelled_class(*tree, source@, node as int).len() > 0 ==> r@ == spelled_class(
            *tree,
            source@,
            node as int,
        ) && *final(anonymous) == *old(anonymous),
        spelled_class(*tree, source@, node as int).len() == 0 ==> *final(anonymous) == *old(
            anonymous,
        ) + 1 && r@ == anonymous_class(*final(anonymous) as nat),
{
    let name: Vec<char> = match tree.child_by_field_name(node, "name") {
        Some(n) => {
            let raw = chars_of(node_text(source, tree, n));
            let is_list = position(&raw, '<').is_some();
            assert(is_list == raw@.contains('<'));
            if tree.kind_is(n, "template_type") || is_list {
                arguments_stripped(&requalified(&raw))
            } else if holds(&raw, &chars_of("::")) || types::has_space(&raw) {
                requalified(&raw)
            } else {
                raw
            }
        },
        None => Vec::new(),
    };
    if name.len() == 0 {
        *anonymous = *anonymous + 1;
        let mut own = chars_of("anon_");
        append(&mut own, &decimal_chars(*anonymous));
        return string_of(&own);
    }
    string_of(&name)
}

/// The class that a member's name is looked up in first.
pub open spec fn innermost_class(s: NameScope) -> Option<Seq<char>> {
    if s.type_scope@.len() > 0 {
        Some(s.type_scope@.last()@)
    } else {
        None
    }
}

/// The C++ spelling of a member class, and whether it registers under it.
pub open spec fn own_member_tag(s: NameScope, t: SyntaxTree, source: Seq<char>, n: int) -> Option<
    (Seq<char>, bool),
> {
    classes::member_tag_of(t, source, s.is_cpp, innermost_class(s), n)
}

/// The specifier is of a C++ class: `struct` is one there too.
pub open spec fn cpp_class(s: NameScope, t: SyntaxTree, n: int) -> bool {
    s.is_cpp && classes::class_kind(t.spec_kind(n))
}

/// The name that a class called `name` registers under.
pub open spec fn registered_name(
    s: NameScope,
    x: ClassIndex,
    t: SyntaxTree,
    source: Seq<char>,
    n: int,
    name: Seq<char>,
) -> Seq<char> {
    match own_member_tag(s, t, source, n) {
        Some((spelling, true)) => spelling,
        _ => if !cpp_class(s, t, n) {
            name
        } else if text::contains(name, "::"@) {
            match s.spec_tag(x, name) {
                Some(tag) => tag,
                None => name,
            }
        } else if classes::class_reference(t, n) && s.spec_tag(x, name) is Some {
            s.spec_tag(x, name)->0
        } else {
            scope::within(s.spec_levels(), name)
        },
    }
}

/// A base that a class lists: as the source spells it, the class it names, and
/// its spelling on that class where it is a template with arguments.
#[derive(Debug, PartialEq, Eq)]
pub struct BaseEntry {
    pub spelled: String,
    pub class: String,
    pub template: Option<String>,
}

/// The class that a base spelling names.
pub open spec fn base_class(s: NameScope, x: ClassIndex, spelled: Seq<char>) -> Seq<char> {
    let short = classes::bare_tag(spelled);
    match s.spec_class_seen(x, short) {
        Some(cls) => cls,
        None => s.spec_qualified_class(x, short),
    }
}

/// A template base with its arguments on the class it names. In
/// `Outer<A>::Inner<B>` they stand on separate classes, so the spelling is
/// kept.
pub open spec fn base_template(s: NameScope, x: ClassIndex, spelled: Seq<char>) -> Option<
    Seq<char>,
> {
    let own = normalize::template_spelling(spelled);
    match own.index_of_first('<') {
        Some(at) => Some(
            if spelling::tail_of(own).len() == 0 {
                base_class(s, x, spelled) + own.skip(at)
            } else {
                own
            },
        ),
        None => None,
    }
}

/// A child of a base clause that names a base.
pub open spec fn names_base(t: SyntaxTree, c: int) -> bool {
    let kind = t.spec_kind(c);
    &&& t.rows@[c].is_named || kind == "qualified_identifier"@
    &&& kind == "type_identifier"@ || kind == "qualified_identifier"@ || kind == "template_type"@
        || kind == "namespace_identifier"@
}

/// The bases that the first `k` children of the clause `clause` name.
pub open spec fn bases_in(t: SyntaxTree, clause: int, k: int) -> Seq<usize>
    decreases k,
{
    if k <= 0 || k > t.children(clause).len() {
        seq![]
    } else if names_base(t, t.children(clause)[k - 1] as int) {
        bases_in(t, clause, k - 1).push(t.children(clause)[k - 1])
    } else {
        bases_in(t, clause, k - 1)
    }
}

/// The bases that the first `k` children of the specifier `n` name.
pub open spec fn bases_upto(t: SyntaxTree, n: int, k: int) -> Seq<usize>
    decreases k,
{
    if k <= 0 || k > t.children(n).len() {
        seq![]
    } else {
        let c = t.children(n)[k - 1] as int;
        if t.spec_kind(c) == "base_class_clause"@ {
            bases_upto(t, n, k - 1) + bases_in(t, c, t.children(c).len() as int)
        } else {
            bases_upto(t, n, k - 1)
        }
    }
}

pub open spec fn bases_named(t: SyntaxTree, n: int) -> Seq<usize> {
    bases_upto(t, n, t.children(n).len() as int)
}

pub open spec fn is_base_entry(
    e: BaseEntry,
    s: NameScope,
    x: ClassIndex,
    spelled: Seq<char>,
) -> bool {
    &&& e.spelled@ == spelled
    &&& e.class@ == base_class(s, x, spelled)
    &&& match e.template {
        Some(own) => base_template(s, x, spelled) == Some(own@),
        None => base_template(s, x, spelled) is None,
    }
}

fn base_entry(scope: &NameScope, index: &ClassIndex, spelled: &str) -> (r: BaseEntry)
    ensures
        is_base_entry(r, *scope, *index, spelled@),
{
    let short = arguments_stripped(&requalified(&chars_of(spelled)));
    let class = match scope.class_seen_from(index, &short) {
        Some(cls) => cls,
        None => scope.qualify_class_name(index, &short),
    };
    let own = normalize_template_spelling(spelled);
    let s = chars_of(own.as_str());
    let template: Option<String> = match position(&s, '<') {
        Some(at) => {
            let tail = chars_of(template_tail(own.as_str()).as_str());
            if tail.len() == 0 {
                let mut whole = part(&class, 0, class.len());
                assert(whole@ =~= class@);
                let list = part(&s, at, s.len());
                assert(list@ =~= s@.skip(at as int));
                append(&mut whole, &list);
                Some(string_of(&whole))
            } else {
                Some(own)
            }
        },
        None => None,
    };
    BaseEntry { spelled: string_of(&chars_of(spelled)), class: string_of(&class), template }
}

fn is_base_name(tree: &SyntaxTree, c: usize) -> (r: bool)
    requires
        c < tree.len(),
    ensures
        r == names_base(*tree, c as int),
{
    (tree.rows[c].is_named || tree.kind_is(c, "qualified_identifier")) && (tree.kind_is(
        c,
        "type_identifier",
    ) || tree.kind_is(c, "qualified_identifier") || tree.kind_is(c, "template_type")
        || tree.kind_is(c, "namespace_identifier"))
}

/// The nodes that name the bases a class specifier lists, in order.
pub fn base_nodes(tree: &SyntaxTree, node: usize) -> (r: Vec<usize>)
    requires
        tree.wf(),
        node < tree.len(),
    ensures
        r@ == bases_named(*tree, node as int),
        forall|i: int| 0 <= i < r@.len() ==> #[trigger] r@[i] < tree.len(),
{
    let mut out: Vec<usize> = Vec::new();
    let mut k: usize = 0;
    while k < tree.kids[node].len()
        invariant
            tree.wf(),
            node < tree.len(),
            k <= tree.children(node as int).len(),
            out@ == bases_upto(*tree, node as int, k as int),
            forall|i: int| 0 <= i < out@.len() ==> #[trigger] out@[i] < tree.len(),
        decreases tree.children(node as int).len() - k,
    {
        let c = tree.kids[node][k];
        assert(c == tree.children(node as int)[k as int]);
        if tree.kind_is(c, "base_class_clause") {
            let ghost before = out@;
            let mut j: usize = 0;
            assert(before + bases_in(*tree, c as int, 0) =~= out@);
            while j < tree.kids[c].len()
                invariant
                    tree.wf(),
                    c < tree.len(),
                    j <= tree.children(c as int).len(),
                    out@ == before + bases_in(*tree, c as int, j as int),
                    forall|i: int| 0 <= i < out@.len() ==> #[trigger] out@[i] < tree.len(),
                decreases tree.children(c as int).len() - j,
            {
                let b = tree.kids[c][j];
                assert(b == tree.children(c as int)[j as int]);
                if is_base_name(tree, b) {
                    out.push(b);
                    assert(out@ =~= before + bases_in(*tree, c as int, j + 1));
                }
                j += 1;
            }
        }
        k += 1;
    }
    out
}

/// What the index takes in of a class specifier.
#[derive(Debug, PartialEq, Eq)]
pub struct ClassEntry {
    /// The tag the class registers under.
    pub name: String,
    /// The C++ spelling of a member struct that keeps its C tag.
    pub alias: Option<String>,
    /// The scope that the members of the body are looked up in.
    pub body_scope: String,
    /// A C++ class, for which declarations, bases and finality are recorded.
    pub is_cpp_class: bool,
    pub has_body: bool,
    /// Defined in an anonymous namespace: known to its file alone.
    pub is_anonymous: bool,
    pub is_final: bool,
    pub bases: Vec<BaseEntry>,
}

/// `entry` is what the specifier `n`, called `name`, enters.
pub open spec fn is_entry_of(
    entry: ClassEntry,
    s: NameScope,
    x: ClassIndex,
    t: SyntaxTree,
    source: Seq<char>,
    n: int,
    name: Seq<char>,
) -> bool {
    let tag = own_member_tag(s, t, source, n);
    let bases = bases_named(t, n);
    &&& entry.name@ == registered_name(s, x, t, source, n, name)
    &&& match entry.alias {
        Some(spelled) => tag == Some((spelled@, false)),
        None => !(tag matches Some((_, false))),
    }
    &&& entry.body_scope@ == match tag {
        Some((spelled, _)) => spelled,
        None => entry.name@,
    }
    &&& entry.is_cpp_class == cpp_class(s, t, n)
    &&& entry.has_body == (t.fielded(n, "body"@) is Some)
    &&& entry.is_anonymous == (entry.is_cpp_class && entry.has_body && exists|i: int|
        0 <= i < s.ns_stack@.len() && (#[trigger] s.ns_stack@[i]) is None)
    &&& entry.is_final == (entry.is_cpp_class && classes::final_class(t, source, n))
    &&& if entry.is_cpp_class {
        &&& entry.bases@.len() == bases.len()
        &&& forall|i: int|
            0 <= i < bases.len() ==> is_base_entry(
                #[trigger] entry.bases@[i],
                s,
                x,
                t.text(source, bases[i] as int),
            )
    } else {
        entry.bases@.len() == 0
    }
}

impl NameScope {
    fn registered(
        &self,
        index: &ClassIndex,
        tree: &SyntaxTree,
        node: usize,
        name: &[char],
        is_cpp_class: bool,
    ) -> (r: Vec<char>)
        requires
            tree.wf(),
            node < tree.len(),
        ensures
            r@ == if !is_cpp_class {
                name@
            } else if text::contains(name@, "::"@) {
                match self.spec_tag(*index, name@) {
                    Some(tag) => tag,
                    None => name@,
                }
            } else if classes::class_reference(*tree, node as int) && self.spec_tag(
                *index,
                name@,
            ) is Some {
                self.spec_tag(*index, name@)->0
            } else {
                scope::within(self.spec_levels(), name@)
            },
    {
        let own = part(name, 0, name.len());
        assert(own@ =~= name@);
        if !is_cpp_class {
            return own;
        }
        if holds(name, &chars_of("::")) {
            return match self.declared_tag_in_scope(index, name) {
                Some(tag) => tag,
                None => own,
            };
        }
        if is_class_reference(tree, node) {
            match self.declared_tag_in_scope(index, name) {
                Some(tag) => {
                    return tag;
                },
                None => {},
            }
        }
        self.qualify_type_name(name)
    }

    /// What the index takes in of a class specifier called `name`. Classes,
    /// and C++ structs, which are classes with different defaults, register
    /// under their full tag, so that type references, owner classes and member
    /// lookup agree on one name: a member class under the class it is in, a
    /// qualified or referring spelling under the class it finds.
    pub fn enter_class(
        &self,
        index: &ClassIndex,
        source: &str,
        tree: &SyntaxTree,
        node: usize,
        name: &str,
    ) -> (r: ClassEntry)
        requires
            tree.fits(source@),
            node < tree.len(),
        ensures
            is_entry_of(r, *self, *index, *tree, source@, node as int, name@),
    {
        let depth = self.type_scope.len();
        let outer: Option<&str> = if depth > 0 {
            Some(self.type_scope[depth - 1].as_str())
        } else {
            None
        };
        let member = member_class_tag(source, tree, self.is_cpp, outer, node);
        let is_class = tree.kind_is(node, "class_specifier") || tree.kind_is(
            node,
            "struct_specifier",
        );
        let is_cpp_class = self.is_cpp && is_class;
        let spelled = chars_of(name);
        let own = match &member {
            Some(tag) => if tag.nests {
                chars_of(tag.spelling.as_str())
            } else {
                self.registered(index, tree, node, &spelled, is_cpp_class)
            },
            None => self.registered(index, tree, node, &spelled, is_cpp_class),
        };
        let has_body = tree.child_by_field_name(node, "body").is_some();
        let mut bases: Vec<BaseEntry> = Vec::new();
        if is_cpp_class {
            let nodes = base_nodes(tree, node);
            let mut k: usize = 0;
            while k < nodes.len()
                invariant
                    tree.fits(source@),
                    k <= nodes@.len(),
                    bases@.len() == k,
                    forall|i: int| 0 <= i < nodes@.len() ==> #[trigger] nodes@[i] < tree.len(),
                    forall|i: int|
                        0 <= i < k ==> is_base_entry(
                            #[trigger] bases@[i],
                            *self,
                            *index,
                            tree.text(source@, nodes@[i] as int),
                        ),
                decreases nodes@.len() - k,
            {
                bases.push(base_entry(self, index, node_text(source, tree, nodes[k])));
                k += 1;
            }
        }
        let name = string_of(&own);
        let (alias, body_scope) = match member {
            Some(tag) => if tag.nests {
                (None, tag.spelling)
            } else {
                (Some(string_of(&chars_of(tag.spelling.as_str()))), tag.spelling)
            },
            None => (None, string_of(&own)),
        };
        ClassEntry {
            name,
            alias,
            body_scope,
            is_cpp_class,
            has_body,
            is_anonymous: is_cpp_class && has_body && self.in_anonymous_namespace(),
            is_final: is_cpp_class && class_specifier_is_final(source, tree, node),
            bases,
        }
    }
}

/// What the first pass over a class body does with a member.
#[derive(Debug, Clone, Copy, PartialEq, Eq, Structural)]
pub enum MemberRole {
    /// The member defines a class, whose own members are passed over in turn.
    Class(usize),
    /// The declaration registers the prototype of a member function.
    Prototype(usize),
    /// The member declares no function.
    Nothing,
}

/// The role of the member `m` in the first pass.
pub open spec fn role_of(t: SyntaxTree, m: int) -> MemberRole {
    let inner = classes::declared_last(t, m, t.children(m).len() as int);
    match classes::member_definition(t, m) {
        Some(spec) => MemberRole::Class(spec),
        None => if t.spec_kind(m) == "template_declaration"@ {
            match inner {
                Some(decl) => if members::function_member(t, decl as int) {
                    MemberRole::Prototype(decl)
                } else {
                    MemberRole::Nothing
                },
                None => MemberRole::Nothing,
            }
        } else if t.spec_kind(m) == "field_declaration"@ && members::function_member(t, m) {
            MemberRole::Prototype(m as usize)
        } else if t.spec_kind(m) == "declaration"@ && members::function_member(t, m)
            && !classes::continues_member(t, m) {
            MemberRole::Prototype(m as usize)
        } else {
            MemberRole::Nothing
        },
    }
}

/// What a class body member asks of the pass that registers prototypes. A
/// constructor written `Cls(int);` parses as a plain declaration; a member
/// template registers the member it wraps.
pub fn member_role(tree: &SyntaxTree, member: usize) -> (r: MemberRole)
    requires
        tree.wf(),
        member < tree.len(),
    ensures
        r == role_of(*tree, member as int),
        r matches MemberRole::Class(c) ==> member < c < tree.len(),
        r matches MemberRole::Prototype(d) ==> member <= d < tree.len(),
{
    match member_class_definition(tree, member) {
        Some(spec) => {
            return MemberRole::Class(spec);
        },
        None => {},
    }
    if tree.kind_is(member, "template_declaration") {
        return match template_member_decl(tree, member) {
            Some(decl) => if member_decl_is_function(tree, decl) {
                MemberRole::Prototype(decl)
            } else {
                MemberRole::Nothing
            },
            None => MemberRole::Nothing,
        };
    }
    if tree.kind_is(member, "field_declaration") && member_decl_is_function(tree, member) {
        return MemberRole::Prototype(member);
    }
    if tree.kind_is(member, "declaration") && member_decl_is_function(tree, member)
        && !continues_previous_member(tree, member) {
        return MemberRole::Prototype(member);
    }
    MemberRole::Nothing
}

/// The function that the member `m` defines in the class body.
pub open spec fn defined_in_class(t: SyntaxTree, m: int) -> Option<usize> {
    let inner = if t.spec_kind(m) == "template_declaration"@ {
        match classes::declared_last(t, m, t.children(m).len() as int) {
            Some(decl) => decl,
            None => m as usize,
        }
    } else {
        m as usize
    };
    if t.spec_kind(inner as int) == "function_definition"@ || t.spec_kind(inner as int)
        == "field_declaration"@ && members::function_member(t, inner as int) && t.of_kind(
        inner as int,
        "compound_statement"@,
    ) is Some {
        Some(inner)
    } else {
        None
    }
}

/// The function a class body member defines in place, unwrapped from its
/// template.
pub fn member_definition(tree: &SyntaxTree, member: usize) -> (r: Option<usize>)
    requires
        tree.wf(),
        member < tree.len(),
    ensures
        r == defined_in_class(*tree, member as int),
        r matches Some(d) ==> member <= d < tree.len(),
{
    let inner = if tree.kind_is(member, "template_declaration") {
        match template_member_decl(tree, member) {
            Some(decl) => decl,
            None => member,
        }
    } else {
        member
    };
    if tree.kind_is(inner, "function_definition") || tree.kind_is(inner, "field_declaration")
        && member_decl_is_function(tree, inner) && tree.child_of_kind(
        inner,
        "compound_statement",
    ).is_some() {
        Some(inner)
    } else {
        None
    }
}

/// What the layout pass over a class body does with a child.
#[derive(Debug, Clone, Copy, PartialEq, Eq, Structural)]
pub enum BodyStep {
    /// A member class to register.
    Class(usize),
    /// A data member.
    Field(usize),
    /// A member alias.
    Alias(usize),
    Nothing,
}

/// The step for the child `c` of a class body.
pub open spec fn step_of(t: SyntaxTree, is_cpp_class: bool, c: int) -> BodyStep {
    let kind = t.spec_kind(c);
    if kind == "field_declaration"@ {
        if members::function_member(t, c) {
            BodyStep::Nothing
        } else if is_cpp_class && t.fielded(c, "declarator"@) is None && (t.fielded(
            c,
            "type"@,
        ) matches Some(ty) && classes::named_class(t, ty as int)) {
            BodyStep::Class(t.fielded(c, "type"@)->0)
        } else {
            BodyStep::Field(c as usize)
        }
    } else if kind == "template_declaration"@ && is_cpp_class {
        match classes::member_definition(t, c) {
            Some(spec) => BodyStep::Class(spec),
            None => BodyStep::Nothing,
        }
    } else if (kind == "type_definition"@ || kind == "alias_declaration"@) && is_cpp_class {
        BodyStep::Alias(c as usize)
    } else {
        BodyStep::Nothing
    }
}

/// What the layout of a class takes from a child of its body: data members,
/// member classes (`class Inner;` declares a type and no field), and member
/// aliases. A C struct has data members only.
pub fn body_step(tree: &SyntaxTree, is_cpp_class: bool, child: usize) -> (r: BodyStep)
    requires
        tree.wf(),
        child < tree.len(),
    ensures
        r == step_of(*tree, is_cpp_class, child as int),
        r matches BodyStep::Class(c) ==> child < c < tree.len(),
{
    if tree.kind_is(child, "field_declaration") {
        if member_decl_is_function(tree, child) {
            return BodyStep::Nothing;
        }
        if is_cpp_class && tree.child_by_field_name(child, "declarator").is_none() {
            match tree.child_by_field_name(child, "type") {
                Some(ty) => {
                    if is_named_class_specifier(tree, ty) {
                        return BodyStep::Class(ty);
                    }
                },
                None => {},
            }
        }
        return BodyStep::Field(child);
    }
    if tree.kind_is(child, "template_declaration") && is_cpp_class {
        return match member_class_definition(tree, child) {
            Some(spec) => BodyStep::Class(spec),
            None => BodyStep::Nothing,
        };
    }
    if (tree.kind_is(child, "type_definition") || tree.kind_is(child, "alias_declaration"))
        && is_cpp_class {
        return BodyStep::Alias(child);
    }
    BodyStep::Nothing
}

/// Every class specifier interns a layout in C++, a method-only one too; in C
/// only one with fields does.
pub fn interns_layout(tree: &SyntaxTree, node: usize, is_cpp: bool, has_fields: bool) -> (r: bool)
    requires
        node < tree.len(),
    ensures
        r == (has_fields || is_cpp || tree.spec_kind(node as int) == "class_specifier"@),
{
    has_fields || is_cpp || tree.kind_is(node, "class_specifier")
}

/// The full name that a member declaration registers under.
pub open spec fn prototype_name(t: SyntaxTree, source: Seq<char>, n: int, cls: Seq<char>) -> Option<
    Seq<char>,
> {
    match members::short_name(t, source, n) {
        Some(short) => if short.len() == 0 || short == "operator"@ {
            None
        } else {
            Some(naming::canonical_name(cls + "::"@ + short))
        },
        None => None,
    }
}

/// The name a member function of `cls` registers its prototype under; none
/// where the declaration names nothing.
pub fn member_prototype_name(source: &str, tree: &SyntaxTree, node: usize, cls: &str) -> (r: Option<
    String,
>)
    requires
        tree.fits(source@),
        node < tree.len(),
    ensures
        match r {
            Some(name) => prototype_name(*tree, source@, node as int, cls@) == Some(name@),
            None => prototype_name(*tree, source@, node as int, cls@) is None,
        },
{
    match member_short_name(source, tree, node) {
        Some(short) => {
            let s = chars_of(short.as_str());
            if s.len() == 0 || str_eq(short.as_str(), "operator") {
                return None;
            }
            let mut whole = chars_of(cls);
            append(&mut whole, &chars_of("::"));
            append(&mut whole, &s);
            Some(string_of(&canonical_chars(&whole)))
        },
        None => None,
    }
}

} // verus!
