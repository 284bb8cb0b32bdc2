//! What a function declaration says of the function: its parameters, its
//! linkage, its return type, and what its `operator->` yields.

use vstd::prelude::*;

use crate::arrows::ArrowReturn;
use crate::classes;
use crate::classes::virtual_flags;
use crate::declarator;
use crate::declarator::{
    abstract_declarator_shape, declarator_operator_cast, find_params, fn_decl_under_pointer,
};
use crate::ir::{DescView, Linkage, TypeDesc};
use crate::lookup::ClassIndex;
use crate::members;
use crate::members::{declared_param_counts, declared_parameter, ParamListShape, Parameter};
use crate::parse::node_text;
use crate::program::FnTraits;
use crate::receivers;
use crate::receivers::pointer_layers;
use crate::results;
use crate::results::find_owner;
use crate::scope::NameScope;
use crate::syntax::SyntaxTree;
use crate::templates;
use crate::templates::{
    return_is_dependent, spelling_mentions, template_parameter_names, template_return, Spelling,
    TemplateReturn,
};
use crate::text;
use crate::text::{chars_of, str_eq, string_of, trimmed};
use crate::types;
use crate::variables;
use crate::variables::declaration_is_static;
use crate::weak;
use crate::weak::declaration_is_weak;

verus! {

/// The tag that lowering the class specifier at a node gave, from position `k`.
pub open spec fn tag_from(tags: Seq<(usize, String)>, node: usize, k: int) -> Seq<char>
    decreases tags.len() - k,
{
    if k < 0 || k >= tags.len() {
        Seq::empty()
    } else if tags[k].0 == node {
        tags[k].1@
    } else {
        tag_from(tags, node, k + 1)
    }
}

fn find_tag<'a>(tags: &'a Vec<(usize, String)>, node: usize) -> (r: &'a str)
    ensures
        r@ == tag_from(tags@, node, 0),
{
    let mut k: usize = 0;
    while k < tags.len()
        invariant
            k <= tags@.len(),
            tag_from(tags@, node, 0) == tag_from(tags@, node, k as int),
        decreases tags@.len() - k,
    {
        if tags[k].0 == node {
            return tags[k].1.as_str();
        }
        k += 1;
    }
    proof {
        reveal_strlit("");
        assert(""@ =~= Seq::<char>::empty());
    }
    ""
}

/// A declared parameter, with its texts as sequences.
pub struct ParamView {
    pub node: usize,
    pub name: Seq<char>,
    pub is_named: bool,
    pub desc: DescView,
    pub is_pointer: bool,
    pub is_reference: bool,
}

pub open spec fn param_view(p: Parameter) -> ParamView {
    ParamView {
        node: p.node,
        name: p.name@,
        is_named: p.is_named,
        desc: p.desc@,
        is_pointer: p.is_pointer,
        is_reference: p.is_reference,
    }
}

pub open spec fn param_views(v: Seq<Parameter>) -> Seq<ParamView> {
    Seq::new(v.len(), |i: int| param_view(v[i]))
}

/// The parameter that the node `p` declares in place `index`.
pub open spec fn param_at(
    s: NameScope,
    x: ClassIndex,
    tags: Seq<(usize, String)>,
    t: SyntaxTree,
    source: Seq<char>,
    p: int,
    index: nat,
) -> Option<ParamView> {
    let (name, pointer) = members::declarator_of(t, source, p);
    let base = match t.fielded(p, "type"@) {
        Some(ty) => types::type_of(s, x, t, source, ty as int, tag_from(tags, ty, 0)),
        None => DescView::Int,
    };
    if name.len() == 0 && base is Void && !pointer {
        None
    } else {
        Some(
            ParamView {
                node: p as usize,
                name: if name.len() > 0 {
                    name
                } else {
                    members::unnamed_parameter(index)
                },
                is_named: name.len() > 0,
                desc: members::parameter_desc(t, source, p, base),
                is_pointer: pointer,
                is_reference: t.fielded(p, "declarator"@) matches Some(d) && t.spec_kind(d as int)
                    == "reference_declarator"@,
            },
        )
    }
}

/// The parameters among the first `k` children of a parameter list. `first` is
/// the place of the first of them, behind an implicit `this`.
pub open spec fn params_upto(
    s: NameScope,
    x: ClassIndex,
    tags: Seq<(usize, String)>,
    t: SyntaxTree,
    source: Seq<char>,
    n: int,
    first: nat,
    k: int,
) -> Seq<ParamView>
    decreases k,
{
    if k <= 0 {
        Seq::empty()
    } else {
        let before = params_upto(s, x, tags, t, source, n, first, k - 1);
        let c = t.children(n)[k - 1] as int;
        if members::parameter_kind(t.spec_kind(c)) {
            match param_at(s, x, tags, t, source, c, first + before.len()) {
                Some(p) => before.push(p),
                None => before,
            }
        } else {
            before
        }
    }
}

/// The parameters that a declarator declares.
pub open spec fn params_of(
    s: NameScope,
    x: ClassIndex,
    tags: Seq<(usize, String)>,
    t: SyntaxTree,
    source: Seq<char>,
    decl: int,
    first: nat,
) -> Seq<ParamView> {
    match declarator::params_of(t, decl) {
        Some(list) => params_upto(
            s,
            x,
            tags,
            t,
            source,
            list as int,
            first,
            t.children(list as int).len() as int,
        ),
        None => Seq::empty(),
    }
}

impl NameScope {
    fn parameter(
        &self,
        index: &ClassIndex,
        tags: &Vec<(usize, String)>,
        source: &str,
        tree: &SyntaxTree,
        p: usize,
        place: u32,
    ) -> (r: Option<Parameter>)
        requires
            tree.fits(source@),
            p < tree.len(),
        ensures
            match r {
                Some(own) => param_at(
                    *self,
                    *index,
                    tags@,
                    *tree,
                    source@,
                    p as int,
                    place as nat,
                ) == Some(param_view(own)),
                None => param_at(
                    *self,
                    *index,
                    tags@,
                    *tree,
                    source@,
                    p as int,
                    place as nat,
                ) is None,
            },
    {
        let base = match tree.child_by_field_name(p, "type") {
            Some(ty) => self.type_desc_from_node(index, source, tree, ty, find_tag(tags, ty)),
            None => TypeDesc::Int,
        };
        declared_parameter(source, tree, p, place, base)
    }

    /// The parameters that a declarator declares, unnamed ones in their
    /// places. `tags` are what lowering the class specifiers among their types
    /// gave, and `first` the place of the first parameter.
    pub fn lower_parameters(
        &self,
        index: &ClassIndex,
        tags: &Vec<(usize, String)>,
        source: &str,
        tree: &SyntaxTree,
        decl: usize,
        first: u32,
    ) -> (r: Vec<Parameter>)
        requires
            tree.fits(source@),
            decl < tree.len(),
            first + tree.len() <= u32::MAX,
        ensures
            param_views(r@) == params_of(
                *self,
                *index,
                tags@,
                *tree,
                source@,
                decl as int,
                first as nat,
            ),
    {
        match find_params(tree, decl) {
            Some(list) => self.listed_parameters(index, tags, source, tree, list, first),
            None => {
                let out: Vec<Parameter> = Vec::new();
                assert(param_views(out@) =~= Seq::empty());
                out
            },
        }
    }

    /// The parameters of a parameter list.
    pub fn listed_parameters(
        &self,
        index: &ClassIndex,
        tags: &Vec<(usize, String)>,
        source: &str,
        tree: &SyntaxTree,
        list: usize,
        first: u32,
    ) -> (r: Vec<Parameter>)
        requires
            tree.fits(source@),
            list < tree.len(),
            first + tree.len() <= u32::MAX,
        ensures
            param_views(r@) == params_upto(
                *self,
                *index,
                tags@,
                *tree,
                source@,
                list as int,
                first as nat,
                tree.children(list as int).len() as int,
            ),
    {
        let mut out: Vec<Parameter> = Vec::new();
        let mut k: usize = 0;
        assert(param_views(out@) =~= Seq::empty());
        while k < tree.kids[list].len()
            invariant
                tree.fits(source@),
                list < tree.len(),
                first + tree.len() <= u32::MAX,
                k <= tree.children(list as int).len(),
                out@.len() <= k,
                param_views(out@) == params_upto(
                    *self,
                    *index,
                    tags@,
                    *tree,
                    source@,
                    list as int,
                    first as nat,
                    k as int,
                ),
            decreases tree.children(list as int).len() - k,
        {
            let c = tree.kids[list][k];
            proof {
                assert(c == tree.children(list as int)[k as int]);
                lemma_place(*tree, list as int, k as int);
                assert(param_views(out@).len() == out@.len());
            }
            if tree.kind_is(c, "parameter_declaration") || tree.kind_is(
                c,
                "optional_parameter_declaration",
            ) {
                let place: u32 = first + out.len() as u32;
                match self.parameter(index, tags, source, tree, c, place) {
                    Some(p) => {
                        let ghost before = param_views(out@);
                        let ghost one = param_view(p);
                        out.push(p);
                        assert(param_views(out@) =~= before.push(one));
                    },
                    None => {},
                }
            }
            k += 1;
        }
        out
    }
}

/// A child stands behind at least as many nodes as its position says.
proof fn lemma_place(t: SyntaxTree, n: int, k: int)
    requires
        t.wf(),
        0 <= n < t.len(),
        0 <= k < t.children(n).len(),
    ensures
        k < t.children(n)[k] < t.len(),
    decreases k,
{
    assert(n < t.children(n)[k] < t.len());
    if k > 0 {
        lemma_place(t, n, k - 1);
        assert(t.children(n)[k - 1] < t.children(n)[k]);
    }
}

/// Where a function is declared.
#[derive(Debug, Clone, Copy, PartialEq, Eq, Structural)]
pub struct FnPlace {
    /// The declaration is inside the body of its class.
    pub in_class: bool,
    /// The function is a member of a class.
    pub is_member: bool,
    /// An anonymous namespace is around the declaration.
    pub in_anonymous: bool,
    /// Its class is one of an anonymous namespace, in the file of the
    /// declaration or one that it sees.
    pub class_is_anonymous: bool,
    pub is_dep_file: bool,
    pub has_weak: bool,
    pub is_cpp: bool,
    pub owner_unresolved: bool,
}

/// The definition says that its class defaults or deletes the function.
pub open spec fn defaulted(t: SyntaxTree, n: int) -> bool {
    t.of_kind(n, "default_method_clause"@) is Some || t.of_kind(n, "delete_method_clause"@) is Some
}

/// `static` on a member makes it a static member, not a function with internal
/// linkage; a member of a class in an anonymous namespace has internal linkage
/// wherever its definition is written.
pub open spec fn internal(place: FnPlace, t: SyntaxTree, n: int) -> bool {
    !place.is_member && variables::statically_declared(t, n) || place.in_anonymous
        || place.is_member && place.class_is_anonymous
}

pub open spec fn linkage_of(internal: bool) -> Linkage {
    if internal {
        Linkage::Internal
    } else {
        Linkage::External
    }
}

/// What the definition at `n` says of its function. Only an external symbol
/// has linkage to weaken; a body of a dependency defines nothing here.
pub open spec fn definition_of(
    place: FnPlace,
    t: SyntaxTree,
    source: Seq<char>,
    n: int,
    arity: u32,
    shape: ParamListShape,
) -> FnTraits {
    FnTraits {
        linkage: linkage_of(internal(place, t, n)),
        is_defined: !place.is_dep_file,
        is_weak: !internal(place, t, n) && place.has_weak && weak::weakly_declared(t, source, n),
        is_cpp: place.is_cpp,
        is_virtual: classes::virtual_under(t, n),
        is_final: classes::final_under(t, source, n),
        variadic: shape.variadic,
        owner_unresolved: place.owner_unresolved,
        defaulted_in_class: place.in_class && defaulted(t, n),
        declared_in_class: place.in_class,
        explicit_arity: Some(arity),
        default_args: shape.defaults,
    }
}

/// What the free prototype at `n` says of its function.
pub open spec fn prototype_of(
    place: FnPlace,
    t: SyntaxTree,
    source: Seq<char>,
    n: int,
    is_static: bool,
    arity: u32,
    shape: ParamListShape,
) -> FnTraits {
    FnTraits {
        linkage: linkage_of(is_static),
        is_defined: false,
        is_weak: !is_static && place.has_weak && weak::weakly_declared(t, source, n),
        is_cpp: place.is_cpp,
        is_virtual: false,
        is_final: false,
        variadic: shape.variadic,
        owner_unresolved: false,
        defaulted_in_class: false,
        declared_in_class: false,
        explicit_arity: Some(arity),
        default_args: shape.defaults,
    }
}

/// What the prototype at `n` in a class body says of its member.
pub open spec fn member_prototype_of(
    place: FnPlace,
    t: SyntaxTree,
    source: Seq<char>,
    n: int,
    arity: u32,
    shape: ParamListShape,
) -> FnTraits {
    FnTraits {
        linkage: linkage_of(place.in_anonymous),
        is_defined: false,
        is_weak: false,
        is_cpp: place.is_cpp,
        is_virtual: classes::virtual_under(t, n),
        is_final: classes::final_under(t, source, n),
        variadic: shape.variadic,
        owner_unresolved: false,
        defaulted_in_class: false,
        declared_in_class: true,
        explicit_arity: Some(arity),
        default_args: shape.defaults,
    }
}

fn linkage_for(is_internal: bool) -> (r: Linkage)
    ensures
        r == linkage_of(is_internal),
{
    if is_internal {
        Linkage::Internal
    } else {
        Linkage::External
    }
}

/// What a definition says of its function. `arity` counts its explicit
/// parameters.
pub fn definition_traits(
    place: &FnPlace,
    source: &str,
    tree: &SyntaxTree,
    node: usize,
    arity: u32,
    shape: ParamListShape,
) -> (r: FnTraits)
    requires
        tree.fits(source@),
        node < tree.len(),
    ensures
        r == definition_of(*place, *tree, source@, node as int, arity, shape),
{
    let is_internal = !place.is_member && declaration_is_static(tree, node) || place.in_anonymous
        || place.is_member && place.class_is_anonymous;
    let flags = virtual_flags(source, tree, node);
    let is_defaulted = tree.child_of_kind(node, "default_method_clause").is_some()
        || tree.child_of_kind(node, "delete_method_clause").is_some();
    FnTraits {
        linkage: linkage_for(is_internal),
        is_defined: !place.is_dep_file,
        is_weak: !is_internal && place.has_weak && declaration_is_weak(source, tree, node),
        is_cpp: place.is_cpp,
        is_virtual: flags.is_virtual,
        is_final: flags.is_final,
        variadic: shape.variadic,
        owner_unresolved: place.owner_unresolved,
        defaulted_in_class: place.in_class && is_defaulted,
        declared_in_class: place.in_class,
        explicit_arity: Some(arity),
        default_args: shape.defaults,
    }
}

/// What a free prototype says of its function.
pub fn prototype_traits(
    place: &FnPlace,
    source: &str,
    tree: &SyntaxTree,
    decl: usize,
    is_static: bool,
    arity: u32,
    shape: ParamListShape,
) -> (r: FnTraits)
    requires
        tree.fits(source@),
        decl < tree.len(),
    ensures
        r == prototype_of(*place, *tree, source@, decl as int, is_static, arity, shape),
{
    FnTraits {
        linkage: linkage_for(is_static),
        is_defined: false,
        is_weak: !is_static && place.has_weak && declaration_is_weak(source, tree, decl),
        is_cpp: place.is_cpp,
        is_virtual: false,
        is_final: false,
        variadic: shape.variadic,
        owner_unresolved: false,
        defaulted_in_class: false,
        declared_in_class: false,
        explicit_arity: Some(arity),
        default_args: shape.defaults,
    }
}

/// The number of parameters that the member prototype at `n` declares, and
/// what it declares beyond them.
pub open spec fn declared_counts(t: SyntaxTree, source: Seq<char>, n: int) -> (
    nat,
    nat,
    bool,
) {
    match declarator::params_of(t, n) {
        Some(list) => {
            let k = t.children(list as int).len() as int;
            (
                members::parameters_upto(t, source, list as int, k),
                members::defaults_upto(t, list as int, k),
                members::variadic_list(t, list as int),
            )
        },
        None => (0, 0, false),
    }
}

/// What a prototype in a class body says of its member. It declares no
/// parameter variables; the count it spells keeps overloads apart.
pub fn member_prototype_traits(place: &FnPlace, source: &str, tree: &SyntaxTree, node: usize) -> (r:
    FnTraits)
    requires
        tree.fits(source@),
        node < tree.len(),
        tree.len() <= u32::MAX,
    ensures
        ({
            let (arity, defaults, variadic) = declared_counts(*tree, source@, node as int);
            arity <= u32::MAX && defaults <= u32::MAX && r == member_prototype_of(
                *place,
                *tree,
                source@,
                node as int,
                arity as u32,
                (ParamListShape { defaults: defaults as u32, variadic }),
            )
        }),
{
    let (arity, shape) = match find_params(tree, node) {
        Some(list) => {
            proof {
                let last = tree.children(list as int).len() - 1;
                if last >= 0 {
                    lemma_place(*tree, list as int, last);
                }
            }
            declared_param_counts(source, tree, list)
        },
        None => (0, ParamListShape { defaults: 0, variadic: false }),
    };
    let flags = virtual_flags(source, tree, node);
    FnTraits {
        linkage: linkage_for(place.in_anonymous),
        is_defined: false,
        is_weak: false,
        is_cpp: place.is_cpp,
        is_virtual: flags.is_virtual,
        is_final: flags.is_final,
        variadic: shape.variadic,
        owner_unresolved: false,
        defaulted_in_class: false,
        declared_in_class: true,
        explicit_arity: Some(arity),
        default_args: shape.defaults,
    }
}

/// A symbol that is not external is never weak, and a prototype defines
/// nothing.
pub proof fn law_only_external_symbols_are_weak(
    place: FnPlace,
    t: SyntaxTree,
    source: Seq<char>,
    n: int,
    is_static: bool,
    arity: u32,
    shape: ParamListShape,
)
    ensures
        definition_of(place, t, source, n, arity, shape).is_weak ==> definition_of(
            place,
            t,
            source,
            n,
            arity,
            shape,
        ).linkage == Linkage::External,
        prototype_of(place, t, source, n, is_static, arity, shape).is_weak ==> prototype_of(
            place,
            t,
            source,
            n,
            is_static,
            arity,
            shape,
        ).linkage == Linkage::External,
        !member_prototype_of(place, t, source, n, arity, shape).is_weak,
        !prototype_of(place, t, source, n, is_static, arity, shape).is_defined,
        !member_prototype_of(place, t, source, n, arity, shape).is_defined,
{
}

/// The pointer layers that the declarator of the declaration at `n` adds to
/// its return type.
pub open spec fn return_depth(t: SyntaxTree, n: int) -> nat {
    match t.fielded(n, "declarator"@) {
        Some(d) => match declarator::declared_function(t, d as int, 0, false) {
            Some((_, depth, _)) => depth,
            None => 0,
        },
        None => 0,
    }
}

/// The return type of the declaration at `n`. One that depends on a template
/// parameter is unknown.
pub open spec fn return_desc(
    has_templates: bool,
    t: SyntaxTree,
    source: Seq<char>,
    n: int,
    base: DescView,
) -> DescView {
    if has_templates && templates::dependent_return(t, source, n) {
        DescView::Unknown
    } else {
        receivers::pointed(base, return_depth(t, n))
    }
}

fn find_depth(tree: &SyntaxTree, node: usize) -> (r: usize)
    requires
        tree.wf(),
        node < tree.len(),
    ensures
        r == return_depth(*tree, node as int),
{
    match tree.child_by_field_name(node, "declarator") {
        Some(d) => match fn_decl_under_pointer(tree, d) {
            Some((_, depth, _)) => depth,
            None => 0,
        },
        None => 0,
    }
}

/// The return type of a declaration over the type that its type node spells.
pub fn declared_return_type(
    has_templates: bool,
    source: &str,
    tree: &SyntaxTree,
    node: usize,
    base: TypeDesc,
) -> (r: TypeDesc)
    requires
        tree.fits(source@),
        node < tree.len(),
    ensures
        r@ == return_desc(has_templates, *tree, source@, node as int, base@),
{
    if return_is_dependent(source, tree, has_templates, node) {
        TypeDesc::Unknown
    } else {
        pointer_layers(base, find_depth(tree, node))
    }
}

/// The fact that a declaration with a dependent or unknown return type records
/// for its class template, for receivers that name the template's arguments.
pub fn recorded_return(
    has_templates: bool,
    source: &str,
    tree: &SyntaxTree,
    node: usize,
    base: &TypeDesc,
    name: &str,
) -> (r: Option<TemplateReturn>)
    requires
        tree.fits(source@),
        node < tree.len(),
        tree.len() <= u32::MAX,
    ensures
        ({
            let wanted = has_templates && (templates::dependent_return(*tree, source@, node as int)
                || base@ is Unknown);
            match results::owner_of(name@) {
                Some(owner) if wanted => match (
                    tree.fielded(node as int, "type"@),
                    templates::owning_parameters(*tree, source@, node as int, owner),
                ) {
                    (Some(ty), Some((params, direct))) => r == Some(
                        (TemplateReturn {
                            arity: declared_counts(*tree, source@, node as int).0 as u32,
                            parameter: if direct {
                                templates::position_of(
                                    templates::parameter_names(
                                        *tree,
                                        source@,
                                        params as int,
                                        tree.children(params as int).len() as int,
                                    ),
                                    text::trim(tree.text(source@, ty as int)),
                                    0,
                                )
                            } else {
                                None
                            },
                            pointer_depth: return_depth(*tree, node as int) as usize,
                        }),
                    ),
                    _ => r is None,
                },
                _ => r is None,
            }
        }),
{
    if !has_templates {
        return None;
    }
    let unknown = match base {
        TypeDesc::Unknown => true,
        _ => false,
    };
    if !unknown && !return_is_dependent(source, tree, has_templates, node) {
        return None;
    }
    let owner = match find_owner(name) {
        Some(o) => o,
        None => {
            return None;
        },
    };
    let arity: u32 = match find_params(tree, node) {
        Some(list) => {
            proof {
                let last = tree.children(list as int).len() - 1;
                if last >= 0 {
                    lemma_place(*tree, list as int, last);
                }
            }
            declared_param_counts(source, tree, list).0
        },
        None => 0,
    };
    template_return(source, tree, node, owner.as_str(), arity, find_depth(tree, node))
}

/// The nearest template declaration around `n`.
pub open spec fn template_around(t: SyntaxTree, n: int) -> Option<usize>
    decreases n,
    when t.wf() && 0 <= n < t.len()
{
    match t.spec_parent(n) {
        Some(p) => if p < n {
            if t.spec_kind(p as int) == "template_declaration"@ {
                Some(p)
            } else {
                template_around(t, p as int)
            }
        } else {
            None
        },
        None => None,
    }
}

fn find_template(tree: &SyntaxTree, node: usize) -> (r: Option<usize>)
    requires
        tree.wf(),
        node < tree.len(),
    ensures
        r == template_around(*tree, node as int),
        r matches Some(c) ==> c < tree.len(),
{
    let mut at: usize = node;
    loop
        invariant
            tree.wf(),
            at <= node < tree.len(),
            template_around(*tree, node as int) == template_around(*tree, at as int),
        decreases at,
    {
        match tree.parents[at] {
            Some(p) => {
                assert(at >= 1);
                if tree.kind_is(p, "template_declaration") {
                    return Some(p);
                }
                at = p;
            },
            None => {
                return None;
            },
        }
    }
}

/// The names of the parameters of the nearest template around `n`.
pub open spec fn names_around(t: SyntaxTree, source: Seq<char>, n: int) -> Seq<Option<Seq<char>>> {
    match template_around(t, n) {
        Some(p) => match t.fielded(p as int, "parameters"@) {
            Some(list) => templates::parameter_names(
                t,
                source,
                list as int,
                t.children(list as int).len() as int,
            ),
            None => Seq::empty(),
        },
        None => Seq::empty(),
    }
}

/// The last of the first `k` names that is `name`.
pub open spec fn last_position(names: Seq<Option<Seq<char>>>, name: Seq<char>, k: int) -> Option<
    usize,
>
    decreases k,
{
    if k <= 0 {
        None
    } else if names[k - 1] == Some(name) {
        Some((k - 1) as usize)
    } else {
        last_position(names, name, k - 1)
    }
}

/// What an arrow operator declared at `n` returns. A parameter of the nearest
/// template is recorded by its position; a type that merely mentions one is
/// unknown, and never guessed to be an argument.
pub open spec fn is_arrow_fact(
    f: ArrowReturn,
    s: NameScope,
    x: ClassIndex,
    t: SyntaxTree,
    source: Seq<char>,
    n: int,
    ty: int,
    cls: Seq<char>,
    lowered: Seq<char>,
) -> bool {
    let spelled = text::trim(t.text(source, ty));
    let names = names_around(t, source, n);
    let parameter = last_position(names, spelled, names.len() as int);
    let target = if parameter is None && templates::mentions_any(names, spelled, Spelling::Source) {
        DescView::Unknown
    } else {
        types::type_of(s, x, t, source, ty, lowered)
    };
    &&& f.class_name@ == cls
    &&& f.parameter == parameter
    &&& match target {
        DescView::Ptr(inner) => f.pointer && f.target@ == *inner,
        _ => f.target@ == target && f.pointer == (t.fielded(n, "declarator"@) matches Some(d)
            && t.spec_kind(d as int) == "pointer_declarator"@),
    }
}

fn last_own(names: &Vec<Option<String>>, name: &str) -> (r: Option<usize>)
    ensures
        r == last_position(templates::name_views(names@), name@, names@.len() as int),
{
    let ghost all = templates::name_views(names@);
    let mut k: usize = names.len();
    while k > 0
        invariant
            k <= names@.len(),
            all == templates::name_views(names@),
            last_position(all, name@, names@.len() as int) == last_position(all, name@, k as int),
        decreases k,
    {
        let is_own = match &names[k - 1] {
            Some(own) => str_eq(own.as_str(), name),
            None => false,
        };
        assert(is_own == (all[k - 1] == Some(name@)));
        if is_own {
            return Some(k - 1);
        }
        k -= 1;
    }
    None
}

fn any_mentioned(names: &Vec<Option<String>>, spelled: &str) -> (r: bool)
    ensures
        r == templates::mentions_any(templates::name_views(names@), spelled@, Spelling::Source),
{
    let ghost all = templates::name_views(names@);
    let mut k: usize = 0;
    assert(all.len() == names@.len());
    while k < names.len()
        invariant
            k <= names@.len(),
            all == templates::name_views(names@),
            all.len() == names@.len(),
            forall|j: int|
                0 <= j < k ==> !((#[trigger] all[j]) is Some && templates::mentions(
                    spelled@,
                    Spelling::Source,
                    all[j]->0,
                )),
        decreases names@.len() - k,
    {
        let hit = match &names[k] {
            Some(own) => spelling_mentions(spelled, Spelling::Source, own.as_str()),
            None => false,
        };
        assert(hit == (all[k as int] is Some && templates::mentions(
            spelled@,
            Spelling::Source,
            all[k as int]->0,
        )));
        if hit {
            return true;
        }
        k += 1;
    }
    false
}

impl NameScope {
    /// What `cls::operator->` returns, for the call sites that follow it: a
    /// fact of its own, since a unit may see the class but not its members.
    pub fn arrow_return(
        &self,
        index: &ClassIndex,
        source: &str,
        tree: &SyntaxTree,
        node: usize,
        cls: &str,
        lowered: &str,
    ) -> (r: Option<ArrowReturn>)
        requires
            tree.fits(source@),
            node < tree.len(),
        ensures
            match (r, tree.fielded(node as int, "type"@)) {
                (Some(f), Some(ty)) => is_arrow_fact(
                    f,
                    *self,
                    *index,
                    *tree,
                    source@,
                    node as int,
                    ty as int,
                    cls@,
                    lowered@,
                ),
                (None, None) => true,
                _ => false,
            },
    {
        let ty = match tree.child_by_field_name(node, "type") {
            Some(c) => c,
            None => {
                return None;
            },
        };
        let spelled = string_of(&trimmed(&chars_of(node_text(source, tree, ty))));
        let names: Vec<Option<String>> = match find_template(tree, node) {
            Some(p) => match tree.child_by_field_name(p, "parameters") {
                Some(list) => template_parameter_names(source, tree, list),
                None => Vec::new(),
            },
            None => Vec::new(),
        };
        assert(templates::name_views(names@) =~= names_around(*tree, source@, node as int));
        let ghost all = templates::name_views(names@);
        assert(all.len() == names@.len());
        let parameter = last_own(&names, spelled.as_str());
        let target = if parameter.is_none() && any_mentioned(&names, spelled.as_str()) {
            TypeDesc::Unknown
        } else {
            self.type_desc_from_node(index, source, tree, ty, lowered)
        };
        let spells_pointer = match tree.child_by_field_name(node, "declarator") {
            Some(d) => tree.kind_is(d, "pointer_declarator"),
            None => false,
        };
        let (target, pointer) = match target {
            TypeDesc::Ptr(inner) => (*inner, true),
            other => (other, spells_pointer),
        };
        Some(ArrowReturn { class_name: string_of(&chars_of(cls)), target, parameter, pointer })
    }
}

/// The type a function definition spells for what it returns. A conversion
/// operator spells none: it returns the type it converts to.
pub open spec fn spelled_return(
    s: NameScope,
    x: ClassIndex,
    t: SyntaxTree,
    source: Seq<char>,
    n: int,
    decl: int,
    lowered: Seq<char>,
) -> DescView {
    match t.fielded(n, "type"@) {
        Some(ty) => types::type_of(s, x, t, source, ty as int, lowered),
        None => match declarator::operator_cast_of(t, decl) {
            Some(op) => match t.fielded(op as int, "type"@) {
                Some(ty) => {
                    let base = types::type_of(s, x, t, source, ty as int, lowered);
                    match t.fielded(op as int, "declarator"@) {
                        Some(d) => declarator::abstract_shaped(t, base, d as int, false),
                        None => base,
                    }
                },
                None => DescView::Int,
            },
            None => DescView::Int,
        },
    }
}

impl NameScope {
    /// The type a function definition spells for what it returns.
    pub fn spelled_return_type(
        &self,
        index: &ClassIndex,
        source: &str,
        tree: &SyntaxTree,
        node: usize,
        decl: usize,
        lowered: &str,
    ) -> (r: TypeDesc)
        requires
            tree.fits(source@),
            node < tree.len(),
            decl < tree.len(),
        ensures
            r@ == spelled_return(
                *self,
                *index,
                *tree,
                source@,
                node as int,
                decl as int,
                lowered@,
            ),
    {
        match tree.child_by_field_name(node, "type") {
            Some(ty) => self.type_desc_from_node(index, source, tree, ty, lowered),
            None => match declarator_operator_cast(tree, decl) {
                Some(op) => match tree.child_by_field_name(op, "type") {
                    Some(ty) => {
                        let base = self.type_desc_from_node(index, source, tree, ty, lowered);
                        abstract_declarator_shape(
                            tree,
                            base,
                            tree.child_by_field_name(op, "declarator"),
                            false,
                        )
                    },
                    None => TypeDesc::Int,
                },
                None => TypeDesc::Int,
            },
        }
    }
}

} // verus!
