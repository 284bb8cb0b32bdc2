//! The variables that declarators introduce, and what their initializers do.

use vstd::prelude::*;

use crate::calls::{CallArgs, CallSite};
use crate::declarator;
use crate::declarator::{
    declarator_is_array, declarator_pointer_depth, is_function_pointer_declarator,
    parse_declarator_name, walk_declarator_shape,
};
use crate::hierarchy;
use crate::ir::{DescView, FnId, StorageClass, TypeDesc, VarId};
use crate::lookup::ClassIndex;
use crate::methods::{MethodKind, MethodView};
use crate::parse::node_text;
use crate::program::Variable;
use crate::syntax::SyntaxTree;
use crate::text::str_eq;
use crate::weak;
use crate::weak::weak_global;

verus! {

/// The storage of a variable declared here.
pub open spec fn storage_of(in_function: bool, is_static: bool) -> StorageClass {
    if in_function {
        if is_static {
            StorageClass::FnStatic
        } else {
            StorageClass::Local
        }
    } else if is_static {
        StorageClass::FileStatic
    } else {
        StorageClass::Global
    }
}

pub fn storage_for(in_function: bool, is_static: bool) -> (r: StorageClass)
    ensures
        r == storage_of(in_function, is_static),
{
    if in_function {
        if is_static {
            StorageClass::FnStatic
        } else {
            StorageClass::Local
        }
    } else if is_static {
        StorageClass::FileStatic
    } else {
        StorageClass::Global
    }
}

/// Only a global has a namespace in its linkage name.
pub fn namespaced_global(storage: StorageClass, in_namespace: bool) -> (r: bool)
    ensures
        r == (storage == StorageClass::Global && in_namespace),
{
    storage == StorageClass::Global && in_namespace
}

/// A storage class specifier of the declaration holds the token `static`.
pub open spec fn statically_declared(t: SyntaxTree, n: int) -> bool {
    exists|k: int| 0 <= k < t.children(n).len() && static_specifier(t, #[trigger] t.children(n)[k] as int)
}

pub open spec fn static_specifier(t: SyntaxTree, c: int) -> bool {
    t.spec_kind(c) == "storage_class_specifier"@ && t.of_kind(c, "static"@) is Some
}

pub fn declaration_is_static(tree: &SyntaxTree, node: usize) -> (r: bool)
    requires
        tree.wf(),
        node < tree.len(),
    ensures
        r == statically_declared(*tree, node as int),
{
    let mut k: usize = 0;
    while k < tree.kids[node].len()
        invariant
            tree.wf(),
            node < tree.len(),
            k <= tree.children(node as int).len(),
            forall|j: int|
                0 <= j < k ==> !static_specifier(
                    *tree,
                    #[trigger] tree.children(node as int)[j] as int,
                ),
        decreases tree.children(node as int).len() - k,
    {
        let c = tree.kids[node][k];
        assert(c == tree.children(node as int)[k as int]);
        if tree.kind_is(c, "storage_class_specifier") && tree.child_of_kind(c, "static").is_some() {
            assert(static_specifier(*tree, tree.children(node as int)[k as int] as int));
            return true;
        }
        k += 1;
    }
    false
}

/// The declaration around `n` says that its object is defined elsewhere.
pub open spec fn externally_declared(t: SyntaxTree, source: Seq<char>, n: int) -> bool {
    match t.declaration_of(n, false) {
        Some(d) => has_outside_specifier(t, source, t.named(d as int)),
        None => false,
    }
}

pub open spec fn has_outside_specifier(t: SyntaxTree, source: Seq<char>, nodes: Seq<usize>) -> bool {
    exists|k: int|
        0 <= k < nodes.len() && outside_specifier(t, source, #[trigger] nodes[k] as int)
}

pub open spec fn outside_specifier(t: SyntaxTree, source: Seq<char>, c: int) -> bool {
    t.spec_kind(c) == "storage_class_specifier"@ && t.text(source, c) == "extern"@
}

pub fn declaration_is_extern(source: &str, tree: &SyntaxTree, node: usize) -> (r: bool)
    requires
        tree.fits(source@),
        node < tree.len(),
    ensures
        r == externally_declared(*tree, source@, node as int),
{
    let decl = match tree.enclosing_decl(node, false) {
        Some(d) => d,
        None => {
            return false;
        },
    };
    let named = tree.named_children(decl);
    proof {
        tree.lemma_named(decl as int);
    }
    let mut k: usize = 0;
    while k < named.len()
        invariant
            tree.fits(source@),
            node < tree.len(),
            tree.declaration_of(node as int, false) == Some(decl),
            named@ == tree.named(decl as int),
            k <= named@.len(),
            forall|j: int| 0 <= j < named@.len() ==> (#[trigger] named@[j]) < tree.len(),
            forall|j: int|
                0 <= j < k ==> !outside_specifier(*tree, source@, #[trigger] named@[j] as int),
        decreases named@.len() - k,
    {
        let c = named[k];
        if tree.kind_is(c, "storage_class_specifier") && str_eq(
            node_text(source, tree, c),
            "extern",
        ) {
            assert(outside_specifier(*tree, source@, named@[k as int] as int));
            return true;
        }
        k += 1;
    }
    false
}

/// Where a declaration stands.
#[derive(Debug, Clone, Copy, PartialEq, Eq, Structural)]
pub struct DeclPlace {
    pub in_function: bool,
    pub in_namespace: bool,
    pub is_static: bool,
    pub storage_override: Option<StorageClass>,
    pub has_weak: bool,
}

impl DeclPlace {
    pub open spec fn spec_storage(&self) -> StorageClass {
        match self.storage_override {
            Some(s) => s,
            None => storage_of(self.in_function, self.is_static),
        }
    }

    pub fn storage(&self) -> (r: StorageClass)
        ensures
            r == self.spec_storage(),
    {
        match self.storage_override {
            Some(s) => s,
            None => storage_for(self.in_function, self.is_static),
        }
    }
}

/// What is recorded of a declared variable.
#[derive(Debug, PartialEq, Eq)]
pub struct Declared {
    pub name: String,
    pub storage: StorageClass,
    pub is_defined: bool,
    pub is_weak: bool,
    pub is_namespaced: bool,
    pub is_pointer: bool,
    pub is_reference: bool,
}

/// What a declarator turns out to declare.
#[derive(Debug, PartialEq, Eq)]
pub enum Declaration {
    Nothing,
    Prototype,
    Variable(Declared),
}

/// A variable called `name` is recorded as `owner`, the node that introduces
/// it, says: an external symbol unless a function holds it, defined unless it
/// is only announced.
pub open spec fn is_declared_as(
    v: Declared,
    place: DeclPlace,
    t: SyntaxTree,
    source: Seq<char>,
    owner: int,
    initialized: bool,
) -> bool {
    &&& v.storage == place.spec_storage()
    &&& v.is_defined == (!place.in_function && (initialized || !externally_declared(
        t,
        source,
        owner,
    )))
    &&& v.is_weak == (v.storage == StorageClass::Global && place.has_weak && weak::weakly_declared(
        t,
        source,
        owner,
    ))
    &&& v.is_namespaced == (v.storage == StorageClass::Global && place.in_namespace)
}

fn declared_as(
    name: String,
    place: &DeclPlace,
    source: &str,
    tree: &SyntaxTree,
    owner: usize,
    initialized: bool,
    is_pointer: bool,
    is_reference: bool,
) -> (r: Declared)
    requires
        tree.fits(source@),
        owner < tree.len(),
    ensures
        is_declared_as(r, *place, *tree, source@, owner as int, initialized),
        r.name@ == name@,
        r.is_pointer == is_pointer,
        r.is_reference == is_reference,
{
    let storage = place.storage();
    Declared {
        name,
        storage,
        is_defined: !place.in_function && (initialized || !declaration_is_extern(
            source,
            tree,
            owner,
        )),
        is_weak: weak_global(place.has_weak, storage, source, tree, owner),
        is_namespaced: namespaced_global(storage, place.in_namespace),
        is_pointer,
        is_reference,
    }
}

/// The variable that a declarator introduces, or that it introduces a function
/// or nothing. A pointer to a function is a pointer whatever its layers say.
pub fn declare(
    place: &DeclPlace,
    source: &str,
    tree: &SyntaxTree,
    owner: usize,
    decl: usize,
    initialized: bool,
) -> (r: Declaration)
    requires
        tree.fits(source@),
        owner < tree.len(),
        decl < tree.len(),
    ensures
        ({
            let (name, pointer) = declarator::declared_name(*tree, source@, decl as int);
            let fn_pointer = declarator::function_pointer(*tree, decl as int);
            let prototype = tree.spec_kind(decl as int) == "function_declarator"@ && !fn_pointer;
            match r {
                Declaration::Prototype => prototype,
                Declaration::Nothing => !prototype && name.len() == 0,
                Declaration::Variable(v) => {
                    &&& !prototype && name.len() > 0
                    &&& v.name@ == name
                    &&& v.is_pointer == (fn_pointer || pointer)
                    &&& v.is_reference == (tree.spec_kind(decl as int) == "reference_declarator"@)
                    &&& is_declared_as(v, *place, *tree, source@, owner as int, initialized)
                },
            }
        }),
{
    let fn_pointer = is_function_pointer_declarator(tree, decl);
    if tree.kind_is(decl, "function_declarator") && !fn_pointer {
        return Declaration::Prototype;
    }
    let (name, pointer) = parse_declarator_name(source, tree, decl);
    if name.as_str().unicode_len() == 0 {
        return Declaration::Nothing;
    }
    proof {
        reveal_strlit("function_declarator");
        reveal_strlit("reference_declarator");
    }
    let is_reference = tree.kind_is(decl, "reference_declarator");
    Declaration::Variable(
        declared_as(
            name,
            place,
            source,
            tree,
            owner,
            initialized,
            fn_pointer || pointer,
            is_reference,
        ),
    )
}

/// The variable that a bare name introduces. An attribute inside a sibling
/// declarator is that sibling's alone, so weakness is read at the name.
pub fn declare_plain(place: &DeclPlace, source: &str, tree: &SyntaxTree, name: usize) -> (r: Option<
    Declared,
>)
    requires
        tree.fits(source@),
        name < tree.len(),
    ensures
        match r {
            Some(v) => {
                &&& tree.text(source@, name as int).len() > 0
                &&& v.name@ == tree.text(source@, name as int)
                &&& !v.is_pointer && !v.is_reference
                &&& is_declared_as(v, *place, *tree, source@, name as int, false)
            },
            None => tree.text(source@, name as int).len() == 0,
        },
{
    let text = node_text(source, tree, name);
    if text.unicode_len() == 0 {
        return None;
    }
    Some(declared_as(text.to_owned(), place, source, tree, name, false, false, false))
}

/// What an initializer does to the variable it belongs to.
#[derive(Debug, Clone, Copy, PartialEq, Eq, Structural)]
pub struct InitPlan {
    /// The list that a constructor of the variable's class is called with.
    pub ctor_args: Option<usize>,
    /// The functions in the list become members of the variable, an array.
    pub parks_members: bool,
    /// The expression whose value flows into the variable.
    pub flow: Option<usize>,
}

/// What is known of the variable that an initializer belongs to.
#[derive(Debug, Clone, Copy, PartialEq, Eq, Structural)]
pub struct InitSubject {
    pub is_cpp: bool,
    pub in_function: bool,
    /// The variable is in a file of a dependency: nothing flows there.
    pub in_dep_file: bool,
    /// The type of the variable is a class that has a name.
    pub is_class: bool,
    /// That class has a constructor that is neither defaulted nor deleted.
    pub has_user_ctor: bool,
    pub is_array: bool,
}

pub open spec fn no_plan() -> InitPlan {
    InitPlan { ctor_args: None, parks_members: false, flow: None }
}

/// `Cls o{1, 2};` calls a constructor when the class has a user-provided one;
/// a class without one is an aggregate, whose braces initialize its fields.
pub open spec fn braces_construct(
    t: SyntaxTree,
    s: InitSubject,
    owner: int,
    value: Option<usize>,
) -> bool {
    &&& constructs(t, s, owner)
    &&& s.has_user_ctor
    &&& value matches Some(v) && t.spec_kind(v as int) == "initializer_list"@
}

pub open spec fn constructs(t: SyntaxTree, s: InitSubject, owner: int) -> bool {
    s.is_cpp && s.in_function && s.is_class && t.spec_kind(owner) == "init_declarator"@
}

/// What an initializer does. A parenthesized argument list is a constructor
/// call and no value that flows into the object.
pub open spec fn plan_of(
    t: SyntaxTree,
    s: InitSubject,
    owner: int,
    decl: int,
    value: Option<usize>,
) -> InitPlan {
    if s.in_dep_file {
        no_plan()
    } else {
        let fn_pointer = declarator::function_pointer(t, decl);
        let braced = !fn_pointer && braces_construct(t, s, owner, value);
        let listed = value matches Some(v) && t.spec_kind(v as int) == "argument_list"@;
        let flows = value is Some && (fn_pointer || !listed && !braced);
        InitPlan {
            ctor_args: if fn_pointer || !constructs(t, s, owner) {
                None
            } else if listed || braced {
                value
            } else {
                t.of_kind(owner, "argument_list"@)
            },
            parks_members: flows && t.spec_kind(value->0 as int) == "initializer_list"@ && (
            s.is_array || declarator::array_declared(t, decl)),
            flow: if flows {
                value
            } else {
                None
            },
        }
    }
}

/// What the initializer of a variable does.
pub fn plan_initializer(
    tree: &SyntaxTree,
    subject: &InitSubject,
    owner: usize,
    decl: usize,
    value: Option<usize>,
) -> (r: InitPlan)
    requires
        tree.wf(),
        owner < tree.len(),
        decl < tree.len(),
        value matches Some(v) ==> v < tree.len(),
    ensures
        r == plan_of(*tree, *subject, owner as int, decl as int, value),
{
    if subject.in_dep_file {
        return InitPlan { ctor_args: None, parks_members: false, flow: None };
    }
    let fn_pointer = is_function_pointer_declarator(tree, decl);
    let (is_list, is_args) = match value {
        Some(v) => (tree.kind_is(v, "initializer_list"), tree.kind_is(v, "argument_list")),
        None => (false, false),
    };
    let constructing = subject.is_cpp && subject.in_function && subject.is_class && tree.kind_is(
        owner,
        "init_declarator",
    );
    let braced = !fn_pointer && constructing && subject.has_user_ctor && is_list;
    let flows = value.is_some() && (fn_pointer || !is_args && !braced);
    let ctor_args: Option<usize> = if fn_pointer || !constructing {
        None
    } else if is_args || braced {
        value
    } else {
        tree.child_of_kind(owner, "argument_list")
    };
    InitPlan {
        ctor_args,
        parks_members: flows && is_list && (subject.is_array || declarator_is_array(tree, decl)),
        flow: if flows {
            value
        } else {
            None
        },
    }
}

/// The nearest class up the hierarchy that declares constructors has one that
/// is not among those defaulted or deleted in their class.
pub open spec fn user_ctor(x: ClassIndex, cls: Seq<char>, defaulted: Seq<FnId>) -> bool {
    exists|k: int|
        0 <= k < ctors(x, cls).len() && !defaulted.contains(#[trigger] ctors(x, cls)[k])
}

pub open spec fn ctors(x: ClassIndex, cls: Seq<char>) -> Seq<FnId> {
    hierarchy::first_members(x, hierarchy::ancestry(x, cls), MethodView::Ctor, 0)
}

pub fn has_user_ctor(index: &ClassIndex, cls: &str, defaulted: &Vec<FnId>) -> (r: bool)
    ensures
        r == user_ctor(*index, cls@, defaulted@),
{
    let all = index.declared_members_upward(cls, &MethodKind::Ctor);
    let mut k: usize = 0;
    while k < all.len()
        invariant
            all@ == ctors(*index, cls@),
            k <= all@.len(),
            forall|j: int| 0 <= j < k ==> defaulted@.contains(#[trigger] all@[j]),
        decreases all@.len() - k,
    {
        if !holds_fn(defaulted, all[k]) {
            assert(!defaulted@.contains(ctors(*index, cls@)[k as int]));
            return true;
        }
        k += 1;
    }
    false
}

fn holds_fn(fns: &Vec<FnId>, f: FnId) -> (r: bool)
    ensures
        r == fns@.contains(f),
{
    let mut k: usize = 0;
    while k < fns.len()
        invariant
            k <= fns@.len(),
            forall|j: int| 0 <= j < k ==> fns@[j] != f,
        decreases fns@.len() - k,
    {
        if fns[k].0 == f.0 {
            assert(fns@[k as int] == f);
            return true;
        }
        k += 1;
    }
    false
}

/// What `T w(a, b);` does with its values, for a type without a class as for
/// one with a class.
#[derive(Debug, Clone, Copy, PartialEq, Eq, Structural)]
pub enum DirectInit {
    Nothing,
    /// The object takes over the one variable.
    Copy(VarId),
    /// The object takes the address of the one function.
    AddrOfFn(FnId),
    /// A constructor is called with the object as `this`.
    Construct,
}

/// A class is constructed, inside a function; any other object takes over the
/// one variable or function that it is initialized with.
pub open spec fn direct_effect(
    vars: Seq<(u32, VarId)>,
    fns: Seq<(u32, FnId)>,
    is_class: bool,
    in_function: bool,
    in_dep_file: bool,
) -> DirectInit {
    if in_dep_file {
        DirectInit::Nothing
    } else if is_class {
        if in_function {
            DirectInit::Construct
        } else {
            DirectInit::Nothing
        }
    } else if vars.len() == 1 && fns.len() == 0 {
        DirectInit::Copy(vars[0].1)
    } else if vars.len() == 0 && fns.len() == 1 {
        DirectInit::AddrOfFn(fns[0].1)
    } else {
        DirectInit::Nothing
    }
}

/// What an object definition with parenthesized values does.
pub fn direct_init(
    args: &CallArgs,
    is_class: bool,
    in_function: bool,
    in_dep_file: bool,
) -> (r: DirectInit)
    ensures
        r == direct_effect(
            args.var_args@,
            args.fn_args@,
            is_class,
            in_function,
            in_dep_file,
        ),
{
    if in_dep_file {
        DirectInit::Nothing
    } else if is_class {
        if in_function {
            DirectInit::Construct
        } else {
            DirectInit::Nothing
        }
    } else if args.var_args.len() == 1 && args.fn_args.len() == 0 {
        DirectInit::Copy(args.var_args[0].1)
    } else if args.var_args.len() == 0 && args.fn_args.len() == 1 {
        DirectInit::AddrOfFn(args.fn_args[0].1)
    } else {
        DirectInit::Nothing
    }
}

/// How many pointer layers a type has.
pub open spec fn depth_of(d: DescView) -> nat
    decreases d,
{
    match d {
        DescView::Ptr(inner) => depth_of(*inner) + 1,
        _ => 0,
    }
}

/// Whether a type has at least `n` pointer layers.
fn has_depth(d: &TypeDesc, n: usize) -> (r: bool)
    ensures
        r == (depth_of(d@) >= n),
    decreases n,
{
    if n == 0 {
        return true;
    }
    match d {
        TypeDesc::Ptr(inner) => has_depth(inner, n - 1),
        _ => false,
    }
}

/// The type of a variable. An `auto` variable takes its initializer's type,
/// which has its pointer layers; an initializer with fewer layers than the
/// declarator asks for deduces nothing.
pub open spec fn variable_desc(
    t: SyntaxTree,
    decl: int,
    base: DescView,
    inferred: Option<DescView>,
) -> DescView {
    match inferred {
        Some(d) if depth_of(d) >= declarator::pointers_above(t, decl) => d,
        _ => declarator::shaped(t, decl, base),
    }
}

/// Whether a type is left to the initializer: a C++ `auto`. A local declared
/// `auto&` has the value's own type, so it carries no alias layer.
pub fn is_placeholder_type(is_cpp: bool, tree: &SyntaxTree, node: usize) -> (r: bool)
    requires
        node < tree.len(),
    ensures
        r == (is_cpp && tree.spec_kind(node as int) == "placeholder_type_specifier"@),
{
    is_cpp && tree.kind_is(node, "placeholder_type_specifier")
}

/// The type of a variable declared by `decl` with the type `base`; `inferred`
/// is what its initializer gives an `auto` variable.
pub fn local_type(tree: &SyntaxTree, decl: usize, base: TypeDesc, inferred: Option<TypeDesc>) -> (r:
    TypeDesc)
    requires
        tree.wf(),
        decl < tree.len(),
    ensures
        r@ == variable_desc(
            *tree,
            decl as int,
            base@,
            match inferred {
                Some(d) => Some(d@),
                None => None,
            },
        ),
{
    match inferred {
        Some(d) => if has_depth(&d, declarator_pointer_depth(tree, decl)) {
            return d;
        },
        None => {},
    }
    walk_declarator_shape(tree, decl, base)
}

/// The last named child that is no field designator, among the first `k`.
pub open spec fn pair_value_upto(t: SyntaxTree, n: int, k: int) -> Option<usize>
    decreases k,
{
    if k <= 0 {
        None
    } else {
        let c = t.children(n)[k - 1];
        if t.rows@[c as int].is_named && t.spec_kind(c as int) != "field_designator"@ {
            Some(c)
        } else {
            pair_value_upto(t, n, k - 1)
        }
    }
}

pub open spec fn pair_value(t: SyntaxTree, n: int) -> Option<usize> {
    pair_value_upto(t, n, t.children(n).len() as int)
}

/// The value in a designated initializer: its last named child that is no
/// field designator.
pub fn init_pair_value_node(tree: &SyntaxTree, node: usize) -> (r: Option<usize>)
    requires
        tree.wf(),
        node < tree.len(),
    ensures
        r == pair_value(*tree, node as int),
        r matches Some(c) ==> node < c < tree.len(),
{
    let mut k: usize = tree.kids[node].len();
    while k > 0
        invariant
            tree.wf(),
            node < tree.len(),
            k <= tree.children(node as int).len(),
            pair_value(*tree, node as int) == pair_value_upto(*tree, node as int, k as int),
        decreases k,
    {
        let c = tree.kids[node][k - 1];
        assert(c == tree.children(node as int)[k - 1]);
        if tree.rows[c].is_named && !tree.kind_is(c, "field_designator") {
            return Some(c);
        }
        k -= 1;
    }
    None
}

/// A designated element of an initializer list.
pub open spec fn pairs(t: SyntaxTree, c: int) -> bool {
    t.spec_kind(c) == "initializer_pair"@ || t.spec_kind(c) == "designated_initializer"@
}

/// Some element of the list names the field it belongs to.
pub open spec fn designates_fields(t: SyntaxTree, n: int) -> bool {
    exists|k: int|
        0 <= k < t.children(n).len() && designates(t, #[trigger] t.children(n)[k] as int)
}

pub open spec fn designates(t: SyntaxTree, c: int) -> bool {
    pairs(t, c) && t.of_kind(c, "field_designator"@) is Some
}

fn is_pair(tree: &SyntaxTree, c: usize) -> (r: bool)
    requires
        tree.wf(),
        c < tree.len(),
    ensures
        r == pairs(*tree, c as int),
{
    tree.kind_is(c, "initializer_pair") || tree.kind_is(c, "designated_initializer")
}

/// Whether some element of a list carries a `.field =` designator.
pub fn list_has_field_designators(tree: &SyntaxTree, list: usize) -> (r: bool)
    requires
        tree.wf(),
        list < tree.len(),
    ensures
        r == designates_fields(*tree, list as int),
{
    let mut k: usize = 0;
    while k < tree.kids[list].len()
        invariant
            tree.wf(),
            list < tree.len(),
            k <= tree.children(list as int).len(),
            forall|j: int|
                0 <= j < k ==> !designates(*tree, #[trigger] tree.children(list as int)[j] as int),
        decreases tree.children(list as int).len() - k,
    {
        let c = tree.kids[list][k];
        assert(c == tree.children(list as int)[k as int]);
        if is_pair(tree, c) && tree.child_of_kind(c, "field_designator").is_some() {
            assert(designates(*tree, tree.children(list as int)[k as int] as int));
            return true;
        }
        k += 1;
    }
    false
}

/// Punctuation between the elements of a list.
pub open spec fn separates(t: SyntaxTree, c: int) -> bool {
    t.spec_kind(c) == "("@ || t.spec_kind(c) == ")"@ || t.spec_kind(c) == ","@
}

/// The elements that an array's initializer list holds, through the lists
/// nested in it. A list that names fields keeps its elements bound to those
/// fields and gives none.
pub open spec fn list_members(t: SyntaxTree, n: int) -> Seq<usize>
    decreases t.len() - n, t.children(n).len() + 1,
    when t.wf() && 0 <= n < t.len()
{
    list_members_from(t, n, 0)
}

pub open spec fn list_members_from(t: SyntaxTree, n: int, k: int) -> Seq<usize>
    decreases t.len() - n, t.children(n).len() - k,
    when t.wf() && 0 <= n < t.len()
    via list_members_from_decreases
{
    if k < 0 || k >= t.children(n).len() {
        Seq::empty()
    } else {
        let c = t.children(n)[k];
        element(t, c as int) + list_members_from(t, n, k + 1)
    }
}

/// The elements that one child of a list gives.
pub open spec fn element(t: SyntaxTree, c: int) -> Seq<usize>
    decreases t.len() - c, t.children(c).len() + 2,
    when t.wf() && 0 <= c < t.len()
    via element_decreases
{
    if separates(t, c) {
        Seq::empty()
    } else if t.spec_kind(c) == "initializer_list"@ {
        list_members(t, c)
    } else if pairs(t, c) {
        match pair_value(t, c) {
            Some(v) => if t.spec_kind(v as int) == "initializer_list"@ {
                if designates_fields(t, v as int) {
                    Seq::empty()
                } else {
                    list_members(t, v as int)
                }
            } else {
                seq![v]
            },
            None => Seq::empty(),
        }
    } else {
        seq![c as usize]
    }
}

#[via_fn]
proof fn element_decreases(t: SyntaxTree, c: int) {
    lemma_pair_value(t, c, t.children(c).len() as int);
}

#[via_fn]
proof fn list_members_from_decreases(t: SyntaxTree, n: int, k: int) {
    if 0 <= k < t.children(n).len() {
        let c = t.children(n)[k];
        assert(n < c < t.len());
    }
}

proof fn lemma_pair_value(t: SyntaxTree, n: int, k: int)
    requires
        t.wf(),
        0 <= n < t.len(),
        k <= t.children(n).len(),
    ensures
        pair_value_upto(t, n, k) matches Some(v) ==> n < v < t.len(),
    decreases k,
{
    if k > 0 {
        assert(n < t.children(n)[k - 1] < t.len());
        lemma_pair_value(t, n, k - 1);
    }
}

fn element_members(tree: &SyntaxTree, c: usize, out: &mut Vec<usize>)
    requires
        tree.wf(),
        0 < c < tree.len(),
    ensures
        final(out)@ == old(out)@ + element(*tree, c as int),
    decreases tree.len() - c, 4int,
{
    if tree.kind_is(c, "(") || tree.kind_is(c, ")") || tree.kind_is(c, ",") {
        assert(out@ =~= old(out)@ + Seq::<usize>::empty());
        return;
    }
    if tree.kind_is(c, "initializer_list") {
        collect_members(tree, c, out);
        return;
    }
    if is_pair(tree, c) {
        match init_pair_value_node(tree, c) {
            Some(v) => if tree.kind_is(v, "initializer_list") {
                if !list_has_field_designators(tree, v) {
                    collect_members(tree, v, out);
                } else {
                    assert(out@ =~= old(out)@ + Seq::<usize>::empty());
                }
            } else {
                out.push(v);
                assert(out@ =~= old(out)@ + seq![v]);
            },
            None => {
                assert(out@ =~= old(out)@ + Seq::<usize>::empty());
            },
        }
        return;
    }
    out.push(c);
    assert(out@ =~= old(out)@ + seq![c]);
}

fn collect_members(tree: &SyntaxTree, list: usize, out: &mut Vec<usize>)
    requires
        tree.wf(),
        list < tree.len(),
    ensures
        final(out)@ == old(out)@ + list_members(*tree, list as int),
    decreases tree.len() - list, 3int,
{
    let mut k: usize = 0;
    assert(out@ + list_members_from(*tree, list as int, 0) =~= old(out)@ + list_members(
        *tree,
        list as int,
    ));
    while k < tree.kids[list].len()
        invariant
            tree.wf(),
            list < tree.len(),
            k <= tree.children(list as int).len(),
            out@ + list_members_from(*tree, list as int, k as int) == old(out)@ + list_members(
                *tree,
                list as int,
            ),
        decreases tree.children(list as int).len() - k,
    {
        let c = tree.kids[list][k];
        assert(c == tree.children(list as int)[k as int]);
        let ghost before = out@;
        let ghost rest = list_members_from(*tree, list as int, k as int + 1);
        element_members(tree, c, out);
        proof {
            let own = element(*tree, c as int);
            assert(before + (own + rest) =~= out@ + rest);
        }
        k += 1;
    }
    assert(out@ + list_members_from(*tree, list as int, k as int) =~= out@);
}

/// The elements that an array's initializer list holds, in source order.
pub fn array_members(tree: &SyntaxTree, list: usize) -> (r: Vec<usize>)
    requires
        tree.wf(),
        list < tree.len(),
    ensures
        r@ == list_members(*tree, list as int),
{
    let mut out: Vec<usize> = Vec::new();
    collect_members(tree, list, &mut out);
    assert(Seq::<usize>::empty() + list_members(*tree, list as int) =~= list_members(
        *tree,
        list as int,
    ));
    out
}

/// The constraints and unsettled references that initialize each global.
#[derive(Debug, PartialEq, Eq)]
pub struct InitOwners {
    /// Ranges of the unit's constraints.
    pub ranges: Vec<(VarId, usize, usize)>,
    /// Places in the list of unsettled references.
    pub pending: Vec<(usize, VarId)>,
}

/// The places from `from` up to `to`, each with its owner.
pub open spec fn owned_places<T>(from: int, to: int, owner: T) -> Seq<(usize, T)> {
    Seq::new(
        if to > from {
            (to - from) as nat
        } else {
            0
        },
        |i: int| ((from + i) as usize, owner),
    )
}

impl InitOwners {
    /// Record what a global's initializer added since `flow_start` and
    /// `pending_start`.
    pub fn own(
        &mut self,
        var: VarId,
        flow_start: usize,
        flow_end: usize,
        pending_start: usize,
        pending_end: usize,
    )
        ensures
            final(self).ranges@ == (if flow_end > flow_start {
                old(self).ranges@.push((var, flow_start, flow_end))
            } else {
                old(self).ranges@
            }),
            final(self).pending@ == old(self).pending@ + owned_places(
                pending_start as int,
                pending_end as int,
                var,
            ),
    {
        if flow_end > flow_start {
            self.ranges.push((var, flow_start, flow_end));
        }
        let ghost ranges = self.ranges@;
        let mut k: usize = pending_start;
        assert(owned_places(pending_start as int, pending_start as int, var) =~= Seq::empty());
        while k < pending_end
            invariant
                self.ranges@ == ranges,
                k >= pending_start,
                k <= pending_end || k == pending_start,
                self.pending@ =~= old(self).pending@ + owned_places(
                    pending_start as int,
                    k as int,
                    var,
                ),
            decreases pending_end - k,
        {
            self.pending.push((k, var));
            k += 1;
        }
    }
}

/// The constraints and unsettled references that each body adds.
#[derive(Debug, PartialEq, Eq)]
pub struct BodyOwners {
    /// Ranges of the unit's constraints.
    pub ranges: Vec<(FnId, usize, usize)>,
    /// Places in the list of unsettled references.
    pub pending: Vec<(usize, FnId)>,
}

impl BodyOwners {
    /// Record what the body of a function added since `flow_start` and
    /// `pending_start`, where it has to be told whose it is: only a unit with weak
    /// symbols can have a body taken back when images are linked.
    pub fn own_body(
        &mut self,
        records_ownership: bool,
        has_weak: bool,
        f: FnId,
        flow_start: usize,
        flow_end: usize,
        pending_start: usize,
        pending_end: usize,
    )
        ensures
            final(self).ranges@ == (if records_ownership && has_weak && flow_end > flow_start {
                old(self).ranges@.push((f, flow_start, flow_end))
            } else {
                old(self).ranges@
            }),
            final(self).pending@ == (if records_ownership && has_weak {
                old(self).pending@ + owned_places(pending_start as int, pending_end as int, f)
            } else {
                old(self).pending@
            }),
    {
        if !records_ownership || !has_weak {
            return;
        }
        if flow_end > flow_start {
            self.ranges.push((f, flow_start, flow_end));
        }
        let ghost ranges = self.ranges@;
        let mut k: usize = pending_start;
        assert(owned_places(pending_start as int, pending_start as int, f) =~= Seq::empty());
        while k < pending_end
            invariant
                self.ranges@ == ranges,
                k >= pending_start,
                k <= pending_end || k == pending_start,
                self.pending@ =~= old(self).pending@ + owned_places(
                    pending_start as int,
                    k as int,
                    f,
                ),
            decreases pending_end - k,
        {
            self.pending.push((k, f));
            k += 1;
        }
    }
}

/// Whether what an initializer adds has to be recorded as its variable's: only
/// a weak symbol's initializer can be taken back when images are linked.
pub fn captures_initializer(
    records_ownership: bool,
    has_weak: bool,
    in_function: bool,
    has_value: bool,
) -> (r: bool)
    ensures
        r == (records_ownership && has_weak && !in_function && has_value),
{
    records_ownership && has_weak && !in_function && has_value
}

/// Whether what a direct initialization adds has to be recorded as its
/// variable's: that of an object of no class, outside the dependencies.
pub fn captures_direct_init(
    records_ownership: bool,
    has_weak: bool,
    in_function: bool,
    is_class: bool,
    in_dep_file: bool,
) -> (r: bool)
    ensures
        r == (records_ownership && has_weak && !in_function && !is_class && !in_dep_file),
{
    captures_initializer(records_ownership, has_weak, in_function, !is_class && !in_dep_file)
}

/// Outside functions a direct initialization defines its object, even one that
/// is declared `extern`.
pub fn define_initialized(v: &mut Variable, in_function: bool)
    ensures
        *final(v) == (Variable { is_defined: old(v).is_defined || !in_function, ..*old(v) }),
{
    if !in_function {
        v.is_defined = true;
    }
}

/// A variable of the function `from` becomes one of `to`.
pub open spec fn var_moved(v: Variable, from: FnId, to: FnId) -> Variable {
    if v.fn_id == Some(from) {
        Variable { fn_id: Some(to), ..v }
    } else {
        v
    }
}

/// The variables among the positions `start` up to `k` that belong to `from`.
pub open spec fn owned_upto(vars: Seq<Variable>, from: FnId, start: int, k: int) -> Seq<VarId>
    decreases k - start,
{
    if k <= start {
        Seq::empty()
    } else if vars[k - 1].fn_id == Some(from) {
        owned_upto(vars, from, start, k - 1).push(vars[k - 1].id)
    } else {
        owned_upto(vars, from, start, k - 1)
    }
}

/// Hand the variables that a function got under a provisional number, from
/// `start` on, over to the number it keeps. What is handed over is the
/// function's parameter list; where nothing moves, its own list stays.
pub fn reassign_vars(vars: &mut Vec<Variable>, from: FnId, to: FnId, start: usize) -> (moved: Vec<
    VarId,
>)
    requires
        start <= old(vars)@.len(),
    ensures
        from == to ==> final(vars)@ == old(vars)@ && moved@.len() == 0,
        from != to ==> {
            &&& moved@ == owned_upto(old(vars)@, from, start as int, old(vars)@.len() as int)
            &&& final(vars)@.len() == old(vars)@.len()
            &&& forall|i: int|
                0 <= i < start ==> #[trigger] final(vars)@[i] == old(vars)@[i]
            &&& forall|i: int|
                start <= i < old(vars)@.len() ==> #[trigger] final(vars)@[i] == var_moved(
                    old(vars)@[i],
                    from,
                    to,
                )
        },
{
    let mut moved: Vec<VarId> = Vec::new();
    if from.0 == to.0 {
        return moved;
    }
    let count = vars.len();
    let mut k: usize = start;
    while k < count
        invariant
            from != to,
            start <= k <= count,
            count == old(vars)@.len(),
            vars@.len() == count,
            moved@ == owned_upto(old(vars)@, from, start as int, k as int),
            forall|i: int| 0 <= i < start ==> #[trigger] vars@[i] == old(vars)@[i],
            forall|i: int|
                start <= i < k ==> #[trigger] vars@[i] == var_moved(old(vars)@[i], from, to),
            forall|i: int| k <= i < count ==> #[trigger] vars@[i] == old(vars)@[i],
        decreases count - k,
    {
        let owned: bool = match vars[k].fn_id {
            Some(f) => f.0 == from.0,
            None => false,
        };
        assert(vars@[k as int] == old(vars)@[k as int]);
        if owned {
            let mut v = vars[k].copy();
            moved.push(v.id);
            v.fn_id = Some(to);
            vars.set(k, v);
        }
        k += 1;
    }
    moved
}

/// A call of the function `from` becomes one of `to`.
pub open spec fn call_moved(s: CallSite, from: FnId, to: FnId) -> CallSite {
    if s.caller == from {
        CallSite { caller: to, ..s }
    } else {
        s
    }
}

/// Hand the calls that a function got under a provisional number, from
/// `start` on, over to the number it keeps.
pub fn reassign_calls(sites: &mut Vec<CallSite>, from: FnId, to: FnId, start: usize)
    requires
        start <= old(sites)@.len(),
    ensures
        final(sites)@.len() == old(sites)@.len(),
        forall|i: int| 0 <= i < start ==> #[trigger] final(sites)@[i] == old(sites)@[i],
        forall|i: int|
            start <= i < old(sites)@.len() ==> #[trigger] final(sites)@[i] == call_moved(
                old(sites)@[i],
                from,
                to,
            ),
{
    let count = sites.len();
    let mut k: usize = start;
    while k < count
        invariant
            start <= k <= count,
            count == old(sites)@.len(),
            sites@.len() == count,
            forall|i: int| 0 <= i < start ==> #[trigger] sites@[i] == old(sites)@[i],
            forall|i: int|
                start <= i < k ==> #[trigger] sites@[i] == call_moved(old(sites)@[i], from, to),
            forall|i: int| k <= i < count ==> #[trigger] sites@[i] == old(sites)@[i],
        decreases count - k,
    {
        assert(sites@[k as int] == old(sites)@[k as int]);
        if sites[k].caller.0 == from.0 {
            sites[k].caller = to;
        }
        k += 1;
    }
}

/// Nothing stays with a provisional number: of what was declared since it was
/// given, no variable and no call belongs to it once it is handed over.
pub proof fn law_provisional_numbers_are_given_up(
    vars: Seq<Variable>,
    sites: Seq<CallSite>,
    from: FnId,
    to: FnId,
    i: int,
    j: int,
)
    requires
        from != to,
        0 <= i < vars.len(),
        0 <= j < sites.len(),
    ensures
        var_moved(vars[i], from, to).fn_id != Some(from),
        call_moved(sites[j], from, to).caller != from,
        var_moved(vars[i], from, to).id == vars[i].id,
        call_moved(sites[j], from, to).id == sites[j].id,
{
}

} // verus!
