//! The type that a call yields, and the type that an initializer gives an
//! `auto` variable.

use vstd::prelude::*;

use crate::arguments;
use crate::arguments::call_arg_nodes;
use crate::arrows;
use crate::arrows::{class_spelling_of_desc, resolve_operator_arrow_receiver};
use crate::calls;
use crate::candidates::is_bare_callee_node;
use crate::expr;
use crate::expr::{peel_expression, FnNames};
use crate::flows;
use crate::flows::resolve_callee;
use crate::hierarchy;
use crate::infer;
use crate::infer::{member_access_op, Typing};
use crate::ir::{copy_desc, struct_named, DescView, FnId, TypeDesc};
use crate::lookup::ClassIndex;
use crate::methods::{MethodKind, MethodView};
use crate::normalize;
use crate::normalize::{
    normalize_qualified, normalize_spacing, receiver_lookup_name, strip_template_args,
};
use crate::overload;
use crate::overload::{
    arity_takes, filter_targets_by_argc, method_explicit_arity, rank_overloads, Candidate, TypeShape,
};
use crate::parse::node_text;
use crate::receivers;
use crate::receivers::{agreed, weak_ptr_upgrade, TemplateBase};
use crate::scope::NameScope;
use crate::spelling;
use crate::spelling::template_arguments;
use crate::substitution;
use crate::substitution::{substituted_template_return, template_arguments_for};
use crate::syntax::SyntaxTree;
use crate::templates;
use crate::templates::{
    spelling_is_dependent, type_is_dependent, Spelling, TemplateReturn,
};
use crate::text;
use crate::text::{append, chars_of, part, rfind, string_of};
use crate::types;

verus! {

/// `wrapper<class>` for the one template argument that `spelled` carries,
/// unless it mentions a parameter of a template around `n`.
pub open spec fn smart_ptr(
    ty: Typing,
    has_templates: bool,
    t: SyntaxTree,
    source: Seq<char>,
    n: int,
    wrapper: Seq<char>,
    spelled: Seq<char>,
    from: Spelling,
) -> Option<DescView> {
    let args = spelling::arguments_of(spelled);
    if args.len() != 1 || has_templates && templates::mentioned_above(t, source, n, args[0], from) {
        None
    } else {
        match receivers::spec_held(*ty.scope, *ty.index, args[0]) {
            Some(class) => Some(types::class_desc(wrapper + "<"@ + class + ">"@)),
            None => None,
        }
    }
}

/// What a call's result type is decided by, before any argument is typed.
#[derive(Debug, PartialEq, Eq)]
pub enum CallShape {
    /// The call has no result type: the callee is a variable, or the receiver
    /// cannot be typed.
    Untyped,
    /// The callee's shape alone decides the type, or that there is none.
    Decided(Option<TypeDesc>),
    /// The return type of one of these members; a receiver's spelling names
    /// the arguments that a template's return substitutes.
    Declared { members: Vec<FnId>, receiver: Option<String> },
    /// The return type of a function looked up by name once the argument types
    /// are known.
    ByName { func: usize, name: String },
}

pub enum ShapeView {
    Untyped,
    Decided(Option<DescView>),
    Declared { members: Seq<FnId>, receiver: Option<Seq<char>> },
    ByName { func: usize, name: Seq<char> },
}

impl CallShape {
    pub open spec fn view(&self) -> ShapeView {
        match self {
            CallShape::Untyped => ShapeView::Untyped,
            CallShape::Decided(d) => ShapeView::Decided(infer::opt_desc(*d)),
            CallShape::Declared { members, receiver } => ShapeView::Declared {
                members: members@,
                receiver: substitution::opt_text(*receiver),
            },
            CallShape::ByName { func, name } => ShapeView::ByName { func: *func, name: name@ },
        }
    }
}

/// The members that the nearest class up the hierarchy has under a name.
pub open spec fn members_named(x: ClassIndex, cls: Seq<char>, name: Seq<char>) -> Seq<FnId> {
    hierarchy::first_members(x, hierarchy::ancestry(x, cls), MethodView::Named(name), 0)
}

/// The shape of a call through a member access.
pub open spec fn member_shape(
    ty: Typing,
    has_templates: bool,
    t: SyntaxTree,
    source: Seq<char>,
    n: int,
    func: int,
) -> ShapeView {
    match (t.fielded(func, "argument"@), t.fielded(func, "field"@)) {
        (Some(recv), Some(f)) => match infer::receiver(ty, t, source, recv as int) {
            Some(d) => {
                let field = normalize::qualified_text(t.text(source, f as int));
                let arrow = infer::by_arrow(t, func);
                let strong = weak_upgrade(*ty.index, d, field);
                if !arrow && arguments::call_args(t, n).len() == 0 && strong is Some {
                    let (wrapper, name) = strong->0;
                    ShapeView::Decided(
                        smart_ptr(
                            ty,
                            has_templates,
                            t,
                            source,
                            n,
                            wrapper,
                            name,
                            Spelling::Lowered,
                        ),
                    )
                } else {
                    let found = if arrow {
                        arrows::spec_arrow_receiver(*ty.index, ty.arrows@, d)
                    } else {
                        arrows::class_spelling(d)
                    };
                    match found {
                        Some(own) => ShapeView::Declared {
                            members: members_named(
                                *ty.index,
                                normalize::without_arguments(own),
                                normalize::without_arguments(field),
                            ),
                            receiver: Some(own),
                        },
                        None => ShapeView::Untyped,
                    }
                }
            },
            None => ShapeView::Untyped,
        },
        _ => ShapeView::Untyped,
    }
}

/// The strong pointer that a method on a weak pointer yields, with the
/// spelling of the weak one.
pub open spec fn weak_upgrade(x: ClassIndex, d: DescView, method: Seq<char>) -> Option<
    (Seq<char>, Seq<char>),
> {
    match d {
        DescView::Struct { name, .. } => {
            let cls = normalize::without_arguments(name);
            match receivers::upgraded(cls, method) {
                Some(strong) if arrows::undefined_wrapper(x, name, cls) => Some((strong, name)),
                _ => None,
            }
        },
        _ => None,
    }
}

/// The class that `T(args)` constructs, for a callee that is no variable.
pub open spec fn constructed(ty: Typing, t: SyntaxTree, source: Seq<char>, func: int) -> Option<
    (Seq<char>, Seq<char>),
> {
    let kind = t.spec_kind(func);
    let spelled = normalize::qualified_text(t.text(source, func));
    if (kind == "identifier"@ || kind == "qualified_identifier"@) && ty.vars.spec_var(spelled)
        is None {
        match ty.scope.spec_constructs(*ty.index, spelled) {
            Some(cls) => Some((spelled, cls)),
            None => None,
        }
    } else {
        None
    }
}

/// The shape of a call by name. A member of the class being lowered hides an
/// outer function of the name.
pub open spec fn named_shape(
    ty: Typing,
    f: FnNames,
    t: SyntaxTree,
    source: Seq<char>,
    func: usize,
) -> ShapeView {
    let callee = flows::callee_of(*ty.vars, f, t, source, func as int);
    let kind = t.spec_kind(func as int);
    let bare = (kind == "identifier"@ || kind == "template_function"@) && !text::contains(
        callee.name,
        "::"@,
    );
    if callee.var is Some {
        ShapeView::Untyped
    } else {
        match ty.this_class() {
            Some(cls) if bare && members_named(*ty.index, cls, callee.name).len() > 0 => {
                ShapeView::Declared {
                    members: members_named(*ty.index, cls, callee.name),
                    receiver: Some(cls),
                }
            },
            _ => ShapeView::ByName { func, name: callee.name },
        }
    }
}

/// What decides the result type of the call at `n`.
pub open spec fn shape_of(
    ty: Typing,
    f: FnNames,
    has_templates: bool,
    t: SyntaxTree,
    source: Seq<char>,
    n: int,
) -> ShapeView {
    match t.fielded(n, "function"@) {
        Some(func) => {
            let raw = normalize::spaced_text(t.text(source, func as int));
            match receivers::factory_of(*ty.scope, normalize::without_arguments(raw)) {
                Some(wrapper) => ShapeView::Decided(
                    smart_ptr(ty, has_templates, t, source, n, wrapper, raw, Spelling::Source),
                ),
                None => match constructed(ty, t, source, func as int) {
                    Some((spelled, cls)) => ShapeView::Decided(
                        if has_templates && templates::mentioned_above(
                            t,
                            source,
                            n,
                            spelled,
                            Spelling::Source,
                        ) {
                            None
                        } else {
                            Some(types::class_desc(cls))
                        },
                    ),
                    None => if t.spec_kind(func as int) == "field_expression"@ {
                        member_shape(ty, has_templates, t, source, n, func as int)
                    } else {
                        named_shape(ty, f, t, source, func)
                    },
                },
            }
        },
        None => ShapeView::Untyped,
    }
}

impl<'a> Typing<'a> {
    /// The smart pointer that holds the one class a spelling carries.
    pub fn smart_ptr_type(
        &self,
        has_templates: bool,
        source: &str,
        tree: &SyntaxTree,
        node: usize,
        wrapper: &str,
        spelled: &str,
        from: Spelling,
    ) -> (r: Option<TypeDesc>)
        requires
            tree.fits(source@),
            node < tree.len(),
        ensures
            infer::opt_desc(r) == smart_ptr(
                *self,
                has_templates,
                *tree,
                source@,
                node as int,
                wrapper@,
                spelled@,
                from,
            ),
    {
        let args = template_arguments(spelled);
        let ghost all = spelling::views(args@);
        assert(all.len() == args@.len());
        if args.len() != 1 {
            return None;
        }
        assert(all[0] == args@[0]@);
        if spelling_is_dependent(source, tree, has_templates, node, args[0].as_str(), from) {
            return None;
        }
        match self.scope.held_class(self.index, args[0].as_str()) {
            Some(class) => {
                let mut out = chars_of(wrapper);
                append(&mut out, &chars_of("<"));
                append(&mut out, &chars_of(class.as_str()));
                append(&mut out, &chars_of(">"));
                Some(struct_named(string_of(&out)))
            },
            None => None,
        }
    }

    fn member_result(
        &self,
        has_templates: bool,
        source: &str,
        tree: &SyntaxTree,
        call: usize,
        func: usize,
    ) -> (r: CallShape)
        requires
            self.vars.wf(),
            tree.fits(source@),
            call < tree.len(),
            func < tree.len(),
        ensures
            r@ == member_shape(*self, has_templates, *tree, source@, call as int, func as int),
    {
        let recv = match tree.child_by_field_name(func, "argument") {
            Some(c) => c,
            None => {
                return CallShape::Untyped;
            },
        };
        let f = match tree.child_by_field_name(func, "field") {
            Some(c) => c,
            None => {
                return CallShape::Untyped;
            },
        };
        let desc = match self.receiver_desc(source, tree, recv) {
            Some(d) => d,
            None => {
                return CallShape::Untyped;
            },
        };
        let field = normalize_qualified(node_text(source, tree, f));
        let arrow = member_access_op(tree, func).1;
        if !arrow && call_arg_nodes(tree, call).len() == 0 {
            match &desc {
                TypeDesc::Struct { name, fields: _ } => {
                    match weak_ptr_upgrade(self.index, name.as_str(), field.as_str()) {
                        Some(strong) => {
                            return CallShape::Decided(
                                self.smart_ptr_type(
                                    has_templates,
                                    source,
                                    tree,
                                    call,
                                    strong.as_str(),
                                    name.as_str(),
                                    Spelling::Lowered,
                                ),
                            );
                        },
                        None => {},
                    }
                },
                _ => {},
            }
        }
        let found = if arrow {
            resolve_operator_arrow_receiver(self.index, self.arrows, desc)
        } else {
            class_spelling_of_desc(&desc)
        };
        match found {
            Some(own) => {
                let cls = receiver_lookup_name(own.as_str());
                let kind = MethodKind::Named(strip_template_args(field.as_str()));
                let members = self.index.declared_members_upward(cls.as_str(), &kind);
                CallShape::Declared { members, receiver: Some(own) }
            },
            None => CallShape::Untyped,
        }
    }

    fn constructed_by(&self, source: &str, tree: &SyntaxTree, func: usize) -> (r: Option<
        (String, String),
    >)
        requires
            self.vars.wf(),
            tree.fits(source@),
            func < tree.len(),
        ensures
            match r {
                Some((spelled, cls)) => constructed(*self, *tree, source@, func as int) == Some(
                    (spelled@, cls@),
                ),
                None => constructed(*self, *tree, source@, func as int) is None,
            },
    {
        if !tree.kind_is(func, "identifier") && !tree.kind_is(func, "qualified_identifier") {
            return None;
        }
        let spelled = normalize_qualified(node_text(source, tree, func));
        if self.vars.lookup_var(spelled.as_str()).is_some() {
            return None;
        }
        match self.scope.constructed_class(self.index, spelled.as_str()) {
            Some(cls) => Some((spelled, cls)),
            None => None,
        }
    }

    fn named_result(&self, fns: &FnNames, source: &str, tree: &SyntaxTree, func: usize) -> (r:
        CallShape)
        requires
            self.vars.wf(),
            tree.fits(source@),
            func < tree.len(),
            flows::names_operand(*tree, func as int),
        ensures
            r@ == named_shape(*self, *fns, *tree, source@, func),
    {
        let callee = resolve_callee(self.vars, fns, source, tree, func);
        if callee.var.is_some() {
            return CallShape::Untyped;
        }
        match &self.scope.class_ctx {
            Some(cls) => {
                if is_bare_callee_node(tree, func, callee.name.as_str()) {
                    let kind = MethodKind::Named(string_of(&chars_of(callee.name.as_str())));
                    let members = self.index.declared_members_upward(cls.as_str(), &kind);
                    if members.len() > 0 {
                        return CallShape::Declared {
                            members,
                            receiver: Some(string_of(&chars_of(cls.as_str()))),
                        };
                    }
                }
            },
            None => {},
        }
        CallShape::ByName { func, name: callee.name }
    }

    /// What decides the result type of a call: a factory or a constructed
    /// class alone, or the declarations that its arguments choose among.
    pub fn call_result_shape(
        &self,
        fns: &FnNames,
        has_templates: bool,
        source: &str,
        tree: &SyntaxTree,
        call: usize,
    ) -> (r: CallShape)
        requires
            self.vars.wf(),
            tree.fits(source@),
            call < tree.len(),
            tree.fielded(call as int, "function"@) matches Some(f) ==> flows::names_operand(
                *tree,
                f as int,
            ),
        ensures
            r@ == shape_of(*self, *fns, has_templates, *tree, source@, call as int),
    {
        let func = match tree.child_by_field_name(call, "function") {
            Some(f) => f,
            None => {
                return CallShape::Untyped;
            },
        };
        let raw = normalize_spacing(node_text(source, tree, func));
        let name = strip_template_args(raw.as_str());
        match self.scope.smart_ptr_factory(name.as_str()) {
            Some(wrapper) => {
                return CallShape::Decided(
                    self.smart_ptr_type(
                        has_templates,
                        source,
                        tree,
                        call,
                        wrapper,
                        raw.as_str(),
                        Spelling::Source,
                    ),
                );
            },
            None => {},
        }
        match self.constructed_by(source, tree, func) {
            Some((spelled, cls)) => {
                return if spelling_is_dependent(
                    source,
                    tree,
                    has_templates,
                    call,
                    spelled.as_str(),
                    Spelling::Source,
                ) {
                    CallShape::Decided(None)
                } else {
                    CallShape::Decided(Some(struct_named(cls)))
                };
            },
            None => {},
        }
        if tree.kind_is(func, "field_expression") {
            self.member_result(has_templates, source, tree, call, func)
        } else {
            self.named_result(fns, source, tree, func)
        }
    }
}

/// A function that a call's result may come from.
#[derive(Debug, PartialEq, Eq)]
pub struct Returning {
    pub name: String,
    pub ret: TypeDesc,
    /// What is known of the template parameters that the function of this name
    /// returns, where its class is a template.
    pub facts: Option<Vec<TemplateReturn>>,
}

/// The class or namespace that a full name lies in.
pub open spec fn owner_of(name: Seq<char>) -> Option<Seq<char>> {
    let at = text::find_last(name, "::"@, name.len() as int);
    if at < 0 {
        None
    } else {
        Some(name.take(at))
    }
}

pub fn find_owner(name: &str) -> (r: Option<String>)
    ensures
        substitution::opt_text(r) == owner_of(name@),
{
    let s = chars_of(name);
    match rfind(&s, &chars_of("::")) {
        Some(at) => {
            let own = part(&s, 0, at);
            assert(own@ =~= name@.take(at as int));
            Some(string_of(&own))
        },
        None => None,
    }
}

/// Where the results of a call are chosen.
pub struct Choice<'a> {
    pub scope: &'a NameScope,
    pub index: &'a ClassIndex,
    /// The bases that classes spell with template arguments.
    pub template_bases: &'a Vec<(String, Vec<TemplateBase>)>,
    pub has_templates: bool,
    /// The receiver's spelling, for a member.
    pub receiver: Option<&'a str>,
}

impl<'a> Choice<'a> {
    /// What a candidate yields when it takes that many arguments: its return
    /// type, or what the receiver's template arguments substitute for it.
    pub open spec fn yields(&self, shape: Candidate, f: Returning, argc: nat) -> Option<DescView> {
        match overload::arity_of(shape) {
            Some(arity) if overload::takes(shape, arity, argc) => if f.ret@ != DescView::Unknown {
                Some(f.ret@)
            } else {
                match (receivers::opt_text(self.receiver), owner_of(f.name@), f.facts) {
                    (Some(receiver), Some(owner), Some(facts)) => match substitution::arguments_for(
                        *self.index,
                        self.template_bases@,
                        receiver,
                        owner,
                    ) {
                        Some((args, scope)) => if substitution::substitutable(args, facts@) {
                            substitution::substituted_return(
                                *self.scope,
                                *self.index,
                                args,
                                scope,
                                facts@,
                                arity,
                            )
                        } else {
                            None
                        },
                        None => None,
                    },
                    _ => None,
                }
            },
            _ => None,
        }
    }

    fn yielded(&self, shape: &Candidate, f: &Returning, argc: usize) -> (r: Option<TypeDesc>)
        ensures
            infer::opt_desc(r) == self.yields(*shape, *f, argc as nat),
    {
        let arity = match method_explicit_arity(shape) {
            Some(n) => n,
            None => {
                return None;
            },
        };
        if !arity_takes(shape, arity, argc) {
            return None;
        }
        let unknown = match f.ret {
            TypeDesc::Unknown => true,
            _ => false,
        };
        if !unknown {
            return Some(copy_desc(&f.ret));
        }
        let receiver = match self.receiver {
            Some(r) => r,
            None => {
                return None;
            },
        };
        let owner = match find_owner(f.name.as_str()) {
            Some(o) => o,
            None => {
                return None;
            },
        };
        match &f.facts {
            Some(facts) => match template_arguments_for(
                self.index,
                self.template_bases,
                receiver,
                owner.as_str(),
            ) {
                Some((args, scope)) => substituted_template_return(
                    self.scope,
                    self.index,
                    &args,
                    &scope,
                    facts,
                    arity,
                ),
                None => None,
            },
            None => None,
        }
    }

    /// What the candidates at these positions yield.
    pub open spec fn all_yield(
        &self,
        shapes: Seq<Candidate>,
        fns: Seq<Returning>,
        picked: Seq<usize>,
        argc: nat,
    ) -> Seq<Option<DescView>> {
        Seq::new(
            picked.len(),
            |k: int| self.yields(shapes[picked[k] as int], fns[picked[k] as int], argc),
        )
    }

    /// Some candidate is a member of a parameter of a template around `n`.
    pub open spec fn some_dependent(
        &self,
        fns: Seq<Returning>,
        t: SyntaxTree,
        source: Seq<char>,
        n: int,
    ) -> bool {
        self.has_templates && exists|k: int|
            0 <= k < fns.len() && dependent_owner(#[trigger] fns[k], t, source, n)
    }

    fn any_dependent(&self, fns: &Vec<Returning>, source: &str, tree: &SyntaxTree, node: usize) -> (r:
        bool)
        requires
            tree.fits(source@),
            node < tree.len(),
        ensures
            r == self.some_dependent(fns@, *tree, source@, node as int),
    {
        if !self.has_templates {
            return false;
        }
        let mut k: usize = 0;
        while k < fns.len()
            invariant
                tree.fits(source@),
                node < tree.len(),
                self.has_templates,
                k <= fns@.len(),
                forall|j: int|
                    0 <= j < k ==> !dependent_owner(
                        #[trigger] fns@[j],
                        *tree,
                        source@,
                        node as int,
                    ),
            decreases fns@.len() - k,
        {
            match find_owner(fns[k].name.as_str()) {
                Some(o) => if spelling_is_dependent(
                    source,
                    tree,
                    true,
                    node,
                    o.as_str(),
                    Spelling::Lowered,
                ) {
                    assert(dependent_owner(fns@[k as int], *tree, source@, node as int));
                    return true;
                },
                None => {},
            }
            assert(!dependent_owner(fns@[k as int], *tree, source@, node as int));
            k += 1;
        }
        false
    }

    /// The type that a call yields: the one return type that the candidates
    /// which take its arguments agree on. Arguments of unknown type rank
    /// nothing out. A member of a template parameter has no declaration yet.
    pub fn call_result_among(
        &self,
        shapes: &Vec<Candidate>,
        fns: &Vec<Returning>,
        args: &Vec<TypeShape>,
        source: &str,
        tree: &SyntaxTree,
        node: usize,
    ) -> (r: Option<TypeDesc>)
        requires
            tree.fits(source@),
            node < tree.len(),
            shapes@.len() == fns@.len(),
        ensures
            self.some_dependent(fns@, *tree, source@, node as int) ==> r is None,
            !self.some_dependent(fns@, *tree, source@, node as int) ==> exists|by: Seq<usize>|
                #![trigger left_by_type(shapes@, by, args@)]
                {
                    &&& calls::reached(
                        by,
                        shapes@,
                        args@.len(),
                        args@,
                        args@.len() == 0,
                    )
                    &&& infer::opt_desc(r) == receivers::agreed_on(
                        self.all_yield(
                            shapes@,
                            fns@,
                            left_by_type(shapes@, by, args@),
                            args@.len(),
                        ),
                    )
                },
    {
        if self.any_dependent(fns, source, tree, node) {
            return None;
        }
        let argc = args.len();
        let by = filter_targets_by_argc(shapes, argc, args, argc == 0);
        let ghost by_arity = by@;
        let picked = if some_unknown(args) {
            by
        } else {
            rank_overloads(shapes, &by, args)
        };
        assert(picked@ == left_by_type(shapes@, by_arity, args@));
        let mut found: Vec<Option<TypeDesc>> = Vec::new();
        let mut k: usize = 0;
        let ghost all = self.all_yield(shapes@, fns@, picked@, argc as nat);
        while k < picked.len()
            invariant
                shapes@.len() == fns@.len(),
                k <= picked@.len(),
                forall|j: int| 0 <= j < picked@.len() ==> #[trigger] picked@[j] < shapes@.len(),
                all == self.all_yield(shapes@, fns@, picked@, argc as nat),
                receivers::opt_descs(found@) == all.take(k as int),
            decreases picked@.len() - k,
        {
            let i = picked[k];
            let own = self.yielded(&shapes[i], &fns[i], argc);
            let ghost before = receivers::opt_descs(found@);
            let ghost one = infer::opt_desc(own);
            found.push(own);
            assert(receivers::opt_descs(found@) =~= before.push(one));
            assert(all[k as int] == one);
            assert(all.take(k as int + 1) =~= all.take(k as int).push(one));
            k += 1;
        }
        assert(all.take(k as int) =~= all);
        agreed(&found)
    }
}

/// The function is a member of something that mentions a parameter of a
/// template around `n`.
pub open spec fn dependent_owner(f: Returning, t: SyntaxTree, source: Seq<char>, n: int) -> bool {
    owner_of(f.name@) matches Some(o) && templates::mentioned_above(
        t,
        source,
        n,
        o,
        Spelling::Lowered,
    )
}

/// Of the candidates that take the arguments, those that the argument types
/// leave; with an argument of unknown type, all.
pub open spec fn left_by_type(
    shapes: Seq<Candidate>,
    by: Seq<usize>,
    args: Seq<TypeShape>,
) -> Seq<usize> {
    if exists|k: int| 0 <= k < args.len() && (#[trigger] args[k]).desc is Unknown {
        by
    } else {
        overload::ranked(shapes, by, args)
    }
}

fn some_unknown(args: &Vec<TypeShape>) -> (r: bool)
    ensures
        r == exists|k: int| 0 <= k < args@.len() && (#[trigger] args@[k]).desc is Unknown,
{
    let mut k: usize = 0;
    while k < args.len()
        invariant
            k <= args@.len(),
            forall|j: int| 0 <= j < k ==> !((#[trigger] args@[j]).desc is Unknown),
        decreases args@.len() - k,
    {
        match args[k].desc {
            TypeDesc::Unknown => {
                assert(args@[k as int].desc is Unknown);
                return true;
            },
            _ => {},
        }
        k += 1;
    }
    false
}

/// The class spelling that a type holds mentions a parameter of a template
/// around `n`.
pub open spec fn depends(t: SyntaxTree, source: Seq<char>, n: int, d: DescView) -> bool
    decreases d,
{
    match d {
        DescView::Ptr(inner) => depends(t, source, n, *inner),
        DescView::Array { elem, .. } => depends(t, source, n, *elem),
        DescView::Struct { name, .. } => templates::mentioned_above(
            t,
            source,
            n,
            name,
            Spelling::Lowered,
        ),
        DescView::Union { name, .. } => templates::mentioned_above(
            t,
            source,
            n,
            name,
            Spelling::Lowered,
        ),
        _ => false,
    }
}

proof fn lemma_depends(t: SyntaxTree, source: Seq<char>, n: int, d: TypeDesc)
    ensures
        templates::dependent_desc(t, source, n, d) == depends(t, source, n, d@),
    decreases d,
{
    match d {
        TypeDesc::Ptr(inner) => {
            lemma_depends(t, source, n, *inner);
        },
        TypeDesc::Array { elem, .. } => {
            lemma_depends(t, source, n, *elem);
        },
        _ => {},
    }
}

/// The type that an initializer has. A cast and a `new` spell theirs; any other
/// expression has the one that its variable or member was given. What mentions
/// a template parameter is no type.
pub open spec fn initializer_desc(
    ty: Typing,
    has_templates: bool,
    t: SyntaxTree,
    source: Seq<char>,
    n: int,
    call: Option<DescView>,
    lowered: Seq<char>,
) -> Option<DescView> {
    let m = expr::peeled(t, n);
    let kind = t.spec_kind(m);
    let spells = match t.fielded(m, "type"@) {
        Some(c) => has_templates && templates::mentioned_above(
            t,
            source,
            m,
            t.text(source, c as int),
            Spelling::Source,
        ),
        None => false,
    };
    if kind == "call_expression"@ {
        call
    } else if kind == "cast_expression"@ {
        if spells {
            None
        } else {
            Some(arguments::argument_desc(ty, t, source, m, lowered))
        }
    } else {
        match infer::receiver(ty, t, source, m) {
            Some(d) => if kind == "new_expression"@ && spells || kind != "new_expression"@
                && has_templates && depends(t, source, m, d) {
                None
            } else {
                Some(d)
            },
            None => None,
        }
    }
}

impl<'a> Typing<'a> {
    /// The type that an initializer gives an `auto` variable, where it can
    /// type a receiver. `call` is what a call yields, and `lowered` the tag of
    /// a class specifier in a cast.
    pub fn auto_initializer_type(
        &self,
        has_templates: bool,
        source: &str,
        tree: &SyntaxTree,
        value: usize,
        call: Option<TypeDesc>,
        lowered: &str,
    ) -> (r: Option<TypeDesc>)
        requires
            self.vars.wf(),
            tree.fits(source@),
            value < tree.len(),
        ensures
            infer::opt_desc(r) == match initializer_desc(
                *self,
                has_templates,
                *tree,
                source@,
                value as int,
                infer::opt_desc(call),
                lowered@,
            ) {
                Some(d) => self.scope.spec_receiver_type(*self.index, d),
                None => None,
            },
    {
        let m = peel_expression(tree, value);
        let is_call = tree.kind_is(m, "call_expression");
        let is_cast = tree.kind_is(m, "cast_expression");
        let is_new = tree.kind_is(m, "new_expression");
        let desc = if is_call {
            match call {
                Some(d) => d,
                None => {
                    return None;
                },
            }
        } else {
            let spells = match tree.child_by_field_name(m, "type") {
                Some(c) => spelling_is_dependent(
                    source,
                    tree,
                    has_templates,
                    m,
                    node_text(source, tree, c),
                    Spelling::Source,
                ),
                None => false,
            };
            if is_cast {
                if spells {
                    return None;
                }
                self.arg_expr_type(source, tree, m, lowered)
            } else {
                let d = match self.receiver_desc(source, tree, m) {
                    Some(d) => d,
                    None => {
                        return None;
                    },
                };
                proof {
                    lemma_depends(*tree, source@, m as int, d);
                }
                let dependent = if is_new {
                    spells
                } else {
                    type_is_dependent(source, tree, has_templates, m, &d)
                };
                if dependent {
                    return None;
                }
                d
            }
        };
        self.scope.receiver_type(self.index, &desc)
    }
}

} // verus!
