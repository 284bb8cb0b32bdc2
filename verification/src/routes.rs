//! What a call expression calls: a member on a class, a constructor, a functor,
//! or a function by name.

use vstd::prelude::*;

use crate::expr;
use crate::expr::FnNames;
use crate::flows;
use crate::flows::{field_callee_text, Callee};
use crate::hierarchy;
use crate::hierarchy::dispatch_targets;
use crate::infer;
use crate::infer::{class_name_of_desc, member_access_op, Typing};
use crate::ir::{DescView, FnId, TypeDesc};
use crate::lookup;
use crate::lookup::ClassIndex;
use crate::methods;
use crate::methods::{is_likely_macro_callee, MethodKind, MethodView};
use crate::naming;
use crate::normalize;
use crate::normalize::{
    global_lookup_name, last_segment_chars, normalize_qualified, receiver_lookup_name,
    strip_template_args,
};
use crate::parse::node_text;
use crate::spelling;
use crate::scope::NameScope;
use crate::syntax::SyntaxTree;
use crate::text;
use crate::text::{chars_of, ends, holds, part, same, str_eq, string_of};

verus! {

/// What member calls reach through the class hierarchy.
pub struct Dispatch<'a> {
    /// The functions declared virtual.
    pub virtuals: &'a Vec<FnId>,
    /// The functions that a call dispatched on the object may reach, by the
    /// full name of the member.
    pub closures: &'a Vec<(String, Vec<FnId>)>,
}

/// The functions recorded for a member, from position `k`.
pub open spec fn closure_from(v: Seq<(String, Vec<FnId>)>, name: Seq<char>, k: int) -> Seq<FnId>
    decreases v.len() - k,
{
    if k < 0 || k >= v.len() {
        Seq::empty()
    } else if v[k].0@ == name {
        v[k].1@
    } else {
        closure_from(v, name, k + 1)
    }
}

impl<'a> Dispatch<'a> {
    pub open spec fn some_virtual(&self, fns: Seq<FnId>) -> bool {
        exists|k: int| 0 <= k < fns.len() && self.virtuals@.contains(#[trigger] fns[k])
    }

    /// The functions that a call of a member of `cls` may reach: the nearest
    /// declarations up the hierarchy, or, where they are virtual, for a
    /// destructor and where nothing declares the member, what the object's
    /// class says. A constructor that is not in view reaches nothing.
    pub open spec fn targets(&self, x: ClassIndex, cls: Seq<char>, kind: MethodView) -> Seq<FnId> {
        let own = hierarchy::first_members(x, hierarchy::ancestry(x, cls), kind, 0);
        if own.len() == 0 && !(kind is Ctor) || kind is Dtor || own.len() > 0 && self.some_virtual(
            own,
        ) {
            closure_from(self.closures@, methods::member_name(kind, cls), 0)
        } else {
            own
        }
    }

    fn any_virtual(&self, fns: &Vec<FnId>) -> (r: bool)
        ensures
            r == self.some_virtual(fns@),
    {
        let mut k: usize = 0;
        while k < fns.len()
            invariant
                k <= fns@.len(),
                forall|j: int| 0 <= j < k ==> !self.virtuals@.contains(#[trigger] fns@[j]),
            decreases fns@.len() - k,
        {
            if lists_fn(self.virtuals, fns[k]) {
                assert(self.virtuals@.contains(fns@[k as int]));
                return true;
            }
            k += 1;
        }
        false
    }

    fn closure(&self, name: &str) -> (r: Vec<FnId>)
        ensures
            r@ == closure_from(self.closures@, name@, 0),
    {
        let mut k: usize = 0;
        while k < self.closures.len()
            invariant
                k <= self.closures@.len(),
                closure_from(self.closures@, name@, 0) == closure_from(
                    self.closures@,
                    name@,
                    k as int,
                ),
            decreases self.closures@.len() - k,
        {
            if str_eq(self.closures[k].0.as_str(), name) {
                return copy_ids(&self.closures[k].1);
            }
            k += 1;
        }
        Vec::new()
    }

    /// The functions that a call of a member of `cls` may reach.
    pub fn member_targets_upward(&self, index: &ClassIndex, cls: &str, kind: &MethodKind) -> (r: Vec<
        FnId,
    >)
        ensures
            r@ == self.targets(*index, cls@, kind@),
    {
        let own = index.declared_members_upward(cls, kind);
        let any = self.any_virtual(&own);
        let expanded = self.closure(kind.name_on(cls).as_str());
        dispatch_targets(kind, own, any, expanded)
    }
}

fn lists_fn(fns: &Vec<FnId>, f: FnId) -> (r: bool)
    ensures
        r == fns@.contains(f),
{
    let mut k: usize = 0;
    while k < fns.len()
        invariant
            k <= fns@.len(),
            forall|j: int| 0 <= j < k ==> fns@[j] != f,
        decreases fns@.len() - k,
    {
        if fns[k].0 == f.0 {
            assert(fns@[k as int] == f);
            return true;
        }
        k += 1;
    }
    false
}

fn copy_ids(v: &Vec<FnId>) -> (r: Vec<FnId>)
    ensures
        r@ == v@,
{
    let mut out: Vec<FnId> = Vec::new();
    let mut k: usize = 0;
    while k < v.len()
        invariant
            k <= v@.len(),
            out@ == v@.take(k as int),
        decreases v@.len() - k,
    {
        out.push(v[k]);
        k += 1;
        assert(out@ =~= v@.take(k as int));
    }
    assert(out@ =~= v@);
    out
}

/// `name` is the constructor `X::X` of a class spelled with the segment `last`.
pub open spec fn injected(name: Seq<char>, last: Seq<char>) -> bool {
    let tail = "::"@ + last;
    text::ends_with(name, tail) && normalize::last_segment(
        name.take(name.len() - tail.len()),
    ) == last
}

/// The class that the candidates from `k` on construct. A function of the name
/// at the same or a nearer scope hides the class.
pub open spec fn first_constructed(
    x: ClassIndex,
    all: Seq<(Seq<char>, bool)>,
    last: Seq<char>,
    k: int,
) -> Option<Seq<char>>
    decreases all.len() - k,
{
    if k < 0 || k >= all.len() {
        None
    } else if x.spec_function(all[k].0) && !injected(all[k].0, last) {
        None
    } else {
        match lookup::class_named(x, all[k].0) {
            Some(cls) => Some(cls),
            None => first_constructed(x, all, last, k + 1),
        }
    }
}

fn is_injected(name: &[char], last: &[char]) -> (r: bool)
    ensures
        r == injected(name@, last@),
{
    let mut tail = chars_of("::");
    text::append(&mut tail, last);
    if !ends(name, &tail) {
        return false;
    }
    let scope = part(name, 0, name.len() - tail.len());
    assert(scope@ =~= name@.take(name@.len() - tail@.len()));
    same(&last_segment_chars(&scope), last)
}

impl NameScope {
    pub open spec fn spec_constructed(&self, x: ClassIndex, name: Seq<char>) -> Option<Seq<char>> {
        match self.spec_local_alias(name) {
            Some(DescView::Struct { name: tag, .. }) => if x.spec_declared(tag) {
                Some(tag)
            } else {
                None
            },
            _ => first_constructed(
                x,
                self.spec_candidates(x, name),
                normalize::last_segment(name),
                0,
            ),
        }
    }

    /// The class that `name(args)` constructs, found from here.
    pub fn constructed_class_in_scope(&self, index: &ClassIndex, name: &str) -> (r: Option<String>)
        ensures
            match r {
                Some(cls) => self.spec_constructed(*index, name@) == Some(cls@),
                None => self.spec_constructed(*index, name@) is None,
            },
    {
        let spelled = chars_of(name);
        match self.local_alias(&spelled) {
            Some(TypeDesc::Struct { name: tag, fields: _ }) => {
                let own = chars_of(tag.as_str());
                return if index.is_declared(&own) {
                    Some(string_of(&own))
                } else {
                    None
                };
            },
            _ => {},
        }
        let last = last_segment_chars(&spelled);
        let all = self.scope_candidates(index, &spelled);
        let ghost views = lookup::candidate_views(all@);
        let mut k: usize = 0;
        while k < all.len()
            invariant
                k <= all@.len(),
                views == lookup::candidate_views(all@),
                last@ == normalize::last_segment(name@),
                self.spec_constructed(*index, name@) == first_constructed(
                    *index,
                    views,
                    last@,
                    k as int,
                ),
            decreases all@.len() - k,
        {
            assert(views[k as int] == (all@[k as int].0@, all@[k as int].1));
            if index.names_function(&all[k].0) && !is_injected(&all[k].0, &last) {
                return None;
            }
            match index.declared_class_name(&all[k].0) {
                Some(cls) => {
                    return Some(string_of(&cls));
                },
                None => {},
            }
            k += 1;
        }
        None
    }

    /// `T(args)` constructs `T` where `T` has a declared constructor, or is a
    /// class whose body is still being lowered.
    pub open spec fn spec_constructs(&self, x: ClassIndex, spelled: Seq<char>) -> Option<Seq<char>> {
        match self.spec_constructed(x, spelled) {
            Some(cls) if x.spec_function(methods::member_name(MethodView::Ctor, cls))
                || spelling::views(self.type_scope@).contains(cls) => Some(cls),
            _ => None,
        }
    }

    /// The class that a call spelled `T(args)` constructs.
    pub fn constructed_class(&self, index: &ClassIndex, spelled: &str) -> (r: Option<String>)
        ensures
            match r {
                Some(cls) => self.spec_constructs(*index, spelled@) == Some(cls@),
                None => self.spec_constructs(*index, spelled@) is None,
            },
    {
        match self.constructed_class_in_scope(index, spelled) {
            Some(cls) => {
                let ctor = MethodKind::Ctor.name_on(cls.as_str());
                if index.names_function(&chars_of(ctor.as_str())) || lists_text(
                    &self.type_scope,
                    cls.as_str(),
                ) {
                    Some(cls)
                } else {
                    None
                }
            },
            None => None,
        }
    }
}

fn lists_text(v: &Vec<String>, name: &str) -> (r: bool)
    ensures
        r == spelling::views(v@).contains(name@),
{
    let mut k: usize = 0;
    while k < v.len()
        invariant
            k <= v@.len(),
            forall|j: int| 0 <= j < k ==> #[trigger] spelling::views(v@)[j] != name@,
        decreases v@.len() - k,
    {
        assert(spelling::views(v@)[k as int] == v@[k as int]@);
        if str_eq(v[k].as_str(), name) {
            return true;
        }
        k += 1;
    }
    false
}

/// What a call expression calls.
#[derive(Debug, PartialEq, Eq)]
pub enum Route {
    Nothing,
    /// A member that the index cannot name, recorded as it is spelled.
    Unresolved { name: String, cls: String },
    /// A member of a class, with the functions the call may reach.
    Member { cls: String, kind: MethodKind, targets: Vec<FnId> },
    /// A function by its name, or something indirect.
    Free { func: usize },
}

pub enum RouteView {
    Nothing,
    Unresolved { name: Seq<char>, cls: Seq<char> },
    Member { cls: Seq<char>, kind: MethodView, targets: Seq<FnId> },
    Free { func: usize },
}

impl Route {
    pub open spec fn view(&self) -> RouteView {
        match self {
            Route::Nothing => RouteView::Nothing,
            Route::Unresolved { name, cls } => RouteView::Unresolved { name: name@, cls: cls@ },
            Route::Member { cls, kind, targets } => RouteView::Member {
                cls: cls@,
                kind: kind@,
                targets: targets@,
            },
            Route::Free { func } => RouteView::Free { func: *func },
        }
    }
}

/// The name of the call operator.
pub open spec fn call_operator() -> MethodView {
    MethodView::Named("operator()"@)
}

/// Nodes that can name a member after `.` or `->`.
pub open spec fn names_member(kind: Seq<char>) -> bool {
    kind == "field_identifier"@ || kind == "destructor_name"@ || kind == "template_type"@ || kind
        == "template_method"@
}

/// A node's text as a member is looked up by it.
pub open spec fn member_text(t: SyntaxTree, source: Seq<char>, n: int) -> Seq<char> {
    normalize::without_arguments(normalize::qualified_text(t.text(source, n)))
}

/// The call reaches a member whose class is known, on a receiver of the class
/// `recv_cls`; `None` where a data member is called.
pub open spec fn member_route(
    ty: Typing,
    d: Dispatch,
    t: SyntaxTree,
    source: Seq<char>,
    func: int,
    recv: int,
    field: int,
    recv_cls: Seq<char>,
) -> Option<RouteView> {
    let found = if infer::by_arrow(t, func) {
        infer::member_class(ty, t, source, recv, true)
    } else {
        Some(recv_cls)
    };
    match found {
        None => Some(
            RouteView::Unresolved {
                name: flows::access_text(t, source, expr::peeled(t, func)),
                cls: recv_cls,
            },
        ),
        Some(spelled) => {
            let cls = normalize::without_arguments(spelled);
            let short = member_text(t, source, field);
            let kind = if t.spec_kind(field) == "destructor_name"@ {
                MethodView::Dtor
            } else {
                MethodView::Named(short)
            };
            let targets = d.targets(*ty.index, cls, kind);
            if targets.len() > 0 {
                Some(RouteView::Member { cls, kind, targets })
            } else if functor(ty, d, t, source, func) is Some {
                functor(ty, d, t, source, func)
            } else if ty.member_desc(cls, short) is Some {
                None
            } else {
                Some(RouteView::Unresolved { name: methods::member_name(kind, cls), cls })
            }
        },
    }
}

/// `h->cb()` where `cb` is an object with a call operator.
pub open spec fn functor(
    ty: Typing,
    d: Dispatch,
    t: SyntaxTree,
    source: Seq<char>,
    func: int,
) -> Option<RouteView> {
    match infer::static_class(ty, t, source, func) {
        Some(spelled) => {
            let cls = normalize::without_arguments(spelled);
            let targets = d.targets(*ty.index, cls, call_operator());
            if targets.len() > 0 {
                Some(RouteView::Member { cls, kind: call_operator(), targets })
            } else {
                None
            }
        },
        None => None,
    }
}

/// `method(args)` inside a member is `this->method(args)`.
pub open spec fn implicit_route(
    ty: Typing,
    d: Dispatch,
    t: SyntaxTree,
    source: Seq<char>,
    func: int,
) -> Option<RouteView> {
    match ty.this_class() {
        Some(spelled) if t.spec_kind(func) == "identifier"@ => {
            let cls = normalize::without_arguments(spelled);
            let short = member_text(t, source, func);
            let targets = d.targets(*ty.index, cls, MethodView::Named(short));
            if ty.vars.spec_var(short) is None && targets.len() > 0 {
                Some(RouteView::Member { cls, kind: MethodView::Named(short), targets })
            } else {
                None
            }
        },
        _ => None,
    }
}

/// A member of the class found under its lookup name.
pub open spec fn sites_on(ty: Typing, d: Dispatch, spelled: Seq<char>, kind: MethodView) -> RouteView {
    let cls = normalize::without_arguments(spelled);
    RouteView::Member { cls, kind, targets: d.targets(*ty.index, cls, kind) }
}

/// `T(args)` constructs a class, `f(args)` calls an object's call operator.
pub open spec fn object_route(
    ty: Typing,
    d: Dispatch,
    t: SyntaxTree,
    source: Seq<char>,
    func: int,
) -> Option<RouteView> {
    let spelled = normalize::qualified_text(t.text(source, func));
    match ty.vars.spec_var(spelled) {
        None => match ty.scope.spec_constructs(*ty.index, spelled) {
            Some(cls) => Some(sites_on(ty, d, cls, MethodView::Ctor)),
            None => None,
        },
        Some(v) => match infer::opt_class(infer::var_desc(ty.var_types@, v, 0)) {
            Some(cls) if t.spec_kind(func) == "identifier"@ && d.targets(
                *ty.index,
                cls,
                call_operator(),
            ).len() > 0 => Some(sites_on(ty, d, cls, call_operator())),
            _ => None,
        },
    }
}

/// What the call at `n` calls.
pub open spec fn route_of(
    ty: Typing,
    d: Dispatch,
    t: SyntaxTree,
    source: Seq<char>,
    n: int,
) -> RouteView {
    match t.fielded(n, "function"@) {
        None => RouteView::Nothing,
        Some(func) => {
            let kind = t.spec_kind(func as int);
            let found = if !ty.scope.is_cpp {
                None
            } else if kind == "field_expression"@ {
                field_route(ty, d, t, source, func as int)
            } else if kind == "identifier"@ || kind == "qualified_identifier"@ {
                match implicit_route(ty, d, t, source, func as int) {
                    Some(r) => Some(r),
                    None => object_route(ty, d, t, source, func as int),
                }
            } else {
                None
            };
            match found {
                Some(r) => r,
                None => RouteView::Free { func },
            }
        },
    }
}

/// A call through a member access.
pub open spec fn field_route(
    ty: Typing,
    d: Dispatch,
    t: SyntaxTree,
    source: Seq<char>,
    func: int,
) -> Option<RouteView> {
    let accesses = infer::by_arrow(t, func) || t.of_kind(func, "."@) is Some;
    match (t.fielded(func, "field"@), t.fielded(func, "argument"@)) {
        (Some(field), Some(recv)) if accesses && names_member(t.spec_kind(field as int)) => {
            match infer::static_class(ty, t, source, recv as int) {
                Some(cls) => member_route(
                    ty,
                    d,
                    t,
                    source,
                    func,
                    recv as int,
                    field as int,
                    cls,
                ),
                None => None,
            }
        },
        _ => None,
    }
}

pub open spec fn opt_route(r: Option<Route>) -> Option<RouteView> {
    match r {
        Some(r) => Some(r@),
        None => None,
    }
}

impl<'a> Typing<'a> {
    fn functor_member(&self, d: &Dispatch, source: &str, tree: &SyntaxTree, func: usize) -> (r:
        Option<Route>)
        requires
            self.vars.wf(),
            tree.fits(source@),
            func < tree.len(),
        ensures
            opt_route(r) == functor(*self, *d, *tree, source@, func as int),
    {
        match self.infer_static_class(source, tree, func) {
            Some(spelled) => {
                let cls = receiver_lookup_name(spelled.as_str());
                let kind = MethodKind::Named("operator()".to_owned());
                assert(kind@ == call_operator());
                let targets = d.member_targets_upward(self.index, cls.as_str(), &kind);
                if targets.len() > 0 {
                    Some(Route::Member { cls, kind, targets })
                } else {
                    None
                }
            },
            None => None,
        }
    }

    fn member_call(
        &self,
        d: &Dispatch,
        source: &str,
        tree: &SyntaxTree,
        func: usize,
        recv: usize,
        field: usize,
        recv_cls: String,
    ) -> (r: Option<Route>)
        requires
            self.vars.wf(),
            tree.fits(source@),
            func < tree.len(),
            recv < tree.len(),
            field < tree.len(),
        ensures
            opt_route(r) == member_route(
                *self,
                *d,
                *tree,
                source@,
                func as int,
                recv as int,
                field as int,
                recv_cls@,
            ),
    {
        let spelled = if member_access_op(tree, func).1 {
            match self.member_receiver_class(source, tree, recv, true) {
                Some(cls) => cls,
                None => {
                    return Some(
                        Route::Unresolved {
                            name: field_callee_text(source, tree, func),
                            cls: recv_cls,
                        },
                    );
                },
            }
        } else {
            recv_cls
        };
        let cls = receiver_lookup_name(spelled.as_str());
        let short = strip_template_args(normalize_qualified(node_text(source, tree, field)).as_str());
        let kind = if tree.kind_is(field, "destructor_name") {
            MethodKind::Dtor
        } else {
            MethodKind::Named(string_of(&chars_of(short.as_str())))
        };
        let targets = d.member_targets_upward(self.index, cls.as_str(), &kind);
        if targets.len() > 0 {
            return Some(Route::Member { cls, kind, targets });
        }
        match self.functor_member(d, source, tree, func) {
            Some(r) => {
                return Some(r);
            },
            None => {},
        }
        if self.index.class_field_desc(cls.as_str(), short.as_str()).is_some() {
            None
        } else {
            Some(Route::Unresolved { name: kind.name_on(cls.as_str()), cls })
        }
    }

    fn field_call(&self, d: &Dispatch, source: &str, tree: &SyntaxTree, func: usize) -> (r: Option<
        Route,
    >)
        requires
            self.vars.wf(),
            tree.fits(source@),
            func < tree.len(),
        ensures
            opt_route(r) == field_route(*self, *d, *tree, source@, func as int),
    {
        let accesses = member_access_op(tree, func).0;
        let field = match tree.child_by_field_name(func, "field") {
            Some(c) => c,
            None => {
                return None;
            },
        };
        let recv = match tree.child_by_field_name(func, "argument") {
            Some(c) => c,
            None => {
                return None;
            },
        };
        if !accesses || !(tree.kind_is(field, "field_identifier") || tree.kind_is(
            field,
            "destructor_name",
        ) || tree.kind_is(field, "template_type") || tree.kind_is(field, "template_method")) {
            return None;
        }
        match self.infer_static_class(source, tree, recv) {
            Some(cls) => self.member_call(d, source, tree, func, recv, field, cls),
            None => None,
        }
    }

    fn implicit_call(&self, d: &Dispatch, source: &str, tree: &SyntaxTree, func: usize) -> (r:
        Option<Route>)
        requires
            self.vars.wf(),
            tree.fits(source@),
            func < tree.len(),
        ensures
            opt_route(r) == implicit_route(*self, *d, *tree, source@, func as int),
    {
        if !tree.kind_is(func, "identifier") {
            return None;
        }
        match &self.scope.class_ctx {
            Some(spelled) => {
                let cls = receiver_lookup_name(spelled.as_str());
                let short = strip_template_args(
                    normalize_qualified(node_text(source, tree, func)).as_str(),
                );
                if self.vars.lookup_var(short.as_str()).is_some() {
                    return None;
                }
                let kind = MethodKind::Named(short);
                let targets = d.member_targets_upward(self.index, cls.as_str(), &kind);
                if targets.len() > 0 {
                    Some(Route::Member { cls, kind, targets })
                } else {
                    None
                }
            },
            None => None,
        }
    }

    fn on_class(&self, d: &Dispatch, spelled: &str, kind: MethodKind) -> (r: Route)
        ensures
            r@ == sites_on(*self, *d, spelled@, kind@),
    {
        let cls = receiver_lookup_name(spelled);
        let targets = d.member_targets_upward(self.index, cls.as_str(), &kind);
        Route::Member { cls, kind, targets }
    }

    fn object_call(&self, d: &Dispatch, source: &str, tree: &SyntaxTree, func: usize) -> (r: Option<
        Route,
    >)
        requires
            self.vars.wf(),
            tree.fits(source@),
            func < tree.len(),
        ensures
            opt_route(r) == object_route(*self, *d, *tree, source@, func as int),
    {
        let spelled = normalize_qualified(node_text(source, tree, func));
        match self.vars.lookup_var(spelled.as_str()) {
            None => match self.scope.constructed_class(self.index, spelled.as_str()) {
                Some(cls) => Some(self.on_class(d, cls.as_str(), MethodKind::Ctor)),
                None => None,
            },
            Some(v) => {
                if !tree.kind_is(func, "identifier") {
                    return None;
                }
                let cls = match self.find_var(v) {
                    Some(desc) => match class_name_of_desc(desc) {
                        Some(cls) => cls,
                        None => {
                            return None;
                        },
                    },
                    None => {
                        return None;
                    },
                };
                let kind = MethodKind::Named("operator()".to_owned());
                assert(kind@ == call_operator());
                let targets = d.member_targets_upward(self.index, cls.as_str(), &kind);
                if targets.len() > 0 {
                    Some(self.on_class(d, cls.as_str(), kind))
                } else {
                    None
                }
            },
        }
    }

    /// What a call expression calls. A member call with a statically typed
    /// receiver reaches the member of its class; a bare name inside a member
    /// is an implicit `this->`; a class name constructs, and an object with a
    /// call operator is called. Anything else is a call by name or through a
    /// pointer.
    pub fn call_route(&self, d: &Dispatch, source: &str, tree: &SyntaxTree, call: usize) -> (r: Route)
        requires
            self.vars.wf(),
            tree.fits(source@),
            call < tree.len(),
        ensures
            r@ == route_of(*self, *d, *tree, source@, call as int),
    {
        let func = match tree.child_by_field_name(call, "function") {
            Some(f) => f,
            None => {
                return Route::Nothing;
            },
        };
        if self.scope.is_cpp {
            if tree.kind_is(func, "field_expression") {
                match self.field_call(d, source, tree, func) {
                    Some(r) => {
                        return r;
                    },
                    None => {},
                }
            } else if tree.kind_is(func, "identifier") || tree.kind_is(
                func,
                "qualified_identifier",
            ) {
                match self.implicit_call(d, source, tree, func) {
                    Some(r) => {
                        return r;
                    },
                    None => {},
                }
                match self.object_call(d, source, tree, func) {
                    Some(r) => {
                        return r;
                    },
                    None => {},
                }
            }
        }
        Route::Free { func }
    }
}

/// The callee of a call by name, if it is one: text with a quote in it is an
/// artifact of a macro, and so is a name in capitals that nothing declares.
pub open spec fn settled_callee(f: FnNames, c: flows::CalleeView) -> Option<flows::CalleeView> {
    let direct = c.is_direct || c.var is None && f.spec_named(
        normalize::after_prefix(c.name, "::"@),
    ) is Some;
    if text::contains(c.name, "\""@) || !direct && methods::macro_name(c.name) {
        None
    } else {
        Some(flows::CalleeView { name: c.name, is_direct: direct, var: c.var })
    }
}

/// Settle the callee of a call by name: a name that a function bears is called
/// directly, and what only a macro can have spelled is no call.
pub fn settle_callee(fns: &FnNames, callee: Callee) -> (r: Option<Callee>)
    ensures
        match r {
            Some(c) => settled_callee(*fns, callee@) == Some(c@),
            None => settled_callee(*fns, callee@) is None,
        },
{
    if holds(&chars_of(callee.name.as_str()), &chars_of("\"")) {
        return None;
    }
    let mut is_direct = callee.is_direct;
    if !is_direct && callee.var.is_none() {
        is_direct =
        fns.resolve_function_named(global_lookup_name(callee.name.as_str()).as_str()).is_some();
    }
    if !is_direct && is_likely_macro_callee(callee.name.as_str()) {
        return None;
    }
    Some(Callee { name: callee.name, is_direct, var: callee.var })
}

/// A member access whose arrow names no class is recorded as it is spelled,
/// with the arrow in its name: no callee is invented on the wrapper.
pub proof fn law_unnamed_arrows_stay_unresolved(
    ty: Typing,
    d: Dispatch,
    t: SyntaxTree,
    source: Seq<char>,
    call: int,
    func: usize,
    recv: usize,
    field: usize,
)
    requires
        t.wf(),
        0 <= call < t.len(),
        ty.scope.is_cpp,
        t.fielded(call, "function"@) == Some(func),
        t.spec_kind(func as int) == "field_expression"@,
        infer::by_arrow(t, func as int),
        t.fielded(func as int, "field"@) == Some(field),
        t.fielded(func as int, "argument"@) == Some(recv),
        names_member(t.spec_kind(field as int)),
        infer::static_class(ty, t, source, recv as int) is Some,
        infer::member_class(ty, t, source, recv as int, true) is None,
    ensures
        route_of(ty, d, t, source, call) matches RouteView::Unresolved { name, cls }
            && text::contains(name, "->"@) && Some(cls) == infer::static_class(
            ty,
            t,
            source,
            recv as int,
        ),
{
    t.lemma_fielded(call, "function"@);
    reveal_strlit("field_expression");
    reveal_strlit("parenthesized_expression");
    assert("field_expression"@.len() != "parenthesized_expression"@.len());
    assert(expr::peeled(t, func as int) == func as int);
    t.lemma_fielded(func as int, "argument"@);
    let inner = flows::access_text(t, source, recv as int);
    let name = flows::access_text(t, source, func as int);
    let tail = t.text(source, field as int);
    assert(name == inner + "->"@ + tail);
    reveal_strlit("->");
    let from = inner.len() as int;
    assert(name.subrange(from, from + "->"@.len()) =~= "->"@);
    assert(text::has_at(name, "->"@, inner.len() as int));
}

/// Nodes that name what a member initializer initializes.
pub open spec fn names_field(kind: Seq<char>) -> bool {
    kind == "field_identifier"@ || kind == "identifier"@
}

/// The lists that a member initializer takes its values from.
pub open spec fn lists_values(kind: Seq<char>) -> bool {
    kind == "argument_list"@ || kind == "initializer_list"@
}

/// The first child of `n`, from position `k`, that names a field.
pub open spec fn field_node_from(t: SyntaxTree, n: int, k: int) -> Option<usize>
    decreases t.children(n).len() - k,
{
    if k < 0 || k >= t.children(n).len() {
        None
    } else if names_field(t.spec_kind(t.children(n)[k] as int)) {
        Some(t.children(n)[k])
    } else {
        field_node_from(t, n, k + 1)
    }
}

/// The first child of `n`, from position `k`, that lists values.
pub open spec fn values_node_from(t: SyntaxTree, n: int, k: int) -> Option<usize>
    decreases t.children(n).len() - k,
{
    if k < 0 || k >= t.children(n).len() {
        None
    } else if lists_values(t.spec_kind(t.children(n)[k] as int)) {
        Some(t.children(n)[k])
    } else {
        values_node_from(t, n, k + 1)
    }
}

/// The first of the bases, from position `k`, whose last segment is `name`.
pub open spec fn base_called(bases: Seq<Seq<char>>, name: Seq<char>, k: int) -> Option<Seq<char>>
    decreases bases.len() - k,
{
    if k < 0 || k >= bases.len() {
        None
    } else if normalize::last_segment(bases[k]) == name {
        Some(bases[k])
    } else {
        base_called(bases, name, k + 1)
    }
}

/// The class that an initializer called `name` in a constructor of `cls`
/// constructs: a direct base, else the class of a data member.
pub open spec fn initialized_class(x: ClassIndex, cls: Seq<char>, name: Seq<char>) -> Option<
    Seq<char>,
> {
    match base_called(x.spec_bases(cls), name, 0) {
        Some(base) => Some(base),
        None => match hierarchy::own_field(x, cls, name) {
            Some(DescView::Struct { name: tag, .. }) => Some(tag),
            _ => None,
        },
    }
}

/// What one entry of a member-initializer list constructs.
#[derive(Debug, PartialEq, Eq)]
pub struct MemberInit {
    pub node: usize,
    pub cls: String,
    pub values: Option<usize>,
}

pub struct MemberInitView {
    pub node: usize,
    pub cls: Seq<char>,
    pub values: Option<usize>,
}

impl MemberInit {
    pub open spec fn view(&self) -> MemberInitView {
        MemberInitView { node: self.node, cls: self.cls@, values: self.values }
    }
}

pub open spec fn init_views(v: Seq<MemberInit>) -> Seq<MemberInitView> {
    Seq::new(v.len(), |i: int| v[i]@)
}

/// What the initializer at `c` constructs.
pub open spec fn initialized(
    x: ClassIndex,
    t: SyntaxTree,
    source: Seq<char>,
    cls: Seq<char>,
    c: usize,
) -> Option<MemberInitView> {
    if t.spec_kind(c as int) != "field_initializer"@ {
        None
    } else {
        match field_node_from(t, c as int, 0) {
            Some(name) => match initialized_class(
                x,
                cls,
                normalize::qualified_text(t.text(source, name as int)),
            ) {
                Some(own) => Some(
                    MemberInitView {
                        node: c,
                        cls: own,
                        values: values_node_from(t, c as int, 0),
                    },
                ),
                None => None,
            },
            None => None,
        }
    }
}

/// What the first `k` entries of a member-initializer list construct.
pub open spec fn initialized_upto(
    x: ClassIndex,
    t: SyntaxTree,
    source: Seq<char>,
    cls: Seq<char>,
    n: int,
    k: int,
) -> Seq<MemberInitView>
    decreases k,
{
    if k <= 0 {
        Seq::empty()
    } else {
        let before = initialized_upto(x, t, source, cls, n, k - 1);
        match initialized(x, t, source, cls, t.children(n)[k - 1]) {
            Some(i) => before.push(i),
            None => before,
        }
    }
}

fn field_node(tree: &SyntaxTree, n: usize) -> (r: Option<usize>)
    requires
        tree.wf(),
        n < tree.len(),
    ensures
        r == field_node_from(*tree, n as int, 0),
        r matches Some(c) ==> c < tree.len(),
{
    let mut k: usize = 0;
    while k < tree.kids[n].len()
        invariant
            tree.wf(),
            n < tree.len(),
            k <= tree.children(n as int).len(),
            field_node_from(*tree, n as int, 0) == field_node_from(*tree, n as int, k as int),
        decreases tree.children(n as int).len() - k,
    {
        let c = tree.kids[n][k];
        assert(c == tree.children(n as int)[k as int]);
        if tree.kind_is(c, "field_identifier") || tree.kind_is(c, "identifier") {
            return Some(c);
        }
        k += 1;
    }
    None
}

fn values_node(tree: &SyntaxTree, n: usize) -> (r: Option<usize>)
    requires
        tree.wf(),
        n < tree.len(),
    ensures
        r == values_node_from(*tree, n as int, 0),
{
    let mut k: usize = 0;
    while k < tree.kids[n].len()
        invariant
            tree.wf(),
            n < tree.len(),
            k <= tree.children(n as int).len(),
            values_node_from(*tree, n as int, 0) == values_node_from(*tree, n as int, k as int),
        decreases tree.children(n as int).len() - k,
    {
        let c = tree.kids[n][k];
        assert(c == tree.children(n as int)[k as int]);
        if tree.kind_is(c, "argument_list") || tree.kind_is(c, "initializer_list") {
            return Some(c);
        }
        k += 1;
    }
    None
}

fn find_initialized(index: &ClassIndex, cls: &str, name: &str) -> (r: Option<String>)
    ensures
        match r {
            Some(own) => initialized_class(*index, cls@, name@) == Some(own@),
            None => initialized_class(*index, cls@, name@) is None,
        },
{
    let spelled = chars_of(cls);
    let wanted = chars_of(name);
    let bases = index.base_names(&spelled);
    let ghost all = naming::piece_views(bases@);
    let mut k: usize = 0;
    while k < bases.len()
        invariant
            k <= bases@.len(),
            all == naming::piece_views(bases@),
            wanted@ == name@,
            all == index.spec_bases(cls@),
            base_called(all, name@, 0) == base_called(all, name@, k as int),
        decreases bases@.len() - k,
    {
        assert(all[k as int] == bases@[k as int]@);
        if same(&last_segment_chars(&bases[k]), &wanted) {
            return Some(string_of(&bases[k]));
        }
        k += 1;
    }
    match index.own_field_desc(&spelled, name) {
        Some(TypeDesc::Struct { name: tag, fields: _ }) => Some(tag),
        _ => None,
    }
}

fn initializer(index: &ClassIndex, source: &str, tree: &SyntaxTree, cls: &str, c: usize) -> (r:
    Option<MemberInit>)
    requires
        tree.fits(source@),
        c < tree.len(),
    ensures
        match r {
            Some(i) => initialized(*index, *tree, source@, cls@, c) == Some(i@),
            None => initialized(*index, *tree, source@, cls@, c) is None,
        },
{
    if !tree.kind_is(c, "field_initializer") {
        return None;
    }
    match field_node(tree, c) {
        Some(name) => {
            let text = normalize_qualified(node_text(source, tree, name));
            match find_initialized(index, cls, text.as_str()) {
                Some(own) => Some(
                    MemberInit { node: c, cls: own, values: values_node(tree, c) },
                ),
                None => None,
            }
        },
        None => None,
    }
}

/// What a constructor's member-initializer list constructs:
/// `Derived() : Base(1, 2), sub_(3) {}`. A name that a direct base bears
/// constructs that base, any other the class of the data member.
pub fn field_initializers(
    index: &ClassIndex,
    source: &str,
    tree: &SyntaxTree,
    cls: &str,
    node: usize,
) -> (r: Vec<MemberInit>)
    requires
        tree.fits(source@),
        node < tree.len(),
    ensures
        init_views(r@) == initialized_upto(
            *index,
            *tree,
            source@,
            cls@,
            node as int,
            tree.children(node as int).len() as int,
        ),
{
    let mut out: Vec<MemberInit> = Vec::new();
    let mut k: usize = 0;
    assert(init_views(out@) =~= Seq::empty());
    while k < tree.kids[node].len()
        invariant
            tree.fits(source@),
            node < tree.len(),
            k <= tree.children(node as int).len(),
            init_views(out@) == initialized_upto(
                *index,
                *tree,
                source@,
                cls@,
                node as int,
                k as int,
            ),
        decreases tree.children(node as int).len() - k,
    {
        let c = tree.kids[node][k];
        assert(c == tree.children(node as int)[k as int]);
        match initializer(index, source, tree, cls, c) {
            Some(i) => {
                let ghost before = init_views(out@);
                let ghost own = i@;
                out.push(i);
                assert(init_views(out@) =~= before.push(own));
            },
            None => {},
        }
        k += 1;
    }
    out
}

} // verus!
