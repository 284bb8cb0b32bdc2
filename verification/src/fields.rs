//! Member paths: which fields an access goes through, and the objects that
//! overloaded arrows cross into.

use vstd::prelude::*;

use crate::arrows;
use crate::arrows::{declares_arrow, deref_desc, is_undefined_wrapper, resolve_operator_arrow};
use crate::expr;
use crate::expr::{op_is, peel_expression, pointer_arg};
use crate::infer;
use crate::infer::{member_access_op, Typing};
use crate::ir::{copy_desc, struct_named, DescView, FieldId, TypeDesc, VarId};
use crate::normalize;
use crate::normalize::{arguments_stripped, is_std_smart_ptr_name};
use crate::parse::node_text;
use crate::spelling;
use crate::syntax::SyntaxTree;
use crate::text::{chars_of, str_eq, string_of};
use crate::types;

verus! {

/// A field of an aggregate's layout.
#[derive(Debug, PartialEq, Eq)]
pub struct FieldLayout {
    pub id: FieldId,
    pub name: String,
    pub desc: TypeDesc,
}

/// The layout of the aggregate with a tag.
#[derive(Debug, PartialEq, Eq)]
pub struct Layout {
    pub tag: String,
    pub is_union: bool,
    pub fields: Vec<FieldLayout>,
}

/// The layouts of the aggregates that have one.
#[derive(Debug, PartialEq, Eq)]
pub struct Layouts {
    pub all: Vec<Layout>,
}

/// The fields of the aggregate with a tag, from position `k` of the table.
pub open spec fn layout_from(all: Seq<Layout>, tag: Seq<char>, is_union: bool, k: int) -> Seq<
    FieldLayout,
>
    decreases all.len() - k,
{
    if k < 0 || k >= all.len() {
        Seq::empty()
    } else if all[k].tag@ == tag && all[k].is_union == is_union {
        all[k].fields@
    } else {
        layout_from(all, tag, is_union, k + 1)
    }
}

/// The first field of that name, from position `k`.
pub open spec fn field_named(fields: Seq<FieldLayout>, name: Seq<char>, k: int) -> Option<
    (FieldId, DescView),
>
    decreases fields.len() - k,
{
    if k < 0 || k >= fields.len() {
        None
    } else if fields[k].name@ == name {
        Some((fields[k].id, fields[k].desc@))
    } else {
        field_named(fields, name, k + 1)
    }
}

impl Layouts {
    /// The fields of a type.
    pub open spec fn fields_of(&self, d: DescView) -> Seq<FieldLayout> {
        match d {
            DescView::Struct { name, .. } => layout_from(self.all@, name, false, 0),
            DescView::Union { name, .. } => layout_from(self.all@, name, true, 0),
            _ => Seq::empty(),
        }
    }

    pub open spec fn member(&self, d: DescView, name: Seq<char>) -> Option<(FieldId, DescView)> {
        field_named(self.fields_of(d), name, 0)
    }

    fn find_layout(&self, tag: &str, is_union: bool) -> (r: Option<&Vec<FieldLayout>>)
        ensures
            match r {
                Some(f) => f@ == layout_from(self.all@, tag@, is_union, 0),
                None => layout_from(self.all@, tag@, is_union, 0) =~= Seq::empty(),
            },
    {
        let mut k: usize = 0;
        while k < self.all.len()
            invariant
                k <= self.all@.len(),
                layout_from(self.all@, tag@, is_union, 0) == layout_from(
                    self.all@,
                    tag@,
                    is_union,
                    k as int,
                ),
            decreases self.all@.len() - k,
        {
            if str_eq(self.all[k].tag.as_str(), tag) && self.all[k].is_union == is_union {
                return Some(&self.all[k].fields);
            }
            k += 1;
        }
        None
    }

    /// The fields of a type in their order.
    pub fn fields(&self, d: &TypeDesc) -> (r: Option<&Vec<FieldLayout>>)
        ensures
            match r {
                Some(f) => f@ == self.fields_of(d@),
                None => self.fields_of(d@) =~= Seq::empty(),
            },
    {
        match d {
            TypeDesc::Struct { name, fields: _ } => self.find_layout(name.as_str(), false),
            TypeDesc::Union { name, fields: _ } => self.find_layout(name.as_str(), true),
            _ => None,
        }
    }

    /// The field of a type that bears a name, and its type.
    pub fn find_member(&self, d: &TypeDesc, name: &str) -> (r: Option<(FieldId, TypeDesc)>)
        ensures
            match r {
                Some((id, f)) => self.member(d@, name@) == Some((id, f@)),
                None => self.member(d@, name@) is None,
            },
    {
        let fields = match self.fields(d) {
            Some(f) => f,
            None => {
                return None;
            },
        };
        let mut k: usize = 0;
        while k < fields.len()
            invariant
                k <= fields@.len(),
                fields@ == self.fields_of(d@),
                self.member(d@, name@) == field_named(fields@, name@, k as int),
            decreases fields@.len() - k,
        {
            if str_eq(fields[k].name.as_str(), name) {
                return Some((fields[k].id, copy_desc(&fields[k].desc)));
            }
            k += 1;
        }
        None
    }
}

/// The type that a variable's members are looked up on: through at most `n`
/// pointer and array layers.
pub open spec fn aggregate(d: DescView, n: nat) -> DescView
    decreases n,
{
    if n == 0 {
        d
    } else {
        match d {
            DescView::Ptr(inner) => aggregate(*inner, (n - 1) as nat),
            DescView::Array { elem, .. } => aggregate(*elem, (n - 1) as nat),
            _ => d,
        }
    }
}

/// How many pointer and array layers a member lookup goes through.
pub const MAX_LAYERS: usize = 4;

fn peel_layers(d: &TypeDesc, n: usize) -> (r: TypeDesc)
    ensures
        r@ == aggregate(d@, n as nat),
    decreases n,
{
    if n == 0 {
        return copy_desc(d);
    }
    match d {
        TypeDesc::Ptr(inner) => peel_layers(inner, n - 1),
        TypeDesc::Array { elem, size: _ } => peel_layers(elem, n - 1),
        _ => copy_desc(d),
    }
}

/// The type that the members of a variable of the type are looked up on.
pub fn struct_type_for_var(d: &TypeDesc) -> (r: TypeDesc)
    ensures
        r@ == aggregate(d@, MAX_LAYERS as nat),
{
    peel_layers(d, MAX_LAYERS)
}

/// The type without one pointer layer.
pub open spec fn unpointed(d: DescView) -> DescView {
    match d {
        DescView::Ptr(inner) => *inner,
        _ => d,
    }
}

fn peel_ptr_to_struct(d: &TypeDesc) -> (r: TypeDesc)
    ensures
        r@ == unpointed(d@),
{
    match d {
        TypeDesc::Ptr(inner) => copy_desc(inner),
        _ => copy_desc(d),
    }
}

fn is_pointer(d: &TypeDesc) -> (r: bool)
    ensures
        r == (d@ is Ptr),
{
    match d {
        TypeDesc::Ptr(_) => true,
        _ => false,
    }
}

/// The other class that an overloaded arrow on a class steps to, where that
/// class is in the index.
pub open spec fn pointee_of(ty: Typing, d: DescView) -> Option<Seq<char>> {
    match d {
        DescView::Struct { name, .. } => {
            let cls = normalize::without_arguments(name);
            let wraps = arrows::undefined_wrapper(*ty.index, name, cls)
                || normalize::smart_ptr_name(cls) || arrows::has_arrow(
                *ty.index,
                ty.arrows@,
                cls,
            );
            match arrows::spec_arrow_class(*ty.index, ty.arrows@, types::class_desc(name)) {
                Some(own) if name.len() > 0 && wraps && ty.index.spec_typed(own) is Some && own
                    != name => Some(own),
                _ => None,
            }
        },
        _ => None,
    }
}

/// The names of a member path from its base on, each with whether an arrow
/// stands before it, and the base expression.
pub open spec fn path_names(t: SyntaxTree, source: Seq<char>, n: int) -> Option<
    (Seq<(Seq<char>, bool)>, int),
>
    decreases t.len() - n,
    when t.wf() && 0 <= n < t.len()
    via path_names_decreases
{
    let m = expr::peeled(t, n);
    if t.spec_kind(m) == "field_expression"@ {
        match (t.fielded(m, "field"@), t.fielded(m, "argument"@)) {
            (Some(f), Some(arg)) => match path_names(t, source, arg as int) {
                Some((names, base)) => Some(
                    (names.push((t.text(source, f as int), infer::by_arrow(t, m))), base),
                ),
                None => None,
            },
            _ => None,
        }
    } else {
        Some((Seq::empty(), m))
    }
}

#[via_fn]
proof fn path_names_decreases(t: SyntaxTree, source: Seq<char>, n: int) {
    expr::lemma_peeled(t, n);
    t.lemma_fielded(expr::peeled(t, n), "argument"@);
}

/// One name of a member path.
pub struct PathName {
    pub name: String,
    pub arrow: bool,
}

pub open spec fn name_views(v: Seq<PathName>) -> Seq<(Seq<char>, bool)> {
    Seq::new(v.len(), |i: int| (v[i].name@, v[i].arrow))
}

fn collect_names(source: &str, tree: &SyntaxTree, node: usize) -> (r: Option<(Vec<PathName>, usize)>)
    requires
        tree.fits(source@),
        node < tree.len(),
    ensures
        match r {
            Some((names, base)) => path_names(*tree, source@, node as int) == Some(
                (name_views(names@), base as int),
            ) && base < tree.len(),
            None => path_names(*tree, source@, node as int) is None,
        },
    decreases tree.len() - node,
{
    let m = peel_expression(tree, node);
    if !tree.kind_is(m, "field_expression") {
        let none: Vec<PathName> = Vec::new();
        assert(name_views(none@) =~= Seq::empty());
        return Some((none, m));
    }
    let f = match tree.child_by_field_name(m, "field") {
        Some(c) => c,
        None => {
            return None;
        },
    };
    let arg = match tree.child_by_field_name(m, "argument") {
        Some(c) => c,
        None => {
            return None;
        },
    };
    match collect_names(source, tree, arg) {
        Some((mut names, base)) => {
            let ghost before = name_views(names@);
            let own = PathName {
                name: node_text(source, tree, f).to_owned(),
                arrow: member_access_op(tree, m).1,
            };
            let ghost one = (own.name@, own.arrow);
            names.push(own);
            assert(name_views(names@) =~= before.push(one));
            Some((names, base))
        },
        None => None,
    }
}

/// How far a member path has been followed.
pub struct PathState {
    /// The type that the next member is looked up on.
    pub desc: DescView,
    /// It was reached through a raw pointer.
    pub raw: bool,
    /// The class of the object that an overloaded arrow crossed into last.
    pub crossed: Option<Seq<char>>,
    /// The fields since then, and their types.
    pub ids: Seq<FieldId>,
    pub types: Seq<DescView>,
    /// The name that the crossing stood before.
    pub start: int,
}

/// The path followed by one more name. Only an overloaded arrow steps through
/// a wrapper; a raw pointer's arrow stops at the wrapper itself.
pub open spec fn followed(
    ty: Typing,
    lay: Layouts,
    s: PathState,
    name: Seq<char>,
    arrow: bool,
    k: int,
) -> Option<PathState> {
    let from = match pointee_of(ty, s.desc) {
        Some(own) if arrow && !s.raw => PathState {
            desc: types::class_desc(own),
            raw: s.raw,
            crossed: Some(own),
            ids: Seq::empty(),
            types: Seq::empty(),
            start: k,
        },
        _ => s,
    };
    match lay.member(from.desc, name) {
        Some((id, d)) => Some(
            PathState {
                desc: unpointed(d),
                raw: d is Ptr,
                crossed: from.crossed,
                ids: from.ids.push(id),
                types: from.types.push(d),
                start: from.start,
            },
        ),
        None => None,
    }
}

/// The path followed by its first `k` names.
pub open spec fn followed_upto(
    ty: Typing,
    lay: Layouts,
    s: PathState,
    names: Seq<(Seq<char>, bool)>,
    k: int,
) -> Option<PathState>
    decreases k,
{
    if k <= 0 {
        Some(s)
    } else {
        match followed_upto(ty, lay, s, names, k - 1) {
            Some(before) => followed(ty, lay, before, names[k - 1].0, names[k - 1].1, k - 1),
            None => None,
        }
    }
}

/// The base of a path is a raw pointer, as its first arrow sees it.
pub open spec fn raw_base(
    ty: Typing,
    t: SyntaxTree,
    source: Seq<char>,
    base: int,
    var: DescView,
    is_reference: bool,
) -> bool {
    if t.spec_kind(base) == "identifier"@ {
        match var {
            DescView::Ptr(inner) => if is_reference {
                *inner is Ptr
            } else {
                true
            },
            _ => false,
        }
    } else {
        infer::receiver(ty, t, source, base) matches Some(DescView::Ptr(_))
    }
}

/// The operand of `*e` for a path that starts at a dereference.
pub open spec fn dereferenced_base(ty: Typing, t: SyntaxTree, source: Seq<char>, base: int) -> Option<
    DescView,
> {
    if ty.scope.is_cpp && t.spec_kind(base) == "pointer_expression"@ && expr::operator_of(
        t,
        source,
        base,
    ) == Some("*"@) {
        match t.named_first(base) {
            Some(c) => match infer::receiver(ty, t, source, c as int) {
                Some(d) => if d is Struct {
                    Some(d)
                } else {
                    None
                },
                None => None,
            },
            None => None,
        }
    } else {
        None
    }
}

/// Where a path starts: on the type of its base variable, or, for `(*sp).f` on
/// a smart pointer, on the class that the dereference yields.
pub open spec fn path_start(
    ty: Typing,
    t: SyntaxTree,
    source: Seq<char>,
    base: int,
    var: VarId,
    arrow: bool,
) -> Option<PathState> {
    match infer::var_desc(ty.var_types@, var, 0) {
        None => None,
        Some(d) => {
            let raw = ty.scope.is_cpp && arrow && raw_base(
                ty,
                t,
                source,
                base,
                d,
                ty.references@.contains(var),
            );
            let start = PathState {
                desc: aggregate(d, MAX_LAYERS as nat),
                raw,
                crossed: None,
                ids: Seq::empty(),
                types: Seq::empty(),
                start: 0,
            };
            match dereferenced_base(ty, t, source, base) {
                None => Some(start),
                Some(operand) => match arrows::dereferenced(*ty.index, ty.arrows@, operand) {
                    Some(DescView::Struct { name, .. }) if ty.index.spec_typed(name) is Some => {
                        Some(
                            PathState {
                                desc: types::class_desc(name),
                                crossed: Some(name),
                                ..start
                            },
                        )
                    },
                    _ => None,
                },
            }
        },
    }
}

/// What a member path starts from.
#[derive(Debug, PartialEq, Eq)]
pub enum PathBase {
    Var(VarId),
    /// An object of that class that an overloaded arrow or dereference yields.
    Receiver(String),
}

/// A member path: the fields from its base on.
#[derive(Debug, PartialEq, Eq)]
pub struct FieldPath {
    pub base: PathBase,
    pub ids: Vec<FieldId>,
    pub names: Vec<String>,
    pub types: Vec<TypeDesc>,
}

pub enum BaseView {
    Var(VarId),
    Receiver(Seq<char>),
}

#[verifier::ext_equal]
pub struct PathView {
    pub base: BaseView,
    pub ids: Seq<FieldId>,
    pub names: Seq<Seq<char>>,
    pub types: Seq<DescView>,
}

pub open spec fn descs(v: Seq<TypeDesc>) -> Seq<DescView> {
    Seq::new(v.len(), |i: int| v[i]@)
}

impl FieldPath {
    pub open spec fn view(&self) -> PathView {
        PathView {
            base: match self.base {
                PathBase::Var(v) => BaseView::Var(v),
                PathBase::Receiver(cls) => BaseView::Receiver(cls@),
            },
            ids: self.ids@,
            names: spelling::views(self.names@),
            types: descs(self.types@),
        }
    }
}

/// The member path at `n`.
pub open spec fn path_of(ty: Typing, lay: Layouts, t: SyntaxTree, source: Seq<char>, n: int) -> Option<
    PathView,
> {
    match path_names(t, source, n) {
        None => None,
        Some((names, base)) => match expr::lvalue_var(*ty.vars, t, source, base) {
            None => None,
            Some(var) => {
                let arrow = names.len() > 0 && names[0].1;
                match path_start(ty, t, source, base, var, arrow) {
                    None => None,
                    Some(start) => match followed_upto(
                        ty,
                        lay,
                        start,
                        names,
                        names.len() as int,
                    ) {
                        None => None,
                        Some(end) => Some(
                            PathView {
                                base: match end.crossed {
                                    Some(cls) => BaseView::Receiver(cls),
                                    None => BaseView::Var(var),
                                },
                                ids: end.ids,
                                names: Seq::new(
                                    (names.len() - end.start) as nat,
                                    |i: int| names[end.start + i].0,
                                ),
                                types: end.types,
                            },
                        ),
                    },
                }
            },
        },
    }
}

/// The path so far.
struct Walk {
    desc: TypeDesc,
    raw: bool,
    crossed: Option<String>,
    ids: Vec<FieldId>,
    types: Vec<TypeDesc>,
    start: usize,
}

impl Walk {
    closed spec fn view(&self) -> PathState {
        PathState {
            desc: self.desc@,
            raw: self.raw,
            crossed: match self.crossed {
                Some(cls) => Some(cls@),
                None => None,
            },
            ids: self.ids@,
            types: descs(self.types@),
            start: self.start as int,
        }
    }
}

impl<'a> Typing<'a> {
    /// The class that an overloaded arrow steps to.
    fn peel_wrapper_to_pointee(&self, d: &TypeDesc) -> (r: Option<String>)
        ensures
            match r {
                Some(own) => pointee_of(*self, d@) == Some(own@),
                None => pointee_of(*self, d@) is None,
            },
    {
        let name = match d {
            TypeDesc::Struct { name, fields: _ } => name,
            _ => {
                return None;
            },
        };
        let spelled = chars_of(name.as_str());
        if spelled.len() == 0 {
            return None;
        }
        let cls = arguments_stripped(&spelled);
        let wraps = is_undefined_wrapper(self.index, name.as_str(), &cls)
            || is_std_smart_ptr_name(string_of(&cls).as_str()) || declares_arrow(
            self.index,
            self.arrows,
            &cls,
        );
        if !wraps {
            return None;
        }
        match resolve_operator_arrow(self.index, self.arrows, struct_named(string_of(&spelled))) {
            Some(own) => if self.index.type_by_tag(&chars_of(own.as_str())).is_some() && !str_eq(
                own.as_str(),
                name.as_str(),
            ) {
                Some(own)
            } else {
                None
            },
            None => None,
        }
    }

    fn is_raw_base(
        &self,
        source: &str,
        tree: &SyntaxTree,
        base: usize,
        var: &TypeDesc,
        is_reference: bool,
    ) -> (r: bool)
        requires
            self.vars.wf(),
            tree.fits(source@),
            base < tree.len(),
        ensures
            r == raw_base(*self, *tree, source@, base as int, var@, is_reference),
    {
        if tree.kind_is(base, "identifier") {
            return match var {
                TypeDesc::Ptr(inner) => if is_reference {
                    is_pointer(inner)
                } else {
                    true
                },
                _ => false,
            };
        }
        match self.receiver_desc(source, tree, base) {
            Some(d) => is_pointer(&d),
            None => false,
        }
    }

    fn dereferenced_operand(&self, source: &str, tree: &SyntaxTree, base: usize) -> (r: Option<
        TypeDesc,
    >)
        requires
            self.vars.wf(),
            tree.fits(source@),
            base < tree.len(),
        ensures
            infer::opt_desc(r) == dereferenced_base(*self, *tree, source@, base as int),
    {
        if !self.scope.is_cpp || !tree.kind_is(base, "pointer_expression") || !op_is(
            source,
            tree,
            base,
            "*",
        ) {
            return None;
        }
        match tree.named_child(base, 0) {
            Some(c) => match self.receiver_desc(source, tree, c) {
                Some(d) => {
                    let is_struct = match &d {
                        TypeDesc::Struct { name: _, fields: _ } => true,
                        _ => false,
                    };
                    if is_struct {
                        Some(d)
                    } else {
                        None
                    }
                },
                None => None,
            },
            None => None,
        }
    }

    fn start_path(&self, source: &str, tree: &SyntaxTree, base: usize, var: VarId, arrow: bool) -> (r:
        Option<Walk>)
        requires
            self.vars.wf(),
            tree.fits(source@),
            base < tree.len(),
        ensures
            match r {
                Some(w) => path_start(*self, *tree, source@, base as int, var, arrow) == Some(w@),
                None => path_start(*self, *tree, source@, base as int, var, arrow) is None,
            },
    {
        let d = match self.find_var(var) {
            Some(d) => d,
            None => {
                return None;
            },
        };
        let raw = self.scope.is_cpp && arrow && self.is_raw_base(
            source,
            tree,
            base,
            d,
            self.is_reference(var),
        );
        let mut start = Walk {
            desc: struct_type_for_var(d),
            raw,
            crossed: None,
            ids: Vec::new(),
            types: Vec::new(),
            start: 0,
        };
        assert(start.types@ =~= Seq::empty());
        assert(descs(start.types@) =~= Seq::empty());
        match self.dereferenced_operand(source, tree, base) {
            None => Some(start),
            Some(operand) => match deref_desc(self.index, self.arrows, operand) {
                Some(TypeDesc::Struct { name, fields: _ }) => {
                    if self.index.type_by_tag(&chars_of(name.as_str())).is_none() {
                        return None;
                    }
                    start.desc = struct_named(string_of(&chars_of(name.as_str())));
                    start.crossed = Some(name);
                    Some(start)
                },
                _ => None,
            },
        }
    }

    fn follow(&self, lay: &Layouts, w: Walk, name: &str, arrow: bool, k: usize) -> (r: Option<Walk>)
        ensures
            match r {
                Some(next) => followed(*self, *lay, w@, name@, arrow, k as int) == Some(next@),
                None => followed(*self, *lay, w@, name@, arrow, k as int) is None,
            },
    {
        let ghost before = w@;
        let mut from = w;
        match self.peel_wrapper_to_pointee(&from.desc) {
            Some(own) => if arrow && !from.raw {
                let raw = from.raw;
                from =
                Walk {
                    desc: struct_named(string_of(&chars_of(own.as_str()))),
                    raw,
                    crossed: Some(own),
                    ids: Vec::new(),
                    types: Vec::new(),
                    start: k,
                };
                assert(descs(from.types@) =~= Seq::empty());
            },
            None => {},
        }
        match lay.find_member(&from.desc, name) {
            Some((id, d)) => {
                let ghost types = descs(from.types@);
                from.desc = peel_ptr_to_struct(&d);
                from.raw = is_pointer(&d);
                from.ids.push(id);
                let ghost one = d@;
                from.types.push(d);
                assert(descs(from.types@) =~= types.push(one));
                Some(from)
            },
            None => None,
        }
    }

    /// The member path that an expression spells: its base variable, or the
    /// object that the last overloaded arrow on it crosses into, and the
    /// fields from there. `None` where a name on it is no field.
    pub fn decompose_field_path(&self, lay: &Layouts, source: &str, tree: &SyntaxTree, node: usize) -> (r:
        Option<FieldPath>)
        requires
            self.vars.wf(),
            tree.fits(source@),
            node < tree.len(),
        ensures
            match r {
                Some(p) => path_of(*self, *lay, *tree, source@, node as int) == Some(p@),
                None => path_of(*self, *lay, *tree, source@, node as int) is None,
            },
    {
        let (names, base) = match collect_names(source, tree, node) {
            Some(found) => found,
            None => {
                return None;
            },
        };
        let ghost all = name_views(names@);
        assert(all.len() == names@.len());
        let var = match self.vars.resolve_lvalue_var(source, tree, base) {
            Some(v) => v,
            None => {
                return None;
            },
        };
        let arrow = names.len() > 0 && names[0].arrow;
        assert(names@.len() > 0 ==> all[0].1 == names@[0].arrow);
        let start = match self.start_path(source, tree, base, var, arrow) {
            Some(w) => w,
            None => {
                return None;
            },
        };
        let ghost first = start@;
        let mut walk = start;
        let mut k: usize = 0;
        while k < names.len()
            invariant
                k <= names@.len(),
                all == name_views(names@),
                all.len() == names@.len(),
                path_names(*tree, source@, node as int) == Some((all, base as int)),
                expr::lvalue_var(*self.vars, *tree, source@, base as int) == Some(var),
                arrow == (all.len() > 0 && all[0].1),
                path_start(*self, *tree, source@, base as int, var, arrow) == Some(first),
                followed_upto(*self, *lay, first, all, k as int) == Some(walk@),
                0 <= walk@.start <= k,
            decreases names@.len() - k,
        {
            assert(all[k as int] == (names@[k as int].name@, names@[k as int].arrow));
            match self.follow(lay, walk, names[k].name.as_str(), names[k].arrow, k) {
                Some(next) => {
                    walk = next;
                },
                None => {
                    proof {
                        lemma_stopped(*self, *lay, first, all, k as int + 1);
                    }
                    return None;
                },
            }
            k += 1;
        }
        let ghost end = walk@;
        let mut rest: Vec<String> = Vec::new();
        let mut i: usize = walk.start;
        while i < names.len()
            invariant
                all == name_views(names@),
                all.len() == names@.len(),
                walk.start <= i <= names@.len(),
                rest@.len() == i - walk.start,
                forall|j: int|
                    0 <= j < rest@.len() ==> (#[trigger] rest@[j])@ == all[walk.start + j].0,
            decreases names@.len() - i,
        {
            assert(all[i as int].0 == names@[i as int].name@);
            rest.push(names[i].name.clone());
            i += 1;
        }
        let path = FieldPath {
            base: match walk.crossed {
                Some(cls) => PathBase::Receiver(cls),
                None => PathBase::Var(var),
            },
            ids: walk.ids,
            names: rest,
            types: walk.types,
        };
        assert(spelling::views(path.names@) =~= Seq::new(
            (all.len() - end.start) as nat,
            |j: int| all[end.start + j].0,
        ));
        Some(path)
    }
}

proof fn lemma_stopped(
    ty: Typing,
    lay: Layouts,
    s: PathState,
    names: Seq<(Seq<char>, bool)>,
    k: int,
)
    requires
        0 <= k <= names.len(),
        followed_upto(ty, lay, s, names, k) is None,
    ensures
        followed_upto(ty, lay, s, names, names.len() as int) is None,
    decreases names.len() - k,
{
    if k < names.len() {
        lemma_stopped(ty, lay, s, names, k + 1);
    }
}

/// A member that the class being lowered has, as `this->name`.
pub open spec fn this_member(
    ty: Typing,
    lay: Layouts,
    this: Option<VarId>,
    name: Seq<char>,
) -> Option<PathView> {
    match (ty.this_class(), this) {
        (Some(cls), Some(v)) if ty.scope.is_cpp => match lay.member(types::class_desc(cls), name) {
            Some((id, d)) => Some(
                PathView {
                    base: BaseView::Var(v),
                    ids: seq![id],
                    names: seq![name],
                    types: seq![d],
                },
            ),
            None => None,
        },
        _ => None,
    }
}

/// The member path whose address the expression at `n` takes.
pub open spec fn address_path(
    ty: Typing,
    lay: Layouts,
    this: Option<VarId>,
    t: SyntaxTree,
    source: Seq<char>,
    n: int,
) -> Option<PathView>
    decreases t.len() - n,
    when t.wf() && 0 <= n < t.len()
    via address_path_decreases
{
    let m = expr::peeled(t, n);
    if t.spec_kind(m) == "field_expression"@ {
        path_of(ty, lay, t, source, m)
    } else if t.spec_kind(m) == "identifier"@ {
        this_member(ty, lay, this, t.text(source, m))
    } else if t.spec_kind(m) == "pointer_expression"@ && expr::operator_of(t, source, m) == Some(
        "&"@,
    ) {
        match expr::pointer_operand(t, m) {
            Some(c) => address_path(ty, lay, this, t, source, c as int),
            None => None,
        }
    } else {
        None
    }
}

#[via_fn]
proof fn address_path_decreases(
    ty: Typing,
    lay: Layouts,
    this: Option<VarId>,
    t: SyntaxTree,
    source: Seq<char>,
    n: int,
) {
    expr::lemma_peeled(t, n);
    expr::lemma_operands(t, expr::peeled(t, n));
}

impl<'a> Typing<'a> {
    /// A bare name inside a member that is a member of its class stands for
    /// `this->name`; `this` is the function's first parameter.
    pub fn resolve_implicit_this_member(&self, lay: &Layouts, this: Option<VarId>, name: &str) -> (r:
        Option<FieldPath>)
        ensures
            match r {
                Some(p) => this_member(*self, *lay, this, name@) == Some(p@),
                None => this_member(*self, *lay, this, name@) is None,
            },
    {
        if !self.scope.is_cpp {
            return None;
        }
        let v = match this {
            Some(v) => v,
            None => {
                return None;
            },
        };
        match &self.scope.class_ctx {
            Some(cls) => {
                let own = struct_named(string_of(&chars_of(cls.as_str())));
                match lay.find_member(&own, name) {
                    Some((id, d)) => {
                        let mut path = FieldPath {
                            base: PathBase::Var(v),
                            ids: Vec::new(),
                            names: Vec::new(),
                            types: Vec::new(),
                        };
                        let ghost desc = d@;
                        path.ids.push(id);
                        path.names.push(name.to_owned());
                        path.types.push(d);
                        assert(path@.ids =~= seq![id]);
                        assert(path@.names =~= seq![name@]);
                        assert(path@.types =~= seq![desc]);
                        Some(path)
                    },
                    None => None,
                }
            },
            None => None,
        }
    }

    /// The member path whose address `&base.f1.f2` takes: the field's own
    /// location and not the object it lies in.
    pub fn addr_of_field_path(
        &self,
        lay: &Layouts,
        this: Option<VarId>,
        source: &str,
        tree: &SyntaxTree,
        node: usize,
    ) -> (r: Option<FieldPath>)
        requires
            self.vars.wf(),
            tree.fits(source@),
            node < tree.len(),
        ensures
            match r {
                Some(p) => address_path(*self, *lay, this, *tree, source@, node as int) == Some(p@),
                None => address_path(*self, *lay, this, *tree, source@, node as int) is None,
            },
        decreases tree.len() - node,
    {
        let m = peel_expression(tree, node);
        if tree.kind_is(m, "field_expression") {
            return self.decompose_field_path(lay, source, tree, m);
        }
        if tree.kind_is(m, "identifier") {
            return self.resolve_implicit_this_member(lay, this, node_text(source, tree, m));
        }
        if tree.kind_is(m, "pointer_expression") && op_is(source, tree, m, "&") {
            return match pointer_arg(tree, m) {
                Some(c) => self.addr_of_field_path(lay, this, source, tree, c),
                None => None,
            };
        }
        None
    }
}

/// A path has one name and one type for each of its fields.
pub proof fn law_paths_name_their_fields(
    ty: Typing,
    lay: Layouts,
    t: SyntaxTree,
    source: Seq<char>,
    n: int,
)
    requires
        path_of(ty, lay, t, source, n) is Some,
    ensures
        ({
            let p = path_of(ty, lay, t, source, n)->0;
            p.ids.len() == p.names.len() && p.ids.len() == p.types.len()
        }),
{
    let (names, base) = path_names(t, source, n)->0;
    let var = expr::lvalue_var(*ty.vars, t, source, base)->0;
    let arrow = names.len() > 0 && names[0].1;
    let start = path_start(ty, t, source, base, var, arrow)->0;
    lemma_lengths(ty, lay, start, names, names.len() as int);
}

proof fn lemma_lengths(
    ty: Typing,
    lay: Layouts,
    s: PathState,
    names: Seq<(Seq<char>, bool)>,
    k: int,
)
    requires
        0 <= k <= names.len(),
        s.start == 0,
        s.ids.len() == 0,
        s.types.len() == 0,
        followed_upto(ty, lay, s, names, k) is Some,
    ensures
        ({
            let e = followed_upto(ty, lay, s, names, k)->0;
            &&& 0 <= e.start <= k
            &&& e.ids.len() == k - e.start
            &&& e.types.len() == k - e.start
        }),
    decreases k,
{
    if k > 0 {
        lemma_lengths(ty, lay, s, names, k - 1);
    }
}

} // verus!
