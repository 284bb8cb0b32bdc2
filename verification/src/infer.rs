//! The static type of an expression, as far as the declarations say it.

use vstd::prelude::*;

use crate::arrows;
use crate::arrows::{
    class_spelling_of_desc, deref_desc, resolve_operator_arrow, ArrowReturn,
};
use crate::expr;
use crate::expr::{op_is, peel_expression, VarNames};
use crate::hierarchy;
use crate::ir::{copy_desc, struct_named, DescView, TypeDesc, VarId};
use crate::lookup::ClassIndex;
use crate::normalize;
use crate::normalize::{normalize_qualified, receiver_lookup_name, strip_template_args};
use crate::parse::node_text;
use crate::scope::NameScope;
use crate::syntax::SyntaxTree;
use crate::text::{chars_of, string_of};
use crate::types;

verus! {

/// What is declared where an expression stands.
pub struct Typing<'a> {
    pub scope: &'a NameScope,
    pub index: &'a ClassIndex,
    pub arrows: &'a Vec<ArrowReturn>,
    pub vars: &'a VarNames,
    /// The type of each variable.
    pub var_types: &'a Vec<(VarId, TypeDesc)>,
    /// The variables that are references: their types have an alias layer.
    pub references: &'a Vec<VarId>,
    /// The types of the calls that were typed so far, by their nodes.
    pub calls: &'a Vec<(usize, TypeDesc)>,
}

/// The type recorded for a variable, from position `k`.
pub open spec fn var_desc(v: Seq<(VarId, TypeDesc)>, id: VarId, k: int) -> Option<DescView>
    decreases v.len() - k,
{
    if k < 0 || k >= v.len() {
        None
    } else if v[k].0 == id {
        Some(v[k].1@)
    } else {
        var_desc(v, id, k + 1)
    }
}

/// The type recorded for a call, from position `k`.
pub open spec fn call_desc(v: Seq<(usize, TypeDesc)>, node: usize, k: int) -> Option<DescView>
    decreases v.len() - k,
{
    if k < 0 || k >= v.len() {
        None
    } else if v[k].0 == node {
        Some(v[k].1@)
    } else {
        call_desc(v, node, k + 1)
    }
}

/// The class that a type names under its pointer layers, as the index holds it.
pub open spec fn class_name(d: DescView) -> Option<Seq<char>> {
    match arrows::class_spelling(d) {
        Some(name) => Some(normalize::without_arguments(name)),
        None => None,
    }
}

/// The class a type names: `T &` and `T *` name `T`. A smart pointer is its
/// own class here; what it points to is the arrow's business.
pub fn class_name_of_desc(desc: &TypeDesc) -> (r: Option<String>)
    ensures
        match r {
            Some(name) => class_name(desc@) == Some(name@),
            None => class_name(desc@) is None,
        },
{
    match class_spelling_of_desc(desc) {
        Some(name) => Some(receiver_lookup_name(name.as_str())),
        None => None,
    }
}

/// The member access at `n` is spelled `->`.
pub open spec fn by_arrow(t: SyntaxTree, n: int) -> bool {
    t.of_kind(n, "->"@) is Some
}

/// Whether a field expression accesses a member, and whether it spells `->`.
pub fn member_access_op(tree: &SyntaxTree, node: usize) -> (r: (bool, bool))
    requires
        tree.wf(),
        node < tree.len(),
    ensures
        r.0 == (by_arrow(*tree, node as int) || tree.of_kind(node as int, "."@) is Some),
        r.1 == by_arrow(*tree, node as int),
{
    let arrow = tree.child_of_kind(node, "->").is_some();
    let dot = tree.child_of_kind(node, ".").is_some();
    (arrow || dot, arrow)
}

/// Nodes that name the class in a `new` expression.
pub open spec fn names_class(kind: Seq<char>) -> bool {
    kind == "qualified_identifier"@ || kind == "type_identifier"@ || kind == "template_type"@
}

/// The first child of `n`, from position `k`, that names a class.
pub open spec fn class_node_from(t: SyntaxTree, n: int, k: int) -> Option<usize>
    decreases t.children(n).len() - k,
{
    if k < 0 || k >= t.children(n).len() {
        None
    } else if names_class(t.spec_kind(t.children(n)[k] as int)) {
        Some(t.children(n)[k])
    } else {
        class_node_from(t, n, k + 1)
    }
}

impl<'a> Typing<'a> {
    /// The class that a spelling names here, its template arguments aside.
    pub open spec fn spelled_class(&self, raw: Seq<char>) -> Seq<char> {
        self.scope.spec_qualified_class(
            *self.index,
            normalize::without_arguments(normalize::qualified_text(raw)),
        )
    }

    fn class_spelled(&self, raw: &str) -> (r: String)
        ensures
            r@ == self.spelled_class(raw@),
    {
        let name = strip_template_args(normalize_qualified(raw).as_str());
        string_of(&self.scope.qualify_class_name(self.index, &chars_of(name.as_str())))
    }

    pub open spec fn new_class(&self, t: SyntaxTree, source: Seq<char>, n: int) -> Option<Seq<char>> {
        match class_node_from(t, n, 0) {
            Some(c) => Some(self.spelled_class(t.text(source, c as int))),
            None => None,
        }
    }

    /// The class that a `new` expression constructs.
    pub fn new_expression_class(&self, source: &str, tree: &SyntaxTree, node: usize) -> (r: Option<
        String,
    >)
        requires
            tree.fits(source@),
            node < tree.len(),
        ensures
            match r {
                Some(cls) => self.new_class(*tree, source@, node as int) == Some(cls@),
                None => self.new_class(*tree, source@, node as int) is None,
            },
    {
        let mut k: usize = 0;
        while k < tree.kids[node].len()
            invariant
                tree.fits(source@),
                node < tree.len(),
                k <= tree.children(node as int).len(),
                class_node_from(*tree, node as int, 0) == class_node_from(
                    *tree,
                    node as int,
                    k as int,
                ),
            decreases tree.children(node as int).len() - k,
        {
            let c = tree.kids[node][k];
            assert(c == tree.children(node as int)[k as int]);
            if tree.kind_is(c, "qualified_identifier") || tree.kind_is(c, "type_identifier")
                || tree.kind_is(c, "template_type") {
                return Some(self.class_spelled(node_text(source, tree, c)));
            }
            k += 1;
        }
        None
    }

    pub open spec fn this_class(&self) -> Option<Seq<char>> {
        match self.scope.class_ctx {
            Some(cls) => Some(cls@),
            None => None,
        }
    }

    /// The type of a data member of a class or of one of its bases.
    pub open spec fn member_desc(&self, cls: Seq<char>, name: Seq<char>) -> Option<DescView> {
        hierarchy::first_field(*self.index, hierarchy::ancestry(*self.index, cls), name, 0)
    }

    pub open spec fn own_member_desc(&self, name: Seq<char>) -> Option<DescView> {
        match self.this_class() {
            Some(cls) => self.member_desc(cls, name),
            None => None,
        }
    }

    fn own_member(&self, name: &str) -> (r: Option<TypeDesc>)
        ensures
            match r {
                Some(d) => self.own_member_desc(name@) == Some(d@),
                None => self.own_member_desc(name@) is None,
            },
    {
        match &self.scope.class_ctx {
            Some(cls) => self.index.class_field_desc(cls.as_str(), name),
            None => None,
        }
    }

    /// The type of a variable. A reference is the value it refers to.
    pub open spec fn value_desc(&self, id: VarId) -> Option<DescView> {
        match var_desc(self.var_types@, id, 0) {
            Some(DescView::Ptr(inner)) if self.references@.contains(id) => Some(*inner),
            d => d,
        }
    }

    pub fn find_var(&self, id: VarId) -> (r: Option<&TypeDesc>)
        ensures
            match r {
                Some(d) => var_desc(self.var_types@, id, 0) == Some(d@),
                None => var_desc(self.var_types@, id, 0) is None,
            },
    {
        let mut k: usize = 0;
        while k < self.var_types.len()
            invariant
                k <= self.var_types@.len(),
                var_desc(self.var_types@, id, 0) == var_desc(self.var_types@, id, k as int),
            decreases self.var_types@.len() - k,
        {
            if self.var_types[k].0.0 == id.0 {
                return Some(&self.var_types[k].1);
            }
            k += 1;
        }
        None
    }

    fn find_call(&self, node: usize) -> (r: Option<&TypeDesc>)
        ensures
            match r {
                Some(d) => call_desc(self.calls@, node, 0) == Some(d@),
                None => call_desc(self.calls@, node, 0) is None,
            },
    {
        let mut k: usize = 0;
        while k < self.calls.len()
            invariant
                k <= self.calls@.len(),
                call_desc(self.calls@, node, 0) == call_desc(self.calls@, node, k as int),
            decreases self.calls@.len() - k,
        {
            if self.calls[k].0 == node {
                return Some(&self.calls[k].1);
            }
            k += 1;
        }
        None
    }

    pub fn is_reference(&self, id: VarId) -> (r: bool)
        ensures
            r == self.references@.contains(id),
    {
        let mut k: usize = 0;
        while k < self.references.len()
            invariant
                k <= self.references@.len(),
                forall|j: int| 0 <= j < k ==> self.references@[j] != id,
            decreases self.references@.len() - k,
        {
            if self.references[k].0 == id.0 {
                assert(self.references@[k as int] == id);
                return true;
            }
            k += 1;
        }
        false
    }

    fn variable_value(&self, id: VarId) -> (r: Option<TypeDesc>)
        ensures
            match r {
                Some(d) => self.value_desc(id) == Some(d@),
                None => self.value_desc(id) is None,
            },
    {
        match self.find_var(id) {
            Some(d) => {
                if self.is_reference(id) {
                    match d {
                        TypeDesc::Ptr(inner) => {
                            return Some(copy_desc(inner));
                        },
                        _ => {},
                    }
                }
                Some(copy_desc(d))
            },
            None => None,
        }
    }
}

/// The class that an optional type names.
pub open spec fn opt_class(d: Option<DescView>) -> Option<Seq<char>> {
    match d {
        Some(d) => class_name(d),
        None => None,
    }
}

fn class_of(d: Option<TypeDesc>) -> (r: Option<String>)
    ensures
        match r {
            Some(name) => opt_class(opt_desc(d)) == Some(name@),
            None => opt_class(opt_desc(d)) is None,
        },
{
    match d {
        Some(d) => class_name_of_desc(&d),
        None => None,
    }
}

pub open spec fn opt_desc(d: Option<TypeDesc>) -> Option<DescView> {
    match d {
        Some(d) => Some(d@),
        None => None,
    }
}

/// The class of the expression at `n`, when its declarations say it: `this`,
/// variables, members along typed chains, casts, calls and `new`.
pub open spec fn static_class(ty: Typing, t: SyntaxTree, source: Seq<char>, n: int) -> Option<
    Seq<char>,
>
    decreases t.len() - n, 0int,
    when t.wf() && 0 <= n < t.len()
    via static_class_decreases
{
    let m = expr::peeled(t, n);
    let kind = t.spec_kind(m);
    if kind == "this"@ {
        ty.this_class()
    } else if kind == "identifier"@ {
        let name = t.text(source, m);
        match ty.vars.spec_var(name) {
            Some(v) => opt_class(var_desc(ty.var_types@, v, 0)),
            None => opt_class(ty.own_member_desc(name)),
        }
    } else if kind == "pointer_expression"@ {
        match t.named_first(m) {
            Some(c) if expr::operator_of(t, source, m) == Some("*"@) => if ty.scope.is_cpp {
                match receiver(ty, t, source, c as int) {
                    Some(d) => opt_class(arrows::dereferenced(*ty.index, ty.arrows@, d)),
                    None => None,
                }
            } else {
                static_class(ty, t, source, c as int)
            },
            _ => None,
        }
    } else if kind == "field_expression"@ {
        match (t.fielded(m, "argument"@), t.fielded(m, "field"@)) {
            (Some(base), Some(field)) => match static_class(ty, t, source, base as int) {
                Some(own) => {
                    let name = normalize::qualified_text(t.text(source, field as int));
                    let cls = if ty.scope.is_cpp && by_arrow(t, m) {
                        match receiver(ty, t, source, base as int) {
                            Some(d) => arrows::spec_arrow_class(*ty.index, ty.arrows@, d),
                            None => None,
                        }
                    } else {
                        Some(own)
                    };
                    match cls {
                        Some(cls) => opt_class(ty.member_desc(cls, name)),
                        None => None,
                    }
                },
                None => None,
            },
            _ => None,
        }
    } else if kind == "cast_expression"@ {
        match t.fielded(m, "type"@) {
            Some(d) => {
                let spelled = match t.fielded(d as int, "type"@) {
                    Some(c) => c as int,
                    None => d as int,
                };
                let cls = ty.spelled_class(t.text(source, spelled));
                if ty.index.spec_typed(cls) is Some {
                    Some(cls)
                } else {
                    None
                }
            },
            None => None,
        }
    } else if kind == "call_expression"@ {
        opt_class(call_desc(ty.calls@, m as usize, 0))
    } else if kind == "new_expression"@ {
        ty.new_class(t, source, m)
    } else {
        None
    }
}

/// The type of the expression at `n` with its pointer layers kept, so that an
/// arrow can tell a raw pointer from a class value.
pub open spec fn receiver(ty: Typing, t: SyntaxTree, source: Seq<char>, n: int) -> Option<DescView>
    decreases t.len() - n, 1int,
    when t.wf() && 0 <= n < t.len()
    via receiver_decreases
{
    let m = expr::peeled(t, n);
    let kind = t.spec_kind(m);
    if kind == "this"@ {
        match ty.this_class() {
            Some(cls) => Some(DescView::Ptr(Box::new(types::class_desc(cls)))),
            None => None,
        }
    } else if kind == "identifier"@ {
        let name = t.text(source, m);
        match ty.vars.spec_var(name) {
            Some(v) => ty.value_desc(v),
            None => ty.own_member_desc(name),
        }
    } else if kind == "field_expression"@ {
        match (t.fielded(m, "argument"@), t.fielded(m, "field"@)) {
            (Some(base), Some(field)) => {
                let cls = if by_arrow(t, m) {
                    match receiver(ty, t, source, base as int) {
                        Some(d) => arrows::spec_arrow_class(*ty.index, ty.arrows@, d),
                        None => None,
                    }
                } else {
                    static_class(ty, t, source, base as int)
                };
                match cls {
                    Some(cls) => ty.member_desc(cls, t.text(source, field as int)),
                    None => None,
                }
            },
            _ => None,
        }
    } else if kind == "pointer_expression"@ {
        match t.named_first(m) {
            Some(c) => match receiver(ty, t, source, c as int) {
                Some(d) => if expr::operator_of(t, source, m) == Some("*"@) {
                    arrows::dereferenced(*ty.index, ty.arrows@, d)
                } else if expr::operator_of(t, source, m) == Some("&"@) {
                    Some(DescView::Ptr(Box::new(d)))
                } else {
                    None
                },
                None => None,
            },
            None => None,
        }
    } else if kind == "call_expression"@ {
        call_desc(ty.calls@, m as usize, 0)
    } else if kind == "new_expression"@ {
        match ty.new_class(t, source, m) {
            Some(cls) => Some(DescView::Ptr(Box::new(types::class_desc(cls)))),
            None => None,
        }
    } else {
        match static_class(ty, t, source, n) {
            Some(cls) => Some(types::class_desc(cls)),
            None => None,
        }
    }
}

#[via_fn]
proof fn static_class_decreases(ty: Typing, t: SyntaxTree, source: Seq<char>, n: int) {
    lemma_operands(t, n);
}

#[via_fn]
proof fn receiver_decreases(ty: Typing, t: SyntaxTree, source: Seq<char>, n: int) {
    lemma_operands(t, n);
}

proof fn lemma_operands(t: SyntaxTree, n: int)
    requires
        t.wf(),
        0 <= n < t.len(),
    ensures
        n <= expr::peeled(t, n) < t.len(),
        t.named_first(expr::peeled(t, n)) matches Some(c) ==> n < c < t.len(),
        t.fielded(expr::peeled(t, n), "argument"@) matches Some(c) ==> n < c < t.len(),
{
    expr::lemma_peeled(t, n);
    let m = expr::peeled(t, n);
    t.lemma_named(m);
    t.lemma_fielded(m, "argument"@);
}

impl<'a> Typing<'a> {
    /// The static class of a receiver expression.
    pub fn infer_static_class(&self, source: &str, tree: &SyntaxTree, node: usize) -> (r: Option<
        String,
    >)
        requires
            self.vars.wf(),
            tree.fits(source@),
            node < tree.len(),
        ensures
            match r {
                Some(cls) => static_class(*self, *tree, source@, node as int) == Some(cls@),
                None => static_class(*self, *tree, source@, node as int) is None,
            },
        decreases tree.len() - node, 0int,
    {
        let m = peel_expression(tree, node);
        proof {
            lemma_operands(*tree, node as int);
        }
        if tree.kind_is(m, "this") {
            return match &self.scope.class_ctx {
                Some(cls) => Some(string_of(&chars_of(cls.as_str()))),
                None => None,
            };
        }
        if tree.kind_is(m, "identifier") {
            let name = node_text(source, tree, m);
            return match self.vars.lookup_var(name) {
                Some(v) => match self.find_var(v) {
                    Some(d) => class_name_of_desc(d),
                    None => None,
                },
                None => class_of(self.own_member(name)),
            };
        }
        if tree.kind_is(m, "pointer_expression") {
            let star = op_is(source, tree, m, "*");
            return match tree.named_child(m, 0) {
                Some(c) => if !star {
                    None
                } else if self.scope.is_cpp {
                    match self.receiver_desc(source, tree, c) {
                        Some(d) => class_of(deref_desc(self.index, self.arrows, d)),
                        None => None,
                    }
                } else {
                    self.infer_static_class(source, tree, c)
                },
                None => None,
            };
        }
        if tree.kind_is(m, "field_expression") {
            let base = match tree.child_by_field_name(m, "argument") {
                Some(c) => c,
                None => {
                    return None;
                },
            };
            let field = match tree.child_by_field_name(m, "field") {
                Some(c) => c,
                None => {
                    return None;
                },
            };
            let own = match self.infer_static_class(source, tree, base) {
                Some(cls) => cls,
                None => {
                    return None;
                },
            };
            let cls = if self.scope.is_cpp && member_access_op(tree, m).1 {
                match self.arrow_class(source, tree, base) {
                    Some(cls) => cls,
                    None => {
                        return None;
                    },
                }
            } else {
                own
            };
            let name = normalize_qualified(node_text(source, tree, field));
            return class_of(self.index.class_field_desc(cls.as_str(), name.as_str()));
        }
        if tree.kind_is(m, "cast_expression") {
            return match tree.child_by_field_name(m, "type") {
                Some(d) => {
                    let spelled: usize = match tree.child_by_field_name(d, "type") {
                        Some(c) => c,
                        None => d,
                    };
                    let cls = self.class_spelled(node_text(source, tree, spelled));
                    if self.index.type_by_tag(&chars_of(cls.as_str())).is_some() {
                        Some(cls)
                    } else {
                        None
                    }
                },
                None => None,
            };
        }
        if tree.kind_is(m, "call_expression") {
            return match self.find_call(m) {
                Some(d) => class_name_of_desc(d),
                None => None,
            };
        }
        if tree.kind_is(m, "new_expression") {
            return self.new_expression_class(source, tree, m);
        }
        None
    }

    /// The class that `->` on an expression looks a member up on.
    fn arrow_class(&self, source: &str, tree: &SyntaxTree, base: usize) -> (r: Option<String>)
        requires
            self.vars.wf(),
            tree.fits(source@),
            base < tree.len(),
        ensures
            ({
                let found = match receiver(*self, *tree, source@, base as int) {
                    Some(d) => arrows::spec_arrow_class(*self.index, self.arrows@, d),
                    None => None,
                };
                match r {
                    Some(cls) => found == Some(cls@),
                    None => found is None,
                }
            }),
        decreases tree.len() - base, 2int,
    {
        match self.receiver_desc(source, tree, base) {
            Some(d) => resolve_operator_arrow(self.index, self.arrows, d),
            None => None,
        }
    }

    /// The type of a receiver expression, its pointer layers kept.
    pub fn receiver_desc(&self, source: &str, tree: &SyntaxTree, node: usize) -> (r: Option<
        TypeDesc,
    >)
        requires
            self.vars.wf(),
            tree.fits(source@),
            node < tree.len(),
        ensures
            opt_desc(r) == receiver(*self, *tree, source@, node as int),
        decreases tree.len() - node, 1int,
    {
        let m = peel_expression(tree, node);
        proof {
            lemma_operands(*tree, node as int);
        }
        if tree.kind_is(m, "this") {
            return match &self.scope.class_ctx {
                Some(cls) => Some(
                    TypeDesc::Ptr(Box::new(struct_named(string_of(&chars_of(cls.as_str()))))),
                ),
                None => None,
            };
        }
        if tree.kind_is(m, "identifier") {
            let name = node_text(source, tree, m);
            return match self.vars.lookup_var(name) {
                Some(v) => self.variable_value(v),
                None => self.own_member(name),
            };
        }
        if tree.kind_is(m, "field_expression") {
            let base = match tree.child_by_field_name(m, "argument") {
                Some(c) => c,
                None => {
                    return None;
                },
            };
            let field = match tree.child_by_field_name(m, "field") {
                Some(c) => c,
                None => {
                    return None;
                },
            };
            let cls = if member_access_op(tree, m).1 {
                self.arrow_class(source, tree, base)
            } else {
                self.infer_static_class(source, tree, base)
            };
            return match cls {
                Some(cls) => self.index.class_field_desc(
                    cls.as_str(),
                    node_text(source, tree, field),
                ),
                None => None,
            };
        }
        if tree.kind_is(m, "pointer_expression") {
            let star = op_is(source, tree, m, "*");
            let amp = op_is(source, tree, m, "&");
            return match tree.named_child(m, 0) {
                Some(c) => match self.receiver_desc(source, tree, c) {
                    Some(d) => if star {
                        deref_desc(self.index, self.arrows, d)
                    } else if amp {
                        Some(TypeDesc::Ptr(Box::new(d)))
                    } else {
                        None
                    },
                    None => None,
                },
                None => None,
            };
        }
        if tree.kind_is(m, "call_expression") {
            return match self.find_call(m) {
                Some(d) => Some(copy_desc(d)),
                None => None,
            };
        }
        if tree.kind_is(m, "new_expression") {
            return match self.new_expression_class(source, tree, m) {
                Some(cls) => Some(TypeDesc::Ptr(Box::new(struct_named(cls)))),
                None => None,
            };
        }
        match self.infer_static_class(source, tree, node) {
            Some(cls) => Some(struct_named(cls)),
            None => None,
        }
    }

    /// The class that a member access on `recv` looks the member up on: its
    /// own class for `.`, what its arrow yields for `->`.
    pub fn member_receiver_class(
        &self,
        source: &str,
        tree: &SyntaxTree,
        recv: usize,
        arrow: bool,
    ) -> (r: Option<String>)
        requires
            self.vars.wf(),
            tree.fits(source@),
            recv < tree.len(),
        ensures
            match r {
                Some(cls) => member_class(*self, *tree, source@, recv as int, arrow) == Some(cls@),
                None => member_class(*self, *tree, source@, recv as int, arrow) is None,
            },
    {
        if arrow {
            self.arrow_class(source, tree, recv)
        } else {
            self.infer_static_class(source, tree, recv)
        }
    }
}

/// The class that a member access on the expression at `n` looks members up on.
pub open spec fn member_class(
    ty: Typing,
    t: SyntaxTree,
    source: Seq<char>,
    n: int,
    arrow: bool,
) -> Option<Seq<char>> {
    if arrow {
        match receiver(ty, t, source, n) {
            Some(d) => arrows::spec_arrow_class(*ty.index, ty.arrows@, d),
            None => None,
        }
    } else {
        static_class(ty, t, source, n)
    }
}

} // verus!
