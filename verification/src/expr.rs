//! Expressions: what they refer to, and how their values flow.

use crate::ir::{FnId, VarId};
use crate::locals;
use crate::locals::Locals;
use crate::parse::node_text;
use crate::syntax::SyntaxTree;
use crate::text::{chars_of, str_eq, string_of};
use vstd::prelude::*;

verus! {

/// The variables that a name can stand for: the locals of the function being
/// lowered, the globals, and the statics of the file.
#[derive(Debug, PartialEq, Eq)]
pub struct VarNames {
    pub locals: Locals,
    pub in_function: bool,
    pub globals: Vec<(String, VarId)>,
    pub statics: Vec<(String, VarId)>,
}

/// The functions that a name can stand for: those in the scope of the file,
/// and those of the whole index.
#[derive(Debug, PartialEq, Eq)]
pub struct FnNames {
    pub in_scope: Vec<(String, FnId)>,
    pub anywhere: Vec<(String, FnId)>,
}

/// The first variable called `name`, from position `k`.
pub open spec fn variable_from(v: Seq<(String, VarId)>, name: Seq<char>, k: int) -> Option<VarId>
    decreases v.len() - k,
{
    if k < 0 || k >= v.len() {
        None
    } else if v[k].0@ == name {
        Some(v[k].1)
    } else {
        variable_from(v, name, k + 1)
    }
}

/// The first function called `name`, from position `k`.
pub open spec fn function_from(v: Seq<(String, FnId)>, name: Seq<char>, k: int) -> Option<FnId>
    decreases v.len() - k,
{
    if k < 0 || k >= v.len() {
        None
    } else if v[k].0@ == name {
        Some(v[k].1)
    } else {
        function_from(v, name, k + 1)
    }
}

fn find_variable(v: &Vec<(String, VarId)>, name: &str) -> (r: Option<VarId>)
    ensures
        r == variable_from(v@, name@, 0),
{
    let mut k: usize = 0;
    while k < v.len()
        invariant
            k <= v@.len(),
            variable_from(v@, name@, 0) == variable_from(v@, name@, k as int),
        decreases v@.len() - k,
    {
        if str_eq(v[k].0.as_str(), name) {
            return Some(v[k].1);
        }
        k += 1;
    }
    None
}

fn find_function(v: &Vec<(String, FnId)>, name: &str) -> (r: Option<FnId>)
    ensures
        r == function_from(v@, name@, 0),
{
    let mut k: usize = 0;
    while k < v.len()
        invariant
            k <= v@.len(),
            function_from(v@, name@, 0) == function_from(v@, name@, k as int),
        decreases v@.len() - k,
    {
        if str_eq(v[k].0.as_str(), name) {
            return Some(v[k].1);
        }
        k += 1;
    }
    None
}

impl VarNames {
    pub open spec fn wf(&self) -> bool {
        self.locals.wf()
    }

    pub open spec fn spec_var(&self, name: Seq<char>) -> Option<VarId> {
        if self.in_function && locals::bound(self.locals@, name) is Some {
            locals::bound(self.locals@, name)
        } else {
            match variable_from(self.globals@, name, 0) {
                Some(v) => Some(v),
                None => variable_from(self.statics@, name, 0),
            }
        }
    }

    /// The variable a name stands for: a local, else a global, else a static
    /// of the file.
    pub fn lookup_var(&self, name: &str) -> (r: Option<VarId>)
        requires
            self.wf(),
        ensures
            r == self.spec_var(name@),
    {
        if self.in_function {
            match self.locals.get(name) {
                Some(v) => {
                    return Some(v);
                },
                None => {},
            }
        }
        match find_variable(&self.globals, name) {
            Some(v) => Some(v),
            None => find_variable(&self.statics, name),
        }
    }
}

impl FnNames {
    pub open spec fn spec_in_scope(&self, name: Seq<char>) -> Option<FnId> {
        function_from(self.in_scope@, name, 0)
    }

    pub open spec fn spec_named(&self, name: Seq<char>) -> Option<FnId> {
        match function_from(self.in_scope@, name, 0) {
            Some(f) => Some(f),
            None => function_from(self.anywhere@, name, 0),
        }
    }

    pub fn resolve_in_scope(&self, name: &str) -> (r: Option<FnId>)
        ensures
            r == self.spec_in_scope(name@),
    {
        find_function(&self.in_scope, name)
    }

    /// The function a name stands for: one in the scope of the file, else any
    /// of the index.
    pub fn resolve_function_named(&self, name: &str) -> (r: Option<FnId>)
        ensures
            r == self.spec_named(name@),
    {
        match find_function(&self.in_scope, name) {
            Some(f) => Some(f),
            None => find_function(&self.anywhere, name),
        }
    }
}

/// The second named child of `n`.
pub open spec fn named_second(t: SyntaxTree, n: int) -> Option<usize> {
    if t.named(n).len() > 1 {
        Some(t.named(n)[1])
    } else {
        None
    }
}

/// The expression that parentheses hold.
pub open spec fn peeled(t: SyntaxTree, n: int) -> int
    decreases t.len() - n,
    when t.wf() && 0 <= n < t.len()
    via peeled_decreases
{
    if t.spec_kind(n) == "parenthesized_expression"@ {
        match t.named_first(n) {
            Some(c) => peeled(t, c as int),
            None => n,
        }
    } else {
        n
    }
}

#[via_fn]
proof fn peeled_decreases(t: SyntaxTree, n: int) {
    t.lemma_named(n);
}

/// The expression inside any parentheses.
pub fn peel_expression(tree: &SyntaxTree, node: usize) -> (r: usize)
    requires
        tree.wf(),
        node < tree.len(),
    ensures
        r == peeled(*tree, node as int),
        node <= r < tree.len(),
    decreases tree.len() - node,
{
    if !tree.kind_is(node, "parenthesized_expression") {
        return node;
    }
    match tree.named_child(node, 0) {
        Some(c) => peel_expression(tree, c),
        None => node,
    }
}

/// What a cast converts: its value, its expression, or its second named child.
pub open spec fn cast_value(t: SyntaxTree, n: int) -> Option<usize> {
    match t.fielded(n, "value"@) {
        Some(c) => Some(c),
        None => cast_operand(t, n),
    }
}

/// What a cast converts, where a `value` field is not asked for.
pub open spec fn cast_operand(t: SyntaxTree, n: int) -> Option<usize> {
    match t.fielded(n, "expression"@) {
        Some(c) => Some(c),
        None => named_second(t, n),
    }
}

pub fn find_cast_operand(tree: &SyntaxTree, n: usize) -> (r: Option<usize>)
    requires
        tree.wf(),
        n < tree.len(),
    ensures
        r == cast_operand(*tree, n as int),
        r matches Some(c) ==> n < c < tree.len(),
{
    match tree.child_by_field_name(n, "expression") {
        Some(c) => Some(c),
        None => tree.named_child(n, 1),
    }
}

pub fn find_cast_value(tree: &SyntaxTree, n: usize) -> (r: Option<usize>)
    requires
        tree.wf(),
        n < tree.len(),
    ensures
        r == cast_value(*tree, n as int),
        r matches Some(c) ==> n < c < tree.len(),
{
    match tree.child_by_field_name(n, "value") {
        Some(c) => Some(c),
        None => find_cast_operand(tree, n),
    }
}

pub proof fn lemma_operands(t: SyntaxTree, n: int)
    requires
        t.wf(),
        0 <= n < t.len(),
    ensures
        t.named_first(n) matches Some(c) ==> n < c < t.len(),
        cast_operand(t, n) matches Some(c) ==> n < c < t.len(),
        cast_value(t, n) matches Some(c) ==> n < c < t.len(),
        pointer_operand(t, n) matches Some(c) ==> n < c < t.len(),
        t.fielded(n, "argument"@) matches Some(c) ==> n < c < t.len(),
        t.fielded(n, "function"@) matches Some(c) ==> n < c < t.len(),
{
    t.lemma_named(n);
    t.lemma_fielded(n, "value"@);
    t.lemma_fielded(n, "expression"@);
    t.lemma_fielded(n, "argument"@);
    t.lemma_fielded(n, "function"@);
}

/// The expression below parentheses and casts.
pub open spec fn uncast(t: SyntaxTree, n: int) -> int
    decreases t.len() - n,
    when t.wf() && 0 <= n < t.len()
    via uncast_decreases
{
    if t.spec_kind(n) == "parenthesized_expression"@ {
        match t.named_first(n) {
            Some(c) => uncast(t, c as int),
            None => n,
        }
    } else if t.spec_kind(n) == "cast_expression"@ {
        match cast_value(t, n) {
            Some(c) => uncast(t, c as int),
            None => n,
        }
    } else {
        n
    }
}

#[via_fn]
proof fn uncast_decreases(t: SyntaxTree, n: int) {
    lemma_operands(t, n);
}

/// The expression below any parentheses and casts.
pub fn peel_casts(tree: &SyntaxTree, node: usize) -> (r: usize)
    requires
        tree.wf(),
        node < tree.len(),
    ensures
        r == uncast(*tree, node as int),
        node <= r < tree.len(),
    decreases tree.len() - node,
{
    if tree.kind_is(node, "parenthesized_expression") {
        return match tree.named_child(node, 0) {
            Some(c) => peel_casts(tree, c),
            None => node,
        };
    }
    if tree.kind_is(node, "cast_expression") {
        return match find_cast_value(tree, node) {
            Some(c) => peel_casts(tree, c),
            None => node,
        };
    }
    node
}

/// The operator of a pointer expression.
pub open spec fn operator_of(t: SyntaxTree, source: Seq<char>, n: int) -> Option<Seq<char>> {
    if t.spec_kind(n) != "pointer_expression"@ {
        None
    } else {
        match t.fielded(n, "operator"@) {
            Some(c) => Some(t.text(source, c as int)),
            None => if t.children(n).len() > 0 {
                Some(t.text(source, t.children(n)[0] as int))
            } else {
                None
            },
        }
    }
}

pub fn pointer_op<'a>(source: &'a str, tree: &SyntaxTree, node: usize) -> (r: Option<&'a str>)
    requires
        tree.fits(source@),
        node < tree.len(),
    ensures
        match r {
            Some(op) => operator_of(*tree, source@, node as int) == Some(op@),
            None => operator_of(*tree, source@, node as int) is None,
        },
{
    if !tree.kind_is(node, "pointer_expression") {
        return None;
    }
    match tree.child_by_field_name(node, "operator") {
        Some(c) => Some(node_text(source, tree, c)),
        None => if tree.kids[node].len() > 0 {
            let c = tree.kids[node][0];
            assert(c == tree.children(node as int)[0]);
            Some(node_text(source, tree, c))
        } else {
            None
        },
    }
}

pub fn op_is(source: &str, tree: &SyntaxTree, node: usize, op: &str) -> (r: bool)
    requires
        tree.fits(source@),
        node < tree.len(),
    ensures
        r == (operator_of(*tree, source@, node as int) == Some(op@)),
{
    match pointer_op(source, tree, node) {
        Some(own) => str_eq(own, op),
        None => false,
    }
}

/// The operand of a pointer expression.
pub open spec fn pointer_operand(t: SyntaxTree, n: int) -> Option<usize> {
    if t.spec_kind(n) != "pointer_expression"@ {
        None
    } else {
        t.fielded_or_first(n, "argument"@)
    }
}

pub fn pointer_arg(tree: &SyntaxTree, node: usize) -> (r: Option<usize>)
    requires
        tree.wf(),
        node < tree.len(),
    ensures
        r == pointer_operand(*tree, node as int),
        r matches Some(c) ==> node < c < tree.len(),
{
    if !tree.kind_is(node, "pointer_expression") {
        return None;
    }
    tree.field_or_first(node, "argument")
}

/// The target of an assignment is what a pointer points to.
pub fn is_deref_lhs(source: &str, tree: &SyntaxTree, node: usize) -> (r: bool)
    requires
        tree.fits(source@),
        node < tree.len(),
    ensures
        r == (operator_of(*tree, source@, node as int) == Some("*"@)),
{
    op_is(source, tree, node, "*")
}

/// Below parentheses and casts, by their first named child each.
pub open spec fn unwrapped(t: SyntaxTree, n: int) -> Option<usize>
    decreases t.len() - n,
    when t.wf() && 0 <= n < t.len()
    via unwrapped_decreases
{
    if t.spec_kind(n) == "parenthesized_expression"@ || t.spec_kind(n) == "cast_expression"@ {
        match t.named_first(n) {
            Some(c) => unwrapped(t, c as int),
            None => None,
        }
    } else {
        Some(n as usize)
    }
}

#[via_fn]
proof fn unwrapped_decreases(t: SyntaxTree, n: int) {
    t.lemma_named(n);
}

fn find_unwrapped(tree: &SyntaxTree, n: usize) -> (r: Option<usize>)
    requires
        tree.wf(),
        n < tree.len(),
    ensures
        r == unwrapped(*tree, n as int),
        r matches Some(c) ==> c < tree.len(),
    decreases tree.len() - n,
{
    if tree.kind_is(n, "parenthesized_expression") || tree.kind_is(n, "cast_expression") {
        match tree.named_child(n, 0) {
            Some(c) => find_unwrapped(tree, c),
            None => None,
        }
    } else {
        Some(n)
    }
}

/// `&base.member` or `&arr[i]`.
pub open spec fn addresses_member(t: SyntaxTree, source: Seq<char>, n: int) -> bool {
    &&& operator_of(t, source, n) == Some("&"@)
    &&& match pointer_operand(t, n) {
        Some(arg) => match unwrapped(t, arg as int) {
            Some(inner) => t.spec_kind(inner as int) == "field_expression"@ || t.spec_kind(
                inner as int,
            ) == "subscript_expression"@,
            None => false,
        },
        None => false,
    }
}

/// True when `node` is a `&base.member` or `&arr[i]` address expression. Such
/// arguments resolve to the base variable, so alias-style function models must
/// not treat them as whole-object copies.
pub fn is_addr_of_member(source: &str, tree: &SyntaxTree, node: usize) -> (r: bool)
    requires
        tree.fits(source@),
        node < tree.len(),
    ensures
        r == addresses_member(*tree, source@, node as int),
{
    if !op_is(source, tree, node, "&") {
        return false;
    }
    match pointer_arg(tree, node) {
        Some(arg) => match find_unwrapped(tree, arg) {
            Some(inner) => tree.kind_is(inner, "field_expression") || tree.kind_is(
                inner,
                "subscript_expression",
            ),
            None => false,
        },
        None => false,
    }
}

/// The variable an lvalue is, or is a part of.
pub open spec fn lvalue_var(v: VarNames, t: SyntaxTree, source: Seq<char>, n: int) -> Option<VarId>
    decreases t.len() - n,
    when t.wf() && 0 <= n < t.len()
    via lvalue_var_decreases
{
    let kind = t.spec_kind(n);
    if kind == "identifier"@ {
        v.spec_var(t.text(source, n))
    } else if kind == "pointer_expression"@ {
        match pointer_operand(t, n) {
            Some(c) => lvalue_var(v, t, source, c as int),
            None => None,
        }
    } else if kind == "field_expression"@ || kind == "subscript_expression"@ {
        match t.fielded(n, "argument"@) {
            Some(c) => lvalue_var(v, t, source, c as int),
            None => None,
        }
    } else if kind == "parenthesized_expression"@ {
        match t.named_first(n) {
            Some(c) => lvalue_var(v, t, source, c as int),
            None => None,
        }
    } else if kind == "cast_expression"@ {
        match cast_operand(t, n) {
            Some(c) => lvalue_var(v, t, source, c as int),
            None => None,
        }
    } else {
        None
    }
}

#[via_fn]
proof fn lvalue_var_decreases(v: VarNames, t: SyntaxTree, source: Seq<char>, n: int) {
    lemma_operands(t, n);
}

/// The variable whose value an expression is, or is read from.
pub open spec fn expr_var(v: VarNames, t: SyntaxTree, source: Seq<char>, n: int) -> Option<VarId>
    decreases t.len() - n,
    when t.wf() && 0 <= n < t.len()
    via expr_var_decreases
{
    let kind = t.spec_kind(n);
    if kind == "identifier"@ {
        v.spec_var(t.text(source, n))
    } else if kind == "pointer_expression"@ {
        match pointer_operand(t, n) {
            Some(c) => if operator_of(t, source, n) == Some("&"@) {
                lvalue_var(v, t, source, c as int)
            } else {
                expr_var(v, t, source, c as int)
            },
            None => None,
        }
    } else if kind == "field_expression"@ || kind == "subscript_expression"@ {
        match t.fielded(n, "argument"@) {
            Some(c) => expr_var(v, t, source, c as int),
            None => None,
        }
    } else if kind == "parenthesized_expression"@ {
        match t.named_first(n) {
            Some(c) => expr_var(v, t, source, c as int),
            None => None,
        }
    } else if kind == "cast_expression"@ {
        match cast_value(t, n) {
            Some(c) => expr_var(v, t, source, c as int),
            None => None,
        }
    } else {
        None
    }
}

#[via_fn]
proof fn expr_var_decreases(v: VarNames, t: SyntaxTree, source: Seq<char>, n: int) {
    lemma_operands(t, n);
}

/// The name of the function that a call calls directly.
pub open spec fn direct_call_name(t: SyntaxTree, source: Seq<char>, n: int) -> Option<Seq<char>>
    decreases t.len() - n,
    when t.wf() && 0 <= n < t.len()
    via direct_call_name_decreases
{
    match t.fielded(n, "function"@) {
        Some(f) => {
            let func = peeled(t, f as int);
            if t.spec_kind(func) == "identifier"@ {
                Some(t.text(source, func))
            } else if t.spec_kind(func) == "pointer_expression"@ || t.spec_kind(func)
                == "parenthesized_expression"@ {
                match t.named_first(func) {
                    Some(c) => direct_call_name(t, source, c as int),
                    None => None,
                }
            } else {
                None
            }
        },
        None => None,
    }
}

#[via_fn]
proof fn direct_call_name_decreases(t: SyntaxTree, source: Seq<char>, n: int) {
    lemma_operands(t, n);
    match t.fielded(n, "function"@) {
        Some(f) => {
            lemma_peeled(t, f as int);
            t.lemma_named(peeled(t, f as int));
        },
        None => {},
    }
}

pub proof fn lemma_peeled(t: SyntaxTree, n: int)
    requires
        t.wf(),
        0 <= n < t.len(),
    ensures
        n <= peeled(t, n) < t.len(),
    decreases t.len() - n,
{
    t.lemma_named(n);
    if t.spec_kind(n) == "parenthesized_expression"@ {
        match t.named_first(n) {
            Some(c) => {
                lemma_peeled(t, c as int);
            },
            None => {},
        }
    }
}

/// The name a call expression calls, where its callee is an identifier.
pub fn resolve_direct_call_name(source: &str, tree: &SyntaxTree, node: usize) -> (r: Option<
    String,
>)
    requires
        tree.fits(source@),
        node < tree.len(),
    ensures
        match r {
            Some(name) => direct_call_name(*tree, source@, node as int) == Some(name@),
            None => direct_call_name(*tree, source@, node as int) is None,
        },
    decreases tree.len() - node,
{
    let func = match tree.child_by_field_name(node, "function") {
        Some(f) => peel_expression(tree, f),
        None => {
            return None;
        },
    };
    if tree.kind_is(func, "identifier") {
        return Some(string_of(&chars_of(node_text(source, tree, func))));
    }
    if tree.kind_is(func, "pointer_expression") || tree.kind_is(func, "parenthesized_expression") {
        return match tree.named_child(func, 0) {
            Some(c) => resolve_direct_call_name(source, tree, c),
            None => None,
        };
    }
    None
}

impl VarNames {
    /// The variable an lvalue is, or is a part of.
    pub fn resolve_lvalue_var(&self, source: &str, tree: &SyntaxTree, node: usize) -> (r: Option<
        VarId,
    >)
        requires
            self.wf(),
            tree.fits(source@),
            node < tree.len(),
        ensures
            r == lvalue_var(*self, *tree, source@, node as int),
        decreases tree.len() - node,
    {
        let next = if tree.kind_is(node, "identifier") {
            return self.lookup_var(node_text(source, tree, node));
        } else if tree.kind_is(node, "pointer_expression") {
            pointer_arg(tree, node)
        } else if tree.kind_is(node, "field_expression") || tree.kind_is(
            node,
            "subscript_expression",
        ) {
            tree.child_by_field_name(node, "argument")
        } else if tree.kind_is(node, "parenthesized_expression") {
            tree.named_child(node, 0)
        } else if tree.kind_is(node, "cast_expression") {
            find_cast_operand(tree, node)
        } else {
            None
        };
        match next {
            Some(c) => self.resolve_lvalue_var(source, tree, c),
            None => None,
        }
    }

    /// The variable whose value an expression is, or is read from: through
    /// pointers, members, elements, parentheses and casts.
    pub fn resolve_expr_var(&self, source: &str, tree: &SyntaxTree, node: usize) -> (r: Option<
        VarId,
    >)
        requires
            self.wf(),
            tree.fits(source@),
            node < tree.len(),
        ensures
            r == expr_var(*self, *tree, source@, node as int),
        decreases tree.len() - node,
    {
        if tree.kind_is(node, "identifier") {
            return self.lookup_var(node_text(source, tree, node));
        }
        if tree.kind_is(node, "pointer_expression") {
            return match pointer_arg(tree, node) {
                Some(c) => if op_is(source, tree, node, "&") {
                    self.resolve_lvalue_var(source, tree, c)
                } else {
                    self.resolve_expr_var(source, tree, c)
                },
                None => None,
            };
        }
        let next = if tree.kind_is(node, "field_expression") || tree.kind_is(
            node,
            "subscript_expression",
        ) {
            tree.child_by_field_name(node, "argument")
        } else if tree.kind_is(node, "parenthesized_expression") {
            tree.named_child(node, 0)
        } else if tree.kind_is(node, "cast_expression") {
            find_cast_value(tree, node)
        } else {
            None
        };
        match next {
            Some(c) => self.resolve_expr_var(source, tree, c),
            None => None,
        }
    }

    /// The function a call calls directly: its name, unless it names a
    /// variable.
    pub fn resolve_direct_call(&self, source: &str, tree: &SyntaxTree, node: usize) -> (r: Option<
        String,
    >)
        requires
            self.wf(),
            tree.fits(source@),
            node < tree.len(),
        ensures
            match r {
                Some(name) => spec_direct_call(*self, *tree, source@, node as int) == Some(name@),
                None => spec_direct_call(*self, *tree, source@, node as int) is None,
            },
    {
        match resolve_direct_call_name(source, tree, node) {
            Some(name) => if self.lookup_var(name.as_str()).is_some() {
                None
            } else {
                Some(name)
            },
            None => None,
        }
    }
}

/// The function that a call calls directly, where it names no variable.
pub open spec fn spec_direct_call(
    v: VarNames,
    t: SyntaxTree,
    source: Seq<char>,
    n: int,
) -> Option<Seq<char>> {
    match direct_call_name(t, source, n) {
        Some(name) => if v.spec_var(name) is Some {
            None
        } else {
            Some(name)
        },
        None => None,
    }
}

} // verus!
