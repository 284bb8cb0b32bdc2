//! How the values of expressions flow: into the target of an assignment or an
//! initializer, and out of a function; and what a call calls.

use crate::expr;
use crate::expr::{
    peel_casts, peel_expression, pointer_arg, resolve_direct_call_name, FnNames, VarNames,
};
use crate::ir::{FnId, VarId};
use crate::literal;
use crate::literal::decode_c_string_literal;
use crate::normalize;
use crate::normalize::{arguments_stripped, is_symbol_lookup_callee, requalified};
use crate::parse::node_text;
use crate::syntax::SyntaxTree;
use crate::text::{append, chars_of, string_of};
use vstd::prelude::*;

verus! {

/// The contents of the string literals among the first `k` children of `n`,
/// put together, and whether there is one; none where one cannot be decoded.
pub open spec fn literals_upto(t: SyntaxTree, source: Seq<char>, n: int, k: int) -> Option<
    (Seq<char>, bool),
>
    decreases k,
{
    if k <= 0 || k > t.children(n).len() {
        Some((seq![], false))
    } else {
        let c = t.children(n)[k - 1] as int;
        if t.spec_kind(c) == "string_literal"@ {
            match (
                literals_upto(t, source, n, k - 1),
                literal::literal_contents(t.text(source, c)),
            ) {
                (Some((before, _)), Some(own)) => Some((before + own, true)),
                _ => None,
            }
        } else {
            literals_upto(t, source, n, k - 1)
        }
    }
}

/// The contents of a string expression.
pub open spec fn string_value(t: SyntaxTree, source: Seq<char>, n: int) -> Option<Seq<char>> {
    let m = expr::uncast(t, n);
    if t.spec_kind(m) == "string_literal"@ {
        literal::literal_contents(t.text(source, m))
    } else if t.spec_kind(m) == "concatenated_string"@ {
        match literals_upto(t, source, m, t.children(m).len() as int) {
            Some((value, true)) => Some(value),
            _ => None,
        }
    } else {
        None
    }
}

/// The contents of a string literal or of concatenated ones, below casts and
/// parentheses.
pub fn string_literal_value(source: &str, tree: &SyntaxTree, node: usize) -> (r: Option<String>)
    requires
        tree.fits(source@),
        node < tree.len(),
    ensures
        match r {
            Some(value) => string_value(*tree, source@, node as int) == Some(value@),
            None => string_value(*tree, source@, node as int) is None,
        },
{
    let m = peel_casts(tree, node);
    if tree.kind_is(m, "string_literal") {
        return decode_c_string_literal(node_text(source, tree, m));
    }
    if !tree.kind_is(m, "concatenated_string") {
        return None;
    }
    let mut out: Vec<char> = Vec::new();
    let mut any = false;
    let mut failed = false;
    let mut k: usize = 0;
    while k < tree.kids[m].len()
        invariant
            tree.fits(source@),
            m < tree.len(),
            k <= tree.children(m as int).len(),
            literals_upto(*tree, source@, m as int, k as int) == if failed {
                None
            } else {
                Some((out@, any))
            },
        decreases tree.children(m as int).len() - k,
    {
        let c = tree.kids[m][k];
        assert(c == tree.children(m as int)[k as int]);
        if tree.kind_is(c, "string_literal") {
            match decode_c_string_literal(node_text(source, tree, c)) {
                Some(own) => {
                    append(&mut out, &chars_of(own.as_str()));
                    any = true;
                },
                None => {
                    failed = true;
                },
            }
        }
        k += 1;
    }
    if any && !failed {
        Some(string_of(&out))
    } else {
        None
    }
}

/// Every member access and every element access of the tree says what it
/// accesses.
pub open spec fn accesses_complete(t: SyntaxTree) -> bool {
    forall|n: int|
        0 <= n < t.len() && (#[trigger] t.spec_kind(n) == "field_expression"@ || t.spec_kind(n)
            == "subscript_expression"@) ==> t.fielded(n, "argument"@) is Some
}

/// Whether every member access and element access says what it accesses, as
/// the grammars promise.
pub fn accesses_are_complete(tree: &SyntaxTree) -> (r: bool)
    requires
        tree.wf(),
    ensures
        r == accesses_complete(*tree),
{
    let mut n: usize = 0;
    while n < tree.rows.len()
        invariant
            tree.wf(),
            n <= tree.len(),
            forall|i: int|
                0 <= i < n && (#[trigger] tree.spec_kind(i) == "field_expression"@
                    || tree.spec_kind(i) == "subscript_expression"@) ==> tree.fielded(
                    i,
                    "argument"@,
                ) is Some,
        decreases tree.len() - n,
    {
        if tree.kind_is(n, "field_expression") || tree.kind_is(n, "subscript_expression") {
            if tree.child_by_field_name(n, "argument").is_none() {
                assert(tree.spec_kind(n as int) == "field_expression"@ || tree.spec_kind(n as int)
                    == "subscript_expression"@);
                return false;
            }
        }
        n += 1;
    }
    true
}

/// A member access spelled with arrows throughout.
pub open spec fn access_text(t: SyntaxTree, source: Seq<char>, n: int) -> Seq<char>
    decreases t.len() - n,
    when t.wf() && 0 <= n < t.len()
    via access_text_decreases
{
    match (t.spec_kind(n) == "field_expression"@, t.fielded(n, "argument"@)) {
        (true, Some(arg)) => {
            let inner = access_text(t, source, arg as int);
            match t.fielded(n, "field"@) {
                Some(f) => inner + "->"@ + t.text(source, f as int),
                None => inner,
            }
        },
        _ => t.text(source, n),
    }
}

#[via_fn]
proof fn access_text_decreases(t: SyntaxTree, source: Seq<char>, n: int) {
    t.lemma_fielded(n, "argument"@);
}

fn access_chars(source: &str, tree: &SyntaxTree, n: usize) -> (r: Vec<char>)
    requires
        tree.fits(source@),
        n < tree.len(),
    ensures
        r@ == access_text(*tree, source@, n as int),
    decreases tree.len() - n,
{
    if !tree.kind_is(n, "field_expression") {
        return chars_of(node_text(source, tree, n));
    }
    match tree.child_by_field_name(n, "argument") {
        Some(arg) => {
            let mut out = access_chars(source, tree, arg);
            match tree.child_by_field_name(n, "field") {
                Some(f) => {
                    append(&mut out, &chars_of("->"));
                    append(&mut out, &chars_of(node_text(source, tree, f)));
                },
                None => {},
            }
            out
        },
        None => chars_of(node_text(source, tree, n)),
    }
}

/// A callee reached through members, spelled with arrows: the `->` in the name
/// keeps it from being resolved by name.
pub fn field_callee_text(source: &str, tree: &SyntaxTree, node: usize) -> (r: String)
    requires
        tree.fits(source@),
        node < tree.len(),
    ensures
        r@ == access_text(*tree, source@, expr::peeled(*tree, node as int)),
{
    let n = peel_expression(tree, node);
    string_of(&access_chars(source, tree, n))
}

/// What a call calls: the name it goes by, whether it is known to be a
/// function, and the variable it goes through.
#[derive(Debug, PartialEq, Eq)]
pub struct Callee {
    pub name: String,
    pub is_direct: bool,
    pub var: Option<VarId>,
}

pub struct CalleeView {
    pub name: Seq<char>,
    pub is_direct: bool,
    pub var: Option<VarId>,
}

impl View for Callee {
    type V = CalleeView;

    open spec fn view(&self) -> CalleeView {
        CalleeView { name: self.name@, is_direct: self.is_direct, var: self.var }
    }
}

pub open spec fn callee_named(name: Seq<char>, is_direct: bool, var: Option<VarId>) -> CalleeView {
    CalleeView { name, is_direct, var }
}

/// What the callee expression `n` calls.
pub open spec fn callee_of(
    v: VarNames,
    f: FnNames,
    t: SyntaxTree,
    source: Seq<char>,
    n: int,
) -> CalleeView
    decreases t.len() - n,
    when t.wf() && 0 <= n < t.len()
    via callee_of_decreases
{
    let m = expr::peeled(t, n);
    let kind = t.spec_kind(m);
    let own = t.text(source, m);
    let indirect = callee_named("<indirect>"@, false, None);
    if kind == "identifier"@ {
        match v.spec_var(own) {
            Some(var) => callee_named(own, false, Some(var)),
            None => callee_named(own, f.spec_named(own) is Some, None),
        }
    } else if kind == "qualified_identifier"@ {
        callee_named(normalize::qualified_text(own), false, None)
    } else if kind == "template_function"@ {
        let name = normalize::without_arguments(normalize::qualified_text(own));
        match v.spec_var(name) {
            Some(var) => callee_named(name, false, Some(var)),
            None => callee_named(name, true, None),
        }
    } else if kind == "pointer_expression"@ || kind == "parenthesized_expression"@ {
        match t.named_first(m) {
            Some(c) => callee_of(v, f, t, source, c as int),
            None => indirect,
        }
    } else if kind == "cast_expression"@ {
        match expr::cast_value(t, m) {
            Some(c) => callee_of(v, f, t, source, c as int),
            None => indirect,
        }
    } else if kind == "field_expression"@ {
        let field = match t.fielded(m, "field"@) {
            Some(c) => t.text(source, c as int),
            None => "field"@,
        };
        let arg = t.fielded(m, "argument"@)->0 as int;
        match expr::lvalue_var(v, t, source, arg) {
            Some(var) => callee_named(t.text(source, arg) + "->"@ + field, false, Some(var)),
            None => callee_named(field, false, None),
        }
    } else if kind == "subscript_expression"@ {
        let arr = t.fielded(m, "argument"@)->0 as int;
        match expr::lvalue_var(v, t, source, arr) {
            Some(var) => callee_named(t.text(source, arr) + "[...]"@, false, Some(var)),
            None => indirect,
        }
    } else {
        callee_named(own, false, None)
    }
}

#[via_fn]
proof fn callee_of_decreases(v: VarNames, f: FnNames, t: SyntaxTree, source: Seq<char>, n: int) {
    expr::lemma_peeled(t, n);
    expr::lemma_operands(t, expr::peeled(t, n));
}

/// The member access or element access that a callee expression comes down to,
/// if it is one, says what it accesses.
pub open spec fn names_operand(t: SyntaxTree, n: int) -> bool
    decreases t.len() - n,
    when t.wf() && 0 <= n < t.len()
    via names_operand_decreases
{
    let m = expr::peeled(t, n);
    let kind = t.spec_kind(m);
    if kind == "pointer_expression"@ || kind == "parenthesized_expression"@ {
        t.named_first(m) matches Some(c) ==> names_operand(t, c as int)
    } else if kind == "cast_expression"@ {
        expr::cast_value(t, m) matches Some(c) ==> names_operand(t, c as int)
    } else if kind == "field_expression"@ || kind == "subscript_expression"@ {
        t.fielded(m, "argument"@) is Some
    } else {
        true
    }
}

#[via_fn]
proof fn names_operand_decreases(t: SyntaxTree, n: int) {
    expr::lemma_peeled(t, n);
    expr::lemma_operands(t, expr::peeled(t, n));
}

/// Where every access of a tree says what it accesses, so does every callee.
pub proof fn law_complete_trees_name_operands(t: SyntaxTree, n: int)
    requires
        t.wf(),
        0 <= n < t.len(),
        accesses_complete(t),
    ensures
        names_operand(t, n),
    decreases t.len() - n,
{
    expr::lemma_peeled(t, n);
    let m = expr::peeled(t, n);
    expr::lemma_operands(t, m);
    let kind = t.spec_kind(m);
    if kind == "pointer_expression"@ || kind == "parenthesized_expression"@ {
        if let Some(c) = t.named_first(m) {
            law_complete_trees_name_operands(t, c as int);
        }
    } else if kind == "cast_expression"@ {
        if let Some(c) = expr::cast_value(t, m) {
            law_complete_trees_name_operands(t, c as int);
        }
    }
}

fn plain_callee(name: &[char], is_direct: bool, var: Option<VarId>) -> (r: Callee)
    ensures
        r@ == callee_named(name@, is_direct, var),
{
    Callee { name: string_of(name), is_direct, var }
}

/// What a callee expression calls: a variable or a function by name, a member
/// or an element through the variable it is in, or something indirect.
pub fn resolve_callee(
    vars: &VarNames,
    fns: &FnNames,
    source: &str,
    tree: &SyntaxTree,
    node: usize,
) -> (r: Callee)
    requires
        vars.wf(),
        tree.fits(source@),
        node < tree.len(),
        names_operand(*tree, node as int),
    ensures
        r@ == callee_of(*vars, *fns, *tree, source@, node as int),
    decreases tree.len() - node,
{
    let m = peel_expression(tree, node);
    let own = node_text(source, tree, m);
    let spelled = chars_of(own);
    if tree.kind_is(m, "identifier") {
        return match vars.lookup_var(own) {
            Some(var) => plain_callee(&spelled, false, Some(var)),
            None => plain_callee(&spelled, fns.resolve_function_named(own).is_some(), None),
        };
    }
    if tree.kind_is(m, "qualified_identifier") {
        return plain_callee(&requalified(&spelled), false, None);
    }
    if tree.kind_is(m, "template_function") {
        let name = arguments_stripped(&requalified(&spelled));
        return match vars.lookup_var(string_of(&name).as_str()) {
            Some(var) => plain_callee(&name, false, Some(var)),
            None => plain_callee(&name, true, None),
        };
    }
    if tree.kind_is(m, "pointer_expression") || tree.kind_is(m, "parenthesized_expression") {
        return match tree.named_child(m, 0) {
            Some(c) => resolve_callee(vars, fns, source, tree, c),
            None => plain_callee(&chars_of("<indirect>"), false, None),
        };
    }
    if tree.kind_is(m, "cast_expression") {
        return match expr::find_cast_value(tree, m) {
            Some(c) => resolve_callee(vars, fns, source, tree, c),
            None => plain_callee(&chars_of("<indirect>"), false, None),
        };
    }
    if tree.kind_is(m, "field_expression") {
        assert(tree.spec_kind(m as int) == "field_expression"@);
        let field = match tree.child_by_field_name(m, "field") {
            Some(c) => chars_of(node_text(source, tree, c)),
            None => chars_of("field"),
        };
        return match tree.child_by_field_name(m, "argument") {
            Some(arg) => match vars.resolve_lvalue_var(source, tree, arg) {
                Some(var) => {
                    let mut name = chars_of(node_text(source, tree, arg));
                    append(&mut name, &chars_of("->"));
                    append(&mut name, &field);
                    plain_callee(&name, false, Some(var))
                },
                None => plain_callee(&field, false, None),
            },
            None => plain_callee(&field, false, None),
        };
    }
    if tree.kind_is(m, "subscript_expression") {
        assert(tree.spec_kind(m as int) == "subscript_expression"@);
        return match tree.child_by_field_name(m, "argument") {
            Some(arr) => match vars.resolve_lvalue_var(source, tree, arr) {
                Some(var) => {
                    let mut name = chars_of(node_text(source, tree, arr));
                    append(&mut name, &chars_of("[...]"));
                    plain_callee(&name, false, Some(var))
                },
                None => plain_callee(&chars_of("<indirect>"), false, None),
            },
            None => plain_callee(&chars_of("<indirect>"), false, None),
        };
    }
    plain_callee(&spelled, false, None)
}

/// How the value of an expression reaches its destination.
#[derive(Debug, PartialEq, Eq)]
pub enum RhsFlow {
    /// The address of a function.
    Function(FnId),
    /// The value of a variable.
    Copy(VarId),
    /// What a variable points to.
    Load(VarId),
    /// The address of a variable.
    Address(VarId),
    /// The contents of a string.
    Text(String),
    /// A member of the class being lowered, read through `this`; a name that
    /// is none may be a function defined later in the unit.
    MemberOrLater(String),
    /// The address of a member path; where it is none, what stands beside.
    MemberAddress(usize, Box<RhsFlow>),
    /// The address of something named, that may be a function defined later.
    AddressLater(String),
    /// A lambda, lowered as a function of its own.
    Lambda(usize),
    /// The result of a call by name.
    Call(usize, String),
    /// The result of a call through something else.
    CallIndirect(usize),
    /// A value read from a member path.
    Member(usize),
    /// An object allocated by `new`.
    New(usize),
    /// Nothing flows.
    Nothing,
}

pub enum RhsView {
    Function(FnId),
    Copy(VarId),
    Load(VarId),
    Address(VarId),
    Text(Seq<char>),
    MemberOrLater(Seq<char>),
    MemberAddress(usize, Box<RhsView>),
    AddressLater(Seq<char>),
    Lambda(usize),
    Call(usize, Seq<char>),
    CallIndirect(usize),
    Member(usize),
    New(usize),
    Nothing,
}

impl RhsFlow {
    pub open spec fn view(&self) -> RhsView
        decreases self,
    {
        match self {
            RhsFlow::Function(f) => RhsView::Function(*f),
            RhsFlow::Copy(v) => RhsView::Copy(*v),
            RhsFlow::Load(v) => RhsView::Load(*v),
            RhsFlow::Address(v) => RhsView::Address(*v),
            RhsFlow::Text(s) => RhsView::Text(s@),
            RhsFlow::MemberOrLater(s) => RhsView::MemberOrLater(s@),
            RhsFlow::MemberAddress(n, other) => RhsView::MemberAddress(*n, Box::new(other.view())),
            RhsFlow::AddressLater(s) => RhsView::AddressLater(s@),
            RhsFlow::Lambda(n) => RhsView::Lambda(*n),
            RhsFlow::Call(n, name) => RhsView::Call(*n, name@),
            RhsFlow::CallIndirect(n) => RhsView::CallIndirect(*n),
            RhsFlow::Member(n) => RhsView::Member(*n),
            RhsFlow::New(n) => RhsView::New(*n),
            RhsFlow::Nothing => RhsView::Nothing,
        }
    }
}

/// How the address of `arg` flows.
pub open spec fn address_flow(
    v: VarNames,
    f: FnNames,
    t: SyntaxTree,
    source: Seq<char>,
    arg: int,
) -> RhsView {
    let own = t.text(source, arg);
    if t.spec_kind(arg) == "identifier"@ && f.spec_named(own) is Some {
        RhsView::Function(f.spec_named(own)->0)
    } else {
        RhsView::MemberAddress(
            arg as usize,
            Box::new(
                match expr::lvalue_var(v, t, source, arg) {
                    Some(src) => RhsView::Address(src),
                    None => if t.spec_kind(arg) == "identifier"@ {
                        RhsView::AddressLater(own)
                    } else {
                        RhsView::Nothing
                    },
                },
            ),
        )
    }
}

/// How the value of `n` flows into a destination.
pub open spec fn value_flow(
    v: VarNames,
    f: FnNames,
    t: SyntaxTree,
    source: Seq<char>,
    is_cpp: bool,
    n: int,
) -> RhsView
    decreases t.len() - n,
    when t.wf() && 0 <= n < t.len()
    via value_flow_decreases
{
    let kind = t.spec_kind(n);
    let own = t.text(source, n);
    if kind == "identifier"@ {
        match (f.spec_in_scope(own), v.spec_var(own)) {
            (Some(callee), _) => RhsView::Function(callee),
            (None, Some(src)) => RhsView::Copy(src),
            (None, None) => RhsView::MemberOrLater(own),
        }
    } else if kind == "pointer_expression"@ {
        match expr::pointer_operand(t, n) {
            Some(arg) => if expr::operator_of(t, source, n) == Some("&"@) {
                address_flow(v, f, t, source, arg as int)
            } else if expr::operator_of(t, source, n) == Some("*"@) {
                match expr::lvalue_var(v, t, source, arg as int) {
                    Some(src) => RhsView::Load(src),
                    None => RhsView::Nothing,
                }
            } else {
                RhsView::Nothing
            },
            None => RhsView::Nothing,
        }
    } else if kind == "cast_expression"@ {
        match expr::cast_operand(t, n) {
            Some(c) => value_flow(v, f, t, source, is_cpp, c as int),
            None => RhsView::Nothing,
        }
    } else if kind == "parenthesized_expression"@ {
        match t.named_first(n) {
            Some(c) => value_flow(v, f, t, source, is_cpp, c as int),
            None => RhsView::Nothing,
        }
    } else if kind == "lambda_expression"@ && is_cpp {
        RhsView::Lambda(n as usize)
    } else if kind == "string_literal"@ || kind == "concatenated_string"@ {
        match string_value(t, source, n) {
            Some(value) => RhsView::Text(value),
            None => RhsView::Nothing,
        }
    } else if kind == "call_expression"@ {
        match expr::spec_direct_call(v, t, source, n) {
            Some(name) => RhsView::Call(n as usize, name),
            None => RhsView::CallIndirect(n as usize),
        }
    } else if kind == "field_expression"@ {
        RhsView::Member(n as usize)
    } else if kind == "new_expression"@ && is_cpp {
        RhsView::New(n as usize)
    } else {
        match expr::expr_var(v, t, source, n) {
            Some(src) => RhsView::Copy(src),
            None => RhsView::Nothing,
        }
    }
}

#[via_fn]
proof fn value_flow_decreases(
    v: VarNames,
    f: FnNames,
    t: SyntaxTree,
    source: Seq<char>,
    is_cpp: bool,
    n: int,
) {
    expr::lemma_operands(t, n);
}

fn address_of(
    vars: &VarNames,
    fns: &FnNames,
    source: &str,
    tree: &SyntaxTree,
    arg: usize,
) -> (r: RhsFlow)
    requires
        vars.wf(),
        tree.fits(source@),
        arg < tree.len(),
    ensures
        r@ == address_flow(*vars, *fns, *tree, source@, arg as int),
{
    let own = node_text(source, tree, arg);
    let is_name = tree.kind_is(arg, "identifier");
    if is_name {
        match fns.resolve_function_named(own) {
            Some(callee) => {
                return RhsFlow::Function(callee);
            },
            None => {},
        }
    }
    let otherwise = match vars.resolve_lvalue_var(source, tree, arg) {
        Some(src) => RhsFlow::Address(src),
        None => if is_name {
            RhsFlow::AddressLater(string_of(&chars_of(own)))
        } else {
            RhsFlow::Nothing
        },
    };
    proof {
        reveal_with_fuel(RhsFlow::view, 2);
    }
    RhsFlow::MemberAddress(arg, Box::new(otherwise))
}

/// How the value of an expression flows into its destination. A name is a
/// function in scope before it is a variable; the address of a name is a
/// function before a member path or a variable; parentheses and casts pass
/// their operand on. What the types of members decide, and what lambdas,
/// calls and allocations do, is handed out.
pub fn expr_to_rhs_flow(
    vars: &VarNames,
    fns: &FnNames,
    source: &str,
    tree: &SyntaxTree,
    is_cpp: bool,
    node: usize,
) -> (r: RhsFlow)
    requires
        vars.wf(),
        tree.fits(source@),
        node < tree.len(),
    ensures
        r@ == value_flow(*vars, *fns, *tree, source@, is_cpp, node as int),
    decreases tree.len() - node,
{
    let own = node_text(source, tree, node);
    if tree.kind_is(node, "identifier") {
        return match fns.resolve_in_scope(own) {
            Some(callee) => RhsFlow::Function(callee),
            None => match vars.lookup_var(own) {
                Some(src) => RhsFlow::Copy(src),
                None => RhsFlow::MemberOrLater(string_of(&chars_of(own))),
            },
        };
    }
    if tree.kind_is(node, "pointer_expression") {
        return match pointer_arg(tree, node) {
            Some(arg) => if expr::op_is(source, tree, node, "&") {
                address_of(vars, fns, source, tree, arg)
            } else if expr::op_is(source, tree, node, "*") {
                match vars.resolve_lvalue_var(source, tree, arg) {
                    Some(src) => RhsFlow::Load(src),
                    None => RhsFlow::Nothing,
                }
            } else {
                RhsFlow::Nothing
            },
            None => RhsFlow::Nothing,
        };
    }
    if tree.kind_is(node, "cast_expression") {
        return match expr::find_cast_operand(tree, node) {
            Some(c) => expr_to_rhs_flow(vars, fns, source, tree, is_cpp, c),
            None => RhsFlow::Nothing,
        };
    }
    if tree.kind_is(node, "parenthesized_expression") {
        return match tree.named_child(node, 0) {
            Some(c) => expr_to_rhs_flow(vars, fns, source, tree, is_cpp, c),
            None => RhsFlow::Nothing,
        };
    }
    if is_cpp && tree.kind_is(node, "lambda_expression") {
        return RhsFlow::Lambda(node);
    }
    if tree.kind_is(node, "string_literal") || tree.kind_is(node, "concatenated_string") {
        return match string_literal_value(source, tree, node) {
            Some(value) => RhsFlow::Text(value),
            None => RhsFlow::Nothing,
        };
    }
    if tree.kind_is(node, "call_expression") {
        return match vars.resolve_direct_call(source, tree, node) {
            Some(name) => RhsFlow::Call(node, name),
            None => RhsFlow::CallIndirect(node),
        };
    }
    if tree.kind_is(node, "field_expression") {
        return RhsFlow::Member(node);
    }
    if is_cpp && tree.kind_is(node, "new_expression") {
        return RhsFlow::New(node);
    }
    match vars.resolve_expr_var(source, tree, node) {
        Some(src) => RhsFlow::Copy(src),
        None => RhsFlow::Nothing,
    }
}

/// What a `return` hands out.
#[derive(Debug, PartialEq, Eq)]
pub enum ReturnStep {
    Function(FnId),
    Copy(VarId),
    Address(VarId),
    /// The result of a call by name.
    Call(String),
    /// The result of a call that looks a symbol up at run time, kept in a
    /// variable of its own so that the call site can be modelled.
    Lookup(usize, String),
    /// A name that may be a function defined later in the unit.
    Later(String),
    /// The address of a member path; where it is none, what stands beside.
    MemberAddress(usize, Box<ReturnStep>),
    /// The address of a name that may be a function defined later.
    AddressLater(String),
    Nothing,
}

pub enum ReturnView {
    Function(FnId),
    Copy(VarId),
    Address(VarId),
    Call(Seq<char>),
    Lookup(usize, Seq<char>),
    Later(Seq<char>),
    MemberAddress(usize, Box<ReturnView>),
    AddressLater(Seq<char>),
    Nothing,
}

impl ReturnStep {
    pub open spec fn view(&self) -> ReturnView
        decreases self,
    {
        match self {
            ReturnStep::Function(f) => ReturnView::Function(*f),
            ReturnStep::Copy(v) => ReturnView::Copy(*v),
            ReturnStep::Address(v) => ReturnView::Address(*v),
            ReturnStep::Call(s) => ReturnView::Call(s@),
            ReturnStep::Lookup(n, s) => ReturnView::Lookup(*n, s@),
            ReturnStep::Later(s) => ReturnView::Later(s@),
            ReturnStep::MemberAddress(n, other) => ReturnView::MemberAddress(
                *n,
                Box::new(other.view()),
            ),
            ReturnStep::AddressLater(s) => ReturnView::AddressLater(s@),
            ReturnStep::Nothing => ReturnView::Nothing,
        }
    }
}

/// The names of functions that look a symbol up at run time.
pub open spec fn looks_up(name: Seq<char>) -> bool {
    let last = normalize::last_segment(name);
    last == "dlsym"@ || last == "dlvsym"@ || last == "GetProcAddress"@
}

/// What returning `n` hands out.
pub open spec fn returned(
    v: VarNames,
    f: FnNames,
    t: SyntaxTree,
    source: Seq<char>,
    n: int,
) -> ReturnView
    decreases t.len() - n,
    when t.wf() && 0 <= n < t.len()
    via returned_decreases
{
    let m = expr::peeled(t, n);
    let kind = t.spec_kind(m);
    let own = t.text(source, m);
    if kind == "pointer_expression"@ {
        match (expr::pointer_operand(t, m), expr::operator_of(t, source, m) == Some("&"@)) {
            (Some(arg), true) => {
                let name = t.text(source, arg as int);
                let is_name = t.spec_kind(arg as int) == "identifier"@;
                if is_name && f.spec_named(name) is Some {
                    ReturnView::Function(f.spec_named(name)->0)
                } else {
                    ReturnView::MemberAddress(
                        arg,
                        Box::new(
                            match expr::lvalue_var(v, t, source, arg as int) {
                                Some(src) => ReturnView::Address(src),
                                None => if is_name {
                                    ReturnView::AddressLater(name)
                                } else {
                                    ReturnView::Nothing
                                },
                            },
                        ),
                    )
                }
            },
            _ => ReturnView::Nothing,
        }
    } else if kind == "identifier"@ {
        match (v.spec_var(own), f.spec_in_scope(own)) {
            (Some(src), _) => ReturnView::Copy(src),
            (None, Some(callee)) => ReturnView::Function(callee),
            (None, None) => ReturnView::Later(own),
        }
    } else if kind == "call_expression"@ {
        match expr::direct_call_name(t, source, m) {
            Some(name) => if looks_up(name) {
                ReturnView::Lookup(m as usize, name)
            } else {
                ReturnView::Call(name)
            },
            None => ReturnView::Nothing,
        }
    } else if kind == "cast_expression"@ {
        match expr::cast_operand(t, m) {
            Some(c) => returned(v, f, t, source, c as int),
            None => ReturnView::Nothing,
        }
    } else {
        ReturnView::Nothing
    }
}

#[via_fn]
proof fn returned_decreases(v: VarNames, f: FnNames, t: SyntaxTree, source: Seq<char>, n: int) {
    expr::lemma_peeled(t, n);
    expr::lemma_operands(t, expr::peeled(t, n));
}

/// What a `return` hands out. A declared name shadows a function of the same
/// name, so the variable is asked first.
pub fn return_flow_from_expr(
    vars: &VarNames,
    fns: &FnNames,
    source: &str,
    tree: &SyntaxTree,
    node: usize,
) -> (r: ReturnStep)
    requires
        vars.wf(),
        tree.fits(source@),
        node < tree.len(),
    ensures
        r@ == returned(*vars, *fns, *tree, source@, node as int),
    decreases tree.len() - node,
{
    let m = peel_expression(tree, node);
    let own = node_text(source, tree, m);
    if tree.kind_is(m, "pointer_expression") {
        let is_address = expr::op_is(source, tree, m, "&");
        let arg = match pointer_arg(tree, m) {
            Some(arg) => arg,
            None => {
                return ReturnStep::Nothing;
            },
        };
        if !is_address {
            return ReturnStep::Nothing;
        }
        let name = node_text(source, tree, arg);
        let is_name = tree.kind_is(arg, "identifier");
        if is_name {
            match fns.resolve_function_named(name) {
                Some(callee) => {
                    return ReturnStep::Function(callee);
                },
                None => {},
            }
        }
        let otherwise = match vars.resolve_lvalue_var(source, tree, arg) {
            Some(src) => ReturnStep::Address(src),
            None => if is_name {
                ReturnStep::AddressLater(string_of(&chars_of(name)))
            } else {
                ReturnStep::Nothing
            },
        };
        proof {
            reveal_with_fuel(ReturnStep::view, 2);
        }
        return ReturnStep::MemberAddress(arg, Box::new(otherwise));
    }
    if tree.kind_is(m, "identifier") {
        return match vars.lookup_var(own) {
            Some(src) => ReturnStep::Copy(src),
            None => match fns.resolve_in_scope(own) {
                Some(callee) => ReturnStep::Function(callee),
                None => ReturnStep::Later(string_of(&chars_of(own))),
            },
        };
    }
    if tree.kind_is(m, "call_expression") {
        return match resolve_direct_call_name(source, tree, m) {
            Some(name) => if is_symbol_lookup_callee(name.as_str()) {
                ReturnStep::Lookup(m, name)
            } else {
                ReturnStep::Call(name)
            },
            None => ReturnStep::Nothing,
        };
    }
    if tree.kind_is(m, "cast_expression") {
        return match expr::find_cast_operand(tree, m) {
            Some(c) => return_flow_from_expr(vars, fns, source, tree, c),
            None => ReturnStep::Nothing,
        };
    }
    ReturnStep::Nothing
}

} // verus!
