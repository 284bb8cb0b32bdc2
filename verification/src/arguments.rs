//! The arguments of a call: their positions, their values and their types.

use vstd::prelude::*;

use crate::calls::CallArgs;
use crate::expr;
use crate::expr::{is_addr_of_member, peel_expression, pointer_arg, FnNames, VarNames};
use crate::flows;
use crate::flows::string_literal_value;
use crate::infer;
use crate::infer::Typing;
use crate::ir::{copy_desc, DescView, FnId, TypeDesc, VarId};
use crate::literal;
use crate::literal::number_literal_desc;
use crate::parse::node_text;
use crate::receivers;
use crate::receivers::{count_stars, pointer_layers};
use crate::syntax::SyntaxTree;
use crate::text::chars_of;
use crate::types;

verus! {

/// What an argument passes.
#[derive(Debug, Clone, Copy, PartialEq, Eq, Structural)]
pub enum ArgValue {
    Var(VarId),
    /// The address of a member of the variable.
    MemberOf(VarId),
    Fn(FnId),
    /// A value that is neither, such as a literal.
    Value,
}

/// The variables among the first `k` arguments, with their positions.
pub open spec fn var_positions(values: Seq<ArgValue>, k: int) -> Seq<(u32, VarId)>
    decreases k,
{
    if k <= 0 {
        Seq::empty()
    } else {
        match values[k - 1] {
            ArgValue::Var(v) => var_positions(values, k - 1).push(((k - 1) as u32, v)),
            ArgValue::MemberOf(v) => var_positions(values, k - 1).push(((k - 1) as u32, v)),
            _ => var_positions(values, k - 1),
        }
    }
}

/// The functions among the first `k` arguments, with their positions.
pub open spec fn fn_positions(values: Seq<ArgValue>, k: int) -> Seq<(u32, FnId)>
    decreases k,
{
    if k <= 0 {
        Seq::empty()
    } else {
        match values[k - 1] {
            ArgValue::Fn(f) => fn_positions(values, k - 1).push(((k - 1) as u32, f)),
            _ => fn_positions(values, k - 1),
        }
    }
}

/// The positions among the first `k` where a member's address is passed.
pub open spec fn member_positions(values: Seq<ArgValue>, k: int) -> Seq<u32>
    decreases k,
{
    if k <= 0 {
        Seq::empty()
    } else {
        match values[k - 1] {
            ArgValue::MemberOf(_) => member_positions(values, k - 1).push((k - 1) as u32),
            _ => member_positions(values, k - 1),
        }
    }
}

/// The arguments that pass these values.
pub open spec fn is_args_of(args: CallArgs, values: Seq<ArgValue>) -> bool {
    &&& args.var_args@ == var_positions(values, values.len() as int)
    &&& args.fn_args@ == fn_positions(values, values.len() as int)
    &&& args.addr_of_member_args@ == member_positions(values, values.len() as int)
    &&& args.argc == values.len()
}

/// The arguments of a call. Positions are syntactic: every argument counts,
/// also one that is no variable and no function.
pub fn assemble(values: &Vec<ArgValue>) -> (r: CallArgs)
    requires
        values@.len() <= u32::MAX,
    ensures
        is_args_of(r, values@),
{
    let mut args = CallArgs::empty();
    let mut k: usize = 0;
    while k < values.len()
        invariant
            k <= values@.len() <= u32::MAX,
            args.argc == k,
            args.var_args@ == var_positions(values@, k as int),
            args.fn_args@ == fn_positions(values@, k as int),
            args.addr_of_member_args@ == member_positions(values@, k as int),
        decreases values@.len() - k,
    {
        let index: u32 = args.argc;
        match values[k] {
            ArgValue::Var(v) => {
                args.var_args.push((index, v));
            },
            ArgValue::MemberOf(v) => {
                args.var_args.push((index, v));
                args.addr_of_member_args.push(index);
            },
            ArgValue::Fn(f) => {
                args.fn_args.push((index, f));
            },
            ArgValue::Value => {},
        }
        args.argc = args.argc + 1;
        k += 1;
    }
    args
}

/// An argument is recorded at the position it is written at, whatever the
/// arguments before it are.
pub proof fn law_arguments_keep_their_positions(values: Seq<ArgValue>, i: int)
    requires
        0 <= i < values.len() <= u32::MAX,
    ensures
        ({
            let vars = var_positions(values, values.len() as int);
            let fns = fn_positions(values, values.len() as int);
            match values[i] {
                ArgValue::Var(v) => vars.contains((i as u32, v)),
                ArgValue::MemberOf(v) => vars.contains((i as u32, v)) && member_positions(
                    values,
                    values.len() as int,
                ).contains(i as u32),
                ArgValue::Fn(f) => fns.contains((i as u32, f)),
                ArgValue::Value => true,
            }
        }),
        forall|j: int|
            0 <= j < var_positions(values, values.len() as int).len() ==> {
                let (at, v) = #[trigger] var_positions(values, values.len() as int)[j];
                at < values.len() && (values[at as int] == ArgValue::Var(v) || values[at as int]
                    == ArgValue::MemberOf(v))
            },
{
    lemma_recorded(values, i, values.len() as int);
    lemma_places(values, values.len() as int);
}

proof fn lemma_recorded(values: Seq<ArgValue>, i: int, k: int)
    requires
        0 <= i < k <= values.len() <= u32::MAX,
    ensures
        match values[i] {
            ArgValue::Var(v) => var_positions(values, k).contains((i as u32, v)),
            ArgValue::MemberOf(v) => var_positions(values, k).contains((i as u32, v))
                && member_positions(values, k).contains(i as u32),
            ArgValue::Fn(f) => fn_positions(values, k).contains((i as u32, f)),
            ArgValue::Value => true,
        },
    decreases k,
{
    let vars = var_positions(values, k);
    let fns = fn_positions(values, k);
    let members = member_positions(values, k);
    if i == k - 1 {
        match values[i] {
            ArgValue::Var(v) => {
                assert(vars[vars.len() - 1] == (i as u32, v));
            },
            ArgValue::MemberOf(v) => {
                assert(vars[vars.len() - 1] == (i as u32, v));
                assert(members[members.len() - 1] == i as u32);
            },
            ArgValue::Fn(f) => {
                assert(fns[fns.len() - 1] == (i as u32, f));
            },
            ArgValue::Value => {},
        }
    } else {
        lemma_recorded(values, i, k - 1);
        let v0 = var_positions(values, k - 1);
        let f0 = fn_positions(values, k - 1);
        let m0 = member_positions(values, k - 1);
        assert forall|x: (u32, VarId)| v0.contains(x) implies vars.contains(x) by {
            let j = choose|j: int| 0 <= j < v0.len() && v0[j] == x;
            assert(vars[j] == x);
        }
        assert forall|x: (u32, FnId)| f0.contains(x) implies fns.contains(x) by {
            let j = choose|j: int| 0 <= j < f0.len() && f0[j] == x;
            assert(fns[j] == x);
        }
        assert forall|x: u32| m0.contains(x) implies members.contains(x) by {
            let j = choose|j: int| 0 <= j < m0.len() && m0[j] == x;
            assert(members[j] == x);
        }
    }
}

proof fn lemma_places(values: Seq<ArgValue>, k: int)
    requires
        0 <= k <= values.len() <= u32::MAX,
    ensures
        forall|j: int|
            0 <= j < var_positions(values, k).len() ==> {
                let (at, v) = #[trigger] var_positions(values, k)[j];
                at < k && (values[at as int] == ArgValue::Var(v) || values[at as int]
                    == ArgValue::MemberOf(v))
            },
    decreases k,
{
    if k > 0 {
        lemma_places(values, k - 1);
        let before = var_positions(values, k - 1);
        assert forall|j: int| 0 <= j < var_positions(values, k).len() implies ({
            let (at, v) = #[trigger] var_positions(values, k)[j];
            at < k && (values[at as int] == ArgValue::Var(v) || values[at as int]
                == ArgValue::MemberOf(v))
        }) by {
            if j < before.len() {
                assert(var_positions(values, k)[j] == before[j]);
            }
        }
    }
}

/// Punctuation in an argument list.
pub open spec fn punctuates(t: SyntaxTree, c: int) -> bool {
    let kind = t.spec_kind(c);
    kind == "("@ || kind == ")"@ || kind == "{"@ || kind == "}"@ || kind == ","@
}

/// The arguments among the first `k` children of a list.
pub open spec fn written_upto(t: SyntaxTree, n: int, k: int) -> Seq<usize>
    decreases k,
{
    if k <= 0 {
        Seq::empty()
    } else if punctuates(t, t.children(n)[k - 1] as int) {
        written_upto(t, n, k - 1)
    } else {
        written_upto(t, n, k - 1).push(t.children(n)[k - 1])
    }
}

pub open spec fn written(t: SyntaxTree, list: Option<usize>) -> Seq<usize> {
    match list {
        Some(n) => written_upto(t, n as int, t.children(n as int).len() as int),
        None => Seq::empty(),
    }
}

/// The arguments that a list holds, braced or parenthesized.
pub fn written_arguments(tree: &SyntaxTree, list: Option<usize>) -> (r: Vec<usize>)
    requires
        tree.wf(),
        list matches Some(n) ==> n < tree.len(),
    ensures
        r@ == written(*tree, list),
        forall|i: int| 0 <= i < r@.len() ==> (#[trigger] r@[i]) < tree.len(),
{
    let mut out: Vec<usize> = Vec::new();
    let node = match list {
        Some(n) => n,
        None => {
            return out;
        },
    };
    let mut k: usize = 0;
    while k < tree.kids[node].len()
        invariant
            tree.wf(),
            node < tree.len(),
            k <= tree.children(node as int).len(),
            out@ == written_upto(*tree, node as int, k as int),
            forall|i: int| 0 <= i < out@.len() ==> (#[trigger] out@[i]) < tree.len(),
        decreases tree.children(node as int).len() - k,
    {
        let c = tree.kids[node][k];
        assert(c == tree.children(node as int)[k as int]);
        if !(tree.kind_is(c, "(") || tree.kind_is(c, ")") || tree.kind_is(c, "{") || tree.kind_is(
            c,
            "}",
        ) || tree.kind_is(c, ",")) {
            out.push(c);
        }
        k += 1;
    }
    out
}

/// The nodes that are no comments.
pub open spec fn counted(t: SyntaxTree, nodes: Seq<usize>) -> Seq<usize>
    decreases nodes.len(),
{
    if nodes.len() == 0 {
        Seq::empty()
    } else if t.spec_kind(nodes.last() as int) == "comment"@ {
        counted(t, nodes.drop_last())
    } else {
        counted(t, nodes.drop_last()).push(nodes.last())
    }
}

/// The named children of a list without the comments between them.
pub fn listed(tree: &SyntaxTree, list: usize) -> (r: Vec<usize>)
    requires
        tree.wf(),
        list < tree.len(),
    ensures
        r@ == counted(*tree, tree.named(list as int)),
        forall|j: int| 0 <= j < r@.len() ==> list < (#[trigger] r@[j]) < tree.len(),
        r@.len() <= tree.len(),
{
    let all = tree.named_children(list);
    let ghost named = tree.named(list as int);
    let mut out: Vec<usize> = Vec::new();
    let mut k: usize = 0;
    proof {
        tree.lemma_named(list as int);
        lemma_few(*tree, list as int);
        assert(named.take(0) =~= Seq::<usize>::empty());
    }
    while k < all.len()
        invariant
            tree.wf(),
            all@ == named,
            forall|j: int| 0 <= j < named.len() ==> list < (#[trigger] named[j]) < tree.len(),
            k <= all@.len(),
            out@.len() <= k,
            out@ == counted(*tree, named.take(k as int)),
            forall|j: int| 0 <= j < out@.len() ==> list < (#[trigger] out@[j]) < tree.len(),
        decreases all@.len() - k,
    {
        let c = all[k];
        assert(list < named[k as int] < tree.len());
        assert(named.take(k as int + 1).drop_last() =~= named.take(k as int));
        assert(named.take(k as int + 1).last() == c);
        if !tree.kind_is(c, "comment") {
            out.push(c);
        }
        k += 1;
    }
    assert(named.take(k as int) =~= named);
    out
}

/// A node has no more children than the tree has nodes.
proof fn lemma_few(t: SyntaxTree, n: int)
    requires
        t.wf(),
        0 <= n < t.len(),
    ensures
        t.named(n).len() <= t.len(),
{
    let all = t.children(n);
    let is_named = |c: usize| t.rows@[c as int].is_named;
    if all.len() > 0 {
        lemma_spread(t, n, all.len() - 1);
        assert(n < all[all.len() - 1] < t.len());
    }
    all.lemma_filter_len(is_named);
}

proof fn lemma_spread(t: SyntaxTree, n: int, k: int)
    requires
        t.wf(),
        0 <= n < t.len(),
        0 <= k < t.children(n).len(),
    ensures
        t.children(n)[k] >= k,
    decreases k,
{
    if k > 0 {
        lemma_spread(t, n, k - 1);
        assert(t.children(n)[k - 1] < t.children(n)[k]);
    }
}

/// The arguments of a call in the positions that overload ranking counts.
pub open spec fn call_args(t: SyntaxTree, call: int) -> Seq<usize> {
    match t.fielded(call, "arguments"@) {
        Some(list) => counted(t, t.named(list as int)),
        None => Seq::empty(),
    }
}

/// The argument expressions of a call.
pub fn call_arg_nodes(tree: &SyntaxTree, call: usize) -> (r: Vec<usize>)
    requires
        tree.wf(),
        call < tree.len(),
    ensures
        r@ == call_args(*tree, call as int),
        forall|j: int| 0 <= j < r@.len() ==> call < (#[trigger] r@[j]) < tree.len(),
{
    match tree.child_by_field_name(call, "arguments") {
        Some(list) => listed(tree, list),
        None => Vec::new(),
    }
}

/// How an argument's value is come by.
#[derive(Debug, PartialEq, Eq)]
pub enum ArgStep {
    /// The value stored in a member or an element of the variable: a load of
    /// it is passed, or the variable where the load says nothing.
    Load(VarId),
    /// The variable, or the address of one of its members.
    Var(VarId, bool),
    /// A string.
    Text(String),
    /// The address of a member path, else a function, else a plain value.
    Other,
}

pub open spec fn is_step_of(
    s: ArgStep,
    v: VarNames,
    t: SyntaxTree,
    source: Seq<char>,
    n: int,
) -> bool {
    match expr::expr_var(v, t, source, n) {
        Some(own) => if t.spec_kind(n) == "field_expression"@ || t.spec_kind(n)
            == "subscript_expression"@ {
            s == ArgStep::Load(own)
        } else {
            s == ArgStep::Var(own, expr::addresses_member(t, source, n))
        },
        None => match flows::string_value(t, source, n) {
            Some(text) => s matches ArgStep::Text(own) && own@ == text,
            None => s is Other,
        },
    }
}

/// How the value of an argument is come by.
pub fn argument_step(vars: &VarNames, source: &str, tree: &SyntaxTree, arg: usize) -> (r: ArgStep)
    requires
        vars.wf(),
        tree.fits(source@),
        arg < tree.len(),
    ensures
        is_step_of(r, *vars, *tree, source@, arg as int),
{
    match vars.resolve_expr_var(source, tree, arg) {
        Some(v) => if tree.kind_is(arg, "field_expression") || tree.kind_is(
            arg,
            "subscript_expression",
        ) {
            ArgStep::Load(v)
        } else {
            ArgStep::Var(v, is_addr_of_member(source, tree, arg))
        },
        None => match string_literal_value(source, tree, arg) {
            Some(text) => ArgStep::Text(text),
            None => ArgStep::Other,
        },
    }
}

/// A function that is passed as an argument.
#[derive(Debug, Clone, Copy, PartialEq, Eq, Structural)]
pub enum FnArg {
    Named(FnId),
    Lambda(usize),
}

/// The function that the argument at `n` passes, through parentheses and
/// pointer operators.
pub open spec fn fn_argument(
    f: FnNames,
    t: SyntaxTree,
    source: Seq<char>,
    n: int,
    cpp: bool,
) -> Option<FnArg>
    decreases t.len() - n,
    when t.wf() && 0 <= n < t.len()
    via fn_argument_decreases
{
    let m = expr::peeled(t, n);
    let kind = t.spec_kind(m);
    if cpp && kind == "lambda_expression"@ {
        Some(FnArg::Lambda(m as usize))
    } else if kind == "identifier"@ {
        match f.spec_named(t.text(source, m)) {
            Some(id) => Some(FnArg::Named(id)),
            None => None,
        }
    } else if kind == "pointer_expression"@ {
        match expr::pointer_operand(t, m) {
            Some(c) => fn_argument(f, t, source, c as int, cpp),
            None => None,
        }
    } else {
        None
    }
}

#[via_fn]
proof fn fn_argument_decreases(f: FnNames, t: SyntaxTree, source: Seq<char>, n: int, cpp: bool) {
    expr::lemma_peeled(t, n);
    expr::lemma_operands(t, expr::peeled(t, n));
}

/// The function that an argument passes.
pub fn resolve_call_fn_arg(
    fns: &FnNames,
    source: &str,
    tree: &SyntaxTree,
    node: usize,
    cpp: bool,
) -> (r: Option<FnArg>)
    requires
        tree.fits(source@),
        node < tree.len(),
    ensures
        r == fn_argument(*fns, *tree, source@, node as int, cpp),
    decreases tree.len() - node,
{
    let m = peel_expression(tree, node);
    if cpp && tree.kind_is(m, "lambda_expression") {
        return Some(FnArg::Lambda(m));
    }
    if tree.kind_is(m, "identifier") {
        return match fns.resolve_function_named(node_text(source, tree, m)) {
            Some(id) => Some(FnArg::Named(id)),
            None => None,
        };
    }
    if tree.kind_is(m, "pointer_expression") {
        return match pointer_arg(tree, m) {
            Some(c) => resolve_call_fn_arg(fns, source, tree, c, cpp),
            None => None,
        };
    }
    None
}

/// The type of the value that a member or an element access on a variable of
/// this type passes. Only the receiver's type is known: where it is a class,
/// the member's is not.
pub open spec fn stored_desc(d: DescView, element: bool) -> DescView {
    match d {
        DescView::Ptr(inner) => if element {
            *inner
        } else {
            match *inner {
                DescView::Struct { .. } => DescView::Unknown,
                DescView::Union { .. } => DescView::Unknown,
                _ => *inner,
            }
        },
        DescView::Struct { .. } => DescView::Unknown,
        DescView::Union { .. } => DescView::Unknown,
        _ => d,
    }
}

/// The type of the argument at `n`, as far as it is known without its casts.
pub open spec fn known_desc(ty: Typing, t: SyntaxTree, source: Seq<char>, n: int) -> DescView {
    let m = expr::peeled(t, n);
    let kind = t.spec_kind(m);
    if kind == "cast_expression"@ {
        DescView::Unknown
    } else if kind == "number_literal"@ {
        literal::number_type(t.text(source, m))
    } else if kind == "char_literal"@ {
        DescView::Char
    } else if kind == "true"@ || kind == "false"@ {
        DescView::Bool
    } else if kind == "string_literal"@ {
        DescView::Ptr(Box::new(DescView::Char))
    } else if kind == "nullptr"@ {
        DescView::Ptr(Box::new(DescView::Unknown))
    } else {
        match expr::expr_var(*ty.vars, t, source, m) {
            Some(v) => match infer::var_desc(ty.var_types@, v, 0) {
                Some(d) => if kind == "field_expression"@ || kind == "subscript_expression"@ {
                    stored_desc(d, kind == "subscript_expression"@)
                } else {
                    d
                },
                None => DescView::Unknown,
            },
            None => DescView::Unknown,
        }
    }
}

/// A cast to the spelled type: each `*` and a `[` add a pointer layer.
pub open spec fn cast_desc(d: DescView, spelled: Seq<char>) -> DescView {
    let pointed = receivers::pointed(d, receivers::stars(spelled));
    if spelled.contains('[') {
        DescView::Ptr(Box::new(pointed))
    } else {
        pointed
    }
}

/// The type of the argument at `n`. `lowered` is the tag that lowering a class
/// specifier inside a cast gave.
pub open spec fn argument_desc(
    ty: Typing,
    t: SyntaxTree,
    source: Seq<char>,
    n: int,
    lowered: Seq<char>,
) -> DescView {
    let m = expr::peeled(t, n);
    if t.spec_kind(m) == "cast_expression"@ {
        match t.fielded(m, "type"@) {
            Some(c) => cast_desc(
                types::type_of(*ty.scope, *ty.index, t, source, c as int, lowered),
                t.text(source, c as int),
            ),
            None => DescView::Unknown,
        }
    } else {
        known_desc(ty, t, source, n)
    }
}

fn is_class(d: &TypeDesc) -> (r: bool)
    ensures
        r == (d@ is Struct || d@ is Union),
{
    match d {
        TypeDesc::Struct { name: _, fields: _ } => true,
        TypeDesc::Union { name: _, fields: _ } => true,
        _ => false,
    }
}

fn stored_value(d: &TypeDesc, element: bool) -> (r: TypeDesc)
    ensures
        r@ == stored_desc(d@, element),
{
    match d {
        TypeDesc::Ptr(inner) => if !element && is_class(inner) {
            TypeDesc::Unknown
        } else {
            copy_desc(inner)
        },
        _ => if is_class(d) {
            TypeDesc::Unknown
        } else {
            copy_desc(d)
        },
    }
}

fn has_bracket(s: &[char]) -> (r: bool)
    ensures
        r == s@.contains('['),
{
    let mut k: usize = 0;
    while k < s.len()
        invariant
            k <= s@.len(),
            forall|j: int| 0 <= j < k ==> s@[j] != '[',
        decreases s@.len() - k,
    {
        if s[k] == '[' {
            assert(s@[k as int] == '[');
            return true;
        }
        k += 1;
    }
    false
}

impl<'a> Typing<'a> {
    /// The static type of an argument, casts aside.
    pub fn known_arg_type(&self, source: &str, tree: &SyntaxTree, node: usize) -> (r: TypeDesc)
        requires
            self.vars.wf(),
            tree.fits(source@),
            node < tree.len(),
        ensures
            r@ == known_desc(*self, *tree, source@, node as int),
    {
        let m = peel_expression(tree, node);
        if tree.kind_is(m, "cast_expression") {
            return TypeDesc::Unknown;
        }
        if tree.kind_is(m, "number_literal") {
            return number_literal_desc(node_text(source, tree, m));
        }
        if tree.kind_is(m, "char_literal") {
            return TypeDesc::Char;
        }
        if tree.kind_is(m, "true") || tree.kind_is(m, "false") {
            return TypeDesc::Bool;
        }
        if tree.kind_is(m, "string_literal") {
            let inner = TypeDesc::Char;
            assert(inner@ == DescView::Char);
            return TypeDesc::Ptr(Box::new(inner));
        }
        if tree.kind_is(m, "nullptr") {
            let inner = TypeDesc::Unknown;
            assert(inner@ == DescView::Unknown);
            return TypeDesc::Ptr(Box::new(inner));
        }
        match self.vars.resolve_expr_var(source, tree, m) {
            Some(v) => match self.find_var(v) {
                Some(d) => {
                    let element = tree.kind_is(m, "subscript_expression");
                    if element || tree.kind_is(m, "field_expression") {
                        stored_value(d, element)
                    } else {
                        copy_desc(d)
                    }
                },
                None => TypeDesc::Unknown,
            },
            None => TypeDesc::Unknown,
        }
    }

    /// The static type of an argument, for overload ranking.
    pub fn arg_expr_type(&self, source: &str, tree: &SyntaxTree, node: usize, lowered: &str) -> (r:
        TypeDesc)
        requires
            self.vars.wf(),
            tree.fits(source@),
            node < tree.len(),
        ensures
            r@ == argument_desc(*self, *tree, source@, node as int, lowered@),
    {
        let m = peel_expression(tree, node);
        if !tree.kind_is(m, "cast_expression") {
            return self.known_arg_type(source, tree, node);
        }
        match tree.child_by_field_name(m, "type") {
            Some(c) => {
                let desc = self.scope.type_desc_from_node(self.index, source, tree, c, lowered);
                let spelled = chars_of(node_text(source, tree, c));
                let pointed = pointer_layers(desc, count_stars(&spelled));
                if has_bracket(&spelled) {
                    TypeDesc::Ptr(Box::new(pointed))
                } else {
                    pointed
                }
            },
            None => TypeDesc::Unknown,
        }
    }
}

} // verus!
