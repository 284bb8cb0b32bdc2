//! What an expression comes to, however it is wrapped: which variable it stands for,
//! and what flows where it is assigned, returned or called.

use crate::expr;
use crate::expr::{FnNames, VarNames};
use crate::flows;
use crate::flows::{RhsFlow, RhsView};
use crate::emit;
use crate::ir::{FlowConstraint, FnId, VarId};
use crate::locals;
use crate::syntax::SyntaxTree;
use crate::tree_laws;
use vstd::prelude::*;

verus! {

/// The node is a pair of parentheses around `c`.
pub open spec fn is_parens(t: SyntaxTree, n: int, c: usize) -> bool {
    &&& t.rows@[n].kind@ == "parenthesized_expression"@
    &&& t.named(n).len() > 0
    &&& t.named(n)[0] == c
}

/// The node is a cast of `c`: its second named child, behind the type.
pub open spec fn is_cast(t: SyntaxTree, n: int, c: usize) -> bool {
    &&& t.rows@[n].kind@ == "cast_expression"@
    &&& t.named(n).len() > 1
    &&& t.named(n)[1] == c
    &&& tree_laws::has_none(
        t,
        n,
        |m: int| t.rows@[m].field is Some && t.rows@[m].field->0@ == "expression"@,
    )
    &&& tree_laws::fills_field(t, n, "value"@, c) || tree_laws::has_none(
        t,
        n,
        |m: int| t.rows@[m].field is Some && t.rows@[m].field->0@ == "value"@,
    )
}

proof fn lemma_cast(t: SyntaxTree, n: int, c: usize)
    requires
        is_cast(t, n, c),
    ensures
        expr::cast_operand(t, n) == Some(c),
        expr::cast_value(t, n) == Some(c),
{
    tree_laws::law_fields_find_the_child_that_fills_them(t, n, "expression"@);
    tree_laws::law_fields_find_the_child_that_fills_them(t, n, "value"@);
    let e = |m: int| t.rows@[m].field is Some && t.rows@[m].field->0@ == "expression"@;
    if let Some(d) = t.fielded(n, "expression"@) {
        let k = choose|k: int|
            0 <= k < t.children(n).len() && #[trigger] t.children(n)[k] == d && e(d as int)
                && forall|j: int| 0 <= j < k ==> !e(#[trigger] t.children(n)[j] as int);
        assert(!e(t.children(n)[k] as int));
    }
    if tree_laws::fills_field(t, n, "value"@, c) {
        tree_laws::lemma_first_is_one(t, n, "value"@, c);
    } else {
        let v = |m: int| t.rows@[m].field is Some && t.rows@[m].field->0@ == "value"@;
        if let Some(d) = t.fielded(n, "value"@) {
            let k = choose|k: int|
                0 <= k < t.children(n).len() && #[trigger] t.children(n)[k] == d && v(d as int)
                    && forall|j: int| 0 <= j < k ==> !v(#[trigger] t.children(n)[j] as int);
            assert(!v(t.children(n)[k] as int));
        }
    }
}

/// Parentheses and casts change nothing of what flows: what is assigned, what is
/// returned, which variable is read or written, what is called and which string it is
/// are those of the expression inside.
pub proof fn law_wrapping_changes_no_flow(
    v: VarNames,
    f: FnNames,
    t: SyntaxTree,
    source: Seq<char>,
    is_cpp: bool,
    n: int,
    c: usize,
)
    requires
        t.wf(),
        0 <= n < t.len(),
        is_parens(t, n, c) || is_cast(t, n, c),
    ensures
        flows::value_flow(v, f, t, source, is_cpp, n) == flows::value_flow(
            v,
            f,
            t,
            source,
            is_cpp,
            c as int,
        ),
        flows::returned(v, f, t, source, n) == flows::returned(v, f, t, source, c as int),
        flows::callee_of(v, f, t, source, n) == flows::callee_of(v, f, t, source, c as int),
        flows::string_value(t, source, n) == flows::string_value(t, source, c as int),
        expr::lvalue_var(v, t, source, n) == expr::lvalue_var(v, t, source, c as int),
        expr::expr_var(v, t, source, n) == expr::expr_var(v, t, source, c as int),
        expr::uncast(t, n) == expr::uncast(t, c as int),
{
    lemma_kinds();
    t.lemma_named(n);
    if is_cast(t, n, c) {
        lemma_cast(t, n, c);
        expr::lemma_operands(t, n);
        assert(expr::peeled(t, n) == n);
    } else {
        expr::lemma_operands(t, n);
        assert(expr::peeled(t, n) == expr::peeled(t, c as int));
        lemma_peeled_again(t, c as int);
    }
}

/// A name stands for what is declared nearest: in a function its own local, else the
/// global, else the static of the file that is declared first under it.
pub proof fn law_names_stand_for_the_nearest_variable(v: VarNames, name: Seq<char>, x: VarId)
    ensures
        v.in_function && locals::bound(v.locals@, name) == Some(x) ==> v.spec_var(name) == Some(x),
        !(v.in_function && locals::bound(v.locals@, name) is Some) && is_first_called(
            v.globals@,
            name,
            x,
        ) ==> v.spec_var(name) == Some(x),
        !(v.in_function && locals::bound(v.locals@, name) is Some) && (forall|i: int|
            0 <= i < v.globals@.len() ==> (#[trigger] v.globals@[i]).0@ != name) && is_first_called(
            v.statics@,
            name,
            x,
        ) ==> v.spec_var(name) == Some(x),
        !(v.in_function && locals::bound(v.locals@, name) is Some) && (forall|i: int|
            0 <= i < v.globals@.len() ==> (#[trigger] v.globals@[i]).0@ != name) && (forall|i: int|
            0 <= i < v.statics@.len() ==> (#[trigger] v.statics@[i]).0@ != name) ==> v.spec_var(name)
            is None,
{
    lemma_variable_from(v.globals@, name, 0);
    lemma_variable_from(v.statics@, name, 0);
}

/// `x` is what is first entered under the name.
pub open spec fn is_first_called(v: Seq<(String, VarId)>, name: Seq<char>, x: VarId) -> bool {
    exists|i: int|
        0 <= i < v.len() && (#[trigger] v[i]).0@ == name && v[i].1 == x && forall|j: int|
            0 <= j < i ==> (#[trigger] v[j]).0@ != name
}

proof fn lemma_variable_from(v: Seq<(String, VarId)>, name: Seq<char>, k: int)
    requires
        0 <= k <= v.len(),
    ensures
        match expr::variable_from(v, name, k) {
            Some(x) => forall|i: int|
                k <= i < v.len() && (#[trigger] v[i]).0@ == name && (forall|j: int|
                    k <= j < i ==> (#[trigger] v[j]).0@ != name) ==> v[i].1 == x,
            None => forall|i: int| k <= i < v.len() ==> (#[trigger] v[i]).0@ != name,
        },
        expr::variable_from(v, name, k) is Some ==> exists|i: int|
            k <= i < v.len() && (#[trigger] v[i]).0@ == name,
    decreases v.len() - k,
{
    if k < v.len() {
        lemma_variable_from(v, name, k + 1);
        if v[k].0@ == name {
            assert(v[k].0@ == name);
        }
    }
}

pub open spec fn is_first_function(v: Seq<(String, FnId)>, name: Seq<char>, f: FnId) -> bool {
    exists|i: int|
        0 <= i < v.len() && (#[trigger] v[i]).0@ == name && v[i].1 == f && forall|j: int|
            0 <= j < i ==> (#[trigger] v[j]).0@ != name
}

proof fn lemma_function_from(v: Seq<(String, FnId)>, name: Seq<char>, k: int)
    requires
        0 <= k <= v.len(),
    ensures
        match expr::function_from(v, name, k) {
            Some(x) => forall|i: int|
                k <= i < v.len() && (#[trigger] v[i]).0@ == name && (forall|j: int|
                    k <= j < i ==> (#[trigger] v[j]).0@ != name) ==> v[i].1 == x,
            None => forall|i: int| k <= i < v.len() ==> (#[trigger] v[i]).0@ != name,
        },
    decreases v.len() - k,
{
    if k < v.len() {
        lemma_function_from(v, name, k + 1);
    }
}

/// A name stands for the function in scope that is first entered under it, and where
/// there is none in scope for the first of the index.
pub proof fn law_names_stand_for_the_nearest_function(f: FnNames, name: Seq<char>, x: FnId)
    ensures
        is_first_function(f.in_scope@, name, x) ==> f.spec_in_scope(name) == Some(x)
            && f.spec_named(name) == Some(x),
        (forall|i: int| 0 <= i < f.in_scope@.len() ==> (#[trigger] f.in_scope@[i]).0@ != name)
            ==> f.spec_in_scope(name) is None && (is_first_function(f.anywhere@, name, x)
            ==> f.spec_named(name) == Some(x)),
        (forall|i: int| 0 <= i < f.in_scope@.len() ==> (#[trigger] f.in_scope@[i]).0@ != name) && (
        forall|i: int| 0 <= i < f.anywhere@.len() ==> (#[trigger] f.anywhere@[i]).0@ != name)
            ==> f.spec_named(name) is None,
{
    lemma_function_from(f.in_scope@, name, 0);
    lemma_function_from(f.anywhere@, name, 0);
    if (forall|i: int| 0 <= i < f.in_scope@.len() ==> (#[trigger] f.in_scope@[i]).0@ != name) {
        lemma_no_function(f.in_scope@, name, 0);
    }
    if (forall|i: int| 0 <= i < f.anywhere@.len() ==> (#[trigger] f.anywhere@[i]).0@ != name) {
        lemma_no_function(f.anywhere@, name, 0);
    }
}

proof fn lemma_no_function(v: Seq<(String, FnId)>, name: Seq<char>, k: int)
    requires
        0 <= k <= v.len(),
        forall|i: int| 0 <= i < v.len() ==> (#[trigger] v[i]).0@ != name,
    ensures
        expr::function_from(v, name, k) is None,
    decreases v.len() - k,
{
    if k < v.len() {
        lemma_no_function(v, name, k + 1);
    }
}

/// The node takes the address of `c`, or what it points to: `&c` or `*c`.
pub open spec fn is_pointer_to(
    t: SyntaxTree,
    source: Seq<char>,
    n: int,
    operator: Seq<char>,
    c: usize,
) -> bool {
    &&& t.rows@[n].kind@ == "pointer_expression"@
    &&& tree_laws::fills_field(t, n, "argument"@, c)
    &&& exists|o: usize| #[trigger]
        tree_laws::fills_field(t, n, "operator"@, o) && t.text(source, o as int) == operator
}

pub proof fn lemma_amp()
    ensures
        "&"@ != "*"@,
{
    reveal_strlit("&");
    reveal_strlit("*");
    assert("&"@[0] == '&');
    assert("*"@[0] == '*');
}

pub proof fn lemma_pointer(t: SyntaxTree, source: Seq<char>, n: int, operator: Seq<char>, c: usize)
    requires
        is_pointer_to(t, source, n, operator, c),
    ensures
        expr::pointer_operand(t, n) == Some(c),
        expr::operator_of(t, source, n) == Some(operator),
{
    tree_laws::lemma_first_is_one(t, n, "argument"@, c);
    let o = choose|o: usize| #[trigger]
        tree_laws::fills_field(t, n, "operator"@, o) && t.text(source, o as int) == operator;
    tree_laws::lemma_first_is_one(t, n, "operator"@, o);
}

/// Assigning `&x` takes the address of what `x` names, a function first, and where it
/// names nothing yet waits for a function; assigning `*p` reads through the variable
/// that `p` stands for.
pub proof fn law_addresses_and_dereferences_flow(
    v: VarNames,
    f: FnNames,
    t: SyntaxTree,
    source: Seq<char>,
    is_cpp: bool,
    n: int,
    c: usize,
)
    requires
        t.wf(),
        0 <= n < t.len(),
    ensures
        is_pointer_to(t, source, n, "*"@, c) ==> flows::value_flow(v, f, t, source, is_cpp, n)
            == match expr::lvalue_var(v, t, source, c as int) {
            Some(p) => RhsView::Load(p),
            None => RhsView::Nothing,
        },
        is_pointer_to(t, source, n, "&"@, c) && t.rows@[c as int].kind@ == "identifier"@ ==> ({
            let name = t.text(source, c as int);
            match (f.spec_named(name), v.spec_var(name)) {
                (Some(g), _) => flows::value_flow(v, f, t, source, is_cpp, n) == RhsView::Function(
                    g,
                ),
                (None, Some(x)) => flows::value_flow(v, f, t, source, is_cpp, n)
                    == RhsView::MemberAddress(c, Box::new(RhsView::Address(x))),
                (None, None) => flows::value_flow(v, f, t, source, is_cpp, n)
                    == RhsView::MemberAddress(c, Box::new(RhsView::AddressLater(name))),
            }
        }),
        is_pointer_to(t, source, n, "&"@, c) && t.rows@[c as int].kind@ != "identifier"@
            ==> flows::value_flow(v, f, t, source, is_cpp, n) == RhsView::MemberAddress(
            c,
            Box::new(
                match expr::lvalue_var(v, t, source, c as int) {
                    Some(x) => RhsView::Address(x),
                    None => RhsView::Nothing,
                },
            ),
        ),
{
    lemma_kinds();
    expr::lemma_operands(t, n);
    if is_pointer_to(t, source, n, "*"@, c) {
        lemma_pointer(t, source, n, "*"@, c);
    }
    if is_pointer_to(t, source, n, "&"@, c) {
        lemma_pointer(t, source, n, "&"@, c);
    }
}

/// Returning `&x` returns the address of what `x` names, a function first.
pub proof fn law_returned_addresses(
    v: VarNames,
    f: FnNames,
    t: SyntaxTree,
    source: Seq<char>,
    n: int,
    c: usize,
)
    requires
        t.wf(),
        0 <= n < t.len(),
        is_pointer_to(t, source, n, "&"@, c),
    ensures
        t.rows@[c as int].kind@ == "identifier"@ && f.spec_named(t.text(source, c as int)) is Some
            ==> flows::returned(v, f, t, source, n) == flows::ReturnView::Function(
            f.spec_named(t.text(source, c as int))->0,
        ),
        !(t.rows@[c as int].kind@ == "identifier"@ && f.spec_named(t.text(source, c as int)) is Some)
            && expr::lvalue_var(v, t, source, c as int) is Some ==> flows::returned(
            v,
            f,
            t,
            source,
            n,
        ) == flows::ReturnView::MemberAddress(
            c,
            Box::new(
                flows::ReturnView::Address(expr::lvalue_var(v, t, source, c as int)->0),
            ),
        ),
{
    lemma_kinds();
    expr::lemma_operands(t, n);
    lemma_pointer(t, source, n, "&"@, c);
    assert(expr::peeled(t, n) == n);
}

/// An assigned name is the function in scope, else the variable, that it stands for, else
/// a member or a function to come; a returned one is the variable first. An element of an
/// array is read from its array.
pub proof fn law_names_flow_as_what_they_stand_for(
    v: VarNames,
    f: FnNames,
    t: SyntaxTree,
    source: Seq<char>,
    is_cpp: bool,
    n: int,
)
    requires
        t.wf(),
        0 <= n < t.len(),
        t.rows@[n].kind@ == "identifier"@,
    ensures
        ({
            let name = t.text(source, n);
            let flow = flows::value_flow(v, f, t, source, is_cpp, n);
            let back = flows::returned(v, f, t, source, n);
            &&& f.spec_in_scope(name) matches Some(g) ==> flow == RhsView::Function(g)
            &&& f.spec_in_scope(name) is None && v.spec_var(name) is Some ==> flow == RhsView::Copy(
                v.spec_var(name)->0,
            )
            &&& f.spec_in_scope(name) is None && v.spec_var(name) is None ==> flow
                == RhsView::MemberOrLater(name)
            &&& v.spec_var(name) matches Some(x) ==> back == flows::ReturnView::Copy(x)
            &&& v.spec_var(name) is None && f.spec_in_scope(name) is Some ==> back
                == flows::ReturnView::Function(f.spec_in_scope(name)->0)
            &&& v.spec_var(name) is None && f.spec_in_scope(name) is None ==> back
                == flows::ReturnView::Later(name)
            &&& expr::lvalue_var(v, t, source, n) == v.spec_var(name)
            &&& expr::expr_var(v, t, source, n) == v.spec_var(name)
        }),
{
    lemma_kinds();
    assert(expr::peeled(t, n) == n);
}

/// Writing or reading a member, an element or what a pointer points to is writing or
/// reading through the variable that its object, array or pointer stands for.
pub proof fn law_accesses_go_through_their_variable(
    v: VarNames,
    f: FnNames,
    t: SyntaxTree,
    source: Seq<char>,
    is_cpp: bool,
    n: int,
    c: usize,
)
    requires
        t.wf(),
        0 <= n < t.len(),
        tree_laws::fills_field(t, n, "argument"@, c),
    ensures
        t.rows@[n].kind@ == "field_expression"@ || t.rows@[n].kind@ == "subscript_expression"@
            || t.rows@[n].kind@ == "pointer_expression"@ ==> expr::lvalue_var(v, t, source, n)
            == expr::lvalue_var(v, t, source, c as int),
        t.rows@[n].kind@ == "field_expression"@ || t.rows@[n].kind@ == "subscript_expression"@
            ==> expr::expr_var(v, t, source, n) == expr::expr_var(v, t, source, c as int),
        t.rows@[n].kind@ == "subscript_expression"@ ==> flows::value_flow(
            v,
            f,
            t,
            source,
            is_cpp,
            n,
        ) == match expr::expr_var(v, t, source, c as int) {
            Some(x) => RhsView::Copy(x),
            None => RhsView::Nothing,
        },
        t.rows@[n].kind@ == "field_expression"@ ==> flows::value_flow(v, f, t, source, is_cpp, n)
            == RhsView::Member(n as usize),
        is_pointer_to(t, source, n, "&"@, c) ==> expr::expr_var(v, t, source, n)
            == expr::lvalue_var(v, t, source, c as int),
        is_pointer_to(t, source, n, "*"@, c) ==> expr::expr_var(v, t, source, n)
            == expr::expr_var(v, t, source, c as int),
{
    lemma_kinds();
    tree_laws::lemma_first_is_one(t, n, "argument"@, c);
    expr::lemma_operands(t, n);
    if is_pointer_to(t, source, n, "&"@, c) {
        lemma_pointer(t, source, n, "&"@, c);
    }
    if is_pointer_to(t, source, n, "*"@, c) {
        lemma_pointer(t, source, n, "*"@, c);
    }
}

/// A call by the name of no variable yields what the function of that name returns, and
/// one through anything else what the call goes through; a lookup of a symbol at run time
/// is told from both where it is returned.
pub proof fn law_calls_yield_what_they_call(
    v: VarNames,
    f: FnNames,
    t: SyntaxTree,
    source: Seq<char>,
    is_cpp: bool,
    n: int,
    c: usize,
)
    requires
        t.wf(),
        0 <= n < t.len(),
        t.rows@[n].kind@ == "call_expression"@,
        tree_laws::fills_field(t, n, "function"@, c),
        t.rows@[c as int].kind@ == "identifier"@,
    ensures
        ({
            let name = t.text(source, c as int);
            &&& v.spec_var(name) is None ==> flows::value_flow(v, f, t, source, is_cpp, n)
                == RhsView::Call(n as usize, name)
            &&& v.spec_var(name) is Some ==> flows::value_flow(v, f, t, source, is_cpp, n)
                == RhsView::CallIndirect(n as usize)
            &&& flows::looks_up(name) ==> flows::returned(v, f, t, source, n)
                == flows::ReturnView::Lookup(n as usize, name)
            &&& !flows::looks_up(name) ==> flows::returned(v, f, t, source, n)
                == flows::ReturnView::Call(name)
        }),
{
    lemma_kinds();
    tree_laws::lemma_first_is_one(t, n, "function"@, c);
    expr::lemma_operands(t, n);
    assert(expr::peeled(t, n) == n);
    assert(expr::peeled(t, c as int) == c);
}

/// A called name goes through the variable it stands for, and is direct just where it is
/// none and a function is known under it.
pub proof fn law_called_names_go_through_their_variable(
    v: VarNames,
    f: FnNames,
    t: SyntaxTree,
    source: Seq<char>,
    n: int,
)
    requires
        t.wf(),
        0 <= n < t.len(),
        t.rows@[n].kind@ == "identifier"@,
    ensures
        ({
            let name = t.text(source, n);
            let callee = flows::callee_of(v, f, t, source, n);
            &&& callee.name == name
            &&& callee.var == v.spec_var(name)
            &&& callee.is_direct == (v.spec_var(name) is None && f.spec_named(name) is Some)
        }),
{
    lemma_kinds();
    assert(expr::peeled(t, n) == n);
}

/// A member or an element that is called goes through the variable of its object or
/// array, under a spelling that says so.
pub proof fn law_called_members_go_through_their_object(
    v: VarNames,
    f: FnNames,
    t: SyntaxTree,
    source: Seq<char>,
    n: int,
    c: usize,
    x: VarId,
)
    requires
        t.wf(),
        0 <= n < t.len(),
        tree_laws::fills_field(t, n, "argument"@, c),
        expr::lvalue_var(v, t, source, c as int) == Some(x),
    ensures
        t.rows@[n].kind@ == "field_expression"@ ==> ({
            let callee = flows::callee_of(v, f, t, source, n);
            callee.var == Some(x) && !callee.is_direct && (forall|m: usize| #[trigger]
                tree_laws::fills_field(t, n, "field"@, m) ==> callee.name == t.text(
                    source,
                    c as int,
                ) + "->"@ + t.text(source, m as int))
        }),
        t.rows@[n].kind@ == "subscript_expression"@ ==> ({
            let callee = flows::callee_of(v, f, t, source, n);
            callee.var == Some(x) && !callee.is_direct && callee.name == t.text(source, c as int)
                + "[...]"@
        }),
{
    lemma_kinds();
    lemma_more_kinds();
    tree_laws::lemma_first_is_one(t, n, "argument"@, c);
    expr::lemma_operands(t, n);
    assert(t.rows@[n].kind@ == "field_expression"@ || t.rows@[n].kind@ == "subscript_expression"@
        ==> expr::peeled(t, n) == n);
    assert forall|m: usize| #[trigger] tree_laws::fills_field(t, n, "field"@, m) implies t.fielded(
        n,
        "field"@,
    ) == Some(m) by {
        tree_laws::lemma_first_is_one(t, n, "field"@, m);
    }
}

proof fn lemma_more_kinds()
    ensures
        "field_expression"@ != "qualified_identifier"@,
        "field_expression"@ != "template_function"@,
        "field_expression"@ != "parenthesized_expression"@,
        "field_expression"@ != "cast_expression"@,
        "subscript_expression"@ != "qualified_identifier"@,
        "subscript_expression"@ != "template_function"@,
        "subscript_expression"@ != "parenthesized_expression"@,
        "subscript_expression"@ != "cast_expression"@,
{
    reveal_strlit("qualified_identifier");
    reveal_strlit("template_function");
    reveal_strlit("field_expression");
    reveal_strlit("subscript_expression");
    reveal_strlit("parenthesized_expression");
    reveal_strlit("cast_expression");
    assert("field_expression"@[0] == 'f');
    assert("qualified_identifier"@[0] == 'q');
    assert("template_function"@[0] == 't');
    assert("subscript_expression"@[0] == 's');
    assert("parenthesized_expression"@[0] == 'p');
    assert("cast_expression"@[0] == 'c');
}

/// The variable that a constraint puts something into.
pub open spec fn written(f: FlowConstraint) -> Option<VarId> {
    match f {
        FlowConstraint::Copy { dst, .. } => Some(dst),
        FlowConstraint::AddrOfVar { dst, .. } => Some(dst),
        FlowConstraint::AddrOfFn { dst, .. } => Some(dst),
        FlowConstraint::Load { dst, .. } => Some(dst),
        FlowConstraint::UnwrapPointer { dst, .. } => Some(dst),
        FlowConstraint::GepField { dst, .. } => Some(dst),
        FlowConstraint::CallReturn { dst, .. } => Some(dst),
        FlowConstraint::CallReturnIndirect { dst, .. } => Some(dst),
        FlowConstraint::NewHeap { dst } => Some(dst),
        FlowConstraint::StringConst { dst, .. } => Some(dst),
        _ => None,
    }
}

/// What flows reaches its destination: the last constraint that a value leaves puts it
/// there, as the copy, the address, the load or the string that it is.
pub proof fn law_values_reach_their_destination(
    flow: RhsFlow,
    path: Option<crate::fields::FieldPath>,
    dst: VarId,
    caller: Option<FnId>,
    next: int,
)
    ensures
        ({
            let e = emit::value_emitted(flow, path, dst, caller, next);
            &&& emit::value_rest(flow, path) is Flowed ==> e.flows.len() > 0 && written(
                e.flows.last(),
            ) == Some(dst)
            &&& emit::value_rest(flow, path) is Unflowed ==> e.flows.len() == 0
            &&& flow matches RhsFlow::Copy(src) ==> e.flows == seq![
                FlowConstraint::Copy { dst, src },
            ]
            &&& flow matches RhsFlow::Load(src) ==> e.flows == seq![
                FlowConstraint::Load { dst, src },
            ]
            &&& flow matches RhsFlow::Address(src) ==> e.flows == seq![
                FlowConstraint::AddrOfVar { dst, src },
            ]
            &&& flow matches RhsFlow::Function(callee) ==> e.flows == seq![
                FlowConstraint::AddrOfFn { dst, callee },
            ]
            &&& flow matches RhsFlow::Text(value) ==> e.flows == seq![
                FlowConstraint::StringConst { dst, value },
            ]
            &&& flow matches RhsFlow::Call(_, callee_name) ==> e.flows == seq![
                FlowConstraint::CallReturn { dst, callee_name, caller },
            ]
            &&& flow is MemberAddress && path is None ==> e == emit::value_emitted(
                *flow->MemberAddress_1,
                None,
                dst,
                caller,
                next,
            )
            &&& flow is MemberOrLater && path is Some ==> (e.flows.last() matches FlowConstraint::Load { src, .. } && src == emit::path_addressed(path->0, next).1)
            &&& flow is Member && path is Some && path->0.ids@.len() > 0 ==> (e.flows.last() matches FlowConstraint::Load { src, .. } && src == emit::path_addressed(path->0, next).1)
            &&& flow is MemberAddress && path is Some ==> (e.flows.last() matches FlowConstraint::Copy { src, .. } && src == emit::path_addressed(path->0, next).1)
        }),
    decreases flow,
{
    if let RhsFlow::MemberAddress(_, otherwise) = flow {
        law_values_reach_their_destination(*otherwise, None, dst, caller, next);
    }
}

/// A name that is not known yet waits for the end of the unit, and is forgotten by none.
pub proof fn law_unknown_names_wait(
    flow: RhsFlow,
    path: Option<crate::fields::FieldPath>,
    dst: VarId,
)
    ensures
        flow matches RhsFlow::MemberOrLater(name) ==> (path is None ==> emit::value_pending(
            flow,
            path,
            dst,
        ) == seq![crate::pending::PendingFnRef::RhsIdent { dst, name }]) && (path is Some
            ==> emit::value_pending(flow, path, dst).len() == 0),
        flow matches RhsFlow::AddressLater(name) ==> emit::value_pending(flow, path, dst) == seq![
            crate::pending::PendingFnRef::AddrOfIdent { dst, name },
        ],
        flow is MemberAddress && path is None ==> emit::value_pending(flow, path, dst)
            == emit::value_pending(*flow->MemberAddress_1, None, dst),
{
}

proof fn lemma_peeled_again(t: SyntaxTree, n: int)
    requires
        t.wf(),
        0 <= n < t.len(),
    ensures
        n <= expr::peeled(t, n) < t.len(),
        expr::peeled(t, expr::peeled(t, n)) == expr::peeled(t, n),
    decreases t.len() - n,
{
    t.lemma_named(n);
    if t.spec_kind(n) == "parenthesized_expression"@ {
        if let Some(c) = t.named_first(n) {
            lemma_peeled_again(t, c as int);
        }
    }
}

proof fn lemma_kinds()
    ensures
        "cast_expression"@ != "identifier"@,
        "cast_expression"@ != "pointer_expression"@,
        "cast_expression"@ != "parenthesized_expression"@,
        "cast_expression"@ != "field_expression"@,
        "cast_expression"@ != "subscript_expression"@,
        "cast_expression"@ != "call_expression"@,
        "cast_expression"@ != "qualified_identifier"@,
        "cast_expression"@ != "template_function"@,
        "parenthesized_expression"@ != "identifier"@,
        "parenthesized_expression"@ != "pointer_expression"@,
        "parenthesized_expression"@ != "field_expression"@,
        "parenthesized_expression"@ != "subscript_expression"@,
        "parenthesized_expression"@ != "call_expression"@,
        "pointer_expression"@ != "identifier"@,
        "field_expression"@ != "identifier"@,
        "field_expression"@ != "pointer_expression"@,
        "subscript_expression"@ != "identifier"@,
        "subscript_expression"@ != "pointer_expression"@,
        "call_expression"@ != "identifier"@,
        "call_expression"@ != "pointer_expression"@,
        "string_literal"@ != "identifier"@,
        "string_literal"@ != "pointer_expression"@,
        "string_literal"@ != "cast_expression"@,
        "string_literal"@ != "parenthesized_expression"@,
        "string_literal"@ != "lambda_expression"@,
        "call_expression"@ != "lambda_expression"@,
        "call_expression"@ != "string_literal"@,
        "call_expression"@ != "concatenated_string"@,
        "field_expression"@ != "call_expression"@,
        "field_expression"@ != "lambda_expression"@,
        "field_expression"@ != "string_literal"@,
        "field_expression"@ != "concatenated_string"@,
        "subscript_expression"@ != "call_expression"@,
        "subscript_expression"@ != "lambda_expression"@,
        "subscript_expression"@ != "string_literal"@,
        "subscript_expression"@ != "concatenated_string"@,
        "subscript_expression"@ != "field_expression"@,
        "subscript_expression"@ != "new_expression"@,
        "lambda_expression"@ != "identifier"@,
        "lambda_expression"@ != "pointer_expression"@,
        "lambda_expression"@ != "cast_expression"@,
        "lambda_expression"@ != "parenthesized_expression"@,
        "new_expression"@ != "identifier"@,
        "new_expression"@ != "pointer_expression"@,
        "new_expression"@ != "cast_expression"@,
        "new_expression"@ != "parenthesized_expression"@,
        "new_expression"@ != "lambda_expression"@,
        "new_expression"@ != "string_literal"@,
        "new_expression"@ != "concatenated_string"@,
        "new_expression"@ != "call_expression"@,
        "new_expression"@ != "field_expression"@,
        "&"@ != "*"@,
{
    reveal_strlit("identifier");
    reveal_strlit("pointer_expression");
    reveal_strlit("parenthesized_expression");
    reveal_strlit("cast_expression");
    reveal_strlit("field_expression");
    reveal_strlit("subscript_expression");
    reveal_strlit("call_expression");
    reveal_strlit("qualified_identifier");
    reveal_strlit("template_function");
    reveal_strlit("string_literal");
    reveal_strlit("concatenated_string");
    reveal_strlit("lambda_expression");
    reveal_strlit("new_expression");
    reveal_strlit("&");
    reveal_strlit("*");
    let p = "pointer_expression"@;
    assert("cast_expression"@[0] == 'c');
    assert("call_expression"@[2] == 'l');
    assert("cast_expression"@[2] == 's');
    assert("parenthesized_expression"@[1] == 'a');
    assert(p[1] == 'o');
    assert("identifier"@[0] == 'i');
    assert("field_expression"@[0] == 'f');
    assert("subscript_expression"@[1] == 'u');
    assert("string_literal"@[1] == 't');
    assert("concatenated_string"@[1] == 'o');
    assert("call_expression"@[1] == 'a');
    assert("cast_expression"@[1] == 'a');
    assert("lambda_expression"@[0] == 'l');
    assert("new_expression"@[0] == 'n');
    assert("qualified_identifier"@[0] == 'q');
    assert("template_function"@[0] == 't');
    assert("subscript_expression"@[0] == 's');
    assert("string_literal"@[0] == 's');
    assert("concatenated_string"@[0] == 'c');
    assert("call_expression"@[0] == 'c');
    assert("&"@[0] == '&');
    assert("*"@[0] == '*');
}

} // verus!
