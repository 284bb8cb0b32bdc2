//! Class members: which declarations declare functions, the names they
//! declare, and what their specifiers say, also where an unknown macro made
//! the parser recover.

use crate::declarator;
use crate::declarator::{
    conversion_keyword_error, conversion_operator_name, is_operator_error, parse_declarator_name,
    walk_declarator_shape,
};
use crate::ir::{copy_desc, DescView, TypeDesc};
use crate::normalize;
use crate::normalize::{requalified, respaced};
use crate::parse::node_text;
use crate::spelling::position;
use crate::syntax;
use crate::syntax::{span_chars, SyntaxTree};
use crate::text;
use crate::text::{
    append, chars_of, decimal_chars, part, same, str_eq, string_of, trimmed_end, trimmed_start,
};
use vstd::prelude::*;

verus! {

/// A declarator's own declarator that names a function member.
pub open spec fn names_function(kind: Seq<char>) -> bool {
    kind == "field_identifier"@ || kind == "identifier"@ || kind == "qualified_identifier"@ || kind
        == "operator_name"@ || kind == "template_method"@
}

/// The member declaration at `n` declares a function: a method, a constructor,
/// a destructor or an operator, and no function-pointer field.
pub open spec fn function_member(t: SyntaxTree, n: int) -> bool
    decreases t.len() - n,
    when t.wf() && 0 <= n < t.len()
    via function_member_decreases
{
    let kind = t.spec_kind(n);
    if kind == "decltype"@ || kind == "field_declaration_list"@ {
        false
    } else if kind == "destructor_name"@ || kind == "operator_cast"@
        || declarator::opens_with_operator(t, n) {
        true
    } else if kind == "function_declarator"@ {
        match t.fielded(n, "declarator"@) {
            Some(c) => names_function(t.spec_kind(c as int)) || function_member(t, c as int),
            None => false,
        }
    } else {
        exists|k: int|
            0 <= k < t.children(n).len() && function_member(t, #[trigger] t.children(n)[k] as int)
    }
}

#[via_fn]
proof fn function_member_decreases(t: SyntaxTree, n: int) {
    t.lemma_fielded(n, "declarator"@);
}

/// Does this member declaration declare a function rather than a data member?
/// Function-pointer members parse through a function declarator too, but their
/// name sits behind a parenthesized declarator: those are data.
pub fn member_decl_is_function(tree: &SyntaxTree, node: usize) -> (r: bool)
    requires
        tree.wf(),
        node < tree.len(),
    ensures
        r == function_member(*tree, node as int),
    decreases tree.len() - node,
{
    if tree.kind_is(node, "decltype") || tree.kind_is(node, "field_declaration_list") {
        return false;
    }
    if tree.kind_is(node, "destructor_name") || tree.kind_is(node, "operator_cast")
        || is_operator_error(tree, node) {
        return true;
    }
    if tree.kind_is(node, "function_declarator") {
        return match tree.child_by_field_name(node, "declarator") {
            Some(c) => tree.kind_is(c, "field_identifier") || tree.kind_is(c, "identifier")
                || tree.kind_is(c, "qualified_identifier") || tree.kind_is(c, "operator_name")
                || tree.kind_is(c, "template_method") || member_decl_is_function(tree, c),
            None => false,
        };
    }
    let mut k: usize = 0;
    while k < tree.kids[node].len()
        invariant
            tree.wf(),
            node < tree.len(),
            k <= tree.children(node as int).len(),
            function_member(*tree, node as int) == exists|j: int|
                0 <= j < tree.children(node as int).len() && function_member(
                    *tree,
                    #[trigger] tree.children(node as int)[j] as int,
                ),
            forall|j: int|
                0 <= j < k ==> !function_member(
                    *tree,
                    #[trigger] tree.children(node as int)[j] as int,
                ),
        decreases tree.children(node as int).len() - k,
    {
        let c = tree.kids[node][k];
        assert(c == tree.children(node as int)[k as int]);
        if member_decl_is_function(tree, c) {
            return true;
        }
        k += 1;
    }
    false
}

/// Which children of a node are searched for a name.
#[derive(Clone, Copy)]
pub enum Among {
    All,
    Declarators,
    StartingAt(usize),
}

pub open spec fn is_among(t: SyntaxTree, c: int, among: Among) -> bool {
    match among {
        Among::All => true,
        Among::Declarators => t.kind_ends(c, "_declarator"@),
        Among::StartingAt(at) => t.rows@[c].start >= at,
    }
}

/// An error child of `n`, from position `k`, that holds a lone tilde.
pub open spec fn tilde_from(t: SyntaxTree, source: Seq<char>, n: int, k: int) -> Option<usize>
    decreases t.children(n).len() - k,
{
    if k < 0 || k >= t.children(n).len() {
        None
    } else {
        let c = t.children(n)[k];
        if t.spec_kind(c as int) == "ERROR"@ && text::trim_end(t.text(source, c as int)) == "~"@ {
            Some(c)
        } else {
            tilde_from(t, source, n, k + 1)
        }
    }
}

/// The last child of `n` before position `k` that is a declarator.
pub open spec fn last_declarator(t: SyntaxTree, n: int, k: int) -> Option<usize>
    decreases k,
{
    if k <= 0 || k > t.children(n).len() {
        None
    } else if t.kind_ends(t.children(n)[k - 1] as int, "_declarator"@) {
        Some(t.children(n)[k - 1])
    } else {
        last_declarator(t, n, k - 1)
    }
}

/// The first declarator among the children of `n`, from position `k`, that
/// starts at `at` or later.
pub open spec fn declarator_after(t: SyntaxTree, n: int, at: int, k: int) -> Option<usize>
    decreases t.children(n).len() - k,
{
    if k < 0 || k >= t.children(n).len() {
        None
    } else {
        let c = t.children(n)[k];
        if t.rows@[c as int].start >= at && t.kind_ends(c as int, "_declarator"@) {
            Some(c)
        } else {
            declarator_after(t, n, at, k + 1)
        }
    }
}

/// Where the `operator` keyword of an error ends.
pub open spec fn keyword_end(t: SyntaxTree, err: int) -> int {
    match declarator::first_child(t, err) {
        Some(k) => t.rows@[k as int].end as int,
        None => t.rows@[err].end as int,
    }
}

/// What an error holds behind its keyword.
pub open spec fn behind_keyword(t: SyntaxTree, source: Seq<char>, err: int) -> Seq<char> {
    syntax::span_text(source, keyword_end(t, err), t.rows@[err].end as int)
}

/// The declarator of the conversion operator whose keyword `err` holds: in the
/// error itself, else, where the error does not reach the operator's own
/// parameters, the first one behind it.
pub open spec fn target_declarator(
    t: SyntaxTree,
    source: Seq<char>,
    n: int,
    err: int,
) -> Option<usize> {
    match last_declarator(t, err, t.children(err).len() as int) {
        Some(d) => Some(d),
        None => if behind_keyword(t, source, err).contains('(') {
            None
        } else {
            declarator_after(t, n, t.rows@[err].end as int, 0)
        },
    }
}

/// Where the target of a conversion operator ends: with the name that its
/// declarator declares.
pub open spec fn target_end(t: SyntaxTree, d: int) -> int {
    match t.fielded(d, "declarator"@) {
        Some(c) => t.rows@[c as int].end as int,
        None => t.rows@[d].start as int,
    }
}

/// The operator name of a target.
pub open spec fn operator_name(target: Seq<char>) -> Seq<char> {
    "operator "@ + text::trim_start(target)
}

/// The bare name a member declares.
pub open spec fn short_name(t: SyntaxTree, source: Seq<char>, n: int) -> Option<Seq<char>>
    decreases t.len() - n, t.children(n).len() + 1,
    when t.wf() && 0 <= n < t.len()
    via short_name_decreases
{
    let kind = t.spec_kind(n);
    if kind == "decltype"@ || kind == "attribute_declaration"@ || kind == "attribute_specifier"@
        || kind == "ms_declspec_modifier"@ || kind == "ms_call_modifier"@ {
        None
    } else if kind == "ERROR"@ {
        name_among(t, source, n, 0, Among::Declarators)
    } else if kind == "destructor_name"@ || kind == "operator_name"@ || kind == "field_identifier"@
        || kind == "identifier"@ {
        Some(normalize::qualified_text(t.text(source, n)))
    } else if kind == "operator_cast"@ {
        Some(declarator::conversion_text(t, source, n))
    } else if kind == "function_declarator"@ {
        match t.fielded(n, "declarator"@) {
            Some(c) => short_name(t, source, c as int),
            None => None,
        }
    } else {
        match (tilde_from(t, source, n, 0), declarator::keyword_error_from(t, n, 0)) {
            (Some(err), _) => match name_among(
                t,
                source,
                n,
                0,
                Among::StartingAt(t.rows@[err as int].end),
            ) {
                Some(rest) => Some("~"@ + text::trim_start(rest)),
                None => None,
            },
            (None, Some(err)) => stranded_name(
                t,
                source,
                n,
                err as int,
                name_among(t, source, n, 0, Among::StartingAt(t.rows@[err as int].end)),
            ),
            (None, None) => name_among(t, source, n, 0, Among::All),
        }
    }
}

/// The name of a conversion operator whose keyword is stranded in the error
/// `err`; `rest` is the name behind it, if any.
pub open spec fn stranded_name(
    t: SyntaxTree,
    source: Seq<char>,
    n: int,
    err: int,
    rest: Option<Seq<char>>,
) -> Option<Seq<char>> {
    let tail = behind_keyword(t, source, err);
    match target_declarator(t, source, n, err) {
        Some(d) => Some(
            operator_name(
                normalize::spaced_text(
                    syntax::span_text(source, keyword_end(t, err), target_end(t, d as int)),
                ),
            ),
        ),
        None => match tail.index_of_first('(') {
            Some(paren) => if normalize::spaced_text(tail.take(paren)).len() > 0 {
                Some(operator_name(normalize::spaced_text(tail.take(paren))))
            } else {
                carried_name(tail, rest)
            },
            None => carried_name(tail, rest),
        },
    }
}

/// The operator name of a bare target behind the scope the error carried.
pub open spec fn carried_name(tail: Seq<char>, rest: Option<Seq<char>>) -> Option<Seq<char>> {
    match rest {
        Some(name) => Some(
            "operator "@ + normalize::spaced_text(tail) + text::trim_start(name),
        ),
        None => None,
    }
}

/// The first name among the children of `n`, from position `k`.
pub open spec fn name_among(
    t: SyntaxTree,
    source: Seq<char>,
    n: int,
    k: int,
    among: Among,
) -> Option<Seq<char>>
    decreases t.len() - n, t.children(n).len() - k,
    when t.wf() && 0 <= n < t.len()
{
    if k < 0 || k >= t.children(n).len() {
        None
    } else {
        let c = t.children(n)[k] as int;
        match (is_among(t, c, among), short_name(t, source, c)) {
            (true, Some(name)) => Some(name),
            _ => name_among(t, source, n, k + 1, among),
        }
    }
}

#[via_fn]
proof fn short_name_decreases(t: SyntaxTree, source: Seq<char>, n: int) {
    t.lemma_fielded(n, "declarator"@);
}

fn among_children(tree: &SyntaxTree, c: usize, among: Among) -> (r: bool)
    requires
        c < tree.len(),
    ensures
        r == is_among(*tree, c as int, among),
{
    match among {
        Among::All => true,
        Among::Declarators => tree.kind_ends_with(c, "_declarator"),
        Among::StartingAt(at) => tree.rows[c].start >= at,
    }
}

fn find_tilde(source: &str, tree: &SyntaxTree, n: usize) -> (r: Option<usize>)
    requires
        tree.fits(source@),
        n < tree.len(),
    ensures
        r == tilde_from(*tree, source@, n as int, 0),
        r matches Some(c) ==> n < c < tree.len(),
{
    let tilde = chars_of("~");
    let mut k: usize = 0;
    while k < tree.kids[n].len()
        invariant
            tree.fits(source@),
            n < tree.len(),
            tilde@ == "~"@,
            k <= tree.children(n as int).len(),
            tilde_from(*tree, source@, n as int, 0) == tilde_from(
                *tree,
                source@,
                n as int,
                k as int,
            ),
        decreases tree.children(n as int).len() - k,
    {
        let c = tree.kids[n][k];
        assert(c == tree.children(n as int)[k as int]);
        if tree.kind_is(c, "ERROR") && same(
            &trimmed_end(&chars_of(node_text(source, tree, c))),
            &tilde,
        ) {
            return Some(c);
        }
        k += 1;
    }
    None
}

fn find_target_declarator(source: &str, tree: &SyntaxTree, n: usize, err: usize) -> (r: Option<
    usize,
>)
    requires
        tree.fits(source@),
        n < tree.len(),
        err < tree.len(),
    ensures
        r == target_declarator(*tree, source@, n as int, err as int),
        r matches Some(d) ==> d < tree.len(),
{
    let mut k: usize = tree.kids[err].len();
    while k > 0
        invariant
            tree.wf(),
            err < tree.len(),
            k <= tree.children(err as int).len(),
            last_declarator(*tree, err as int, tree.children(err as int).len() as int)
                == last_declarator(*tree, err as int, k as int),
        decreases k,
    {
        let c = tree.kids[err][k - 1];
        assert(c == tree.children(err as int)[k - 1]);
        if tree.kind_ends_with(c, "_declarator") {
            return Some(c);
        }
        k -= 1;
    }
    let tail = behind_keyword_chars(source, tree, err);
    if position(&tail, '(').is_some() {
        assert(tail@.contains('('));
        return None;
    }
    let at = tree.rows[err].end;
    let mut i: usize = 0;
    while i < tree.kids[n].len()
        invariant
            tree.wf(),
            n < tree.len(),
            i <= tree.children(n as int).len(),
            target_declarator(*tree, source@, n as int, err as int) == declarator_after(
                *tree,
                n as int,
                at as int,
                i as int,
            ),
        decreases tree.children(n as int).len() - i,
    {
        let c = tree.kids[n][i];
        assert(c == tree.children(n as int)[i as int]);
        if tree.rows[c].start >= at && tree.kind_ends_with(c, "_declarator") {
            return Some(c);
        }
        i += 1;
    }
    None
}

fn keyword_end_of(tree: &SyntaxTree, err: usize) -> (r: usize)
    requires
        tree.wf(),
        err < tree.len(),
    ensures
        r == keyword_end(*tree, err as int),
        exists|c: int| 0 <= c < tree.len() && (#[trigger] tree.rows@[c]).end == r,
{
    if tree.kids[err].len() > 0 {
        let first = tree.kids[err][0];
        assert(first == tree.children(err as int)[0]);
        tree.rows[first].end
    } else {
        tree.rows[err].end
    }
}

fn behind_keyword_chars(source: &str, tree: &SyntaxTree, err: usize) -> (r: Vec<char>)
    requires
        tree.fits(source@),
        err < tree.len(),
    ensures
        r@ == behind_keyword(*tree, source@, err as int),
{
    let from = keyword_end_of(tree, err);
    proof {
        let c = choose|c: int| 0 <= c < tree.len() && (#[trigger] tree.rows@[c]).end == from;
        assert(syntax::in_text(tree@[c], source@));
        assert(syntax::in_text(tree@[err as int], source@));
    }
    span_chars(source, from, tree.rows[err].end)
}

fn named_operator(target: &[char]) -> (r: Vec<char>)
    ensures
        r@ == operator_name(target@),
{
    let mut out = chars_of("operator ");
    append(&mut out, &trimmed_start(target));
    out
}

fn name_stranded(
    source: &str,
    tree: &SyntaxTree,
    n: usize,
    err: usize,
    rest: Option<Vec<char>>,
) -> (r: Option<Vec<char>>)
    requires
        tree.fits(source@),
        n < tree.len(),
        err < tree.len(),
    ensures
        opt_view(r) == stranded_name(*tree, source@, n as int, err as int, opt_view(rest)),
{
    let tail = behind_keyword_chars(source, tree, err);
    match find_target_declarator(source, tree, n, err) {
        Some(d) => {
            let from = keyword_end_of(tree, err);
            let to = match tree.child_by_field_name(d, "declarator") {
                Some(c) => {
                    assert(syntax::in_text(tree@[c as int], source@));
                    tree.rows[c].end
                },
                None => {
                    assert(syntax::in_text(tree@[d as int], source@));
                    tree.rows[d].start
                },
            };
            proof {
                let c = choose|c: int|
                    0 <= c < tree.len() && (#[trigger] tree.rows@[c]).end == from;
                assert(syntax::in_text(tree@[c], source@));
            }
            Some(named_operator(&respaced(&span_chars(source, from, to))))
        },
        None => {
            match position(&tail, '(') {
                Some(paren) => {
                    let target = respaced(&part(&tail, 0, paren));
                    assert(tail@.take(paren as int) =~= tail@.subrange(0, paren as int));
                    if target.len() > 0 {
                        return Some(named_operator(&target));
                    }
                },
                None => {},
            }
            match rest {
                Some(name) => {
                    let mut out = chars_of("operator ");
                    append(&mut out, &respaced(&tail));
                    append(&mut out, &trimmed_start(&name));
                    Some(out)
                },
                None => None,
            }
        },
    }
}

pub open spec fn opt_view(r: Option<Vec<char>>) -> Option<Seq<char>> {
    match r {
        Some(v) => Some(v@),
        None => None,
    }
}

fn first_name(source: &str, tree: &SyntaxTree, n: usize, among: Among) -> (r: Option<Vec<char>>)
    requires
        tree.fits(source@),
        n < tree.len(),
    ensures
        opt_view(r) == name_among(*tree, source@, n as int, 0, among),
    decreases tree.len() - n, 0int,
{
    let mut k: usize = 0;
    while k < tree.kids[n].len()
        invariant
            tree.fits(source@),
            n < tree.len(),
            k <= tree.children(n as int).len(),
            name_among(*tree, source@, n as int, 0, among) == name_among(
                *tree,
                source@,
                n as int,
                k as int,
                among,
            ),
        decreases tree.children(n as int).len() - k,
    {
        let c = tree.kids[n][k];
        assert(c == tree.children(n as int)[k as int]);
        if among_children(tree, c, among) {
            match member_name(source, tree, c) {
                Some(name) => {
                    return Some(name);
                },
                None => {},
            }
        }
        k += 1;
    }
    None
}

fn member_name(source: &str, tree: &SyntaxTree, n: usize) -> (r: Option<Vec<char>>)
    requires
        tree.fits(source@),
        n < tree.len(),
    ensures
        opt_view(r) == short_name(*tree, source@, n as int),
    decreases tree.len() - n, 1int,
{
    if tree.kind_is(n, "decltype") || tree.kind_is(n, "attribute_declaration") || tree.kind_is(
        n,
        "attribute_specifier",
    ) || tree.kind_is(n, "ms_declspec_modifier") || tree.kind_is(n, "ms_call_modifier") {
        return None;
    }
    if tree.kind_is(n, "ERROR") {
        return first_name(source, tree, n, Among::Declarators);
    }
    if tree.kind_is(n, "destructor_name") || tree.kind_is(n, "operator_name") || tree.kind_is(
        n,
        "field_identifier",
    ) || tree.kind_is(n, "identifier") {
        return Some(requalified(&chars_of(node_text(source, tree, n))));
    }
    if tree.kind_is(n, "operator_cast") {
        return Some(chars_of(conversion_operator_name(source, tree, n).as_str()));
    }
    if tree.kind_is(n, "function_declarator") {
        return match tree.child_by_field_name(n, "declarator") {
            Some(c) => member_name(source, tree, c),
            None => None,
        };
    }
    match find_tilde(source, tree, n) {
        Some(err) => {
            let at = tree.rows[err].end;
            match first_name(source, tree, n, Among::StartingAt(at)) {
                Some(rest) => {
                    let mut out = chars_of("~");
                    append(&mut out, &trimmed_start(&rest));
                    Some(out)
                },
                None => None,
            }
        },
        None => match conversion_keyword_error(tree, n) {
            Some(err) => {
                let at = tree.rows[err].end;
                let rest = first_name(source, tree, n, Among::StartingAt(at));
                name_stranded(source, tree, n, err, rest)
            },
            None => first_name(source, tree, n, Among::All),
        },
    }
}

/// The bare name a member declares: method identifier, constructor class name,
/// destructor spelling (`~Cls`) or operator, read past attributes, `decltype`
/// types and the errors that unknown macros leave.
pub fn member_short_name(source: &str, tree: &SyntaxTree, node: usize) -> (r: Option<String>)
    requires
        tree.fits(source@),
        node < tree.len(),
    ensures
        match r {
            Some(name) => short_name(*tree, source@, node as int) == Some(name@),
            None => short_name(*tree, source@, node as int) is None,
        },
{
    match member_name(source, tree, node) {
        Some(name) => Some(string_of(&name)),
        None => None,
    }
}

/// What a parameter list declares beyond the parameters themselves: how many
/// carry a default argument, and whether it ends in `...` or a parameter pack,
/// either of which takes any number of further arguments.
#[derive(Debug, Clone, Copy, PartialEq, Eq, Structural)]
pub struct ParamListShape {
    pub defaults: u32,
    pub variadic: bool,
}

/// Whether a node in a parameter list declares a parameter, with a default
/// argument or without.
pub open spec fn parameter_kind(kind: Seq<char>) -> bool {
    kind == "parameter_declaration"@ || kind == "optional_parameter_declaration"@
}

/// `void` alone declares no parameter.
pub open spec fn void_parameter(t: SyntaxTree, source: Seq<char>, p: int) -> bool {
    &&& t.fielded(p, "declarator"@) is None
    &&& t.fielded(p, "type"@) matches Some(ty) && t.text(source, ty as int) == "void"@
}

pub open spec fn declares_parameter(t: SyntaxTree, source: Seq<char>, p: int) -> bool {
    parameter_kind(t.spec_kind(p)) && !void_parameter(t, source, p)
}

pub open spec fn variadic_kind(kind: Seq<char>) -> bool {
    kind == "..."@ || kind == "variadic_parameter_declaration"@
}

/// How many of the first `k` children of a list declare a parameter.
pub open spec fn parameters_upto(t: SyntaxTree, source: Seq<char>, n: int, k: int) -> nat
    decreases k,
{
    if k <= 0 || k > t.children(n).len() {
        0
    } else if declares_parameter(t, source, t.children(n)[k - 1] as int) {
        parameters_upto(t, source, n, k - 1) + 1
    } else {
        parameters_upto(t, source, n, k - 1)
    }
}

/// How many of the first `k` children of a list have a default argument.
pub open spec fn defaults_upto(t: SyntaxTree, n: int, k: int) -> nat
    decreases k,
{
    if k <= 0 || k > t.children(n).len() {
        0
    } else if t.spec_kind(t.children(n)[k - 1] as int) == "optional_parameter_declaration"@ {
        defaults_upto(t, n, k - 1) + 1
    } else {
        defaults_upto(t, n, k - 1)
    }
}

/// The list takes any number of further arguments.
pub open spec fn variadic_list(t: SyntaxTree, n: int) -> bool {
    exists|k: int|
        0 <= k < t.children(n).len() && variadic_kind(
            t.spec_kind(#[trigger] t.children(n)[k] as int),
        )
}

fn is_parameter(source: &str, tree: &SyntaxTree, p: usize) -> (r: bool)
    requires
        tree.fits(source@),
        p < tree.len(),
    ensures
        r == declares_parameter(*tree, source@, p as int),
{
    if !tree.kind_is(p, "parameter_declaration") && !tree.kind_is(
        p,
        "optional_parameter_declaration",
    ) {
        return false;
    }
    if tree.child_by_field_name(p, "declarator").is_some() {
        return true;
    }
    match tree.child_by_field_name(p, "type") {
        Some(ty) => !str_eq(node_text(source, tree, ty), "void"),
        None => true,
    }
}

/// The parameters a list declares (`(void)` declares none), and what it
/// declares beyond them.
pub fn declared_param_counts(source: &str, tree: &SyntaxTree, params: usize) -> (r: (
    u32,
    ParamListShape,
))
    requires
        tree.fits(source@),
        params < tree.len(),
        tree.children(params as int).len() <= u32::MAX,
    ensures
        r.0 == parameters_upto(
            *tree,
            source@,
            params as int,
            tree.children(params as int).len() as int,
        ),
        r.1.defaults == defaults_upto(
            *tree,
            params as int,
            tree.children(params as int).len() as int,
        ),
        r.1.variadic == variadic_list(*tree, params as int),
{
    let mut declared: u32 = 0;
    let mut defaults: u32 = 0;
    let mut variadic = false;
    let mut k: usize = 0;
    while k < tree.kids[params].len()
        invariant
            tree.fits(source@),
            params < tree.len(),
            tree.children(params as int).len() <= u32::MAX,
            k <= tree.children(params as int).len(),
            declared <= k,
            defaults <= k,
            declared == parameters_upto(*tree, source@, params as int, k as int),
            defaults == defaults_upto(*tree, params as int, k as int),
            variadic == exists|j: int|
                0 <= j < k && variadic_kind(
                    tree.spec_kind(#[trigger] tree.children(params as int)[j] as int),
                ),
        decreases tree.children(params as int).len() - k,
    {
        let p = tree.kids[params][k];
        assert(p == tree.children(params as int)[k as int]);
        if is_parameter(source, tree, p) {
            declared += 1;
        }
        if tree.kind_is(p, "optional_parameter_declaration") {
            defaults += 1;
        } else if tree.kind_is(p, "...") || tree.kind_is(p, "variadic_parameter_declaration") {
            variadic = true;
        }
        proof {
            reveal_strlit("...");
            reveal_strlit("optional_parameter_declaration");
            reveal_strlit("variadic_parameter_declaration");
            let o = "optional_parameter_declaration"@;
            let v = "variadic_parameter_declaration"@;
            assert(o[0] == 'o' && v[0] == 'v');
            assert(o.len() != "..."@.len());
        }
        k += 1;
    }
    (declared, ParamListShape { defaults, variadic })
}

/// A parameter as it is declared: its name, type and what its declarator says.
#[derive(Debug, PartialEq, Eq)]
pub struct Parameter {
    /// The node that declares it.
    pub node: usize,
    pub name: String,
    /// Spelled in the source; an unnamed one still takes its place.
    pub is_named: bool,
    pub desc: TypeDesc,
    pub is_pointer: bool,
    pub is_reference: bool,
}

/// The name and pointer flag that a parameter's declarator declares.
pub open spec fn declarator_of(t: SyntaxTree, source: Seq<char>, p: int) -> (Seq<char>, bool) {
    match t.fielded(p, "declarator"@) {
        Some(d) => declarator::declared_name(t, source, d as int),
        None => (seq![], false),
    }
}

/// The type of a parameter: the shape of its declarator over the base type. A
/// reference keeps a single pointer level.
pub open spec fn parameter_desc(
    t: SyntaxTree,
    source: Seq<char>,
    p: int,
    base: DescView,
) -> DescView {
    let shape = match t.fielded(p, "declarator"@) {
        Some(d) => declarator::shaped(t, d as int, base),
        None => base,
    };
    if declarator_of(t, source, p).1 && !(shape is Ptr) && !(shape is Array) {
        DescView::Ptr(Box::new(base))
    } else {
        shape
    }
}

/// The name an unnamed parameter in place `index` goes by.
pub open spec fn unnamed_parameter(index: nat) -> Seq<char> {
    "$arg"@ + text::decimal(index)
}

/// The parameter that node `p` declares in place `index`, over the base type
/// that its type node spells. Unnamed parameters (`void foo(int)`) still take
/// a place; `void f(void)` declares none.
pub fn declared_parameter(
    source: &str,
    tree: &SyntaxTree,
    p: usize,
    index: u32,
    base: TypeDesc,
) -> (r: Option<Parameter>)
    requires
        tree.fits(source@),
        p < tree.len(),
    ensures
        match r {
            Some(param) => {
                let (name, pointer) = declarator_of(*tree, source@, p as int);
                &&& !(name.len() == 0 && base@ is Void && !pointer)
                &&& param.node == p
                &&& param.is_named == (name.len() > 0)
                &&& param.name@ == if name.len() > 0 {
                    name
                } else {
                    unnamed_parameter(index as nat)
                }
                &&& param.desc@ == parameter_desc(*tree, source@, p as int, base@)
                &&& param.is_pointer == pointer
                &&& param.is_reference == (tree.fielded(p as int, "declarator"@) matches Some(d)
                    && tree.spec_kind(d as int) == "reference_declarator"@)
            },
            None => {
                let (name, pointer) = declarator_of(*tree, source@, p as int);
                name.len() == 0 && base@ is Void && !pointer
            },
        },
{
    let found = tree.child_by_field_name(p, "declarator");
    let (name, pointer) = match found {
        Some(d) => parse_declarator_name(source, tree, d),
        None => (String::new(), false),
    };
    let spelled = chars_of(name.as_str());
    let is_named = spelled.len() > 0;
    let is_void = match &base {
        TypeDesc::Void => true,
        _ => false,
    };
    if !is_named && is_void && !pointer {
        return None;
    }
    let is_reference = match found {
        Some(d) => tree.kind_is(d, "reference_declarator"),
        None => false,
    };
    let shape = match found {
        Some(d) => walk_declarator_shape(tree, d, copy_desc(&base)),
        None => copy_desc(&base),
    };
    let is_layered = match &shape {
        TypeDesc::Ptr(_) => true,
        TypeDesc::Array { elem: _, size: _ } => true,
        _ => false,
    };
    let desc = if pointer && !is_layered {
        TypeDesc::Ptr(Box::new(base))
    } else {
        shape
    };
    let name = if is_named {
        name
    } else {
        let mut own = chars_of("$arg");
        append(&mut own, &decimal_chars(index));
        string_of(&own)
    };
    Some(Parameter { node: p, name, is_named, desc, is_pointer: pointer, is_reference })
}

} // verus!
