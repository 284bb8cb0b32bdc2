//! Assignments and initializer lists: what flows where.

use vstd::prelude::*;

use crate::expr;
use crate::expr::{is_deref_lhs, peel_expression, pointer_arg};
use crate::fields;
use crate::fields::Layouts;
use crate::ir::{copy_desc, DescView, FieldId, TypeDesc};
use crate::parse::node_text;
use crate::spelling;
use crate::syntax::SyntaxTree;

verus! {

/// One flow that an expression gives rise to.
#[derive(Debug, Clone, Copy, PartialEq, Eq, Structural)]
pub enum FlowStep {
    /// `*operand = rhs`.
    Through { node: usize, operand: usize, rhs: usize },
    /// `base.field = rhs`.
    Field { lhs: usize, rhs: usize },
    /// `lhs = rhs` for any other left side.
    Assign { lhs: usize, rhs: usize },
    /// An initializer list for the variable at hand.
    List(usize),
    /// A value for the variable at hand.
    Value(usize),
}

/// The sides of the assignment at `n`.
pub open spec fn left_of(t: SyntaxTree, n: int) -> Option<usize> {
    t.fielded_or_first(n, "left"@)
}

pub open spec fn right_of(t: SyntaxTree, n: int) -> Option<usize> {
    match t.fielded(n, "right"@) {
        Some(c) => Some(c),
        None => expr::named_second(t, n),
    }
}

/// The node is no assignment that lacks a side.
pub open spec fn is_sided(t: SyntaxTree, n: int) -> bool {
    t.spec_kind(n) == "assignment_expression"@ ==> left_of(t, n) is Some && right_of(t, n) is Some
}

/// Every assignment in the subtree of `n` has both its sides.
pub open spec fn assignments_complete(t: SyntaxTree, n: int) -> bool {
    forall|m: int| 0 <= m < t.len() && t.within(n, m) ==> #[trigger] is_sided(t, m)
}

fn find_left(tree: &SyntaxTree, n: usize) -> (r: Option<usize>)
    requires
        tree.wf(),
        n < tree.len(),
    ensures
        r == left_of(*tree, n as int),
        r matches Some(c) ==> n < c < tree.len(),
{
    proof {
        tree.lemma_fielded(n as int, "left"@);
        tree.lemma_named(n as int);
    }
    tree.field_or_first(n, "left")
}

fn find_right(tree: &SyntaxTree, n: usize) -> (r: Option<usize>)
    requires
        tree.wf(),
        n < tree.len(),
    ensures
        r == right_of(*tree, n as int),
        r matches Some(c) ==> n < c < tree.len(),
{
    proof {
        tree.lemma_fielded(n as int, "right"@);
        tree.lemma_named(n as int);
    }
    match tree.child_by_field_name(n, "right") {
        Some(c) => Some(c),
        None => tree.named_child(n, 1),
    }
}

/// Whether every assignment has both its sides, as the grammars promise.
pub fn assignments_are_complete(tree: &SyntaxTree) -> (r: bool)
    requires
        tree.wf(),
    ensures
        r == forall|n: int| 0 <= n < tree.len() ==> #[trigger] is_sided(*tree, n),
{
    let mut n: usize = 0;
    while n < tree.rows.len()
        invariant
            tree.wf(),
            n <= tree.len(),
            forall|i: int| 0 <= i < n ==> #[trigger] is_sided(*tree, i),
        decreases tree.len() - n,
    {
        if tree.kind_is(n, "assignment_expression") {
            if find_left(tree, n).is_none() || find_right(tree, n).is_none() {
                assert(!is_sided(*tree, n as int));
                return false;
            }
        }
        n += 1;
    }
    true
}

/// What the assignment at `n` does.
pub open spec fn assigned(t: SyntaxTree, source: Seq<char>, n: int) -> Seq<FlowStep> {
    let lhs = expr::peeled(t, left_of(t, n)->0 as int);
    let rhs = right_of(t, n)->0;
    if expr::operator_of(t, source, lhs) == Some("*"@) {
        match expr::pointer_operand(t, lhs) {
            Some(operand) => seq![FlowStep::Through { node: n as usize, operand, rhs }],
            None => Seq::empty(),
        }
    } else if t.spec_kind(lhs) == "field_expression"@ {
        seq![FlowStep::Field { lhs: lhs as usize, rhs }]
    } else {
        seq![FlowStep::Assign { lhs: lhs as usize, rhs }]
    }
}

/// The flows that the expression at `n` gives rise to; `targeted` says that it
/// is the initializer of a variable.
pub open spec fn flows_of(t: SyntaxTree, source: Seq<char>, n: int, targeted: bool) -> Seq<FlowStep>
    decreases t.len() - n, t.children(n).len() + 1,
    when t.wf() && 0 <= n < t.len()
{
    if t.spec_kind(n) == "assignment_expression"@ {
        assigned(t, source, n)
    } else if targeted {
        if t.spec_kind(n) == "initializer_list"@ {
            seq![FlowStep::List(n as usize)]
        } else {
            seq![FlowStep::Value(n as usize)]
        }
    } else {
        flows_from(t, source, n, 0)
    }
}

/// The flows of the children of `n` from position `k` on.
pub open spec fn flows_from(t: SyntaxTree, source: Seq<char>, n: int, k: int) -> Seq<FlowStep>
    decreases t.len() - n, t.children(n).len() - k,
    when t.wf() && 0 <= n < t.len()
    via flows_from_decreases
{
    if k < 0 || k >= t.children(n).len() {
        Seq::empty()
    } else {
        flows_of(t, source, t.children(n)[k] as int, false) + flows_from(t, source, n, k + 1)
    }
}

#[via_fn]
proof fn flows_from_decreases(t: SyntaxTree, source: Seq<char>, n: int, k: int) {
    if 0 <= k < t.children(n).len() {
        assert(n < t.children(n)[k] < t.len());
    }
}

fn collect_flows(
    source: &str,
    tree: &SyntaxTree,
    node: usize,
    targeted: bool,
    out: &mut Vec<FlowStep>,
)
    requires
        tree.fits(source@),
        node < tree.len(),
        assignments_complete(*tree, node as int),
    ensures
        final(out)@ == old(out)@ + flows_of(*tree, source@, node as int, targeted),
    decreases tree.len() - node,
{
    if tree.kind_is(node, "assignment_expression") {
        assert(tree.within(node as int, node as int));
        assert(is_sided(*tree, node as int));
        let left = match find_left(tree, node) {
            Some(c) => c,
            None => {
                return;
            },
        };
        let rhs = match find_right(tree, node) {
            Some(c) => c,
            None => {
                return;
            },
        };
        let lhs = peel_expression(tree, left);
        if is_deref_lhs(source, tree, lhs) {
            match pointer_arg(tree, lhs) {
                Some(operand) => {
                    out.push(FlowStep::Through { node, operand, rhs });
                },
                None => {},
            }
        } else if tree.kind_is(lhs, "field_expression") {
            out.push(FlowStep::Field { lhs, rhs });
        } else {
            out.push(FlowStep::Assign { lhs, rhs });
        }
        assert(out@ =~= old(out)@ + assigned(*tree, source@, node as int));
        return;
    }
    if targeted {
        if tree.kind_is(node, "initializer_list") {
            out.push(FlowStep::List(node));
        } else {
            out.push(FlowStep::Value(node));
        }
        assert(out@ =~= old(out)@ + flows_of(*tree, source@, node as int, targeted));
        return;
    }
    let mut k: usize = 0;
    assert(out@ + flows_from(*tree, source@, node as int, 0) =~= old(out)@ + flows_of(
        *tree,
        source@,
        node as int,
        targeted,
    ));
    while k < tree.kids[node].len()
        invariant
            tree.fits(source@),
            node < tree.len(),
            assignments_complete(*tree, node as int),
            k <= tree.children(node as int).len(),
            out@ + flows_from(*tree, source@, node as int, k as int) == old(out)@ + flows_of(
                *tree,
                source@,
                node as int,
                targeted,
            ),
        decreases tree.children(node as int).len() - k,
    {
        let c = tree.kids[node][k];
        assert(c == tree.children(node as int)[k as int]);
        let ghost before = out@;
        let ghost own = flows_of(*tree, source@, c as int, false);
        let ghost rest = flows_from(*tree, source@, node as int, k as int + 1);
        proof {
            tree.lemma_child_within(node as int, k as int);
            assert forall|m: int| 0 <= m < tree.len() && tree.within(c as int, m) implies #[trigger]
            is_sided(*tree, m) by {
                tree.lemma_within(node as int, c as int, m);
            }
        }
        collect_flows(source, tree, c, false, out);
        assert(before + (own + rest) =~= out@ + rest);
        k += 1;
    }
    assert(out@ + flows_from(*tree, source@, node as int, k as int) =~= out@);
}

/// The flows that an expression gives rise to: its assignments, or, for the
/// initializer of a variable, the value or the list that it is.
pub fn extract_flow_from_expr(source: &str, tree: &SyntaxTree, node: usize, targeted: bool) -> (r: Vec<
    FlowStep,
>)
    requires
        tree.fits(source@),
        node < tree.len(),
        assignments_complete(*tree, node as int),
    ensures
        r@ == flows_of(*tree, source@, node as int, targeted),
{
    let mut out: Vec<FlowStep> = Vec::new();
    collect_flows(source, tree, node, targeted, &mut out);
    assert(Seq::<FlowStep>::empty() + flows_of(*tree, source@, node as int, targeted) =~= flows_of(
        *tree,
        source@,
        node as int,
        targeted,
    ));
    out
}

/// One element of an initializer list.
#[derive(Debug, Clone, Copy, PartialEq, Eq, Structural)]
pub enum ListStep {
    /// An element that says where it goes.
    Designated(usize),
    /// The element for the field at that position.
    Positional { node: usize, position: usize },
}

/// Punctuation of an initializer list.
pub open spec fn list_punctuation(kind: Seq<char>) -> bool {
    kind == "("@ || kind == ")"@ || kind == ","@ || kind == ";"@ || kind == "{"@ || kind == "}"@
}

/// The elements among the first `k` children of a list, and how many of them
/// go by position.
pub open spec fn list_upto(t: SyntaxTree, n: int, k: int) -> (Seq<ListStep>, nat)
    decreases k,
{
    if k <= 0 {
        (Seq::empty(), 0)
    } else {
        let (before, position) = list_upto(t, n, k - 1);
        let c = t.children(n)[k - 1];
        let kind = t.spec_kind(c as int);
        if kind == "designated_initializer"@ || kind == "initializer_pair"@ {
            (before.push(ListStep::Designated(c)), position)
        } else if list_punctuation(kind) {
            (before, position)
        } else {
            (
                before.push(ListStep::Positional { node: c, position: position as usize }),
                position + 1,
            )
        }
    }
}

/// The elements of an initializer list. A bare value goes to the next field by
/// position; a designated one does not count.
pub fn list_steps(tree: &SyntaxTree, list: usize) -> (r: Vec<ListStep>)
    requires
        tree.wf(),
        list < tree.len(),
    ensures
        r@ == list_upto(*tree, list as int, tree.children(list as int).len() as int).0,
{
    let mut out: Vec<ListStep> = Vec::new();
    let mut position: usize = 0;
    let mut k: usize = 0;
    while k < tree.kids[list].len()
        invariant
            tree.wf(),
            list < tree.len(),
            k <= tree.children(list as int).len(),
            position <= k,
            (out@, position as nat) == list_upto(*tree, list as int, k as int),
        decreases tree.children(list as int).len() - k,
    {
        let c = tree.kids[list][k];
        assert(c == tree.children(list as int)[k as int]);
        if tree.kind_is(c, "designated_initializer") || tree.kind_is(c, "initializer_pair") {
            out.push(ListStep::Designated(c));
        } else if !(tree.kind_is(c, "(") || tree.kind_is(c, ")") || tree.kind_is(c, ",")
            || tree.kind_is(c, ";") || tree.kind_is(c, "{") || tree.kind_is(c, "}")) {
            out.push(ListStep::Positional { node: c, position });
            position += 1;
        }
        k += 1;
    }
    out
}

/// The field at a position of a variable of the type, where the variable is
/// itself of a named class.
pub open spec fn positional(lay: Layouts, d: DescView, position: int) -> Option<
    (FieldId, Seq<char>),
> {
    match d {
        DescView::Struct { name, .. } if name.len() > 0 => {
            let all = lay.fields_of(d);
            if 0 <= position < all.len() {
                match lay.member(d, all[position].name@) {
                    Some((id, _)) => Some((id, all[position].name@)),
                    None => None,
                }
            } else {
                None
            }
        },
        _ => None,
    }
}

/// The field that a positional element of an initializer goes to.
pub fn positional_field(lay: &Layouts, d: &TypeDesc, position: usize) -> (r: Option<
    (FieldId, String),
>)
    ensures
        match r {
            Some((id, name)) => positional(*lay, d@, position as int) == Some((id, name@)),
            None => positional(*lay, d@, position as int) is None,
        },
{
    match d {
        TypeDesc::Struct { name, fields: _ } => if name.as_str().unicode_len() == 0 {
            return None;
        },
        _ => {
            return None;
        },
    }
    match lay.fields(d) {
        Some(all) => {
            if position >= all.len() {
                return None;
            }
            let name = all[position].name.clone();
            match lay.find_member(d, name.as_str()) {
                Some((id, _)) => Some((id, name)),
                None => None,
            }
        },
        None => None,
    }
}

/// The field names among the first `k` children of a designator.
pub open spec fn designator_names(t: SyntaxTree, source: Seq<char>, n: int, k: int) -> Seq<Seq<char>>
    decreases k,
{
    if k <= 0 {
        Seq::empty()
    } else {
        let c = t.children(n)[k - 1] as int;
        if t.spec_kind(c) == "field_identifier"@ {
            designator_names(t, source, n, k - 1).push(t.text(source, c))
        } else {
            designator_names(t, source, n, k - 1)
        }
    }
}

/// The field names that the first `k` children of a designated initializer
/// spell, and its value: the first named child that is no designator. A
/// subscript says nothing, since elements are not told apart.
pub open spec fn designated_upto(t: SyntaxTree, source: Seq<char>, n: int, k: int) -> (
    Seq<Seq<char>>,
    Option<usize>,
)
    decreases k,
{
    if k <= 0 {
        (Seq::empty(), None)
    } else {
        let (names, value) = designated_upto(t, source, n, k - 1);
        let c = t.children(n)[k - 1];
        let kind = t.spec_kind(c as int);
        if kind == "field_designator"@ {
            (
                names + designator_names(
                    t,
                    source,
                    c as int,
                    t.children(c as int).len() as int,
                ),
                value,
            )
        } else if kind == "subscript_designator"@ || kind == "="@ {
            (names, value)
        } else if value is None && t.rows@[c as int].is_named {
            (names, Some(c))
        } else {
            (names, value)
        }
    }
}

fn collect_designator(source: &str, tree: &SyntaxTree, node: usize, out: &mut Vec<String>)
    requires
        tree.fits(source@),
        node < tree.len(),
    ensures
        spelling::views(final(out)@) == spelling::views(old(out)@) + designator_names(
            *tree,
            source@,
            node as int,
            tree.children(node as int).len() as int,
        ),
{
    let ghost start = spelling::views(out@);
    let mut k: usize = 0;
    assert(spelling::views(out@) =~= start + Seq::<Seq<char>>::empty());
    while k < tree.kids[node].len()
        invariant
            tree.fits(source@),
            node < tree.len(),
            k <= tree.children(node as int).len(),
            spelling::views(out@) == start + designator_names(
                *tree,
                source@,
                node as int,
                k as int,
            ),
        decreases tree.children(node as int).len() - k,
    {
        let c = tree.kids[node][k];
        assert(c == tree.children(node as int)[k as int]);
        if tree.kind_is(c, "field_identifier") {
            let ghost before = spelling::views(out@);
            let name = node_text(source, tree, c).to_owned();
            let ghost one = name@;
            out.push(name);
            assert(spelling::views(out@) =~= before.push(one));
        }
        k += 1;
    }
}

/// The field names and the value of a designated initializer.
pub fn designation(source: &str, tree: &SyntaxTree, node: usize) -> (r: (Vec<String>, Option<usize>))
    requires
        tree.fits(source@),
        node < tree.len(),
    ensures
        (spelling::views(r.0@), r.1) == designated_upto(
            *tree,
            source@,
            node as int,
            tree.children(node as int).len() as int,
        ),
        r.1 matches Some(c) ==> c < tree.len(),
{
    let mut names: Vec<String> = Vec::new();
    let mut value: Option<usize> = None;
    let mut k: usize = 0;
    assert(spelling::views(names@) =~= Seq::empty());
    while k < tree.kids[node].len()
        invariant
            tree.fits(source@),
            node < tree.len(),
            k <= tree.children(node as int).len(),
            (spelling::views(names@), value) == designated_upto(
                *tree,
                source@,
                node as int,
                k as int,
            ),
            value matches Some(c) ==> c < tree.len(),
        decreases tree.children(node as int).len() - k,
    {
        let c = tree.kids[node][k];
        assert(c == tree.children(node as int)[k as int]);
        if tree.kind_is(c, "field_designator") {
            collect_designator(source, tree, c, &mut names);
        } else if tree.kind_is(c, "subscript_designator") || tree.kind_is(c, "=") {
        } else if value.is_none() && tree.rows[c].is_named {
            value = Some(c);
        }
        k += 1;
    }
    (names, value)
}

/// The fields that the first `k` names designate from a type on, and the type
/// of the last. A nested list is entered through pointers too.
pub open spec fn designated_path(
    lay: Layouts,
    d: DescView,
    names: Seq<Seq<char>>,
    nested: bool,
    k: int,
) -> Option<(Seq<FieldId>, DescView)>
    decreases k,
{
    if k <= 0 {
        Some((Seq::empty(), d))
    } else {
        match designated_path(lay, d, names, nested, k - 1) {
            Some((ids, from)) => match lay.member(from, names[k - 1]) {
                Some((id, own)) => Some(
                    (
                        ids.push(id),
                        if nested {
                            fields::unpointed(own)
                        } else {
                            own
                        },
                    ),
                ),
                None => None,
            },
            None => None,
        }
    }
}

proof fn lemma_designated(
    lay: Layouts,
    d: DescView,
    names: Seq<Seq<char>>,
    nested: bool,
    k: int,
)
    requires
        0 <= k <= names.len(),
        designated_path(lay, d, names, nested, k) is None,
    ensures
        designated_path(lay, d, names, nested, names.len() as int) is None,
    decreases names.len() - k,
{
    if k < names.len() {
        lemma_designated(lay, d, names, nested, k + 1);
    }
}

/// The fields that a designated initializer names, from the type of the
/// variable on: for a value the store goes to the last of them, for a nested
/// list each is entered in turn.
pub fn designated_fields(lay: &Layouts, d: &TypeDesc, names: &Vec<String>, nested: bool) -> (r: Option<
    Vec<FieldId>,
>)
    ensures
        ({
            let found = designated_path(
                *lay,
                d@,
                spelling::views(names@),
                nested,
                names@.len() as int,
            );
            match r {
                Some(ids) => found matches Some((own, _)) && own == ids@,
                None => found is None,
            }
        }),
{
    let ghost all = spelling::views(names@);
    let mut ids: Vec<FieldId> = Vec::new();
    let mut from = copy_desc(d);
    let mut k: usize = 0;
    assert(all.len() == names@.len());
    while k < names.len()
        invariant
            k <= names@.len(),
            all == spelling::views(names@),
            all.len() == names@.len(),
            designated_path(*lay, d@, all, nested, k as int) == Some((ids@, from@)),
        decreases names@.len() - k,
    {
        assert(all[k as int] == names@[k as int]@);
        match lay.find_member(&from, names[k].as_str()) {
            Some((id, own)) => {
                ids.push(id);
                from =
                if nested {
                    match own {
                        TypeDesc::Ptr(inner) => *inner,
                        other => other,
                    }
                } else {
                    own
                };
            },
            None => {
                proof {
                    lemma_designated(*lay, d@, all, nested, k as int + 1);
                }
                return None;
            },
        }
        k += 1;
    }
    Some(ids)
}

} // verus!
