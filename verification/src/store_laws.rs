//! What assignments and initializers store, and where.

use crate::emit;
use crate::expr;
use crate::expr::{FnNames, VarNames};
use crate::expression_laws;
use crate::fields;
use crate::fields::{BaseView, FieldLayout, FieldPath, Layouts, PathBase, PathView};
use crate::flows;
use crate::infer;
use crate::infer::Typing;
use crate::initializers;
use crate::initializers::{FlowStep, ListStep};
use crate::ir::{DescView, FieldId, FlowConstraint, FnId, ReturnFlow, VarId};
use crate::literal;
use crate::pending;
use crate::pending::PendingFnRef;
use crate::stores;
use crate::stores::{FieldValue, FieldValueView};
use crate::syntax::SyntaxTree;
use crate::tree_laws;
use crate::types;
use vstd::prelude::*;

verus! {

proof fn lemma_kinds()
    ensures
        "identifier"@.len() == 10,
        "pointer_expression"@.len() == 18,
        "field_expression"@.len() == 16,
        "subscript_expression"@.len() == 20,
        "cast_expression"@.len() == 15,
        "call_expression"@.len() == 15,
        "parenthesized_expression"@.len() == 24,
        "assignment_expression"@.len() == 21,
        "initializer_list"@.len() == 16,
        "lambda_expression"@.len() == 17,
        "designated_initializer"@.len() == 22,
        "initializer_pair"@.len() == 16,
        "string_literal"@.len() == 14,
        "concatenated_string"@.len() == 19,
        "field_designator"@.len() == 16,
        "subscript_designator"@.len() == 20,
        "="@.len() == 1,
        "field_expression"@[0] == 'f',
        "initializer_list"@[0] == 'i',
        "initializer_pair"@[0] == 'i',
        "field_expression"@[6] == 'e',
        "field_designator"@[6] == 'd',
        "initializer_list"@[12] == 'l',
        "initializer_pair"@[12] == 'p',
        "field_designator"@[0] == 'f',
        "subscript_expression"@[10] == 'e',
        "subscript_designator"@[10] == 'd',
        "cast_expression"@[2] == 's',
        "call_expression"@[2] == 'l',
{
    reveal_strlit("identifier");
    reveal_strlit("pointer_expression");
    reveal_strlit("field_expression");
    reveal_strlit("subscript_expression");
    reveal_strlit("cast_expression");
    reveal_strlit("call_expression");
    reveal_strlit("parenthesized_expression");
    reveal_strlit("assignment_expression");
    reveal_strlit("initializer_list");
    reveal_strlit("lambda_expression");
    reveal_strlit("designated_initializer");
    reveal_strlit("initializer_pair");
    reveal_strlit("string_literal");
    reveal_strlit("concatenated_string");
    reveal_strlit("field_designator");
    reveal_strlit("subscript_designator");
    reveal_strlit("=");
}

/// The constraint takes the address of the field in what `base` is, into `dst`.
pub open spec fn addresses(
    f: FlowConstraint,
    dst: VarId,
    base: VarId,
    field: FieldId,
) -> bool {
    f matches FlowConstraint::GepField { dst: d, base: b, field: g, .. } && d == dst && b == base
        && g == field
}

/// The constraints take the address of one field after the other, each in the one before,
/// and the last of them ends in `end`.
pub open spec fn leads_to(
    s: Seq<FlowConstraint>,
    base: VarId,
    ids: Seq<FieldId>,
    end: VarId,
) -> bool
    decreases ids.len(),
{
    if ids.len() == 0 {
        s.len() == 0 && end == base
    } else {
        s.len() > 0 && s.last() is GepField && addresses(
            s.last(),
            end,
            s.last()->GepField_base,
            ids.last(),
        ) && leads_to(s.drop_last(), base, ids.drop_last(), s.last()->GepField_base)
    }
}

proof fn lemma_chain(base: VarId, next: int, ids: Seq<FieldId>, names: Seq<String>, k: int)
    requires
        0 <= k <= ids.len(),
    ensures
        leads_to(
            stores::gep_chain(base, next, ids, names, k).flows,
            base,
            ids.take(k),
            stores::chain_end(base, next, k),
        ),
        stores::gep_chain(base, next, ids, names, k).temps.len() == k,
    decreases k,
{
    if k > 0 {
        lemma_chain(base, next, ids, names, k - 1);
        assert(ids.take(k).drop_last() =~= ids.take(k - 1));
        let s = stores::gep_chain(base, next, ids, names, k).flows;
        assert(s.drop_last() =~= stores::gep_chain(base, next, ids, names, k - 1).flows);
    }
}

/// The address of a path is reached from its variable through each of its fields in turn.
pub proof fn law_paths_are_followed_field_by_field(p: FieldPath, next: int)
    ensures
        p.base matches PathBase::Var(v) ==> leads_to(
            emit::path_addressed(p, next).0.flows,
            v,
            p.ids@,
            emit::path_addressed(p, next).1,
        ),
        p.base is Receiver ==> leads_to(
            emit::path_addressed(p, next).0.flows,
            VarId(next as u32),
            p.ids@,
            emit::path_addressed(p, next).1,
        ) && emit::path_addressed(p, next).0.receivers == seq![
            (VarId(next as u32), p.base->Receiver_0),
        ],
{
    let (start, base) = emit::based(p.base, next);
    lemma_chain(base, next + start.temps.len(), p.ids@, p.names@, p.ids@.len() as int);
    assert(p.ids@.take(p.ids@.len() as int) =~= p.ids@);
    let e = stores::gep_chain(
        base,
        next + start.temps.len(),
        p.ids@,
        p.names@,
        p.ids@.len() as int,
    );
    assert(start.flows + e.flows =~= e.flows);
    lemma_no_receivers(base, next + start.temps.len(), p.ids@, p.names@, p.ids@.len() as int);
    assert(start.receivers + e.receivers =~= start.receivers);
}

proof fn lemma_no_receivers(
    base: VarId,
    next: int,
    ids: Seq<FieldId>,
    names: Seq<String>,
    k: int,
)
    ensures
        stores::gep_chain(base, next, ids, names, k).receivers.len() == 0,
{
}

/// Assigning to a field ends in a store through its address: of the variable, of the
/// address or of the function that is assigned.
pub proof fn law_assigned_fields_are_stored_to(path: FieldPath, value: FieldValue, next: int)
    requires
        path.ids@.len() > 0,
    ensures
        ({
            let (e, dst) = emit::path_addressed(path, next);
            let s = emit::store_emitted(path, value, next).flows;
            &&& value matches FieldValue::Var(src) ==> s == e.flows.push(
                FlowConstraint::Store { dst, src },
            )
            &&& value matches FieldValue::Fn(callee) ==> s.len() == e.flows.len() + 2 && s.take(
                e.flows.len() as int,
            ) == e.flows && (s.last() matches FlowConstraint::Store { dst: d, src } && d == dst
                && s[s.len() - 2] == FlowConstraint::AddrOfFn { dst: src, callee })
            &&& value is Address ==> (s.last() matches FlowConstraint::Store { dst: d, src } && d
                == dst && src == emit::path_addressed(
                value->Address_0,
                next + e.temps.len(),
            ).1)
            &&& value is Pending || value is Lambda || value is Call || value is Flow ==> s
                == e.flows
        }),
{
    let (e, dst) = emit::path_addressed(path, next);
    let s = emit::store_emitted(path, value, next).flows;
    match value {
        FieldValue::Var(src) => {
            assert(s =~= e.flows.push(FlowConstraint::Store { dst, src }));
        },
        FieldValue::Fn(callee) => {
            assert(s.take(e.flows.len() as int) =~= e.flows);
        },
        _ => {
            assert(value is Call || value is Flow ==> s =~= e.flows);
        },
    }
}

/// What is called through fields is loaded from the last of them, which every pointer on
/// the way is loaded for.
pub proof fn law_called_paths_are_loaded(
    base: VarId,
    next: int,
    ids: Seq<FieldId>,
    names: Seq<String>,
    descs: Seq<DescView>,
    k: int,
)
    requires
        0 < k <= ids.len(),
    ensures
        ({
            let (before, from) = stores::load_chain(base, next, ids, names, descs, k - 1);
            let (e, end) = stores::load_chain(base, next, ids, names, descs, k);
            let at = before.flows.len() as int;
            &&& e.flows.take(at) == before.flows
            &&& e.flows[at] matches FlowConstraint::GepField { dst, base: b, field, .. } && b
                == from && field == ids[k - 1] && (if k == ids.len() || descs[k - 1] is Ptr {
                e.flows.len() == at + 2 && e.flows[at + 1] == FlowConstraint::Load {
                    dst: end,
                    src: dst,
                }
            } else {
                e.flows.len() == at + 1 && end == dst
            })
        }),
        stores::load_chain(base, next, ids, names, descs, 0).1 == base,
{
    let (before, from) = stores::load_chain(base, next, ids, names, descs, k - 1);
    let (e, end) = stores::load_chain(base, next, ids, names, descs, k);
    assert(e.flows.take(before.flows.len() as int) =~= before.flows);
}

/// The node assigns `right` to `left`.
pub open spec fn is_assignment(t: SyntaxTree, n: int, left: usize, right: usize) -> bool {
    &&& t.rows@[n].kind@ == "assignment_expression"@
    &&& tree_laws::fills_field(t, n, "left"@, left)
    &&& tree_laws::fills_field(t, n, "right"@, right)
}

/// `*p = e` stores through `p`, `x.f = e` into the field, and any other assignment goes
/// into what its left side stands for.
pub proof fn law_assignments_go_where_they_say(
    t: SyntaxTree,
    source: Seq<char>,
    n: int,
    left: usize,
    right: usize,
    operand: usize,
    targeted: bool,
)
    requires
        t.wf(),
        0 <= n < t.len(),
        is_assignment(t, n, left, right),
    ensures
        expression_laws::is_pointer_to(t, source, left as int, "*"@, operand)
            ==> initializers::flows_of(t, source, n, targeted) == seq![
            FlowStep::Through { node: n as usize, operand, rhs: right },
        ],
        t.rows@[left as int].kind@ == "field_expression"@ ==> initializers::flows_of(
            t,
            source,
            n,
            targeted,
        ) == seq![FlowStep::Field { lhs: left, rhs: right }],
        t.rows@[left as int].kind@ == "identifier"@ || t.rows@[left as int].kind@
            == "subscript_expression"@ ==> initializers::flows_of(t, source, n, targeted) == seq![
            FlowStep::Assign { lhs: left, rhs: right },
        ],
{
    lemma_kinds();
    tree_laws::lemma_first_is_one(t, n, "left"@, left);
    tree_laws::lemma_first_is_one(t, n, "right"@, right);
    t.lemma_fielded(n, "left"@);
    if expression_laws::is_pointer_to(t, source, left as int, "*"@, operand) {
        expression_laws::lemma_pointer(t, source, left as int, "*"@, operand);
    }
}

/// What a part of an expression that is itself no assignment assigns, the whole assigns.
pub proof fn law_assignments_inside_are_found(
    t: SyntaxTree,
    source: Seq<char>,
    n: int,
    i: int,
    step: FlowStep,
)
    requires
        t.wf(),
        0 <= n < t.len(),
        t.rows@[n].kind@ != "assignment_expression"@,
        0 <= i < t.children(n).len(),
        initializers::flows_of(t, source, t.children(n)[i] as int, false).contains(step),
    ensures
        initializers::flows_of(t, source, n, false).contains(step),
{
    lemma_from(t, source, n, 0, i, step);
}

proof fn lemma_from(
    t: SyntaxTree,
    source: Seq<char>,
    n: int,
    k: int,
    i: int,
    step: FlowStep,
)
    requires
        t.wf(),
        0 <= n < t.len(),
        0 <= k <= i < t.children(n).len(),
        initializers::flows_of(t, source, t.children(n)[i] as int, false).contains(step),
    ensures
        initializers::flows_from(t, source, n, k).contains(step),
    decreases i - k,
{
    let own = initializers::flows_of(t, source, t.children(n)[k] as int, false);
    let rest = initializers::flows_from(t, source, n, k + 1);
    let all = initializers::flows_from(t, source, n, k);
    assert(all == own + rest);
    if k == i {
        let j = choose|j: int| 0 <= j < own.len() && own[j] == step;
        assert(all[j] == step);
    } else {
        lemma_from(t, source, n, k + 1, i, step);
        let j = choose|j: int| 0 <= j < rest.len() && rest[j] == step;
        assert(all[own.len() + j] == step);
    }
}

/// An initializer is a list or a value for the variable at hand.
pub proof fn law_initializers_are_for_the_variable(t: SyntaxTree, source: Seq<char>, n: int)
    requires
        t.wf(),
        0 <= n < t.len(),
        t.rows@[n].kind@ != "assignment_expression"@,
    ensures
        t.rows@[n].kind@ == "initializer_list"@ ==> initializers::flows_of(t, source, n, true)
            == seq![FlowStep::List(n as usize)],
        t.rows@[n].kind@ != "initializer_list"@ ==> initializers::flows_of(t, source, n, true)
            == seq![FlowStep::Value(n as usize)],
{
}

/// The node that a step of a list is about.
pub open spec fn step_node(s: ListStep) -> usize {
    match s {
        ListStep::Designated(n) => n,
        ListStep::Positional { node, .. } => node,
    }
}

pub open spec fn is_element(t: SyntaxTree, c: usize) -> bool {
    let kind = t.rows@[c as int].kind@;
    kind != "("@ && kind != ")"@ && kind != ","@ && kind != ";"@ && kind != "{"@ && kind != "}"@
}

pub open spec fn is_designated(t: SyntaxTree, c: usize) -> bool {
    t.rows@[c as int].kind@ == "designated_initializer"@ || t.rows@[c as int].kind@
        == "initializer_pair"@
}

/// How many of the steps have a position of their own.
pub open spec fn positions(s: Seq<ListStep>) -> nat {
    s.filter(|x: ListStep| x is Positional).len()
}

proof fn lemma_list(t: SyntaxTree, n: int, k: int)
    requires
        0 <= k <= t.children(n).len(),
    ensures
        ({
            let (steps, position) = initializers::list_upto(t, n, k);
            &&& position == positions(steps) && position <= k
            &&& steps.map_values(|x: ListStep| step_node(x)) == t.children(n).take(k).filter(
                |c: usize| is_element(t, c),
            )
            &&& forall|i: int|
                0 <= i < steps.len() ==> (#[trigger] steps[i] is Designated <==> is_designated(
                    t,
                    step_node(steps[i]),
                ))
            &&& forall|i: int|
                0 <= i < steps.len() && #[trigger] steps[i] is Positional && k <= usize::MAX
                    ==> steps[i]->position == positions(steps.take(i))
        }),
    decreases k,
{
    reveal(Seq::filter);
    if k > 0 {
        lemma_list(t, n, k - 1);
        lemma_kinds();
        lemma_punctuation();
        let (before, position) = initializers::list_upto(t, n, k - 1);
        let (steps, _) = initializers::list_upto(t, n, k);
        let c = t.children(n)[k - 1];
        let taken = t.children(n).take(k);
        assert(taken.drop_last() =~= t.children(n).take(k - 1));
        assert(taken.last() == c);
        if is_element(t, c) {
            assert(steps.drop_last() =~= before);
            assert(steps.map_values(|x: ListStep| step_node(x)) =~= before.map_values(
                |x: ListStep| step_node(x),
            ).push(c));
            assert(steps.take(before.len() as int) =~= before);
            assert forall|i: int|
                0 <= i < steps.len() && #[trigger] steps[i] is Positional && k
                    <= usize::MAX implies steps[i]->position == positions(steps.take(i)) by {
                if i < before.len() {
                    assert(steps[i] == before[i]);
                    assert(steps.take(i) =~= before.take(i));
                }
            }
            assert forall|i: int| 0 <= i < steps.len() implies (#[trigger] steps[i] is Designated
                <==> is_designated(t, step_node(steps[i]))) by {
                if i < before.len() {
                    assert(steps[i] == before[i]);
                }
            }
        }
    } else {
        assert(t.children(n).take(0) =~= Seq::empty());
    }
}

proof fn lemma_punctuation()
    ensures
        "("@.len() == 1,
        ")"@.len() == 1,
        ","@.len() == 1,
        ";"@.len() == 1,
        "{"@.len() == 1,
        "}"@.len() == 1,
{
    reveal_strlit("(");
    reveal_strlit(")");
    reveal_strlit(",");
    reveal_strlit(";");
    reveal_strlit("{");
    reveal_strlit("}");
}

/// A list initializes with each of its elements, in order: one that says where it goes
/// goes there, and any other to the field after those of the others before it.
pub proof fn law_list_elements_take_the_next_position(t: SyntaxTree, n: int, i: int)
    requires
        t.children(n).len() <= usize::MAX,
    ensures
        ({
            let steps = initializers::list_upto(t, n, t.children(n).len() as int).0;
            &&& steps.map_values(|x: ListStep| step_node(x)) == t.children(n).filter(
                |c: usize| is_element(t, c),
            )
            &&& 0 <= i < steps.len() ==> (steps[i] is Designated <==> is_designated(
                t,
                step_node(steps[i]),
            ))
            &&& 0 <= i < steps.len() && steps[i] is Positional ==> steps[i]->position
                == positions(steps.take(i))
        }),
{
    lemma_list(t, n, t.children(n).len() as int);
    assert(t.children(n).take(t.children(n).len() as int) =~= t.children(n));
}

proof fn lemma_field_named(all: Seq<FieldLayout>, name: Seq<char>, k: int, i: int)
    requires
        0 <= k <= i < all.len(),
        all[i].name@ == name,
        forall|j: int| k <= j < i ==> (#[trigger] all[j]).name@ != name,
    ensures
        fields::field_named(all, name, k) == Some((all[i].id, all[i].desc@)),
    decreases i - k,
{
    if k < i {
        assert(all[k].name@ != name);
        lemma_field_named(all, name, k + 1, i);
    }
}

/// A member is the first of the layout that bears its name.
pub proof fn law_members_are_found_by_their_name(
    lay: Layouts,
    d: DescView,
    name: Seq<char>,
    i: int,
)
    requires
        0 <= i < lay.fields_of(d).len(),
        lay.fields_of(d)[i].name@ == name,
        forall|j: int| 0 <= j < i ==> (#[trigger] lay.fields_of(d)[j]).name@ != name,
    ensures
        lay.member(d, name) == Some((lay.fields_of(d)[i].id, lay.fields_of(d)[i].desc@)),
{
    lemma_field_named(lay.fields_of(d), name, 0, i);
}

/// The aggregate that a tag names is the first of the kind that bears it.
pub proof fn law_layouts_are_found_by_their_tag(lay: Layouts, name: Seq<char>, i: int)
    requires
        0 <= i < lay.all@.len(),
        lay.all@[i].tag@ == name,
    ensures
        ({
            let d = if lay.all@[i].is_union {
                DescView::Union { name, fields: Seq::empty() }
            } else {
                DescView::Struct { name, fields: Seq::empty() }
            };
            (forall|j: int|
                0 <= j < i ==> (#[trigger] lay.all@[j]).tag@ != name || lay.all@[j].is_union
                    != lay.all@[i].is_union) ==> lay.fields_of(d) == lay.all@[i].fields@
        }),
{
    if forall|j: int|
        0 <= j < i ==> (#[trigger] lay.all@[j]).tag@ != name || lay.all@[j].is_union
            != lay.all@[i].is_union {
        lemma_layout(lay, name, 0, i);
    }
}

proof fn lemma_layout(lay: Layouts, name: Seq<char>, k: int, i: int)
    requires
        0 <= k <= i < lay.all@.len(),
        lay.all@[i].tag@ == name,
        forall|j: int|
            0 <= j < i ==> (#[trigger] lay.all@[j]).tag@ != name || lay.all@[j].is_union
                != lay.all@[i].is_union,
    ensures
        fields::layout_from(lay.all@, name, lay.all@[i].is_union, k) == lay.all@[i].fields@,
    decreases i - k,
{
    if k < i {
        assert(lay.all@[k].tag@ != name || lay.all@[k].is_union != lay.all@[i].is_union);
        lemma_layout(lay, name, k + 1, i);
    }
}

/// A positional element of a struct's list goes to the field of that place.
pub proof fn law_positions_are_those_of_the_layout(
    lay: Layouts,
    d: DescView,
    position: int,
)
    requires
        d is Struct,
        d->Struct_name.len() > 0,
        forall|i: int, j: int|
            0 <= i < j < lay.fields_of(d).len() ==> (#[trigger] lay.fields_of(d)[i]).name@ != (
            #[trigger] lay.fields_of(d)[j]).name@,
    ensures
        0 <= position < lay.fields_of(d).len() ==> initializers::positional(lay, d, position)
            == Some((lay.fields_of(d)[position].id, lay.fields_of(d)[position].name@)),
        position >= lay.fields_of(d).len() ==> initializers::positional(lay, d, position) is None,
{
    if 0 <= position < lay.fields_of(d).len() {
        lemma_field_named(
            lay.fields_of(d),
            lay.fields_of(d)[position].name@,
            0,
            position,
        );
    }
}

/// A designator leads through the members it names, one in the other.
pub proof fn law_designators_lead_through_their_members(
    lay: Layouts,
    d: DescView,
    names: Seq<Seq<char>>,
    nested: bool,
    k: int,
)
    requires
        0 < k <= names.len(),
    ensures
        match initializers::designated_path(lay, d, names, nested, k) {
            Some((ids, end)) => initializers::designated_path(
                lay,
                d,
                names,
                nested,
                k - 1,
            ) matches Some((before, from)) && (lay.member(from, names[k - 1]) matches Some(
                (id, own),
            ) && ids == before.push(id) && (end == own || nested && own == DescView::Ptr(
                Box::new(end),
            ))),
            None => initializers::designated_path(lay, d, names, nested, k - 1) matches Some(
                (_, from),
            ) ==> lay.member(from, names[k - 1]) is None,
        },
        initializers::designated_path(lay, d, names, nested, 0) == Some((Seq::<FieldId>::empty(), d)),
{
}

/// `x.f` and `p->f`, where the name stands for a variable, lead from it to the member of
/// its class, behind its pointers.
pub proof fn law_an_access_leads_to_the_member(
    ty: Typing,
    lay: Layouts,
    t: SyntaxTree,
    source: Seq<char>,
    n: int,
    arg: usize,
    field: usize,
    x: VarId,
    d: DescView,
    id: FieldId,
    own: DescView,
)
    requires
        t.wf(),
        0 <= n < t.len(),
        t.rows@[n].kind@ == "field_expression"@,
        tree_laws::fills_field(t, n, "argument"@, arg),
        tree_laws::fills_field(t, n, "field"@, field),
        t.rows@[arg as int].kind@ == "identifier"@,
        ty.vars.spec_var(t.text(source, arg as int)) == Some(x),
        infer::var_desc(ty.var_types@, x, 0) == Some(d),
        fields::pointee_of(ty, fields::aggregate(d, fields::MAX_LAYERS as nat)) is None,
        lay.member(
            fields::aggregate(d, fields::MAX_LAYERS as nat),
            t.text(source, field as int),
        ) == Some((id, own)),
    ensures
        fields::path_of(ty, lay, t, source, n) == Some(
            PathView {
                base: BaseView::Var(x),
                ids: seq![id],
                names: seq![t.text(source, field as int)],
                types: seq![own],
            },
        ),
{
    lemma_kinds();
    expr::lemma_peeled(t, n);
    tree_laws::lemma_first_is_one(t, n, "argument"@, arg);
    tree_laws::lemma_first_is_one(t, n, "field"@, field);
    t.lemma_fielded(n, "argument"@);
    expr::lemma_peeled(t, arg as int);
    reveal_with_fuel(fields::path_names, 2);
    reveal_with_fuel(fields::followed_upto, 2);
    let name = t.text(source, field as int);
    let names = seq![(name, infer::by_arrow(t, n))];
    let found = fields::path_names(t, source, n)->0;
    assert(found.0 =~= names);
    let p = fields::path_of(ty, lay, t, source, n)->0;
    assert(p.ids =~= seq![id]);
    assert(p.names =~= seq![name]);
    assert(p.types =~= seq![own]);
}

/// A class or a pointer to it or an array of it is the aggregate its members are found in.
pub proof fn law_members_lie_behind_pointers(d: DescView, n: nat)
    requires
        n > 0,
    ensures
        d is Struct || d is Union ==> fields::aggregate(d, n) == d,
        fields::aggregate(DescView::Ptr(Box::new(d)), n) == fields::aggregate(d, (n - 1) as nat),
        forall|size: Option<u64>|
            #[trigger] fields::aggregate((DescView::Array { elem: Box::new(d), size }), n)
                == fields::aggregate(d, (n - 1) as nat),
        fields::unpointed(DescView::Ptr(Box::new(d))) == d,
{
}

proof fn lemma_followed(
    ty: Typing,
    lay: Layouts,
    s: fields::PathState,
    names: Seq<(Seq<char>, bool)>,
    k: int,
)
    requires
        0 < k,
        fields::followed_upto(ty, lay, s, names, k) is Some,
    ensures
        ({
            let e = fields::followed_upto(ty, lay, s, names, k)->0;
            &&& e.types.len() > 0
            &&& e.desc == fields::unpointed(e.types.last())
            &&& e.raw == (e.types.last() is Ptr)
        }),
{
}

/// An access to a member of a member goes one field further than the path it starts from.
pub proof fn law_nested_accesses_lead_one_field_further(
    ty: Typing,
    lay: Layouts,
    t: SyntaxTree,
    source: Seq<char>,
    n: int,
    arg: usize,
    field: usize,
    p: PathView,
    id: FieldId,
    own: DescView,
)
    requires
        t.wf(),
        0 <= n < t.len(),
        t.rows@[n].kind@ == "field_expression"@,
        tree_laws::fills_field(t, n, "argument"@, arg),
        tree_laws::fills_field(t, n, "field"@, field),
        t.rows@[arg as int].kind@ == "field_expression"@,
        fields::path_of(ty, lay, t, source, arg as int) == Some(p),
        p.types.len() > 0,
        fields::pointee_of(ty, fields::unpointed(p.types.last())) is None,
        lay.member(fields::unpointed(p.types.last()), t.text(source, field as int)) == Some(
            (id, own),
        ),
    ensures
        fields::path_of(ty, lay, t, source, n) == Some(
            PathView {
                base: p.base,
                ids: p.ids.push(id),
                names: p.names.push(t.text(source, field as int)),
                types: p.types.push(own),
            },
        ),
{
    lemma_kinds();
    expr::lemma_peeled(t, n);
    tree_laws::lemma_first_is_one(t, n, "argument"@, arg);
    tree_laws::lemma_first_is_one(t, n, "field"@, field);
    t.lemma_fielded(n, "argument"@);
    expr::lemma_peeled(t, arg as int);
    let (before, base) = fields::path_names(t, source, arg as int)->0;
    let (names, same) = fields::path_names(t, source, n)->0;
    let name = t.text(source, field as int);
    assert(names == before.push((name, infer::by_arrow(t, n))));
    assert(base == same);
    assert(before.len() > 0);
    let x = expr::lvalue_var(*ty.vars, t, source, base)->0;
    let start = fields::path_start(ty, t, source, base, x, before[0].1)->0;
    let k = before.len() as int;
    lemma_same_steps(ty, lay, start, before, names, k);
    lemma_followed(ty, lay, start, before, k);
    let e = fields::followed_upto(ty, lay, start, before, k)->0;
    lemma_start_stays(ty, lay, start, before, k);
    let q = fields::path_of(ty, lay, t, source, n)->0;
    assert(q.names =~= p.names.push(name));
}

proof fn lemma_same_steps(
    ty: Typing,
    lay: Layouts,
    s: fields::PathState,
    a: Seq<(Seq<char>, bool)>,
    b: Seq<(Seq<char>, bool)>,
    k: int,
)
    requires
        0 <= k <= a.len() <= b.len(),
        forall|i: int| 0 <= i < a.len() ==> a[i] == b[i],
    ensures
        fields::followed_upto(ty, lay, s, a, k) == fields::followed_upto(ty, lay, s, b, k),
    decreases k,
{
    if k > 0 {
        lemma_same_steps(ty, lay, s, a, b, k - 1);
    }
}

proof fn lemma_start_stays(
    ty: Typing,
    lay: Layouts,
    s: fields::PathState,
    names: Seq<(Seq<char>, bool)>,
    k: int,
)
    requires
        0 <= k <= names.len(),
        s.start == 0,
        fields::followed_upto(ty, lay, s, names, k) is Some,
    ensures
        0 <= fields::followed_upto(ty, lay, s, names, k)->0.start <= k,
    decreases k,
{
    if k > 0 {
        lemma_start_stays(ty, lay, s, names, k - 1);
    }
}

/// A bare name that is a member of the class is read and written through `this`.
pub proof fn law_members_are_reached_through_this(
    ty: Typing,
    lay: Layouts,
    this: VarId,
    name: Seq<char>,
    cls: Seq<char>,
    id: FieldId,
    own: DescView,
)
    requires
        ty.scope.is_cpp,
        ty.scope.class_ctx is Some,
        ty.scope.class_ctx->0@ == cls,
        lay.member(DescView::Struct { name: cls, fields: Seq::empty() }, name) == Some((id, own)),
    ensures
        fields::this_member(ty, lay, Some(this), name) == Some(
            PathView {
                base: BaseView::Var(this),
                ids: seq![id],
                names: seq![name],
                types: seq![own],
            },
        ),
{
}

/// The value that is stored: a variable by its name or its address, a function by its
/// name, and a name that is neither when the unit ends.
pub proof fn law_stored_values_are_what_is_named(
    ty: Typing,
    f: FnNames,
    lay: Layouts,
    this: Option<VarId>,
    t: SyntaxTree,
    source: Seq<char>,
    n: int,
)
    requires
        t.wf(),
        0 <= n < t.len(),
        t.rows@[n].kind@ == "identifier"@,
    ensures
        ({
            let name = t.text(source, n);
            stores::stored_value(ty, f, lay, this, t, source, n) == (match (
                ty.vars.spec_var(name),
                f.spec_named(name),
            ) {
                (Some(v), _) => FieldValueView::Var(v),
                (None, Some(g)) => FieldValueView::Fn(g),
                (None, None) => FieldValueView::Pending(name),
            })
        }),
{
    lemma_kinds();
}

/// What waits for the unit's end is settled when it comes: a name that means a function
/// by then is its address, else one that means a variable is copied, or addressed.
pub proof fn law_waiting_names_are_settled(
    v: VarNames,
    f: FnNames,
    items: Seq<PendingFnRef>,
    next: nat,
    i: int,
)
    requires
        0 <= i < items.len(),
    ensures
        ({
            let all = pending::all_settled(v, f, items, next);
            match items[i] {
                PendingFnRef::RhsIdent { dst, name } => match (
                    f.spec_named(name@),
                    v.spec_var(name@),
                ) {
                    (Some(callee), _) => all.flows.contains(
                        FlowConstraint::AddrOfFn { dst, callee },
                    ),
                    (None, Some(src)) => all.flows.contains(FlowConstraint::Copy { dst, src }),
                    (None, None) => true,
                },
                PendingFnRef::AddrOfIdent { dst, name } => match (
                    f.spec_named(name@),
                    v.spec_var(name@),
                ) {
                    (Some(callee), _) => all.flows.contains(
                        FlowConstraint::AddrOfFn { dst, callee },
                    ),
                    (None, Some(src)) => all.flows.contains(
                        FlowConstraint::AddrOfVar { dst, src },
                    ),
                    (None, None) => true,
                },
                PendingFnRef::FieldStore { dst, name, .. } => f.spec_named(name@) matches Some(
                    callee,
                ) ==> is_fn_stored(all.flows, dst, callee),
                PendingFnRef::ReturnIdent { owner, name } => match (
                    f.spec_named(name@),
                    v.spec_var(name@),
                ) {
                    (Some(callee), _) => all.returns.contains(
                        (owner, ReturnFlow::AddrOfFn { callee }),
                    ),
                    (None, Some(src)) => all.returns.contains((owner, ReturnFlow::Copy { src })),
                    (None, None) => true,
                },
                PendingFnRef::ReturnAddrOf { owner, name } => match (
                    f.spec_named(name@),
                    v.spec_var(name@),
                ) {
                    (Some(callee), _) => all.returns.contains(
                        (owner, ReturnFlow::AddrOfFn { callee }),
                    ),
                    (None, Some(src)) => all.returns.contains(
                        (owner, ReturnFlow::AddrOfVar { src }),
                    ),
                    (None, None) => true,
                },
            }
        }),
{
    lemma_settled(v, f, items, next, i);
    let all = pending::all_settled(v, f, items, next);
    let at = next + pending::all_settled(v, f, items.take(i), next).temps.len();
    let own = pending::settled(v, f, items[i], at);
    assert(own.flows.len() > 0 ==> all.flows.contains(own.flows[0]));
    assert(own.returns.len() > 0 ==> all.returns.contains(own.returns[0]));
    if let PendingFnRef::FieldStore { dst, name, .. } = items[i] {
        if let Some(callee) = f.spec_named(name@) {
            let from = choose|from: int|
                0 <= from && #[trigger] stands_in(all.flows, own.flows, from);
            assert(all.flows[from] == own.flows[0]);
            assert(all.flows[from + 1] == own.flows[1]);
            let src = VarId(at as u32);
            assert(all.flows[from + 1] == fn_store(dst, src));
            assert(is_fn_stored(all.flows, dst, callee));
        }
    }
}

/// A temporary takes the function's address and is stored through `dst`.
pub open spec fn is_fn_stored(s: Seq<FlowConstraint>, dst: VarId, callee: FnId) -> bool {
    exists|k: int, src: VarId|
        0 <= k < s.len() - 1 && #[trigger] s[k] == (FlowConstraint::AddrOfFn { dst: src, callee })
            && s[k + 1] == (#[trigger] fn_store(dst, src))
}

pub open spec fn fn_store(dst: VarId, src: VarId) -> FlowConstraint {
    FlowConstraint::Store { dst, src }
}

proof fn lemma_settled(
    v: VarNames,
    f: FnNames,
    items: Seq<PendingFnRef>,
    next: nat,
    i: int,
)
    requires
        0 <= i < items.len(),
    ensures
        ({
            let all = pending::all_settled(v, f, items, next);
            let at = next + pending::all_settled(v, f, items.take(i), next).temps.len();
            let own = pending::settled(v, f, items[i], at);
            &&& forall|k: int|
                0 <= k < own.flows.len() ==> all.flows.contains(#[trigger] own.flows[k])
            &&& forall|k: int|
                0 <= k < own.returns.len() ==> all.returns.contains(#[trigger] own.returns[k])
            &&& exists|from: int|
                0 <= from && #[trigger] stands_in(all.flows, own.flows, from)
        }),
    decreases items.len(),
{
    let before = pending::all_settled(v, f, items.drop_last(), next);
    let last = pending::settled(v, f, items.last(), next + before.temps.len());
    let all = pending::all_settled(v, f, items, next);
    assert(all.flows == before.flows + last.flows);
    assert(all.returns == before.returns + last.returns);
    let at = next + pending::all_settled(v, f, items.take(i), next).temps.len();
    let own = pending::settled(v, f, items[i], at);
    if i == items.len() - 1 {
        assert(items.take(i) =~= items.drop_last());
        assert forall|k: int| 0 <= k < own.flows.len() implies all.flows.contains(
            #[trigger] own.flows[k],
        ) by {
            assert(all.flows[before.flows.len() + k] == own.flows[k]);
        }
        assert forall|k: int| 0 <= k < own.returns.len() implies all.returns.contains(
            #[trigger] own.returns[k],
        ) by {
            assert(all.returns[before.returns.len() + k] == own.returns[k]);
        }
        assert(stands_in(all.flows, own.flows, before.flows.len() as int));
    } else {
        lemma_settled(v, f, items.drop_last(), next, i);
        assert(items.drop_last().take(i) =~= items.take(i));
        assert forall|k: int| 0 <= k < own.flows.len() implies all.flows.contains(
            #[trigger] own.flows[k],
        ) by {
            let j = choose|j: int| 0 <= j < before.flows.len() && before.flows[j] == own.flows[k];
            assert(all.flows[j] == own.flows[k]);
        }
        assert forall|k: int| 0 <= k < own.returns.len() implies all.returns.contains(
            #[trigger] own.returns[k],
        ) by {
            let j = choose|j: int|
                0 <= j < before.returns.len() && before.returns[j] == own.returns[k];
            assert(all.returns[j] == own.returns[k]);
        }
        let from = choose|from: int|
            0 <= from && #[trigger] stands_in(before.flows, own.flows, from);
        assert(stands_in(all.flows, own.flows, from));
    }
}

/// The constraints of `part` stand in `all` one after the other from the place on.
pub open spec fn stands_in(
    all: Seq<FlowConstraint>,
    part: Seq<FlowConstraint>,
    from: int,
) -> bool {
    from + part.len() <= all.len() && forall|k: int|
        0 <= k < part.len() ==> all[from + k] == #[trigger] part[k]
}

/// Adjacent strings are one: a string that another follows is the text of both.
pub proof fn law_adjacent_strings_are_one(
    t: SyntaxTree,
    source: Seq<char>,
    n: int,
    k: int,
    a: Seq<char>,
    b: Seq<char>,
)
    requires
        0 < k <= t.children(n).len(),
        t.rows@[t.children(n)[k - 1] as int].kind@ == "string_literal"@,
        flows::literals_upto(t, source, n, k - 1) matches Some((own, _)) && own == a,
        literal::literal_contents(t.text(source, t.children(n)[k - 1] as int)) == Some(b),
    ensures
        flows::literals_upto(t, source, n, k) == Some((a + b, true)),
{
}

} // verus!
