//! Walking a unit and its bodies: what each node asks for, in the order in
//! which the sources spell it, and where the scopes open and close.

use crate::syntax::SyntaxTree;
use vstd::prelude::*;

verus! {

/// How deep a walk follows nested nodes. Deeper ones are left out, with one
/// warning.
pub const MAX_AST_WALK_DEPTH: usize = 512;

/// What a walk of a body comes by.
#[derive(Debug, Clone, Copy, PartialEq, Eq, Structural)]
pub enum BodyEvent {
    Declaration { node: usize },
    /// A `using` directive or declaration, which ends with its block.
    Using { node: usize },
    /// A typedef or alias, which ends with its block.
    Alias { node: usize },
    Assignment { node: usize },
    Call { node: usize },
    /// A lambda, whose body is a function of its own.
    Lambda { node: usize },
    Return { node: usize },
    /// A `new` expression, which constructs.
    New { node: usize },
    /// A `delete` of the operand, which destroys.
    Delete { node: usize, operand: usize },
    /// The member initializers of a constructor.
    Initializers { node: usize },
    /// A block opens, or a statement that locals live in.
    Enter { block: bool, scope: bool },
    /// It closes.
    Leave { block: bool, scope: bool },
    /// Deeper nodes are left out.
    TooDeep,
}

/// The last named child of `n` among the first `k`.
pub open spec fn last_named_upto(t: SyntaxTree, n: int, k: int) -> Option<usize>
    decreases k,
{
    if k <= 0 {
        None
    } else {
        let c = t.children(n)[k - 1];
        if t.rows@[c as int].is_named {
            Some(c)
        } else {
            last_named_upto(t, n, k - 1)
        }
    }
}

pub open spec fn last_named(t: SyntaxTree, n: int) -> Option<usize> {
    last_named_upto(t, n, t.children(n).len() as int)
}

/// The last named child of a node.
pub fn last_named_child(tree: &SyntaxTree, node: usize) -> (r: Option<usize>)
    requires
        tree.wf(),
        node < tree.len(),
    ensures
        r == last_named(*tree, node as int),
        r matches Some(c) ==> node < c < tree.len(),
{
    let mut k: usize = tree.kids[node].len();
    while k > 0
        invariant
            tree.wf(),
            node < tree.len(),
            k <= tree.children(node as int).len(),
            last_named(*tree, node as int) == last_named_upto(*tree, node as int, k as int),
        decreases k,
    {
        k -= 1;
        let c = tree.kids[node][k];
        assert(c == tree.children(node as int)[k as int]);
        if tree.rows[c].is_named {
            return Some(c);
        }
    }
    None
}

/// What a node of a body asks for itself.
pub open spec fn own_event(t: SyntaxTree, n: int, cpp: bool) -> Option<BodyEvent> {
    let kind = t.spec_kind(n);
    let node = n as usize;
    if kind == "declaration"@ {
        Some(BodyEvent::Declaration { node })
    } else if kind == "using_declaration"@ && cpp {
        Some(BodyEvent::Using { node })
    } else if (kind == "type_definition"@ || kind == "alias_declaration"@) && !t.stands_under(
        n,
        "field_declaration_list"@,
    ) {
        Some(BodyEvent::Alias { node })
    } else if kind == "assignment_expression"@ {
        Some(BodyEvent::Assignment { node })
    } else if kind == "call_expression"@ {
        Some(BodyEvent::Call { node })
    } else if kind == "lambda_expression"@ && cpp {
        Some(BodyEvent::Lambda { node })
    } else if kind == "return_statement"@ {
        Some(BodyEvent::Return { node })
    } else if kind == "new_expression"@ && cpp {
        Some(BodyEvent::New { node })
    } else if kind == "delete_expression"@ && cpp {
        match last_named(t, n) {
            Some(operand) => Some(BodyEvent::Delete { node, operand }),
            None => None,
        }
    } else if kind == "field_initializer_list"@ && cpp {
        Some(BodyEvent::Initializers { node })
    } else {
        None
    }
}

/// A statement that locals declared in its head live in.
pub open spec fn scoping_statement(kind: Seq<char>) -> bool {
    kind == "if_statement"@ || kind == "for_statement"@ || kind == "for_range_loop"@ || kind
        == "while_statement"@ || kind == "switch_statement"@ || kind == "catch_clause"@
}

pub open spec fn opens_block(t: SyntaxTree, n: int) -> bool {
    t.spec_kind(n) == "compound_statement"@
}

/// In C++ a local lives to the end of its block, or of the statement whose
/// head declares it. C keeps one name per function.
pub open spec fn opens_scope(t: SyntaxTree, n: int, cpp: bool) -> bool {
    cpp && (opens_block(t, n) || scoping_statement(t.spec_kind(n)))
}

pub open spec fn enters(t: SyntaxTree, n: int, cpp: bool) -> Seq<BodyEvent> {
    if opens_block(t, n) || opens_scope(t, n, cpp) {
        seq![BodyEvent::Enter { block: opens_block(t, n), scope: opens_scope(t, n, cpp) }]
    } else {
        seq![]
    }
}

pub open spec fn leaves(t: SyntaxTree, n: int, cpp: bool) -> Seq<BodyEvent> {
    if opens_block(t, n) || opens_scope(t, n, cpp) {
        seq![BodyEvent::Leave { block: opens_block(t, n), scope: opens_scope(t, n, cpp) }]
    } else {
        seq![]
    }
}

pub open spec fn just(e: Option<BodyEvent>) -> Seq<BodyEvent> {
    match e {
        Some(e) => seq![e],
        None => seq![],
    }
}

/// What a walk of the node comes by: what the node asks for, then what its
/// children do, inside the scope it opens. A lambda is not walked into.
pub open spec fn body_events(t: SyntaxTree, n: int, cpp: bool, depth: nat) -> Seq<BodyEvent>
    decreases t.len() - n, t.children(n).len() + 1,
    when t.wf() && 0 <= n < t.len()
{
    if depth >= MAX_AST_WALK_DEPTH {
        seq![BodyEvent::TooDeep]
    } else if own_event(t, n, cpp) is Some && own_event(t, n, cpp)->0 is Lambda {
        just(own_event(t, n, cpp))
    } else {
        just(own_event(t, n, cpp)) + enters(t, n, cpp) + body_events_from(t, n, cpp, depth + 1, 0)
            + leaves(t, n, cpp)
    }
}

/// What a walk of the children of `n` from position `k` comes by.
pub open spec fn body_events_from(t: SyntaxTree, n: int, cpp: bool, depth: nat, k: int) -> Seq<
    BodyEvent,
>
    decreases t.len() - n, t.children(n).len() - k,
    when t.wf() && 0 <= n < t.len()
{
    if k < 0 || k >= t.children(n).len() {
        seq![]
    } else {
        body_events(t, t.children(n)[k] as int, cpp, depth) + body_events_from(
            t,
            n,
            cpp,
            depth,
            k + 1,
        )
    }
}

fn event_of(tree: &SyntaxTree, node: usize, cpp: bool) -> (r: Option<BodyEvent>)
    requires
        tree.wf(),
        node < tree.len(),
    ensures
        r == own_event(*tree, node as int, cpp),
{
    if tree.kind_is(node, "declaration") {
        Some(BodyEvent::Declaration { node })
    } else if cpp && tree.kind_is(node, "using_declaration") {
        Some(BodyEvent::Using { node })
    } else if (tree.kind_is(node, "type_definition") || tree.kind_is(node, "alias_declaration"))
        && !tree.parent_is(node, "field_declaration_list") {
        Some(BodyEvent::Alias { node })
    } else if tree.kind_is(node, "assignment_expression") {
        Some(BodyEvent::Assignment { node })
    } else if tree.kind_is(node, "call_expression") {
        Some(BodyEvent::Call { node })
    } else if cpp && tree.kind_is(node, "lambda_expression") {
        Some(BodyEvent::Lambda { node })
    } else if tree.kind_is(node, "return_statement") {
        Some(BodyEvent::Return { node })
    } else if cpp && tree.kind_is(node, "new_expression") {
        Some(BodyEvent::New { node })
    } else if cpp && tree.kind_is(node, "delete_expression") {
        match last_named_child(tree, node) {
            Some(operand) => Some(BodyEvent::Delete { node, operand }),
            None => None,
        }
    } else if cpp && tree.kind_is(node, "field_initializer_list") {
        Some(BodyEvent::Initializers { node })
    } else {
        None
    }
}

fn is_scoping(tree: &SyntaxTree, node: usize) -> (r: bool)
    requires
        tree.wf(),
        node < tree.len(),
    ensures
        r == scoping_statement(tree.spec_kind(node as int)),
{
    tree.kind_is(node, "if_statement") || tree.kind_is(node, "for_statement") || tree.kind_is(
        node,
        "for_range_loop",
    ) || tree.kind_is(node, "while_statement") || tree.kind_is(node, "switch_statement")
        || tree.kind_is(node, "catch_clause")
}

/// Walk a body: note what its nodes ask for, in order. `depth` is how deep the
/// node stands already.
#[verifier::rlimit(40)]
pub fn walk_function_body(
    tree: &SyntaxTree,
    node: usize,
    cpp: bool,
    depth: usize,
    out: &mut Vec<BodyEvent>,
)
    requires
        tree.wf(),
        node < tree.len(),
    ensures
        final(out)@ == old(out)@ + body_events(*tree, node as int, cpp, depth as nat),
    decreases tree.len() - node,
{
    let ghost first = out@;
    if depth >= MAX_AST_WALK_DEPTH {
        out.push(BodyEvent::TooDeep);
        assert(out@ =~= first + seq![BodyEvent::TooDeep]);
        return;
    }
    let own = event_of(tree, node, cpp);
    let ghost asked = just(own);
    let is_lambda = match own {
        Some(BodyEvent::Lambda { node: _ }) => true,
        _ => false,
    };
    match own {
        Some(e) => {
            out.push(e);
        },
        None => {},
    }
    assert(out@ =~= first + asked);
    if is_lambda {
        return;
    }
    let block = tree.kind_is(node, "compound_statement");
    let scope = cpp && (block || is_scoping(tree, node));
    if block || scope {
        out.push(BodyEvent::Enter { block, scope });
    }
    let ghost opened = first + asked + enters(*tree, node as int, cpp);
    assert(out@ =~= opened);
    let ghost below = body_events_from(*tree, node as int, cpp, (depth + 1) as nat, 0);
    let mut k: usize = 0;
    assert(opened + below == out@ + body_events_from(
        *tree,
        node as int,
        cpp,
        (depth + 1) as nat,
        k as int,
    ));
    while k < tree.kids[node].len()
        invariant
            tree.wf(),
            node < tree.len(),
            depth < MAX_AST_WALK_DEPTH,
            k <= tree.children(node as int).len(),
            opened + below == out@ + body_events_from(
                *tree,
                node as int,
                cpp,
                (depth + 1) as nat,
                k as int,
            ),
        decreases tree.children(node as int).len() - k,
    {
        let c = tree.kids[node][k];
        assert(c == tree.children(node as int)[k as int]);
        let ghost before = out@;
        walk_function_body(tree, c, cpp, depth + 1, out);
        proof {
            let own = body_events(*tree, c as int, cpp, (depth + 1) as nat);
            let rest = body_events_from(*tree, node as int, cpp, (depth + 1) as nat, k + 1);
            assert(before + (own + rest) =~= (before + own) + rest);
        }
        k += 1;
    }
    assert(out@ =~= opened + below);
    if block || scope {
        out.push(BodyEvent::Leave { block, scope });
    }
    proof {
        let end = leaves(*tree, node as int, cpp);
        assert(out@ =~= opened + below + end);
        assert(opened + below + end =~= first + (asked + enters(*tree, node as int, cpp) + below
            + end));
    }
}

/// How many scopes are open after the events.
pub open spec fn open_scopes(v: Seq<BodyEvent>) -> int
    decreases v.len(),
{
    if v.len() == 0 {
        0
    } else {
        open_scopes(v.drop_last()) + match v.last() {
            BodyEvent::Enter { .. } => 1int,
            BodyEvent::Leave { .. } => -1,
            _ => 0,
        }
    }
}

proof fn lemma_open_scopes(a: Seq<BodyEvent>, b: Seq<BodyEvent>)
    ensures
        open_scopes(a + b) == open_scopes(a) + open_scopes(b),
    decreases b.len(),
{
    if b.len() == 0 {
        assert(a + b =~= a);
    } else {
        lemma_open_scopes(a, b.drop_last());
        assert((a + b).drop_last() =~= a + b.drop_last());
        assert((a + b).last() == b.last());
    }
}

/// No prefix of the events closes more scopes than it opened.
pub open spec fn never_overclosed(v: Seq<BodyEvent>) -> bool {
    forall|k: int| 0 <= k <= v.len() ==> open_scopes(#[trigger] v.take(k)) >= 0
}

proof fn lemma_never_overclosed(a: Seq<BodyEvent>, b: Seq<BodyEvent>)
    requires
        never_overclosed(a),
        forall|k: int|
            0 <= k <= b.len() ==> open_scopes(a) + open_scopes(#[trigger] b.take(k)) >= 0,
    ensures
        never_overclosed(a + b),
{
    assert forall|k: int| 0 <= k <= (a + b).len() implies open_scopes(
        #[trigger] (a + b).take(k),
    ) >= 0 by {
        if k <= a.len() {
            assert((a + b).take(k) =~= a.take(k));
        } else {
            assert((a + b).take(k) =~= a + b.take(k - a.len()));
            lemma_open_scopes(a, b.take(k - a.len()));
        }
    }
}

proof fn lemma_single(e: BodyEvent)
    ensures
        open_scopes(seq![e]) == match e {
            BodyEvent::Enter { .. } => 1int,
            BodyEvent::Leave { .. } => -1,
            _ => 0,
        },
        forall|k: int|
            0 <= k <= 1 ==> #[trigger] open_scopes(seq![e].take(k)) == if k == 0 {
                0
            } else {
                open_scopes(seq![e])
            },
{
    reveal_with_fuel(open_scopes, 2);
    assert(seq![e].drop_last() =~= seq![]);
    assert(seq![e].take(0) =~= seq![]);
    assert(seq![e].take(1) =~= seq![e]);
}

/// Every scope a body opens is closed, and none but those: after a node is
/// walked as many are open as before, and on the way never fewer.
pub proof fn law_bodies_close_their_scopes(t: SyntaxTree, n: int, cpp: bool, depth: nat)
    requires
        t.wf(),
        0 <= n < t.len(),
    ensures
        open_scopes(body_events(t, n, cpp, depth)) == 0,
        never_overclosed(body_events(t, n, cpp, depth)),
    decreases t.len() - n, t.children(n).len() + 1,
{
    if depth >= MAX_AST_WALK_DEPTH {
        lemma_single(BodyEvent::TooDeep);
    } else {
        let asked = just(own_event(t, n, cpp));
        match own_event(t, n, cpp) {
            Some(e) => {
                lemma_single(e);
            },
            None => {
                assert(asked.take(0) =~= seq![]);
            },
        }
        assert(open_scopes(asked) == 0 && never_overclosed(asked));
        if !(own_event(t, n, cpp) is Some && own_event(t, n, cpp)->0 is Lambda) {
            let opened = enters(t, n, cpp);
            let below = body_events_from(t, n, cpp, depth + 1, 0);
            let closed = leaves(t, n, cpp);
            lemma_children_close(t, n, cpp, depth + 1, 0);
            lemma_open_scopes(asked, opened);
            lemma_open_scopes(asked + opened, below);
            lemma_open_scopes(asked + opened + below, closed);
            if opens_block(t, n) || opens_scope(t, n, cpp) {
                lemma_single(opened[0]);
                lemma_single(closed[0]);
                assert(opened =~= seq![opened[0]]);
                assert(closed =~= seq![closed[0]]);
            } else {
                assert(opened.take(0) =~= seq![]);
                assert(closed.take(0) =~= seq![]);
            }
            lemma_never_overclosed(asked, opened);
            lemma_never_overclosed(asked + opened, below);
            lemma_never_overclosed(asked + opened + below, closed);
        }
    }
}

proof fn lemma_children_close(t: SyntaxTree, n: int, cpp: bool, depth: nat, k: int)
    requires
        t.wf(),
        0 <= n < t.len(),
        0 <= k,
    ensures
        open_scopes(body_events_from(t, n, cpp, depth, k)) == 0,
        never_overclosed(body_events_from(t, n, cpp, depth, k)),
    decreases t.len() - n, t.children(n).len() - k,
{
    if k < t.children(n).len() {
        let c = t.children(n)[k] as int;
        law_bodies_close_their_scopes(t, c, cpp, depth);
        lemma_children_close(t, n, cpp, depth, k + 1);
        let first = body_events(t, c, cpp, depth);
        let rest = body_events_from(t, n, cpp, depth, k + 1);
        lemma_open_scopes(first, rest);
        lemma_never_overclosed(first, rest);
    }
}

/// What one list of a scope, and the marks into it, become at an event: entering
/// notes the list's length, leaving a block cuts the list back to the length
/// noted, and any other event adds to the list.
pub open spec fn list_step<A>(e: BodyEvent, added: Seq<A>, at: (Seq<A>, Seq<nat>)) -> (
    Seq<A>,
    Seq<nat>,
) {
    match e {
        BodyEvent::Enter { .. } => (at.0, at.1.push(at.0.len())),
        BodyEvent::Leave { block, .. } => (
            if block {
                at.0.take(at.1.last() as int)
            } else {
                at.0
            },
            at.1.drop_last(),
        ),
        _ => (at.0 + added, at.1),
    }
}

/// What the events make of a list and the marks into it; `added[k]` is what
/// event `k` adds.
pub open spec fn list_after<A>(
    v: Seq<BodyEvent>,
    added: Seq<Seq<A>>,
    at: (Seq<A>, Seq<nat>),
) -> (Seq<A>, Seq<nat>)
    decreases v.len(),
{
    if v.len() == 0 {
        at
    } else {
        list_step(v.last(), added[v.len() - 1], list_after(v.drop_last(), added, at))
    }
}

proof fn lemma_list_after<A>(
    a: Seq<BodyEvent>,
    b: Seq<BodyEvent>,
    added: Seq<Seq<A>>,
    at: (Seq<A>, Seq<nat>),
)
    requires
        added.len() >= a.len() + b.len(),
    ensures
        list_after(a + b, added, at) == list_after(
            b,
            added.skip(a.len() as int),
            list_after(a, added, at),
        ),
    decreases b.len(),
{
    if b.len() == 0 {
        assert(a + b =~= a);
    } else {
        lemma_list_after(a, b.drop_last(), added, at);
        assert((a + b).drop_last() =~= a + b.drop_last());
        assert((a + b).last() == b.last());
        assert(added.skip(a.len() as int)[b.len() - 1] == added[(a + b).len() - 1]);
    }
}

/// What a body writes into a scope's list reaches no further than its block:
/// walking a node leaves the marks as they were and the list going on from what
/// it was, and walking a block leaves the list itself as it was.
pub proof fn law_blocks_give_back_what_they_add<A>(
    t: SyntaxTree,
    n: int,
    cpp: bool,
    depth: nat,
    added: Seq<Seq<A>>,
    at: (Seq<A>, Seq<nat>),
)
    requires
        t.wf(),
        0 <= n < t.len(),
        added.len() >= body_events(t, n, cpp, depth).len(),
    ensures
        list_after(body_events(t, n, cpp, depth), added, at).1 == at.1,
        at.0.is_prefix_of(list_after(body_events(t, n, cpp, depth), added, at).0),
        opens_block(t, n) && depth < MAX_AST_WALK_DEPTH ==> list_after(
            body_events(t, n, cpp, depth),
            added,
            at,
        ).0 == at.0,
    decreases t.len() - n, t.children(n).len() + 1,
{
    if depth >= MAX_AST_WALK_DEPTH {
        lemma_one_step(BodyEvent::TooDeep, added, at);
    } else {
        let own = own_event(t, n, cpp);
        let asked = just(own);
        match own {
            Some(e) => {
                lemma_one_step(e, added, at);
            },
            None => {},
        }
        let s1 = list_after(asked, added, at);
        assert(s1.1 == at.1 && at.0.is_prefix_of(s1.0));
        if opens_block(t, n) {
            lemma_blocks_ask_nothing(t, n, cpp);
        }
        if !(own is Some && own->0 is Lambda) {
            let opened = enters(t, n, cpp);
            let below = body_events_from(t, n, cpp, depth + 1, 0);
            let closed = leaves(t, n, cpp);
            let all = asked + opened + below + closed;
            lemma_list_after(asked, opened, added, at);
            lemma_list_after(asked + opened, below, added, at);
            lemma_list_after(asked + opened + below, closed, added, at);
            let s2 = list_after(asked + opened, added, at);
            let rest = added.skip((asked + opened).len() as int);
            lemma_lists_below(t, n, cpp, depth + 1, 0, rest, s2);
            let s3 = list_after(asked + opened + below, added, at);
            assert(s3.1 == s2.1 && s2.0.is_prefix_of(s3.0));
            let s4 = list_after(all, added, at);
            if opens_block(t, n) || opens_scope(t, n, cpp) {
                assert(opened =~= seq![opened[0]] && closed =~= seq![closed[0]]);
                lemma_one_step(opened[0], added.skip(asked.len() as int), s1);
                lemma_one_step(
                    closed[0],
                    added.skip((asked + opened + below).len() as int),
                    s3,
                );
                assert(s2 == (s1.0, s1.1.push(s1.0.len())));
                assert(s2.1.drop_last() =~= s1.1);
                assert(s4.1 == s1.1);
                assert(s3.0.take(s1.0.len() as int) =~= s1.0);
            } else {
                assert(s4 == s3);
            }
        }
    }
}

proof fn lemma_one_step<A>(e: BodyEvent, added: Seq<Seq<A>>, at: (Seq<A>, Seq<nat>))
    ensures
        list_after(seq![e], added, at) == list_step(e, added[0], at),
{
    reveal_with_fuel(list_after, 2);
    assert(seq![e].drop_last() =~= seq![]);
}

proof fn lemma_blocks_ask_nothing(t: SyntaxTree, n: int, cpp: bool)
    requires
        opens_block(t, n),
    ensures
        own_event(t, n, cpp) is None,
{
    reveal_strlit("compound_statement");
    reveal_strlit("declaration");
    reveal_strlit("using_declaration");
    reveal_strlit("type_definition");
    reveal_strlit("alias_declaration");
    reveal_strlit("assignment_expression");
    reveal_strlit("call_expression");
    reveal_strlit("lambda_expression");
    reveal_strlit("return_statement");
    reveal_strlit("new_expression");
    reveal_strlit("delete_expression");
    reveal_strlit("field_initializer_list");
    assert("compound_statement"@[1] == 'o');
}

proof fn lemma_lists_below<A>(
    t: SyntaxTree,
    n: int,
    cpp: bool,
    depth: nat,
    k: int,
    added: Seq<Seq<A>>,
    at: (Seq<A>, Seq<nat>),
)
    requires
        t.wf(),
        0 <= n < t.len(),
        0 <= k,
        added.len() >= body_events_from(t, n, cpp, depth, k).len(),
    ensures
        list_after(body_events_from(t, n, cpp, depth, k), added, at).1 == at.1,
        at.0.is_prefix_of(list_after(body_events_from(t, n, cpp, depth, k), added, at).0),
    decreases t.len() - n, t.children(n).len() - k,
{
    if k < t.children(n).len() {
        let c = t.children(n)[k] as int;
        let first = body_events(t, c, cpp, depth);
        let rest = body_events_from(t, n, cpp, depth, k + 1);
        law_blocks_give_back_what_they_add(t, c, cpp, depth, added, at);
        lemma_lists_below(
            t,
            n,
            cpp,
            depth,
            k + 1,
            added.skip(first.len() as int),
            list_after(first, added, at),
        );
        lemma_list_after(first, rest, added, at);
    }
}

/// What a walk of a unit comes by, outside bodies.
#[derive(Debug, Clone, Copy, PartialEq, Eq, Structural)]
pub enum UnitEvent {
    Function { node: usize },
    Declaration { node: usize },
    /// A class, struct or union. In C++ the first two have members to lower.
    Class { node: usize, has_members: bool },
    Namespace { node: usize },
    Using { node: usize },
    Alias { node: usize },
    TooDeep,
}

/// What a node outside bodies asks for. What has an event of its own is not
/// walked into here.
pub open spec fn unit_event(t: SyntaxTree, n: int, cpp: bool) -> Option<UnitEvent> {
    let kind = t.spec_kind(n);
    let node = n as usize;
    if kind == "function_definition"@ {
        Some(UnitEvent::Function { node })
    } else if kind == "declaration"@ {
        Some(UnitEvent::Declaration { node })
    } else if kind == "struct_specifier"@ || kind == "union_specifier"@ || kind
        == "class_specifier"@ {
        Some(
            UnitEvent::Class {
                node,
                has_members: kind == "class_specifier"@ || (cpp && kind == "struct_specifier"@),
            },
        )
    } else if kind == "namespace_definition"@ {
        Some(UnitEvent::Namespace { node })
    } else if kind == "using_declaration"@ {
        Some(UnitEvent::Using { node })
    } else if kind == "type_definition"@ || kind == "alias_declaration"@ {
        Some(UnitEvent::Alias { node })
    } else {
        None
    }
}

/// What a walk of the node comes by. A template is walked for what it
/// declares, not for its parameters.
pub open spec fn unit_events(t: SyntaxTree, n: int, cpp: bool, depth: nat) -> Seq<UnitEvent>
    decreases t.len() - n, t.children(n).len() + 1,
    when t.wf() && 0 <= n < t.len()
{
    if depth >= MAX_AST_WALK_DEPTH {
        seq![UnitEvent::TooDeep]
    } else {
        match unit_event(t, n, cpp) {
            Some(e) => seq![e],
            None => unit_events_from(t, n, cpp, depth + 1, 0),
        }
    }
}

pub open spec fn skips_child(t: SyntaxTree, n: int, c: int) -> bool {
    t.spec_kind(n) == "template_declaration"@ && t.spec_kind(c) == "template_parameter_list"@
}

pub open spec fn unit_events_from(t: SyntaxTree, n: int, cpp: bool, depth: nat, k: int) -> Seq<
    UnitEvent,
>
    decreases t.len() - n, t.children(n).len() - k,
    when t.wf() && 0 <= n < t.len()
{
    if k < 0 || k >= t.children(n).len() {
        seq![]
    } else {
        let c = t.children(n)[k] as int;
        (if skips_child(t, n, c) {
            seq![]
        } else {
            unit_events(t, c, cpp, depth)
        }) + unit_events_from(t, n, cpp, depth, k + 1)
    }
}

fn unit_event_of(tree: &SyntaxTree, node: usize, cpp: bool) -> (r: Option<UnitEvent>)
    requires
        tree.wf(),
        node < tree.len(),
    ensures
        r == unit_event(*tree, node as int, cpp),
{
    if tree.kind_is(node, "function_definition") {
        Some(UnitEvent::Function { node })
    } else if tree.kind_is(node, "declaration") {
        Some(UnitEvent::Declaration { node })
    } else if tree.kind_is(node, "class_specifier") {
        Some(UnitEvent::Class { node, has_members: true })
    } else if tree.kind_is(node, "struct_specifier") {
        Some(UnitEvent::Class { node, has_members: cpp })
    } else if tree.kind_is(node, "union_specifier") {
        Some(UnitEvent::Class { node, has_members: false })
    } else if tree.kind_is(node, "namespace_definition") {
        Some(UnitEvent::Namespace { node })
    } else if tree.kind_is(node, "using_declaration") {
        Some(UnitEvent::Using { node })
    } else if tree.kind_is(node, "type_definition") || tree.kind_is(node, "alias_declaration") {
        Some(UnitEvent::Alias { node })
    } else {
        None
    }
}

/// Walk a unit outside its bodies: note what its nodes ask for, in order.
pub fn lower_tree(
    tree: &SyntaxTree,
    node: usize,
    cpp: bool,
    depth: usize,
    out: &mut Vec<UnitEvent>,
)
    requires
        tree.wf(),
        node < tree.len(),
    ensures
        final(out)@ == old(out)@ + unit_events(*tree, node as int, cpp, depth as nat),
    decreases tree.len() - node,
{
    let ghost first = out@;
    if depth >= MAX_AST_WALK_DEPTH {
        out.push(UnitEvent::TooDeep);
        assert(out@ =~= first + seq![UnitEvent::TooDeep]);
        return;
    }
    match unit_event_of(tree, node, cpp) {
        Some(e) => {
            out.push(e);
            assert(out@ =~= first + seq![e]);
            return;
        },
        None => {},
    }
    let template = tree.kind_is(node, "template_declaration");
    let ghost below = unit_events_from(*tree, node as int, cpp, (depth + 1) as nat, 0);
    let mut k: usize = 0;
    while k < tree.kids[node].len()
        invariant
            tree.wf(),
            node < tree.len(),
            depth < MAX_AST_WALK_DEPTH,
            template == (tree.spec_kind(node as int) == "template_declaration"@),
            k <= tree.children(node as int).len(),
            first + below == out@ + unit_events_from(
                *tree,
                node as int,
                cpp,
                (depth + 1) as nat,
                k as int,
            ),
        decreases tree.children(node as int).len() - k,
    {
        let c = tree.kids[node][k];
        assert(c == tree.children(node as int)[k as int]);
        let ghost before = out@;
        let ghost rest = unit_events_from(*tree, node as int, cpp, (depth + 1) as nat, k + 1);
        if !(template && tree.kind_is(c, "template_parameter_list")) {
            lower_tree(tree, c, cpp, depth + 1, out);
            proof {
                let own = unit_events(*tree, c as int, cpp, (depth + 1) as nat);
                assert(before + (own + rest) =~= (before + own) + rest);
            }
        } else {
            assert(Seq::<UnitEvent>::empty() + rest =~= rest);
        }
        k += 1;
    }
    assert(out@ =~= first + below);
}

/// The node and what stands below it end before `end`: what follows directly
/// stands no deeper than the node.
pub open spec fn ends_at(t: SyntaxTree, n: int, end: int) -> bool {
    &&& n < end <= t.len()
    &&& forall|m: int| n < m < end ==> t.rows@[n].depth < (#[trigger] t.rows@[m]).depth
    &&& end < t.len() ==> t.rows@[end].depth <= t.rows@[n].depth
}

/// Where the nodes below a node end.
pub fn subtree_end(tree: &SyntaxTree, node: usize) -> (end: usize)
    requires
        node < tree.len(),
    ensures
        ends_at(*tree, node as int, end as int),
{
    let total = tree.rows.len();
    let mut end: usize = node + 1;
    while end < total && tree.rows[end].depth > tree.rows[node].depth
        invariant
            total == tree.rows@.len(),
            node < end <= tree.len(),
            forall|m: int|
                node < m < end ==> tree.rows@[node as int].depth < (#[trigger] tree.rows@[m]).depth,
        decreases tree.len() - end,
    {
        end += 1;
    }
    end
}

/// The calls among the nodes from `from` up to `to`, the last one first.
pub open spec fn calls_down(t: SyntaxTree, from: int, to: int) -> Seq<usize>
    decreases to - from,
{
    if to <= from {
        Seq::empty()
    } else if t.spec_kind(from) == "call_expression"@ {
        calls_down(t, from + 1, to).push(from as usize)
    } else {
        calls_down(t, from + 1, to)
    }
}

/// The calls of an expression, inner ones before those around them: a call is
/// typed by the calls that its callee and its receiver are made of.
pub fn calls_within(tree: &SyntaxTree, node: usize) -> (r: Vec<usize>)
    requires
        tree.wf(),
        node < tree.len(),
    ensures
        exists|end: int| #[trigger]
            ends_at(*tree, node as int, end) && r@ == calls_down(*tree, node as int, end),
{
    let end = subtree_end(tree, node);
    let mut out: Vec<usize> = Vec::new();
    let mut at: usize = end;
    while at > node
        invariant
            tree.wf(),
            node <= at <= end <= tree.len(),
            out@ == calls_down(*tree, at as int, end as int),
        decreases at,
    {
        at -= 1;
        if tree.kind_is(at, "call_expression") {
            out.push(at);
        }
    }
    assert(ends_at(*tree, node as int, end as int));
    out
}

} // verus!
