//! What is reached over edges from where one starts.

use vstd::prelude::*;

verus! {

pub open spec fn edge_lists(v: Seq<Vec<usize>>) -> Seq<Seq<usize>> {
    v.map_values(|e: Vec<usize>| e@)
}

/// An edge leads from `a` to `b`.
pub open spec fn edge(edges: Seq<Seq<usize>>, a: usize, b: usize) -> bool {
    a < edges.len() && edges[a as int].contains(b)
}

/// A chain of edges.
pub open spec fn is_chain(edges: Seq<Seq<usize>>, path: Seq<usize>) -> bool {
    path.len() > 0 && forall|i: int|
        0 <= i < path.len() - 1 ==> edge(edges, #[trigger] path[i], path[i + 1])
}

/// `b` is reached from `a`: it is `a`, or a chain of edges leads to it.
pub open spec fn reaches(edges: Seq<Seq<usize>>, a: usize, b: usize) -> bool {
    exists|path: Seq<usize>| #[trigger]
        is_chain(edges, path) && path[0] == a && path.last() == b
}

/// `b` is reached from one of the starts.
pub open spec fn reached(edges: Seq<Seq<usize>>, starts: Seq<usize>, b: usize) -> bool {
    exists|k: int| 0 <= k < starts.len() && reaches(edges, #[trigger] starts[k], b)
}

/// Every edge leads to a node.
pub open spec fn edges_exist(edges: Seq<Seq<usize>>) -> bool {
    forall|a: usize, b: usize| #[trigger] edge(edges, a, b) ==> b < edges.len()
}

pub proof fn lemma_reaches_itself(edges: Seq<Seq<usize>>, a: usize)
    ensures
        reaches(edges, a, a),
{
    let path = seq![a];
    assert(is_chain(edges, path));
    assert(path[0] == a && path.last() == a);
}

proof fn lemma_reaches_on(edges: Seq<Seq<usize>>, a: usize, b: usize, c: usize)
    requires
        reaches(edges, a, b),
        edge(edges, b, c),
    ensures
        reaches(edges, a, c),
{
    let path = choose|path: Seq<usize>| #[trigger]
        is_chain(edges, path) && path[0] == a && path.last() == b;
    let longer = path.push(c);
    assert forall|i: int| 0 <= i < longer.len() - 1 implies edge(
        edges,
        #[trigger] longer[i],
        longer[i + 1],
    ) by {
        if i < path.len() - 1 {
            assert(edge(edges, path[i], path[i + 1]));
        }
    }
    assert(is_chain(edges, longer));
    assert(longer[0] == a && longer.last() == c);
}

/// What is reached from where an edge leads is reached from where it starts.
pub proof fn lemma_reaches_over(edges: Seq<Seq<usize>>, a: usize, b: usize, c: usize)
    requires
        edge(edges, a, b),
        reaches(edges, b, c),
    ensures
        reaches(edges, a, c),
{
    let path = choose|path: Seq<usize>| #[trigger]
        is_chain(edges, path) && path[0] == b && path.last() == c;
    let longer = seq![a] + path;
    assert forall|i: int| 0 <= i < longer.len() - 1 implies edge(
        edges,
        #[trigger] longer[i],
        longer[i + 1],
    ) by {
        if i > 0 {
            assert(edge(edges, path[i - 1], path[i]));
        }
    }
    assert(is_chain(edges, longer));
    assert(longer[0] == a && longer.last() == c);
}

proof fn lemma_closed_holds_chains(edges: Seq<Seq<usize>>, marks: Seq<bool>, path: Seq<usize>)
    requires
        forall|x: usize, y: usize| #[trigger]
            edge(edges, x, y) && x < marks.len() && marks[x as int] ==> y < marks.len()
                && marks[y as int],
        is_chain(edges, path),
        path[0] < marks.len(),
        marks[path[0] as int],
    ensures
        path.last() < marks.len(),
        marks[path.last() as int],
    decreases path.len(),
{
    if path.len() > 1 {
        let shorter = path.drop_last();
        assert forall|i: int| 0 <= i < shorter.len() - 1 implies edge(
            edges,
            #[trigger] shorter[i],
            shorter[i + 1],
        ) by {
            assert(edge(edges, path[i], path[i + 1]));
        }
        lemma_closed_holds_chains(edges, marks, shorter);
        assert(edge(edges, path[path.len() - 2], path[path.len() - 1]));
    }
}

/// How many marks are not set.
pub open spec fn unset(marks: Seq<bool>) -> nat
    decreases marks.len(),
{
    if marks.len() == 0 {
        0
    } else {
        unset(marks.drop_last()) + if marks.last() {
            0nat
        } else {
            1
        }
    }
}

proof fn lemma_unset_drops(marks: Seq<bool>, i: int)
    requires
        0 <= i < marks.len(),
        !marks[i],
    ensures
        unset(marks.update(i, true)) < unset(marks),
    decreases marks.len(),
{
    if i < marks.len() - 1 {
        lemma_unset_drops(marks.drop_last(), i);
        assert(marks.update(i, true).drop_last() =~= marks.drop_last().update(i, true));
    } else {
        assert(marks.update(i, true).drop_last() =~= marks.drop_last());
    }
}

/// Marks that hold a start for everything marked or waiting, and that are
/// closed but for what waits.
pub open spec fn is_partial(
    edges: Seq<Seq<usize>>,
    starts: Seq<usize>,
    marks: Seq<bool>,
    waiting: Seq<usize>,
) -> bool {
    &&& marks.len() == edges.len()
    &&& forall|i: int|
        0 <= i < waiting.len() ==> #[trigger] waiting[i] < marks.len() && reached(
            edges,
            starts,
            waiting[i],
        )
    &&& forall|i: usize|
        i < marks.len() && marks[i as int] ==> #[trigger] reached(edges, starts, i)
    &&& forall|k: int|
        0 <= k < starts.len() ==> marks[(#[trigger] starts[k]) as int] || waiting.contains(
            starts[k],
        )
    &&& forall|x: usize, y: usize| #[trigger]
        edge(edges, x, y) && marks[x as int] ==> marks[y as int] || waiting.contains(y)
}

/// What is reached over the edges from the starts, by marks on the nodes.
pub fn close_over(edges: &Vec<Vec<usize>>, starts: &Vec<usize>) -> (r: Vec<bool>)
    requires
        edges_exist(edge_lists(edges@)),
        forall|k: int| 0 <= k < starts@.len() ==> #[trigger] starts@[k] < edges@.len(),
    ensures
        r@.len() == edges@.len(),
        forall|i: usize|
            i < edges@.len() ==> r@[i as int] == #[trigger] reached(
                edge_lists(edges@),
                starts@,
                i,
            ),
{
    let n = edges.len();
    let ghost lists = edge_lists(edges@);
    let mut marks: Vec<bool> = Vec::new();
    while marks.len() < n
        invariant
            marks@.len() <= n,
            forall|i: int| 0 <= i < marks@.len() ==> !#[trigger] marks@[i],
        decreases n - marks@.len(),
    {
        marks.push(false);
    }
    let mut pending: Vec<usize> = Vec::new();
    let mut s: usize = 0;
    while s < starts.len()
        invariant
            s <= starts@.len(),
            pending@ == starts@.take(s as int),
        decreases starts@.len() - s,
    {
        pending.push(starts[s]);
        s += 1;
        assert(pending@ =~= starts@.take(s as int));
    }
    proof {
        assert(pending@ =~= starts@);
        assert forall|i: int| 0 <= i < pending@.len() implies #[trigger] pending@[i] < n
            && reached(lists, starts@, pending@[i]) by {
            assert(starts@[i] < n);
            lemma_reaches_itself(lists, starts@[i]);
        }
        assert forall|k: int| 0 <= k < starts@.len() implies marks@[(#[trigger] starts@[k]) as int]
            || pending@.contains(starts@[k]) by {
            assert(pending@[k] == starts@[k]);
        }
    }
    while pending.len() > 0
        invariant
            n == edges@.len(),
            lists == edge_lists(edges@),
            edges_exist(lists),
            forall|k: int| 0 <= k < starts@.len() ==> #[trigger] starts@[k] < n,
            is_partial(lists, starts@, marks@, pending@),
        decreases unset(marks@), pending@.len(),
    {
        let ghost waiting = pending@;
        let ghost before = marks@;
        let i = pending.pop().unwrap();
        assert(i == waiting[waiting.len() - 1]);
        assert(pending@ =~= waiting.drop_last());
        assert forall|x: usize| waiting.contains(x) && x != i implies pending@.contains(x) by {
            let k = choose|k: int| 0 <= k < waiting.len() && waiting[k] == x;
            assert(pending@[k] == x);
        }
        assert forall|k: int| 0 <= k < pending@.len() implies #[trigger] pending@[k] < n
            && reached(lists, starts@, pending@[k]) by {
            assert(waiting[k] == pending@[k]);
        }
        if !marks[i] {
            proof {
                lemma_unset_drops(marks@, i as int);
            }
            marks.set(i, true);
            let ghost rest = pending@;
            let ghost own = lists[i as int];
            assert(own == edges@[i as int]@);
            let mut d: usize = 0;
            while d < edges[i].len()
                invariant
                    n == edges@.len(),
                    i < n,
                    lists == edge_lists(edges@),
                    edges_exist(lists),
                    reached(lists, starts@, i),
                    own == edges@[i as int]@,
                    own == lists[i as int],
                    d <= own.len(),
                    pending@ == rest + own.take(d as int),
                    forall|k: int|
                        0 <= k < pending@.len() ==> #[trigger] pending@[k] < n && reached(
                            lists,
                            starts@,
                            pending@[k],
                        ),
                decreases own.len() - d,
            {
                let next = edges[i][d];
                proof {
                    assert(own[d as int] == next);
                    assert(edge(lists, i, next));
                    let k = choose|k: int|
                        0 <= k < starts@.len() && reaches(lists, #[trigger] starts@[k], i);
                    lemma_reaches_on(lists, starts@[k], i, next);
                }
                pending.push(next);
                d += 1;
                assert(pending@ =~= rest + own.take(d as int));
            }
            proof {
                assert(own.take(d as int) =~= own);
                assert forall|x: usize| rest.contains(x) implies pending@.contains(x) by {
                    let k = choose|k: int| 0 <= k < rest.len() && rest[k] == x;
                    assert(pending@[k] == x);
                }
                assert forall|x: usize, y: usize| #[trigger]
                    edge(lists, x, y) && marks@[x as int] implies marks@[y as int]
                    || pending@.contains(y) by {
                    if x == i {
                        let k = choose|k: int| 0 <= k < own.len() && own[k] == y;
                        assert(pending@[rest.len() + k] == y);
                    } else {
                        assert(before[x as int]);
                        if !before[y as int] && y != i {
                            assert(waiting.contains(y));
                        }
                    }
                }
                assert forall|k: int| 0 <= k < starts@.len() implies marks@[(
                #[trigger] starts@[k]) as int] || pending@.contains(starts@[k]) by {
                    if !before[starts@[k] as int] && starts@[k] != i {
                        assert(waiting.contains(starts@[k]));
                    }
                }
            }
        } else {
            assert forall|x: usize, y: usize| #[trigger]
                edge(lists, x, y) && marks@[x as int] implies marks@[y as int]
                || pending@.contains(y) by {
                if !marks@[y as int] {
                    assert(waiting.contains(y));
                }
            }
        }
    }
    assert forall|i: usize| i < edges@.len() && #[trigger] reached(
        lists,
        starts@,
        i,
    ) implies marks@[i as int] by {
        let k = choose|k: int| 0 <= k < starts@.len() && reaches(lists, #[trigger] starts@[k], i);
        let path = choose|path: Seq<usize>| #[trigger]
            is_chain(lists, path) && path[0] == starts@[k] && path.last() == i;
        assert forall|x: usize, y: usize| #[trigger]
            edge(lists, x, y) && x < marks@.len() && marks@[x as int] implies y < marks@.len()
            && marks@[y as int] by {}
        assert(marks@[starts@[k] as int]);
        lemma_closed_holds_chains(lists, marks@, path);
    }
    marks
}

/// What an edge leads to from something reached is reached.
pub proof fn law_closures_are_closed(
    edges: Seq<Seq<usize>>,
    starts: Seq<usize>,
    a: usize,
    b: usize,
)
    requires
        reached(edges, starts, a),
        edge(edges, a, b),
    ensures
        reached(edges, starts, b),
{
    let k = choose|k: int| 0 <= k < starts.len() && reaches(edges, #[trigger] starts[k], a);
    lemma_reaches_on(edges, starts[k], a, b);
}

} // verus!
