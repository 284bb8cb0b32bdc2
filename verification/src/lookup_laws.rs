//! In which scopes a name is looked up, and in which order.

use crate::lookup;
use crate::lookup::{ClassIndex, MAX_BASE_LOOKUP};
use crate::scope;
use crate::scope::NameScope;
use crate::spelling;
use crate::text;
use vstd::prelude::*;

verus! {

/// The spelling of a name inside a scope.
pub open spec fn inside(scope: Seq<char>, name: Seq<char>) -> Seq<char> {
    scope + "::"@ + name
}

/// `b` stands at place `i` among the bases that the class is recorded with.
pub open spec fn is_base(index: ClassIndex, cls: Seq<char>, i: int, b: Seq<char>) -> bool {
    exists|k: int|
        0 <= k < index.bases@.len() && (#[trigger] index.bases@[k]).0@ == cls && (forall|j: int|
            0 <= j < k ==> (#[trigger] index.bases@[j]).0@ != cls) && 0 <= i
            < index.bases@[k].1@.len() && index.bases@[k].1@[i]@ == b
}

proof fn lemma_bases_from(index: ClassIndex, cls: Seq<char>, from: int, i: int, b: Seq<char>)
    requires
        0 <= from <= index.bases@.len(),
        forall|j: int| 0 <= j < from ==> (#[trigger] index.bases@[j]).0@ != cls,
    ensures
        is_base(index, cls, i, b) <==> 0 <= i < lookup::bases_from(index.bases@, cls, from).len()
            && lookup::bases_from(index.bases@, cls, from)[i] == b,
    decreases index.bases@.len() - from,
{
    if from < index.bases@.len() {
        if index.bases@[from].0@ == cls {
            assert(index.bases@[from].0@ == cls);
            if is_base(index, cls, i, b) {
                let k = choose|k: int|
                    0 <= k < index.bases@.len() && (#[trigger] index.bases@[k]).0@ == cls && (
                    forall|j: int| 0 <= j < k ==> (#[trigger] index.bases@[j]).0@ != cls) && 0 <= i
                        < index.bases@[k].1@.len() && index.bases@[k].1@[i]@ == b;
                if from < k {
                    assert(index.bases@[from].0@ != cls);
                }
                if k < from {
                    assert(index.bases@[k].0@ != cls);
                }
            }
        } else {
            lemma_bases_from(index, cls, from + 1, i, b);
        }
    } else if is_base(index, cls, i, b) {
        let k = choose|k: int|
            0 <= k < index.bases@.len() && (#[trigger] index.bases@[k]).0@ == cls && (forall|j: int|
                0 <= j < k ==> (#[trigger] index.bases@[j]).0@ != cls) && 0 <= i
                < index.bases@[k].1@.len() && index.bases@[k].1@[i]@ == b;
        assert(index.bases@[k].0@ != cls);
    }
}

/// The bases of a class are those it is first recorded with, in order.
pub proof fn law_bases_are_those_recorded(
    index: ClassIndex,
    cls: Seq<char>,
    i: int,
    b: Seq<char>,
)
    ensures
        is_base(index, cls, i, b) <==> 0 <= i < index.spec_bases(cls).len() && index.spec_bases(
            cls,
        )[i] == b,
{
    lemma_bases_from(index, cls, 0, i, b);
}

/// The classes that the walk over the bases comes to.
spec fn line(index: ClassIndex, queue: Seq<Seq<char>>, seen: int) -> Seq<Seq<char>>
    decreases MAX_BASE_LOOKUP - seen,
{
    if seen < 0 || seen >= queue.len() || seen >= MAX_BASE_LOOKUP {
        queue
    } else {
        line(index, queue + index.spec_bases(queue[seen]), seen + 1)
    }
}

proof fn lemma_walk(index: ClassIndex, queue: Seq<Seq<char>>, seen: int, name: Seq<char>)
    requires
        0 <= seen <= queue.len(),
        seen <= MAX_BASE_LOOKUP,
    ensures
        ({
            let q = line(index, queue, seen);
            let w = lookup::base_walk(index, queue, seen, name);
            &&& queue.len() <= q.len()
            &&& forall|i: int| 0 <= i < queue.len() ==> #[trigger] q[i] == queue[i]
            &&& w.len() + seen == if q.len() < MAX_BASE_LOOKUP {
                q.len() as int
            } else {
                MAX_BASE_LOOKUP as int
            }
            &&& forall|i: int|
                seen <= i < seen + w.len() ==> w[i - seen] == (inside(#[trigger] q[i], name), false)
            &&& forall|i: int, j: int|
                seen <= i < seen + w.len() && 0 <= j < index.spec_bases(q[i]).len() ==> q.contains(
                    #[trigger] index.spec_bases(q[i])[j],
                )
        }),
    decreases MAX_BASE_LOOKUP - seen,
{
    if seen < queue.len() && seen < MAX_BASE_LOOKUP {
        let more = queue + index.spec_bases(queue[seen]);
        lemma_walk(index, more, seen + 1, name);
        let q = line(index, queue, seen);
        let w = lookup::base_walk(index, queue, seen, name);
        let rest = lookup::base_walk(index, more, seen + 1, name);
        assert(q == line(index, more, seen + 1));
        assert forall|i: int| 0 <= i < queue.len() implies #[trigger] q[i] == queue[i] by {
            assert(q[i] == more[i]);
        }
        assert(w =~= seq![lookup::candidate(queue[seen], name)] + rest);
        assert forall|i: int| seen <= i < seen + w.len() implies w[i - seen] == (
            inside(#[trigger] q[i], name),
            false,
        ) by {
            if i > seen {
                assert(w[i - seen] == rest[i - (seen + 1)]);
            }
        }
        assert forall|i: int, j: int|
            seen <= i < seen + w.len() && 0 <= j < index.spec_bases(q[i]).len() implies q.contains(
            #[trigger] index.spec_bases(q[i])[j],
        ) by {
            if i == seen {
                let at = queue.len() + j;
                assert(q[i] == queue[seen]);
                assert(more[at] == index.spec_bases(queue[seen])[j]);
                assert(q[at] == more[at]);
            }
        }
    }
}

/// A name is looked up in the direct bases of a class in their order, as many as the
/// limit takes.
pub proof fn law_direct_bases_are_looked_in_first(
    index: ClassIndex,
    cls: Seq<char>,
    name: Seq<char>,
    i: int,
    b: Seq<char>,
)
    requires
        is_base(index, cls, i, b),
        i < MAX_BASE_LOOKUP,
    ensures
        ({
            let w = lookup::base_walk(index, index.spec_bases(cls), 0, name);
            i < w.len() && w[i] == (inside(b, name), false)
        }),
{
    law_bases_are_those_recorded(index, cls, i, b);
    lemma_walk(index, index.spec_bases(cls), 0, name);
    let q = line(index, index.spec_bases(cls), 0);
    assert(q[i] == b);
}

/// Each of the line is a base of the one before it, and the first a base of the class.
pub open spec fn is_lineage(index: ClassIndex, cls: Seq<char>, up: Seq<Seq<char>>) -> bool {
    &&& up.len() > 0
    &&& inherits(index, cls, up[0])
    &&& forall|k: int| 0 < k < up.len() ==> inherits(index, up[k - 1], #[trigger] up[k])
}

pub open spec fn inherits(index: ClassIndex, cls: Seq<char>, b: Seq<char>) -> bool {
    exists|i: int| #[trigger] is_base(index, cls, i, b)
}

proof fn lemma_lineage(
    index: ClassIndex,
    cls: Seq<char>,
    name: Seq<char>,
    up: Seq<Seq<char>>,
    k: int,
)
    requires
        is_lineage(index, cls, up),
        0 <= k < up.len(),
        lookup::base_walk(index, index.spec_bases(cls), 0, name).len() < MAX_BASE_LOOKUP,
    ensures
        line(index, index.spec_bases(cls), 0).contains(up[k]),
    decreases k,
{
    lemma_walk(index, index.spec_bases(cls), 0, name);
    let q = line(index, index.spec_bases(cls), 0);
    if k == 0 {
        let i = choose|i: int| #[trigger] is_base(index, cls, i, up[0]);
        law_bases_are_those_recorded(index, cls, i, up[0]);
        assert(q[i] == up[0]);
    } else {
        lemma_lineage(index, cls, name, up, k - 1);
        assert(inherits(index, up[k - 1], up[k]));
        let i = choose|i: int| #[trigger] is_base(index, up[k - 1], i, up[k]);
        law_bases_are_those_recorded(index, up[k - 1], i, up[k]);
        let at = choose|at: int| 0 <= at < q.len() && q[at] == up[k - 1];
        assert(q.contains(index.spec_bases(q[at])[i]));
    }
}

/// A name is looked up in every class that the class inherits from, through however many
/// classes, as long as the limit is not reached.
pub proof fn law_inherited_bases_are_looked_in(
    index: ClassIndex,
    cls: Seq<char>,
    name: Seq<char>,
    up: Seq<Seq<char>>,
)
    requires
        is_lineage(index, cls, up),
        lookup::base_walk(index, index.spec_bases(cls), 0, name).len() < MAX_BASE_LOOKUP,
    ensures
        lookup::base_walk(index, index.spec_bases(cls), 0, name).contains(
            (inside(up.last(), name), false),
        ),
{
    lemma_lineage(index, cls, name, up, up.len() - 1);
    lemma_walk(index, index.spec_bases(cls), 0, name);
    let q = line(index, index.spec_bases(cls), 0);
    let w = lookup::base_walk(index, index.spec_bases(cls), 0, name);
    let at = choose|at: int| 0 <= at < q.len() && q[at] == up.last();
    assert(w[at - 0] == (inside(q[at], name), false));
}

/// A class that the walk of the scopes stops at: a namespace, or a scope that a class
/// further in has walked already.
pub open spec fn is_walked(
    levels: Seq<Seq<char>>,
    inner: Seq<Seq<char>>,
    cls: Seq<char>,
) -> bool {
    &&& cls.len() > 0
    &&& !lookup::spells_namespace(cls, levels, 0)
    &&& forall|j: int| 0 <= j < inner.len() ==> !lookup::lies_in(#[trigger] inner[j], cls)
}

/// The class around a name's scope is asked first, its bases next, and after them the
/// scopes around it, the namespaces from the inside out, and last the global scope.
pub proof fn law_scopes_are_asked_from_the_inside_out(
    index: ClassIndex,
    levels: Seq<Seq<char>>,
    classes: Seq<Seq<char>>,
    name: Seq<char>,
)
    requires
        !text::starts_with(name, "::"@),
    ensures
        ({
            let all = lookup::candidates(index, levels, classes, name);
            &&& all.len() > levels.len()
            &&& all.last() == (name, true)
            &&& forall|k: int|
                0 <= k < levels.len() ==> all[all.len() - 2 - k] == (
                    scope::joined((#[trigger] levels.take(k + 1)).push(name)),
                    false,
                )
            &&& classes.len() == 0 ==> all.len() == levels.len() + 1
            &&& classes.len() > 0 && is_walked(levels, Seq::empty(), classes.last()) ==> {
                let w = lookup::base_walk(index, index.spec_bases(classes.last()), 0, name);
                &&& all.len() > w.len() + 1 + levels.len()
                &&& all[0] == (inside(classes.last(), name), false)
                &&& forall|i: int| 0 <= i < w.len() ==> all[i + 1] == #[trigger] w[i]
            }
        }),
{
    let depth = classes.len() as int;
    let c = lookup::classes_walk(index, levels, classes, depth, name);
    let n = lookup::namespace_walk(levels, levels.len() as int, name);
    let all = lookup::candidates(index, levels, classes, name);
    assert(all =~= (c + n).push((name, true)));
    lemma_namespaces(levels, levels.len() as int, name);
    assert forall|k: int| 0 <= k < levels.len() implies all[all.len() - 2 - k] == (
        scope::joined((#[trigger] levels.take(k + 1)).push(name)),
        false,
    ) by {
        assert(n[levels.len() - 1 - k] == (scope::joined(levels.take(k + 1).push(name)), false));
        assert(all[all.len() - 2 - k] == n[levels.len() - 1 - k]);
    }
    if classes.len() > 0 && is_walked(levels, Seq::empty(), classes.last()) {
        let cls = classes.last();
        let w = lookup::base_walk(index, index.spec_bases(cls), 0, name);
        assert(classes.skip(depth) =~= Seq::empty());
        lemma_class_first(index, levels, Seq::empty(), cls, name);
        let here = lookup::class_walk(index, levels, Seq::empty(), cls, name);
        assert forall|i: int| 0 <= i < here.len() implies all[i] == here[i] by {
            assert(c[i] == here[i]);
        }
        assert forall|i: int| 0 <= i < w.len() implies all[i + 1] == #[trigger] w[i] by {
            assert(here[i + 1] == w[i]);
        }
    }
}

proof fn lemma_namespaces(levels: Seq<Seq<char>>, depth: int, name: Seq<char>)
    requires
        0 <= depth <= levels.len(),
    ensures
        lookup::namespace_walk(levels, depth, name).len() == depth,
        forall|i: int|
            0 <= i < depth ==> #[trigger] lookup::namespace_walk(levels, depth, name)[i] == (
                scope::joined(levels.take(depth - i).push(name)),
                false,
            ),
    decreases depth,
{
    if depth > 0 {
        lemma_namespaces(levels, depth - 1, name);
        let rest = lookup::namespace_walk(levels, depth - 1, name);
        let all = lookup::namespace_walk(levels, depth, name);
        assert forall|i: int| 0 <= i < depth implies #[trigger] all[i] == (
            scope::joined(levels.take(depth - i).push(name)),
            false,
        ) by {
            if i > 0 {
                assert(all[i] == rest[i - 1]);
            }
        }
    }
}

proof fn lemma_class_first(
    index: ClassIndex,
    levels: Seq<Seq<char>>,
    inner: Seq<Seq<char>>,
    cls: Seq<char>,
    name: Seq<char>,
)
    requires
        is_walked(levels, inner, cls),
    ensures
        ({
            let w = lookup::base_walk(index, index.spec_bases(cls), 0, name);
            let all = lookup::class_walk(index, levels, inner, cls, name);
            &&& all.len() >= w.len() + 1
            &&& all[0] == (inside(cls, name), false)
            &&& forall|i: int| 0 <= i < w.len() ==> all[i + 1] == #[trigger] w[i]
        }),
{
    let w = lookup::base_walk(index, index.spec_bases(cls), 0, name);
    let all = lookup::class_walk(index, levels, inner, cls, name);
    let rest = lookup::class_walk(index, levels, inner, lookup::around(cls), name);
    assert(all =~= seq![lookup::candidate(cls, name)] + w + rest);
}

/// The same holds of every scope that lies around: a class further out, and the scopes in
/// its own name, are asked with their bases after those further in.
pub proof fn law_outer_classes_are_asked_with_their_bases(
    index: ClassIndex,
    levels: Seq<Seq<char>>,
    inner: Seq<Seq<char>>,
    cls: Seq<char>,
    outer: Seq<char>,
    name: Seq<char>,
)
    requires
        is_walked(levels, inner, inside(outer, cls)),
        is_walked(levels, inner, outer),
        lookup::around(inside(outer, cls)) == outer,
    ensures
        ({
            let w = lookup::base_walk(index, index.spec_bases(inside(outer, cls)), 0, name);
            let v = lookup::base_walk(index, index.spec_bases(outer), 0, name);
            let all = lookup::class_walk(index, levels, inner, inside(outer, cls), name);
            &&& all.len() >= w.len() + v.len() + 2
            &&& all[0] == (inside(inside(outer, cls), name), false)
            &&& all[w.len() as int + 1] == (inside(outer, name), false)
            &&& forall|i: int| 0 <= i < v.len() ==> all[w.len() + 2 + i] == #[trigger] v[i]
        }),
{
    let full = inside(outer, cls);
    let w = lookup::base_walk(index, index.spec_bases(full), 0, name);
    let v = lookup::base_walk(index, index.spec_bases(outer), 0, name);
    let all = lookup::class_walk(index, levels, inner, full, name);
    let rest = lookup::class_walk(index, levels, inner, outer, name);
    assert(all =~= seq![lookup::candidate(full, name)] + w + rest);
    lemma_class_first(index, levels, inner, outer, name);
    assert forall|i: int| 0 <= i < v.len() implies all[w.len() + 2 + i] == #[trigger] v[i] by {
        assert(all[w.len() + 2 + i] == rest[i + 1]);
    }
    assert(all[w.len() as int + 1] == rest[0]);
}

/// A name spelled from the root is looked up there alone.
pub proof fn law_rooted_names_are_global(
    index: ClassIndex,
    levels: Seq<Seq<char>>,
    classes: Seq<Seq<char>>,
    bare: Seq<char>,
)
    ensures
        lookup::candidates(index, levels, classes, "::"@ + bare) == seq![(bare, true)],
{
    assert(text::starts_with("::"@ + bare, "::"@)) by {
        assert(("::"@ + bare).subrange(0, "::"@.len() as int) =~= "::"@);
    }
    assert(("::"@ + bare).skip("::"@.len() as int) =~= bare);
}

proof fn lemma_first_class(index: ClassIndex, all: Seq<(Seq<char>, bool)>, k: int, i: int)
    requires
        0 <= k <= i < all.len(),
        lookup::class_named(index, all[i].0) is Some,
        forall|j: int| k <= j < i ==> lookup::class_named(index, (#[trigger] all[j]).0) is None,
    ensures
        lookup::first_class(index, all, k) == lookup::class_named(index, all[i].0),
    decreases i - k,
{
    if k < i {
        assert(lookup::class_named(index, all[k].0) is None);
        lemma_first_class(index, all, k + 1, i);
    }
}

/// A class name is declared, as it stands or under an alias.
pub proof fn law_declared_classes_are_named(index: ClassIndex, name: Seq<char>, k: int)
    requires
        0 <= k < index.declared@.len(),
        index.declared@[k]@ == name,
        !text::starts_with(name, "::"@),
    ensures
        lookup::class_named(index, name) == Some(name),
{
    assert(spelling::views(index.declared@)[k] == name);
}

/// A class that is declared in a base of the class a name is used in, and nowhere nearer,
/// is found there.
pub proof fn law_classes_of_a_base_are_found(
    scope: NameScope,
    index: ClassIndex,
    name: Seq<char>,
    i: int,
    found: Seq<char>,
)
    requires
        scope.spec_local_alias(name) is None,
        !text::starts_with(name, "::"@),
        scope.type_scope@.len() > 0,
        is_walked(scope.spec_levels(), Seq::empty(), scope.type_scope@.last()@),
        ({
            let cls = scope.type_scope@.last()@;
            let w = lookup::base_walk(index, index.spec_bases(cls), 0, name);
            &&& 0 <= i < w.len()
            &&& lookup::class_named(index, w[i].0) == Some(found)
            &&& lookup::class_named(index, inside(cls, name)) is None
            &&& forall|j: int|
                0 <= j < i ==> lookup::class_named(index, (#[trigger] w[j]).0) is None
        }),
    ensures
        scope.spec_class(index, name) == Some(found),
{
    let classes = spelling::views(scope.type_scope@);
    let cls = scope.type_scope@.last()@;
    let w = lookup::base_walk(index, index.spec_bases(cls), 0, name);
    let all = scope.spec_candidates(index, name);
    assert(classes.last() == cls);
    law_scopes_are_asked_from_the_inside_out(index, scope.spec_levels(), classes, name);
    assert(all[i + 1] == w[i]);
    assert forall|j: int| 0 <= j < i + 1 implies lookup::class_named(
        index,
        (#[trigger] all[j]).0,
    ) is None by {
        if j > 0 {
            assert(all[j] == w[j - 1]);
        }
    }
    lemma_first_class(index, all, 0, i + 1);
}

/// A class that is declared in the class a name is used in is found there, whatever its
/// bases hold; where no scope around the name holds one, the global one is found.
pub proof fn law_the_nearest_class_is_found(
    scope: NameScope,
    index: ClassIndex,
    name: Seq<char>,
    i: int,
)
    requires
        scope.spec_local_alias(name) is None,
        0 <= i < scope.spec_candidates(index, name).len(),
        lookup::class_named(index, scope.spec_candidates(index, name)[i].0) is Some,
        forall|j: int|
            0 <= j < i ==> lookup::class_named(
                index,
                (#[trigger] scope.spec_candidates(index, name)[j]).0,
            ) is None,
    ensures
        scope.spec_class(index, name) == lookup::class_named(
            index,
            scope.spec_candidates(index, name)[i].0,
        ),
{
    lemma_first_class(index, scope.spec_candidates(index, name), 0, i);
}

} // verus!
