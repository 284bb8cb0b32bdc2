//! The local variables of a function being lowered, and how a block gives
//! back the names that it hid.

use crate::ir::VarId;
use crate::spelling;
use crate::text::{chars_of, str_eq, string_of};
use vstd::prelude::*;

verus! {

/// The variables in scope by name, and what each registration since hid.
#[derive(Debug, PartialEq, Eq)]
pub struct Locals {
    names: Vec<(String, VarId)>,
    log: Vec<(String, Option<VarId>)>,
}

/// The bindings that a list of pairs makes.
pub open spec fn bindings(v: Seq<(String, VarId)>) -> Map<Seq<char>, VarId>
    decreases v.len(),
{
    if v.len() == 0 {
        Map::empty()
    } else {
        bindings(v.drop_last()).insert(v.last().0@, v.last().1)
    }
}

/// No name stands in the list twice.
pub open spec fn distinct(v: Seq<(String, VarId)>) -> bool {
    forall|i: int, j: int|
        0 <= i < j < v.len() ==> (#[trigger] v[i]).0@ != (#[trigger] v[j]).0@
}

/// What a name is bound to.
pub open spec fn bound(m: Map<Seq<char>, VarId>, name: Seq<char>) -> Option<VarId> {
    if m.dom().contains(name) {
        Some(m[name])
    } else {
        None
    }
}

/// `m` with `name` bound as before.
pub open spec fn rebound(m: Map<Seq<char>, VarId>, name: Seq<char>, id: Option<VarId>) -> Map<
    Seq<char>,
    VarId,
> {
    match id {
        Some(v) => m.insert(name, v),
        None => m.remove(name),
    }
}

/// The bindings before the registrations that the log recorded, the last one
/// undone first.
pub open spec fn undone(m: Map<Seq<char>, VarId>, log: Seq<(Seq<char>, Option<VarId>)>) -> Map<
    Seq<char>,
    VarId,
>
    decreases log.len(),
{
    if log.len() == 0 {
        m
    } else {
        undone(rebound(m, log.last().0, log.last().1), log.drop_last())
    }
}

pub open spec fn log_views(v: Seq<(String, Option<VarId>)>) -> Seq<(Seq<char>, Option<VarId>)> {
    v.map_values(|e: (String, Option<VarId>)| (e.0@, e.1))
}

proof fn lemma_bindings(v: Seq<(String, VarId)>)
    requires
        distinct(v),
    ensures
        forall|i: int|
            0 <= i < v.len() ==> bindings(v).dom().contains(#[trigger] v[i].0@) && bindings(
                v,
            )[v[i].0@] == v[i].1,
        forall|name: Seq<char>|
            #[trigger] bindings(v).dom().contains(name) ==> exists|i: int|
                0 <= i < v.len() && (#[trigger] v[i]).0@ == name,
    decreases v.len(),
{
    if v.len() > 0 {
        let before = v.drop_last();
        lemma_bindings(before);
        assert forall|i: int| 0 <= i < v.len() implies bindings(v).dom().contains(
            #[trigger] v[i].0@,
        ) && bindings(v)[v[i].0@] == v[i].1 by {
            if i < v.len() - 1 {
                assert(before[i] == v[i]);
                assert(v[i].0@ != v[v.len() - 1].0@);
            }
        }
        assert forall|name: Seq<char>| #[trigger] bindings(v).dom().contains(
            name,
        ) implies exists|i: int| 0 <= i < v.len() && (#[trigger] v[i]).0@ == name by {
            if name == v.last().0@ {
                assert(v[v.len() - 1].0@ == name);
            } else {
                assert(bindings(before).dom().contains(name));
                let i = choose|i: int| 0 <= i < before.len() && (#[trigger] before[i]).0@ == name;
                assert(v[i] == before[i]);
            }
        }
    }
}

/// A lambda captures the name: it takes all but `this`, or it lists it.
pub open spec fn takes_name(all: bool, listed: Seq<Seq<char>>, name: Seq<char>) -> bool {
    if all {
        name != "this"@
    } else {
        listed.contains(name)
    }
}

/// The bindings a lambda captures.
pub open spec fn captured_of(
    m: Map<Seq<char>, VarId>,
    all: bool,
    listed: Seq<Seq<char>>,
) -> Map<Seq<char>, VarId> {
    Map::new(
        |n: Seq<char>| m.dom().contains(n) && takes_name(all, listed, n),
        |n: Seq<char>| m[n],
    )
}

fn lists_name(listed: &Vec<String>, name: &str) -> (r: bool)
    ensures
        r == spelling::views(listed@).contains(name@),
{
    let mut k: usize = 0;
    while k < listed.len()
        invariant
            k <= listed@.len(),
            forall|j: int| 0 <= j < k ==> #[trigger] spelling::views(listed@)[j] != name@,
        decreases listed@.len() - k,
    {
        assert(spelling::views(listed@)[k as int] == listed@[k as int]@);
        if str_eq(listed[k].as_str(), name) {
            return true;
        }
        k += 1;
    }
    false
}

impl Locals {
    pub closed spec fn wf(&self) -> bool {
        distinct(self.names@)
    }

    /// What each name is bound to.
    pub closed spec fn view(&self) -> Map<Seq<char>, VarId> {
        bindings(self.names@)
    }

    /// What each registration hid, in order.
    pub closed spec fn spec_log(&self) -> Seq<(Seq<char>, Option<VarId>)> {
        log_views(self.log@)
    }

    pub fn new() -> (r: Locals)
        ensures
            r.wf(),
            r@ == Map::<Seq<char>, VarId>::empty(),
            r.spec_log() == Seq::<(Seq<char>, Option<VarId>)>::empty(),
    {
        let r = Locals { names: Vec::new(), log: Vec::new() };
        assert(r.spec_log() =~= Seq::<(Seq<char>, Option<VarId>)>::empty());
        r
    }

    fn place(&self, name: &str) -> (r: Option<usize>)
        requires
            self.wf(),
        ensures
            match r {
                Some(i) => i < self.names@.len() && self.names@[i as int].0@ == name@ && bound(
                    self@,
                    name@,
                ) == Some(self.names@[i as int].1),
                None => bound(self@, name@) is None && forall|i: int|
                    0 <= i < self.names@.len() ==> (#[trigger] self.names@[i]).0@ != name@,
            },
    {
        proof {
            lemma_bindings(self.names@);
        }
        let mut k: usize = 0;
        while k < self.names.len()
            invariant
                k <= self.names@.len(),
                self@ == bindings(self.names@),
                forall|i: int|
                    0 <= i < self.names@.len() ==> bindings(self.names@).dom().contains(
                        #[trigger] self.names@[i].0@,
                    ) && bindings(self.names@)[self.names@[i].0@] == self.names@[i].1,
                forall|i: int| 0 <= i < k ==> (#[trigger] self.names@[i]).0@ != name@,
            decreases self.names@.len() - k,
        {
            if str_eq(self.names[k].0.as_str(), name) {
                return Some(k);
            }
            k += 1;
        }
        None
    }

    /// The variable a name is bound to.
    pub fn get(&self, name: &str) -> (r: Option<VarId>)
        requires
            self.wf(),
        ensures
            r == bound(self@, name@),
    {
        match self.place(name) {
            Some(i) => Some(self.names[i].1),
            None => None,
        }
    }

    fn bind(&mut self, name: String, id: Option<VarId>) -> (r: Option<VarId>)
        requires
            old(self).wf(),
        ensures
            final(self).wf(),
            final(self)@ == rebound(old(self)@, name@, id),
            final(self).log == old(self).log,
            r == bound(old(self)@, name@),
    {
        let found = self.place(name.as_str());
        let ghost before = self.names@;
        let ghost spelled = name@;
        proof {
            lemma_bindings(before);
        }
        match (found, id) {
            (Some(i), Some(v)) => {
                let hid = self.names[i].1;
                self.names.set(i, (name, v));
                proof {
                    assert forall|a: int, b: int| 0 <= a < b < self.names@.len() implies (
                    #[trigger] self.names@[a]).0@ != (#[trigger] self.names@[b]).0@ by {
                        assert(before[a].0@ != before[b].0@);
                    }
                    lemma_bindings(self.names@);
                    assert forall|n: Seq<char>| bindings(self.names@).dom().contains(n)
                        == bindings(before).insert(spelled, v).dom().contains(n) by {
                        if bindings(before).dom().contains(n) {
                            let k = choose|k: int|
                                0 <= k < before.len() && (#[trigger] before[k]).0@ == n;
                            assert(self.names@[k].0@ == n);
                        }
                        if bindings(self.names@).dom().contains(n) {
                            let k = choose|k: int|
                                0 <= k < self.names@.len() && (#[trigger] self.names@[k]).0@ == n;
                            assert(before[k].0@ == n);
                        }
                    }
                    assert forall|n: Seq<char>| bindings(self.names@).dom().contains(
                        n,
                    ) implies bindings(self.names@)[n] == bindings(before).insert(
                        spelled,
                        v,
                    )[n] by {
                        let k = choose|k: int|
                            0 <= k < self.names@.len() && (#[trigger] self.names@[k]).0@ == n;
                        assert(before[k].0@ == n);
                        assert(k != i ==> before[k].0@ != before[i as int].0@);
                    }
                    assert(bindings(self.names@) =~= bindings(before).insert(spelled, v));
                }
                Some(hid)
            },
            (None, Some(v)) => {
                self.names.push((name, v));
                proof {
                    assert(self.names@.drop_last() =~= before);
                }
                None
            },
            (Some(i), None) => {
                let hid = self.names[i].1;
                let last = self.names.len() - 1;
                self.names.swap_remove(i);
                proof {
                    let after = self.names@;
                    assert forall|a: int, b: int| 0 <= a < b < after.len() implies (
                    #[trigger] after[a]).0@ != (#[trigger] after[b]).0@ by {
                        let x = if a == i {
                            last as int
                        } else {
                            a
                        };
                        let y = if b == i {
                            last as int
                        } else {
                            b
                        };
                        assert(after[a] == before[x] && after[b] == before[y]);
                        assert(x < y ==> before[x].0@ != before[y].0@);
                        assert(y < x ==> before[y].0@ != before[x].0@);
                    }
                    lemma_bindings(after);
                    assert forall|n: Seq<char>| bindings(after).dom().contains(n) == bindings(
                        before,
                    ).remove(spelled).dom().contains(n) by {
                        if bindings(after).dom().contains(n) {
                            let k = choose|k: int|
                                0 <= k < after.len() && (#[trigger] after[k]).0@ == n;
                            let x = if k == i {
                                last as int
                            } else {
                                k
                            };
                            assert(after[k] == before[x]);
                            assert(x != i);
                            assert(x < i ==> before[x].0@ != before[i as int].0@);
                            assert(i < x ==> before[i as int].0@ != before[x].0@);
                        }
                        if bindings(before).dom().contains(n) && n != spelled {
                            let k = choose|k: int|
                                0 <= k < before.len() && (#[trigger] before[k]).0@ == n;
                            assert(k != i);
                            if k == last {
                                assert(after[i as int].0@ == n);
                            } else {
                                assert(after[k].0@ == n);
                            }
                        }
                    }
                    assert forall|n: Seq<char>| bindings(after).dom().contains(
                        n,
                    ) implies bindings(after)[n] == bindings(before).remove(spelled)[n] by {
                        let k = choose|k: int|
                            0 <= k < after.len() && (#[trigger] after[k]).0@ == n;
                        let x = if k == i {
                            last as int
                        } else {
                            k
                        };
                        assert(after[k] == before[x]);
                        assert(bindings(before).remove(spelled).dom().contains(n));
                    }
                    assert(bindings(after) =~= bindings(before).remove(spelled));
                }
                Some(hid)
            },
            (None, None) => {
                assert(self@.remove(name@) =~= self@);
                None
            },
        }
    }

    /// Register a local of the function being lowered. In C++ the log records
    /// what the name hid; C keeps one name per function. Outside a function
    /// nothing is local.
    pub fn register_local(&mut self, in_function: bool, is_cpp: bool, name: String, id: VarId)
        requires
            old(self).wf(),
        ensures
            final(self).wf(),
            final(self)@ == if in_function {
                old(self)@.insert(name@, id)
            } else {
                old(self)@
            },
            final(self).spec_log() == if in_function && is_cpp {
                old(self).spec_log().push((name@, bound(old(self)@, name@)))
            } else {
                old(self).spec_log()
            },
    {
        if !in_function {
            return;
        }
        let own = string_of(&chars_of(name.as_str()));
        let ghost before = self.log@;
        let hid = self.bind(own, Some(id));
        if is_cpp {
            self.log.push((name, hid));
            assert(self.spec_log() =~= log_views(before).push((name@, hid)));
        }
    }

    /// Bind a name without recording what it hid, as a body that starts with
    /// its own names does.
    pub fn set(&mut self, name: String, id: VarId)
        requires
            old(self).wf(),
        ensures
            final(self).wf(),
            final(self)@ == old(self)@.insert(name@, id),
            final(self).spec_log() == old(self).spec_log(),
    {
        self.bind(name, Some(id));
    }

    /// The names a lambda captures of those in scope, in a scope of its own:
    /// all but `this`, or the ones it lists.
    pub fn captured(&self, all: bool, listed: &Vec<String>) -> (r: Locals)
        requires
            self.wf(),
        ensures
            r.wf(),
            r@ == captured_of(self@, all, spelling::views(listed@)),
            r.spec_log() == Seq::<(Seq<char>, Option<VarId>)>::empty(),
    {
        let mut out = Locals::new();
        let ghost names = self.names@;
        let ghost wanted = spelling::views(listed@);
        let mut k: usize = 0;
        proof {
            lemma_bindings(names);
        }
        while k < self.names.len()
            invariant
                k <= self.names@.len(),
                names == self.names@,
                distinct(names),
                wanted == spelling::views(listed@),
                out.wf(),
                out.spec_log() == Seq::<(Seq<char>, Option<VarId>)>::empty(),
                forall|i: int|
                    0 <= i < k && takes_name(all, wanted, (#[trigger] names[i]).0@) ==> bound(
                        out@,
                        names[i].0@,
                    ) == Some(names[i].1),
                forall|n: Seq<char>| #[trigger]
                    out@.dom().contains(n) ==> takes_name(all, wanted, n) && exists|i: int|
                        0 <= i < k && (#[trigger] names[i]).0@ == n,
            decreases self.names@.len() - k,
        {
            let name = &self.names[k].0;
            let takes = if all {
                !str_eq(name.as_str(), "this")
            } else {
                lists_name(listed, name.as_str())
            };
            let ghost before = out@;
            if takes {
                out.set(name.clone(), self.names[k].1);
            }
            proof {
                assert forall|i: int|
                    0 <= i < k + 1 && takes_name(all, wanted, (#[trigger] names[i]).0@) implies bound(
                    out@,
                    names[i].0@,
                ) == Some(names[i].1) by {
                    if i < k {
                        assert(names[i].0@ != names[k as int].0@);
                    }
                }
                assert forall|n: Seq<char>| #[trigger] out@.dom().contains(n) implies takes_name(
                    all,
                    wanted,
                    n,
                ) && exists|i: int| 0 <= i < k + 1 && (#[trigger] names[i]).0@ == n by {
                    if before.dom().contains(n) {
                        let i = choose|i: int| 0 <= i < k && (#[trigger] names[i]).0@ == n;
                        assert(names[i].0@ == n);
                    } else {
                        assert(names[k as int].0@ == n);
                    }
                }
            }
            k += 1;
        }
        proof {
            let kept = captured_of(self@, all, wanted);
            assert forall|n: Seq<char>| out@.dom().contains(n) == kept.dom().contains(n) by {
                if kept.dom().contains(n) {
                    let i = choose|i: int| 0 <= i < names.len() && (#[trigger] names[i]).0@ == n;
                    assert(bound(out@, names[i].0@) == Some(names[i].1));
                }
                if out@.dom().contains(n) {
                    let i = choose|i: int| 0 <= i < k && (#[trigger] names[i]).0@ == n;
                    assert(bindings(names).dom().contains(names[i].0@));
                }
            }
            assert forall|n: Seq<char>| out@.dom().contains(n) implies out@[n] == kept[n] by {
                let i = choose|i: int| 0 <= i < k && (#[trigger] names[i]).0@ == n;
                assert(bound(out@, names[i].0@) == Some(names[i].1));
            }
            assert(out@ =~= kept);
        }
        out
    }

    /// How many registrations there have been: where a block that starts here
    /// comes back to.
    pub fn mark(&self) -> (r: usize)
        ensures
            r == self.spec_log().len(),
    {
        self.log.len()
    }

    /// Leave a block: every name registered since `mark` is bound again as it
    /// was before.
    pub fn leave_block(&mut self, mark: usize)
        requires
            old(self).wf(),
            mark <= old(self).spec_log().len(),
        ensures
            final(self).wf(),
            final(self)@ == undone(old(self)@, old(self).spec_log().skip(mark as int)),
            final(self).spec_log() == old(self).spec_log().take(mark as int),
    {
        let ghost whole = self.spec_log();
        let ghost first = self@;
        assert(whole.take(whole.len() as int) =~= whole);
        while self.log.len() > mark
            invariant
                self.wf(),
                mark <= self.spec_log().len() <= whole.len(),
                self.spec_log() == whole.take(self.spec_log().len() as int),
                undone(self@, self.spec_log().skip(mark as int)) == undone(
                    first,
                    whole.skip(mark as int),
                ),
            decreases self.spec_log().len(),
        {
            let ghost log = self.spec_log();
            let ghost bound_now = self@;
            match self.log.pop() {
                Some((name, hid)) => {
                    let ghost popped = self.spec_log();
                    let ghost entry = (name@, hid);
                    proof {
                        assert(popped =~= log.drop_last());
                        assert(log.last() == entry);
                        assert(log.skip(mark as int).last() == entry);
                        assert(log.skip(mark as int).drop_last() =~= popped.skip(mark as int));
                        assert(popped =~= whole.take(popped.len() as int));
                    }
                    self.bind(name, hid);
                },
                None => {},
            }
        }
        proof {
            assert(self.spec_log().skip(mark as int) =~= Seq::<(
                Seq<char>,
                Option<VarId>,
            )>::empty());
            assert(self.spec_log() =~= whole.take(mark as int));
        }
    }

    /// Forget every local, as between functions.
    pub fn clear(&mut self)
        ensures
            final(self).wf(),
            final(self)@ == Map::<Seq<char>, VarId>::empty(),
            final(self).spec_log() == Seq::<(Seq<char>, Option<VarId>)>::empty(),
    {
        self.names = Vec::new();
        self.log = Vec::new();
        assert(self.spec_log() =~= Seq::<(Seq<char>, Option<VarId>)>::empty());
    }
}

/// The bindings after a block registered these names in turn.
pub open spec fn registered(
    m: Map<Seq<char>, VarId>,
    regs: Seq<(Seq<char>, VarId)>,
) -> Map<Seq<char>, VarId>
    decreases regs.len(),
{
    if regs.len() == 0 {
        m
    } else {
        registered(m, regs.drop_last()).insert(regs.last().0, regs.last().1)
    }
}

/// What the log records of them.
pub open spec fn recorded(m: Map<Seq<char>, VarId>, regs: Seq<(Seq<char>, VarId)>) -> Seq<
    (Seq<char>, Option<VarId>),
>
    decreases regs.len(),
{
    if regs.len() == 0 {
        Seq::empty()
    } else {
        recorded(m, regs.drop_last()).push(
            (regs.last().0, bound(registered(m, regs.drop_last()), regs.last().0)),
        )
    }
}

/// Whatever names a block registers, in whatever order and however often,
/// leaving it binds every name as it was when the block was entered.
pub proof fn law_blocks_give_back_the_names_they_hid(
    m: Map<Seq<char>, VarId>,
    regs: Seq<(Seq<char>, VarId)>,
)
    ensures
        undone(registered(m, regs), recorded(m, regs)) == m,
    decreases regs.len(),
{
    if regs.len() > 0 {
        let before = registered(m, regs.drop_last());
        let log = recorded(m, regs);
        let (name, id) = regs.last();
        law_blocks_give_back_the_names_they_hid(m, regs.drop_last());
        assert(log.last() == (name, bound(before, name)));
        assert(log.drop_last() =~= recorded(m, regs.drop_last()));
        assert(rebound(before.insert(name, id), name, bound(before, name)) =~= before);
    }
}

} // verus!
