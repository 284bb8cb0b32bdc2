//! The window that indexing keeps ahead of merging: which unit a worker may
//! take, and which finished unit is merged next.

use vstd::prelude::*;

verus! {

/// Units the workers may take ahead of the merge, per worker, and the bounds
/// on the total. This bounds what is held before merging without making
/// anyone wait for a batch: a slow unit holds up the merge, not the other
/// workers.
pub const INDEX_WINDOW_PER_WORKER: usize = 2;

pub const INDEX_WINDOW_MIN: usize = 4;

pub const INDEX_WINDOW_MAX: usize = 32;

/// The window for that many workers.
pub open spec fn window_of(jobs: nat) -> nat {
    let wide = (if jobs == 0 {
        1
    } else {
        jobs
    }) * INDEX_WINDOW_PER_WORKER as nat;
    if wide < INDEX_WINDOW_MIN {
        INDEX_WINDOW_MIN as nat
    } else if wide > INDEX_WINDOW_MAX {
        INDEX_WINDOW_MAX as nat
    } else {
        wide
    }
}

/// The window for `jobs` workers.
pub fn index_window(jobs: usize) -> (r: usize)
    ensures
        r == window_of(jobs as nat),
{
    if jobs <= INDEX_WINDOW_MIN / INDEX_WINDOW_PER_WORKER {
        INDEX_WINDOW_MIN
    } else if jobs >= INDEX_WINDOW_MAX / INDEX_WINDOW_PER_WORKER {
        INDEX_WINDOW_MAX
    } else {
        jobs * INDEX_WINDOW_PER_WORKER
    }
}

/// What a worker does next.
#[derive(Debug, Clone, Copy, PartialEq, Eq)]
pub enum Take {
    /// Index the unit at that position.
    Index { unit: usize },
    /// Wait until the window moves.
    Wait,
    /// Stop: every unit is taken, or the run is cancelled.
    Stop,
}

/// What the merge does next.
#[derive(Debug, Clone, Copy, PartialEq, Eq)]
pub enum Merge {
    /// Merge the unit at that position, which is finished.
    Merge { unit: usize },
    /// Wait until that unit is finished.
    Wait,
    /// Stop: every unit is merged, or the run is cancelled.
    Stop,
}

/// How far indexing and merging have come.
#[derive(Debug, PartialEq, Eq)]
pub struct Window {
    /// The units to index.
    pub total: usize,
    /// How many units the workers may be ahead of the merge.
    pub size: usize,
    /// The next unit a worker takes.
    pub next: usize,
    /// The units merged so far.
    pub merged: usize,
    /// The finished units that the merge has not reached.
    pub done: Vec<usize>,
    /// A thread gave up, and everyone else stops.
    pub cancelled: bool,
}

impl Window {
    /// The merge is behind the workers by the window at most, and what is
    /// finished lies between the two, each unit once.
    pub open spec fn wf(&self) -> bool {
        &&& self.size > 0
        &&& self.merged <= self.next <= self.total
        &&& self.next <= self.merged + self.size
        &&& self.done@.no_duplicates()
        &&& forall|k: int|
            0 <= k < self.done@.len() ==> self.merged <= #[trigger] self.done@[k] < self.next
    }

    /// The unit is being indexed.
    pub open spec fn in_flight(&self, unit: usize) -> bool {
        self.merged <= unit < self.next && !self.done@.contains(unit)
    }

    pub fn new(total: usize, jobs: usize) -> (r: Window)
        ensures
            r.wf(),
            r.total == total,
            r.size == window_of(jobs as nat),
            r.next == 0,
            r.merged == 0,
            r.done@.len() == 0,
            !r.cancelled,
    {
        Window {
            total,
            size: index_window(jobs),
            next: 0,
            merged: 0,
            done: Vec::new(),
            cancelled: false,
        }
    }

    pub open spec fn spec_take(&self) -> Take {
        if self.cancelled || self.next >= self.total {
            Take::Stop
        } else if self.next >= self.merged + self.size {
            Take::Wait
        } else {
            Take::Index { unit: self.next }
        }
    }

    /// What a worker that asks for a unit does. Units are taken in order; one
    /// that would be further ahead of the merge than the window waits.
    pub fn take(&mut self) -> (r: Take)
        requires
            old(self).wf(),
        ensures
            final(self).wf(),
            r == old(self).spec_take(),
            final(self).next == old(self).next + if r is Index {
                1int
            } else {
                0
            },
            r matches Take::Index { unit } ==> final(self).in_flight(unit),
            final(self).total == old(self).total,
            final(self).size == old(self).size,
            final(self).merged == old(self).merged,
            final(self).done@ == old(self).done@,
            final(self).cancelled == old(self).cancelled,
    {
        if self.cancelled || self.next >= self.total {
            return Take::Stop;
        }
        if self.next - self.merged >= self.size {
            return Take::Wait;
        }
        let unit = self.next;
        self.next = self.next + 1;
        Take::Index { unit }
    }

    /// Note a unit that a worker has finished.
    pub fn finish(&mut self, unit: usize)
        requires
            old(self).wf(),
            old(self).in_flight(unit),
        ensures
            final(self).wf(),
            final(self).done@ == old(self).done@.push(unit),
            final(self).next == old(self).next,
            final(self).merged == old(self).merged,
            final(self).total == old(self).total,
            final(self).size == old(self).size,
            final(self).cancelled == old(self).cancelled,
    {
        self.done.push(unit);
    }

    pub open spec fn spec_ready(&self) -> Merge {
        if self.cancelled || self.merged >= self.total {
            Merge::Stop
        } else if self.done@.contains(self.merged) {
            Merge::Merge { unit: self.merged }
        } else {
            Merge::Wait
        }
    }

    /// What the merge does. Units are merged in the order given, whichever is
    /// finished first.
    pub fn ready(&self) -> (r: Merge)
        ensures
            r == self.spec_ready(),
    {
        if self.cancelled || self.merged >= self.total {
            return Merge::Stop;
        }
        let mut k: usize = 0;
        while k < self.done.len()
            invariant
                k <= self.done@.len(),
                !self.cancelled,
                self.merged < self.total,
                forall|j: int| 0 <= j < k ==> #[trigger] self.done@[j] != self.merged,
            decreases self.done@.len() - k,
        {
            if self.done[k] == self.merged {
                assert(self.done@[k as int] == self.merged);
                return Merge::Merge { unit: self.merged };
            }
            k += 1;
        }
        Merge::Wait
    }

    /// Note that the unit that was ready is merged; the window moves on.
    pub fn advance(&mut self)
        requires
            old(self).wf(),
            old(self).spec_ready() is Merge,
        ensures
            final(self).wf(),
            final(self).merged == old(self).merged + 1,
            final(self).next == old(self).next,
            final(self).total == old(self).total,
            final(self).size == old(self).size,
            final(self).cancelled == old(self).cancelled,
            forall|unit: usize| #[trigger]
                final(self).done@.contains(unit) <==> old(self).done@.contains(unit) && unit != old(
                    self,
                ).merged,
    {
        let mut k: usize = 0;
        while self.done[k] != self.merged
            invariant
                k < self.done.len(),
                self.done@ == old(self).done@,
                *self == *old(self),
                exists|j: int| k <= j < self.done@.len() && #[trigger] self.done@[j] == self.merged,
            decreases self.done@.len() - k,
        {
            k += 1;
        }
        let ghost all = self.done@;
        self.done.remove(k);
        proof {
            assert(self.done@ =~= all.remove(k as int));
            assert forall|unit: usize| #[trigger]
                self.done@.contains(unit) <==> all.contains(unit) && unit != all[k as int] by {
                if self.done@.contains(unit) {
                    let j = choose|j: int| 0 <= j < self.done@.len() && self.done@[j] == unit;
                    if j < k {
                        assert(all[j] == unit);
                    } else {
                        assert(all[j + 1] == unit);
                    }
                }
                if all.contains(unit) && unit != all[k as int] {
                    let j = choose|j: int| 0 <= j < all.len() && all[j] == unit;
                    if j < k {
                        assert(self.done@[j] == unit);
                    } else {
                        assert(self.done@[j - 1] == unit);
                    }
                }
            }
            assert forall|j: int| 0 <= j < self.done@.len() implies self.merged + 1
                <= #[trigger] self.done@[j] < self.next by {
                assert(self.done@.contains(self.done@[j]));
                let i = choose|i: int| 0 <= i < all.len() && all[i] == self.done@[j];
                assert(self.merged <= all[i] < self.next);
            }
            assert(self.done@.no_duplicates()) by {
                assert forall|i: int, j: int|
                    0 <= i < self.done@.len() && 0 <= j < self.done@.len() && i
                        != j implies self.done@[i] != self.done@[j] by {
                    let x = if i < k {
                        i
                    } else {
                        i + 1
                    };
                    let y = if j < k {
                        j
                    } else {
                        j + 1
                    };
                    assert(all[x] != all[y]);
                }
            }
        }
        self.merged = self.merged + 1;
    }

    /// Give the run up: every thread stops when it next asks.
    pub fn cancel(&mut self)
        ensures
            *final(self) == (Window { cancelled: true, ..*old(self) }),
    {
        self.cancelled = true;
    }
}

/// No more units are held than the window allows: those taken and not merged,
/// finished or not.
pub proof fn law_the_window_bounds_what_is_held(w: Window)
    requires
        w.wf(),
    ensures
        w.next - w.merged <= w.size,
        w.done@.len() <= w.size,
{
    lemma_distinct_in_range(w.done@, w.merged as int, w.next as int);
}

proof fn lemma_distinct_in_range(v: Seq<usize>, low: int, high: int)
    requires
        low <= high,
        v.no_duplicates(),
        forall|k: int| 0 <= k < v.len() ==> low <= #[trigger] v[k] < high,
    ensures
        v.len() <= high - low,
    decreases high - low,
{
    if low == high {
        if v.len() > 0 {
            assert(low <= v[0] < high);
        }
    } else if exists|k: int| 0 <= k < v.len() && v[k] == high - 1 {
        let k = choose|k: int| 0 <= k < v.len() && v[k] == high - 1;
        let rest = v.remove(k);
        assert forall|j: int| 0 <= j < rest.len() implies low <= #[trigger] rest[j] < high - 1 by {
            let i = if j < k {
                j
            } else {
                j + 1
            };
            assert(rest[j] == v[i]);
            assert(v[i] != v[k]);
        }
        assert(rest.no_duplicates()) by {
            assert forall|i: int, j: int|
                0 <= i < rest.len() && 0 <= j < rest.len() && i != j implies rest[i] != rest[j] by {
                let x = if i < k {
                    i
                } else {
                    i + 1
                };
                let y = if j < k {
                    j
                } else {
                    j + 1
                };
                assert(v[x] != v[y]);
            }
        }
        lemma_distinct_in_range(rest, low, high - 1);
    } else {
        assert forall|k: int| 0 <= k < v.len() implies low <= #[trigger] v[k] < high - 1 by {
            assert(v[k] != high - 1);
        }
        lemma_distinct_in_range(v, low, high - 1);
    }
}

/// The run never hangs: while a unit is left to merge and nobody gave up, the
/// unit the merge waits for is being indexed, or a worker may take it.
pub proof fn law_the_merge_never_waits_in_vain(w: Window)
    requires
        w.wf(),
        w.spec_ready() is Wait,
    ensures
        w.in_flight(w.merged) || (w.spec_take() matches Take::Index { unit } && unit == w.merged),
{
}

/// A worker waits only while something is taken that is not merged.
pub proof fn law_workers_wait_for_the_merge(w: Window)
    requires
        w.wf(),
        w.spec_take() is Wait,
    ensures
        w.merged < w.next,
        w.spec_ready() is Merge || w.in_flight(w.merged),
{
}

} // verus!
