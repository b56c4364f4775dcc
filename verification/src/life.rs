//! Shared-ownership tokens for tracked resources.
//!
//! Each resource owns one control block holding an atomic-style reference
//! count; the blocks live in an arena (`RefStore`) and a `RefCount` is the
//! handle of one block.  Cloning a handle increments the count, dropping one
//! decrements it, and the drop that observes the count reach zero is the
//! unique one responsible for releasing the backing allocation.  A
//! `LifeGuard` pairs an optional `RefCount` with the index of the last
//! submission that used the resource.

use vstd::prelude::*;

verus! {

/// Upper bound on any single reference count.
pub const REF_COUNT_MAX: u64 = 16777216;

/// Handle of one control block in a `RefStore`.
pub struct RefCount {
    pub slot: usize,
}

/// Arena of control blocks; `counts[s]` is the number of live `RefCount`
/// handles of slot `s`, and `0` marks a released block.
pub struct RefStore {
    pub counts: Vec<u64>,
}

impl RefStore {
    /// A handle is valid while its block has not been released.
    pub open spec fn valid(self, slot: int) -> bool {
        0 <= slot < self.counts.len() && self.counts[slot] >= 1
    }

    pub fn new() -> (r: RefStore)
        ensures
            r.counts@ =~= Seq::<u64>::empty(),
    {
        RefStore { counts: Vec::new() }
    }

    /// Allocates a fresh control block with one live handle.
    pub fn register(&mut self) -> (r: RefCount)
        ensures
            final(self).counts@ =~= old(self).counts@.push(1),
            r.slot == old(self).counts@.len(),
            final(self).valid(r.slot as int),
    {
        let slot = self.counts.len();
        self.counts.push(1);
        RefCount { slot }
    }
}

impl RefCount {
    /// Current count of live handles of this block.
    pub fn load(&self, store: &RefStore) -> (r: u64)
        requires
            store.valid(self.slot as int),
        ensures
            r == store.counts@[self.slot as int],
    {
        store.counts[self.slot]
    }

    /// One more handle of the same block; the count grows by one.
    pub fn clone_in(&self, store: &mut RefStore) -> (r: RefCount)
        requires
            old(store).valid(self.slot as int),
            old(store).counts@[self.slot as int] < REF_COUNT_MAX,
        ensures
            r.slot == self.slot,
            final(store).counts@ =~= old(store).counts@.update(
                self.slot as int,
                (old(store).counts@[self.slot as int] + 1) as u64,
            ),
    {
        let c = store.counts[self.slot];
        store.counts.set(self.slot, c + 1);
        RefCount { slot: self.slot }
    }

    /// Consumes this handle and decrements the count.  Returns `true` if and
    /// only if this was the last live handle, i.e. the count reached zero and
    /// the backing allocation is released by this very call.
    pub fn rich_drop(self, store: &mut RefStore) -> (released: bool)
        requires
            old(store).valid(self.slot as int),
        ensures
            final(store).counts@ =~= old(store).counts@.update(
                self.slot as int,
                (old(store).counts@[self.slot as int] - 1) as u64,
            ),
            released == (old(store).counts@[self.slot as int] == 1),
            released == (final(store).counts@[self.slot as int] == 0),
    {
        let c = store.counts[self.slot];
        store.counts.set(self.slot, c - 1);
        c == 1
    }
}

/// Reference count with manual increment and decrement; owned by exactly one
/// holder, so it needs no arena.
pub struct MultiRefCount {
    pub count: u64,
}

impl MultiRefCount {
    pub fn new() -> (r: MultiRefCount)
        ensures
            r.count == 1,
    {
        MultiRefCount { count: 1 }
    }

    pub fn inc(&mut self)
        requires
            old(self).count < REF_COUNT_MAX,
        ensures
            final(self).count == old(self).count + 1,
    {
        self.count = self.count + 1;
    }

    pub fn dec_and_check_empty(&mut self) -> (empty: bool)
        requires
            old(self).count >= 1,
        ensures
            final(self).count == old(self).count - 1,
            empty == (old(self).count == 1),
    {
        self.count = self.count - 1;
        self.count == 0
    }
}

/// The recorded last-use index after one `use_at` observation: the maximum of
/// the current index and the observed one.
pub open spec fn record_use(current: u64, observed: u64) -> u64 {
    if observed > current {
        observed
    } else {
        current
    }
}

/// Pairs the external-ownership token of a resource with the index of the
/// last submission that used it.
pub struct LifeGuard {
    pub ref_count: Option<RefCount>,
    pub submission_index: u64,
}

impl LifeGuard {
    pub fn new(store: &mut RefStore) -> (r: LifeGuard)
        ensures
            final(store).counts@ =~= old(store).counts@.push(1),
            r.ref_count matches Some(rc) && rc.slot == old(store).counts@.len(),
            r.submission_index == 0,
    {
        let rc = store.register();
        LifeGuard { ref_count: Some(rc), submission_index: 0 }
    }

    /// A new external handle to the resource this guard tracks.
    pub fn add_ref(&self, store: &mut RefStore) -> (r: RefCount)
        requires
            self.ref_count matches Some(rc) && old(store).valid(rc.slot as int)
                && old(store).counts@[rc.slot as int] < REF_COUNT_MAX,
        ensures
            self.ref_count matches Some(rc) && r.slot == rc.slot
                && final(store).counts@ =~= old(store).counts@.update(
                rc.slot as int,
                (old(store).counts@[rc.slot as int] + 1) as u64,
            ),
    {
        match &self.ref_count {
            Some(rc) => rc.clone_in(store),
            None => unreached(),
        }
    }

    /// Records that submission `submit_index` uses the resource and returns
    /// `true` if an external owner still exists.  The recorded index never
    /// decreases, whatever order indices are observed in.
    pub fn use_at(&mut self, submit_index: u64) -> (alive: bool)
        ensures
            final(self).submission_index == record_use(
                old(self).submission_index,
                submit_index,
            ),
            final(self).ref_count == old(self).ref_count,
            alive == old(self).ref_count is Some,
    {
        if submit_index > self.submission_index {
            self.submission_index = submit_index;
        }
        self.ref_count.is_some()
    }

    /// Gives up the guard's own handle; afterwards the resource is a
    /// reclamation candidate.  Returns `true` if that handle was the last.
    pub fn release_external(&mut self, store: &mut RefStore) -> (released: bool)
        requires
            old(self).ref_count matches Some(rc) && old(store).valid(rc.slot as int),
        ensures
            final(self).ref_count is None,
            final(self).submission_index == old(self).submission_index,
            old(self).ref_count matches Some(rc)
                && final(store).counts@ =~= old(store).counts@.update(
                rc.slot as int,
                (old(store).counts@[rc.slot as int] - 1) as u64,
            ) && released == (old(store).counts@[rc.slot as int] == 1),
    {
        let rc = self.ref_count.take();
        match rc {
            Some(rc) => rc.rich_drop(store),
            None => unreached(),
        }
    }
}

/// A handle one resource holds on another (a bind group on its buffer): the
/// referenced resource's id together with a cloned ownership token, so the
/// holder keeps it alive independently of the first caller's handle.
pub struct Stored<T> {
    pub value: T,
    pub ref_count: RefCount,
}

/// A clone or drop of one `RefCount`, as an abstract event.
pub enum RefOp {
    Clone,
    Drop,
}

/// The count of live handles after running `ops` from a count of `n`.
pub open spec fn run_count(n: nat, ops: Seq<RefOp>) -> nat
    decreases ops.len(),
{
    if ops.len() == 0 {
        n
    } else {
        match ops[0] {
            RefOp::Clone => run_count(n + 1, ops.skip(1)),
            RefOp::Drop => run_count((n - 1) as nat, ops.skip(1)),
        }
    }
}

/// Every operation happens while at least one handle is live: a clone or a
/// drop is performed through an existing handle.
pub open spec fn valid_ops(n: nat, ops: Seq<RefOp>) -> bool
    decreases ops.len(),
{
    if ops.len() == 0 {
        true
    } else {
        n >= 1 && match ops[0] {
            RefOp::Clone => valid_ops(n + 1, ops.skip(1)),
            RefOp::Drop => valid_ops((n - 1) as nat, ops.skip(1)),
        }
    }
}

/// How many drops in `ops` observe the count reach zero, i.e. release the
/// backing allocation.
pub open spec fn releases(n: nat, ops: Seq<RefOp>) -> nat
    decreases ops.len(),
{
    if ops.len() == 0 {
        0
    } else {
        match ops[0] {
            RefOp::Clone => releases(n + 1, ops.skip(1)),
            RefOp::Drop => (if n == 1 {
                1nat
            } else {
                0nat
            }) + releases((n - 1) as nat, ops.skip(1)),
        }
    }
}

/// Law: over any sequence of clone and drop operations each performed through
/// a live handle, the backing allocation is released exactly once if the run
/// drops every handle and not at all otherwise; and while operations remain,
/// some handle is still live, so no release precedes them.
pub proof fn lemma_release_exactly_once(n0: nat, ops: Seq<RefOp>)
    requires
        n0 >= 1,
        valid_ops(n0, ops),
    ensures
        releases(n0, ops) == if run_count(n0, ops) == 0 {
            1nat
        } else {
            0nat
        },
        forall|p: int|
            0 <= p < ops.len() ==> run_count(n0, #[trigger] ops.take(p)) >= 1,
    decreases ops.len(),
{
    if ops.len() == 0 {
    } else {
        let rest = ops.skip(1);
        let n1: nat = match ops[0] {
            RefOp::Clone => n0 + 1,
            RefOp::Drop => (n0 - 1) as nat,
        };
        match ops[0] {
            RefOp::Clone => {
                lemma_release_exactly_once(n1, rest);
            },
            RefOp::Drop => {
                if n0 == 1 {
                    // No handle is live after this drop, so `rest` allows no
                    // further operation.
                    assert(valid_ops(0, rest));
                    assert(rest.len() == 0) by {
                        if rest.len() > 0 {
                            assert(valid_ops(0, rest) ==> 0nat >= 1);
                        }
                    }
                    assert(releases(n0, ops) == 1 + releases(0, rest));
                    assert(releases(0, rest) == 0);
                    assert(run_count(n0, ops) == run_count(0, rest));
                    assert(run_count(0, rest) == 0);
                } else {
                    lemma_release_exactly_once(n1, rest);
                }
            },
        }
        assert(run_count(n0, ops) == run_count(n1, rest));
        assert forall|p: int| 0 <= p < ops.len() implies run_count(
            n0,
            #[trigger] ops.take(p),
        ) >= 1 by {
            if p == 0 {
                assert(ops.take(0).len() == 0);
            } else {
                assert(rest.take(p - 1) =~= ops.take(p).skip(1));
                assert(ops.take(p)[0] == ops[0]);
                if ops[0] is Drop && n0 == 1 {
                } else {
                    lemma_release_exactly_once(n1, rest);
                    assert(run_count(n1, rest.take(p - 1)) >= 1);
                }
            }
        }
    }
}

/// The recorded index after a series of `use_at` observations.
pub open spec fn fold_record(start: u64, ks: Seq<u64>) -> u64
    decreases ks.len(),
{
    if ks.len() == 0 {
        start
    } else {
        fold_record(record_use(start, ks[0]), ks.skip(1))
    }
}

/// Law: the last-use index a `LifeGuard` records is monotonic: after any
/// series of `use_at` observations it is the maximum index ever observed, so
/// a later observation of a smaller index never lowers it.
pub proof fn lemma_last_use_is_max(start: u64, ks: Seq<u64>)
    ensures
        fold_record(start, ks) >= start,
        forall|j: int| 0 <= j < ks.len() ==> fold_record(start, ks) >= ks[j],
        fold_record(start, ks) == start || exists|j: int|
            0 <= j < ks.len() && fold_record(start, ks) == ks[j],
    decreases ks.len(),
{
    if ks.len() == 0 {
    } else {
        let s1 = record_use(start, ks[0]);
        lemma_last_use_is_max(s1, ks.skip(1));
        assert forall|j: int| 0 <= j < ks.len() implies fold_record(start, ks)
            >= ks[j] by {
            if j == 0 {
            } else {
                assert(ks.skip(1)[j - 1] == ks[j]);
            }
        }
        if fold_record(s1, ks.skip(1)) == s1 {
            if s1 != start {
                assert(fold_record(start, ks) == ks[0]);
            }
        } else {
            let j = choose|j: int|
                0 <= j < ks.skip(1).len() && fold_record(s1, ks.skip(1)) == ks.skip(
                    1,
                )[j];
            assert(ks.skip(1)[j] == ks[j + 1]);
        }
    }
}

} // verus!
