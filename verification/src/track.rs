//! Resource usage tracking and barrier stitching.
//!
//! A `UsageTracker` maps resource slots to the usage state the device will
//! observe for them; `use_replace` widens compatible (read-only) states and
//! otherwise replaces the state, handing the caller the transition the native
//! driver needs as a barrier.  At submission time the stitcher computes, for
//! each command buffer in order, the transitions from the device-global state
//! actually reached to the state the command buffer requires on entry, and
//! advances the global state to the command buffer's exit state.

use vstd::prelude::*;

verus! {

// Internal usage states of a buffer while commands execute.
pub const BUFFER_USE_MAP_READ: u32 = 1;
pub const BUFFER_USE_MAP_WRITE: u32 = 2;
pub const BUFFER_USE_COPY_SRC: u32 = 4;
pub const BUFFER_USE_COPY_DST: u32 = 8;
pub const BUFFER_USE_INDEX: u32 = 16;
pub const BUFFER_USE_VERTEX: u32 = 32;
pub const BUFFER_USE_UNIFORM: u32 = 64;
pub const BUFFER_USE_STORAGE_LOAD: u32 = 128;
pub const BUFFER_USE_STORAGE_STORE: u32 = 256;
pub const BUFFER_USE_INDIRECT: u32 = 512;

/// The buffer states that write; two states are compatible only if neither
/// writes.
pub const BUFFER_USE_WRITE_ALL: u32 = 2 | 8 | 256;

// Internal usage states of a texture while commands execute.
pub const TEXTURE_USE_COPY_SRC: u32 = 1;
pub const TEXTURE_USE_COPY_DST: u32 = 2;
pub const TEXTURE_USE_SAMPLED: u32 = 4;
pub const TEXTURE_USE_ATTACHMENT_READ: u32 = 8;
pub const TEXTURE_USE_ATTACHMENT_WRITE: u32 = 16;
pub const TEXTURE_USE_STORAGE_LOAD: u32 = 32;
pub const TEXTURE_USE_STORAGE_STORE: u32 = 64;

/// The texture states that write.
pub const TEXTURE_USE_WRITE_ALL: u32 = 2 | 16 | 64;

/// A state change the native driver must fence with a barrier.
#[derive(Clone, Copy, PartialEq, Eq, Structural, Debug)]
pub struct Transition {
    pub slot: u32,
    pub from: u32,
    pub to: u32,
}

/// Two usage states may coexist without a barrier only if neither writes.
pub open spec fn compatible(a: u32, b: u32, write_mask: u32) -> bool {
    a & write_mask == 0 && b & write_mask == 0
}

/// The tracked state after requesting `new` over current state `cur`:
/// compatible states are widened, incompatible ones replaced.
pub open spec fn merged_state(cur: u32, new: u32, write_mask: u32) -> u32 {
    if compatible(cur, new, write_mask) {
        cur | new
    } else {
        new
    }
}

/// A barrier is required exactly when the requested state differs from the
/// current one and the two cannot coexist.
pub open spec fn needs_transition(cur: u32, new: u32, write_mask: u32) -> bool {
    cur != new && !compatible(cur, new, write_mask)
}

/// The state stored after `use_replace` on a slot whose current state is
/// `cur`.
pub open spec fn next_state(cur: Option<u32>, new: u32, write_mask: u32) -> u32 {
    match cur {
        Option::None => new,
        Option::Some(c) => merged_state(c, new, write_mask),
    }
}

/// Per-device (or per-command-buffer) map from resource slot to current
/// usage state.
pub struct UsageTracker {
    pub write_mask: u32,
    pub states: Vec<Option<u32>>,
    pub touched: Vec<u32>,
}

impl UsageTracker {
    /// The slots are tracked exactly once each, and `touched` lists exactly
    /// the slots that hold a state.
    pub open spec fn wf(self) -> bool {
        &&& forall|i: int, j: int|
            0 <= i < j < self.touched@.len() ==> self.touched@[i] != self.touched@[j]
        &&& forall|i: int|
            0 <= i < self.touched@.len() ==> (#[trigger] self.touched@[i]) < self.states@.len()
                && self.states@[self.touched@[i] as int] is Some
        &&& forall|s: int|
            0 <= s < self.states@.len() && (#[trigger] self.states@[s]) is Some ==> exists|i: int|
                0 <= i < self.touched@.len() && self.touched@[i] == s
    }

    /// The tracked states, as a map from slot to usage.
    pub open spec fn as_map(self) -> Map<u32, u32> {
        Map::new(
            |s: u32| s < self.states@.len() && self.states@[s as int] is Some,
            |s: u32| self.states@[s as int]->0,
        )
    }

    pub open spec fn usage_of(self, slot: u32) -> Option<u32> {
        if self.as_map().contains_key(slot) {
            Option::Some(self.as_map()[slot])
        } else {
            Option::None
        }
    }

    pub fn new(write_mask: u32) -> (r: UsageTracker)
        ensures
            r.wf(),
            r.write_mask == write_mask,
            r.as_map() =~= Map::<u32, u32>::empty(),
            r.touched@.len() == 0,
    {
        UsageTracker { write_mask, states: Vec::new(), touched: Vec::new() }
    }

    /// The current state of one slot.
    pub fn query(&self, slot: u32) -> (r: Option<u32>)
        ensures
            r == self.usage_of(slot),
    {
        if (slot as usize) < self.states.len() {
            self.states[slot as usize]
        } else {
            None
        }
    }

    /// The slots tracked so far, in first-touch order.
    pub fn used(&self) -> (r: &Vec<u32>)
        ensures
            r == &self.touched,
    {
        &self.touched
    }

    fn grow(&mut self, slot: u32)
        requires
            old(self).wf(),
        ensures
            final(self).wf(),
            final(self).write_mask == old(self).write_mask,
            final(self).touched == old(self).touched,
            final(self).as_map() == old(self).as_map(),
            final(self).states@.len() > slot,
            forall|s: int|
                0 <= s < final(self).states@.len() ==> final(self).states@[s] == (if s < old(
                    self,
                ).states@.len() {
                    old(self).states@[s]
                } else {
                    Option::<u32>::None
                }),
    {
        while self.states.len() <= slot as usize
            invariant
                self.wf(),
                self.write_mask == old(self).write_mask,
                self.touched == old(self).touched,
                self.states@.len() >= old(self).states@.len(),
                forall|s: int|
                    0 <= s < self.states@.len() ==> self.states@[s] == (if s < old(
                        self,
                    ).states@.len() {
                        old(self).states@[s]
                    } else {
                        Option::<u32>::None
                    }),
            decreases slot as int + 1 - self.states.len(),
        {
            self.states.push(None);
        }
        proof {
            assert(self.as_map() =~= old(self).as_map());
        }
    }

    /// Requests `new_use` on `slot`.  Compatible states are widened in
    /// place; an incompatible change replaces the state and yields the
    /// transition the caller must convert into a native barrier.
    pub fn use_replace(&mut self, slot: u32, new_use: u32) -> (t: Option<Transition>)
        requires
            old(self).wf(),
        ensures
            final(self).wf(),
            final(self).write_mask == old(self).write_mask,
            final(self).as_map() == old(self).as_map().insert(
                slot,
                next_state(old(self).usage_of(slot), new_use, old(self).write_mask),
            ),
            t == (match old(self).usage_of(slot) {
                Option::Some(c) => if needs_transition(c, new_use, old(self).write_mask) {
                    Option::Some(Transition { slot, from: c, to: new_use })
                } else {
                    Option::<Transition>::None
                },
                Option::None => Option::<Transition>::None,
            }),
            final(self).touched@ == (if old(self).usage_of(slot) is None {
                old(self).touched@.push(slot)
            } else {
                old(self).touched@
            }),
    {
        self.grow(slot);
        let ghost pre = *self;
        let cur = self.states[slot as usize];
        match cur {
            None => {
                self.states.set(slot as usize, Some(new_use));
                self.touched.push(slot);
                proof {
                    let t0 = pre.touched@;
                    let t1 = self.touched@;
                    assert(pre.states@[slot as int] is None);
                    assert forall|i: int| 0 <= i < t0.len() implies t0[i] != slot by {
                        assert(pre.states@[t0[i] as int] is Some);
                    }
                    assert(self.wf()) by {
                        assert forall|s: int|
                            0 <= s < self.states@.len() && (#[trigger] self.states@[s]) is Some
                                implies exists|i: int| 0 <= i < t1.len() && t1[i] == s by {
                            if s == slot as int {
                                assert(t1[t1.len() - 1] == slot);
                            } else {
                                assert(pre.states@[s] is Some);
                                let j = choose|j: int| 0 <= j < t0.len() && t0[j] == s;
                                assert(t1[j] == s);
                            }
                        }
                    }
                    assert(self.as_map() =~= pre.as_map().insert(slot, new_use));
                }
                None
            },
            Some(c) => {
                let merged = if (c & self.write_mask) == 0 && (new_use & self.write_mask) == 0 {
                    c | new_use
                } else {
                    new_use
                };
                self.states.set(slot as usize, Some(merged));
                proof {
                    assert(self.wf());
                    assert(self.as_map() =~= pre.as_map().insert(
                        slot,
                        merged_state(c, new_use, self.write_mask),
                    ));
                }
                if c != new_use && !((c & self.write_mask) == 0 && (new_use & self.write_mask)
                    == 0) {
                    Some(Transition { slot, from: c, to: new_use })
                } else {
                    None
                }
            },
        }
    }

    /// Forgets one slot, e.g. when its resource is reclaimed.
    pub fn remove(&mut self, slot: u32)
        requires
            old(self).wf(),
        ensures
            final(self).wf(),
            final(self).write_mask == old(self).write_mask,
            final(self).as_map() == old(self).as_map().remove(slot),
    {
        if (slot as usize) < self.states.len() && self.states[slot as usize].is_some() {
            let ghost pre = *self;
            self.states.set(slot as usize, None);
            let mut i: usize = 0;
            while i < self.touched.len() && self.touched[i] != slot
                invariant
                    pre.wf(),
                    i <= pre.touched@.len(),
                    self.touched == pre.touched,
                    forall|k: int| 0 <= k < i ==> pre.touched@[k] != slot,
                decreases pre.touched@.len() - i,
            {
                i = i + 1;
            }
            proof {
                // The invariant ties every tracked state to an entry of
                // `touched`, so the scan finds the slot.
                assert(pre.states@[slot as int] is Some);
                let j = choose|j: int|
                    0 <= j < pre.touched@.len() && pre.touched@[j] == slot as int;
                if i >= self.touched@.len() {
                    assert(pre.touched@[j] != slot);
                    assert(false);
                }
            }
            let ghost mid = *self;
            self.touched.remove(i);
            proof {
                let t0 = pre.touched@;
                let t1 = self.touched@;
                t0.remove_ensures(i as int);
                assert(t0[i as int] == slot);
                assert(self.wf()) by {
                    assert forall|a: int, b: int| 0 <= a < b < t1.len() implies t1[a]
                        != t1[b] by {
                        assert(t1[a] == if a < i {
                            t0[a]
                        } else {
                            t0[a + 1]
                        });
                        assert(t1[b] == if b < i {
                            t0[b]
                        } else {
                            t0[b + 1]
                        });
                    }
                    assert forall|k: int| 0 <= k < t1.len() implies (#[trigger] t1[k])
                        < self.states@.len() && self.states@[t1[k] as int] is Some by {
                        let orig: int = if k < i {
                            k
                        } else {
                            k + 1
                        };
                        assert(t1[k] == t0[orig]);
                        assert(t0[orig] != slot);
                    }
                    assert forall|s: int|
                        0 <= s < self.states@.len() && (#[trigger] self.states@[s]) is Some
                            implies exists|k: int| 0 <= k < t1.len() && t1[k] == s by {
                        assert(pre.states@[s] is Some);
                        let j = choose|j: int| 0 <= j < t0.len() && t0[j] == s;
                        assert(s != slot as int);
                        if j < i {
                            assert(t1[j] == s);
                        } else {
                            assert(j != i);
                            assert(t1[j - 1] == t0[j]);
                        }
                    }
                }
                assert(self.as_map() =~= pre.as_map().remove(slot));
            }
        } else {
            proof {
                assert(self.as_map() =~= old(self).as_map().remove(slot));
            }
        }
    }
}

/// One recorded use of a resource inside a command buffer, in recording
/// order.
#[derive(Clone, Copy, PartialEq, Eq, Structural, Debug)]
pub struct RecordedUse {
    pub slot: u32,
    pub usage: u32,
}

/// Collapsed per-resource summary of a command buffer's recording: the state
/// required on entry (`first`) and the state left behind on exit (`last`).
#[derive(Clone, Copy, PartialEq, Eq, Structural, Debug)]
pub struct LocalUse {
    pub slot: u32,
    pub first: u32,
    pub last: u32,
}

/// Index of the first entry for `slot`, or -1 when there is none.
pub open spec fn find_slot(acc: Seq<LocalUse>, slot: u32) -> int
    decreases acc.len(),
{
    if acc.len() == 0 {
        -1
    } else if acc[0].slot == slot {
        0
    } else if find_slot(acc.skip(1), slot) == -1 {
        -1
    } else {
        find_slot(acc.skip(1), slot) + 1
    }
}

proof fn lemma_find_slot_none(acc: Seq<LocalUse>, slot: u32)
    requires
        forall|k: int| 0 <= k < acc.len() ==> (#[trigger] acc[k]).slot != slot,
    ensures
        find_slot(acc, slot) == -1,
    decreases acc.len(),
{
    if acc.len() > 0 {
        assert(forall|k: int|
            0 <= k < acc.skip(1).len() ==> (#[trigger] acc.skip(1)[k]).slot != slot) by {
            assert(forall|k: int|
                0 <= k < acc.skip(1).len() ==> acc.skip(1)[k] == acc[k + 1]);
        }
        lemma_find_slot_none(acc.skip(1), slot);
    }
}

proof fn lemma_find_slot_first(acc: Seq<LocalUse>, slot: u32, j: int)
    requires
        0 <= j < acc.len(),
        acc[j].slot == slot,
        forall|k: int| 0 <= k < j ==> (#[trigger] acc[k]).slot != slot,
    ensures
        find_slot(acc, slot) == j,
    decreases acc.len(),
{
    if j == 0 {
    } else {
        assert(acc.skip(1)[j - 1] == acc[j]);
        assert(forall|k: int| 0 <= k < j - 1 ==> (#[trigger] acc.skip(1)[k]).slot != slot)
            by {
            assert(forall|k: int|
                0 <= k < acc.skip(1).len() ==> acc.skip(1)[k] == acc[k + 1]);
        }
        lemma_find_slot_first(acc.skip(1), slot, j - 1);
    }
}

/// Folds one recorded use into the collapsed summary.
pub open spec fn collapse_step(mask: u32, acc: Seq<LocalUse>, r: RecordedUse) -> Seq<
    LocalUse,
> {
    let j = find_slot(acc, r.slot);
    if j == -1 {
        acc.push(LocalUse { slot: r.slot, first: r.usage, last: r.usage })
    } else {
        acc.update(
            j,
            LocalUse {
                slot: r.slot,
                first: acc[j].first,
                last: merged_state(acc[j].last, r.usage, mask),
            },
        )
    }
}

/// The collapsed per-resource summary of a raw recording log: adjacent and
/// redundant state changes are merged, and only the entry and exit states of
/// each resource remain, in first-touch order.
pub open spec fn spec_collapse(mask: u32, log: Seq<RecordedUse>) -> Seq<LocalUse>
    decreases log.len(),
{
    if log.len() == 0 {
        Seq::<LocalUse>::empty()
    } else {
        collapse_step(mask, spec_collapse(mask, log.drop_last()), log.last())
    }
}

/// Collapses a command buffer's recording log before it is handed to the
/// stitcher, reducing barrier count without changing the order in which
/// resources are first touched.
pub fn optimize(write_mask: u32, log: &Vec<RecordedUse>) -> (r: Vec<LocalUse>)
    ensures
        r@ == spec_collapse(write_mask, log@),
{
    let mut acc: Vec<LocalUse> = Vec::new();
    let mut i: usize = 0;
    while i < log.len()
        invariant
            i <= log@.len(),
            acc@ == spec_collapse(write_mask, log@.take(i as int)),
        decreases log@.len() - i,
    {
        let r = log[i];
        let mut j: usize = 0;
        while j < acc.len() && acc[j].slot != r.slot
            invariant
                j <= acc@.len(),
                forall|k: int| 0 <= k < j ==> (#[trigger] acc@[k]).slot != r.slot,
            decreases acc@.len() - j,
        {
            j = j + 1;
        }
        if j < acc.len() {
            proof {
                lemma_find_slot_first(acc@, r.slot, j as int);
            }
            let e = acc[j];
            let last = if (e.last & write_mask) == 0 && (r.usage & write_mask) == 0 {
                e.last | r.usage
            } else {
                r.usage
            };
            acc.set(j, LocalUse { slot: r.slot, first: e.first, last });
        } else {
            proof {
                lemma_find_slot_none(acc@, r.slot);
            }
            acc.push(LocalUse { slot: r.slot, first: r.usage, last: r.usage });
        }
        proof {
            assert(log@.take(i + 1).drop_last() =~= log@.take(i as int));
            assert(log@.take(i + 1).last() == log@[i as int]);
        }
        i = i + 1;
    }
    proof {
        assert(log@.take(log@.len() as int) =~= log@);
    }
    acc
}

/// Every slot of a collapsed summary was recorded in the log it came from.
pub proof fn lemma_collapse_slots(mask: u32, log: Seq<RecordedUse>)
    ensures
        forall|j: int|
            0 <= j < spec_collapse(mask, log).len() ==> exists|i: int|
                0 <= i < log.len() && (#[trigger] spec_collapse(mask, log)[j]).slot == log[i].slot,
    decreases log.len(),
{
    if log.len() > 0 {
        lemma_collapse_slots(mask, log.drop_last());
        let prefix = spec_collapse(mask, log.drop_last());
        let whole = spec_collapse(mask, log);
        let r = log.last();
        let f = find_slot(prefix, r.slot);
        assert forall|j: int| 0 <= j < whole.len() implies exists|i: int|
            0 <= i < log.len() && (#[trigger] whole[j]).slot == log[i].slot by {
            if f == -1 {
                if j < prefix.len() {
                    assert(whole[j] == prefix[j]);
                    let i = choose|i: int|
                        0 <= i < log.drop_last().len() && prefix[j].slot
                            == log.drop_last()[i].slot;
                    assert(log[i] == log.drop_last()[i]);
                } else {
                    assert(whole[j].slot == r.slot && log[log.len() - 1] == r);
                }
            } else {
                lemma_find_slot_first_props(prefix, r.slot);
                if j == f {
                    assert(whole[j].slot == r.slot && log[log.len() - 1] == r);
                } else {
                    assert(whole[j] == prefix[j]);
                    let i = choose|i: int|
                        0 <= i < log.drop_last().len() && prefix[j].slot
                            == log.drop_last()[i].slot;
                    assert(log[i] == log.drop_last()[i]);
                }
            }
        }
    }
}

proof fn lemma_find_slot_first_props(acc: Seq<LocalUse>, slot: u32)
    requires
        find_slot(acc, slot) != -1,
    ensures
        0 <= find_slot(acc, slot) < acc.len(),
        acc[find_slot(acc, slot)].slot == slot,
    decreases acc.len(),
{
    if acc.len() > 0 && acc[0].slot != slot {
        lemma_find_slot_first_props(acc.skip(1), slot);
        assert(acc.skip(1)[find_slot(acc.skip(1), slot)] == acc[find_slot(acc, slot)]);
    }
}

/// The barrier one collapsed entry requires against the given global states.
pub open spec fn spec_entry_transition(
    states: Map<u32, u32>,
    e: LocalUse,
    mask: u32,
) -> Option<Transition> {
    if states.contains_key(e.slot) && needs_transition(states[e.slot], e.first, mask) {
        Option::Some(Transition { slot: e.slot, from: states[e.slot], to: e.first })
    } else {
        Option::None
    }
}

/// The global states after one command buffer's collapsed entries take
/// effect: each touched resource holds its exit state.
pub open spec fn exit_states(states: Map<u32, u32>, entries: Seq<LocalUse>) -> Map<
    u32,
    u32,
>
    decreases entries.len(),
{
    if entries.len() == 0 {
        states
    } else {
        exit_states(states, entries.drop_last()).insert(
            entries.last().slot,
            entries.last().last,
        )
    }
}

/// The barriers stitched in front of one command buffer, in entry order,
/// each computed against the states actually reached at that point.
pub open spec fn batch_transitions(
    mask: u32,
    states: Map<u32, u32>,
    entries: Seq<LocalUse>,
) -> Seq<Transition>
    decreases entries.len(),
{
    if entries.len() == 0 {
        Seq::<Transition>::empty()
    } else {
        let prefix = entries.drop_last();
        batch_transitions(mask, states, prefix) + (match spec_entry_transition(
            exit_states(states, prefix),
            entries.last(),
            mask,
        ) {
            Option::Some(t) => seq![t],
            Option::None => Seq::<Transition>::empty(),
        })
    }
}

impl UsageTracker {
    /// Applies one collapsed entry of a command buffer: emits the barrier
    /// from the state actually reached to the entry state, and advances the
    /// global state to the exit state.
    pub fn apply_exit(&mut self, e: LocalUse) -> (t: Option<Transition>)
        requires
            old(self).wf(),
        ensures
            final(self).wf(),
            final(self).write_mask == old(self).write_mask,
            final(self).as_map() == old(self).as_map().insert(e.slot, e.last),
            t == spec_entry_transition(old(self).as_map(), e, old(self).write_mask),
    {
        self.grow(e.slot);
        let ghost pre = *self;
        let cur = self.states[e.slot as usize];
        self.states.set(e.slot as usize, Some(e.last));
        let out = match cur {
            None => {
                self.touched.push(e.slot);
                proof {
                    let t0 = pre.touched@;
                    let t1 = self.touched@;
                    assert(pre.states@[e.slot as int] is None);
                    assert forall|i: int| 0 <= i < t0.len() implies t0[i] != e.slot by {
                        assert(pre.states@[t0[i] as int] is Some);
                    }
                    assert(self.wf()) by {
                        assert forall|s: int|
                            0 <= s < self.states@.len() && (#[trigger] self.states@[s]) is Some
                                implies exists|i: int| 0 <= i < t1.len() && t1[i] == s by {
                            if s == e.slot as int {
                                assert(t1[t1.len() - 1] == e.slot);
                            } else {
                                assert(pre.states@[s] is Some);
                                let j = choose|j: int| 0 <= j < t0.len() && t0[j] == s;
                                assert(t1[j] == s);
                            }
                        }
                    }
                }
                None
            },
            Some(c) => {
                proof {
                    assert(self.wf());
                }
                if c != e.first && !((c & self.write_mask) == 0 && (e.first
                    & self.write_mask) == 0) {
                    Some(Transition { slot: e.slot, from: c, to: e.first })
                } else {
                    None
                }
            },
        };
        proof {
            assert(self.as_map() =~= pre.as_map().insert(e.slot, e.last));
        }
        out
    }

    /// Stitches one command buffer into the submission: emits the barriers
    /// it needs against the current global states and advances the global
    /// states to its exit states.
    pub fn stitch(&mut self, entries: &Vec<LocalUse>) -> (r: Vec<Transition>)
        requires
            old(self).wf(),
        ensures
            final(self).wf(),
            final(self).write_mask == old(self).write_mask,
            final(self).as_map() == exit_states(old(self).as_map(), entries@),
            r@ == batch_transitions(old(self).write_mask, old(self).as_map(), entries@),
    {
        let mut out: Vec<Transition> = Vec::new();
        let mut i: usize = 0;
        while i < entries.len()
            invariant
                old(self).wf(),
                self.wf(),
                i <= entries@.len(),
                self.write_mask == old(self).write_mask,
                self.as_map() == exit_states(old(self).as_map(), entries@.take(i as int)),
                out@ == batch_transitions(
                    old(self).write_mask,
                    old(self).as_map(),
                    entries@.take(i as int),
                ),
            decreases entries@.len() - i,
        {
            let t = self.apply_exit(entries[i]);
            proof {
                assert(entries@.take(i + 1).drop_last() =~= entries@.take(i as int));
                assert(entries@.take(i + 1).last() == entries@[i as int]);
            }
            match t {
                Some(t) => {
                    out.push(t);
                    proof {
                        assert(out@ =~= batch_transitions(
                            old(self).write_mask,
                            old(self).as_map(),
                            entries@.take(i + 1),
                        ));
                    }
                },
                None => {
                    proof {
                        assert(out@ =~= batch_transitions(
                            old(self).write_mask,
                            old(self).as_map(),
                            entries@.take(i + 1),
                        ));
                    }
                },
            }
            i = i + 1;
        }
        proof {
            assert(entries@.take(entries@.len() as int) =~= entries@);
        }
        out
    }
}

/// The global states after a whole batch of command buffers.
pub open spec fn submission_exit(
    states: Map<u32, u32>,
    batches: Seq<Seq<LocalUse>>,
) -> Map<u32, u32>
    decreases batches.len(),
{
    if batches.len() == 0 {
        states
    } else {
        exit_states(submission_exit(states, batches.drop_last()), batches.last())
    }
}

/// The per-command-buffer barrier lists of a whole submission, in caller
/// order.
pub open spec fn submission_transitions(
    mask: u32,
    states: Map<u32, u32>,
    batches: Seq<Seq<LocalUse>>,
) -> Seq<Seq<Transition>>
    decreases batches.len(),
{
    if batches.len() == 0 {
        Seq::<Seq<Transition>>::empty()
    } else {
        submission_transitions(mask, states, batches.drop_last()).push(
            batch_transitions(
                mask,
                submission_exit(states, batches.drop_last()),
                batches.last(),
            ),
        )
    }
}

/// Every stitched barrier changes state: no transition is emitted whose
/// source and target states are equal.
pub proof fn lemma_batch_transitions_real(
    mask: u32,
    states: Map<u32, u32>,
    entries: Seq<LocalUse>,
)
    ensures
        forall|j: int|
            0 <= j < batch_transitions(mask, states, entries).len() ==> (
            #[trigger] batch_transitions(mask, states, entries)[j]).from
                != batch_transitions(mask, states, entries)[j].to,
    decreases entries.len(),
{
    if entries.len() > 0 {
        let prefix = entries.drop_last();
        lemma_batch_transitions_real(mask, states, prefix);
        let pre_trans = batch_transitions(mask, states, prefix);
        let all = batch_transitions(mask, states, entries);
        let tail = spec_entry_transition(exit_states(states, prefix), entries.last(), mask);
        assert forall|j: int| 0 <= j < all.len() implies (#[trigger] all[j]).from
            != all[j].to by {
            if j < pre_trans.len() {
                assert(all[j] == pre_trans[j]);
            } else {
                assert(all[j] == tail.unwrap());
            }
        }
    }
}

/// Law: stitching a submission computes, for each command buffer in caller
/// order, exactly the barriers out of the device-global state actually
/// reached after the command buffers before it, and never emits a barrier
/// out of a state that was not reached or one that changes nothing.
pub proof fn lemma_stitch_chained(
    mask: u32,
    states: Map<u32, u32>,
    batches: Seq<Seq<LocalUse>>,
)
    ensures
        submission_transitions(mask, states, batches).len() == batches.len(),
        forall|k: int|
            0 <= k < batches.len() ==> #[trigger] submission_transitions(
                mask,
                states,
                batches,
            )[k] == batch_transitions(
                mask,
                submission_exit(states, batches.take(k)),
                batches[k],
            ),
        forall|k: int, j: int|
            0 <= k < batches.len() && 0 <= j < submission_transitions(
                mask,
                states,
                batches,
            )[k].len() ==> (#[trigger] submission_transitions(mask, states, batches)[k][j]).from
                != submission_transitions(mask, states, batches)[k][j].to,
    decreases batches.len(),
{
    if batches.len() > 0 {
        let prefix = batches.drop_last();
        lemma_stitch_chained(mask, states, prefix);
        assert(batches.take(batches.len() - 1) =~= prefix);
        assert forall|k: int| 0 <= k < batches.len() implies #[trigger] submission_transitions(
            mask,
            states,
            batches,
        )[k] == batch_transitions(
            mask,
            submission_exit(states, batches.take(k)),
            batches[k],
        ) by {
            if k < batches.len() - 1 {
                assert(prefix.take(k) =~= batches.take(k));
                assert(prefix[k] == batches[k]);
            }
        }
        assert forall|k: int, j: int|
            0 <= k < batches.len() && 0 <= j < submission_transitions(
                mask,
                states,
                batches,
            )[k].len() implies (#[trigger] submission_transitions(
            mask,
            states,
            batches,
        )[k][j]).from != submission_transitions(mask, states, batches)[k][j].to by {
            lemma_batch_transitions_real(
                mask,
                submission_exit(states, batches.take(k)),
                batches[k],
            );
        }
    }
}

} // verus!
