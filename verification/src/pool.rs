//! A generational arena.
//!
//! Values live in slots addressed by a `Handle`, a pair of slot index and
//! generation tag.  Freeing a slot and reusing it bumps the generation, so
//! a handle taken before the free can never resolve to the later occupant:
//! it simply stops resolving.  Every spawn also records a strictly
//! increasing birth stamp (ghost), which orders the live values by the time
//! they entered the pool.

use vstd::prelude::*;

verus! {

/// A stable reference into a `Pool`: slot index plus generation tag.
#[derive(Clone, Copy, Debug, PartialEq, Eq, Hash, Structural)]
pub struct Handle {
    pub index: u32,
    pub generation: u32,
}

/// The reserved handle that never resolves in any well-formed pool.
pub open spec fn spec_none_handle() -> Handle {
    Handle { index: 0, generation: 0 }
}

impl Handle {
    /// The reserved handle that never resolves in any well-formed pool.
    pub fn none() -> (h: Handle)
        ensures
            h == spec_none_handle(),
    {
        Handle { index: 0, generation: 0 }
    }

    /// Whether this is the reserved never-resolving handle.
    pub fn is_none_handle(&self) -> (r: bool)
        ensures
            r == (*self == spec_none_handle()),
    {
        self.index == 0 && self.generation == 0
    }
}

struct Record<T> {
    generation: u32,
    birth: Ghost<nat>,
    payload: Option<T>,
}

/// A generational arena of values of one type.
pub struct Pool<T> {
    records: Vec<Record<T>>,
    free_slots: Vec<u32>,
    next_birth: Ghost<nat>,
}

impl<T> Pool<T> {
    /// How many slots the pool has ever allocated.
    pub closed spec fn slot_count(self) -> nat {
        self.records@.len()
    }

    /// Whether `h` resolves to a live value.
    pub closed spec fn contains(self, h: Handle) -> bool {
        &&& (h.index as int) < self.records@.len()
        &&& self.records@[h.index as int].generation == h.generation
        &&& self.records@[h.index as int].payload is Some
    }

    /// The value `h` resolves to (meaningful only when `contains(h)`).
    pub closed spec fn at(self, h: Handle) -> T
        recommends
            self.contains(h),
    {
        self.records@[h.index as int].payload->Some_0
    }

    /// The birth stamp of the value `h` resolves to: values spawned later
    /// have strictly larger stamps.
    pub closed spec fn birth_of(self, h: Handle) -> nat
        recommends
            self.contains(h),
    {
        if (h.index as int) < self.records@.len() {
            self.records@[h.index as int].birth@
        } else {
            0
        }
    }

    /// Internal well-formedness: free slots are dead and distinct, live
    /// generations start at one, and births stay below the next stamp.
    pub closed spec fn wf(self) -> bool {
        &&& forall|i: int|
            0 <= i < self.free_slots@.len() ==> (#[trigger] self.free_slots@[i] as int)
                < self.records@.len() && self.records@[self.free_slots@[i] as int].payload is None
        &&& forall|i: int, j: int|
            0 <= i < j < self.free_slots@.len() ==> self.free_slots@[i] != self.free_slots@[j]
        &&& forall|s: int|
            0 <= s < self.records@.len() ==> (#[trigger] self.records@[s].generation) >= 1
        &&& forall|s: int|
            0 <= s < self.records@.len() && self.records@[s].payload is Some
                ==> (#[trigger] self.records@[s].birth@) < self.next_birth@
    }

    /// Whether slot `i` currently holds a live value.
    pub closed spec fn slot_live(self, i: int) -> bool {
        0 <= i < self.records@.len() && self.records@[i].payload is Some
    }

    /// The handle of the value in slot `i` (meaningful when `slot_live(i)`).
    pub closed spec fn slot_handle(self, i: int) -> Handle {
        Handle {
            index: i as u32,
            generation: if 0 <= i < self.records@.len() {
                self.records@[i].generation
            } else {
                0
            },
        }
    }

    /// Whether `h` points at an already-allocated slot without resolving:
    /// such a handle is retired for good — the generation tag only grows,
    /// so no later spawn can ever make it resolve again.
    pub closed spec fn gone(self, h: Handle) -> bool {
        &&& (h.index as int) < self.records@.len()
        &&& h.generation <= self.records@[h.index as int].generation
        &&& !self.contains(h)
    }

    /// The reserved handle never resolves in a well-formed pool.
    pub proof fn lemma_none_never_contained(self)
        requires
            self.wf(),
        ensures
            !self.contains(spec_none_handle()),
    {
    }

    /// Slot enumeration and handles agree: each live slot carries exactly
    /// one resolving handle, and each resolving handle names its slot.
    pub proof fn lemma_slots(self)
        requires
            self.wf(),
            self.slot_count() <= 0xFFFF_FFFF,
        ensures
            forall|i: int| #[trigger]
                self.slot_live(i) ==> self.contains(self.slot_handle(i)) && self.slot_handle(
                    i,
                ).index == i,
            forall|h: Handle| #[trigger]
                self.contains(h) ==> self.slot_live(h.index as int) && self.slot_handle(
                    h.index as int,
                ) == h && (h.index as int) < self.slot_count(),
    {
    }

    /// The number of slots the pool has ever allocated.
    pub fn slot_len(&self) -> (n: usize)
        ensures
            n == self.slot_count(),
    {
        self.records.len()
    }

    /// The handle of the value in slot `i`, if the slot is live.
    pub fn handle_at(&self, i: usize) -> (r: Option<Handle>)
        requires
            self.slot_count() <= 0xFFFF_FFFF,
        ensures
            match r {
                Some(h) => self.slot_live(i as int) && h == self.slot_handle(i as int),
                None => !self.slot_live(i as int),
            },
    {
        if i < self.records.len() && self.records[i].payload.is_some() {
            Some(Handle { index: i as u32, generation: self.records[i].generation })
        } else {
            None
        }
    }

    /// An empty pool.
    pub fn new() -> (p: Pool<T>)
        ensures
            p.wf(),
            p.slot_count() == 0,
            forall|h: Handle| !(#[trigger] p.contains(h)),
    {
        Pool { records: Vec::new(), free_slots: Vec::new(), next_birth: Ghost(0) }
    }

    /// Whether `h` resolves to a live value.
    pub fn is_valid(&self, h: Handle) -> (r: bool)
        ensures
            r == self.contains(h),
    {
        (h.index as usize) < self.records.len() && {
            let idx = h.index as usize;
            self.records[idx].generation == h.generation && self.records[idx].payload.is_some()
        }
    }

    /// Puts `value` into a fresh or recycled slot and hands back its handle.
    /// The handle is new: it did not resolve before, and every handle that
    /// resolved before still resolves to the same value.
    pub fn spawn(&mut self, value: T) -> (h: Handle)
        requires
            old(self).wf(),
            old(self).slot_count() < 0xFFFF_FFFF,
        ensures
            final(self).wf(),
            final(self).contains(h),
            final(self).at(h) == value,
            !old(self).contains(h),
            !old(self).gone(h),
            h != spec_none_handle(),
            final(self).slot_count() <= old(self).slot_count() + 1,
            forall|g: Handle| old(self).gone(g) ==> final(self).gone(g),
            forall|g: Handle|
                old(self).contains(g) ==> final(self).contains(g) && final(self).at(g) == old(
                    self,
                ).at(g) && final(self).birth_of(g) == old(self).birth_of(g),
            forall|g: Handle| #[trigger]
                final(self).contains(g) && g != h ==> old(self).contains(g),
            forall|g: Handle|
                old(self).contains(g) ==> final(self).birth_of(g) < final(self).birth_of(h),
    {
        let ghost pre = *self;
        let birth: Ghost<nat> = Ghost(self.next_birth@);
        self.next_birth = Ghost(self.next_birth@ + 1);
        let slot_choice: Option<u32> = self.free_slots.pop();
        let reuse: bool = match slot_choice {
            Some(slot) => self.records[slot as usize].generation < 0xFFFF_FFFFu32,
            None => false,
        };
        if reuse {
            let slot = match slot_choice {
                Some(s) => s,
                None => 0,
            };
            let new_gen = self.records[slot as usize].generation + 1;
            self.records.set(
                slot as usize,
                Record { generation: new_gen, birth, payload: Some(value) },
            );
            let h = Handle { index: slot, generation: new_gen };
            proof {
                assert(pre.free_slots@.last() == slot);
                assert(!pre.contains(h));
                assert forall|g: Handle| pre.contains(g) implies self.contains(g) && self.at(g)
                    == pre.at(g) && self.birth_of(g) == pre.birth_of(g) by {
                    assert(pre.records@[slot as int].payload is None);
                    assert(g.index != slot);
                }
                assert(self.wf());
            }
            h
        } else {
            let idx: u32 = self.records.len() as u32;
            self.records.push(Record { generation: 1, birth, payload: Some(value) });
            let h = Handle { index: idx, generation: 1 };
            proof {
                assert(!pre.contains(h));
                // When a slot's generation tag is exhausted it stays retired.
                assert(self.wf());
                assert forall|g: Handle| pre.contains(g) implies self.contains(g) && self.at(g)
                    == pre.at(g) && self.birth_of(g) == pre.birth_of(g) by {
                    assert((g.index as int) < pre.records@.len());
                }
            }
            h
        }
    }

    /// Retires the value `h` resolves to.  Returns whether anything was
    /// removed; every other handle is untouched, and `h` never resolves
    /// again.
    pub fn free(&mut self, h: Handle) -> (removed: bool)
        requires
            old(self).wf(),
        ensures
            final(self).wf(),
            removed == old(self).contains(h),
            !final(self).contains(h),
            !old(self).contains(h) ==> *final(self) == *old(self),
            old(self).contains(h) ==> final(self).gone(h),
            forall|g: Handle| old(self).gone(g) ==> final(self).gone(g),
            final(self).slot_count() == old(self).slot_count(),
            forall|g: Handle|
                g != h ==> (final(self).contains(g) == old(self).contains(g)) && (old(
                    self,
                ).contains(g) ==> final(self).at(g) == old(self).at(g) && final(self).birth_of(g)
                    == old(self).birth_of(g)),
    {
        let ghost pre = *self;
        if !self.is_valid(h) {
            return false;
        }
        let idx = h.index as usize;
        let gen = self.records[idx].generation;
        let birth: Ghost<nat> = Ghost(self.records@[idx as int].birth@);
        self.records.set(idx, Record { generation: gen, birth, payload: None });
        self.free_slots.push(h.index);
        proof {
            assert forall|i: int|
                0 <= i < self.free_slots@.len() implies (#[trigger] self.free_slots@[i] as int)
                < self.records@.len() && self.records@[self.free_slots@[i] as int].payload
                is None by {
                if i < pre.free_slots@.len() {
                    assert(pre.records@[pre.free_slots@[i] as int].payload is None);
                    assert(pre.free_slots@[i] != h.index);
                }
            }
            assert forall|i: int, j: int|
                0 <= i < j < self.free_slots@.len() implies self.free_slots@[i]
                != self.free_slots@[j] by {
                if j == pre.free_slots@.len() as int {
                    assert(pre.records@[pre.free_slots@[i] as int].payload is None);
                }
            }
            assert(self.wf());
            assert forall|g: Handle| g != h implies (self.contains(g) == pre.contains(g)) && (
            pre.contains(g) ==> self.at(g) == pre.at(g) && self.birth_of(g) == pre.birth_of(
                g,
            )) by {
                if g.index == h.index && pre.contains(g) {
                    assert(g.generation == pre.records@[g.index as int].generation);
                }
            }
        }
        true
    }

    /// A shared borrow of the value `h` resolves to.
    pub fn borrow(&self, h: Handle) -> (r: &T)
        requires
            self.contains(h),
        ensures
            *r == self.at(h),
    {
        let idx = h.index as usize;
        match &self.records[idx].payload {
            Some(v) => v,
            None => vstd::pervasive::unreached(),
        }
    }

    /// A shared borrow of the value `h` resolves to, if it does.
    pub fn try_borrow(&self, h: Handle) -> (r: Option<&T>)
        ensures
            match r {
                Some(v) => self.contains(h) && *v == self.at(h),
                None => !self.contains(h),
            },
    {
        if self.is_valid(h) {
            Some(self.borrow(h))
        } else {
            None
        }
    }

    /// Replaces the value `h` resolves to; its handle, birth stamp and every
    /// other slot stay as they were.
    pub fn set(&mut self, h: Handle, value: T)
        requires
            old(self).wf(),
            old(self).contains(h),
        ensures
            final(self).wf(),
            final(self).contains(h),
            final(self).at(h) == value,
            final(self).slot_count() == old(self).slot_count(),
            final(self).birth_of(h) == old(self).birth_of(h),
            forall|g: Handle| final(self).gone(g) == old(self).gone(g),
            forall|g: Handle|
                (final(self).contains(g) == old(self).contains(g)) && final(self).birth_of(g)
                    == old(self).birth_of(g),
            forall|g: Handle|
                g != h && old(self).contains(g) ==> final(self).at(g) == old(self).at(g),
    {
        let ghost pre = *self;
        let idx = h.index as usize;
        let gen = self.records[idx].generation;
        let birth: Ghost<nat> = Ghost(self.records@[idx as int].birth@);
        self.records.set(idx, Record { generation: gen, birth, payload: Some(value) });
        proof {
            assert forall|i: int|
                0 <= i < self.free_slots@.len() implies (#[trigger] self.free_slots@[i] as int)
                < self.records@.len() && self.records@[self.free_slots@[i] as int].payload
                is None by {
                assert(pre.records@[pre.free_slots@[i] as int].payload is None);
                assert(pre.free_slots@[i] != h.index);
            }
            assert(self.wf());
            assert forall|g: Handle| (self.contains(g) == pre.contains(g)) && self.birth_of(g)
                == pre.birth_of(g) by {
                if g.index == h.index {
                    assert(self.records@[g.index as int].generation == gen);
                }
            }
        }
    }
}

} // verus!
