//! Append-only storage whose deleted entries leave a tombstone behind.

use vstd::prelude::*;

verus! {

/// The slot numbers of the live entries of `s`, in allocation order.
pub open spec fn live_slots<T>(s: Seq<Option<T>>) -> Seq<usize>
    decreases s.len(),
{
    if s.len() == 0 {
        seq![]
    } else {
        let rest = live_slots(s.drop_last());
        if s.last() is Some {
            rest.push((s.len() - 1) as usize)
        } else {
            rest
        }
    }
}

/// Every slot ever allocated, live (`Some`) or deleted (`None`).
pub struct TombstoneArena<T> {
    slots: Vec<Option<T>>,
}

impl<T> View for TombstoneArena<T> {
    type V = Seq<Option<T>>;

    closed spec fn view(&self) -> Seq<Option<T>> {
        self.slots@
    }
}

impl<T> TombstoneArena<T> {
    pub open spec fn is_live(&self, i: usize) -> bool {
        i < self@.len() && self@[i as int] is Some
    }

    pub fn new() -> (r: Self)
        ensures
            r@ == Seq::<Option<T>>::empty(),
    {
        TombstoneArena { slots: Vec::new() }
    }

    /// The slot that the next `allocate` fills.
    pub fn next_id(&self) -> (r: usize)
        ensures
            r == self@.len(),
    {
        self.slots.len()
    }

    /// Stores `value` in a fresh slot and returns the slot.
    pub fn allocate(&mut self, value: T) -> (r: usize)
        requires
            old(self)@.len() < usize::MAX,
        ensures
            r == old(self)@.len(),
            final(self)@ == old(self)@.push(Some(value)),
    {
        let r = self.slots.len();
        self.slots.push(Some(value));
        r
    }

    /// The entry in slot `i`, unless it was deleted or never allocated.
    pub fn get(&self, i: usize) -> (r: Option<&T>)
        ensures
            self.is_live(i) ==> r == Some(&self@[i as int]->Some_0),
            !self.is_live(i) ==> r is None,
    {
        if i < self.slots.len() {
            self.slots[i].as_ref()
        } else {
            None
        }
    }

    /// Mutable access to the entry in slot `i`, unless it was deleted or
    /// never allocated.
    pub fn get_mut(&mut self, i: usize) -> (r: Option<&mut T>)
        ensures
            old(self).is_live(i) ==> r is Some && *r->Some_0 == old(self)@[i as int]->Some_0
                && final(self)@ == old(self)@.update(i as int, Some(*final(r->Some_0))),
            !old(self).is_live(i) ==> r is None && final(self)@ == old(self)@,
    {
        if i < self.slots.len() {
            self.slots[i].as_mut()
        } else {
            None
        }
    }

    /// Deletes the entry in slot `i`; the slot stays allocated and empty.
    pub fn delete(&mut self, i: usize)
        ensures
            i < old(self)@.len() ==> final(self)@ == old(self)@.update(i as int, None),
            i >= old(self)@.len() ==> final(self)@ == old(self)@,
    {
        if i < self.slots.len() {
            self.slots.set(i, None);
        }
    }

    /// The slots of the live entries, in allocation order.
    pub fn live(&self) -> (r: Vec<usize>)
        ensures
            r@ == live_slots(self@),
    {
        let mut r: Vec<usize> = Vec::new();
        let mut i: usize = 0;
        while i < self.slots.len()
            invariant
                i <= self.slots@.len(),
                r@ == live_slots(self.slots@.subrange(0, i as int)),
            decreases self.slots@.len() - i,
        {
            assert(self.slots@.subrange(0, i + 1).drop_last() =~= self.slots@.subrange(0, i as int));
            if self.slots[i].is_some() {
                r.push(i);
            }
            i += 1;
        }
        assert(self.slots@.subrange(0, i as int) =~= self.slots@);
        r
    }
}

/// Each live slot is in range and holds an entry.
pub proof fn lemma_live_slots_in_range<T>(s: Seq<Option<T>>)
    requires
        s.len() <= usize::MAX,
    ensures
        forall|j: int| 0 <= j < live_slots(s).len() ==> (#[trigger] live_slots(s)[j]) < s.len() && s[live_slots(s)[j] as int] is Some,
    decreases s.len(),
{
    if s.len() > 0 {
        let p = s.drop_last();
        lemma_live_slots_in_range(p);
        assert forall|j: int| 0 <= j < live_slots(s).len() implies (#[trigger] live_slots(s)[j]) < s.len() && s[live_slots(s)[j] as int] is Some by {
            if j < live_slots(p).len() {
                assert(live_slots(s)[j] == live_slots(p)[j]);
                assert(s[live_slots(p)[j] as int] == p[live_slots(p)[j] as int]);
            } else {
                assert(s.last() is Some);
                assert(live_slots(s)[j] == s.len() - 1);
            }
        }
    }
}

} // verus!
