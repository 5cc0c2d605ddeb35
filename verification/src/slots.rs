//! A dense array of slots with a free list.

use vstd::prelude::*;

verus! {

/// Values in numbered slots. A slot that was freed last is reused first, and
/// the array grows only when no slot is free.
#[derive(Debug)]
pub struct SlotArray<T> {
    slots: Vec<Option<T>>,
    free: Vec<usize>,
}

/// The free list names exactly the empty slots, each once.
pub open spec fn slots_wf<T>(entries: Seq<Option<T>>, free: Seq<usize>) -> bool {
    &&& free.no_duplicates()
    &&& forall|k: int|
        #![trigger free[k]]
        0 <= k < free.len() ==> free[k] < entries.len() && entries[free[k] as int] is None
    &&& forall|s: int|
        #![trigger entries[s]]
        0 <= s < entries.len() && entries[s] is None ==> free.contains(s as usize)
    &&& entries.len() <= usize::MAX
}

/// The slot that the next value goes to.
pub open spec fn next_slot<T>(entries: Seq<Option<T>>, free: Seq<usize>) -> int {
    if free.len() > 0 {
        free.last() as int
    } else {
        entries.len() as int
    }
}

/// The slots after `value` went to the next slot.
pub open spec fn entries_after_insert<T>(
    entries: Seq<Option<T>>,
    free: Seq<usize>,
    value: T,
) -> Seq<Option<T>> {
    if free.len() > 0 {
        entries.update(free.last() as int, Some(value))
    } else {
        entries.push(Some(value))
    }
}

/// The free list after a value went to the next slot.
pub open spec fn free_after_insert(free: Seq<usize>) -> Seq<usize> {
    if free.len() > 0 {
        free.drop_last()
    } else {
        free
    }
}

/// Slot `s` holds a value.
pub open spec fn occupied<T>(entries: Seq<Option<T>>, s: int) -> bool {
    0 <= s < entries.len() && entries[s] is Some
}

/// The numbers of the slots that hold a value.
pub open spec fn occupied_slots<T>(entries: Seq<Option<T>>) -> Set<int> {
    vstd::set_lib::set_int_range(0, entries.len() as int).filter(|s: int| entries[s] is Some)
}

/// A slot holds a value or is on the free list, never both.
pub proof fn lemma_occupied_count<T>(entries: Seq<Option<T>>, free: Seq<usize>)
    requires
        slots_wf(entries, free),
    ensures
        occupied_slots(entries).finite(),
        occupied_slots(entries).len() + free.len() == entries.len(),
{
    let range = vstd::set_lib::set_int_range(0, entries.len() as int);
    let empty = free.map_values(|s: usize| s as int);
    vstd::set_lib::lemma_int_range(0, entries.len() as int);
    range.lemma_len_filter(|s: int| entries[s] is Some);
    assert(empty.no_duplicates());
    empty.unique_seq_to_set();
    assert(occupied_slots(entries).disjoint(empty.to_set())) by {
        assert forall|s: int| occupied_slots(entries).contains(s) implies !empty.to_set().contains(
            s,
        ) by {
            if empty.contains(s) {
                let k = choose|k: int| 0 <= k < empty.len() && empty[k] == s;
                assert(entries[free[k] as int] is None);
            }
        }
    }
    assert(range =~= occupied_slots(entries) + empty.to_set()) by {
        assert forall|s: int| range.contains(s) implies (occupied_slots(entries)
            + empty.to_set()).contains(s) by {
            if entries[s] is None {
                assert(free.contains(s as usize));
                let k = choose|k: int| 0 <= k < free.len() && free[k] == s as usize;
                assert(empty[k] == s);
            }
        }
        assert forall|s: int| (occupied_slots(entries) + empty.to_set()).contains(
            s,
        ) implies range.contains(s) by {
            if empty.contains(s) {
                let k = choose|k: int| 0 <= k < empty.len() && empty[k] == s;
                assert(free[k] < entries.len());
            }
        }
    }
    vstd::set_lib::lemma_set_disjoint_lens(occupied_slots(entries), empty.to_set());
}

impl<T> SlotArray<T> {
    /// What each slot holds.
    pub closed spec fn entries(self) -> Seq<Option<T>> {
        self.slots@
    }

    /// The empty slots; the last one is reused first.
    pub closed spec fn free_list(self) -> Seq<usize> {
        self.free@
    }

    /// The free list is right.
    pub open spec fn wf(self) -> bool {
        slots_wf(self.entries(), self.free_list())
    }

    /// No slots, with room for `capacity` of them.
    pub fn with_capacity(capacity: usize) -> (array: SlotArray<T>)
        ensures
            array.wf(),
            array.entries() == Seq::<Option<T>>::empty(),
            array.free_list() == Seq::<usize>::empty(),
    {
        SlotArray { slots: Vec::with_capacity(capacity), free: Vec::with_capacity(capacity) }
    }

    /// Stores `value` and returns the number of its slot.
    pub fn insert(&mut self, value: T) -> (slot: usize)
        requires
            old(self).wf(),
        ensures
            final(self).wf(),
            slot == next_slot(old(self).entries(), old(self).free_list()),
            final(self).entries() == entries_after_insert(
                old(self).entries(),
                old(self).free_list(),
                value,
            ),
            final(self).free_list() == free_after_insert(old(self).free_list()),
            !occupied(old(self).entries(), slot as int),
            occupied(final(self).entries(), slot as int),
            final(self).entries()[slot as int] == Some(value),
    {
        let ghost before = self.free@;
        let ghost entries = self.slots@;
        match self.free.pop() {
            Some(slot) => {
                assert(before[before.len() - 1] == slot);
                assert(self.free@ =~= before.drop_last());
                self.slots[slot] = Some(value);
                proof {
                    assert forall|s: int| 0 <= s < self.slots@.len() && (
                    #[trigger] self.slots@[s]) is None implies self.free@.contains(s as usize) by {
                        assert(entries[s] is None);
                        let k = choose|k: int| 0 <= k < before.len() && before[k] == s as usize;
                        assert(k < before.len() - 1);
                        assert(self.free@[k] == s as usize);
                    }
                    assert forall|k: int| 0 <= k < self.free@.len() implies (
                    #[trigger] self.free@[k]) < self.slots@.len()
                        && self.slots@[self.free@[k] as int] is None by {
                        assert(before[k] != before[before.len() - 1]);
                        assert(self.free@[k] == before[k]);
                    }
                }
                slot
            },
            None => {
                self.slots.push(Some(value));
                proof {
                    assert forall|s: int| 0 <= s < self.slots@.len() && (
                    #[trigger] self.slots@[s]) is None implies self.free@.contains(s as usize) by {
                        assert(entries[s] is None);
                    }
                }
                self.slots.len() - 1
            },
        }
    }

    /// Empties slot `slot` and returns what it held.
    pub fn take(&mut self, slot: usize) -> (taken: Option<T>)
        requires
            old(self).wf(),
        ensures
            final(self).wf(),
            taken == (if occupied(old(self).entries(), slot as int) {
                old(self).entries()[slot as int]
            } else {
                None
            }),
            final(self).entries() == (if taken is Some {
                old(self).entries().update(slot as int, None)
            } else {
                old(self).entries()
            }),
            final(self).free_list() == (if taken is Some {
                old(self).free_list().push(slot)
            } else {
                old(self).free_list()
            }),
    {
        if slot >= self.slots.len() {
            return None;
        }
        let ghost before = self.free@;
        let ghost entries = self.slots@;
        let taken = self.slots[slot].take();
        if taken.is_some() {
            self.free.push(slot);
            proof {
                assert(self.slots@ =~= entries.update(slot as int, None));
                assert(!before.contains(slot)) by {
                    if before.contains(slot) {
                        let k = choose|k: int| 0 <= k < before.len() && before[k] == slot;
                        assert(entries[before[k] as int] is None);
                    }
                }
                assert forall|s: int| 0 <= s < self.slots@.len() && (
                #[trigger] self.slots@[s]) is None implies self.free@.contains(s as usize) by {
                    if s == slot {
                        assert(self.free@[before.len() as int] == slot);
                    } else {
                        assert(entries[s] is None);
                        let k = choose|k: int| 0 <= k < before.len() && before[k] == s as usize;
                        assert(self.free@[k] == s as usize);
                    }
                }
                assert forall|k: int| 0 <= k < self.free@.len() implies (#[trigger] self.free@[k])
                    < self.slots@.len() && self.slots@[self.free@[k] as int] is None by {
                    if k < before.len() {
                        assert(self.free@[k] == before[k]);
                    }
                }
            }
        } else {
            assert(self.slots@ =~= entries);
        }
        taken
    }

    /// Looks at what slot `slot` holds.
    pub fn get(&self, slot: usize) -> (found: Option<&T>)
        ensures
            occupied(self.entries(), slot as int) ==> found == Some(
                &self.entries()[slot as int]->0,
            ),
            !occupied(self.entries(), slot as int) ==> found is None,
    {
        if slot < self.slots.len() {
            self.slots[slot].as_ref()
        } else {
            None
        }
    }

    /// The number of slots that hold a value.
    pub fn len(&self) -> (count: usize)
        requires
            self.wf(),
        ensures
            count == occupied_slots(self.entries()).len(),
            count == self.entries().len() - self.free_list().len(),
    {
        proof {
            lemma_occupied_count(self.slots@, self.free@);
        }
        self.slots.len() - self.free.len()
    }

    /// The number of slots, full or empty.
    pub fn slot_count(&self) -> (count: usize)
        ensures
            count == self.entries().len(),
    {
        self.slots.len()
    }

    /// Tells whether some slot is empty.
    pub fn has_free(&self) -> (free: bool)
        ensures
            free == (self.free_list().len() > 0),
    {
        self.free.len() > 0
    }
}

/// A value goes to the slot that was freed last, or to a new one at the end if
/// none is free, and every other slot stays as it is.
pub proof fn law_value_goes_to_the_next_slot<T>(
    entries: Seq<Option<T>>,
    free: Seq<usize>,
    value: T,
    s: int,
)
    requires
        slots_wf(entries, free),
    ensures
        ({
            let slot = next_slot(entries, free);
            let after = entries_after_insert(entries, free, value);
            &&& free.len() > 0 ==> slot == free[free.len() - 1] && after.len() == entries.len()
                && free_after_insert(free) == free.take(free.len() - 1)
            &&& free.len() == 0 ==> slot == entries.len() && after.len() == entries.len() + 1
                && free_after_insert(free).len() == 0
            &&& 0 <= slot < after.len()
            &&& after[slot] == Some(value)
            &&& 0 <= s < entries.len() && s != slot ==> after[s] == entries[s]
            &&& occupied(entries, s) <==> 0 <= s < entries.len() && entries[s] is Some
        }),
{
    if free.len() > 0 {
        assert(free_after_insert(free) =~= free.take(free.len() - 1));
        assert(free[free.len() - 1] < entries.len());
    }
}

} // verus!
