//! Registries of the tasks that are running.

use std::sync::Arc;
use vstd::prelude::*;

use crate::slots;
use crate::slots::SlotArray;
use crate::task::{LabelSet, TaskCore};
use crate::token;
use crate::token::{TokenRecord, TokenTable};

verus! {

/// What the slots of a registry hold.
pub type CoreSlots = Seq<Option<Arc<TaskCore>>>;

/// The cores in `entries` that satisfy `keep`, in slot order.
pub open spec fn picked(entries: CoreSlots, keep: spec_fn(Arc<TaskCore>) -> bool) -> Seq<
    Arc<TaskCore>,
>
    decreases entries.len(),
{
    if entries.len() == 0 {
        Seq::empty()
    } else {
        let rest = picked(entries.drop_last(), keep);
        match entries.last() {
            Some(core) => if keep(core) {
                rest.push(core)
            } else {
                rest
            },
            None => rest,
        }
    }
}

/// The task carries at least one of `labels`.
pub open spec fn carries(core: Arc<TaskCore>, labels: Set<Seq<char>>) -> bool {
    !core.texts().disjoint(labels)
}

/// The task is not done yet.
pub open spec fn unfinished(core: Arc<TaskCore>, tokens: Map<u64, TokenRecord>) -> bool {
    !token::token_finished(tokens, core.id())
}

/// The slots after every finished task was dropped.
pub open spec fn swept(entries: CoreSlots, tokens: Map<u64, TokenRecord>) -> CoreSlots {
    entries.map_values(
        |entry: Option<Arc<TaskCore>>|
            match entry {
                Some(core) => if unfinished(core, tokens) {
                    Some(core)
                } else {
                    None
                },
                None => None,
            },
    )
}

/// The slots of finished tasks, ascending.
pub open spec fn reclaimable(entries: CoreSlots, tokens: Map<u64, TokenRecord>) -> Seq<usize>
    decreases entries.len(),
{
    if entries.len() == 0 {
        Seq::empty()
    } else {
        let rest = reclaimable(entries.drop_last(), tokens);
        match entries.last() {
            Some(core) => if unfinished(core, tokens) {
                rest
            } else {
                rest.push((entries.len() - 1) as usize)
            },
            None => rest,
        }
    }
}

/// The numbers of the tasks with control blocks `cores`, in order.
pub open spec fn core_ids(cores: Seq<Arc<TaskCore>>) -> Seq<u64> {
    cores.map_values(|core: Arc<TaskCore>| core.id())
}

/// A core is picked exactly if it stands in a slot and is to be kept.
pub proof fn lemma_picked(entries: CoreSlots, keep: spec_fn(Arc<TaskCore>) -> bool, core: Arc<TaskCore>)
    ensures
        picked(entries, keep).contains(core) <==> keep(core) && exists|s: int|
            0 <= s < entries.len() && #[trigger] entries[s] == Some(core),
    decreases entries.len(),
{
    if entries.len() > 0 {
        let head = entries.drop_last();
        let rest = picked(head, keep);
        let all = picked(entries, keep);
        lemma_picked(head, keep, core);
        if rest.contains(core) {
            let s = choose|s: int| 0 <= s < head.len() && #[trigger] head[s] == Some(core);
            assert(entries[s] == Some(core));
            let k = choose|k: int| 0 <= k < rest.len() && rest[k] == core;
            assert(all[k] == core);
        }
        if entries.last() == Some(core) && keep(core) {
            assert(all[rest.len() as int] == core);
            assert(entries[entries.len() - 1] == Some(core));
        }
        if keep(core) && exists|s: int| 0 <= s < entries.len() && #[trigger] entries[s] == Some(core) {
            let s = choose|s: int| 0 <= s < entries.len() && #[trigger] entries[s] == Some(core);
            if s < head.len() {
                assert(head[s] == Some(core));
            }
        }
        if all.contains(core) {
            let k = choose|k: int| 0 <= k < all.len() && all[k] == core;
            if k < rest.len() {
                assert(rest[k] == core);
            }
        }
    }
}

proof fn lemma_picked_step(entries: CoreSlots, keep: spec_fn(Arc<TaskCore>) -> bool, n: int)
    requires
        0 <= n < entries.len(),
    ensures
        picked(entries.take(n + 1), keep) == (match entries[n] {
            Some(core) => if keep(core) {
                picked(entries.take(n), keep).push(core)
            } else {
                picked(entries.take(n), keep)
            },
            None => picked(entries.take(n), keep),
        }),
{
    assert(entries.take(n + 1).drop_last() =~= entries.take(n));
}

/// The tasks currently executing, held in a dense slot array rather than a map.
///
/// Each task is handed the index of its own slot. A task's slot is released
/// after its concurrency permit, so occupancy can briefly exceed the
/// concurrency limit and the array grows to that high-water mark.
#[derive(Debug)]
pub struct ActiveSlots {
    array: SlotArray<Arc<TaskCore>>,
}

impl ActiveSlots {
    /// What each slot holds.
    pub closed spec fn entries(self) -> CoreSlots {
        self.array.entries()
    }

    /// The empty slots; the last one is reused first.
    pub closed spec fn free_list(self) -> Seq<usize> {
        self.array.free_list()
    }

    /// The free list names exactly the empty slots.
    pub open spec fn wf(self) -> bool {
        slots::slots_wf(self.entries(), self.free_list())
    }

    /// An empty registry with room for `capacity` tasks.
    pub fn with_capacity(capacity: usize) -> (active: ActiveSlots)
        ensures
            active.wf(),
            active.entries() == Seq::<Option<Arc<TaskCore>>>::empty(),
            active.free_list() == Seq::<usize>::empty(),
    {
        ActiveSlots { array: SlotArray::with_capacity(capacity) }
    }

    /// Adds a task and returns its slot.
    pub fn insert(&mut self, core: Arc<TaskCore>) -> (slot: usize)
        requires
            old(self).wf(),
        ensures
            final(self).wf(),
            slot == slots::next_slot(old(self).entries(), old(self).free_list()),
            final(self).entries() == slots::entries_after_insert(
                old(self).entries(),
                old(self).free_list(),
                core,
            ),
            final(self).free_list() == slots::free_after_insert(old(self).free_list()),
            !slots::occupied(old(self).entries(), slot as int),
            slots::occupied(final(self).entries(), slot as int),
            final(self).entries()[slot as int] == Some(core),
    {
        self.array.insert(core)
    }

    /// Removes the task in `slot`. Does nothing where the slot is empty or does
    /// not exist.
    pub fn remove(&mut self, slot: usize)
        requires
            old(self).wf(),
        ensures
            final(self).wf(),
            slots::occupied(old(self).entries(), slot as int) ==> final(self).entries() == old(
                self,
            ).entries().update(slot as int, None) && final(self).free_list() == old(
                self,
            ).free_list().push(slot),
            !slots::occupied(old(self).entries(), slot as int) ==> final(self).entries() == old(
                self,
            ).entries() && final(self).free_list() == old(self).free_list(),
    {
        let _ = self.array.take(slot);
    }

    /// The number of tasks in the registry.
    pub fn len(&self) -> (count: usize)
        requires
            self.wf(),
        ensures
            count == slots::occupied_slots(self.entries()).len(),
            count == self.entries().len() - self.free_list().len(),
    {
        self.array.len()
    }

    /// The number of slots, full or empty.
    pub fn slot_count(&self) -> (count: usize)
        ensures
            count == self.entries().len(),
    {
        self.array.slot_count()
    }

    /// Tells whether some slot is empty.
    pub fn has_free(&self) -> (free: bool)
        ensures
            free == (self.free_list().len() > 0),
    {
        self.array.has_free()
    }

    /// All tasks in the registry, in slot order.
    pub fn all_tokens(&self) -> (cores: Vec<Arc<TaskCore>>)
        ensures
            cores@ == picked(self.entries(), |core: Arc<TaskCore>| true),
    {
        let mut cores: Vec<Arc<TaskCore>> = Vec::new();
        let ghost keep = |core: Arc<TaskCore>| true;
        let mut i: usize = 0;
        while i < self.array.slot_count()
            invariant
                i <= self.entries().len(),
                keep == (|core: Arc<TaskCore>| true),
                cores@ == picked(self.entries().take(i as int), keep),
            decreases self.entries().len() - i,
        {
            proof {
                lemma_picked_step(self.entries(), keep, i as int);
            }
            if let Some(core) = self.array.get(i) {
                cores.push(core.clone());
            }
            i = i + 1;
        }
        assert(self.entries().take(i as int) =~= self.entries());
        cores
    }

    /// The tasks that carry at least one of `labels`, in slot order.
    pub fn tokens_matching(&self, labels: &LabelSet) -> (cores: Vec<Arc<TaskCore>>)
        ensures
            cores@ == picked(self.entries(), |core: Arc<TaskCore>| carries(core, labels@)),
    {
        let mut cores: Vec<Arc<TaskCore>> = Vec::new();
        let ghost keep = |core: Arc<TaskCore>| carries(core, labels@);
        let mut i: usize = 0;
        while i < self.array.slot_count()
            invariant
                i <= self.entries().len(),
                keep == (|core: Arc<TaskCore>| carries(core, labels@)),
                cores@ == picked(self.entries().take(i as int), keep),
            decreases self.entries().len() - i,
        {
            proof {
                lemma_picked_step(self.entries(), keep, i as int);
            }
            if let Some(core) = self.array.get(i) {
                if !core.labels().is_disjoint(labels) {
                    cores.push(core.clone());
                }
            }
            i = i + 1;
        }
        assert(self.entries().take(i as int) =~= self.entries());
        cores
    }

    /// Empties the slots of all finished tasks.
    pub fn sweep_finished(&mut self, tokens: &TokenTable)
        requires
            old(self).wf(),
        ensures
            final(self).wf(),
            final(self).entries() == swept(old(self).entries(), tokens@),
            final(self).free_list() == old(self).free_list() + reclaimable(
                old(self).entries(),
                tokens@,
            ),
    {
        let ghost before = self.entries();
        let ghost free = self.free_list();
        let mut i: usize = 0;
        assert(reclaimable(before.take(0), tokens@) =~= Seq::<usize>::empty());
        assert(self.free_list() =~= free + reclaimable(before.take(0), tokens@));
        while i < self.array.slot_count()
            invariant
                self.wf(),
                i <= before.len(),
                self.entries().len() == before.len(),
                before.len() <= usize::MAX,
                forall|s: int|
                    #![trigger self.entries()[s]]
                    i <= s < before.len() ==> self.entries()[s] == before[s],
                forall|s: int|
                    #![trigger self.entries()[s]]
                    0 <= s < i ==> self.entries()[s] == swept(before, tokens@)[s],
                self.free_list() == free + reclaimable(before.take(i as int), tokens@),
            decreases before.len() - i,
        {
            let finished = match self.array.get(i) {
                Some(core) => tokens.is_finished(core.task_id()),
                None => false,
            };
            proof {
                assert(before.take(i + 1).drop_last() =~= before.take(i as int));
                assert(self.entries()[i as int] == before[i as int]);
            }
            if finished {
                let _ = self.array.take(i);
            }
            proof {
                assert(self.free_list() =~= free + reclaimable(before.take(i + 1), tokens@));
            }
            i = i + 1;
        }
        assert(before.take(i as int) =~= before);
        assert(self.entries() =~= swept(before, tokens@));
    }
}

/// The slots of a deferred registry after `core` was added.
pub open spec fn deferred_entries_after_insert(
    entries: CoreSlots,
    free: Seq<usize>,
    tokens: Map<u64, TokenRecord>,
    core: Arc<TaskCore>,
) -> CoreSlots {
    if free.len() == 0 {
        slots::entries_after_insert(swept(entries, tokens), reclaimable(entries, tokens), core)
    } else {
        slots::entries_after_insert(entries, free, core)
    }
}

/// The free list of a deferred registry after a task was added.
pub open spec fn deferred_free_after_insert(
    entries: CoreSlots,
    free: Seq<usize>,
    tokens: Map<u64, TokenRecord>,
) -> Seq<usize> {
    if free.len() == 0 {
        slots::free_after_insert(reclaimable(entries, tokens))
    } else {
        slots::free_after_insert(free)
    }
}

/// `count` one higher, as a machine word counts.
pub open spec fn counted_up(count: usize) -> usize {
    if count == usize::MAX {
        0
    } else {
        (count + 1) as usize
    }
}

/// `count` one lower, as a machine word counts.
pub open spec fn counted_down(count: usize) -> usize {
    if count == 0 {
        usize::MAX
    } else {
        (count - 1) as usize
    }
}

/// Registry with removal deferred to the next insertion.
///
/// A finishing task is marked finished and counted out of the tasks in flight;
/// the next insertion reclaims finished slots in bulk when no slot is free. The
/// slots can lag behind by holding finished entries until then, so every reader
/// of the entries skips finished ones.
#[derive(Debug)]
pub struct DeferredRegistry {
    in_flight: usize,
    slots: ActiveSlots,
}

impl DeferredRegistry {
    /// What each slot holds, finished tasks that were not reclaimed yet among them.
    pub closed spec fn entries(self) -> CoreSlots {
        self.slots.entries()
    }

    /// The empty slots; the last one is reused first.
    pub closed spec fn free_list(self) -> Seq<usize> {
        self.slots.free_list()
    }

    /// The number of tasks that were added and not counted out yet.
    pub closed spec fn spec_in_flight(self) -> usize {
        self.in_flight
    }

    /// The free list names exactly the empty slots.
    pub open spec fn wf(self) -> bool {
        slots::slots_wf(self.entries(), self.free_list())
    }

    /// An empty registry with room for `capacity` tasks.
    pub fn with_capacity(capacity: usize) -> (registry: DeferredRegistry)
        ensures
            registry.wf(),
            registry.spec_in_flight() == 0,
            registry.entries() == Seq::<Option<Arc<TaskCore>>>::empty(),
            registry.free_list() == Seq::<usize>::empty(),
    {
        DeferredRegistry { in_flight: 0, slots: ActiveSlots::with_capacity(capacity) }
    }

    /// Adds a task. Where no slot is free, the slots of finished tasks are
    /// reclaimed first, so the array grows only while every slot holds an
    /// unfinished task.
    pub fn insert(&mut self, core: Arc<TaskCore>, tokens: &TokenTable)
        requires
            old(self).wf(),
        ensures
            final(self).wf(),
            final(self).spec_in_flight() == counted_up(old(self).spec_in_flight()),
            final(self).entries() == deferred_entries_after_insert(
                old(self).entries(),
                old(self).free_list(),
                tokens@,
                core,
            ),
            final(self).free_list() == deferred_free_after_insert(
                old(self).entries(),
                old(self).free_list(),
                tokens@,
            ),
    {
        self.in_flight = self.in_flight.wrapping_add(1);
        if !self.slots.has_free() {
            self.slots.sweep_finished(tokens);
            assert(self.slots.free_list() =~= reclaimable(old(self).entries(), tokens@));
        }
        let _ = self.slots.insert(core);
    }

    /// Counts a task out. Call after the task was marked finished.
    pub fn finish(&mut self)
        ensures
            final(self).spec_in_flight() == counted_down(old(self).spec_in_flight()),
            final(self).entries() == old(self).entries(),
            final(self).free_list() == old(self).free_list(),
    {
        self.in_flight = self.in_flight.wrapping_sub(1);
    }

    /// The number of tasks in flight.
    pub fn len(&self) -> (count: usize)
        ensures
            count == self.spec_in_flight(),
    {
        self.in_flight
    }

    /// The number of slots, full or empty.
    pub fn slot_count(&self) -> (count: usize)
        ensures
            count == self.entries().len(),
    {
        self.slots.slot_count()
    }

    /// All unfinished tasks, in slot order.
    pub fn all_tokens(&self, tokens: &TokenTable) -> (cores: Vec<Arc<TaskCore>>)
        ensures
            cores@ == picked(self.entries(), |core: Arc<TaskCore>| unfinished(core, tokens@)),
    {
        let mut cores: Vec<Arc<TaskCore>> = Vec::new();
        let ghost keep = |core: Arc<TaskCore>| unfinished(core, tokens@);
        let mut i: usize = 0;
        while i < self.slots.array.slot_count()
            invariant
                i <= self.entries().len(),
                keep == (|core: Arc<TaskCore>| unfinished(core, tokens@)),
                cores@ == picked(self.entries().take(i as int), keep),
            decreases self.entries().len() - i,
        {
            proof {
                lemma_picked_step(self.entries(), keep, i as int);
            }
            if let Some(core) = self.slots.array.get(i) {
                if !tokens.is_finished(core.task_id()) {
                    cores.push(core.clone());
                }
            }
            i = i + 1;
        }
        assert(self.entries().take(i as int) =~= self.entries());
        cores
    }

    /// The unfinished tasks that carry at least one of `labels`, in slot order.
    pub fn tokens_matching(&self, labels: &LabelSet, tokens: &TokenTable) -> (cores: Vec<
        Arc<TaskCore>,
    >)
        ensures
            cores@ == picked(
                self.entries(),
                |core: Arc<TaskCore>| unfinished(core, tokens@) && carries(core, labels@),
            ),
    {
        let mut cores: Vec<Arc<TaskCore>> = Vec::new();
        let ghost keep = |core: Arc<TaskCore>| unfinished(core, tokens@) && carries(core, labels@);
        let mut i: usize = 0;
        while i < self.slots.array.slot_count()
            invariant
                i <= self.entries().len(),
                keep == (|core: Arc<TaskCore>| unfinished(core, tokens@) && carries(core, labels@)),
                cores@ == picked(self.entries().take(i as int), keep),
            decreases self.entries().len() - i,
        {
            proof {
                lemma_picked_step(self.entries(), keep, i as int);
            }
            if let Some(core) = self.slots.array.get(i) {
                if !tokens.is_finished(core.task_id()) && !core.labels().is_disjoint(labels) {
                    cores.push(core.clone());
                }
            }
            i = i + 1;
        }
        assert(self.entries().take(i as int) =~= self.entries());
        cores
    }
}

/// A slot that was freed is the next one to be used.
pub proof fn law_freed_slot_is_reused(entries: CoreSlots, free: Seq<usize>, slot: usize)
    requires
        slots::slots_wf(entries, free),
        slots::occupied(entries, slot as int),
    ensures
        slots::next_slot(entries.update(slot as int, None), free.push(slot)) == slot,
{
}

/// A deferred registry grows only while every slot holds an unfinished task.
pub proof fn law_growth_needs_unfinished_tasks(
    entries: CoreSlots,
    free: Seq<usize>,
    tokens: Map<u64, TokenRecord>,
    core: Arc<TaskCore>,
)
    requires
        slots::slots_wf(entries, free),
        deferred_entries_after_insert(entries, free, tokens, core).len() > entries.len(),
    ensures
        forall|s: int|
            0 <= s < entries.len() ==> (#[trigger] entries[s]) is Some && unfinished(
                entries[s]->0,
                tokens,
            ),
{
    assert forall|s: int| 0 <= s < entries.len() implies (#[trigger] entries[s]) is Some
        && unfinished(entries[s]->0, tokens) by {
        lemma_reclaimable(entries, tokens, s);
        assert(free.len() == 0);
        assert(entries[s] is None ==> free.contains(s as usize));
        assert(swept(entries, tokens).len() == entries.len());
        lemma_reclaimable_bound(entries, tokens);
        let reclaimed = reclaimable(entries, tokens);
        assert(reclaimed.len() > 0 ==> reclaimed[reclaimed.len() - 1] < entries.len());
    }
}

/// A slot is reclaimable exactly if it holds a finished task.
pub proof fn lemma_reclaimable(entries: CoreSlots, tokens: Map<u64, TokenRecord>, s: int)
    requires
        entries.len() <= usize::MAX,
        0 <= s < entries.len(),
    ensures
        reclaimable(entries, tokens).contains(s as usize) <==> entries[s] is Some && !unfinished(
            entries[s]->0,
            tokens,
        ),
    decreases entries.len(),
{
    let head = entries.drop_last();
    let rest = reclaimable(head, tokens);
    let all = reclaimable(entries, tokens);
    lemma_reclaimable_bound(head, tokens);
    if s < head.len() {
        lemma_reclaimable(head, tokens, s);
        if rest.contains(s as usize) {
            let k = choose|k: int| 0 <= k < rest.len() && rest[k] == s as usize;
            assert(all[k] == s as usize);
        }
        if all.contains(s as usize) {
            let k = choose|k: int| 0 <= k < all.len() && all[k] == s as usize;
            assert(rest[k] == s as usize);
        }
    } else {
        if all.len() > rest.len() {
            assert(all[rest.len() as int] == s as usize);
        }
        if all.contains(s as usize) {
            let k = choose|k: int| 0 <= k < all.len() && all[k] == s as usize;
            assert(k < rest.len() ==> rest[k] < head.len());
        }
    }
}

proof fn lemma_reclaimable_bound(entries: CoreSlots, tokens: Map<u64, TokenRecord>)
    requires
        entries.len() <= usize::MAX,
    ensures
        forall|k: int|
            0 <= k < reclaimable(entries, tokens).len() ==> (#[trigger] reclaimable(
                entries,
                tokens,
            )[k]) < entries.len(),
    decreases entries.len(),
{
    if entries.len() > 0 {
        let head = entries.drop_last();
        lemma_reclaimable_bound(head, tokens);
        assert forall|k: int| 0 <= k < reclaimable(entries, tokens).len() implies (
        #[trigger] reclaimable(entries, tokens)[k]) < entries.len() by {
            if k < reclaimable(head, tokens).len() {
                assert(reclaimable(entries, tokens)[k] == reclaimable(head, tokens)[k]);
            }
        }
    }
}

/// Adding a task to a deferred registry loses no unfinished task.
pub proof fn law_insert_keeps_unfinished_tasks(
    entries: CoreSlots,
    free: Seq<usize>,
    tokens: Map<u64, TokenRecord>,
    core: Arc<TaskCore>,
    s: int,
)
    requires
        slots::slots_wf(entries, free),
        slots::occupied(entries, s),
        unfinished(entries[s]->0, tokens),
    ensures
        slots::occupied(deferred_entries_after_insert(entries, free, tokens, core), s),
        deferred_entries_after_insert(entries, free, tokens, core)[s] == entries[s],
{
    let reclaimed = reclaimable(entries, tokens);
    lemma_reclaimable(entries, tokens, s);
    if free.len() > 0 {
        assert(entries[free[free.len() - 1] as int] is None);
    } else if reclaimed.len() > 0 {
        lemma_reclaimable_bound(entries, tokens);
        assert(reclaimed[reclaimed.len() - 1] < entries.len());
        if reclaimed.last() == s {
            assert(reclaimed.contains(s as usize));
        }
    }
}

proof fn lemma_reclaimable_distinct(entries: CoreSlots, tokens: Map<u64, TokenRecord>)
    requires
        entries.len() <= usize::MAX,
    ensures
        reclaimable(entries, tokens).no_duplicates(),
    decreases entries.len(),
{
    if entries.len() > 0 {
        let head = entries.drop_last();
        lemma_reclaimable_distinct(head, tokens);
        lemma_reclaimable_bound(head, tokens);
    }
}

/// Sweeping a full array leaves one whose free list is right.
proof fn lemma_swept_wf(entries: CoreSlots, free: Seq<usize>, tokens: Map<u64, TokenRecord>)
    requires
        slots::slots_wf(entries, free),
        free.len() == 0,
    ensures
        slots::slots_wf(swept(entries, tokens), reclaimable(entries, tokens)),
{
    let after = swept(entries, tokens);
    let reclaimed = reclaimable(entries, tokens);
    lemma_reclaimable_distinct(entries, tokens);
    lemma_reclaimable_bound(entries, tokens);
    assert forall|k: int| #![trigger reclaimed[k]] 0 <= k < reclaimed.len() implies reclaimed[k]
        < after.len() && after[reclaimed[k] as int] is None by {
        lemma_reclaimable(entries, tokens, reclaimed[k] as int);
        assert(reclaimed.contains(reclaimed[k]));
    }
    assert forall|s: int| #![trigger after[s]]
        0 <= s < after.len() && after[s] is None implies reclaimed.contains(s as usize) by {
        lemma_reclaimable(entries, tokens, s);
        assert(entries[s] is None ==> free.contains(s as usize));
    }
}

/// A deferred registry grows by one slot at most.
pub proof fn lemma_deferred_growth(
    entries: CoreSlots,
    free: Seq<usize>,
    tokens: Map<u64, TokenRecord>,
    core: Arc<TaskCore>,
)
    requires
        slots::slots_wf(entries, free),
    ensures
        entries.len() <= deferred_entries_after_insert(entries, free, tokens, core).len()
            <= entries.len() + 1,
{
    let reclaimed = reclaimable(entries, tokens);
    lemma_reclaimable_bound(entries, tokens);
    assert(swept(entries, tokens).len() == entries.len());
    assert(reclaimed.len() > 0 ==> reclaimed[reclaimed.len() - 1] < entries.len());
    assert(free.len() > 0 ==> free[free.len() - 1] < entries.len());
}

/// What adding a task does to a deferred registry: the task is there, no
/// unfinished one is lost, nothing else comes in, and the free list is right.
pub proof fn lemma_deferred_insert(
    entries: CoreSlots,
    free: Seq<usize>,
    tokens: Map<u64, TokenRecord>,
    core: Arc<TaskCore>,
)
    requires
        slots::slots_wf(entries, free),
        deferred_entries_after_insert(entries, free, tokens, core).len() <= usize::MAX,
    ensures
        ({
            let after = deferred_entries_after_insert(entries, free, tokens, core);
            &&& slots::slots_wf(after, deferred_free_after_insert(entries, free, tokens))
            &&& exists|i: int|
                0 <= i < after.len() && #[trigger] after[i] == Some(core) && (forall|j: int|
                    #![trigger after[j]]
                    slots::occupied(after, j) && j != i ==> slots::occupied(entries, j) && after[j]
                        == entries[j])
            &&& forall|j: int|
                #![trigger entries[j]]
                slots::occupied(entries, j) && unfinished(entries[j]->0, tokens)
                    ==> slots::occupied(after, j) && after[j] == entries[j]
        }),
{
    let after = deferred_entries_after_insert(entries, free, tokens, core);
    if free.len() == 0 {
        lemma_swept_wf(entries, free, tokens);
        let clean = swept(entries, tokens);
        let reclaimed = reclaimable(entries, tokens);
        assert(reclaimed.len() > 0 ==> reclaimed[reclaimed.len() - 1] < clean.len());
        lemma_insert_wf(clean, reclaimed, core);
    } else {
        assert(free[free.len() - 1] < entries.len());
        lemma_insert_wf(entries, free, core);
    }
    assert forall|j: int| #![trigger entries[j]]
        slots::occupied(entries, j) && unfinished(entries[j]->0, tokens) implies slots::occupied(
        after,
        j,
    ) && after[j] == entries[j] by {
        law_insert_keeps_unfinished_tasks(entries, free, tokens, core, j);
    }
    let i = if free.len() == 0 {
        slots::next_slot(swept(entries, tokens), reclaimable(entries, tokens))
    } else {
        slots::next_slot(entries, free)
    };
    assert(after[i] == Some(core));
    assert forall|j: int| #![trigger after[j]] slots::occupied(after, j) && j != i implies slots::occupied(
        entries,
        j,
    ) && after[j] == entries[j] by {}
}

proof fn lemma_insert_wf(entries: CoreSlots, free: Seq<usize>, core: Arc<TaskCore>)
    requires
        slots::slots_wf(entries, free),
        slots::entries_after_insert(entries, free, core).len() <= usize::MAX,
    ensures
        slots::slots_wf(
            slots::entries_after_insert(entries, free, core),
            slots::free_after_insert(free),
        ),
{
    let after = slots::entries_after_insert(entries, free, core);
    let rest = slots::free_after_insert(free);
    assert forall|s: int| #![trigger after[s]]
        0 <= s < after.len() && after[s] is None implies rest.contains(s as usize) by {
        assert(entries[s] is None);
        let k = choose|k: int| 0 <= k < free.len() && free[k] == s as usize;
        assert(rest[k] == s as usize);
    }
}

/// Machine words count up and down by one, and each undoes the other.
pub proof fn law_counting(count: usize)
    ensures
        count < usize::MAX ==> counted_up(count) == count + 1,
        count > 0 ==> counted_down(count) == count - 1,
        counted_up(usize::MAX) == 0,
        counted_down(counted_up(count)) == count,
        counted_up(counted_down(count)) == count,
{
}

/// The tasks of a registry are listed in slot order, each as often as it stands
/// there: what two parts of the slots hold is listed one after the other, and a
/// slot gives its task if that is to be kept.
pub proof fn law_tasks_are_listed_in_slot_order(
    left: CoreSlots,
    right: CoreSlots,
    keep: spec_fn(Arc<TaskCore>) -> bool,
    core: Arc<TaskCore>,
)
    ensures
        picked(left + right, keep) == picked(left, keep) + picked(right, keep),
        picked(seq![Some(core)], keep) == (if keep(core) {
            seq![core]
        } else {
            Seq::<Arc<TaskCore>>::empty()
        }),
        picked(seq![None], keep) == Seq::<Arc<TaskCore>>::empty(),
    decreases right.len(),
{
    reveal_with_fuel(picked, 2);
    assert(seq![Some(core)].drop_last() =~= Seq::<Option<Arc<TaskCore>>>::empty());
    assert(seq![None::<Arc<TaskCore>>].drop_last() =~= Seq::<Option<Arc<TaskCore>>>::empty());
    assert(Seq::<Arc<TaskCore>>::empty().push(core) =~= seq![core]);
    if right.len() == 0 {
        assert(left + right =~= left);
        assert(picked(left, keep) + picked(right, keep) =~= picked(left, keep));
    } else {
        law_tasks_are_listed_in_slot_order(left, right.drop_last(), keep, core);
        assert((left + right).drop_last() =~= left + right.drop_last());
        assert((left + right).last() == right.last());
        assert(picked(left + right, keep) =~= picked(left, keep) + picked(right, keep));
    }
}

/// A task carries one of some labels exactly if one of its own labels is among
/// them, and is unfinished exactly if its token says so.
pub proof fn law_labels_and_tokens_are_read(
    core: Arc<TaskCore>,
    labels: Set<Seq<char>>,
    tokens: Map<u64, TokenRecord>,
)
    ensures
        carries(core, labels) <==> exists|label: Seq<char>|
            labels.contains(label) && #[trigger] core.texts().contains(label),
        unfinished(core, tokens) <==> tokens.contains_key(core.id()) && !tokens[
            core.id()
        ].state.finished,
{
}

/// A sweep empties the slots of finished tasks and leaves every other slot alone.
pub proof fn law_sweep_empties_finished_slots(
    entries: CoreSlots,
    tokens: Map<u64, TokenRecord>,
    s: int,
)
    requires
        entries.len() <= usize::MAX,
        0 <= s < entries.len(),
    ensures
        ({
            let alive = entries[s] is Some && tokens.contains_key(entries[s]->0.id()) && !tokens[
                entries[s]->0.id()
            ].state.finished;
            &&& swept(entries, tokens).len() == entries.len()
            &&& alive ==> swept(entries, tokens)[s] == entries[s]
            &&& !alive ==> swept(entries, tokens)[s] is None
            &&& reclaimable(entries, tokens).contains(s as usize) <==> entries[s] is Some && !alive
            &&& reclaimable(entries, tokens).no_duplicates()
        }),
{
    lemma_reclaimable(entries, tokens, s);
    lemma_reclaimable_distinct(entries, tokens);
}

/// A deferred registry uses its slots before it grows: with a slot that is empty or
/// holds a finished task it keeps its size, and otherwise it grows by one.
pub proof fn law_registry_grows_last(
    entries: CoreSlots,
    free: Seq<usize>,
    tokens: Map<u64, TokenRecord>,
    core: Arc<TaskCore>,
    s: int,
)
    requires
        slots::slots_wf(entries, free),
    ensures
        ({
            let after = deferred_entries_after_insert(entries, free, tokens, core);
            let usable = 0 <= s < entries.len() && (entries[s] is None || !tokens.contains_key(
                entries[s]->0.id(),
            ) || tokens[entries[s]->0.id()].state.finished);
            &&& usable ==> after.len() == entries.len()
            &&& after.len() == entries.len() || after.len() == entries.len() + 1
        }),
{
    let usable = 0 <= s < entries.len() && (entries[s] is None || !tokens.contains_key(
        entries[s]->0.id(),
    ) || tokens[entries[s]->0.id()].state.finished);
    lemma_deferred_growth(entries, free, tokens, core);
    if usable {
        if deferred_entries_after_insert(entries, free, tokens, core).len() > entries.len() {
            law_growth_needs_unfinished_tasks(entries, free, tokens, core);
            assert(entries[s] is Some);
        }
    }
}

/// The slots that a sweep frees are listed in ascending order.
pub proof fn law_swept_slots_ascend(
    entries: CoreSlots,
    tokens: Map<u64, TokenRecord>,
    i: int,
    j: int,
)
    requires
        entries.len() <= usize::MAX,
        0 <= i < j < reclaimable(entries, tokens).len(),
    ensures
        reclaimable(entries, tokens)[i] < reclaimable(entries, tokens)[j],
        reclaimable(entries, tokens)[j] < entries.len(),
    decreases entries.len(),
{
    if entries.len() > 0 {
        let head = entries.drop_last();
        let rest = reclaimable(head, tokens);
        lemma_reclaimable_bound(head, tokens);
        if j < rest.len() {
            law_swept_slots_ascend(head, tokens, i, j);
            assert(reclaimable(entries, tokens)[i] == rest[i]);
            assert(reclaimable(entries, tokens)[j] == rest[j]);
        } else {
            assert(reclaimable(entries, tokens)[i] == rest[i]);
        }
    }
}

} // verus!
