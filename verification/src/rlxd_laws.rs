//! What holds of a pool with several dispatch loops, whatever happens to it.

use std::sync::Arc;
use vstd::prelude::*;

use crate::active;
use crate::active::CoreSlots;
use crate::channel::ChannelView;
use crate::error::PoolError;
use crate::execution;
use crate::execution::Wake;
use crate::lanes;
use crate::lanes::LanesView;
use crate::notifier;
use crate::notifier::{CompletionSink, NotifierView, NotifierWorker, TaskCompletionStatus};
use crate::pool_laws;
use crate::pool_view;
use crate::pool_view::{PollKind, Taken};
use crate::rlxd_view;
use crate::rlxd_view::{LaneStage, RlxdOp, RlxdView, RunningTask, TaskStage};
use crate::shutdown;
use crate::shutdown::{ShutdownEvent, ShutdownMode, ShutdownRun, ShutdownStage};
use crate::slots;
use crate::sums;
use crate::task::TaskCore;
use crate::task_queue::{ManagedTaskInternal, SendOutcome};
use crate::token;
use crate::token::TokenRecord;

verus! {

/// A task that starts joins its shard and no other.
proof fn lemma_running_insert(running: Map<u64, RunningTask>, id: u64, entry: RunningTask)
    requires
        running.dom().finite(),
        !running.contains_key(id),
    ensures
        ({
            let after = running.insert(id, entry);
            &&& after.dom().finite()
            &&& after.dom().len() == running.dom().len() + 1
            &&& rlxd_view::unreported(after).len() == rlxd_view::unreported(running).len() + (
            if entry.concluded {
                0nat
            } else {
                1nat
            })
            &&& forall|s: int|
                (#[trigger] rlxd_view::shard_tasks(after, s)).len() == rlxd_view::shard_tasks(
                    running,
                    s,
                ).len() + (if entry.shard == s {
                    1nat
                } else {
                    0nat
                })
        }),
{
    let after = running.insert(id, entry);
    assert(after.dom() =~= running.dom().insert(id));
    if entry.concluded {
        assert(rlxd_view::unreported(after) =~= rlxd_view::unreported(running));
    } else {
        assert(rlxd_view::unreported(after) =~= rlxd_view::unreported(running).insert(id));
    }
    assert forall|s: int|
        (#[trigger] rlxd_view::shard_tasks(after, s)).len() == rlxd_view::shard_tasks(
            running,
            s,
        ).len() + (if entry.shard == s {
            1nat
        } else {
            0nat
        }) by {
        if entry.shard == s {
            assert(rlxd_view::shard_tasks(after, s) =~= rlxd_view::shard_tasks(running, s).insert(
                id,
            ));
        } else {
            assert(rlxd_view::shard_tasks(after, s) =~= rlxd_view::shard_tasks(running, s));
        }
    }
}

/// A task that ends leaves its shard and no other.
proof fn lemma_running_remove(running: Map<u64, RunningTask>, id: u64)
    requires
        running.dom().finite(),
        running.contains_key(id),
    ensures
        ({
            let after = running.remove(id);
            let entry = running[id];
            &&& after.dom().finite()
            &&& after.dom().len() + 1 == running.dom().len()
            &&& rlxd_view::unreported(after).len() + (if entry.concluded {
                0nat
            } else {
                1nat
            }) == rlxd_view::unreported(running).len()
            &&& forall|s: int|
                (#[trigger] rlxd_view::shard_tasks(after, s)).len() + (if entry.shard == s {
                    1nat
                } else {
                    0nat
                }) == rlxd_view::shard_tasks(running, s).len()
        }),
{
    let after = running.remove(id);
    assert(after.insert(id, running[id]) =~= running);
    lemma_running_insert(after, id, running[id]);
}

/// A task whose entry changes stays in its shard.
proof fn lemma_running_update(running: Map<u64, RunningTask>, id: u64, entry: RunningTask)
    requires
        running.dom().finite(),
        running.contains_key(id),
        entry.shard == running[id].shard,
    ensures
        ({
            let after = running.insert(id, entry);
            &&& after.dom() == running.dom()
            &&& forall|s: int| #[trigger]
                rlxd_view::shard_tasks(after, s) == rlxd_view::shard_tasks(running, s)
            &&& entry.concluded == running[id].concluded ==> rlxd_view::unreported(after)
                == rlxd_view::unreported(running)
            &&& entry.concluded && !running[id].concluded ==> rlxd_view::unreported(after).len() + 1
                == rlxd_view::unreported(running).len() && rlxd_view::unreported(after)
                == rlxd_view::unreported(running).remove(id)
        }),
{
    let after = running.insert(id, entry);
    assert(after.dom() =~= running.dom());
    assert forall|s: int| #[trigger]
        rlxd_view::shard_tasks(after, s) == rlxd_view::shard_tasks(running, s) by {
        assert(rlxd_view::shard_tasks(after, s) =~= rlxd_view::shard_tasks(running, s));
    }
    if entry.concluded == running[id].concluded {
        assert(rlxd_view::unreported(after) =~= rlxd_view::unreported(running));
    }
    if entry.concluded && !running[id].concluded {
        assert(rlxd_view::unreported(running).contains(id));
        assert(rlxd_view::unreported(after) =~= rlxd_view::unreported(running).remove(id));
    }
}

/// A shard lists no more tasks than run.
proof fn lemma_shard_bounded(running: Map<u64, RunningTask>, s: int)
    requires
        running.dom().finite(),
    ensures
        rlxd_view::shard_tasks(running, s).len() <= running.dom().len(),
        rlxd_view::unreported(running).len() <= running.dom().len(),
{
    vstd::set_lib::lemma_len_subset(rlxd_view::shard_tasks(running, s), running.dom());
    vstd::set_lib::lemma_len_subset(rlxd_view::unreported(running), running.dom());
}

/// The tasks to be kept, all of them unfinished, have different numbers.
proof fn lemma_picked_distinct(
    entries: CoreSlots,
    keep: spec_fn(Arc<TaskCore>) -> bool,
    tokens: Map<u64, TokenRecord>,
)
    requires
        rlxd_view::distinct_unfinished(entries, tokens),
        forall|core: Arc<TaskCore>| #[trigger] keep(core) ==> active::unfinished(core, tokens),
    ensures
        active::core_ids(active::picked(entries, keep)).no_duplicates(),
    decreases entries.len(),
{
    if entries.len() > 0 {
        let head = entries.drop_last();
        let last = entries.len() - 1;
        let rest = active::picked(head, keep);
        assert forall|i: int, j: int|
            #![trigger head[i], head[j]]
            slots::occupied(head, i) && slots::occupied(head, j) && i != j && active::unfinished(
                head[i]->0,
                tokens,
            ) && active::unfinished(head[j]->0, tokens) implies head[i]->0.id()
            != head[j]->0.id() by {
            assert(entries[i] == head[i] && entries[j] == head[j]);
        }
        lemma_picked_distinct(head, keep, tokens);
        if entries[last] is Some && keep(entries[last]->0) {
            let core = entries[last]->0;
            let ids = active::core_ids(rest);
            assert(active::core_ids(rest.push(core)) =~= ids.push(core.id()));
            assert forall|k: int| 0 <= k < ids.len() implies ids[k] != core.id() by {
                assert(rest.contains(rest[k]));
                active::lemma_picked(head, keep, rest[k]);
                let i = choose|i: int| 0 <= i < head.len() && #[trigger] head[i] == Some(rest[k]);
                assert(entries[i] == head[i]);
            }
        }
    }
}

impl<W, H> RlxdView<W, H> {
    /// A new pool is sound.
    pub proof fn lemma_start_wf(name: Arc<String>, limit: nat, capacity: nat, count: usize)
        requires
            1 <= limit <= usize::MAX,
            count > 0,
        ensures
            RlxdView::<W, H>::start(name, limit, capacity, count).wf(),
    {
        let pool = RlxdView::<W, H>::start(name, limit, capacity, count);
        sums::lemma_total_zeros(lanes::lane_counts(pool.queue.lanes));
        sums::lemma_total_zeros(rlxd_view::flight_counts(pool.shards));
        assert(pool.running.dom() =~= Set::<u64>::empty());
        assert(rlxd_view::unreported(pool.running) =~= Set::<u64>::empty());
        assert(pool.notifier.posted =~= pool.notifier.processed + pool.notifier.pending);
        assert forall|s: int| 0 <= s < pool.width() implies pool.shards[s].in_flight
            == #[trigger] rlxd_view::shard_tasks(pool.running, s).len() by {
            assert(rlxd_view::shard_tasks(pool.running, s) =~= Set::<u64>::empty());
        }
        assert forall|l: int| 0 <= l < pool.width() implies rlxd_view::lane_wf(
            #[trigger] pool.accepted[l],
            pool.taken[l],
            pool.workers[l],
            pool.queue.lanes[l].items,
        ) by {
            assert(pool.accepted[l] =~= pool_view::taken_ids(pool.taken[l]) + pool_view::task_ids(
                rlxd_view::held_tasks(pool.workers[l]) + pool.queue.lanes[l].items,
            ));
        }
    }

    /// Every running task goes by its number and is not done.
    spec fn running_alive(self) -> bool {
        forall|id: u64| #[trigger]
            self.running.contains_key(id) ==> self.running[id].core.id() == id && pool_view::alive(
                self.tokens,
                id,
            )
    }

    proof fn lemma_running_alive(self)
        requires
            self.stages_wf(),
            self.tokens_wf(),
        ensures
            self.running_alive(),
    {
    }

    /// The registry grows no further than the concurrency limit.
    proof fn lemma_growth_bounded(self, core: Arc<TaskCore>, s: int)
        requires
            self.shards_wf(),
            self.limits_wf(),
            0 <= s < self.width(),
            self.permits > 0,
        ensures
            active::deferred_entries_after_insert(
                self.shards[s].entries,
                self.shards[s].free,
                self.tokens,
                core,
            ).len() <= self.limit,
    {
        let entries = self.shards[s].entries;
        let free = self.shards[s].free;
        let after = active::deferred_entries_after_insert(entries, free, self.tokens, core);
        active::lemma_deferred_growth(entries, free, self.tokens, core);
        if after.len() > entries.len() {
            active::law_growth_needs_unfinished_tasks(entries, free, self.tokens, core);
            let ids = entries.map_values(|entry: Option<Arc<TaskCore>>| entry->0.id());
            assert forall|i: int, j: int|
                0 <= i < ids.len() && 0 <= j < ids.len() && i != j implies ids[i] != ids[j] by {
                assert(entries[i] is Some && entries[j] is Some);
                assert(active::unfinished(entries[i]->0, self.tokens));
                assert(active::unfinished(entries[j]->0, self.tokens));
            }
            ids.unique_seq_to_set();
            assert forall|id: u64| ids.to_set().contains(id) implies self.running.dom().contains(
                id,
            ) by {
                let i = choose|i: int| 0 <= i < ids.len() && ids[i] == id;
                assert(entries[i] is Some);
                assert(slots::occupied(self.shards[s].entries, i));
                assert(self.listed(self.shards[s].entries[i]->0, s));
            }
            vstd::set_lib::lemma_len_subset(ids.to_set(), self.running.dom());
        }
    }

    /// Of the unfinished tasks that shard `s` lists, those to be kept are the
    /// running tasks of the shard that are to be kept.
    proof fn lemma_shard_lists(self, s: int, keep: spec_fn(Arc<TaskCore>) -> bool, id: u64)
        requires
            self.wf(),
            0 <= s < self.width(),
            forall|core: Arc<TaskCore>| #[trigger]
                keep(core) ==> active::unfinished(core, self.tokens),
        ensures
            (exists|core: Arc<TaskCore>|
                #[trigger] active::picked(self.shards[s].entries, keep).contains(core) && core.id()
                    == id) <==> self.running.contains_key(id) && self.running[id].shard == s && keep(
                self.running[id].core,
            ),
    {
        let entries = self.shards[s].entries;
        let cores = active::picked(entries, keep);
        if exists|core: Arc<TaskCore>| #[trigger] cores.contains(core) && core.id() == id {
            let core = choose|core: Arc<TaskCore>| #[trigger] cores.contains(core) && core.id() == id;
            active::lemma_picked(entries, keep, core);
            let i = choose|i: int| 0 <= i < entries.len() && #[trigger] entries[i] == Some(core);
            assert(slots::occupied(self.shards[s].entries, i));
            assert(self.listed(self.shards[s].entries[i]->0, s));
        }
        if self.running.contains_key(id) && self.running[id].shard == s && keep(
            self.running[id].core,
        ) {
            let core = self.running[id].core;
            active::lemma_picked(entries, keep, core);
            assert(rlxd_view::lists(entries, core));
            assert(cores.contains(core));
        }
    }

    /// The numbers of the unfinished tasks to be kept that shard `s` lists are
    /// those of the running tasks of the shard to be kept, each once.
    pub proof fn lemma_shard_ids(self, s: int, keep: spec_fn(Arc<TaskCore>) -> bool)
        requires
            self.wf(),
            0 <= s < self.width(),
            forall|core: Arc<TaskCore>| #[trigger]
                keep(core) ==> active::unfinished(core, self.tokens),
        ensures
            ({
                let ids = active::core_ids(active::picked(self.shards[s].entries, keep));
                &&& ids.no_duplicates()
                &&& forall|id: u64| #[trigger]
                    ids.contains(id) <==> self.running.contains_key(id) && self.running[id].shard
                        == s && keep(self.running[id].core)
            }),
    {
        let cores = active::picked(self.shards[s].entries, keep);
        let ids = active::core_ids(cores);
        lemma_picked_distinct(self.shards[s].entries, keep, self.tokens);
        assert forall|id: u64| #[trigger]
            ids.contains(id) <==> self.running.contains_key(id) && self.running[id].shard == s
                && keep(self.running[id].core) by {
            self.lemma_shard_lists(s, keep, id);
            if ids.contains(id) {
                let k = choose|k: int| 0 <= k < ids.len() && ids[k] == id;
                assert(cores.contains(cores[k]) && cores[k].id() == id);
            }
            if exists|core: Arc<TaskCore>| #[trigger] cores.contains(core) && core.id() == id {
                let core = choose|core: Arc<TaskCore>| #[trigger]
                    cores.contains(core) && core.id() == id;
                let k = choose|k: int| 0 <= k < cores.len() && cores[k] == core;
                assert(ids[k] == id);
            }
        }
    }

    /// While a permit is free, there is room for one more sender.
    pub proof fn lemma_senders_left(self)
        requires
            self.wf(),
            self.permits > 0,
        ensures
            self.notifier.senders < usize::MAX,
    {
        lemma_shard_bounded(self.running, 0);
    }

    /// Starting a task keeps limits and registry sound.
    proof fn lemma_start_shards(self, core: Arc<TaskCore>, s: int)
        requires
            self.shards_wf(),
            self.limits_wf(),
            self.running_alive(),
            0 <= s < self.width(),
            self.permits > 0,
            self.notifier.sink != CompletionSink::Closed,
            !self.running.contains_key(core.id()),
            pool_view::alive(self.tokens, core.id()),
            core.id() < self.next_id,
        ensures
            self.after_start(core, s).shards_wf(),
            self.after_start(core, s).limits_wf(),
    {
        let after = self.after_start(core, s);
        let entry = after.running[core.id()];
        let entries = self.shards[s].entries;
        let free = self.shards[s].free;
        lemma_running_insert(self.running, core.id(), entry);
        lemma_shard_bounded(after.running, s);
        lemma_shard_bounded(self.running, s);
        self.lemma_growth_bounded(core, s);
        active::lemma_deferred_insert(entries, free, self.tokens, core);
        let grown = after.shards[s].entries;
        let slot = choose|i: int|
            0 <= i < grown.len() && #[trigger] grown[i] == Some(core) && (forall|j: int|
                #![trigger grown[j]]
                slots::occupied(grown, j) && j != i ==> slots::occupied(entries, j) && grown[j]
                    == entries[j]);
        assert forall|t: int| 0 <= t < after.width() implies slots::slots_wf(
            (#[trigger] after.shards[t]).entries,
            after.shards[t].free,
        ) && after.shards[t].in_flight == rlxd_view::shard_tasks(after.running, t).len()
            && after.shards[t].entries.len() <= after.limit && rlxd_view::distinct_unfinished(
            after.shards[t].entries,
            after.tokens,
        ) by {
            assert(self.shards[t].in_flight == rlxd_view::shard_tasks(self.running, t).len());
            if t == s {
                assert forall|i: int, j: int|
                    #![trigger grown[i], grown[j]]
                    slots::occupied(grown, i) && slots::occupied(grown, j) && i != j
                        && active::unfinished(grown[i]->0, self.tokens) && active::unfinished(
                        grown[j]->0,
                        self.tokens,
                    ) implies grown[i]->0.id() != grown[j]->0.id() by {
                    if i != slot {
                        assert(self.listed(self.shards[s].entries[i]->0, s));
                    }
                    if j != slot {
                        assert(self.listed(self.shards[s].entries[j]->0, s));
                    }
                }
            } else {
                assert(after.shards[t] == self.shards[t]);
            }
        }
        assert forall|t: int, i: int|
            #![trigger after.shards[t].entries[i]]
            0 <= t < after.width() && slots::occupied(
                after.shards[t].entries,
                i,
            ) implies after.listed(after.shards[t].entries[i]->0, t) by {
            if t == s {
                if i != slot {
                    assert(grown[i] == entries[i]);
                    assert(self.listed(self.shards[s].entries[i]->0, s));
                }
            } else {
                assert(self.listed(self.shards[t].entries[i]->0, t));
            }
        }
        assert forall|id: u64| #[trigger]
            after.running.contains_key(id) implies after.running[id].shard < after.width()
            && rlxd_view::lists(
            after.shards[after.running[id].shard as int].entries,
            after.running[id].core,
        ) by {
            if id == core.id() {
                assert(grown[slot] == Some(core));
            } else {
                let t = self.running[id].shard as int;
                let other = self.running[id].core;
                let i = choose|i: int|
                    0 <= i < self.shards[t].entries.len() && #[trigger] self.shards[t].entries[i]
                        == Some(other);
                assert(self.listed(self.shards[t].entries[i]->0, t));
                if t == s {
                    assert(entries[i] == Some(other));
                    assert(grown[i] == Some(other));
                } else {
                    assert(after.shards[t].entries[i] == Some(other));
                }
            }
        }
        assert(rlxd_view::flight_counts(after.shards) =~= rlxd_view::flight_counts(
            self.shards,
        ).update(s, after.shards[s].in_flight as nat));
        sums::lemma_total_update(
            rlxd_view::flight_counts(self.shards),
            s,
            after.shards[s].in_flight as nat,
        );
    }

    /// A fresh number and its token leave the registry sound.
    proof fn lemma_number_shards(self, stage: TaskStage)
        requires
            self.shards_wf(),
            self.next_id < u64::MAX,
            self.running_alive(),
            forall|id: u64| #[trigger] self.running.contains_key(id) ==> id < self.next_id,
        ensures
            self.after_number(stage).shards_wf(),
            self.after_number(stage).running_alive(),
    {
        let after = self.after_number(stage);
        assert forall|s: int, i: int|
            #![trigger after.shards[s].entries[i]]
            0 <= s < after.width() && slots::occupied(
                after.shards[s].entries,
                i,
            ) implies after.listed(after.shards[s].entries[i]->0, s) && (active::unfinished(
            after.shards[s].entries[i]->0,
            after.tokens,
        ) == active::unfinished(after.shards[s].entries[i]->0, self.tokens)) by {
            assert(self.listed(self.shards[s].entries[i]->0, s));
        }
        assert forall|s: int| 0 <= s < after.width() implies rlxd_view::distinct_unfinished(
            (#[trigger] after.shards[s]).entries,
            after.tokens,
        ) by {
            assert(rlxd_view::distinct_unfinished(self.shards[s].entries, self.tokens));
            let entries = after.shards[s].entries;
            assert forall|i: int, j: int|
                #![trigger entries[i], entries[j]]
                slots::occupied(entries, i) && slots::occupied(entries, j) && i != j
                    && active::unfinished(entries[i]->0, after.tokens) && active::unfinished(
                    entries[j]->0,
                    after.tokens,
                ) implies entries[i]->0.id() != entries[j]->0.id() by {
                assert(self.listed(self.shards[s].entries[i]->0, s));
                assert(self.listed(self.shards[s].entries[j]->0, s));
            }
        }
    }

    /// Tasks that are done leave the registry sound, as long as none of them
    /// runs.
    proof fn lemma_tokens_shards(self, tokens: Map<u64, TokenRecord>)
        requires
            self.shards_wf(),
            self.running_alive(),
            forall|id: u64|
                token::token_finished(self.tokens, id) ==> #[trigger] token::token_finished(
                    tokens,
                    id,
                ),
            forall|id: u64| #[trigger]
                self.running.contains_key(id) ==> pool_view::alive(tokens, id),
        ensures
            (RlxdView { tokens, ..self }).shards_wf(),
            (RlxdView { tokens, ..self }).running_alive(),
    {
        let after = RlxdView { tokens, ..self };
        assert forall|s: int, i: int|
            #![trigger after.shards[s].entries[i]]
            0 <= s < after.width() && slots::occupied(
                after.shards[s].entries,
                i,
            ) implies after.listed(after.shards[s].entries[i]->0, s) by {
            assert(self.listed(self.shards[s].entries[i]->0, s));
        }
        assert forall|s: int| 0 <= s < after.width() implies rlxd_view::distinct_unfinished(
            (#[trigger] after.shards[s]).entries,
            tokens,
        ) by {
            assert(rlxd_view::distinct_unfinished(self.shards[s].entries, self.tokens));
        }
    }

    /// A new outcome in the entry of a running task leaves the registry sound.
    proof fn lemma_mark_shards(self, id: u64, entry: RunningTask)
        requires
            self.wf(),
            self.running.contains_key(id),
            entry.core == self.running[id].core,
            entry.shard == self.running[id].shard,
        ensures
            (RlxdView { running: self.running.insert(id, entry), ..self }).shards_wf(),
    {
        let after = RlxdView { running: self.running.insert(id, entry), ..self };
        lemma_running_update(self.running, id, entry);
        assert forall|t: int| 0 <= t < after.width() implies slots::slots_wf(
            (#[trigger] after.shards[t]).entries,
            after.shards[t].free,
        ) && after.shards[t].in_flight == rlxd_view::shard_tasks(after.running, t).len()
            && after.shards[t].entries.len() <= after.limit && rlxd_view::distinct_unfinished(
            after.shards[t].entries,
            after.tokens,
        ) by {
            assert(self.shards[t].in_flight == rlxd_view::shard_tasks(self.running, t).len());
        }
        assert forall|t: int, i: int|
            #![trigger after.shards[t].entries[i]]
            0 <= t < after.width() && slots::occupied(
                after.shards[t].entries,
                i,
            ) implies after.listed(after.shards[t].entries[i]->0, t) by {
            assert(self.listed(self.shards[t].entries[i]->0, t));
        }
        assert forall|other: u64| #[trigger]
            after.running.contains_key(other) implies after.running[other].shard < after.width()
            && rlxd_view::lists(
            after.shards[after.running[other].shard as int].entries,
            after.running[other].core,
        ) by {
            assert(self.running.contains_key(other));
        }
    }

    /// Recording an outcome keeps the pool sound.
    pub proof fn lemma_record_wf(self, id: u64, status: TaskCompletionStatus)
        requires
            self.wf(),
        ensures
            self.after_record(id, status).wf(),
            rlxd_view::unreported(self.after_record(id, status).running) == rlxd_view::unreported(
                self.running,
            ),
    {
        if self.can_record(id) {
            let entry = RunningTask { status: Some(status), ..self.running[id] };
            let after = self.after_record(id, status);
            lemma_running_update(self.running, id, entry);
            self.lemma_mark_shards(id, entry);
            assert(after.shards_wf());
            assert(after.lanes_wf());
            assert(after.stages_wf());
        }
    }

    /// Reporting a task keeps the pool sound.
    pub proof fn lemma_conclude_wf(self, id: u64)
        requires
            self.wf(),
        ensures
            self.after_conclude(id).wf(),
            self.can_conclude(id) ==> rlxd_view::unreported(self.after_conclude(id).running)
                == rlxd_view::unreported(self.running).remove(id) && rlxd_view::unreported(
                self.running,
            ).contains(id),
            self.can_conclude(id) && self.notifier.has_queue() ==> self.notifier.senders > 0,
    {
        if self.can_conclude(id) {
            let entry = RunningTask { concluded: true, ..self.running[id] };
            let after = self.after_conclude(id);
            lemma_running_update(self.running, id, entry);
            self.lemma_mark_shards(id, entry);
            let marked = RlxdView { running: self.running.insert(id, entry), ..self };
            assert(marked.shards_wf());
            assert(after.shards_wf());
            assert(after.lanes_wf());
            assert(after.stages_wf());
            let message = self.message(self.running[id].core, self.running[id].status->0);
            assert(self.notifier.posted.push(message) =~= self.notifier.processed
                + self.notifier.pending.push(message));
        }
    }

    /// The end of a reported task keeps limits and registry sound.
    proof fn lemma_retire_shards(self, id: u64)
        requires
            self.wf(),
            self.can_retire(id),
        ensures
            self.after_retire(id).shards_wf(),
            self.after_retire(id).limits_wf(),
            self.permits < self.limit,
    {
        let after = self.after_retire(id);
        let entry = self.running[id];
        let s = entry.shard as int;
        self.lemma_running_alive();
        lemma_running_remove(self.running, id);
        assert(self.shards[s].in_flight == rlxd_view::shard_tasks(self.running, s).len());
        assert(rlxd_view::shard_tasks(after.running, s).len() + 1 == rlxd_view::shard_tasks(
            self.running,
            s,
        ).len());
        assert forall|t: int| 0 <= t < after.width() implies slots::slots_wf(
            (#[trigger] after.shards[t]).entries,
            after.shards[t].free,
        ) && after.shards[t].in_flight == rlxd_view::shard_tasks(after.running, t).len()
            && after.shards[t].entries.len() <= after.limit && rlxd_view::distinct_unfinished(
            after.shards[t].entries,
            after.tokens,
        ) by {
            assert(self.shards[t].in_flight == rlxd_view::shard_tasks(self.running, t).len());
            assert(rlxd_view::distinct_unfinished(self.shards[t].entries, self.tokens));
            assert(after.shards[t].entries == self.shards[t].entries);
        }
        assert forall|t: int, i: int|
            #![trigger after.shards[t].entries[i]]
            0 <= t < after.width() && slots::occupied(
                after.shards[t].entries,
                i,
            ) implies after.listed(after.shards[t].entries[i]->0, t) by {
            assert(self.listed(self.shards[t].entries[i]->0, t));
        }
        assert forall|other: u64| #[trigger]
            after.running.contains_key(other) implies after.running[other].shard < after.width()
            && rlxd_view::lists(
            after.shards[after.running[other].shard as int].entries,
            after.running[other].core,
        ) by {
            assert(self.running.contains_key(other));
        }
        assert(rlxd_view::flight_counts(after.shards) =~= rlxd_view::flight_counts(
            self.shards,
        ).update(s, after.shards[s].in_flight as nat));
        sums::lemma_total_update(
            rlxd_view::flight_counts(self.shards),
            s,
            after.shards[s].in_flight as nat,
        );
    }

    /// The end of a reported task keeps the pool sound.
    pub proof fn lemma_retire_wf(self, id: u64)
        requires
            self.wf(),
        ensures
            self.after_retire(id).wf(),
            self.can_retire(id) ==> self.permits < self.limit,
            self.can_retire(id) ==> rlxd_view::unreported(self.after_retire(id).running)
                == rlxd_view::unreported(self.running),
    {
        if self.can_retire(id) {
            self.lemma_retire_shards(id);
            let after = self.after_retire(id);
            assert(after.lanes_wf());
            assert(after.stages_wf());
            assert(after.tokens_wf());
            assert(rlxd_view::unreported(after.running) =~= rlxd_view::unreported(self.running));
        }
    }

    /// A new handler keeps the pool sound.
    pub proof fn lemma_handler_wf(self, handler: H)
        requires
            self.wf(),
        ensures
            self.after_handler(handler).wf(),
            rlxd_view::unreported(self.running).len() <= self.limit,
    {
        let after = self.after_handler(handler);
        lemma_shard_bounded(self.running, 0);
        assert(after.shards_wf());
        assert(after.lanes_wf());
        assert(after.stages_wf());
    }

    /// Cancellations and dropped handles keep the pool sound.
    pub proof fn lemma_tokens_wf(self, ids: Set<u64>, id: u64)
        requires
            self.wf(),
        ensures
            self.after_cancel(ids).wf(),
            self.after_handle_drop(id).wf(),
    {
        self.lemma_running_alive();
        self.lemma_tokens_shards(token::tokens_after_cancel(self.tokens, ids));
        self.lemma_tokens_shards(token::tokens_after_handle_drop(self.tokens, id));
    }

    /// A blocked submission that is given up leaves the pool sound.
    pub proof fn lemma_withdraw_wf(self, id: u64)
        requires
            self.wf(),
        ensures
            self.after_withdraw(id).wf(),
    {
        if self.blocked.contains_key(id) {
            self.lemma_running_alive();
            self.lemma_tokens_shards(token::tokens_after_finish(self.tokens, id));
            let after = self.after_withdraw(id);
            assert(after.shards_wf());
            assert(after.lanes_wf());
            assert(after.stages_wf());
        }
    }

    /// Task `id`, which waits in no lane, was not accepted by any.
    proof fn lemma_not_accepted(self, id: u64, l: int)
        requires
            self.stages_wf(),
            0 <= l < self.width(),
            id >= self.next_id || self.stages[id] == TaskStage::Blocked,
        ensures
            !self.accepted[l].contains(id),
    {
        if self.accepted[l].contains(id) {
            let k = choose|k: int| 0 <= k < self.accepted[l].len() && self.accepted[l][k] == id;
            assert(self.accepted[l][k] < self.next_id);
        }
    }

    /// Putting a task at the back of the next lane keeps limits, lanes and
    /// shutdown state sound.
    proof fn lemma_enqueue(self, task: ManagedTaskInternal<W>)
        requires
            self.limits_wf(),
            self.lanes_wf(),
            self.shutdown_wf(),
            !self.shutdown,
            !self.queue.is_full(),
            !self.accepted[self.queue.route()].contains(task.core.id()),
        ensures
            self.after_enqueue(task).limits_wf(),
            self.after_enqueue(task).lanes_wf(),
            self.after_enqueue(task).shutdown_wf(),
    {
        let after = self.after_enqueue(task);
        let l = self.queue.route();
        let id = task.core.id();
        let lane = ChannelView { items: self.queue.lanes[l].items.push(task), ..self.queue.lanes[l] };
        self.queue.lemma_waiting_update(l, lane);
        assert(after.queue.lanes =~= self.queue.lanes.update(l, lane));
        assert(lanes::lane_counts(after.queue.lanes) =~= lanes::lane_counts(
            (LanesView { lanes: self.queue.lanes.update(l, lane), ..self.queue }).lanes,
        ));
        assert forall|m: int| 0 <= m < after.width() implies rlxd_view::lane_wf(
            #[trigger] after.accepted[m],
            after.taken[m],
            after.workers[m],
            after.queue.lanes[m].items,
        ) by {
            assert(rlxd_view::lane_wf(
                self.accepted[m],
                self.taken[m],
                self.workers[m],
                self.queue.lanes[m].items,
            ));
            if m == l {
                assert(!(self.workers[l] is Stopped));
                let held = rlxd_view::held_tasks(self.workers[l]);
                assert(pool_view::task_ids(held + lane.items) =~= pool_view::task_ids(
                    held + self.queue.lanes[l].items,
                ).push(id));
                assert(after.accepted[l] =~= pool_view::taken_ids(after.taken[l])
                    + pool_view::task_ids(held + lane.items));
                assert(pool_view::taken_ids(after.taken[l]).is_prefix_of(after.accepted[l]));
            }
        }
    }

    /// A submission keeps the pool sound.
    #[verifier::rlimit(40)]
    pub proof fn lemma_submit_wf(self, core: Arc<TaskCore>, work: W)
        requires
            self.wf(),
            self.allows(RlxdOp::Submit(core, work)),
        ensures
            self.after_submit(core, work).wf(),
    {
        let after = self.after_submit(core, work);
        let id = self.next_id;
        let l = self.queue.route();
        let task = ManagedTaskInternal { core, work };
        self.lemma_running_alive();
        self.lemma_not_accepted(id, l);
        if self.direct_path() {
            let numbered = self.after_number(TaskStage::Running).after_accept(id);
            self.lemma_number_shards(TaskStage::Running);
            assert(numbered.queue.lanes == self.queue.lanes);
            assert(numbered.shards_wf());
            assert(numbered.running_alive());
            numbered.lemma_start_shards(core, l);
            self.queue.lemma_waiting_none(l);
            assert forall|m: int| 0 <= m < after.width() implies rlxd_view::lane_wf(
                #[trigger] after.accepted[m],
                after.taken[m],
                after.workers[m],
                after.queue.lanes[m].items,
            ) by {
                assert(rlxd_view::lane_wf(
                    self.accepted[m],
                    self.taken[m],
                    self.workers[m],
                    self.queue.lanes[m].items,
                ));
                if m == l {
                    assert(!(self.workers[l] is Stopped));
                    assert(!(self.workers[l] is Holding));
                    let items = self.queue.lanes[l].items;
                    let held = rlxd_view::held_tasks(self.workers[l]);
                    assert(pool_view::task_ids(held + items) =~= Seq::<u64>::empty());
                    assert(pool_view::taken_ids(after.taken[l]) =~= pool_view::taken_ids(
                        self.taken[l],
                    ).push(id));
                    assert(after.accepted[l] =~= pool_view::taken_ids(after.taken[l])
                        + pool_view::task_ids(held + items));
                }
            }
            assert(after.stages_wf());
        } else if self.queue.is_full() {
            self.lemma_number_shards(TaskStage::Blocked);
            assert(after.shards_wf());
            assert(after.lanes_wf());
            assert(after.stages_wf());
        } else {
            let numbered = self.after_number(TaskStage::Queued(l));
            self.lemma_number_shards(TaskStage::Queued(l));
            assert(numbered.limits_wf());
            assert(numbered.lanes_wf());
            assert(numbered.shutdown_wf());
            numbered.lemma_enqueue(task);
            assert(after.shards_wf());
            assert(after.stages_wf());
        }
    }

    /// A second try of a blocked submission keeps the pool sound.
    #[verifier::rlimit(40)]
    pub proof fn lemma_resume_wf(self, id: u64)
        requires
            self.wf(),
        ensures
            self.after_resume(id).wf(),
    {
        if self.blocked.contains_key(id) {
            let after = self.after_resume(id);
            let l = self.queue.route();
            match self.resume_outcome(id) {
                SendOutcome::Sent => {
                    let removed = RlxdView { blocked: self.blocked.remove(id), ..self };
                    self.lemma_not_accepted(id, l);
                    assert(removed.limits_wf());
                    assert(removed.lanes_wf());
                    assert(removed.shutdown_wf());
                    removed.lemma_enqueue(self.blocked[id]);
                    assert(after.shards_wf());
                    assert(after.stages_wf());
                },
                SendOutcome::Full(_) => {},
                SendOutcome::Refused(_, task) => {
                    let routed = RlxdView { queue: self.queue.after_resume(task, self.shutdown), ..self };
                    assert(routed.queue.lanes == self.queue.lanes);
                    assert(routed.limits_wf());
                    assert(routed.lanes_wf());
                    assert(routed.stages_wf());
                    assert(routed.shards_wf());
                    assert(routed.wf());
                    routed.lemma_withdraw_wf(id);
                },
            }
        }
    }

    /// The next task of a lane has a number of its own, which stands first among
    /// those that its lane accepted and did not let go.
    proof fn lemma_next_task(self, l: int)
        requires
            self.wf(),
            0 <= l < self.width(),
            self.next_task(l) is Some,
        ensures
            ({
                let task = self.next_task(l)->0;
                let id = task.core.id();
                &&& self.lane_leftovers(l).len() > 0
                &&& self.lane_leftovers(l)[0] == task
                &&& self.stages.contains_key(id)
                &&& self.stages[id] == (if self.workers[l] is Idle {
                    TaskStage::Queued(l)
                } else {
                    TaskStage::Held(l)
                })
                &&& id < self.next_id
                &&& !self.running.contains_key(id)
                &&& !self.blocked.contains_key(id)
                &&& pool_view::alive(self.tokens, id)
                &&& !pool_view::taken_ids(self.taken[l]).contains(id)
                &&& forall|k: int|
                    0 < k < self.lane_leftovers(l).len() ==> (
                    #[trigger] self.lane_leftovers(l)[k]).core.id() != id
                &&& forall|m: int, k: int|
                    0 <= m < self.width() && m != l && 0 <= k < self.queue.lanes[m].items.len()
                        ==> (#[trigger] self.queue.lanes[m].items[k]).core.id() != id
                &&& forall|m: int|
                    0 <= m < self.width() && m != l ==> ((
                    #[trigger] self.workers[m]) matches LaneStage::Holding(other) ==> other.core.id()
                        != id)
            }),
    {
        let task = self.next_task(l)->0;
        let id = task.core.id();
        let rest = self.lane_leftovers(l);
        let ids = pool_view::task_ids(rest);
        let before = pool_view::taken_ids(self.taken[l]);
        assert(rlxd_view::lane_wf(
            self.accepted[l],
            self.taken[l],
            self.workers[l],
            self.queue.lanes[l].items,
        ));
        assert(ids[0] == id);
        assert(self.accepted[l][before.len() as int] == id);
        if before.contains(id) {
            let j = choose|j: int| 0 <= j < before.len() && before[j] == id;
            assert(self.accepted[l][j] == id);
        }
        assert forall|k: int| 0 < k < rest.len() implies (#[trigger] rest[k]).core.id() != id by {
            assert(ids[k] == rest[k].core.id());
            assert(self.accepted[l][before.len() + k] == ids[k]);
        }
        if self.workers[l] is Idle {
            assert(self.queue.lanes[l].items[0] == task);
        }
    }

    /// Taking the next task of a lane in hand and adding it to those that left
    /// the lane keeps the lanes sound.
    proof fn lemma_fetch_lanes(self, l: int, started: bool)
        requires
            self.wf(),
            0 <= l < self.width(),
            self.next_task(l) is Some,
        ensures
            ({
                let id = self.next_task(l)->0.core.id();
                let fetched = self.after_fetch(l);
                let after = RlxdView {
                    taken: self.taken.update(l, self.taken[l].push(Taken { id, started })),
                    ..fetched
                };
                &&& after.lanes_wf()
                &&& fetched.limits_wf()
                &&& fetched.shutdown_wf() || self.shutdown
                &&& fetched.workers[l] is Idle
                &&& fetched.queue.lanes[l].items == self.lane_leftovers(l).drop_first()
            }),
    {
        let task = self.next_task(l)->0;
        let id = task.core.id();
        let fetched = self.after_fetch(l);
        let after = RlxdView {
            taken: self.taken.update(l, self.taken[l].push(Taken { id, started })),
            ..fetched
        };
        self.lemma_next_task(l);
        let items = self.queue.lanes[l].items;
        if self.workers[l] is Idle {
            assert(rlxd_view::held_tasks(self.workers[l]) + items =~= items);
            self.queue.lemma_waiting_update(
                l,
                ChannelView { items: items.drop_first(), ..self.queue.lanes[l] },
            );
        } else {
            assert((seq![task] + items).drop_first() =~= items);
        }
        assert(fetched.queue.lanes[l].items =~= self.lane_leftovers(l).drop_first());
        assert forall|m: int| 0 <= m < after.width() implies rlxd_view::lane_wf(
            #[trigger] after.accepted[m],
            after.taken[m],
            after.workers[m],
            after.queue.lanes[m].items,
        ) by {
            assert(rlxd_view::lane_wf(
                self.accepted[m],
                self.taken[m],
                self.workers[m],
                self.queue.lanes[m].items,
            ));
            if m == l {
                let rest = self.lane_leftovers(l);
                assert(pool_view::taken_ids(after.taken[l]) =~= pool_view::taken_ids(
                    self.taken[l],
                ).push(id));
                assert(rest =~= seq![task] + rest.drop_first());
                assert(pool_view::task_ids(rest) =~= seq![id] + pool_view::task_ids(
                    rest.drop_first(),
                ));
                assert(rlxd_view::held_tasks(after.workers[l]) + after.queue.lanes[l].items
                    =~= rest.drop_first());
                assert(after.accepted[l] =~= pool_view::taken_ids(after.taken[l])
                    + pool_view::task_ids(rest.drop_first()));
            }
        }
    }

    /// A step of a dispatch loop that starts a task keeps the pool sound.
    #[verifier::rlimit(40)]
    proof fn lemma_poll_start_wf(self, l: int)
        requires
            self.wf(),
            0 <= l < self.width(),
            self.poll_kind(l) == PollKind::Start,
        ensures
            self.after_poll(l).wf(),
    {
        let after = self.after_poll(l);
        let fetched = self.after_fetch(l);
        let core = self.next_task(l)->0.core;
        self.lemma_running_alive();
        self.lemma_next_task(l);
        self.lemma_fetch_lanes(l, true);
        assert(fetched.shards_wf());
        assert(fetched.running_alive());
        fetched.lemma_start_shards(core, l);
        let passed = RlxdView {
            taken: self.taken.update(
                l,
                self.taken[l].push(Taken { id: core.id(), started: true }),
            ),
            ..fetched
        };
        assert(passed.lanes_wf());
        assert(passed.taken == after.taken);
        assert(passed.workers == after.workers);
        assert(passed.queue == after.queue);
        assert(passed.accepted == after.accepted);
        assert(after.lanes_wf());
        self.lemma_poll_stages(l);
    }

    /// A step of a dispatch loop that starts a task, or finds one cancelled,
    /// leaves every task in one place.
    proof fn lemma_poll_stages(self, l: int)
        requires
            self.wf(),
            0 <= l < self.width(),
            self.poll_kind(l) == PollKind::Start || self.poll_kind(l) == PollKind::Cancelled,
        ensures
            self.after_poll(l).stages_wf(),
    {
        let after = self.after_poll(l);
        self.lemma_next_task(l);
        self.lemma_fetch_lanes(l, true);
        let rest = self.lane_leftovers(l);
        assert forall|m: int, k: int|
            0 <= m < after.width() && 0 <= k
                < after.queue.lanes[m].items.len() implies after.stages.contains_key(
            (#[trigger] after.queue.lanes[m].items[k]).core.id(),
        ) && after.stages[after.queue.lanes[m].items[k].core.id()] == TaskStage::Queued(m) by {
            if m == l {
                assert(after.queue.lanes[l].items[k] == rest[k + 1]);
                let items = self.queue.lanes[l].items;
                if self.workers[l] is Idle {
                    assert(rest =~= items);
                    assert(self.queue.lanes[l].items[k + 1] == rest[k + 1]);
                } else {
                    assert(self.queue.lanes[l].items[k] == rest[k + 1]);
                }
            } else {
                assert(after.queue.lanes[m] == self.queue.lanes[m]);
                assert(self.queue.lanes[m].items[k].core.id() != self.next_task(l)->0.core.id());
            }
        }
        assert forall|m: int| 0 <= m < after.width() implies ((
        #[trigger] after.workers[m]) matches LaneStage::Holding(task) ==> after.stages.contains_key(
            task.core.id(),
        ) && after.stages[task.core.id()] == TaskStage::Held(m)) by {
            if m != l {
                assert(after.workers[m] == self.workers[m]);
            }
        }
    }

    /// A step of a dispatch loop that finds a task cancelled keeps the pool
    /// sound.
    #[verifier::rlimit(40)]
    proof fn lemma_poll_cancelled_wf(self, l: int)
        requires
            self.wf(),
            0 <= l < self.width(),
            self.poll_kind(l) == PollKind::Cancelled,
        ensures
            self.after_poll(l).wf(),
    {
        let after = self.after_poll(l);
        let fetched = self.after_fetch(l);
        let task = self.next_task(l)->0;
        let id = task.core.id();
        self.lemma_running_alive();
        self.lemma_next_task(l);
        self.lemma_fetch_lanes(l, false);
        assert(fetched.shards_wf());
        assert(fetched.running_alive());
        fetched.lemma_tokens_shards(after.tokens);
        assert(after.shards_wf());
        let passed = RlxdView {
            taken: self.taken.update(
                l,
                self.taken[l].push(Taken { id: id, started: false }),
            ),
            ..fetched
        };
        assert(passed.lanes_wf());
        assert(passed.taken == after.taken);
        assert(passed.workers == after.workers);
        assert(passed.queue == after.queue);
        assert(passed.accepted == after.accepted);
        assert(after.lanes_wf());
        let message = self.message(task.core, TaskCompletionStatus::Cancelled);
        assert(self.notifier.posted.push(message) =~= self.notifier.processed
            + self.notifier.pending.push(message));
        self.lemma_poll_stages(l);
    }

    /// A step of a dispatch loop that leaves it with a task in hand keeps the
    /// pool sound.
    #[verifier::rlimit(40)]
    proof fn lemma_poll_wait_wf(self, l: int)
        requires
            self.wf(),
            0 <= l < self.width(),
            self.poll_kind(l) == PollKind::Wait,
        ensures
            self.after_poll(l).wf(),
    {
        if self.next_task(l) is Some && self.workers[l] is Idle {
            let after = self.after_poll(l);
            let task = self.next_task(l)->0;
            let items = self.queue.lanes[l].items;
            self.lemma_next_task(l);
            self.queue.lemma_waiting_update(
                l,
                ChannelView { items: items.drop_first(), ..self.queue.lanes[l] },
            );
            assert forall|m: int| 0 <= m < after.width() implies rlxd_view::lane_wf(
                #[trigger] after.accepted[m],
                after.taken[m],
                after.workers[m],
                after.queue.lanes[m].items,
            ) by {
                assert(rlxd_view::lane_wf(
                    self.accepted[m],
                    self.taken[m],
                    self.workers[m],
                    self.queue.lanes[m].items,
                ));
                if m == l {
                    assert(rlxd_view::held_tasks(self.workers[l]) + items =~= items);
                    assert(rlxd_view::held_tasks(after.workers[l]) + items.drop_first() =~= items);
                }
            }
            assert(after.shards_wf());
            let rest = self.lane_leftovers(l);
            assert(rest =~= items);
            assert forall|m: int, k: int|
                0 <= m < after.width() && 0 <= k
                    < after.queue.lanes[m].items.len() implies after.stages.contains_key(
                (#[trigger] after.queue.lanes[m].items[k]).core.id(),
            ) && after.stages[after.queue.lanes[m].items[k].core.id()] == TaskStage::Queued(m) by {
                if m == l {
                    assert(after.queue.lanes[l].items[k] == rest[k + 1]);
                    assert(self.queue.lanes[l].items[k + 1] == rest[k + 1]);
                } else {
                    assert(after.queue.lanes[m] == self.queue.lanes[m]);
                    assert(self.queue.lanes[m].items[k].core.id() != task.core.id());
                }
            }
            assert forall|m: int| 0 <= m < after.width() implies ((
            #[trigger] after.workers[m]) matches LaneStage::Holding(held)
                ==> after.stages.contains_key(held.core.id()) && after.stages[held.core.id()]
                == TaskStage::Held(m)) by {
                if m != l {
                    assert(after.workers[m] == self.workers[m]);
                }
            }
            assert(after.stages_wf());
        }
    }

    /// The end of a dispatch loop keeps the pool sound.
    #[verifier::rlimit(40)]
    proof fn lemma_poll_stop_wf(self, l: int)
        requires
            self.wf(),
            0 <= l < self.width(),
            self.poll_kind(l) == PollKind::Stop,
        ensures
            self.after_poll(l).wf(),
    {
        let after = self.after_poll(l);
        let rest = self.lane_leftovers(l);
        let ids = pool_view::task_ids(rest);
        let lost = ids.to_set();
        let lane = ChannelView {
            items: Seq::<ManagedTaskInternal<W>>::empty(),
            receiver_closed: true,
            ..self.queue.lanes[l]
        };
        self.lemma_running_alive();
        self.queue.lemma_waiting_update(l, lane);
        assert(self.shutdown) by {
            assert(self.queue.lanes[l].sender_closed == self.shutdown);
        }
        assert forall|id: u64| lost.contains(id) implies self.stages.contains_key(id) && (
        self.stages[id] == TaskStage::Queued(l) || self.stages[id] == TaskStage::Held(l)) by {
            let k = choose|k: int| 0 <= k < ids.len() && ids[k] == id;
            assert(rest[k].core.id() == id);
            let held = rlxd_view::held_tasks(self.workers[l]);
            if k >= held.len() {
                assert(self.queue.lanes[l].items[k - held.len()] == rest[k]);
            }
        }
        self.lemma_tokens_shards(after.tokens);
        assert(after.shards_wf());
        assert forall|m: int| 0 <= m < after.width() implies rlxd_view::lane_wf(
            #[trigger] after.accepted[m],
            after.taken[m],
            after.workers[m],
            after.queue.lanes[m].items,
        ) by {
            assert(rlxd_view::lane_wf(
                self.accepted[m],
                self.taken[m],
                self.workers[m],
                self.queue.lanes[m].items,
            ));
        }
        assert forall|m: int, k: int|
            0 <= m < after.width() && 0 <= k
                < after.queue.lanes[m].items.len() implies after.stages.contains_key(
            (#[trigger] after.queue.lanes[m].items[k]).core.id(),
        ) && after.stages[after.queue.lanes[m].items[k].core.id()] == TaskStage::Queued(m) by {
            assert(m != l);
            assert(after.queue.lanes[m] == self.queue.lanes[m]);
            assert(self.stages[self.queue.lanes[m].items[k].core.id()] == TaskStage::Queued(m));
        }
        assert forall|m: int| 0 <= m < after.width() implies ((
        #[trigger] after.workers[m]) matches LaneStage::Holding(task) ==> after.stages.contains_key(
            task.core.id(),
        ) && after.stages[task.core.id()] == TaskStage::Held(m)) by {
            if m != l {
                assert(after.workers[m] == self.workers[m]);
            }
        }
        assert(after.stages_wf());
    }

    /// A step of a dispatch loop keeps the pool sound.
    pub proof fn lemma_poll_wf(self, l: int)
        requires
            self.wf(),
            0 <= l < self.width(),
        ensures
            self.after_poll(l).wf(),
    {
        match self.poll_kind(l) {
            PollKind::Wait => self.lemma_poll_wait_wf(l),
            PollKind::Stop => self.lemma_poll_stop_wf(l),
            PollKind::Cancelled => self.lemma_poll_cancelled_wf(l),
            PollKind::Start => self.lemma_poll_start_wf(l),
        }
    }

    /// Closing the lanes for sending leaves everything else as it was.
    proof fn lemma_close_lanes(self)
        requires
            self.wf(),
        ensures
            (RlxdView { shutdown: true, queue: self.queue.after_close(), ..self }).wf(),
    {
        let after = RlxdView { shutdown: true, queue: self.queue.after_close(), ..self };
        assert(lanes::lane_counts(after.queue.lanes) =~= lanes::lane_counts(self.queue.lanes));
        assert forall|m: int| 0 <= m < after.width() implies rlxd_view::lane_wf(
            #[trigger] after.accepted[m],
            after.taken[m],
            after.workers[m],
            after.queue.lanes[m].items,
        ) by {
            assert(after.queue.lanes[m].items == self.queue.lanes[m].items);
        }
        assert forall|m: int, k: int|
            0 <= m < after.width() && 0 <= k
                < after.queue.lanes[m].items.len() implies after.stages.contains_key(
            (#[trigger] after.queue.lanes[m].items[k]).core.id(),
        ) && after.stages[after.queue.lanes[m].items[k].core.id()] == TaskStage::Queued(m) by {
            assert(after.queue.lanes[m].items[k] == self.queue.lanes[m].items[k]);
        }
        assert(after.shards_wf());
        assert forall|m: int| 0 <= m < after.width() && (
        #[trigger] after.workers[m]) is Stopped implies after.shutdown
            && after.queue.lanes[m].items.len() == 0 by {
            assert(self.queue.lanes[m].items.len() == 0);
        }
    }

    /// Whatever a shutdown does keeps the pool sound.
    pub proof fn lemma_shutdown_wf(self, mode: ShutdownMode, initiator: bool, stage: ShutdownStage)
        requires
            self.wf(),
        ensures
            self.after_shutdown(mode).wf(),
            self.shutdown ==> self.after_settle(initiator, stage).wf(),
            self.instances > 0 ==> self.after_instance_drop().wf(),
    {
        let closed = RlxdView { shutdown: true, queue: self.queue.after_close(), ..self };
        self.lemma_close_lanes();
        closed.lemma_tokens_wf(self.shutdown_victims(mode), 0);
        let signalled = self.after_shutdown_signal(mode);
        assert(signalled == closed.after_cancel(self.shutdown_victims(mode)));
        signalled.lemma_parts(
            shutdown::unclaimed_settled(
                shutdown::first_stage(self.active_count()),
                self.unclaimed,
            ),
            shutdown::notifier_settled(
                !self.shutdown,
                shutdown::first_stage(self.active_count()),
                self.unclaimed,
                self.notifier,
            ),
            self.instances,
        );
        if self.shutdown {
            self.lemma_parts(
                shutdown::unclaimed_settled(stage, self.unclaimed),
                shutdown::notifier_settled(initiator, stage, self.unclaimed, self.notifier),
                self.instances,
            );
        }
        if self.instances > 0 {
            let count = (self.instances - 1) as nat;
            closed.lemma_parts(self.unclaimed, self.notifier.after_close(), count);
            self.lemma_parts(self.unclaimed, self.notifier, count);
        }
    }

    /// Notifier, open joins and the number of instances change on their own.
    proof fn lemma_parts(self, unclaimed: usize, notifier: NotifierView<H>, instances: nat)
        requires
            self.wf(),
            notifier.wf(),
            notifier.senders == self.notifier.senders,
            notifier.has_queue() == self.notifier.has_queue(),
            unclaimed <= self.unclaimed,
            notifier.sink == CompletionSink::Closed ==> self.shutdown,
        ensures
            (RlxdView { unclaimed, notifier, instances, ..self }).wf(),
    {
        let after = RlxdView { unclaimed, notifier, instances, ..self };
        assert(after.shards_wf());
        assert(after.lanes_wf());
        assert(after.stages_wf());
    }

    /// A step of the notification worker and the news of a shutdown keep the pool
    /// sound.
    pub proof fn lemma_notifier_wf(self)
        requires
            self.wf(),
        ensures
            (RlxdView { notifier: self.notifier.after_action(), ..self }).wf(),
            (RlxdView {
                notifier: NotifierView { shutdown_noted: true, ..self.notifier },
                ..self
            }).wf(),
    {
        let notifier = self.notifier;
        if notifier.worker == NotifierWorker::Running && notifier.pending.len() > 0 {
            assert(notifier.processed.push(notifier.pending[0]) + notifier.pending.drop_first()
                =~= notifier.processed + notifier.pending);
        }
        self.lemma_parts(self.unclaimed, notifier.after_action(), self.instances);
        self.lemma_parts(
            self.unclaimed,
            NotifierView { shutdown_noted: true, ..notifier },
            self.instances,
        );
    }

    /// Another instance keeps the pool sound.
    pub proof fn lemma_instance_wf(self)
        requires
            self.wf(),
        ensures
            (RlxdView { instances: self.instances + 1, ..self }).wf(),
    {
        self.lemma_parts(self.unclaimed, self.notifier, self.instances + 1);
    }

    /// Every change that can happen keeps a sound pool sound.
    pub proof fn lemma_step_wf(self, op: RlxdOp<W, H>)
        requires
            self.wf(),
            self.allows(op),
        ensures
            self.step(op).wf(),
    {
        match op {
            RlxdOp::Submit(core, work) => self.lemma_submit_wf(core, work),
            RlxdOp::Resume(id) => self.lemma_resume_wf(id),
            RlxdOp::Withdraw(id) => self.lemma_withdraw_wf(id),
            RlxdOp::Poll(l) => self.lemma_poll_wf(l),
            RlxdOp::Record(id, status) => self.lemma_record_wf(id, status),
            RlxdOp::Conclude(id) => self.lemma_conclude_wf(id),
            RlxdOp::Retire(id) => self.lemma_retire_wf(id),
            RlxdOp::Cancel(ids) => self.lemma_tokens_wf(ids, 0),
            RlxdOp::DropHandle(id) => self.lemma_tokens_wf(Set::empty(), id),
            RlxdOp::AddHandler(handler) => self.lemma_handler_wf(handler),
            RlxdOp::Notifier => self.lemma_notifier_wf(),
            RlxdOp::NoteShutdown => self.lemma_notifier_wf(),
            RlxdOp::Shutdown(mode) => {
                self.lemma_shutdown_wf(mode, true, ShutdownStage::Done);
            },
            RlxdOp::ShutdownEvent(run, event) => {
                self.lemma_shutdown_wf(
                    ShutdownMode::Graceful,
                    run.initiator,
                    shutdown::stage_after_event(run.stage, event),
                );
            },
            RlxdOp::AddInstance => self.lemma_instance_wf(),
            RlxdOp::DropInstance => {
                self.lemma_shutdown_wf(ShutdownMode::Graceful, true, ShutdownStage::Done);
            },
        }
    }

    /// The pool after all of `ops`, in order.
    pub open spec fn run(self, ops: Seq<RlxdOp<W, H>>) -> RlxdView<W, H>
        decreases ops.len(),
    {
        if ops.len() == 0 {
            self
        } else {
            self.run(ops.drop_last()).step(ops.last())
        }
    }

    /// All of `ops` can happen to the pool, in order.
    pub open spec fn allows_all(self, ops: Seq<RlxdOp<W, H>>) -> bool
        decreases ops.len(),
    {
        ops.len() > 0 ==> self.allows_all(ops.drop_last()) && self.run(ops.drop_last()).allows(
            ops.last(),
        )
    }

    /// Name, limits and the number of lanes never change.
    pub proof fn lemma_step_keeps_limits(self, op: RlxdOp<W, H>)
        requires
            self.wf(),
            self.allows(op),
        ensures
            self.step(op).name == self.name,
            self.step(op).limit == self.limit,
            self.step(op).queue.capacity == self.queue.capacity,
            self.step(op).width() == self.width(),
    {
    }

    /// A sink that is closed stays closed.
    proof fn lemma_step_keeps_closed(self, op: RlxdOp<W, H>)
        requires
            self.notifier.sink == CompletionSink::Closed,
        ensures
            self.step(op).notifier.sink == CompletionSink::Closed,
            self.step(op).notifier.has_queue() == self.notifier.has_queue(),
    {
    }

    proof fn lemma_run_wf(self, ops: Seq<RlxdOp<W, H>>)
        requires
            self.wf(),
            self.allows_all(ops),
        ensures
            self.run(ops).wf(),
            self.run(ops).name == self.name,
            self.run(ops).limit == self.limit,
            self.run(ops).queue.capacity == self.queue.capacity,
            self.run(ops).width() == self.width(),
        decreases ops.len(),
    {
        if ops.len() > 0 {
            let before = self.run(ops.drop_last());
            self.lemma_run_wf(ops.drop_last());
            before.lemma_step_wf(ops.last());
            before.lemma_step_keeps_limits(ops.last());
        }
    }

    /// No task was routed to two lanes.
    pub open spec fn routed_once(self) -> bool {
        forall|l: int, m: int, k: int, j: int|
            #![trigger self.accepted[l][k], self.accepted[m][j]]
            0 <= l < self.width() && 0 <= m < self.width() && l != m && 0 <= k
                < self.accepted[l].len() && 0 <= j < self.accepted[m].len()
                ==> self.accepted[l][k] != self.accepted[m][j]
    }

    proof fn lemma_accept_once(self, after: RlxdView<W, H>, id: u64)
        requires
            self.wf(),
            self.routed_once(),
            id >= self.next_id || self.stages[id] == TaskStage::Blocked,
            after.width() == self.width(),
            0 <= self.queue.route() < self.width(),
            after.accepted == self.accepted.update(
                self.queue.route(),
                self.accepted[self.queue.route()].push(id),
            ),
        ensures
            after.routed_once(),
    {
        let r = self.queue.route();
        assert forall|l: int, m: int, k: int, j: int|
            #![trigger after.accepted[l][k], after.accepted[m][j]]
            0 <= l < after.width() && 0 <= m < after.width() && l != m && 0 <= k
                < after.accepted[l].len() && 0 <= j
                < after.accepted[m].len() implies after.accepted[l][k] != after.accepted[m][j] by {
            self.lemma_not_accepted(id, l);
            self.lemma_not_accepted(id, m);
            if l == r && k == self.accepted[l].len() {
                assert(self.accepted[m].contains(self.accepted[m][j]));
            } else if m == r && j == self.accepted[m].len() {
                assert(self.accepted[l].contains(self.accepted[l][k]));
            } else {
                assert(self.accepted[l][k] != self.accepted[m][j]);
            }
        }
    }

    proof fn lemma_step_routed_once(self, op: RlxdOp<W, H>)
        requires
            self.wf(),
            self.allows(op),
            self.routed_once(),
        ensures
            self.step(op).routed_once(),
    {
        let after = self.step(op);
        let r = self.queue.route();
        if after.accepted != self.accepted {
            match op {
                RlxdOp::Submit(core, work) => {
                    self.lemma_accept_once(after, self.next_id);
                },
                RlxdOp::Resume(id) => {
                    self.lemma_accept_once(after, id);
                },
                _ => {},
            }
        } else {
            assert(after.width() == self.width());
        }
    }

    /// Task `id` runs no more: it is over, or was reported and will be next.
    pub open spec fn done(self, id: u64) -> bool {
        &&& self.stages.contains_key(id)
        &&& self.stages[id] == TaskStage::Ended || self.can_retire(id)
    }

    /// Task `id` was started, or found cancelled by a dispatch loop.
    pub open spec fn taken_already(self, id: u64) -> bool {
        exists|l: int, k: int|
            0 <= l < self.width() && 0 <= k < self.taken[l].len() && (
            #[trigger] self.taken[l][k]).id == id
    }

    /// Every completion in the queue or processed belongs to one task that was
    /// taken out of a lane and runs no more, and no task has two.
    pub open spec fn reports_wf(self) -> bool {
        let posted = self.notifier.posted;
        &&& forall|i: int, j: int|
            0 <= i < j < posted.len() ==> (#[trigger] posted[i]).core.id() != (
            #[trigger] posted[j]).core.id()
        &&& forall|i: int|
            0 <= i < posted.len() ==> self.done((#[trigger] posted[i]).core.id())
    }

    /// The tasks in `before` ended without being reported; every other task that
    /// was taken out of a lane either runs or has its completion in the queue or
    /// processed.
    pub open spec fn reports_since(self, before: Set<u64>) -> bool {
        &&& self.notifier.has_queue()
        &&& forall|l: int, k: int|
            0 <= l < self.width() && 0 <= k < self.taken[l].len() ==> {
                let id = (#[trigger] self.taken[l][k]).id;
                before.contains(id) || rlxd_view::unreported(self.running).contains(id)
                    || pool_laws::reported(self.notifier.posted, id)
            }
        &&& forall|id: u64| #[trigger]
            before.contains(id) ==> self.done(id) && !pool_laws::reported(self.notifier.posted, id)
    }

    /// A task that was cancelled before a dispatch loop took it up, and has not
    /// started.
    pub open spec fn doomed(self, id: u64) -> bool {
        &&& id < self.next_id
        &&& match self.stages[id] {
            TaskStage::Blocked => token::token_cancelled(self.tokens, id),
            TaskStage::Queued(_) => token::token_cancelled(self.tokens, id),
            TaskStage::Ended => true,
            _ => false,
        }
    }

    /// A task that was taken out of a lane runs or is over.
    proof fn lemma_taken_stage(self, l: int, k: int)
        requires
            self.wf(),
            0 <= l < self.width(),
            0 <= k < self.taken[l].len(),
        ensures
            self.done(self.taken[l][k].id) || rlxd_view::unreported(self.running).contains(
                self.taken[l][k].id,
            ),
    {
    }

    /// A task that runs no more never runs again.
    proof fn lemma_step_done(self, op: RlxdOp<W, H>, id: u64)
        requires
            self.wf(),
            self.allows(op),
            self.done(id),
        ensures
            self.step(op).done(id),
    {
        assert(id < self.next_id);
        if let RlxdOp::Poll(l) = op {
            if self.next_task(l) is Some {
                self.lemma_next_task(l);
            }
        }
    }

    /// A step adds at most one completion, of a task that ran or waited before
    /// and runs no more.
    proof fn lemma_step_posts(self, op: RlxdOp<W, H>)
        requires
            self.wf(),
            self.allows(op),
        ensures
            ({
                let posted = self.notifier.posted;
                let after = self.step(op);
                after.notifier.posted == posted || ({
                    let id = after.notifier.posted.last().core.id();
                    &&& after.notifier.posted == posted.push(after.notifier.posted.last())
                    &&& !self.done(id)
                    &&& after.done(id)
                })
            }),
    {
        let after = self.step(op);
        match op {
            RlxdOp::Poll(l) => {
                if self.next_task(l) is Some {
                    self.lemma_next_task(l);
                }
            },
            RlxdOp::Conclude(id) => {
                if self.can_conclude(id) {
                    assert(after.running.contains_key(id));
                }
            },
            _ => {},
        }
    }

    proof fn lemma_step_reports(self, op: RlxdOp<W, H>)
        requires
            self.wf(),
            self.allows(op),
            self.reports_wf(),
        ensures
            self.step(op).reports_wf(),
    {
        let after = self.step(op);
        let posted = self.notifier.posted;
        self.lemma_step_posts(op);
        assert forall|i: int| 0 <= i < posted.len() implies after.done(
            (#[trigger] posted[i]).core.id(),
        ) by {
            self.lemma_step_done(op, posted[i].core.id());
        }
    }

    proof fn lemma_step_reports_since(self, op: RlxdOp<W, H>, before: Set<u64>)
        requires
            self.wf(),
            self.allows(op),
            self.reports_since(before),
        ensures
            self.step(op).reports_since(before),
    {
        let after = self.step(op);
        let last = self.notifier.posted.len() as int;
        self.lemma_step_posts(op);
        assert forall|id: u64| pool_laws::reported(self.notifier.posted, id) implies pool_laws::reported(
            after.notifier.posted,
            id,
        ) by {
            let i = choose|i: int|
                0 <= i < self.notifier.posted.len() && (
                #[trigger] self.notifier.posted[i]).core.id() == id;
            assert(after.notifier.posted[i].core.id() == id);
        }
        assert forall|id: u64| #[trigger] before.contains(id) implies after.done(id)
            && !pool_laws::reported(after.notifier.posted, id) by {
            self.lemma_step_done(op, id);
            if pool_laws::reported(after.notifier.posted, id) {
                let i = choose|i: int|
                    0 <= i < after.notifier.posted.len() && (
                    #[trigger] after.notifier.posted[i]).core.id() == id;
                if i < last {
                    assert(self.notifier.posted[i].core.id() == id);
                }
            }
        }
        match op {
            RlxdOp::Record(id, status) => self.lemma_record_wf(id, status),
            RlxdOp::Conclude(id) => {
                self.lemma_conclude_wf(id);
                if self.can_conclude(id) {
                    assert(after.notifier.posted[last].core.id() == id);
                }
            },
            RlxdOp::Retire(id) => self.lemma_retire_wf(id),
            _ => {},
        }
        assert forall|l: int, k: int|
            0 <= l < after.width() && 0 <= k < after.taken[l].len() implies {
            let id = (#[trigger] after.taken[l][k]).id;
            before.contains(id) || rlxd_view::unreported(after.running).contains(id)
                || pool_laws::reported(after.notifier.posted, id)
        } by {
            let id = after.taken[l][k].id;
            if k < self.taken[l].len() {
                assert(self.taken[l][k] == after.taken[l][k]);
                if let RlxdOp::Poll(m) = op {
                    if self.next_task(m) is Some {
                        self.lemma_next_task(m);
                    }
                }
            } else if let RlxdOp::Poll(m) = op {
                if self.poll_kind(m) == PollKind::Cancelled {
                    assert(after.notifier.posted[last].core.id() == id);
                }
            }
        }
    }

    proof fn lemma_step_doomed(self, op: RlxdOp<W, H>, id: u64)
        requires
            self.wf(),
            self.allows(op),
            self.doomed(id),
        ensures
            self.step(op).doomed(id),
    {
        assert(self.stages.contains_key(id));
        match op {
            RlxdOp::Poll(l) => {
                if self.next_task(l) is Some {
                    self.lemma_next_task(l);
                }
            },
            _ => {},
        }
    }

    proof fn lemma_run_reports(self, ops: Seq<RlxdOp<W, H>>)
        requires
            self.wf(),
            self.reports_wf(),
            self.routed_once(),
            self.allows_all(ops),
        ensures
            self.run(ops).reports_wf(),
            self.run(ops).routed_once(),
        decreases ops.len(),
    {
        if ops.len() > 0 {
            self.lemma_run_wf(ops.drop_last());
            self.lemma_run_reports(ops.drop_last());
            self.run(ops.drop_last()).lemma_step_reports(ops.last());
            self.run(ops.drop_last()).lemma_step_routed_once(ops.last());
        }
    }

    proof fn lemma_run_reports_since(self, ops: Seq<RlxdOp<W, H>>, before: Set<u64>)
        requires
            self.wf(),
            self.reports_since(before),
            self.allows_all(ops),
        ensures
            self.run(ops).reports_since(before),
        decreases ops.len(),
    {
        if ops.len() > 0 {
            self.lemma_run_wf(ops.drop_last());
            self.lemma_run_reports_since(ops.drop_last(), before);
            self.run(ops.drop_last()).lemma_step_reports_since(ops.last(), before);
        }
    }

    proof fn lemma_run_doomed(self, ops: Seq<RlxdOp<W, H>>, id: u64)
        requires
            self.wf(),
            self.doomed(id),
            self.allows_all(ops),
        ensures
            self.run(ops).wf(),
            self.run(ops).doomed(id),
        decreases ops.len(),
    {
        self.lemma_run_wf(ops);
        if ops.len() > 0 {
            self.lemma_run_doomed(ops.drop_last(), id);
            self.run(ops.drop_last()).lemma_step_doomed(ops.last(), id);
        }
    }
}

/// The limits hold at every moment: whatever happened to a new pool, no more
/// tasks run than the concurrency limit allows and no more wait than the queue
/// has places. Each permit is free or held by one running task: a dispatch loop
/// never holds one. No registry shard grows beyond the concurrency limit.
pub proof fn law_relaxed_limits_hold<W, H>(
    name: Arc<String>,
    limit: nat,
    capacity: nat,
    count: usize,
    ops: Seq<RlxdOp<W, H>>,
)
    requires
        1 <= limit <= usize::MAX,
        count > 0,
        RlxdView::<W, H>::start(name, limit, capacity, count).allows_all(ops),
    ensures
        ({
            let pool = RlxdView::<W, H>::start(name, limit, capacity, count).run(ops);
            &&& pool.wf()
            &&& pool.running.dom().len() <= limit
            &&& pool.permits + pool.running.dom().len() == limit
            &&& pool.active_count() == pool.running.dom().len()
            &&& pool.queue.waiting() <= capacity
            &&& pool.width() == count
            &&& forall|s: int|
                0 <= s < count ==> (#[trigger] pool.shards[s]).entries.len() <= limit
        }),
{
    let start = RlxdView::<W, H>::start(name, limit, capacity, count);
    RlxdView::<W, H>::lemma_start_wf(name, limit, capacity, count);
    start.lemma_run_wf(ops);
    let pool = start.run(ops);
    assert forall|s: int| 0 <= s < count implies (#[trigger] pool.shards[s]).entries.len()
        <= limit by {
        assert(pool.shards[s].entries.len() <= pool.limit);
    }
}

/// Within each lane tasks leave in the order in which they were routed to it,
/// each at most once, and no task is routed to two lanes. With one lane that is
/// the order of all tasks.
pub proof fn law_lanes_keep_their_order<W, H>(
    name: Arc<String>,
    limit: nat,
    capacity: nat,
    count: usize,
    ops: Seq<RlxdOp<W, H>>,
    l: int,
)
    requires
        1 <= limit <= usize::MAX,
        count > 0,
        RlxdView::<W, H>::start(name, limit, capacity, count).allows_all(ops),
        0 <= l < count,
    ensures
        ({
            let pool = RlxdView::<W, H>::start(name, limit, capacity, count).run(ops);
            &&& pool_view::taken_ids(pool.taken[l]).is_prefix_of(pool.accepted[l])
            &&& pool_view::taken_ids(pool.taken[l]).no_duplicates()
            &&& pool.accepted[l].no_duplicates()
            &&& pool.routed_once()
        }),
{
    let start = RlxdView::<W, H>::start(name, limit, capacity, count);
    RlxdView::<W, H>::lemma_start_wf(name, limit, capacity, count);
    start.lemma_run_wf(ops);
    start.lemma_run_reports(ops);
    let pool = start.run(ops);
    assert(rlxd_view::lane_wf(
        pool.accepted[l],
        pool.taken[l],
        pool.workers[l],
        pool.queue.lanes[l].items,
    ));
    let ids = pool_view::taken_ids(pool.taken[l]);
    assert forall|i: int, j: int| 0 <= i < ids.len() && 0 <= j < ids.len() && i != j implies ids[i]
        != ids[j] by {
        assert(ids[i] == pool.accepted[l][i]);
        assert(ids[j] == pool.accepted[l][j]);
    }
}

/// A task that is started past the queue overtakes nobody: no task waits in any
/// lane, and no dispatch loop waits for a permit.
pub proof fn law_direct_start_overtakes_nobody<W, H>(
    pool: RlxdView<W, H>,
    core: Arc<TaskCore>,
    work: W,
    l: int,
)
    requires
        pool.wf(),
        pool.allows(RlxdOp::Submit(core, work)),
        pool.after_submit(core, work).running.contains_key(core.id()),
        0 <= l < pool.width(),
    ensures
        pool.queue.lanes[l].items.len() == 0,
        !(pool.workers[l] is Holding),
        pool.permits > 0,
{
    if !pool.direct_path() {
        assert(!pool.running.contains_key(core.id()));
    }
    pool.queue.lemma_waiting_none(l);
}

/// No lane waits without need: while the pool is not shutting down and a permit
/// is free, a dispatch loop whose next task was not cancelled starts it.
pub proof fn law_lane_starts_its_next_task<W, H>(pool: RlxdView<W, H>, l: int)
    requires
        pool.wf(),
        0 <= l < pool.width(),
        !pool.shutdown,
        pool.running.dom().len() < pool.limit,
        pool.next_task(l) is Some,
        !token::token_cancelled(pool.tokens, pool.next_task(l)->0.core.id()),
    ensures
        pool.poll_kind(l) == PollKind::Start,
        pool.after_poll(l).running.dom() == pool.running.dom().insert(
            pool.next_task(l)->0.core.id(),
        ),
{
    assert(!(pool.workers[l] is Stopped));
    assert(pool.after_poll(l).running.dom() =~= pool.running.dom().insert(
        pool.next_task(l)->0.core.id(),
    ));
}

/// A shutdown is final: nothing that happens afterwards takes it back, accepts
/// a task or starts one.
pub proof fn law_relaxed_shutdown_is_final<W, H>(pool: RlxdView<W, H>, op: RlxdOp<W, H>)
    requires
        pool.wf(),
        pool.shutdown,
        pool.allows(op),
    ensures
        pool.step(op).shutdown,
        pool.step(op).accepted == pool.accepted,
        pool.step(op).taken == pool.taken,
        pool.refuses(),
{
    match op {
        RlxdOp::Resume(id) => {
            assert(pool.queue.lanes[pool.queue.route()].sender_closed == pool.shutdown);
        },
        _ => {},
    }
}

/// A submission that was waiting for a place when the pool shut down is refused
/// with `PoolShuttingDown`. Only where a place is free by then and the dispatch
/// loop of the lane it is routed to has ended, the error is
/// `QueueSendChannelClosed`.
pub proof fn law_relaxed_waiting_submission_is_refused<W, H>(pool: RlxdView<W, H>, id: u64)
    requires
        pool.wf(),
        pool.shutdown,
        pool.blocked.contains_key(id),
    ensures
        pool.resume_outcome(id) == SendOutcome::Refused(
            if !pool.queue.is_full() && pool.workers[pool.queue.route()] is Stopped {
                PoolError::QueueSendChannelClosed
            } else {
                PoolError::PoolShuttingDown
            },
            pool.blocked[id],
        ),
        !pool.after_resume(id).blocked.contains_key(id),
        pool.after_resume(id).queue.lanes == pool.queue.lanes,
{
    assert(pool.queue.lanes[pool.queue.route()].sender_closed == pool.shutdown);
}

/// Cancellation by labels is exact: of all tasks, those that run and carry one
/// of the labels are cancelled, and no token of any other task changes. Waiting
/// tasks are spared. Without labels nothing happens.
pub proof fn law_relaxed_label_cancellation_is_exact<W, H>(
    pool: RlxdView<W, H>,
    labels: Set<Seq<char>>,
    id: u64,
)
    requires
        pool.wf(),
    ensures
        ({
            let hit = rlxd_view::running_labelled(pool.running, labels);
            let after = pool.after_cancel(hit);
            &&& pool.running.contains_key(id) && active::carries(pool.running[id].core, labels)
                ==> token::token_cancelled(after.tokens, id)
            &&& !hit.contains(id) && pool.tokens.contains_key(id) ==> after.tokens[id]
                == pool.tokens[id]
            &&& after.tokens.dom() == pool.tokens.dom()
            &&& pool.stages.contains_key(id) && pool.stages[id] != TaskStage::Running
                ==> !hit.contains(id)
            &&& labels == Set::<Seq<char>>::empty() ==> after == pool
        }),
{
    let hit = rlxd_view::running_labelled(pool.running, labels);
    let after = pool.after_cancel(hit);
    assert(after.tokens.dom() =~= pool.tokens.dom());
    assert(pool.stages.contains_key(id) && pool.stages[id] != TaskStage::Ended
        ==> pool_view::alive(pool.tokens, id));
    if labels == Set::<Seq<char>>::empty() {
        assert(after.tokens =~= pool.tokens);
        assert(after =~= pool);
    }
}

/// A graceful shutdown cancels no task; a forceful one cancels every running
/// task and no other; a second shutdown cancels nothing, whatever its mode.
pub proof fn law_relaxed_shutdown_modes<W, H>(pool: RlxdView<W, H>, mode: ShutdownMode, id: u64)
    requires
        pool.wf(),
    ensures
        pool.after_shutdown(ShutdownMode::Graceful).tokens == pool.tokens,
        !pool.shutdown && pool.running.contains_key(id) ==> token::token_cancelled(
            pool.after_shutdown(ShutdownMode::ForcefulCancel).tokens,
            id,
        ),
        !pool.running.contains_key(id) && pool.tokens.contains_key(id) ==> pool.after_shutdown(
            mode,
        ).tokens[id] == pool.tokens[id],
        pool.shutdown ==> pool.after_shutdown(mode).tokens == pool.tokens,
        pool.after_shutdown(mode).running == pool.running,
        pool.after_shutdown(mode).workers == pool.workers,
{
    assert(pool.running.contains_key(id) ==> pool_view::alive(pool.tokens, id));
    assert(pool.after_shutdown(ShutdownMode::Graceful).tokens =~= pool.tokens);
    if pool.shutdown {
        assert(pool.after_shutdown(mode).tokens =~= pool.tokens);
    }
}

/// What a lane and its dispatch loop have in hand when a shutdown starts is
/// dropped by the loop's next step: no task starts, none is reported, running
/// tasks go on.
pub proof fn law_relaxed_shutdown_drops_the_queue<W, H>(pool: RlxdView<W, H>, l: int)
    requires
        pool.wf(),
        pool.shutdown,
        0 <= l < pool.width(),
    ensures
        pool.poll_kind(l) == PollKind::Stop,
        pool.after_poll(l).queue.lanes[l].items.len() == 0,
        pool.after_poll(l).workers[l] is Stopped,
        pool.after_poll(l).taken == pool.taken,
        pool.after_poll(l).running == pool.running,
        pool.after_poll(l).permits == pool.permits,
        pool.after_poll(l).notifier == pool.notifier,
{
}

/// Cancellation is final: no operation takes a request back while the token
/// exists.
pub proof fn law_relaxed_cancellation_is_final<W, H>(
    pool: RlxdView<W, H>,
    op: RlxdOp<W, H>,
    id: u64,
)
    requires
        pool.wf(),
        pool.allows(op),
        token::token_cancelled(pool.tokens, id),
    ensures
        pool.step(op).tokens.contains_key(id) ==> token::token_cancelled(pool.step(op).tokens, id),
{
}

/// A task that was cancelled while it waited in a lane, or for a place in one,
/// never starts, whatever happens afterwards.
pub proof fn law_relaxed_cancelled_task_never_starts<W, H>(
    pool: RlxdView<W, H>,
    ops: Seq<RlxdOp<W, H>>,
    id: u64,
)
    requires
        pool.wf(),
        token::token_cancelled(pool.tokens, id),
        pool.stages[id] is Blocked || pool.stages[id] is Queued,
        pool.allows_all(ops),
    ensures
        !pool.run(ops).running.contains_key(id),
{
    pool.lemma_run_doomed(ops, id);
}

/// No task is reported twice, and none before it is over.
pub proof fn law_relaxed_no_task_is_reported_twice<W, H>(
    name: Arc<String>,
    limit: nat,
    capacity: nat,
    count: usize,
    ops: Seq<RlxdOp<W, H>>,
)
    requires
        1 <= limit <= usize::MAX,
        count > 0,
        RlxdView::<W, H>::start(name, limit, capacity, count).allows_all(ops),
    ensures
        RlxdView::<W, H>::start(name, limit, capacity, count).run(ops).reports_wf(),
{
    let start = RlxdView::<W, H>::start(name, limit, capacity, count);
    RlxdView::<W, H>::lemma_start_wf(name, limit, capacity, count);
    start.lemma_run_reports(ops);
}

/// The first handler is told of every task that completes after its
/// registration, and of no other: a task that ran at that moment, or was taken
/// out of its lane later, either still runs or is reported, and once the
/// notification worker has ended, each was processed by it. A task that had
/// completed before is never reported.
pub proof fn law_relaxed_every_task_is_reported<W, H>(
    pool: RlxdView<W, H>,
    handler: H,
    ops: Seq<RlxdOp<W, H>>,
    id: u64,
)
    requires
        pool.wf(),
        pool.notifier.sink == CompletionSink::Unset,
        pool.step(RlxdOp::AddHandler(handler)).allows_all(ops),
    ensures
        ({
            let after = pool.step(RlxdOp::AddHandler(handler)).run(ops);
            &&& after.taken_already(id) && !pool.done(id) ==> rlxd_view::unreported(
                after.running,
            ).contains(id) || pool_laws::reported(after.notifier.posted, id)
            &&& after.taken_already(id) && !pool.done(id) && after.notifier.worker
                == NotifierWorker::Stopped ==> pool_laws::reported(after.notifier.processed, id)
            &&& pool.done(id) ==> !pool_laws::reported(after.notifier.posted, id)
        }),
{
    let ready = pool.step(RlxdOp::AddHandler(handler));
    let before = Set::new(|id: u64| pool.done(id));
    pool.lemma_step_wf(RlxdOp::AddHandler(handler));
    assert forall|l: int, k: int|
        0 <= l < ready.width() && 0 <= k < ready.taken[l].len() implies {
        let id = (#[trigger] ready.taken[l][k]).id;
        before.contains(id) || rlxd_view::unreported(ready.running).contains(id)
            || pool_laws::reported(ready.notifier.posted, id)
    } by {
        pool.lemma_taken_stage(l, k);
    }
    assert(ready.reports_since(before));
    ready.lemma_run_wf(ops);
    ready.lemma_run_reports_since(ops, before);
    let after = ready.run(ops);
    assert(before.contains(id) == pool.done(id));
    if after.taken_already(id) {
        let (l, k) = choose|l: int, k: int|
            0 <= l < after.width() && 0 <= k < after.taken[l].len() && (
            #[trigger] after.taken[l][k]).id == id;
        assert(after.taken[l][k].id == id);
    }
    if after.notifier.worker == NotifierWorker::Stopped {
        notifier::law_completions_are_processed_in_order(after.notifier);
        lemma_shard_bounded(after.running, 0);
        vstd::set_lib::lemma_set_empty_equivalency_len(rlxd_view::unreported(after.running));
    }
}

/// A panic stays with its task: a pool in which a task panicked differs from one
/// in which the task returned a value only in the status that is reported.
pub proof fn law_relaxed_panics_are_isolated<W, H>(pool: RlxdView<W, H>, id: u64)
    ensures
        ({
            let panicked = pool.after_record(id, TaskCompletionStatus::Panicked).after_conclude(id);
            let returned = pool.after_record(id, TaskCompletionStatus::Success).after_conclude(id);
            &&& panicked == (RlxdView {
                notifier: panicked.notifier,
                running: panicked.running,
                ..returned
            })
            &&& panicked.after_retire(id) == (RlxdView {
                notifier: panicked.notifier,
                ..returned.after_retire(id)
            })
            &&& panicked.notifier == (NotifierView {
                pending: panicked.notifier.pending,
                posted: panicked.notifier.posted,
                ..returned.notifier
            })
            &&& panicked.notifier.pending.len() == returned.notifier.pending.len()
        }),
{
    let panicked = pool.after_record(id, TaskCompletionStatus::Panicked).after_conclude(id);
    let returned = pool.after_record(id, TaskCompletionStatus::Success).after_conclude(id);
    if pool.can_record(id) {
        assert(panicked.after_retire(id).running =~= returned.after_retire(id).running);
    }
}

/// A started task is counted once, by its shard and by no other, from its start
/// to its end, and holds one permit for as long.
pub proof fn law_started_task_is_counted_once<W, H>(
    pool: RlxdView<W, H>,
    core: Arc<TaskCore>,
    s: int,
    t: int,
)
    requires
        pool.wf(),
        pool.permits > 0,
        !pool.running.contains_key(core.id()),
        0 <= s < pool.width(),
        0 <= t < pool.width(),
    ensures
        ({
            let after = pool.after_start(core, s);
            &&& after.shards[s].in_flight == pool.shards[s].in_flight + 1
            &&& t != s ==> after.shards[t] == pool.shards[t]
            &&& after.running[core.id()].shard == s
            &&& after.permits + 1 == pool.permits
        }),
{
    lemma_running_insert(
        pool.running,
        core.id(),
        pool.after_start(core, s).running[core.id()],
    );
    lemma_shard_bounded(pool.running, s);
    assert(pool.shards[s].in_flight == rlxd_view::shard_tasks(pool.running, s).len());
}

/// A task ends in three steps, none of which can be left out, whether it
/// returned, panicked or was cancelled: its outcome is recorded, and nothing else
/// changes, so that the result can be handed over first; then it is reported,
/// while it still counts; then it is marked finished, its shard and no other
/// counts it out, once, and its permit is free again.
pub proof fn law_relaxed_task_ends_in_steps<W, H>(
    pool: RlxdView<W, H>,
    id: u64,
    status: TaskCompletionStatus,
    t: int,
)
    requires
        pool.wf(),
        pool.can_record(id),
        0 <= t < pool.width(),
    ensures
        pool.after_conclude(id) == pool,
        pool.after_retire(id) == pool,
        ({
            let s = pool.running[id].shard as int;
            let recorded = pool.after_record(id, status);
            let concluded = recorded.after_conclude(id);
            let retired = concluded.after_retire(id);
            &&& recorded == (RlxdView { running: recorded.running, ..pool })
            &&& recorded.running.dom() == pool.running.dom()
            &&& recorded.after_record(id, TaskCompletionStatus::Success) == recorded
            &&& recorded.after_retire(id) == recorded
            &&& concluded == (RlxdView {
                running: concluded.running,
                notifier: concluded.notifier,
                ..pool
            })
            &&& concluded.running.dom() == pool.running.dom()
            &&& concluded.after_conclude(id) == concluded
            &&& !token::token_finished(concluded.tokens, id)
            &&& retired.running == pool.running.remove(id)
            &&& token::token_finished(retired.tokens, id)
            &&& retired.shards[s].in_flight + 1 == pool.shards[s].in_flight
            &&& t != s ==> retired.shards[t] == pool.shards[t]
            &&& retired.active_count() + 1 == pool.active_count()
            &&& retired.permits == pool.permits + 1
            &&& retired.notifier == concluded.notifier
            &&& retired.after_retire(id) == retired
        }),
{
    let s = pool.running[id].shard as int;
    let recorded = pool.after_record(id, status);
    let concluded = recorded.after_conclude(id);
    let retired = concluded.after_retire(id);
    assert(!pool.running[id].concluded);
    pool.lemma_record_wf(id, status);
    recorded.lemma_conclude_wf(id);
    concluded.lemma_retire_wf(id);
    assert(recorded.running.dom() =~= pool.running.dom());
    assert(concluded.running.dom() =~= pool.running.dom());
    assert(retired.running =~= pool.running.remove(id));
    assert(pool.shards[s].in_flight == rlxd_view::shard_tasks(pool.running, s).len());
    assert(rlxd_view::shard_tasks(pool.running, s).contains(id));
    vstd::set_lib::lemma_set_empty_equivalency_len(rlxd_view::shard_tasks(pool.running, s));
    pool.lemma_running_alive();
}

/// A started task has one result and one notification. Whatever its future does
/// and whenever its cancellation is requested, what `relaxed_course` finds is the
/// result, and once a handler was registered, what is queued is one completion of
/// that task, with its labels, the name of the pool and the status that stands
/// for the result.
pub proof fn law_relaxed_one_result_and_one_notification<W, H, R>(
    pool: RlxdView<W, H>,
    id: u64,
    wakes: Seq<Wake<R>>,
    result: Result<R, PoolError>,
)
    requires
        pool.wf(),
        pool.can_record(id),
        pool.notifier.has_queue(),
        execution::relaxed_course(wakes).outcome == Some(result),
    ensures
        ({
            let status = notifier::status_of(result);
            let after = pool.after_record(id, status).after_conclude(id);
            let message = after.notifier.posted.last();
            &&& after.notifier.posted == pool.notifier.posted.push(message)
            &&& message.core == pool.running[id].core
            &&& message.core.id() == id
            &&& message.pool_name == pool.name
            &&& message.status == status
            &&& !after.can_record(id)
            &&& !after.can_conclude(id)
        }),
{
    assert(!pool.running[id].concluded);
}

/// Dropping an instance while others exist changes nothing else; dropping the
/// last one starts a shutdown that cancels no task, unless one was started
/// before, and in any case leaves the completion queue without its pool-wide
/// sender.
pub proof fn law_relaxed_last_instance_shuts_down<W, H>(pool: RlxdView<W, H>)
    requires
        pool.wf(),
        pool.instances > 0,
    ensures
        pool.instances > 1 ==> pool.after_instance_drop() == (RlxdView {
            instances: (pool.instances - 1) as nat,
            ..pool
        }),
        pool.instances == 1 ==> pool.after_instance_drop().shutdown
            && pool.after_instance_drop().tokens == pool.tokens
            && pool.after_instance_drop().running == pool.running
            && pool.after_instance_drop().notifier.sink == CompletionSink::Closed,
{
}

/// A relaxed pool together with one call of its `shutdown`.
pub struct RlxdShutdownCourse<W, H> {
    /// The pool.
    pub pool: RlxdView<W, H>,
    /// The call.
    pub run: ShutdownRun,
}

/// What happens while a call of `shutdown` is under way.
pub enum RlxdCourseStep<W, H> {
    /// The call learns of an event.
    Event(ShutdownEvent),
    /// Something else happens to the pool.
    Other(RlxdOp<W, H>),
}

impl<W, H> RlxdShutdownCourse<W, H> {
    /// Right after the call.
    pub open spec fn begin(pool: RlxdView<W, H>, mode: ShutdownMode) -> RlxdShutdownCourse<W, H> {
        RlxdShutdownCourse { pool: pool.after_shutdown(mode), run: pool.shutdown_run() }
    }

    /// `step` can happen.
    pub open spec fn allows(self, step: RlxdCourseStep<W, H>) -> bool {
        match step {
            RlxdCourseStep::Event(_) => true,
            RlxdCourseStep::Other(op) => self.pool.allows(op),
        }
    }

    /// After `step`.
    pub open spec fn step(self, step: RlxdCourseStep<W, H>) -> RlxdShutdownCourse<W, H> {
        match step {
            RlxdCourseStep::Event(event) => RlxdShutdownCourse {
                pool: self.pool.after_shutdown_event(self.run, event),
                run: ShutdownRun {
                    initiator: self.run.initiator,
                    stage: shutdown::stage_settled(
                        shutdown::stage_after_event(self.run.stage, event),
                        self.pool.unclaimed,
                        self.pool.notifier.joinable,
                    ),
                },
            },
            RlxdCourseStep::Other(op) => RlxdShutdownCourse { pool: self.pool.step(op), ..self },
        }
    }

    /// After all of `steps`, in order.
    pub open spec fn go(self, steps: Seq<RlxdCourseStep<W, H>>) -> RlxdShutdownCourse<W, H>
        decreases steps.len(),
    {
        if steps.len() == 0 {
            self
        } else {
            self.go(steps.drop_last()).step(steps.last())
        }
    }

    /// All of `steps` can happen, in order.
    pub open spec fn allows_all(self, steps: Seq<RlxdCourseStep<W, H>>) -> bool
        decreases steps.len(),
    {
        steps.len() > 0 ==> self.allows_all(steps.drop_last()) && self.go(
            steps.drop_last(),
        ).allows(steps.last())
    }

    /// The call waits for nothing but the notification worker any more.
    pub open spec fn workers_done(self) -> bool {
        self.run.stage == ShutdownStage::AwaitNotifier || self.run.stage == ShutdownStage::Done
    }

    /// What holds at every moment of a call on a pool with `count` lanes.
    spec fn sound(self, count: nat) -> bool {
        &&& self.pool.wf()
        &&& self.pool.shutdown
        &&& self.pool.width() == count
        &&& self.run.initiator && self.workers_done() ==> self.pool.notifier.sink
            == CompletionSink::Closed
        &&& self.run.stage != ShutdownStage::ActiveOver
        &&& self.run.stage matches ShutdownStage::JoinWorkers(left) ==> left <= count
    }

    #[verifier::rlimit(40)]
    proof fn lemma_event_sound(self, event: ShutdownEvent, count: nat)
        requires
            self.sound(count),
        ensures
            self.step(RlxdCourseStep::Event(event)).sound(count),
    {
        self.pool.lemma_shutdown_wf(
            ShutdownMode::Graceful,
            self.run.initiator,
            shutdown::stage_after_event(self.run.stage, event),
        );
    }

    #[verifier::rlimit(40)]
    proof fn lemma_other_sound(self, op: RlxdOp<W, H>, count: nat)
        requires
            self.sound(count),
            self.pool.allows(op),
        ensures
            self.step(RlxdCourseStep::Other(op)).sound(count),
    {
        self.pool.lemma_step_wf(op);
        self.pool.lemma_step_keeps_limits(op);
        if self.pool.notifier.sink == CompletionSink::Closed {
            self.pool.lemma_step_keeps_closed(op);
        }
        law_relaxed_shutdown_is_final(self.pool, op);
    }

    proof fn lemma_sound(pool: RlxdView<W, H>, mode: ShutdownMode, steps: Seq<RlxdCourseStep<W, H>>)
        requires
            pool.wf(),
            RlxdShutdownCourse::begin(pool, mode).allows_all(steps),
        ensures
            RlxdShutdownCourse::begin(pool, mode).go(steps).sound(pool.width()),
            RlxdShutdownCourse::begin(pool, mode).go(steps).run.initiator == !pool.shutdown,
        decreases steps.len(),
    {
        let begun = RlxdShutdownCourse::begin(pool, mode);
        if steps.len() == 0 {
            pool.lemma_shutdown_wf(mode, true, ShutdownStage::Done);
        } else {
            let before = begun.go(steps.drop_last());
            RlxdShutdownCourse::lemma_sound(pool, mode, steps.drop_last());
            match steps.last() {
                RlxdCourseStep::Event(event) => before.lemma_event_sound(event, pool.width()),
                RlxdCourseStep::Other(op) => before.lemma_other_sound(op, pool.width()),
            }
        }
    }
}

/// After a shutdown no handler opens the completion queue. Once the call that
/// started the shutdown waits for no dispatch loop any more, the sink is closed,
/// whether or not the pool ever had a handler; from then on it stays closed, and
/// a new handler changes nothing but the list of handlers.
pub proof fn law_relaxed_no_handler_opens_the_queue_after_shutdown<W, H>(
    pool: RlxdView<W, H>,
    mode: ShutdownMode,
    steps: Seq<RlxdCourseStep<W, H>>,
    handler: H,
)
    requires
        pool.wf(),
        !pool.shutdown,
        RlxdShutdownCourse::begin(pool, mode).allows_all(steps),
        RlxdShutdownCourse::begin(pool, mode).go(steps).workers_done(),
    ensures
        ({
            let after = RlxdShutdownCourse::begin(pool, mode).go(steps).pool;
            &&& after.notifier.sink == CompletionSink::Closed
            &&& after.after_handler(handler).notifier == (NotifierView {
                handlers: after.notifier.handlers.push(handler),
                ..after.notifier
            })
        }),
{
    RlxdShutdownCourse::lemma_sound(pool, mode, steps);
}

/// A call of `shutdown` waits at most once for the active tasks, once for each
/// dispatch loop and once for the notification worker, and at most thirty seconds
/// for the first and five for each other.
pub proof fn law_relaxed_shutdown_waits_are_bounded<W, H>(
    pool: RlxdView<W, H>,
    mode: ShutdownMode,
    steps: Seq<RlxdCourseStep<W, H>>,
)
    requires
        pool.wf(),
        RlxdShutdownCourse::begin(pool, mode).allows_all(steps),
    ensures
        ({
            let course = RlxdShutdownCourse::begin(pool, mode).go(steps);
            &&& shutdown::waits_left(course.run.stage, course.pool.unclaimed) <= pool.width() + 2
            &&& shutdown::time_left(course.run.stage, course.pool.unclaimed) <= 30_000 + 5_000 * (
            pool.width() + 1)
        }),
{
    RlxdShutdownCourse::lemma_sound(pool, mode, steps);
}

/// A closed sink stays closed whatever happens to the pool, and where no queue
/// for completions was built before, none is built any more.
pub proof fn law_relaxed_closed_sink_stays_closed<W, H>(pool: RlxdView<W, H>, ops: Seq<RlxdOp<W, H>>)
    requires
        pool.notifier.sink == CompletionSink::Closed,
    ensures
        pool.run(ops).notifier.sink == CompletionSink::Closed,
        pool.run(ops).notifier.has_queue() == pool.notifier.has_queue(),
    decreases ops.len(),
{
    if ops.len() > 0 {
        law_relaxed_closed_sink_stays_closed(pool, ops.drop_last());
        pool.run(ops.drop_last()).lemma_step_keeps_closed(ops.last());
    }
}

/// A running task stays in its shard, is counted there and keeps its permit until
/// it is retired, whatever else happens.
pub proof fn law_relaxed_running_task_stays<W, H>(
    pool: RlxdView<W, H>,
    op: RlxdOp<W, H>,
    id: u64,
)
    requires
        pool.wf(),
        pool.allows(op),
        pool.running.contains_key(id),
    ensures
        ({
            let after = pool.step(op);
            op != RlxdOp::<W, H>::Retire(id) ==> {
                &&& after.running.contains_key(id)
                &&& after.running[id].core == pool.running[id].core
                &&& after.running[id].shard == pool.running[id].shard
                &&& after.shards[pool.running[id].shard as int].in_flight
                    == rlxd_view::shard_tasks(after.running, pool.running[id].shard as int).len()
                &&& after.permits + after.running.dom().len() == after.limit
                &&& !token::token_finished(after.tokens, id)
            }
        }),
{
    pool.lemma_step_wf(op);
    pool.step(op).lemma_running_alive();
    if let RlxdOp::Poll(l) = op {
        if pool.next_task(l) is Some {
            pool.lemma_next_task(l);
        }
    }
}

/// Numbers never repeat: each submission that is not refused uses up one number,
/// and nothing gives a number back.
pub proof fn law_relaxed_numbers_never_repeat<W, H>(pool: RlxdView<W, H>, op: RlxdOp<W, H>)
    requires
        pool.allows(op),
    ensures
        pool.step(op).next_id == pool.next_id + (if op is Submit {
            1int
        } else {
            0int
        }),
{
}

} // verus!
