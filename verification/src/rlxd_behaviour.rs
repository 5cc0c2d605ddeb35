//! What each operation of the pool with several dispatch loops does, told by the
//! parts of the pool before and after it.

use std::sync::Arc;
use vstd::prelude::*;

use crate::active;
use crate::behaviour;
use crate::channel::ChannelView;
use crate::error::PoolError;
use crate::lanes;
use crate::lanes::LanesView;
use crate::notifier::{
    CompletionSink, InternalCompletionMessage, NotifierAction, NotifierView, NotifierWorker,
    TaskCompletionStatus,
};
use crate::pool_view;
use crate::pool_view::{PollKind, Taken};
use crate::rlxd_view;
use crate::rlxd_view::{LaneStage, RlxdOp, RlxdView, RunningTask, ShardView, TaskStage};
use crate::shutdown;
use crate::shutdown::{ShutdownEvent, ShutdownMode, ShutdownRun, ShutdownStage};
use crate::slots;
use crate::task::TaskCore;
use crate::task_queue::{ManagedTaskInternal, SendOutcome};
use crate::token::TokenRecord;

verus! {

/// `count` plus one, as a machine word counts.
pub open spec fn next_turn(count: usize) -> usize {
    if count == usize::MAX {
        0
    } else {
        (count + 1) as usize
    }
}

/// The number of tasks in all of `lanes`.
pub open spec fn tasks_in<W>(lanes: Seq<ChannelView<ManagedTaskInternal<W>>>) -> nat
    decreases lanes.len(),
{
    if lanes.len() == 0 {
        0
    } else {
        tasks_in(lanes.drop_last()) + lanes.last().items.len()
    }
}

/// From `before` to `after` the shard got one more task, `core`: it is listed and
/// counted, no unfinished task is lost, and no other comes in.
pub open spec fn shard_gained(
    before: ShardView,
    after: ShardView,
    tokens: Map<u64, TokenRecord>,
    core: Arc<TaskCore>,
) -> bool {
    &&& after.in_flight == before.in_flight + 1
    &&& exists|i: int|
        0 <= i < after.entries.len() && #[trigger] after.entries[i] == Some(core) && (forall|j: int|
            #![trigger after.entries[j]]
            0 <= j < after.entries.len() && j != i && after.entries[j] is Some ==> j
                < before.entries.len() && after.entries[j] == before.entries[j])
    &&& forall|j: int|
        #![trigger before.entries[j]]
        0 <= j < before.entries.len() && before.entries[j] is Some && tokens.contains_key(
            before.entries[j]->0.id(),
        ) && !tokens[before.entries[j]->0.id()].state.finished ==> j < after.entries.len()
            && after.entries[j] == before.entries[j]
}

/// The number of waiting tasks is the number of tasks in the lanes.
pub proof fn law_waiting_tasks_are_those_in_the_lanes<W>(queue: LanesView<W>)
    ensures
        queue.waiting() == tasks_in(queue.lanes),
    decreases queue.lanes.len(),
{
    let counts = lanes::lane_counts(queue.lanes);
    if queue.lanes.len() > 0 {
        let head = LanesView { lanes: queue.lanes.drop_last(), ..queue };
        law_waiting_tasks_are_those_in_the_lanes(head);
        assert(counts.drop_last() =~= lanes::lane_counts(head.lanes));
    }
}

/// A new pool is empty: nothing waits, runs or was cancelled, all permits are
/// free, the first task gets number 0 and goes to the first lane.
pub proof fn law_relaxed_new_pool_is_empty<W, H>(
    name: Arc<String>,
    limit: nat,
    capacity: nat,
    count: usize,
    l: int,
)
    requires
        0 <= l < count,
    ensures
        ({
            let pool = RlxdView::<W, H>::start(name, limit, capacity, count);
            &&& pool.name == name
            &&& pool.limit == limit
            &&& pool.permits == limit
            &&& pool.workers.len() == count
            &&& pool.workers[l] is Idle
            &&& pool.queue.lanes.len() == count
            &&& pool.queue.lanes[l].items.len() == 0
            &&& !pool.queue.lanes[l].sender_closed
            &&& !pool.queue.lanes[l].receiver_closed
            &&& pool.queue.capacity == capacity
            &&& pool.queue.next_lane == 0
            &&& pool.shards.len() == count
            &&& pool.shards[l].entries.len() == 0
            &&& pool.shards[l].free.len() == 0
            &&& pool.shards[l].in_flight == 0
            &&& pool.blocked.dom() == Set::<u64>::empty()
            &&& pool.running.dom() == Set::<u64>::empty()
            &&& pool.tokens.dom() == Set::<u64>::empty()
            &&& !pool.shutdown
            &&& pool.next_id == 0
            &&& pool.notifier.handlers.len() == 0
            &&& pool.notifier.sink == CompletionSink::Unset
            &&& pool.notifier.worker == NotifierWorker::Idle
            &&& pool.notifier.pending.len() == 0
            &&& pool.notifier.posted.len() == 0
            &&& pool.notifier.processed.len() == 0
            &&& pool.notifier.senders == 0
            &&& !pool.notifier.joinable
            &&& !pool.notifier.shutdown_noted
            &&& pool.unclaimed == count
            &&& pool.instances == 1
        }),
{
    let pool = RlxdView::<W, H>::start(name, limit, capacity, count);
    assert(pool.blocked.dom() =~= Set::<u64>::empty());
    assert(pool.running.dom() =~= Set::<u64>::empty());
    assert(pool.tokens.dom() =~= Set::<u64>::empty());
}

/// Permits are conserved: in every pool the free ones and those of the running
/// tasks make up the limit, no more tasks wait than have places, and the number of
/// active tasks is the number of running ones.
pub proof fn law_relaxed_permits_are_conserved<W, H>(pool: RlxdView<W, H>)
    requires
        pool.wf(),
    ensures
        pool.permits + pool.running.dom().len() == pool.limit,
        tasks_in(pool.queue.lanes) <= pool.queue.capacity,
        pool.active_count() == pool.running.dom().len(),
        pool.limit >= 1,
        pool.queue.lanes.len() >= 1,
{
    law_waiting_tasks_are_those_in_the_lanes(pool.queue);
}

/// Nothing but a shutdown makes a pool refuse tasks, however many submissions
/// wait for a place.
pub proof fn law_relaxed_only_a_shutdown_refuses<W, H>(
    pool: RlxdView<W, H>,
    core: Arc<TaskCore>,
    work: W,
)
    requires
        pool.wf(),
    ensures
        pool.refuses() <==> pool.shutdown,
        pool.allows(RlxdOp::Submit(core, work)) <==> !pool.shutdown && core.id() == pool.next_id
            && pool.next_id < u64::MAX,
{
    if !pool.shutdown {
        assert(!pool.queue.lanes[0].sender_closed);
        assert(!(pool.workers[0] is Stopped));
        assert(!pool.queue.lanes[0].receiver_closed);
        assert(!pool.queue.lanes[0].closed());
    }
}

/// A new task is started past the queue exactly if nothing waits in any lane, no
/// dispatch loop waits with a task, and a permit is free.
pub proof fn law_direct_start_needs_an_idle_pool<W, H>(pool: RlxdView<W, H>)
    ensures
        pool.direct_path() <==> pool.permits > 0 && tasks_in(pool.queue.lanes) == 0 && forall|l: int|
            0 <= l < pool.workers.len() ==> !((#[trigger] pool.workers[l]) is Holding),
        pool.queue.is_full() <==> tasks_in(pool.queue.lanes) >= pool.queue.capacity,
{
    law_waiting_tasks_are_those_in_the_lanes(pool.queue);
}

/// A submission that is not refused gets the next number and a fresh token. In an
/// idle pool it is started at once, in the shard of the lane whose turn it is. Else
/// it goes to the back of that lane if a place is free, and waits for one
/// otherwise. Nothing else changes, and only a task that got a lane uses up its
/// turn.
pub proof fn law_relaxed_submission_starts_queues_or_waits<W, H>(
    pool: RlxdView<W, H>,
    core: Arc<TaskCore>,
    work: W,
)
    requires
        pool.wf(),
        !pool.shutdown,
        core.id() == pool.next_id,
        pool.next_id < u64::MAX,
    ensures
        ({
            let after = pool.after_submit(core, work);
            let task = ManagedTaskInternal { core, work };
            let s = pool.queue.next_lane as int % pool.queue.lanes.len() as int;
            let idle = pool.permits > 0 && tasks_in(pool.queue.lanes) == 0 && forall|l: int|
                0 <= l < pool.workers.len() ==> !((#[trigger] pool.workers[l]) is Holding);
            let room = tasks_in(pool.queue.lanes) < pool.queue.capacity;
            let open = pool.notifier.sink == CompletionSink::Open;
            &&& after.next_id == pool.next_id + 1
            &&& behaviour::only_added(pool.tokens, after.tokens, pool.next_id)
            &&& idle ==> after.running == pool.running.insert(
                pool.next_id,
                RunningTask { core, shard: s as usize, status: None, concluded: false },
            )
            &&& idle ==> after.permits + 1 == pool.permits
            &&& idle ==> after.queue == (LanesView {
                next_lane: next_turn(pool.queue.next_lane),
                ..pool.queue
            })
            &&& idle ==> after.shards == pool.shards.update(s, after.shards[s])
            &&& idle ==> shard_gained(pool.shards[s], after.shards[s], after.tokens, core)
            &&& idle ==> after.notifier == (NotifierView {
                senders: if open {
                    pool.notifier.senders + 1
                } else {
                    pool.notifier.senders
                },
                ..pool.notifier
            })
            &&& idle ==> after.taken == pool.taken.update(
                s,
                pool.taken[s].push(Taken { id: pool.next_id, started: true }),
            )
            &&& !idle ==> after.running == pool.running && after.permits == pool.permits
                && after.shards == pool.shards && after.notifier == pool.notifier && after.taken
                == pool.taken
            &&& !idle && room ==> after.queue == (LanesView {
                lanes: pool.queue.lanes.update(
                    s,
                    ChannelView {
                        items: pool.queue.lanes[s].items.push(task),
                        ..pool.queue.lanes[s]
                    },
                ),
                next_lane: next_turn(pool.queue.next_lane),
                ..pool.queue
            })
            &&& idle || room ==> after.blocked == pool.blocked && after.accepted
                == pool.accepted.update(s, pool.accepted[s].push(pool.next_id))
            &&& !idle && !room ==> after.queue == pool.queue && after.blocked
                == pool.blocked.insert(pool.next_id, task) && after.accepted == pool.accepted
            &&& after == (RlxdView {
                next_id: after.next_id,
                tokens: after.tokens,
                running: after.running,
                permits: after.permits,
                queue: after.queue,
                shards: after.shards,
                notifier: after.notifier,
                taken: after.taken,
                accepted: after.accepted,
                blocked: after.blocked,
                stages: after.stages,
                ..pool
            })
        }),
{
    let after = pool.after_submit(core, work);
    let s = pool.queue.next_lane as int % pool.queue.lanes.len() as int;
    law_direct_start_needs_an_idle_pool(pool);
    if pool.direct_path() {
        pool.lemma_count_room(s);
        law_relaxed_only_a_shutdown_refuses(pool, core, work);
        pool.lemma_submit_wf(core, work);
        assert(after.shards[s].entries.len() <= after.limit);
        lemma_gained(pool.after_number(TaskStage::Running), core, s);
    }
}

/// A waiting submission that tries again is queued in the lane whose turn it is
/// once a place is free, and waits on while none is, as long as the pool is not
/// shutting down. Afterwards it is refused.
pub proof fn law_relaxed_waiting_submission_tries_again<W, H>(pool: RlxdView<W, H>, id: u64)
    requires
        pool.wf(),
    ensures
        ({
            let after = pool.after_resume(id);
            let waits = pool.blocked.contains_key(id);
            let s = pool.queue.next_lane as int % pool.queue.lanes.len() as int;
            let room = tasks_in(pool.queue.lanes) < pool.queue.capacity;
            let gone = room && pool.queue.lanes[s].receiver_closed;
            &&& !waits ==> after == pool
            &&& waits && !pool.shutdown && !room ==> pool.resume_outcome(id) == SendOutcome::Full(
                pool.blocked[id],
            ) && after == pool
            &&& waits && !pool.shutdown && room ==> pool.resume_outcome(id)
                == SendOutcome::<W>::Sent && after == (RlxdView {
                queue: LanesView {
                    lanes: pool.queue.lanes.update(
                        s,
                        ChannelView {
                            items: pool.queue.lanes[s].items.push(pool.blocked[id]),
                            ..pool.queue.lanes[s]
                        },
                    ),
                    next_lane: next_turn(pool.queue.next_lane),
                    ..pool.queue
                },
                blocked: pool.blocked.remove(id),
                accepted: pool.accepted.update(s, pool.accepted[s].push(id)),
                stages: after.stages,
                ..pool
            })
            &&& waits && pool.shutdown ==> pool.resume_outcome(id) == SendOutcome::Refused(
                if gone {
                    PoolError::QueueSendChannelClosed
                } else {
                    PoolError::PoolShuttingDown
                },
                pool.blocked[id],
            ) && behaviour::only_finished(
                pool.tokens,
                after.tokens,
                Set::<u64>::empty().insert(id),
            ) && after == (RlxdView {
                queue: LanesView {
                    next_lane: if room {
                        next_turn(pool.queue.next_lane)
                    } else {
                        pool.queue.next_lane
                    },
                    ..pool.queue
                },
                blocked: pool.blocked.remove(id),
                tokens: after.tokens,
                stages: after.stages,
                ..pool
            })
        }),
{
    let s = pool.queue.next_lane as int % pool.queue.lanes.len() as int;
    law_waiting_tasks_are_those_in_the_lanes(pool.queue);
    assert(pool.queue.lanes[s].sender_closed == pool.shutdown);
    assert(pool.queue.lanes[s].receiver_closed == (pool.workers[s] is Stopped));
    assert(pool.workers[s] is Stopped ==> pool.shutdown);
    if pool.blocked.contains_key(id) {
        assert(pool.blocked[id].core.id() == id);
    }
}

/// A waiting submission that is given up leaves nothing behind but, while a handle
/// needs it, its token.
pub proof fn law_relaxed_withdrawn_submission_is_gone<W, H>(pool: RlxdView<W, H>, id: u64)
    ensures
        ({
            let after = pool.after_withdraw(id);
            &&& after.blocked == pool.blocked.remove(id)
            &&& pool.blocked.contains_key(id) ==> behaviour::only_finished(
                pool.tokens,
                after.tokens,
                Set::<u64>::empty().insert(id),
            )
            &&& !pool.blocked.contains_key(id) ==> after.tokens == pool.tokens
            &&& after == (RlxdView {
                blocked: after.blocked,
                tokens: after.tokens,
                stages: after.stages,
                ..pool
            })
        }),
{
    assert(pool.after_withdraw(id).blocked =~= pool.blocked.remove(id));
}

/// While the pool is not shutting down and a permit is free, an idle dispatch loop
/// whose lane holds tasks takes the oldest one out of the lane with its next step.
/// If its token was triggered it is reported as cancelled; otherwise it is started.
/// How many submissions wait for a place makes no difference.
pub proof fn law_idle_lane_takes_its_oldest_task<W, H>(pool: RlxdView<W, H>, l: int)
    requires
        pool.wf(),
        0 <= l < pool.queue.lanes.len(),
        !pool.shutdown,
        pool.workers[l] is Idle,
        pool.queue.lanes[l].items.len() > 0,
    ensures
        ({
            let after = pool.after_poll(l);
            let task = pool.queue.lanes[l].items[0];
            let id = task.core.id();
            let cancelled = pool.tokens.contains_key(id) && pool.tokens[id].state.cancelled;
            let open = pool.notifier.sink == CompletionSink::Open;
            let message = InternalCompletionMessage {
                core: task.core,
                pool_name: pool.name,
                status: TaskCompletionStatus::Cancelled,
            };
            &&& pool.next_task(l) == Some(task)
            &&& after.queue == (LanesView {
                lanes: pool.queue.lanes.update(
                    l,
                    ChannelView {
                        items: pool.queue.lanes[l].items.drop_first(),
                        ..pool.queue.lanes[l]
                    },
                ),
                ..pool.queue
            })
            &&& cancelled ==> pool.poll_kind(l) == PollKind::Cancelled && after.workers
                == pool.workers && after.running == pool.running && after.shards == pool.shards
                && after.permits == pool.permits
            &&& cancelled ==> behaviour::only_finished(
                pool.tokens,
                after.tokens,
                Set::<u64>::empty().insert(id),
            )
            &&& cancelled ==> after.taken == pool.taken.update(
                l,
                pool.taken[l].push(Taken { id, started: false }),
            )
            &&& cancelled && open ==> after.notifier == (NotifierView {
                pending: pool.notifier.pending.push(message),
                posted: pool.notifier.posted.push(message),
                ..pool.notifier
            })
            &&& cancelled && !open ==> after.notifier == pool.notifier
            &&& !cancelled ==> after.tokens == pool.tokens
            &&& !cancelled && pool.permits > 0 ==> pool.poll_kind(l) == PollKind::Start
                && after.workers == pool.workers && started(pool, after, task.core, l)
            &&& !cancelled && pool.permits == 0 ==> pool.poll_kind(l) == PollKind::Wait
                && after.workers == pool.workers.update(l, LaneStage::Holding(task))
                && after.running == pool.running && after.shards == pool.shards && after.permits
                == pool.permits && after.notifier == pool.notifier && after.taken == pool.taken
            &&& after == (RlxdView {
                queue: after.queue,
                workers: after.workers,
                running: after.running,
                shards: after.shards,
                permits: after.permits,
                tokens: after.tokens,
                taken: after.taken,
                notifier: after.notifier,
                stages: after.stages,
                ..pool
            })
        }),
{
    let after = pool.after_poll(l);
    let task = pool.queue.lanes[l].items[0];
    assert(pool.queue.lanes[l].receiver_closed == (pool.workers[l] is Stopped));
    assert(after.queue.lanes =~= pool.queue.lanes.update(
        l,
        ChannelView {
            items: pool.queue.lanes[l].items.drop_first(),
            ..pool.queue.lanes[l]
        },
    ));
    if pool.poll_kind(l) == PollKind::Start {
        pool.lemma_count_room(l);
        pool.lemma_poll_wf(l);
        assert(after.shards[l].entries.len() <= after.limit);
        lemma_gained(pool, task.core, l);
    }
}

/// A dispatch loop that holds a task starts it once a permit is free, and waits
/// with it until then. Its lane is left alone meanwhile.
pub proof fn law_held_task_starts_with_a_permit<W, H>(pool: RlxdView<W, H>, l: int)
    requires
        pool.wf(),
        0 <= l < pool.queue.lanes.len(),
        !pool.shutdown,
        pool.workers[l] is Holding,
    ensures
        pool.next_task(l) == Some(pool.workers[l]->Holding_0),
        pool.permits == 0 ==> pool.poll_kind(l) == PollKind::Wait && pool.after_poll(l) == pool,
        pool.permits > 0 ==> pool.poll_kind(l) == PollKind::Start && started(
            pool,
            pool.after_poll(l),
            pool.workers[l]->Holding_0.core,
            l,
        ) && pool.after_poll(l).workers == pool.workers.update(l, LaneStage::Idle)
            && pool.after_poll(l).queue == pool.queue && pool.after_poll(l).tokens == pool.tokens
            && pool.after_poll(l) == (RlxdView {
            workers: pool.after_poll(l).workers,
            running: pool.after_poll(l).running,
            shards: pool.after_poll(l).shards,
            permits: pool.after_poll(l).permits,
            taken: pool.after_poll(l).taken,
            notifier: pool.after_poll(l).notifier,
            stages: pool.after_poll(l).stages,
            ..pool
        }),
{
    if pool.poll_kind(l) == PollKind::Start {
        pool.lemma_count_room(l);
        pool.lemma_poll_wf(l);
        assert(pool.after_poll(l).shards[l].entries.len() <= pool.after_poll(l).limit);
        lemma_gained(pool, pool.workers[l]->Holding_0.core, l);
    }
}

/// From `pool` to `after` the task with control block `core` was started: it runs,
/// holds a permit, is listed in shard `l` and no other, and holds a sender if there
/// is a queue for completions.
pub open spec fn started<W, H>(
    pool: RlxdView<W, H>,
    after: RlxdView<W, H>,
    core: Arc<TaskCore>,
    l: int,
) -> bool {
    &&& after.running == pool.running.insert(
        core.id(),
        RunningTask { core, shard: l as usize, status: None, concluded: false },
    )
    &&& after.permits + 1 == pool.permits
    &&& after.shards == pool.shards.update(l, after.shards[l])
    &&& shard_gained(pool.shards[l], after.shards[l], pool.tokens, core)
    &&& after.taken == pool.taken.update(
        l,
        pool.taken[l].push(Taken { id: core.id(), started: true }),
    )
    &&& after.notifier == (NotifierView {
        senders: if pool.notifier.sink == CompletionSink::Open {
            pool.notifier.senders + 1
        } else {
            pool.notifier.senders
        },
        ..pool.notifier
    })
}

/// An idle dispatch loop with an empty lane waits and changes nothing.
pub proof fn law_idle_lane_waits_for_a_task<W, H>(pool: RlxdView<W, H>, l: int)
    requires
        pool.wf(),
        0 <= l < pool.queue.lanes.len(),
        !pool.shutdown,
        pool.workers[l] is Idle,
        pool.queue.lanes[l].items.len() == 0,
    ensures
        pool.poll_kind(l) == PollKind::Wait,
        pool.after_poll(l) == pool,
{
    assert(pool.queue.lanes[l].receiver_closed == (pool.workers[l] is Stopped));
    assert(pool.queue.lanes[l].sender_closed == pool.shutdown);
}

/// After a shutdown a dispatch loop ends with its next step: the task it holds and
/// those in its lane are given up, and nothing is started or reported.
pub proof fn law_relaxed_dispatch_ends<W, H>(pool: RlxdView<W, H>, l: int)
    requires
        0 <= l < pool.queue.lanes.len(),
        pool.workers.len() == pool.queue.lanes.len(),
        pool.shutdown || pool.workers[l] is Stopped,
    ensures
        ({
            let after = pool.after_poll(l);
            let items = pool.queue.lanes[l].items;
            let lost = Set::new(
                |id: u64|
                    (exists|k: int| 0 <= k < items.len() && (#[trigger] items[k]).core.id() == id)
                        || (pool.workers[l] is Holding && pool.workers[l]->Holding_0.core.id()
                        == id),
            );
            &&& pool.poll_kind(l) == PollKind::Stop
            &&& pool.workers[l] is Holding ==> pool.lane_leftovers(l) == seq![
                pool.workers[l]->Holding_0,
            ] + items
            &&& !(pool.workers[l] is Holding) ==> pool.lane_leftovers(l) == items
            &&& behaviour::only_finished(pool.tokens, after.tokens, lost)
            &&& after == (RlxdView {
                workers: pool.workers.update(l, LaneStage::Stopped),
                queue: LanesView {
                    lanes: pool.queue.lanes.update(
                        l,
                        ChannelView {
                            items: Seq::<ManagedTaskInternal<W>>::empty(),
                            receiver_closed: true,
                            ..pool.queue.lanes[l]
                        },
                    ),
                    ..pool.queue
                },
                tokens: after.tokens,
                stages: after.stages,
                ..pool
            })
        }),
{
    let after = pool.after_poll(l);
    let items = pool.queue.lanes[l].items;
    let rest = pool.lane_leftovers(l);
    let ids = pool_view::task_ids(rest);
    let lost = Set::new(
        |id: u64|
            (exists|k: int| 0 <= k < items.len() && (#[trigger] items[k]).core.id() == id) || (
            pool.workers[l] is Holding && pool.workers[l]->Holding_0.core.id() == id),
    );
    let held = rlxd_view::held_tasks(pool.workers[l]);
    assert(!(pool.workers[l] is Holding) ==> rest =~= items);
    assert forall|id: u64| ids.to_set().contains(id) <==> lost.contains(id) by {
        if ids.contains(id) {
            let k = choose|k: int| 0 <= k < ids.len() && ids[k] == id;
            assert(rest[k].core.id() == id);
            if k >= held.len() {
                assert(items[k - held.len()] == rest[k]);
            }
        }
        if pool.workers[l] is Holding && pool.workers[l]->Holding_0.core.id() == id {
            assert(rest[0] == pool.workers[l]->Holding_0);
            assert(ids[0] == id);
        }
        if exists|k: int| 0 <= k < items.len() && (#[trigger] items[k]).core.id() == id {
            let k = choose|k: int| 0 <= k < items.len() && (#[trigger] items[k]).core.id() == id;
            assert(rest[k + held.len()] == items[k]);
            assert(ids[k + held.len()] == id);
        }
    }
    assert(ids.to_set() =~= lost);
}

/// The first outcome of a task is kept, and recording one changes nothing else.
pub proof fn law_relaxed_recording_keeps_the_first_outcome<W, H>(
    pool: RlxdView<W, H>,
    id: u64,
    status: TaskCompletionStatus,
)
    ensures
        pool.can_record(id) <==> pool.running.contains_key(id) && pool.running[id].status is None,
        ({
            let after = pool.after_record(id, status);
            let fresh = pool.running.contains_key(id) && pool.running[id].status is None;
            &&& fresh ==> after.running == pool.running.insert(
                id,
                RunningTask {
                    core: pool.running[id].core,
                    shard: pool.running[id].shard,
                    status: Some(status),
                    concluded: pool.running[id].concluded,
                },
            )
            &&& !fresh ==> after.running == pool.running
            &&& after == (RlxdView { running: after.running, ..pool })
        }),
{
}

/// A task with an outcome is reported once, with that outcome and under the name
/// of the pool, if there is a queue for completions. It still counts and keeps its
/// permit.
pub proof fn law_relaxed_concluding_reports_once<W, H>(pool: RlxdView<W, H>, id: u64)
    ensures
        pool.can_conclude(id) <==> pool.running.contains_key(id) && pool.running[id].status is Some
            && !pool.running[id].concluded,
        ({
            let after = pool.after_conclude(id);
            let entry = pool.running[id];
            let due = pool.running.contains_key(id) && entry.status is Some && !entry.concluded;
            let queue = pool.notifier.worker != NotifierWorker::Idle;
            let message = InternalCompletionMessage {
                core: entry.core,
                pool_name: pool.name,
                status: entry.status->0,
            };
            &&& !due ==> after == pool
            &&& due ==> after.running == pool.running.insert(
                id,
                RunningTask {
                    core: entry.core,
                    shard: entry.shard,
                    status: entry.status,
                    concluded: true,
                },
            )
            &&& due && queue ==> after.notifier == (NotifierView {
                pending: pool.notifier.pending.push(message),
                posted: pool.notifier.posted.push(message),
                senders: (pool.notifier.senders - 1) as nat,
                ..pool.notifier
            })
            &&& due && !queue ==> after.notifier == pool.notifier
            &&& after == (RlxdView { running: after.running, notifier: after.notifier, ..pool })
        }),
{
}

/// A reported task is over: it runs no more, its shard and no other counts it out,
/// its permit is free again, and its token is done.
pub proof fn law_relaxed_retiring_ends_the_task<W, H>(pool: RlxdView<W, H>, id: u64)
    requires
        pool.wf(),
    ensures
        pool.can_retire(id) <==> pool.running.contains_key(id) && pool.running[id].concluded,
        ({
            let after = pool.after_retire(id);
            let due = pool.running.contains_key(id) && pool.running[id].concluded;
            let s = pool.running[id].shard as int;
            &&& !due ==> after == pool
            &&& due ==> after.running == pool.running.remove(id)
            &&& due ==> after.permits == pool.permits + 1
            &&& due ==> after.shards == pool.shards.update(
                s,
                ShardView {
                    in_flight: (pool.shards[s].in_flight - 1) as usize,
                    ..pool.shards[s]
                },
            ) && pool.shards[s].in_flight > 0
            &&& due ==> behaviour::only_finished(
                pool.tokens,
                after.tokens,
                Set::<u64>::empty().insert(id),
            )
            &&& after == (RlxdView {
                running: after.running,
                permits: after.permits,
                shards: after.shards,
                tokens: after.tokens,
                stages: after.stages,
                ..pool
            })
        }),
{
    if pool.can_retire(id) {
        let s = pool.running[id].shard as int;
        assert(pool.shards[s].in_flight == rlxd_view::shard_tasks(pool.running, s).len());
        assert(rlxd_view::shard_tasks(pool.running, s).contains(id));
        vstd::set_lib::lemma_set_empty_equivalency_len(rlxd_view::shard_tasks(pool.running, s));
    }
}

/// A cancellation triggers the tokens of the tasks that are meant and touches
/// nothing else.
pub proof fn law_relaxed_cancelling_triggers_tokens<W, H>(pool: RlxdView<W, H>, ids: Set<u64>)
    ensures
        behaviour::only_cancelled(pool.tokens, pool.after_cancel(ids).tokens, ids),
        pool.after_cancel(ids) == (RlxdView { tokens: pool.after_cancel(ids).tokens, ..pool }),
{
}

/// The tasks that a set of labels means are the running ones that carry at least
/// one of them.
pub proof fn law_relaxed_labels_mean_running_tasks<W, H>(
    pool: RlxdView<W, H>,
    labels: Set<Seq<char>>,
    id: u64,
)
    ensures
        rlxd_view::running_labelled(pool.running, labels).contains(id) <==> pool.running.contains_key(id)
            && exists|label: Seq<char>|
            labels.contains(label) && #[trigger] pool.running[id].core.texts().contains(label),
{
}

/// A dropped handle requests no cancellation: every task goes on as before.
pub proof fn law_relaxed_dropped_handle_cancels_nothing<W, H>(pool: RlxdView<W, H>, id: u64)
    ensures
        behaviour::only_detached(pool.tokens, pool.after_handle_drop(id).tokens, id),
        pool.after_handle_drop(id) == (RlxdView {
            tokens: pool.after_handle_drop(id).tokens,
            ..pool
        }),
{
}

/// Only a cancellation and a forceful shutdown trigger a token, and each only the
/// tokens that it means.
pub proof fn law_relaxed_tokens_are_triggered_on_request<W, H>(
    pool: RlxdView<W, H>,
    op: RlxdOp<W, H>,
    id: u64,
)
    requires
        pool.wf(),
        pool.allows(op),
        pool.next_id < u64::MAX,
        !(pool.tokens.contains_key(id) && pool.tokens[id].state.cancelled),
        pool.step(op).tokens.contains_key(id) && pool.step(op).tokens[id].state.cancelled,
    ensures
        match op {
            RlxdOp::Cancel(ids) => ids.contains(id),
            RlxdOp::Shutdown(mode) => mode == ShutdownMode::ForcefulCancel && !pool.shutdown
                && pool.running.contains_key(id),
            _ => false,
        },
{
    match op {
        RlxdOp::Submit(core, work) => {
            law_relaxed_only_a_shutdown_refuses(pool, core, work);
            law_relaxed_submission_starts_queues_or_waits(pool, core, work);
        },
        RlxdOp::Resume(other) => law_relaxed_waiting_submission_tries_again(pool, other),
        RlxdOp::Withdraw(other) => law_relaxed_withdrawn_submission_is_gone(pool, other),
        RlxdOp::Poll(l) => {},
        RlxdOp::Retire(other) => law_relaxed_retiring_ends_the_task(pool, other),
        RlxdOp::DropHandle(other) => law_relaxed_dropped_handle_cancels_nothing(pool, other),
        _ => {},
    }
}

/// A new handler is added at the end of the list. The first one, unless the sink
/// was closed before, brings the queue for completions, its worker and a sender
/// for each running task that was not reported yet.
pub proof fn law_relaxed_first_handler_builds_the_queue<W, H>(pool: RlxdView<W, H>, handler: H)
    ensures
        ({
            let after = pool.after_handler(handler);
            let first = pool.notifier.sink == CompletionSink::Unset;
            &&& after.notifier.handlers == pool.notifier.handlers.push(handler)
            &&& first ==> after.notifier == (NotifierView {
                handlers: after.notifier.handlers,
                sink: CompletionSink::Open,
                worker: NotifierWorker::Running,
                joinable: true,
                senders: pool.running.dom().filter(|id: u64| !pool.running[id].concluded).len(),
                ..pool.notifier
            })
            &&& !first ==> after.notifier == (NotifierView {
                handlers: after.notifier.handlers,
                ..pool.notifier
            })
            &&& after == (RlxdView { notifier: after.notifier, ..pool })
        }),
{
}

/// Every completion that waits in the queue is delivered, oldest first, whatever
/// else happened to the pool, a shutdown included.
pub proof fn law_relaxed_completions_are_delivered<W, H>(pool: RlxdView<W, H>)
    requires
        pool.wf(),
        pool.notifier.pending.len() > 0,
    ensures
        pool.notifier.action() == NotifierAction::Deliver(pool.notifier.pending[0]),
        pool.step(RlxdOp::Notifier) == (RlxdView {
            notifier: NotifierView {
                pending: pool.notifier.pending.drop_first(),
                processed: pool.notifier.processed.push(pool.notifier.pending[0]),
                ..pool.notifier
            },
            ..pool
        }),
{
}

/// A shutdown closes the queue for new tasks. The first one, if it is forceful,
/// cancels all active tasks. The call waits for the active tasks if there are any,
/// whatever the mode; else for the dispatch loops that nobody waits for yet; else for the
/// notification worker.
pub proof fn law_relaxed_shutdown_begins<W, H>(pool: RlxdView<W, H>, mode: ShutdownMode)
    requires
        pool.wf(),
    ensures
        ({
            let after = pool.after_shutdown(mode);
            let run = pool.shutdown_run();
            let forceful = mode == ShutdownMode::ForcefulCancel && !pool.shutdown;
            let victims = if forceful {
                pool.running.dom()
            } else {
                Set::<u64>::empty()
            };
            &&& run.initiator == !pool.shutdown
            &&& pool.shutdown_victims(mode) == victims
            &&& behaviour::only_cancelled(pool.tokens, after.tokens, victims)
            &&& pool.running.dom().len() > 0 ==> run.stage == ShutdownStage::AwaitActive
                && after.unclaimed == pool.unclaimed && after.notifier == pool.notifier
            &&& pool.running.dom().len() == 0 && pool.unclaimed > 0 ==> run.stage
                == ShutdownStage::JoinWorkers(pool.unclaimed) && after.unclaimed == 0
                && after.notifier == pool.notifier
            &&& pool.running.dom().len() == 0 && pool.unclaimed == 0 ==> run.stage == (
            if pool.notifier.joinable {
                ShutdownStage::AwaitNotifier
            } else {
                ShutdownStage::Done
            }) && after.unclaimed == 0 && after.notifier == (NotifierView {
                joinable: false,
                sink: if pool.shutdown {
                    pool.notifier.sink
                } else {
                    CompletionSink::Closed
                },
                ..pool.notifier
            })
            &&& after.queue.lanes.len() == pool.queue.lanes.len()
            &&& after.queue.capacity == pool.queue.capacity
            &&& after.queue.next_lane == pool.queue.next_lane
            &&& forall|l: int|
                0 <= l < pool.queue.lanes.len() ==> (#[trigger] after.queue.lanes[l]) == (
                ChannelView { sender_closed: true, ..pool.queue.lanes[l] })
            &&& after == (RlxdView {
                shutdown: true,
                queue: after.queue,
                tokens: after.tokens,
                unclaimed: after.unclaimed,
                notifier: after.notifier,
                ..pool
            })
        }),
{
    let forceful = mode == ShutdownMode::ForcefulCancel && !pool.shutdown;
    assert(pool.shutdown_victims(mode) =~= (if forceful {
        pool.running.dom()
    } else {
        Set::<u64>::empty()
    }));
}

/// A call of `shutdown` that waits for active tasks goes on only once a look finds
/// none or the time is up, and then waits for the dispatch loops that nobody waits for yet.
/// Nothing but the call's own waits changes with an event: tasks, queue, tokens and
/// permits stay as they are.
pub proof fn law_relaxed_shutdown_goes_on<W, H>(pool: RlxdView<W, H>, run: ShutdownRun, event: ShutdownEvent)
    requires
        run.stage != ShutdownStage::ActiveOver,
        run.stage != ShutdownStage::JoinWorkers(0),
    ensures
        ({
            let after = pool.after_shutdown_event(run, event);
            let stage = shutdown::stage_settled(
                shutdown::stage_after_event(run.stage, event),
                pool.unclaimed,
                pool.notifier.joinable,
            );
            let over = event == ShutdownEvent::Tick(0) || event == ShutdownEvent::ActiveTimeout;
            let ended = event == ShutdownEvent::WorkerEnded || event
                == ShutdownEvent::WorkerTimeout;
            let notified = event == ShutdownEvent::NotifierEnded || event
                == ShutdownEvent::NotifierTimeout;
            let last = (run.stage == ShutdownStage::AwaitActive && over && pool.unclaimed == 0) || (
            run.stage == ShutdownStage::JoinWorkers(1) && ended);
            &&& run.stage == ShutdownStage::AwaitActive && !over ==> stage == run.stage && after
                == pool
            &&& run.stage == ShutdownStage::AwaitActive && over && pool.unclaimed > 0 ==> stage
                == ShutdownStage::JoinWorkers(pool.unclaimed) && after == (RlxdView {
                unclaimed: 0,
                ..pool
            })
            &&& (run.stage matches ShutdownStage::JoinWorkers(left) ==> (!ended ==> stage
                == run.stage && after == pool) && (ended && left > 1 ==> stage
                == ShutdownStage::JoinWorkers((left - 1) as usize) && after == pool))
            &&& last ==> stage == (if pool.notifier.joinable {
                ShutdownStage::AwaitNotifier
            } else {
                ShutdownStage::Done
            }) && after == (RlxdView {
                unclaimed: after.unclaimed,
                notifier: NotifierView {
                    joinable: false,
                    sink: if run.initiator {
                        CompletionSink::Closed
                    } else {
                        pool.notifier.sink
                    },
                    ..pool.notifier
                },
                ..pool
            }) && after.unclaimed == pool.unclaimed
            &&& run.stage == ShutdownStage::AwaitNotifier ==> after == pool && stage == (
            if notified {
                ShutdownStage::Done
            } else {
                run.stage
            })
            &&& run.stage == ShutdownStage::Done ==> after == pool && stage == run.stage
        }),
{
}

/// Whatever can happen to a pool may happen at any time: only a submission can be
/// refused, a step needs a lane, an event needs a shutdown, and an instance that is
/// dropped must exist.
pub proof fn law_relaxed_operations_are_always_possible<W, H>(
    pool: RlxdView<W, H>,
    op: RlxdOp<W, H>,
)
    requires
        !(op is Submit),
        op matches RlxdOp::Poll(l) ==> 0 <= l < pool.queue.lanes.len(),
        op is ShutdownEvent ==> pool.shutdown,
        op is DropInstance ==> pool.instances > 0,
    ensures
        pool.allows(op),
{
}

/// Another instance changes nothing but the number of instances, and so does the
/// end of one while others are left. The end of the last one starts a shutdown that
/// cancels nothing, and drops the pool-wide sender.
pub proof fn law_relaxed_instances_are_counted<W, H>(pool: RlxdView<W, H>)
    requires
        pool.instances > 0,
    ensures
        pool.step(RlxdOp::AddInstance) == (RlxdView { instances: pool.instances + 1, ..pool }),
        pool.instances > 1 ==> pool.after_instance_drop() == (RlxdView {
            instances: (pool.instances - 1) as nat,
            ..pool
        }),
        pool.instances == 1 ==> ({
            let after = pool.after_instance_drop();
            &&& after == (RlxdView {
                instances: 0,
                shutdown: true,
                queue: after.queue,
                notifier: NotifierView { sink: CompletionSink::Closed, ..pool.notifier },
                ..pool
            })
            &&& after.queue.lanes.len() == pool.queue.lanes.len()
            &&& after.queue.capacity == pool.queue.capacity
            &&& after.queue.next_lane == pool.queue.next_lane
            &&& forall|l: int|
                0 <= l < pool.queue.lanes.len() ==> (#[trigger] after.queue.lanes[l]) == (
                ChannelView { sender_closed: true, ..pool.queue.lanes[l] })
        }),
{
}

impl<W, H> RlxdView<W, H> {
    /// A shard counts fewer tasks than a machine word can while a permit is free.
    proof fn lemma_count_room(self, s: int)
        requires
            self.wf(),
            self.permits > 0,
            0 <= s < self.queue.lanes.len(),
        ensures
            self.shards[s].in_flight < usize::MAX,
    {
        assert(self.shards[s].in_flight == rlxd_view::shard_tasks(self.running, s).len());
        vstd::set_lib::lemma_len_subset(
            rlxd_view::shard_tasks(self.running, s),
            self.running.dom(),
        );
    }
}

proof fn lemma_gained<W, H>(pool: RlxdView<W, H>, core: Arc<TaskCore>, s: int)
    requires
        0 <= s < pool.shards.len(),
        slots::slots_wf(pool.shards[s].entries, pool.shards[s].free),
        pool.shards[s].after_insert(pool.tokens, core).entries.len() <= usize::MAX,
        pool.shards[s].in_flight < usize::MAX,
    ensures
        shard_gained(
            pool.shards[s],
            pool.shards[s].after_insert(pool.tokens, core),
            pool.tokens,
            core,
        ),
{
    let before = pool.shards[s];
    let after = before.after_insert(pool.tokens, core);
    active::lemma_deferred_insert(before.entries, before.free, pool.tokens, core);
    let i = choose|i: int|
        0 <= i < after.entries.len() && #[trigger] after.entries[i] == Some(core) && (forall|j: int|
            #![trigger after.entries[j]]
            slots::occupied(after.entries, j) && j != i ==> slots::occupied(before.entries, j)
                && after.entries[j] == before.entries[j]);
    assert(after.entries[i] == Some(core));
    assert forall|j: int|
        #![trigger after.entries[j]]
        0 <= j < after.entries.len() && j != i && after.entries[j] is Some implies j
        < before.entries.len() && after.entries[j] == before.entries[j] by {
        assert(slots::occupied(after.entries, j));
    }
    assert forall|j: int|
        #![trigger before.entries[j]]
        0 <= j < before.entries.len() && before.entries[j] is Some && pool.tokens.contains_key(
            before.entries[j]->0.id(),
        ) && !pool.tokens[before.entries[j]->0.id()].state.finished implies j < after.entries.len()
        && after.entries[j] == before.entries[j] by {
        assert(slots::occupied(before.entries, j));
    }
}

} // verus!
