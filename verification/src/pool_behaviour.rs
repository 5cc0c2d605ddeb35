//! What each operation of the pool with one dispatch loop does, told by the parts
//! of the pool before and after it.

use std::sync::Arc;
use vstd::prelude::*;

use crate::behaviour;
use crate::error::PoolError;
use crate::notifier::{
    CompletionSink, InternalCompletionMessage, NotifierAction, NotifierView, NotifierWorker,
    TaskCompletionStatus,
};
use crate::pool_view;
use crate::pool_view::{ActiveTask, PollKind, PoolOp, PoolView, Taken, WorkerStage};
use crate::shutdown;
use crate::shutdown::{ShutdownEvent, ShutdownMode, ShutdownRun, ShutdownStage};
use crate::task::TaskCore;
use crate::task_queue::{ManagedTaskInternal, QueueView, SendOutcome};

verus! {

/// A new pool is empty: nothing waits, runs or was cancelled, all permits are
/// free, and the first task gets number 0.
pub proof fn law_new_pool_is_empty<W, H>(name: Arc<String>, limit: nat, capacity: nat)
    ensures
        ({
            let pool = PoolView::<W, H>::start(name, limit, capacity);
            &&& pool.name == name
            &&& pool.limit == limit
            &&& pool.permits == limit
            &&& pool.worker == WorkerStage::Idle
            &&& pool.queue.tasks.len() == 0
            &&& pool.queue.capacity == capacity
            &&& !pool.queue.closed
            &&& !pool.queue.abandoned
            &&& pool.blocked.dom() == Set::<u64>::empty()
            &&& pool.active.dom() == Set::<u64>::empty()
            &&& pool.tokens.dom() == Set::<u64>::empty()
            &&& !pool.shutdown
            &&& pool.next_id == 0
            &&& pool.notifier.handlers.len() == 0
            &&& pool.notifier.sink == CompletionSink::Unset
            &&& pool.notifier.worker == NotifierWorker::Idle
            &&& pool.notifier.pending.len() == 0
            &&& pool.notifier.posted.len() == 0
            &&& pool.notifier.processed.len() == 0
            &&& pool.notifier.senders == 0
            &&& !pool.notifier.joinable
            &&& !pool.notifier.shutdown_noted
            &&& pool.unclaimed == 1
            &&& pool.instances == 1
            &&& pool.accepted.len() == 0
            &&& pool.taken.len() == 0
        }),
{
    let pool = PoolView::<W, H>::start(name, limit, capacity);
    assert(pool.blocked.dom() =~= Set::<u64>::empty());
    assert(pool.active.dom() =~= Set::<u64>::empty());
    assert(pool.tokens.dom() =~= Set::<u64>::empty());
}

/// Permits are conserved: in every pool the free ones, the one that the dispatch
/// loop may hold and those of the running tasks make up the limit, and no more
/// tasks wait than have places.
pub proof fn law_permits_are_conserved<W, H>(pool: PoolView<W, H>)
    requires
        pool.wf(),
    ensures
        pool.permits + (if pool.worker == WorkerStage::Holding {
            1int
        } else {
            0int
        }) + pool.active.dom().filter(|id: u64| !pool.active[id].concluded).len() == pool.limit,
        pool.queue.tasks.len() <= pool.queue.capacity,
        pool.limit >= 1,
{
}

/// Nothing but a shutdown makes a pool refuse tasks, however many submissions
/// wait for a place.
pub proof fn law_only_a_shutdown_refuses<W, H>(pool: PoolView<W, H>, core: Arc<TaskCore>, work: W)
    ensures
        pool.refuses() <==> pool.shutdown || pool.queue.closed || pool.queue.abandoned,
        pool.wf() ==> (pool.refuses() <==> pool.shutdown),
        pool.wf() ==> (pool.allows(PoolOp::Submit(core, work)) <==> !pool.shutdown && core.id()
            == pool.next_id && pool.next_id < u64::MAX),
{
}

/// A submission that is not refused gets the next number and a fresh token. It
/// goes to the back of the queue if a place is free and waits for one otherwise,
/// and nothing else changes.
pub proof fn law_submission_queues_or_waits<W, H>(pool: PoolView<W, H>, core: Arc<TaskCore>, work: W)
    requires
        pool.next_id < u64::MAX,
    ensures
        pool.queue.is_full() <==> pool.queue.tasks.len() >= pool.queue.capacity,
        ({
            let after = pool.after_submit(core, work);
            let task = ManagedTaskInternal { core, work };
            let room = pool.queue.tasks.len() < pool.queue.capacity;
            &&& room ==> after.queue.tasks == pool.queue.tasks.push(task)
            &&& room ==> after.blocked == pool.blocked
            &&& room ==> after.accepted == pool.accepted.push(pool.next_id)
            &&& !room ==> after.queue.tasks == pool.queue.tasks
            &&& !room ==> after.blocked == pool.blocked.insert(pool.next_id, task)
            &&& !room ==> after.accepted == pool.accepted
            &&& after.next_id == pool.next_id + 1
            &&& behaviour::only_added(pool.tokens, after.tokens, pool.next_id)
            &&& after == (PoolView {
                queue: QueueView { tasks: after.queue.tasks, ..pool.queue },
                blocked: after.blocked,
                accepted: after.accepted,
                next_id: after.next_id,
                tokens: after.tokens,
                ..pool
            })
        }),
{
}

/// A waiting submission that tries again is refused after a shutdown, queued once
/// a place is free, and waits on otherwise. Without a shutdown it is refused only
/// by a closed queue.
pub proof fn law_waiting_submission_tries_again<W, H>(pool: PoolView<W, H>, id: u64)
    ensures
        ({
            let after = pool.after_resume(id);
            let waits = pool.blocked.contains_key(id);
            let room = pool.queue.tasks.len() < pool.queue.capacity;
            let open = !pool.queue.closed && !pool.queue.abandoned;
            &&& !waits ==> after == pool
            &&& waits && pool.shutdown ==> pool.resume_outcome(id) == SendOutcome::Refused(
                PoolError::PoolShuttingDown,
                pool.blocked[id],
            )
            &&& waits && !pool.shutdown && !room ==> pool.resume_outcome(id) == SendOutcome::Full(
                pool.blocked[id],
            ) && after == pool
            &&& waits && !pool.shutdown && room && !open ==> pool.resume_outcome(id)
                == SendOutcome::Refused(PoolError::QueueSendChannelClosed, pool.blocked[id])
            &&& waits && !pool.shutdown && room && open ==> pool.resume_outcome(id)
                == SendOutcome::<W>::Sent && after == (PoolView {
                queue: QueueView {
                    tasks: pool.queue.tasks.push(pool.blocked[id]),
                    ..pool.queue
                },
                blocked: pool.blocked.remove(id),
                accepted: pool.accepted.push(id),
                ..pool
            })
            &&& waits && (pool.shutdown || (room && !open)) ==> behaviour::only_finished(
                pool.tokens,
                after.tokens,
                Set::<u64>::empty().insert(id),
            ) && after == (PoolView {
                blocked: pool.blocked.remove(id),
                tokens: after.tokens,
                ..pool
            })
        }),
{
}

/// A waiting submission that is given up leaves nothing behind but, while a handle
/// needs it, its token.
pub proof fn law_withdrawn_submission_is_gone<W, H>(pool: PoolView<W, H>, id: u64)
    ensures
        ({
            let after = pool.after_withdraw(id);
            &&& after.blocked == pool.blocked.remove(id)
            &&& pool.blocked.contains_key(id) ==> behaviour::only_finished(
                pool.tokens,
                after.tokens,
                Set::<u64>::empty().insert(id),
            )
            &&& !pool.blocked.contains_key(id) ==> after.tokens == pool.tokens
            &&& after == (PoolView { blocked: after.blocked, tokens: after.tokens, ..pool })
        }),
{
    assert(pool.after_withdraw(id).blocked =~= pool.blocked.remove(id));
}

/// While the pool is not shutting down, tasks wait and the dispatch loop has or can
/// get a permit, its step takes the oldest task out of the queue. A task whose
/// token was triggered is reported as cancelled and uses no permit; any other is
/// started. How many submissions wait for a place makes no difference.
pub proof fn law_dispatch_takes_a_task<W, H>(pool: PoolView<W, H>)
    requires
        !pool.shutdown,
        pool.worker != WorkerStage::Stopped,
        !pool.queue.abandoned,
        pool.queue.tasks.len() > 0,
        pool.worker == WorkerStage::Holding || pool.permits > 0,
    ensures
        ({
            let after = pool.after_poll();
            let core = pool.queue.tasks[0].core;
            let id = core.id();
            let cancelled = pool.tokens.contains_key(id) && pool.tokens[id].state.cancelled;
            let open = pool.notifier.sink == CompletionSink::Open;
            let message = InternalCompletionMessage {
                core,
                pool_name: pool.name,
                status: TaskCompletionStatus::Cancelled,
            };
            &&& cancelled ==> pool.poll_kind() == PollKind::Cancelled
            &&& !cancelled ==> pool.poll_kind() == PollKind::Start
            &&& after.queue.tasks == pool.queue.tasks.drop_first()
            &&& after.worker == WorkerStage::Idle
            &&& after.permits + (if cancelled {
                0int
            } else {
                1int
            }) == pool.permits + (if pool.worker == WorkerStage::Holding {
                1int
            } else {
                0int
            })
            &&& after.taken == pool.taken.push(Taken { id, started: !cancelled })
            &&& cancelled ==> after.active == pool.active
            &&& cancelled ==> behaviour::only_finished(
                pool.tokens,
                after.tokens,
                Set::<u64>::empty().insert(id),
            )
            &&& cancelled && open ==> after.notifier == (NotifierView {
                pending: pool.notifier.pending.push(message),
                posted: pool.notifier.posted.push(message),
                ..pool.notifier
            })
            &&& cancelled && !open ==> after.notifier == pool.notifier
            &&& !cancelled ==> after.active == pool.active.insert(
                id,
                ActiveTask { core, status: None, concluded: false },
            )
            &&& !cancelled ==> after.tokens == pool.tokens
            &&& !cancelled ==> after.notifier == (NotifierView {
                senders: if open {
                    pool.notifier.senders + 1
                } else {
                    pool.notifier.senders
                },
                ..pool.notifier
            })
            &&& after == (PoolView {
                queue: QueueView { tasks: after.queue.tasks, ..pool.queue },
                worker: after.worker,
                permits: after.permits,
                taken: after.taken,
                active: after.active,
                tokens: after.tokens,
                notifier: after.notifier,
                ..pool
            })
        }),
{
}

/// Without a free permit the dispatch loop waits and touches nothing; without a
/// task it waits with one permit in hand.
pub proof fn law_dispatch_waits<W, H>(pool: PoolView<W, H>)
    requires
        !pool.shutdown,
        pool.worker != WorkerStage::Stopped,
        !pool.queue.abandoned,
        !pool.queue.closed,
    ensures
        pool.worker == WorkerStage::Idle && pool.permits == 0 ==> pool.poll_kind() == PollKind::Wait
            && pool.after_poll() == pool,
        pool.worker == WorkerStage::Holding && pool.queue.tasks.len() == 0 ==> pool.poll_kind()
            == PollKind::Wait && pool.after_poll() == pool,
        pool.worker == WorkerStage::Idle && pool.permits > 0 && pool.queue.tasks.len() == 0
            ==> pool.poll_kind() == PollKind::Wait && pool.after_poll() == (PoolView {
            worker: WorkerStage::Holding,
            permits: (pool.permits - 1) as nat,
            ..pool
        }),
{
}

/// After a shutdown the dispatch loop ends with its next step: its permit is free
/// again, everything in the queue is given up, and nothing is started or reported.
pub proof fn law_dispatch_ends<W, H>(pool: PoolView<W, H>)
    requires
        pool.shutdown || pool.worker == WorkerStage::Stopped,
    ensures
        ({
            let after = pool.after_poll();
            &&& pool.poll_kind() == PollKind::Stop
            &&& after.permits == pool.permits + (if pool.worker == WorkerStage::Holding {
                1int
            } else {
                0int
            })
            &&& after.queue.tasks.len() == 0
            &&& after.queue.abandoned
            &&& behaviour::only_finished(
                pool.tokens,
                after.tokens,
                Set::new(
                    |id: u64|
                        exists|k: int|
                            0 <= k < pool.queue.tasks.len() && (
                            #[trigger] pool.queue.tasks[k]).core.id() == id,
                ),
            )
            &&& after == (PoolView {
                worker: WorkerStage::Stopped,
                permits: after.permits,
                queue: QueueView { tasks: after.queue.tasks, abandoned: true, ..pool.queue },
                tokens: after.tokens,
                ..pool
            })
        }),
{
    let after = pool.after_poll();
    let lost = pool_view::task_ids(pool.queue.tasks);
    let ids = Set::new(
        |id: u64|
            exists|k: int|
                0 <= k < pool.queue.tasks.len() && (#[trigger] pool.queue.tasks[k]).core.id() == id,
    );
    assert forall|id: u64| lost.to_set().contains(id) <==> ids.contains(id) by {
        if lost.contains(id) {
            let k = choose|k: int| 0 <= k < lost.len() && lost[k] == id;
            assert(pool.queue.tasks[k].core.id() == id);
        }
        if ids.contains(id) {
            let k = choose|k: int|
                0 <= k < pool.queue.tasks.len() && (#[trigger] pool.queue.tasks[k]).core.id() == id;
            assert(lost[k] == id);
        }
    }
    assert(lost.to_set() =~= ids);
}

/// The first outcome of a task is kept, and recording one changes nothing else.
pub proof fn law_recording_keeps_the_first_outcome<W, H>(
    pool: PoolView<W, H>,
    id: u64,
    status: TaskCompletionStatus,
)
    ensures
        pool.can_record(id) <==> pool.active.contains_key(id) && pool.active[id].status is None,
        ({
            let after = pool.after_record(id, status);
            let fresh = pool.active.contains_key(id) && pool.active[id].status is None;
            &&& fresh ==> after.active == pool.active.insert(
                id,
                ActiveTask {
                    core: pool.active[id].core,
                    status: Some(status),
                    concluded: pool.active[id].concluded,
                },
            )
            &&& !fresh ==> after.active == pool.active
            &&& after == (PoolView { active: after.active, ..pool })
        }),
{
}

/// A task with an outcome is reported once, with that outcome and under the name
/// of the pool, if there is a queue for completions, and frees its permit once.
pub proof fn law_concluding_reports_once<W, H>(pool: PoolView<W, H>, id: u64)
    ensures
        pool.can_conclude(id) <==> pool.active.contains_key(id) && pool.active[id].status is Some
            && !pool.active[id].concluded,
        ({
            let after = pool.after_conclude(id);
            let entry = pool.active[id];
            let due = pool.active.contains_key(id) && entry.status is Some && !entry.concluded;
            let queue = pool.notifier.worker != NotifierWorker::Idle;
            let message = InternalCompletionMessage {
                core: entry.core,
                pool_name: pool.name,
                status: entry.status->0,
            };
            &&& !due ==> after == pool
            &&& due ==> after.permits == pool.permits + 1
            &&& due ==> after.active == pool.active.insert(
                id,
                ActiveTask { core: entry.core, status: entry.status, concluded: true },
            )
            &&& due && queue ==> after.notifier == (NotifierView {
                pending: pool.notifier.pending.push(message),
                posted: pool.notifier.posted.push(message),
                senders: (pool.notifier.senders - 1) as nat,
                ..pool.notifier
            })
            &&& due && !queue ==> after.notifier == pool.notifier
            &&& after == (PoolView {
                permits: after.permits,
                active: after.active,
                notifier: after.notifier,
                ..pool
            })
        }),
{
}

/// A reported task leaves the list of active tasks, and its token is done.
pub proof fn law_retiring_ends_the_task<W, H>(pool: PoolView<W, H>, id: u64)
    ensures
        pool.can_retire(id) <==> pool.active.contains_key(id) && pool.active[id].concluded,
        ({
            let after = pool.after_retire(id);
            let due = pool.active.contains_key(id) && pool.active[id].concluded;
            &&& !due ==> after == pool
            &&& due ==> after.active == pool.active.remove(id)
            &&& due ==> behaviour::only_finished(
                pool.tokens,
                after.tokens,
                Set::<u64>::empty().insert(id),
            )
            &&& after == (PoolView { active: after.active, tokens: after.tokens, ..pool })
        }),
{
}

/// A cancellation triggers the tokens of the tasks that are meant and touches
/// nothing else.
pub proof fn law_cancelling_triggers_tokens<W, H>(pool: PoolView<W, H>, ids: Set<u64>)
    ensures
        behaviour::only_cancelled(pool.tokens, pool.after_cancel(ids).tokens, ids),
        pool.after_cancel(ids) == (PoolView { tokens: pool.after_cancel(ids).tokens, ..pool }),
{
}

/// The tasks that a set of labels means are the active ones that carry at least
/// one of them.
pub proof fn law_labels_mean_active_tasks<W, H>(
    pool: PoolView<W, H>,
    labels: Set<Seq<char>>,
    id: u64,
)
    ensures
        pool_view::labelled(pool.active, labels).contains(id) <==> pool.active.contains_key(id)
            && exists|label: Seq<char>|
            labels.contains(label) && #[trigger] pool.active[id].core.texts().contains(label),
{
}

/// A dropped handle requests no cancellation: every task goes on as before.
pub proof fn law_dropped_handle_cancels_nothing<W, H>(pool: PoolView<W, H>, id: u64)
    ensures
        behaviour::only_detached(pool.tokens, pool.after_handle_drop(id).tokens, id),
        pool.after_handle_drop(id) == (PoolView {
            tokens: pool.after_handle_drop(id).tokens,
            ..pool
        }),
{
}

/// Only a cancellation and a forceful shutdown trigger a token, and each only the
/// tokens that it means.
pub proof fn law_tokens_are_triggered_on_request<W, H>(
    pool: PoolView<W, H>,
    op: PoolOp<W, H>,
    id: u64,
)
    requires
        pool.next_id < u64::MAX,
        !(pool.tokens.contains_key(id) && pool.tokens[id].state.cancelled),
        pool.step(op).tokens.contains_key(id) && pool.step(op).tokens[id].state.cancelled,
    ensures
        match op {
            PoolOp::Cancel(ids) => ids.contains(id),
            PoolOp::Shutdown(mode) => mode == ShutdownMode::ForcefulCancel && !pool.shutdown
                && pool.active.contains_key(id),
            _ => false,
        },
{
    match op {
        PoolOp::Submit(core, work) => law_submission_queues_or_waits(pool, core, work),
        PoolOp::Resume(other) => law_waiting_submission_tries_again(pool, other),
        PoolOp::Withdraw(other) => law_withdrawn_submission_is_gone(pool, other),
        PoolOp::Retire(other) => law_retiring_ends_the_task(pool, other),
        PoolOp::DropHandle(other) => law_dropped_handle_cancels_nothing(pool, other),
        _ => {},
    }
}

/// A new handler is added at the end of the list. The first one, unless the sink
/// was closed before, brings the queue for completions, its worker and a sender
/// for each running task.
pub proof fn law_first_handler_builds_the_queue<W, H>(pool: PoolView<W, H>, handler: H)
    ensures
        ({
            let after = pool.after_handler(handler);
            let first = pool.notifier.sink == CompletionSink::Unset;
            &&& after.notifier.handlers == pool.notifier.handlers.push(handler)
            &&& first ==> after.notifier == (NotifierView {
                handlers: after.notifier.handlers,
                sink: CompletionSink::Open,
                worker: NotifierWorker::Running,
                joinable: true,
                senders: pool.active.dom().filter(|id: u64| !pool.active[id].concluded).len(),
                ..pool.notifier
            })
            &&& !first ==> after.notifier == (NotifierView {
                handlers: after.notifier.handlers,
                ..pool.notifier
            })
            &&& after == (PoolView { notifier: after.notifier, ..pool })
        }),
{
}

/// Every completion that waits in the queue is delivered, oldest first, whatever
/// else happened to the pool, a shutdown included.
pub proof fn law_completions_are_delivered<W, H>(pool: PoolView<W, H>)
    requires
        pool.wf(),
        pool.notifier.pending.len() > 0,
    ensures
        pool.notifier.action() == NotifierAction::Deliver(pool.notifier.pending[0]),
        pool.step(PoolOp::Notifier) == (PoolView {
            notifier: NotifierView {
                pending: pool.notifier.pending.drop_first(),
                processed: pool.notifier.processed.push(pool.notifier.pending[0]),
                ..pool.notifier
            },
            ..pool
        }),
{
}

/// A shutdown closes the queue for new tasks. The first one, if it is forceful,
/// cancels all active tasks. The call waits for the active tasks if there are any,
/// whatever the mode; else for the dispatch loop if nobody does yet; else for the
/// notification worker.
pub proof fn law_shutdown_begins<W, H>(pool: PoolView<W, H>, mode: ShutdownMode)
    ensures
        ({
            let after = pool.after_shutdown(mode);
            let run = pool.shutdown_run();
            let forceful = mode == ShutdownMode::ForcefulCancel && !pool.shutdown;
            let victims = if forceful {
                pool.active.dom()
            } else {
                Set::<u64>::empty()
            };
            &&& run.initiator == !pool.shutdown
            &&& pool.shutdown_victims(mode) == victims
            &&& behaviour::only_cancelled(pool.tokens, after.tokens, victims)
            &&& pool.active.len() > 0 ==> run.stage == ShutdownStage::AwaitActive
                && after.unclaimed == pool.unclaimed && after.notifier == pool.notifier
            &&& pool.active.len() == 0 && pool.unclaimed > 0 ==> run.stage
                == ShutdownStage::JoinWorkers(pool.unclaimed) && after.unclaimed == 0
                && after.notifier == pool.notifier
            &&& pool.active.len() == 0 && pool.unclaimed == 0 ==> run.stage == (
            if pool.notifier.joinable {
                ShutdownStage::AwaitNotifier
            } else {
                ShutdownStage::Done
            }) && after.unclaimed == 0 && after.notifier == (NotifierView {
                joinable: false,
                sink: if pool.shutdown {
                    pool.notifier.sink
                } else {
                    CompletionSink::Closed
                },
                ..pool.notifier
            })
            &&& after == (PoolView {
                shutdown: true,
                queue: QueueView { closed: true, ..pool.queue },
                tokens: after.tokens,
                unclaimed: after.unclaimed,
                notifier: after.notifier,
                ..pool
            })
        }),
{
    let forceful = mode == ShutdownMode::ForcefulCancel && !pool.shutdown;
    assert(pool.shutdown_victims(mode) =~= (if forceful {
        pool.active.dom()
    } else {
        Set::<u64>::empty()
    }));
}

/// A call of `shutdown` that waits for active tasks goes on only once a look finds
/// none or the time is up, and then waits for the dispatch loop if nobody does yet.
/// Nothing but the call's own waits changes with an event: tasks, queue, tokens and
/// permits stay as they are.
pub proof fn law_shutdown_goes_on<W, H>(pool: PoolView<W, H>, run: ShutdownRun, event: ShutdownEvent)
    requires
        run.stage != ShutdownStage::ActiveOver,
        run.stage != ShutdownStage::JoinWorkers(0),
    ensures
        ({
            let after = pool.after_shutdown_event(run, event);
            let stage = shutdown::stage_settled(
                shutdown::stage_after_event(run.stage, event),
                pool.unclaimed,
                pool.notifier.joinable,
            );
            let over = event == ShutdownEvent::Tick(0) || event == ShutdownEvent::ActiveTimeout;
            let ended = event == ShutdownEvent::WorkerEnded || event
                == ShutdownEvent::WorkerTimeout;
            let notified = event == ShutdownEvent::NotifierEnded || event
                == ShutdownEvent::NotifierTimeout;
            let last = (run.stage == ShutdownStage::AwaitActive && over && pool.unclaimed == 0) || (
            run.stage == ShutdownStage::JoinWorkers(1) && ended);
            &&& run.stage == ShutdownStage::AwaitActive && !over ==> stage == run.stage && after
                == pool
            &&& run.stage == ShutdownStage::AwaitActive && over && pool.unclaimed > 0 ==> stage
                == ShutdownStage::JoinWorkers(pool.unclaimed) && after == (PoolView {
                unclaimed: 0,
                ..pool
            })
            &&& (run.stage matches ShutdownStage::JoinWorkers(left) ==> (!ended ==> stage
                == run.stage && after == pool) && (ended && left > 1 ==> stage
                == ShutdownStage::JoinWorkers((left - 1) as usize) && after == pool))
            &&& last ==> stage == (if pool.notifier.joinable {
                ShutdownStage::AwaitNotifier
            } else {
                ShutdownStage::Done
            }) && after == (PoolView {
                unclaimed: after.unclaimed,
                notifier: NotifierView {
                    joinable: false,
                    sink: if run.initiator {
                        CompletionSink::Closed
                    } else {
                        pool.notifier.sink
                    },
                    ..pool.notifier
                },
                ..pool
            }) && after.unclaimed == pool.unclaimed
            &&& run.stage == ShutdownStage::AwaitNotifier ==> after == pool && stage == (
            if notified {
                ShutdownStage::Done
            } else {
                run.stage
            })
            &&& run.stage == ShutdownStage::Done ==> after == pool && stage == run.stage
        }),
{
}

/// Whatever can happen to a pool may happen at any time: only a submission can be
/// refused, an event needs a shutdown, and an instance that is dropped must exist.
pub proof fn law_operations_are_always_possible<W, H>(
    pool: PoolView<W, H>,
    op: PoolOp<W, H>,
)
    requires
        !(op is Submit),
        op is ShutdownEvent ==> pool.shutdown,
        op is DropInstance ==> pool.instances > 0,
    ensures
        pool.allows(op),
{
}

/// Another instance changes nothing but the number of instances, and so does the
/// end of one while others are left. The end of the last one starts a shutdown that
/// cancels nothing, and drops the pool-wide sender.
pub proof fn law_instances_are_counted<W, H>(pool: PoolView<W, H>)
    requires
        pool.instances > 0,
    ensures
        pool.step(PoolOp::AddInstance) == (PoolView { instances: pool.instances + 1, ..pool }),
        pool.instances > 1 ==> pool.after_instance_drop() == (PoolView {
            instances: (pool.instances - 1) as nat,
            ..pool
        }),
        pool.instances == 1 ==> pool.after_instance_drop() == (PoolView {
            instances: 0,
            shutdown: true,
            queue: QueueView { closed: true, ..pool.queue },
            notifier: NotifierView { sink: CompletionSink::Closed, ..pool.notifier },
            ..pool
        }),
{
}

} // verus!
