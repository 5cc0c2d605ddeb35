//! What holds of a pool with one dispatch loop, whatever happens to it.

use std::sync::Arc;
use vstd::prelude::*;

use crate::active;
use crate::error::PoolError;
use crate::execution;
use crate::execution::Wake;
use crate::notifier;
use crate::notifier::{CompletionSink, NotifierView, NotifierWorker, TaskCompletionStatus};
use crate::pool_view;
use crate::pool_view::{ActiveTask, PollKind, PoolOp, PoolView, Taken, WorkerStage};
use crate::shutdown;
use crate::shutdown::{ShutdownEvent, ShutdownMode, ShutdownRun, ShutdownStage};
use crate::task::TaskCore;
use crate::task_queue::{ManagedTaskInternal, SendOutcome};
use crate::token;

verus! {

/// Adding a task that holds a permit adds one permit holder.
proof fn lemma_holders_insert(active: Map<u64, ActiveTask>, id: u64, entry: ActiveTask)
    requires
        active.dom().finite(),
        !active.contains_key(id),
        !entry.concluded,
    ensures
        pool_view::permit_holders(active.insert(id, entry)).len() == pool_view::permit_holders(
            active,
        ).len() + 1,
        active.insert(id, entry).dom().finite(),
{
    let after = active.insert(id, entry);
    assert(pool_view::permit_holders(after) =~= pool_view::permit_holders(active).insert(id));
}

/// A task that concludes stops being a holder.
proof fn lemma_holders_conclude(active: Map<u64, ActiveTask>, id: u64)
    requires
        active.dom().finite(),
        active.contains_key(id),
        !active[id].concluded,
    ensures
        ({
            let after = active.insert(id, ActiveTask { concluded: true, ..active[id] });
            &&& pool_view::permit_holders(after) == pool_view::permit_holders(active).remove(id)
            &&& pool_view::permit_holders(after).len() + 1 == pool_view::permit_holders(active).len()
            &&& after.dom().finite()
        }),
{
    let after = active.insert(id, ActiveTask { concluded: true, ..active[id] });
    assert(pool_view::permit_holders(active).contains(id));
    assert(pool_view::permit_holders(after) =~= pool_view::permit_holders(active).remove(id));
}

/// Recording an outcome changes no holder.
proof fn lemma_holders_record(active: Map<u64, ActiveTask>, id: u64, status: TaskCompletionStatus)
    requires
        active.contains_key(id),
    ensures
        pool_view::permit_holders(
            active.insert(id, ActiveTask { status: Some(status), ..active[id] }),
        ) == pool_view::permit_holders(active),
{
    assert(pool_view::permit_holders(
        active.insert(id, ActiveTask { status: Some(status), ..active[id] }),
    ) =~= pool_view::permit_holders(active));
}

/// Taking a concluded task off the list changes no holder.
proof fn lemma_holders_retire(active: Map<u64, ActiveTask>, id: u64)
    requires
        active.dom().finite(),
        active.contains_key(id),
        active[id].concluded,
    ensures
        pool_view::permit_holders(active.remove(id)) == pool_view::permit_holders(active),
        active.remove(id).dom().finite(),
{
    assert(pool_view::permit_holders(active.remove(id)) =~= pool_view::permit_holders(active));
}

impl<W, H> PoolView<W, H> {
    /// A new pool is sound.
    pub proof fn lemma_start_wf(name: Arc<String>, limit: nat, capacity: nat)
        requires
            1 <= limit <= usize::MAX,
        ensures
            PoolView::<W, H>::start(name, limit, capacity).wf(),
    {
        let pool = PoolView::<W, H>::start(name, limit, capacity);
        assert(pool.running() =~= Set::<u64>::empty());
        assert(pool.accepted =~= pool_view::taken_ids(pool.taken) + pool_view::task_ids(
            pool.queue.tasks,
        ));
        assert(pool.notifier.posted =~= pool.notifier.processed + pool.notifier.pending);
    }

    /// A submission keeps the pool sound.
    pub proof fn lemma_submit_wf(self, core: Arc<TaskCore>, work: W)
        requires
            self.wf(),
            self.allows(PoolOp::Submit(core, work)),
        ensures
            self.after_submit(core, work).wf(),
    {
        let after = self.after_submit(core, work);
        let id = self.next_id;
        assert(!self.accepted.contains(id)) by {
            if self.accepted.contains(id) {
                let k = choose|k: int| 0 <= k < self.accepted.len() && self.accepted[k] == id;
                assert(self.accepted[k] < id);
            }
        }
        assert forall|k: int| 0 <= k < self.queue.tasks.len() implies pool_view::alive(
            after.tokens,
            (#[trigger] self.queue.tasks[k]).core.id(),
        ) by {
            assert(pool_view::alive(self.tokens, self.queue.tasks[k].core.id()));
        }
        if !self.queue.is_full() {
            let task = ManagedTaskInternal { core, work };
            assert(pool_view::task_ids(self.queue.tasks.push(task)) =~= pool_view::task_ids(
                self.queue.tasks,
            ).push(id));
            assert(after.accepted =~= pool_view::taken_ids(after.taken) + pool_view::task_ids(
                after.queue.tasks,
            ));
            assert(pool_view::taken_ids(after.taken).is_prefix_of(after.accepted));
            assert forall|b: u64| #[trigger] after.blocked.contains_key(b) implies after.blocked[b].core.id()
                == b && b < after.next_id && !after.accepted.contains(b) by {
                assert(self.blocked.contains_key(b));
                if after.accepted.contains(b) {
                    let k = choose|k: int| 0 <= k < after.accepted.len() && after.accepted[k] == b;
                    assert(k < self.accepted.len() ==> self.accepted[k] == b);
                }
            }
            assert forall|k: int| 0 <= k < after.queue.tasks.len() implies pool_view::alive(
                after.tokens,
                (#[trigger] after.queue.tasks[k]).core.id(),
            ) by {
                if k < self.queue.tasks.len() {
                    assert(after.queue.tasks[k] == self.queue.tasks[k]);
                }
            }
        }
    }

    /// A second try of a blocked submission keeps the pool sound.
    pub proof fn lemma_resume_wf(self, id: u64)
        requires
            self.wf(),
        ensures
            self.after_resume(id).wf(),
    {
        if self.blocked.contains_key(id) {
            let after = self.after_resume(id);
            if self.resume_outcome(id) is Sent {
                let task = self.blocked[id];
                assert(pool_view::task_ids(self.queue.tasks.push(task)) =~= pool_view::task_ids(
                    self.queue.tasks,
                ).push(id));
                assert(after.accepted =~= pool_view::taken_ids(after.taken) + pool_view::task_ids(
                    after.queue.tasks,
                ));
                assert(pool_view::taken_ids(after.taken).is_prefix_of(after.accepted));
                assert forall|b: u64| #[trigger]
                    after.blocked.contains_key(b) implies after.blocked[b].core.id() == b && b
                    < after.next_id && !after.accepted.contains(b) by {
                    assert(self.blocked.contains_key(b));
                    if after.accepted.contains(b) {
                        let k = choose|k: int|
                            0 <= k < after.accepted.len() && after.accepted[k] == b;
                        assert(k < self.accepted.len() ==> self.accepted[k] == b);
                    }
                }
                assert forall|k: int| 0 <= k < after.queue.tasks.len() implies pool_view::alive(
                    after.tokens,
                    (#[trigger] after.queue.tasks[k]).core.id(),
                ) by {
                    if k < self.queue.tasks.len() {
                        assert(after.queue.tasks[k] == self.queue.tasks[k]);
                    }
                }
            } else if self.resume_outcome(id) is Refused {
                self.lemma_withdraw_wf(id);
            }
        }
    }

    /// A queued task has a number that was accepted and belongs to no active
    /// and no blocked task.
    proof fn lemma_queued_id(self, k: int)
        requires
            self.ids_wf(),
            self.worker != WorkerStage::Stopped,
            0 <= k < self.queue.tasks.len(),
        ensures
            ({
                let id = self.queue.tasks[k].core.id();
                &&& id == self.accepted[self.taken.len() + k]
                &&& self.accepted.contains(id)
                &&& !pool_view::taken_ids(self.taken).contains(id)
                &&& !self.active.contains_key(id)
                &&& !self.blocked.contains_key(id)
                &&& forall|j: int|
                    0 <= j < self.queue.tasks.len() && j != k ==> (
                    #[trigger] self.queue.tasks[j]).core.id() != id
            }),
    {
        let ids = pool_view::task_ids(self.queue.tasks);
        let before = pool_view::taken_ids(self.taken);
        let id = self.queue.tasks[k].core.id();
        assert(ids[k] == id);
        assert(self.accepted[before.len() + k] == id);
        if before.contains(id) {
            let j = choose|j: int| 0 <= j < before.len() && before[j] == id;
            assert(self.accepted[j] == id);
        }
        if self.active.contains_key(id) {
            let entry = Taken { id, started: true };
            let j = choose|j: int| 0 <= j < self.taken.len() && self.taken[j] == entry;
            assert(before[j] == id);
        }
        assert forall|j: int| 0 <= j < self.queue.tasks.len() && j != k implies (
        #[trigger] self.queue.tasks[j]).core.id() != id by {
            assert(ids[j] == self.queue.tasks[j].core.id());
            assert(self.accepted[before.len() + j] == ids[j]);
        }
    }

    /// An active task has left the queue.
    proof fn lemma_active_id(self, id: u64)
        requires
            self.ids_wf(),
            self.active.contains_key(id),
        ensures
            self.accepted.contains(id),
            !self.blocked.contains_key(id),
            self.worker != WorkerStage::Stopped ==> forall|k: int|
                0 <= k < self.queue.tasks.len() ==> (#[trigger] self.queue.tasks[k]).core.id() != id,
    {
        let entry = Taken { id, started: true };
        let j = choose|j: int| 0 <= j < self.taken.len() && self.taken[j] == entry;
        assert(pool_view::taken_ids(self.taken)[j] == id);
        assert(self.accepted[j] == id);
        if self.worker != WorkerStage::Stopped {
            assert forall|k: int| 0 <= k < self.queue.tasks.len() implies (
            #[trigger] self.queue.tasks[k]).core.id() != id by {
                self.lemma_queued_id(k);
            }
        }
    }

    /// A blocked submission that is given up leaves the pool sound.
    pub proof fn lemma_withdraw_wf(self, id: u64)
        requires
            self.wf(),
        ensures
            self.after_withdraw(id).wf(),
    {
        if self.blocked.contains_key(id) {
            let after = self.after_withdraw(id);
            assert forall|k: int| 0 <= k < after.queue.tasks.len() implies pool_view::alive(
                after.tokens,
                (#[trigger] after.queue.tasks[k]).core.id(),
            ) by {
                self.lemma_queued_id(k);
                assert(pool_view::alive(self.tokens, self.queue.tasks[k].core.id()));
            }
            assert forall|a: u64| #[trigger] after.active.contains_key(a) implies pool_view::alive(
                after.tokens,
                a,
            ) by {
                self.lemma_active_id(a);
            }
        }
    }

    /// A step of the dispatch loop keeps the pool sound.
    pub proof fn lemma_poll_wf(self)
        requires
            self.wf(),
        ensures
            self.after_poll().wf(),
    {
        let after = self.after_poll();
        match self.poll_kind() {
            PollKind::Wait => {},
            PollKind::Stop => {
                assert forall|a: u64| #[trigger] after.active.contains_key(a) implies pool_view::alive(
                    after.tokens,
                    a,
                ) by {
                    self.lemma_active_id(a);
                    let ids = pool_view::task_ids(self.queue.tasks);
                    if ids.contains(a) {
                        let k = choose|k: int| 0 <= k < ids.len() && ids[k] == a;
                        assert(self.queue.tasks[k].core.id() == a);
                    }
                }
                assert forall|b: u64| #[trigger] after.blocked.contains_key(b) implies pool_view::alive(
                    after.tokens,
                    b,
                ) by {
                    let ids = pool_view::task_ids(self.queue.tasks);
                    if ids.contains(b) {
                        let k = choose|k: int| 0 <= k < ids.len() && ids[k] == b;
                        assert(self.queue.tasks[k].core.id() == b);
                        self.lemma_queued_id(k);
                    }
                }
            },
            _ => {
                self.lemma_queued_id(0);
                let task = self.queue.tasks[0];
                let id = task.core.id();
                let started = self.poll_kind() == PollKind::Start;
                assert(after.taken == self.taken.push(Taken { id, started }));
                assert(pool_view::taken_ids(after.taken) =~= pool_view::taken_ids(self.taken).push(
                    id,
                ));
                assert(pool_view::task_ids(self.queue.tasks) =~= seq![id] + pool_view::task_ids(
                    self.queue.tasks.drop_first(),
                ));
                assert(after.accepted =~= pool_view::taken_ids(after.taken) + pool_view::task_ids(
                    after.queue.tasks,
                ));
                assert forall|k: int| 0 <= k < after.queue.tasks.len() implies pool_view::alive(
                    after.tokens,
                    (#[trigger] after.queue.tasks[k]).core.id(),
                ) by {
                    assert(after.queue.tasks[k] == self.queue.tasks[k + 1]);
                }
                assert forall|a: u64| #[trigger] self.active.contains_key(a) implies after.taken.contains(
                    Taken { id: a, started: true },
                ) by {
                    let entry = Taken { id: a, started: true };
                    let j = choose|j: int| 0 <= j < self.taken.len() && self.taken[j] == entry;
                    assert(after.taken[j] == entry);
                }
                assert(after.taken[self.taken.len() as int] == (Taken { id, started }));
                if started {
                    lemma_holders_insert(self.active, id, after.active[id]);
                } else {
                    let message = self.message(task.core, TaskCompletionStatus::Cancelled);
                    assert(self.notifier.posted.push(message) =~= self.notifier.processed
                        + self.notifier.pending.push(message));
                }
            },
        }
    }

    /// Recording an outcome keeps the pool sound.
    pub proof fn lemma_record_wf(self, id: u64, status: TaskCompletionStatus)
        requires
            self.wf(),
        ensures
            self.after_record(id, status).wf(),
            self.after_record(id, status).running() == self.running(),
    {
        if self.can_record(id) {
            lemma_holders_record(self.active, id, status);
        }
    }

    /// Reporting a task keeps the pool sound.
    pub proof fn lemma_conclude_wf(self, id: u64)
        requires
            self.wf(),
        ensures
            self.after_conclude(id).wf(),
            self.can_conclude(id) ==> self.permits < self.limit,
            self.can_conclude(id) && self.notifier.has_queue() ==> self.notifier.senders > 0,
    {
        if self.can_conclude(id) {
            lemma_holders_conclude(self.active, id);
            let message = self.message(self.active[id].core, self.active[id].status->0);
            assert(self.notifier.posted.push(message) =~= self.notifier.processed
                + self.notifier.pending.push(message));
        }
    }

    /// A new handler keeps the pool sound.
    pub proof fn lemma_handler_wf(self, handler: H)
        requires
            self.wf(),
        ensures
            self.after_handler(handler).wf(),
    {
    }

    /// Taking a task off the list of active tasks keeps the pool sound.
    pub proof fn lemma_retire_wf(self, id: u64)
        requires
            self.wf(),
        ensures
            self.after_retire(id).wf(),
    {
        if self.can_retire(id) {
            let after = self.after_retire(id);
            lemma_holders_retire(self.active, id);
            self.lemma_active_id(id);
            assert forall|k: int| 0 <= k < after.queue.tasks.len() implies pool_view::alive(
                after.tokens,
                (#[trigger] after.queue.tasks[k]).core.id(),
            ) by {
                assert(pool_view::alive(self.tokens, self.queue.tasks[k].core.id()));
            }
        }
    }

    /// Cancellations and dropped handles keep the pool sound.
    pub proof fn lemma_tokens_wf(self, ids: Set<u64>, id: u64)
        requires
            self.wf(),
        ensures
            self.after_cancel(ids).wf(),
            self.after_handle_drop(id).wf(),
    {
        let after = self.after_cancel(ids);
        assert forall|k: int| 0 <= k < after.queue.tasks.len() implies pool_view::alive(
            after.tokens,
            (#[trigger] after.queue.tasks[k]).core.id(),
        ) by {
            assert(pool_view::alive(self.tokens, self.queue.tasks[k].core.id()));
        }
        let dropped = self.after_handle_drop(id);
        assert forall|k: int| 0 <= k < dropped.queue.tasks.len() implies pool_view::alive(
            dropped.tokens,
            (#[trigger] dropped.queue.tasks[k]).core.id(),
        ) by {
            assert(pool_view::alive(self.tokens, self.queue.tasks[k].core.id()));
        }
    }

    /// Whatever a shutdown does keeps the pool sound.
    pub proof fn lemma_shutdown_wf(self, mode: ShutdownMode, initiator: bool, stage: ShutdownStage)
        requires
            self.wf(),
        ensures
            self.after_shutdown_signal(mode).wf(),
            self.after_shutdown(mode).wf(),
            self.shutdown ==> self.after_settle(initiator, stage).wf(),
            self.instances > 0 ==> self.after_instance_drop().wf(),
    {
        self.lemma_tokens_wf(self.shutdown_victims(mode), 0);
    }

    /// Every change that can happen keeps a sound pool sound.
    pub proof fn lemma_step_wf(self, op: PoolOp<W, H>)
        requires
            self.wf(),
            self.allows(op),
        ensures
            self.step(op).wf(),
    {
        match op {
            PoolOp::Submit(core, work) => self.lemma_submit_wf(core, work),
            PoolOp::Resume(id) => self.lemma_resume_wf(id),
            PoolOp::Withdraw(id) => self.lemma_withdraw_wf(id),
            PoolOp::Poll => self.lemma_poll_wf(),
            PoolOp::Record(id, status) => self.lemma_record_wf(id, status),
            PoolOp::Conclude(id) => self.lemma_conclude_wf(id),
            PoolOp::Retire(id) => self.lemma_retire_wf(id),
            PoolOp::Cancel(ids) => self.lemma_tokens_wf(ids, 0),
            PoolOp::DropHandle(id) => self.lemma_tokens_wf(Set::empty(), id),
            PoolOp::AddHandler(handler) => self.lemma_handler_wf(handler),
            PoolOp::Notifier => self.lemma_notifier_wf(),
            PoolOp::NoteShutdown => {},
            PoolOp::Shutdown(mode) => {
                self.lemma_shutdown_wf(mode, true, ShutdownStage::Done);
            },
            PoolOp::ShutdownEvent(run, event) => {
                self.lemma_shutdown_wf(
                    ShutdownMode::Graceful,
                    run.initiator,
                    shutdown::stage_after_event(run.stage, event),
                );
            },
            PoolOp::AddInstance => {},
            PoolOp::DropInstance => {
                self.lemma_shutdown_wf(ShutdownMode::Graceful, true, ShutdownStage::Done);
            },
        }
    }

    /// A step of the notification worker keeps the pool sound.
    pub proof fn lemma_notifier_wf(self)
        requires
            self.wf(),
        ensures
            (PoolView { notifier: self.notifier.after_action(), ..self }).wf(),
    {
        let notifier = self.notifier;
        if notifier.worker == NotifierWorker::Running && notifier.pending.len() > 0 {
            assert(notifier.processed.push(notifier.pending[0]) + notifier.pending.drop_first()
                =~= notifier.processed + notifier.pending);
        }
    }
}

impl<W, H> PoolView<W, H> {
    /// The pool after all of `ops`, in order.
    pub open spec fn run(self, ops: Seq<PoolOp<W, H>>) -> PoolView<W, H>
        decreases ops.len(),
    {
        if ops.len() == 0 {
            self
        } else {
            self.run(ops.drop_last()).step(ops.last())
        }
    }

    /// All of `ops` can happen to the pool, in order.
    pub open spec fn allows_all(self, ops: Seq<PoolOp<W, H>>) -> bool
        decreases ops.len(),
    {
        ops.len() > 0 ==> self.allows_all(ops.drop_last()) && self.run(ops.drop_last()).allows(
            ops.last(),
        )
    }

    /// Every completion in the queue or processed belongs to one task that was
    /// taken out of the task queue and runs no more, and no task has two.
    pub open spec fn reports_wf(self) -> bool {
        let posted = self.notifier.posted;
        &&& forall|i: int, j: int|
            0 <= i < j < posted.len() ==> (#[trigger] posted[i]).core.id() != (
            #[trigger] posted[j]).core.id()
        &&& forall|i: int|
            0 <= i < posted.len() ==> taken_already(self.taken, (#[trigger] posted[i]).core.id())
                && !self.running().contains(posted[i].core.id())
    }

    /// The tasks that were taken out of the task queue and run no more.
    pub open spec fn completed(self) -> Set<u64> {
        Set::new(|id: u64| taken_already(self.taken, id) && !self.running().contains(id))
    }

    /// The tasks in `before` ended without being reported; every other task that
    /// was taken out of the task queue either runs or has its completion in the
    /// queue or processed.
    pub open spec fn reports_since(self, before: Set<u64>) -> bool {
        &&& self.notifier.has_queue()
        &&& forall|k: int|
            0 <= k < self.taken.len() ==> {
                let id = (#[trigger] self.taken[k]).id;
                before.contains(id) || self.running().contains(id) || reported(
                    self.notifier.posted,
                    id,
                )
            }
        &&& forall|id: u64| #[trigger]
            before.contains(id) ==> taken_already(self.taken, id) && !self.running().contains(id)
                && !reported(self.notifier.posted, id)
    }

    /// A task that was cancelled before it started and has not started.
    pub open spec fn doomed(self, id: u64) -> bool {
        &&& id < self.next_id
        &&& !self.taken.contains(Taken { id, started: true })
        &&& self.blocked.contains_key(id) ==> token::token_cancelled(self.tokens, id)
        &&& forall|k: int|
            0 <= k < self.queue.tasks.len() && (#[trigger] self.queue.tasks[k]).core.id() == id
                ==> token::token_cancelled(self.tokens, id)
    }

    /// Name, limits and capacity never change.
    pub proof fn lemma_step_keeps_limits(self, op: PoolOp<W, H>)
        ensures
            self.step(op).name == self.name,
            self.step(op).limit == self.limit,
            self.step(op).queue.capacity == self.queue.capacity,
    {
    }

    /// A sink that is closed stays closed.
    proof fn lemma_step_keeps_closed(self, op: PoolOp<W, H>)
        requires
            self.notifier.sink == CompletionSink::Closed,
        ensures
            self.step(op).notifier.sink == CompletionSink::Closed,
            self.step(op).notifier.has_queue() == self.notifier.has_queue(),
    {
    }

    proof fn lemma_run_wf(self, ops: Seq<PoolOp<W, H>>)
        requires
            self.wf(),
            self.allows_all(ops),
        ensures
            self.run(ops).wf(),
            self.run(ops).name == self.name,
            self.run(ops).limit == self.limit,
            self.run(ops).queue.capacity == self.queue.capacity,
        decreases ops.len(),
    {
        if ops.len() > 0 {
            let before = self.run(ops.drop_last());
            self.lemma_run_wf(ops.drop_last());
            before.lemma_step_wf(ops.last());
            before.lemma_step_keeps_limits(ops.last());
        }
    }
}

/// Task `id` was taken out of the task queue.
pub open spec fn taken_already(taken: Seq<Taken>, id: u64) -> bool {
    exists|k: int| 0 <= k < taken.len() && (#[trigger] taken[k]).id == id
}

/// `posted` holds a completion of task `id`.
pub open spec fn reported(posted: Seq<notifier::InternalCompletionMessage>, id: u64) -> bool {
    exists|i: int| 0 <= i < posted.len() && (#[trigger] posted[i]).core.id() == id
}

/// The limits hold at every moment: whatever happened to a new pool, no more
/// tasks run than the concurrency limit allows and no more wait than the queue
/// has places. Each permit is free, held by the dispatch loop or held by one
/// running task.
pub proof fn law_limits_hold<W, H>(
    name: Arc<String>,
    limit: nat,
    capacity: nat,
    ops: Seq<PoolOp<W, H>>,
)
    requires
        1 <= limit <= usize::MAX,
        PoolView::<W, H>::start(name, limit, capacity).allows_all(ops),
    ensures
        ({
            let pool = PoolView::<W, H>::start(name, limit, capacity).run(ops);
            &&& pool.wf()
            &&& pool.running().len() <= limit
            &&& pool.queue.tasks.len() <= capacity
            &&& pool.permits + pool.running().len() + (if pool.worker == WorkerStage::Holding {
                1nat
            } else {
                0nat
            }) == limit
        }),
{
    let start = PoolView::<W, H>::start(name, limit, capacity);
    PoolView::<W, H>::lemma_start_wf(name, limit, capacity);
    start.lemma_run_wf(ops);
}

/// Tasks leave the queue in the order in which they entered it, each at most
/// once, and no number is given twice.
pub proof fn law_tasks_start_in_order<W, H>(
    name: Arc<String>,
    limit: nat,
    capacity: nat,
    ops: Seq<PoolOp<W, H>>,
)
    requires
        1 <= limit <= usize::MAX,
        PoolView::<W, H>::start(name, limit, capacity).allows_all(ops),
    ensures
        ({
            let pool = PoolView::<W, H>::start(name, limit, capacity).run(ops);
            &&& pool_view::taken_ids(pool.taken).is_prefix_of(pool.accepted)
            &&& pool_view::taken_ids(pool.taken).no_duplicates()
            &&& pool.accepted.no_duplicates()
        }),
{
    let start = PoolView::<W, H>::start(name, limit, capacity);
    PoolView::<W, H>::lemma_start_wf(name, limit, capacity);
    start.lemma_run_wf(ops);
    let pool = start.run(ops);
    let ids = pool_view::taken_ids(pool.taken);
    assert forall|i: int, j: int| 0 <= i < ids.len() && 0 <= j < ids.len() && i != j implies ids[i]
        != ids[j] by {
        assert(ids[i] == pool.accepted[i]);
        assert(ids[j] == pool.accepted[j]);
    }
}

/// The dispatch loop is never idle without need: while the pool is not shutting
/// down, tasks wait and fewer run than may, its next step takes the oldest one,
/// and starts it unless it was cancelled.
pub proof fn law_dispatch_takes_the_oldest<W, H>(pool: PoolView<W, H>)
    requires
        pool.wf(),
        !pool.shutdown,
        pool.queue.tasks.len() > 0,
        pool.running().len() < pool.limit,
    ensures
        pool.poll_kind() == (if token::token_cancelled(pool.tokens, pool.queue.tasks[0].core.id()) {
            PollKind::Cancelled
        } else {
            PollKind::Start
        }),
        pool.after_poll().queue.tasks == pool.queue.tasks.drop_first(),
        pool.poll_kind() == PollKind::Start ==> pool.after_poll().running() == pool.running().insert(
            pool.queue.tasks[0].core.id(),
        ),
        pool.poll_kind() == PollKind::Cancelled ==> pool.after_poll().active == pool.active,
{
    if pool.poll_kind() == PollKind::Start {
        assert(pool.after_poll().running() =~= pool.running().insert(
            pool.queue.tasks[0].core.id(),
        ));
    }
}

/// A shutdown is final: nothing that happens afterwards takes it back, accepts
/// a task or starts one.
pub proof fn law_shutdown_is_final<W, H>(pool: PoolView<W, H>, op: PoolOp<W, H>)
    requires
        pool.wf(),
        pool.shutdown,
        pool.allows(op),
    ensures
        pool.step(op).shutdown,
        pool.step(op).accepted == pool.accepted,
        pool.step(op).taken == pool.taken,
        pool.refuses(),
{
}

/// A submission that was waiting for a place when the pool shut down is refused
/// with `PoolShuttingDown`.
pub proof fn law_waiting_submission_is_refused<W, H>(pool: PoolView<W, H>, id: u64)
    requires
        pool.shutdown,
        pool.blocked.contains_key(id),
    ensures
        pool.resume_outcome(id) == SendOutcome::Refused(
            PoolError::PoolShuttingDown,
            pool.blocked[id],
        ),
        !pool.after_resume(id).blocked.contains_key(id),
        pool.after_resume(id).queue == pool.queue,
{
}

/// A submission that waits for a place gets one as soon as one is free.
pub proof fn law_freed_place_goes_to_a_waiting_submission<W, H>(pool: PoolView<W, H>, id: u64)
    requires
        pool.wf(),
        !pool.shutdown,
        pool.blocked.contains_key(id),
        pool.queue.tasks.len() < pool.queue.capacity,
    ensures
        pool.resume_outcome(id) == SendOutcome::<W>::Sent,
        pool.after_resume(id).queue.tasks == pool.queue.tasks.push(pool.blocked[id]),
{
}

/// Cancellation by labels is exact: of all tasks, those that are active and
/// carry one of the labels are cancelled, and no token of any other task
/// changes. Waiting tasks are spared. Without labels nothing happens.
pub proof fn law_label_cancellation_is_exact<W, H>(
    pool: PoolView<W, H>,
    labels: Set<Seq<char>>,
    id: u64,
)
    requires
        pool.wf(),
    ensures
        ({
            let after = pool.after_cancel(pool_view::labelled(pool.active, labels));
            &&& pool.active.contains_key(id) && active::carries(pool.active[id].core, labels)
                ==> token::token_cancelled(after.tokens, id)
            &&& !(pool.active.contains_key(id) && active::carries(pool.active[id].core, labels))
                && pool.tokens.contains_key(id) ==> after.tokens[id] == pool.tokens[id]
            &&& after.tokens.dom() == pool.tokens.dom()
        }),
        forall|k: int|
            0 <= k < pool.queue.tasks.len() && pool.worker != WorkerStage::Stopped
                ==> !pool_view::labelled(pool.active, labels).contains(
                (#[trigger] pool.queue.tasks[k]).core.id(),
            ),
        labels == Set::<Seq<char>>::empty() ==> pool.after_cancel(
            pool_view::labelled(pool.active, labels),
        ) == pool,
{
    let after = pool.after_cancel(pool_view::labelled(pool.active, labels));
    assert(after.tokens.dom() =~= pool.tokens.dom());
    assert(pool.active.contains_key(id) ==> pool_view::alive(pool.tokens, id));
    assert forall|k: int|
        0 <= k < pool.queue.tasks.len() && pool.worker != WorkerStage::Stopped implies !pool_view::labelled(
        pool.active,
        labels,
    ).contains((#[trigger] pool.queue.tasks[k]).core.id()) by {
        pool.lemma_queued_id(k);
    }
    if labels == Set::<Seq<char>>::empty() {
        assert(after.tokens =~= pool.tokens);
        assert(after =~= pool);
    }
}

/// A graceful shutdown cancels no task; a forceful one cancels every active
/// task and no other; a second shutdown cancels nothing, whatever its mode.
pub proof fn law_shutdown_modes<W, H>(pool: PoolView<W, H>, mode: ShutdownMode, id: u64)
    requires
        pool.wf(),
    ensures
        pool.after_shutdown(ShutdownMode::Graceful).tokens == pool.tokens,
        !pool.shutdown && pool.active.contains_key(id) ==> token::token_cancelled(
            pool.after_shutdown(ShutdownMode::ForcefulCancel).tokens,
            id,
        ),
        !pool.active.contains_key(id) && pool.tokens.contains_key(id) ==> pool.after_shutdown(
            mode,
        ).tokens[id] == pool.tokens[id],
        pool.shutdown ==> pool.after_shutdown(mode).tokens == pool.tokens,
        pool.after_shutdown(mode).active == pool.active,
        pool.after_shutdown(mode).queue.tasks == pool.queue.tasks,
{
    assert(pool.active.contains_key(id) ==> pool_view::alive(pool.tokens, id));
    assert(pool.after_shutdown(ShutdownMode::Graceful).tokens =~= pool.tokens);
    if pool.shutdown {
        assert(pool.after_shutdown(mode).tokens =~= pool.tokens);
    }
}

/// What waits in the queue when a shutdown starts is dropped by the dispatch
/// loop's next step: no task starts, none is reported, running tasks go on.
pub proof fn law_shutdown_drops_the_queue<W, H>(pool: PoolView<W, H>)
    requires
        pool.wf(),
        pool.shutdown,
    ensures
        pool.poll_kind() == PollKind::Stop,
        pool.after_poll().queue.tasks.len() == 0,
        pool.after_poll().taken == pool.taken,
        pool.after_poll().active == pool.active,
        pool.after_poll().notifier == pool.notifier,
        pool.after_poll().worker == WorkerStage::Stopped,
        pool.after_poll().permits + pool.after_poll().running().len() == pool.limit,
{
    pool.lemma_poll_wf();
}

/// Cancellation is final: no operation takes a request back while the token
/// exists.
pub proof fn law_cancellation_is_final<W, H>(pool: PoolView<W, H>, op: PoolOp<W, H>, id: u64)
    requires
        pool.wf(),
        pool.allows(op),
        token::token_cancelled(pool.tokens, id),
    ensures
        pool.step(op).tokens.contains_key(id) ==> token::token_cancelled(pool.step(op).tokens, id),
{
}

impl<W, H> PoolView<W, H> {
    proof fn lemma_step_doomed(self, op: PoolOp<W, H>, id: u64)
        requires
            self.wf(),
            self.allows(op),
            self.doomed(id),
        ensures
            self.step(op).doomed(id),
    {
        let after = self.step(op);
        if self.blocked.contains_key(id) {
            assert(pool_view::alive(self.tokens, id));
        }
        assert forall|k: int|
            0 <= k < self.queue.tasks.len() && (#[trigger] self.queue.tasks[k]).core.id()
                == id implies pool_view::alive(self.tokens, id) by {
            assert(pool_view::alive(self.tokens, self.queue.tasks[k].core.id()));
        }
        if after.taken.contains(Taken { id, started: true }) {
            let entry = Taken { id, started: true };
            let j = choose|j: int| 0 <= j < after.taken.len() && after.taken[j] == entry;
            if j < self.taken.len() {
                assert(self.taken[j] == entry);
            } else {
                assert(self.queue.tasks[0].core.id() == id);
            }
        }
        assert forall|k: int|
            0 <= k < after.queue.tasks.len() && (#[trigger] after.queue.tasks[k]).core.id()
                == id implies token::token_cancelled(after.tokens, id) by {
            match op {
                PoolOp::Submit(core, work) => {
                    if k < self.queue.tasks.len() {
                        assert(after.queue.tasks[k] == self.queue.tasks[k]);
                    }
                },
                PoolOp::Resume(other) => {
                    if k < self.queue.tasks.len() {
                        assert(after.queue.tasks[k] == self.queue.tasks[k]);
                        if self.worker != WorkerStage::Stopped {
                            self.lemma_queued_id(k);
                        }
                    } else {
                        assert(self.blocked.contains_key(id));
                    }
                },
                PoolOp::Withdraw(other) => {
                    assert(after.queue.tasks[k] == self.queue.tasks[k]);
                    self.lemma_queued_id(k);
                },
                PoolOp::Poll => {
                    if self.poll_kind() == PollKind::Wait {
                        assert(after.queue.tasks[k] == self.queue.tasks[k]);
                    } else {
                        assert(after.queue.tasks[k] == self.queue.tasks[k + 1]);
                        self.lemma_queued_id(k + 1);
                        assert(self.queue.tasks[0].core.id() != id);
                    }
                },
                PoolOp::Retire(other) => {
                    assert(after.queue.tasks[k] == self.queue.tasks[k]);
                    self.lemma_queued_id(k);
                },
                _ => {
                    assert(after.queue.tasks[k] == self.queue.tasks[k]);
                },
            }
        }
        if after.blocked.contains_key(id) {
            match op {
                PoolOp::Submit(core, work) => {},
                PoolOp::Poll => {
                    if self.poll_kind() == PollKind::Stop {
                        let ids = pool_view::task_ids(self.queue.tasks);
                        if ids.contains(id) {
                            let k = choose|k: int| 0 <= k < ids.len() && ids[k] == id;
                            assert(self.queue.tasks[k].core.id() == id);
                            self.lemma_queued_id(k);
                        }
                    } else if self.poll_kind() != PollKind::Wait {
                        self.lemma_queued_id(0);
                    }
                },
                PoolOp::Retire(other) => {
                    if self.can_retire(other) {
                        self.lemma_active_id(other);
                    }
                },
                _ => {},
            }
        }
    }

    proof fn lemma_step_reports(self, op: PoolOp<W, H>)
        requires
            self.wf(),
            self.allows(op),
            self.reports_wf(),
        ensures
            self.step(op).reports_wf(),
    {
        let after = self.step(op);
        let posted = self.notifier.posted;
        assert forall|id: u64| taken_already(self.taken, id) implies taken_already(
            after.taken,
            id,
        ) by {
            let k = choose|k: int| 0 <= k < self.taken.len() && (#[trigger] self.taken[k]).id == id;
            assert(after.taken[k].id == id);
        }
        if op is Poll && (self.poll_kind() == PollKind::Start || self.poll_kind()
            == PollKind::Cancelled) {
            self.lemma_queued_id(0);
            let fresh = self.queue.tasks[0].core.id();
            assert(after.taken[self.taken.len() as int].id == fresh);
            assert forall|i: int| 0 <= i < posted.len() implies (
            #[trigger] posted[i]).core.id() != fresh by {
                let id = posted[i].core.id();
                let k = choose|k: int|
                    0 <= k < self.taken.len() && (#[trigger] self.taken[k]).id == id;
                assert(pool_view::taken_ids(self.taken)[k] == id);
            }
        }
        if let PoolOp::Record(id, status) = op {
            self.lemma_record_wf(id, status);
        }
        if let PoolOp::Retire(id) = op {
            if self.can_retire(id) {
                lemma_holders_retire(self.active, id);
            }
        }
        if let PoolOp::Conclude(id) = op {
            if self.can_conclude(id) {
                lemma_holders_conclude(self.active, id);
                assert(self.running().contains(id));
                let entry = Taken { id, started: true };
                assert(self.taken.contains(entry));
                let k = choose|k: int| 0 <= k < self.taken.len() && self.taken[k] == entry;
                assert(self.taken[k].id == id);
                assert(taken_already(self.taken, id));
            }
        }
    }

    proof fn lemma_step_reports_since(self, op: PoolOp<W, H>, before: Set<u64>)
        requires
            self.wf(),
            self.allows(op),
            self.reports_since(before),
        ensures
            self.step(op).reports_since(before),
    {
        let after = self.step(op);
        let last = self.notifier.posted.len() as int;
        assert forall|id: u64| reported(self.notifier.posted, id) implies reported(
            after.notifier.posted,
            id,
        ) by {
            let i = choose|i: int|
                0 <= i < self.notifier.posted.len() && (
                #[trigger] self.notifier.posted[i]).core.id() == id;
            assert(after.notifier.posted[i].core.id() == id);
        }
        assert forall|id: u64| taken_already(self.taken, id) implies taken_already(
            after.taken,
            id,
        ) by {
            let k = choose|k: int| 0 <= k < self.taken.len() && (#[trigger] self.taken[k]).id == id;
            assert(after.taken[k].id == id);
        }
        match op {
            PoolOp::Record(id, status) => {
                self.lemma_record_wf(id, status);
            },
            PoolOp::Retire(id) => {
                if self.can_retire(id) {
                    lemma_holders_retire(self.active, id);
                }
            },
            PoolOp::Conclude(id) => {
                if self.can_conclude(id) {
                    lemma_holders_conclude(self.active, id);
                    assert(self.running().contains(id));
                    assert(after.notifier.posted[last].core.id() == id);
                }
            },
            PoolOp::Poll => {
                if self.poll_kind() == PollKind::Start || self.poll_kind() == PollKind::Cancelled {
                    self.lemma_queued_id(0);
                    let id = self.queue.tasks[0].core.id();
                    if before.contains(id) {
                        let k = choose|k: int|
                            0 <= k < self.taken.len() && (#[trigger] self.taken[k]).id == id;
                        assert(pool_view::taken_ids(self.taken)[k] == id);
                    }
                    if self.poll_kind() == PollKind::Cancelled {
                        assert(after.notifier.posted[last].core.id() == id);
                    } else {
                        assert(after.running() =~= self.running().insert(id));
                    }
                }
            },
            _ => {},
        }
        assert forall|k: int| 0 <= k < after.taken.len() implies {
            let id = (#[trigger] after.taken[k]).id;
            before.contains(id) || after.running().contains(id) || reported(
                after.notifier.posted,
                id,
            )
        } by {
            if k < self.taken.len() {
                assert(self.taken[k] == after.taken[k]);
            }
        }
        assert forall|id: u64| #[trigger] before.contains(id) implies !reported(
            after.notifier.posted,
            id,
        ) by {
            if reported(after.notifier.posted, id) {
                let i = choose|i: int|
                    0 <= i < after.notifier.posted.len() && (
                    #[trigger] after.notifier.posted[i]).core.id() == id;
                if i < last {
                    assert(self.notifier.posted[i].core.id() == id);
                }
            }
        }
    }

    proof fn lemma_run_reports(self, ops: Seq<PoolOp<W, H>>)
        requires
            self.wf(),
            self.reports_wf(),
            self.allows_all(ops),
        ensures
            self.run(ops).reports_wf(),
        decreases ops.len(),
    {
        if ops.len() > 0 {
            self.lemma_run_wf(ops.drop_last());
            self.lemma_run_reports(ops.drop_last());
            self.run(ops.drop_last()).lemma_step_reports(ops.last());
        }
    }

    proof fn lemma_run_reports_since(self, ops: Seq<PoolOp<W, H>>, before: Set<u64>)
        requires
            self.wf(),
            self.reports_since(before),
            self.allows_all(ops),
        ensures
            self.run(ops).reports_since(before),
        decreases ops.len(),
    {
        if ops.len() > 0 {
            self.lemma_run_wf(ops.drop_last());
            self.lemma_run_reports_since(ops.drop_last(), before);
            self.run(ops.drop_last()).lemma_step_reports_since(ops.last(), before);
        }
    }
}

/// A task that was cancelled before it started never starts, whatever happens
/// afterwards.
pub proof fn law_cancelled_task_never_starts<W, H>(
    pool: PoolView<W, H>,
    ops: Seq<PoolOp<W, H>>,
    id: u64,
)
    requires
        pool.wf(),
        token::token_cancelled(pool.tokens, id),
        !pool.taken.contains(Taken { id, started: true }),
        pool.allows_all(ops),
    ensures
        !pool.run(ops).taken.contains(Taken { id, started: true }),
        !pool.run(ops).active.contains_key(id),
{
    assert(pool.doomed(id));
    lemma_run_doomed(pool, ops, id);
}

proof fn lemma_run_doomed<W, H>(pool: PoolView<W, H>, ops: Seq<PoolOp<W, H>>, id: u64)
    requires
        pool.wf(),
        pool.doomed(id),
        pool.allows_all(ops),
    ensures
        pool.run(ops).wf(),
        pool.run(ops).doomed(id),
    decreases ops.len(),
{
    pool.lemma_run_wf(ops);
    if ops.len() > 0 {
        lemma_run_doomed(pool, ops.drop_last(), id);
        pool.run(ops.drop_last()).lemma_step_doomed(ops.last(), id);
    }
}

/// No task is reported twice, and none before it is over: whatever happened to
/// a new pool, the completions that were queued belong to different tasks, none
/// of which still runs.
pub proof fn law_no_task_is_reported_twice<W, H>(
    name: Arc<String>,
    limit: nat,
    capacity: nat,
    ops: Seq<PoolOp<W, H>>,
)
    requires
        1 <= limit <= usize::MAX,
        PoolView::<W, H>::start(name, limit, capacity).allows_all(ops),
    ensures
        PoolView::<W, H>::start(name, limit, capacity).run(ops).reports_wf(),
{
    let start = PoolView::<W, H>::start(name, limit, capacity);
    PoolView::<W, H>::lemma_start_wf(name, limit, capacity);
    start.lemma_run_reports(ops);
}

/// The first handler is told of every task that completes after its
/// registration, and of no other: a task that ran at that moment, or was taken
/// out of the queue later, either still runs or is reported, and once the
/// notification worker has ended, each was processed by it. A task that had
/// completed before is never reported.
pub proof fn law_every_task_is_reported<W, H>(
    pool: PoolView<W, H>,
    handler: H,
    ops: Seq<PoolOp<W, H>>,
    id: u64,
)
    requires
        pool.wf(),
        pool.notifier.sink == CompletionSink::Unset,
        pool.step(PoolOp::AddHandler(handler)).allows_all(ops),
    ensures
        ({
            let after = pool.step(PoolOp::AddHandler(handler)).run(ops);
            &&& taken_already(after.taken, id) && !pool.completed().contains(id)
                ==> after.running().contains(id) || reported(after.notifier.posted, id)
            &&& taken_already(after.taken, id) && !pool.completed().contains(id)
                && after.notifier.worker == NotifierWorker::Stopped ==> reported(
                after.notifier.processed,
                id,
            )
            &&& pool.completed().contains(id) ==> !reported(after.notifier.posted, id)
        }),
{
    let ready = pool.step(PoolOp::AddHandler(handler));
    let before = pool.completed();
    pool.lemma_step_wf(PoolOp::AddHandler(handler));
    assert(ready.reports_since(before)) by {
        assert forall|k: int| 0 <= k < ready.taken.len() implies {
            let id = (#[trigger] ready.taken[k]).id;
            before.contains(id) || ready.running().contains(id) || reported(
                ready.notifier.posted,
                id,
            )
        } by {
            assert(taken_already(pool.taken, ready.taken[k].id));
        }
    }
    ready.lemma_run_wf(ops);
    ready.lemma_run_reports_since(ops, before);
    let after = ready.run(ops);
    if taken_already(after.taken, id) {
        let k = choose|k: int| 0 <= k < after.taken.len() && (#[trigger] after.taken[k]).id == id;
        assert(after.taken[k].id == id);
    }
    if after.notifier.worker == NotifierWorker::Stopped {
        notifier::law_completions_are_processed_in_order(after.notifier);
        vstd::set_lib::lemma_set_empty_equivalency_len(after.running());
    }
}

/// A panic stays with its task: a pool in which a task panicked differs from one
/// in which the task returned a value only in the status that is reported.
pub proof fn law_panics_are_isolated<W, H>(pool: PoolView<W, H>, id: u64)
    ensures
        ({
            let panicked = pool.after_record(id, TaskCompletionStatus::Panicked).after_conclude(id);
            let returned = pool.after_record(id, TaskCompletionStatus::Success).after_conclude(id);
            &&& panicked == (PoolView {
                notifier: panicked.notifier,
                active: panicked.active,
                ..returned
            })
            &&& panicked.running() == returned.running()
            &&& panicked.after_retire(id).active == returned.after_retire(id).active
            &&& panicked.notifier == (NotifierView {
                pending: panicked.notifier.pending,
                posted: panicked.notifier.posted,
                ..returned.notifier
            })
            &&& panicked.notifier.pending.len() == returned.notifier.pending.len()
        }),
{
    let panicked = pool.after_record(id, TaskCompletionStatus::Panicked).after_conclude(id);
    let returned = pool.after_record(id, TaskCompletionStatus::Success).after_conclude(id);
    assert(panicked.running() =~= returned.running());
    assert(panicked.after_retire(id).active =~= returned.after_retire(id).active);
}

/// A task ends in three steps, none of which can be left out: its outcome is
/// recorded, and nothing else changes, so that the result can be handed over
/// first; then it is reported and its permit is free again, while it is still
/// listed as active; then it is taken off the list.
pub proof fn law_task_ends_in_steps<W, H>(
    pool: PoolView<W, H>,
    id: u64,
    status: TaskCompletionStatus,
)
    requires
        pool.wf(),
        pool.can_record(id),
    ensures
        pool.after_conclude(id) == pool,
        pool.after_retire(id) == pool,
        ({
            let recorded = pool.after_record(id, status);
            let concluded = recorded.after_conclude(id);
            let retired = concluded.after_retire(id);
            &&& recorded == (PoolView { active: recorded.active, ..pool })
            &&& recorded.running() == pool.running()
            &&& recorded.active.len() == pool.active.len()
            &&& recorded.after_record(id, TaskCompletionStatus::Success) == recorded
            &&& recorded.after_retire(id) == recorded
            &&& concluded.permits == pool.permits + 1
            &&& concluded.running() == pool.running().remove(id)
            &&& concluded.active.len() == pool.active.len()
            &&& concluded.after_conclude(id) == concluded
            &&& retired.active == pool.active.remove(id)
            &&& retired.permits == concluded.permits
            &&& token::token_finished(retired.tokens, id)
        }),
{
    let recorded = pool.after_record(id, status);
    let concluded = recorded.after_conclude(id);
    assert(!pool.active[id].concluded);
    assert(recorded.running() =~= pool.running());
    assert(recorded.active.dom() =~= pool.active.dom());
    assert(concluded.running() =~= pool.running().remove(id));
    assert(concluded.active.dom() =~= pool.active.dom());
    assert(concluded.after_retire(id).active =~= pool.active.remove(id));
}

/// A started task has one result and one notification. Whatever its future does
/// and whenever its cancellation is requested, what `strict_course` finds is the
/// result, and once a handler was registered, what is queued is one completion of
/// that task, with its labels, the name of the pool and the status that stands
/// for the result.
pub proof fn law_one_result_and_one_notification<W, H, R>(
    pool: PoolView<W, H>,
    id: u64,
    wakes: Seq<Wake<R>>,
    result: Result<R, PoolError>,
)
    requires
        pool.wf(),
        pool.can_record(id),
        pool.notifier.has_queue(),
        execution::strict_course(wakes).outcome == Some(result),
    ensures
        ({
            let status = notifier::status_of(result);
            let after = pool.after_record(id, status).after_conclude(id);
            let message = after.notifier.posted.last();
            &&& after.notifier.posted == pool.notifier.posted.push(message)
            &&& message.core == pool.active[id].core
            &&& message.core.id() == id
            &&& message.pool_name == pool.name
            &&& message.status == status
            &&& !after.can_record(id)
            &&& !after.can_conclude(id)
        }),
{
    assert(!pool.active[id].concluded);
}

/// Dropping an instance while others exist changes nothing else; dropping the
/// last one starts a shutdown that cancels no task, unless one was started
/// before, and in any case leaves the completion queue without its pool-wide
/// sender.
pub proof fn law_last_instance_shuts_down<W, H>(pool: PoolView<W, H>)
    requires
        pool.wf(),
        pool.instances > 0,
    ensures
        pool.instances > 1 ==> pool.after_instance_drop() == (PoolView {
            instances: (pool.instances - 1) as nat,
            ..pool
        }),
        pool.instances == 1 ==> pool.after_instance_drop().shutdown
            && pool.after_instance_drop().tokens == pool.tokens
            && pool.after_instance_drop().active == pool.active
            && pool.after_instance_drop().notifier.sink == CompletionSink::Closed,
{
}

/// A closed sink stays closed whatever happens to the pool, and where no queue
/// for completions was built before, none is built any more.
pub proof fn law_closed_sink_stays_closed<W, H>(pool: PoolView<W, H>, ops: Seq<PoolOp<W, H>>)
    requires
        pool.notifier.sink == CompletionSink::Closed,
    ensures
        pool.run(ops).notifier.sink == CompletionSink::Closed,
        pool.run(ops).notifier.has_queue() == pool.notifier.has_queue(),
    decreases ops.len(),
{
    if ops.len() > 0 {
        law_closed_sink_stays_closed(pool, ops.drop_last());
        pool.run(ops.drop_last()).lemma_step_keeps_closed(ops.last());
    }
}

/// A running task goes on running until it is reported, and stays listed as
/// active until it is retired, whatever else happens.
pub proof fn law_running_task_stays<W, H>(pool: PoolView<W, H>, op: PoolOp<W, H>, id: u64)
    requires
        pool.wf(),
        pool.allows(op),
        pool.active.contains_key(id),
    ensures
        op != PoolOp::<W, H>::Retire(id) ==> pool.step(op).active.contains_key(id)
            && pool.step(op).active[id].core == pool.active[id].core,
        op != PoolOp::<W, H>::Conclude(id) && pool.running().contains(id) ==> pool.step(
            op,
        ).running().contains(id),
{
    if let PoolOp::Poll = op {
        if pool.poll_kind() == PollKind::Start {
            pool.lemma_queued_id(0);
        }
    }
}

/// Numbers never repeat: each submission that is not refused uses up one number,
/// and nothing gives a number back.
pub proof fn law_numbers_never_repeat<W, H>(pool: PoolView<W, H>, op: PoolOp<W, H>)
    requires
        pool.allows(op),
    ensures
        pool.step(op).next_id == pool.next_id + (if op is Submit {
            1int
        } else {
            0int
        }),
{
}

/// A pool together with one call of its `shutdown`.
pub struct ShutdownCourse<W, H> {
    /// The pool.
    pub pool: PoolView<W, H>,
    /// The call.
    pub run: ShutdownRun,
}

/// What happens while a call of `shutdown` is under way.
pub enum CourseStep<W, H> {
    /// The call learns of an event.
    Event(ShutdownEvent),
    /// Something else happens to the pool.
    Other(PoolOp<W, H>),
}

impl<W, H> ShutdownCourse<W, H> {
    /// Right after the call.
    pub open spec fn begin(pool: PoolView<W, H>, mode: ShutdownMode) -> ShutdownCourse<W, H> {
        ShutdownCourse { pool: pool.after_shutdown(mode), run: pool.shutdown_run() }
    }

    /// `step` can happen.
    pub open spec fn allows(self, step: CourseStep<W, H>) -> bool {
        match step {
            CourseStep::Event(_) => true,
            CourseStep::Other(op) => self.pool.allows(op),
        }
    }

    /// After `step`.
    pub open spec fn step(self, step: CourseStep<W, H>) -> ShutdownCourse<W, H> {
        match step {
            CourseStep::Event(event) => ShutdownCourse {
                pool: self.pool.after_shutdown_event(self.run, event),
                run: ShutdownRun {
                    initiator: self.run.initiator,
                    stage: shutdown::stage_settled(
                        shutdown::stage_after_event(self.run.stage, event),
                        self.pool.unclaimed,
                        self.pool.notifier.joinable,
                    ),
                },
            },
            CourseStep::Other(op) => ShutdownCourse { pool: self.pool.step(op), ..self },
        }
    }

    /// After all of `steps`, in order.
    pub open spec fn go(self, steps: Seq<CourseStep<W, H>>) -> ShutdownCourse<W, H>
        decreases steps.len(),
    {
        if steps.len() == 0 {
            self
        } else {
            self.go(steps.drop_last()).step(steps.last())
        }
    }

    /// All of `steps` can happen, in order.
    pub open spec fn allows_all(self, steps: Seq<CourseStep<W, H>>) -> bool
        decreases steps.len(),
    {
        steps.len() > 0 ==> self.allows_all(steps.drop_last()) && self.go(
            steps.drop_last(),
        ).allows(steps.last())
    }

    /// The call waits for nothing but the notification worker any more.
    pub open spec fn workers_done(self) -> bool {
        self.run.stage == ShutdownStage::AwaitNotifier || self.run.stage == ShutdownStage::Done
    }

    /// What holds at every moment of a call.
    spec fn sound(self) -> bool {
        &&& self.pool.wf()
        &&& self.pool.shutdown
        &&& self.run.initiator && self.workers_done() ==> self.pool.notifier.sink
            == CompletionSink::Closed
        &&& self.run.stage != ShutdownStage::ActiveOver
        &&& self.run.stage matches ShutdownStage::JoinWorkers(left) ==> left == 1
    }

    proof fn lemma_sound(pool: PoolView<W, H>, mode: ShutdownMode, steps: Seq<CourseStep<W, H>>)
        requires
            pool.wf(),
            ShutdownCourse::begin(pool, mode).allows_all(steps),
        ensures
            ShutdownCourse::begin(pool, mode).go(steps).sound(),
            ShutdownCourse::begin(pool, mode).go(steps).run.initiator == !pool.shutdown,
        decreases steps.len(),
    {
        let begun = ShutdownCourse::begin(pool, mode);
        if steps.len() == 0 {
            pool.lemma_shutdown_wf(mode, true, ShutdownStage::Done);
        } else {
            let before = begun.go(steps.drop_last());
            ShutdownCourse::lemma_sound(pool, mode, steps.drop_last());
            match steps.last() {
                CourseStep::Event(event) => {
                    before.pool.lemma_shutdown_wf(
                        mode,
                        before.run.initiator,
                        shutdown::stage_after_event(before.run.stage, event),
                    );
                },
                CourseStep::Other(op) => {
                    before.pool.lemma_step_wf(op);
                },
            }
        }
    }
}

/// After a shutdown no handler opens the completion queue. Once the call that
/// started the shutdown waits for no dispatch loop any more, the sink is closed,
/// whether or not the pool ever had a handler; from then on it stays closed, and
/// a new handler changes nothing but the list of handlers.
pub proof fn law_no_handler_opens_the_queue_after_shutdown<W, H>(
    pool: PoolView<W, H>,
    mode: ShutdownMode,
    steps: Seq<CourseStep<W, H>>,
    handler: H,
)
    requires
        pool.wf(),
        !pool.shutdown,
        ShutdownCourse::begin(pool, mode).allows_all(steps),
        ShutdownCourse::begin(pool, mode).go(steps).workers_done(),
    ensures
        ({
            let after = ShutdownCourse::begin(pool, mode).go(steps).pool;
            &&& after.notifier.sink == CompletionSink::Closed
            &&& after.after_handler(handler).notifier == (NotifierView {
                handlers: after.notifier.handlers.push(handler),
                ..after.notifier
            })
        }),
{
    ShutdownCourse::lemma_sound(pool, mode, steps);
}

/// A call of `shutdown` waits at most three times, and at most forty seconds:
/// for the active tasks, for the dispatch loop and for the notification worker.
pub proof fn law_shutdown_waits_at_most_three_times<W, H>(
    pool: PoolView<W, H>,
    mode: ShutdownMode,
    steps: Seq<CourseStep<W, H>>,
)
    requires
        pool.wf(),
        ShutdownCourse::begin(pool, mode).allows_all(steps),
    ensures
        ({
            let course = ShutdownCourse::begin(pool, mode).go(steps);
            &&& shutdown::waits_left(course.run.stage, course.pool.unclaimed) <= 3
            &&& shutdown::time_left(course.run.stage, course.pool.unclaimed) <= 40_000
        }),
{
    ShutdownCourse::lemma_sound(pool, mode, steps);
}

} // verus!
