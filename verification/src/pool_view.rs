//! What a pool with one dispatch loop is, and what each operation makes of it.

use std::sync::Arc;
use vstd::prelude::*;

use crate::active;
use crate::channel::Received;
use crate::notifier::{
    CompletionSink, InternalCompletionMessage, NotifierView, TaskCompletionStatus,
};
use crate::shutdown;
use crate::shutdown::{ShutdownEvent, ShutdownMode, ShutdownRun};
use crate::task::TaskCore;
use crate::task_queue::{ManagedTaskInternal, QueueView, SendOutcome};
use crate::token;
use crate::token::TokenRecord;

verus! {

/// Where the dispatch loop stands.
#[derive(Debug, Clone, Copy, PartialEq, Eq, Structural)]
pub enum WorkerStage {
    /// It holds no concurrency permit.
    Idle,
    /// It holds a permit and has no task for it.
    Holding,
    /// It has ended.
    Stopped,
}

/// What the pool keeps about a task that was started.
#[derive(Debug)]
pub struct ActiveTask {
    /// Number and labels.
    pub core: Arc<TaskCore>,
    /// How the task ended, once it has.
    pub status: Option<TaskCompletionStatus>,
    /// The task was reported and gave its permit back.
    pub concluded: bool,
}

/// A task that the dispatch loop took out of the queue.
pub struct Taken {
    /// The number of the task.
    pub id: u64,
    /// The task was started; otherwise it was found cancelled.
    pub started: bool,
}

/// What the dispatch loop does next.
#[derive(Debug, Clone, Copy, PartialEq, Eq, Structural)]
pub enum PollKind {
    /// Nothing can be done now.
    Wait,
    /// The loop ends.
    Stop,
    /// The oldest task was cancelled while it waited.
    Cancelled,
    /// The oldest task is started.
    Start,
}

/// The numbers of `tasks`, in order.
pub open spec fn task_ids<W>(tasks: Seq<ManagedTaskInternal<W>>) -> Seq<u64> {
    tasks.map_values(|task: ManagedTaskInternal<W>| task.core.id())
}

/// The numbers of the tasks in `taken`, in order.
pub open spec fn taken_ids(taken: Seq<Taken>) -> Seq<u64> {
    taken.map_values(|entry: Taken| entry.id)
}

/// The active tasks that hold a concurrency permit.
pub open spec fn permit_holders(active: Map<u64, ActiveTask>) -> Set<u64> {
    active.dom().filter(|id: u64| !active[id].concluded)
}

/// The active tasks that carry at least one of `labels`.
pub open spec fn labelled(active: Map<u64, ActiveTask>, labels: Set<Seq<char>>) -> Set<u64> {
    active.dom().filter(|id: u64| active::carries(active[id].core, labels))
}

/// The token of task `id` is there and the task is not done.
pub open spec fn alive(tokens: Map<u64, TokenRecord>, id: u64) -> bool {
    !token::token_finished(tokens, id)
}

/// What a pool is.
#[verifier::ext_equal]
pub struct PoolView<W, H> {
    /// The name.
    pub name: Arc<String>,
    /// The number of tasks that may run at the same time.
    pub limit: nat,
    /// The concurrency permits that are free.
    pub permits: nat,
    /// The dispatch loop.
    pub worker: WorkerStage,
    /// The bounded queue.
    pub queue: QueueView<W>,
    /// The submissions that wait for a place in the queue.
    pub blocked: Map<u64, ManagedTaskInternal<W>>,
    /// The tasks that were started and are not over.
    pub active: Map<u64, ActiveTask>,
    /// The cancellation tokens.
    pub tokens: Map<u64, TokenRecord>,
    /// A shutdown was started.
    pub shutdown: bool,
    /// The number of the next task.
    pub next_id: u64,
    /// The notifier.
    pub notifier: NotifierView<H>,
    /// The dispatch loops that nobody waits for yet.
    pub unclaimed: usize,
    /// The number of instances that share the pool.
    pub instances: nat,
    /// The tasks that ever got a place in the queue, in order.
    pub accepted: Seq<u64>,
    /// The tasks that the dispatch loop took out of the queue, in order.
    pub taken: Seq<Taken>,
}

impl<W, H> PoolView<W, H> {
    /// A new pool.
    pub open spec fn start(name: Arc<String>, limit: nat, capacity: nat) -> PoolView<W, H> {
        PoolView {
            name,
            limit,
            permits: limit,
            worker: WorkerStage::Idle,
            queue: QueueView { tasks: Seq::empty(), capacity, closed: false, abandoned: false },
            blocked: Map::empty(),
            active: Map::empty(),
            tokens: Map::empty(),
            shutdown: false,
            next_id: 0,
            notifier: NotifierView::start(),
            unclaimed: 1,
            instances: 1,
            accepted: Seq::empty(),
            taken: Seq::empty(),
        }
    }

    /// The tasks that run: those that hold a concurrency permit.
    pub open spec fn running(self) -> Set<u64> {
        permit_holders(self.active)
    }

    /// New tasks are refused.
    pub open spec fn refuses(self) -> bool {
        self.shutdown || self.queue.is_closed()
    }

    /// What holds of every pool.
    pub open spec fn wf(self) -> bool {
        &&& self.limits_wf()
        &&& self.ids_wf()
        &&& self.tokens_wf()
        &&& self.stages_wf()
    }

    /// Permits and senders are conserved, and the queue keeps to its capacity.
    /// Each running task holds a sender of the completion queue, if there is one.
    pub open spec fn limits_wf(self) -> bool {
        &&& 1 <= self.limit <= usize::MAX
        &&& self.permits + (if self.worker == WorkerStage::Holding {
            1nat
        } else {
            0nat
        }) + self.running().len() == self.limit
        &&& self.queue.tasks.len() <= self.queue.capacity
        &&& self.notifier.wf()
        &&& self.notifier.senders == (if self.notifier.has_queue() {
            self.running().len()
        } else {
            0
        })
        &&& self.active.dom().finite()
    }

    /// Numbers are never used twice, and tasks leave the queue in the order in
    /// which they entered it.
    pub open spec fn ids_wf(self) -> bool {
        &&& self.accepted.no_duplicates()
        &&& forall|k: int| 0 <= k < self.accepted.len() ==> (#[trigger] self.accepted[k]) < self.next_id
        &&& taken_ids(self.taken).is_prefix_of(self.accepted)
        &&& self.worker != WorkerStage::Stopped ==> self.accepted == taken_ids(self.taken)
            + task_ids(self.queue.tasks)
        &&& forall|id: u64| #[trigger]
            self.blocked.contains_key(id) ==> self.blocked[id].core.id() == id && id < self.next_id
                && !self.accepted.contains(id)
        &&& forall|id: u64| #[trigger]
            self.active.contains_key(id) ==> self.active[id].core.id() == id && self.taken.contains(
                Taken { id, started: true },
            ) && (self.active[id].concluded ==> self.active[id].status is Some)
    }

    /// Every task that is not over has a token of its own.
    pub open spec fn tokens_wf(self) -> bool {
        &&& forall|id: u64| #[trigger] self.tokens.contains_key(id) ==> id < self.next_id
        &&& forall|k: int|
            0 <= k < self.queue.tasks.len() ==> alive(
                self.tokens,
                (#[trigger] self.queue.tasks[k]).core.id(),
            )
        &&& forall|id: u64| #[trigger] self.blocked.contains_key(id) ==> alive(self.tokens, id)
        &&& forall|id: u64| #[trigger] self.active.contains_key(id) ==> alive(self.tokens, id)
    }

    /// The parts of the pool agree on how far a shutdown has come.
    pub open spec fn stages_wf(self) -> bool {
        &&& self.queue.closed == self.shutdown
        &&& self.queue.abandoned == (self.worker == WorkerStage::Stopped)
        &&& self.worker == WorkerStage::Stopped ==> self.shutdown && self.queue.tasks.len() == 0
        &&& self.notifier.sink == CompletionSink::Closed ==> self.shutdown
        &&& self.unclaimed <= 1
    }

    /// A completion of the task with control block `core`.
    pub open spec fn message(self, core: Arc<TaskCore>, status: TaskCompletionStatus) -> InternalCompletionMessage {
        InternalCompletionMessage { core, pool_name: self.name, status }
    }

    /// After the submission of a task that was not refused: it gets the next
    /// number and a fresh token, and a place in the queue if one is free.
    pub open spec fn after_submit(self, core: Arc<TaskCore>, work: W) -> PoolView<W, H> {
        let task = ManagedTaskInternal { core, work };
        let numbered = PoolView {
            next_id: (self.next_id + 1) as u64,
            tokens: token::tokens_after_register(self.tokens, self.next_id),
            ..self
        };
        if self.queue.is_full() {
            PoolView { blocked: self.blocked.insert(self.next_id, task), ..numbered }
        } else {
            PoolView {
                queue: QueueView { tasks: self.queue.tasks.push(task), ..self.queue },
                accepted: self.accepted.push(self.next_id),
                ..numbered
            }
        }
    }

    /// What a blocked submission is told when it tries again.
    pub open spec fn resume_outcome(self, id: u64) -> SendOutcome<W>
        recommends
            self.blocked.contains_key(id),
    {
        self.queue.resume_outcome(self.blocked[id], self.shutdown)
    }

    /// After blocked submission `id` tried again.
    pub open spec fn after_resume(self, id: u64) -> PoolView<W, H> {
        if !self.blocked.contains_key(id) {
            self
        } else {
            match self.resume_outcome(id) {
                SendOutcome::Sent => PoolView {
                    queue: QueueView {
                        tasks: self.queue.tasks.push(self.blocked[id]),
                        ..self.queue
                    },
                    accepted: self.accepted.push(id),
                    blocked: self.blocked.remove(id),
                    ..self
                },
                SendOutcome::Full(_) => self,
                SendOutcome::Refused(_, _) => self.after_withdraw(id),
            }
        }
    }

    /// After blocked submission `id` was given up.
    pub open spec fn after_withdraw(self, id: u64) -> PoolView<W, H> {
        if self.blocked.contains_key(id) {
            PoolView {
                blocked: self.blocked.remove(id),
                tokens: token::tokens_after_finish(self.tokens, id),
                ..self
            }
        } else {
            self
        }
    }

    /// What the dispatch loop does next.
    ///
    /// A shutdown comes first. Then a concurrency permit is needed, then a task.
    pub open spec fn poll_kind(self) -> PollKind {
        if self.worker == WorkerStage::Stopped || self.shutdown {
            PollKind::Stop
        } else if self.worker == WorkerStage::Idle && self.permits == 0 {
            PollKind::Wait
        } else {
            match self.queue.recv_outcome() {
                Received::Item(task) => if token::token_cancelled(self.tokens, task.core.id()) {
                    PollKind::Cancelled
                } else {
                    PollKind::Start
                },
                Received::Empty => PollKind::Wait,
                Received::Disconnected => PollKind::Stop,
            }
        }
    }

    /// The free permits once the dispatch loop has given its own back.
    pub open spec fn permits_with_worker(self) -> nat {
        if self.worker == WorkerStage::Holding {
            self.permits + 1
        } else {
            self.permits
        }
    }

    /// After the dispatch loop took its next step.
    pub open spec fn after_poll(self) -> PoolView<W, H> {
        match self.poll_kind() {
            PollKind::Wait => if self.worker == WorkerStage::Idle && self.permits > 0 {
                PoolView {
                    worker: WorkerStage::Holding,
                    permits: (self.permits - 1) as nat,
                    ..self
                }
            } else {
                self
            },
            PollKind::Stop => PoolView {
                worker: WorkerStage::Stopped,
                permits: self.permits_with_worker(),
                queue: QueueView { tasks: Seq::empty(), abandoned: true, ..self.queue },
                tokens: token::tokens_after_finish_all(
                    self.tokens,
                    task_ids(self.queue.tasks).to_set(),
                ),
                ..self
            },
            PollKind::Cancelled => {
                let task = self.queue.tasks[0];
                PoolView {
                    worker: WorkerStage::Idle,
                    permits: self.permits_with_worker(),
                    queue: self.queue.after_recv(),
                    tokens: token::tokens_after_finish(self.tokens, task.core.id()),
                    notifier: self.notifier.after_notify(
                        self.message(task.core, TaskCompletionStatus::Cancelled),
                    ),
                    taken: self.taken.push(Taken { id: task.core.id(), started: false }),
                    ..self
                }
            },
            PollKind::Start => {
                let task = self.queue.tasks[0];
                PoolView {
                    worker: WorkerStage::Idle,
                    permits: (self.permits_with_worker() - 1) as nat,
                    queue: self.queue.after_recv(),
                    active: self.active.insert(
                        task.core.id(),
                        ActiveTask {
                            core: task.core,
                            status: None,
                            concluded: false,
                        },
                    ),
                    notifier: self.notifier.after_capture(),
                    taken: self.taken.push(Taken { id: task.core.id(), started: true }),
                    ..self
                }
            },
        }
    }

    /// Task `id` runs and has no outcome yet.
    pub open spec fn can_record(self, id: u64) -> bool {
        self.active.contains_key(id) && self.active[id].status is None
    }

    /// After the outcome of running task `id` was recorded as `status`. Nothing
    /// else changes: the result is handed over before the pool goes on.
    pub open spec fn after_record(self, id: u64, status: TaskCompletionStatus) -> PoolView<W, H> {
        if self.can_record(id) {
            PoolView {
                active: self.active.insert(
                    id,
                    ActiveTask { status: Some(status), ..self.active[id] },
                ),
                ..self
            }
        } else {
            self
        }
    }

    /// Task `id` has an outcome and was not reported yet.
    pub open spec fn can_conclude(self, id: u64) -> bool {
        self.active.contains_key(id) && self.active[id].status is Some
            && !self.active[id].concluded
    }

    /// After task `id`, whose outcome was recorded, was reported: its completion
    /// is queued if there is a queue, and its permit is free again.
    pub open spec fn after_conclude(self, id: u64) -> PoolView<W, H> {
        if self.can_conclude(id) {
            let entry = self.active[id];
            PoolView {
                active: self.active.insert(id, ActiveTask { concluded: true, ..entry }),
                permits: self.permits + 1,
                notifier: if self.notifier.has_queue() {
                    self.notifier.after_post(self.message(entry.core, entry.status->0))
                } else {
                    self.notifier
                },
                ..self
            }
        } else {
            self
        }
    }

    /// After `handler` was registered.
    pub open spec fn after_handler(self, handler: H) -> PoolView<W, H> {
        PoolView {
            notifier: self.notifier.after_add(handler, self.running().len()),
            ..self
        }
    }

    /// Task `id` was reported and is still listed as active.
    pub open spec fn can_retire(self, id: u64) -> bool {
        self.active.contains_key(id) && self.active[id].concluded
    }

    /// After task `id`, which was reported, was taken off the list of active tasks.
    pub open spec fn after_retire(self, id: u64) -> PoolView<W, H> {
        if self.can_retire(id) {
            PoolView {
                active: self.active.remove(id),
                tokens: token::tokens_after_finish(self.tokens, id),
                ..self
            }
        } else {
            self
        }
    }

    /// After the tokens of all tasks in `ids` were triggered.
    pub open spec fn after_cancel(self, ids: Set<u64>) -> PoolView<W, H> {
        PoolView { tokens: token::tokens_after_cancel(self.tokens, ids), ..self }
    }

    /// After the handle of task `id` was dropped.
    pub open spec fn after_handle_drop(self, id: u64) -> PoolView<W, H> {
        PoolView { tokens: token::tokens_after_handle_drop(self.tokens, id), ..self }
    }

    /// The tasks that a shutdown in `mode` cancels.
    pub open spec fn shutdown_victims(self, mode: ShutdownMode) -> Set<u64> {
        if !self.shutdown && mode == ShutdownMode::ForcefulCancel {
            self.active.dom()
        } else {
            Set::empty()
        }
    }

    /// After a shutdown in `mode` gave its signals. Only the first one does.
    pub open spec fn after_shutdown_signal(self, mode: ShutdownMode) -> PoolView<W, H> {
        PoolView {
            shutdown: true,
            queue: QueueView { closed: true, ..self.queue },
            tokens: token::tokens_after_cancel(self.tokens, self.shutdown_victims(mode)),
            ..self
        }
    }

    /// After a shutdown moved on from `stage`.
    pub open spec fn after_settle(self, initiator: bool, stage: shutdown::ShutdownStage) -> PoolView<
        W,
        H,
    > {
        PoolView {
            unclaimed: shutdown::unclaimed_settled(stage, self.unclaimed),
            notifier: shutdown::notifier_settled(initiator, stage, self.unclaimed, self.notifier),
            ..self
        }
    }

    /// After `shutdown` was called and did all that needs no waiting.
    pub open spec fn after_shutdown(self, mode: ShutdownMode) -> PoolView<W, H> {
        self.after_shutdown_signal(mode).after_settle(
            !self.shutdown,
            shutdown::first_stage(self.active.len()),
        )
    }

    /// What the caller of `shutdown` waits for first.
    pub open spec fn shutdown_run(self) -> ShutdownRun {
        ShutdownRun {
            initiator: !self.shutdown,
            stage: shutdown::stage_settled(
                shutdown::first_stage(self.active.len()),
                self.unclaimed,
                self.notifier.joinable,
            ),
        }
    }

    /// After a running shutdown learned of `event`.
    pub open spec fn after_shutdown_event(self, run: ShutdownRun, event: ShutdownEvent) -> PoolView<
        W,
        H,
    > {
        self.after_settle(run.initiator, shutdown::stage_after_event(run.stage, event))
    }

    /// After an instance of the pool was dropped. The last one starts a
    /// shutdown that nobody waits for, unless one was started before, and drops
    /// the pool-wide sender in any case.
    pub open spec fn after_instance_drop(self) -> PoolView<W, H> {
        let fewer = PoolView { instances: (self.instances - 1) as nat, ..self };
        if self.instances > 1 {
            fewer
        } else {
            PoolView {
                shutdown: true,
                queue: QueueView { closed: true, ..self.queue },
                notifier: self.notifier.after_close(),
                ..fewer
            }
        }
    }
}

/// A change of the pool.
pub enum PoolOp<W, H> {
    /// A task is submitted that gets the next number.
    Submit(Arc<TaskCore>, W),
    /// A blocked submission tries again.
    Resume(u64),
    /// A blocked submission is given up.
    Withdraw(u64),
    /// The dispatch loop takes a step.
    Poll,
    /// The outcome of a running task is recorded.
    Record(u64, TaskCompletionStatus),
    /// A task with an outcome is reported and gives its permit back.
    Conclude(u64),
    /// A task that was reported is taken off the list of active tasks.
    Retire(u64),
    /// Tokens are triggered, by a handle or by labels.
    Cancel(Set<u64>),
    /// A handle is dropped.
    DropHandle(u64),
    /// A completion handler is registered.
    AddHandler(H),
    /// The notification worker takes a step.
    Notifier,
    /// The notification worker takes note of the shutdown.
    NoteShutdown,
    /// `shutdown` is called.
    Shutdown(ShutdownMode),
    /// A running shutdown learns of an event.
    ShutdownEvent(ShutdownRun, ShutdownEvent),
    /// An instance is added.
    AddInstance,
    /// An instance is dropped.
    DropInstance,
}

impl<W, H> PoolView<W, H> {
    /// `op` can happen to the pool.
    pub open spec fn allows(self, op: PoolOp<W, H>) -> bool {
        match op {
            PoolOp::Submit(core, _) => !self.refuses() && core.id() == self.next_id && self.next_id
                < u64::MAX,
            PoolOp::ShutdownEvent(run, _) => self.shutdown,
            PoolOp::DropInstance => self.instances > 0,
            _ => true,
        }
    }

    /// The pool after `op`.
    pub open spec fn step(self, op: PoolOp<W, H>) -> PoolView<W, H> {
        match op {
            PoolOp::Submit(core, work) => self.after_submit(core, work),
            PoolOp::Resume(id) => self.after_resume(id),
            PoolOp::Withdraw(id) => self.after_withdraw(id),
            PoolOp::Poll => self.after_poll(),
            PoolOp::Record(id, status) => self.after_record(id, status),
            PoolOp::Conclude(id) => self.after_conclude(id),
            PoolOp::Retire(id) => self.after_retire(id),
            PoolOp::Cancel(ids) => self.after_cancel(ids),
            PoolOp::DropHandle(id) => self.after_handle_drop(id),
            PoolOp::AddHandler(handler) => self.after_handler(handler),
            PoolOp::Notifier => PoolView { notifier: self.notifier.after_action(), ..self },
            PoolOp::NoteShutdown => PoolView {
                notifier: NotifierView { shutdown_noted: true, ..self.notifier },
                ..self
            },
            PoolOp::Shutdown(mode) => self.after_shutdown(mode),
            PoolOp::ShutdownEvent(run, event) => self.after_shutdown_event(run, event),
            PoolOp::AddInstance => PoolView { instances: self.instances + 1, ..self },
            PoolOp::DropInstance => self.after_instance_drop(),
        }
    }
}

} // verus!
