//! What a pool with several dispatch loops is, and what each operation makes of
//! it.

use std::sync::Arc;
use vstd::prelude::*;

use crate::active;
use crate::active::CoreSlots;
use crate::channel::ChannelView;
use crate::lanes::LanesView;
use crate::notifier::{
    CompletionSink, InternalCompletionMessage, NotifierView, TaskCompletionStatus,
};
use crate::pool_view;
use crate::pool_view::{PollKind, Taken};
use crate::shutdown;
use crate::shutdown::{ShutdownEvent, ShutdownMode, ShutdownRun};
use crate::slots;
use crate::sums;
use crate::task::TaskCore;
use crate::task_queue::{ManagedTaskInternal, SendOutcome};
use crate::token;
use crate::token::TokenRecord;

verus! {

/// Where the dispatch loop of a lane stands.
pub enum LaneStage<W> {
    /// It holds nothing.
    Idle,
    /// It took a task out of its lane and waits for a concurrency permit.
    Holding(ManagedTaskInternal<W>),
    /// It has ended.
    Stopped,
}

/// What the pool keeps about a running task.
#[derive(Debug)]
pub struct RunningTask {
    /// Number and labels.
    pub core: Arc<TaskCore>,
    /// The registry shard that lists the task.
    pub shard: usize,
    /// How the task ended, once it has.
    pub status: Option<TaskCompletionStatus>,
    /// The task was reported.
    pub concluded: bool,
}

/// Where a task stands.
pub enum TaskStage {
    /// Its submission waits for a place in the queue.
    Blocked,
    /// It waits in this lane.
    Queued(int),
    /// The dispatch loop of this lane holds it.
    Held(int),
    /// It runs.
    Running,
    /// It is over, or was given up.
    Ended,
}

/// What a registry shard is.
#[verifier::ext_equal]
pub struct ShardView {
    /// What each slot holds, finished tasks that were not reclaimed yet among them.
    pub entries: CoreSlots,
    /// The empty slots; the last one is reused first.
    pub free: Seq<usize>,
    /// The number of tasks that were added and not counted out yet.
    pub in_flight: usize,
}

impl ShardView {
    /// After `core` was added.
    pub open spec fn after_insert(self, tokens: Map<u64, TokenRecord>, core: Arc<TaskCore>) -> ShardView {
        ShardView {
            entries: active::deferred_entries_after_insert(self.entries, self.free, tokens, core),
            free: active::deferred_free_after_insert(self.entries, self.free, tokens),
            in_flight: active::counted_up(self.in_flight),
        }
    }

    /// After a task was counted out.
    pub open spec fn after_finish(self) -> ShardView {
        ShardView { in_flight: active::counted_down(self.in_flight), ..self }
    }
}

/// The numbers of tasks in flight, shard by shard.
pub open spec fn flight_counts(shards: Seq<ShardView>) -> Seq<nat> {
    shards.map_values(|shard: ShardView| shard.in_flight as nat)
}

/// The running tasks that shard `s` lists.
pub open spec fn shard_tasks(running: Map<u64, RunningTask>, s: int) -> Set<u64> {
    running.dom().filter(|id: u64| running[id].shard == s)
}

/// The running tasks that were not reported yet.
pub open spec fn unreported(running: Map<u64, RunningTask>) -> Set<u64> {
    running.dom().filter(|id: u64| !running[id].concluded)
}

/// The running tasks that carry at least one of `labels`.
pub open spec fn running_labelled(running: Map<u64, RunningTask>, labels: Set<Seq<char>>) -> Set<u64> {
    running.dom().filter(|id: u64| active::carries(running[id].core, labels))
}

/// The tasks that a dispatch loop at `stage` holds: one or none.
pub open spec fn held_tasks<W>(stage: LaneStage<W>) -> Seq<ManagedTaskInternal<W>> {
    match stage {
        LaneStage::Holding(task) => seq![task],
        _ => Seq::empty(),
    }
}

/// What a relaxed pool is.
#[verifier::ext_equal]
pub struct RlxdView<W, H> {
    /// The name.
    pub name: Arc<String>,
    /// The number of tasks that may run at the same time.
    pub limit: nat,
    /// The concurrency permits that are free.
    pub permits: nat,
    /// The dispatch loops, one for each lane.
    pub workers: Seq<LaneStage<W>>,
    /// The bounded queue.
    pub queue: LanesView<W>,
    /// The submissions that wait for a place in the queue.
    pub blocked: Map<u64, ManagedTaskInternal<W>>,
    /// The running tasks.
    pub running: Map<u64, RunningTask>,
    /// The registry, one shard for each lane.
    pub shards: Seq<ShardView>,
    /// The cancellation tokens.
    pub tokens: Map<u64, TokenRecord>,
    /// A shutdown was started.
    pub shutdown: bool,
    /// The number of the next task.
    pub next_id: u64,
    /// The notifier.
    pub notifier: NotifierView<H>,
    /// The dispatch loops that nobody waits for yet.
    pub unclaimed: usize,
    /// The number of instances that share the pool.
    pub instances: nat,
    /// Where each task stands that was ever submitted.
    pub stages: Map<u64, TaskStage>,
    /// The tasks that were ever routed to each lane, in order.
    pub accepted: Seq<Seq<u64>>,
    /// The tasks of each lane that were started or found cancelled, in order.
    pub taken: Seq<Seq<Taken>>,
}

impl<W, H> RlxdView<W, H> {
    /// A new pool with `count` lanes.
    pub open spec fn start(name: Arc<String>, limit: nat, capacity: nat, count: usize) -> RlxdView<
        W,
        H,
    > {
        RlxdView {
            name,
            limit,
            permits: limit,
            workers: Seq::new(count as nat, |l: int| LaneStage::Idle),
            queue: LanesView {
                lanes: Seq::new(
                    count as nat,
                    |l: int|
                        ChannelView {
                            items: Seq::<ManagedTaskInternal<W>>::empty(),
                            sender_closed: false,
                            receiver_closed: false,
                        },
                ),
                capacity,
                next_lane: 0,
            },
            blocked: Map::empty(),
            running: Map::empty(),
            shards: Seq::new(
                count as nat,
                |l: int|
                    ShardView {
                        entries: Seq::<Option<Arc<TaskCore>>>::empty(),
                        free: Seq::<usize>::empty(),
                        in_flight: 0,
                    },
            ),
            tokens: Map::empty(),
            shutdown: false,
            next_id: 0,
            notifier: NotifierView::start(),
            unclaimed: count,
            instances: 1,
            stages: Map::empty(),
            accepted: Seq::new(count as nat, |l: int| Seq::<u64>::empty()),
            taken: Seq::new(count as nat, |l: int| Seq::<Taken>::empty()),
        }
    }

    /// The number of lanes.
    pub open spec fn width(self) -> nat {
        self.queue.lanes.len()
    }

    /// New tasks are refused.
    pub open spec fn refuses(self) -> bool {
        self.shutdown || self.queue.is_closed()
    }

    /// The number of active tasks: what the shards count.
    pub open spec fn active_count(self) -> nat {
        sums::total(flight_counts(self.shards))
    }

    /// Some dispatch loop waits with a task for a concurrency permit.
    pub open spec fn permit_wanted(self) -> bool {
        exists|l: int| 0 <= l < self.workers.len() && (#[trigger] self.workers[l]) is Holding
    }

    /// A new task can be started past the queue: nothing waits, neither in the
    /// queue nor for a permit, and a permit is free.
    pub open spec fn direct_path(self) -> bool {
        self.queue.waiting() == 0 && !self.permit_wanted() && self.permits > 0
    }

    /// What holds of every pool.
    pub open spec fn wf(self) -> bool {
        &&& self.limits_wf()
        &&& self.lanes_wf()
        &&& self.stages_wf()
        &&& self.shards_wf()
        &&& self.tokens_wf()
        &&& self.shutdown_wf()
    }

    /// Permits and senders are conserved, and the queue keeps to its capacity.
    /// Each task that runs and was not reported holds a sender of the completion
    /// queue, if there is one.
    pub open spec fn limits_wf(self) -> bool {
        &&& 1 <= self.limit <= usize::MAX
        &&& self.permits + self.running.dom().len() == self.limit
        &&& self.running.dom().finite()
        &&& self.queue.waiting() <= self.queue.capacity
        &&& self.notifier.wf()
        &&& self.notifier.senders == (if self.notifier.has_queue() {
            unreported(self.running).len()
        } else {
            0
        })
        &&& 1 <= self.width() <= usize::MAX
        &&& self.workers.len() == self.width()
        &&& self.shards.len() == self.width()
        &&& self.accepted.len() == self.width()
        &&& self.taken.len() == self.width()
        &&& self.unclaimed <= self.width()
    }

    /// Tasks leave each lane in the order in which they were routed to it.
    pub open spec fn lanes_wf(self) -> bool {
        forall|l: int|
            0 <= l < self.width() ==> lane_wf(
                #[trigger] self.accepted[l],
                self.taken[l],
                self.workers[l],
                self.queue.lanes[l].items,
            )
    }

    /// Every task is in one place.
    pub open spec fn stages_wf(self) -> bool {
        &&& forall|id: u64| #[trigger] self.stages.contains_key(id) <==> id < self.next_id
        &&& forall|id: u64| #[trigger]
            self.blocked.contains_key(id) ==> self.blocked[id].core.id() == id
                && self.stages.contains_key(id) && self.stages[id] == TaskStage::Blocked
        &&& forall|id: u64| #[trigger]
            self.running.contains_key(id) ==> self.running[id].core.id() == id
                && self.stages.contains_key(id) && self.stages[id] == TaskStage::Running && (
            self.running[id].concluded ==> self.running[id].status is Some)
        &&& forall|l: int, k: int|
            0 <= l < self.width() && 0 <= k < self.queue.lanes[l].items.len()
                ==> self.stages.contains_key((#[trigger] self.queue.lanes[l].items[k]).core.id())
                && self.stages[self.queue.lanes[l].items[k].core.id()] == TaskStage::Queued(l)
        &&& forall|l: int|
            0 <= l < self.width() ==> ((#[trigger] self.workers[l]) matches LaneStage::Holding(task)
                ==> self.stages.contains_key(task.core.id()) && self.stages[task.core.id()]
                == TaskStage::Held(l))
        &&& forall|l: int, k: int|
            0 <= l < self.width() && 0 <= k < self.accepted[l].len() ==> (
            #[trigger] self.accepted[l][k]) < self.next_id && !(self.stages[self.accepted[l][k]]
                == TaskStage::Blocked)
        &&& forall|l: int, k: int|
            0 <= l < self.width() && 0 <= k < self.taken[l].len() ==> {
                let id = (#[trigger] self.taken[l][k]).id;
                self.stages.contains_key(id) && (self.stages[id] == TaskStage::Ended
                    || self.running.contains_key(id))
            }
    }

    /// The shards list the running tasks, and count them.
    pub open spec fn shards_wf(self) -> bool {
        &&& forall|s: int|
            0 <= s < self.width() ==> slots::slots_wf(
                (#[trigger] self.shards[s]).entries,
                self.shards[s].free,
            ) && self.shards[s].in_flight == shard_tasks(self.running, s).len()
                && self.shards[s].entries.len() <= self.limit && distinct_unfinished(
                self.shards[s].entries,
                self.tokens,
            )
        &&& forall|s: int, i: int|
            #![trigger self.shards[s].entries[i]]
            0 <= s < self.width() && slots::occupied(self.shards[s].entries, i) ==> self.listed(
                self.shards[s].entries[i]->0,
                s,
            )
        &&& forall|id: u64| #[trigger]
            self.running.contains_key(id) ==> self.running[id].shard < self.width() && lists(
                self.shards[self.running[id].shard as int].entries,
                self.running[id].core,
            )
        &&& self.active_count() == self.running.dom().len()
    }

    /// A task that shard `s` lists runs in it or is finished.
    pub open spec fn listed(self, core: Arc<TaskCore>, s: int) -> bool {
        &&& core.id() < self.next_id
        &&& token::token_finished(self.tokens, core.id()) || (self.running.contains_key(core.id())
            && self.running[core.id()].core == core && self.running[core.id()].shard == s)
    }

    /// Every task that is not over has a token of its own.
    pub open spec fn tokens_wf(self) -> bool {
        &&& forall|id: u64| #[trigger] self.tokens.contains_key(id) ==> id < self.next_id
        &&& forall|id: u64| #[trigger]
            self.stages.contains_key(id) && self.stages[id] != TaskStage::Ended ==> pool_view::alive(
                self.tokens,
                id,
            )
    }

    /// The parts of the pool agree on how far a shutdown has come.
    pub open spec fn shutdown_wf(self) -> bool {
        &&& forall|l: int|
            0 <= l < self.width() ==> (#[trigger] self.queue.lanes[l]).sender_closed
                == self.shutdown
        &&& forall|l: int|
            0 <= l < self.width() ==> (#[trigger] self.queue.lanes[l]).receiver_closed == (
            self.workers[l] is Stopped)
        &&& forall|l: int|
            0 <= l < self.width() && (#[trigger] self.workers[l]) is Stopped ==> self.shutdown
                && self.queue.lanes[l].items.len() == 0
        &&& self.notifier.sink == CompletionSink::Closed ==> self.shutdown
    }

    /// A completion of the task with control block `core`.
    pub open spec fn message(self, core: Arc<TaskCore>, status: TaskCompletionStatus) -> InternalCompletionMessage {
        InternalCompletionMessage { core, pool_name: self.name, status }
    }

    /// After a task was started that shard `s` lists: it takes a permit, and a
    /// sender if there is a queue for completions.
    pub open spec fn after_start(self, core: Arc<TaskCore>, s: int) -> RlxdView<W, H> {
        RlxdView {
            permits: (self.permits - 1) as nat,
            running: self.running.insert(
                core.id(),
                RunningTask {
                    core,
                    shard: s as usize,
                    status: None,
                    concluded: false,
                },
            ),
            shards: self.shards.update(s, self.shards[s].after_insert(self.tokens, core)),
            notifier: self.notifier.after_capture(),
            stages: self.stages.insert(core.id(), TaskStage::Running),
            taken: self.taken.update(
                s,
                self.taken[s].push(Taken { id: core.id(), started: true }),
            ),
            ..self
        }
    }

    /// After a new task got its number and a fresh token; it stands where
    /// `stage` says.
    pub open spec fn after_number(self, stage: TaskStage) -> RlxdView<W, H> {
        RlxdView {
            next_id: (self.next_id + 1) as u64,
            tokens: token::tokens_after_register(self.tokens, self.next_id),
            stages: self.stages.insert(self.next_id, stage),
            ..self
        }
    }

    /// After task `id` was routed to the next lane.
    pub open spec fn after_accept(self, id: u64) -> RlxdView<W, H> {
        let l = self.queue.route();
        RlxdView {
            queue: self.queue.after_route(),
            accepted: self.accepted.update(l, self.accepted[l].push(id)),
            ..self
        }
    }

    /// After `task` was routed to the next lane and put at its back.
    pub open spec fn after_enqueue(self, task: ManagedTaskInternal<W>) -> RlxdView<W, H> {
        let l = self.queue.route();
        RlxdView {
            queue: self.queue.with_items(l, self.queue.lanes[l].items.push(task)),
            stages: self.stages.insert(task.core.id(), TaskStage::Queued(l)),
            ..self
        }.after_accept(task.core.id())
    }

    /// After the submission of a task that was not refused.
    pub open spec fn after_submit(self, core: Arc<TaskCore>, work: W) -> RlxdView<W, H> {
        let task = ManagedTaskInternal { core, work };
        if self.direct_path() {
            self.after_number(TaskStage::Running).after_accept(self.next_id).after_start(
                core,
                self.queue.route(),
            )
        } else if self.queue.is_full() {
            RlxdView {
                blocked: self.blocked.insert(self.next_id, task),
                ..self.after_number(TaskStage::Blocked)
            }
        } else {
            self.after_number(TaskStage::Queued(self.queue.route())).after_enqueue(task)
        }
    }

    /// What a blocked submission is told when it tries again.
    pub open spec fn resume_outcome(self, id: u64) -> SendOutcome<W>
        recommends
            self.blocked.contains_key(id),
    {
        self.queue.resume_outcome(self.blocked[id], self.shutdown)
    }

    /// After blocked submission `id` tried again.
    pub open spec fn after_resume(self, id: u64) -> RlxdView<W, H> {
        if !self.blocked.contains_key(id) {
            self
        } else {
            match self.resume_outcome(id) {
                SendOutcome::Sent => RlxdView {
                    blocked: self.blocked.remove(id),
                    ..self
                }.after_enqueue(self.blocked[id]),
                SendOutcome::Full(_) => self,
                SendOutcome::Refused(_, task) => RlxdView {
                    queue: self.queue.after_resume(task, self.shutdown),
                    ..self
                }.after_withdraw(id),
            }
        }
    }

    /// After blocked submission `id` was given up.
    pub open spec fn after_withdraw(self, id: u64) -> RlxdView<W, H> {
        if self.blocked.contains_key(id) {
            RlxdView {
                blocked: self.blocked.remove(id),
                tokens: token::tokens_after_finish(self.tokens, id),
                stages: self.stages.insert(id, TaskStage::Ended),
                ..self
            }
        } else {
            self
        }
    }

    /// The task that the dispatch loop of lane `l` deals with next, if there is
    /// one: the one it holds, or else the oldest in its lane.
    pub open spec fn next_task(self, l: int) -> Option<ManagedTaskInternal<W>> {
        match self.workers[l] {
            LaneStage::Holding(task) => Some(task),
            LaneStage::Idle => if self.queue.lanes[l].items.len() > 0 {
                Some(self.queue.lanes[l].items[0])
            } else {
                None
            },
            LaneStage::Stopped => None,
        }
    }

    /// What the dispatch loop of lane `l` does next.
    ///
    /// A shutdown comes first. Then a task is needed, then a concurrency permit.
    pub open spec fn poll_kind(self, l: int) -> PollKind {
        if self.workers[l] is Stopped || self.shutdown {
            PollKind::Stop
        } else {
            match self.next_task(l) {
                None => if self.queue.recv_outcome(l) is Disconnected {
                    PollKind::Stop
                } else {
                    PollKind::Wait
                },
                Some(task) => if self.workers[l] is Idle && token::token_cancelled(
                    self.tokens,
                    task.core.id(),
                ) {
                    PollKind::Cancelled
                } else if self.permits > 0 {
                    PollKind::Start
                } else {
                    PollKind::Wait
                },
            }
        }
    }

    /// The tasks that are lost when the dispatch loop of lane `l` ends: the one
    /// it holds and those in its lane.
    pub open spec fn lane_leftovers(self, l: int) -> Seq<ManagedTaskInternal<W>> {
        held_tasks(self.workers[l]) + self.queue.lanes[l].items
    }

    /// The pool once the dispatch loop of lane `l` has its next task in hand.
    pub open spec fn after_fetch(self, l: int) -> RlxdView<W, H> {
        if self.workers[l] is Idle {
            RlxdView { queue: self.queue.after_recv(l), ..self }
        } else {
            RlxdView { workers: self.workers.update(l, LaneStage::Idle), ..self }
        }
    }

    /// After the dispatch loop of lane `l` took its next step.
    pub open spec fn after_poll(self, l: int) -> RlxdView<W, H> {
        match self.poll_kind(l) {
            PollKind::Wait => match self.next_task(l) {
                Some(task) => if self.workers[l] is Idle {
                    RlxdView {
                        queue: self.queue.after_recv(l),
                        workers: self.workers.update(l, LaneStage::Holding(task)),
                        stages: self.stages.insert(task.core.id(), TaskStage::Held(l)),
                        ..self
                    }
                } else {
                    self
                },
                None => self,
            },
            PollKind::Stop => {
                let lost = pool_view::task_ids(self.lane_leftovers(l)).to_set();
                RlxdView {
                    workers: self.workers.update(l, LaneStage::Stopped),
                    queue: self.queue.after_abandon(l),
                    tokens: token::tokens_after_finish_all(self.tokens, lost),
                    stages: self.stages.map_entries(
                        |id: u64, stage: TaskStage|
                            if lost.contains(id) {
                                TaskStage::Ended
                            } else {
                                stage
                            },
                    ),
                    ..self
                }
            },
            PollKind::Cancelled => {
                let task = self.next_task(l)->0;
                RlxdView {
                    tokens: token::tokens_after_finish(self.tokens, task.core.id()),
                    notifier: self.notifier.after_notify(
                        self.message(task.core, TaskCompletionStatus::Cancelled),
                    ),
                    stages: self.stages.insert(task.core.id(), TaskStage::Ended),
                    taken: self.taken.update(
                        l,
                        self.taken[l].push(Taken { id: task.core.id(), started: false }),
                    ),
                    ..self.after_fetch(l)
                }
            },
            PollKind::Start => self.after_fetch(l).after_start(self.next_task(l)->0.core, l),
        }
    }

    /// Task `id` runs and has no outcome yet.
    pub open spec fn can_record(self, id: u64) -> bool {
        self.running.contains_key(id) && self.running[id].status is None
    }

    /// After the outcome of running task `id` was recorded as `status`. Nothing
    /// else changes: the result is handed over before the pool goes on.
    pub open spec fn after_record(self, id: u64, status: TaskCompletionStatus) -> RlxdView<W, H> {
        if self.can_record(id) {
            RlxdView {
                running: self.running.insert(
                    id,
                    RunningTask { status: Some(status), ..self.running[id] },
                ),
                ..self
            }
        } else {
            self
        }
    }

    /// Task `id` has an outcome and was not reported yet.
    pub open spec fn can_conclude(self, id: u64) -> bool {
        self.running.contains_key(id) && self.running[id].status is Some
            && !self.running[id].concluded
    }

    /// After task `id`, whose outcome was recorded, was reported: its completion
    /// is queued if there is a queue. The task still counts as active.
    pub open spec fn after_conclude(self, id: u64) -> RlxdView<W, H> {
        if self.can_conclude(id) {
            let entry = self.running[id];
            RlxdView {
                running: self.running.insert(id, RunningTask { concluded: true, ..entry }),
                notifier: if self.notifier.has_queue() {
                    self.notifier.after_post(self.message(entry.core, entry.status->0))
                } else {
                    self.notifier
                },
                ..self
            }
        } else {
            self
        }
    }

    /// Task `id` was reported and still counts as active.
    pub open spec fn can_retire(self, id: u64) -> bool {
        self.running.contains_key(id) && self.running[id].concluded
    }

    /// After task `id`, which was reported, is over: it is marked finished, its
    /// shard counts it out, and its permit is free again.
    pub open spec fn after_retire(self, id: u64) -> RlxdView<W, H> {
        if self.can_retire(id) {
            let s = self.running[id].shard as int;
            RlxdView {
                running: self.running.remove(id),
                permits: self.permits + 1,
                shards: self.shards.update(s, self.shards[s].after_finish()),
                tokens: token::tokens_after_finish(self.tokens, id),
                stages: self.stages.insert(id, TaskStage::Ended),
                ..self
            }
        } else {
            self
        }
    }

    /// After `handler` was registered.
    pub open spec fn after_handler(self, handler: H) -> RlxdView<W, H> {
        RlxdView {
            notifier: self.notifier.after_add(handler, unreported(self.running).len()),
            ..self
        }
    }

    /// After the tokens of all tasks in `ids` were triggered.
    pub open spec fn after_cancel(self, ids: Set<u64>) -> RlxdView<W, H> {
        RlxdView { tokens: token::tokens_after_cancel(self.tokens, ids), ..self }
    }

    /// After the handle of task `id` was dropped.
    pub open spec fn after_handle_drop(self, id: u64) -> RlxdView<W, H> {
        RlxdView { tokens: token::tokens_after_handle_drop(self.tokens, id), ..self }
    }

    /// The tasks that a shutdown in `mode` cancels.
    pub open spec fn shutdown_victims(self, mode: ShutdownMode) -> Set<u64> {
        if !self.shutdown && mode == ShutdownMode::ForcefulCancel {
            self.running.dom()
        } else {
            Set::empty()
        }
    }

    /// After a shutdown in `mode` gave its signals. Only the first one does.
    pub open spec fn after_shutdown_signal(self, mode: ShutdownMode) -> RlxdView<W, H> {
        RlxdView {
            shutdown: true,
            queue: self.queue.after_close(),
            tokens: token::tokens_after_cancel(self.tokens, self.shutdown_victims(mode)),
            ..self
        }
    }

    /// After a shutdown moved on from `stage`.
    pub open spec fn after_settle(self, initiator: bool, stage: shutdown::ShutdownStage) -> RlxdView<
        W,
        H,
    > {
        RlxdView {
            unclaimed: shutdown::unclaimed_settled(stage, self.unclaimed),
            notifier: shutdown::notifier_settled(initiator, stage, self.unclaimed, self.notifier),
            ..self
        }
    }

    /// After `shutdown` was called and did all that needs no waiting.
    pub open spec fn after_shutdown(self, mode: ShutdownMode) -> RlxdView<W, H> {
        self.after_shutdown_signal(mode).after_settle(
            !self.shutdown,
            shutdown::first_stage(self.active_count()),
        )
    }

    /// What the caller of `shutdown` waits for first.
    pub open spec fn shutdown_run(self) -> ShutdownRun {
        ShutdownRun {
            initiator: !self.shutdown,
            stage: shutdown::stage_settled(
                shutdown::first_stage(self.active_count()),
                self.unclaimed,
                self.notifier.joinable,
            ),
        }
    }

    /// After a running shutdown learned of `event`.
    pub open spec fn after_shutdown_event(self, run: ShutdownRun, event: ShutdownEvent) -> RlxdView<
        W,
        H,
    > {
        self.after_settle(run.initiator, shutdown::stage_after_event(run.stage, event))
    }

    /// After an instance of the pool was dropped. The last one starts a
    /// shutdown that nobody waits for, unless one was started before, and drops
    /// the pool-wide sender in any case.
    pub open spec fn after_instance_drop(self) -> RlxdView<W, H> {
        let fewer = RlxdView { instances: (self.instances - 1) as nat, ..self };
        if self.instances > 1 {
            fewer
        } else {
            RlxdView {
                shutdown: true,
                queue: self.queue.after_close(),
                notifier: self.notifier.after_close(),
                ..fewer
            }
        }
    }
}

/// No unfinished task stands in two slots.
pub open spec fn distinct_unfinished(entries: CoreSlots, tokens: Map<u64, TokenRecord>) -> bool {
    forall|i: int, j: int|
        #![trigger entries[i], entries[j]]
        slots::occupied(entries, i) && slots::occupied(entries, j) && i != j
            && active::unfinished(entries[i]->0, tokens) && active::unfinished(
            entries[j]->0,
            tokens,
        ) ==> entries[i]->0.id() != entries[j]->0.id()
}

/// `entries` lists `core`.
pub open spec fn lists(entries: CoreSlots, core: Arc<TaskCore>) -> bool {
    exists|i: int| 0 <= i < entries.len() && #[trigger] entries[i] == Some(core)
}

/// A lane to which the tasks `accepted` were routed, of which `taken` left it,
/// while `worker` and `items` have the rest.
pub open spec fn lane_wf<W>(
    accepted: Seq<u64>,
    taken: Seq<Taken>,
    worker: LaneStage<W>,
    items: Seq<ManagedTaskInternal<W>>,
) -> bool {
    &&& accepted.no_duplicates()
    &&& pool_view::taken_ids(taken).is_prefix_of(accepted)
    &&& !(worker is Stopped) ==> accepted == pool_view::taken_ids(taken) + pool_view::task_ids(
        held_tasks(worker) + items,
    )
}

/// A change of the pool.
pub enum RlxdOp<W, H> {
    /// A task is submitted that gets the next number.
    Submit(Arc<TaskCore>, W),
    /// A blocked submission tries again.
    Resume(u64),
    /// A blocked submission is given up.
    Withdraw(u64),
    /// The dispatch loop of a lane takes a step.
    Poll(int),
    /// The outcome of a running task is recorded.
    Record(u64, TaskCompletionStatus),
    /// A task with an outcome is reported.
    Conclude(u64),
    /// A task that was reported is over.
    Retire(u64),
    /// Tokens are triggered, by a handle or by labels.
    Cancel(Set<u64>),
    /// A handle is dropped.
    DropHandle(u64),
    /// A completion handler is registered.
    AddHandler(H),
    /// The notification worker takes a step.
    Notifier,
    /// The notification worker takes note of the shutdown.
    NoteShutdown,
    /// `shutdown` is called.
    Shutdown(ShutdownMode),
    /// A running shutdown learns of an event.
    ShutdownEvent(ShutdownRun, ShutdownEvent),
    /// An instance is added.
    AddInstance,
    /// An instance is dropped.
    DropInstance,
}

impl<W, H> RlxdView<W, H> {
    /// `op` can happen to the pool.
    pub open spec fn allows(self, op: RlxdOp<W, H>) -> bool {
        match op {
            RlxdOp::Submit(core, _) => !self.refuses() && core.id() == self.next_id && self.next_id
                < u64::MAX,
            RlxdOp::Poll(l) => 0 <= l < self.width(),
            RlxdOp::ShutdownEvent(_, _) => self.shutdown,
            RlxdOp::DropInstance => self.instances > 0,
            _ => true,
        }
    }

    /// The pool after `op`.
    pub open spec fn step(self, op: RlxdOp<W, H>) -> RlxdView<W, H> {
        match op {
            RlxdOp::Submit(core, work) => self.after_submit(core, work),
            RlxdOp::Resume(id) => self.after_resume(id),
            RlxdOp::Withdraw(id) => self.after_withdraw(id),
            RlxdOp::Poll(l) => self.after_poll(l),
            RlxdOp::Record(id, status) => self.after_record(id, status),
            RlxdOp::Conclude(id) => self.after_conclude(id),
            RlxdOp::Retire(id) => self.after_retire(id),
            RlxdOp::Cancel(ids) => self.after_cancel(ids),
            RlxdOp::DropHandle(id) => self.after_handle_drop(id),
            RlxdOp::AddHandler(handler) => self.after_handler(handler),
            RlxdOp::Notifier => RlxdView { notifier: self.notifier.after_action(), ..self },
            RlxdOp::NoteShutdown => RlxdView {
                notifier: NotifierView { shutdown_noted: true, ..self.notifier },
                ..self
            },
            RlxdOp::Shutdown(mode) => self.after_shutdown(mode),
            RlxdOp::ShutdownEvent(run, event) => self.after_shutdown_event(run, event),
            RlxdOp::AddInstance => RlxdView { instances: self.instances + 1, ..self },
            RlxdOp::DropInstance => self.after_instance_drop(),
        }
    }
}

} // verus!
