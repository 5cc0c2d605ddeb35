//! A pool with several dispatch loops: each drains a lane of its own, and
//! submissions go to the lanes in turn.
//!
//! Order is strict within a lane and best-effort across lanes. Everything else
//! carries the same guarantees as the pool with one dispatch loop.

use std::collections::HashMap;
use std::sync::Arc;
use vstd::prelude::*;

use crate::active;
use crate::active::DeferredRegistry;
use crate::behaviour;
use crate::capacity_gate::CapacityGate;
use crate::channel::Received;
use crate::error::PoolError;
use crate::handle::TaskHandle;
use crate::keys;
use crate::lanes::LaneQueue;
use crate::manager::{Refusal, ResumeStep, WorkerAction};
use crate::notifier;
use crate::notifier::{
    CompletionNotifier, CompletionSink, InternalCompletionMessage, NotifierAction, NotifierView,
    TaskCompletionStatus,
};
use crate::pool_view;
use crate::pool_view::{PollKind, Taken};
use crate::rlxd_view;
use crate::rlxd_view::{LaneStage, RlxdView, RunningTask, ShardView, TaskStage};
use crate::shutdown;
use crate::shutdown::{ShutdownEvent, ShutdownMode, ShutdownRun};
use crate::slots;
use crate::sums;
use crate::task::{LabelSet, TaskCore, TaskLabel};
use crate::task_queue::{ManagedTaskInternal, SendOutcome};
use crate::token;
use crate::token::{CancellationToken, TokenTable};

verus! {

broadcast use vstd::std_specs::hash::group_hash_axioms;

/// A submission that was not refused. `F` is the work as it was submitted.
#[derive(Debug)]
pub enum RlxdSubmission<F, X> {
    /// The task was started past the queue and is to be run.
    Started(TaskHandle<X>, F),
    /// The task waits in the queue.
    Queued(TaskHandle<X>),
    /// The queue is full. The handle is to be kept back until the submission
    /// gets a place.
    Waiting(TaskHandle<X>),
}

impl<F, X> RlxdSubmission<F, X> {
    /// The handle of the task.
    pub open spec fn handle(self) -> TaskHandle<X> {
        match self {
            RlxdSubmission::Started(handle, _) => handle,
            RlxdSubmission::Queued(handle) => handle,
            RlxdSubmission::Waiting(handle) => handle,
        }
    }
}

/// What `registry` holds.
pub open spec fn shard_view(registry: DeferredRegistry) -> ShardView {
    ShardView {
        entries: registry.entries(),
        free: registry.free_list(),
        in_flight: registry.spec_in_flight(),
    }
}

/// Adds the numbers of all tasks in `cores` to `ids`.
fn push_ids(ids: &mut Vec<u64>, cores: &Vec<Arc<TaskCore>>)
    ensures
        final(ids)@ == old(ids)@ + active::core_ids(cores@),
{
    let mut i: usize = 0;
    assert(ids@ =~= old(ids)@ + active::core_ids(cores@.take(0)));
    while i < cores.len()
        invariant
            i <= cores.len(),
            ids@ == old(ids)@ + active::core_ids(cores@.take(i as int)),
        decreases cores.len() - i,
    {
        ids.push(cores[i].task_id());
        assert(ids@ =~= old(ids)@ + active::core_ids(cores@.take(i + 1)));
        i = i + 1;
    }
    assert(cores@.take(i as int) =~= cores@);
}

/// Work that is ready to queue.
fn as_it_is<W>(work: W) -> (same: W)
    ensures
        same == work,
{
    work
}

/// A relaxed pool that runs tasks with bounded concurrency.
///
/// `W` is the work of a task and `H` a completion handler; the pool looks into
/// neither.
pub struct FuturePoolManagerRlxd<W, H> {
    pool_name: Arc<String>,
    concurrency_gate: CapacityGate,
    task_queue: LaneQueue<W>,
    workers: Vec<LaneStage<W>>,
    blocked: HashMap<u64, ManagedTaskInternal<W>>,
    running: HashMap<u64, RunningTask>,
    active_task_info: Vec<DeferredRegistry>,
    tokens: TokenTable,
    shutdown_token: CancellationToken,
    next_task_id: u64,
    completion_notifier: CompletionNotifier<H>,
    unclaimed: usize,
    instances: usize,
    stages: Ghost<Map<u64, TaskStage>>,
    accepted: Ghost<Seq<Seq<u64>>>,
    taken: Ghost<Seq<Seq<Taken>>>,
}

impl<W, H> View for FuturePoolManagerRlxd<W, H> {
    type V = RlxdView<W, H>;

    closed spec fn view(&self) -> RlxdView<W, H> {
        RlxdView {
            name: self.pool_name,
            limit: self.concurrency_gate.spec_capacity(),
            permits: self.concurrency_gate.spec_permits(),
            workers: self.workers@,
            queue: self.task_queue@,
            blocked: self.blocked@,
            running: self.running@,
            shards: self.active_task_info@.map_values(
                |registry: DeferredRegistry| shard_view(registry),
            ),
            tokens: self.tokens@,
            shutdown: self.shutdown_token.signalled(),
            next_id: self.next_task_id,
            notifier: self.completion_notifier@,
            unclaimed: self.unclaimed,
            instances: self.instances as nat,
            stages: self.stages@,
            accepted: self.accepted@,
            taken: self.taken@,
        }
    }
}

impl<W, H> FuturePoolManagerRlxd<W, H> {
    /// The pool is sound, and so are its parts.
    pub closed spec fn wf(self) -> bool {
        &&& self@.wf()
        &&& self.concurrency_gate.wf()
        &&& self.task_queue.wf()
        &&& self.completion_notifier.wf()
    }

    /// The invariant of the view is part of the invariant.
    pub proof fn lemma_view_wf(self)
        requires
            self.wf(),
        ensures
            self@.wf(),
            self@.instances <= usize::MAX,
    {
    }

    /// A new pool, which runs at most `concurrency_limit` tasks at the same time
    /// and lets at most `queue_capacity` tasks wait, in `dispatchers` lanes. Each
    /// of the three is at least 1.
    pub fn new(
        concurrency_limit: usize,
        queue_capacity: usize,
        dispatchers: usize,
        pool_name: &str,
    ) -> (pool: FuturePoolManagerRlxd<W, H>)
        ensures
            pool.wf(),
            pool@.name@ == pool_name@,
            pool@ == RlxdView::<W, H>::start(
                pool@.name,
                if concurrency_limit == 0 {
                    1
                } else {
                    concurrency_limit as nat
                },
                if queue_capacity == 0 {
                    1
                } else {
                    queue_capacity as nat
                },
                if dispatchers == 0 {
                    1
                } else {
                    dispatchers
                },
            ),
    {
        let limit: usize = if concurrency_limit == 0 {
            1
        } else {
            concurrency_limit
        };
        let capacity: usize = if queue_capacity == 0 {
            1
        } else {
            queue_capacity
        };
        let count: usize = if dispatchers == 0 {
            1
        } else {
            dispatchers
        };
        let mut workers: Vec<LaneStage<W>> = Vec::new();
        let mut shards: Vec<DeferredRegistry> = Vec::new();
        let ghost fresh = ShardView {
            entries: Seq::<Option<Arc<TaskCore>>>::empty(),
            free: Seq::<usize>::empty(),
            in_flight: 0,
        };
        let mut i: usize = 0;
        while i < count
            invariant
                i <= count,
                workers.len() == i,
                shards.len() == i,
                forall|l: int| 0 <= l < i ==> (#[trigger] workers[l]) is Idle,
                forall|l: int| 0 <= l < i ==> shard_view(#[trigger] shards[l]) == fresh,
                fresh == (ShardView {
                    entries: Seq::<Option<Arc<TaskCore>>>::empty(),
                    free: Seq::<usize>::empty(),
                    in_flight: 0,
                }),
            decreases count - i,
        {
            workers.push(LaneStage::Idle);
            shards.push(DeferredRegistry::with_capacity(limit));
            i = i + 1;
        }
        let pool: FuturePoolManagerRlxd<W, H> = FuturePoolManagerRlxd {
            pool_name: Arc::new(pool_name.to_owned()),
            concurrency_gate: CapacityGate::new(limit),
            task_queue: LaneQueue::new(count, capacity),
            workers,
            blocked: HashMap::new(),
            running: HashMap::new(),
            active_task_info: shards,
            tokens: TokenTable::new(),
            shutdown_token: CancellationToken::new(),
            next_task_id: 0,
            completion_notifier: CompletionNotifier::new(),
            unclaimed: count,
            instances: 1,
            stages: Ghost(Map::empty()),
            accepted: Ghost(Seq::new(count as nat, |l: int| Seq::<u64>::empty())),
            taken: Ghost(Seq::new(count as nat, |l: int| Seq::<Taken>::empty())),
        };
        proof {
            let start = RlxdView::<W, H>::start(pool@.name, limit as nat, capacity as nat, count);
            assert(pool@.workers =~= start.workers);
            assert(pool@.shards =~= start.shards);
            assert(pool@ =~= start);
            RlxdView::<W, H>::lemma_start_wf(pool@.name, limit as nat, capacity as nat, count);
        }
        pool
    }

    /// Returns the configured name of the pool.
    pub fn name(&self) -> (name: &str)
        ensures
            name@ == self@.name@,
    {
        self.pool_name.as_str()
    }

    /// The number of lanes.
    pub fn lane_count(&self) -> (count: usize)
        ensures
            count == self@.width(),
    {
        self.task_queue.lane_count()
    }

    /// Returns the current number of tasks actively running.
    pub fn active_task_count(&self) -> (count: usize)
        requires
            self.wf(),
        ensures
            count == self@.active_count(),
            count == self@.running.dom().len(),
    {
        let ghost counts = rlxd_view::flight_counts(self@.shards);
        let mut count: usize = 0;
        let mut i: usize = 0;
        assert(counts.take(0) =~= Seq::<nat>::empty());
        while i < self.active_task_info.len()
            invariant
                i <= self.active_task_info.len(),
                counts == rlxd_view::flight_counts(self@.shards),
                counts.len() == self.active_task_info.len(),
                sums::total(counts) <= usize::MAX,
                count == sums::total(counts.take(i as int)),
            decreases self.active_task_info.len() - i,
        {
            proof {
                sums::lemma_total_prefix(counts, i as int);
                sums::lemma_total_prefix(counts, i + 1);
                assert(counts[i as int] == self@.shards[i as int].in_flight);
            }
            count = count + self.active_task_info[i].len();
            i = i + 1;
        }
        assert(counts.take(i as int) =~= counts);
        count
    }

    /// Returns the number of tasks waiting in the queue.
    pub fn queued_task_count(&self) -> (count: usize)
        requires
            self.wf(),
        ensures
            count == self@.queue.waiting(),
    {
        self.task_queue.len()
    }

    /// The number that the next task gets.
    pub fn next_task_id(&self) -> (id: u64)
        ensures
            id == self@.next_id,
    {
        self.next_task_id
    }

    /// Tells whether a shutdown was started.
    pub fn is_shutting_down(&self) -> (shutdown: bool)
        ensures
            shutdown == self@.shutdown,
    {
        self.shutdown_token.is_cancelled()
    }

    /// Tells whether some dispatch loop waits with a task for a permit.
    fn permit_wanted(&self) -> (wanted: bool)
        ensures
            wanted == self@.permit_wanted(),
    {
        let mut i: usize = 0;
        while i < self.workers.len()
            invariant
                i <= self.workers.len(),
                forall|l: int| 0 <= l < i ==> !((#[trigger] self.workers@[l]) is Holding),
            decreases self.workers.len() - i,
        {
            if let LaneStage::Holding(_) = &self.workers[i] {
                assert(self.workers@[i as int] is Holding);
                return true;
            }
            i = i + 1;
        }
        false
    }

    /// Starts a task that shard `shard` is to list.
    fn spawn_task(&mut self, core: Arc<TaskCore>, shard: usize)
        requires
            old(self).concurrency_gate.wf(),
            old(self).concurrency_gate.spec_permits() > 0,
            old(self).task_queue.wf(),
            old(self).completion_notifier.wf(),
            old(self)@.notifier.senders < usize::MAX,
            shard < old(self)@.shards.len(),
            slots::slots_wf(
                old(self)@.shards[shard as int].entries,
                old(self)@.shards[shard as int].free,
            ),
        ensures
            final(self).concurrency_gate.wf(),
            final(self).task_queue.wf(),
            final(self).completion_notifier.wf(),
            final(self)@ == old(self)@.after_start(core, shard as int),
    {
        let id = core.task_id();
        let _ = self.concurrency_gate.try_acquire();
        self.active_task_info[shard].insert(core.clone(), &self.tokens);
        let _ = self.completion_notifier.sender();
        self.stages = Ghost(self.stages@.insert(id, TaskStage::Running));
        self.taken = Ghost(
            self.taken@.update(
                shard as int,
                self.taken@[shard as int].push(Taken { id, started: true }),
            ),
        );
        self.running.insert(id, RunningTask { core, shard, status: None, concluded: false });
        proof {
            let after = old(self)@.after_start(core, shard as int);
            assert(self@.shards =~= after.shards);
            assert(self@ =~= after);
        }
    }

    /// Submits a task whose work is in its final form. See `submit_inner`.
    pub fn submit<X>(&mut self, labels: LabelSet, work: W, receiver: X) -> (submitted: Result<
        RlxdSubmission<W, X>,
        Refusal<W>,
    >)
        requires
            old(self).wf(),
            old(self)@.next_id < u64::MAX,
        ensures
            final(self).wf(),
            submitted is Err <==> old(self)@.refuses(),
            submitted is Err <==> old(self)@.shutdown,
            submitted matches Err(refusal) ==> {
                &&& refusal == (Refusal { error: PoolError::PoolShuttingDown, work })
                &&& final(self)@ == old(self)@
            },
            submitted matches Ok(submission) ==> {
                &&& submission is Started <==> old(self)@.direct_path()
                &&& submission is Waiting <==> !old(self)@.direct_path() && old(
                    self,
                )@.queue.is_full()
                &&& submission matches RlxdSubmission::Started(_, given) ==> given == work
                &&& submission.handle().spec_core().id() == old(self)@.next_id
                &&& submission.handle().spec_core().texts() == labels@
                &&& submission.handle().receiver() == Some(receiver)
                &&& final(self)@ == old(self)@.after_submit(submission.handle().spec_core(), work)
            },
    {
        self.submit_inner(labels, work, as_it_is, receiver)
    }

    /// Submits a task whose work gets its final form only where it has to queue.
    /// See `submit_inner`.
    pub fn submit_future<F, X, B: FnOnce(F) -> W>(
        &mut self,
        labels: LabelSet,
        task_future: F,
        into_boxed: B,
        receiver: X,
    ) -> (submitted: Result<RlxdSubmission<F, X>, Refusal<F>>)
        requires
            old(self).wf(),
            old(self)@.next_id < u64::MAX,
            into_boxed.requires((task_future,)),
        ensures
            final(self).wf(),
            submitted is Err <==> old(self)@.refuses(),
            submitted is Err <==> old(self)@.shutdown,
            submitted matches Err(refusal) ==> {
                &&& refusal == (Refusal { error: PoolError::PoolShuttingDown, work: task_future })
                &&& final(self)@ == old(self)@
            },
            submitted matches Ok(submission) ==> {
                &&& submission is Started <==> old(self)@.direct_path()
                &&& submission is Waiting <==> !old(self)@.direct_path() && old(
                    self,
                )@.queue.is_full()
                &&& submission matches RlxdSubmission::Started(_, given) ==> given == task_future
                &&& submission.handle().spec_core().id() == old(self)@.next_id
                &&& submission.handle().spec_core().texts() == labels@
                &&& submission.handle().receiver() == Some(receiver)
            },
            submitted matches Ok(RlxdSubmission::Started(handle, _)) ==> forall|work: W|
                final(self)@ == #[trigger] old(self)@.after_submit(handle.spec_core(), work),
            submitted matches Ok(submission) ==> (submission is Started || exists|work: W|
                into_boxed.ensures((task_future,), work) && final(self)@
                    == #[trigger] old(self)@.after_submit(submission.handle().spec_core(), work)),
    {
        self.submit_inner(labels, task_future, into_boxed, receiver)
    }

    /// Submits a task. `receiver` is the receiving end of its result channel.
    ///
    /// Refused with `PoolShuttingDown` exactly if a shutdown was started or the
    /// queue is closed. Otherwise the task gets the next number. Where nothing
    /// waits and a permit is free, it is started past the queue with its work as
    /// it is; else `into_boxed` makes the work ready to queue, and the task gets a
    /// place or waits for one.
    fn submit_inner<F, X, B: FnOnce(F) -> W>(
        &mut self,
        labels: LabelSet,
        task_future: F,
        into_boxed: B,
        receiver: X,
    ) -> (submitted: Result<RlxdSubmission<F, X>, Refusal<F>>)
        requires
            old(self).wf(),
            old(self)@.next_id < u64::MAX,
            into_boxed.requires((task_future,)),
        ensures
            final(self).wf(),
            submitted is Err <==> old(self)@.refuses(),
            submitted is Err <==> old(self)@.shutdown,
            submitted matches Err(refusal) ==> {
                &&& refusal == (Refusal { error: PoolError::PoolShuttingDown, work: task_future })
                &&& final(self)@ == old(self)@
            },
            submitted matches Ok(submission) ==> {
                &&& submission is Started <==> old(self)@.direct_path()
                &&& submission is Waiting <==> !old(self)@.direct_path() && old(
                    self,
                )@.queue.is_full()
                &&& submission matches RlxdSubmission::Started(_, given) ==> given == task_future
                &&& submission.handle().spec_core().id() == old(self)@.next_id
                &&& submission.handle().spec_core().texts() == labels@
                &&& submission.handle().receiver() == Some(receiver)
            },
            submitted matches Ok(RlxdSubmission::Started(handle, _)) ==> forall|work: W|
                final(self)@ == #[trigger] old(self)@.after_submit(handle.spec_core(), work),
            submitted matches Ok(submission) ==> (submission is Started || exists|work: W|
                into_boxed.ensures((task_future,), work) && final(self)@
                    == #[trigger] old(self)@.after_submit(submission.handle().spec_core(), work)),
    {
        proof {
            assert(old(self)@.queue.lanes[0].sender_closed == old(self)@.shutdown);
            assert(old(self)@.queue.lanes[0].receiver_closed == (old(self)@.workers[0] is Stopped));
            assert(old(self)@.workers[0] is Stopped ==> old(self)@.shutdown);
            assert(old(self)@.shutdown || !old(self)@.queue.lanes[0].closed());
        }
        if self.shutdown_token.is_cancelled() || self.task_queue.is_closed() {
            return Err(Refusal { error: PoolError::PoolShuttingDown, work: task_future });
        }
        let direct = self.task_queue.len() == 0 && !self.permit_wanted()
            && self.concurrency_gate.get_permits() > 0;
        let task_id = self.next_task_id;
        self.next_task_id = task_id + 1;
        self.tokens.register(task_id);
        let core = Arc::new(TaskCore::new(task_id, labels));
        let handle = TaskHandle::new(core.clone(), receiver);
        let ghost route = self.task_queue@.route();
        if direct {
            let shard = self.task_queue.route();
            self.stages = Ghost(self.stages@.insert(task_id, TaskStage::Running));
            self.accepted = Ghost(
                self.accepted@.update(route, self.accepted@[route].push(task_id)),
            );
            proof {
                assert(self@ =~= old(self)@.after_number(TaskStage::Running).after_accept(task_id));
                old(self)@.lemma_senders_left();
                assert(slots::slots_wf(
                    old(self)@.shards[shard as int].entries,
                    old(self)@.shards[shard as int].free,
                ));
            }
            self.spawn_task(core, shard);
            proof {
                assert forall|work: W|
                    self@ == #[trigger] old(self)@.after_submit(handle.spec_core(), work) by {}
                old(self)@.lemma_submit_wf(core, arbitrary());
            }
            return Ok(RlxdSubmission::Started(handle, task_future));
        }
        let work = into_boxed(task_future);
        let task = ManagedTaskInternal { core, work };
        proof {
            old(self)@.lemma_submit_wf(core, work);
            assert(old(self)@.queue.lanes[route].sender_closed == old(self)@.shutdown);
            assert(old(self)@.workers[route] is Stopped ==> old(self)@.shutdown);
        }
        let shutdown = self.shutdown_token.is_cancelled();
        match self.task_queue.send(task, shutdown) {
            SendOutcome::Sent => {
                self.stages = Ghost(self.stages@.insert(task_id, TaskStage::Queued(route)));
                self.accepted = Ghost(
                    self.accepted@.update(route, self.accepted@[route].push(task_id)),
                );
                assert(self@ =~= old(self)@.after_submit(handle.spec_core(), work));
                Ok(RlxdSubmission::Queued(handle))
            },
            SendOutcome::Full(task) => {
                self.stages = Ghost(self.stages@.insert(task_id, TaskStage::Blocked));
                self.blocked.insert(task_id, task);
                assert(self@ =~= old(self)@.after_submit(handle.spec_core(), work));
                Ok(RlxdSubmission::Waiting(handle))
            },
            SendOutcome::Refused(_, _) => {
                // The lanes are open, so the queue refuses nobody.
                assert(false);
                Ok(RlxdSubmission::Queued(handle))
            },
        }
    }

    /// Lets waiting submission `id` try again.
    pub fn resume_submit(&mut self, id: u64) -> (step: ResumeStep<W>)
        requires
            old(self).wf(),
        ensures
            final(self).wf(),
            final(self)@ == old(self)@.after_resume(id),
            !old(self)@.blocked.contains_key(id) ==> step is Unknown,
            old(self)@.blocked.contains_key(id) ==> step == (match old(self)@.resume_outcome(id) {
                SendOutcome::Sent => ResumeStep::Queued,
                SendOutcome::Full(_) => ResumeStep::Waiting,
                SendOutcome::Refused(error, task) => ResumeStep::Refused(error, task),
            }),
    {
        proof {
            old(self)@.lemma_resume_wf(id);
        }
        match self.blocked.remove(&id) {
            None => ResumeStep::Unknown,
            Some(task) => {
                let ghost route = self.task_queue@.route();
                let shutdown = self.shutdown_token.is_cancelled();
                match self.task_queue.resume_send(task, shutdown) {
                    SendOutcome::Sent => {
                        self.stages = Ghost(self.stages@.insert(id, TaskStage::Queued(route)));
                        self.accepted = Ghost(
                            self.accepted@.update(route, self.accepted@[route].push(id)),
                        );
                        assert(self@ =~= old(self)@.after_resume(id));
                        ResumeStep::Queued
                    },
                    SendOutcome::Full(task) => {
                        self.blocked.insert(id, task);
                        assert(self@ =~= old(self)@.after_resume(id));
                        ResumeStep::Waiting
                    },
                    SendOutcome::Refused(error, task) => {
                        self.tokens.mark_finished(id);
                        self.stages = Ghost(self.stages@.insert(id, TaskStage::Ended));
                        assert(self@ =~= old(self)@.after_resume(id));
                        ResumeStep::Refused(error, task)
                    },
                }
            },
        }
    }

    /// Gives waiting submission `id` up, as when the submitter stops waiting.
    /// Returns its task, if it was still waiting.
    pub fn withdraw_submit(&mut self, id: u64) -> (task: Option<ManagedTaskInternal<W>>)
        requires
            old(self).wf(),
        ensures
            final(self).wf(),
            final(self)@ == old(self)@.after_withdraw(id),
            task == (if old(self)@.blocked.contains_key(id) {
                Some(old(self)@.blocked[id])
            } else {
                None
            }),
    {
        proof {
            old(self)@.lemma_withdraw_wf(id);
        }
        match self.blocked.remove(&id) {
            None => None,
            Some(task) => {
                self.tokens.mark_finished(id);
                self.stages = Ghost(self.stages@.insert(id, TaskStage::Ended));
                assert(self@ =~= old(self)@.after_withdraw(id));
                Some(task)
            },
        }
    }

    /// Ends the dispatch loop of lane `lane`: the task it holds and those in its
    /// lane are given up.
    fn stop_lane(&mut self, lane: usize) -> (dropped: Vec<ManagedTaskInternal<W>>)
        requires
            old(self).wf(),
            lane < old(self)@.width(),
            old(self)@.poll_kind(lane as int) == PollKind::Stop,
        ensures
            final(self).wf(),
            final(self)@ == old(self)@.after_poll(lane as int),
            dropped@ == old(self)@.lane_leftovers(lane as int),
    {
        proof {
            old(self)@.lemma_poll_wf(lane as int);
        }
        let ghost rest = old(self)@.lane_leftovers(lane as int);
        let mut dropped: Vec<ManagedTaskInternal<W>> = Vec::new();
        let mut stage: LaneStage<W> = LaneStage::Stopped;
        std::mem::swap(&mut stage, &mut self.workers[lane]);
        if let LaneStage::Holding(task) = stage {
            dropped.push(task);
        }
        let mut left = self.task_queue.abandon(lane);
        dropped.append(&mut left);
        assert(dropped@ =~= rest);
        let mut ids: Vec<u64> = Vec::new();
        let mut i: usize = 0;
        while i < dropped.len()
            invariant
                i <= dropped.len(),
                ids@ == pool_view::task_ids(dropped@.take(i as int)),
            decreases dropped.len() - i,
        {
            ids.push(dropped[i].core.task_id());
            assert(pool_view::task_ids(dropped@.take(i + 1)) =~= pool_view::task_ids(
                dropped@.take(i as int),
            ).push(dropped@[i as int].core.id()));
            i = i + 1;
        }
        assert(dropped@.take(i as int) =~= dropped@);
        self.tokens.finish_all(&ids);
        self.stages = Ghost(
            self.stages@.map_entries(
                |id: u64, stage: TaskStage|
                    if ids@.to_set().contains(id) {
                        TaskStage::Ended
                    } else {
                        stage
                    },
            ),
        );
        proof {
            let after = old(self)@.after_poll(lane as int);
            assert(self@.workers =~= after.workers);
            assert(self@.stages =~= after.stages);
            assert(self@ =~= after);
        }
        dropped
    }

    /// Takes the next step of the dispatch loop of lane `lane`.
    ///
    /// The loop first takes a task out of its lane and then needs a concurrency
    /// permit for it, so that an idle loop holds no permit. A shutdown ends it at
    /// either point. A task that was cancelled while it waited in the lane is
    /// reported and not started.
    pub fn poll_lane(&mut self, lane: usize) -> (action: WorkerAction<W>)
        requires
            old(self).wf(),
            lane < old(self)@.width(),
        ensures
            final(self).wf(),
            final(self)@ == old(self)@.after_poll(lane as int),
            match old(self)@.poll_kind(lane as int) {
                PollKind::Wait => action is Wait,
                PollKind::Stop => action matches WorkerAction::Stop(dropped) && dropped@ == old(
                    self,
                )@.lane_leftovers(lane as int),
                PollKind::Cancelled => action == WorkerAction::Cancelled(
                    old(self)@.next_task(lane as int)->0,
                ),
                PollKind::Start => action == WorkerAction::Start(
                    old(self)@.next_task(lane as int)->0,
                ),
            },
    {
        proof {
            old(self)@.lemma_poll_wf(lane as int);
            assert(old(self)@.queue.lanes[lane as int].sender_closed == old(self)@.shutdown);
            assert(old(self)@.queue.lanes[lane as int].receiver_closed == (
            old(self)@.workers[lane as int] is Stopped));
        }
        if self.shutdown_token.is_cancelled() {
            return WorkerAction::Stop(self.stop_lane(lane));
        }
        let mut stage: LaneStage<W> = LaneStage::Idle;
        std::mem::swap(&mut stage, &mut self.workers[lane]);
        let ghost fetched = old(self)@.after_fetch(lane as int);
        let task = match stage {
            LaneStage::Holding(task) => {
                assert(self@ =~= fetched);
                task
            },
            LaneStage::Stopped => {
                return WorkerAction::Stop(self.stop_lane(lane));
            },
            LaneStage::Idle => {
                assert(self@.workers =~= old(self)@.workers);
                match self.task_queue.recv(lane) {
                    Received::Item(task) => {
                        let id = task.core.task_id();
                        assert(self@ =~= fetched);
                        if self.tokens.is_cancelled(id) {
                            self.tokens.mark_finished(id);
                            let message = InternalCompletionMessage {
                                core: task.core.clone(),
                                pool_name: self.pool_name.clone(),
                                status: TaskCompletionStatus::Cancelled,
                            };
                            let _ = self.completion_notifier.notify(message);
                            self.stages = Ghost(self.stages@.insert(id, TaskStage::Ended));
                            self.taken = Ghost(
                                self.taken@.update(
                                    lane as int,
                                    self.taken@[lane as int].push(Taken { id, started: false }),
                                ),
                            );
                            assert(self@ =~= old(self)@.after_poll(lane as int));
                            return WorkerAction::Cancelled(task);
                        }
                        task
                    },
                    Received::Empty => {
                        assert(self@ =~= old(self)@);
                        return WorkerAction::Wait;
                    },
                    Received::Disconnected => {
                        return WorkerAction::Stop(self.stop_lane(lane));
                    },
                }
            },
        };
        assert(self@ == fetched);
        if self.concurrency_gate.get_permits() == 0 {
            let ghost id = task.core.id();
            self.stages = Ghost(
                if old(self)@.workers[lane as int] is Idle {
                    self.stages@.insert(id, TaskStage::Held(lane as int))
                } else {
                    self.stages@
                },
            );
            let mut held: LaneStage<W> = LaneStage::Holding(task);
            std::mem::swap(&mut held, &mut self.workers[lane]);
            proof {
                assert(self@.workers =~= old(self)@.after_poll(lane as int).workers);
                assert(self@ =~= old(self)@.after_poll(lane as int));
            }
            return WorkerAction::Wait;
        }
        proof {
            old(self)@.lemma_senders_left();
            assert(slots::slots_wf(
                old(self)@.shards[lane as int].entries,
                old(self)@.shards[lane as int].free,
            ));
        }
        self.spawn_task(task.core.clone(), lane);
        WorkerAction::Start(task)
    }

    /// Records that running task `id` ended with `outcome`, which is handed over
    /// next. Tells whether the task was running without an outcome.
    pub fn record_outcome<R>(&mut self, id: u64, outcome: &Result<R, PoolError>) -> (recorded: bool)
        requires
            old(self).wf(),
        ensures
            final(self).wf(),
            final(self)@ == old(self)@.after_record(id, notifier::status_of(*outcome)),
            recorded == old(self)@.can_record(id),
    {
        let status = TaskCompletionStatus::from(outcome);
        proof {
            old(self)@.lemma_record_wf(id, status);
        }
        let found: Option<(Arc<TaskCore>, usize)> = match self.running.get(&id) {
            Some(entry) => match entry.status {
                Some(_) => None,
                None => Some((entry.core.clone(), entry.shard)),
            },
            None => None,
        };
        match found {
            None => false,
            Some((core, shard)) => {
                self.running.insert(
                    id,
                    RunningTask { core, shard, status: Some(status), concluded: false },
                );
                assert(self@ =~= old(self)@.after_record(id, status));
                true
            },
        }
    }

    /// Reports task `id`, whose outcome was recorded and handed over: its
    /// completion is queued if a handler was ever registered in time. The task
    /// still counts as active. Tells whether the task was to be reported.
    pub fn conclude_task(&mut self, id: u64) -> (ended: bool)
        requires
            old(self).wf(),
        ensures
            final(self).wf(),
            final(self)@ == old(self)@.after_conclude(id),
            ended == old(self)@.can_conclude(id),
    {
        proof {
            old(self)@.lemma_conclude_wf(id);
        }
        let found: Option<(Arc<TaskCore>, usize, TaskCompletionStatus)> = match self.running.get(
            &id,
        ) {
            Some(entry) => match (entry.status, entry.concluded) {
                (Some(status), false) => Some((entry.core.clone(), entry.shard, status)),
                _ => None,
            },
            None => None,
        };
        match found {
            None => false,
            Some((core, shard, status)) => {
                self.running.insert(
                    id,
                    RunningTask {
                        core: core.clone(),
                        shard,
                        status: Some(status),
                        concluded: true,
                    },
                );
                if self.completion_notifier.has_queue() {
                    let message = InternalCompletionMessage {
                        core,
                        pool_name: self.pool_name.clone(),
                        status,
                    };
                    self.completion_notifier.post(message);
                }
                assert(self@ =~= old(self)@.after_conclude(id));
                true
            },
        }
    }

    /// Ends task `id`, which was reported: it is marked finished, its shard counts
    /// it out, and its permit is free again. Tells whether it was to end.
    pub fn retire_task(&mut self, id: u64) -> (retired: bool)
        requires
            old(self).wf(),
        ensures
            final(self).wf(),
            final(self)@ == old(self)@.after_retire(id),
            retired == old(self)@.can_retire(id),
    {
        proof {
            old(self)@.lemma_retire_wf(id);
        }
        let found: Option<usize> = match self.running.get(&id) {
            Some(entry) => if entry.concluded {
                Some(entry.shard)
            } else {
                None
            },
            None => None,
        };
        match found {
            None => false,
            Some(shard) => {
                self.running.remove(&id);
                self.tokens.mark_finished(id);
                self.active_task_info[shard].finish();
                self.concurrency_gate.release();
                self.stages = Ghost(self.stages@.insert(id, TaskStage::Ended));
                proof {
                    let after = old(self)@.after_retire(id);
                    assert(self@.shards =~= after.shards);
                    assert(self@ =~= after);
                }
                true
            },
        }
    }

    /// Checks if cancellation was requested for the task of `handle`.
    pub fn is_cancellation_requested<X>(&self, handle: &TaskHandle<X>) -> (requested: bool)
        ensures
            requested == token::token_cancelled(self@.tokens, handle.spec_core().id()),
    {
        handle.is_cancellation_requested(&self.tokens)
    }

    /// Checks if cancellation was requested for task `id`.
    pub fn is_cancelled(&self, id: u64) -> (cancelled: bool)
        ensures
            cancelled == token::token_cancelled(self@.tokens, id),
    {
        self.tokens.is_cancelled(id)
    }

    /// Requests cancellation of the task of `handle`.
    pub fn cancel<X>(&mut self, handle: &TaskHandle<X>)
        requires
            old(self).wf(),
        ensures
            final(self).wf(),
            final(self)@ == old(self)@.after_cancel(
                Set::<u64>::empty().insert(handle.spec_core().id()),
            ),
    {
        proof {
            old(self)@.lemma_tokens_wf(Set::<u64>::empty().insert(handle.spec_core().id()), 0);
        }
        handle.cancel(&mut self.tokens);
    }

    /// Notes that the handle of task `id` is gone. The task goes on.
    pub fn drop_handle(&mut self, id: u64)
        requires
            old(self).wf(),
        ensures
            final(self).wf(),
            final(self)@ == old(self)@.after_handle_drop(id),
            behaviour::only_detached(old(self)@.tokens, final(self)@.tokens, id),
    {
        proof {
            old(self)@.lemma_tokens_wf(Set::empty(), id);
        }
        self.tokens.drop_handle(id);
    }

    /// Requests cancellation for all active tasks that have the specified label.
    /// Returns their numbers.
    pub fn cancel_tasks_by_label(&mut self, label_to_cancel: &TaskLabel) -> (signalled: Vec<u64>)
        requires
            old(self).wf(),
        ensures
            final(self).wf(),
            final(self)@ == old(self)@.after_cancel(
                rlxd_view::running_labelled(
                    old(self)@.running,
                    Set::<Seq<char>>::empty().insert(label_to_cancel@),
                ),
            ),
            signalled@.no_duplicates(),
            signalled@.to_set() == rlxd_view::running_labelled(
                old(self)@.running,
                Set::<Seq<char>>::empty().insert(label_to_cancel@),
            ),
    {
        self.cancel_tasks_by_labels_internal(&LabelSet::single(label_to_cancel.clone()))
    }

    /// Requests cancellation for all active tasks that have one or more of the
    /// specified labels. Returns their numbers.
    pub fn cancel_tasks_by_labels(&mut self, labels_to_cancel: &LabelSet) -> (signalled: Vec<u64>)
        requires
            old(self).wf(),
        ensures
            final(self).wf(),
            final(self)@ == old(self)@.after_cancel(
                rlxd_view::running_labelled(old(self)@.running, labels_to_cancel@),
            ),
            signalled@.no_duplicates(),
            signalled@.to_set() == rlxd_view::running_labelled(
                old(self)@.running,
                labels_to_cancel@,
            ),
    {
        self.cancel_tasks_by_labels_internal(labels_to_cancel)
    }

    fn cancel_tasks_by_labels_internal(&mut self, labels_to_cancel: &LabelSet) -> (matched: Vec<u64>)
        requires
            old(self).wf(),
        ensures
            final(self).wf(),
            final(self)@ == old(self)@.after_cancel(
                rlxd_view::running_labelled(old(self)@.running, labels_to_cancel@),
            ),
            matched@.no_duplicates(),
            matched@.to_set() == rlxd_view::running_labelled(
                old(self)@.running,
                labels_to_cancel@,
            ),
    {
        let ghost wanted = rlxd_view::running_labelled(self@.running, labels_to_cancel@);
        let mut matched: Vec<u64> = Vec::new();
        if labels_to_cancel.is_empty() {
            proof {
                assert(matched@.to_set() =~= wanted);
                assert(self@.tokens =~= self@.after_cancel(wanted).tokens);
                assert(self@ =~= self@.after_cancel(wanted));
            }
            return matched;
        }
        let mut i: usize = 0;
        while i < self.active_task_info.len()
            invariant
                i <= self.active_task_info.len(),
                self.wf(),
                self.active_task_info.len() == self@.width(),
                wanted == rlxd_view::running_labelled(self@.running, labels_to_cancel@),
                matched@.no_duplicates(),
                forall|id: u64|
                    #[trigger] matched@.contains(id) <==> wanted.contains(id)
                        && self@.running[id].shard < i,
            decreases self.active_task_info.len() - i,
        {
            let cores = self.active_task_info[i].tokens_matching(labels_to_cancel, &self.tokens);
            let ghost before = matched@;
            push_ids(&mut matched, &cores);
            proof {
                let keep = |core: Arc<TaskCore>|
                    active::unfinished(core, self.tokens@) && active::carries(
                        core,
                        labels_to_cancel@,
                    );
                assert(self@.shards[i as int].entries == self.active_task_info[i as int].entries());
                self@.lemma_shard_ids(i as int, keep);
                assert forall|id: u64|
                    #[trigger] matched@.contains(id) <==> wanted.contains(id)
                        && self@.running[id].shard < i + 1 by {
                    lemma_contains_sum(before, active::core_ids(cores@), id);
                }
                lemma_distinct_sum(before, active::core_ids(cores@));
            }
            i = i + 1;
        }
        proof {
            assert forall|id: u64| wanted.contains(id) implies matched@.to_set().contains(id) by {
                assert(self@.running.contains_key(id));
                assert(matched@.contains(id));
            }
            assert(matched@.to_set() =~= wanted);
            old(self)@.lemma_tokens_wf(wanted, 0);
        }
        self.tokens.cancel_all(&matched);
        matched
    }

    /// The numbers of all running tasks.
    fn all_running(&self) -> (ids: Vec<u64>)
        requires
            self.wf(),
        ensures
            ids@.no_duplicates(),
            ids@.to_set() == self@.running.dom(),
    {
        let mut ids: Vec<u64> = Vec::new();
        let mut i: usize = 0;
        while i < self.active_task_info.len()
            invariant
                i <= self.active_task_info.len(),
                self.wf(),
                self.active_task_info.len() == self@.width(),
                ids@.no_duplicates(),
                forall|id: u64|
                    #[trigger] ids@.contains(id) <==> self@.running.contains_key(id)
                        && self@.running[id].shard < i,
            decreases self.active_task_info.len() - i,
        {
            let cores = self.active_task_info[i].all_tokens(&self.tokens);
            let ghost before = ids@;
            push_ids(&mut ids, &cores);
            proof {
                let keep = |core: Arc<TaskCore>| active::unfinished(core, self.tokens@);
                assert(self@.shards[i as int].entries == self.active_task_info[i as int].entries());
                self@.lemma_shard_ids(i as int, keep);
                assert forall|id: u64|
                    #[trigger] ids@.contains(id) <==> self@.running.contains_key(id)
                        && self@.running[id].shard < i + 1 by {
                    lemma_contains_sum(before, active::core_ids(cores@), id);
                }
                lemma_distinct_sum(before, active::core_ids(cores@));
            }
            i = i + 1;
        }
        proof {
            assert forall|id: u64| self@.running.dom().contains(id) implies ids@.to_set().contains(
                id,
            ) by {
                assert(self@.running.contains_key(id));
                assert(ids@.contains(id));
            }
            assert(ids@.to_set() =~= self@.running.dom());
        }
        ids
    }

    /// The number of running tasks that were not reported yet.
    fn count_unreported(&self) -> (count: usize)
        requires
            self.wf(),
        ensures
            count == rlxd_view::unreported(self@.running).len(),
    {
        let ghost open = rlxd_view::unreported(self.running@);
        let ids = keys::keys_of(&self.running);
        let mut count: usize = 0;
        let mut i: usize = 0;
        assert(ids@.take(0).to_set().intersect(open) =~= Set::<u64>::empty());
        while i < ids.len()
            invariant
                i <= ids.len(),
                count <= i,
                ids@.no_duplicates(),
                ids@.to_set() == self.running@.dom(),
                open == rlxd_view::unreported(self.running@),
                ids@.take(i as int).to_set().intersect(open).finite(),
                count == ids@.take(i as int).to_set().intersect(open).len(),
            decreases ids.len() - i,
        {
            let id = ids[i];
            let ghost seen = ids@.take(i as int).to_set().intersect(open);
            let ghost next = ids@.take(i + 1).to_set().intersect(open);
            proof {
                assert(ids@.to_set().contains(id));
                assert(ids@.take(i + 1) =~= ids@.take(i as int).push(id));
                if seen.contains(id) {
                    let head = ids@.take(i as int);
                    let k = choose|k: int| 0 <= k < head.len() && head[k] == id;
                    assert(ids@[k] == id);
                }
                assert forall|other: u64| ids@.take(i + 1).to_set().contains(other) <==> ids@.take(
                    i as int,
                ).to_set().contains(other) || other == id by {
                    let head = ids@.take(i as int);
                    let longer = ids@.take(i + 1);
                    if head.contains(other) {
                        let k = choose|k: int| 0 <= k < head.len() && head[k] == other;
                        assert(longer[k] == other);
                    }
                    assert(longer[i as int] == id);
                    if longer.contains(other) && other != id {
                        let k = choose|k: int| 0 <= k < longer.len() && longer[k] == other;
                        assert(head[k] == other);
                    }
                }
                if open.contains(id) {
                    assert(next =~= seen.insert(id));
                } else {
                    assert(next =~= seen);
                }
            }
            if let Some(entry) = self.running.get(&id) {
                if !entry.concluded {
                    count = count + 1;
                }
            }
            i = i + 1;
        }
        proof {
            assert(ids@.take(i as int) =~= ids@);
            assert(ids@.to_set().intersect(open) =~= open);
        }
        count
    }

    /// Registers a completion handler. It is told of every task that completes
    /// from now on. Tells whether the notification worker has to be started, as
    /// the first handler asks for.
    pub fn add_completion_handler(&mut self, handler: H) -> (started: bool)
        requires
            old(self).wf(),
        ensures
            final(self).wf(),
            final(self)@ == old(self)@.after_handler(handler),
            started == (old(self)@.notifier.sink == CompletionSink::Unset),
    {
        proof {
            old(self)@.lemma_handler_wf(handler);
        }
        let running = self.count_unreported();
        let started = self.completion_notifier.add_handler(handler, running);
        assert(self@ =~= old(self)@.after_handler(handler));
        started
    }

    /// The notifier, to look at its handlers and its queue.
    pub fn notifier(&self) -> (notifier: &CompletionNotifier<H>)
        requires
            self.wf(),
        ensures
            notifier@ == self@.notifier,
            notifier.wf(),
    {
        &self.completion_notifier
    }

    /// Takes the next action of the notification worker.
    pub fn next_notification(&mut self) -> (action: NotifierAction)
        requires
            old(self).wf(),
        ensures
            final(self).wf(),
            final(self)@ == (RlxdView {
                notifier: old(self)@.notifier.after_action(),
                ..old(self)@
            }),
            action == old(self)@.notifier.action(),
    {
        proof {
            old(self)@.lemma_notifier_wf();
        }
        self.completion_notifier.next_action()
    }

    /// Lets the notification worker take note of the shutdown. Tells whether it
    /// was news.
    pub fn note_shutdown(&mut self) -> (news: bool)
        requires
            old(self).wf(),
        ensures
            final(self).wf(),
            final(self)@ == (RlxdView {
                notifier: NotifierView { shutdown_noted: true, ..old(self)@.notifier },
                ..old(self)@
            }),
            news == !old(self)@.notifier.shutdown_noted,
    {
        proof {
            old(self)@.lemma_notifier_wf();
        }
        self.completion_notifier.note_shutdown()
    }

    /// Starts a shutdown, or joins one that was started before.
    ///
    /// The first call closes the queue; in the forceful mode it also cancels all
    /// running tasks, whose numbers it returns. Every call then waits as its
    /// `ShutdownRun` says.
    pub fn shutdown(&mut self, mode: ShutdownMode) -> (begun: (ShutdownRun, Vec<u64>))
        requires
            old(self).wf(),
        ensures
            final(self).wf(),
            final(self)@ == old(self)@.after_shutdown(mode),
            begun.0 == old(self)@.shutdown_run(),
            old(self)@.running.dom().len() > 0 ==> begun.0.stage
                == shutdown::ShutdownStage::AwaitActive,
            begun.1@.no_duplicates(),
            begun.1@.to_set() == old(self)@.shutdown_victims(mode),
    {
        proof {
            old(self)@.lemma_shutdown_wf(mode, true, shutdown::ShutdownStage::Done);
        }
        let initiator = !self.shutdown_token.is_cancelled();
        let active = self.active_task_count();
        let mut victims: Vec<u64> = Vec::new();
        assert(victims@.to_set() =~= Set::<u64>::empty());
        if initiator && mode == ShutdownMode::ForcefulCancel {
            victims = self.all_running();
        }
        if initiator {
            self.shutdown_token.cancel();
            self.task_queue.close();
        }
        self.tokens.cancel_all(&victims);
        let run = ShutdownRun::begin(
            initiator,
            active,
            &mut self.unclaimed,
            &mut self.completion_notifier,
        );
        proof {
            if !initiator {
                assert(old(self)@.queue.after_close().lanes =~= old(self)@.queue.lanes) by {
                    assert forall|l: int| 0 <= l < old(self)@.width() implies old(
                        self,
                    )@.queue.after_close().lanes[l] == #[trigger] old(self)@.queue.lanes[l] by {}
                }
            }
            assert(self@ =~= old(self)@.after_shutdown(mode));
        }
        (run, victims)
    }

    /// Moves `run`, which a call of `shutdown` began, on after `event`.
    pub fn shutdown_step(&mut self, run: &mut ShutdownRun, event: ShutdownEvent)
        requires
            old(self).wf(),
            old(self)@.shutdown,
        ensures
            final(self).wf(),
            final(self)@ == old(self)@.after_shutdown_event(*old(run), event),
            *final(run) == (ShutdownRun {
                initiator: old(run).initiator,
                stage: shutdown::stage_settled(
                    shutdown::stage_after_event(old(run).stage, event),
                    old(self)@.unclaimed,
                    old(self)@.notifier.joinable,
                ),
            }),
    {
        proof {
            old(self)@.lemma_shutdown_wf(
                ShutdownMode::Graceful,
                run.initiator,
                shutdown::stage_after_event(run.stage, event),
            );
        }
        run.step(event, &mut self.unclaimed, &mut self.completion_notifier);
        assert(self@ =~= old(self)@.after_shutdown_event(*old(run), event));
    }

    /// Counts one more instance that shares the pool.
    pub fn add_instance(&mut self)
        requires
            old(self).wf(),
            old(self)@.instances < usize::MAX,
        ensures
            final(self).wf(),
            final(self)@ == (RlxdView { instances: old(self)@.instances + 1, ..old(self)@ }),
    {
        proof {
            old(self)@.lemma_instance_wf();
        }
        self.instances = self.instances + 1;
        assert(self@ =~= (RlxdView { instances: old(self)@.instances + 1, ..old(self)@ }));
    }

    /// Counts an instance out. The last one starts a shutdown that nobody waits
    /// for, unless one was started before, and closes the completion sink in any
    /// case. Tells whether it started a shutdown.
    pub fn drop_instance(&mut self) -> (signalled: bool)
        requires
            old(self).wf(),
            old(self)@.instances > 0,
        ensures
            final(self).wf(),
            final(self)@ == old(self)@.after_instance_drop(),
            signalled == (old(self)@.instances == 1 && !old(self)@.shutdown),
    {
        proof {
            old(self)@.lemma_shutdown_wf(
                ShutdownMode::Graceful,
                true,
                shutdown::ShutdownStage::Done,
            );
        }
        let last = self.instances == 1;
        self.instances = self.instances - 1;
        let signalled = last && !self.shutdown_token.is_cancelled();
        if last {
            self.shutdown_token.cancel();
            self.task_queue.close();
            self.completion_notifier.close();
        }
        assert(self@ =~= old(self)@.after_instance_drop());
        signalled
    }
}

proof fn lemma_contains_sum(left: Seq<u64>, right: Seq<u64>, id: u64)
    ensures
        (left + right).contains(id) <==> left.contains(id) || right.contains(id),
{
    let sum = left + right;
    if left.contains(id) {
        let k = choose|k: int| 0 <= k < left.len() && left[k] == id;
        assert(sum[k] == id);
    }
    if right.contains(id) {
        let k = choose|k: int| 0 <= k < right.len() && right[k] == id;
        assert(sum[left.len() + k] == id);
    }
    if sum.contains(id) {
        let k = choose|k: int| 0 <= k < sum.len() && sum[k] == id;
        assert(k < left.len() ==> left[k] == id);
        assert(k >= left.len() ==> right[k - left.len()] == id);
    }
}

proof fn lemma_distinct_sum(left: Seq<u64>, right: Seq<u64>)
    requires
        left.no_duplicates(),
        right.no_duplicates(),
        forall|id: u64| #[trigger] left.contains(id) ==> !right.contains(id),
    ensures
        (left + right).no_duplicates(),
{
    let sum = left + right;
    assert forall|i: int, j: int| 0 <= i < sum.len() && 0 <= j < sum.len() && i != j implies sum[i]
        != sum[j] by {
        if i < left.len() {
            assert(left.contains(sum[i]));
        } else {
            assert(right.contains(sum[i]));
        }
        if j < left.len() {
            assert(left.contains(sum[j]));
        } else {
            assert(right.contains(sum[j]));
        }
    }
}

} // verus!
