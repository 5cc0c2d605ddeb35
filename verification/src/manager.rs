//! A pool with one dispatch loop, which starts tasks in the order in which they
//! were queued.

use std::collections::HashMap;
use std::sync::Arc;
use vstd::prelude::*;

use crate::behaviour;
use crate::capacity_gate::CapacityGate;
use crate::channel::Received;
use crate::error::PoolError;
use crate::handle::TaskHandle;
use crate::keys;
use crate::notifier;
use crate::notifier::{
    CompletionNotifier, CompletionSink, InternalCompletionMessage, NotifierAction, NotifierView,
    TaskCompletionStatus,
};
use crate::pool_view;
use crate::pool_view::{ActiveTask, PollKind, PoolView, Taken, WorkerStage};
use crate::shutdown::{ShutdownEvent, ShutdownMode, ShutdownRun};
use crate::task::{LabelSet, TaskCore, TaskLabel};
use crate::task_queue::{ManagedTaskInternal, SendOutcome, TaskQueue};
use crate::token;
use crate::token::{CancellationToken, TokenTable};

verus! {

broadcast use vstd::std_specs::hash::group_hash_axioms;

/// A submission that was not refused.
#[derive(Debug)]
pub enum Submission<X> {
    /// The task waits in the queue.
    Queued(TaskHandle<X>),
    /// The queue is full. The handle is to be kept back until the submission
    /// gets a place.
    Waiting(TaskHandle<X>),
}

impl<X> Submission<X> {
    /// The handle of the task.
    pub open spec fn handle(self) -> TaskHandle<X> {
        match self {
            Submission::Queued(handle) => handle,
            Submission::Waiting(handle) => handle,
        }
    }
}

/// A submission that was refused, with the work it was about.
#[derive(Debug)]
pub struct Refusal<W> {
    /// Why it was refused.
    pub error: PoolError,
    /// What was not accepted.
    pub work: W,
}

/// What became of a waiting submission.
#[derive(Debug)]
pub enum ResumeStep<W> {
    /// The task waits in the queue.
    Queued,
    /// The queue is still full.
    Waiting,
    /// The task is refused.
    Refused(PoolError, ManagedTaskInternal<W>),
    /// No such submission waits.
    Unknown,
}

/// What the dispatch loop has to do.
#[derive(Debug)]
pub enum WorkerAction<W> {
    /// Wait until something changes.
    Wait,
    /// End, and drop these tasks without a result.
    Stop(Vec<ManagedTaskInternal<W>>),
    /// Tell the handle that the task was cancelled.
    Cancelled(ManagedTaskInternal<W>),
    /// Run the task.
    Start(ManagedTaskInternal<W>),
}

/// A pool that runs tasks with bounded concurrency, starting them in the order
/// in which they were queued.
///
/// `W` is the work of a task and `H` a completion handler; the pool looks into
/// neither.
pub struct FuturePoolManager<W, H> {
    pool_name: Arc<String>,
    concurrency_gate: CapacityGate,
    task_queue: TaskQueue<W>,
    blocked: HashMap<u64, ManagedTaskInternal<W>>,
    active_task_info: HashMap<u64, ActiveTask>,
    tokens: TokenTable,
    shutdown_token: CancellationToken,
    worker: WorkerStage,
    next_task_id: u64,
    completion_notifier: CompletionNotifier<H>,
    unclaimed: usize,
    instances: usize,
    accepted: Ghost<Seq<u64>>,
    taken: Ghost<Seq<Taken>>,
}

impl<W, H> View for FuturePoolManager<W, H> {
    type V = PoolView<W, H>;

    closed spec fn view(&self) -> PoolView<W, H> {
        PoolView {
            name: self.pool_name,
            limit: self.concurrency_gate.spec_capacity(),
            permits: self.concurrency_gate.spec_permits(),
            worker: self.worker,
            queue: self.task_queue@,
            blocked: self.blocked@,
            active: self.active_task_info@,
            tokens: self.tokens@,
            shutdown: self.shutdown_token.signalled(),
            next_id: self.next_task_id,
            notifier: self.completion_notifier@,
            unclaimed: self.unclaimed,
            instances: self.instances as nat,
            accepted: self.accepted@,
            taken: self.taken@,
        }
    }
}

impl<W, H> FuturePoolManager<W, H> {
    /// The pool is sound, and so are its parts.
    pub closed spec fn wf(self) -> bool {
        &&& self@.wf()
        &&& self.concurrency_gate.wf()
        &&& self.task_queue.wf()
        &&& self.completion_notifier.wf()
    }

    /// The invariant of the view is part of the invariant.
    pub proof fn lemma_view_wf(self)
        requires
            self.wf(),
        ensures
            self@.wf(),
            self@.instances <= usize::MAX,
    {
    }

    /// A new pool, which runs at most `concurrency_limit` tasks at the same time,
    /// but one in any case, and lets at most `queue_capacity` tasks wait.
    pub fn new(concurrency_limit: usize, queue_capacity: usize, pool_name: &str) -> (pool:
        FuturePoolManager<W, H>)
        ensures
            pool.wf(),
            pool@.name@ == pool_name@,
            pool@ == PoolView::<W, H>::start(
                pool@.name,
                if concurrency_limit == 0 {
                    1
                } else {
                    concurrency_limit as nat
                },
                queue_capacity as nat,
            ),
    {
        let limit: usize = if concurrency_limit == 0 {
            1
        } else {
            concurrency_limit
        };
        let pool: FuturePoolManager<W, H> = FuturePoolManager {
            pool_name: Arc::new(pool_name.to_owned()),
            concurrency_gate: CapacityGate::new(limit),
            task_queue: TaskQueue::new(queue_capacity),
            blocked: HashMap::new(),
            active_task_info: HashMap::new(),
            tokens: TokenTable::new(),
            shutdown_token: CancellationToken::new(),
            worker: WorkerStage::Idle,
            next_task_id: 0,
            completion_notifier: CompletionNotifier::new(),
            unclaimed: 1,
            instances: 1,
            accepted: Ghost(Seq::empty()),
            taken: Ghost(Seq::empty()),
        };
        proof {
            assert(pool@ =~= PoolView::<W, H>::start(
                pool@.name,
                limit as nat,
                queue_capacity as nat,
            ));
            PoolView::<W, H>::lemma_start_wf(pool@.name, limit as nat, queue_capacity as nat);
        }
        pool
    }

    /// Returns the configured name of the pool.
    pub fn name(&self) -> (name: &str)
        ensures
            name@ == self@.name@,
    {
        self.pool_name.as_str()
    }

    /// Returns the current number of tasks actively running.
    pub fn active_task_count(&self) -> (count: usize)
        ensures
            count == self@.active.len(),
    {
        self.active_task_info.len()
    }

    /// Returns the number of tasks waiting in the queue.
    pub fn queued_task_count(&self) -> (count: usize)
        requires
            self.wf(),
        ensures
            count == self@.queue.tasks.len(),
    {
        self.task_queue.len()
    }

    /// The number that the next task gets.
    pub fn next_task_id(&self) -> (id: u64)
        ensures
            id == self@.next_id,
    {
        self.next_task_id
    }

    /// Tells whether a shutdown was started.
    pub fn is_shutting_down(&self) -> (shutdown: bool)
        ensures
            shutdown == self@.shutdown,
    {
        self.shutdown_token.is_cancelled()
    }

    /// Submits a task. `receiver` is the receiving end of its result channel.
    ///
    /// Refused with `PoolShuttingDown` exactly if a shutdown was started or the
    /// queue is closed. Otherwise the task gets the next number and a place in
    /// the queue, or waits for one.
    pub fn submit<X>(&mut self, labels: LabelSet, work: W, receiver: X) -> (submitted: Result<
        Submission<X>,
        Refusal<W>,
    >)
        requires
            old(self).wf(),
            old(self)@.next_id < u64::MAX,
        ensures
            final(self).wf(),
            submitted is Err <==> old(self)@.refuses(),
            submitted is Err <==> old(self)@.shutdown,
            submitted matches Err(refusal) ==> {
                &&& refusal == (Refusal { error: PoolError::PoolShuttingDown, work })
                &&& final(self)@ == old(self)@
            },
            submitted matches Ok(submission) ==> {
                &&& submission is Waiting <==> old(self)@.queue.is_full()
                &&& submission is Waiting <==> old(self)@.queue.tasks.len() >= old(
                    self,
                )@.queue.capacity
                &&& submission.handle().spec_core().id() == old(self)@.next_id
                &&& submission.handle().spec_core().texts() == labels@
                &&& submission.handle().receiver() == Some(receiver)
                &&& final(self)@ == old(self)@.after_submit(submission.handle().spec_core(), work)
            },
    {
        if self.shutdown_token.is_cancelled() || self.task_queue.is_closed() {
            return Err(Refusal { error: PoolError::PoolShuttingDown, work });
        }
        let task_id = self.next_task_id;
        self.next_task_id = task_id + 1;
        self.tokens.register(task_id);
        let core = Arc::new(TaskCore::new(task_id, labels));
        let handle = TaskHandle::new(core.clone(), receiver);
        let task = ManagedTaskInternal { core, work };
        proof {
            old(self)@.lemma_submit_wf(task.core, work);
        }
        let shutdown = self.shutdown_token.is_cancelled();
        match self.task_queue.send(task, shutdown) {
            SendOutcome::Sent => {
                self.accepted = Ghost(self.accepted@.push(task_id));
                assert(self@ =~= old(self)@.after_submit(handle.spec_core(), work));
                Ok(Submission::Queued(handle))
            },
            SendOutcome::Full(task) => {
                self.blocked.insert(task_id, task);
                assert(self@ =~= old(self)@.after_submit(handle.spec_core(), work));
                Ok(Submission::Waiting(handle))
            },
            SendOutcome::Refused(error, task) => Err(Refusal { error, work: task.work }),
        }
    }

    /// Lets waiting submission `id` try again. A shutdown refuses it.
    pub fn resume_submit(&mut self, id: u64) -> (step: ResumeStep<W>)
        requires
            old(self).wf(),
        ensures
            final(self).wf(),
            final(self)@ == old(self)@.after_resume(id),
            !old(self)@.blocked.contains_key(id) ==> step is Unknown,
            old(self)@.blocked.contains_key(id) ==> step == (match old(self)@.resume_outcome(id) {
                SendOutcome::Sent => ResumeStep::Queued,
                SendOutcome::Full(_) => ResumeStep::Waiting,
                SendOutcome::Refused(error, task) => ResumeStep::Refused(error, task),
            }),
    {
        proof {
            old(self)@.lemma_resume_wf(id);
        }
        match self.blocked.remove(&id) {
            None => ResumeStep::Unknown,
            Some(task) => {
                let shutdown = self.shutdown_token.is_cancelled();
                match self.task_queue.resume_send(task, shutdown) {
                    SendOutcome::Sent => {
                        self.accepted = Ghost(self.accepted@.push(id));
                        assert(self@ =~= old(self)@.after_resume(id));
                        ResumeStep::Queued
                    },
                    SendOutcome::Full(task) => {
                        self.blocked.insert(id, task);
                        assert(self@ =~= old(self)@.after_resume(id));
                        ResumeStep::Waiting
                    },
                    SendOutcome::Refused(error, task) => {
                        self.tokens.mark_finished(id);
                        assert(self@ =~= old(self)@.after_resume(id));
                        ResumeStep::Refused(error, task)
                    },
                }
            },
        }
    }

    /// Gives waiting submission `id` up, as when the submitter stops waiting.
    /// Returns its task, if it was still waiting.
    pub fn withdraw_submit(&mut self, id: u64) -> (task: Option<ManagedTaskInternal<W>>)
        requires
            old(self).wf(),
        ensures
            final(self).wf(),
            final(self)@ == old(self)@.after_withdraw(id),
            task == (if old(self)@.blocked.contains_key(id) {
                Some(old(self)@.blocked[id])
            } else {
                None
            }),
    {
        proof {
            old(self)@.lemma_withdraw_wf(id);
        }
        match self.blocked.remove(&id) {
            None => None,
            Some(task) => {
                self.tokens.mark_finished(id);
                assert(self@ =~= old(self)@.after_withdraw(id));
                Some(task)
            },
        }
    }

    /// Ends the dispatch loop: its permit is free again, and what waits in the
    /// queue is given up.
    fn stop_worker(&mut self) -> (dropped: Vec<ManagedTaskInternal<W>>)
        requires
            old(self).wf(),
            old(self)@.poll_kind() == PollKind::Stop,
        ensures
            final(self).wf(),
            final(self)@ == old(self)@.after_poll(),
            dropped@ == old(self)@.queue.tasks,
    {
        proof {
            old(self)@.lemma_poll_wf();
        }
        if self.worker == WorkerStage::Holding {
            self.concurrency_gate.release();
        }
        self.worker = WorkerStage::Stopped;
        let dropped = self.task_queue.abandon();
        let mut ids: Vec<u64> = Vec::new();
        let mut i: usize = 0;
        while i < dropped.len()
            invariant
                i <= dropped.len(),
                ids@ == pool_view::task_ids(dropped@.take(i as int)),
            decreases dropped.len() - i,
        {
            ids.push(dropped[i].core.task_id());
            assert(pool_view::task_ids(dropped@.take(i + 1)) =~= pool_view::task_ids(
                dropped@.take(i as int),
            ).push(dropped@[i as int].core.id()));
            i = i + 1;
        }
        assert(dropped@.take(i as int) =~= dropped@);
        self.tokens.finish_all(&ids);
        assert(self@ =~= old(self)@.after_poll());
        dropped
    }

    /// Takes the next step of the dispatch loop.
    ///
    /// The loop first needs a concurrency permit and then a task; it keeps the
    /// permit while it waits for the task. A shutdown ends it at either point. A
    /// task that was cancelled while it waited is reported and not started.
    pub fn poll_worker(&mut self) -> (action: WorkerAction<W>)
        requires
            old(self).wf(),
        ensures
            final(self).wf(),
            final(self)@ == old(self)@.after_poll(),
            match old(self)@.poll_kind() {
                PollKind::Wait => action is Wait,
                PollKind::Stop => action matches WorkerAction::Stop(dropped) && dropped@ == old(
                    self,
                )@.queue.tasks,
                PollKind::Cancelled => action == WorkerAction::Cancelled(old(self)@.queue.tasks[0]),
                PollKind::Start => action == WorkerAction::Start(old(self)@.queue.tasks[0]),
            },
    {
        proof {
            old(self)@.lemma_poll_wf();
        }
        if self.worker == WorkerStage::Stopped || self.shutdown_token.is_cancelled() {
            return WorkerAction::Stop(self.stop_worker());
        }
        if self.worker == WorkerStage::Idle {
            if !self.concurrency_gate.try_acquire() {
                return WorkerAction::Wait;
            }
            self.worker = WorkerStage::Holding;
        }
        match self.task_queue.recv() {
            Received::Empty => {
                assert(self@ =~= old(self)@.after_poll());
                WorkerAction::Wait
            },
            Received::Disconnected => WorkerAction::Stop(self.stop_worker()),
            Received::Item(task) => {
                let id = task.core.task_id();
                self.worker = WorkerStage::Idle;
                if self.tokens.is_cancelled(id) {
                    self.concurrency_gate.release();
                    self.tokens.mark_finished(id);
                    let message = InternalCompletionMessage {
                        core: task.core.clone(),
                        pool_name: self.pool_name.clone(),
                        status: TaskCompletionStatus::Cancelled,
                    };
                    let _ = self.completion_notifier.notify(message);
                    self.taken = Ghost(self.taken@.push(Taken { id, started: false }));
                    assert(self@ =~= old(self)@.after_poll());
                    WorkerAction::Cancelled(task)
                } else {
                    let _ = self.completion_notifier.sender();
                    self.active_task_info.insert(
                        id,
                        ActiveTask { core: task.core.clone(), status: None, concluded: false },
                    );
                    self.taken = Ghost(self.taken@.push(Taken { id, started: true }));
                    assert(self@ =~= old(self)@.after_poll());
                    WorkerAction::Start(task)
                }
            },
        }
    }

    /// Records that running task `id` ended with `outcome`, which is handed over
    /// next. Tells whether the task was running without an outcome.
    pub fn record_outcome<R>(&mut self, id: u64, outcome: &Result<R, PoolError>) -> (recorded: bool)
        requires
            old(self).wf(),
        ensures
            final(self).wf(),
            final(self)@ == old(self)@.after_record(id, notifier::status_of(*outcome)),
            recorded == old(self)@.can_record(id),
    {
        let status = TaskCompletionStatus::from(outcome);
        proof {
            old(self)@.lemma_record_wf(id, status);
        }
        let found: Option<Arc<TaskCore>> = match self.active_task_info.get(&id) {
            Some(entry) => match entry.status {
                Some(_) => None,
                None => Some(entry.core.clone()),
            },
            None => None,
        };
        match found {
            None => false,
            Some(core) => {
                self.active_task_info.insert(
                    id,
                    ActiveTask { core, status: Some(status), concluded: false },
                );
                assert(self@ =~= old(self)@.after_record(id, status));
                true
            },
        }
    }

    /// Reports task `id`, whose outcome was recorded and handed over: its
    /// completion is queued if a handler was ever registered in time, and its
    /// permit is free again. Tells whether the task was to be reported.
    pub fn conclude_task(&mut self, id: u64) -> (ended: bool)
        requires
            old(self).wf(),
        ensures
            final(self).wf(),
            final(self)@ == old(self)@.after_conclude(id),
            ended == old(self)@.can_conclude(id),
    {
        proof {
            old(self)@.lemma_conclude_wf(id);
        }
        let found: Option<(Arc<TaskCore>, TaskCompletionStatus)> = match self.active_task_info.get(
            &id,
        ) {
            Some(entry) => match (entry.status, entry.concluded) {
                (Some(status), false) => Some((entry.core.clone(), status)),
                _ => None,
            },
            None => None,
        };
        match found {
            None => false,
            Some((core, status)) => {
                self.active_task_info.insert(
                    id,
                    ActiveTask { core: core.clone(), status: Some(status), concluded: true },
                );
                if self.completion_notifier.has_queue() {
                    let message = InternalCompletionMessage {
                        core,
                        pool_name: self.pool_name.clone(),
                        status,
                    };
                    self.completion_notifier.post(message);
                }
                self.concurrency_gate.release();
                assert(self@ =~= old(self)@.after_conclude(id));
                true
            },
        }
    }

    /// Takes task `id`, which has ended, off the list of active tasks. Tells
    /// whether it was on the list.
    pub fn retire_task(&mut self, id: u64) -> (retired: bool)
        requires
            old(self).wf(),
        ensures
            final(self).wf(),
            final(self)@ == old(self)@.after_retire(id),
            retired == old(self)@.can_retire(id),
    {
        proof {
            old(self)@.lemma_retire_wf(id);
        }
        let concluded = match self.active_task_info.get(&id) {
            Some(entry) => entry.concluded,
            None => false,
        };
        if concluded {
            self.active_task_info.remove(&id);
            self.tokens.mark_finished(id);
            assert(self@ =~= old(self)@.after_retire(id));
        }
        concluded
    }

    /// Checks if cancellation was requested for the task of `handle`.
    pub fn is_cancellation_requested<X>(&self, handle: &TaskHandle<X>) -> (requested: bool)
        ensures
            requested == token::token_cancelled(self@.tokens, handle.spec_core().id()),
    {
        handle.is_cancellation_requested(&self.tokens)
    }

    /// Checks if cancellation was requested for task `id`.
    pub fn is_cancelled(&self, id: u64) -> (cancelled: bool)
        ensures
            cancelled == token::token_cancelled(self@.tokens, id),
    {
        self.tokens.is_cancelled(id)
    }

    /// Requests cancellation of the task of `handle`.
    pub fn cancel<X>(&mut self, handle: &TaskHandle<X>)
        requires
            old(self).wf(),
        ensures
            final(self).wf(),
            final(self)@ == old(self)@.after_cancel(
                Set::<u64>::empty().insert(handle.spec_core().id()),
            ),
    {
        proof {
            old(self)@.lemma_tokens_wf(Set::<u64>::empty().insert(handle.spec_core().id()), 0);
        }
        handle.cancel(&mut self.tokens);
    }

    /// Notes that the handle of task `id` is gone. The task goes on.
    pub fn drop_handle(&mut self, id: u64)
        requires
            old(self).wf(),
        ensures
            final(self).wf(),
            final(self)@ == old(self)@.after_handle_drop(id),
            behaviour::only_detached(old(self)@.tokens, final(self)@.tokens, id),
    {
        proof {
            old(self)@.lemma_tokens_wf(Set::empty(), id);
        }
        self.tokens.drop_handle(id);
    }

    /// Requests cancellation for all active tasks that have the specified label.
    /// Returns their numbers.
    pub fn cancel_tasks_by_label(&mut self, label_to_cancel: &TaskLabel) -> (signalled: Vec<u64>)
        requires
            old(self).wf(),
        ensures
            final(self).wf(),
            final(self)@ == old(self)@.after_cancel(
                pool_view::labelled(
                    old(self)@.active,
                    Set::<Seq<char>>::empty().insert(label_to_cancel@),
                ),
            ),
            signalled@.no_duplicates(),
            signalled@.to_set() == pool_view::labelled(
                old(self)@.active,
                Set::<Seq<char>>::empty().insert(label_to_cancel@),
            ),
    {
        self.cancel_tasks_by_labels_internal(&LabelSet::single(label_to_cancel.clone()))
    }

    /// Requests cancellation for all active tasks that have one or more of the
    /// specified labels. Returns their numbers.
    pub fn cancel_tasks_by_labels(&mut self, labels_to_cancel: &LabelSet) -> (signalled: Vec<u64>)
        requires
            old(self).wf(),
        ensures
            final(self).wf(),
            final(self)@ == old(self)@.after_cancel(
                pool_view::labelled(old(self)@.active, labels_to_cancel@),
            ),
            signalled@.no_duplicates(),
            signalled@.to_set() == pool_view::labelled(old(self)@.active, labels_to_cancel@),
    {
        self.cancel_tasks_by_labels_internal(labels_to_cancel)
    }

    fn cancel_tasks_by_labels_internal(&mut self, labels_to_cancel: &LabelSet) -> (matched: Vec<u64>)
        requires
            old(self).wf(),
        ensures
            final(self).wf(),
            final(self)@ == old(self)@.after_cancel(
                pool_view::labelled(old(self)@.active, labels_to_cancel@),
            ),
            matched@.no_duplicates(),
            matched@.to_set() == pool_view::labelled(old(self)@.active, labels_to_cancel@),
    {
        let ghost wanted = pool_view::labelled(self@.active, labels_to_cancel@);
        let mut matched: Vec<u64> = Vec::new();
        if labels_to_cancel.is_empty() {
            proof {
                assert(matched@.to_set() =~= wanted);
                assert(self@.tokens =~= self@.after_cancel(wanted).tokens);
                assert(self@ =~= self@.after_cancel(wanted));
            }
            return matched;
        }
        let ids = keys::keys_of(&self.active_task_info);
        let mut i: usize = 0;
        while i < ids.len()
            invariant
                i <= ids.len(),
                ids@.no_duplicates(),
                ids@.to_set() == self.active_task_info@.dom(),
                wanted == pool_view::labelled(self.active_task_info@, labels_to_cancel@),
                matched@.no_duplicates(),
                forall|m: int|
                    0 <= m < matched@.len() ==> wanted.contains(#[trigger] matched@[m])
                        && ids@.take(i as int).contains(matched@[m]),
                forall|k: int|
                    0 <= k < i && wanted.contains(#[trigger] ids@[k]) ==> matched@.contains(
                        ids@[k],
                    ),
            decreases ids.len() - i,
        {
            let id = ids[i];
            let ghost before = matched@;
            assert(ids@.to_set().contains(id));
            if let Some(entry) = self.active_task_info.get(&id) {
                if !entry.core.labels().is_disjoint(labels_to_cancel) {
                    matched.push(id);
                }
            }
            proof {
                if before.contains(id) {
                    let m = choose|m: int| 0 <= m < before.len() && before[m] == id;
                    let head = ids@.take(i as int);
                    let k = choose|k: int| 0 <= k < head.len() && head[k] == before[m];
                    assert(ids@[k] == id);
                }
                assert forall|m: int| 0 <= m < matched@.len() implies wanted.contains(
                    #[trigger] matched@[m],
                ) && ids@.take(i + 1).contains(matched@[m]) by {
                    if m < before.len() {
                        assert(matched@[m] == before[m]);
                        let head = ids@.take(i as int);
                        let k = choose|k: int| 0 <= k < head.len() && head[k] == before[m];
                        assert(ids@.take(i + 1)[k] == before[m]);
                    } else {
                        assert(ids@.take(i + 1)[i as int] == id);
                    }
                }
                assert forall|k: int| 0 <= k < i + 1 && wanted.contains(
                    #[trigger] ids@[k],
                ) implies matched@.contains(ids@[k]) by {
                    if k < i {
                        assert(before.contains(ids@[k]));
                        let m = choose|m: int| 0 <= m < before.len() && before[m] == ids@[k];
                        assert(matched@[m] == ids@[k]);
                    } else {
                        assert(matched@[before.len() as int] == id);
                    }
                }
            }
            i = i + 1;
        }
        proof {
            assert forall|id: u64| wanted.contains(id) implies matched@.to_set().contains(id) by {
                assert(ids@.to_set().contains(id));
                let k = choose|k: int| 0 <= k < ids@.len() && ids@[k] == id;
                assert(matched@.contains(ids@[k]));
            }
            assert(matched@.to_set() =~= wanted);
            old(self)@.lemma_tokens_wf(wanted, 0);
        }
        self.tokens.cancel_all(&matched);
        matched
    }

    /// Registers a completion handler. It is told of every task that completes
    /// from now on. Tells whether the notification worker has to be started, as
    /// the first handler asks for.
    pub fn add_completion_handler(&mut self, handler: H) -> (started: bool)
        requires
            old(self).wf(),
        ensures
            final(self).wf(),
            final(self)@ == old(self)@.after_handler(handler),
            started == (old(self)@.notifier.sink == CompletionSink::Unset),
    {
        proof {
            old(self)@.lemma_handler_wf(handler);
        }
        let held: usize = if self.worker == WorkerStage::Holding {
            1
        } else {
            0
        };
        let running: usize = self.concurrency_gate.capacity()
            - self.concurrency_gate.get_permits() - held;
        let started = self.completion_notifier.add_handler(handler, running);
        assert(self@ =~= old(self)@.after_handler(handler));
        started
    }

    /// The notifier, to look at its handlers and its queue.
    pub fn notifier(&self) -> (notifier: &CompletionNotifier<H>)
        requires
            self.wf(),
        ensures
            notifier@ == self@.notifier,
            notifier.wf(),
    {
        &self.completion_notifier
    }

    /// Takes the next action of the notification worker.
    pub fn next_notification(&mut self) -> (action: NotifierAction)
        requires
            old(self).wf(),
        ensures
            final(self).wf(),
            final(self)@ == (PoolView {
                notifier: old(self)@.notifier.after_action(),
                ..old(self)@
            }),
            action == old(self)@.notifier.action(),
    {
        proof {
            old(self)@.lemma_notifier_wf();
        }
        self.completion_notifier.next_action()
    }

    /// Lets the notification worker take note of the shutdown. Tells whether it
    /// was news.
    pub fn note_shutdown(&mut self) -> (news: bool)
        requires
            old(self).wf(),
        ensures
            final(self).wf(),
            final(self)@ == (PoolView {
                notifier: NotifierView { shutdown_noted: true, ..old(self)@.notifier },
                ..old(self)@
            }),
            news == !old(self)@.notifier.shutdown_noted,
    {
        self.completion_notifier.note_shutdown()
    }

    /// Starts a shutdown, or joins one that was started before.
    ///
    /// The first call closes the queue; in the forceful mode it also cancels all
    /// active tasks, whose numbers it returns. Every call then waits as its
    /// `ShutdownRun` says.
    pub fn shutdown(&mut self, mode: ShutdownMode) -> (begun: (ShutdownRun, Vec<u64>))
        requires
            old(self).wf(),
        ensures
            final(self).wf(),
            final(self)@ == old(self)@.after_shutdown(mode),
            begun.0 == old(self)@.shutdown_run(),
            old(self)@.active.len() > 0 ==> begun.0.stage
                == crate::shutdown::ShutdownStage::AwaitActive,
            begun.1@.no_duplicates(),
            begun.1@.to_set() == old(self)@.shutdown_victims(mode),
    {
        proof {
            old(self)@.lemma_shutdown_wf(mode, true, crate::shutdown::ShutdownStage::Done);
        }
        let initiator = !self.shutdown_token.is_cancelled();
        let mut victims: Vec<u64> = Vec::new();
        assert(victims@.to_set() =~= Set::<u64>::empty());
        if initiator {
            self.shutdown_token.cancel();
            self.task_queue.close();
            if mode == ShutdownMode::ForcefulCancel {
                victims = keys::keys_of(&self.active_task_info);
            }
        }
        self.tokens.cancel_all(&victims);
        let active = self.active_task_info.len();
        let run = ShutdownRun::begin(
            initiator,
            active,
            &mut self.unclaimed,
            &mut self.completion_notifier,
        );
        assert(self@ =~= old(self)@.after_shutdown(mode));
        (run, victims)
    }

    /// Moves `run`, which a call of `shutdown` began, on after `event`.
    pub fn shutdown_step(&mut self, run: &mut ShutdownRun, event: ShutdownEvent)
        requires
            old(self).wf(),
            old(self)@.shutdown,
        ensures
            final(self).wf(),
            final(self)@ == old(self)@.after_shutdown_event(*old(run), event),
            *final(run) == (ShutdownRun {
                initiator: old(run).initiator,
                stage: crate::shutdown::stage_settled(
                    crate::shutdown::stage_after_event(old(run).stage, event),
                    old(self)@.unclaimed,
                    old(self)@.notifier.joinable,
                ),
            }),
    {
        proof {
            old(self)@.lemma_shutdown_wf(
                ShutdownMode::Graceful,
                run.initiator,
                crate::shutdown::stage_after_event(run.stage, event),
            );
        }
        run.step(event, &mut self.unclaimed, &mut self.completion_notifier);
        assert(self@ =~= old(self)@.after_shutdown_event(*old(run), event));
    }

    /// Counts one more instance that shares the pool.
    pub fn add_instance(&mut self)
        requires
            old(self).wf(),
            old(self)@.instances < usize::MAX,
        ensures
            final(self).wf(),
            final(self)@ == (PoolView { instances: old(self)@.instances + 1, ..old(self)@ }),
    {
        self.instances = self.instances + 1;
        assert(self@ =~= (PoolView { instances: old(self)@.instances + 1, ..old(self)@ }));
    }

    /// Counts an instance out. The last one starts a shutdown that nobody waits
    /// for, unless one was started before, and closes the completion sink in any
    /// case. Tells whether it started a shutdown.
    pub fn drop_instance(&mut self) -> (signalled: bool)
        requires
            old(self).wf(),
            old(self)@.instances > 0,
        ensures
            final(self).wf(),
            final(self)@ == old(self)@.after_instance_drop(),
            signalled == (old(self)@.instances == 1 && !old(self)@.shutdown),
    {
        proof {
            old(self)@.lemma_shutdown_wf(
                ShutdownMode::Graceful,
                true,
                crate::shutdown::ShutdownStage::Done,
            );
        }
        let last = self.instances == 1;
        self.instances = self.instances - 1;
        let signalled = last && !self.shutdown_token.is_cancelled();
        if last {
            self.shutdown_token.cancel();
            self.task_queue.close();
            self.completion_notifier.close();
        }
        assert(self@ =~= old(self)@.after_instance_drop());
        signalled
    }
}

} // verus!
