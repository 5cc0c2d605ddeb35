//! Completion notifications.

use std::sync::Arc;
use std::time::SystemTime;
use vstd::prelude::*;

use crate::channel::{FifoChannel, Received};
use crate::error::PoolError;
use crate::task::{LabelSet, TaskCore};

verus! {

/// `std::time::SystemTime`, which passes through the library unread.
#[verifier::external_type_specification]
#[verifier::external_body]
pub struct ExSystemTime(SystemTime);

/// The outcome of a task in short.
#[derive(Debug, Clone, Copy, PartialEq, Eq, Structural)]
pub enum TaskCompletionStatus {
    /// The task returned a value.
    Success,
    /// The task was cancelled.
    Cancelled,
    /// The task panicked.
    Panicked,
    /// The task ended with another error of the pool.
    PoolErrorOccurred,
}

/// The status that stands for `outcome`.
pub open spec fn status_of<R>(outcome: Result<R, PoolError>) -> TaskCompletionStatus {
    match outcome {
        Ok(_) => TaskCompletionStatus::Success,
        Err(PoolError::TaskCancelled) => TaskCompletionStatus::Cancelled,
        Err(PoolError::TaskPanicked) => TaskCompletionStatus::Panicked,
        Err(_) => TaskCompletionStatus::PoolErrorOccurred,
    }
}

impl<R> From<&Result<R, PoolError>> for TaskCompletionStatus {
    fn from(result: &Result<R, PoolError>) -> (status: Self) {
        match result {
            Ok(_) => TaskCompletionStatus::Success,
            Err(PoolError::TaskCancelled) => TaskCompletionStatus::Cancelled,
            Err(PoolError::TaskPanicked) => TaskCompletionStatus::Panicked,
            Err(_) => TaskCompletionStatus::PoolErrorOccurred,
        }
    }
}

impl<R> vstd::std_specs::convert::FromSpecImpl<&Result<R, PoolError>> for TaskCompletionStatus {
    open spec fn obeys_from_spec() -> bool {
        true
    }

    open spec fn from_spec(result: &Result<R, PoolError>) -> Self {
        status_of(*result)
    }
}

/// What a completion handler is told about a task.
#[derive(Debug)]
pub struct TaskCompletionInfo {
    /// The number of the task.
    pub task_id: u64,
    /// The name of the pool.
    pub pool_name: Arc<String>,
    /// The labels of the task.
    pub labels: Arc<LabelSet>,
    /// How the task ended.
    pub status: TaskCompletionStatus,
    /// When the notification was processed.
    pub completion_time: SystemTime,
}

impl Clone for TaskCompletionInfo {
    fn clone(&self) -> (copy: TaskCompletionInfo)
        ensures
            copy == *self,
    {
        TaskCompletionInfo {
            task_id: self.task_id,
            pool_name: self.pool_name.clone(),
            labels: self.labels.clone(),
            status: self.status,
            completion_time: self.completion_time,
        }
    }
}

/// A completion on its way to the handlers.
#[derive(Debug)]
pub struct InternalCompletionMessage {
    /// Number and labels of the task.
    pub core: Arc<TaskCore>,
    /// The name of the pool.
    pub pool_name: Arc<String>,
    /// How the task ended.
    pub status: TaskCompletionStatus,
}

impl InternalCompletionMessage {
    /// What the handlers are told of this completion when it is processed at `now`.
    pub fn public_info(&self, now: SystemTime) -> (info: TaskCompletionInfo)
        ensures
            info.task_id == self.core.id(),
            info.pool_name == self.pool_name,
            info.labels == self.core.shared(),
            info.labels@ == self.core.texts(),
            info.status == self.status,
            info.completion_time == now,
    {
        TaskCompletionInfo {
            task_id: self.core.task_id(),
            pool_name: self.pool_name.clone(),
            labels: self.core.shared_labels(),
            status: self.status,
            completion_time: now,
        }
    }
}

/// The pool-wide sender of the completion queue.
///
/// The three states stay apart so that a handler registered after shutdown
/// cannot bring a closed queue back.
#[derive(Debug, Clone, Copy, PartialEq, Eq, Structural)]
pub enum CompletionSink {
    /// No handler was ever registered: there is no queue.
    Unset,
    /// A handler was registered; completions are queued.
    Open,
    /// The pool was shut down.
    Closed,
}

/// The worker that calls the handlers.
#[derive(Debug, Clone, Copy, PartialEq, Eq, Structural)]
pub enum NotifierWorker {
    /// Not started.
    Idle,
    /// Processing the queue.
    Running,
    /// Ended, because the queue is empty and nothing can come any more.
    Stopped,
}

/// What a notifier is.
#[verifier::ext_equal]
pub struct NotifierView<H> {
    /// The handlers, in the order of their registration.
    pub handlers: Seq<H>,
    /// The pool-wide sender.
    pub sink: CompletionSink,
    /// The number of senders that running tasks hold.
    pub senders: nat,
    /// The completions that were queued and not processed yet, oldest first.
    pub pending: Seq<InternalCompletionMessage>,
    /// The worker.
    pub worker: NotifierWorker,
    /// Nobody has waited for the worker's end yet.
    pub joinable: bool,
    /// The worker has taken note of the shutdown.
    pub shutdown_noted: bool,
    /// All completions that were ever queued, in order.
    pub posted: Seq<InternalCompletionMessage>,
    /// All completions that the worker has processed, in order.
    pub processed: Seq<InternalCompletionMessage>,
}

/// What the worker does next.
pub enum NotifierAction {
    /// Call every handler with this completion.
    Deliver(InternalCompletionMessage),
    /// Drop this completion: there is no handler.
    Discard(InternalCompletionMessage),
    /// Wait until something is queued or the queue is disconnected.
    Wait,
    /// End.
    Stop,
}

impl<H> NotifierView<H> {
    /// The notifier of a new pool.
    pub open spec fn start() -> NotifierView<H> {
        NotifierView {
            handlers: Seq::empty(),
            sink: CompletionSink::Unset,
            senders: 0,
            pending: Seq::empty(),
            worker: NotifierWorker::Idle,
            joinable: false,
            shutdown_noted: false,
            posted: Seq::empty(),
            processed: Seq::empty(),
        }
    }

    /// There is a queue for completions: a handler was registered in time.
    pub open spec fn has_queue(self) -> bool {
        self.worker != NotifierWorker::Idle
    }

    /// After `handler` was registered while `running` tasks run. The first one
    /// sets up queue and worker and gives each running task a sender. After a
    /// shutdown there is nothing to set up.
    pub open spec fn after_add(self, handler: H, running: nat) -> NotifierView<H> {
        let ready = if self.sink == CompletionSink::Unset {
            NotifierView {
                sink: CompletionSink::Open,
                senders: running,
                worker: NotifierWorker::Running,
                joinable: true,
                ..self
            }
        } else {
            self
        };
        NotifierView { handlers: self.handlers.push(handler), ..ready }
    }

    /// After a starting task asked for a sender.
    pub open spec fn after_capture(self) -> NotifierView<H> {
        if self.sink == CompletionSink::Open {
            NotifierView { senders: self.senders + 1, ..self }
        } else {
            self
        }
    }

    /// With `message` at the back of the queue.
    pub open spec fn with_message(self, message: InternalCompletionMessage) -> NotifierView<H> {
        NotifierView {
            pending: self.pending.push(message),
            posted: self.posted.push(message),
            ..self
        }
    }

    /// After a task used the sender it holds.
    pub open spec fn after_post(self, message: InternalCompletionMessage) -> NotifierView<H> {
        NotifierView { senders: (self.senders - 1) as nat, ..self.with_message(message) }
    }

    /// After a completion was reported without a sender held before.
    pub open spec fn after_notify(self, message: InternalCompletionMessage) -> NotifierView<H> {
        if self.sink == CompletionSink::Open {
            self.with_message(message)
        } else {
            self
        }
    }

    /// After the pool-wide sender was dropped. Where there was none, none can
    /// come any more.
    pub open spec fn after_close(self) -> NotifierView<H> {
        NotifierView { sink: CompletionSink::Closed, ..self }
    }

    /// No completion can be queued any more.
    pub open spec fn disconnected(self) -> bool {
        self.sink == CompletionSink::Closed && self.senders == 0
    }

    /// What the worker does next.
    pub open spec fn action(self) -> NotifierAction {
        if self.worker != NotifierWorker::Running {
            NotifierAction::Stop
        } else if self.pending.len() > 0 {
            if self.handlers.len() > 0 {
                NotifierAction::Deliver(self.pending[0])
            } else {
                NotifierAction::Discard(self.pending[0])
            }
        } else if self.disconnected() {
            NotifierAction::Stop
        } else {
            NotifierAction::Wait
        }
    }

    /// After the worker took its next action.
    pub open spec fn after_action(self) -> NotifierView<H> {
        if self.worker != NotifierWorker::Running {
            self
        } else if self.pending.len() > 0 {
            NotifierView {
                pending: self.pending.drop_first(),
                processed: self.processed.push(self.pending[0]),
                ..self
            }
        } else if self.disconnected() {
            NotifierView { worker: NotifierWorker::Stopped, ..self }
        } else {
            self
        }
    }

    /// What holds of every notifier.
    pub open spec fn wf(self) -> bool {
        &&& self.sink == CompletionSink::Unset ==> self.worker == NotifierWorker::Idle
        &&& self.sink == CompletionSink::Open ==> self.worker == NotifierWorker::Running
        &&& !self.has_queue() ==> self.senders == 0 && self.posted.len() == 0
            && self.pending.len() == 0 && self.processed.len() == 0 && !self.joinable
        &&& self.has_queue() ==> self.handlers.len() > 0
        &&& self.worker == NotifierWorker::Stopped ==> self.disconnected() && self.pending.len()
            == 0
        &&& self.posted == self.processed + self.pending
        &&& self.senders <= usize::MAX
    }
}

/// Queues completions and hands them to the registered handlers, one after the
/// other.
pub struct CompletionNotifier<H> {
    handlers: Vec<H>,
    sink: CompletionSink,
    senders: usize,
    queue: Option<FifoChannel<InternalCompletionMessage>>,
    worker: NotifierWorker,
    joinable: bool,
    shutdown_noted: bool,
    posted: Ghost<Seq<InternalCompletionMessage>>,
    processed: Ghost<Seq<InternalCompletionMessage>>,
}

impl<H> View for CompletionNotifier<H> {
    type V = NotifierView<H>;

    closed spec fn view(&self) -> NotifierView<H> {
        NotifierView {
            handlers: self.handlers@,
            sink: self.sink,
            senders: self.senders as nat,
            pending: match self.queue {
                Some(channel) => channel@.items,
                None => Seq::empty(),
            },
            worker: self.worker,
            joinable: self.joinable,
            shutdown_noted: self.shutdown_noted,
            posted: self.posted@,
            processed: self.processed@,
        }
    }
}

impl<H> CompletionNotifier<H> {
    /// The queue exists once a handler was registered, is closed for sending
    /// once nobody can send, and has lost its receiver once the worker ended.
    pub closed spec fn wf(self) -> bool {
        &&& self@.wf()
        &&& match self.queue {
            Some(channel) => {
                &&& self.worker != NotifierWorker::Idle
                &&& channel.wf()
                &&& channel@.sender_closed == self@.disconnected()
                &&& channel@.receiver_closed == (self.worker == NotifierWorker::Stopped)
            },
            None => self.worker == NotifierWorker::Idle,
        }
    }

    /// The invariant of the view is part of the invariant.
    pub proof fn lemma_view_wf(self)
        requires
            self.wf(),
        ensures
            self@.wf(),
    {
    }

    /// A notifier without handlers.
    pub fn new() -> (notifier: CompletionNotifier<H>)
        ensures
            notifier.wf(),
            notifier@ == NotifierView::<H>::start(),
    {
        let notifier: CompletionNotifier<H> = CompletionNotifier {
            handlers: Vec::new(),
            sink: CompletionSink::Unset,
            senders: 0,
            queue: None,
            worker: NotifierWorker::Idle,
            joinable: false,
            shutdown_noted: false,
            posted: Ghost(Seq::empty()),
            processed: Ghost(Seq::empty()),
        };
        assert(notifier@ =~= NotifierView::<H>::start());
        notifier
    }

    /// Sets up the queue for the first handler, with a sender for each of
    /// `running` tasks. Tells whether the worker has to be started.
    fn ensure_worker_initialized(&mut self, running: usize) -> (started: bool)
        requires
            old(self).wf(),
        ensures
            started == (old(self)@.sink == CompletionSink::Unset),
            final(self).handlers == old(self).handlers,
            started ==> final(self)@ == (NotifierView {
                sink: CompletionSink::Open,
                senders: running as nat,
                worker: NotifierWorker::Running,
                joinable: true,
                ..old(self)@
            }),
            started ==> final(self).queue is Some && final(self).queue->0.wf(),
            started ==> !final(self).queue->0@.sender_closed,
            started ==> !final(self).queue->0@.receiver_closed,
            !started ==> *final(self) == *old(self),
    {
        if self.sink == CompletionSink::Unset {
            self.queue = Some(FifoChannel::new());
            self.sink = CompletionSink::Open;
            self.senders = running;
            self.worker = NotifierWorker::Running;
            self.joinable = true;
            assert(self@ =~= (NotifierView {
                sink: CompletionSink::Open,
                senders: running as nat,
                worker: NotifierWorker::Running,
                joinable: true,
                ..old(self)@
            }));
            true
        } else {
            false
        }
    }

    /// Registers a handler while `running` tasks run. Tells whether the worker
    /// has to be started.
    pub fn add_handler(&mut self, handler: H, running: usize) -> (started: bool)
        requires
            old(self).wf(),
        ensures
            final(self).wf(),
            final(self)@ == old(self)@.after_add(handler, running as nat),
            started == (old(self)@.sink == CompletionSink::Unset),
    {
        let started = self.ensure_worker_initialized(running);
        self.handlers.push(handler);
        assert(self@ =~= old(self)@.after_add(handler, running as nat));
        started
    }

    /// The number of registered handlers.
    pub fn handler_count(&self) -> (count: usize)
        ensures
            count == self@.handlers.len(),
    {
        self.handlers.len()
    }

    /// The handler that was registered as number `index`, counted from zero.
    pub fn handler(&self, index: usize) -> (handler: &H)
        requires
            index < self@.handlers.len(),
        ensures
            *handler == self@.handlers[index as int],
    {
        &self.handlers[index]
    }

    /// A completion queue was ever built.
    pub fn has_queue(&self) -> (built: bool)
        ensures
            built == self@.has_queue(),
    {
        self.worker != NotifierWorker::Idle
    }

    /// The state of the pool-wide sender.
    pub fn sink(&self) -> (sink: CompletionSink)
        ensures
            sink == self@.sink,
    {
        self.sink
    }

    /// Gives a starting task a sender of its own, if a handler was registered
    /// and the pool is not shut down. The sender is used by `post`.
    pub fn sender(&mut self) -> (captured: bool)
        requires
            old(self).wf(),
            old(self)@.senders < usize::MAX,
        ensures
            final(self).wf(),
            final(self)@ == old(self)@.after_capture(),
            captured == (old(self)@.sink == CompletionSink::Open),
    {
        if self.sink == CompletionSink::Open {
            self.senders = self.senders + 1;
            assert(self@ =~= old(self)@.after_capture());
            true
        } else {
            false
        }
    }

    /// Queues `message` at the back. The queue has a receiver while a sender
    /// exists.
    fn enqueue(&mut self, message: InternalCompletionMessage)
        requires
            old(self).wf(),
            old(self)@.sink == CompletionSink::Open || old(self)@.senders > 0,
        ensures
            final(self).wf(),
            final(self)@ == old(self)@.with_message(message),
    {
        let mut queue: Option<FifoChannel<InternalCompletionMessage>> = None;
        std::mem::swap(&mut queue, &mut self.queue);
        if let Some(mut channel) = queue {
            let _ = channel.send(message);
            self.queue = Some(channel);
        }
        self.posted = Ghost(self.posted@.push(message));
        assert(self.processed@ + old(self)@.pending.push(message) =~= (self.processed@ + old(
            self,
        )@.pending).push(message));
        assert(self@ =~= old(self)@.with_message(message));
    }

    /// Closes the queue for sending once nobody is left to send.
    fn disconnect_if_last(&mut self)
        requires
            old(self)@.wf(),
            old(self).queue is Some,
            old(self).queue->0.wf(),
            old(self).worker != NotifierWorker::Idle,
            old(self).queue->0@.sender_closed ==> old(self)@.disconnected(),
            old(self).queue->0@.receiver_closed == (old(self).worker == NotifierWorker::Stopped),
        ensures
            final(self).wf(),
            final(self)@ == old(self)@,
    {
        if self.sink == CompletionSink::Closed && self.senders == 0 {
            let mut queue: Option<FifoChannel<InternalCompletionMessage>> = None;
            std::mem::swap(&mut queue, &mut self.queue);
            if let Some(mut channel) = queue {
                channel.close();
                self.queue = Some(channel);
            }
            assert(self@ =~= old(self)@);
        }
    }

    /// Queues the completion of a task that holds a sender; the sender is gone
    /// afterwards.
    pub fn post(&mut self, message: InternalCompletionMessage)
        requires
            old(self).wf(),
            old(self)@.senders > 0,
        ensures
            final(self).wf(),
            final(self)@ == old(self)@.after_post(message),
    {
        self.enqueue(message);
        self.senders = self.senders - 1;
        assert(self@ =~= old(self)@.after_post(message));
        self.disconnect_if_last();
    }

    /// Queues the completion of a task that never started, if a handler was
    /// registered and the pool is not shut down. Tells whether it was queued.
    pub fn notify(&mut self, message: InternalCompletionMessage) -> (queued: bool)
        requires
            old(self).wf(),
        ensures
            final(self).wf(),
            final(self)@ == old(self)@.after_notify(message),
            queued == (old(self)@.sink == CompletionSink::Open),
    {
        if self.sink == CompletionSink::Open {
            self.enqueue(message);
            true
        } else {
            false
        }
    }

    /// Drops the pool-wide sender, so that the queue disconnects once every
    /// running task has used its own. That is what ends the worker. A notifier
    /// that never had a handler stays without a queue.
    pub fn close(&mut self)
        requires
            old(self).wf(),
        ensures
            final(self).wf(),
            final(self)@ == old(self)@.after_close(),
    {
        if self.sink != CompletionSink::Closed {
            self.sink = CompletionSink::Closed;
            assert(self@ =~= old(self)@.after_close());
            if self.worker != NotifierWorker::Idle {
                self.disconnect_if_last();
            }
        } else {
            assert(self@ =~= old(self)@.after_close());
        }
    }

    /// The number of completions that wait in the queue.
    pub fn pending_completions(&self) -> (count: usize)
        requires
            self.wf(),
        ensures
            count == self@.pending.len(),
    {
        match &self.queue {
            Some(channel) => channel.len(),
            None => 0,
        }
    }

    /// Takes the worker's next action.
    pub fn next_action(&mut self) -> (action: NotifierAction)
        requires
            old(self).wf(),
        ensures
            final(self).wf(),
            action == old(self)@.action(),
            final(self)@ == old(self)@.after_action(),
            old(self)@.pending.len() > 0 && old(self)@.worker == NotifierWorker::Running && old(
                self,
            )@.handlers.len() > 0 ==> action == NotifierAction::Deliver(old(self)@.pending[0]),
    {
        if self.worker != NotifierWorker::Running {
            return NotifierAction::Stop;
        }
        let mut queue: Option<FifoChannel<InternalCompletionMessage>> = None;
        std::mem::swap(&mut queue, &mut self.queue);
        let mut action = NotifierAction::Stop;
        if let Some(mut channel) = queue {
            let ghost before = channel@.items;
            match channel.recv() {
                Received::Item(message) => {
                    self.processed = Ghost(self.processed@.push(message));
                    assert(self.processed@ + before.drop_first() =~= old(self).processed@ + before);
                    if self.handlers.len() > 0 {
                        action = NotifierAction::Deliver(message);
                    } else {
                        action = NotifierAction::Discard(message);
                    }
                },
                Received::Empty => {
                    action = NotifierAction::Wait;
                },
                Received::Disconnected => {
                    let _ = channel.abandon();
                    self.worker = NotifierWorker::Stopped;
                },
            }
            self.queue = Some(channel);
        }
        assert(self@ =~= old(self)@.after_action());
        action
    }

    /// Takes note of the pool's shutdown. The worker goes on until the queue is
    /// disconnected. Tells whether the shutdown was news.
    pub fn note_shutdown(&mut self) -> (news: bool)
        requires
            old(self).wf(),
        ensures
            final(self).wf(),
            final(self)@ == (NotifierView { shutdown_noted: true, ..old(self)@ }),
            news == !old(self)@.shutdown_noted,
    {
        let news = !self.shutdown_noted;
        self.shutdown_noted = true;
        assert(self@ =~= (NotifierView { shutdown_noted: true, ..old(self)@ }));
        news
    }

    /// Claims the wait for the worker's end. Tells whether there is a worker
    /// that nobody has waited for.
    pub fn take_join(&mut self) -> (joinable: bool)
        requires
            old(self).wf(),
        ensures
            final(self).wf(),
            final(self)@ == (NotifierView { joinable: false, ..old(self)@ }),
            joinable == old(self)@.joinable,
    {
        let joinable = self.joinable;
        self.joinable = false;
        assert(self@ =~= (NotifierView { joinable: false, ..old(self)@ }));
        joinable
    }
}

/// What to do next for one completion.
#[derive(Debug, Clone, Copy, PartialEq, Eq, Structural)]
pub enum HandlerStep {
    /// Call the handler with this number.
    Invoke(usize),
    /// Every handler was called.
    Done,
}

/// What to do once `called` of `total` handlers were called.
pub open spec fn handler_step(called: nat, total: nat) -> HandlerStep {
    if called < total {
        HandlerStep::Invoke(called as usize)
    } else {
        HandlerStep::Done
    }
}

/// The number of calls after one more handler returned or panicked.
pub open spec fn called_after(called: nat, panicked: bool) -> nat {
    called + 1
}

/// Calls the handlers for one completion, in the order of their registration.
#[derive(Debug)]
pub struct HandlerRun {
    next: usize,
    total: usize,
}

impl HandlerRun {
    /// The number of handlers that were called.
    pub closed spec fn called(self) -> nat {
        self.next as nat
    }

    /// The number of handlers to call.
    pub closed spec fn handlers(self) -> nat {
        self.total as nat
    }

    /// A run over `total` handlers.
    pub fn new(total: usize) -> (run: HandlerRun)
        ensures
            run.called() == 0,
            run.handlers() == total,
    {
        HandlerRun { next: 0, total }
    }

    /// What to do next.
    pub fn step(&self) -> (step: HandlerStep)
        ensures
            step == handler_step(self.called(), self.handlers()),
    {
        if self.next < self.total {
            HandlerStep::Invoke(self.next)
        } else {
            HandlerStep::Done
        }
    }

    /// Notes that the handler returned or panicked. A panic is to be logged and
    /// keeps no other handler from its turn.
    pub fn after_handler(&mut self, panicked: bool) -> (log_error: bool)
        requires
            old(self).called() < old(self).handlers(),
        ensures
            final(self).called() == called_after(old(self).called(), panicked),
            final(self).handlers() == old(self).handlers(),
            log_error == panicked,
    {
        self.next = self.next + 1;
        panicked
    }
}

/// The calls that were made once handlers have ended as `panics` tells, in order.
pub open spec fn calls_made(panics: Seq<bool>) -> nat
    decreases panics.len(),
{
    if panics.len() == 0 {
        0
    } else {
        called_after(calls_made(panics.drop_last()), panics.last())
    }
}

/// A panicking handler keeps no other handler from its turn: whichever of the
/// handlers before it panicked, the handler with number `panics.len()` comes
/// next, and after the last one the run is done.
pub proof fn law_handler_panics_are_isolated(total: nat, panics: Seq<bool>)
    requires
        total <= usize::MAX,
    ensures
        calls_made(panics) == panics.len(),
        handler_step(calls_made(panics), total) == (if panics.len() < total {
            HandlerStep::Invoke(panics.len() as usize)
        } else {
            HandlerStep::Done
        }),
    decreases panics.len(),
{
    if panics.len() > 0 {
        law_handler_panics_are_isolated(total, panics.drop_last());
    }
}

/// Every completion that was queued is processed once and in order, and none is
/// lost: what was processed is the head of what was queued.
pub proof fn law_completions_are_processed_in_order<H>(notifier: NotifierView<H>)
    requires
        notifier.wf(),
    ensures
        notifier.processed.is_prefix_of(notifier.posted),
        notifier.worker == NotifierWorker::Stopped ==> notifier.processed == notifier.posted,
{
    if notifier.worker == NotifierWorker::Stopped {
        assert(notifier.processed + notifier.pending =~= notifier.processed);
    }
}

/// A closed sink stays closed, whatever happens: no handler brings a queue to
/// life, whether there was one before or not, and no worker is started.
pub proof fn law_closed_sink_stays_closed<H>(
    notifier: NotifierView<H>,
    handler: H,
    running: nat,
    message: InternalCompletionMessage,
)
    requires
        notifier.sink == CompletionSink::Closed,
    ensures
        notifier.after_add(handler, running) == (NotifierView {
            handlers: notifier.handlers.push(handler),
            ..notifier
        }),
        notifier.after_capture() == notifier,
        notifier.after_notify(message) == notifier,
        notifier.after_post(message).sink == CompletionSink::Closed,
        notifier.after_close() == notifier,
        notifier.after_action().sink == CompletionSink::Closed,
{
}

/// Without a handler nothing is recorded.
pub proof fn law_no_completions_without_a_handler<H>(
    notifier: NotifierView<H>,
    message: InternalCompletionMessage,
)
    requires
        notifier.wf(),
        notifier.handlers.len() == 0,
    ensures
        !notifier.has_queue(),
        notifier.sink != CompletionSink::Open,
        notifier.posted.len() == 0,
        notifier.pending.len() == 0,
        notifier.after_capture() == notifier,
        notifier.after_notify(message) == notifier,
{
}

/// The status says how the task ended, whatever value it returned.
pub proof fn law_status_tells_the_outcome<R>(outcome: Result<R, PoolError>)
    ensures
        status_of(outcome) == TaskCompletionStatus::Success <==> outcome is Ok,
        status_of(outcome) == TaskCompletionStatus::Cancelled <==> outcome == Err::<R, PoolError>(
            PoolError::TaskCancelled,
        ),
        status_of(outcome) == TaskCompletionStatus::Panicked <==> outcome == Err::<R, PoolError>(
            PoolError::TaskPanicked,
        ),
{
}

/// While the worker runs, a completion that waits is processed with its next
/// action, oldest first, and is delivered if there is any handler, whether or not
/// the worker has taken note of a shutdown. Nothing is processed otherwise.
pub proof fn law_processed_completions_were_delivered<H>(notifier: NotifierView<H>)
    ensures
        ({
            let after = notifier.after_action();
            let running = notifier.worker == NotifierWorker::Running;
            let waiting = notifier.pending.len() > 0;
            &&& running && waiting && notifier.handlers.len() > 0 ==> notifier.action()
                == NotifierAction::Deliver(notifier.pending[0])
            &&& running && waiting && notifier.handlers.len() == 0 ==> notifier.action()
                == NotifierAction::Discard(notifier.pending[0])
            &&& running && waiting ==> after == (NotifierView {
                pending: notifier.pending.drop_first(),
                processed: notifier.processed.push(notifier.pending[0]),
                ..notifier
            })
            &&& !(running && waiting) ==> after.processed == notifier.processed && after.pending
                == notifier.pending && !(notifier.action() is Deliver) && !(
            notifier.action() is Discard)
        }),
{
}

/// A worker with nothing to process ends exactly if nothing can come any more:
/// the pool-wide sender was dropped and no running task holds one. Until then it
/// waits.
pub proof fn law_worker_ends_with_the_last_sender<H>(notifier: NotifierView<H>)
    requires
        notifier.worker == NotifierWorker::Running,
        notifier.pending.len() == 0,
    ensures
        notifier.sink == CompletionSink::Closed && notifier.senders == 0 ==> notifier.action()
            == NotifierAction::Stop && notifier.after_action() == (NotifierView {
            worker: NotifierWorker::Stopped,
            ..notifier
        }),
        !(notifier.sink == CompletionSink::Closed && notifier.senders == 0) ==> notifier.action()
            == NotifierAction::Wait && notifier.after_action() == notifier,
{
}

/// A worker that does not run takes no action.
pub proof fn law_stopped_worker_does_nothing<H>(notifier: NotifierView<H>)
    requires
        notifier.worker != NotifierWorker::Running,
    ensures
        notifier.action() == NotifierAction::Stop,
        notifier.after_action() == notifier,
{
}

/// A handler is added at the end. The first one, unless the sink was closed,
/// brings the queue, its worker and a sender for each of the `running` tasks.
pub proof fn law_handlers_are_kept_in_order<H>(
    notifier: NotifierView<H>,
    handler: H,
    running: nat,
)
    ensures
        notifier.sink == CompletionSink::Unset ==> notifier.after_add(handler, running) == (
        NotifierView {
            handlers: notifier.handlers.push(handler),
            sink: CompletionSink::Open,
            senders: running,
            worker: NotifierWorker::Running,
            joinable: true,
            ..notifier
        }),
        notifier.sink != CompletionSink::Unset ==> notifier.after_add(handler, running) == (
        NotifierView { handlers: notifier.handlers.push(handler), ..notifier }),
{
}

/// A completion goes to the back of the queue. A task that holds a sender can
/// always report; without one that needs an open sink. Senders are given to
/// starting tasks while the sink is open, and each is used once.
pub proof fn law_completions_are_queued<H>(
    notifier: NotifierView<H>,
    message: InternalCompletionMessage,
)
    requires
        notifier.senders > 0,
    ensures
        notifier.has_queue() <==> notifier.worker != NotifierWorker::Idle,
        notifier.after_post(message) == (NotifierView {
            pending: notifier.pending.push(message),
            posted: notifier.posted.push(message),
            senders: (notifier.senders - 1) as nat,
            ..notifier
        }),
        notifier.sink == CompletionSink::Open ==> notifier.after_notify(message) == (NotifierView {
            pending: notifier.pending.push(message),
            posted: notifier.posted.push(message),
            ..notifier
        }) && notifier.after_capture() == (NotifierView {
            senders: notifier.senders + 1,
            ..notifier
        }),
        notifier.sink != CompletionSink::Open ==> notifier.after_notify(message) == notifier
            && notifier.after_capture() == notifier,
        notifier.after_close() == (NotifierView { sink: CompletionSink::Closed, ..notifier }),
{
}

} // verus!
