//! The bounded queue between submission and dispatch.

use std::sync::Arc;
use vstd::prelude::*;

use crate::capacity_gate::CapacityGate;
use crate::channel;
use crate::channel::{FifoChannel, Received};
use crate::error::PoolError;
use crate::task::TaskCore;

verus! {

/// A task on its way through the pool: its control block and the work itself,
/// which the pool carries without looking inside.
#[derive(Debug)]
pub struct ManagedTaskInternal<W> {
    /// Number and labels.
    pub core: Arc<TaskCore>,
    /// The future together with the place its result goes to.
    pub work: W,
}

/// What a task queue is.
#[verifier::ext_equal]
pub struct QueueView<W> {
    /// The waiting tasks, oldest first.
    pub tasks: Seq<ManagedTaskInternal<W>>,
    /// The number of tasks that may wait.
    pub capacity: nat,
    /// The sending side was closed.
    pub closed: bool,
    /// The receiving side is gone.
    pub abandoned: bool,
}

/// What became of an attempt to queue a task.
pub enum SendOutcome<W> {
    /// The task waits in the queue.
    Sent,
    /// All places are taken; the task has to wait outside.
    Full(ManagedTaskInternal<W>),
    /// The task is refused.
    Refused(PoolError, ManagedTaskInternal<W>),
}

impl<W> QueueView<W> {
    /// Nothing can be queued any more.
    pub open spec fn is_closed(self) -> bool {
        self.closed || self.abandoned
    }

    /// Every place is taken.
    pub open spec fn is_full(self) -> bool {
        self.tasks.len() >= self.capacity
    }

    /// What a waiting submission is told when it tries to take a place.
    ///
    /// A shutdown comes first, then a missing place, then a closed queue.
    pub open spec fn resume_outcome(self, task: ManagedTaskInternal<W>, shutdown: bool) -> SendOutcome<
        W,
    > {
        if shutdown {
            SendOutcome::Refused(PoolError::PoolShuttingDown, task)
        } else if self.is_full() {
            SendOutcome::Full(task)
        } else if self.is_closed() {
            SendOutcome::Refused(PoolError::QueueSendChannelClosed, task)
        } else {
            SendOutcome::Sent
        }
    }

    /// What a new submission is told.
    pub open spec fn send_outcome(self, task: ManagedTaskInternal<W>, shutdown: bool) -> SendOutcome<
        W,
    > {
        if shutdown || self.is_closed() {
            SendOutcome::Refused(PoolError::PoolShuttingDown, task)
        } else {
            self.resume_outcome(task, shutdown)
        }
    }

    /// The queue after an attempt that had `outcome`.
    pub open spec fn after_send(self, task: ManagedTaskInternal<W>, outcome: SendOutcome<W>) -> QueueView<
        W,
    > {
        if outcome is Sent {
            QueueView { tasks: self.tasks.push(task), ..self }
        } else {
            self
        }
    }

    /// What a receiver finds.
    pub open spec fn recv_outcome(self) -> Received<ManagedTaskInternal<W>> {
        if self.abandoned {
            Received::Disconnected
        } else if self.tasks.len() > 0 {
            Received::Item(self.tasks[0])
        } else if self.closed {
            Received::Disconnected
        } else {
            Received::Empty
        }
    }

    /// The queue after a receiver looked.
    pub open spec fn after_recv(self) -> QueueView<W> {
        if self.recv_outcome() is Item {
            QueueView { tasks: self.tasks.drop_first(), ..self }
        } else {
            self
        }
    }
}

/// A bounded queue of tasks.
///
/// A waiting task holds a permit, which is given back when the task leaves the
/// queue, so the number of free permits is the number of free places.
pub struct TaskQueue<W> {
    channel: FifoChannel<ManagedTaskInternal<W>>,
    gate: CapacityGate,
}

impl<W> View for TaskQueue<W> {
    type V = QueueView<W>;

    closed spec fn view(&self) -> QueueView<W> {
        QueueView {
            tasks: self.channel@.items,
            capacity: self.gate.spec_capacity(),
            closed: self.channel@.sender_closed,
            abandoned: self.channel@.receiver_closed,
        }
    }
}

impl<W> TaskQueue<W> {
    /// Permits are conserved: each one is free or travels with a waiting task.
    pub closed spec fn wf(self) -> bool {
        &&& self.channel.wf()
        &&& self.gate.wf()
        &&& self.gate.spec_permits() + self.channel@.items.len() == self.gate.spec_capacity()
        &&& self.channel@.receiver_closed ==> self.channel@.items.len() == 0
    }

    /// An empty queue for `capacity` tasks.
    pub fn new(capacity: usize) -> (queue: TaskQueue<W>)
        ensures
            queue.wf(),
            queue@ == (QueueView {
                tasks: Seq::<ManagedTaskInternal<W>>::empty(),
                capacity: capacity as nat,
                closed: false,
                abandoned: false,
            }),
    {
        TaskQueue { channel: FifoChannel::new(), gate: CapacityGate::new(capacity) }
    }

    /// A queue is never over capacity, and an abandoned one is empty.
    pub proof fn lemma_bounds(self)
        requires
            self.wf(),
        ensures
            self@.tasks.len() <= self@.capacity <= usize::MAX,
            self@.abandoned ==> self@.tasks.len() == 0,
    {
    }

    /// Queues a new task. `shutdown` tells whether the pool is shutting down.
    pub fn send(&mut self, task: ManagedTaskInternal<W>, shutdown: bool) -> (outcome: SendOutcome<W>)
        requires
            old(self).wf(),
        ensures
            final(self).wf(),
            outcome == old(self)@.send_outcome(task, shutdown),
            final(self)@ == old(self)@.after_send(task, outcome),
    {
        if shutdown || self.channel.is_closed() {
            return SendOutcome::Refused(PoolError::PoolShuttingDown, task);
        }
        self.resume_send(task, shutdown)
    }

    /// Queues a task that was told before that the queue is full. A permit taken
    /// for a task that the closed queue then refuses is given back.
    pub fn resume_send(&mut self, task: ManagedTaskInternal<W>, shutdown: bool) -> (outcome: SendOutcome<
        W,
    >)
        requires
            old(self).wf(),
        ensures
            final(self).wf(),
            outcome == old(self)@.resume_outcome(task, shutdown),
            final(self)@ == old(self)@.after_send(task, outcome),
    {
        if shutdown {
            return SendOutcome::Refused(PoolError::PoolShuttingDown, task);
        }
        if !self.gate.try_acquire() {
            return SendOutcome::Full(task);
        }
        match self.channel.send(task) {
            Ok(()) => SendOutcome::Sent,
            Err(task) => {
                self.gate.release();
                SendOutcome::Refused(PoolError::QueueSendChannelClosed, task)
            },
        }
    }

    /// Takes the oldest task and frees its place.
    pub fn recv(&mut self) -> (received: Received<ManagedTaskInternal<W>>)
        requires
            old(self).wf(),
        ensures
            final(self).wf(),
            received == old(self)@.recv_outcome(),
            final(self)@ == old(self)@.after_recv(),
    {
        let received = self.channel.recv();
        match received {
            Received::Item(task) => {
                self.gate.release();
                Received::Item(task)
            },
            Received::Empty => Received::Empty,
            Received::Disconnected => Received::Disconnected,
        }
    }

    /// Closes the sending side. Waiting tasks can still be received.
    pub fn close(&mut self)
        requires
            old(self).wf(),
        ensures
            final(self).wf(),
            final(self)@ == (QueueView { closed: true, ..old(self)@ }),
    {
        self.channel.close();
    }

    /// Gives up the receiving side and returns the tasks that will never start,
    /// oldest first.
    pub fn abandon(&mut self) -> (dropped: Vec<ManagedTaskInternal<W>>)
        requires
            old(self).wf(),
        ensures
            final(self).wf(),
            dropped@ == old(self)@.tasks,
            final(self)@ == (QueueView {
                tasks: Seq::<ManagedTaskInternal<W>>::empty(),
                abandoned: true,
                ..old(self)@
            }),
    {
        let dropped = self.channel.abandon();
        assert(dropped@ =~= old(self)@.tasks);
        assert(self.channel@.items =~= Seq::<ManagedTaskInternal<W>>::empty());
        let mut i: usize = 0;
        while i < dropped.len()
            invariant
                i <= dropped.len(),
                self.channel.wf(),
                self.gate.wf(),
                self.channel@.items.len() == 0,
                self.channel@ == (channel::ChannelView {
                    items: Seq::<ManagedTaskInternal<W>>::empty(),
                    receiver_closed: true,
                    sender_closed: old(self)@.closed,
                }),
                self.gate.spec_capacity() == old(self)@.capacity,
                self.gate.spec_permits() + dropped.len() - i == self.gate.spec_capacity(),
            decreases dropped.len() - i,
        {
            self.gate.release();
            i = i + 1;
        }
        dropped
    }

    /// Tells whether nothing can be queued any more.
    pub fn is_closed(&self) -> (closed: bool)
        requires
            self.wf(),
        ensures
            closed == self@.is_closed(),
    {
        self.channel.is_closed()
    }

    /// The number of waiting tasks.
    pub fn len(&self) -> (count: usize)
        requires
            self.wf(),
        ensures
            count == self@.tasks.len(),
    {
        self.channel.len()
    }

    /// The number of free places.
    pub fn get_permits(&self) -> (permits: usize)
        requires
            self.wf(),
        ensures
            permits == self@.capacity - self@.tasks.len(),
    {
        self.gate.get_permits()
    }
}

/// Nothing but a shutdown and a closed queue refuses a task. Otherwise it gets the
/// last place in the queue if one is free, and is told that the queue is full if
/// not.
pub proof fn law_queue_takes_what_fits<W>(
    queue: QueueView<W>,
    task: ManagedTaskInternal<W>,
    shutdown: bool,
)
    ensures
        ({
            let open = !queue.closed && !queue.abandoned;
            let room = queue.tasks.len() < queue.capacity;
            let sent = queue.after_send(task, SendOutcome::Sent);
            &&& queue.is_closed() == !open
            &&& queue.is_full() == !room
            &&& shutdown || !open ==> queue.send_outcome(task, shutdown) == SendOutcome::Refused(
                PoolError::PoolShuttingDown,
                task,
            )
            &&& !shutdown && open && room ==> queue.send_outcome(task, shutdown)
                == SendOutcome::<W>::Sent
            &&& !shutdown && open && !room ==> queue.send_outcome(task, shutdown)
                == SendOutcome::Full(task)
            &&& shutdown ==> queue.resume_outcome(task, shutdown) == SendOutcome::Refused(
                PoolError::PoolShuttingDown,
                task,
            )
            &&& !shutdown && !room ==> queue.resume_outcome(task, shutdown) == SendOutcome::Full(
                task,
            )
            &&& !shutdown && room && open ==> queue.resume_outcome(task, shutdown)
                == SendOutcome::<W>::Sent
            &&& !shutdown && room && !open ==> queue.resume_outcome(task, shutdown)
                == SendOutcome::Refused(PoolError::QueueSendChannelClosed, task)
            &&& sent == (QueueView { tasks: queue.tasks.push(task), ..queue })
            &&& queue.after_send(task, SendOutcome::Full(task)) == queue
            &&& queue.after_send(task, SendOutcome::Refused(PoolError::PoolShuttingDown, task))
                == queue
            &&& queue.after_send(
                task,
                SendOutcome::Refused(PoolError::QueueSendChannelClosed, task),
            ) == queue
        }),
{
}

/// The oldest task is received first, also after the sending side was closed. An
/// empty queue is disconnected exactly if nothing can come any more.
pub proof fn law_queue_gives_the_oldest<W>(queue: QueueView<W>)
    ensures
        !queue.abandoned && queue.tasks.len() > 0 ==> queue.recv_outcome() == Received::Item(
            queue.tasks[0],
        ) && queue.after_recv() == (QueueView { tasks: queue.tasks.drop_first(), ..queue }),
        !queue.abandoned && queue.tasks.len() == 0 && !queue.closed ==> queue.recv_outcome()
            == Received::<ManagedTaskInternal<W>>::Empty && queue.after_recv() == queue,
        queue.abandoned || (queue.tasks.len() == 0 && queue.closed) ==> queue.recv_outcome()
            == Received::<ManagedTaskInternal<W>>::Disconnected && queue.after_recv() == queue,
{
}

} // verus!
