//! A bounded queue in several lanes.

use vstd::prelude::*;

use crate::active;
use crate::capacity_gate::CapacityGate;
use crate::channel::{ChannelView, FifoChannel, Received};
use crate::error::PoolError;
use crate::sums;
use crate::task_queue::{ManagedTaskInternal, SendOutcome};

verus! {

/// What the lanes hold.
pub type LaneViews<W> = Seq<ChannelView<ManagedTaskInternal<W>>>;

/// The number of tasks that wait in each lane.
pub open spec fn lane_counts<W>(lanes: LaneViews<W>) -> Seq<nat> {
    lanes.map_values(|lane: ChannelView<ManagedTaskInternal<W>>| lane.items.len())
}

/// What a queue in lanes is.
#[verifier::ext_equal]
pub struct LanesView<W> {
    /// The lanes; each is a channel of its own.
    pub lanes: LaneViews<W>,
    /// The number of tasks that may wait, all lanes together.
    pub capacity: nat,
    /// Counts the routed tasks, as a machine word counts.
    pub next_lane: usize,
}

impl<W> LanesView<W> {
    /// The number of tasks that wait, all lanes together.
    pub open spec fn waiting(self) -> nat {
        sums::total(lane_counts(self.lanes))
    }

    /// Every place is taken.
    pub open spec fn is_full(self) -> bool {
        self.waiting() >= self.capacity
    }

    /// Nothing can be queued in any lane.
    pub open spec fn is_closed(self) -> bool {
        forall|l: int| 0 <= l < self.lanes.len() ==> (#[trigger] self.lanes[l]).closed()
    }

    /// The lane that the next task goes to.
    pub open spec fn route(self) -> int {
        self.next_lane as int % self.lanes.len() as int
    }

    /// After a task was routed.
    pub open spec fn after_route(self) -> LanesView<W> {
        LanesView { next_lane: active::counted_up(self.next_lane), ..self }
    }

    /// With `items` in lane `l`.
    pub open spec fn with_items(self, l: int, items: Seq<ManagedTaskInternal<W>>) -> LanesView<W> {
        LanesView {
            lanes: self.lanes.update(l, ChannelView { items, ..self.lanes[l] }),
            ..self
        }
    }

    /// What a waiting submission is told when it tries to take a place.
    ///
    /// A shutdown refuses it, whether or not a place is free. Only where a place
    /// is free and the lane that the task is routed to has lost its dispatcher,
    /// the refusal says that the lane is closed.
    pub open spec fn resume_outcome(self, task: ManagedTaskInternal<W>, shutdown: bool) -> SendOutcome<
        W,
    > {
        if !self.is_full() && self.lanes[self.route()].receiver_closed {
            SendOutcome::Refused(PoolError::QueueSendChannelClosed, task)
        } else if shutdown {
            SendOutcome::Refused(PoolError::PoolShuttingDown, task)
        } else if self.is_full() {
            SendOutcome::Full(task)
        } else if self.lanes[self.route()].sender_closed {
            SendOutcome::Refused(PoolError::QueueSendChannelClosed, task)
        } else {
            SendOutcome::Sent
        }
    }

    /// The queue after a waiting submission tried to take a place. A task that
    /// found a free place was routed, though it may have been refused.
    pub open spec fn after_resume(self, task: ManagedTaskInternal<W>, shutdown: bool) -> LanesView<
        W,
    > {
        if self.is_full() {
            self
        } else if self.resume_outcome(task, shutdown) is Sent {
            self.with_items(
                self.route(),
                self.lanes[self.route()].items.push(task),
            ).after_route()
        } else {
            self.after_route()
        }
    }

    /// What a new submission is told.
    pub open spec fn send_outcome(self, task: ManagedTaskInternal<W>, shutdown: bool) -> SendOutcome<
        W,
    > {
        if shutdown || self.is_closed() {
            SendOutcome::Refused(PoolError::PoolShuttingDown, task)
        } else {
            self.resume_outcome(task, shutdown)
        }
    }

    /// The queue after a new submission.
    pub open spec fn after_send(self, task: ManagedTaskInternal<W>, shutdown: bool) -> LanesView<W> {
        if shutdown || self.is_closed() {
            self
        } else {
            self.after_resume(task, shutdown)
        }
    }

    /// What the dispatcher of lane `l` finds.
    pub open spec fn recv_outcome(self, l: int) -> Received<ManagedTaskInternal<W>> {
        if self.lanes[l].receiver_closed {
            Received::Disconnected
        } else if self.lanes[l].items.len() > 0 {
            Received::Item(self.lanes[l].items[0])
        } else if self.lanes[l].sender_closed {
            Received::Disconnected
        } else {
            Received::Empty
        }
    }

    /// The queue after the dispatcher of lane `l` looked.
    pub open spec fn after_recv(self, l: int) -> LanesView<W> {
        if self.recv_outcome(l) is Item {
            self.with_items(l, self.lanes[l].items.drop_first())
        } else {
            self
        }
    }

    /// The queue once all lanes were closed for sending.
    pub open spec fn after_close(self) -> LanesView<W> {
        LanesView {
            lanes: self.lanes.map_values(
                |lane: ChannelView<ManagedTaskInternal<W>>|
                    ChannelView { sender_closed: true, ..lane },
            ),
            ..self
        }
    }

    /// The queue once the dispatcher of lane `l` is gone.
    pub open spec fn after_abandon(self, l: int) -> LanesView<W> {
        LanesView {
            lanes: self.lanes.update(
                l,
                ChannelView {
                    items: Seq::empty(),
                    receiver_closed: true,
                    ..self.lanes[l]
                },
            ),
            ..self
        }
    }

    /// Changing the items of one lane shifts the number of waiting tasks by the
    /// difference.
    pub proof fn lemma_waiting_update(self, l: int, lane: ChannelView<ManagedTaskInternal<W>>)
        requires
            0 <= l < self.lanes.len(),
        ensures
            (LanesView { lanes: self.lanes.update(l, lane), ..self }).waiting()
                + self.lanes[l].items.len() == self.waiting() + lane.items.len(),
            self.lanes[l].items.len() <= self.waiting(),
    {
        let after = LanesView { lanes: self.lanes.update(l, lane), ..self };
        assert(lane_counts(after.lanes) =~= lane_counts(self.lanes).update(l, lane.items.len()));
        sums::lemma_total_update(lane_counts(self.lanes), l, lane.items.len());
        sums::lemma_total_bounds(lane_counts(self.lanes), l);
    }

    /// Where nothing waits, every lane is empty.
    pub proof fn lemma_waiting_none(self, l: int)
        requires
            0 <= l < self.lanes.len(),
            self.waiting() == 0,
        ensures
            self.lanes[l].items.len() == 0,
    {
        sums::lemma_total_bounds(lane_counts(self.lanes), l);
    }
}

/// A bounded queue of tasks in lanes, one for each dispatcher.
///
/// Submissions go to the lanes in turn. A waiting task holds a permit of a limiter
/// that all lanes share.
pub struct LaneQueue<W> {
    lanes: Vec<FifoChannel<ManagedTaskInternal<W>>>,
    next_lane: usize,
    gate: CapacityGate,
}

impl<W> View for LaneQueue<W> {
    type V = LanesView<W>;

    closed spec fn view(&self) -> LanesView<W> {
        LanesView {
            lanes: self.lanes@.map_values(|lane: FifoChannel<ManagedTaskInternal<W>>| lane@),
            capacity: self.gate.spec_capacity(),
            next_lane: self.next_lane,
        }
    }
}

impl<W> LaneQueue<W> {
    /// Permits are conserved: each one is free or travels with a waiting task.
    pub closed spec fn wf(self) -> bool {
        &&& 0 < self.lanes.len()
        &&& forall|l: int| 0 <= l < self.lanes.len() ==> (#[trigger] self.lanes[l]).wf()
        &&& forall|l: int|
            0 <= l < self.lanes.len() && (#[trigger] self.lanes[l])@.receiver_closed
                ==> self.lanes[l]@.items.len() == 0
        &&& self.gate.wf()
        &&& self.gate.spec_permits() + self@.waiting() == self.gate.spec_capacity()
    }

    /// A queue is never over capacity.
    pub proof fn lemma_bounds(self)
        requires
            self.wf(),
        ensures
            0 < self@.lanes.len() <= usize::MAX,
            self@.waiting() <= self@.capacity <= usize::MAX,
            0 <= self@.route() < self@.lanes.len(),
    {
    }

    /// An empty queue with `count` lanes for `capacity` tasks.
    pub fn new(count: usize, capacity: usize) -> (queue: LaneQueue<W>)
        requires
            count > 0,
        ensures
            queue.wf(),
            queue@.capacity == capacity,
            queue@.next_lane == 0,
            queue@.lanes == Seq::new(
                count as nat,
                |l: int|
                    ChannelView {
                        items: Seq::<ManagedTaskInternal<W>>::empty(),
                        sender_closed: false,
                        receiver_closed: false,
                    },
            ),
            queue@.waiting() == 0,
    {
        let mut lanes: Vec<FifoChannel<ManagedTaskInternal<W>>> = Vec::new();
        let ghost fresh = ChannelView {
            items: Seq::<ManagedTaskInternal<W>>::empty(),
            sender_closed: false,
            receiver_closed: false,
        };
        let mut i: usize = 0;
        while i < count
            invariant
                i <= count,
                lanes.len() == i,
                forall|l: int| 0 <= l < i ==> (#[trigger] lanes[l]).wf() && lanes[l]@ == fresh,
                fresh == (ChannelView {
                    items: Seq::<ManagedTaskInternal<W>>::empty(),
                    sender_closed: false,
                    receiver_closed: false,
                }),
            decreases count - i,
        {
            lanes.push(FifoChannel::new());
            i = i + 1;
        }
        let queue = LaneQueue { lanes, next_lane: 0, gate: CapacityGate::new(capacity) };
        proof {
            assert(queue@.lanes =~= Seq::new(count as nat, |l: int| fresh));
            sums::lemma_total_zeros(lane_counts(queue@.lanes));
        }
        queue
    }

    /// The number of lanes.
    pub fn lane_count(&self) -> (count: usize)
        ensures
            count == self@.lanes.len(),
    {
        self.lanes.len()
    }

    /// Counts a task that is routed and returns its lane.
    pub fn route(&mut self) -> (lane: usize)
        requires
            old(self).wf(),
        ensures
            final(self).wf(),
            lane == old(self)@.route(),
            lane < old(self)@.lanes.len(),
            final(self)@ == old(self)@.after_route(),
    {
        let turn = self.next_lane;
        self.next_lane = turn.wrapping_add(1);
        assert(self@ =~= old(self)@.after_route());
        turn % self.lanes.len()
    }

    /// Queues a new task. `shutdown` tells whether the pool is shutting down.
    pub fn send(&mut self, task: ManagedTaskInternal<W>, shutdown: bool) -> (outcome: SendOutcome<W>)
        requires
            old(self).wf(),
        ensures
            final(self).wf(),
            outcome == old(self)@.send_outcome(task, shutdown),
            final(self)@ == old(self)@.after_send(task, shutdown),
    {
        if shutdown || self.is_closed() {
            return SendOutcome::Refused(PoolError::PoolShuttingDown, task);
        }
        self.resume_send(task, shutdown)
    }

    /// Queues a task that was told before that the queue is full. A permit taken
    /// for a task that is then refused is given back.
    pub fn resume_send(&mut self, task: ManagedTaskInternal<W>, shutdown: bool) -> (outcome: SendOutcome<
        W,
    >)
        requires
            old(self).wf(),
        ensures
            final(self).wf(),
            outcome == old(self)@.resume_outcome(task, shutdown),
            final(self)@ == old(self)@.after_resume(task, shutdown),
    {
        if !self.gate.try_acquire() {
            if shutdown {
                return SendOutcome::Refused(PoolError::PoolShuttingDown, task);
            }
            return SendOutcome::Full(task);
        }
        let turn = self.next_lane;
        self.next_lane = turn.wrapping_add(1);
        let lane = turn % self.lanes.len();
        if shutdown && !self.lanes[lane].is_abandoned() {
            self.gate.release();
            assert(self@ =~= old(self)@.after_resume(task, shutdown));
            return SendOutcome::Refused(PoolError::PoolShuttingDown, task);
        }
        let ghost before = self.lanes@;
        proof {
            old(self)@.lemma_waiting_update(
                lane as int,
                ChannelView {
                    items: before[lane as int]@.items.push(task),
                    ..before[lane as int]@
                },
            );
        }
        match self.lanes[lane].send(task) {
            Ok(()) => {
                assert(self@ =~= old(self)@.after_resume(task, shutdown));
                SendOutcome::Sent
            },
            Err(task) => {
                self.gate.release();
                assert(self@ =~= old(self)@.after_resume(task, shutdown));
                SendOutcome::Refused(PoolError::QueueSendChannelClosed, task)
            },
        }
    }

    /// Takes the oldest task out of lane `lane` and frees its place.
    pub fn recv(&mut self, lane: usize) -> (received: Received<ManagedTaskInternal<W>>)
        requires
            old(self).wf(),
            lane < old(self)@.lanes.len(),
        ensures
            final(self).wf(),
            received == old(self)@.recv_outcome(lane as int),
            final(self)@ == old(self)@.after_recv(lane as int),
    {
        proof {
            let now = old(self)@.lanes[lane as int];
            old(self)@.lemma_waiting_update(
                lane as int,
                ChannelView { items: now.items.drop_first(), ..now },
            );
        }
        match self.lanes[lane].recv() {
            Received::Item(task) => {
                assert(self@ =~= old(self)@.after_recv(lane as int));
                self.gate.release();
                assert(self@ =~= old(self)@.after_recv(lane as int));
                Received::Item(task)
            },
            Received::Empty => {
                assert(self@ =~= old(self)@);
                Received::Empty
            },
            Received::Disconnected => {
                assert(self@ =~= old(self)@);
                Received::Disconnected
            },
        }
    }

    /// Closes all lanes for sending. Waiting tasks can still be received.
    pub fn close(&mut self)
        requires
            old(self).wf(),
        ensures
            final(self).wf(),
            final(self)@ == old(self)@.after_close(),
    {
        let mut i: usize = 0;
        while i < self.lanes.len()
            invariant
                i <= self.lanes.len(),
                self.lanes.len() == old(self).lanes.len(),
                self.gate == old(self).gate,
                self.next_lane == old(self).next_lane,
                forall|l: int| 0 <= l < self.lanes.len() ==> (#[trigger] self.lanes[l]).wf(),
                forall|l: int|
                    0 <= l < self.lanes.len() ==> (#[trigger] self.lanes[l])@ == (if l < i {
                        ChannelView { sender_closed: true, ..old(self).lanes[l]@ }
                    } else {
                        old(self).lanes[l]@
                    }),
            decreases self.lanes.len() - i,
        {
            self.lanes[i].close();
            i = i + 1;
        }
        assert(self@ =~= old(self)@.after_close());
        assert(lane_counts(self@.lanes) =~= lane_counts(old(self)@.lanes));
    }

    /// Gives up lane `lane` and returns the tasks in it, which will never start,
    /// oldest first.
    pub fn abandon(&mut self, lane: usize) -> (dropped: Vec<ManagedTaskInternal<W>>)
        requires
            old(self).wf(),
            lane < old(self)@.lanes.len(),
        ensures
            final(self).wf(),
            dropped@ == old(self)@.lanes[lane as int].items,
            final(self)@ == old(self)@.after_abandon(lane as int),
    {
        proof {
            let now = old(self)@.lanes[lane as int];
            old(self)@.lemma_waiting_update(
                lane as int,
                ChannelView {
                    items: Seq::<ManagedTaskInternal<W>>::empty(),
                    receiver_closed: true,
                    ..now
                },
            );
        }
        let dropped = self.lanes[lane].abandon();
        proof {
            assert(dropped@ =~= old(self)@.lanes[lane as int].items);
            assert(self.lanes[lane as int]@.items =~= Seq::<ManagedTaskInternal<W>>::empty());
            assert(self@ =~= old(self)@.after_abandon(lane as int));
        }
        let mut i: usize = 0;
        while i < dropped.len()
            invariant
                i <= dropped.len(),
                self.gate.wf(),
                0 < self.lanes.len(),
                forall|l: int| 0 <= l < self.lanes.len() ==> (#[trigger] self.lanes[l]).wf(),
                forall|l: int|
                    0 <= l < self.lanes.len() && (#[trigger] self.lanes[l])@.receiver_closed
                        ==> self.lanes[l]@.items.len() == 0,
                self.gate.spec_permits() + self@.waiting() + dropped.len() - i
                    == self.gate.spec_capacity(),
                self@ == old(self)@.after_abandon(lane as int),
            decreases dropped.len() - i,
        {
            self.gate.release();
            assert(self@ =~= old(self)@.after_abandon(lane as int));
            i = i + 1;
        }
        dropped
    }

    /// Tells whether nothing can be queued in any lane.
    pub fn is_closed(&self) -> (closed: bool)
        requires
            self.wf(),
        ensures
            closed == self@.is_closed(),
    {
        let mut i: usize = 0;
        while i < self.lanes.len()
            invariant
                i <= self.lanes.len(),
                self.wf(),
                forall|l: int| 0 <= l < i ==> (#[trigger] self@.lanes[l]).closed(),
            decreases self.lanes.len() - i,
        {
            if !self.lanes[i].is_closed() {
                assert(!self@.lanes[i as int].closed());
                return false;
            }
            assert(self@.lanes[i as int].closed());
            i = i + 1;
        }
        true
    }

    /// The number of waiting tasks, all lanes together.
    pub fn len(&self) -> (count: usize)
        requires
            self.wf(),
        ensures
            count == self@.waiting(),
    {
        let ghost counts = lane_counts(self@.lanes);
        let mut count: usize = 0;
        let mut i: usize = 0;
        assert(counts.take(0) =~= Seq::<nat>::empty());
        while i < self.lanes.len()
            invariant
                i <= self.lanes.len(),
                self.wf(),
                counts == lane_counts(self@.lanes),
                count == sums::total(counts.take(i as int)),
            decreases self.lanes.len() - i,
        {
            proof {
                sums::lemma_total_prefix(counts, i as int);
                sums::lemma_total_prefix(counts, i + 1);
                assert(counts[i as int] == self.lanes[i as int]@.items.len());
            }
            count = count + self.lanes[i].len();
            i = i + 1;
        }
        assert(counts.take(i as int) =~= counts);
        count
    }
}

/// The lanes take their turns: each task that is routed goes to the lane after the
/// last one, and after the last lane comes the first.
pub proof fn law_lanes_take_turns<W>(queue: LanesView<W>)
    requires
        queue.lanes.len() > 0,
        queue.next_lane < usize::MAX,
    ensures
        0 <= queue.route() < queue.lanes.len(),
        queue.after_route() == (LanesView { next_lane: (queue.next_lane + 1) as usize, ..queue }),
        queue.route() + 1 < queue.lanes.len() ==> queue.after_route().route() == queue.route() + 1,
        queue.route() + 1 == queue.lanes.len() ==> queue.after_route().route() == 0,
{
    let turn = queue.next_lane as int;
    let count = queue.lanes.len() as int;
    let lane = queue.route();
    vstd::arithmetic::div_mod::lemma_fundamental_div_mod(turn, count);
    if lane + 1 < count {
        vstd::arithmetic::div_mod::lemma_fundamental_div_mod_converse(
            turn + 1,
            count,
            turn / count,
            lane + 1,
        );
    } else {
        assert(count * (turn / count) + count == count * (turn / count + 1)) by (nonlinear_arith);
        vstd::arithmetic::div_mod::lemma_fundamental_div_mod_converse(
            turn + 1,
            count,
            turn / count + 1,
            0,
        );
    }
}

/// Nothing but a shutdown and a closed lane refuses a task. Otherwise it goes to the
/// back of the lane whose turn it is if a place is free, and no other lane changes;
/// without a free place nothing changes.
pub proof fn law_lanes_take_what_fits<W>(
    queue: LanesView<W>,
    task: ManagedTaskInternal<W>,
    shutdown: bool,
)
    requires
        queue.lanes.len() > 0,
    ensures
        ({
            let l = queue.next_lane as int % queue.lanes.len() as int;
            let lane = queue.lanes[l];
            let room = queue.waiting() < queue.capacity;
            let shut = forall|k: int|
                0 <= k < queue.lanes.len() ==> (#[trigger] queue.lanes[k]).sender_closed
                    || queue.lanes[k].receiver_closed;
            let turned = LanesView { next_lane: active::counted_up(queue.next_lane), ..queue };
            let with_task = LanesView {
                lanes: queue.lanes.update(
                    l,
                    ChannelView { items: lane.items.push(task), ..lane },
                ),
                ..turned
            };
            &&& queue.route() == l
            &&& queue.is_full() == !room
            &&& queue.is_closed() == shut
            &&& shutdown || shut ==> queue.send_outcome(task, shutdown) == SendOutcome::Refused(
                PoolError::PoolShuttingDown,
                task,
            ) && queue.after_send(task, shutdown) == queue
            &&& !shutdown && !shut ==> queue.send_outcome(task, shutdown) == queue.resume_outcome(
                task,
                shutdown,
            ) && queue.after_send(task, shutdown) == queue.after_resume(task, shutdown)
            &&& !room ==> queue.after_resume(task, shutdown) == queue && queue.resume_outcome(
                task,
                shutdown,
            ) == (if shutdown {
                SendOutcome::Refused(PoolError::PoolShuttingDown, task)
            } else {
                SendOutcome::Full(task)
            })
            &&& room && lane.receiver_closed ==> queue.resume_outcome(task, shutdown)
                == SendOutcome::Refused(PoolError::QueueSendChannelClosed, task)
            &&& room && !lane.receiver_closed && shutdown ==> queue.resume_outcome(task, shutdown)
                == SendOutcome::Refused(PoolError::PoolShuttingDown, task)
            &&& room && !lane.receiver_closed && !shutdown && lane.sender_closed
                ==> queue.resume_outcome(task, shutdown) == SendOutcome::Refused(
                PoolError::QueueSendChannelClosed,
                task,
            )
            &&& room && !lane.receiver_closed && !shutdown && !lane.sender_closed
                ==> queue.resume_outcome(task, shutdown) == SendOutcome::<W>::Sent
                && queue.after_resume(task, shutdown) == with_task
            &&& room && (lane.receiver_closed || shutdown || lane.sender_closed)
                ==> queue.after_resume(task, shutdown) == turned
        }),
{
}

/// A dispatcher receives the oldest task of its own lane, also after the lane was
/// closed for sending, and no other lane changes.
pub proof fn law_lane_gives_its_oldest<W>(queue: LanesView<W>, l: int)
    requires
        0 <= l < queue.lanes.len(),
    ensures
        ({
            let lane = queue.lanes[l];
            let there = !lane.receiver_closed && lane.items.len() > 0;
            let over = lane.receiver_closed || (lane.items.len() == 0 && lane.sender_closed);
            &&& there ==> queue.recv_outcome(l) == Received::Item(lane.items[0])
                && queue.after_recv(l) == (LanesView {
                lanes: queue.lanes.update(
                    l,
                    ChannelView { items: lane.items.drop_first(), ..lane },
                ),
                ..queue
            })
            &&& over ==> queue.recv_outcome(l)
                == Received::<ManagedTaskInternal<W>>::Disconnected
            &&& !there && !over ==> queue.recv_outcome(l)
                == Received::<ManagedTaskInternal<W>>::Empty
            &&& !there ==> queue.after_recv(l) == queue
        }),
{
}

/// Closing the lanes for sending keeps what is in them; giving one up empties that
/// one and no other.
pub proof fn law_closing_keeps_the_tasks<W>(queue: LanesView<W>, l: int, k: int)
    requires
        0 <= l < queue.lanes.len(),
        0 <= k < queue.lanes.len(),
    ensures
        queue.after_close().lanes.len() == queue.lanes.len(),
        queue.after_close().lanes[l] == (ChannelView { sender_closed: true, ..queue.lanes[l] }),
        queue.after_close().capacity == queue.capacity,
        queue.after_close().next_lane == queue.next_lane,
        queue.after_abandon(l).lanes.len() == queue.lanes.len(),
        queue.after_abandon(l).lanes[l].items.len() == 0,
        queue.after_abandon(l).lanes[l].receiver_closed,
        queue.after_abandon(l).lanes[l].sender_closed == queue.lanes[l].sender_closed,
        k != l ==> queue.after_abandon(l).lanes[k] == queue.lanes[k],
        queue.after_abandon(l).capacity == queue.capacity,
        queue.after_abandon(l).next_lane == queue.next_lane,
{
}

} // verus!
