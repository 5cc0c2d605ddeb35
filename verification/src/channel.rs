//! A closable first-in, first-out channel for values of any type.
//!
//! Order and closing come from a channel of the `fibre` crate, both ends of
//! which stay together here. That channel carries slot numbers; the values wait
//! in the slots.

use fibre::mpsc::{TryRecvError, UnboundedAsyncReceiver, UnboundedAsyncSender};
use vstd::prelude::*;

use crate::slots;
use crate::slots::SlotArray;

verus! {

/// `fibre::mpsc::UnboundedAsyncSender`, the sending end of an unbounded channel.
#[verifier::external_type_specification]
#[verifier::external_body]
#[verifier::reject_recursive_types(T)]
pub struct ExUnboundedAsyncSender<T: Send>(UnboundedAsyncSender<T>);

/// `fibre::mpsc::UnboundedAsyncReceiver`, the receiving end of an unbounded channel.
#[verifier::external_type_specification]
#[verifier::external_body]
#[verifier::reject_recursive_types(T)]
pub struct ExUnboundedAsyncReceiver<T: Send>(UnboundedAsyncReceiver<T>);

/// The slot numbers that were sent and not received yet, oldest first.
pub uninterp spec fn link_items(rx: UnboundedAsyncReceiver<usize>) -> Seq<usize>;

/// The sending end was closed.
pub uninterp spec fn link_sender_closed(tx: UnboundedAsyncSender<usize>) -> bool;

/// The receiving end was closed.
pub uninterp spec fn link_receiver_closed(rx: UnboundedAsyncReceiver<usize>) -> bool;

/// `tx` and `rx` are the two ends of one channel, which has no other end.
pub uninterp spec fn link_paired(
    tx: UnboundedAsyncSender<usize>,
    rx: UnboundedAsyncReceiver<usize>,
) -> bool;

/// Both ends of a channel of slot numbers.
struct SlotLink {
    tx: UnboundedAsyncSender<usize>,
    rx: UnboundedAsyncReceiver<usize>,
}

/// What an attempt to receive a slot number found.
enum LinkReceived {
    Slot(usize),
    Empty,
    Disconnected,
}

impl SlotLink {
    /// Calls `fibre::mpsc::unbounded_async`: a new channel, empty and open at
    /// both ends.
    #[verifier::external_body]
    fn open() -> (link: SlotLink)
        ensures
            link_paired(link.tx, link.rx),
            link_items(link.rx) == Seq::<usize>::empty(),
            !link_sender_closed(link.tx),
            !link_receiver_closed(link.rx),
    {
        let (tx, rx) = fibre::mpsc::unbounded_async::<usize>();
        SlotLink { tx, rx }
    }

    /// Calls `UnboundedAsyncSender::try_send`: the number goes to the back,
    /// unless one of the ends is closed.
    #[verifier::external_body]
    fn try_send(&mut self, slot: usize) -> (sent: bool)
        requires
            link_paired(old(self).tx, old(self).rx),
        ensures
            link_paired(final(self).tx, final(self).rx),
            sent == (!link_sender_closed(old(self).tx) && !link_receiver_closed(old(self).rx)),
            link_items(final(self).rx) == (if sent {
                link_items(old(self).rx).push(slot)
            } else {
                link_items(old(self).rx)
            }),
            link_sender_closed(final(self).tx) == link_sender_closed(old(self).tx),
            link_receiver_closed(final(self).rx) == link_receiver_closed(old(self).rx),
    {
        self.tx.try_send(slot).is_ok()
    }

    /// Calls `UnboundedAsyncReceiver::try_recv`: takes the number at the front.
    /// Without one, the channel is disconnected if its only sending end is
    /// closed, and empty otherwise. A closed receiving end is disconnected.
    #[verifier::external_body]
    fn try_recv(&mut self) -> (received: LinkReceived)
        requires
            link_paired(old(self).tx, old(self).rx),
        ensures
            link_paired(final(self).tx, final(self).rx),
            received == (if link_receiver_closed(old(self).rx) {
                LinkReceived::Disconnected
            } else if link_items(old(self).rx).len() > 0 {
                LinkReceived::Slot(link_items(old(self).rx)[0])
            } else if link_sender_closed(old(self).tx) {
                LinkReceived::Disconnected
            } else {
                LinkReceived::Empty
            }),
            link_items(final(self).rx) == (if received is Slot {
                link_items(old(self).rx).drop_first()
            } else {
                link_items(old(self).rx)
            }),
            link_sender_closed(final(self).tx) == link_sender_closed(old(self).tx),
            link_receiver_closed(final(self).rx) == link_receiver_closed(old(self).rx),
    {
        match self.rx.try_recv() {
            Ok(slot) => LinkReceived::Slot(slot),
            Err(TryRecvError::Empty) => LinkReceived::Empty,
            Err(TryRecvError::Disconnected) => LinkReceived::Disconnected,
        }
    }

    /// Calls `UnboundedAsyncSender::close`: the sending end is closed, what was
    /// sent stays. Closing it again changes nothing.
    #[verifier::external_body]
    fn close_sender(&mut self)
        requires
            link_paired(old(self).tx, old(self).rx),
        ensures
            link_paired(final(self).tx, final(self).rx),
            link_sender_closed(final(self).tx),
            link_items(final(self).rx) == link_items(old(self).rx),
            link_receiver_closed(final(self).rx) == link_receiver_closed(old(self).rx),
    {
        let _ = self.tx.close();
    }

    /// Calls `UnboundedAsyncReceiver::close`: the receiving end is closed and
    /// what was sent is discarded. Closing it again changes nothing.
    #[verifier::external_body]
    fn close_receiver(&mut self)
        requires
            link_paired(old(self).tx, old(self).rx),
        ensures
            link_paired(final(self).tx, final(self).rx),
            link_receiver_closed(final(self).rx),
            link_items(final(self).rx) == (if link_receiver_closed(old(self).rx) {
                link_items(old(self).rx)
            } else {
                Seq::<usize>::empty()
            }),
            link_sender_closed(final(self).tx) == link_sender_closed(old(self).tx),
    {
        let _ = self.rx.close();
    }

    /// Calls `UnboundedAsyncSender::is_closed`: tells whether one of the ends is
    /// closed.
    #[verifier::external_body]
    fn is_closed(&self) -> (closed: bool)
        requires
            link_paired(self.tx, self.rx),
        ensures
            closed == (link_sender_closed(self.tx) || link_receiver_closed(self.rx)),
    {
        self.tx.is_closed()
    }
}

/// What a channel is.
#[verifier::ext_equal]
pub struct ChannelView<T> {
    /// The values that were sent and not received yet, oldest first.
    pub items: Seq<T>,
    /// The sending end was closed.
    pub sender_closed: bool,
    /// The receiving end was closed.
    pub receiver_closed: bool,
}

impl<T> ChannelView<T> {
    /// Nothing can be sent any more.
    pub open spec fn closed(self) -> bool {
        self.sender_closed || self.receiver_closed
    }
}

/// What an attempt to receive a value found.
pub enum Received<T> {
    /// The oldest value.
    Item(T),
    /// Nothing was there, but more can come.
    Empty,
    /// Nothing is there and nothing can come any more.
    Disconnected,
}

/// A closable first-in, first-out channel.
pub struct FifoChannel<T> {
    link: SlotLink,
    parked: SlotArray<T>,
    abandoned: bool,
}

/// The values in the slots that `order` lists.
pub open spec fn parked_items<T>(order: Seq<usize>, entries: Seq<Option<T>>) -> Seq<T> {
    order.map_values(|slot: usize| entries[slot as int]->0)
}

/// `order` lists every full slot once and no other.
pub open spec fn parked_wf<T>(order: Seq<usize>, entries: Seq<Option<T>>) -> bool {
    &&& order.no_duplicates()
    &&& forall|k: int|
        #![trigger order[k]]
        0 <= k < order.len() ==> slots::occupied(entries, order[k] as int)
    &&& forall|s: int|
        #![trigger entries[s]]
        slots::occupied(entries, s) ==> order.contains(s as usize)
}

impl<T> View for FifoChannel<T> {
    type V = ChannelView<T>;

    closed spec fn view(&self) -> ChannelView<T> {
        ChannelView {
            items: parked_items(link_items(self.link.rx), self.parked.entries()),
            sender_closed: link_sender_closed(self.link.tx),
            receiver_closed: link_receiver_closed(self.link.rx),
        }
    }
}

impl<T> FifoChannel<T> {
    /// Every value in transit waits in a slot of its own, and it is known whether
    /// the receiving end was closed.
    pub closed spec fn wf(self) -> bool {
        &&& link_paired(self.link.tx, self.link.rx)
        &&& self.abandoned == link_receiver_closed(self.link.rx)
        &&& self.parked.wf()
        &&& parked_wf(link_items(self.link.rx), self.parked.entries())
    }

    /// An empty channel, open at both ends.
    pub fn new() -> (channel: FifoChannel<T>)
        ensures
            channel.wf(),
            channel@ == (ChannelView {
                items: Seq::<T>::empty(),
                sender_closed: false,
                receiver_closed: false,
            }),
    {
        let channel: FifoChannel<T> = FifoChannel {
            link: SlotLink::open(),
            parked: SlotArray::with_capacity(0),
            abandoned: false,
        };
        assert(channel@.items =~= Seq::<T>::empty());
        channel
    }

    /// Sends `item`, or gives it back where the channel is closed.
    pub fn send(&mut self, item: T) -> (sent: Result<(), T>)
        requires
            old(self).wf(),
        ensures
            final(self).wf(),
            sent == (if old(self)@.closed() {
                Err::<(), T>(item)
            } else {
                Ok::<(), T>(())
            }),
            final(self)@ == (if old(self)@.closed() {
                old(self)@
            } else {
                ChannelView { items: old(self)@.items.push(item), ..old(self)@ }
            }),
    {
        let ghost order = link_items(self.link.rx);
        let ghost before = self.parked.entries();
        let ghost free = self.parked.free_list();
        let slot = self.parked.insert(item);
        let ghost stored = self.parked.entries();
        proof {
            assert forall|k: int| 0 <= k < order.len() implies stored[#[trigger] order[k] as int]
                == before[order[k] as int] && order[k] != slot by {
                assert(slots::occupied(before, order[k] as int));
            }
            assert(parked_items(order, stored) =~= parked_items(order, before));
        }
        if self.link.try_send(slot) {
            proof {
                let next = order.push(slot);
                assert forall|s: int| #![trigger stored[s]]
                    slots::occupied(stored, s) implies next.contains(s as usize) by {
                    if s == slot {
                        assert(next[order.len() as int] == slot);
                    } else {
                        assert(slots::occupied(before, s)) by {
                            assert(before[s] == stored[s]);
                        }
                        let k = choose|k: int| 0 <= k < order.len() && order[k] == s as usize;
                        assert(next[k] == s as usize);
                    }
                }
                assert(self@.items =~= parked_items(order, before).push(item));
                assert(self@ =~= (ChannelView {
                    items: old(self)@.items.push(item),
                    ..old(self)@
                }));
            }
            Ok(())
        } else {
            let back = self.parked.take(slot);
            proof {
                let after = self.parked.entries();
                assert forall|k: int| 0 <= k < order.len() implies slots::occupied(
                    after,
                    #[trigger] order[k] as int,
                ) && after[order[k] as int] == before[order[k] as int] by {
                    assert(slots::occupied(before, order[k] as int));
                }
                assert forall|s: int| #![trigger after[s]]
                    slots::occupied(after, s) implies order.contains(s as usize) by {
                    assert(before[s] == after[s]);
                }
                assert(parked_items(order, after) =~= parked_items(order, before));
                assert(self@ =~= old(self)@);
            }
            Err(back.unwrap())
        }
    }

    /// Receives the oldest value.
    pub fn recv(&mut self) -> (received: Received<T>)
        requires
            old(self).wf(),
        ensures
            final(self).wf(),
            received == (if old(self)@.receiver_closed {
                Received::Disconnected
            } else if old(self)@.items.len() > 0 {
                Received::Item(old(self)@.items[0])
            } else if old(self)@.sender_closed {
                Received::Disconnected
            } else {
                Received::Empty
            }),
            final(self)@ == (if received is Item {
                ChannelView { items: old(self)@.items.drop_first(), ..old(self)@ }
            } else {
                old(self)@
            }),
    {
        let ghost order = link_items(self.link.rx);
        let ghost before = self.parked.entries();
        match self.link.try_recv() {
            LinkReceived::Slot(slot) => {
                assert(order[0] == slot);
                let taken = self.parked.take(slot);
                proof {
                    let rest = order.drop_first();
                    let after = self.parked.entries();
                    assert forall|k: int| 0 <= k < rest.len() implies slots::occupied(
                        after,
                        #[trigger] rest[k] as int,
                    ) && after[rest[k] as int] == before[rest[k] as int] by {
                        assert(rest[k] == order[k + 1]);
                        assert(order[k + 1] != order[0]);
                        assert(slots::occupied(before, order[k + 1] as int));
                    }
                    assert forall|s: int| #![trigger after[s]]
                        slots::occupied(after, s) implies rest.contains(s as usize) by {
                        assert(before[s] == after[s]);
                        let k = choose|k: int| 0 <= k < order.len() && order[k] == s as usize;
                        assert(rest[k - 1] == s as usize);
                    }
                    assert(rest.no_duplicates());
                    assert(self@.items =~= old(self)@.items.drop_first());
                    assert(self@ =~= (ChannelView {
                        items: old(self)@.items.drop_first(),
                        ..old(self)@
                    }));
                }
                Received::Item(taken.unwrap())
            },
            LinkReceived::Empty => Received::Empty,
            LinkReceived::Disconnected => Received::Disconnected,
        }
    }

    /// Closes the sending end. What was sent can still be received.
    pub fn close(&mut self)
        requires
            old(self).wf(),
        ensures
            final(self).wf(),
            final(self)@ == (ChannelView { sender_closed: true, ..old(self)@ }),
    {
        self.link.close_sender();
    }

    /// Closes the receiving end and returns what nobody will receive any more,
    /// oldest first.
    pub fn abandon(&mut self) -> (left: Vec<T>)
        requires
            old(self).wf(),
        ensures
            final(self).wf(),
            old(self)@.receiver_closed ==> left@.len() == 0 && final(self)@ == old(self)@,
            !old(self)@.receiver_closed ==> left@ == old(self)@.items && final(self)@ == (
            ChannelView { items: Seq::<T>::empty(), receiver_closed: true, ..old(self)@ }),
    {
        let mut left: Vec<T> = Vec::new();
        let mut more = true;
        while more
            invariant
                self.wf(),
                self@.sender_closed == old(self)@.sender_closed,
                self@.receiver_closed == old(self)@.receiver_closed,
                old(self)@.receiver_closed ==> left@.len() == 0 && self@ == old(self)@,
                !old(self)@.receiver_closed ==> old(self)@.items == left@ + self@.items,
                !more && !old(self)@.receiver_closed ==> self@.items.len() == 0,
            decreases self@.items.len(), (if more { 1int } else { 0int }),
        {
            let ghost items = self@.items;
            match self.recv() {
                Received::Item(item) => {
                    left.push(item);
                    assert(left@ + self@.items =~= left@.drop_last() + items);
                },
                _ => {
                    more = false;
                },
            }
        }
        self.link.close_receiver();
        self.abandoned = true;
        proof {
            if !old(self)@.receiver_closed {
                assert(link_items(self.link.rx) =~= Seq::<usize>::empty());
                assert(left@ =~= old(self)@.items);
            }
        }
        left
    }

    /// Tells whether the receiving end was closed.
    pub fn is_abandoned(&self) -> (abandoned: bool)
        requires
            self.wf(),
        ensures
            abandoned == self@.receiver_closed,
    {
        self.abandoned
    }

    /// Tells whether nothing can be sent any more.
    pub fn is_closed(&self) -> (closed: bool)
        requires
            self.wf(),
        ensures
            closed == self@.closed(),
    {
        self.link.is_closed()
    }

    /// The number of values that were sent and not received yet.
    pub fn len(&self) -> (count: usize)
        requires
            self.wf(),
        ensures
            count == self@.items.len(),
    {
        proof {
            lemma_parked_count(link_items(self.link.rx), self.parked.entries());
        }
        self.parked.len()
    }
}

proof fn lemma_parked_count<T>(order: Seq<usize>, entries: Seq<Option<T>>)
    requires
        parked_wf(order, entries),
        entries.len() <= usize::MAX,
    ensures
        slots::occupied_slots(entries).len() == order.len(),
{
    let numbers = order.map_values(|slot: usize| slot as int);
    assert(numbers.no_duplicates());
    numbers.unique_seq_to_set();
    assert(numbers.to_set() =~= slots::occupied_slots(entries)) by {
        assert forall|s: int| slots::occupied_slots(entries).contains(s) implies numbers.to_set().contains(s) by {
            assert(slots::occupied(entries, s));
            assert(entries[s] is Some);
            let k = choose|k: int| 0 <= k < order.len() && order[k] == s as usize;
            assert(numbers[k] == order[k] as int);
            assert(slots::occupied(entries, order[k] as int));
        }
        assert forall|s: int| numbers.to_set().contains(s) implies slots::occupied_slots(entries).contains(s) by {
            let k = choose|k: int| 0 <= k < numbers.len() && numbers[k] == s;
            assert(slots::occupied(entries, order[k] as int));
        }
    }
}

/// Nothing can be sent through a channel exactly if one of its ends is closed.
pub proof fn law_channel_is_closed_at_either_end<T>(channel: ChannelView<T>)
    ensures
        channel.closed() <==> channel.sender_closed || channel.receiver_closed,
{
}

} // verus!
