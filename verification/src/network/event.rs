//! The events that the overlay hands to the embedding application, and the
//! bounded queue that they wait in.

use crate::types::message::{IpdmMessage, IpdmMessageView};
use crate::types::PeerId;
use vstd::prelude::*;

verus! {

/// What the application is told.
#[derive(Debug, PartialEq, Eq)]
pub enum IpdmEvent {
    /// A message was accepted; `peer_id` is the peer that forwarded it.
    MessageReceived { peer_id: PeerId, message: IpdmMessage },
    PeerDiscovered(PeerId),
    PeerExpired(PeerId),
}

/// Mathematical value of an [`IpdmEvent`].
pub enum IpdmEventView {
    MessageReceived { peer_id: PeerId, message: IpdmMessageView },
    PeerDiscovered(PeerId),
    PeerExpired(PeerId),
}

impl View for IpdmEvent {
    type V = IpdmEventView;

    open spec fn view(&self) -> IpdmEventView {
        match self {
            IpdmEvent::MessageReceived { peer_id, message } => IpdmEventView::MessageReceived {
                peer_id: *peer_id,
                message: message@,
            },
            IpdmEvent::PeerDiscovered(p) => IpdmEventView::PeerDiscovered(*p),
            IpdmEvent::PeerExpired(p) => IpdmEventView::PeerExpired(*p),
        }
    }
}

/// The events that wait for the application, oldest first. The queue holds at
/// most `capacity` events: when it is full, a new event pushes the oldest out.
pub struct EventQueue {
    events: Vec<IpdmEvent>,
    capacity: usize,
    dropped: u64,
}

impl View for EventQueue {
    type V = Seq<IpdmEventView>;

    closed spec fn view(&self) -> Seq<IpdmEventView> {
        Seq::new(self.events@.len(), |i: int| self.events@[i]@)
    }
}

/// The queue after `e` was added to it.
pub open spec fn enqueued(queue: Seq<IpdmEventView>, capacity: nat, e: IpdmEventView) -> Seq<
    IpdmEventView,
> {
    if capacity == 0 {
        queue
    } else if queue.len() < capacity {
        queue.push(e)
    } else {
        queue.skip(1).push(e)
    }
}

impl EventQueue {
    /// How many events the queue holds at most.
    pub closed spec fn spec_capacity(&self) -> nat {
        self.capacity as nat
    }

    /// How many events were pushed out or turned away so far, up to the range
    /// of the counter.
    pub closed spec fn spec_dropped(&self) -> u64 {
        self.dropped
    }

    /// The queue is within its capacity.
    pub open spec fn wf(&self) -> bool {
        self@.len() <= self.spec_capacity()
    }

    /// An empty queue for up to `capacity` events.
    pub fn new(capacity: usize) -> (q: EventQueue)
        ensures
            q.wf(),
            q@ == Seq::<IpdmEventView>::empty(),
            q.spec_capacity() == capacity,
            q.spec_dropped() == 0,
    {
        let q = EventQueue { events: Vec::new(), capacity, dropped: 0 };
        assert(q@ =~= Seq::<IpdmEventView>::empty());
        q
    }

    /// How many events wait.
    pub fn len(&self) -> (n: usize)
        ensures
            n == self@.len(),
    {
        self.events.len()
    }

    /// How many events were lost to the bound so far.
    pub fn dropped(&self) -> (n: u64)
        ensures
            n == self.spec_dropped(),
    {
        self.dropped
    }

    /// Adds an event at the end. A full queue loses its oldest event for it; a
    /// queue of capacity zero keeps nothing.
    pub fn push(&mut self, event: IpdmEvent)
        requires
            old(self).wf(),
        ensures
            final(self).wf(),
            final(self).spec_capacity() == old(self).spec_capacity(),
            final(self)@ == enqueued(old(self)@, old(self).spec_capacity(), event@),
            final(self).spec_dropped() == if old(self)@.len() < old(self).spec_capacity() {
                old(self).spec_dropped()
            } else {
                crate::types::bumped(old(self).spec_dropped())
            },
    {
        if self.events.len() >= self.capacity {
            if self.dropped < u64::MAX {
                self.dropped = self.dropped + 1;
            }
            if self.capacity == 0 {
                return ;
            }
            self.events.remove(0);
            assert(self@ =~= old(self)@.skip(1));
        }
        let ghost kept = self@;
        self.events.push(event);
        assert(self@ =~= kept.push(event@));
    }

    /// Takes the oldest event out of the queue.
    pub fn pop(&mut self) -> (e: Option<IpdmEvent>)
        requires
            old(self).wf(),
        ensures
            final(self).wf(),
            final(self).spec_capacity() == old(self).spec_capacity(),
            final(self).spec_dropped() == old(self).spec_dropped(),
            match e {
                Some(event) => old(self)@.len() > 0 && event@ == old(self)@[0] && final(self)@
                    == old(self)@.skip(1),
                None => old(self)@.len() == 0 && final(self)@ == old(self)@,
            },
    {
        if self.events.len() == 0 {
            None
        } else {
            let event = self.events.remove(0);
            assert(self@ =~= old(self)@.skip(1));
            Some(event)
        }
    }
}

} // verus!
