//! The gossip overlay: registry, peers, meshes, validation and propagation,
//! and the handler that turns what happens on the network into events for the
//! application.

pub mod behaviour;
pub mod directory;
pub mod event;
pub mod gate;
pub mod mesh;
pub mod peer_list;
pub mod peers;
pub mod seen;
pub mod store;
pub mod topic;

pub use crate::types::envelope::message_id_fn;
pub use behaviour::IpdmBehaviour;
pub use event::IpdmEvent;
pub use topic::TopicManager;

use crate::config::{GossipsubConfig, IpdmConfig};
use crate::types::codec::decoded;
use crate::types::message::IpdmMessage;
use crate::types::{MessageId, PeerId};
use event::{enqueued, EventQueue, IpdmEventView};
use peer_list::{without, PeerList};
use topic::TopicHandle;
use vstd::prelude::*;

verus! {

/// The most connections that the transport keeps open.
pub const MAX_CONNECTIONS: u32 = 1000;

/// How long the transport waits for a connection, in seconds.
pub const CONNECT_TIMEOUT_SECS: u64 = 60;

/// The mesh parameters of a valid configuration.
pub fn build_gossipsub_config(config: &IpdmConfig) -> (g: GossipsubConfig)
    requires
        config.valid(),
    ensures
        g == config.params(),
        g.wf(),
{
    config.to_gossipsub_config()
}

/// What the overlay reports to the handler.
#[derive(Debug)]
pub enum GossipsubEvent {
    /// A message was accepted; `data` is the wire form of its payload.
    Message { propagation_source: PeerId, message_id: MessageId, data: Vec<u8> },
    /// A peer announced a subscription.
    Subscribed { peer_id: PeerId, topic: TopicHandle },
    /// A peer withdrew a subscription.
    Unsubscribed { peer_id: PeerId, topic: TopicHandle },
}

/// Keeps the discovered peers and queues the events for the application.
pub struct NetworkEventHandler {
    events: EventQueue,
    known_peers: PeerList,
}

impl NetworkEventHandler {
    /// The events that wait for the application, oldest first.
    pub closed spec fn queue(&self) -> Seq<IpdmEventView> {
        self.events@
    }

    /// How many events the queue holds at most.
    pub closed spec fn capacity(&self) -> nat {
        self.events.spec_capacity()
    }

    /// The peers that were discovered and have not expired.
    pub closed spec fn known(&self) -> Seq<PeerId> {
        self.known_peers@
    }

    /// The queue is within its capacity and no peer is known twice.
    pub closed spec fn wf(&self) -> bool {
        self.events.wf() && self.known_peers.wf()
    }

    /// A handler that knows no peer, with an empty queue for up to `capacity`
    /// events.
    pub fn new(capacity: usize) -> (h: NetworkEventHandler)
        ensures
            h.wf(),
            h.queue() == Seq::<IpdmEventView>::empty(),
            h.known() == Seq::<PeerId>::empty(),
            h.capacity() == capacity,
    {
        NetworkEventHandler { events: EventQueue::new(capacity), known_peers: PeerList::new() }
    }

    /// Queues a `MessageReceived` event for a message whose payload decodes.
    /// Nothing else is queued: a payload that does not decode is dropped, and
    /// subscriptions of peers are no events for the application.
    pub fn handle_gossipsub_event(&mut self, event: GossipsubEvent)
        requires
            old(self).wf(),
        ensures
            final(self).wf(),
            final(self).capacity() == old(self).capacity(),
            final(self).known() == old(self).known(),
            final(self).queue() == match event {
                GossipsubEvent::Message { propagation_source, message_id, data } => match decoded(
                    data@,
                ) {
                    Some(m) => enqueued(
                        old(self).queue(),
                        old(self).capacity(),
                        IpdmEventView::MessageReceived { peer_id: propagation_source, message: m },
                    ),
                    None => old(self).queue(),
                },
                _ => old(self).queue(),
            },
    {
        match event {
            GossipsubEvent::Message { propagation_source, message_id, data } => {
                match IpdmMessage::decode(data.as_slice()) {
                    Ok(message) => {
                        self.events.push(
                            IpdmEvent::MessageReceived { peer_id: propagation_source, message },
                        );
                    },
                    Err(_) => {},
                }
            },
            GossipsubEvent::Subscribed { peer_id, topic } => {},
            GossipsubEvent::Unsubscribed { peer_id, topic } => {},
        }
    }

    /// Takes note of a discovered peer, and queues `PeerDiscovered` if the
    /// peer is new.
    pub fn handle_peer_discovery(&mut self, peer_id: PeerId)
        requires
            old(self).wf(),
        ensures
            final(self).wf(),
            final(self).capacity() == old(self).capacity(),
            final(self).known() == if old(self).known().contains(peer_id) {
                old(self).known()
            } else {
                old(self).known().push(peer_id)
            },
            final(self).queue() == if old(self).known().contains(peer_id) {
                old(self).queue()
            } else {
                enqueued(
                    old(self).queue(),
                    old(self).capacity(),
                    IpdmEventView::PeerDiscovered(peer_id),
                )
            },
    {
        if self.known_peers.insert(peer_id) {
            self.events.push(IpdmEvent::PeerDiscovered(peer_id));
        }
    }

    /// Forgets an expired peer, and queues `PeerExpired` if the peer was
    /// known.
    pub fn handle_peer_expiration(&mut self, peer_id: PeerId)
        requires
            old(self).wf(),
        ensures
            final(self).wf(),
            final(self).capacity() == old(self).capacity(),
            final(self).known() == without(old(self).known(), peer_id),
            final(self).queue() == if old(self).known().contains(peer_id) {
                enqueued(
                    old(self).queue(),
                    old(self).capacity(),
                    IpdmEventView::PeerExpired(peer_id),
                )
            } else {
                old(self).queue()
            },
    {
        if self.known_peers.remove(peer_id) {
            self.events.push(IpdmEvent::PeerExpired(peer_id));
        }
    }

    /// Hands out the oldest event that waits.
    pub fn next_event(&mut self) -> (e: Option<IpdmEvent>)
        requires
            old(self).wf(),
        ensures
            final(self).wf(),
            final(self).capacity() == old(self).capacity(),
            final(self).known() == old(self).known(),
            match e {
                Some(event) => old(self).queue().len() > 0 && event@ == old(self).queue()[0]
                    && final(self).queue() == old(self).queue().skip(1),
                None => old(self).queue().len() == 0 && final(self).queue() == old(self).queue(),
            },
    {
        self.events.pop()
    }

    /// How many events wait.
    pub fn pending(&self) -> (n: usize)
        ensures
            n == self.queue().len(),
    {
        self.events.len()
    }

    /// How many events were lost to the bound of the queue so far.
    pub fn lost(&self) -> (n: u64)
        ensures
            n == self.lost_events(),
    {
        self.events.dropped()
    }

    /// How many events were lost to the bound of the queue so far, up to the
    /// range of the counter.
    pub closed spec fn lost_events(&self) -> u64 {
        self.events.spec_dropped()
    }
}

} // verus!
