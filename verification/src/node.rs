//! The node: the topic registry, the propagation engine and the event
//! handler behind one surface. The node decides; the caller performs what it
//! orders and feeds back what happens on the network.

use crate::config::IpdmConfig;
use crate::error::{IpdmError, IpdmErrorView};
use crate::identity::{public_key_of, signature_by, Identity};
use crate::network::behaviour::{
    lemma_same_topics, topic_index, Dispatch, DispatchView, IpdmBehaviour, MeshChange,
    MeshChangeView, PullDecision, Reception, ReceptionView, TopicStateView, Tuning,
};
use crate::network::event::{enqueued, IpdmEvent, IpdmEventView};
use crate::network::gate::{authenticate, authenticity_of};
use crate::network::mesh::MeshPhase;
use crate::network::peer_list::{minus, without};
use crate::network::peers::{connected, with_topic};
use crate::network::topic::{TopicHandle, TopicManager};
use crate::network::{GossipsubEvent, NetworkEventHandler};
use crate::types::envelope::{opened, MessageEnvelope};
use crate::types::message::IpdmMessage;
use crate::types::{MessageId, NodeType, PeerId};
use vstd::prelude::*;
use vstd::string::*;

verus! {

/// One node of the overlay.
pub struct IpdmNode {
    behaviour: IpdmBehaviour,
    topic_manager: TopicManager,
    handler: NetworkEventHandler,
}

/// The detail of the error for bytes that encode no key pair.
pub open spec fn identity_text() -> Seq<char> {
    "identity is no key pair"@
}

impl IpdmNode {
    /// The propagation engine.
    pub closed spec fn behaviour(&self) -> IpdmBehaviour {
        self.behaviour
    }

    /// The topic registry.
    pub closed spec fn topic_manager(&self) -> TopicManager {
        self.topic_manager
    }

    /// The event handler.
    pub closed spec fn handler(&self) -> NetworkEventHandler {
        self.handler
    }

    /// The three parts are well-formed, and the engine keeps state for
    /// exactly the topics that the registry holds.
    pub open spec fn wf(&self) -> bool {
        &&& self.behaviour().wf()
        &&& self.topic_manager().wf()
        &&& self.handler().wf()
        &&& forall|name: Seq<char>|
            self.topic_manager().subscribed(name) <==> self.behaviour().joined(name)
    }

    /// A node without subscriptions and peers, that signs with the key pair
    /// that `keypair` encodes. A configuration whose mesh bounds are out of
    /// order is refused, and after it bytes that encode no key pair.
    pub fn new(config: IpdmConfig, keypair: Vec<u8>, tuning: Tuning) -> (r: Result<
        IpdmNode,
        IpdmError,
    >)
        ensures
            r is Ok <==> config.valid() && public_key_of(keypair@) is Some,
            r matches Ok(n) ==> n.wf() && n.behaviour().cfg() == config.params()
                && n.behaviour().tuning() == tuning && n.behaviour().identity().keypair()
                == keypair@ && n.behaviour().identity().wf() && n.behaviour().topics() == Seq::<
                TopicStateView,
            >::empty() && n.topic_manager()@ == Seq::<Seq<char>>::empty()
                && n.handler().queue() == Seq::<IpdmEventView>::empty() && n.handler().capacity()
                == tuning.event_capacity,
            r matches Err(e) ==> e@ == (if config.mesh_outbound_min > config.mesh_n_low {
                IpdmErrorView::Config(crate::config::outbound_above_low_text())
            } else if config.mesh_n_low > config.mesh_n_high {
                IpdmErrorView::Config(crate::config::low_above_high_text())
            } else {
                IpdmErrorView::Config(identity_text())
            }),
    {
        match config.validate() {
            Ok(()) => {},
            Err(e) => {
                return Err(e);
            },
        }
        let identity = match Identity::from_protobuf_encoding(keypair) {
            Some(identity) => identity,
            None => {
                return Err(IpdmError::Config(String::from_str("identity is no key pair")));
            },
        };
        match IpdmBehaviour::new(&config, identity, tuning) {
            Ok(behaviour) => {
                let node = IpdmNode {
                    behaviour,
                    topic_manager: TopicManager::new(),
                    handler: NetworkEventHandler::new(tuning.event_capacity),
                };
                Ok(node)
            },
            Err(e) => Err(e),
        }
    }

    /// The propagation engine, for its queries.
    pub fn engine(&self) -> (b: &IpdmBehaviour)
        ensures
            *b == self.behaviour(),
    {
        &self.behaviour
    }

    /// The topic registry, for its queries.
    pub fn registry(&self) -> (m: &TopicManager)
        ensures
            *m == self.topic_manager(),
    {
        &self.topic_manager
    }

    /// Subscribes to a topic: the registry holds it, and the engine keeps an
    /// empty mesh and window for it. Subscribing again changes nothing.
    pub fn subscribe(&mut self, topic: String) -> (r: Result<(), IpdmError>)
        requires
            old(self).wf(),
        ensures
            final(self).wf(),
            r is Ok,
            final(self).handler() == old(self).handler(),
            final(self).behaviour().same_frame(old(self).behaviour()),
            forall|name: Seq<char>|
                final(self).topic_manager().subscribed(name) <==> (old(
                    self,
                ).topic_manager().subscribed(name) || name == topic@),
            old(self).topic_manager().subscribed(topic@) ==> final(self).topic_manager()@ == old(
                self,
            ).topic_manager()@ && final(self).behaviour().topics() == old(
                self,
            ).behaviour().topics(),
            !old(self).topic_manager().subscribed(topic@) ==> final(self).topic_manager()@ == old(
                self,
            ).topic_manager()@.push(topic@) && final(self).behaviour().topics().drop_last()
                == old(self).behaviour().topics() && ({
                let s = final(self).behaviour().topics().last();
                s.topic == topic@ && s.view.mesh() == Seq::<PeerId>::empty() && s.view.lazy()
                    == Seq::<PeerId>::empty() && s.seen == Seq::<MessageId>::empty()
            }),
    {
        let handle = self.topic_manager.subscribe(topic);
        self.behaviour.join(handle);
        Ok(())
    }

    /// Unsubscribes from a topic: the registry drops it and the engine tears
    /// its state down. A topic that was not subscribed to is a `Topic` error.
    pub fn unsubscribe(&mut self, topic: &str) -> (r: Result<(), IpdmError>)
        requires
            old(self).wf(),
        ensures
            final(self).wf(),
            r is Ok <==> old(self).topic_manager().subscribed(topic@),
            r matches Err(e) ==> e@ == IpdmErrorView::Topic(topic@) && final(self).topic_manager()@
                == old(self).topic_manager()@ && final(self).behaviour().topics() == old(
                self,
            ).behaviour().topics(),
            r is Ok ==> final(self).topic_manager()@ == old(self).topic_manager()@.remove(
                old(self).topic_manager()@.index_of(topic@),
            ) && final(self).behaviour().topics() == old(self).behaviour().topics().remove(
                topic_index(old(self).behaviour().topics(), topic@),
            ),
            forall|name: Seq<char>|
                final(self).topic_manager().subscribed(name) <==> (old(
                    self,
                ).topic_manager().subscribed(name) && name != topic@),
            final(self).handler() == old(self).handler(),
            final(self).behaviour().same_frame(old(self).behaviour()),
    {
        let handle = TopicHandle::from_raw(String::from_str(topic));
        let was_subscribed = self.topic_manager.unsubscribe(topic);
        self.behaviour.leave(&handle);
        if was_subscribed {
            Ok(())
        } else {
            Err(IpdmError::Topic(String::from_str(topic)))
        }
    }

    /// Publishes `message` on `topic`. See [`IpdmBehaviour::publish`] for the
    /// outcome; the registry and the event queue are left alone, so the
    /// publisher gets no event for its own message.
    pub fn publish(&mut self, topic: &str, message: IpdmMessage) -> (r: Result<Dispatch, IpdmError>)
        requires
            old(self).wf(),
        ensures
            final(self).wf(),
            final(self).handler() == old(self).handler(),
            final(self).topic_manager() == old(self).topic_manager(),
            match r {
                Ok(d) => old(self).behaviour().publish_result(
                    topic@,
                    message@,
                    signature_by(
                        old(self).behaviour().identity().keypair(),
                        old(self).behaviour().signing_input(message@),
                    ),
                ) == Ok::<DispatchView, IpdmErrorView>(d@),
                Err(e) => old(self).behaviour().publish_result(
                    topic@,
                    message@,
                    signature_by(
                        old(self).behaviour().identity().keypair(),
                        old(self).behaviour().signing_input(message@),
                    ),
                ) == Err::<DispatchView, IpdmErrorView>(e@),
            },
            final(self).behaviour().published_from(
                old(self).behaviour(),
                topic@,
                message@,
                signature_by(
                    old(self).behaviour().identity().keypair(),
                    old(self).behaviour().signing_input(message@),
                ),
            ),
    {
        let handle = TopicHandle::from_raw(String::from_str(topic));
        let r = self.behaviour.publish(&handle, message);
        proof {
            lemma_same_topics(self.behaviour().topics(), old(self).behaviour().topics());
        }
        r
    }

    /// What the node hands back for an inbound envelope, and what it queues:
    /// an accepted envelope gives the order to forward it and a
    /// `MessageReceived` event; anything else gives neither.
    pub open spec fn delivered_from(
        &self,
        before: IpdmNode,
        r: Option<DispatchView>,
        peer: PeerId,
        reception: ReceptionView,
    ) -> bool {
        &&& self.topic_manager() == before.topic_manager()
        &&& self.handler().known() == before.handler().known()
        &&& self.handler().capacity() == before.handler().capacity()
        &&& match reception {
            ReceptionView::Accepted { dispatch, envelope } => r == Some(dispatch)
                && self.handler().queue() == enqueued(
                before.handler().queue(),
                before.handler().capacity(),
                IpdmEventView::MessageReceived { peer_id: peer, message: envelope.message },
            ),
            _ => r is None && self.handler().queue() == before.handler().queue(),
        }
    }

    /// Handles an envelope that `peer` forwarded on `topic`, from the outcome
    /// of the two stateless checks. See
    /// [`IpdmBehaviour::on_inbound_checked`] for the engine's part.
    pub fn deliver(
        &mut self,
        peer: PeerId,
        topic: &str,
        decoded: Option<MessageEnvelope>,
        signature_ok: Option<bool>,
        now: u64,
    ) -> (r: Option<Dispatch>)
        requires
            old(self).wf(),
        ensures
            final(self).wf(),
            final(self).behaviour().received_from(
                old(self).behaviour(),
                peer,
                topic@,
                match decoded {
                    Some(e) => Some(e@),
                    None => None,
                },
                signature_ok,
                now,
            ),
            final(self).delivered_from(
                *old(self),
                match r {
                    Some(d) => Some(d@),
                    None => None,
                },
                peer,
                old(self).behaviour().reception(
                    peer,
                    topic@,
                    match decoded {
                        Some(e) => Some(e@),
                        None => None,
                    },
                    signature_ok,
                ),
            ),
    {
        let handle = TopicHandle::from_raw(String::from_str(topic));
        let reception = self.behaviour.on_inbound_checked(
            peer,
            &handle,
            decoded,
            signature_ok,
            now,
        );
        proof {
            lemma_same_topics(self.behaviour().topics(), old(self).behaviour().topics());
        }
        match reception {
            Reception::Accepted { dispatch, envelope } => {
                let data = envelope.message.encode();
                self.handler.handle_gossipsub_event(
                    GossipsubEvent::Message {
                        propagation_source: peer,
                        message_id: dispatch.id,
                        data,
                    },
                );
                Some(dispatch)
            },
            _ => None,
        }
    }

    /// Handles wire bytes that `peer` forwarded on `topic`: decodes them,
    /// checks the signature, and goes on as [`IpdmNode::deliver`].
    pub fn on_inbound(&mut self, peer: PeerId, topic: &str, wire: &[u8], now: u64) -> (r: Option<
        Dispatch,
    >)
        requires
            old(self).wf(),
        ensures
            final(self).wf(),
            final(self).behaviour().received_from(
                old(self).behaviour(),
                peer,
                topic@,
                opened(wire@),
                authenticity_of(opened(wire@)),
                now,
            ),
            final(self).delivered_from(
                *old(self),
                match r {
                    Some(d) => Some(d@),
                    None => None,
                },
                peer,
                old(self).behaviour().reception(
                    peer,
                    topic@,
                    opened(wire@),
                    authenticity_of(opened(wire@)),
                ),
            ),
    {
        match MessageEnvelope::decode(wire) {
            Ok(envelope) => {
                let ok = authenticate(&envelope);
                self.deliver(peer, topic, Some(envelope), Some(ok), now)
            },
            Err(_) => self.deliver(peer, topic, None, None, now),
        }
    }

    /// Decides about the announcement of `id` on `topic` after `attempts`
    /// failed pulls.
    pub fn on_announcement(&self, topic: &str, id: MessageId, attempts: u32) -> (d: PullDecision)
        requires
            self.wf(),
        ensures
            d == self.behaviour().pull_decision(topic@, id, attempts),
    {
        let handle = TopicHandle::from_raw(String::from_str(topic));
        self.behaviour.on_announcement(&handle, id, attempts)
    }

    /// Answers the pull of the message `id` on `topic`; nothing where the
    /// node does not hold the message.
    pub fn on_pull(&self, topic: &str, id: MessageId) -> (r: Option<Vec<u8>>)
        requires
            self.wf(),
        ensures
            match r {
                Some(wire) => self.behaviour().pull_answer(topic@, id) == Some(wire@),
                None => self.behaviour().pull_answer(topic@, id) is None,
            },
    {
        let handle = TopicHandle::from_raw(String::from_str(topic));
        self.behaviour.on_pull(&handle, id)
    }

    /// One heartbeat over every subscribed topic. Afterwards each mesh is
    /// within `mesh_n_high`, and at or above `mesh_n_low` wherever it was before
    /// or at least `mesh_n_high` peers are eligible for its topic.
    pub fn heartbeat(&mut self) -> (changes: Vec<MeshChange>)
        requires
            old(self).wf(),
        ensures
            final(self).wf(),
            final(self).handler() == old(self).handler(),
            final(self).topic_manager() == old(self).topic_manager(),
            final(self).behaviour().same_frame(old(self).behaviour()),
            final(self).behaviour().topics().len() == old(self).behaviour().topics().len(),
            changes@.len() == old(self).behaviour().topics().len(),
            forall|i: int|
                #![trigger changes@[i]]
                0 <= i < changes@.len() ==> changes@[i]@ == (MeshChangeView {
                    topic: old(self).behaviour().topics()[i].topic,
                    grafted: minus(
                        final(self).behaviour().topics()[i].view.mesh(),
                        old(self).behaviour().topics()[i].view.mesh(),
                    ),
                    pruned: minus(
                        old(self).behaviour().topics()[i].view.mesh(),
                        final(self).behaviour().topics()[i].view.mesh(),
                    ),
                }),
            forall|i: int|
                #![trigger final(self).behaviour().topics()[i]]
                0 <= i < final(self).behaviour().topics().len() ==> {
                    let cfg = old(self).behaviour().cfg();
                    let peers = old(self).behaviour().peers();
                    let before = old(self).behaviour().topics()[i];
                    let after = final(self).behaviour().topics()[i];
                    &&& after.topic == before.topic
                    &&& after.seen == before.seen
                    &&& after.stored == before.stored
                    &&& after.view.beats_from(before.view, before.topic, peers, cfg)
                    &&& after.view.mesh().len() <= cfg.mesh_n_high
                    &&& before.view.mesh().len() >= cfg.mesh_n_low ==> after.view.mesh().len()
                        >= cfg.mesh_n_low
                    &&& peers.eligible_set(before.topic).len() >= cfg.mesh_n_high
                        ==> after.view.mesh().len() >= cfg.mesh_n_low
                },
    {
        let changes = self.behaviour.heartbeat();
        proof {
            lemma_same_topics(self.behaviour().topics(), old(self).behaviour().topics());
        }
        changes
    }

    /// Takes note of a peer that discovery found.
    pub fn peer_discovered(&mut self, peer: PeerId)
        requires
            old(self).wf(),
        ensures
            final(self).wf(),
            final(self).behaviour() == old(self).behaviour(),
            final(self).topic_manager() == old(self).topic_manager(),
            final(self).handler().capacity() == old(self).handler().capacity(),
            final(self).handler().known() == if old(self).handler().known().contains(peer) {
                old(self).handler().known()
            } else {
                old(self).handler().known().push(peer)
            },
            final(self).handler().queue() == if old(self).handler().known().contains(peer) {
                old(self).handler().queue()
            } else {
                enqueued(
                    old(self).handler().queue(),
                    old(self).handler().capacity(),
                    IpdmEventView::PeerDiscovered(peer),
                )
            },
    {
        self.handler.handle_peer_discovery(peer);
    }

    /// Takes note that discovery no longer finds a peer.
    pub fn peer_expired(&mut self, peer: PeerId)
        requires
            old(self).wf(),
        ensures
            final(self).wf(),
            final(self).behaviour() == old(self).behaviour(),
            final(self).topic_manager() == old(self).topic_manager(),
            final(self).handler().capacity() == old(self).handler().capacity(),
            final(self).handler().known() == without(old(self).handler().known(), peer),
            final(self).handler().queue() == if old(self).handler().known().contains(peer) {
                enqueued(
                    old(self).handler().queue(),
                    old(self).handler().capacity(),
                    IpdmEventView::PeerExpired(peer),
                )
            } else {
                old(self).handler().queue()
            },
    {
        self.handler.handle_peer_expiration(peer);
    }

    /// Records that `p` connected at `now`, over a connection that this node
    /// opened if `outbound`.
    pub fn peer_connected(&mut self, p: PeerId, node_type: NodeType, outbound: bool, now: u64)
        requires
            old(self).wf(),
        ensures
            final(self).wf(),
            final(self).handler() == old(self).handler(),
            final(self).topic_manager() == old(self).topic_manager(),
            final(self).behaviour().topics() == old(self).behaviour().topics(),
            final(self).behaviour().peers()@ == connected(
                old(self).behaviour().peers()@,
                p,
                node_type,
                outbound,
                now,
            ),
    {
        self.behaviour.peer_connected(p, node_type, outbound, now);
    }

    /// Forgets `p`: its record goes, and it leaves every mesh and lazy set.
    /// Says whether it was connected.
    pub fn peer_disconnected(&mut self, p: PeerId) -> (was_connected: bool)
        requires
            old(self).wf(),
        ensures
            final(self).wf(),
            final(self).handler() == old(self).handler(),
            final(self).topic_manager() == old(self).topic_manager(),
            was_connected == old(self).behaviour().peers()@.dom().contains(p),
            final(self).behaviour().peers()@ == old(self).behaviour().peers()@.remove(p),
            final(self).behaviour().topics().len() == old(self).behaviour().topics().len(),
            forall|i: int|
                #![trigger final(self).behaviour().topics()[i]]
                0 <= i < final(self).behaviour().topics().len() ==> {
                    let before = old(self).behaviour().topics()[i];
                    let after = final(self).behaviour().topics()[i];
                    &&& after.topic == before.topic
                    &&& after.seen == before.seen
                    &&& after.stored == before.stored
                    &&& after.view.mesh() == without(before.view.mesh(), p)
                    &&& after.view.lazy() == without(before.view.lazy(), p)
                },
    {
        let was_connected = self.behaviour.peer_disconnected(p);
        proof {
            lemma_same_topics(self.behaviour().topics(), old(self).behaviour().topics());
        }
        was_connected
    }

    /// Records that `p` announced a subscription to `topic`.
    pub fn peer_subscribed(&mut self, p: PeerId, topic: &str)
        requires
            old(self).wf(),
        ensures
            final(self).wf(),
            final(self).handler() == old(self).handler(),
            final(self).topic_manager() == old(self).topic_manager(),
            final(self).behaviour().topics() == old(self).behaviour().topics(),
            final(self).behaviour().peers()@ == with_topic(
                old(self).behaviour().peers()@,
                p,
                topic@,
                true,
            ),
    {
        let handle = TopicHandle::from_raw(String::from_str(topic));
        self.behaviour.peer_subscribed(p, &handle);
    }

    /// Records that `p` withdrew its subscription to `topic`; `p` leaves the
    /// mesh and the lazy set of that topic.
    pub fn peer_unsubscribed(&mut self, p: PeerId, topic: &str)
        requires
            old(self).wf(),
        ensures
            final(self).wf(),
            final(self).handler() == old(self).handler(),
            final(self).topic_manager() == old(self).topic_manager(),
            final(self).behaviour().peers()@ == with_topic(
                old(self).behaviour().peers()@,
                p,
                topic@,
                false,
            ),
            final(self).behaviour().topics().len() == old(self).behaviour().topics().len(),
            forall|i: int|
                #![trigger final(self).behaviour().topics()[i]]
                0 <= i < final(self).behaviour().topics().len() ==> {
                    let before = old(self).behaviour().topics()[i];
                    let after = final(self).behaviour().topics()[i];
                    &&& after.topic == before.topic
                    &&& after.seen == before.seen
                    &&& after.stored == before.stored
                    &&& before.topic != topic@ ==> after == before
                    &&& before.topic == topic@ ==> after.view.mesh() == without(
                        before.view.mesh(),
                        p,
                    ) && after.view.lazy() == without(before.view.lazy(), p)
                },
    {
        let handle = TopicHandle::from_raw(String::from_str(topic));
        self.behaviour.peer_unsubscribed(p, &handle);
        proof {
            lemma_same_topics(self.behaviour().topics(), old(self).behaviour().topics());
        }
    }

    /// Handles the request of `p` to join this node's mesh of `topic`. Says
    /// whether `p` is now in the mesh: it is when the topic is subscribed to and
    /// `p` is connected.
    pub fn peer_grafted(&mut self, p: PeerId, topic: &str) -> (accepted: bool)
        requires
            old(self).wf(),
        ensures
            final(self).wf(),
            final(self).handler() == old(self).handler(),
            final(self).topic_manager() == old(self).topic_manager(),
            final(self).behaviour().same_frame(old(self).behaviour()),
            accepted == (old(self).behaviour().joined(topic@) && old(
                self,
            ).behaviour().peers()@.dom().contains(p)),
            !accepted ==> final(self).behaviour().topics() == old(self).behaviour().topics(),
            accepted ==> final(self).behaviour().joined(topic@) && final(self).behaviour().state_of(
                topic@,
            ).view.mesh().contains(p),
    {
        let handle = TopicHandle::from_raw(String::from_str(topic));
        let accepted = self.behaviour.peer_grafted(p, &handle);
        proof {
            lemma_same_topics(self.behaviour().topics(), old(self).behaviour().topics());
            if accepted {
                let before = old(self).behaviour().topics();
                let after = self.behaviour().topics();
                let i = topic_index(before, topic@);
                let k = topic_index(after, topic@);
                assert(after[i].topic == topic@);
                assert(0 <= k < after.len() && after[k].topic == topic@);
                if k < i {
                    assert(after[k].topic != after[i].topic);
                } else if i < k {
                    assert(after[i].topic != after[k].topic);
                }
                let mesh = before[i].view.mesh();
                if !mesh.contains(p) {
                    assert(mesh.push(p)[mesh.len() as int] == p);
                }
            }
        }
        accepted
    }

    /// Handles the notice of `p` that it has left this node's mesh of `topic`:
    /// `p` leaves the mesh, for the lazy set while that has room.
    pub fn peer_pruned(&mut self, p: PeerId, topic: &str)
        requires
            old(self).wf(),
        ensures
            final(self).wf(),
            final(self).handler() == old(self).handler(),
            final(self).topic_manager() == old(self).topic_manager(),
            final(self).behaviour().same_frame(old(self).behaviour()),
            final(self).behaviour().topics().len() == old(self).behaviour().topics().len(),
            forall|i: int|
                #![trigger final(self).behaviour().topics()[i]]
                0 <= i < final(self).behaviour().topics().len() ==> {
                    let before = old(self).behaviour().topics()[i];
                    let after = final(self).behaviour().topics()[i];
                    &&& after.topic == before.topic
                    &&& after.seen == before.seen
                    &&& after.stored == before.stored
                    &&& before.topic != topic@ ==> after == before
                    &&& before.topic == topic@ ==> after.view.mesh() == without(
                        before.view.mesh(),
                        p,
                    ) && after.view.lazy() == if before.view.mesh().contains(p)
                        && before.view.lazy().len() < old(self).behaviour().cfg().mesh_n_lazy {
                        before.view.lazy().push(p)
                    } else {
                        before.view.lazy()
                    }
                },
    {
        let handle = TopicHandle::from_raw(String::from_str(topic));
        self.behaviour.peer_pruned(p, &handle);
        proof {
            lemma_same_topics(self.behaviour().topics(), old(self).behaviour().topics());
        }
    }

    /// Where the mesh of `topic` stands.
    pub fn phase_of(&self, topic: &str) -> (p: MeshPhase)
        requires
            self.wf(),
        ensures
            p == self.behaviour().phase(topic@),
    {
        let handle = TopicHandle::from_raw(String::from_str(topic));
        self.behaviour.phase_of(&handle)
    }

    /// Hands out the oldest event that waits for the application.
    pub fn next_event(&mut self) -> (e: Option<IpdmEvent>)
        requires
            old(self).wf(),
        ensures
            final(self).wf(),
            final(self).behaviour() == old(self).behaviour(),
            final(self).topic_manager() == old(self).topic_manager(),
            final(self).handler().capacity() == old(self).handler().capacity(),
            final(self).handler().known() == old(self).handler().known(),
            match e {
                Some(event) => old(self).handler().queue().len() > 0 && event@ == old(
                    self,
                ).handler().queue()[0] && final(self).handler().queue() == old(
                    self,
                ).handler().queue().skip(1),
                None => old(self).handler().queue().len() == 0 && final(self).handler().queue()
                    == old(self).handler().queue(),
            },
    {
        self.handler.next_event()
    }
}

} // verus!
