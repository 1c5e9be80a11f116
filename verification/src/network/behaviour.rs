//! The propagation engine: the per-topic meshes and deduplication windows,
//! the peer set, and the decisions about who receives what.

use super::gate::{admission_of, authenticate, authenticity_of, decide, Admission, AdmissionView};
use super::mesh::{MeshPhase, MeshView};
use super::peer_list::{minus, without};
use super::peers::{
    connected, credited, debited_all, heard, penalised, with_topic, PeerSet,
};
use super::seen::{remembered, SeenCache};
use super::store::{distinct_messages, kept, stored, MessageStore, StoredView};
use super::topic::TopicHandle;
use crate::config::{GossipsubConfig, IpdmConfig};
use crate::error::{IpdmError, IpdmErrorView};
use crate::identity::{signature_by, Identity};
use crate::types::envelope::{enc_envelope, opened, MessageEnvelope, MessageEnvelopeView};
use crate::types::message::{IpdmMessage, IpdmMessageView};
use crate::types::{
    MessageId, NodeType, PeerId, PeerInfoView, ValidationResult, ValidationResultView,
};
use vstd::prelude::*;
use vstd::string::*;

verus! {

/// The parameters of the engine that the configuration surface leaves open.
#[derive(Debug, Clone, Copy, PartialEq, Eq, Structural)]
pub struct Tuning {
    /// The score below which a peer is no candidate for a mesh.
    pub score_floor: i64,
    /// How many message identifiers each topic remembers.
    pub seen_capacity: usize,
    /// How often a pull of one announced message is tried.
    pub pull_budget: u32,
    /// How many events wait for the application at most.
    pub event_capacity: usize,
    /// How many recent envelopes each topic keeps for the peers that ask for
    /// them.
    pub store_capacity: usize,
}

impl Default for Tuning {
    fn default() -> (t: Tuning)
        ensures
            t == (Tuning {
                score_floor: -8i64,
                seen_capacity: 4096,
                pull_budget: 3,
                event_capacity: 1024,
                store_capacity: 256,
            }),
    {
        Tuning {
            score_floor: -8,
            seen_capacity: 4096,
            pull_budget: 3,
            event_capacity: 1024,
            store_capacity: 256,
        }
    }
}

/// What the engine keeps for one subscribed topic.
pub struct TopicState {
    topic: TopicHandle,
    view: MeshView,
    seen: SeenCache,
    store: MessageStore,
}

/// Mathematical value of a [`TopicState`].
pub struct TopicStateView {
    pub topic: Seq<char>,
    pub view: MeshView,
    pub seen: Seq<MessageId>,
    pub seen_capacity: nat,
    pub stored: Seq<StoredView>,
    pub store_capacity: nat,
}

impl View for TopicState {
    type V = TopicStateView;

    closed spec fn view(&self) -> TopicStateView {
        TopicStateView {
            topic: self.topic@,
            view: self.view,
            seen: self.seen@,
            seen_capacity: self.seen.spec_capacity(),
            stored: self.store@,
            store_capacity: self.store.spec_capacity(),
        }
    }
}

impl TopicState {
    closed spec fn wf(&self) -> bool {
        self.view.wf() && self.seen.wf() && self.store.wf()
    }
}

impl TopicStateView {
    /// The mesh, the window and the store are well-formed.
    pub open spec fn wf(self) -> bool {
        &&& self.view.wf()
        &&& self.seen.no_duplicates()
        &&& self.seen.len() <= self.seen_capacity
        &&& distinct_messages(self.stored)
        &&& self.stored.len() <= self.store_capacity
    }
}

/// An order to the transport: send `wire` to every peer of `full`, and the
/// announcement of `id` on `topic` to every peer of `announce`.
#[derive(Debug)]
pub struct Dispatch {
    pub topic: TopicHandle,
    pub id: MessageId,
    pub wire: Vec<u8>,
    pub full: Vec<PeerId>,
    pub announce: Vec<PeerId>,
}

/// Mathematical value of a [`Dispatch`].
pub struct DispatchView {
    pub topic: Seq<char>,
    pub id: MessageId,
    pub wire: Seq<u8>,
    pub full: Seq<PeerId>,
    pub announce: Seq<PeerId>,
}

impl View for Dispatch {
    type V = DispatchView;

    open spec fn view(&self) -> DispatchView {
        DispatchView {
            topic: self.topic@,
            id: self.id,
            wire: self.wire@,
            full: self.full@,
            announce: self.announce@,
        }
    }
}

/// What a heartbeat changed in the mesh of one topic: the peers to tell that
/// they were taken in, and those to tell that they were taken out.
#[derive(Debug)]
pub struct MeshChange {
    pub topic: TopicHandle,
    pub grafted: Vec<PeerId>,
    pub pruned: Vec<PeerId>,
}

/// Mathematical value of a [`MeshChange`].
pub struct MeshChangeView {
    pub topic: Seq<char>,
    pub grafted: Seq<PeerId>,
    pub pruned: Seq<PeerId>,
}

impl View for MeshChange {
    type V = MeshChangeView;

    open spec fn view(&self) -> MeshChangeView {
        MeshChangeView { topic: self.topic@, grafted: self.grafted@, pruned: self.pruned@ }
    }
}

/// What became of an inbound envelope.
#[derive(Debug)]
pub enum Reception {
    /// The envelope was accepted: `dispatch` forwards it, and `envelope` is to
    /// be surfaced to the application.
    Accepted { dispatch: Dispatch, envelope: MessageEnvelope },
    /// The envelope was seen before, and is dropped.
    Duplicate(MessageId),
    /// The envelope failed validation, and is dropped.
    Rejected(ValidationResult),
    /// The envelope is for a topic that this node has not joined.
    Unsubscribed,
}

/// Mathematical value of a [`Reception`].
pub enum ReceptionView {
    Accepted { dispatch: DispatchView, envelope: MessageEnvelopeView },
    Duplicate(MessageId),
    Rejected(ValidationResultView),
    Unsubscribed,
}

impl View for Reception {
    type V = ReceptionView;

    open spec fn view(&self) -> ReceptionView {
        match self {
            Reception::Accepted { dispatch, envelope } => ReceptionView::Accepted {
                dispatch: dispatch@,
                envelope: envelope@,
            },
            Reception::Duplicate(id) => ReceptionView::Duplicate(*id),
            Reception::Rejected(v) => ReceptionView::Rejected(v@),
            Reception::Unsubscribed => ReceptionView::Unsubscribed,
        }
    }
}

/// What to do about an announced message.
#[derive(Debug, Clone, Copy, PartialEq, Eq, Structural)]
pub enum PullDecision {
    /// Ask the announcing peer for the message.
    Request,
    /// The message was seen already.
    AlreadySeen,
    /// The retry budget is spent: give the message up.
    Exhausted,
    /// The announcement is for a topic that this node has not joined.
    Unsubscribed,
}

/// The detail of the error for an envelope that could not be signed.
pub open spec fn unsigned_text() -> Seq<char> {
    "envelope could not be signed"@
}

/// The detail of the error for a message beyond the transmit size.
pub open spec fn oversized_text() -> Seq<char> {
    "message exceeds max_transmit_size"@
}

/// The sequence number after `n`.
pub open spec fn next_sequence(n: u64) -> u64 {
    if n == u64::MAX {
        0
    } else {
        (n + 1) as u64
    }
}

/// `states` with the envelope `wire` of the identifier `id` offered to the
/// window and to the store of the state at `i`.
pub open spec fn with_message(
    states: Seq<TopicStateView>,
    i: int,
    id: MessageId,
    wire: Seq<u8>,
) -> Seq<TopicStateView> {
    states.update(
        i,
        TopicStateView {
            seen: remembered(states[i].seen, states[i].seen_capacity, id),
            stored: kept(states[i].stored, states[i].store_capacity, id, wire),
            ..states[i]
        },
    )
}

/// `after` is `before` but for the mesh and the lazy set of the state at `i`.
pub open spec fn differs_at(
    after: Seq<TopicStateView>,
    before: Seq<TopicStateView>,
    i: int,
) -> bool {
    &&& after.len() == before.len()
    &&& 0 <= i < before.len()
    &&& forall|j: int| 0 <= j < before.len() && j != i ==> after[j] == before[j]
    &&& after[i].topic == before[i].topic
    &&& after[i].seen == before[i].seen
    &&& after[i].seen_capacity == before[i].seen_capacity
    &&& after[i].stored == before[i].stored
    &&& after[i].store_capacity == before[i].store_capacity
}

/// The engine's state.
pub struct IpdmBehaviour {
    cfg: GossipsubConfig,
    tuning: Tuning,
    identity: Identity,
    sequence: u64,
    peers: PeerSet,
    topics: Vec<TopicState>,
}

/// The position of the state of the topic called `name`.
pub open spec fn topic_index(states: Seq<TopicStateView>, name: Seq<char>) -> int {
    choose|i: int| 0 <= i < states.len() && #[trigger] states[i].topic == name
}

/// Whether a state of the topic called `name` is among `states`.
pub open spec fn has_topic(states: Seq<TopicStateView>, name: Seq<char>) -> bool {
    exists|i: int| 0 <= i < states.len() && #[trigger] states[i].topic == name
}

/// No topic has two states.
pub open spec fn distinct_topics(states: Seq<TopicStateView>) -> bool {
    forall|i: int, j: int| 0 <= i < j < states.len() ==> states[i].topic != states[j].topic
}

impl IpdmBehaviour {
    /// The mesh parameters.
    pub closed spec fn cfg(&self) -> GossipsubConfig {
        self.cfg
    }

    /// The other parameters.
    pub closed spec fn tuning(&self) -> Tuning {
        self.tuning
    }

    /// The node's identity.
    pub closed spec fn identity(&self) -> Identity {
        self.identity
    }

    /// The sequence number of the next message that this node publishes.
    pub closed spec fn sequence(&self) -> u64 {
        self.sequence
    }

    /// The connected peers.
    pub closed spec fn peers(&self) -> PeerSet {
        self.peers
    }

    /// The states of the subscribed topics, in the order of subscription.
    pub closed spec fn topics(&self) -> Seq<TopicStateView> {
        Seq::new(self.topics@.len(), |i: int| self.topics@[i]@)
    }

    /// Whether this node has joined the topic called `name`.
    pub open spec fn joined(&self, name: Seq<char>) -> bool {
        has_topic(self.topics(), name)
    }

    /// The state of the topic called `name`.
    pub open spec fn state_of(&self, name: Seq<char>) -> TopicStateView {
        self.topics()[topic_index(self.topics(), name)]
    }

    /// The parameters are ordered, the peer set is well-formed, and there is
    /// one well-formed state for each topic, with a window and a store of the
    /// configured capacities and a lazy set within `mesh_n_lazy`.
    pub open spec fn wf(&self) -> bool {
        &&& self.cfg().wf()
        &&& self.peers().wf()
        &&& self.peers().floor() == self.tuning().score_floor
        &&& distinct_topics(self.topics())
        &&& forall|i: int|
            0 <= i < self.topics().len() ==> (#[trigger] self.topics()[i]).wf()
                && self.topics()[i].seen_capacity == self.tuning().seen_capacity
                && self.topics()[i].store_capacity == self.tuning().store_capacity
                && self.topics()[i].view.lazy().len() <= self.cfg().mesh_n_lazy
    }

    /// Everything but the topic states is as in `before`.
    pub open spec fn same_frame(&self, before: IpdmBehaviour) -> bool {
        &&& self.cfg() == before.cfg()
        &&& self.tuning() == before.tuning()
        &&& self.identity() == before.identity()
        &&& self.sequence() == before.sequence()
        &&& self.peers() == before.peers()
    }

    /// An engine without peers and topics. A configuration whose mesh bounds
    /// are out of order is refused.
    pub fn new(config: &IpdmConfig, identity: Identity, tuning: Tuning) -> (r: Result<
        IpdmBehaviour,
        IpdmError,
    >)
        ensures
            r is Ok <==> config.valid(),
            r matches Ok(b) ==> b.wf() && b.cfg() == config.params() && b.tuning() == tuning
                && b.identity() == identity && b.sequence() == 0 && b.peers()@ == Map::<
                PeerId,
                PeerInfoView,
            >::empty() && b.topics() == Seq::<TopicStateView>::empty(),
            r matches Err(e) ==> e@ == (if config.mesh_outbound_min > config.mesh_n_low {
                IpdmErrorView::Config(crate::config::outbound_above_low_text())
            } else {
                IpdmErrorView::Config(crate::config::low_above_high_text())
            }),
    {
        match config.validate() {
            Ok(()) => {
                let b = IpdmBehaviour {
                    cfg: config.to_gossipsub_config(),
                    tuning,
                    identity,
                    sequence: 0,
                    peers: PeerSet::new(tuning.score_floor),
                    topics: Vec::new(),
                };
                assert(b.topics() =~= Seq::<TopicStateView>::empty());
                Ok(b)
            },
            Err(e) => Err(e),
        }
    }

    /// The position of the state of `topic`.
    fn find(&self, topic: &TopicHandle) -> (r: Option<usize>)
        requires
            self.wf(),
        ensures
            match r {
                Some(i) => i < self.topics().len() && self.topics()[i as int].topic == topic@
                    && self.joined(topic@) && topic_index(self.topics(), topic@) == i,
                None => !self.joined(topic@),
            },
    {
        let mut i: usize = 0;
        while i < self.topics.len()
            invariant
                i <= self.topics@.len(),
                self.wf(),
                self.topics@.len() == self.topics().len(),
                forall|j: int| 0 <= j < i ==> self.topics()[j].topic != topic@,
            decreases self.topics@.len() - i,
        {
            if self.topics[i].topic.same(topic) {
                proof {
                    let states = self.topics();
                    assert(states[i as int].topic == topic@);
                    assert(has_topic(states, topic@));
                    let k = topic_index(states, topic@);
                    assert(0 <= k < states.len() && states[k].topic == topic@);
                    if k < i {
                        assert(states[k].topic != states[i as int].topic);
                    } else if k > i {
                        assert(states[i as int].topic != states[k].topic);
                    }
                }
                return Some(i);
            }
            i += 1;
        }
        None
    }

    /// Whether this node has joined `topic`.
    pub fn has_joined(&self, topic: &TopicHandle) -> (b: bool)
        requires
            self.wf(),
        ensures
            b == self.joined(topic@),
    {
        self.find(topic).is_some()
    }

    /// How many topics this node has joined.
    pub fn topic_count(&self) -> (n: usize)
        ensures
            n == self.topics().len(),
    {
        self.topics.len()
    }

    /// The connected peers.
    pub fn peer_set(&self) -> (p: &PeerSet)
        ensures
            *p == self.peers(),
    {
        &self.peers
    }

    /// The mesh of `topic`; nothing for a topic that was not joined.
    pub fn mesh_of(&self, topic: &TopicHandle) -> (r: Option<Vec<PeerId>>)
        requires
            self.wf(),
        ensures
            match r {
                Some(m) => self.joined(topic@) && m@ == self.state_of(topic@).view.mesh(),
                None => !self.joined(topic@),
            },
    {
        match self.find(topic) {
            Some(i) => Some(self.topics[i].view.mesh_peers().to_vec()),
            None => None,
        }
    }

    /// The lazy set of `topic`; nothing for a topic that was not joined.
    pub fn lazy_of(&self, topic: &TopicHandle) -> (r: Option<Vec<PeerId>>)
        requires
            self.wf(),
        ensures
            match r {
                Some(l) => self.joined(topic@) && l@ == self.state_of(topic@).view.lazy(),
                None => !self.joined(topic@),
            },
    {
        match self.find(topic) {
            Some(i) => Some(self.topics[i].view.lazy_peers().to_vec()),
            None => None,
        }
    }

    /// Whether the window of `topic` holds `id`.
    pub fn has_seen(&self, topic: &TopicHandle, id: MessageId) -> (b: bool)
        requires
            self.wf(),
        ensures
            b == (self.joined(topic@) && self.state_of(topic@).seen.contains(id)),
    {
        match self.find(topic) {
            Some(i) => self.topics[i].seen.contains(id),
            None => false,
        }
    }

    /// Where the mesh of the topic called `name` stands.
    pub open spec fn phase(&self, name: Seq<char>) -> MeshPhase {
        if !self.joined(name) {
            MeshPhase::Unsubscribed
        } else if self.state_of(name).view.steady(self.peers(), self.cfg()) {
            MeshPhase::Steady
        } else {
            MeshPhase::Grooming
        }
    }

    /// Where the mesh of `topic` stands.
    pub fn phase_of(&self, topic: &TopicHandle) -> (p: MeshPhase)
        requires
            self.wf(),
        ensures
            p == self.phase(topic@),
    {
        match self.find(topic) {
            Some(i) => self.topics[i].view.phase(&self.peers, &self.cfg),
            None => MeshPhase::Unsubscribed,
        }
    }

    /// Starts to keep state for `topic`: an empty mesh and an empty window. A
    /// topic that was joined before keeps its state. Says whether the topic is
    /// new.
    pub fn join(&mut self, topic: TopicHandle) -> (fresh: bool)
        requires
            old(self).wf(),
        ensures
            final(self).wf(),
            final(self).same_frame(*old(self)),
            fresh == !old(self).joined(topic@),
            forall|name: Seq<char>|
                final(self).joined(name) <==> (old(self).joined(name) || name == topic@),
            !fresh ==> final(self).topics() == old(self).topics(),
            fresh ==> final(self).topics().len() == old(self).topics().len() + 1
                && final(self).topics().drop_last() == old(self).topics() && ({
                let s = final(self).topics().last();
                s.topic == topic@ && s.view.mesh() == Seq::<PeerId>::empty() && s.view.lazy()
                    == Seq::<PeerId>::empty() && s.seen == Seq::<MessageId>::empty() && s.stored
                    == Seq::<StoredView>::empty()
            }),
    {
        match self.find(&topic) {
            Some(_) => false,
            None => {
                let state = TopicState {
                    topic,
                    view: MeshView::new(),
                    seen: SeenCache::new(self.tuning.seen_capacity),
                    store: MessageStore::new(self.tuning.store_capacity),
                };
                self.topics.push(state);
                proof {
                    let before = old(self).topics();
                    let after = self.topics();
                    assert(after =~= before.push(state@));
                    assert(after.drop_last() =~= before);
                    assert(after[before.len() as int].topic == topic@);
                    assert forall|name: Seq<char>|
                        has_topic(after, name) <==> (has_topic(before, name) || name == topic@) by {
                        if has_topic(after, name) {
                            let j = choose|j: int|
                                0 <= j < after.len() && #[trigger] after[j].topic == name;
                            if j < before.len() {
                                assert(before[j].topic == name);
                            }
                        }
                        if has_topic(before, name) {
                            let j = choose|j: int|
                                0 <= j < before.len() && #[trigger] before[j].topic == name;
                            assert(after[j].topic == name);
                        }
                    }
                }
                true
            },
        }
    }

    /// Tears down the state of `topic`. Says whether the topic was joined.
    pub fn leave(&mut self, topic: &TopicHandle) -> (was_joined: bool)
        requires
            old(self).wf(),
        ensures
            final(self).wf(),
            final(self).same_frame(*old(self)),
            was_joined == old(self).joined(topic@),
            forall|name: Seq<char>|
                final(self).joined(name) <==> (old(self).joined(name) && name != topic@),
            !was_joined ==> final(self).topics() == old(self).topics(),
            was_joined ==> final(self).topics() == old(self).topics().remove(
                topic_index(old(self).topics(), topic@),
            ),
    {
        match self.find(topic) {
            Some(i) => {
                self.topics.remove(i);
                proof {
                    let before = old(self).topics();
                    let after = self.topics();
                    assert(after =~= before.remove(i as int));
                    assert forall|name: Seq<char>|
                        has_topic(after, name) <==> (has_topic(before, name) && name != topic@) by {
                        if has_topic(after, name) {
                            let j = choose|j: int|
                                0 <= j < after.len() && #[trigger] after[j].topic == name;
                            if j < i {
                                assert(before[j].topic == name);
                                assert(before[j].topic != before[i as int].topic);
                            } else {
                                assert(before[j + 1].topic == name);
                                assert(before[i as int].topic != before[j + 1].topic);
                            }
                        }
                        if has_topic(before, name) && name != topic@ {
                            let j = choose|j: int|
                                0 <= j < before.len() && #[trigger] before[j].topic == name;
                            if j < i {
                                assert(after[j].topic == name);
                            } else {
                                assert(after[j - 1].topic == name);
                            }
                        }
                    }
                }
                true
            },
            None => false,
        }
    }

    /// One heartbeat: every topic's mesh is filled, cut and secured against
    /// the current peer set. Afterwards every mesh is within `mesh_n_high`, and
    /// at or above `mesh_n_low` wherever it was before or at least `mesh_n_high`
    /// peers are eligible for its topic.
    pub fn heartbeat(&mut self) -> (changes: Vec<MeshChange>)
        requires
            old(self).wf(),
        ensures
            final(self).wf(),
            final(self).same_frame(*old(self)),
            final(self).topics().len() == old(self).topics().len(),
            changes@.len() == old(self).topics().len(),
            forall|i: int|
                #![trigger changes@[i]]
                0 <= i < changes@.len() ==> changes@[i]@ == (MeshChangeView {
                    topic: old(self).topics()[i].topic,
                    grafted: minus(
                        final(self).topics()[i].view.mesh(),
                        old(self).topics()[i].view.mesh(),
                    ),
                    pruned: minus(
                        old(self).topics()[i].view.mesh(),
                        final(self).topics()[i].view.mesh(),
                    ),
                }),
            forall|i: int|
                #![trigger final(self).topics()[i]]
                0 <= i < final(self).topics().len() ==> {
                    let before = old(self).topics()[i];
                    let after = final(self).topics()[i];
                    &&& after.topic == before.topic
                    &&& after.seen == before.seen
                    &&& after.stored == before.stored
                    &&& after.view.beats_from(
                        before.view,
                        before.topic,
                        old(self).peers(),
                        old(self).cfg(),
                    )
                    &&& after.view.mesh().len() <= old(self).cfg().mesh_n_high
                    &&& before.view.mesh().len() >= old(self).cfg().mesh_n_low
                        ==> after.view.mesh().len() >= old(self).cfg().mesh_n_low
                    &&& old(self).peers().eligible_set(before.topic).len() >= old(
                        self,
                    ).cfg().mesh_n_high ==> after.view.mesh().len() >= old(self).cfg().mesh_n_low
                },
    {
        let mut changes: Vec<MeshChange> = Vec::new();
        let mut i: usize = 0;
        while i < self.topics.len()
            invariant
                i <= self.topics@.len(),
                self.wf(),
                self.same_frame(*old(self)),
                self.topics().len() == old(self).topics().len(),
                self.topics@.len() == self.topics().len(),
                changes@.len() == i,
                forall|j: int|
                    #![trigger changes@[j]]
                    0 <= j < i ==> changes@[j]@ == (MeshChangeView {
                        topic: old(self).topics()[j].topic,
                        grafted: minus(
                            self.topics()[j].view.mesh(),
                            old(self).topics()[j].view.mesh(),
                        ),
                        pruned: minus(
                            old(self).topics()[j].view.mesh(),
                            self.topics()[j].view.mesh(),
                        ),
                    }),
                forall|j: int|
                    #![trigger self.topics()[j]]
                    i <= j < self.topics().len() ==> self.topics()[j] == old(self).topics()[j],
                forall|j: int|
                    #![trigger self.topics()[j]]
                    0 <= j < self.topics().len() ==> self.topics()[j].topic == old(
                        self,
                    ).topics()[j].topic && self.topics()[j].seen == old(self).topics()[j].seen
                        && self.topics()[j].stored == old(self).topics()[j].stored,
                forall|j: int|
                    #![trigger self.topics()[j]]
                    0 <= j < i ==> {
                        let before = old(self).topics()[j];
                        let after = self.topics()[j];
                        &&& after.view.beats_from(
                            before.view,
                            before.topic,
                            old(self).peers(),
                            old(self).cfg(),
                        )
                        &&& after.view.mesh().len() <= old(self).cfg().mesh_n_high
                        &&& before.view.mesh().len() >= old(self).cfg().mesh_n_low
                            ==> after.view.mesh().len() >= old(self).cfg().mesh_n_low
                        &&& old(self).peers().eligible_set(before.topic).len() >= old(
                            self,
                        ).cfg().mesh_n_high ==> after.view.mesh().len() >= old(
                            self,
                        ).cfg().mesh_n_low
                    },
            decreases self.topics@.len() - i,
        {
            let ghost start = self.topics();
            assert(start[i as int].wf());
            let mut state = self.topics.remove(i);
            let was = state.view.mesh_peers().clone();
            state.view.heartbeat(&state.topic, &self.peers, &self.cfg);
            let grafted = state.view.mesh_peers().difference(&was);
            let pruned = was.difference(state.view.mesh_peers());
            let ghost earlier = changes@;
            changes.push(MeshChange { topic: state.topic.clone(), grafted, pruned });
            let ghost beaten = state@;
            self.topics.insert(i, state);
            proof {
                let now = self.topics();
                assert(now =~= start.update(i as int, beaten));
                assert forall|j: int| 0 <= j < i implies now[j] == start[j] && changes@[j]
                    == earlier[j] by {}
                assert forall|a: int, b: int| 0 <= a < b < now.len() implies now[a].topic
                    != now[b].topic by {
                    assert(now[a].topic == start[a].topic);
                    assert(now[b].topic == start[b].topic);
                }
                assert forall|j: int| 0 <= j < now.len() implies (#[trigger] now[j]).wf()
                    && now[j].seen_capacity == self.tuning().seen_capacity
                    && now[j].store_capacity == self.tuning().store_capacity
                    && now[j].view.lazy().len() <= self.cfg().mesh_n_lazy by {
                    if j != i {
                        assert(now[j] == start[j]);
                    }
                }
            }
            i += 1;
        }
        changes
    }

    /// Takes the state at `i` out for a change.
    fn take_state(&mut self, i: usize) -> (state: TopicState)
        requires
            old(self).wf(),
            i < old(self).topics().len(),
        ensures
            state@ == old(self).topics()[i as int],
            state.wf(),
            state@.view.lazy().len() <= old(self).cfg().mesh_n_lazy,
            final(self).same_frame(*old(self)),
            final(self).topics() == old(self).topics().remove(i as int),
    {
        assert(self.topics()[i as int].wf());
        let state = self.topics.remove(i);
        assert(self.topics() =~= old(self).topics().remove(i as int));
        state
    }

    /// Puts a changed state back where it was taken from.
    fn put_state(&mut self, i: usize, state: TopicState, Ghost(before): Ghost<IpdmBehaviour>)
        requires
            before.wf(),
            i < before.topics().len(),
            old(self).same_frame(before),
            old(self).topics() == before.topics().remove(i as int),
            state.wf(),
            state@.topic == before.topics()[i as int].topic,
            state@.seen_capacity == before.topics()[i as int].seen_capacity,
            state@.store_capacity == before.topics()[i as int].store_capacity,
            state@.view.lazy().len() <= before.cfg().mesh_n_lazy,
        ensures
            final(self).wf(),
            final(self).same_frame(before),
            final(self).topics() == before.topics().update(i as int, state@),
    {
        let ghost rest = self.topics();
        assert(self.topics@.len() == rest.len());
        self.topics.insert(i, state);
        proof {
            let start = before.topics();
            let now = self.topics();
            let target = start.update(i as int, state@);
            assert(now.len() == target.len());
            assert forall|k: int| 0 <= k < target.len() implies now[k] == target[k] by {
                if k < i {
                    assert(self.topics@[k] == old(self).topics@[k]);
                    assert(rest[k] == start[k]);
                } else if k > i {
                    assert(self.topics@[k] == old(self).topics@[k - 1]);
                    assert(rest[k - 1] == start[k]);
                }
            }
            assert(now =~= target);
            assert forall|a: int, b: int| 0 <= a < b < now.len() implies now[a].topic
                != now[b].topic by {
                assert(now[a].topic == start[a].topic);
                assert(now[b].topic == start[b].topic);
            }
            assert forall|j: int| 0 <= j < now.len() implies (#[trigger] now[j]).wf()
                && now[j].seen_capacity == self.tuning().seen_capacity
                && now[j].store_capacity == self.tuning().store_capacity
                && now[j].view.lazy().len() <= self.cfg().mesh_n_lazy by {
                if j != i {
                    assert(now[j] == start[j]);
                }
            }
        }
    }

    /// The envelope that this node makes of `message` and `signature`.
    pub open spec fn outgoing(
        &self,
        message: IpdmMessageView,
        signature: Seq<u8>,
    ) -> MessageEnvelopeView {
        MessageEnvelopeView {
            message,
            sender: self.identity().public_key(),
            sequence: self.sequence(),
            signature,
        }
    }

    /// The bytes that this node signs to publish `message`.
    pub open spec fn signing_input(&self, message: IpdmMessageView) -> Seq<u8> {
        self.outgoing(message, Seq::empty()).signed_part()
    }

    /// What publishing `message` on `topic` returns, given the signature that
    /// was made for it: a `Topic` error for a topic that was not joined, a
    /// `Validation` error without a signature, a `Serialization` error for an
    /// envelope beyond the transmit size, and otherwise the order to send the
    /// envelope to the mesh and its announcement to the lazy set.
    pub open spec fn publish_result(
        &self,
        topic: Seq<char>,
        message: IpdmMessageView,
        signature: Option<Seq<u8>>,
    ) -> Result<DispatchView, IpdmErrorView> {
        if !self.joined(topic) {
            Err(IpdmErrorView::Topic(topic))
        } else {
            match signature {
                None => Err(IpdmErrorView::Validation(unsigned_text())),
                Some(sig) => {
                    let e = self.outgoing(message, sig);
                    if enc_envelope(e).len() > self.cfg().max_transmit_size {
                        Err(IpdmErrorView::Serialization(oversized_text()))
                    } else {
                        Ok(
                            DispatchView {
                                topic,
                                id: e.id(),
                                wire: enc_envelope(e),
                                full: self.state_of(topic).view.mesh(),
                                announce: self.state_of(topic).view.lazy(),
                            },
                        )
                    }
                },
            }
        }
    }

    /// How publishing changes the state: a failed publish changes nothing; a
    /// successful one remembers the identifier in the topic's window, keeps the
    /// envelope in the topic's store, moves the sequence number on, and counts
    /// one message to each peer of the mesh.
    pub open spec fn published_from(
        &self,
        before: IpdmBehaviour,
        topic: Seq<char>,
        message: IpdmMessageView,
        signature: Option<Seq<u8>>,
    ) -> bool {
        &&& self.cfg() == before.cfg()
        &&& self.tuning() == before.tuning()
        &&& self.identity() == before.identity()
        &&& match before.publish_result(topic, message, signature) {
            Ok(d) => self.sequence() == next_sequence(before.sequence()) && self.topics()
                == with_message(
                before.topics(),
                topic_index(before.topics(), topic),
                d.id,
                d.wire,
            ) && self.peers()@ == debited_all(before.peers()@, d.full),
            Err(_) => self.sequence() == before.sequence() && self.topics() == before.topics()
                && self.peers() == before.peers(),
        }
    }

    /// Publishes `message` on `topic` under a signature that was made
    /// elsewhere: `signature` is what signing [`IpdmBehaviour::signing_input`]
    /// gave, or nothing where signing failed.
    pub fn publish_signed(
        &mut self,
        topic: &TopicHandle,
        message: IpdmMessage,
        signature: Option<Vec<u8>>,
    ) -> (r: Result<Dispatch, IpdmError>)
        requires
            old(self).wf(),
        ensures
            final(self).wf(),
            match r {
                Ok(d) => old(self).publish_result(
                    topic@,
                    message@,
                    match signature {
                        Some(s) => Some(s@),
                        None => None,
                    },
                ) == Ok::<DispatchView, IpdmErrorView>(d@),
                Err(e) => old(self).publish_result(
                    topic@,
                    message@,
                    match signature {
                        Some(s) => Some(s@),
                        None => None,
                    },
                ) == Err::<DispatchView, IpdmErrorView>(e@),
            },
            final(self).published_from(
                *old(self),
                topic@,
                message@,
                match signature {
                    Some(s) => Some(s@),
                    None => None,
                },
            ),
    {
        let i = match self.find(topic) {
            Some(i) => i,
            None => {
                return Err(IpdmError::Topic(topic.name().clone()));
            },
        };
        let signature = match signature {
            Some(s) => s,
            None => {
                return Err(IpdmError::Validation(String::from_str("envelope could not be signed")));
            },
        };
        let mut sender: Vec<u8> = Vec::new();
        crate::types::wire::put_slice(&mut sender, self.identity.public_key_bytes().as_slice());
        assert(sender@ =~= self.identity().public_key());
        let envelope = MessageEnvelope { message, sender, sequence: self.sequence, signature };
        let wire = envelope.encode();
        if wire.len() > self.cfg.max_transmit_size {
            return Err(
                IpdmError::Serialization(String::from_str("message exceeds max_transmit_size")),
            );
        }
        let id = envelope.id();
        let ghost before = *self;
        let mut state = self.take_state(i);
        state.seen.insert(id);
        state.store.insert(id, wire.as_slice());
        let full = state.view.mesh_peers().to_vec();
        let announce = state.view.lazy_peers().to_vec();
        self.put_state(i, state, Ghost(before));
        self.sequence = if self.sequence == u64::MAX {
            0
        } else {
            self.sequence + 1
        };
        self.peers.record_sent_all(&full);
        Ok(Dispatch { topic: topic.clone(), id, wire, full, announce })
    }

    /// Publishes `message` on `topic`: wraps it into an envelope with this
    /// node's public key and sequence number, signs it, remembers its
    /// identifier, and orders it to the mesh and its announcement to the lazy
    /// set.
    pub fn publish(&mut self, topic: &TopicHandle, message: IpdmMessage) -> (r: Result<
        Dispatch,
        IpdmError,
    >)
        requires
            old(self).wf(),
        ensures
            final(self).wf(),
            match r {
                Ok(d) => old(self).publish_result(
                    topic@,
                    message@,
                    signature_by(old(self).identity().keypair(), old(self).signing_input(message@)),
                ) == Ok::<DispatchView, IpdmErrorView>(d@),
                Err(e) => old(self).publish_result(
                    topic@,
                    message@,
                    signature_by(old(self).identity().keypair(), old(self).signing_input(message@)),
                ) == Err::<DispatchView, IpdmErrorView>(e@),
            },
            final(self).published_from(
                *old(self),
                topic@,
                message@,
                signature_by(old(self).identity().keypair(), old(self).signing_input(message@)),
            ),
    {
        let input = MessageEnvelope::signing_input(
            &message,
            self.identity.public_key_bytes().as_slice(),
            self.sequence,
        );
        let signature = self.identity.sign(input.as_slice());
        self.publish_signed(topic, message, signature)
    }

    /// What becomes of an envelope that `peer` forwarded on `topic`, given
    /// what the two stateless checks found: it is ignored for a topic that was
    /// not joined; otherwise validation decides, and an accepted envelope is
    /// ordered to the mesh and announced to the lazy set, `peer` left out of
    /// both.
    pub open spec fn reception(
        &self,
        peer: PeerId,
        topic: Seq<char>,
        decoded: Option<MessageEnvelopeView>,
        signature_ok: Option<bool>,
    ) -> ReceptionView {
        if !self.joined(topic) {
            ReceptionView::Unsubscribed
        } else {
            match admission_of(self.state_of(topic).seen, decoded, signature_ok) {
                AdmissionView::Accepted(e, id) => ReceptionView::Accepted {
                    dispatch: DispatchView {
                        topic,
                        id,
                        wire: enc_envelope(e),
                        full: without(self.state_of(topic).view.mesh(), peer),
                        announce: without(self.state_of(topic).view.lazy(), peer),
                    },
                    envelope: e,
                },
                AdmissionView::Duplicate(id) => ReceptionView::Duplicate(id),
                AdmissionView::Rejected(v) => ReceptionView::Rejected(v),
            }
        }
    }

    /// How an inbound envelope changes the state: `peer` is marked as heard
    /// from; an accepted envelope is remembered in the topic's window, kept in
    /// the topic's store, counted for `peer`, and counted as sent to each peer
    /// that it is forwarded to; a
    /// rejected one is counted against `peer` and leaves every window as it was;
    /// a duplicate changes nothing more.
    pub open spec fn received_from(
        &self,
        before: IpdmBehaviour,
        peer: PeerId,
        topic: Seq<char>,
        decoded: Option<MessageEnvelopeView>,
        signature_ok: Option<bool>,
        now: u64,
    ) -> bool {
        &&& self.cfg() == before.cfg()
        &&& self.tuning() == before.tuning()
        &&& self.identity() == before.identity()
        &&& self.sequence() == before.sequence()
        &&& match before.reception(peer, topic, decoded, signature_ok) {
            ReceptionView::Accepted { dispatch, envelope } => self.peers()@ == debited_all(
                credited(heard(before.peers()@, peer, now), peer),
                dispatch.full,
            ) && self.topics() == with_message(
                before.topics(),
                topic_index(before.topics(), topic),
                dispatch.id,
                dispatch.wire,
            ),
            ReceptionView::Rejected(_) => self.peers()@ == penalised(
                heard(before.peers()@, peer, now),
                peer,
            ) && self.topics() == before.topics(),
            _ => self.peers()@ == heard(before.peers()@, peer, now) && self.topics()
                == before.topics(),
        }
    }

    /// Handles an envelope that `peer` forwarded on `topic`, from the outcome
    /// of the two stateless checks: `decoded` is what the structural check
    /// gave, `signature_ok` what the signature check gave, where it was made.
    pub fn on_inbound_checked(
        &mut self,
        peer: PeerId,
        topic: &TopicHandle,
        decoded: Option<MessageEnvelope>,
        signature_ok: Option<bool>,
        now: u64,
    ) -> (r: Reception)
        requires
            old(self).wf(),
        ensures
            final(self).wf(),
            r@ == old(self).reception(
                peer,
                topic@,
                match decoded {
                    Some(e) => Some(e@),
                    None => None,
                },
                signature_ok,
            ),
            final(self).received_from(
                *old(self),
                peer,
                topic@,
                match decoded {
                    Some(e) => Some(e@),
                    None => None,
                },
                signature_ok,
                now,
            ),
    {
        self.peers.record_activity(peer, now);
        let i = match self.find(topic) {
            Some(i) => i,
            None => {
                return Reception::Unsubscribed;
            },
        };
        let ghost before = *self;
        let mut state = self.take_state(i);
        let admission = decide(&mut state.seen, decoded, signature_ok);
        let full = state.view.mesh_peers().clone();
        let announce = state.view.lazy_peers().clone();
        match admission {
            Admission::Accepted(envelope, id) => {
                let wire = envelope.encode();
                state.store.insert(id, wire.as_slice());
                self.put_state(i, state, Ghost(before));
                self.peers.record_valid(peer);
                let mut full = full;
                let mut announce = announce;
                full.remove(peer);
                announce.remove(peer);
                let full = full.to_vec();
                self.peers.record_sent_all(&full);
                Reception::Accepted {
                    dispatch: Dispatch {
                        topic: topic.clone(),
                        id,
                        wire,
                        full,
                        announce: announce.to_vec(),
                    },
                    envelope,
                }
            },
            Admission::Duplicate(id) => {
                let ghost same = state@;
                self.put_state(i, state, Ghost(before));
                proof {
                    assert(same == before.topics()[i as int]);
                    assert(self.topics() =~= before.topics());
                }
                Reception::Duplicate(id)
            },
            Admission::Rejected(verdict) => {
                let ghost same = state@;
                self.put_state(i, state, Ghost(before));
                proof {
                    assert(same == before.topics()[i as int]);
                    assert(self.topics() =~= before.topics());
                }
                self.peers.record_invalid(peer);
                Reception::Rejected(verdict)
            },
        }
    }

    /// Handles wire bytes that `peer` forwarded on `topic`: decodes them,
    /// checks the signature, and goes on as
    /// [`IpdmBehaviour::on_inbound_checked`].
    pub fn on_inbound(&mut self, peer: PeerId, topic: &TopicHandle, wire: &[u8], now: u64) -> (r:
        Reception)
        requires
            old(self).wf(),
        ensures
            final(self).wf(),
            r@ == old(self).reception(
                peer,
                topic@,
                opened(wire@),
                authenticity_of(opened(wire@)),
            ),
            final(self).received_from(
                *old(self),
                peer,
                topic@,
                opened(wire@),
                authenticity_of(opened(wire@)),
                now,
            ),
    {
        match MessageEnvelope::decode(wire) {
            Ok(envelope) => {
                let ok = authenticate(&envelope);
                self.on_inbound_checked(peer, topic, Some(envelope), Some(ok), now)
            },
            Err(_) => self.on_inbound_checked(peer, topic, None, None, now),
        }
    }

    /// What to do about the announcement of `id` on `topic` after `attempts`
    /// pulls of it have failed.
    pub open spec fn pull_decision(
        &self,
        topic: Seq<char>,
        id: MessageId,
        attempts: u32,
    ) -> PullDecision {
        if !self.joined(topic) {
            PullDecision::Unsubscribed
        } else if self.state_of(topic).seen.contains(id) {
            PullDecision::AlreadySeen
        } else if attempts >= self.tuning().pull_budget {
            PullDecision::Exhausted
        } else {
            PullDecision::Request
        }
    }

    /// Decides about an announcement: an unseen message is pulled from the
    /// announcing peer until the retry budget is spent.
    pub fn on_announcement(&self, topic: &TopicHandle, id: MessageId, attempts: u32) -> (d:
        PullDecision)
        requires
            self.wf(),
        ensures
            d == self.pull_decision(topic@, id, attempts),
    {
        match self.find(topic) {
            None => PullDecision::Unsubscribed,
            Some(i) => {
                if self.topics[i].seen.contains(id) {
                    PullDecision::AlreadySeen
                } else if attempts >= self.tuning.pull_budget {
                    PullDecision::Exhausted
                } else {
                    PullDecision::Request
                }
            },
        }
    }

    /// The envelope that answers a pull: the one that the store of the topic
    /// called `name` holds under `id`.
    pub open spec fn pull_answer(&self, name: Seq<char>, id: MessageId) -> Option<Seq<u8>> {
        if self.joined(name) {
            stored(self.state_of(name).stored, id)
        } else {
            None
        }
    }

    /// Answers the pull of the message `id` on `topic` from the store of the
    /// topic; nothing where the store does not hold the message.
    pub fn on_pull(&self, topic: &TopicHandle, id: MessageId) -> (r: Option<Vec<u8>>)
        requires
            self.wf(),
        ensures
            match r {
                Some(wire) => self.pull_answer(topic@, id) == Some(wire@),
                None => self.pull_answer(topic@, id) is None,
            },
    {
        match self.find(topic) {
            Some(i) => {
                assert(self.topics()[i as int].wf());
                self.topics[i].store.get(id)
            },
            None => None,
        }
    }

    /// Records that `p` connected at `now`, over a connection that this node
    /// opened if `outbound`.
    pub fn peer_connected(&mut self, p: PeerId, node_type: NodeType, outbound: bool, now: u64)
        requires
            old(self).wf(),
        ensures
            final(self).wf(),
            final(self).cfg() == old(self).cfg(),
            final(self).tuning() == old(self).tuning(),
            final(self).identity() == old(self).identity(),
            final(self).sequence() == old(self).sequence(),
            final(self).topics() == old(self).topics(),
            final(self).peers()@ == connected(old(self).peers()@, p, node_type, outbound, now),
    {
        self.peers.on_connected(p, node_type, outbound, now);
    }

    /// Forgets `p`: its record goes, and it leaves the mesh and the lazy set of
    /// every topic. Says whether it was connected.
    pub fn peer_disconnected(&mut self, p: PeerId) -> (was_connected: bool)
        requires
            old(self).wf(),
        ensures
            final(self).wf(),
            final(self).cfg() == old(self).cfg(),
            final(self).tuning() == old(self).tuning(),
            final(self).identity() == old(self).identity(),
            final(self).sequence() == old(self).sequence(),
            was_connected == old(self).peers()@.dom().contains(p),
            final(self).peers()@ == old(self).peers()@.remove(p),
            final(self).topics().len() == old(self).topics().len(),
            forall|i: int|
                #![trigger final(self).topics()[i]]
                0 <= i < final(self).topics().len() ==> {
                    let before = old(self).topics()[i];
                    let after = final(self).topics()[i];
                    &&& after.topic == before.topic
                    &&& after.seen == before.seen
                    &&& after.stored == before.stored
                    &&& after.view.mesh() == without(before.view.mesh(), p)
                    &&& after.view.lazy() == without(before.view.lazy(), p)
                },
    {
        let was_connected = self.peers.on_disconnected(p);
        let ghost gone = self.peers;
        let mut i: usize = 0;
        while i < self.topics.len()
            invariant
                i <= self.topics().len(),
                self.topics@.len() == self.topics().len(),
                self.wf(),
                self.cfg() == old(self).cfg(),
                self.tuning() == old(self).tuning(),
                self.identity() == old(self).identity(),
                self.sequence() == old(self).sequence(),
                self.peers() == gone,
                self.topics().len() == old(self).topics().len(),
                forall|j: int|
                    #![trigger self.topics()[j]]
                    i <= j < self.topics().len() ==> self.topics()[j] == old(self).topics()[j],
                forall|j: int|
                    #![trigger self.topics()[j]]
                    0 <= j < i ==> {
                        let before = old(self).topics()[j];
                        let after = self.topics()[j];
                        &&& after.topic == before.topic
                        &&& after.seen == before.seen
                        &&& after.stored == before.stored
                        &&& after.view.mesh() == without(before.view.mesh(), p)
                        &&& after.view.lazy() == without(before.view.lazy(), p)
                    },
            decreases self.topics().len() - i,
        {
            let ghost before = *self;
            let mut state = self.take_state(i);
            state.view.remove_peer(p);
            self.put_state(i, state, Ghost(before));
            i += 1;
        }
        was_connected
    }

    /// Records that `p` announced a subscription to `topic`.
    pub fn peer_subscribed(&mut self, p: PeerId, topic: &TopicHandle)
        requires
            old(self).wf(),
        ensures
            final(self).wf(),
            final(self).cfg() == old(self).cfg(),
            final(self).tuning() == old(self).tuning(),
            final(self).identity() == old(self).identity(),
            final(self).sequence() == old(self).sequence(),
            final(self).topics() == old(self).topics(),
            final(self).peers()@ == with_topic(old(self).peers()@, p, topic@, true),
    {
        self.peers.peer_subscribed(p, topic);
    }

    /// Records that `p` withdrew its subscription to `topic`; `p` leaves the
    /// mesh and the lazy set of that topic.
    pub fn peer_unsubscribed(&mut self, p: PeerId, topic: &TopicHandle)
        requires
            old(self).wf(),
        ensures
            final(self).wf(),
            final(self).cfg() == old(self).cfg(),
            final(self).tuning() == old(self).tuning(),
            final(self).identity() == old(self).identity(),
            final(self).sequence() == old(self).sequence(),
            final(self).peers()@ == with_topic(old(self).peers()@, p, topic@, false),
            !old(self).joined(topic@) ==> final(self).topics() == old(self).topics(),
            old(self).joined(topic@) ==> {
                let i = topic_index(old(self).topics(), topic@);
                &&& differs_at(final(self).topics(), old(self).topics(), i)
                &&& final(self).topics()[i].view.mesh() == without(
                    old(self).topics()[i].view.mesh(),
                    p,
                )
                &&& final(self).topics()[i].view.lazy() == without(
                    old(self).topics()[i].view.lazy(),
                    p,
                )
            },
    {
        self.peers.peer_unsubscribed(p, topic);
        match self.find(topic) {
            Some(i) => {
                let ghost before = *self;
                let mut state = self.take_state(i);
                state.view.remove_peer(p);
                self.put_state(i, state, Ghost(before));
            },
            None => {},
        }
    }

    /// Handles the request of `p` to join this node's mesh of `topic`. A
    /// connected peer is taken into the mesh of a joined topic, whatever the
    /// size of the mesh: the next heartbeat cuts it. Says whether `p` is now in
    /// the mesh.
    pub fn peer_grafted(&mut self, p: PeerId, topic: &TopicHandle) -> (accepted: bool)
        requires
            old(self).wf(),
        ensures
            final(self).wf(),
            final(self).same_frame(*old(self)),
            accepted == (old(self).joined(topic@) && old(self).peers()@.dom().contains(p)),
            !accepted ==> final(self).topics() == old(self).topics(),
            accepted ==> {
                let i = topic_index(old(self).topics(), topic@);
                let before = old(self).topics()[i].view;
                &&& differs_at(final(self).topics(), old(self).topics(), i)
                &&& final(self).topics()[i].view.mesh() == if before.mesh().contains(p) {
                    before.mesh()
                } else {
                    before.mesh().push(p)
                }
                &&& final(self).topics()[i].view.lazy() == without(before.lazy(), p)
            },
    {
        if !self.peers.contains(p) {
            return false;
        }
        match self.find(topic) {
            Some(i) => {
                let ghost before = *self;
                let mut state = self.take_state(i);
                state.view.graft(p);
                self.put_state(i, state, Ghost(before));
                true
            },
            None => false,
        }
    }

    /// Handles the notice of `p` that it has left this node's mesh of `topic`:
    /// `p` leaves the mesh of a joined topic, for the lazy set while that has
    /// room.
    pub fn peer_pruned(&mut self, p: PeerId, topic: &TopicHandle)
        requires
            old(self).wf(),
        ensures
            final(self).wf(),
            final(self).same_frame(*old(self)),
            !old(self).joined(topic@) ==> final(self).topics() == old(self).topics(),
            old(self).joined(topic@) ==> {
                let i = topic_index(old(self).topics(), topic@);
                let before = old(self).topics()[i].view;
                &&& differs_at(final(self).topics(), old(self).topics(), i)
                &&& final(self).topics()[i].view.mesh() == without(before.mesh(), p)
                &&& final(self).topics()[i].view.lazy() == if before.mesh().contains(p)
                    && before.lazy().len() < old(self).cfg().mesh_n_lazy {
                    before.lazy().push(p)
                } else {
                    before.lazy()
                }
            },
    {
        match self.find(topic) {
            Some(i) => {
                let ghost before = *self;
                let mut state = self.take_state(i);
                state.view.prune(p, self.cfg.mesh_n_lazy);
                self.put_state(i, state, Ghost(before));
            },
            None => {},
        }
    }
}

/// States with the same topics in the same places hold the same topics.
pub proof fn lemma_same_topics(a: Seq<TopicStateView>, b: Seq<TopicStateView>)
    requires
        a.len() == b.len(),
        forall|i: int| 0 <= i < a.len() ==> (#[trigger] a[i]).topic == b[i].topic,
    ensures
        forall|name: Seq<char>| has_topic(a, name) <==> has_topic(b, name),
{
    assert forall|name: Seq<char>| has_topic(a, name) <==> has_topic(b, name) by {
        if has_topic(a, name) {
            let j = choose|j: int| 0 <= j < a.len() && #[trigger] a[j].topic == name;
            assert(a[j].topic == b[j].topic);
        }
        if has_topic(b, name) {
            let j = choose|j: int| 0 <= j < b.len() && #[trigger] b[j].topic == name;
            assert(a[j].topic == b[j].topic);
        }
    }
}

/// An envelope that does not decode, or whose signature was not found good,
/// is rejected on every joined topic: it is forwarded to nobody, and no window
/// changes.
pub proof fn lemma_rejected_leaves_no_trace(
    before: IpdmBehaviour,
    after: IpdmBehaviour,
    peer: PeerId,
    topic: Seq<char>,
    decoded: Option<MessageEnvelopeView>,
    signature_ok: Option<bool>,
    now: u64,
)
    requires
        before.joined(topic),
        decoded is None || signature_ok != Some(true),
        after.received_from(before, peer, topic, decoded, signature_ok, now),
    ensures
        before.reception(peer, topic, decoded, signature_ok) is Rejected,
        after.topics() == before.topics(),
{
}

/// Right after a successful publish, with a window that remembers anything at
/// all, an envelope that carries the published message is not accepted,
/// whoever forwards it: the publisher is not handed its own message.
pub proof fn lemma_own_message_not_redelivered(
    before: IpdmBehaviour,
    after: IpdmBehaviour,
    topic: Seq<char>,
    message: IpdmMessageView,
    signature: Option<Seq<u8>>,
    peer: PeerId,
    echo: MessageEnvelopeView,
    signature_ok: Option<bool>,
)
    requires
        before.wf(),
        before.tuning().seen_capacity > 0,
        before.publish_result(topic, message, signature) is Ok,
        after.published_from(before, topic, message, signature),
        echo.message == message,
    ensures
        !(after.reception(peer, topic, Some(echo), signature_ok) is Accepted),
{
    let states = before.topics();
    let i = topic_index(states, topic);
    let id = echo.id();
    let changed = after.topics();
    assert(0 <= i < states.len() && states[i].topic == topic);
    assert(changed[i].topic == topic);
    assert(has_topic(changed, topic));
    let k = topic_index(changed, topic);
    assert(0 <= k < changed.len() && changed[k].topic == topic);
    assert(k == i) by {
        if k != i {
            assert(changed[k] == states[k]);
            if k < i {
                assert(states[k].topic != states[i].topic);
            } else {
                assert(states[i].topic != states[k].topic);
            }
        }
    }
    assert(states[i].wf());
    let window = remembered(states[i].seen, states[i].seen_capacity, id);
    assert(window.contains(id)) by {
        if !states[i].seen.contains(id) {
            if states[i].seen.len() < states[i].seen_capacity {
                assert(window[states[i].seen.len() as int] == id);
            } else {
                assert(window[window.len() - 1] == id);
            }
        }
    }
}

/// Two nodes that accept the same wire bytes give the message the same
/// identifier, whatever their states and whoever forwarded the bytes.
pub proof fn lemma_same_wire_same_id(
    a: IpdmBehaviour,
    b: IpdmBehaviour,
    wire: Seq<u8>,
    topic: Seq<char>,
    peer_a: PeerId,
    peer_b: PeerId,
)
    requires
        a.reception(peer_a, topic, opened(wire), authenticity_of(opened(wire))) is Accepted,
        b.reception(peer_b, topic, opened(wire), authenticity_of(opened(wire))) is Accepted,
    ensures
        a.reception(peer_a, topic, opened(wire), authenticity_of(opened(wire)))->dispatch.id
            == b.reception(
            peer_b,
            topic,
            opened(wire),
            authenticity_of(opened(wire)),
        )->dispatch.id,
        a.reception(peer_a, topic, opened(wire), authenticity_of(opened(wire)))->dispatch.id
            == crate::types::envelope::message_id_of(
            crate::types::codec::enc_message(opened(wire)->Some_0.message),
        ),
{
}

} // verus!
