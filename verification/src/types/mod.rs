//! Message and peer data structures shared by every component.

pub mod message;
pub mod codec;
pub mod envelope;
pub mod wire;

pub use message::{AccountMessage, IpdmMessage, SlotMessage, TransactionMessage};

use vstd::prelude::*;
use vstd::string::*;

verus! {

/// Handle of a peer. The transport layer owns the mapping between these
/// handles and the peers' cryptographic identities.
#[derive(Debug, Clone, Copy, PartialEq, Eq, Hash, Structural)]
pub struct PeerId(pub u64);

/// Content-derived identifier of a message, the deduplication key.
#[derive(Debug, Clone, Copy, PartialEq, Eq, Hash, Structural)]
pub struct MessageId(pub u64);

/// Role that a peer plays in the network.
#[derive(Debug, Clone, Copy, PartialEq, Eq, Structural)]
pub enum NodeType {
    Validator,
    RpcNode,
    LightClient,
    IndexerNode,
}

/// The outcome of the stateless checks on an inbound envelope.
#[derive(Debug, PartialEq, Eq)]
pub enum ValidationResult {
    /// Well-formed and authentic.
    Valid,
    /// Malformed or not authentic, with the reason.
    Invalid(String),
    /// Well-formed; the signature has not been checked yet.
    NeedsVerification,
}

/// Mathematical value of a [`ValidationResult`].
pub enum ValidationResultView {
    Valid,
    Invalid(Seq<char>),
    NeedsVerification,
}

impl View for ValidationResult {
    type V = ValidationResultView;

    open spec fn view(&self) -> ValidationResultView {
        match self {
            ValidationResult::Valid => ValidationResultView::Valid,
            ValidationResult::Invalid(reason) => ValidationResultView::Invalid(reason@),
            ValidationResult::NeedsVerification => ValidationResultView::NeedsVerification,
        }
    }
}

impl Clone for ValidationResult {
    fn clone(&self) -> (r: ValidationResult)
        ensures
            r@ == self@,
    {
        match self {
            ValidationResult::Valid => ValidationResult::Valid,
            ValidationResult::Invalid(reason) => ValidationResult::Invalid(reason.clone()),
            ValidationResult::NeedsVerification => ValidationResult::NeedsVerification,
        }
    }
}

/// The reason given for bytes that hold no envelope.
pub open spec fn malformed_reason() -> Seq<char> {
    "malformed envelope"@
}

/// The reason given for a signature that does not verify.
pub open spec fn unauthentic_reason() -> Seq<char> {
    "signature does not verify"@
}

/// What the stateless checks conclude from whether the envelope decoded and
/// from the signature check, where it was made.
pub open spec fn verdict_of(well_formed: bool, signature_ok: Option<bool>) -> ValidationResultView {
    if !well_formed {
        ValidationResultView::Invalid(malformed_reason())
    } else {
        match signature_ok {
            None => ValidationResultView::NeedsVerification,
            Some(false) => ValidationResultView::Invalid(unauthentic_reason()),
            Some(true) => ValidationResultView::Valid,
        }
    }
}

impl ValidationResult {
    /// Concludes the stateless checks.
    pub fn of(well_formed: bool, signature_ok: Option<bool>) -> (r: ValidationResult)
        ensures
            r@ == verdict_of(well_formed, signature_ok),
    {
        if !well_formed {
            ValidationResult::Invalid(String::from_str("malformed envelope"))
        } else {
            match signature_ok {
                None => ValidationResult::NeedsVerification,
                Some(false) => ValidationResult::Invalid(
                    String::from_str("signature does not verify"),
                ),
                Some(true) => ValidationResult::Valid,
            }
        }
    }

    /// Whether the envelope passed.
    pub fn is_valid(&self) -> (b: bool)
        ensures
            b == (self@ == ValidationResultView::Valid),
    {
        match self {
            ValidationResult::Valid => true,
            _ => false,
        }
    }
}

/// Counters kept for one peer.
#[derive(Debug, Clone, Copy, PartialEq, Eq, Structural)]
pub struct PeerMetrics {
    pub messages_received: u64,
    pub messages_sent: u64,
    pub invalid_messages: u64,
    pub uptime: u64,
}

/// `n + 1`, or `n` where that does not fit.
pub open spec fn bumped(n: u64) -> u64 {
    if n < u64::MAX {
        (n + 1) as u64
    } else {
        n
    }
}

impl Default for PeerMetrics {
    fn default() -> (m: PeerMetrics)
        ensures
            m == (PeerMetrics {
                messages_received: 0,
                messages_sent: 0,
                invalid_messages: 0,
                uptime: 0,
            }),
    {
        PeerMetrics { messages_received: 0, messages_sent: 0, invalid_messages: 0, uptime: 0 }
    }
}

/// What this node knows of one connected peer.
#[derive(Debug)]
pub struct PeerInfo {
    pub peer_id: PeerId,
    /// The topics that the peer has announced a subscription to.
    pub subscribed_topics: Vec<String>,
    /// When the peer was last heard from, in seconds since the epoch.
    pub last_seen: u64,
    /// When the peer connected, in seconds since the epoch.
    pub connected_at: u64,
    pub node_type: NodeType,
    /// The peer's standing; it falls with every invalid message.
    pub score: i64,
    /// Whether this node opened the connection.
    pub outbound: bool,
    pub metrics: PeerMetrics,
}

/// Mathematical value of a [`PeerInfo`].
pub struct PeerInfoView {
    pub peer_id: PeerId,
    pub topics: Set<Seq<char>>,
    pub last_seen: u64,
    pub connected_at: u64,
    pub node_type: NodeType,
    pub score: i64,
    pub outbound: bool,
    pub metrics: PeerMetrics,
}

impl View for PeerInfo {
    type V = PeerInfoView;

    open spec fn view(&self) -> PeerInfoView {
        PeerInfoView {
            peer_id: self.peer_id,
            topics: self.topic_names().to_set(),
            last_seen: self.last_seen,
            connected_at: self.connected_at,
            node_type: self.node_type,
            score: self.score,
            outbound: self.outbound,
            metrics: self.metrics,
        }
    }
}

impl Clone for PeerInfo {
    fn clone(&self) -> (r: PeerInfo)
        ensures
            r@ == self@,
    {
        let mut topics: Vec<String> = Vec::new();
        let mut i: usize = 0;
        while i < self.subscribed_topics.len()
            invariant
                i <= self.subscribed_topics@.len(),
                topics@.len() == i,
                forall|j: int| 0 <= j < i ==> topics@[j]@ == self.subscribed_topics@[j]@,
            decreases self.subscribed_topics@.len() - i,
        {
            topics.push(self.subscribed_topics[i].clone());
            i += 1;
        }
        let r = PeerInfo {
            peer_id: self.peer_id,
            subscribed_topics: topics,
            last_seen: self.last_seen,
            connected_at: self.connected_at,
            node_type: self.node_type,
            score: self.score,
            outbound: self.outbound,
            metrics: self.metrics,
        };
        assert(r.topic_names() =~= self.topic_names());
        r
    }
}

impl PeerInfoView {
    /// The record of a peer that was first met at `now`.
    pub open spec fn fresh(peer_id: PeerId, node_type: NodeType, now: u64) -> PeerInfoView {
        PeerInfoView {
            peer_id,
            topics: Set::empty(),
            last_seen: now,
            connected_at: now,
            node_type,
            score: 0,
            outbound: false,
            metrics: PeerMetrics {
                messages_received: 0,
                messages_sent: 0,
                invalid_messages: 0,
                uptime: 0,
            },
        }
    }

    /// Whether the peer has announced a subscription to `topic`.
    pub open spec fn subscribes(self, topic: Seq<char>) -> bool {
        self.topics.contains(topic)
    }

    /// The record after the peer was heard from at `now`: its uptime is the
    /// time since it connected, and zero for a clock that ran backwards.
    pub open spec fn heard_at(self, now: u64) -> PeerInfoView {
        PeerInfoView {
            last_seen: now,
            metrics: PeerMetrics {
                uptime: if now >= self.connected_at {
                    (now - self.connected_at) as u64
                } else {
                    0
                },
                ..self.metrics
            },
            ..self
        }
    }
}

impl PeerInfo {
    /// The names in `subscribed_topics`, in order.
    pub open spec fn topic_names(&self) -> Seq<Seq<char>> {
        Seq::new(self.subscribed_topics@.len(), |i: int| self.subscribed_topics@[i]@)
    }

    /// The record of a peer that is met at `now`: no topics, a neutral score.
    pub fn new(peer_id: PeerId, node_type: NodeType, now: u64) -> (info: PeerInfo)
        ensures
            info@ == PeerInfoView::fresh(peer_id, node_type, now),
    {
        let info = PeerInfo {
            peer_id,
            subscribed_topics: Vec::new(),
            last_seen: now,
            connected_at: now,
            node_type,
            score: 0,
            outbound: false,
            metrics: PeerMetrics::default(),
        };
        assert(info@.topics =~= Set::<Seq<char>>::empty());
        info
    }

    /// Records that the peer was heard from at `now`.
    pub fn update_last_seen(&mut self, now: u64)
        ensures
            final(self)@ == old(self)@.heard_at(now),
    {
        self.last_seen = now;
        self.metrics.uptime = if now >= self.connected_at {
            now - self.connected_at
        } else {
            0
        };
    }

    /// Whether the peer has announced a subscription to `topic`.
    pub fn subscribes_to(&self, topic: &String) -> (b: bool)
        ensures
            b == self@.subscribes(topic@),
    {
        let mut i: usize = 0;
        while i < self.subscribed_topics.len()
            invariant
                i <= self.subscribed_topics@.len(),
                forall|j: int| 0 <= j < i ==> self.topic_names()[j] != topic@,
            decreases self.subscribed_topics@.len() - i,
        {
            if self.subscribed_topics[i] == *topic {
                assert(self.topic_names()[i as int] == topic@);
                return true;
            }
            i += 1;
        }
        false
    }

    /// Records that the peer subscribes to `topic`.
    pub fn add_topic(&mut self, topic: &String)
        ensures
            final(self)@ == (PeerInfoView {
                topics: old(self)@.topics.insert(topic@),
                ..old(self)@
            }),
    {
        if !self.subscribes_to(topic) {
            self.subscribed_topics.push(topic.clone());
            let ghost before = old(self).topic_names();
            assert(self.topic_names() =~= before.push(topic@));
            assert(self.topic_names().to_set() =~= before.to_set().insert(topic@)) by {
                assert forall|t: Seq<char>|
                    self.topic_names().contains(t) <==> (before.contains(t) || t == topic@) by {
                    if self.topic_names().contains(t) {
                        let j = choose|j: int|
                            0 <= j < self.topic_names().len() && self.topic_names()[j] == t;
                        if j < before.len() {
                            assert(before[j] == t);
                        }
                    }
                    if before.contains(t) {
                        let j = choose|j: int| 0 <= j < before.len() && before[j] == t;
                        assert(self.topic_names()[j] == t);
                    }
                    if t == topic@ {
                        assert(self.topic_names()[before.len() as int] == t);
                    }
                }
            }
        } else {
            assert(old(self)@.topics.insert(topic@) =~= old(self)@.topics);
        }
    }

    /// Records that the peer no longer subscribes to `topic`.
    pub fn drop_topic(&mut self, topic: &String)
        ensures
            final(self)@ == (PeerInfoView {
                topics: old(self)@.topics.remove(topic@),
                ..old(self)@
            }),
    {
        let mut i: usize = 0;
        while i < self.subscribed_topics.len()
            invariant
                i <= self.subscribed_topics@.len(),
                forall|j: int| 0 <= j < i ==> self.topic_names()[j] != topic@,
                forall|t: Seq<char>|
                    t != topic@ ==> (self.topic_names().contains(t) <==> old(
                        self,
                    ).topic_names().contains(t)),
                self.peer_id == old(self).peer_id,
                self.last_seen == old(self).last_seen,
                self.connected_at == old(self).connected_at,
                self.node_type == old(self).node_type,
                self.score == old(self).score,
                self.outbound == old(self).outbound,
                self.metrics == old(self).metrics,
            decreases self.subscribed_topics@.len() - i,
        {
            if self.subscribed_topics[i] == *topic {
                let ghost before = self.topic_names();
                self.subscribed_topics.remove(i);
                proof {
                    let after = self.topic_names();
                    assert(after =~= before.remove(i as int));
                    assert forall|t: Seq<char>| t != topic@ implies (after.contains(t)
                        <==> before.contains(t)) by {
                        if before.contains(t) {
                            let j = choose|j: int| 0 <= j < before.len() && before[j] == t;
                            if j < i {
                                assert(after[j] == t);
                            } else {
                                assert(after[j - 1] == t);
                            }
                        }
                        if after.contains(t) {
                            let j = choose|j: int| 0 <= j < after.len() && after[j] == t;
                            if j < i {
                                assert(before[j] == t);
                            } else {
                                assert(before[j + 1] == t);
                            }
                        }
                    }
                }
            } else {
                i += 1;
            }
        }
        assert(self@.topics =~= old(self)@.topics.remove(topic@));
    }
}

} // verus!
