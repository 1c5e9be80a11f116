//! The peer connection set: one record for each connected peer, and the
//! choice of candidates for a topic's mesh.

use super::peer_list::{lemma_push_contains, PeerList};
use super::topic::TopicHandle;
use crate::types::{bumped, NodeType, PeerId, PeerInfo, PeerInfoView, PeerMetrics};
use vstd::prelude::*;

verus! {

/// The records of the connected peers.
pub struct PeerSet {
    peers: Vec<PeerInfo>,
    score_floor: i64,
}

/// No two records are of the same peer.
pub open spec fn distinct_ids(recs: Seq<PeerInfoView>) -> bool {
    forall|i: int, j: int| 0 <= i < j < recs.len() ==> recs[i].peer_id != recs[j].peer_id
}

/// Whether a record of `p` is among `recs`.
pub open spec fn listed(recs: Seq<PeerInfoView>, p: PeerId) -> bool {
    exists|i: int| 0 <= i < recs.len() && #[trigger] recs[i].peer_id == p
}

/// The records by the peer that each is of.
pub open spec fn directory(recs: Seq<PeerInfoView>) -> Map<PeerId, PeerInfoView> {
    Map::new(
        |p: PeerId| listed(recs, p),
        |p: PeerId| recs[choose|i: int| 0 <= i < recs.len() && #[trigger] recs[i].peer_id == p],
    )
}

/// Whether `a` is chosen before `b`: the higher score first, and of two equal
/// scores the peer that has been idle for longer.
pub open spec fn ranks_before(a: PeerInfoView, b: PeerInfoView) -> bool {
    a.score > b.score || (a.score == b.score && a.last_seen < b.last_seen)
}

/// `score + delta`, held within the range of the score.
pub open spec fn shifted(score: i64, delta: i64) -> i64 {
    if score + delta > i64::MAX {
        i64::MAX
    } else if score + delta < i64::MIN {
        i64::MIN
    } else {
        (score + delta) as i64
    }
}

/// Computes [`shifted`].
pub fn shift_score(score: i64, delta: i64) -> (r: i64)
    ensures
        r == shifted(score, delta),
{
    if delta >= 0 {
        if score > i64::MAX - delta {
            i64::MAX
        } else {
            score + delta
        }
    } else {
        if score < i64::MIN - delta {
            i64::MIN
        } else {
            score + delta
        }
    }
}

/// The records after `p` connected at `now`: a new peer gets a fresh record, a
/// known one is marked as heard from.
pub open spec fn connected(
    m: Map<PeerId, PeerInfoView>,
    p: PeerId,
    node_type: NodeType,
    outbound: bool,
    now: u64,
) -> Map<PeerId, PeerInfoView> {
    m.insert(
        p,
        if m.dom().contains(p) {
            m[p].heard_at(now)
        } else {
            PeerInfoView { outbound, ..PeerInfoView::fresh(p, node_type, now) }
        },
    )
}

/// The records after `p` was heard from at `now`.
pub open spec fn heard(m: Map<PeerId, PeerInfoView>, p: PeerId, now: u64) -> Map<
    PeerId,
    PeerInfoView,
> {
    if m.dom().contains(p) {
        m.insert(p, m[p].heard_at(now))
    } else {
        m
    }
}

/// The records after a message to `p` was counted.
pub open spec fn debited(m: Map<PeerId, PeerInfoView>, p: PeerId) -> Map<PeerId, PeerInfoView> {
    if m.dom().contains(p) {
        m.insert(
            p,
            PeerInfoView {
                metrics: PeerMetrics {
                    messages_sent: bumped(m[p].metrics.messages_sent),
                    ..m[p].metrics
                },
                ..m[p]
            },
        )
    } else {
        m
    }
}

/// The records after one message to each peer of `to` was counted.
pub open spec fn debited_all(m: Map<PeerId, PeerInfoView>, to: Seq<PeerId>) -> Map<
    PeerId,
    PeerInfoView,
>
    decreases to.len(),
{
    if to.len() == 0 {
        m
    } else {
        debited(debited_all(m, to.drop_last()), to.last())
    }
}

/// The records after a valid message from `p` was counted.
pub open spec fn credited(m: Map<PeerId, PeerInfoView>, p: PeerId) -> Map<PeerId, PeerInfoView> {
    if m.dom().contains(p) {
        m.insert(
            p,
            PeerInfoView {
                metrics: PeerMetrics {
                    messages_received: bumped(m[p].metrics.messages_received),
                    ..m[p].metrics
                },
                ..m[p]
            },
        )
    } else {
        m
    }
}

/// The records after an invalid message from `p` was counted against it.
pub open spec fn penalised(m: Map<PeerId, PeerInfoView>, p: PeerId) -> Map<PeerId, PeerInfoView> {
    if m.dom().contains(p) {
        m.insert(
            p,
            PeerInfoView {
                score: shifted(m[p].score, -1i64),
                metrics: PeerMetrics {
                    invalid_messages: bumped(m[p].metrics.invalid_messages),
                    ..m[p].metrics
                },
                ..m[p]
            },
        )
    } else {
        m
    }
}

/// The records after `p` announced or withdrew a subscription to `topic`.
pub open spec fn with_topic(
    m: Map<PeerId, PeerInfoView>,
    p: PeerId,
    topic: Seq<char>,
    subscribed: bool,
) -> Map<PeerId, PeerInfoView> {
    if m.dom().contains(p) {
        m.insert(
            p,
            PeerInfoView {
                topics: if subscribed {
                    m[p].topics.insert(topic)
                } else {
                    m[p].topics.remove(topic)
                },
                ..m[p]
            },
        )
    } else {
        m
    }
}

proof fn lemma_directory_at(recs: Seq<PeerInfoView>, i: int)
    requires
        distinct_ids(recs),
        0 <= i < recs.len(),
    ensures
        directory(recs).dom().contains(recs[i].peer_id),
        directory(recs)[recs[i].peer_id] == recs[i],
{
    let p = recs[i].peer_id;
    assert(listed(recs, p));
    let k = choose|k: int| 0 <= k < recs.len() && #[trigger] recs[k].peer_id == p;
    assert(k == i);
}

proof fn lemma_directory_push(recs: Seq<PeerInfoView>, r: PeerInfoView)
    requires
        distinct_ids(recs),
        !listed(recs, r.peer_id),
    ensures
        distinct_ids(recs.push(r)),
        directory(recs.push(r)) == directory(recs).insert(r.peer_id, r),
{
    let after = recs.push(r);
    assert(distinct_ids(after)) by {
        assert forall|i: int, j: int| 0 <= i < j < after.len() implies after[i].peer_id
            != after[j].peer_id by {
            if j == recs.len() {
                assert(recs[i].peer_id != r.peer_id);
            }
        }
    }
    assert forall|p: PeerId| listed(after, p) <==> (listed(recs, p) || p == r.peer_id) by {
        if listed(recs, p) {
            let i = choose|i: int| 0 <= i < recs.len() && #[trigger] recs[i].peer_id == p;
            assert(after[i].peer_id == p);
        }
        if p == r.peer_id {
            assert(after[recs.len() as int].peer_id == p);
        }
        if listed(after, p) {
            let i = choose|i: int| 0 <= i < after.len() && #[trigger] after[i].peer_id == p;
            if i < recs.len() {
                assert(recs[i].peer_id == p);
            }
        }
    }
    assert forall|p: PeerId| listed(after, p) implies directory(after)[p] == directory(
        recs,
    ).insert(r.peer_id, r)[p] by {
        let i = choose|i: int| 0 <= i < after.len() && #[trigger] after[i].peer_id == p;
        lemma_directory_at(after, i);
        if i < recs.len() {
            lemma_directory_at(recs, i);
        }
    }
    assert(directory(after) =~= directory(recs).insert(r.peer_id, r));
}

proof fn lemma_directory_update(recs: Seq<PeerInfoView>, i: int, r: PeerInfoView)
    requires
        distinct_ids(recs),
        0 <= i < recs.len(),
        r.peer_id == recs[i].peer_id,
    ensures
        distinct_ids(recs.update(i, r)),
        directory(recs.update(i, r)) == directory(recs).insert(r.peer_id, r),
{
    let after = recs.update(i, r);
    assert(distinct_ids(after)) by {
        assert forall|a: int, b: int| 0 <= a < b < after.len() implies after[a].peer_id
            != after[b].peer_id by {
            assert(after[a].peer_id == recs[a].peer_id);
            assert(after[b].peer_id == recs[b].peer_id);
        }
    }
    assert forall|p: PeerId| listed(after, p) <==> listed(recs, p) by {
        if listed(recs, p) {
            let k = choose|k: int| 0 <= k < recs.len() && #[trigger] recs[k].peer_id == p;
            assert(after[k].peer_id == p);
        }
        if listed(after, p) {
            let k = choose|k: int| 0 <= k < after.len() && #[trigger] after[k].peer_id == p;
            assert(recs[k].peer_id == p);
        }
    }
    assert(listed(recs, r.peer_id));
    assert forall|p: PeerId| listed(after, p) implies directory(after)[p] == directory(
        recs,
    ).insert(r.peer_id, r)[p] by {
        let k = choose|k: int| 0 <= k < after.len() && #[trigger] after[k].peer_id == p;
        lemma_directory_at(after, k);
        lemma_directory_at(recs, k);
    }
    assert(directory(after) =~= directory(recs).insert(r.peer_id, r));
}

proof fn lemma_directory_remove(recs: Seq<PeerInfoView>, i: int)
    requires
        distinct_ids(recs),
        0 <= i < recs.len(),
    ensures
        distinct_ids(recs.remove(i)),
        directory(recs.remove(i)) == directory(recs).remove(recs[i].peer_id),
{
    let after = recs.remove(i);
    let gone = recs[i].peer_id;
    assert(distinct_ids(after)) by {
        assert forall|a: int, b: int| 0 <= a < b < after.len() implies after[a].peer_id
            != after[b].peer_id by {
            let a0 = if a < i { a } else { a + 1 };
            let b0 = if b < i { b } else { b + 1 };
            assert(after[a] == recs[a0]);
            assert(after[b] == recs[b0]);
        }
    }
    assert forall|p: PeerId| listed(after, p) <==> (listed(recs, p) && p != gone) by {
        if listed(recs, p) && p != gone {
            let k = choose|k: int| 0 <= k < recs.len() && #[trigger] recs[k].peer_id == p;
            if k < i {
                assert(after[k].peer_id == p);
            } else {
                assert(after[k - 1].peer_id == p);
            }
        }
        if listed(after, p) {
            let k = choose|k: int| 0 <= k < after.len() && #[trigger] after[k].peer_id == p;
            let k0 = if k < i { k } else { k + 1 };
            assert(recs[k0].peer_id == p);
        }
    }
    assert forall|p: PeerId| listed(after, p) implies directory(after)[p] == directory(
        recs,
    ).remove(gone)[p] by {
        let k = choose|k: int| 0 <= k < after.len() && #[trigger] after[k].peer_id == p;
        let k0 = if k < i { k } else { k + 1 };
        lemma_directory_at(after, k);
        lemma_directory_at(recs, k0);
    }
    assert(directory(after) =~= directory(recs).remove(gone));
}

proof fn lemma_directory_len(recs: Seq<PeerInfoView>)
    requires
        distinct_ids(recs),
    ensures
        directory(recs).dom().finite(),
        directory(recs).dom().len() == recs.len(),
    decreases recs.len(),
{
    if recs.len() == 0 {
        assert(directory(recs).dom() =~= Set::<PeerId>::empty());
    } else {
        let init = recs.drop_last();
        let last = recs.last();
        assert(distinct_ids(init)) by {
            assert forall|i: int, j: int| 0 <= i < j < init.len() implies init[i].peer_id
                != init[j].peer_id by {
                assert(init[i] == recs[i] && init[j] == recs[j]);
            }
        }
        assert(!listed(init, last.peer_id)) by {
            if listed(init, last.peer_id) {
                let i = choose|i: int| 0 <= i < init.len() && #[trigger] init[i].peer_id
                    == last.peer_id;
                assert(recs[i].peer_id == recs[recs.len() - 1].peer_id);
            }
        }
        lemma_directory_len(init);
        lemma_directory_push(init, last);
        assert(recs =~= init.push(last));
        assert(directory(recs).dom() =~= directory(init).dom().insert(last.peer_id));
        assert(!directory(init).dom().contains(last.peer_id));
    }
}

impl View for PeerSet {
    type V = Map<PeerId, PeerInfoView>;

    closed spec fn view(&self) -> Map<PeerId, PeerInfoView> {
        directory(self.records())
    }
}

impl PeerSet {
    /// The records in the order in which the peers connected.
    pub closed spec fn records(&self) -> Seq<PeerInfoView> {
        Seq::new(self.peers@.len(), |i: int| self.peers@[i]@)
    }

    /// The score below which a peer is no candidate.
    pub closed spec fn floor(&self) -> i64 {
        self.score_floor
    }

    /// No peer has two records.
    pub closed spec fn wf(&self) -> bool {
        distinct_ids(self.records())
    }

    /// The score of `p`; the least score for a peer without a record.
    pub open spec fn standing(&self, p: PeerId) -> i64 {
        if self@.dom().contains(p) {
            self@[p].score
        } else {
            i64::MIN
        }
    }

    /// Whether `p` is connected over a connection that this node opened.
    pub open spec fn is_outbound(&self, p: PeerId) -> bool {
        self@.dom().contains(p) && self@[p].outbound
    }

    /// Whether `p` may be grafted into the mesh of `topic`: it is connected,
    /// subscribes to the topic, and its score is not below the floor.
    pub open spec fn eligible(&self, p: PeerId, topic: Seq<char>) -> bool {
        self@.dom().contains(p) && self@[p].subscribes(topic) && self@[p].score >= self.floor()
    }

    /// The peers that may be grafted into the mesh of `topic`.
    pub open spec fn eligible_set(&self, topic: Seq<char>) -> Set<PeerId> {
        Set::new(|p: PeerId| self.eligible(p, topic))
    }

    /// Whether `p` may be chosen for `topic` when the peers of `exclude` are
    /// left out and, with `outbound_only`, those that connected to this node.
    pub open spec fn qualifies(
        &self,
        p: PeerId,
        topic: Seq<char>,
        exclude: Seq<PeerId>,
        outbound_only: bool,
    ) -> bool {
        self.eligible(p, topic) && !exclude.contains(p) && (outbound_only ==> self@[p].outbound)
    }

    /// Whether `c` is a choice of up to `count` candidates: each qualifies and
    /// none occurs twice; fewer than `count` are chosen only when no other
    /// qualifies; they stand in the order of their rank; and no peer that was
    /// passed over ranks before one that was chosen.
    pub open spec fn is_selection(
        &self,
        c: Seq<PeerId>,
        topic: Seq<char>,
        exclude: Seq<PeerId>,
        count: nat,
        outbound_only: bool,
    ) -> bool {
        &&& c.no_duplicates()
        &&& c.len() <= count
        &&& forall|p: PeerId| c.contains(p) ==> self.qualifies(p, topic, exclude, outbound_only)
        &&& c.len() < count ==> forall|p: PeerId|
            self.qualifies(p, topic, exclude, outbound_only) ==> c.contains(p)
        &&& forall|i: int, j: int|
            0 <= i < j < c.len() ==> !ranks_before(self@[c[j]], self@[c[i]])
        &&& forall|q: PeerId, i: int|
            #![trigger c.contains(q), c[i]]
            self.qualifies(q, topic, exclude, outbound_only) && !c.contains(q) && 0 <= i < c.len()
                ==> !ranks_before(self@[q], self@[c[i]])
    }

    /// An empty set with the given score floor.
    pub fn new(score_floor: i64) -> (s: PeerSet)
        ensures
            s.wf(),
            s@ == Map::<PeerId, PeerInfoView>::empty(),
            s.floor() == score_floor,
    {
        let s = PeerSet { peers: Vec::new(), score_floor };
        assert(s@ =~= Map::<PeerId, PeerInfoView>::empty());
        s
    }

    /// How many peers are connected.
    pub fn len(&self) -> (n: usize)
        requires
            self.wf(),
        ensures
            self@.dom().finite(),
            n == self@.dom().len(),
    {
        proof {
            lemma_directory_len(self.records());
        }
        self.peers.len()
    }

    fn position(&self, p: PeerId) -> (r: Option<usize>)
        requires
            self.wf(),
        ensures
            match r {
                Some(i) => i < self.records().len() && self.records()[i as int].peer_id == p
                    && self@.dom().contains(p) && self@[p] == self.records()[i as int],
                None => !self@.dom().contains(p),
            },
    {
        let mut i: usize = 0;
        while i < self.peers.len()
            invariant
                i <= self.peers@.len(),
                self.wf(),
                forall|j: int| 0 <= j < i ==> self.records()[j].peer_id != p,
            decreases self.peers@.len() - i,
        {
            if self.peers[i].peer_id == p {
                proof {
                    lemma_directory_at(self.records(), i as int);
                }
                return Some(i);
            }
            i += 1;
        }
        None
    }

    /// Whether `p` is connected.
    pub fn contains(&self, p: PeerId) -> (b: bool)
        requires
            self.wf(),
        ensures
            b == self@.dom().contains(p),
    {
        self.position(p).is_some()
    }

    /// The score of `p`; the least score for a peer without a record.
    pub fn score_of(&self, p: PeerId) -> (s: i64)
        requires
            self.wf(),
        ensures
            s == self.standing(p),
    {
        match self.position(p) {
            Some(i) => self.peers[i].score,
            None => i64::MIN,
        }
    }

    /// Whether `p` is connected over a connection that this node opened.
    pub fn outbound(&self, p: PeerId) -> (b: bool)
        requires
            self.wf(),
        ensures
            b == self.is_outbound(p),
    {
        match self.position(p) {
            Some(i) => self.peers[i].outbound,
            None => false,
        }
    }

    /// The counters kept for `p`.
    pub fn metrics_of(&self, p: PeerId) -> (m: Option<PeerMetrics>)
        requires
            self.wf(),
        ensures
            m == if self@.dom().contains(p) {
                Some(self@[p].metrics)
            } else {
                None
            },
    {
        match self.position(p) {
            Some(i) => Some(self.peers[i].metrics),
            None => None,
        }
    }

    fn take(&mut self, i: usize) -> (info: PeerInfo)
        requires
            old(self).wf(),
            i < old(self).records().len(),
        ensures
            info@ == old(self).records()[i as int],
            final(self).wf(),
            final(self).floor() == old(self).floor(),
            final(self)@ == old(self)@.remove(info.peer_id),
            final(self).records() == old(self).records().remove(i as int),
    {
        proof {
            lemma_directory_remove(self.records(), i as int);
        }
        let info = self.peers.remove(i);
        assert(self.records() =~= old(self).records().remove(i as int));
        info
    }

    fn put_back(&mut self, i: usize, info: PeerInfo, Ghost(before): Ghost<PeerSet>)
        requires
            before.wf(),
            i < before.records().len(),
            old(self).records() == before.records().remove(i as int),
            old(self).floor() == before.floor(),
            info.peer_id == before.records()[i as int].peer_id,
        ensures
            final(self).wf(),
            final(self).floor() == before.floor(),
            final(self)@ == before@.insert(info.peer_id, info@),
    {
        proof {
            lemma_directory_update(before.records(), i as int, info@);
            assert(self.records().len() == before.records().len() - 1);
            assert(self.peers@.len() == self.records().len());
        }
        let ghost rest = self.records();
        self.peers.insert(i, info);
        proof {
            let target = before.records().update(i as int, info@);
            assert(self.records().len() == target.len());
            assert forall|k: int| 0 <= k < target.len() implies self.records()[k] == target[k] by {
                if k < i {
                    assert(self.peers@[k] == old(self).peers@[k]);
                    assert(rest[k] == before.records()[k]);
                } else if k > i {
                    assert(self.peers@[k] == old(self).peers@[k - 1]);
                    assert(rest[k - 1] == before.records()[k]);
                }
            }
            assert(self.records() =~= target);
        }
    }

    /// Records that `p` connected at `now`, over a connection that this node
    /// opened if `outbound`. A peer that is connected already keeps its record
    /// and is only marked as heard from.
    pub fn on_connected(&mut self, p: PeerId, node_type: NodeType, outbound: bool, now: u64)
        requires
            old(self).wf(),
        ensures
            final(self).wf(),
            final(self).floor() == old(self).floor(),
            final(self)@ == connected(old(self)@, p, node_type, outbound, now),
    {
        match self.position(p) {
            Some(i) => {
                let ghost before = *self;
                let mut info = self.take(i);
                info.update_last_seen(now);
                self.put_back(i, info, Ghost(before));
            },
            None => {
                let mut info = PeerInfo::new(p, node_type, now);
                info.outbound = outbound;
                proof {
                    lemma_directory_push(self.records(), info@);
                }
                self.peers.push(info);
                assert(self.records() =~= old(self).records().push(info@));
            },
        }
    }

    /// Forgets `p`. Says whether it was connected.
    pub fn on_disconnected(&mut self, p: PeerId) -> (was_connected: bool)
        requires
            old(self).wf(),
        ensures
            final(self).wf(),
            final(self).floor() == old(self).floor(),
            was_connected == old(self)@.dom().contains(p),
            final(self)@ == old(self)@.remove(p),
    {
        match self.position(p) {
            Some(i) => {
                let _ = self.take(i);
                true
            },
            None => {
                assert(self@.remove(p) =~= self@);
                false
            },
        }
    }

    /// Marks `p` as heard from at `now`. A peer that is not connected is left
    /// out.
    pub fn record_activity(&mut self, p: PeerId, now: u64)
        requires
            old(self).wf(),
        ensures
            final(self).wf(),
            final(self).floor() == old(self).floor(),
            final(self)@ == heard(old(self)@, p, now),
    {
        match self.position(p) {
            Some(i) => {
                let ghost before = *self;
                let mut info = self.take(i);
                info.update_last_seen(now);
                self.put_back(i, info, Ghost(before));
            },
            None => {},
        }
    }

    /// Moves the score of `p` by `delta`, within the range of the score.
    pub fn adjust_score(&mut self, p: PeerId, delta: i64)
        requires
            old(self).wf(),
        ensures
            final(self).wf(),
            final(self).floor() == old(self).floor(),
            final(self)@ == if old(self)@.dom().contains(p) {
                old(self)@.insert(
                    p,
                    PeerInfoView { score: shifted(old(self)@[p].score, delta), ..old(self)@[p] },
                )
            } else {
                old(self)@
            },
    {
        match self.position(p) {
            Some(i) => {
                let ghost before = *self;
                let mut info = self.take(i);
                info.score = shift_score(info.score, delta);
                self.put_back(i, info, Ghost(before));
            },
            None => {},
        }
    }

    /// Counts a valid message from `p`.
    pub fn record_valid(&mut self, p: PeerId)
        requires
            old(self).wf(),
        ensures
            final(self).wf(),
            final(self).floor() == old(self).floor(),
            final(self)@ == credited(old(self)@, p),
    {
        match self.position(p) {
            Some(i) => {
                let ghost before = *self;
                let mut info = self.take(i);
                info.metrics.messages_received = info.metrics.messages_received.saturating_add(1);
                self.put_back(i, info, Ghost(before));
            },
            None => {},
        }
    }

    /// Counts a message to `p`.
    pub fn record_sent(&mut self, p: PeerId)
        requires
            old(self).wf(),
        ensures
            final(self).wf(),
            final(self).floor() == old(self).floor(),
            final(self)@ == debited(old(self)@, p),
    {
        match self.position(p) {
            Some(i) => {
                let ghost before = *self;
                let mut info = self.take(i);
                info.metrics.messages_sent = info.metrics.messages_sent.saturating_add(1);
                self.put_back(i, info, Ghost(before));
            },
            None => {},
        }
    }

    /// Counts one message to each peer of `to`.
    pub fn record_sent_all(&mut self, to: &Vec<PeerId>)
        requires
            old(self).wf(),
        ensures
            final(self).wf(),
            final(self).floor() == old(self).floor(),
            final(self)@ == debited_all(old(self)@, to@),
    {
        let mut i: usize = 0;
        while i < to.len()
            invariant
                i <= to@.len(),
                self.wf(),
                self.floor() == old(self).floor(),
                self@ == debited_all(old(self)@, to@.subrange(0, i as int)),
            decreases to@.len() - i,
        {
            assert(to@.subrange(0, i + 1).drop_last() =~= to@.subrange(0, i as int));
            self.record_sent(to[i]);
            i += 1;
        }
        assert(to@.subrange(0, i as int) =~= to@);
    }

    /// Counts an invalid message from `p` and lowers its score by one.
    pub fn record_invalid(&mut self, p: PeerId)
        requires
            old(self).wf(),
        ensures
            final(self).wf(),
            final(self).floor() == old(self).floor(),
            final(self)@ == penalised(old(self)@, p),
    {
        match self.position(p) {
            Some(i) => {
                let ghost before = *self;
                let mut info = self.take(i);
                info.score = shift_score(info.score, -1);
                info.metrics.invalid_messages = info.metrics.invalid_messages.saturating_add(1);
                self.put_back(i, info, Ghost(before));
            },
            None => {},
        }
    }

    /// Records that `p` subscribes to `topic`.
    pub fn peer_subscribed(&mut self, p: PeerId, topic: &TopicHandle)
        requires
            old(self).wf(),
        ensures
            final(self).wf(),
            final(self).floor() == old(self).floor(),
            final(self)@ == with_topic(old(self)@, p, topic@, true),
    {
        match self.position(p) {
            Some(i) => {
                let ghost before = *self;
                let mut info = self.take(i);
                info.add_topic(topic.name());
                self.put_back(i, info, Ghost(before));
            },
            None => {},
        }
    }

    /// Records that `p` no longer subscribes to `topic`.
    pub fn peer_unsubscribed(&mut self, p: PeerId, topic: &TopicHandle)
        requires
            old(self).wf(),
        ensures
            final(self).wf(),
            final(self).floor() == old(self).floor(),
            final(self)@ == with_topic(old(self)@, p, topic@, false),
    {
        match self.position(p) {
            Some(i) => {
                let ghost before = *self;
                let mut info = self.take(i);
                info.drop_topic(topic.name());
                self.put_back(i, info, Ghost(before));
            },
            None => {},
        }
    }

    /// Whether the record at `i` can still be chosen.
    closed spec fn open_at(
        &self,
        i: int,
        topic: Seq<char>,
        exclude: Seq<PeerId>,
        taken: Seq<PeerId>,
        outbound_only: bool,
    ) -> bool {
        let r = self.records()[i];
        r.subscribes(topic) && r.score >= self.floor() && !exclude.contains(r.peer_id)
            && !taken.contains(r.peer_id) && (outbound_only ==> r.outbound)
    }

    /// The position of a record that can still be chosen and that no other
    /// such record ranks before.
    fn best_open(
        &self,
        topic: &TopicHandle,
        exclude: &PeerList,
        taken: &PeerList,
        outbound_only: bool,
    ) -> (r: Option<usize>)
        requires
            self.wf(),
        ensures
            match r {
                Some(b) => b < self.records().len() && self.open_at(
                    b as int,
                    topic@,
                    exclude@,
                    taken@,
                    outbound_only,
                ) && forall|j: int|
                    0 <= j < self.records().len() && self.open_at(
                        j,
                        topic@,
                        exclude@,
                        taken@,
                        outbound_only,
                    ) ==> !ranks_before(self.records()[j], self.records()[b as int]),
                None => forall|j: int|
                    0 <= j < self.records().len() ==> !self.open_at(
                        j,
                        topic@,
                        exclude@,
                        taken@,
                        outbound_only,
                    ),
            },
    {
        let mut best: Option<usize> = None;
        let mut i: usize = 0;
        while i < self.peers.len()
            invariant
                i <= self.peers@.len(),
                self.peers@.len() == self.records().len(),
                match best {
                    Some(b) => b < i && self.open_at(
                        b as int,
                        topic@,
                        exclude@,
                        taken@,
                        outbound_only,
                    ) && forall|j: int|
                        0 <= j < i && self.open_at(j, topic@, exclude@, taken@, outbound_only)
                            ==> !ranks_before(self.records()[j], self.records()[b as int]),
                    None => forall|j: int|
                        0 <= j < i ==> !self.open_at(j, topic@, exclude@, taken@, outbound_only),
                },
            decreases self.peers@.len() - i,
        {
            let r = &self.peers[i];
            assert(r@ == self.records()[i as int]);
            let open = r.score >= self.score_floor && (!outbound_only || r.outbound)
                && !exclude.contains(r.peer_id) && !taken.contains(r.peer_id) && r.subscribes_to(
                topic.name(),
            );
            if open {
                match best {
                    None => {
                        best = Some(i);
                    },
                    Some(b) => {
                        let held = &self.peers[b];
                        assert(held@ == self.records()[b as int]);
                        if r.score > held.score || (r.score == held.score && r.last_seen
                            < held.last_seen) {
                            best = Some(i);
                        }
                    },
                }
            }
            i += 1;
        }
        best
    }

    fn select(
        &self,
        topic: &TopicHandle,
        exclude: &PeerList,
        count: usize,
        outbound_only: bool,
    ) -> (c: PeerList)
        requires
            self.wf(),
        ensures
            c.wf(),
            self.is_selection(c@, topic@, exclude@, count as nat, outbound_only),
    {
        let mut out = PeerList::new();
        let mut exhausted = false;
        while out.len() < count && !exhausted
            invariant
                self.wf(),
                out.wf(),
                out@.len() <= count,
                forall|p: PeerId|
                    out@.contains(p) ==> self.qualifies(p, topic@, exclude@, outbound_only),
                exhausted ==> forall|p: PeerId|
                    self.qualifies(p, topic@, exclude@, outbound_only) ==> out@.contains(p),
                forall|i: int, j: int|
                    0 <= i < j < out@.len() ==> !ranks_before(self@[out@[j]], self@[out@[i]]),
                forall|q: PeerId, i: int|
                    #![trigger out@.contains(q), out@[i]]
                    self.qualifies(q, topic@, exclude@, outbound_only) && !out@.contains(q) && 0
                        <= i < out@.len() ==> !ranks_before(self@[q], self@[out@[i]]),
            decreases count - out@.len() + (if exhausted { 0int } else { 1int }),
        {
            let ghost chosen = out@;
            match self.best_open(topic, exclude, &out, outbound_only) {
                Some(b) => {
                    let p = self.peers[b].peer_id;
                    proof {
                        lemma_directory_at(self.records(), b as int);
                        lemma_push_contains(chosen, p);
                        assert(self.qualifies(p, topic@, exclude@, outbound_only));
                        assert forall|q: PeerId|
                            self.qualifies(q, topic@, exclude@, outbound_only) && !chosen.contains(
                                q,
                            ) && q != p implies !ranks_before(self@[q], self@[p]) by {
                            let recs = self.records();
                            let j = choose|j: int|
                                0 <= j < recs.len() && #[trigger] recs[j].peer_id == q;
                            lemma_directory_at(self.records(), j);
                            assert(self.open_at(j, topic@, exclude@, chosen, outbound_only));
                        }
                    }
                    out.insert(p);
                    proof {
                        let now = out@;
                        assert(now == chosen.push(p));
                        assert forall|x: PeerId| now.contains(x) implies self.qualifies(
                            x,
                            topic@,
                            exclude@,
                            outbound_only,
                        ) by {
                            if x != p {
                                assert(chosen.contains(x));
                            }
                        }
                        assert forall|q: PeerId, i: int|
                            #![trigger now.contains(q), now[i]]
                            self.qualifies(q, topic@, exclude@, outbound_only) && !now.contains(q)
                                && 0 <= i < now.len() implies !ranks_before(
                            self@[q],
                            self@[now[i]],
                        ) by {
                            assert(!chosen.contains(q) && q != p);
                            if i < chosen.len() {
                                assert(now[i] == chosen[i]);
                            } else {
                                assert(now[i] == p);
                            }
                        }
                        assert forall|i: int, j: int| 0 <= i < j < now.len() implies !ranks_before(
                            self@[now[j]],
                            self@[now[i]],
                        ) by {
                            assert(now[i] == chosen[i]);
                            if j < chosen.len() {
                                assert(now[j] == chosen[j]);
                            } else {
                                assert(now[j] == p);
                                assert(!chosen.contains(p));
                            }
                        }
                    }
                },
                None => {
                    exhausted = true;
                    proof {
                        assert forall|q: PeerId|
                            self.qualifies(
                                q,
                                topic@,
                                exclude@,
                                outbound_only,
                            ) implies out@.contains(q) by {
                            let recs = self.records();
                            let j = choose|j: int|
                                0 <= j < recs.len() && #[trigger] recs[j].peer_id == q;
                            lemma_directory_at(self.records(), j);
                            assert(!self.open_at(j, topic@, exclude@, chosen, outbound_only));
                        }
                    }
                },
            }
        }
        out
    }

    /// Up to `count` connected peers that subscribe to `topic`, are not below
    /// the score floor and are not in `exclude`: the best by score, and among
    /// equal scores those idle for longest, in that order.
    pub fn candidates_for_topic(&self, topic: &TopicHandle, exclude: &PeerList, count: usize) -> (c:
        PeerList)
        requires
            self.wf(),
        ensures
            c.wf(),
            self.is_selection(c@, topic@, exclude@, count as nat, false),
    {
        self.select(topic, exclude, count, false)
    }

    /// As [`PeerSet::candidates_for_topic`], among the peers that this node
    /// connected to.
    pub fn outbound_candidates_for_topic(
        &self,
        topic: &TopicHandle,
        exclude: &PeerList,
        count: usize,
    ) -> (c: PeerList)
        requires
            self.wf(),
        ensures
            c.wf(),
            self.is_selection(c@, topic@, exclude@, count as nat, true),
    {
        self.select(topic, exclude, count, true)
    }
}

} // verus!
