//! The mesh of one topic: the peers that get every message in full, the
//! lazy peers that get announcements only, and the heartbeat that keeps the
//! mesh within its bounds.

use super::peer_list::{disjoint, lemma_push_contains, lemma_without, without, PeerList};
use super::peers::{ranks_before, PeerSet};
use super::topic::TopicHandle;
use crate::config::GossipsubConfig;
use crate::types::PeerId;
use vstd::prelude::*;

verus! {

/// Where the mesh of a topic stands between two heartbeats.
#[derive(Debug, Clone, Copy, PartialEq, Eq, Structural)]
pub enum MeshPhase {
    /// The node does not subscribe to the topic.
    Unsubscribed,
    /// The mesh is outside its bounds or short of outbound peers: the next
    /// heartbeat works on it.
    Grooming,
    /// The mesh is within its bounds and has its outbound peers.
    Steady,
}

/// The mesh and the lazy set of one topic.
pub struct MeshView {
    mesh: PeerList,
    lazy: PeerList,
}

impl MeshView {
    /// The peers that receive full messages, in the order in which they
    /// joined.
    pub closed spec fn mesh(&self) -> Seq<PeerId> {
        self.mesh@
    }

    /// The peers that receive announcements only.
    pub closed spec fn lazy(&self) -> Seq<PeerId> {
        self.lazy@
    }

    /// No peer occurs twice in the mesh or in the lazy set, and none is in
    /// both.
    pub open spec fn wf(&self) -> bool {
        self.mesh().no_duplicates() && self.lazy().no_duplicates() && disjoint(
            self.mesh(),
            self.lazy(),
        )
    }

    /// A view without peers.
    pub fn new() -> (v: MeshView)
        ensures
            v.wf(),
            v.mesh() == Seq::<PeerId>::empty(),
            v.lazy() == Seq::<PeerId>::empty(),
    {
        MeshView { mesh: PeerList::new(), lazy: PeerList::new() }
    }

    /// The mesh.
    pub fn mesh_peers(&self) -> (l: &PeerList)
        ensures
            l@ == self.mesh(),
    {
        &self.mesh
    }

    /// The lazy set.
    pub fn lazy_peers(&self) -> (l: &PeerList)
        ensures
            l@ == self.lazy(),
    {
        &self.lazy
    }

    /// Takes `p` into the mesh, and out of the lazy set if it was there.
    pub fn graft(&mut self, p: PeerId)
        requires
            old(self).wf(),
        ensures
            final(self).wf(),
            final(self).mesh() == if old(self).mesh().contains(p) {
                old(self).mesh()
            } else {
                old(self).mesh().push(p)
            },
            final(self).lazy() == without(old(self).lazy(), p),
            final(self).lazy().len() <= old(self).lazy().len(),
    {
        proof {
            lemma_without(self.lazy@, p);
            lemma_push_contains(self.mesh@, p);
        }
        let ghost lazy_before = self.lazy@;
        let ghost mesh_before = self.mesh@;
        self.lazy.remove(p);
        self.mesh.insert(p);
        proof {
            assert forall|q: PeerId| !(self.mesh@.contains(q) && self.lazy@.contains(q)) by {
                if self.lazy@.contains(q) {
                    assert(lazy_before.contains(q) && q != p);
                    assert(!mesh_before.contains(q));
                    if self.mesh@.contains(q) {
                        assert(mesh_before.push(p).contains(q) <==> (mesh_before.contains(q) || q
                            == p));
                    }
                }
            }
        }
    }

    /// Takes `p` out of the mesh. If it was in the mesh and the lazy set holds
    /// fewer than `mesh_n_lazy` peers, `p` goes to the lazy set; otherwise it is
    /// no longer tracked for the topic.
    pub fn prune(&mut self, p: PeerId, mesh_n_lazy: usize)
        requires
            old(self).wf(),
        ensures
            final(self).wf(),
            final(self).mesh() == without(old(self).mesh(), p),
            final(self).lazy() == if old(self).mesh().contains(p) && old(self).lazy().len()
                < mesh_n_lazy {
                old(self).lazy().push(p)
            } else {
                old(self).lazy()
            },
    {
        proof {
            lemma_without(self.mesh@, p);
            lemma_push_contains(self.lazy@, p);
        }
        let ghost lazy_before = self.lazy@;
        let ghost mesh_before = self.mesh@;
        let was_member = self.mesh.remove(p);
        if was_member && self.lazy.len() < mesh_n_lazy {
            self.lazy.insert(p);
        }
        proof {
            assert forall|q: PeerId| !(self.mesh@.contains(q) && self.lazy@.contains(q)) by {
                if self.mesh@.contains(q) {
                    assert(mesh_before.contains(q) && q != p);
                    assert(!lazy_before.contains(q));
                    if self.lazy@.contains(q) {
                        assert(lazy_before.push(p).contains(q) <==> (lazy_before.contains(q) || q
                            == p));
                    }
                }
            }
        }
    }

    /// Forgets `p` for the topic.
    pub fn remove_peer(&mut self, p: PeerId)
        requires
            old(self).wf(),
        ensures
            final(self).wf(),
            final(self).mesh() == without(old(self).mesh(), p),
            final(self).lazy() == without(old(self).lazy(), p),
            final(self).lazy().len() <= old(self).lazy().len(),
    {
        proof {
            lemma_without(self.mesh@, p);
            lemma_without(self.lazy@, p);
        }
        self.mesh.remove(p);
        self.lazy.remove(p);
    }

    /// Takes every peer of `c` into the mesh, in order.
    fn graft_all(&mut self, c: &PeerList)
        requires
            old(self).wf(),
            c.wf(),
            disjoint(old(self).mesh(), c@),
        ensures
            final(self).wf(),
            final(self).mesh() == old(self).mesh() + c@,
            final(self).lazy().len() <= old(self).lazy().len(),
            forall|q: PeerId|
                final(self).lazy().contains(q) <==> (old(self).lazy().contains(q) && !c@.contains(
                    q,
                )),
            disjoint(old(self).lazy(), c@) ==> final(self).lazy() == old(self).lazy(),
    {
        let mut i: usize = 0;
        while i < c.len()
            invariant
                i <= c@.len(),
                c.wf(),
                self.wf(),
                disjoint(old(self).mesh(), c@),
                self.mesh() == old(self).mesh() + c@.subrange(0, i as int),
                self.lazy().len() <= old(self).lazy().len(),
                forall|q: PeerId|
                    self.lazy().contains(q) <==> (old(self).lazy().contains(q) && !c@.subrange(
                        0,
                        i as int,
                    ).contains(q)),
                disjoint(old(self).lazy(), c@) ==> self.lazy() == old(self).lazy(),
            decreases c@.len() - i,
        {
            let p = c.get(i);
            let ghost mesh_before = self.mesh();
            let ghost lazy_before = self.lazy();
            let ghost taken = c@.subrange(0, i as int);
            proof {
                assert(c@.contains(p));
                assert(!mesh_before.contains(p)) by {
                    if mesh_before.contains(p) {
                        let j = choose|j: int| 0 <= j < mesh_before.len() && mesh_before[j] == p;
                        if j < old(self).mesh().len() {
                            assert(old(self).mesh()[j] == p);
                            assert(old(self).mesh().contains(p));
                        } else {
                            assert(taken[j - old(self).mesh().len()] == p);
                            assert(c@[j - old(self).mesh().len()] == c@[i as int]);
                        }
                    }
                }
                lemma_without(lazy_before, p);
                lemma_push_contains(taken, p);
                assert(c@.subrange(0, i + 1) =~= taken.push(p));
            }
            self.graft(p);
            proof {
                let taken_next = c@.subrange(0, i + 1);
                assert(self.mesh() =~= old(self).mesh() + taken_next);
                assert forall|q: PeerId|
                    self.lazy().contains(q) <==> (old(self).lazy().contains(q)
                        && !taken_next.contains(q)) by {
                    assert(self.lazy().contains(q) <==> (lazy_before.contains(q) && q != p));
                    assert(taken_next.contains(q) <==> (taken.contains(q) || q == p));
                }
                if disjoint(old(self).lazy(), c@) {
                    assert(!lazy_before.contains(p));
                }
            }
            i += 1;
        }
        assert(c@.subrange(0, i as int) =~= c@);
    }

    /// What filling the mesh of `topic` from `peers` leaves: a mesh at or above
    /// `mesh_n_low` is left alone; one below it grows by eligible peers until
    /// it holds `mesh_n_high` or every eligible peer, and takes peers from the
    /// lazy set only when every other eligible peer is in. The peers that join
    /// are the best by rank: no eligible peer outside the lazy set that is left
    /// out ranks before one that joins, and no eligible peer at all that is left
    /// out ranks before one that joins from the lazy set.
    pub open spec fn filled_from(
        &self,
        before: MeshView,
        topic: Seq<char>,
        peers: PeerSet,
        cfg: GossipsubConfig,
    ) -> bool {
        if before.mesh().len() >= cfg.mesh_n_low {
            self.mesh() == before.mesh() && self.lazy() == before.lazy()
        } else {
            &&& before.mesh().is_prefix_of(self.mesh())
            &&& self.mesh().len() <= cfg.mesh_n_high
            &&& forall|p: PeerId|
                #![trigger self.mesh().contains(p)]
                self.mesh().contains(p) && !before.mesh().contains(p) ==> peers.eligible(p, topic)
            &&& self.mesh().len() == cfg.mesh_n_high || forall|p: PeerId|
                peers.eligible(p, topic) ==> self.mesh().contains(p)
            &&& forall|q: PeerId|
                self.lazy().contains(q) <==> (before.lazy().contains(q) && !self.mesh().contains(q))
            &&& self.lazy().len() <= before.lazy().len()
            &&& (exists|p: PeerId| self.mesh().contains(p) && before.lazy().contains(p))
                ==> forall|q: PeerId|
                peers.eligible(q, topic) && !before.lazy().contains(q) ==> self.mesh().contains(q)
            &&& forall|q: PeerId, p: PeerId|
                #![trigger self.mesh().contains(q), before.mesh().contains(p)]
                peers.eligible(q, topic) && !self.mesh().contains(q) && !before.lazy().contains(q)
                    && self.mesh().contains(p) && !before.mesh().contains(p) ==> !ranks_before(
                    peers@[q],
                    peers@[p],
                )
            &&& forall|q: PeerId, p: PeerId|
                #![trigger self.mesh().contains(q), before.lazy().contains(p)]
                peers.eligible(q, topic) && !self.mesh().contains(q) && self.mesh().contains(p)
                    && before.lazy().contains(p) ==> !ranks_before(peers@[q], peers@[p])
        }
    }

    /// The first step of the heartbeat: fills a mesh that has fallen below
    /// `mesh_n_low`.
    pub fn fill(&mut self, topic: &TopicHandle, peers: &PeerSet, cfg: &GossipsubConfig)
        requires
            old(self).wf(),
            peers.wf(),
            cfg.wf(),
        ensures
            final(self).wf(),
            final(self).filled_from(*old(self), topic@, *peers, *cfg),
    {
        if self.mesh.len() >= cfg.mesh_n_low {
            return ;
        }
        let known = self.mesh.union(&self.lazy);
        let first = peers.candidates_for_topic(topic, &known, cfg.mesh_n_high - self.mesh.len());
        proof {
            assert(disjoint(self.mesh(), first@));
            assert(disjoint(self.lazy(), first@));
        }
        self.graft_all(&first);
        let ghost middle = *self;
        proof {
            lemma_concat_contains(old(self).mesh(), first@);
            assert(middle.mesh().len() < cfg.mesh_n_high ==> forall|q: PeerId|
                peers.eligible(q, topic@) && !old(self).lazy().contains(q)
                    ==> middle.mesh().contains(q)) by {
                if middle.mesh().len() < cfg.mesh_n_high {
                    assert forall|q: PeerId|
                        peers.eligible(q, topic@) && !old(self).lazy().contains(
                            q,
                        ) implies middle.mesh().contains(q) by {
                        if !old(self).mesh().contains(q) {
                            assert(peers.qualifies(q, topic@, known@, false));
                        }
                    }
                }
            }
        }
        proof {
            assert forall|q: PeerId, p: PeerId|
                peers.eligible(q, topic@) && !middle.mesh().contains(q) && !old(
                    self,
                ).lazy().contains(q) && middle.mesh().contains(p) && !old(self).mesh().contains(
                    p,
                ) implies !ranks_before(peers@[q], peers@[p]) by {
                assert(peers.qualifies(q, topic@, known@, false));
                assert(first@.contains(p));
                let i = choose|i: int| 0 <= i < first@.len() && first@[i] == p;
                assert(!first@.contains(q));
                assert(!ranks_before(peers@[q], peers@[first@[i]]));
            }
        }
        if self.mesh.len() < cfg.mesh_n_high {
            let second = peers.candidates_for_topic(
                topic,
                &self.mesh,
                cfg.mesh_n_high - self.mesh.len(),
            );
            proof {
                assert(disjoint(self.mesh(), second@));
            }
            self.graft_all(&second);
            proof {
                lemma_concat_contains(middle.mesh(), second@);
                assert forall|q: PeerId, p: PeerId|
                    peers.eligible(q, topic@) && !self.mesh().contains(q) && self.mesh().contains(
                        p,
                    ) && old(self).lazy().contains(p) implies !ranks_before(
                    peers@[q],
                    peers@[p],
                ) by {
                    assert(!middle.mesh().contains(p)) by {
                        if first@.contains(p) {
                            assert(peers.qualifies(p, topic@, known@, false));
                        }
                    }
                    assert(second@.contains(p));
                    let i = choose|i: int| 0 <= i < second@.len() && second@[i] == p;
                    assert(peers.qualifies(q, topic@, middle.mesh(), false));
                    assert(!second@.contains(q));
                    assert(!ranks_before(peers@[q], peers@[second@[i]]));
                }
                assert(self.mesh() =~= old(self).mesh() + (first@ + second@));
                assert(self.mesh().len() == cfg.mesh_n_high || forall|p: PeerId|
                    peers.eligible(p, topic@) ==> self.mesh().contains(p)) by {
                    if self.mesh().len() != cfg.mesh_n_high {
                        assert forall|p: PeerId|
                            peers.eligible(p, topic@) implies self.mesh().contains(p) by {
                            if !middle.mesh().contains(p) {
                                assert(peers.qualifies(p, topic@, middle.mesh(), false));
                            }
                        }
                    }
                }
            }
        }
        proof {
            assert(old(self).mesh().is_prefix_of(self.mesh()));
        }
    }

    /// The position of a mesh peer of the lowest score; with `inbound_only`,
    /// among the peers that connected to this node.
    fn weakest(&self, peers: &PeerSet, inbound_only: bool) -> (r: Option<usize>)
        requires
            peers.wf(),
        ensures
            match r {
                Some(i) => i < self.mesh().len() && (inbound_only ==> !peers.is_outbound(
                    self.mesh()[i as int],
                )) && forall|j: int|
                    0 <= j < self.mesh().len() && (inbound_only ==> !peers.is_outbound(
                        self.mesh()[j],
                    )) ==> peers.standing(self.mesh()[i as int]) <= peers.standing(self.mesh()[j]),
                None => self.mesh().len() == 0 || (inbound_only && forall|j: int|
                    0 <= j < self.mesh().len() ==> peers.is_outbound(self.mesh()[j])),
            },
    {
        let mut best: Option<(usize, i64)> = None;
        let mut i: usize = 0;
        while i < self.mesh.len()
            invariant
                i <= self.mesh().len(),
                peers.wf(),
                match best {
                    Some((b, low)) => b < i && low == peers.standing(self.mesh()[b as int]) && (
                    inbound_only ==> !peers.is_outbound(self.mesh()[b as int])) && forall|j: int|
                        0 <= j < i && (inbound_only ==> !peers.is_outbound(self.mesh()[j])) ==> low
                            <= peers.standing(self.mesh()[j]),
                    None => i == 0 || (inbound_only && forall|j: int|
                        0 <= j < i ==> peers.is_outbound(self.mesh()[j])),
                },
            decreases self.mesh().len() - i,
        {
            let p = self.mesh.get(i);
            if !inbound_only || !peers.outbound(p) {
                let score = peers.score_of(p);
                match best {
                    None => {
                        best = Some((i, score));
                    },
                    Some((_, low)) => {
                        if score < low {
                            best = Some((i, score));
                        }
                    },
                }
            }
            i += 1;
        }
        match best {
            Some((b, _)) => Some(b),
            None => None,
        }
    }

    /// What evicting from `before` leaves: a mesh within `mesh_n_high` is left
    /// alone; a larger one is cut to `mesh_n_high` by taking out peers of the
    /// lowest scores, which go to the lazy set while it has room.
    pub open spec fn evicted_from(
        &self,
        before: MeshView,
        peers: PeerSet,
        cfg: GossipsubConfig,
    ) -> bool {
        if before.mesh().len() <= cfg.mesh_n_high {
            self.mesh() == before.mesh() && self.lazy() == before.lazy()
        } else {
            &&& self.mesh().len() == cfg.mesh_n_high
            &&& forall|q: PeerId| self.mesh().contains(q) ==> before.mesh().contains(q)
            &&& forall|k: PeerId, e: PeerId|
                #![trigger self.mesh().contains(k), before.mesh().contains(e)]
                self.mesh().contains(k) && before.mesh().contains(e) && !self.mesh().contains(e)
                    ==> peers.standing(e) <= peers.standing(k)
            &&& before.lazy().is_prefix_of(self.lazy())
            &&& forall|q: PeerId|
                self.lazy().contains(q) ==> before.lazy().contains(q) || (before.mesh().contains(q)
                    && !self.mesh().contains(q))
            &&& self.lazy().len() <= before.lazy().len() || self.lazy().len() <= cfg.mesh_n_lazy
            &&& self.lazy().len() < cfg.mesh_n_lazy ==> forall|e: PeerId|
                before.mesh().contains(e) && !self.mesh().contains(e) ==> self.lazy().contains(e)
        }
    }

    /// The second step of the heartbeat: cuts a mesh that has grown beyond
    /// `mesh_n_high`.
    pub fn evict(&mut self, peers: &PeerSet, cfg: &GossipsubConfig)
        requires
            old(self).wf(),
            peers.wf(),
        ensures
            final(self).wf(),
            final(self).evicted_from(*old(self), *peers, *cfg),
    {
        if self.mesh.len() <= cfg.mesh_n_high {
            return ;
        }
        while self.mesh.len() > cfg.mesh_n_high
            invariant
                self.wf(),
                peers.wf(),
                self.mesh().len() >= cfg.mesh_n_high,
                forall|q: PeerId| self.mesh().contains(q) ==> old(self).mesh().contains(q),
                forall|k: PeerId, e: PeerId|
                    #![trigger self.mesh().contains(k), old(self).mesh().contains(e)]
                    self.mesh().contains(k) && old(self).mesh().contains(e)
                        && !self.mesh().contains(e) ==> peers.standing(e) <= peers.standing(k),
                old(self).lazy().is_prefix_of(self.lazy()),
                forall|q: PeerId|
                    self.lazy().contains(q) ==> old(self).lazy().contains(q) || (old(
                        self,
                    ).mesh().contains(q) && !self.mesh().contains(q)),
                self.lazy().len() <= old(self).lazy().len() || self.lazy().len()
                    <= cfg.mesh_n_lazy,
                self.lazy().len() < cfg.mesh_n_lazy ==> forall|e: PeerId|
                    old(self).mesh().contains(e) && !self.mesh().contains(e)
                        ==> self.lazy().contains(e),
            decreases self.mesh().len(),
        {
            let ghost mesh_before = self.mesh();
            let ghost lazy_before = self.lazy();
            let i = match self.weakest(peers, false) {
                Some(i) => i,
                None => {
                    // A mesh beyond its upper bound holds a peer.
                    assert(false);
                    return ;
                },
            };
            let p = self.mesh.get(i);
            proof {
                lemma_without(mesh_before, p);
                lemma_push_contains(lazy_before, p);
                assert(mesh_before.contains(p));
            }
            self.prune(p, cfg.mesh_n_lazy);
            proof {
                let mesh_after = self.mesh();
                let lazy_after = self.lazy();
                assert forall|k: PeerId, e: PeerId|
                    #![trigger mesh_after.contains(k), old(self).mesh().contains(e)]
                    mesh_after.contains(k) && old(self).mesh().contains(e) && !mesh_after.contains(
                        e,
                    ) implies peers.standing(e) <= peers.standing(k) by {
                    assert(mesh_before.contains(k));
                    if e == p {
                        let j = choose|j: int| 0 <= j < mesh_before.len() && mesh_before[j] == k;
                        assert(peers.standing(mesh_before[i as int]) <= peers.standing(
                            mesh_before[j],
                        ));
                    } else {
                        assert(!mesh_before.contains(e));
                    }
                }
                assert forall|q: PeerId| lazy_after.contains(q) implies old(
                    self,
                ).lazy().contains(q) || (old(self).mesh().contains(q) && !mesh_after.contains(
                    q,
                )) by {
                    if !lazy_before.contains(q) {
                        assert(q == p);
                    } else if !old(self).lazy().contains(q) {
                        assert(!mesh_before.contains(q));
                    }
                }
                if lazy_after.len() < cfg.mesh_n_lazy {
                    assert forall|e: PeerId|
                        old(self).mesh().contains(e) && !mesh_after.contains(
                            e,
                        ) implies lazy_after.contains(e) by {
                        if e != p {
                            assert(!mesh_before.contains(e));
                            assert(lazy_before.contains(e));
                        }
                    }
                }
            }
        }
    }

    /// How many peers of the mesh this node connected to.
    pub fn count_outbound(&self, peers: &PeerSet) -> (n: usize)
        requires
            peers.wf(),
        ensures
            n == outbound_count(self.mesh(), *peers),
    {
        let mut n: usize = 0;
        let mut i: usize = 0;
        while i < self.mesh.len()
            invariant
                i <= self.mesh().len(),
                peers.wf(),
                n == outbound_count(self.mesh().subrange(0, i as int), *peers),
                n <= i,
            decreases self.mesh().len() - i,
        {
            let p = self.mesh.get(i);
            proof {
                lemma_outbound_count_push(self.mesh().subrange(0, i as int), p, *peers);
                assert(self.mesh().subrange(0, i + 1) =~= self.mesh().subrange(0, i as int).push(
                    p,
                ));
            }
            if peers.outbound(p) {
                n += 1;
            }
            i += 1;
        }
        assert(self.mesh().subrange(0, i as int) =~= self.mesh());
        n
    }

    /// What securing the outbound minimum of `before` leaves: a mesh with
    /// `mesh_outbound_min` outbound peers is left alone. Otherwise eligible
    /// outbound peers join, the best by rank first, until the minimum is met or
    /// none is left; each joins a mesh below `mesh_n_high` as it is, and a fuller
    /// one in the place of the inbound peer of the lowest score, which goes to
    /// the lazy set while it has room.
    pub open spec fn secured_from(
        &self,
        before: MeshView,
        topic: Seq<char>,
        peers: PeerSet,
        cfg: GossipsubConfig,
    ) -> bool {
        if outbound_count(before.mesh(), peers) >= cfg.mesh_outbound_min {
            self.mesh() == before.mesh() && self.lazy() == before.lazy()
        } else {
            &&& before.mesh().len() <= self.mesh().len()
            &&& self.mesh().len() <= before.mesh().len() || self.mesh().len() <= cfg.mesh_n_high
            &&& outbound_count(before.mesh(), peers) <= outbound_count(self.mesh(), peers)
                <= cfg.mesh_outbound_min
            &&& outbound_count(self.mesh(), peers) == cfg.mesh_outbound_min || forall|p: PeerId|
                !peers.qualifies(p, topic, self.mesh(), true)
            &&& forall|p: PeerId|
                #![trigger self.mesh().contains(p)]
                self.mesh().contains(p) && !before.mesh().contains(p) ==> peers.eligible(p, topic)
                    && peers.is_outbound(p)
            &&& forall|p: PeerId|
                before.mesh().contains(p) && !self.mesh().contains(p) ==> !peers.is_outbound(p)
            &&& forall|k: PeerId, d: PeerId|
                #![trigger self.mesh().contains(k), before.mesh().contains(d)]
                self.mesh().contains(k) && before.mesh().contains(k) && !peers.is_outbound(k)
                    && before.mesh().contains(d) && !self.mesh().contains(d) ==> peers.standing(d)
                    <= peers.standing(k)
            &&& forall|q: PeerId, p: PeerId|
                #![trigger self.mesh().contains(q), before.mesh().contains(p)]
                peers.qualifies(q, topic, self.mesh(), true) && self.mesh().contains(p)
                    && !before.mesh().contains(p) ==> !ranks_before(peers@[q], peers@[p])
            &&& forall|q: PeerId|
                self.lazy().contains(q) ==> before.lazy().contains(q) || before.mesh().contains(q)
            &&& self.lazy().len() <= before.lazy().len() || self.lazy().len() <= cfg.mesh_n_lazy
        }
    }

    /// The third step of the heartbeat: brings the outbound peers of the mesh
    /// up to `mesh_outbound_min`, whatever the size of the mesh.
    pub fn secure_outbound(&mut self, topic: &TopicHandle, peers: &PeerSet, cfg: &GossipsubConfig)
        requires
            old(self).wf(),
            peers.wf(),
            cfg.wf(),
        ensures
            final(self).wf(),
            final(self).secured_from(*old(self), topic@, *peers, *cfg),
    {
        let mut have = self.count_outbound(peers);
        if have >= cfg.mesh_outbound_min {
            return ;
        }
        let mut exhausted = false;
        while have < cfg.mesh_outbound_min && !exhausted
            invariant
                self.wf(),
                peers.wf(),
                cfg.wf(),
                have == outbound_count(self.mesh(), *peers),
                have <= cfg.mesh_outbound_min,
                outbound_count(old(self).mesh(), *peers) <= have,
                old(self).mesh().len() <= self.mesh().len(),
                self.mesh().len() <= old(self).mesh().len() || self.mesh().len()
                    <= cfg.mesh_n_high,
                exhausted ==> forall|p: PeerId| !peers.qualifies(p, topic@, self.mesh(), true),
                forall|p: PeerId|
                    #![trigger self.mesh().contains(p)]
                    self.mesh().contains(p) && !old(self).mesh().contains(p) ==> peers.eligible(
                        p,
                        topic@,
                    ) && peers.is_outbound(p),
                forall|p: PeerId|
                    old(self).mesh().contains(p) && !self.mesh().contains(p)
                        ==> !peers.is_outbound(p),
                forall|k: PeerId, d: PeerId|
                    #![trigger self.mesh().contains(k), old(self).mesh().contains(d)]
                    self.mesh().contains(k) && old(self).mesh().contains(k) && !peers.is_outbound(k)
                        && old(self).mesh().contains(d) && !self.mesh().contains(d)
                        ==> peers.standing(d) <= peers.standing(k),
                forall|q: PeerId, p: PeerId|
                    #![trigger self.mesh().contains(q), old(self).mesh().contains(p)]
                    peers.qualifies(q, topic@, self.mesh(), true) && self.mesh().contains(p)
                        && !old(self).mesh().contains(p) ==> !ranks_before(peers@[q], peers@[p]),
                forall|q: PeerId|
                    self.lazy().contains(q) ==> old(self).lazy().contains(q) || old(
                        self,
                    ).mesh().contains(q),
                self.lazy().len() <= old(self).lazy().len() || self.lazy().len()
                    <= cfg.mesh_n_lazy,
            decreases cfg.mesh_outbound_min - have + (if exhausted { 0int } else { 1int }),
        {
            let found = peers.outbound_candidates_for_topic(topic, &self.mesh, 1);
            if found.len() == 0 {
                exhausted = true;
                proof {
                    assert forall|p: PeerId| !peers.qualifies(p, topic@, self.mesh(), true) by {
                        if peers.qualifies(p, topic@, self.mesh(), true) {
                            assert(found@.contains(p));
                        }
                    }
                }
            } else {
                let p = found.get(0);
                assert(found@.contains(p));
                assert(peers.qualifies(p, topic@, self.mesh(), true));
                let ghost start = *self;
                if self.mesh.len() >= cfg.mesh_n_high {
                    match self.weakest(peers, true) {
                        Some(i) => {
                            let v = self.mesh.get(i);
                            proof {
                                assert(start.mesh().contains(v));
                                lemma_without(start.mesh(), v);
                                lemma_push_contains(start.lazy(), v);
                                lemma_outbound_count_without(start.mesh(), v, *peers);
                            }
                            self.prune(v, cfg.mesh_n_lazy);
                            proof {
                                let cut = self.mesh();
                                assert forall|k: PeerId, d: PeerId|
                                    #![trigger cut.contains(k), old(self).mesh().contains(d)]
                                    cut.contains(k) && old(self).mesh().contains(k)
                                        && !peers.is_outbound(k) && old(self).mesh().contains(d)
                                        && !cut.contains(d) implies peers.standing(d)
                                    <= peers.standing(k) by {
                                    assert(start.mesh().contains(k));
                                    if d == v {
                                        let j = choose|j: int|
                                            0 <= j < start.mesh().len() && start.mesh()[j] == k;
                                        assert(peers.standing(start.mesh()[i as int])
                                            <= peers.standing(start.mesh()[j]));
                                    } else {
                                        assert(!start.mesh().contains(d));
                                    }
                                }
                            }
                        },
                        None => {
                            // A full mesh that is short of outbound peers holds an
                            // inbound one.
                            proof {
                                lemma_outbound_count_bound(self.mesh(), *peers);
                            }
                            assert(false);
                        },
                    }
                }
                let ghost cut = *self;
                proof {
                    lemma_without(cut.lazy(), p);
                    lemma_push_contains(cut.mesh(), p);
                    lemma_outbound_count_push(cut.mesh(), p, *peers);
                    assert(!cut.mesh().contains(p));
                }
                self.graft(p);
                have += 1;
                proof {
                    let grown = self.mesh();
                    assert(grown == cut.mesh().push(p));
                    assert forall|k: PeerId, d: PeerId|
                        #![trigger grown.contains(k), old(self).mesh().contains(d)]
                        grown.contains(k) && old(self).mesh().contains(k) && !peers.is_outbound(k)
                            && old(self).mesh().contains(d) && !grown.contains(
                            d,
                        ) implies peers.standing(d) <= peers.standing(k) by {
                        assert(cut.mesh().contains(k));
                        assert(!cut.mesh().contains(d));
                    }
                    assert forall|q: PeerId| old(self).mesh().contains(q) && !grown.contains(
                        q,
                    ) implies !peers.is_outbound(q) by {
                        assert(!cut.mesh().contains(q));
                    }
                    assert forall|x: PeerId| grown.contains(x) && !old(self).mesh().contains(
                        x,
                    ) implies peers.eligible(x, topic@) && peers.is_outbound(x) by {
                        if x != p {
                            assert(cut.mesh().contains(x));
                            assert(start.mesh().contains(x));
                        }
                    }
                    assert forall|q: PeerId, x: PeerId|
                        #![trigger grown.contains(q), old(self).mesh().contains(x)]
                        peers.qualifies(q, topic@, grown, true) && grown.contains(x) && !old(
                            self,
                        ).mesh().contains(x) implies !ranks_before(peers@[q], peers@[x]) by {
                        assert(!cut.mesh().contains(q) && q != p);
                        assert(!start.mesh().contains(q)) by {
                            if start.mesh().contains(q) {
                                assert(!peers.is_outbound(q));
                            }
                        }
                        assert(peers.qualifies(q, topic@, start.mesh(), true));
                        if x == p {
                            assert(!found@.contains(q)) by {
                                if found@.contains(q) {
                                    let k = choose|k: int| 0 <= k < found@.len() && found@[k] == q;
                                    assert(k == 0);
                                }
                            }
                            assert(!ranks_before(peers@[q], peers@[found@[0]]));
                        } else {
                            assert(cut.mesh().contains(x));
                            assert(start.mesh().contains(x));
                        }
                    }
                }
            }
        }
    }

    /// Whether the mesh is within its bounds and has its outbound peers.
    pub open spec fn steady(&self, peers: PeerSet, cfg: GossipsubConfig) -> bool {
        cfg.mesh_n_low <= self.mesh().len() <= cfg.mesh_n_high && outbound_count(
            self.mesh(),
            peers,
        ) >= cfg.mesh_outbound_min
    }

    /// Where the mesh stands: steady, or in need of grooming.
    pub fn phase(&self, peers: &PeerSet, cfg: &GossipsubConfig) -> (p: MeshPhase)
        requires
            peers.wf(),
        ensures
            p == if self.steady(*peers, *cfg) {
                MeshPhase::Steady
            } else {
                MeshPhase::Grooming
            },
    {
        let size = self.mesh.len();
        if cfg.mesh_n_low <= size && size <= cfg.mesh_n_high && self.count_outbound(peers)
            >= cfg.mesh_outbound_min {
            MeshPhase::Steady
        } else {
            MeshPhase::Grooming
        }
    }

    /// What one heartbeat leaves of `before`: the mesh filled, then cut, then
    /// secured.
    pub open spec fn beats_from(
        &self,
        before: MeshView,
        topic: Seq<char>,
        peers: PeerSet,
        cfg: GossipsubConfig,
    ) -> bool {
        exists|a: MeshView, b: MeshView|
            a.wf() && b.wf() && a.filled_from(before, topic, peers, cfg) && b.evicted_from(
                a,
                peers,
                cfg,
            ) && self.secured_from(b, topic, peers, cfg)
    }

    /// One heartbeat for the topic: fill, evict, secure the outbound minimum.
    ///
    /// Afterwards the mesh is within `mesh_n_high`. It is at or above
    /// `mesh_n_low` if it was before, or if at least `mesh_n_high` peers are
    /// eligible for the topic. Too few candidates are no failure: the mesh stays
    /// short until a later heartbeat.
    pub fn heartbeat(&mut self, topic: &TopicHandle, peers: &PeerSet, cfg: &GossipsubConfig)
        requires
            old(self).wf(),
            peers.wf(),
            cfg.wf(),
        ensures
            final(self).wf(),
            final(self).beats_from(*old(self), topic@, *peers, *cfg),
            final(self).mesh().len() <= cfg.mesh_n_high,
            old(self).mesh().len() >= cfg.mesh_n_low ==> final(self).mesh().len()
                >= cfg.mesh_n_low,
            peers.eligible_set(topic@).len() >= cfg.mesh_n_high ==> final(self).mesh().len()
                >= cfg.mesh_n_low,
            final(self).lazy().len() <= old(self).lazy().len() || final(self).lazy().len()
                <= cfg.mesh_n_lazy,
    {
        self.fill(topic, peers, cfg);
        let ghost a = *self;
        self.evict(peers, cfg);
        let ghost b = *self;
        self.secure_outbound(topic, peers, cfg);
        proof {
            assert(a.wf() && b.wf() && a.filled_from(*old(self), topic@, *peers, *cfg)
                && b.evicted_from(a, *peers, *cfg) && self.secured_from(b, topic@, *peers, *cfg));
            lemma_heartbeat_bounds(*old(self), *self, topic@, *peers, *cfg);
        }
    }
}

/// Whatever a mesh was, a heartbeat leaves it within `mesh_n_high`; it leaves
/// it at or above `mesh_n_low` if it was so before, or if at least
/// `mesh_n_high` peers are eligible for the topic; and it leaves the lazy set
/// within `mesh_n_lazy` if it was so before.
pub proof fn lemma_heartbeat_bounds(
    before: MeshView,
    after: MeshView,
    topic: Seq<char>,
    peers: PeerSet,
    cfg: GossipsubConfig,
)
    requires
        cfg.wf(),
        after.beats_from(before, topic, peers, cfg),
    ensures
        after.mesh().len() <= cfg.mesh_n_high,
        before.mesh().len() >= cfg.mesh_n_low ==> after.mesh().len() >= cfg.mesh_n_low,
        peers.eligible_set(topic).len() >= cfg.mesh_n_high ==> after.mesh().len()
            >= cfg.mesh_n_low,
        after.lazy().len() <= before.lazy().len() || after.lazy().len() <= cfg.mesh_n_lazy,
{
    let (a, b) = choose|a: MeshView, b: MeshView|
        a.wf() && b.wf() && a.filled_from(before, topic, peers, cfg) && b.evicted_from(
            a,
            peers,
            cfg,
        ) && after.secured_from(b, topic, peers, cfg);
    if before.mesh().len() < cfg.mesh_n_low && a.mesh().len() != cfg.mesh_n_high {
        lemma_eligible_within(a.mesh(), peers, topic);
    }
}

/// When every eligible peer is in a duplicate-free list, the eligible peers
/// are no more than the list is long.
pub proof fn lemma_eligible_within(mesh: Seq<PeerId>, peers: PeerSet, topic: Seq<char>)
    requires
        mesh.no_duplicates(),
        forall|p: PeerId| peers.eligible(p, topic) ==> mesh.contains(p),
    ensures
        peers.eligible_set(topic).finite(),
        peers.eligible_set(topic).len() <= mesh.len(),
{
    let e = peers.eligible_set(topic);
    vstd::seq_lib::seq_to_set_is_finite(mesh);
    assert(e.subset_of(mesh.to_set()));
    vstd::set_lib::lemma_len_subset(e, mesh.to_set());
    mesh.unique_seq_to_set();
}

/// How many peers of `mesh` this node connected to.
pub open spec fn outbound_count(mesh: Seq<PeerId>, peers: PeerSet) -> nat
    decreases mesh.len(),
{
    if mesh.len() == 0 {
        0
    } else {
        outbound_count(mesh.drop_last(), peers) + if peers.is_outbound(mesh.last()) {
            1nat
        } else {
            0nat
        }
    }
}

/// The count is at most the length, and is the length when every peer is
/// outbound.
pub proof fn lemma_outbound_count_bound(mesh: Seq<PeerId>, peers: PeerSet)
    ensures
        outbound_count(mesh, peers) <= mesh.len(),
        (forall|j: int| 0 <= j < mesh.len() ==> peers.is_outbound(mesh[j])) ==> outbound_count(
            mesh,
            peers,
        ) == mesh.len(),
    decreases mesh.len(),
{
    if mesh.len() > 0 {
        lemma_outbound_count_bound(mesh.drop_last(), peers);
        if forall|j: int| 0 <= j < mesh.len() ==> peers.is_outbound(mesh[j]) {
            assert forall|j: int| 0 <= j < mesh.drop_last().len() implies peers.is_outbound(
                mesh.drop_last()[j],
            ) by {
                assert(mesh.drop_last()[j] == mesh[j]);
            }
        }
    }
}

/// One more peer adds one to the count when it is outbound.
pub proof fn lemma_outbound_count_push(mesh: Seq<PeerId>, p: PeerId, peers: PeerSet)
    ensures
        outbound_count(mesh.push(p), peers) == outbound_count(mesh, peers) + if peers.is_outbound(
            p,
        ) {
            1nat
        } else {
            0nat
        },
{
    assert(mesh.push(p).drop_last() =~= mesh);
}

/// Taking out a peer that is not outbound leaves the count.
pub proof fn lemma_outbound_count_without(mesh: Seq<PeerId>, v: PeerId, peers: PeerSet)
    requires
        !peers.is_outbound(v),
    ensures
        outbound_count(without(mesh, v), peers) == outbound_count(mesh, peers),
    decreases mesh.len(),
{
    if mesh.len() > 0 {
        lemma_outbound_count_without(mesh.drop_last(), v, peers);
        if mesh.last() != v {
            lemma_outbound_count_push(without(mesh.drop_last(), v), mesh.last(), peers);
        }
    }
}

/// A peer is in `a + b` when it is in `a` or in `b`.
pub proof fn lemma_concat_contains(a: Seq<PeerId>, b: Seq<PeerId>)
    ensures
        forall|q: PeerId| (a + b).contains(q) <==> (a.contains(q) || b.contains(q)),
{
    let t = a + b;
    assert forall|q: PeerId| t.contains(q) <==> (a.contains(q) || b.contains(q)) by {
        if t.contains(q) {
            let j = choose|j: int| 0 <= j < t.len() && t[j] == q;
            if j < a.len() {
                assert(a[j] == q);
            } else {
                assert(b[j - a.len()] == q);
            }
        }
        if a.contains(q) {
            let j = choose|j: int| 0 <= j < a.len() && a[j] == q;
            assert(t[j] == q);
        }
        if b.contains(q) {
            let j = choose|j: int| 0 <= j < b.len() && b[j] == q;
            assert(t[a.len() + j] == q);
        }
    }
}

} // verus!
