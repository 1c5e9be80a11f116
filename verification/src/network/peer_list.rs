//! An ordered list of peers in which no peer occurs twice.

use crate::types::PeerId;
use vstd::prelude::*;

verus! {

/// A duplicate-free list of peers, in the order in which they were added.
pub struct PeerList {
    items: Vec<PeerId>,
}

impl View for PeerList {
    type V = Seq<PeerId>;

    closed spec fn view(&self) -> Seq<PeerId> {
        self.items@
    }
}

/// `s` with every occurrence of `p` taken out, the order of the others kept.
pub open spec fn without(s: Seq<PeerId>, p: PeerId) -> Seq<PeerId>
    decreases s.len(),
{
    if s.len() == 0 {
        s
    } else if s.last() == p {
        without(s.drop_last(), p)
    } else {
        without(s.drop_last(), p).push(s.last())
    }
}

/// The peers of `a` that are not in `b`, in the order of `a`.
pub open spec fn minus(a: Seq<PeerId>, b: Seq<PeerId>) -> Seq<PeerId>
    decreases a.len(),
{
    if a.len() == 0 {
        a
    } else if b.contains(a.last()) {
        minus(a.drop_last(), b)
    } else {
        minus(a.drop_last(), b).push(a.last())
    }
}

/// A peer is in `s.push(x)` when it is in `s` or is `x`.
pub proof fn lemma_push_contains(s: Seq<PeerId>, x: PeerId)
    ensures
        forall|q: PeerId| s.push(x).contains(q) <==> (s.contains(q) || q == x),
{
    let t = s.push(x);
    assert forall|q: PeerId| t.contains(q) <==> (s.contains(q) || q == x) by {
        if t.contains(q) {
            let j = choose|j: int| 0 <= j < t.len() && t[j] == q;
            if j < s.len() {
                assert(s[j] == q);
            }
        }
        if s.contains(q) {
            let j = choose|j: int| 0 <= j < s.len() && s[j] == q;
            assert(t[j] == q);
        }
        if q == x {
            assert(t[s.len() as int] == q);
        }
    }
}

/// What `without` keeps: the peers of `s` other than `p`, each as often as
/// before.
pub proof fn lemma_without(s: Seq<PeerId>, p: PeerId)
    ensures
        forall|q: PeerId| without(s, p).contains(q) <==> (s.contains(q) && q != p),
        without(s, p).len() <= s.len(),
        !s.contains(p) ==> without(s, p) == s,
        s.no_duplicates() ==> without(s, p).no_duplicates(),
        s.no_duplicates() && s.contains(p) ==> without(s, p).len() == s.len() - 1,
    decreases s.len(),
{
    if s.len() > 0 {
        let init = s.drop_last();
        let w = without(init, p);
        lemma_without(init, p);
        assert(s =~= init.push(s.last()));
        lemma_push_contains(init, s.last());
        lemma_push_contains(w, s.last());
        assert forall|q: PeerId| without(s, p).contains(q) <==> (s.contains(q) && q != p) by {
            assert(s.contains(q) <==> (init.contains(q) || q == s.last()));
            assert(w.contains(q) <==> (init.contains(q) && q != p));
            if s.last() != p {
                assert(without(s, p) == w.push(s.last()));
                assert(w.push(s.last()).contains(q) <==> (w.contains(q) || q == s.last()));
            }
        }
        if !s.contains(p) {
            assert(without(s, p) =~= s);
        }
        if s.no_duplicates() {
            assert(init.no_duplicates());
            assert(!init.contains(s.last())) by {
                if init.contains(s.last()) {
                    let i = choose|i: int| 0 <= i < init.len() && init[i] == s.last();
                    assert(s[i] == s[s.len() - 1]);
                }
            }
            if s.last() != p {
                assert(w.push(s.last()).no_duplicates());
            }
        }
    }
}

impl Clone for PeerList {
    fn clone(&self) -> (l: PeerList)
        ensures
            l@ == self@,
    {
        PeerList { items: self.to_vec() }
    }
}

/// No peer is in both lists.
pub open spec fn disjoint(a: Seq<PeerId>, b: Seq<PeerId>) -> bool {
    forall|p: PeerId| !(a.contains(p) && b.contains(p))
}

impl PeerList {
    /// No peer occurs twice.
    pub open spec fn wf(&self) -> bool {
        self@.no_duplicates()
    }

    /// The empty list.
    pub fn new() -> (l: PeerList)
        ensures
            l.wf(),
            l@ == Seq::<PeerId>::empty(),
    {
        PeerList { items: Vec::new() }
    }

    /// How many peers the list holds.
    pub fn len(&self) -> (n: usize)
        ensures
            n == self@.len(),
    {
        self.items.len()
    }

    /// The peer at position `i`.
    pub fn get(&self, i: usize) -> (p: PeerId)
        requires
            i < self@.len(),
        ensures
            p == self@[i as int],
    {
        self.items[i]
    }

    /// The position of `p`, if the list holds it.
    pub fn position(&self, p: PeerId) -> (r: Option<usize>)
        ensures
            match r {
                Some(i) => i < self@.len() && self@[i as int] == p,
                None => !self@.contains(p),
            },
    {
        let mut i: usize = 0;
        while i < self.items.len()
            invariant
                i <= self.items@.len(),
                forall|j: int| 0 <= j < i ==> self.items@[j] != p,
            decreases self.items@.len() - i,
        {
            if self.items[i] == p {
                return Some(i);
            }
            i += 1;
        }
        None
    }

    /// Whether the list holds `p`.
    pub fn contains(&self, p: PeerId) -> (b: bool)
        ensures
            b == self@.contains(p),
    {
        self.position(p).is_some()
    }

    /// Adds `p` at the end unless the list holds it already. Says whether it
    /// was added.
    pub fn insert(&mut self, p: PeerId) -> (added: bool)
        requires
            old(self).wf(),
        ensures
            final(self).wf(),
            added == !old(self)@.contains(p),
            final(self)@ == if added {
                old(self)@.push(p)
            } else {
                old(self)@
            },
    {
        if self.contains(p) {
            false
        } else {
            self.items.push(p);
            true
        }
    }

    /// Takes `p` out of the list. Says whether the list held it.
    pub fn remove(&mut self, p: PeerId) -> (removed: bool)
        requires
            old(self).wf(),
        ensures
            final(self).wf(),
            removed == old(self)@.contains(p),
            final(self)@ == without(old(self)@, p),
    {
        match self.position(p) {
            Some(i) => {
                proof {
                    lemma_without_at(self.items@, i as int);
                    lemma_without(self.items@, p);
                }
                self.items.remove(i);
                true
            },
            None => {
                proof {
                    lemma_without(self.items@, p);
                }
                false
            },
        }
    }

    /// The peers of `self`, then those of `other` that `self` does not hold.
    pub fn union(&self, other: &PeerList) -> (l: PeerList)
        requires
            self.wf(),
        ensures
            l.wf(),
            forall|p: PeerId| l@.contains(p) <==> (self@.contains(p) || other@.contains(p)),
            disjoint(self@, other@) && other.wf() ==> l@ == self@ + other@,
    {
        let mut out = self.clone();
        let mut i: usize = 0;
        while i < other.len()
            invariant
                i <= other@.len(),
                out.wf(),
                forall|p: PeerId|
                    out@.contains(p) <==> (self@.contains(p) || other@.subrange(
                        0,
                        i as int,
                    ).contains(p)),
                disjoint(self@, other@) && other.wf() ==> out@ == self@ + other@.subrange(
                    0,
                    i as int,
                ),
            decreases other@.len() - i,
        {
            let q = other.get(i);
            let ghost before = out@;
            let ghost seen = other@.subrange(0, i as int);
            out.insert(q);
            proof {
                let seen_next = other@.subrange(0, i + 1);
                assert(seen_next =~= seen.push(q));
                lemma_push_contains(seen, q);
                lemma_push_contains(before, q);
                assert forall|x: PeerId|
                    out@.contains(x) <==> (self@.contains(x) || seen_next.contains(x)) by {
                    assert(seen_next.contains(x) <==> (seen.contains(x) || x == q));
                    assert(before.push(q).contains(x) <==> (before.contains(x) || x == q));
                    assert(before.contains(x) <==> (self@.contains(x) || seen.contains(x)));
                }
                if disjoint(self@, other@) && other.wf() {
                    assert(!before.contains(q)) by {
                        if seen.contains(q) {
                            let j = choose|j: int| 0 <= j < seen.len() && seen[j] == q;
                            assert(other@[j] == other@[i as int]);
                        }
                        assert(other@.contains(q));
                    }
                    assert(out@ =~= self@ + seen_next);
                }
            }
            i += 1;
        }
        assert(other@.subrange(0, i as int) =~= other@);
        out
    }

    /// The peers of `self` that `other` does not hold, in order.
    pub fn difference(&self, other: &PeerList) -> (v: Vec<PeerId>)
        ensures
            v@ == minus(self@, other@),
    {
        let mut v: Vec<PeerId> = Vec::new();
        let mut i: usize = 0;
        while i < self.items.len()
            invariant
                i <= self.items@.len(),
                v@ == minus(self.items@.subrange(0, i as int), other@),
            decreases self.items@.len() - i,
        {
            let p = self.items[i];
            assert(self.items@.subrange(0, i + 1).drop_last() =~= self.items@.subrange(
                0,
                i as int,
            ));
            if !other.contains(p) {
                v.push(p);
            }
            i += 1;
        }
        assert(self.items@.subrange(0, i as int) =~= self.items@);
        v
    }

    /// The peers as a vector, in order.
    pub fn to_vec(&self) -> (v: Vec<PeerId>)
        ensures
            v@ == self@,
    {
        let mut v: Vec<PeerId> = Vec::new();
        let mut i: usize = 0;
        while i < self.items.len()
            invariant
                i <= self.items@.len(),
                v@ == self.items@.subrange(0, i as int),
            decreases self.items@.len() - i,
        {
            v.push(self.items[i]);
            i += 1;
            assert(v@ =~= self.items@.subrange(0, i as int));
        }
        assert(self.items@.subrange(0, i as int) =~= self.items@);
        v
    }
}

/// In a duplicate-free list, taking out the peer at `i` is cutting position `i`.
pub proof fn lemma_without_at(s: Seq<PeerId>, i: int)
    requires
        s.no_duplicates(),
        0 <= i < s.len(),
    ensures
        without(s, s[i]) == s.remove(i),
    decreases s.len(),
{
    let init = s.drop_last();
    if i == s.len() - 1 {
        assert(!init.contains(s[i])) by {
            if init.contains(s[i]) {
                let j = choose|j: int| 0 <= j < init.len() && init[j] == s[i];
                assert(s[j] == s[i]);
            }
        }
        lemma_without(init, s[i]);
        assert(s.remove(i) =~= init);
    } else {
        lemma_without_at(init, i);
        assert(s.last() != s[i]);
        assert(s.remove(i) =~= init.remove(i).push(s.last()));
    }
}

} // verus!
