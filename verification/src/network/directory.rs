//! The directory of peers: it gives each peer identity that the transport
//! meets a handle, and finds the identity again.

use crate::types::wire::put_slice;
use crate::types::PeerId;
use vstd::prelude::*;

verus! {

/// The identities that were met, each at the position that is its handle.
pub struct PeerDirectory {
    identities: Vec<Vec<u8>>,
}

impl View for PeerDirectory {
    type V = Seq<Seq<u8>>;

    closed spec fn view(&self) -> Seq<Seq<u8>> {
        Seq::new(self.identities@.len(), |i: int| self.identities@[i]@)
    }
}

/// Whether two byte strings are the same.
fn same_bytes(a: &[u8], b: &[u8]) -> (r: bool)
    ensures
        r == (a@ == b@),
{
    if a.len() != b.len() {
        return false;
    }
    let mut i: usize = 0;
    while i < a.len()
        invariant
            i <= a@.len(),
            a@.len() == b@.len(),
            forall|j: int| 0 <= j < i ==> a@[j] == b@[j],
        decreases a@.len() - i,
    {
        if a[i] != b[i] {
            return false;
        }
        i += 1;
    }
    assert(a@ =~= b@);
    true
}

impl PeerDirectory {
    /// No identity has two handles, and every handle fits its type.
    pub open spec fn wf(&self) -> bool {
        self@.no_duplicates() && self@.len() <= u64::MAX
    }

    /// The handle of `identity`, where it has one.
    pub open spec fn handle(&self, identity: Seq<u8>) -> Option<PeerId> {
        if self@.contains(identity) {
            Some(PeerId(self@.index_of(identity) as u64))
        } else {
            None
        }
    }

    /// An empty directory.
    pub fn new() -> (d: PeerDirectory)
        ensures
            d.wf(),
            d@ == Seq::<Seq<u8>>::empty(),
    {
        let d = PeerDirectory { identities: Vec::new() };
        assert(d@ =~= Seq::<Seq<u8>>::empty());
        d
    }

    /// How many identities have a handle.
    pub fn len(&self) -> (n: usize)
        ensures
            n == self@.len(),
    {
        self.identities.len()
    }

    /// The handle of `identity`, where it has one.
    pub fn lookup(&self, identity: &[u8]) -> (r: Option<PeerId>)
        requires
            self.wf(),
        ensures
            r == self.handle(identity@),
    {
        let mut i: usize = 0;
        while i < self.identities.len()
            invariant
                i <= self.identities@.len(),
                self.identities@.len() == self@.len(),
                self.wf(),
                forall|j: int| 0 <= j < i ==> self@[j] != identity@,
            decreases self.identities@.len() - i,
        {
            if same_bytes(self.identities[i].as_slice(), identity) {
                proof {
                    assert(self@[i as int] == identity@);
                    let k = self@.index_of(identity@);
                    assert(0 <= k < self@.len() && self@[k] == identity@);
                    assert(k == i);
                }
                return Some(PeerId(i as u64));
            }
            i += 1;
        }
        None
    }

    /// The handle of `identity`: the one it has, or else the next free one.
    /// Nothing is handed out once every handle is taken.
    pub fn handle_of(&mut self, identity: &[u8]) -> (r: Option<PeerId>)
        requires
            old(self).wf(),
        ensures
            final(self).wf(),
            final(self)@ == if old(self)@.contains(identity@) || old(self)@.len() == u64::MAX {
                old(self)@
            } else {
                old(self)@.push(identity@)
            },
            r == final(self).handle(identity@),
            r is None <==> !old(self)@.contains(identity@) && old(self)@.len() == u64::MAX,
    {
        match self.lookup(identity) {
            Some(h) => Some(h),
            None => {
                let n = self.identities.len();
                if n as u64 == u64::MAX {
                    return None;
                }
                let mut owned: Vec<u8> = Vec::new();
                put_slice(&mut owned, identity);
                self.identities.push(owned);
                proof {
                    let before = old(self)@;
                    let after = self@;
                    assert(after =~= before.push(identity@));
                    assert(after[n as int] == identity@);
                    let k = after.index_of(identity@);
                    assert(0 <= k < after.len() && after[k] == identity@);
                    if k < n {
                        assert(before[k] == identity@);
                    }
                }
                Some(PeerId(n as u64))
            },
        }
    }

    /// The identity that `handle` stands for.
    pub fn identity_of(&self, handle: PeerId) -> (r: Option<&Vec<u8>>)
        ensures
            match r {
                Some(identity) => handle.0 < self@.len() && identity@ == self@[handle.0 as int],
                None => handle.0 >= self@.len(),
            },
    {
        if handle.0 < self.identities.len() as u64 {
            Some(&self.identities[handle.0 as usize])
        } else {
            None
        }
    }
}

/// In a well-formed directory two identities have the same handle exactly
/// when they are the same identity.
pub proof fn lemma_handles_tell_identities_apart(d: PeerDirectory, a: Seq<u8>, b: Seq<u8>)
    requires
        d.wf(),
        d@.contains(a),
        d@.contains(b),
    ensures
        d.handle(a) == d.handle(b) <==> a == b,
{
    let i = d@.index_of(a);
    let j = d@.index_of(b);
    assert(0 <= i < d@.len() && d@[i] == a);
    assert(0 <= j < d@.len() && d@[j] == b);
}

} // verus!
