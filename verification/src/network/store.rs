//! The recent envelopes of one topic, kept to answer the peers that ask for
//! a message that was announced to them.

use crate::types::wire::put_slice;
use crate::types::MessageId;
use vstd::prelude::*;

verus! {

/// An envelope with its identifier.
pub struct StoredMessage {
    id: MessageId,
    wire: Vec<u8>,
}

/// Mathematical value of a [`StoredMessage`].
pub struct StoredView {
    pub id: MessageId,
    pub wire: Seq<u8>,
}

impl View for StoredMessage {
    type V = StoredView;

    closed spec fn view(&self) -> StoredView {
        StoredView { id: self.id, wire: self.wire@ }
    }
}

/// The last `capacity` envelopes, oldest first.
pub struct MessageStore {
    entries: Vec<StoredMessage>,
    capacity: usize,
}

impl View for MessageStore {
    type V = Seq<StoredView>;

    closed spec fn view(&self) -> Seq<StoredView> {
        Seq::new(self.entries@.len(), |i: int| self.entries@[i]@)
    }
}

/// Whether an envelope with the identifier `id` is among `entries`.
pub open spec fn holds(entries: Seq<StoredView>, id: MessageId) -> bool {
    exists|i: int| 0 <= i < entries.len() && #[trigger] entries[i].id == id
}

/// The envelope with the identifier `id`, where `entries` hold one.
pub open spec fn stored(entries: Seq<StoredView>, id: MessageId) -> Option<Seq<u8>> {
    if holds(entries, id) {
        Some(entries[choose|i: int| 0 <= i < entries.len() && #[trigger] entries[i].id == id].wire)
    } else {
        None
    }
}

/// No two envelopes have the same identifier.
pub open spec fn distinct_messages(entries: Seq<StoredView>) -> bool {
    forall|i: int, j: int| 0 <= i < j < entries.len() ==> entries[i].id != entries[j].id
}

/// The store after an envelope was offered to it: an identifier that is held
/// already changes nothing; a new envelope goes to the end, and pushes the
/// oldest out when the store is full.
pub open spec fn kept(entries: Seq<StoredView>, capacity: nat, id: MessageId, wire: Seq<u8>) -> Seq<
    StoredView,
> {
    if holds(entries, id) || capacity == 0 {
        entries
    } else if entries.len() < capacity {
        entries.push(StoredView { id, wire })
    } else {
        entries.skip(1).push(StoredView { id, wire })
    }
}

impl MessageStore {
    /// How many envelopes the store keeps at most.
    pub closed spec fn spec_capacity(&self) -> nat {
        self.capacity as nat
    }

    /// No identifier occurs twice, and the store is within its capacity.
    pub open spec fn wf(&self) -> bool {
        distinct_messages(self@) && self@.len() <= self.spec_capacity()
    }

    /// An empty store for up to `capacity` envelopes.
    pub fn new(capacity: usize) -> (s: MessageStore)
        ensures
            s.wf(),
            s@ == Seq::<StoredView>::empty(),
            s.spec_capacity() == capacity,
    {
        let s = MessageStore { entries: Vec::new(), capacity };
        assert(s@ =~= Seq::<StoredView>::empty());
        s
    }

    /// How many envelopes the store holds.
    pub fn len(&self) -> (n: usize)
        ensures
            n == self@.len(),
    {
        self.entries.len()
    }

    fn position(&self, id: MessageId) -> (r: Option<usize>)
        requires
            self.wf(),
        ensures
            match r {
                Some(i) => i < self@.len() && self@[i as int].id == id && stored(self@, id)
                    == Some(self@[i as int].wire),
                None => !holds(self@, id),
            },
    {
        let mut i: usize = 0;
        while i < self.entries.len()
            invariant
                i <= self.entries@.len(),
                self.entries@.len() == self@.len(),
                self.wf(),
                forall|j: int| 0 <= j < i ==> self@[j].id != id,
            decreases self.entries@.len() - i,
        {
            if self.entries[i].id == id {
                proof {
                    assert(self@[i as int].id == id);
                    let k = choose|k: int| 0 <= k < self@.len() && #[trigger] self@[k].id == id;
                    if k < i {
                        assert(self@[k].id != self@[i as int].id);
                    } else if k > i {
                        assert(self@[i as int].id != self@[k].id);
                    }
                }
                return Some(i);
            }
            i += 1;
        }
        None
    }

    /// The envelope with the identifier `id`, where the store holds one.
    pub fn get(&self, id: MessageId) -> (r: Option<Vec<u8>>)
        requires
            self.wf(),
        ensures
            match r {
                Some(wire) => stored(self@, id) == Some(wire@),
                None => stored(self@, id) is None,
            },
    {
        match self.position(id) {
            Some(i) => {
                let mut wire: Vec<u8> = Vec::new();
                put_slice(&mut wire, self.entries[i].wire.as_slice());
                assert(wire@ =~= self@[i as int].wire);
                Some(wire)
            },
            None => None,
        }
    }

    /// Offers an envelope to the store.
    pub fn insert(&mut self, id: MessageId, wire: &[u8])
        requires
            old(self).wf(),
        ensures
            final(self).wf(),
            final(self).spec_capacity() == old(self).spec_capacity(),
            final(self)@ == kept(old(self)@, old(self).spec_capacity(), id, wire@),
    {
        if self.position(id).is_some() || self.capacity == 0 {
            return ;
        }
        if self.entries.len() == self.capacity {
            self.entries.remove(0);
            assert(self@ =~= old(self)@.skip(1));
        }
        let ghost rest = self@;
        let mut owned: Vec<u8> = Vec::new();
        put_slice(&mut owned, wire);
        self.entries.push(StoredMessage { id, wire: owned });
        proof {
            let now = self@;
            assert(now =~= rest.push(StoredView { id, wire: wire@ }));
            assert forall|i: int, j: int| 0 <= i < j < now.len() implies now[i].id
                != now[j].id by {
                let shift = old(self)@.len() - rest.len();
                assert(rest[i] == old(self)@[i + shift]);
                if j < rest.len() {
                    assert(rest[j] == old(self)@[j + shift]);
                } else {
                    assert(now[j].id == id);
                    assert(old(self)@[i + shift].id != id);
                }
            }
        }
    }
}

} // verus!
