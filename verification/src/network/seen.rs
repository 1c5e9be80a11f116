//! The deduplication cache: a bounded window over the identifiers of the
//! messages seen most recently.

use crate::types::MessageId;
use vstd::prelude::*;

verus! {

/// The identifiers of the last `capacity` distinct messages, oldest first.
pub struct SeenCache {
    ids: Vec<MessageId>,
    capacity: usize,
}

impl View for SeenCache {
    type V = Seq<MessageId>;

    closed spec fn view(&self) -> Seq<MessageId> {
        self.ids@
    }
}

/// The window after `id` was offered to it: an identifier already in the
/// window changes nothing; a new one goes to the end, and pushes the oldest out
/// when the window is full.
pub open spec fn remembered(window: Seq<MessageId>, capacity: nat, id: MessageId) -> Seq<
    MessageId,
> {
    if window.contains(id) || capacity == 0 {
        window
    } else if window.len() < capacity {
        window.push(id)
    } else {
        window.skip(1).push(id)
    }
}

impl SeenCache {
    /// How many identifiers the cache keeps at most.
    pub closed spec fn spec_capacity(&self) -> nat {
        self.capacity as nat
    }

    /// No identifier occurs twice, and the window is within its capacity.
    pub open spec fn wf(&self) -> bool {
        self@.no_duplicates() && self@.len() <= self.spec_capacity()
    }

    /// An empty cache that keeps up to `capacity` identifiers.
    pub fn new(capacity: usize) -> (c: SeenCache)
        ensures
            c.wf(),
            c@ == Seq::<MessageId>::empty(),
            c.spec_capacity() == capacity,
    {
        SeenCache { ids: Vec::new(), capacity }
    }

    /// How many identifiers the cache keeps at most.
    pub fn capacity(&self) -> (n: usize)
        ensures
            n == self.spec_capacity(),
    {
        self.capacity
    }

    /// How many identifiers the cache holds.
    pub fn len(&self) -> (n: usize)
        ensures
            n == self@.len(),
    {
        self.ids.len()
    }

    /// Whether `id` is in the window.
    pub fn contains(&self, id: MessageId) -> (b: bool)
        ensures
            b == self@.contains(id),
    {
        let mut i: usize = 0;
        while i < self.ids.len()
            invariant
                i <= self.ids@.len(),
                forall|j: int| 0 <= j < i ==> self.ids@[j] != id,
            decreases self.ids@.len() - i,
        {
            if self.ids[i] == id {
                return true;
            }
            i += 1;
        }
        false
    }

    /// Offers `id` to the window. Says whether it was new.
    pub fn insert(&mut self, id: MessageId) -> (fresh: bool)
        requires
            old(self).wf(),
        ensures
            final(self).wf(),
            final(self).spec_capacity() == old(self).spec_capacity(),
            fresh == !old(self)@.contains(id),
            final(self)@ == remembered(old(self)@, old(self).spec_capacity(), id),
            final(self).spec_capacity() > 0 ==> final(self)@.contains(id),
    {
        if self.contains(id) {
            return false;
        }
        if self.capacity == 0 {
            return true;
        }
        if self.ids.len() == self.capacity {
            self.ids.remove(0);
            assert(self.ids@ =~= old(self)@.skip(1));
        }
        let ghost kept = self.ids@;
        assert(!kept.contains(id)) by {
            if kept.contains(id) {
                let j = choose|j: int| 0 <= j < kept.len() && kept[j] == id;
                assert(old(self)@[j] == id || old(self)@[j + 1] == id);
            }
        }
        self.ids.push(id);
        assert(self.ids@[kept.len() as int] == id);
        true
    }
}

} // verus!
