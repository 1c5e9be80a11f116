//! The topic registry: topic names, their handles, and the set of topics
//! that this node subscribes to.

use vstd::prelude::*;
use vstd::string::*;

verus! {

/// The handle of a topic. It holds the topic's name, so two handles are equal
/// exactly when they were made from equal names.
#[derive(Debug, PartialEq, Eq)]
pub struct TopicHandle {
    name: String,
}

impl View for TopicHandle {
    type V = Seq<char>;

    closed spec fn view(&self) -> Seq<char> {
        self.name@
    }
}

impl Clone for TopicHandle {
    fn clone(&self) -> (r: TopicHandle)
        ensures
            r@ == self@,
    {
        TopicHandle { name: self.name.clone() }
    }
}

impl TopicHandle {
    /// The handle of the topic called `name`.
    pub fn from_raw(name: String) -> (h: TopicHandle)
        ensures
            h@ == name@,
    {
        TopicHandle { name }
    }

    /// The name that the handle was made from.
    pub fn as_str(&self) -> (s: &str)
        ensures
            s@ == self@,
    {
        self.name.as_str()
    }

    /// The name that the handle was made from, as an owned text.
    pub fn name(&self) -> (s: &String)
        ensures
            s@ == self@,
    {
        &self.name
    }

    /// Whether two handles stand for the same topic.
    pub fn same(&self, other: &TopicHandle) -> (b: bool)
        ensures
            b == (self@ == other@),
    {
        self.name == other.name
    }
}

/// The local subscriptions, in the order in which they were made.
#[derive(Debug)]
pub struct TopicManager {
    topics: Vec<String>,
}

impl View for TopicManager {
    type V = Seq<Seq<char>>;

    closed spec fn view(&self) -> Seq<Seq<char>> {
        Seq::new(self.topics@.len(), |i: int| self.topics@[i]@)
    }
}

/// The name of the topic for the accounts of one program.
pub open spec fn account_topic(program_id: Seq<char>) -> Seq<char> {
    "accounts/"@ + program_id
}

/// The name of the topic for slot updates.
pub open spec fn slot_topic() -> Seq<char> {
    "slots/updates"@
}

/// The name of the topic for the transactions of one block range.
pub open spec fn transaction_topic(block_range: Seq<char>) -> Seq<char> {
    "transactions/"@ + block_range
}

impl TopicManager {
    /// No topic is registered twice.
    pub open spec fn wf(&self) -> bool {
        self@.no_duplicates()
    }

    /// Whether this node subscribes to the topic called `name`.
    pub open spec fn subscribed(&self, name: Seq<char>) -> bool {
        self@.contains(name)
    }

    /// A registry without subscriptions.
    pub fn new() -> (m: TopicManager)
        ensures
            m.wf(),
            m@ == Seq::<Seq<char>>::empty(),
    {
        let m = TopicManager { topics: Vec::new() };
        assert(m@ =~= Seq::<Seq<char>>::empty());
        m
    }

    pub fn get_account_topic(program_id: &str) -> (name: String)
        ensures
            name@ == account_topic(program_id@),
    {
        String::from_str("accounts/").concat(program_id)
    }

    pub fn get_slot_topic() -> (name: String)
        ensures
            name@ == slot_topic(),
    {
        String::from_str("slots/updates")
    }

    pub fn get_transaction_topic(block_range: &str) -> (name: String)
        ensures
            name@ == transaction_topic(block_range@),
    {
        String::from_str("transactions/").concat(block_range)
    }

    /// How many topics this node subscribes to.
    pub fn len(&self) -> (n: usize)
        ensures
            n == self@.len(),
    {
        self.topics.len()
    }

    /// The name of the subscription at position `i`.
    pub fn name_at(&self, i: usize) -> (name: &String)
        requires
            i < self@.len(),
        ensures
            name@ == self@[i as int],
    {
        &self.topics[i]
    }

    fn position(&self, name: &String) -> (r: Option<usize>)
        ensures
            match r {
                Some(i) => i < self@.len() && self@[i as int] == name@,
                None => !self@.contains(name@),
            },
    {
        let mut i: usize = 0;
        while i < self.topics.len()
            invariant
                i <= self.topics@.len(),
                forall|j: int| 0 <= j < i ==> self@[j] != name@,
            decreases self.topics@.len() - i,
        {
            if self.topics[i] == *name {
                return Some(i);
            }
            i += 1;
        }
        None
    }

    /// Registers interest in a topic and returns its handle. Subscribing again
    /// changes nothing and returns the same handle.
    pub fn subscribe(&mut self, topic_str: String) -> (topic: TopicHandle)
        requires
            old(self).wf(),
        ensures
            final(self).wf(),
            topic@ == topic_str@,
            final(self)@ == if old(self).subscribed(topic_str@) {
                old(self)@
            } else {
                old(self)@.push(topic_str@)
            },
            forall|other: Seq<char>|
                final(self).subscribed(other) <==> (old(self).subscribed(other) || other
                    == topic_str@),
    {
        match self.position(&topic_str) {
            Some(i) => {},
            None => {
                self.topics.push(topic_str.clone());
                proof {
                    let before = old(self)@;
                    let after = self@;
                    assert(after =~= before.push(topic_str@));
                    assert forall|other: Seq<char>|
                        after.contains(other) <==> (before.contains(other) || other
                            == topic_str@) by {
                        if after.contains(other) {
                            let j = choose|j: int| 0 <= j < after.len() && after[j] == other;
                            if j < before.len() {
                                assert(before[j] == other);
                            }
                        }
                        if before.contains(other) {
                            let j = choose|j: int| 0 <= j < before.len() && before[j] == other;
                            assert(after[j] == other);
                        }
                        if other == topic_str@ {
                            assert(after[before.len() as int] == other);
                        }
                    }
                }
            },
        }
        TopicHandle::from_raw(topic_str)
    }

    /// Removes interest in a topic. Says whether this node subscribed to it.
    pub fn unsubscribe(&mut self, topic_str: &str) -> (was_subscribed: bool)
        requires
            old(self).wf(),
        ensures
            final(self).wf(),
            was_subscribed == old(self).subscribed(topic_str@),
            !final(self).subscribed(topic_str@),
            forall|other: Seq<char>|
                other != topic_str@ ==> (final(self).subscribed(other) <==> old(self).subscribed(
                    other,
                )),
            !was_subscribed ==> final(self)@ == old(self)@,
            was_subscribed ==> final(self)@ == old(self)@.remove(old(self)@.index_of(topic_str@)),
    {
        let name = String::from_str(topic_str);
        match self.position(&name) {
            Some(i) => {
                self.topics.remove(i);
                proof {
                    let before = old(self)@;
                    let after = self@;
                    assert(before.index_of(name@) == i as int) by {
                        let k = before.index_of(name@);
                        assert(before.contains(name@));
                        assert(0 <= k < before.len() && before[k] == name@);
                    }
                    assert(after =~= before.remove(i as int));
                    assert forall|other: Seq<char>| other != name@ implies (after.contains(other)
                        <==> before.contains(other)) by {
                        if before.contains(other) {
                            let j = choose|j: int| 0 <= j < before.len() && before[j] == other;
                            if j < i {
                                assert(after[j] == other);
                            } else {
                                assert(after[j - 1] == other);
                            }
                        }
                        if after.contains(other) {
                            let j = choose|j: int| 0 <= j < after.len() && after[j] == other;
                            if j < i {
                                assert(before[j] == other);
                            } else {
                                assert(before[j + 1] == other);
                            }
                        }
                    }
                    assert(!after.contains(name@)) by {
                        if after.contains(name@) {
                            let j = choose|j: int| 0 <= j < after.len() && after[j] == name@;
                            if j < i {
                                assert(before[j] == before[i as int]);
                            } else {
                                assert(before[j + 1] == before[i as int]);
                            }
                        }
                    }
                }
                true
            },
            None => false,
        }
    }

    /// The handle of a topic that this node subscribes to.
    pub fn resolve(&self, name: &str) -> (r: Option<TopicHandle>)
        ensures
            r is Some <==> self.subscribed(name@),
            r is Some ==> r->Some_0@ == name@,
    {
        let owned = String::from_str(name);
        match self.position(&owned) {
            Some(_) => Some(TopicHandle::from_raw(owned)),
            None => None,
        }
    }
}

} // verus!
