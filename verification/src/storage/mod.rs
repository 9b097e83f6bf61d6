use crate::codec::bytes::{id_offset, offset_from_id};
use crate::assoc::lookup;
use crate::codec::registry::Registry;
use crate::selection::selector::Selector;
use crate::selection::subscription::Subscription;
use std::collections::BTreeMap;
use std::sync::Arc;
use vstd::prelude::*;
use vstd::std_specs::iter::IteratorSpec;

verus! {

pub type StoredMessage = ([u8; 4], Vec<u8>);

/// The first (smallest-key) entry of a map, as `BTreeMap::first_key_value`
/// documents it: `None` exactly for an empty map, else an entry of the map whose
/// key is at most every key of the map.
#[verifier::external_body]
fn first_stored(btree: &BTreeMap<u64, StoredMessage>) -> (first: Option<(&u64, &StoredMessage)>)
    ensures
        match first {
            None => btree@.dom().is_empty(),
            Some((k, v)) => btree@.contains_key(*k) && btree@[*k] == *v && forall|k2: u64|
                btree@.contains_key(k2) ==> *k <= k2,
        },
{
    btree.first_key_value()
}

/// The smallest offset of a map of stored messages.
pub open spec fn min_key(m: Map<u64, StoredMessage>) -> u64 {
    m.dom().find_unique_minimal(|a: u64, b: u64| a <= b)
}

/// A finite, non-empty map holds its smallest offset, and no offset is below it.
pub proof fn lemma_min_key(m: Map<u64, StoredMessage>)
    requires
        m.dom().finite(),
        m.dom().len() > 0,
    ensures
        m.contains_key(min_key(m)),
        forall|k: u64| m.contains_key(k) ==> min_key(m) <= k,
{
    let r = |a: u64, b: u64| a <= b;
    assert(vstd::relations::total_ordering(r));
    m.dom().find_unique_minimal_ensures(r);
    m.dom().lemma_minimal_equivalent_least(r, min_key(m));
    assert forall|k: u64| m.contains_key(k) implies min_key(m) <= k by {
        assert(r(min_key(m), k));
    }
}

/// Making room for `length` bytes within `max_length`: while the count is over
/// budget, the message under the smallest offset is taken out and its length
/// taken off the count. The count and messages where it stops, and whether it
/// got within budget; it stops short where nothing is left to take out, or
/// where a message is longer than the count.
pub open spec fn evict(length: nat, max_length: nat, m: Map<u64, StoredMessage>) -> (
    nat,
    Map<u64, StoredMessage>,
    bool,
)
    decreases m.dom().len(),
    when m.dom().finite()
{
    if length <= max_length {
        (length, m, true)
    } else if m.dom().len() == 0 {
        (length, m, false)
    } else {
        let k = min_key(m);
        let l = m[k].1@.len();
        if l > length {
            (length, m, false)
        } else {
            proof {
                lemma_min_key(m);
            }
            evict((length - l) as nat, max_length, m.remove(k))
        }
    }
}

/// Making room never leaves more bytes counted than were counted before, nor,
/// once it gets within budget, more than the budget; it only takes messages
/// out, and those it takes out lie below every message it keeps.
pub proof fn law_evict_lowest_first(length: nat, max_length: nat, m: Map<u64, StoredMessage>)
    requires
        m.dom().finite(),
    ensures
        evict(length, max_length, m).0 <= length,
        evict(length, max_length, m).2 ==> evict(length, max_length, m).0 <= max_length,
        forall|k: u64|
            #[trigger] evict(length, max_length, m).1.contains_key(k) ==> m.contains_key(k)
                && evict(length, max_length, m).1[k] == m[k],
        forall|gone: u64, k: u64|
            #[trigger] m.contains_key(gone) && !evict(length, max_length, m).1.contains_key(gone)
                && #[trigger] evict(length, max_length, m).1.contains_key(k) ==> gone < k,
    decreases m.dom().len(),
{
    if length > max_length && m.dom().len() > 0 {
        let k = min_key(m);
        let l = m[k].1@.len();
        if l <= length {
            lemma_min_key(m);
            let rest = m.remove(k);
            law_evict_lowest_first((length - l) as nat, max_length, rest);
            let e = evict((length - l) as nat, max_length, rest);
            assert(evict(length, max_length, m) == e);
            assert forall|k2: u64| e.1.contains_key(k2) implies m.contains_key(k2) && e.1[k2]
                == m[k2] by {
                assert(rest.contains_key(k2));
            }
            assert forall|gone: u64, k2: u64|
                m.contains_key(gone) && !e.1.contains_key(gone) && e.1.contains_key(k2)
                    implies gone < k2 by {
                assert(rest.contains_key(k2));
                if gone != k {
                    assert(rest.contains_key(gone));
                } else {
                    assert(k2 != k);
                    assert(k <= k2);
                }
            }
        }
    }
}

/// The messages, in memory, by offset; with the number of bytes counted and
/// the most recent offset.
pub struct Store {
    pub length: usize,
    pub max_length: usize,
    pub current: u64,
    pub btree: BTreeMap<u64, StoredMessage>,
}

impl Store {
    /// The stored messages by offset.
    pub open spec fn messages(&self) -> Map<u64, StoredMessage> {
        self.btree@
    }

    /// Whether appending a message of `size` bytes completes.
    pub open spec fn append_defined(&self, size: nat) -> bool {
        &&& self.length + size <= usize::MAX
        &&& evict((self.length + size) as nat, self.max_length as nat, self.messages()).2
    }

    /// Whether `after` is this store with a message appended: room made as
    /// `evict` says, the same budget, the offset of the id as the current one
    /// and the message stored under it.
    pub open spec fn appended(
        &self,
        after: Store,
        message_id: Seq<u8>,
        message_type: [u8; 4],
        message: Vec<u8>,
    ) -> bool {
        let (length, kept, _) = evict(
            (self.length + message@.len()) as nat,
            self.max_length as nat,
            self.messages(),
        );
        &&& after.length == length
        &&& after.max_length == self.max_length
        &&& after.current == id_offset(message_id)
        &&& after.messages() == kept.insert(id_offset(message_id) as u64, (message_type, message))
    }

    /// Whether `after` is this store where appending `size` bytes stopped
    /// short: unchanged where the count would overflow, else with the count
    /// and messages where making room stopped.
    pub open spec fn append_stopped(&self, after: Store, size: nat) -> bool {
        &&& after.max_length == self.max_length
        &&& after.current == self.current
        &&& if self.length + size > usize::MAX {
            after.length == self.length && after.messages() == self.messages()
        } else {
            let (length, kept, _) = evict(
                (self.length + size) as nat,
                self.max_length as nat,
                self.messages(),
            );
            after.length == length && after.messages() == kept
        }
    }

    /// Whether every message stored at or above `offset` has a schema.
    pub open spec fn schemas_known(&self, offset: u64, registry: &Registry) -> bool {
        forall|k: u64|
            #![trigger self.messages().contains_key(k)]
            self.messages().contains_key(k) && k >= offset ==> lookup(
                registry.view(),
                self.messages()[k].0@,
            ) is Some
    }

    /// Finds out whether every message stored at or above `offset` has a schema.
    pub fn check_schemas_known(&self, offset: u64, registry: &Registry) -> (known: bool)
        ensures
            known == self.schemas_known(offset, registry),
    {
        let mut known = true;
        let ghost entries = vstd::std_specs::btree::spec_btree_map_iter(&self.btree).remaining();
        let ghost mut seen: int = 0;
        for (key, stored) in it: self.btree.iter()
            invariant
                entries == vstd::std_specs::btree::spec_btree_map_iter(&self.btree).remaining(),
                it.seq() == entries,
                seen == it.index(),
                known == forall|i: int|
                    0 <= i < seen && *entries[i].0 >= offset ==> lookup(
                        registry.view(),
                        (*entries[i].1).0@,
                    ) is Some,
        {
            if *key >= offset && registry.get(&stored.0).is_none() {
                known = false;
            }
            proof {
                seen = seen + 1;
            }
        }
        proof {
            assert(seen == entries.len());
            if known {
                assert forall|k: u64|
                    #![trigger self.messages().contains_key(k)]
                    self.messages().contains_key(k) && k >= offset implies lookup(
                        registry.view(),
                        self.messages()[k].0@,
                    ) is Some by {
                    assert(self.btree@.contains_key(k));
                    assert(entries.contains((&k, &self.btree@[k])));
                    let i = choose|i: int| 0 <= i < entries.len() && entries[i] == (&k, &self.btree@[k]);
                    assert(*entries[i].0 >= offset);
                }
            }
            if !known {
                let i = choose|i: int| !(0 <= i < seen && *entries[i].0 >= offset ==> lookup(
                    registry.view(),
                    (*entries[i].1).0@,
                ) is Some);
                assert(self.messages().contains_key(*entries[i].0));
            }
        }
        known
    }

    /// Replays the stored messages from `offset` on for a new subscription:
    /// nothing happens when `offset` is past the current one; else the
    /// subscription is integrated into a selector of its own, which is dropped
    /// at the end. Replaying needs the schema of every stored message from
    /// `offset` on, which the precondition asks for.
    pub fn pipe(&self, offset: u64, subscription: &Arc<Subscription>, registry: &Registry)
        requires
            offset <= self.current ==> self.schemas_known(offset, registry),
    {
        if offset > self.current {
            return;
        }
        let mut selector: Selector = Vec::new();
        subscription.integrate(&mut selector);
    }

    /// An empty store that may count up to `max_length` bytes.
    pub fn new(max_length: usize) -> (store: Store)
        ensures
            store.max_length == max_length,
            store.length == 0,
            store.current == 0,
            store.messages() == Map::<u64, StoredMessage>::empty(),
    {
        Store { max_length, length: 0, current: 0, btree: BTreeMap::new() }
    }

    /// Sets the byte budget to what the machine has left for the store, less
    /// the bytes counted.
    pub fn update_max_length(&mut self, available: usize)
        requires
            old(self).length <= available,
        ensures
            final(self).max_length == available - old(self).length,
            final(self).length == old(self).length,
            final(self).current == old(self).current,
            final(self).messages() == old(self).messages(),
    {
        self.max_length = available - self.length;
    }

    /// Appends a message as `append` does, and reports where the appending
    /// stops short: the count would overflow, nothing is left to take out, or
    /// a message is longer than the count.
    pub fn try_append(&mut self, message_id: [u8; 6], message_type: [u8; 4], message: Vec<u8>) -> (r:
        Result<(), ()>)
        ensures
            r is Ok <==> old(self).append_defined(message@.len()),
            r is Ok ==> old(self).appended(*final(self), message_id@, message_type, message),
            r is Err ==> old(self).append_stopped(*final(self), message@.len()),
    {
        broadcast use vstd::std_specs::btree::group_btree_axioms;

        let size = message.len();
        if self.length > usize::MAX - size {
            return Err(());
        }
        let message_offset = offset_from_id(&message_id);
        let ghost target = evict(
            (self.length + size) as nat,
            self.max_length as nat,
            self.btree@,
        );
        self.length = self.length + size;
        while self.length > self.max_length
            invariant
                self.btree@.dom().finite(),
                size == message@.len(),
                old(self).length + size <= usize::MAX,
                target == evict(
                    (old(self).length + size) as nat,
                    old(self).max_length as nat,
                    old(self).btree@,
                ),
                evict(self.length as nat, self.max_length as nat, self.btree@) == target,
                self.max_length == old(self).max_length,
                self.current == old(self).current,
            decreases self.btree@.dom().len(),
        {
            let entry = first_stored(&self.btree);
            let (key, stored_length) = match entry {
                Some((k, (_, stored))) => (*k, stored.len()),
                None => {
                    assert(self.btree@.dom().len() == 0);
                    assert(evict(self.length as nat, self.max_length as nat, self.btree@) == (
                        self.length as nat,
                        self.btree@,
                        false,
                    ));
                    return Err(());
                },
            };
            proof {
                lemma_min_key(self.btree@);
                assert(key == min_key(self.btree@));
                assert(self.btree@[key].1@.len() == stored_length);
            }
            if stored_length > self.length {
                assert(evict(self.length as nat, self.max_length as nat, self.btree@) == (
                    self.length as nat,
                    self.btree@,
                    false,
                ));
                return Err(());
            }
            self.length = self.length - stored_length;
            self.btree.remove(&key);
        }
        self.btree.insert(message_offset, (message_type, message));
        self.current = message_offset;
        Ok(())
    }

    /// Stores a message under the offset that its id stands for, after
    /// making room by taking out the messages under the smallest offsets, and
    /// makes that offset the current one.
    pub fn append(&mut self, message_id: [u8; 6], message_type: [u8; 4], message: Vec<u8>) -> (r:
        Result<(), ()>)
        requires
            old(self).append_defined(message@.len()),
        ensures
            r is Ok,
            old(self).appended(*final(self), message_id@, message_type, message),
    {
        self.try_append(message_id, message_type, message)
    }
}

/// An appended message reads back under the offset of its id, which becomes
/// the current offset; the count stays within budget; every other offset
/// reads back what it held before or was taken out, and those taken out lie
/// below every offset kept.
pub proof fn law_append_reads_back(
    before: Store,
    after: Store,
    message_id: Seq<u8>,
    message_type: [u8; 4],
    message: Vec<u8>,
    other: u64,
)
    requires
        before.append_defined(message@.len()),
        before.appended(after, message_id, message_type, message),
        id_offset(message_id) <= u64::MAX,
    ensures
        after.messages().contains_key(after.current),
        after.messages()[after.current] == (message_type, message),
        after.length <= after.max_length,
        other != after.current && after.messages().contains_key(other) ==> before.messages().contains_key(
            other,
        ) && after.messages()[other] == before.messages()[other],
        other != after.current && before.messages().contains_key(other) && !after.messages().contains_key(
            other,
        ) ==> forall|k: u64|
            after.messages().contains_key(k) && k != after.current ==> other < k,
{
    broadcast use vstd::std_specs::btree::group_btree_axioms;

    assert(before.btree@.dom().finite());
    let (length, kept, done) = evict(
        (before.length + message@.len()) as nat,
        before.max_length as nat,
        before.messages(),
    );
    assert(after.current == id_offset(message_id) as u64);
    assert(after.messages() == kept.insert(id_offset(message_id) as u64, (message_type, message)));
    assert(other != after.current ==> (after.messages().contains_key(other)
        == kept.contains_key(other)));
    law_evict_lowest_first(
        (before.length + message@.len()) as nat,
        before.max_length as nat,
        before.messages(),
    );
}

} // verus!
