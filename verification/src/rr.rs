//! A random-replacement cache: when a new key arrives at a full cache, the
//! key in a slot drawn at random leaves. The draw is made by std's randomly
//! keyed hasher; everything that follows from the drawn number is decided
//! by `set_drawn`, which takes the number as an argument.

use crate::error::CacheError;
use crate::model::{CacheState, Victim};
use crate::slots::Slots;
use std::collections::HashMap;
use std::hash::{BuildHasher, Hash, RandomState};
use vstd::prelude::*;
use vstd::std_specs::hash::obeys_key_model;

verus! {

/// Calls `RandomState::new`, which makes a hasher factory whose keys std
/// seeds at random. Nothing is claimed of the value.
#[verifier::external_body]
fn fresh_hash_keys() -> RandomState {
    RandomState::new()
}

/// Calls `BuildHasher::hash_one` on a `RandomState`: the hash of `word`
/// under the factory's keys. Nothing is claimed of the number.
#[verifier::external_body]
fn keyed_hash(keys: &RandomState, word: u64) -> u64 {
    keys.hash_one(word)
}

/// A number that differs from call to call and from process to process.
fn draw() -> u64 {
    let keys = fresh_hash_keys();
    keyed_hash(&keys, 0)
}

/// A bounded cache that evicts the key in a randomly drawn slot.
pub struct RR<K, V> {
    entry_map: HashMap<K, V>,
    slots: Slots<K>,
    capacity: usize,
}

impl<K, V> View for RR<K, V> {
    type V = CacheState<K, V>;

    closed spec fn view(&self) -> CacheState<K, V> {
        CacheState { entries: self.entry_map@, order: self.slots@, capacity: self.capacity as nat }
    }
}

impl<K, V> RR<K, V> where K: Eq + Hash + Copy {
    /// The record of which slot each key sits in agrees with the slots.
    pub closed spec fn slots_recorded(&self) -> bool {
        self.slots.wf()
    }

    /// The cache is in a state that every operation expects and leaves
    /// behind: its abstract state is consistent, the slot of every key is on
    /// record, and keys of type `K` hash and compare as their values do.
    pub open spec fn wf(&self) -> bool {
        &&& obeys_key_model::<K>()
        &&& self@.wf()
        &&& self.slots_recorded()
    }

    /// An empty cache with room for `capacity` entries, or the reason why
    /// there is none: a capacity of zero is refused.
    pub fn new(capacity: usize) -> (made: Result<Self, CacheError>)
        requires
            obeys_key_model::<K>(),
        ensures
            capacity == 0 <==> made is Err,
            made is Err ==> made->Err_0 == CacheError::ZeroCapacity,
            made is Ok ==> {
                &&& made->Ok_0.wf()
                &&& made->Ok_0@ == CacheState::<K, V>::empty(capacity as nat)
            },
    {
        if capacity == 0 {
            return Err(CacheError::ZeroCapacity);
        }
        let made = Self {
            entry_map: HashMap::with_capacity(capacity),
            slots: Slots::new(capacity),
            capacity,
        };
        assert(made@ =~= CacheState::<K, V>::empty(capacity as nat));
        Ok(made)
    }

    /// Stores `value` under `key` and reports success, with `draw` as the
    /// number drawn. A resident key gets the new value and keeps its slot.
    /// A new key gets a new last slot; if the cache is full, the key in
    /// slot `draw` modulo the number of resident keys leaves first, and the
    /// key of the last slot moves into its place.
    pub fn set_drawn(&mut self, key: K, value: V, draw: u64) -> (stored: bool)
        requires
            old(self).wf(),
        ensures
            stored,
            final(self).wf(),
            final(self)@ == old(self)@.put(key, value, Victim::Slot(draw as nat)),
    {
        let ghost rule = Victim::Slot(draw as nat);
        proof {
            self@.lemma_sizes_agree();
            self@.lemma_put_wf(key, value, rule);
        }
        if self.entry_map.contains_key(&key) {
            self.entry_map.insert(key, value);
            assert(self@ =~= old(self)@.overwrite(key, value));
            return true;
        }
        if self.entry_map.len() >= self.capacity {
            proof {
                self@.lemma_evict_wf(rule);
            }
            let count = self.slots.len();
            if count == 0 {
                return false;
            }
            let slot = (draw % (count as u64)) as usize;
            let key_to_evict = self.slots.swap_remove(slot);
            match self.entry_map.remove(&key_to_evict) {
                Some(_) => (),
                None => {
                    return false;
                },
            }
            assert(self@ =~= old(self)@.evict(rule));
        }
        proof {
            if old(self)@.is_full() {
                old(self)@.evict(rule).lemma_append_wf(key, value);
            }
            assert(!self.slots@.contains(key));
        }
        self.entry_map.insert(key, value);
        self.slots.push(key);
        assert(self@ =~= old(self)@.put(key, value, rule));
        true
    }

    /// Stores `value` under `key` and reports success. A resident key gets
    /// the new value. A new key is added; if the cache is full, one
    /// resident key, drawn at random, leaves first.
    pub fn set(&mut self, key: K, value: V) -> (stored: bool)
        requires
            old(self).wf(),
        ensures
            stored,
            final(self).wf(),
            exists|drawn: u64|
                final(self)@ == #[trigger] old(self)@.put(key, value, Victim::Slot(drawn as nat)),
    {
        let drawn = draw();
        let stored = self.set_drawn(key, value, drawn);
        assert(self@ == old(self)@.put(key, value, Victim::Slot(drawn as nat)));
        stored
    }

    /// The value stored under `key`, if the key is resident. The cache is
    /// left as it was: a read does not count as a use.
    pub fn get(&self, key: K) -> (found: Option<&V>)
        requires
            self.wf(),
        ensures
            match found {
                Some(value) => self@.lookup(key) == Some(*value),
                None => self@.lookup(key).is_none(),
            },
    {
        self.entry_map.get(&key)
    }

    /// The number of resident entries.
    pub fn len(&self) -> (count: usize)
        requires
            self.wf(),
        ensures
            count == self@.len(),
            count <= self@.capacity,
    {
        self.slots.len()
    }

    /// The most entries that may be resident at once.
    pub fn capacity(&self) -> (limit: usize)
        requires
            self.wf(),
        ensures
            limit == self@.capacity,
            limit > 0,
    {
        self.capacity
    }
}

} // verus!
