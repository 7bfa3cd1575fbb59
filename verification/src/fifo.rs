//! A first-in-first-out cache: when a new key arrives at a full cache, the
//! key that has been resident longest leaves, however often it was read.

use crate::error::CacheError;
use crate::model::{CacheState, Victim};
use std::collections::{HashMap, VecDeque};
use std::hash::Hash;
use vstd::prelude::*;
use vstd::std_specs::hash::obeys_key_model;

verus! {

/// A bounded cache that evicts in arrival order.
pub struct Fifo<K, V> {
    entry_map: HashMap<K, V>,
    queue: VecDeque<K>,
    capacity: usize,
}

impl<K, V> View for Fifo<K, V> {
    type V = CacheState<K, V>;

    closed spec fn view(&self) -> CacheState<K, V> {
        CacheState {
            entries: self.entry_map@,
            order: self.queue@,
            capacity: self.capacity as nat,
        }
    }
}

impl<K, V> Fifo<K, V> where K: Eq + Hash + Copy {
    /// The cache is in a state that every operation expects and leaves
    /// behind: its abstract state is consistent, and keys of type `K` hash
    /// and compare as their values do.
    pub open spec fn wf(&self) -> bool {
        &&& obeys_key_model::<K>()
        &&& self@.wf()
    }

    /// An empty cache with room for `capacity` entries, or the reason why
    /// there is none: a capacity of zero is refused.
    pub fn new(capacity: usize) -> (made: Result<Self, CacheError>)
        requires
            obeys_key_model::<K>(),
        ensures
            capacity == 0 <==> made is Err,
            made is Err ==> made->Err_0 == CacheError::ZeroCapacity,
            made is Ok ==> {
                &&& made->Ok_0.wf()
                &&& made->Ok_0@ == CacheState::<K, V>::empty(capacity as nat)
            },
    {
        if capacity == 0 {
            return Err(CacheError::ZeroCapacity);
        }
        let made = Self {
            entry_map: HashMap::with_capacity(capacity),
            queue: VecDeque::with_capacity(capacity),
            capacity,
        };
        assert(made@ =~= CacheState::<K, V>::empty(capacity as nat));
        Ok(made)
    }

    /// Stores `value` under `key` and reports success. A resident key gets
    /// the new value and keeps its place in the queue. A new key joins the
    /// tail; if the cache is full, the key at the head leaves first.
    pub fn set(&mut self, key: K, value: V) -> (stored: bool)
        requires
            old(self).wf(),
        ensures
            stored,
            final(self).wf(),
            final(self)@ == old(self)@.put(key, value, Victim::Oldest),
    {
        proof {
            self@.lemma_sizes_agree();
            self@.lemma_put_wf(key, value, Victim::Oldest);
        }
        if self.entry_map.contains_key(&key) {
            self.entry_map.insert(key, value);
            assert(self@ =~= old(self)@.overwrite(key, value));
            return true;
        }
        if self.entry_map.len() >= self.capacity {
            proof {
                self@.lemma_evict_wf(Victim::Oldest);
            }
            let front_key = match self.queue.pop_front() {
                Some(front_key) => front_key,
                None => {
                    return false;
                },
            };
            match self.entry_map.remove(&front_key) {
                Some(_) => (),
                None => {
                    return false;
                },
            }
            assert(self@ =~= old(self)@.evict(Victim::Oldest));
        }
        self.entry_map.insert(key, value);
        self.queue.push_back(key);
        assert(self@ =~= old(self)@.put(key, value, Victim::Oldest));
        true
    }

    /// The value stored under `key`, if the key is resident. The cache is
    /// left as it was: a read does not count as a use.
    pub fn get(&self, key: K) -> (found: Option<&V>)
        requires
            self.wf(),
        ensures
            match found {
                Some(value) => self@.lookup(key) == Some(*value),
                None => self@.lookup(key).is_none(),
            },
    {
        self.entry_map.get(&key)
    }

    /// The number of resident entries.
    pub fn len(&self) -> (count: usize)
        requires
            self.wf(),
        ensures
            count == self@.len(),
            count <= self@.capacity,
    {
        self.queue.len()
    }

    /// The most entries that may be resident at once.
    pub fn capacity(&self) -> (limit: usize)
        requires
            self.wf(),
        ensures
            limit == self@.capacity,
            limit > 0,
    {
        self.capacity
    }
}

} // verus!
