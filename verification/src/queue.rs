//! A cache that keeps its keys in arrival order and evicts from one end of
//! that order: the head for first-in-first-out, the tail for
//! last-in-first-out. Reading a key never moves it.

use crate::error::CacheError;
use crate::model::{CacheState, Victim};
use std::collections::{HashMap, VecDeque};
use std::hash::Hash;
use vstd::prelude::*;
use vstd::std_specs::hash::obeys_key_model;

verus! {

/// The end of the arrival order that eviction takes from.
#[derive(Debug, Clone, Copy, PartialEq, Eq, Structural)]
pub enum Kind {
    /// Evict the key that arrived first.
    FIFO,
    /// Evict the key that arrived last.
    LIFO,
}

impl Kind {
    /// The eviction rule that this kind stands for.
    pub open spec fn victim(self) -> Victim {
        match self {
            Kind::FIFO => Victim::Oldest,
            Kind::LIFO => Victim::Newest,
        }
    }
}

/// A bounded cache whose eviction end is chosen at construction.
pub struct Queue<K, V> {
    entry_map: HashMap<K, V>,
    keys: VecDeque<K>,
    kind: Kind,
    capacity: usize,
}

impl<K, V> View for Queue<K, V> {
    type V = CacheState<K, V>;

    closed spec fn view(&self) -> CacheState<K, V> {
        CacheState {
            entries: self.entry_map@,
            order: self.keys@,
            capacity: self.capacity as nat,
        }
    }
}

impl<K, V> Queue<K, V> where K: Eq + Hash + Copy {
    /// The eviction end this cache was built with.
    pub closed spec fn kind(&self) -> Kind {
        self.kind
    }

    /// The cache is in a state that every operation expects and leaves
    /// behind: its abstract state is consistent, and keys of type `K` hash
    /// and compare as their values do.
    pub open spec fn wf(&self) -> bool {
        &&& obeys_key_model::<K>()
        &&& self@.wf()
    }

    /// An empty cache with room for `capacity` entries, or the reason why
    /// there is none: a capacity of zero is refused.
    pub fn new(capacity: usize, kind: Kind) -> (made: Result<Self, CacheError>)
        requires
            obeys_key_model::<K>(),
        ensures
            capacity == 0 <==> made is Err,
            made is Err ==> made->Err_0 == CacheError::ZeroCapacity,
            made is Ok ==> {
                &&& made->Ok_0.wf()
                &&& made->Ok_0@ == CacheState::<K, V>::empty(capacity as nat)
                &&& made->Ok_0.kind() == kind
            },
    {
        if capacity == 0 {
            return Err(CacheError::ZeroCapacity);
        }
        let made = Self {
            entry_map: HashMap::with_capacity(capacity),
            keys: VecDeque::with_capacity(capacity),
            kind,
            capacity,
        };
        assert(made@ =~= CacheState::<K, V>::empty(capacity as nat));
        Ok(made)
    }

    /// Stores `value` under `key` and reports success. A resident key gets
    /// the new value and keeps its place. A new key arrives at the tail;
    /// if the cache is full, the key at the eviction end leaves first.
    pub fn set(&mut self, key: K, value: V) -> (stored: bool)
        requires
            old(self).wf(),
        ensures
            stored,
            final(self).wf(),
            final(self).kind() == old(self).kind(),
            final(self)@ == old(self)@.put(key, value, old(self).kind().victim()),
    {
        proof {
            self@.lemma_sizes_agree();
            self@.lemma_put_wf(key, value, self.kind.victim());
        }
        if self.entry_map.contains_key(&key) {
            self.entry_map.insert(key, value);
            assert(self@ =~= old(self)@.overwrite(key, value));
            return true;
        }
        if self.entry_map.len() >= self.capacity {
            proof {
                self@.lemma_evict_wf(self.kind.victim());
            }
            let key_to_evict = match self.kind {
                Kind::FIFO => match self.keys.pop_front() {
                    Some(front_key) => front_key,
                    None => {
                        return false;
                    },
                },
                Kind::LIFO => match self.keys.pop_back() {
                    Some(back_key) => back_key,
                    None => {
                        return false;
                    },
                },
            };
            match self.entry_map.remove(&key_to_evict) {
                Some(_) => (),
                None => {
                    return false;
                },
            }
            assert(self@ =~= old(self)@.evict(old(self).kind().victim()));
        }
        self.entry_map.insert(key, value);
        self.keys.push_back(key);
        assert(self@ =~= old(self)@.put(key, value, old(self).kind().victim()));
        true
    }

    /// The value stored under `key`, if the key is resident. The cache is
    /// left as it was: a read does not count as a use.
    pub fn get(&self, key: K) -> (found: Option<&V>)
        requires
            self.wf(),
        ensures
            match found {
                Some(value) => self@.lookup(key) == Some(*value),
                None => self@.lookup(key).is_none(),
            },
    {
        self.entry_map.get(&key)
    }

    /// The number of resident entries.
    pub fn len(&self) -> (count: usize)
        requires
            self.wf(),
        ensures
            count == self@.len(),
            count <= self@.capacity,
    {
        self.keys.len()
    }

    /// The most entries that may be resident at once.
    pub fn capacity(&self) -> (limit: usize)
        requires
            self.wf(),
        ensures
            limit == self@.capacity,
            limit > 0,
    {
        self.capacity
    }
}

} // verus!
