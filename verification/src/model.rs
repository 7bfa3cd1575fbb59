//! The mathematical model that every cache of this crate is a view of: a
//! finite map from keys to values, the resident keys in the order the cache
//! tracks them, and the bound on how many may be resident.

use vstd::prelude::*;

verus! {

/// Which resident key makes room when a new key arrives at a full cache.
pub enum Victim {
    /// The key that has been resident longest: the head of the order.
    Oldest,
    /// The key that became resident last: the tail of the order.
    Newest,
    /// The key in the slot that a drawn number selects, the number taken
    /// modulo the count of resident keys.
    Slot(nat),
}

/// One request to store a value, with the eviction rule in force for it.
pub struct Store<K, V> {
    /// The key to store under.
    pub key: K,
    /// The value to store.
    pub value: V,
    /// The rule that picks the key to discard, should one have to go.
    pub victim: Victim,
}

/// The abstract state of a cache.
#[verifier::reject_recursive_types(K)]
pub struct CacheState<K, V> {
    /// The value stored for each resident key.
    pub entries: Map<K, V>,
    /// The resident keys as the cache tracks them.
    pub order: Seq<K>,
    /// The most keys that may be resident at once.
    pub capacity: nat,
}

impl<K, V> CacheState<K, V> {
    /// A cache with room for `capacity` keys and none resident.
    pub open spec fn empty(capacity: nat) -> Self {
        CacheState { entries: Map::empty(), order: Seq::empty(), capacity }
    }

    /// The state is consistent: the capacity is positive and not exceeded,
    /// no key is tracked twice, and the tracked keys are exactly the keys
    /// that have a value.
    pub open spec fn wf(self) -> bool {
        &&& self.capacity > 0
        &&& self.order.len() <= self.capacity
        &&& self.order.no_duplicates()
        &&& forall|k: K| self.entries.contains_key(k) <==> self.order.contains(k)
    }

    /// The number of resident keys.
    pub open spec fn len(self) -> nat {
        self.order.len()
    }

    /// No further key fits without an eviction.
    pub open spec fn is_full(self) -> bool {
        self.order.len() >= self.capacity
    }

    /// Whether `key` is resident.
    pub open spec fn holds(self, key: K) -> bool {
        self.entries.contains_key(key)
    }

    /// The value stored for `key`, if it is resident.
    pub open spec fn lookup(self, key: K) -> Option<V> {
        if self.entries.contains_key(key) {
            Some(self.entries[key])
        } else {
            None
        }
    }

    /// The position in the order of the key that `victim` selects.
    pub open spec fn victim_slot(self, victim: Victim) -> int {
        match victim {
            Victim::Oldest => 0,
            Victim::Newest => self.order.len() - 1,
            Victim::Slot(draw) => if self.order.len() > 0 {
                draw as int % self.order.len() as int
            } else {
                0
            },
        }
    }

    /// The key that `victim` selects.
    pub open spec fn victim_key(self, victim: Victim) -> K {
        self.order[self.victim_slot(victim)]
    }

    /// The order once the key that `victim` selects has left. The two ends
    /// leave the rest in place; a drawn slot is filled with the last key.
    pub open spec fn order_without(self, victim: Victim) -> Seq<K> {
        match victim {
            Victim::Oldest => self.order.drop_first(),
            Victim::Newest => self.order.drop_last(),
            Victim::Slot(_) => self.order.update(
                self.victim_slot(victim),
                self.order.last(),
            ).drop_last(),
        }
    }

    /// Where the key at position `i` of `order_without(victim)` stands in
    /// the order as it is.
    pub open spec fn slot_before(self, victim: Victim, i: int) -> int {
        match victim {
            Victim::Oldest => i + 1,
            Victim::Newest => i,
            Victim::Slot(_) => if i == self.victim_slot(victim) {
                self.order.len() - 1
            } else {
                i
            },
        }
    }

    /// The state once the key that `victim` selects has been discarded.
    pub open spec fn evict(self, victim: Victim) -> Self {
        CacheState {
            entries: self.entries.remove(self.victim_key(victim)),
            order: self.order_without(victim),
            capacity: self.capacity,
        }
    }

    /// The state once `key`, not resident before, has become the newest
    /// resident key.
    pub open spec fn append(self, key: K, value: V) -> Self {
        CacheState {
            entries: self.entries.insert(key, value),
            order: self.order.push(key),
            capacity: self.capacity,
        }
    }

    /// The state once the value of the resident `key` has been replaced.
    pub open spec fn overwrite(self, key: K, value: V) -> Self {
        CacheState {
            entries: self.entries.insert(key, value),
            order: self.order,
            capacity: self.capacity,
        }
    }

    /// The state after serving `stores` one after the other, the first
    /// first.
    pub open spec fn replay(self, stores: Seq<Store<K, V>>) -> Self
        decreases stores.len(),
    {
        if stores.len() == 0 {
            self
        } else {
            let last = stores.last();
            self.replay(stores.drop_last()).put(last.key, last.value, last.victim)
        }
    }

    /// The state after storing `value` under `key`. A resident key keeps its
    /// place and gets the new value. A new key is appended, after the key
    /// that `victim` selects has been discarded if the cache was full.
    pub open spec fn put(self, key: K, value: V, victim: Victim) -> Self {
        if self.holds(key) {
            self.overwrite(key, value)
        } else if self.is_full() {
            self.evict(victim).append(key, value)
        } else {
            self.append(key, value)
        }
    }
}


impl<K, V> CacheState<K, V> {
    /// In a consistent state the map is finite and holds as many entries as
    /// the order tracks keys.
    pub proof fn lemma_sizes_agree(self)
        requires
            self.wf(),
        ensures
            self.entries.dom().finite(),
            self.entries.len() == self.order.len(),
    {
        self.order.unique_seq_to_set();
        vstd::seq_lib::seq_to_set_is_finite(self.order);
        assert(self.entries.dom() =~= self.order.to_set());
    }

    /// The slot that a rule selects lies inside a non-empty order.
    pub proof fn lemma_victim_slot_in_range(self, victim: Victim)
        requires
            self.order.len() > 0,
        ensures
            0 <= self.victim_slot(victim) < self.order.len(),
    {
    }

    /// Replacing the value of a resident key keeps the state consistent.
    pub proof fn lemma_overwrite_wf(self, key: K, value: V)
        requires
            self.wf(),
            self.holds(key),
        ensures
            self.overwrite(key, value).wf(),
    {
    }

    /// Appending a key that is not resident, where there is room, keeps the
    /// state consistent.
    pub proof fn lemma_append_wf(self, key: K, value: V)
        requires
            self.wf(),
            !self.holds(key),
            self.order.len() < self.capacity,
        ensures
            self.append(key, value).wf(),
    {
        let after = self.append(key, value);
        assert(!self.order.contains(key));
        assert forall|k: K| after.entries.contains_key(k) <==> after.order.contains(k) by {
            if after.entries.contains_key(k) {
                if k == key {
                    assert(after.order[self.order.len() as int] == k);
                } else {
                    assert(self.order.contains(k));
                    let i = self.order.index_of(k);
                    assert(after.order[i] == k);
                }
            }
            if after.order.contains(k) {
                let i = after.order.index_of(k);
                if i < self.order.len() {
                    assert(self.order[i] == k);
                    assert(self.order.contains(k));
                }
            }
        }
        assert forall|i: int, j: int|
            0 <= i < after.order.len() && 0 <= j < after.order.len() && i != j implies after.order[i]
            != after.order[j] by {
            if i == self.order.len() {
                assert(self.order[j] == after.order[j]);
            } else if j == self.order.len() {
                assert(self.order[i] == after.order[i]);
            }
        }
    }

    /// Discarding the selected key of a consistent, non-empty state leaves a
    /// consistent state with one key fewer: the selected key is gone and
    /// every other key is resident as before, with its value.
    pub proof fn lemma_evict_wf(self, victim: Victim)
        requires
            self.wf(),
            self.order.len() > 0,
        ensures
            self.evict(victim).wf(),
            self.evict(victim).len() == self.len() - 1,
            self.holds(self.victim_key(victim)),
            !self.evict(victim).holds(self.victim_key(victim)),
            forall|k: K|
                k != self.victim_key(victim) ==> self.evict(victim).lookup(k) == self.lookup(k),
    {
        let after = self.evict(victim);
        let slot = self.victim_slot(victim);
        let gone = self.victim_key(victim);
        let n = self.order.len() as int;
        assert(self.order.contains(gone)) by {
            assert(self.order[slot] == gone);
        }
        let from = |i: int| self.slot_before(victim, i);
        assert forall|i: int| 0 <= i < after.order.len() implies 0 <= from(i) < n && from(i) != slot
            && #[trigger] after.order[i] == self.order[from(i)] by {}
        assert forall|i: int, j: int|
            0 <= i < after.order.len() && 0 <= j < after.order.len() && i != j implies after.order[i]
            != after.order[j] by {
            assert(after.order[i] == self.order[from(i)]);
            assert(after.order[j] == self.order[from(j)]);
            assert(from(i) != from(j));
        }
        assert forall|k: K| after.entries.contains_key(k) <==> after.order.contains(k) by {
            if after.entries.contains_key(k) {
                assert(self.order.contains(k));
                let p = self.order.index_of(k);
                assert(p != slot);
                let i = match victim {
                    Victim::Oldest => p - 1,
                    Victim::Newest => p,
                    Victim::Slot(_) => if p == n - 1 {
                        slot
                    } else {
                        p
                    },
                };
                assert(0 <= i < after.order.len());
                assert(after.order[i] == self.order[from(i)]);
                assert(from(i) == p);
            }
            if after.order.contains(k) {
                let i = after.order.index_of(k);
                assert(after.order[i] == self.order[from(i)]);
                assert(self.order.contains(k));
                assert(k != gone);
            }
        }
    }

    /// Storing a value keeps the state consistent, whatever the rule.
    pub proof fn lemma_put_wf(self, key: K, value: V, victim: Victim)
        requires
            self.wf(),
        ensures
            self.put(key, value, victim).wf(),
    {
        if self.holds(key) {
            self.lemma_overwrite_wf(key, value);
        } else if self.is_full() {
            self.lemma_evict_wf(victim);
            self.evict(victim).lemma_append_wf(key, value);
        } else {
            self.lemma_append_wf(key, value);
        }
    }
}

} // verus!
