//! An unordered collection of distinct keys that can give up the key in any
//! slot in constant time: the last key moves into the freed slot, and a map
//! from key to slot is kept in step with the array.

use std::collections::HashMap;
use std::hash::Hash;
use vstd::prelude::*;
use vstd::std_specs::hash::obeys_key_model;

verus! {

/// Distinct keys in numbered slots, with the slot of each key on record.
pub struct Slots<K> {
    keys: Vec<K>,
    slot_of: HashMap<K, usize>,
}

impl<K> View for Slots<K> {
    type V = Seq<K>;

    closed spec fn view(&self) -> Seq<K> {
        self.keys@
    }
}

impl<K> Slots<K> where K: Eq + Hash + Copy {
    /// The slot on record for each key.
    pub closed spec fn recorded(&self) -> Map<K, usize> {
        self.slot_of@
    }

    /// No key sits in two slots, and the record names for every key the
    /// slot it sits in, and names no other key.
    pub open spec fn wf(&self) -> bool {
        &&& obeys_key_model::<K>()
        &&& self@.no_duplicates()
        &&& forall|k: K| self.recorded().contains_key(k) <==> self@.contains(k)
        &&& forall|i: int| 0 <= i < self@.len() ==> #[trigger] self.recorded()[self@[i]] == i
    }

    /// No slots, with room reserved for `capacity` of them.
    pub fn new(capacity: usize) -> (made: Self)
        requires
            obeys_key_model::<K>(),
        ensures
            made.wf(),
            made@ == Seq::<K>::empty(),
    {
        let made = Slots { keys: Vec::with_capacity(capacity), slot_of: HashMap::with_capacity(capacity) };
        assert(made@ =~= Seq::<K>::empty());
        made
    }

    /// The number of slots.
    pub fn len(&self) -> (count: usize)
        ensures
            count == self@.len(),
    {
        self.keys.len()
    }

    /// The slot that `key` sits in, if it sits in one.
    pub fn position(&self, key: K) -> (found: Option<usize>)
        requires
            self.wf(),
        ensures
            match found {
                Some(slot) => slot < self@.len() && self@[slot as int] == key,
                None => !self@.contains(key),
            },
    {
        match self.slot_of.get(&key) {
            Some(slot) => {
                proof {
                    assert(self.recorded().contains_key(key));
                    assert(self@.contains(key));
                    let i = self@.index_of(key);
                    assert(self.recorded()[self@[i]] == i);
                }
                Some(*slot)
            },
            None => {
                assert(!self.recorded().contains_key(key));
                None
            },
        }
    }

    /// Puts `key`, which sits in no slot yet, into a new last slot.
    pub fn push(&mut self, key: K)
        requires
            old(self).wf(),
            !old(self)@.contains(key),
        ensures
            final(self).wf(),
            final(self)@ == old(self)@.push(key),
    {
        let slot = self.keys.len();
        self.keys.push(key);
        self.slot_of.insert(key, slot);
        proof {
            let before = old(self)@;
            let after = self@;
            assert forall|k: K| self.recorded().contains_key(k) <==> after.contains(k) by {
                if k == key {
                    assert(after[slot as int] == k);
                } else {
                    if before.contains(k) {
                        assert(after[before.index_of(k)] == k);
                    }
                    if after.contains(k) {
                        assert(before[after.index_of(k)] == k);
                    }
                }
            }
            assert forall|i: int, j: int|
                0 <= i < after.len() && 0 <= j < after.len() && i != j implies after[i]
                != after[j] by {
                if i < slot {
                    assert(before[i] == after[i]);
                }
                if j < slot {
                    assert(before[j] == after[j]);
                }
            }
            assert forall|i: int| 0 <= i < after.len() implies #[trigger] self.recorded()[after[i]]
                == i by {
                if i < slot {
                    assert(before[i] == after[i]);
                    assert(old(self).recorded()[before[i]] == i);
                }
            }
        }
    }

    /// Frees slot `slot` and hands back the key that sat in it. The key of
    /// the last slot moves into the freed one, and the last slot is gone.
    pub fn swap_remove(&mut self, slot: usize) -> (removed: K)
        requires
            old(self).wf(),
            slot < old(self)@.len(),
        ensures
            final(self).wf(),
            removed == old(self)@[slot as int],
            final(self)@ == old(self)@.update(slot as int, old(self)@.last()).drop_last(),
    {
        let last = self.keys.len() - 1;
        let moved = self.keys[last];
        let removed = self.keys.swap_remove(slot);
        self.slot_of.remove(&removed);
        if slot != last {
            self.slot_of.insert(moved, slot);
        }
        proof {
            let before = old(self)@;
            let after = self@;
            let from = |i: int| if i == slot { last as int } else { i };
            assert forall|i: int| 0 <= i < after.len() implies 0 <= from(i) < before.len() && from(i)
                != slot && #[trigger] after[i] == before[from(i)] by {}
            assert forall|i: int, j: int|
                0 <= i < after.len() && 0 <= j < after.len() && i != j implies after[i]
                != after[j] by {
                assert(after[i] == before[from(i)]);
                assert(after[j] == before[from(j)]);
            }
            assert(old(self).recorded()[before[slot as int]] == slot);
            assert(old(self).recorded()[before[last as int]] == last);
            assert forall|k: K| self.recorded().contains_key(k) <==> after.contains(k) by {
                if self.recorded().contains_key(k) {
                    assert(before.contains(k));
                    let p = before.index_of(k);
                    let i = if p == last { slot as int } else { p };
                    assert(after[i] == before[from(i)]);
                }
                if after.contains(k) {
                    let i = after.index_of(k);
                    assert(after[i] == before[from(i)]);
                    assert(before.contains(k));
                }
            }
            assert forall|i: int| 0 <= i < after.len() implies #[trigger] self.recorded()[after[i]]
                == i by {
                assert(after[i] == before[from(i)]);
                assert(old(self).recorded()[before[from(i)]] == from(i));
            }
        }
        removed
    }
}

} // verus!
