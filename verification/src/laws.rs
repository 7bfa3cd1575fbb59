//! What holds of every cache of this crate, stated over the abstract state
//! that the contracts of `set` and `get` speak of.

use crate::model::{CacheState, Store, Victim};
use vstd::prelude::*;

verus! {

/// The keys of `stores` are pairwise different.
pub open spec fn distinct_keys<K, V>(stores: Seq<Store<K, V>>) -> bool {
    forall|i: int, j: int|
        0 <= i < stores.len() && 0 <= j < stores.len() && i != j ==> stores[i].key != stores[j].key
}

/// Leaving out the last of some requests with pairwise different keys
/// leaves requests with pairwise different keys.
pub proof fn lemma_prefix_keys_distinct<K, V>(stores: Seq<Store<K, V>>)
    requires
        stores.len() > 0,
        distinct_keys(stores),
    ensures
        distinct_keys(stores.drop_last()),
{
    let earlier = stores.drop_last();
    assert forall|i: int, j: int|
        0 <= i < earlier.len() && 0 <= j < earlier.len() && i != j implies earlier[i].key
        != earlier[j].key by {
        assert(earlier[i] == stores[i] && earlier[j] == stores[j]);
    }
}

/// However many values are stored, under whatever rules, the cache stays
/// consistent and never holds more entries than its capacity.
pub proof fn lemma_size_never_exceeds_capacity<K, V>(
    state: CacheState<K, V>,
    stores: Seq<Store<K, V>>,
)
    requires
        state.wf(),
    ensures
        state.replay(stores).wf(),
        state.replay(stores).len() <= state.capacity,
        state.replay(stores).capacity == state.capacity,
    decreases stores.len(),
{
    if stores.len() > 0 {
        let last = stores.last();
        lemma_size_never_exceeds_capacity(state, stores.drop_last());
        state.replay(stores.drop_last()).lemma_put_wf(last.key, last.value, last.victim);
    }
}

/// Right after a value is stored under a key, the key is resident with that
/// value, whatever the rule discarded.
pub proof fn lemma_stored_value_is_read_back<K, V>(
    state: CacheState<K, V>,
    key: K,
    value: V,
    victim: Victim,
)
    ensures
        state.put(key, value, victim).lookup(key) == Some(value),
{
}

/// A resident key keeps its value while other keys are stored, until it is
/// itself the key that is discarded.
pub proof fn lemma_value_kept_until_evicted<K, V>(
    state: CacheState<K, V>,
    resident: K,
    key: K,
    value: V,
    victim: Victim,
)
    requires
        state.wf(),
        state.holds(resident),
        key != resident,
        state.holds(key) || !state.is_full() || state.victim_key(victim) != resident,
    ensures
        state.put(key, value, victim).lookup(resident) == state.lookup(resident),
{
    if !state.holds(key) && state.is_full() {
        state.lemma_evict_wf(victim);
    }
}

/// Storing under a key that is already resident changes that key's value
/// and nothing else: the number of entries, the order of the keys and every
/// other value stay as they were.
pub proof fn lemma_update_keeps_size<K, V>(
    state: CacheState<K, V>,
    key: K,
    value: V,
    victim: Victim,
)
    requires
        state.holds(key),
    ensures
        state.put(key, value, victim).len() == state.len(),
        state.put(key, value, victim).order == state.order,
        state.put(key, value, victim).entries == state.entries.insert(key, value),
{
}

/// A new key that arrives at a cache with room is added and no key is
/// discarded, whatever the rule.
pub proof fn lemma_no_eviction_while_room<K, V>(
    state: CacheState<K, V>,
    key: K,
    value: V,
    victim: Victim,
)
    requires
        !state.holds(key),
        !state.is_full(),
    ensures
        state.put(key, value, victim).len() == state.len() + 1,
        state.put(key, value, victim).order == state.order.push(key),
        state.put(key, value, victim).entries == state.entries.insert(key, value),
{
}

/// A new key that arrives at a full cache displaces exactly the key that the
/// rule selects: that key is gone, the new key is resident, every other key
/// keeps its value, and the number of entries is unchanged.
pub proof fn lemma_full_cache_evicts_one<K, V>(
    state: CacheState<K, V>,
    key: K,
    value: V,
    victim: Victim,
)
    requires
        state.wf(),
        !state.holds(key),
        state.is_full(),
    ensures
        state.holds(state.victim_key(victim)),
        !state.put(key, value, victim).holds(state.victim_key(victim)),
        state.put(key, value, victim).lookup(key) == Some(value),
        state.put(key, value, victim).len() == state.len(),
        forall|k: K|
            k != key && k != state.victim_key(victim) ==> state.put(key, value, victim).lookup(k)
                == state.lookup(k),
{
    state.lemma_evict_wf(victim);
}

/// While no more distinct keys have been stored into an empty cache than it
/// has room for, none is discarded: the keys are resident in arrival order,
/// each with its value.
pub proof fn lemma_distinct_keys_fill_in_order<K, V>(capacity: nat, stores: Seq<Store<K, V>>)
    requires
        capacity > 0,
        stores.len() <= capacity,
        distinct_keys(stores),
    ensures
        CacheState::<K, V>::empty(capacity).replay(stores).wf(),
        CacheState::<K, V>::empty(capacity).replay(stores).capacity == capacity,
        CacheState::<K, V>::empty(capacity).replay(stores).order == stores.map_values(
            |s: Store<K, V>| s.key,
        ),
        forall|i: int|
            0 <= i < stores.len() ==> CacheState::<K, V>::empty(capacity).replay(stores).lookup(
                #[trigger] stores[i].key,
            ) == Some(stores[i].value),
    decreases stores.len(),
{
    let start = CacheState::<K, V>::empty(capacity);
    let keys = stores.map_values(|s: Store<K, V>| s.key);
    if stores.len() == 0 {
        assert(start.replay(stores).order =~= keys);
        assert(start.wf());
    } else {
        let earlier = stores.drop_last();
        let last = stores.last();
        let before = start.replay(earlier);
        let after = start.replay(stores);
        lemma_prefix_keys_distinct(stores);
        lemma_distinct_keys_fill_in_order(capacity, earlier);
        assert(!before.holds(last.key)) by {
            if before.order.contains(last.key) {
                let i = before.order.index_of(last.key);
                assert(earlier[i].key == stores[i].key);
            }
        }
        before.lemma_append_wf(last.key, last.value);
        assert(after.order =~= keys);
        assert forall|i: int| 0 <= i < stores.len() implies after.lookup(#[trigger] stores[i].key)
            == Some(stores[i].value) by {
            if i < earlier.len() {
                assert(earlier[i].key == stores[i].key);
                assert(before.lookup(earlier[i].key) == Some(earlier[i].value));
            }
        }
    }
}

/// When one key more than the capacity is stored into an empty cache, all
/// keys distinct, the last arrival discards the key that stands in the slot
/// its rule selects among the earlier arrivals, and only that key: every
/// other key is resident with its value, and the cache holds exactly as
/// many entries as it has room for.
pub proof fn lemma_overflow_evicts_selected<K, V>(capacity: nat, stores: Seq<Store<K, V>>)
    requires
        capacity > 0,
        stores.len() == capacity + 1,
        distinct_keys(stores),
    ensures
        ({
            let before = CacheState::<K, V>::empty(capacity).replay(stores.drop_last());
            let after = CacheState::<K, V>::empty(capacity).replay(stores);
            let slot = before.victim_slot(stores.last().victim);
            &&& 0 <= slot < capacity
            &&& before.is_full()
            &&& before.victim_key(stores.last().victim) == stores[slot].key
            &&& after.wf()
            &&& after.len() == capacity
            &&& !after.holds(stores[slot].key)
            &&& forall|i: int|
                0 <= i <= capacity && i != slot ==> after.lookup(#[trigger] stores[i].key) == Some(
                    stores[i].value,
                )
        }),
{
    let start = CacheState::<K, V>::empty(capacity);
    let earlier = stores.drop_last();
    let last = stores.last();
    let before = start.replay(earlier);
    let after = start.replay(stores);
    let slot = before.victim_slot(last.victim);
    lemma_prefix_keys_distinct(stores);
    lemma_distinct_keys_fill_in_order(capacity, earlier);
    before.lemma_victim_slot_in_range(last.victim);
    assert(!before.holds(last.key)) by {
        if before.order.contains(last.key) {
            let i = before.order.index_of(last.key);
            assert(earlier[i].key == stores[i].key);
        }
    }
    lemma_full_cache_evicts_one(before, last.key, last.value, last.victim);
    assert(before.victim_key(last.victim) == stores[slot].key);
    before.lemma_put_wf(last.key, last.value, last.victim);
    assert forall|i: int| 0 <= i <= capacity && i != slot implies after.lookup(
        #[trigger] stores[i].key,
    ) == Some(stores[i].value) by {
        if i < capacity {
            assert(earlier[i] == stores[i]);
            assert(before.lookup(earlier[i].key) == Some(earlier[i].value));
        }
    }
}

/// First-in-first-out: when one key more than the capacity is stored into
/// an empty cache, all keys distinct, the key that is discarded is the one
/// that was stored first.
pub proof fn lemma_fifo_evicts_first_stored<K, V>(capacity: nat, stores: Seq<Store<K, V>>)
    requires
        capacity > 0,
        stores.len() == capacity + 1,
        distinct_keys(stores),
        stores.last().victim == Victim::Oldest,
    ensures
        CacheState::<K, V>::empty(capacity).replay(stores.drop_last()).victim_key(Victim::Oldest)
            == stores[0].key,
        !CacheState::<K, V>::empty(capacity).replay(stores).holds(stores[0].key),
        forall|i: int|
            1 <= i <= capacity ==> CacheState::<K, V>::empty(capacity).replay(stores).lookup(
                #[trigger] stores[i].key,
            ) == Some(stores[i].value),
{
    lemma_overflow_evicts_selected(capacity, stores);
}

/// Last-in-first-out: when one key more than the capacity is stored into an
/// empty cache, all keys distinct, the key that is discarded is the one
/// that was stored last before the cache overflowed.
pub proof fn lemma_lifo_evicts_last_stored<K, V>(capacity: nat, stores: Seq<Store<K, V>>)
    requires
        capacity > 0,
        stores.len() == capacity + 1,
        distinct_keys(stores),
        stores.last().victim == Victim::Newest,
    ensures
        CacheState::<K, V>::empty(capacity).replay(stores.drop_last()).victim_key(Victim::Newest)
            == stores[capacity - 1].key,
        !CacheState::<K, V>::empty(capacity).replay(stores).holds(stores[capacity - 1].key),
        forall|i: int|
            0 <= i <= capacity && i != capacity - 1 ==> CacheState::<K, V>::empty(capacity).replay(
                stores,
            ).lookup(#[trigger] stores[i].key) == Some(stores[i].value),
{
    lemma_overflow_evicts_selected(capacity, stores);
}

/// Random replacement: when one key more than the capacity is stored into
/// an empty cache, all keys distinct, the key that is discarded is the one
/// that arrived in the position of the drawn number modulo the capacity. So
/// each of the earlier keys is the one to leave for some draw, and no draw
/// discards more than one.
pub proof fn lemma_drawn_slot_is_evicted<K, V>(capacity: nat, stores: Seq<Store<K, V>>, draw: nat)
    requires
        capacity > 0,
        stores.len() == capacity + 1,
        distinct_keys(stores),
        stores.last().victim == Victim::Slot(draw),
    ensures
        ({
            let after = CacheState::<K, V>::empty(capacity).replay(stores);
            let slot = (draw % capacity) as int;
            &&& 0 <= slot < capacity
            &&& draw < capacity ==> slot == draw
            &&& !after.holds(stores[slot].key)
            &&& forall|i: int|
                0 <= i <= capacity && i != slot ==> after.lookup(#[trigger] stores[i].key) == Some(
                    stores[i].value,
                )
        }),
{
    lemma_overflow_evicts_selected(capacity, stores);
    if draw < capacity {
        assert(draw % capacity == draw) by (nonlinear_arith)
            requires
                draw < capacity,
        ;
    }
}

} // verus!
