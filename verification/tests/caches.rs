use bounded_cache::error::CacheError;
use bounded_cache::fifo::Fifo;
use bounded_cache::queue::{Kind, Queue};
use bounded_cache::rr::RR;

#[test]
fn random_replacement() {
    let mut rr_cache = RR::new(3).unwrap();
    assert_eq!(rr_cache.get(1), None);
    assert_eq!(rr_cache.set(1, "one"), true);
    assert_eq!(rr_cache.get(1), Some(&"one"));

    assert_eq!(rr_cache.set(2, "two"), true);
    assert_eq!(rr_cache.set(3, "three"), true);
    assert_eq!(rr_cache.set(4, "four"), true);
    let survivors = [1, 2, 3].iter().filter(|k| rr_cache.get(**k).is_some()).count();
    assert_eq!(survivors, 2);
    assert_eq!(rr_cache.get(4), Some(&"four"));
}

#[test]
fn queue_fifo() {
    let mut fifo_cache: Queue<i32, &str> = Queue::new(3, Kind::FIFO).unwrap();
    assert_eq!(fifo_cache.get(1), None);
    assert_eq!(fifo_cache.set(1, "one"), true);
    assert_eq!(fifo_cache.get(1), Some(&"one"));

    assert_eq!(fifo_cache.set(2, "two"), true);
    assert_eq!(fifo_cache.set(3, "three"), true);
    assert_eq!(fifo_cache.set(4, "four"), true);
    assert!(fifo_cache.get(2).is_some());
}

#[test]
fn queue_lifo() {
    let mut lifo_cache: Queue<i32, &str> = Queue::new(3, Kind::LIFO).unwrap();
    assert_eq!(lifo_cache.get(1), None);
    assert_eq!(lifo_cache.set(1, "one"), true);
    assert_eq!(lifo_cache.get(1), Some(&"one"));

    assert_eq!(lifo_cache.set(2, "two"), true);
    assert_eq!(lifo_cache.set(3, "three"), true);
    assert_eq!(lifo_cache.set(4, "four"), true);
    assert!(lifo_cache.get(2).is_some());
}

#[test]
fn zero_capacity_is_refused() {
    assert_eq!(Fifo::<i32, &str>::new(0).err(), Some(CacheError::ZeroCapacity));
    assert_eq!(Queue::<i32, &str>::new(0, Kind::FIFO).err(), Some(CacheError::ZeroCapacity));
    assert_eq!(Queue::<i32, &str>::new(0, Kind::LIFO).err(), Some(CacheError::ZeroCapacity));
    assert_eq!(RR::<i32, &str>::new(0).err(), Some(CacheError::ZeroCapacity));
    assert!(Fifo::<i32, &str>::new(1).is_ok());
    assert!(Queue::<i32, &str>::new(1, Kind::LIFO).is_ok());
    assert!(RR::<i32, &str>::new(1).is_ok());
}

#[test]
fn fifo_overflow_evicts_the_first_key() {
    let mut cache: Queue<i32, &str> = Queue::new(3, Kind::FIFO).unwrap();
    assert!(cache.set(1, "one"));
    assert!(cache.set(2, "two"));
    assert!(cache.set(3, "three"));
    assert_eq!(cache.len(), 3);
    assert!(cache.set(4, "four"));
    assert_eq!(cache.len(), 3);
    assert_eq!(cache.get(1), None);
    assert_eq!(cache.get(2), Some(&"two"));
    assert_eq!(cache.get(3), Some(&"three"));
    assert_eq!(cache.get(4), Some(&"four"));
}

#[test]
fn fifo_keeps_evicting_in_arrival_order() {
    let mut cache: Queue<u8, u32> = Queue::new(2, Kind::FIFO).unwrap();
    for k in 0..6u8 {
        assert!(cache.set(k, u32::from(k) * 10));
        for earlier in 0..=k {
            let expected = if earlier + 2 > k { Some(u32::from(earlier) * 10) } else { None };
            assert_eq!(cache.get(earlier).copied(), expected);
        }
    }
}

#[test]
fn lifo_overflow_evicts_the_newest_key() {
    let mut cache: Queue<i32, &str> = Queue::new(3, Kind::LIFO).unwrap();
    assert!(cache.set(1, "one"));
    assert!(cache.set(2, "two"));
    assert!(cache.set(3, "three"));
    assert!(cache.set(4, "four"));
    assert_eq!(cache.len(), 3);
    assert_eq!(cache.get(1), Some(&"one"));
    assert_eq!(cache.get(2), Some(&"two"));
    assert_eq!(cache.get(3), None);
    assert_eq!(cache.get(4), Some(&"four"));
    assert!(cache.set(5, "five"));
    assert_eq!(cache.get(4), None);
    assert_eq!(cache.get(5), Some(&"five"));
    assert_eq!(cache.get(1), Some(&"one"));
}

#[test]
fn standalone_fifo_evicts_the_first_key() {
    let mut cache: Fifo<i32, &str> = Fifo::new(3).unwrap();
    assert_eq!(cache.capacity(), 3);
    assert_eq!(cache.len(), 0);
    assert_eq!(cache.get(1), None);
    assert!(cache.set(1, "one"));
    assert!(cache.set(2, "two"));
    assert!(cache.set(3, "three"));
    assert!(cache.set(4, "four"));
    assert_eq!(cache.len(), 3);
    assert_eq!(cache.get(1), None);
    assert_eq!(cache.get(2), Some(&"two"));
    assert_eq!(cache.get(3), Some(&"three"));
    assert_eq!(cache.get(4), Some(&"four"));
    assert!(cache.set(5, "five"));
    assert_eq!(cache.get(2), None);
    assert_eq!(cache.get(3), Some(&"three"));
}

#[test]
fn random_overflow_evicts_exactly_one_key() {
    let mut cache: RR<i32, &str> = RR::new(3).unwrap();
    assert!(cache.set(1, "one"));
    assert!(cache.set(2, "two"));
    assert!(cache.set(3, "three"));
    assert!(cache.set(4, "four"));
    assert_eq!(cache.len(), 3);
    let gone = [1, 2, 3].iter().filter(|k| cache.get(**k).is_none()).count();
    assert_eq!(gone, 1);
    assert_eq!(cache.get(4), Some(&"four"));
}

#[test]
fn drawn_number_selects_the_slot() {
    // Seven modulo three is slot one, which holds the second key.
    let mut cache: RR<i32, &str> = RR::new(3).unwrap();
    assert!(cache.set_drawn(1, "one", 0));
    assert!(cache.set_drawn(2, "two", 0));
    assert!(cache.set_drawn(3, "three", 0));
    assert!(cache.set_drawn(4, "four", 7));
    assert_eq!(cache.get(1), Some(&"one"));
    assert_eq!(cache.get(2), None);
    assert_eq!(cache.get(3), Some(&"three"));
    assert_eq!(cache.get(4), Some(&"four"));
    // The slots now hold 1, 3, 4: the last key moved into the freed slot.
    assert!(cache.set_drawn(5, "five", 1));
    assert_eq!(cache.get(3), None);
    // The slots now hold 1, 4, 5.
    assert!(cache.set_drawn(6, "six", 1));
    assert_eq!(cache.get(4), None);
    // The slots now hold 1, 5, 6, and 2^64 - 1 is a multiple of three:
    // slot zero.
    assert!(cache.set_drawn(7, "seven", u64::MAX));
    assert_eq!(cache.get(1), None);
    assert_eq!(cache.get(5), Some(&"five"));
    assert_eq!(cache.get(6), Some(&"six"));
    assert_eq!(cache.get(7), Some(&"seven"));
    assert_eq!(cache.len(), 3);
}

#[test]
fn size_never_exceeds_capacity() {
    let mut fifo: Queue<u32, u32> = Queue::new(4, Kind::FIFO).unwrap();
    let mut lifo: Queue<u32, u32> = Queue::new(4, Kind::LIFO).unwrap();
    let mut plain: Fifo<u32, u32> = Fifo::new(4).unwrap();
    let mut random: RR<u32, u32> = RR::new(4).unwrap();
    for step in 0..200u32 {
        let key = (step * 7) % 13;
        assert!(fifo.set(key, step));
        assert!(lifo.set(key, step));
        assert!(plain.set(key, step));
        assert!(random.set(key, step));
        assert!(fifo.len() <= fifo.capacity());
        assert!(lifo.len() <= lifo.capacity());
        assert!(plain.len() <= plain.capacity());
        assert!(random.len() <= random.capacity());
        assert_eq!(fifo.len(), std::cmp::min(step as usize + 1, 4));
    }
    assert_eq!(fifo.capacity(), 4);
    assert_eq!(random.len(), 4);
}

#[test]
fn stored_value_is_read_back() {
    let mut fifo: Queue<u32, u32> = Queue::new(2, Kind::FIFO).unwrap();
    let mut lifo: Queue<u32, u32> = Queue::new(2, Kind::LIFO).unwrap();
    let mut random: RR<u32, u32> = RR::new(2).unwrap();
    for key in 0..20u32 {
        assert!(fifo.set(key, key + 100));
        assert_eq!(fifo.get(key), Some(&(key + 100)));
        assert!(lifo.set(key, key + 100));
        assert_eq!(lifo.get(key), Some(&(key + 100)));
        assert!(random.set(key, key + 100));
        assert_eq!(random.get(key), Some(&(key + 100)));
    }
}

#[test]
fn update_of_resident_key_keeps_size_and_evicts_nothing() {
    let mut fifo: Queue<i32, &str> = Queue::new(2, Kind::FIFO).unwrap();
    assert!(fifo.set(1, "one"));
    assert!(fifo.set(2, "two"));
    assert_eq!(fifo.len(), 2);
    assert!(fifo.set(1, "uno"));
    assert_eq!(fifo.len(), 2);
    assert_eq!(fifo.get(1), Some(&"uno"));
    assert_eq!(fifo.get(2), Some(&"two"));
    // The update did not renew key 1: it is still the oldest.
    assert!(fifo.set(3, "three"));
    assert_eq!(fifo.get(1), None);
    assert_eq!(fifo.get(2), Some(&"two"));

    let mut lifo: Queue<i32, &str> = Queue::new(2, Kind::LIFO).unwrap();
    assert!(lifo.set(1, "one"));
    assert!(lifo.set(2, "two"));
    assert!(lifo.set(1, "uno"));
    assert_eq!(lifo.len(), 2);
    assert!(lifo.set(3, "three"));
    assert_eq!(lifo.get(1), Some(&"uno"));
    assert_eq!(lifo.get(2), None);

    let mut plain: Fifo<i32, &str> = Fifo::new(2).unwrap();
    assert!(plain.set(1, "one"));
    assert!(plain.set(2, "two"));
    assert!(plain.set(2, "dos"));
    assert_eq!(plain.len(), 2);
    assert_eq!(plain.get(1), Some(&"one"));
    assert_eq!(plain.get(2), Some(&"dos"));

    let mut random: RR<i32, &str> = RR::new(2).unwrap();
    assert!(random.set(1, "one"));
    assert!(random.set(2, "two"));
    assert!(random.set(2, "dos"));
    assert!(random.set(1, "uno"));
    assert_eq!(random.len(), 2);
    assert_eq!(random.get(1), Some(&"uno"));
    assert_eq!(random.get(2), Some(&"dos"));
}

#[test]
fn reading_does_not_renew_a_key() {
    let mut fifo: Queue<i32, &str> = Queue::new(2, Kind::FIFO).unwrap();
    assert!(fifo.set(1, "one"));
    assert!(fifo.set(2, "two"));
    assert_eq!(fifo.get(1), Some(&"one"));
    assert_eq!(fifo.get(1), Some(&"one"));
    assert!(fifo.set(3, "three"));
    assert_eq!(fifo.get(1), None);
}

#[test]
fn capacity_of_one() {
    let mut fifo: Queue<i32, i32> = Queue::new(1, Kind::FIFO).unwrap();
    let mut lifo: Queue<i32, i32> = Queue::new(1, Kind::LIFO).unwrap();
    let mut random: RR<i32, i32> = RR::new(1).unwrap();
    for key in 0..5 {
        assert!(fifo.set(key, -key));
        assert!(lifo.set(key, -key));
        assert!(random.set(key, -key));
        assert_eq!(fifo.len(), 1);
        assert_eq!(lifo.len(), 1);
        assert_eq!(random.len(), 1);
        assert_eq!(fifo.get(key), Some(&-key));
        assert_eq!(lifo.get(key), Some(&-key));
        assert_eq!(random.get(key), Some(&-key));
        if key > 0 {
            assert_eq!(fifo.get(key - 1), None);
            assert_eq!(lifo.get(key - 1), None);
            assert_eq!(random.get(key - 1), None);
        }
    }
}

#[test]
fn random_eviction_is_close_to_uniform() {
    let trials = 6000;
    let mut evicted = [0u32; 3];
    for _ in 0..trials {
        let mut cache: RR<usize, ()> = RR::new(3).unwrap();
        assert!(cache.set(0, ()));
        assert!(cache.set(1, ()));
        assert!(cache.set(2, ()));
        assert!(cache.set(3, ()));
        assert_eq!(cache.len(), 3);
        assert!(cache.get(3).is_some());
        let gone: Vec<usize> = (0..3).filter(|k| cache.get(*k).is_none()).collect();
        assert_eq!(gone.len(), 1);
        evicted[gone[0]] += 1;
    }
    // Each key is expected to leave 2000 times; the standard deviation is
    // below 40.
    for count in evicted {
        assert!(count > 1600 && count < 2400, "evictions: {:?}", evicted);
    }
}
