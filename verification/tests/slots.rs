use bounded_cache::slots::Slots;

#[test]
fn slots_record_positions() {
    let mut slots: Slots<u8> = Slots::new(4);
    assert_eq!(slots.len(), 0);
    assert_eq!(slots.position(b'a'), None);
    slots.push(b'a');
    slots.push(b'b');
    slots.push(b'c');
    assert_eq!(slots.len(), 3);
    assert_eq!(slots.position(b'a'), Some(0));
    assert_eq!(slots.position(b'b'), Some(1));
    assert_eq!(slots.position(b'c'), Some(2));
    assert_eq!(slots.position(b'd'), None);
}

#[test]
fn swap_remove_moves_the_last_key_into_the_gap() {
    let mut slots: Slots<u8> = Slots::new(4);
    slots.push(b'a');
    slots.push(b'b');
    slots.push(b'c');
    slots.push(b'd');
    assert_eq!(slots.swap_remove(1), b'b');
    assert_eq!(slots.len(), 3);
    assert_eq!(slots.position(b'a'), Some(0));
    assert_eq!(slots.position(b'd'), Some(1));
    assert_eq!(slots.position(b'c'), Some(2));
    assert_eq!(slots.position(b'b'), None);
}

#[test]
fn swap_remove_of_the_last_slot_moves_nothing() {
    let mut slots: Slots<u16> = Slots::new(2);
    slots.push(10);
    slots.push(20);
    assert_eq!(slots.swap_remove(1), 20);
    assert_eq!(slots.len(), 1);
    assert_eq!(slots.position(10), Some(0));
    assert_eq!(slots.position(20), None);
    assert_eq!(slots.swap_remove(0), 10);
    assert_eq!(slots.len(), 0);
    assert_eq!(slots.position(10), None);
    slots.push(20);
    assert_eq!(slots.position(20), Some(0));
}
