use led_patterns::buffer::{RingBuffer, RingBuffer8};

#[test]
fn ring_buffer8_starts_at_zero() {
    let mut ring = RingBuffer8::new();
    assert_eq!(ring.mean(), 0);
}

#[test]
fn ring_buffer8_means_its_eight_slots() {
    let mut ring = RingBuffer8::new();
    ring.push(10);
    ring.push(20);
    ring.push(30);
    // 60 over 8 slots, rounded down.
    assert_eq!(ring.mean(), 7);
}

#[test]
fn ring_buffer8_overwrites_the_oldest() {
    let mut ring = RingBuffer8::new();
    for value in 1..=11 {
        ring.push(value);
    }
    // It holds 4 to 11.
    assert_eq!(ring.mean(), 7);
    for _ in 0..8 {
        ring.push(255);
    }
    assert_eq!(ring.mean(), 255);
}

#[test]
fn ring_buffer_of_bytes() {
    let mut ring = RingBuffer::<u8, 4>::new();
    assert_eq!(ring.mean(), 0);
    ring.push(255);
    ring.push(255);
    assert_eq!(ring.mean(), 127);
    ring.push(255);
    ring.push(255);
    assert_eq!(ring.mean(), 255);
    ring.push(1);
    assert_eq!(ring.mean(), 191);
}

#[test]
fn ring_buffer_of_half_words() {
    let mut ring = RingBuffer::<u16, 20>::new();
    for index in 1..30u16 {
        ring.push(1000 * index);
    }
    // It holds 10000 to 29000.
    assert_eq!(ring.mean(), 19500);
    let mut full = RingBuffer::<u16, 8>::new();
    for _ in 0..8 {
        full.push(65535);
    }
    assert_eq!(full.mean(), 65535);
}

#[test]
fn ring_buffer_of_words() {
    let mut ring = RingBuffer::<u32, 3>::new();
    ring.push(4_000_000_000);
    ring.push(4_000_000_001);
    ring.push(4_294_967_295);
    ring.push(7);
    assert_eq!(ring.mean(), 2_764_989_101);
}

#[test]
fn ring_buffer_of_one_slot_holds_the_last_reading() {
    let mut ring = RingBuffer::<u16, 1>::new();
    ring.push(5);
    ring.push(9);
    assert_eq!(ring.mean(), 9);
}

#[test]
fn mean_leaves_the_ring_as_it_is() {
    let mut ring = RingBuffer::<u8, 2>::new();
    ring.push(10);
    assert_eq!(ring.mean(), 5);
    assert_eq!(ring.mean(), 5);
    ring.push(20);
    assert_eq!(ring.mean(), 15);
}
