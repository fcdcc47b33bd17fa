use tri_space::ring::{
    hermite_taps, mask_for_pow2, mask_next, mask_pair, pow2_at_least, resync_read, wrap_offset,
    wrap_pair, RingBuffer,
};

#[test]
fn ring_reads_back_recent_writes() {
    let mut r = RingBuffer::new(4, 0i32);
    for x in 1..=6 {
        r.push(x);
    }
    assert_eq!(r.write_index(), 2);
    assert_eq!(r.get(r.lag_index(0)), 6);
    assert_eq!(r.get(r.lag_index(1)), 5);
    assert_eq!(r.get(r.lag_index(2)), 4);
    assert_eq!(r.get(r.lag_index(3)), 3);
}

#[test]
fn ring_initial_contents_and_fill() {
    let r = RingBuffer::new(3, 7u8);
    assert_eq!(r.len(), 3);
    assert_eq!(r.write_index(), 0);
    assert_eq!(r.get(0), 7);
    assert_eq!(r.get(2), 7);
    assert_eq!(r.lag_index(0), 2);
}

#[test]
fn ring_set_keeps_write_position() {
    let mut r = RingBuffer::new(5, 0i32);
    r.push(1);
    r.set(4, 9);
    assert_eq!(r.write_index(), 1);
    assert_eq!(r.get(4), 9);
}

#[test]
fn ring_slot_after_write_wraps() {
    let mut r = RingBuffer::new(3, 0i32);
    assert_eq!(r.slot_after_write(), 1);
    r.push(1);
    r.push(2);
    assert_eq!(r.slot_after_write(), 0);
    let single = RingBuffer::new(1, 0i32);
    assert_eq!(single.slot_after_write(), 0);
}

#[test]
fn ring_block_start_finds_first_write_of_block() {
    let mut r = RingBuffer::new(10, 0i32);
    for _ in 0..7 {
        r.push(0);
    }
    let start = r.write_index();
    for x in 0..5 {
        r.push(x);
    }
    assert_eq!(r.write_index(), 2);
    assert_eq!(r.block_start(5), start);
    assert_eq!(r.block_start(0), 2);
    assert_eq!(r.block_start(23), 9);
}

#[test]
fn mask_for_pow2_values() {
    assert_eq!(mask_for_pow2(0), 0);
    assert_eq!(mask_for_pow2(16), 65535);
    assert_eq!(mask_for_pow2(18), 262143);
}

#[test]
fn mask_arithmetic_wraps() {
    let m = mask_for_pow2(4);
    assert_eq!(mask_next(15, m), 0);
    assert_eq!(mask_next(3, m), 4);
    assert_eq!(mask_pair(31, m), (15, 0));
    assert_eq!(mask_pair(17, m), (1, 2));
    assert_eq!(hermite_taps(0, m), (15, 0, 1, 2));
    assert_eq!(hermite_taps(14, m), (13, 14, 15, 0));
    assert_eq!(hermite_taps(47, m), (14, 15, 0, 1));
}

#[test]
fn resampler_resync_moves_read_ahead() {
    let m = mask_for_pow2(16);
    // read position just behind the writer: too close, re-centred gap slots ahead
    assert_eq!(resync_read(1000, 900, m, 8192), Some(9192));
    // far enough behind: untouched
    assert_eq!(resync_read(10000, 1000, m, 8192), None);
    // distance measured modulo the buffer length
    assert_eq!(resync_read(100, 65000, m, 8192), Some(8292));
    assert_eq!(resync_read(60000, 0, m, 8192), None);
    assert_eq!(resync_read(60000, 60000, m, 8192), Some((60000 + 8192) & m));
}

#[test]
fn resync_result_is_far_enough_behind() {
    let m = mask_for_pow2(16);
    let w = 1000usize;
    let r = resync_read(w, 999, m, 8192).unwrap();
    assert_eq!(resync_read(w, r, m, 8192), None);
}

#[test]
fn pow2_at_least_values() {
    assert_eq!(pow2_at_least(0), 1);
    assert_eq!(pow2_at_least(1), 1);
    assert_eq!(pow2_at_least(3), 4);
    assert_eq!(pow2_at_least(65536), 65536);
    assert_eq!(pow2_at_least(96000), 131072);
}

#[test]
fn wrap_helpers() {
    assert_eq!(wrap_offset(9, 3, 10), 2);
    assert_eq!(wrap_offset(0, 0, 7), 0);
    assert_eq!(wrap_pair(9, 10), (9, 0));
    assert_eq!(wrap_pair(23, 10), (3, 4));
}
