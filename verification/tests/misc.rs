use tri_space::dither::DitherRng;
use tri_space::grain::{interp_neighbor, window_index};
use tri_space::taps::TapBank;

#[test]
fn dither_sequence_from_seed() {
    let mut d = DitherRng::new();
    assert_eq!(d.state(), 0xC0FFEE);
    assert_eq!(d.next_bits(), 0xb445bfcc);
    assert_eq!(d.state(), 0x2a72c675);
    assert_eq!(d.next_bits(), 0x1ef5dce9);
    assert_eq!(d.next_bits(), 0xe6c841d6);
    assert_eq!(d.state(), 0x78ff386f);
}

#[test]
fn window_index_is_integer_part_held_at_end() {
    assert_eq!(window_index(0), 0);
    assert_eq!(window_index(4095), 0);
    assert_eq!(window_index(4096 * 5 + 7), 5);
    assert_eq!(window_index(4096 * 2047), 2047);
    assert_eq!(window_index(4096 * 3000), 2047);
    assert_eq!(window_index(u32::MAX), 2047);
}

#[test]
fn interp_neighbor_is_held_at_last_sample() {
    assert_eq!(interp_neighbor(5, 10), 6);
    assert_eq!(interp_neighbor(9, 10), 9);
    assert_eq!(interp_neighbor(0, 1), 0);
}

#[test]
fn tap_bank_swaps_on_update() {
    let mut b = TapBank::new(4, 0.0f32);
    assert_eq!(b.len(), 4);
    assert_eq!(b.active(), &[0.0, 0.0, 0.0, 0.0]);
    b.update(&[1.0, 2.0, 3.0, 4.0]);
    assert_eq!(b.active(), &[1.0, 2.0, 3.0, 4.0]);
    b.update(&[5.0, 6.0, 7.0, 8.0]);
    assert_eq!(b.active(), &[5.0, 6.0, 7.0, 8.0]);
    b.update(&[9.0, 9.0, 9.0, 9.0]);
    assert_eq!(b.active(), &[9.0, 9.0, 9.0, 9.0]);
}
