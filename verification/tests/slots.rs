use tri_space::config::MAX_GRAINS;
use tri_space::slots::GrainSlots;

#[test]
fn fresh_pool_hands_out_voice_zero_first() {
    let mut s = GrainSlots::with_words(1);
    assert_eq!(s.capacity(), 64);
    assert_eq!(s.free_len(), 64);
    assert_eq!(s.acquire(), Some(0));
    assert_eq!(s.acquire(), Some(1));
    assert_eq!(s.acquire(), Some(2));
    assert!(s.is_active(0) && s.is_active(1) && s.is_active(2));
    assert!(!s.is_active(3));
    assert_eq!(s.free_len(), 61);
}

#[test]
fn released_voice_is_next_to_be_acquired() {
    let mut s = GrainSlots::with_words(2);
    for _ in 0..5 {
        s.acquire();
    }
    s.release(3);
    assert!(!s.is_active(3));
    assert_eq!(s.acquire(), Some(3));
    assert_eq!(s.acquire(), Some(5));
}

#[test]
fn exhausted_pool_returns_none() {
    let mut s = GrainSlots::with_words(1);
    for i in 0..64 {
        assert_eq!(s.acquire(), Some(i));
    }
    assert_eq!(s.acquire(), None);
    assert_eq!(s.free_len(), 0);
    assert_eq!(s.active_indices().len(), 64);
}

#[test]
fn active_indices_are_increasing_across_words() {
    let mut s = GrainSlots::with_words(3);
    for _ in 0..150 {
        s.acquire();
    }
    s.release(0);
    s.release(63);
    s.release(64);
    s.release(129);
    let idx = s.active_indices();
    assert_eq!(idx.len(), 146);
    assert_eq!(idx[0], 1);
    assert!(idx.windows(2).all(|w| w[0] < w[1]));
    assert!(!idx.contains(&63) && !idx.contains(&64) && !idx.contains(&129));
    assert!(idx.contains(&65) && idx.contains(&149));
    assert!(!idx.contains(&150));
}

#[test]
fn reset_frees_everything() {
    let mut s = GrainSlots::with_words(2);
    for _ in 0..100 {
        s.acquire();
    }
    s.reset();
    assert_eq!(s.free_len(), 128);
    assert!(s.active_indices().is_empty());
    assert_eq!(s.acquire(), Some(0));
}

#[test]
fn out_of_range_voice_is_not_active() {
    let s = GrainSlots::with_words(1);
    assert!(!s.is_active(64));
    assert!(!s.is_active(usize::MAX));
}

#[test]
fn default_pool_has_max_grains_voices() {
    let mut s = GrainSlots::new();
    assert_eq!(s.capacity(), MAX_GRAINS);
    assert_eq!(s.free_len(), MAX_GRAINS);
    assert_eq!(s.acquire(), Some(0));
}

#[test]
fn default_pool_hands_out_every_voice_once() {
    // 100k+ voices: every one of the MAX_GRAINS voices is handed out exactly once.
    let mut s = GrainSlots::new();
    for i in 0..MAX_GRAINS {
        assert_eq!(s.acquire(), Some(i));
    }
    assert_eq!(s.acquire(), None);
    let active = s.active_indices();
    assert_eq!(active.len(), MAX_GRAINS);
    assert_eq!(active[65536], 65536);
    assert_eq!(active[MAX_GRAINS - 1], MAX_GRAINS - 1);
}

#[test]
fn release_undoes_acquire() {
    let mut s = GrainSlots::with_words(2);
    for _ in 0..10 {
        s.acquire();
    }
    let before_free = s.free_len();
    let before_active = s.active_indices();
    let i = s.acquire().unwrap();
    assert_eq!(i, 10);
    s.release(i);
    assert_eq!(s.free_len(), before_free);
    assert_eq!(s.active_indices(), before_active);
    assert_eq!(s.acquire(), Some(10));
}
