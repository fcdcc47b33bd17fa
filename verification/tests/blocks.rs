use tri_space::blocks::{chunk_spans, frames_for_output, render_spans, rms_windows, tile_bounds};

#[test]
fn chunk_spans_cover_range() {
    assert_eq!(chunk_spans(130, 64), vec![(0, 64), (64, 128), (128, 130)]);
    assert_eq!(chunk_spans(128, 64), vec![(0, 64), (64, 128)]);
    assert!(chunk_spans(0, 64).is_empty());
    assert_eq!(chunk_spans(5, 1).len(), 5);
}

#[test]
fn frames_for_output_is_half_capped_at_block() {
    assert_eq!(frames_for_output(1000), 128);
    assert_eq!(frames_for_output(256), 128);
    assert_eq!(frames_for_output(11), 5);
    assert_eq!(frames_for_output(0), 0);
}

#[test]
fn render_spans_split_callback_buffer() {
    assert_eq!(render_spans(300), vec![(0, 256), (256, 300)]);
    assert_eq!(render_spans(1024), vec![(0, 256), (256, 512), (512, 768), (768, 1024)]);
    assert_eq!(render_spans(7), vec![(0, 6)]);
    assert!(render_spans(1).is_empty());
}

#[test]
fn tile_bounds_split_block() {
    assert_eq!(tile_bounds(128), vec![(0, 64), (64, 128)]);
    assert_eq!(tile_bounds(100), vec![(0, 64), (64, 100)]);
    assert_eq!(tile_bounds(1), vec![(0, 1)]);
    assert!(tile_bounds(0).is_empty());
}

#[test]
fn rms_windows_are_one_second() {
    assert!(rms_windows(47_999).is_empty());
    assert_eq!(rms_windows(48_000), vec![(0, 48_000)]);
    assert_eq!(
        rms_windows(100_000),
        vec![(0, 48_000), (48_000, 96_000), (96_000, 100_000)]
    );
}
