use tri_space::config::{NavigationMode, SlewMode, BLOCK, CONV_HEAD_TAPS, FDN_LINES, FFT_SIZE, MAX_GRAINS, SR, WIN_TAB};

#[test]
fn test_constants() {
    assert_eq!(SR, 48_000);
    assert_eq!(BLOCK, 128);
    assert!(MAX_GRAINS > 0);
}

#[test]
fn other_constants_match_engine_layout() {
    assert_eq!(MAX_GRAINS, 102400);
    assert_eq!(MAX_GRAINS % 64, 0);
    assert_eq!(WIN_TAB, 2048);
    assert_eq!(FDN_LINES, 24);
    assert_eq!(FFT_SIZE, 4096);
    assert_eq!(CONV_HEAD_TAPS, 1024);
}

#[test]
fn navigation_mode_from_selector_step() {
    assert!(NavigationMode::from_code(0) == NavigationMode::Static);
    assert!(NavigationMode::from_code(1) == NavigationMode::Scan);
    assert!(NavigationMode::from_code(2) == NavigationMode::Jump);
    assert!(NavigationMode::from_code(7) == NavigationMode::Jump);
    assert!(NavigationMode::from_code(-1) == NavigationMode::Jump);
}

#[test]
fn navigation_mode_code_roundtrip() {
    for m in [NavigationMode::Static, NavigationMode::Scan, NavigationMode::Jump] {
        assert!(NavigationMode::from_code(m.code() as i32) == m);
    }
    assert_eq!(NavigationMode::Static.code(), 0);
    assert_eq!(NavigationMode::Scan.code(), 1);
    assert_eq!(NavigationMode::Jump.code(), 2);
}

#[test]
fn navigation_mode_names() {
    assert_eq!(NavigationMode::Static.name(), "Static");
    assert_eq!(NavigationMode::Scan.name(), "Scan");
    assert_eq!(NavigationMode::Jump.name(), "Jump");
}

#[test]
fn slew_modes_are_distinct() {
    assert!(SlewMode::Linear != SlewMode::Logarithmic);
    assert!(SlewMode::Linear == SlewMode::Linear);
}
