use block_report::heights::{corrected_start_height, resolve_first_height};

#[test]
fn earlier_block_bumps_height() {
    // resolved block timestamp strictly before the time-box start
    assert_eq!(corrected_start_height(100, 999, 1000), 101);
}

#[test]
fn equal_or_later_block_keeps_height() {
    assert_eq!(corrected_start_height(100, 1000, 1000), 100);
    assert_eq!(corrected_start_height(100, 1001, 1000), 100);
}

#[test]
fn resolve_parses_rfc3339_and_corrects() {
    // 2024-02-01T00:00:00Z is epoch 1706745600
    let target = 1706745600;
    // block just before the month: bumped
    let r = resolve_first_height(5000, "2024-01-31T23:59:59Z", target);
    assert_eq!(r, Some(5001));
    // block exactly at the boundary: unchanged
    let r = resolve_first_height(5000, "2024-02-01T00:00:00Z", target);
    assert_eq!(r, Some(5000));
    // block after the boundary: unchanged
    let r = resolve_first_height(5000, "2024-02-01T00:10:00Z", target);
    assert_eq!(r, Some(5000));
}

#[test]
fn resolve_honours_numeric_offsets() {
    let target = 1706745600; // 2024-02-01T00:00:00Z
    // same instant written with a +01:00 offset: unchanged
    let r = resolve_first_height(5000, "2024-02-01T01:00:00+01:00", target);
    assert_eq!(r, Some(5000));
    // one second earlier, written with an offset: bumped
    let r = resolve_first_height(5000, "2024-02-01T00:59:59+01:00", target);
    assert_eq!(r, Some(5001));
}

#[test]
fn resolve_rejects_malformed_timestamps() {
    assert_eq!(resolve_first_height(5000, "not a timestamp", 0), None);
    assert_eq!(resolve_first_height(5000, "2024-02-30T00:00:00Z", 0), None);
    assert_eq!(resolve_first_height(5000, "", 0), None);
}
