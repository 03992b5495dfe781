use block_report::bulk::{bulk_disabled, contains_subslice};

const MARKER: &str = "config.MEMPOOL.MAX_BLOCKS_BULK_QUERY";

#[test]
fn marker_alone_is_detected() {
    assert!(bulk_disabled(MARKER.as_bytes()));
}

#[test]
fn marker_inside_surrounding_content_is_detected() {
    let body = format!(
        "Bulk blocks query is disabled, set {} to a value greater than 0.",
        MARKER
    );
    assert!(bulk_disabled(body.as_bytes()));
    let html = format!("<html><body>{}</body></html>", MARKER);
    assert!(bulk_disabled(html.as_bytes()));
}

#[test]
fn json_body_is_not_flagged() {
    let body = r#"[{"height":1,"hash":"ab","timestamp":100}]"#;
    assert!(!bulk_disabled(body.as_bytes()));
    assert!(!bulk_disabled(b""));
}

#[test]
fn truncated_marker_is_not_flagged() {
    assert!(!bulk_disabled(b"config.MEMPOOL.MAX_BLOCKS_BULK"));
    assert!(!bulk_disabled(b"config.MEMPOOL. MAX_BLOCKS_BULK_QUERY"));
}

#[test]
fn substring_search_edges() {
    assert!(contains_subslice(b"abc", b""));
    assert!(contains_subslice(b"abc", b"abc"));
    assert!(contains_subslice(b"xabcx", b"abc"));
    assert!(!contains_subslice(b"ab", b"abc"));
    assert!(!contains_subslice(b"abab", b"aa"));
    assert!(contains_subslice(b"aaab", b"aab"));
}
