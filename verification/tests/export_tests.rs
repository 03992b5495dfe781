use block_report::api::{bulk_query_path, timestamp_lookup_path};
use block_report::export::{render_csv, render_csv_checked, report_filename, BlockSummary};
use block_report::render::{i64_to_dec, render_timestamp, u64_to_dec};

fn block(height: i64, timestamp: i64, reward: i64, fees: i64, pool: &str) -> BlockSummary {
    BlockSummary {
        height,
        timestamp,
        reward,
        total_fee_amt: fees,
        pool_slug: pool.as_bytes().to_vec(),
    }
}

#[test]
fn decimal_rendering_is_exact() {
    assert_eq!(u64_to_dec(0), b"0".to_vec());
    assert_eq!(u64_to_dec(7), b"7".to_vec());
    assert_eq!(u64_to_dec(830000), b"830000".to_vec());
    assert_eq!(u64_to_dec(u64::MAX), u64::MAX.to_string().into_bytes());
    assert_eq!(i64_to_dec(-1), b"-1".to_vec());
    assert_eq!(i64_to_dec(-12345), b"-12345".to_vec());
    assert_eq!(i64_to_dec(i64::MIN), i64::MIN.to_string().into_bytes());
}

#[test]
fn timestamp_rendering_matches_chrono_display() {
    for t in [
        0i64,
        1,
        86399,
        86400,
        951782400,  // 2000-02-29 00:00:00 UTC
        1706745600, // 2024-02-01 00:00:00 UTC
        1706749261,
        2147483647,
        4102444800, // 2100-01-01 00:00:00 UTC
    ] {
        let want = chrono::DateTime::from_timestamp(t, 0).unwrap().to_string();
        let got = String::from_utf8(render_timestamp(t)).unwrap();
        assert_eq!(got, want, "epoch {}", t);
    }
}

#[test]
fn timestamp_column_parses_back_to_the_same_epoch() {
    for t in [0i64, 123456789, 1706745600, 1706749261, 2147483647] {
        let rendered = String::from_utf8(render_timestamp(t)).unwrap();
        let parsed = chrono::NaiveDateTime::parse_from_str(&rendered, "%Y-%m-%d %H:%M:%S UTC")
            .unwrap()
            .and_utc()
            .timestamp();
        assert_eq!(parsed, t);
    }
}

#[test]
fn report_has_one_header_and_one_line_per_block() {
    let blocks = vec![
        block(830000, 1706745600, 640625000, 15625000, "foundry"),
        block(830001, 1706746200, 650000000, 25000000, "antpool"),
        block(830002, 1706746800, 641000000, 16000000, "unknown"),
    ];
    let content = String::from_utf8(render_csv(&blocks)).unwrap();
    let lines: Vec<&str> = content.lines().collect();
    assert_eq!(lines.len(), blocks.len() + 1);
    assert_eq!(lines[0], "height,timestamp,reward,fees,pool");
    assert!(content.ends_with('\n'));
}

#[test]
fn rows_carry_the_projected_fields() {
    let blocks = vec![block(830000, 1706745600, 640625000, 15625000, "foundry")];
    let content = String::from_utf8(render_csv(&blocks)).unwrap();
    assert_eq!(
        content,
        "height,timestamp,reward,fees,pool\n\
         830000,2024-02-01 00:00:00 UTC,640625000,15625000,foundry\n"
    );
}

#[test]
fn negative_amounts_render_with_sign() {
    let blocks = vec![block(-1, 0, -5, -10, "p")];
    let content = String::from_utf8(render_csv(&blocks)).unwrap();
    assert_eq!(
        content,
        "height,timestamp,reward,fees,pool\n-1,1970-01-01 00:00:00 UTC,-5,-10,p\n"
    );
}

#[test]
fn pool_names_with_special_bytes_are_quoted() {
    let blocks = vec![
        block(1, 0, 0, 0, "a,b"),
        block(2, 0, 0, 0, "say \"hi\""),
        block(3, 0, 0, 0, "plain"),
    ];
    let content = String::from_utf8(render_csv(&blocks)).unwrap();
    let lines: Vec<&str> = content.lines().collect();
    assert_eq!(lines[1], "1,1970-01-01 00:00:00 UTC,0,0,\"a,b\"");
    assert_eq!(lines[2], "2,1970-01-01 00:00:00 UTC,0,0,\"say \"\"hi\"\"\"");
    assert_eq!(lines[3], "3,1970-01-01 00:00:00 UTC,0,0,plain");
}

#[test]
fn export_is_deterministic() {
    let mk = || {
        vec![
            block(830000, 1706745600, 640625000, 15625000, "foundry"),
            block(830001, 1706746200, 650000000, 25000000, "antpool"),
        ]
    };
    let first = render_csv(&mk());
    let second = render_csv(&mk());
    assert_eq!(first, second);
}

#[test]
fn checked_render_rejects_out_of_range_timestamps() {
    let ok = vec![block(1, 1706745600, 0, 0, "p")];
    assert!(render_csv_checked(&ok).is_some());
    let negative = vec![block(1, -1, 0, 0, "p")];
    assert!(render_csv_checked(&negative).is_none());
    let too_far = vec![block(1, 253402300800, 0, 0, "p")]; // 10000-01-01
    assert!(render_csv_checked(&too_far).is_none());
    let last_supported = vec![block(1, 253402300799, 0, 0, "p")]; // 9999-12-31 23:59:59
    let content = String::from_utf8(render_csv_checked(&last_supported).unwrap()).unwrap();
    assert!(content.contains("9999-12-31 23:59:59 UTC"));
}

#[test]
fn filename_embeds_the_height_bounds() {
    assert_eq!(
        String::from_utf8(report_filename(828000, 832000)).unwrap(),
        "block_report_from_828000_to_832000.csv"
    );
    assert_eq!(
        String::from_utf8(report_filename(0, 0)).unwrap(),
        "block_report_from_0_to_0.csv"
    );
}

#[test]
fn empty_block_sequence_yields_header_only() {
    let content = String::from_utf8(render_csv(&vec![])).unwrap();
    assert_eq!(content, "height,timestamp,reward,fees,pool\n");
}

#[test]
fn endpoint_paths_embed_the_arguments() {
    assert_eq!(
        String::from_utf8(timestamp_lookup_path(1706745600)).unwrap(),
        "/api/v1/mining/blocks/timestamp/1706745600"
    );
    assert_eq!(
        String::from_utf8(timestamp_lookup_path(0)).unwrap(),
        "/api/v1/mining/blocks/timestamp/0"
    );
    assert_eq!(
        String::from_utf8(bulk_query_path(828000, 832000)).unwrap(),
        "/api/v1/blocks-bulk/828000/832000"
    );
}
