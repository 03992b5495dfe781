use block_report::calendar::month_start_epoch;
use chrono::TimeZone;
use block_report::timebox::{
    get_last_month_time_box_utc, last_month_time_box_checked, last_month_time_box_now, prev_month,
};

#[test]
fn march_2024_yields_february_box() {
    // current month March 2024: previous month is February 2024 (leap year)
    let tb = get_last_month_time_box_utc(2024, 3);
    assert_eq!(tb.start_epoch, 1706745600); // 2024-02-01T00:00:00Z
    assert_eq!(tb.end_epoch, 1709251200); // 2024-03-01T00:00:00Z
    assert_eq!(tb.end_epoch - tb.start_epoch, 29 * 86400);
}

#[test]
fn january_rolls_over_to_december() {
    // current month January 2024: previous month is December 2023
    let tb = get_last_month_time_box_utc(2024, 1);
    assert_eq!(tb.start_epoch, 1701388800); // 2023-12-01T00:00:00Z
    assert_eq!(tb.end_epoch, 1704067200); // 2024-01-01T00:00:00Z
    assert_eq!(tb.end_epoch - tb.start_epoch, 31 * 86400);
}

#[test]
fn prev_month_rollover_cases() {
    assert_eq!(prev_month(2024, 1), (2023, 12));
    assert_eq!(prev_month(2024, 2), (2024, 1));
    assert_eq!(prev_month(1971, 1), (1970, 12));
    assert_eq!(prev_month(2025, 12), (2025, 11));
}

#[test]
fn time_box_spans_previous_month_for_all_months() {
    for year in [1971, 1972, 1999, 2000, 2023, 2024, 2025, 2100] {
        for month in 1..=12u32 {
            let tb = get_last_month_time_box_utc(year, month);
            let (py, pm) = prev_month(year, month);
            let want_start = chrono::Utc
                .with_ymd_and_hms(py, pm, 1, 0, 0, 0)
                .unwrap()
                .timestamp();
            let want_end = chrono::Utc
                .with_ymd_and_hms(year, month, 1, 0, 0, 0)
                .unwrap()
                .timestamp();
            assert_eq!(tb.start_epoch, want_start);
            assert_eq!(tb.end_epoch, want_end);
            assert!(tb.start_epoch < tb.end_epoch);
        }
    }
}

#[test]
fn month_start_epoch_matches_chrono() {
    for (y, m) in [(1970, 1), (1970, 2), (2000, 2), (2000, 3), (2038, 1), (9999, 12)] {
        let want = chrono::Utc
            .with_ymd_and_hms(y, m, 1, 0, 0, 0)
            .unwrap()
            .timestamp();
        assert_eq!(month_start_epoch(y, m), want);
    }
}

#[test]
fn time_box_from_clock_is_well_formed() {
    let tb = last_month_time_box_now().expect("the clock lies in the supported range");
    assert!(tb.start_epoch < tb.end_epoch);
    assert!(tb.start_epoch >= 0);
    let days = (tb.end_epoch - tb.start_epoch) / 86400;
    assert!((28..=31).contains(&days));
}

#[test]
fn checked_time_box_accepts_exactly_the_supported_range() {
    let tb = last_month_time_box_checked(2024, 3).unwrap();
    assert_eq!(tb.start_epoch, 1706745600); // 2024-02-01T00:00:00Z
    assert_eq!(tb.end_epoch, 1709251200); // 2024-03-01T00:00:00Z
    assert!(last_month_time_box_checked(1970, 2).is_some());
    assert!(last_month_time_box_checked(9999, 12).is_some());
    // January 1970 has no previous month in range
    assert!(last_month_time_box_checked(1970, 1).is_none());
    assert!(last_month_time_box_checked(1969, 6).is_none());
    assert!(last_month_time_box_checked(10000, 1).is_none());
    assert!(last_month_time_box_checked(2024, 0).is_none());
    assert!(last_month_time_box_checked(2024, 13).is_none());
}
