//! The time box of the previous calendar month.
//!
//! A time box is the half-open interval of epoch seconds from the first
//! instant of the previous month to the first instant of the current month,
//! both at 00:00:00 UTC.

use vstd::prelude::*;

use crate::calendar::{
    days_in_month, month_start_epoch, month_start_epoch_spec, valid_ym, SECS_PER_DAY,
};

verus! {

/// Half-open interval `[start_epoch, end_epoch)` of epoch seconds.
pub struct TimeBox {
    pub start_epoch: i64,
    pub end_epoch: i64,
}

/// The (year, month) of the calendar month before month `m` of year `y`.
pub open spec fn prev_month_spec(y: int, m: int) -> (int, int) {
    if m == 1 {
        (y - 1, 12)
    } else {
        (y, m - 1)
    }
}

/// A (year, month) whose previous month still lies in the supported range.
pub open spec fn rollover_ok(y: int, m: int) -> bool {
    valid_ym(y, m) && (m == 1 ==> y >= 1971)
}

pub open spec fn time_box_spec(y: int, m: int) -> (int, int) {
    (
        month_start_epoch_spec(prev_month_spec(y, m).0, prev_month_spec(y, m).1),
        month_start_epoch_spec(y, m),
    )
}

/// If the current month is January of year `y`, the previous month is
/// December of `y - 1`; otherwise it is the prior month of the same year.
pub fn prev_month(year: i32, month: u32) -> (r: (i32, u32))
    requires
        rollover_ok(year as int, month as int),
    ensures
        (r.0 as int, r.1 as int) == prev_month_spec(year as int, month as int),
        valid_ym(r.0 as int, r.1 as int),
{
    if month == 1 {
        (year - 1, 12)
    } else {
        (year, month - 1)
    }
}

/// Computes the time box of the month before the given current month:
/// it starts at the first instant of the previous month, ends at the first
/// instant of the current month, and spans exactly the number of days of
/// the previous month.
pub fn get_last_month_time_box_utc(year: i32, month: u32) -> (r: TimeBox)
    requires
        rollover_ok(year as int, month as int),
    ensures
        r.start_epoch == time_box_spec(year as int, month as int).0,
        r.end_epoch == time_box_spec(year as int, month as int).1,
        r.start_epoch < r.end_epoch,
        r.end_epoch - r.start_epoch == days_in_month(
            prev_month_spec(year as int, month as int).0,
            prev_month_spec(year as int, month as int).1,
        ) * (SECS_PER_DAY as int),
        0 <= r.start_epoch,
{
    let (py, pm) = prev_month(year, month);
    let start = month_start_epoch(py, pm);
    let end = month_start_epoch(year, month);
    proof {
        lemma_time_box_span(year as int, month as int);
    }
    TimeBox { start_epoch: start, end_epoch: end }
}

/// Relies on chrono's `Utc::now` and the `Datelike` accessors `year` and
/// `month`: `month` is documented to return a value in 1..=12, and `now`
/// returns a time at or after the Unix epoch (it panics on a system clock
/// set before the epoch), so the year is at least 1970.
#[verifier::external_body]
fn current_utc_year_month() -> (r: (i32, u32))
    ensures
        r.0 >= 1970,
        1 <= r.1 <= 12,
{
    let now = chrono::Utc::now();
    (chrono::Datelike::year(&now), chrono::Datelike::month(&now))
}

/// Computes the time box of the month before the given current month after
/// checking the date: returns `None` exactly where the pair lies outside
/// the supported calendar range (years 1970 through 9999, with a previous
/// month of its own in that range), and the exact box otherwise.
pub fn last_month_time_box_checked(year: i32, month: u32) -> (r: Option<TimeBox>)
    ensures
        r is Some <==> rollover_ok(year as int, month as int),
        r matches Some(tb) ==> tb.start_epoch == time_box_spec(year as int, month as int).0
            && tb.end_epoch == time_box_spec(year as int, month as int).1
            && 0 <= tb.start_epoch < tb.end_epoch,
{
    if year < 1970 || year > 9999 || month < 1 || month > 12 || (month == 1 && year < 1971) {
        return None;
    }
    Some(get_last_month_time_box_utc(year, month))
}

/// Reads the current UTC date from the system clock and returns the time
/// box of the previous calendar month, or `None` if the clock lies outside
/// the supported calendar range (years 1970 through 9999).
pub fn last_month_time_box_now() -> (r: Option<TimeBox>)
    ensures
        r is Some ==> exists|y: int, m: int|
            rollover_ok(y, m) && r->Some_0.start_epoch == time_box_spec(y, m).0
                && r->Some_0.end_epoch == time_box_spec(y, m).1
                && 0 <= r->Some_0.start_epoch < r->Some_0.end_epoch,
{
    let (year, month) = current_utc_year_month();
    last_month_time_box_checked(year, month)
}

/// The time box of any valid current month spans exactly the length of the
/// previous calendar month, so its start always precedes its end.
pub proof fn lemma_time_box_span(y: int, m: int)
    requires
        rollover_ok(y, m),
    ensures
        time_box_spec(y, m).1 - time_box_spec(y, m).0 == days_in_month(
            prev_month_spec(y, m).0,
            prev_month_spec(y, m).1,
        ) * (SECS_PER_DAY as int),
        time_box_spec(y, m).0 < time_box_spec(y, m).1,
{
    if m == 1 {
        crate::calendar::lemma_months_sum(y - 1);
    }
}

} // verus!
