//! Proleptic Gregorian calendar arithmetic over Unix epoch seconds.
//!
//! Dates are modelled as plain integers (year, month, day) and instants as
//! seconds since 1970-01-01T00:00:00Z. The library supports years 1970
//! through 9999, which covers every instant the report can encounter and
//! keeps rendered years at exactly four digits.

use vstd::prelude::*;

verus! {

/// Seconds per day.
pub const SECS_PER_DAY: u64 = 86400;

/// A Gregorian year is a leap year when divisible by 4, except century
/// years, which must be divisible by 400.
pub open spec fn is_leap_year(y: int) -> bool {
    y % 4 == 0 && (y % 100 != 0 || y % 400 == 0)
}

pub open spec fn days_in_year(y: int) -> int {
    if is_leap_year(y) {
        366
    } else {
        365
    }
}

pub open spec fn days_in_month(y: int, m: int) -> int {
    if m == 2 {
        if is_leap_year(y) {
            29
        } else {
            28
        }
    } else if m == 4 || m == 6 || m == 9 || m == 11 {
        30
    } else {
        31
    }
}

/// Days from 1970-01-01 to the first day of year `y` (for `y >= 1970`).
pub open spec fn days_before_year(y: int) -> int
    decreases y,
{
    if y <= 1970 {
        0
    } else {
        days_before_year(y - 1) + days_in_year(y - 1)
    }
}

/// Days from the first day of year `y` to the first day of its month `m`.
pub open spec fn days_before_month(y: int, m: int) -> int
    decreases m,
{
    if m <= 1 {
        0
    } else {
        days_before_month(y, m - 1) + days_in_month(y, m - 1)
    }
}

/// Epoch seconds of the first instant (00:00:00 UTC) of month `m` of year `y`.
pub open spec fn month_start_epoch_spec(y: int, m: int) -> int {
    (days_before_year(y) + days_before_month(y, m)) * (SECS_PER_DAY as int)
}

/// First epoch second past the supported range: the start of year 10000.
pub open spec fn epoch_limit() -> int {
    month_start_epoch_spec(10000, 1)
}

pub open spec fn valid_ym(y: int, m: int) -> bool {
    1970 <= y <= 9999 && 1 <= m <= 12
}

pub fn is_leap_year_x(y: i32) -> (r: bool)
    requires
        y >= 0,
    ensures
        r == is_leap_year(y as int),
{
    y % 4 == 0 && (y % 100 != 0 || y % 400 == 0)
}

pub fn days_in_year_x(y: i32) -> (r: u64)
    requires
        y >= 0,
    ensures
        r == days_in_year(y as int),
        365 <= r <= 366,
{
    if is_leap_year_x(y) {
        366
    } else {
        365
    }
}

pub fn days_in_month_x(y: i32, m: u32) -> (r: u64)
    requires
        y >= 0,
    ensures
        r == days_in_month(y as int, m as int),
        28 <= r <= 31,
{
    if m == 2 {
        if is_leap_year_x(y) {
            29
        } else {
            28
        }
    } else if m == 4 || m == 6 || m == 9 || m == 11 {
        30
    } else {
        31
    }
}

/// `days_before_year` grows with the year.
pub proof fn lemma_days_before_year_mono(a: int, b: int)
    requires
        a <= b,
    ensures
        days_before_year(a) <= days_before_year(b),
    decreases b - a,
{
    if a < b {
        lemma_days_before_year_mono(a, b - 1);
    }
}

/// The twelve month lengths of a year sum to the length of that year.
pub proof fn lemma_months_sum(y: int)
    ensures
        days_before_month(y, 12) + days_in_month(y, 12) == days_in_year(y),
{
    reveal_with_fuel(days_before_month, 13);
}

/// Epoch seconds of the first instant of month `m` of year `y`.
pub fn month_start_epoch(y: i32, m: u32) -> (r: i64)
    requires
        1970 <= y <= 10000,
        1 <= m <= 12,
    ensures
        r == month_start_epoch_spec(y as int, m as int),
        r >= 0,
{
    let mut days: u64 = 0;
    let mut yr: i32 = 1970;
    while yr < y
        invariant
            1970 <= yr <= y <= 10000,
            days == days_before_year(yr as int),
            days <= 366 * (yr - 1970),
        decreases y - yr,
    {
        days = days + days_in_year_x(yr);
        yr = yr + 1;
    }
    let mut mo: u32 = 1;
    while mo < m
        invariant
            1 <= mo <= m <= 12,
            1970 <= y <= 10000,
            days == days_before_year(y as int) + days_before_month(y as int, mo as int),
            days <= 366 * (y - 1970) + 31 * (mo - 1),
        decreases m - mo,
    {
        days = days + days_in_month_x(y, mo);
        mo = mo + 1;
    }
    (days * SECS_PER_DAY) as i64
}

/// A calendar date and clock time, all fields plain integers.
pub struct CivilTime {
    pub year: i32,
    pub month: u32,
    pub day: u32,
    pub hour: u32,
    pub minute: u32,
    pub second: u32,
}

/// Epoch seconds of a civil date-time.
pub open spec fn epoch_of_civil(y: int, m: int, d: int, hh: int, mi: int, ss: int) -> int {
    (days_before_year(y) + days_before_month(y, m) + (d - 1)) * (SECS_PER_DAY as int) + hh * 3600
        + mi * 60 + ss
}

pub open spec fn civil_valid(c: CivilTime) -> bool {
    valid_ym(c.year as int, c.month as int) && 1 <= c.day <= days_in_month(
        c.year as int,
        c.month as int,
    ) && c.hour < 24 && c.minute < 60 && c.second < 60
}

pub open spec fn civil_epoch(c: CivilTime) -> int {
    epoch_of_civil(
        c.year as int,
        c.month as int,
        c.day as int,
        c.hour as int,
        c.minute as int,
        c.second as int,
    )
}

/// The year containing epoch day `d`, counting from the start of year `y`.
pub open spec fn year_of(y: int, d: int) -> int
    decreases d,
    when 0 <= d
{
    if d < days_in_year(y) {
        y
    } else {
        year_of(y + 1, d - days_in_year(y))
    }
}

/// The month containing day-of-year `d`, counting from month `m` of year `y`.
pub open spec fn month_of(y: int, m: int, d: int) -> int
    decreases d,
    when 0 <= d
{
    if d < days_in_month(y, m) {
        m
    } else {
        month_of(y, m + 1, d - days_in_month(y, m))
    }
}

pub open spec fn epoch_day_index(t: int) -> int {
    t / (SECS_PER_DAY as int)
}

pub open spec fn epoch_year(t: int) -> int {
    year_of(1970, epoch_day_index(t))
}

pub open spec fn epoch_month(t: int) -> int {
    month_of(epoch_year(t), 1, epoch_day_index(t) - days_before_year(epoch_year(t)))
}

pub open spec fn epoch_dom(t: int) -> int {
    epoch_day_index(t) - days_before_year(epoch_year(t)) - days_before_month(
        epoch_year(t),
        epoch_month(t),
    ) + 1
}

pub open spec fn epoch_hour(t: int) -> int {
    (t % (SECS_PER_DAY as int)) / 3600
}

pub open spec fn epoch_minute(t: int) -> int {
    ((t % (SECS_PER_DAY as int)) % 3600) / 60
}

pub open spec fn epoch_second(t: int) -> int {
    ((t % (SECS_PER_DAY as int)) % 3600) % 60
}

/// `year_of(y, d)` is the year reached from year `y` after `d` days: it
/// lies at or after `y`, and `d` falls within it.
pub proof fn lemma_year_of_props(y: int, d: int)
    requires
        1970 <= y,
        0 <= d,
    ensures
        y <= year_of(y, d),
        0 <= d + days_before_year(y) - days_before_year(year_of(y, d)) < days_in_year(
            year_of(y, d),
        ),
    decreases d,
{
    if d >= days_in_year(y) {
        lemma_year_of_props(y + 1, d - days_in_year(y));
    }
}

/// `month_of(y, m, d)` is the month reached from month `m` after `d` days:
/// it stays within the year and `d` falls within it.
pub proof fn lemma_month_of_props(y: int, m: int, d: int)
    requires
        1 <= m <= 12,
        0 <= d,
        d + days_before_month(y, m) < days_before_month(y, 13),
    ensures
        m <= month_of(y, m, d) <= 12,
        0 <= d + days_before_month(y, m) - days_before_month(y, month_of(y, m, d)) < days_in_month(
            y,
            month_of(y, m, d),
        ),
    decreases d,
{
    if d >= days_in_month(y, m) {
        lemma_month_of_props(y, m + 1, d - days_in_month(y, m));
    }
}

/// Every instant of the supported range splits into civil components in
/// the usual ranges.
pub proof fn lemma_epoch_components_in_range(t: int)
    requires
        0 <= t < epoch_limit(),
    ensures
        1970 <= epoch_year(t) <= 9999,
        1 <= epoch_month(t) <= 12,
        1 <= epoch_dom(t) <= 31,
        0 <= epoch_hour(t) < 24,
        0 <= epoch_minute(t) < 60,
        0 <= epoch_second(t) < 60,
{
    let d = epoch_day_index(t);
    assert(0 <= d < days_before_year(10000));
    lemma_year_of_props(1970, d);
    let y = epoch_year(t);
    if y > 9999 {
        lemma_days_before_year_mono(10000, y);
    }
    let rem = d - days_before_year(y);
    lemma_months_sum(y);
    lemma_month_of_props(y, 1, rem);
}

/// Round trip: for every instant of the supported range, the civil
/// components reconstruct the instant exactly, so a rendered date-time
/// parses back to the epoch second it came from.
pub proof fn lemma_epoch_civil_round_trip(t: int)
    requires
        0 <= t < epoch_limit(),
    ensures
        epoch_of_civil(
            epoch_year(t),
            epoch_month(t),
            epoch_dom(t),
            epoch_hour(t),
            epoch_minute(t),
            epoch_second(t),
        ) == t,
{
    let d = epoch_day_index(t);
    assert(0 <= d < days_before_year(10000));
    lemma_year_of_props(1970, d);
    let y = epoch_year(t);
    let rem = d - days_before_year(y);
    lemma_months_sum(y);
    lemma_month_of_props(y, 1, rem);
}

/// Splits an epoch instant into its unique civil date-time. The final
/// clause is the round trip: the civil fields reconstruct the instant
/// exactly.
pub fn civil_of_epoch(t: i64) -> (r: CivilTime)
    requires
        0 <= t < epoch_limit(),
    ensures
        civil_valid(r),
        r.year == epoch_year(t as int),
        r.month == epoch_month(t as int),
        r.day == epoch_dom(t as int),
        r.hour == epoch_hour(t as int),
        r.minute == epoch_minute(t as int),
        r.second == epoch_second(t as int),
        civil_epoch(r) == t,
{
    let total: u64 = t as u64;
    let day0: u64 = total / SECS_PER_DAY;
    let secs: u64 = total % SECS_PER_DAY;
    proof {
        if day0 as int >= days_before_year(10000) {
            assert(false);
        }
    }
    let mut yr: i32 = 1970;
    let mut days: u64 = day0;
    while days >= days_in_year_x(yr)
        invariant
            1970 <= yr <= 9999,
            days == day0 - days_before_year(yr as int),
            days_before_year(yr as int) <= day0 < days_before_year(10000),
            year_of(yr as int, days as int) == year_of(1970, day0 as int),
        decreases days,
    {
        proof {
            if yr as int + 1 > 9999 {
                lemma_days_before_year_mono(10000, yr as int + 1);
                assert(false);
            }
        }
        days = days - days_in_year_x(yr);
        yr = yr + 1;
    }
    let mut mo: u32 = 1;
    proof {
        lemma_months_sum(yr as int);
    }
    while days >= days_in_month_x(yr, mo)
        invariant
            1970 <= yr <= 9999,
            1 <= mo <= 12,
            days == day0 - days_before_year(yr as int) - days_before_month(yr as int, mo as int),
            day0 - days_before_year(yr as int) < days_in_year(yr as int),
            days_before_month(yr as int, 12) + days_in_month(yr as int, 12) == days_in_year(
                yr as int,
            ),
            month_of(yr as int, mo as int, days as int) == epoch_month(t as int),
            yr == epoch_year(t as int),
        decreases days,
    {
        days = days - days_in_month_x(yr, mo);
        mo = mo + 1;
    }
    let hour: u32 = (secs / 3600) as u32;
    let rem: u64 = secs % 3600;
    let minute: u32 = (rem / 60) as u32;
    let second: u32 = (rem % 60) as u32;
    CivilTime { year: yr, month: mo, day: (days + 1) as u32, hour, minute, second }
}

} // verus!
