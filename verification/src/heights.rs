//! Resolving the block-height range of a time box.
//!
//! The remote lookup returns, for a target instant, the nearest block's
//! height together with its actual RFC 3339 timestamp. When that block's
//! timestamp precedes the target instant the block belongs to the prior
//! month, so the true first height of the range is one above it. The end
//! of the range takes the resolved height unchanged.

use vstd::prelude::*;

verus! {

/// The epoch second an RFC 3339 date-and-time string denotes, or `None`
/// where the string is not a valid RFC 3339 value. The result depends on
/// the characters of the string alone.
pub uninterp spec fn rfc3339_epoch_of(s: Seq<char>) -> Option<int>;

/// Relies on chrono's `DateTime::parse_from_rfc3339`, which parses every
/// valid RFC 3339 date-and-time string and rejects all other strings, and
/// on `DateTime::timestamp`, which returns the denoted epoch second.
#[verifier::external_body]
fn parse_rfc3339_epoch(s: &str) -> (r: Option<i64>)
    ensures
        r is Some <==> rfc3339_epoch_of(s@) is Some,
        r is Some ==> r->0 as int == rfc3339_epoch_of(s@)->0,
{
    match chrono::DateTime::parse_from_rfc3339(s) {
        Ok(dt) => Some(dt.timestamp()),
        Err(_) => None,
    }
}

/// The corrected first height of the range: one above the resolved height
/// where the resolved block precedes the target instant, the resolved
/// height itself otherwise.
pub open spec fn corrected_height_spec(height: int, resolved_epoch: int, target_epoch: int) -> int {
    if resolved_epoch < target_epoch {
        height + 1
    } else {
        height
    }
}

/// Boundary correction at the start of the range: if the resolved block's
/// timestamp epoch is strictly less than the target epoch, the corrected
/// height is the resolved height plus one; otherwise it is unchanged.
pub fn corrected_start_height(height: u64, resolved_epoch: i64, target_epoch: i64) -> (r: u64)
    requires
        height < u64::MAX,
    ensures
        r as int == corrected_height_spec(height as int, resolved_epoch as int, target_epoch as int),
{
    if resolved_epoch < target_epoch {
        height + 1
    } else {
        height
    }
}

/// Resolves the first height of the query range from a height lookup
/// result: parses the looked-up block's RFC 3339 timestamp and applies the
/// start-boundary correction against the time-box start. Returns `None`
/// exactly where the timestamp string is not valid RFC 3339.
pub fn resolve_first_height(height: u64, resolved_timestamp: &str, target_epoch: i64) -> (r: Option<
    u64,
>)
    requires
        height < u64::MAX,
    ensures
        r is Some <==> rfc3339_epoch_of(resolved_timestamp@) is Some,
        rfc3339_epoch_of(resolved_timestamp@) matches Some(e) ==> r->0 as int
            == corrected_height_spec(height as int, e, target_epoch as int),
{
    match parse_rfc3339_epoch(resolved_timestamp) {
        Some(resolved_epoch) => Some(corrected_start_height(height, resolved_epoch, target_epoch)),
        None => None,
    }
}

} // verus!
