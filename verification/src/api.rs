//! The request paths of the two explorer endpoints.
//!
//! The host part of a URL is configuration; the paths below are what the
//! library asks of the service: a block lookup by timestamp, and a bulk
//! block query over an inclusive height range.

use vstd::prelude::*;
use vstd::string::*;

use crate::render::{dec_int, dec_nat, i64_to_dec, u64_to_dec};

verus! {

/// The path of the block-by-timestamp lookup for a target epoch second.
pub open spec fn timestamp_lookup_path_spec(ts: int) -> Seq<u8> {
    "/api/v1/mining/blocks/timestamp/".spec_bytes() + dec_int(ts)
}

/// Builds the block-by-timestamp lookup path.
pub fn timestamp_lookup_path(ts: i64) -> (r: Vec<u8>)
    ensures
        r@ == timestamp_lookup_path_spec(ts as int),
{
    let mut out: Vec<u8> = Vec::new();
    let head: &str = "/api/v1/mining/blocks/timestamp/";
    let hv = head.as_bytes_vec();
    out.extend_from_slice(hv.as_slice());
    let tv = i64_to_dec(ts);
    out.extend_from_slice(tv.as_slice());
    proof {
        assert(out@ =~= timestamp_lookup_path_spec(ts as int));
    }
    out
}

/// The path of the bulk block query for an inclusive height range.
pub open spec fn bulk_query_path_spec(start: int, end: int) -> Seq<u8> {
    "/api/v1/blocks-bulk/".spec_bytes() + dec_nat(start) + seq![47u8] + dec_nat(end)
}

/// Builds the bulk block query path.
pub fn bulk_query_path(start: u64, end: u64) -> (r: Vec<u8>)
    ensures
        r@ == bulk_query_path_spec(start as int, end as int),
{
    let mut out: Vec<u8> = Vec::new();
    let head: &str = "/api/v1/blocks-bulk/";
    let hv = head.as_bytes_vec();
    out.extend_from_slice(hv.as_slice());
    let sv = u64_to_dec(start);
    out.extend_from_slice(sv.as_slice());
    out.push(47);
    let ev = u64_to_dec(end);
    out.extend_from_slice(ev.as_slice());
    proof {
        assert(out@ =~= bulk_query_path_spec(start as int, end as int));
    }
    out
}

} // verus!
