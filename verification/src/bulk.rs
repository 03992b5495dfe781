//! Disabled-feature detection on a bulk-query response body.
//!
//! The bulk endpoint may answer with a plain-text notice instead of JSON
//! when bulk queries are turned off. The notice is recognised by one known
//! marker substring; a body containing it anywhere must short-circuit to
//! the clean-stop path and never reach the JSON parser.

use vstd::prelude::*;
use vstd::string::*;

verus! {

/// `pat` occurs in `body` starting at index `i`.
pub open spec fn contains_at(body: Seq<u8>, pat: Seq<u8>, i: int) -> bool {
    0 <= i && i + pat.len() <= body.len() && body.subrange(i, i + pat.len()) == pat
}

/// `pat` occurs somewhere in `body`.
pub open spec fn contains_pat(body: Seq<u8>, pat: Seq<u8>) -> bool {
    exists|i: int| contains_at(body, pat, i)
}

/// Substring search: decides whether `pat` occurs anywhere in `body`.
pub fn contains_subslice(body: &[u8], pat: &[u8]) -> (r: bool)
    ensures
        r == contains_pat(body@, pat@),
{
    let n = body.len();
    let m = pat.len();
    if m == 0 {
        proof {
            assert(body@.subrange(0, 0) =~= pat@);
            assert(contains_at(body@, pat@, 0));
        }
        return true;
    }
    if m > n {
        proof {
            assert(forall|i: int| !contains_at(body@, pat@, i));
        }
        return false;
    }
    let mut i: usize = 0;
    while i <= n - m
        invariant
            0 < m <= n == body@.len(),
            m == pat@.len(),
            i <= n - m + 1,
            forall|k: int| 0 <= k < i ==> !contains_at(body@, pat@, k),
        decreases n - m + 1 - i,
    {
        let mut j: usize = 0;
        let mut mismatch = false;
        while j < m
            invariant
                0 < m <= n == body@.len(),
                m == pat@.len(),
                i + m <= n,
                j <= m,
                !mismatch ==> forall|l: int| 0 <= l < j ==> body@[i + l] == pat@[l],
                mismatch ==> !contains_at(body@, pat@, i as int),
            decreases m - j,
        {
            if body[i + j] != pat[j] {
                proof {
                    if contains_at(body@, pat@, i as int) {
                        assert(body@.subrange(i as int, i + pat@.len())[j as int] == pat@[j as int]);
                    }
                }
                mismatch = true;
                j = m;
            } else {
                j = j + 1;
            }
        }
        if !mismatch {
            proof {
                assert(body@.subrange(i as int, i + pat@.len()) =~= pat@);
                assert(contains_at(body@, pat@, i as int));
            }
            return true;
        }
        i = i + 1;
    }
    proof {
        assert(forall|k: int| i <= k ==> !contains_at(body@, pat@, k));
    }
    false
}

/// The marker substring by which the upstream service reports that bulk
/// block queries are disabled.
pub open spec fn disabled_marker() -> Seq<u8> {
    "config.MEMPOOL.MAX_BLOCKS_BULK_QUERY".spec_bytes()
}

/// A response body signals the disabled-feature condition exactly when it
/// contains the marker substring, regardless of surrounding content.
pub open spec fn body_disabled(body: Seq<u8>) -> bool {
    contains_pat(body, disabled_marker())
}

/// Decides the disabled-feature condition on a raw response body.
pub fn bulk_disabled(body: &[u8]) -> (r: bool)
    ensures
        r == body_disabled(body@),
{
    let marker: &str = "config.MEMPOOL.MAX_BLOCKS_BULK_QUERY";
    let mv = marker.as_bytes_vec();
    contains_subslice(body, mv.as_slice())
}

} // verus!
