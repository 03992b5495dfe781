//! Rendering integers and instants as ASCII bytes.
//!
//! Decimal renderings carry no leading zeros; the timestamp rendering is
//! the human-readable UTC form `YYYY-MM-DD HH:MM:SS UTC`.

use vstd::prelude::*;

use crate::calendar::{
    civil_of_epoch, epoch_dom, epoch_hour, epoch_limit, epoch_minute, epoch_month, epoch_second,
    epoch_year,
};

verus! {

/// The ASCII digit for `n` (0 through 9).
pub open spec fn digit_byte(n: int) -> u8 {
    (48 + n) as u8
}

/// The decimal rendering of a non-negative integer, most significant digit
/// first, without leading zeros.
pub open spec fn dec_nat(n: int) -> Seq<u8>
    decreases n,
    when 0 <= n
{
    if n < 10 {
        seq![digit_byte(n)]
    } else {
        dec_nat(n / 10) + seq![digit_byte(n % 10)]
    }
}

/// The decimal rendering of an integer: a minus sign before the magnitude
/// for negative values.
pub open spec fn dec_int(n: int) -> Seq<u8> {
    if n < 0 {
        seq![45u8] + dec_nat(-n)
    } else {
        dec_nat(n)
    }
}

pub fn u64_to_dec(n: u64) -> (r: Vec<u8>)
    ensures
        r@ == dec_nat(n as int),
{
    let mut out: Vec<u8> = Vec::new();
    let mut x: u64 = n;
    while x >= 10
        invariant
            dec_nat(n as int) == dec_nat(x as int) + out@,
        decreases x,
    {
        let d: u8 = (x % 10) as u8 + 48;
        proof {
            assert(dec_nat(x as int) + out@ =~= dec_nat(x as int / 10) + (seq![d] + out@));
            assert(out@.insert(0, d) =~= seq![d] + out@);
        }
        out.insert(0, d);
        x = x / 10;
    }
    let d: u8 = x as u8 + 48;
    proof {
        assert(dec_nat(x as int) + out@ =~= seq![d] + out@);
        assert(out@.insert(0, d) =~= seq![d] + out@);
    }
    out.insert(0, d);
    out
}

pub fn i64_to_dec(n: i64) -> (r: Vec<u8>)
    ensures
        r@ == dec_int(n as int),
{
    if n >= 0 {
        u64_to_dec(n as u64)
    } else {
        let mag: u64 = ((-(n + 1)) as u64) + 1;
        proof {
            assert(mag as int == -(n as int));
        }
        let mut out = u64_to_dec(mag);
        proof {
            assert(out@.insert(0, 45u8) =~= seq![45u8] + dec_nat(mag as int));
        }
        out.insert(0, 45);
        out
    }
}

/// Two-digit zero-padded decimal rendering (for values below 100).
pub open spec fn two_digits(n: int) -> Seq<u8> {
    seq![digit_byte(n / 10), digit_byte(n % 10)]
}

/// Four-digit zero-padded decimal rendering (for values below 10000).
pub open spec fn four_digits(n: int) -> Seq<u8> {
    seq![digit_byte(n / 1000), digit_byte((n / 100) % 10), digit_byte((n / 10) % 10), digit_byte(n % 10)]
}

/// The human-readable UTC rendering of an epoch instant:
/// `YYYY-MM-DD HH:MM:SS UTC`.
pub open spec fn timestamp_display(t: int) -> Seq<u8> {
    four_digits(epoch_year(t)) + seq![45u8] + two_digits(epoch_month(t)) + seq![45u8] + two_digits(
        epoch_dom(t),
    ) + seq![32u8] + two_digits(epoch_hour(t)) + seq![58u8] + two_digits(epoch_minute(t))
        + seq![58u8] + two_digits(epoch_second(t)) + seq![32u8, 85u8, 84u8, 67u8]
}

fn push_two(out: &mut Vec<u8>, n: u32)
    requires
        n < 100,
    ensures
        final(out)@ == old(out)@ + two_digits(n as int),
{
    out.push((n / 10) as u8 + 48);
    out.push((n % 10) as u8 + 48);
    proof {
        assert(out@ =~= old(out)@ + two_digits(n as int));
    }
}

fn push_four(out: &mut Vec<u8>, n: u32)
    requires
        n < 10000,
    ensures
        final(out)@ == old(out)@ + four_digits(n as int),
{
    out.push((n / 1000) as u8 + 48);
    out.push(((n / 100) % 10) as u8 + 48);
    out.push(((n / 10) % 10) as u8 + 48);
    out.push((n % 10) as u8 + 48);
    proof {
        assert(out@ =~= old(out)@ + four_digits(n as int));
    }
}

/// Renders an epoch instant in the form `YYYY-MM-DD HH:MM:SS UTC`.
pub fn render_timestamp(t: i64) -> (r: Vec<u8>)
    requires
        0 <= t < epoch_limit(),
    ensures
        r@ == timestamp_display(t as int),
{
    let c = civil_of_epoch(t);
    let mut out: Vec<u8> = Vec::new();
    push_four(&mut out, c.year as u32);
    out.push(45);
    push_two(&mut out, c.month);
    out.push(45);
    push_two(&mut out, c.day);
    out.push(32);
    push_two(&mut out, c.hour);
    out.push(58);
    push_two(&mut out, c.minute);
    out.push(58);
    push_two(&mut out, c.second);
    out.push(32);
    out.push(85);
    out.push(84);
    out.push(67);
    proof {
        assert(out@ =~= timestamp_display(t as int));
    }
    out
}

} // verus!
