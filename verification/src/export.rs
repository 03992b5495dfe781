//! The CSV block report.
//!
//! Each block is projected onto one row of five columns,
//! `height,timestamp,reward,fees,pool`, the timestamp rendered as a
//! human-readable UTC date-time. A field is quoted only where it contains
//! a delimiter, a quote, or a line break, with inner quotes doubled.

use vstd::prelude::*;
use vstd::string::*;

use crate::calendar::epoch_limit;
use vstd::utf8::is_ascii_chars;

use crate::render::{
    dec_int, dec_nat, digit_byte, four_digits, i64_to_dec, render_timestamp, timestamp_display,
    two_digits, u64_to_dec,
};

verus! {

/// The five fields of a block that the report projects out.
pub struct BlockSummary {
    pub height: i64,
    pub timestamp: i64,
    pub reward: i64,
    pub total_fee_amt: i64,
    pub pool_slug: Vec<u8>,
}

/// An epoch second the report can render.
pub open spec fn ts_in_range(t: int) -> bool {
    0 <= t < epoch_limit()
}

pub open spec fn block_ts_ok(b: BlockSummary) -> bool {
    ts_in_range(b.timestamp as int)
}

/// Bytes that force a CSV field into quotes: comma, quote, line feed,
/// carriage return.
pub open spec fn is_csv_special(b: u8) -> bool {
    b == 44 || b == 34 || b == 10 || b == 13
}

pub open spec fn needs_quoting(s: Seq<u8>) -> bool {
    exists|i: int| 0 <= i < s.len() && is_csv_special(s[i])
}

/// The field's bytes with every quote doubled.
pub open spec fn doubled_quotes(s: Seq<u8>) -> Seq<u8>
    decreases s.len(),
{
    if s.len() == 0 {
        s
    } else {
        doubled_quotes(s.drop_last()) + (if s.last() == 34 {
            seq![34u8, 34u8]
        } else {
            seq![s.last()]
        })
    }
}

/// A CSV field: quoted with inner quotes doubled where it holds a special
/// byte, the bare bytes otherwise.
pub open spec fn csv_field(s: Seq<u8>) -> Seq<u8> {
    if needs_quoting(s) {
        seq![34u8] + doubled_quotes(s) + seq![34u8]
    } else {
        s
    }
}

fn field_needs_quoting(s: &[u8]) -> (r: bool)
    ensures
        r == needs_quoting(s@),
{
    let mut i: usize = 0;
    while i < s.len()
        invariant
            i <= s@.len(),
            forall|k: int| 0 <= k < i ==> !is_csv_special(s@[k]),
        decreases s@.len() - i,
    {
        let b = s[i];
        if b == 44 || b == 34 || b == 10 || b == 13 {
            return true;
        }
        i = i + 1;
    }
    false
}

/// Renders one CSV field.
pub fn csv_field_x(s: &[u8]) -> (r: Vec<u8>)
    ensures
        r@ == csv_field(s@),
{
    if !field_needs_quoting(s) {
        let mut out: Vec<u8> = Vec::new();
        out.extend_from_slice(s);
        proof {
            assert(out@ =~= s@);
        }
        return out;
    }
    let mut out: Vec<u8> = Vec::new();
    out.push(34);
    let mut i: usize = 0;
    while i < s.len()
        invariant
            i <= s@.len(),
            out@ == seq![34u8] + doubled_quotes(s@.subrange(0, i as int)),
        decreases s@.len() - i,
    {
        let b = s[i];
        proof {
            assert(s@.subrange(0, i + 1).drop_last() =~= s@.subrange(0, i as int));
            assert(s@.subrange(0, i + 1).last() == s@[i as int]);
        }
        if b == 34 {
            out.push(34);
            out.push(34);
        } else {
            out.push(b);
        }
        proof {
            assert(out@ =~= seq![34u8] + doubled_quotes(s@.subrange(0, i + 1)));
        }
        i = i + 1;
    }
    out.push(34);
    proof {
        assert(s@.subrange(0, s@.len() as int) =~= s@);
        assert(out@ =~= csv_field(s@));
    }
    out
}

/// The header row, terminator included.
pub open spec fn header_row() -> Seq<u8> {
    "height,timestamp,reward,fees,pool".spec_bytes() + seq![10u8]
}

/// One data row, terminator included.
pub open spec fn csv_row(b: BlockSummary) -> Seq<u8> {
    dec_int(b.height as int) + seq![44u8] + timestamp_display(b.timestamp as int) + seq![44u8]
        + dec_int(b.reward as int) + seq![44u8] + dec_int(b.total_fee_amt as int) + seq![44u8]
        + csv_field(b.pool_slug@) + seq![10u8]
}

/// The data rows of a block sequence, in order.
pub open spec fn csv_rows(blocks: Seq<BlockSummary>) -> Seq<u8>
    decreases blocks.len(),
{
    if blocks.len() == 0 {
        Seq::empty()
    } else {
        csv_rows(blocks.drop_last()) + csv_row(blocks.last())
    }
}

/// The whole report: the header row followed by one row per block.
pub open spec fn csv_content(blocks: Seq<BlockSummary>) -> Seq<u8> {
    header_row() + csv_rows(blocks)
}

fn render_block_row(b: &BlockSummary) -> (r: Vec<u8>)
    requires
        block_ts_ok(*b),
    ensures
        r@ == csv_row(*b),
{
    let mut out = i64_to_dec(b.height);
    out.push(44);
    let ts = render_timestamp(b.timestamp);
    out.extend_from_slice(ts.as_slice());
    out.push(44);
    let reward = i64_to_dec(b.reward);
    out.extend_from_slice(reward.as_slice());
    out.push(44);
    let fees = i64_to_dec(b.total_fee_amt);
    out.extend_from_slice(fees.as_slice());
    out.push(44);
    let pool = csv_field_x(b.pool_slug.as_slice());
    out.extend_from_slice(pool.as_slice());
    out.push(10);
    proof {
        assert(out@ =~= csv_row(*b));
    }
    out
}

/// Renders the whole CSV report for a block sequence whose timestamps are
/// all in the renderable range.
pub fn render_csv(blocks: &Vec<BlockSummary>) -> (r: Vec<u8>)
    requires
        forall|i: int| 0 <= i < blocks@.len() ==> block_ts_ok(blocks@[i]),
    ensures
        r@ == csv_content(blocks@),
{
    let mut out: Vec<u8> = Vec::new();
    let header: &str = "height,timestamp,reward,fees,pool";
    let hv = header.as_bytes_vec();
    out.extend_from_slice(hv.as_slice());
    out.push(10);
    proof {
        assert(out@ =~= header_row());
        assert(blocks@.subrange(0, 0) =~= Seq::<BlockSummary>::empty());
    }
    let mut i: usize = 0;
    while i < blocks.len()
        invariant
            i <= blocks@.len(),
            forall|k: int| 0 <= k < blocks@.len() ==> block_ts_ok(blocks@[k]),
            out@ == header_row() + csv_rows(blocks@.subrange(0, i as int)),
        decreases blocks@.len() - i,
    {
        let row = render_block_row(&blocks[i]);
        out.extend_from_slice(row.as_slice());
        proof {
            assert(blocks@.subrange(0, i + 1).drop_last() =~= blocks@.subrange(0, i as int));
            assert(blocks@.subrange(0, i + 1).last() == blocks@[i as int]);
            assert(out@ =~= header_row() + csv_rows(blocks@.subrange(0, i + 1)));
        }
        i = i + 1;
    }
    proof {
        assert(blocks@.subrange(0, blocks@.len() as int) =~= blocks@);
    }
    out
}

/// Renders the report after checking every timestamp: returns `None`
/// exactly where some block's timestamp lies outside the renderable range,
/// and the exact report bytes otherwise.
pub fn render_csv_checked(blocks: &Vec<BlockSummary>) -> (r: Option<Vec<u8>>)
    ensures
        r is Some <==> forall|i: int| 0 <= i < blocks@.len() ==> block_ts_ok(blocks@[i]),
        r matches Some(v) ==> v@ == csv_content(blocks@),
{
    let limit = crate::calendar::month_start_epoch(10000, 1);
    let mut i: usize = 0;
    while i < blocks.len()
        invariant
            i <= blocks@.len(),
            limit == epoch_limit(),
            forall|k: int| 0 <= k < i ==> block_ts_ok(blocks@[k]),
        decreases blocks@.len() - i,
    {
        let t = blocks[i].timestamp;
        if t < 0 || t >= limit {
            return None;
        }
        i = i + 1;
    }
    Some(render_csv(blocks))
}

/// The output filename, `block_report_from_{start}_to_{end}.csv`, for the
/// resolved inclusive height bounds.
pub open spec fn report_filename_spec(start: int, end: int) -> Seq<u8> {
    "block_report_from_".spec_bytes() + dec_nat(start) + "_to_".spec_bytes() + dec_nat(end)
        + ".csv".spec_bytes()
}

/// Builds the output filename for the resolved height bounds.
pub fn report_filename(start: u64, end: u64) -> (r: Vec<u8>)
    ensures
        r@ == report_filename_spec(start as int, end as int),
{
    let mut out: Vec<u8> = Vec::new();
    let head: &str = "block_report_from_";
    let hv = head.as_bytes_vec();
    out.extend_from_slice(hv.as_slice());
    let sv = u64_to_dec(start);
    out.extend_from_slice(sv.as_slice());
    let mid: &str = "_to_";
    let mv = mid.as_bytes_vec();
    out.extend_from_slice(mv.as_slice());
    let ev = u64_to_dec(end);
    out.extend_from_slice(ev.as_slice());
    let tail: &str = ".csv";
    let tv = tail.as_bytes_vec();
    out.extend_from_slice(tv.as_slice());
    proof {
        assert(out@ =~= report_filename_spec(start as int, end as int));
    }
    out
}

/// The number of occurrences of byte `x` in `s`.
pub open spec fn count_byte(s: Seq<u8>, x: u8) -> int
    decreases s.len(),
{
    if s.len() == 0 {
        0
    } else {
        count_byte(s.drop_last(), x) + if s.last() == x {
            1int
        } else {
            0
        }
    }
}

pub proof fn lemma_count_concat(a: Seq<u8>, b: Seq<u8>, x: u8)
    ensures
        count_byte(a + b, x) == count_byte(a, x) + count_byte(b, x),
    decreases b.len(),
{
    if b.len() == 0 {
        assert(a + b =~= a);
    } else {
        assert((a + b).drop_last() =~= a + b.drop_last());
        assert((a + b).last() == b.last());
        lemma_count_concat(a, b.drop_last(), x);
    }
}

pub proof fn lemma_count_zero(s: Seq<u8>, x: u8)
    requires
        forall|i: int| 0 <= i < s.len() ==> s[i] != x,
    ensures
        count_byte(s, x) == 0,
    decreases s.len(),
{
    if s.len() > 0 {
        lemma_count_zero(s.drop_last(), x);
    }
}

proof fn lemma_dec_nat_no_newline(n: int)
    requires
        0 <= n,
    ensures
        count_byte(dec_nat(n), 10) == 0,
    decreases n,
{
    if n < 10 {
        lemma_count_zero(dec_nat(n), 10);
    } else {
        lemma_dec_nat_no_newline(n / 10);
        lemma_count_zero(seq![digit_byte(n % 10)], 10);
        lemma_count_concat(dec_nat(n / 10), seq![digit_byte(n % 10)], 10);
    }
}

proof fn lemma_dec_int_no_newline(n: int)
    ensures
        count_byte(dec_int(n), 10) == 0,
{
    if n < 0 {
        lemma_dec_nat_no_newline(-n);
        lemma_count_zero(seq![45u8], 10);
        lemma_count_concat(seq![45u8], dec_nat(-n), 10);
    } else {
        lemma_dec_nat_no_newline(n);
    }
}

proof fn lemma_two_digits_no_newline(n: int)
    requires
        0 <= n < 100,
    ensures
        count_byte(two_digits(n), 10) == 0,
{
    lemma_count_zero(two_digits(n), 10);
}

/// The rendered timestamp of an in-range instant contains no line break.
proof fn lemma_timestamp_no_newline(t: int)
    requires
        ts_in_range(t),
    ensures
        count_byte(timestamp_display(t), 10) == 0,
{
    crate::calendar::lemma_epoch_components_in_range(t);
    let a1 = four_digits(crate::calendar::epoch_year(t));
    let a2 = a1 + seq![45u8];
    let a3 = a2 + two_digits(crate::calendar::epoch_month(t));
    let a4 = a3 + seq![45u8];
    let a5 = a4 + two_digits(crate::calendar::epoch_dom(t));
    let a6 = a5 + seq![32u8];
    let a7 = a6 + two_digits(crate::calendar::epoch_hour(t));
    let a8 = a7 + seq![58u8];
    let a9 = a8 + two_digits(crate::calendar::epoch_minute(t));
    let a10 = a9 + seq![58u8];
    let a11 = a10 + two_digits(crate::calendar::epoch_second(t));
    lemma_count_zero(a1, 10);
    lemma_count_zero(seq![45u8], 10);
    lemma_count_zero(seq![32u8], 10);
    lemma_count_zero(seq![58u8], 10);
    lemma_count_zero(seq![32u8, 85u8, 84u8, 67u8], 10);
    lemma_two_digits_no_newline(crate::calendar::epoch_month(t));
    lemma_two_digits_no_newline(crate::calendar::epoch_dom(t));
    lemma_two_digits_no_newline(crate::calendar::epoch_hour(t));
    lemma_two_digits_no_newline(crate::calendar::epoch_minute(t));
    lemma_two_digits_no_newline(crate::calendar::epoch_second(t));
    lemma_count_concat(a1, seq![45u8], 10);
    lemma_count_concat(a2, two_digits(crate::calendar::epoch_month(t)), 10);
    lemma_count_concat(a3, seq![45u8], 10);
    lemma_count_concat(a4, two_digits(crate::calendar::epoch_dom(t)), 10);
    lemma_count_concat(a5, seq![32u8], 10);
    lemma_count_concat(a6, two_digits(crate::calendar::epoch_hour(t)), 10);
    lemma_count_concat(a7, seq![58u8], 10);
    lemma_count_concat(a8, two_digits(crate::calendar::epoch_minute(t)), 10);
    lemma_count_concat(a9, seq![58u8], 10);
    lemma_count_concat(a10, two_digits(crate::calendar::epoch_second(t)), 10);
    lemma_count_concat(a11, seq![32u8, 85u8, 84u8, 67u8], 10);
}

/// Doubling quotes neither adds nor removes any other byte.
proof fn lemma_doubled_quotes_count(s: Seq<u8>, x: u8)
    requires
        x != 34,
    ensures
        count_byte(doubled_quotes(s), x) == count_byte(s, x),
    decreases s.len(),
{
    if s.len() > 0 {
        lemma_doubled_quotes_count(s.drop_last(), x);
        if s.last() == 34 {
            lemma_count_zero(seq![34u8, 34u8], x);
            lemma_count_concat(doubled_quotes(s.drop_last()), seq![34u8, 34u8], x);
        } else {
            lemma_count_concat(doubled_quotes(s.drop_last()), seq![s.last()], x);
            assert(count_byte(seq![s.last()], x) == if s.last() == x {
                1int
            } else {
                0
            }) by {
                reveal_with_fuel(count_byte, 3);
            }
        }
    }
}

/// A field without line breaks still has none after CSV quoting.
proof fn lemma_csv_field_no_newline(s: Seq<u8>)
    requires
        count_byte(s, 10) == 0,
    ensures
        count_byte(csv_field(s), 10) == 0,
{
    if needs_quoting(s) {
        lemma_doubled_quotes_count(s, 10);
        lemma_count_zero(seq![34u8], 10);
        lemma_count_concat(seq![34u8], doubled_quotes(s), 10);
        lemma_count_concat(seq![34u8] + doubled_quotes(s), seq![34u8], 10);
    }
}

/// A data row of a block whose pool name has no line break holds exactly
/// one line break: its terminator.
proof fn lemma_row_line_count(b: BlockSummary)
    requires
        block_ts_ok(b),
        count_byte(b.pool_slug@, 10) == 0,
    ensures
        count_byte(csv_row(b), 10) == 1,
{
    let c1 = dec_int(b.height as int);
    let c2 = c1 + seq![44u8];
    let c3 = c2 + timestamp_display(b.timestamp as int);
    let c4 = c3 + seq![44u8];
    let c5 = c4 + dec_int(b.reward as int);
    let c6 = c5 + seq![44u8];
    let c7 = c6 + dec_int(b.total_fee_amt as int);
    let c8 = c7 + seq![44u8];
    let c9 = c8 + csv_field(b.pool_slug@);
    lemma_dec_int_no_newline(b.height as int);
    lemma_dec_int_no_newline(b.reward as int);
    lemma_dec_int_no_newline(b.total_fee_amt as int);
    lemma_timestamp_no_newline(b.timestamp as int);
    lemma_csv_field_no_newline(b.pool_slug@);
    lemma_count_zero(seq![44u8], 10);
    assert(count_byte(seq![10u8], 10) == 1) by {
        reveal_with_fuel(count_byte, 3);
    }
    lemma_count_concat(c1, seq![44u8], 10);
    lemma_count_concat(c2, timestamp_display(b.timestamp as int), 10);
    lemma_count_concat(c3, seq![44u8], 10);
    lemma_count_concat(c4, dec_int(b.reward as int), 10);
    lemma_count_concat(c5, seq![44u8], 10);
    lemma_count_concat(c6, dec_int(b.total_fee_amt as int), 10);
    lemma_count_concat(c7, seq![44u8], 10);
    lemma_count_concat(c8, csv_field(b.pool_slug@), 10);
    lemma_count_concat(c9, seq![10u8], 10);
}

proof fn lemma_rows_line_count(blocks: Seq<BlockSummary>)
    requires
        forall|i: int| 0 <= i < blocks.len() ==> block_ts_ok(#[trigger] blocks[i]),
        forall|i: int| 0 <= i < blocks.len() ==> count_byte(#[trigger] blocks[i].pool_slug@, 10)
            == 0,
    ensures
        count_byte(csv_rows(blocks), 10) == blocks.len(),
    decreases blocks.len(),
{
    if blocks.len() > 0 {
        lemma_rows_line_count(blocks.drop_last());
        lemma_row_line_count(blocks.last());
        lemma_count_concat(csv_rows(blocks.drop_last()), csv_row(blocks.last()), 10);
    }
}

proof fn lemma_header_line_count()
    ensures
        count_byte(header_row(), 10) == 1,
{
    let h = "height,timestamp,reward,fees,pool";
    reveal_strlit("height,timestamp,reward,fees,pool");
    assert(is_ascii_chars(h@));
    vstd::utf8::is_ascii_chars_encode_utf8(h@);
    assert(forall|i: int| 0 <= i < h.spec_bytes().len() ==> h.spec_bytes()[i] != 10);
    lemma_count_zero(h.spec_bytes(), 10);
    assert(count_byte(seq![10u8], 10) == 1) by {
        reveal_with_fuel(count_byte, 3);
    }
    lemma_count_concat(h.spec_bytes(), seq![10u8], 10);
}

/// Line count of the report: for a sequence of N blocks whose pool names
/// hold no line break, the report holds exactly N + 1 line-feed-terminated
/// lines, the header and one row per block.
pub proof fn lemma_csv_line_count(blocks: Seq<BlockSummary>)
    requires
        forall|i: int| 0 <= i < blocks.len() ==> block_ts_ok(#[trigger] blocks[i]),
        forall|i: int| 0 <= i < blocks.len() ==> count_byte(#[trigger] blocks[i].pool_slug@, 10)
            == 0,
    ensures
        count_byte(csv_content(blocks), 10) == blocks.len() + 1,
{
    lemma_header_line_count();
    lemma_rows_line_count(blocks);
    lemma_count_concat(header_row(), csv_rows(blocks), 10);
}

/// Exporting the same block sequence twice yields byte-identical report
/// content: the rendering is a function of the blocks alone, so a repeated
/// export overwrites the file with the same bytes.
pub proof fn lemma_export_deterministic(b1: Seq<BlockSummary>, b2: Seq<BlockSummary>)
    requires
        b1 == b2,
    ensures
        csv_content(b1) == csv_content(b2),
{
}

} // verus!
