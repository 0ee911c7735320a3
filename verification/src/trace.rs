//! Trace matrices: rectangular tables of field elements, one row per event,
//! padded with zero rows to a power-of-two height.

use vstd::prelude::*;
use crate::bytes::{push_u64_le, push_u64s_le, spec_u64_le, spec_u64s_le};
use crate::field::fe_valid;

verus! {

/// A row-major matrix of base-field elements.
pub struct Trace {
    pub rows: Vec<Vec<u64>>,
    pub width: usize,
}

pub open spec fn is_power_of_two(n: int) -> bool
    decreases n,
{
    if n <= 0 {
        false
    } else if n == 1 {
        true
    } else {
        n % 2 == 0 && is_power_of_two(n / 2)
    }
}

/// A well-formed trace: a fixed positive width, a power-of-two height, and
/// every cell a canonical field element.
pub open spec fn trace_wf(t: Trace) -> bool {
    &&& t.width >= 1
    &&& is_power_of_two(t.rows@.len() as int)
    &&& forall|i: int| 0 <= i < t.rows@.len() ==> (#[trigger] t.rows@[i])@.len() == t.width
    &&& forall|i: int, j: int|
        0 <= i < t.rows@.len() && 0 <= j < t.rows@[i]@.len() ==> fe_valid(
            #[trigger] t.rows@[i]@[j],
        )
}

pub open spec fn spec_zero_row(width: int) -> Seq<u64> {
    Seq::new(width as nat, |j: int| 0u64)
}

/// The height of a trace.
impl Trace {
    pub fn height(&self) -> (r: usize)
        ensures
            r == self.rows@.len(),
    {
        self.rows.len()
    }
}

/// The smallest power of two at or above `n`, and at least one.
pub open spec fn spec_npo2(n: int) -> int
    decreases n,
{
    if n <= 1 {
        1
    } else {
        2 * spec_npo2((n + 1) / 2)
    }
}

pub proof fn lemma_npo2_props(n: int)
    ensures
        is_power_of_two(spec_npo2(n)),
        spec_npo2(n) >= 1,
        spec_npo2(n) >= n,
        n >= 1 ==> spec_npo2(n) < 2 * n,
        n <= 0 ==> spec_npo2(n) == 1,
    decreases n,
{
    if n >= 2 {
        let m = (n + 1) / 2;
        lemma_npo2_props(m);
        let p = spec_npo2(m);
        let r = 2 * p;
        assert(is_power_of_two(r)) by {
            assert(r >= 2 && r % 2 == 0 && r / 2 == p);
        }
        assert(r >= n);
        if n % 2 == 1 {
            if p >= 2 {
                assert(p % 2 == 0);
                assert(p != n);
            }
            assert(p <= n - 1 || p == 1);
        }
        assert(r < 2 * n);
    }
}

/// One power of two never sits strictly between another and its double.
proof fn lemma_pow2_gap(a: int, b: int)
    requires
        is_power_of_two(a),
        is_power_of_two(b),
        a < b,
    ensures
        2 * a <= b,
    decreases a,
{
    if a >= 2 {
        lemma_pow2_gap(a / 2, b / 2);
    }
}

/// The interval properties pin the padded height uniquely.
pub proof fn lemma_npo2_unique(n: int, r: int)
    requires
        is_power_of_two(r),
        r >= n,
        r >= 1,
        n >= 1 ==> r < 2 * n,
        n <= 0 ==> r == 1,
    ensures
        r == spec_npo2(n),
{
    lemma_npo2_props(n);
    let s = spec_npo2(n);
    if n >= 1 {
        if r < s {
            lemma_pow2_gap(r, s);
        } else if s < r {
            lemma_pow2_gap(s, r);
        }
    }
}

pub fn next_power_of_two(n: usize) -> (r: usize)
    requires
        n <= 0x40000000,
    ensures
        is_power_of_two(r as int),
        r >= n,
        r >= 1,
        n >= 1 ==> r < 2 * n,
        n == 0 ==> r == 1,
        r == spec_npo2(n as int),
{
    let mut p: usize = 1;
    while p < n
        invariant
            is_power_of_two(p as int),
            1 <= p,
            n <= 0x40000000,
            n >= 1 ==> p < 2 * n,
            n == 0 ==> p == 1,
        decreases 2 * n - p,
    {
        p = p * 2;
    }
    proof {
        lemma_npo2_unique(n as int, p as int);
    }
    p
}

/// Appends zero rows of the given width until the row count is a power of
/// two (and at least one).
pub fn pad_to_power_of_two(rows: &mut Vec<Vec<u64>>, width: usize)
    requires
        old(rows)@.len() <= 0x40000000,
    ensures
        is_power_of_two(final(rows)@.len() as int),
        final(rows)@.len() >= old(rows)@.len(),
        final(rows)@.len() >= 1,
        final(rows)@.len() <= 2 * old(rows)@.len() + 1,
        final(rows)@.len() == spec_npo2(old(rows)@.len() as int),
        final(rows)@.take(old(rows)@.len() as int) == old(rows)@,
        forall|i: int|
            old(rows)@.len() <= i < final(rows)@.len() ==> (#[trigger] final(rows)@[i])@
                == spec_zero_row(width as int),
{
    let target = next_power_of_two(rows.len());
    while rows.len() < target
        invariant
            target == spec_npo2(old(rows)@.len() as int),
            target <= 2 * old(rows)@.len() + 1,
            old(rows)@.len() <= rows@.len() <= target,
            rows@.take(old(rows)@.len() as int) == old(rows)@,
            forall|i: int|
                old(rows)@.len() <= i < rows@.len() ==> (#[trigger] rows@[i])@ == spec_zero_row(
                    width as int,
                ),
        decreases target - rows@.len(),
    {
        let mut z: Vec<u64> = Vec::new();
        let mut j: usize = 0;
        while j < width
            invariant
                j <= width,
                z@ =~= spec_zero_row(j as int),
            decreases width - j,
        {
            z.push(0u64);
            proof {
                assert(spec_zero_row(j + 1) =~= spec_zero_row(j as int).push(0u64));
            }
            j = j + 1;
        }
        rows.push(z);
        proof {
            assert(rows@.take(old(rows)@.len() as int) =~= old(rows)@);
        }
    }
    proof {
        assert(rows@.take(old(rows)@.len() as int) =~= old(rows)@);
    }
}

/// The byte serialization of a sequence of rows.
pub open spec fn spec_rows_bytes(rows: Seq<Seq<u64>>) -> Seq<u8>
    decreases rows.len(),
{
    if rows.len() == 0 {
        Seq::empty()
    } else {
        spec_rows_bytes(rows.drop_last()) + spec_u64s_le(rows.last())
    }
}

/// The byte serialization of a trace: its width, its height, then its rows.
pub open spec fn spec_trace_bytes(t: Trace) -> Seq<u8> {
    spec_u64_le(t.width as u64) + spec_u64_le(t.rows@.len() as u64) + spec_rows_bytes(
        t.rows@.map_values(|r: Vec<u64>| r@),
    )
}

/// The serialization of a trace, phrased over its width and row contents.
pub open spec fn spec_trace_bytes_rows(w: int, rows: Seq<Seq<u64>>) -> Seq<u8> {
    spec_u64_le(w as u64) + spec_u64_le(rows.len() as u64) + spec_rows_bytes(rows)
}

/// Appends the serialization of a trace to `out`.
pub fn push_trace_bytes(out: &mut Vec<u8>, t: &Trace)
    ensures
        final(out)@ == old(out)@ + spec_trace_bytes(*t),
{
    push_u64_le(out, t.width as u64);
    push_u64_le(out, t.rows.len() as u64);
    let ghost rows_view = t.rows@.map_values(|r: Vec<u64>| r@);
    let ghost base = out@;
    let mut i: usize = 0;
    while i < t.rows.len()
        invariant
            i <= t.rows@.len(),
            rows_view == t.rows@.map_values(|r: Vec<u64>| r@),
            out@ == base + spec_rows_bytes(rows_view.take(i as int)),
        decreases t.rows@.len() - i,
    {
        push_u64s_le(out, &t.rows[i]);
        proof {
            assert(rows_view.take(i + 1).drop_last() =~= rows_view.take(i as int));
            assert(rows_view.take(i + 1).last() == rows_view[i as int]);
        }
        i = i + 1;
    }
    proof {
        assert(rows_view.take(rows_view.len() as int) =~= rows_view);
        assert(final(out)@ =~= old(out)@ + spec_trace_bytes(*t));
    }
}

/// The byte serialization of a batch of traces, prefixed by their number.
pub open spec fn spec_batch_bytes_from(traces: Seq<Trace>) -> Seq<u8>
    decreases traces.len(),
{
    if traces.len() == 0 {
        Seq::empty()
    } else {
        spec_batch_bytes_from(traces.drop_last()) + spec_trace_bytes(traces.last())
    }
}

pub open spec fn spec_batch_bytes(traces: Seq<Trace>) -> Seq<u8> {
    spec_u64_le(traces.len() as u64) + spec_batch_bytes_from(traces)
}

/// Serializes a batch of traces.
pub fn batch_bytes(traces: &Vec<Trace>) -> (r: Vec<u8>)
    ensures
        r@ == spec_batch_bytes(traces@),
{
    let mut out: Vec<u8> = Vec::new();
    push_u64_le(&mut out, traces.len() as u64);
    let ghost base = out@;
    let mut i: usize = 0;
    while i < traces.len()
        invariant
            i <= traces@.len(),
            out@ == base + spec_batch_bytes_from(traces@.take(i as int)),
        decreases traces@.len() - i,
    {
        push_trace_bytes(&mut out, &traces[i]);
        proof {
            assert(traces@.take(i + 1).drop_last() =~= traces@.take(i as int));
            assert(traces@.take(i + 1).last() == traces@[i as int]);
        }
        i = i + 1;
    }
    proof {
        assert(traces@.take(traces@.len() as int) =~= traces@);
        assert(out@ =~= spec_batch_bytes(traces@));
    }
    out
}

/// The serialized length of rows of a uniform width.
pub proof fn lemma_rows_bytes_len(rows: Seq<Seq<u64>>, w: int)
    requires
        forall|i: int| 0 <= i < rows.len() ==> (#[trigger] rows[i]).len() == w,
    ensures
        spec_rows_bytes(rows).len() == 8 * w * rows.len(),
    decreases rows.len(),
{
    if rows.len() > 0 {
        lemma_rows_bytes_len(rows.drop_last(), w);
        crate::bytes::lemma_u64s_le_len(rows.last());
        assert(spec_rows_bytes(rows).len() == spec_rows_bytes(rows.drop_last()).len() + 8 * w);
        assert(8 * w * (rows.len() - 1) + 8 * w == 8 * w * rows.len()) by (nonlinear_arith);
    } else {
        assert(8 * w * 0 == 0) by (nonlinear_arith);
    }
}

/// The serialized length of one well-formed trace.
pub proof fn lemma_trace_bytes_len(t: Trace)
    requires
        trace_wf(t),
    ensures
        spec_trace_bytes(t).len() == 16 + 8 * t.width * t.rows@.len(),
{
    let rows = t.rows@.map_values(|r: Vec<u64>| r@);
    assert(forall|i: int| 0 <= i < rows.len() ==> (#[trigger] rows[i]).len() == t.width);
    lemma_rows_bytes_len(rows, t.width as int);
}

/// The total height of a batch of traces.
pub open spec fn spec_heights(traces: Seq<Trace>) -> int
    decreases traces.len(),
{
    if traces.len() == 0 {
        0
    } else {
        spec_heights(traces.drop_last()) + traces.last().rows@.len()
    }
}

/// The serialized length of a batch of traces whose widths are bounded.
pub proof fn lemma_batch_bytes_bound(traces: Seq<Trace>, w: int)
    requires
        w >= 1,
        forall|i: int|
            0 <= i < traces.len() ==> trace_wf(#[trigger] traces[i]) && traces[i].width <= w,
    ensures
        spec_heights(traces) >= 0,
        spec_batch_bytes(traces).len() <= 8 + 24 * traces.len() + 8 * w * spec_heights(traces),
    decreases traces.len(),
{
    if traces.len() == 0 {
        assert(8 * w * 0 == 0) by (nonlinear_arith);
    } else {
        lemma_batch_bytes_bound(traces.drop_last(), w);
        let last = traces.last();
        lemma_trace_bytes_len(last);
        let h = last.rows@.len() as int;
        assert(8 * last.width * h <= 8 * w * h) by (nonlinear_arith)
            requires
                1 <= last.width <= w,
                h >= 0,
        ;
        assert(8 * w * (spec_heights(traces.drop_last()) + h) == 8 * w * spec_heights(
            traces.drop_last(),
        ) + 8 * w * h) by (nonlinear_arith);
        assert(spec_batch_bytes(traces).len() == spec_batch_bytes(traces.drop_last()).len() + 16
            + 8 * last.width * h);
    }
}

} // verus!
