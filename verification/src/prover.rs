//! The prover: commits a chip's shard traces in one batch and produces its
//! segment proof against a transcript clone.

use vstd::prelude::*;
use crate::challenger::{
    challenger_wf, spec_observe_commitment, spec_sample_ext, DuplexChallenger,
};
use crate::chips::{
    cumulative_sum, generate_trace, record_sized, rows_view, shard_record,
    spec_chip_rows, spec_chip_width, spec_rows_sum, ChipKind,
};
use crate::digest::{digest_of, sha256};
use crate::field::{ext_add, ext_embed, ext_mul, ext_valid, ext_zero, spec_ext_add, spec_ext_embed, spec_ext_mul, spec_ext_zero, Ext4};
use crate::proofs::{
    opened_digest, opened_view, opening_digest, spec_exts_bytes, spec_opened_bytes,
    spec_opening_input, sums_digest, SegmentProof, ShardCommitment,
};
use crate::record::ExecutionRecord;
use crate::trace::{batch_bytes, spec_batch_bytes, trace_wf, Trace};

verus! {

/// The proving configuration: the largest number of events one committed
/// shard may hold.
pub struct StarkConfig {
    pub shard_size: usize,
}

pub open spec fn config_wf(c: StarkConfig) -> bool {
    c.shard_size >= 1
}

impl StarkConfig {
    pub fn new(shard_size: usize) -> (r: StarkConfig)
        requires
            shard_size >= 1,
        ensures
            r.shard_size == shard_size,
            config_wf(r),
    {
        StarkConfig { shard_size }
    }
}

/// The per-chip bundle produced by committing: the shard traces, their
/// batched commitment, and the shard count.
pub struct MainData {
    pub traces: Vec<Trace>,
    pub main_commit: Vec<u8>,
    pub n: usize,
}

/// What commitment a chip's shard traces are bound by.
pub open spec fn main_data_wf(md: MainData, chips: Seq<ChipKind>) -> bool {
    &&& md.n == chips.len()
    &&& chips.len() <= 0x100000
    &&& md.traces@.len() == chips.len()
    &&& md.main_commit@ == digest_of(spec_batch_bytes(md.traces@))
    &&& md.main_commit@.len() == 32
    &&& forall|i: int|
        0 <= i < md.traces@.len() ==> trace_wf(#[trigger] md.traces@[i]) && md.traces@[i].width
            == spec_chip_width(chips[i])
}

/// What committing one chip over a record guarantees: a batched digest
/// commitment over well-formed shard traces whose rows encode the chip's
/// event chunks in order.
#[verifier::opaque]
pub open spec fn spec_committed(md: MainData, k: ChipKind, r: ExecutionRecord, size: int) -> bool {
    &&& md.n == md.traces@.len()
    &&& md.n >= 1
    &&& md.n <= 0x100000
    &&& md.main_commit@ == digest_of(spec_batch_bytes(md.traces@))
    &&& md.main_commit@.len() == 32
    &&& forall|i: int|
        0 <= i < md.traces@.len() ==> trace_wf(#[trigger] md.traces@[i]) && md.traces@[i].width
            == spec_chip_width(k)
    &&& (crate::chips::spec_is_event_chip(k) ==> {
        let cs = crate::chips::spec_chunks(crate::chips::spec_chip_alu_events(r, k), size);
        &&& md.n == cs.len()
        &&& forall|i: int|
            0 <= i < cs.len() ==> {
                let t = #[trigger] md.traces@[i];
                &&& rows_view(t).len() >= cs[i].len()
                &&& rows_view(t).take(cs[i].len() as int) == Seq::new(
                    cs[i].len(),
                    |q: int| crate::chips::spec_alu_row(cs[i][q]),
                )
                &&& forall|p: int|
                    cs[i].len() <= p < rows_view(t).len() ==> #[trigger] rows_view(t)[p]
                        == crate::trace::spec_zero_row(10)
                &&& rows_view(t).len() == crate::trace::spec_npo2(cs[i].len() as int)
            }
    })
    &&& (!crate::chips::spec_is_event_chip(k) ==> {
        let rows = spec_chip_rows(r, k);
        let t = md.traces@[0];
        &&& md.n == 1
        &&& rows_view(t).len() >= rows.len()
        &&& rows_view(t).take(rows.len() as int) == rows
        &&& (forall|p: int|
            rows.len() <= p < rows_view(t).len() ==> #[trigger] rows_view(t)[p]
                == crate::trace::spec_zero_row(spec_chip_width(k)))
        &&& rows_view(t).len() == crate::trace::spec_npo2(rows.len() as int)
    })
}

/// Unpacks the commitment predicate into its parts.
pub proof fn lemma_committed_parts(md: MainData, k: ChipKind, r: ExecutionRecord, size: int)
    requires
        spec_committed(md, k, r, size),
    ensures
        md.n == md.traces@.len(),
        md.n >= 1,
        md.n <= 0x100000,
        md.main_commit@ == digest_of(spec_batch_bytes(md.traces@)),
        md.main_commit@.len() == 32,
        forall|i: int|
            0 <= i < md.traces@.len() ==> trace_wf(#[trigger] md.traces@[i]) && md.traces@[i].width
                == spec_chip_width(k),
        crate::chips::spec_is_event_chip(k) ==> {
            let cs = crate::chips::spec_chunks(crate::chips::spec_chip_alu_events(r, k), size);
            &&& md.n == cs.len()
            &&& forall|i: int|
                0 <= i < cs.len() ==> {
                    let t = #[trigger] md.traces@[i];
                    &&& rows_view(t).len() >= cs[i].len()
                    &&& rows_view(t).take(cs[i].len() as int) == Seq::new(
                        cs[i].len(),
                        |q: int| crate::chips::spec_alu_row(cs[i][q]),
                    )
                    &&& forall|p: int|
                        cs[i].len() <= p < rows_view(t).len() ==> #[trigger] rows_view(t)[p]
                            == crate::trace::spec_zero_row(10)
                    &&& rows_view(t).len() == crate::trace::spec_npo2(cs[i].len() as int)
                }
        },
        !crate::chips::spec_is_event_chip(k) ==> {
            let rows = spec_chip_rows(r, k);
            let t = md.traces@[0];
            &&& md.n == 1
            &&& rows_view(t).len() >= rows.len()
            &&& rows_view(t).take(rows.len() as int) == rows
            &&& (forall|p: int|
                rows.len() <= p < rows_view(t).len() ==> #[trigger] rows_view(t)[p]
                    == crate::trace::spec_zero_row(spec_chip_width(k)))
            &&& rows_view(t).len() == crate::trace::spec_npo2(rows.len() as int)
        },
{
    reveal(spec_committed);
}

/// The total unpadded row count a chip contributes over a list of shard
/// records.
pub open spec fn spec_rows_lens(shards: Seq<ExecutionRecord>, k: ChipKind) -> int
    decreases shards.len(),
{
    if shards.len() == 0 {
        0
    } else {
        spec_rows_lens(shards.drop_last(), k) + spec_chip_rows(shards.last(), k).len()
    }
}

proof fn lemma_rows_lens_take(shards: Seq<ExecutionRecord>, k: ChipKind, i: int)
    requires
        0 <= i < shards.len(),
    ensures
        spec_rows_lens(shards.take(i + 1), k) == spec_rows_lens(shards.take(i), k)
            + spec_chip_rows(shards[i], k).len(),
{
    assert(shards.take(i + 1).drop_last() =~= shards.take(i));
    assert(shards.take(i + 1).last() == shards[i]);
}

/// For an event chip, the shard rows total the chunk lengths.
proof fn lemma_rows_lens_chunks(
    shards: Seq<ExecutionRecord>,
    cs: Seq<Seq<crate::record::AluEvent>>,
    k: ChipKind,
)
    requires
        crate::chips::spec_is_event_chip(k),
        shards.len() == cs.len(),
        forall|q: int|
            0 <= q < cs.len() ==> crate::chips::spec_chip_alu_events(#[trigger] shards[q], k)
                == cs[q],
    ensures
        spec_rows_lens(shards, k) == crate::chips::spec_lens_sum(cs),
    decreases shards.len(),
{
    if shards.len() > 0 {
        lemma_rows_lens_chunks(shards.drop_last(), cs.drop_last(), k);
        assert(crate::chips::spec_chip_alu_events(shards.last(), k) == cs.last());
        assert(spec_chip_rows(shards.last(), k).len() == cs.last().len());
    }
}

/// The batch serialization of one chip's shard traces stays within the
/// digest primitive's input limit, for any record within the tracing
/// bounds.
#[verifier::rlimit(100)]
proof fn lemma_commit_batch_small(
    traces: Seq<Trace>,
    shards: Seq<ExecutionRecord>,
    k: ChipKind,
    record: ExecutionRecord,
    size: int,
)
    requires
        size >= 1,
        record_sized(record),
        traces.len() == shards.len(),
        crate::trace::spec_heights(traces) <= 2 * spec_rows_lens(shards, k) + traces.len(),
        forall|q: int|
            0 <= q < traces.len() ==> crate::trace::trace_wf(#[trigger] traces[q])
                && traces[q].width == spec_chip_width(k),
        crate::chips::spec_is_event_chip(k) ==> {
            let cs = crate::chips::spec_chunks(crate::chips::spec_chip_alu_events(record, k), size);
            &&& shards.len() == cs.len()
            &&& forall|q: int|
                0 <= q < cs.len() ==> crate::chips::spec_chip_alu_events(#[trigger] shards[q], k)
                    == cs[q]
        },
        !crate::chips::spec_is_event_chip(k) ==> shards.len() == 1 && spec_chip_rows(shards[0], k)
            == spec_chip_rows(record, k),
    ensures
        crate::trace::spec_batch_bytes(traces).len() < 0x1F000000,
{
    crate::chips::lemma_chip_width_bound(k);
    let w = spec_chip_width(k);
    crate::trace::lemma_batch_bytes_bound(traces, w);
    let h = crate::trace::spec_heights(traces);
    let n = traces.len() as int;
    let rl = spec_rows_lens(shards, k);
    assert(h >= 0);
    assert(crate::trace::spec_batch_bytes(traces).len() <= 8 + 24 * n + 8 * w * h);
    if crate::chips::spec_is_event_chip(k) {
        let events = crate::chips::spec_chip_alu_events(record, k);
        let cs = crate::chips::spec_chunks(events, size);
        crate::chips::lemma_chunks_count(events, size);
        crate::chips::lemma_chunks_lens_sum(events, size);
        lemma_rows_lens_chunks(shards, cs, k);
        assert(rl <= 0x100000);
        assert(n <= 0x100000);
        assert(h <= 0x300000);
        assert(w == 10);
        assert(8 * w * h <= 80 * 0x300000) by (nonlinear_arith)
            requires
                w == 10,
                0 <= h <= 0x300000,
        ;
    } else {
        assert(n == 1);
        assert(spec_rows_lens(Seq::<ExecutionRecord>::empty(), k) == 0);
        assert(shards.drop_last() =~= Seq::<ExecutionRecord>::empty());
        assert(shards.last() == shards[0]);
        assert(rl == spec_chip_rows(record, k).len());
        if k == ChipKind::Byte {
            assert(rl <= 0x800000);
            assert(h <= 0x1000001);
            assert(w == 2);
            assert(8 * w * h <= 16 * 0x1000001) by (nonlinear_arith)
                requires
                    w == 2,
                    0 <= h <= 0x1000001,
            ;
        } else if k == ChipKind::Program {
            assert(rl <= 0x100000);
            assert(h <= 0x200001);
            assert(w == 11);
            assert(8 * w * h <= 88 * 0x200001) by (nonlinear_arith)
                requires
                    w == 11,
                    0 <= h <= 0x200001,
            ;
        } else {
            assert(rl == 0);
            assert(h <= 1);
            assert(w == 1);
            assert(8 * w * h <= 8) by (nonlinear_arith)
                requires
                    w == 1,
                    0 <= h <= 1,
            ;
        }
    }
}

/// The transcript material of one chip's proof stays within the digest
/// primitive's input limit: the shard count and the per-shard opening
/// widths are bounded.
#[verifier::rlimit(100)]
pub proof fn lemma_digest_inputs_small(
    main_commit: Seq<u8>,
    gamma: Ext4,
    z: Ext4,
    opened: Seq<Seq<Ext4>>,
    sums: Seq<Ext4>,
    chips: Seq<ChipKind>,
)
    requires
        main_commit.len() == 32,
        chips.len() <= 0x100000,
        opened.len() == chips.len(),
        sums.len() == chips.len(),
        forall|i: int| 0 <= i < opened.len() ==> (#[trigger] opened[i]).len() == spec_chip_width(
            chips[i],
        ),
    ensures
        crate::proofs::spec_opening_input(main_commit, gamma, z, opened, sums).len()
            < 0x1F000000,
        crate::proofs::spec_exts_bytes(sums).len() < 0x1F000000,
        crate::proofs::spec_opened_bytes(opened).len() < 0x1F000000,
{
    let n = chips.len() as int;
    assert(crate::proofs::spec_ext_bytes(gamma).len() == 32);
    assert(crate::proofs::spec_ext_bytes(z).len() == 32);
    assert forall|i: int| 0 <= i < opened.len() implies (#[trigger] opened[i]).len() <= 11 by {
        crate::chips::lemma_chip_width_bound(chips[i]);
    }
    crate::proofs::lemma_opened_bytes_bound(opened, 11);
    crate::proofs::lemma_exts_bytes_len(sums);
    assert(n * (8 + 32 * 11) == 360 * n) by (nonlinear_arith);
    assert(360 * n <= 360 * 0x100000) by (nonlinear_arith)
        requires
            0 <= n <= 0x100000,
    ;
}

/// The serialized trace of one event-chip shard: the chunk's rows, padded
/// to the power-of-two height.
pub open spec fn spec_shard_trace_bytes(chunk: Seq<crate::record::AluEvent>, k: ChipKind) -> Seq<
    u8,
> {
    crate::trace::spec_trace_bytes_rows(
        spec_chip_width(k),
        crate::chips::spec_padded_rows(
            Seq::new(chunk.len(), |q: int| crate::chips::spec_alu_row(chunk[q])),
            spec_chip_width(k),
        ),
    )
}

pub open spec fn spec_shards_bytes(cs: Seq<Seq<crate::record::AluEvent>>, k: ChipKind) -> Seq<u8>
    decreases cs.len(),
{
    if cs.len() == 0 {
        Seq::empty()
    } else {
        spec_shards_bytes(cs.drop_last(), k) + spec_shard_trace_bytes(cs.last(), k)
    }
}

/// The serialized batch one chip commits over a record: the shard count,
/// then each shard's padded trace.
pub open spec fn spec_chip_batch_bytes(r: ExecutionRecord, k: ChipKind, size: int) -> Seq<u8> {
    if crate::chips::spec_is_event_chip(k) {
        let cs = crate::chips::spec_chunks(crate::chips::spec_chip_alu_events(r, k), size);
        crate::bytes::spec_u64_le(cs.len() as u64) + spec_shards_bytes(cs, k)
    } else {
        crate::bytes::spec_u64_le(1u64) + crate::trace::spec_trace_bytes_rows(
            spec_chip_width(k),
            crate::chips::spec_padded_rows(spec_chip_rows(r, k), spec_chip_width(k)),
        )
    }
}

/// The commitment one chip's batch is bound by, as a function of the record
/// alone.
pub open spec fn spec_chip_commit(r: ExecutionRecord, k: ChipKind, size: int) -> Seq<u8> {
    digest_of(spec_chip_batch_bytes(r, k, size))
}

proof fn lemma_traces_shards_prefix(
    traces: Seq<Trace>,
    cs: Seq<Seq<crate::record::AluEvent>>,
    k: ChipKind,
)
    requires
        traces.len() == cs.len(),
        forall|i: int|
            0 <= i < traces.len() ==> crate::chips::rows_view(#[trigger] traces[i])
                == crate::chips::spec_padded_rows(
                Seq::new(cs[i].len(), |q: int| crate::chips::spec_alu_row(cs[i][q])),
                spec_chip_width(k),
            ) && traces[i].width == spec_chip_width(k),
    ensures
        crate::trace::spec_batch_bytes_from(traces) == spec_shards_bytes(cs, k),
    decreases traces.len(),
{
    if traces.len() > 0 {
        lemma_traces_shards_prefix(traces.drop_last(), cs.drop_last(), k);
        crate::chips::lemma_trace_bytes_view(traces.last());
        assert(crate::trace::spec_trace_bytes(traces.last()) == spec_shard_trace_bytes(
            cs.last(),
            k,
        ));
    }
}

/// The committed batch digest is exactly the chip's commitment over the
/// record.
#[verifier::rlimit(100)]
pub proof fn lemma_committed_commit(md: MainData, k: ChipKind, r: ExecutionRecord, size: int)
    requires
        spec_committed(md, k, r, size),
    ensures
        md.main_commit@ == spec_chip_commit(r, k, size),
{
    lemma_committed_parts(md, k, r, size);
    let w = spec_chip_width(k);
    if crate::chips::spec_is_event_chip(k) {
        let cs = crate::chips::spec_chunks(crate::chips::spec_chip_alu_events(r, k), size);
        assert forall|i: int|
            0 <= i < md.traces@.len() implies crate::chips::rows_view(#[trigger] md.traces@[i])
            == crate::chips::spec_padded_rows(
            Seq::new(cs[i].len(), |q: int| crate::chips::spec_alu_row(cs[i][q])),
            w,
        ) && md.traces@[i].width == w by {
            assert(w == 10);
            crate::chips::lemma_rows_view_padded(
                md.traces@[i],
                Seq::new(cs[i].len(), |q: int| crate::chips::spec_alu_row(cs[i][q])),
                w,
            );
        }
        lemma_traces_shards_prefix(md.traces@, cs, k);
        assert(crate::trace::spec_batch_bytes(md.traces@) =~= spec_chip_batch_bytes(r, k, size));
    } else {
        let rows = spec_chip_rows(r, k);
        crate::chips::lemma_rows_view_padded(md.traces@[0], rows, w);
        crate::chips::lemma_trace_bytes_view(md.traces@[0]);
        assert(md.traces@.drop_last() =~= Seq::<Trace>::empty());
        assert(md.traces@.last() == md.traces@[0]);
        assert(crate::trace::spec_batch_bytes_from(Seq::<Trace>::empty())
            == Seq::<u8>::empty());
        assert(crate::trace::spec_batch_bytes_from(md.traces@)
            == crate::trace::spec_batch_bytes_from(md.traces@.drop_last())
            + crate::trace::spec_trace_bytes(md.traces@.last()));
        assert(crate::trace::spec_batch_bytes_from(md.traces@) =~= crate::trace::spec_trace_bytes(
            md.traces@[0],
        ));
        assert(crate::trace::spec_batch_bytes(md.traces@) =~= spec_chip_batch_bytes(r, k, size));
    }
}

/// The opening of one trace column at a challenge point: the column cells
/// folded by repeated multiply-and-add.
pub open spec fn spec_col_eval(rows: Seq<Seq<u64>>, j: int, z: Ext4) -> Ext4
    decreases rows.len(),
{
    if rows.len() == 0 {
        spec_ext_zero()
    } else {
        spec_ext_mul(
            spec_ext_add(spec_col_eval(rows.drop_last(), j, z), spec_ext_embed(rows.last()[j])),
            z,
        )
    }
}

/// Opens every column of a trace at the challenge point.
fn col_evals(t: &Trace, z: Ext4) -> (r: Vec<Ext4>)
    requires
        trace_wf(*t),
        ext_valid(z),
    ensures
        r@.len() == t.width,
        forall|j: int| 0 <= j < r@.len() ==> #[trigger] r@[j] == spec_col_eval(rows_view(*t), j, z),
{
    let mut out: Vec<Ext4> = Vec::new();
    let mut j: usize = 0;
    while j < t.width
        invariant
            j <= t.width,
            trace_wf(*t),
            ext_valid(z),
            out@.len() == j,
            forall|jj: int|
                0 <= jj < j ==> #[trigger] out@[jj] == spec_col_eval(rows_view(*t), jj, z),
        decreases t.width - j,
    {
        let mut acc = ext_zero();
        let mut i: usize = 0;
        while i < t.rows.len()
            invariant
                i <= t.rows@.len(),
                j < t.width,
                trace_wf(*t),
                ext_valid(z),
                acc == spec_col_eval(rows_view(*t).take(i as int), j as int, z),
                ext_valid(acc),
            decreases t.rows@.len() - i,
        {
            proof {
                assert(rows_view(*t)[i as int] == t.rows@[i as int]@);
                assert(crate::field::fe_valid(t.rows@[i as int]@[j as int]));
                assert(rows_view(*t).take(i + 1).drop_last() =~= rows_view(*t).take(i as int));
                assert(rows_view(*t).take(i + 1).last() == rows_view(*t)[i as int]);
            }
            acc = ext_mul(ext_add(acc, ext_embed(t.rows[i][j])), z);
            i = i + 1;
        }
        proof {
            assert(rows_view(*t).take(rows_view(*t).len() as int) =~= rows_view(*t));
        }
        out.push(acc);
        j = j + 1;
    }
    out
}

/// What one chip's produced segment proof guarantees, relative to the
/// transcript state its sub-protocol was cloned from: the proof's counts,
/// sums, openings and digests are exactly what the protocol prescribes for
/// the committed traces.
#[verifier::opaque]
pub open spec fn spec_proved(
    r: SegmentProof,
    chips: Seq<ChipKind>,
    main_data: MainData,
    ch: crate::challenger::ChallengerModel,
) -> bool {
    let (gamma, c1) = spec_sample_ext(ch);
    let c2 = spec_observe_commitment(c1, main_data.main_commit@);
    let (z, c3) = spec_sample_ext(c2);
    &&& r.n == chips.len()
    &&& r.commitment.main_commit@ == main_data.main_commit@
    &&& r.commitment.main_commit@.len() == 32
    &&& r.cumulative_sums@.len() == chips.len()
    &&& forall|i: int|
        0 <= i < chips.len() ==> #[trigger] r.cumulative_sums@[i] == spec_rows_sum(
            chips[i],
            rows_view(main_data.traces@[i]),
            gamma,
        )
    &&& forall|i: int|
        0 <= i < r.cumulative_sums@.len() ==> ext_valid(#[trigger] r.cumulative_sums@[i])
    &&& r.opened_values@.len() == chips.len()
    &&& forall|i: int|
        0 <= i < chips.len() ==> (#[trigger] r.opened_values@[i])@.len() == spec_chip_width(
            chips[i],
        )
    &&& forall|i: int, j: int|
        0 <= i < chips.len() && 0 <= j < r.opened_values@[i]@.len()
            ==> #[trigger] r.opened_values@[i]@[j] == spec_col_eval(
            rows_view(main_data.traces@[i]),
            j,
            z,
        )
    &&& r.opening_proof@ == digest_of(
        spec_opening_input(
            main_data.main_commit@,
            gamma,
            z,
            opened_view(r.opened_values@),
            r.cumulative_sums@,
        ),
    )
    &&& r.commitment.permutation_commit@ == digest_of(spec_exts_bytes(r.cumulative_sums@))
    &&& r.commitment.quotient_commit@ == digest_of(
        spec_opened_bytes(opened_view(r.opened_values@)),
    )
    &&& r.public_values@.len() == 0
}

/// Unpacks the proved predicate into the parts the cancellation argument
/// uses.
pub proof fn lemma_proved_parts(
    p: SegmentProof,
    chips: Seq<ChipKind>,
    md: MainData,
    ch: crate::challenger::ChallengerModel,
)
    requires
        spec_proved(p, chips, md, ch),
    ensures
        p.n == chips.len(),
        p.commitment.main_commit@ == md.main_commit@,
        p.commitment.main_commit@.len() == 32,
        p.cumulative_sums@.len() == chips.len(),
        forall|i: int|
            0 <= i < chips.len() ==> #[trigger] p.cumulative_sums@[i] == spec_rows_sum(
                chips[i],
                rows_view(md.traces@[i]),
                spec_sample_ext(ch).0,
            ),
        forall|i: int|
            0 <= i < p.cumulative_sums@.len() ==> ext_valid(#[trigger] p.cumulative_sums@[i]),
{
    reveal(spec_proved);
}

/// Unpacks the proved predicate's opening clauses.
pub proof fn lemma_proved_openings(
    p: SegmentProof,
    chips: Seq<ChipKind>,
    md: MainData,
    ch: crate::challenger::ChallengerModel,
)
    requires
        spec_proved(p, chips, md, ch),
    ensures
        p.public_values@.len() == 0,
        p.opened_values@.len() == chips.len(),
        forall|i: int|
            0 <= i < chips.len() ==> (#[trigger] p.opened_values@[i])@.len() == spec_chip_width(
                chips[i],
            ),
        forall|i: int, j: int|
            0 <= i < chips.len() && 0 <= j < p.opened_values@[i]@.len()
                ==> #[trigger] p.opened_values@[i]@[j] == spec_col_eval(
                rows_view(md.traces@[i]),
                j,
                spec_sample_ext(
                    spec_observe_commitment(spec_sample_ext(ch).1, md.main_commit@),
                ).0,
            ),
{
    reveal(spec_proved);
}

/// The prover side of the per-chip protocol.
pub struct Prover;

impl Prover {
    /// Commits every chip's single trace over one record in one batch, as
    /// used for the aggregated global segment.
    pub fn commit_main(config: &StarkConfig, chips: &Vec<ChipKind>, record: &ExecutionRecord) -> (r:
        MainData)
        requires
            record_sized(*record),
            chips@.len() <= 32,
            forall|i: int|
                0 <= i < chips@.len() ==> spec_chip_rows(*record, #[trigger] chips@[i]).len() == 0
                    && spec_chip_width(chips@[i]) == 1,
        ensures
            main_data_wf(r, chips@),
            forall|i: int|
                0 <= i < chips@.len() ==> {
                    let t = #[trigger] r.traces@[i];
                    let rows = spec_chip_rows(*record, chips@[i]);
                    &&& rows_view(t).len() >= rows.len()
                    &&& rows_view(t).take(rows.len() as int) == rows
                    &&& forall|q: int|
                        rows.len() <= q < rows_view(t).len() ==> #[trigger] rows_view(t)[q]
                            == crate::trace::spec_zero_row(spec_chip_width(chips@[i]))
                    &&& rows_view(t).len() == crate::trace::spec_npo2(rows.len() as int)
                },
    {
        let mut traces: Vec<Trace> = Vec::new();
        let mut i: usize = 0;
        while i < chips.len()
            invariant
                i <= chips@.len(),
                record_sized(*record),
                traces@.len() == i,
                forall|q: int|
                    0 <= q < i ==> trace_wf(#[trigger] traces@[q]) && traces@[q].width
                        == spec_chip_width(chips@[q]),
                forall|q: int|
                    0 <= q < i ==> {
                        let t = #[trigger] traces@[q];
                        let rows = spec_chip_rows(*record, chips@[q]);
                        &&& rows_view(t).len() >= rows.len()
                        &&& rows_view(t).take(rows.len() as int) == rows
                        &&& forall|p: int|
                            rows.len() <= p < rows_view(t).len() ==> #[trigger] rows_view(t)[p]
                                == crate::trace::spec_zero_row(spec_chip_width(chips@[q]))
                        &&& rows_view(t).len() == crate::trace::spec_npo2(rows.len() as int)
                    },
                chips@.len() <= 32,
                forall|q: int|
                    0 <= q < chips@.len() ==> spec_chip_rows(*record, #[trigger] chips@[q]).len()
                        == 0 && spec_chip_width(chips@[q]) == 1,
                crate::trace::spec_heights(traces@) == i,
            decreases chips@.len() - i,
        {
            let t = generate_trace(chips[i], record);
            let ghost before = traces@;
            traces.push(t);
            proof {
                assert(traces@.drop_last() =~= before);
                assert(crate::trace::spec_heights(traces@) == crate::trace::spec_heights(before)
                    + t.rows@.len());
                assert(t.rows@.len() == 1);
            }
            i = i + 1;
        }
        let bytes = batch_bytes(&traces);
        proof {
            crate::trace::lemma_batch_bytes_bound(traces@, 1);
            assert(bytes@.len() < 0x1F000000);
        }
        let main_commit = sha256(&bytes);
        let n = chips.len();
        MainData { traces, main_commit, n }
    }

    /// Commits one local chip's shard traces in one batch.
    pub fn commit_chip(config: &StarkConfig, k: ChipKind, record: &ExecutionRecord) -> (r:
        MainData)
        requires
            config_wf(*config),
            record_sized(*record),
        ensures
            spec_committed(r, k, *record, config.shard_size as int),
    {
        proof {
            reveal(spec_committed);
        }
        let shards = shard_record(k, record, config.shard_size);
        let ghost shards0 = shards@;
        let mut traces: Vec<Trace> = Vec::new();
        let mut i: usize = 0;
        while i < shards.len()
            invariant
                i <= shards@.len(),
                shards@ == shards0,
                forall|q: int| 0 <= q < shards@.len() ==> record_sized(#[trigger] shards@[q]),
                crate::trace::spec_heights(traces@) <= 2 * spec_rows_lens(
                    shards@.take(i as int),
                    k,
                ) + i,
                traces@.len() == i,
                forall|q: int|
                    0 <= q < i ==> trace_wf(#[trigger] traces@[q]) && traces@[q].width
                        == spec_chip_width(k),
                forall|q: int|
                    0 <= q < i ==> {
                        let t = #[trigger] traces@[q];
                        let rows = spec_chip_rows(shards@[q], k);
                        &&& rows_view(t).len() >= rows.len()
                        &&& rows_view(t).take(rows.len() as int) == rows
                        &&& forall|p: int|
                            rows.len() <= p < rows_view(t).len() ==> #[trigger] rows_view(t)[p]
                                == crate::trace::spec_zero_row(spec_chip_width(k))
                        &&& rows_view(t).len() == crate::trace::spec_npo2(rows.len() as int)
                    },
            decreases shards@.len() - i,
        {
            let t = generate_trace(k, &shards[i]);
            let ghost before = traces@;
            traces.push(t);
            proof {
                assert(traces@.drop_last() =~= before);
                assert(crate::trace::spec_heights(traces@) == crate::trace::spec_heights(before)
                    + t.rows@.len());
                lemma_rows_lens_take(shards@, k, i as int);
            }
            i = i + 1;
        }
        proof {
            assert(shards@.take(shards@.len() as int) =~= shards@);
            lemma_commit_batch_small(traces@, shards@, k, *record, config.shard_size as int);
        }
        let bytes = batch_bytes(&traces);
        let main_commit = sha256(&bytes);
        let n = traces.len();
        proof {
            if crate::chips::spec_is_event_chip(k) {
                let cs = crate::chips::spec_chunks(
                    crate::chips::spec_chip_alu_events(*record, k),
                    config.shard_size as int,
                );
                assert forall|i2: int| 0 <= i2 < cs.len() implies {
                    let t = #[trigger] traces@[i2];
                    &&& rows_view(t).len() >= cs[i2].len()
                    &&& rows_view(t).take(cs[i2].len() as int) == Seq::new(
                        cs[i2].len(),
                        |q: int| crate::chips::spec_alu_row(cs[i2][q]),
                    )
                    &&& forall|p: int|
                        cs[i2].len() <= p < rows_view(t).len() ==> #[trigger] rows_view(t)[p]
                            == crate::trace::spec_zero_row(10)
                    &&& rows_view(t).len() == crate::trace::spec_npo2(cs[i2].len() as int)
                } by {
                    assert(crate::chips::spec_chip_alu_events(shards@[i2], k) == cs[i2]);
                    assert(spec_chip_rows(shards@[i2], k) == Seq::new(
                        cs[i2].len(),
                        |q: int| crate::chips::spec_alu_row(cs[i2][q]),
                    ));
                }
                crate::chips::lemma_chunks_count(
                    crate::chips::spec_chip_alu_events(*record, k),
                    config.shard_size as int,
                );
            }
        }
        MainData { traces, main_commit, n }
    }

    /// Runs one chip's sub-protocol against a transcript clone: samples the
    /// permutation challenge, binds the commitment into the transcript,
    /// samples the opening point, and produces per-shard openings and
    /// cumulative sums sealed by the opening proof.
    pub fn prove(
        config: &StarkConfig,
        challenger: &mut DuplexChallenger,
        chips: &Vec<ChipKind>,
        main_data: MainData,
    ) -> (r: SegmentProof)
        requires
            challenger_wf(old(challenger)@),
            main_data_wf(main_data, chips@),
        ensures
            spec_proved(r, chips@, main_data, old(challenger)@),
            final(challenger)@ == spec_sample_ext(
                spec_observe_commitment(
                    spec_sample_ext(old(challenger)@).1,
                    main_data.main_commit@,
                ),
            ).1,
    {
        proof {
            reveal(spec_proved);
        }
        let gamma = challenger.sample_ext();
        challenger.observe_commitment(&main_data.main_commit);
        let z = challenger.sample_ext();
        let mut opened: Vec<Vec<Ext4>> = Vec::new();
        let mut sums: Vec<Ext4> = Vec::new();
        let mut i: usize = 0;
        while i < chips.len()
            invariant
                i <= chips@.len(),
                main_data_wf(main_data, chips@),
                crate::field::ext_valid(gamma),
                crate::field::ext_valid(z),
                opened@.len() == i,
                sums@.len() == i,
                forall|q: int|
                    0 <= q < i ==> #[trigger] sums@[q] == spec_rows_sum(
                        chips@[q],
                        rows_view(main_data.traces@[q]),
                        gamma,
                    ) && ext_valid(sums@[q]),
                forall|q: int|
                    0 <= q < i ==> (#[trigger] opened@[q])@.len() == spec_chip_width(chips@[q]),
                forall|q: int, j: int|
                    0 <= q < i && 0 <= j < opened@[q]@.len() ==> #[trigger] opened@[q]@[j]
                        == spec_col_eval(rows_view(main_data.traces@[q]), j, z),
            decreases chips@.len() - i,
        {
            let t = &main_data.traces[i];
            let cols = col_evals(t, z);
            let sum = cumulative_sum(chips[i], t, gamma);
            opened.push(cols);
            sums.push(sum);
            i = i + 1;
        }
        proof {
            lemma_digest_inputs_small(
                main_data.main_commit@,
                gamma,
                z,
                opened_view(opened@),
                sums@,
                chips@,
            );
        }
        let opening_proof = opening_digest(&main_data.main_commit, gamma, z, &opened, &sums);
        let permutation_commit = sums_digest(&sums);
        let quotient_commit = opened_digest(&opened);
        let n = main_data.n;
        SegmentProof {
            commitment: ShardCommitment {
                main_commit: main_data.main_commit,
                permutation_commit,
                quotient_commit,
            },
            opened_values: opened,
            opening_proof,
            cumulative_sums: sums,
            n,
            public_values: Vec::new(),
        }
    }
}

} // verus!
