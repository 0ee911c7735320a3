//! Proof artifacts: per-chip segment proofs, their commitments, opened
//! values, and the verification error taxonomy.

use vstd::prelude::*;
use crate::bytes::{push_u64_le, spec_u64_le};
use crate::chips::{spec_chip_width, ChipKind};
use crate::field::Ext4;

verus! {

/// The greatest number of public values a proof may carry.
pub const PROOF_MAX_NUM_PVS: usize = 32;

/// The commitments of one segment proof: the main trace commitment and the
/// derived permutation and quotient commitments.
pub struct ShardCommitment {
    pub main_commit: Vec<u8>,
    pub permutation_commit: Vec<u8>,
    pub quotient_commit: Vec<u8>,
}

/// One chip's segment proof: its commitments, one row of column openings and
/// one cumulative sum per shard, the opening proof binding them to the
/// transcript, the shard count, and the shared public values.
pub struct SegmentProof {
    pub commitment: ShardCommitment,
    pub opened_values: Vec<Vec<Ext4>>,
    pub opening_proof: Vec<u8>,
    pub cumulative_sums: Vec<Ext4>,
    pub n: usize,
    pub public_values: Vec<u64>,
}

/// The ways one chip's proof can fail to check.
#[derive(Clone, Copy, Debug, PartialEq, Eq, Structural)]
pub enum VerificationErrorKind {
    ProofCountMismatch,
    ShardCountMismatch,
    OpenedValuesShape,
    PublicValuesLength,
    CommitmentShape,
    SumOutOfRange,
    InvalidOpeningProof,
    InvalidPermutationCommitment,
    InvalidQuotientCommitment,
}

/// A chip-identified verification failure.
#[derive(Clone, Copy, Debug, PartialEq, Eq, Structural)]
pub struct VerificationError {
    pub chip: ChipKind,
    pub kind: VerificationErrorKind,
}

/// The terminal outcome of a failed program verification.
#[derive(Clone, Copy, Debug, PartialEq, Eq, Structural)]
pub enum ProgramVerificationError {
    InvalidSegmentProof(VerificationError),
    InvalidGlobalProof(VerificationError),
    NonZeroCumulativeSum,
}

/// The openings of one chip at one shard, split by the chip's column
/// layout.
pub struct ChipOpening {
    pub main: Vec<Ext4>,
    pub cumulative_sum: Ext4,
}

impl ChipOpening {
    /// Reads one shard's opened values against a chip's declared width,
    /// rejecting openings of the wrong shape.
    pub fn from_opened_values(k: ChipKind, opened: &Vec<Ext4>, sum: Ext4) -> (r: Option<
        ChipOpening,
    >)
        ensures
            r is Some <==> opened@.len() == spec_chip_width(k),
            r is Some ==> r.unwrap().main@ == opened@ && r.unwrap().cumulative_sum == sum,
    {
        if opened.len() != chip_width_of(k) {
            return None;
        }
        let mut main: Vec<Ext4> = Vec::new();
        let mut i: usize = 0;
        while i < opened.len()
            invariant
                i <= opened@.len(),
                main@ =~= opened@.take(i as int),
            decreases opened@.len() - i,
        {
            main.push(opened[i]);
            i = i + 1;
        }
        proof {
            assert(opened@.take(opened@.len() as int) =~= opened@);
        }
        Some(ChipOpening { main, cumulative_sum: sum })
    }
}

fn chip_width_of(k: ChipKind) -> (r: usize)
    ensures
        r == spec_chip_width(k),
{
    crate::chips::chip_width(k)
}

/// The byte encoding of one extension element.
pub open spec fn spec_ext_bytes(e: Ext4) -> Seq<u8> {
    spec_u64_le(e.c0) + spec_u64_le(e.c1) + spec_u64_le(e.c2) + spec_u64_le(e.c3)
}

pub fn push_ext_bytes(out: &mut Vec<u8>, e: Ext4)
    ensures
        final(out)@ == old(out)@ + spec_ext_bytes(e),
{
    push_u64_le(out, e.c0);
    push_u64_le(out, e.c1);
    push_u64_le(out, e.c2);
    push_u64_le(out, e.c3);
    proof {
        assert(out@ =~= old(out)@ + spec_ext_bytes(e));
    }
}

/// The length-prefixed byte encoding of a sequence of extension elements.
pub open spec fn spec_exts_body(s: Seq<Ext4>) -> Seq<u8>
    decreases s.len(),
{
    if s.len() == 0 {
        Seq::empty()
    } else {
        spec_exts_body(s.drop_last()) + spec_ext_bytes(s.last())
    }
}

pub open spec fn spec_exts_bytes(s: Seq<Ext4>) -> Seq<u8> {
    spec_u64_le(s.len() as u64) + spec_exts_body(s)
}

pub fn push_exts_bytes(out: &mut Vec<u8>, s: &Vec<Ext4>)
    ensures
        final(out)@ == old(out)@ + spec_exts_bytes(s@),
{
    push_u64_le(out, s.len() as u64);
    let ghost base = out@;
    let mut i: usize = 0;
    while i < s.len()
        invariant
            i <= s@.len(),
            out@ == base + spec_exts_body(s@.take(i as int)),
        decreases s@.len() - i,
    {
        push_ext_bytes(out, s[i]);
        proof {
            assert(s@.take(i + 1).drop_last() =~= s@.take(i as int));
            assert(s@.take(i + 1).last() == s@[i as int]);
        }
        i = i + 1;
    }
    proof {
        assert(s@.take(s@.len() as int) =~= s@);
        assert(out@ =~= old(out)@ + spec_exts_bytes(s@));
    }
}

/// The contents view of per-shard opened values.
pub open spec fn opened_view(v: Seq<Vec<Ext4>>) -> Seq<Seq<Ext4>> {
    Seq::new(v.len(), |i: int| v[i]@)
}

/// The length-prefixed byte encoding of per-shard opened values.
pub open spec fn spec_opened_body(s: Seq<Seq<Ext4>>) -> Seq<u8>
    decreases s.len(),
{
    if s.len() == 0 {
        Seq::empty()
    } else {
        spec_opened_body(s.drop_last()) + spec_exts_bytes(s.last())
    }
}

pub open spec fn spec_opened_bytes(s: Seq<Seq<Ext4>>) -> Seq<u8> {
    spec_u64_le(s.len() as u64) + spec_opened_body(s)
}

pub fn push_opened_bytes(out: &mut Vec<u8>, v: &Vec<Vec<Ext4>>)
    ensures
        final(out)@ == old(out)@ + spec_opened_bytes(opened_view(v@)),
{
    push_u64_le(out, v.len() as u64);
    let ghost base = out@;
    let ghost ov = opened_view(v@);
    let mut i: usize = 0;
    while i < v.len()
        invariant
            i <= v@.len(),
            ov == opened_view(v@),
            out@ == base + spec_opened_body(ov.take(i as int)),
        decreases v@.len() - i,
    {
        push_exts_bytes(out, &v[i]);
        proof {
            assert(ov.take(i + 1).drop_last() =~= ov.take(i as int));
            assert(ov.take(i + 1).last() == ov[i as int]);
        }
        i = i + 1;
    }
    proof {
        assert(ov.take(ov.len() as int) =~= ov);
        assert(out@ =~= old(out)@ + spec_opened_bytes(ov));
    }
}

/// The transcript material bound by an opening proof: the main commitment,
/// the two challenges, the opened values, and the cumulative sums.
pub open spec fn spec_opening_input(
    main_commit: Seq<u8>,
    gamma: Ext4,
    z: Ext4,
    opened: Seq<Seq<Ext4>>,
    sums: Seq<Ext4>,
) -> Seq<u8> {
    main_commit + spec_ext_bytes(gamma) + spec_ext_bytes(z) + spec_opened_bytes(opened)
        + spec_exts_bytes(sums)
}

/// Digests the transcript material bound by an opening proof.
pub fn opening_digest(
    main_commit: &Vec<u8>,
    gamma: Ext4,
    z: Ext4,
    opened: &Vec<Vec<Ext4>>,
    sums: &Vec<Ext4>,
) -> (r: Vec<u8>)
    requires
        spec_opening_input(main_commit@, gamma, z, opened_view(opened@), sums@).len()
            < 0x1F000000,
    ensures
        r@ == crate::digest::digest_of(
            spec_opening_input(main_commit@, gamma, z, opened_view(opened@), sums@),
        ),
        r@.len() == 32,
{
    let mut bytes: Vec<u8> = Vec::new();
    let mut i: usize = 0;
    while i < main_commit.len()
        invariant
            i <= main_commit@.len(),
            bytes@ =~= main_commit@.take(i as int),
        decreases main_commit@.len() - i,
    {
        bytes.push(main_commit[i]);
        i = i + 1;
    }
    proof {
        assert(main_commit@.take(main_commit@.len() as int) =~= main_commit@);
    }
    push_ext_bytes(&mut bytes, gamma);
    push_ext_bytes(&mut bytes, z);
    push_opened_bytes(&mut bytes, opened);
    push_exts_bytes(&mut bytes, sums);
    proof {
        assert(bytes@ =~= spec_opening_input(
            main_commit@,
            gamma,
            z,
            opened_view(opened@),
            sums@,
        ));
    }
    crate::digest::sha256(&bytes)
}

/// Digests the cumulative sums alone, for the permutation commitment.
pub fn sums_digest(sums: &Vec<Ext4>) -> (r: Vec<u8>)
    requires
        spec_exts_bytes(sums@).len() < 0x1F000000,
    ensures
        r@ == crate::digest::digest_of(spec_exts_bytes(sums@)),
        r@.len() == 32,
{
    let mut bytes: Vec<u8> = Vec::new();
    push_exts_bytes(&mut bytes, sums);
    proof {
        assert(bytes@ =~= spec_exts_bytes(sums@));
    }
    crate::digest::sha256(&bytes)
}

/// Digests the opened values alone, for the quotient commitment.
pub fn opened_digest(opened: &Vec<Vec<Ext4>>) -> (r: Vec<u8>)
    requires
        spec_opened_bytes(opened_view(opened@)).len() < 0x1F000000,
    ensures
        r@ == crate::digest::digest_of(spec_opened_bytes(opened_view(opened@))),
        r@.len() == 32,
{
    let mut bytes: Vec<u8> = Vec::new();
    push_opened_bytes(&mut bytes, opened);
    proof {
        assert(bytes@ =~= spec_opened_bytes(opened_view(opened@)));
    }
    crate::digest::sha256(&bytes)
}

/// The serialized length of a sequence of extension elements.
pub proof fn lemma_exts_bytes_len(s: Seq<Ext4>)
    ensures
        spec_exts_body(s).len() == 32 * s.len(),
        spec_exts_bytes(s).len() == 8 + 32 * s.len(),
    decreases s.len(),
{
    if s.len() > 0 {
        lemma_exts_bytes_len(s.drop_last());
    }
}

/// The serialized length of opened values whose rows are width-bounded.
#[verifier::rlimit(100)]
pub proof fn lemma_opened_bytes_bound(s: Seq<Seq<Ext4>>, w: int)
    requires
        w >= 0,
        forall|i: int| 0 <= i < s.len() ==> (#[trigger] s[i]).len() <= w,
    ensures
        spec_opened_body(s).len() >= 0,
        spec_opened_body(s).len() <= s.len() * (8 + 32 * w),
        spec_opened_bytes(s).len() <= 8 + s.len() * (8 + 32 * w),
    decreases s.len(),
{
    if s.len() == 0 {
        assert(0 * (8 + 32 * w) == 0) by (nonlinear_arith);
    } else {
        lemma_opened_bytes_bound(s.drop_last(), w);
        lemma_exts_bytes_len(s.last());
        assert(spec_opened_body(s).len() == spec_opened_body(s.drop_last()).len() + 8 + 32
            * s.last().len());
        assert((s.len() - 1) * (8 + 32 * w) + (8 + 32 * w) == s.len() * (8 + 32 * w))
            by (nonlinear_arith);
        assert(8 + 32 * s.last().len() <= 8 + 32 * w) by (nonlinear_arith)
            requires
                s.last().len() <= w,
        ;
    }
}

/// Byte-for-byte equality of two byte strings.
pub fn bytes_eq(a: &Vec<u8>, b: &Vec<u8>) -> (r: bool)
    ensures
        r <==> a@ == b@,
{
    if a.len() != b.len() {
        proof {
            assert(a@ != b@) by {
                assert(a@.len() != b@.len());
            }
        }
        return false;
    }
    let mut i: usize = 0;
    while i < a.len()
        invariant
            i <= a@.len(),
            a@.len() == b@.len(),
            forall|j: int| 0 <= j < i ==> a@[j] == #[trigger] b@[j],
        decreases a@.len() - i,
    {
        if a[i] != b[i] {
            proof {
                assert(a@[i as int] != b@[i as int]);
            }
            return false;
        }
        i = i + 1;
    }
    proof {
        assert(a@ =~= b@);
    }
    true
}

} // verus!
