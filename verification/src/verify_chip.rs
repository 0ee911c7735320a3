//! The verifier side of the per-chip protocol: shape checks, transcript
//! replay, and commitment binding.

use vstd::prelude::*;
use crate::challenger::{
    challenger_wf, spec_observe_commitment, spec_sample_ext, ChallengerModel, DuplexChallenger,
};
use crate::chips::{spec_chip_width, ChipKind};
use crate::digest::digest_of;
use crate::field::{ext_valid, Ext4, FIELD_PRIME};
use crate::proofs::{
    bytes_eq, opened_digest, opened_view, opening_digest, spec_exts_bytes, spec_opened_bytes,
    spec_opening_input, sums_digest, ChipOpening, SegmentProof, VerificationError,
    VerificationErrorKind, PROOF_MAX_NUM_PVS,
};
use crate::prover::StarkConfig;

verus! {

/// The per-shard scan of a proof: each shard's opened values must match its
/// chip's width, and each shard's cumulative sum must be canonical.
pub open spec fn spec_scan_shards(chips: Seq<ChipKind>, p: SegmentProof, i: int) -> Result<
    (),
    VerificationError,
>
    decreases chips.len() - i,
{
    if i < 0 || i >= chips.len() {
        Ok(())
    } else if p.opened_values@[i]@.len() != spec_chip_width(chips[i]) {
        Err(VerificationError { chip: chips[i], kind: VerificationErrorKind::OpenedValuesShape })
    } else if !ext_valid(p.cumulative_sums@[i]) {
        Err(VerificationError { chip: chips[i], kind: VerificationErrorKind::SumOutOfRange })
    } else {
        spec_scan_shards(chips, p, i + 1)
    }
}

/// What it means for one chip's proof to check against a transcript state:
/// the shard count is consistent with the openings and sums carried, every
/// shard is well-shaped, and the opening proof and derived commitments are
/// exactly the digests that the replayed transcript demands.
#[verifier::opaque]
pub open spec fn spec_verify_chip(
    chips: Seq<ChipKind>,
    ch: ChallengerModel,
    p: SegmentProof,
) -> Result<(), VerificationError> {
    let chip0 = if chips.len() == 0 {
        ChipKind::Program
    } else {
        chips[0]
    };
    if p.n != chips.len() {
        Err(VerificationError { chip: chip0, kind: VerificationErrorKind::ShardCountMismatch })
    } else if p.n > 0x100000 {
        Err(VerificationError { chip: chip0, kind: VerificationErrorKind::ShardCountMismatch })
    } else if p.cumulative_sums@.len() != p.n {
        Err(VerificationError { chip: chip0, kind: VerificationErrorKind::ShardCountMismatch })
    } else if p.opened_values@.len() != p.n {
        Err(VerificationError { chip: chip0, kind: VerificationErrorKind::OpenedValuesShape })
    } else if p.public_values@.len() > PROOF_MAX_NUM_PVS {
        Err(VerificationError { chip: chip0, kind: VerificationErrorKind::PublicValuesLength })
    } else if p.commitment.main_commit@.len() != 32 {
        Err(VerificationError { chip: chip0, kind: VerificationErrorKind::CommitmentShape })
    } else if spec_scan_shards(chips, p, 0) is Err {
        spec_scan_shards(chips, p, 0)
    } else {
        let (gamma, c1) = spec_sample_ext(ch);
        let c2 = spec_observe_commitment(c1, p.commitment.main_commit@);
        let (z, c3) = spec_sample_ext(c2);
        if p.opening_proof@ != digest_of(
            spec_opening_input(
                p.commitment.main_commit@,
                gamma,
                z,
                opened_view(p.opened_values@),
                p.cumulative_sums@,
            ),
        ) {
            Err(VerificationError { chip: chip0, kind: VerificationErrorKind::InvalidOpeningProof })
        } else if p.commitment.permutation_commit@ != digest_of(
            spec_exts_bytes(p.cumulative_sums@),
        ) {
            Err(
                VerificationError {
                    chip: chip0,
                    kind: VerificationErrorKind::InvalidPermutationCommitment,
                },
            )
        } else if p.commitment.quotient_commit@ != digest_of(
            spec_opened_bytes(opened_view(p.opened_values@)),
        ) {
            Err(
                VerificationError {
                    chip: chip0,
                    kind: VerificationErrorKind::InvalidQuotientCommitment,
                },
            )
        } else {
            Ok(())
        }
    }
}

/// A clean shard scan pins every shard's shape and sum range.
pub proof fn lemma_scan_ok(chips: Seq<ChipKind>, p: SegmentProof, i: int)
    requires
        0 <= i,
        spec_scan_shards(chips, p, i) is Ok,
    ensures
        forall|j: int|
            i <= j < chips.len() ==> (#[trigger] p.opened_values@[j])@.len() == spec_chip_width(
                chips[j],
            ) && ext_valid(p.cumulative_sums@[j]),
    decreases chips.len() - i,
{
    if i < chips.len() {
        lemma_scan_ok(chips, p, i + 1);
    }
}

/// An accepted proof carries only canonical cumulative sums.
pub proof fn lemma_verify_chip_ok(chips: Seq<ChipKind>, ch: ChallengerModel, p: SegmentProof)
    requires
        spec_verify_chip(chips, ch, p) is Ok,
    ensures
        p.cumulative_sums@.len() == chips.len(),
        p.n == chips.len(),
        forall|j: int|
            0 <= j < p.cumulative_sums@.len() ==> ext_valid(#[trigger] p.cumulative_sums@[j]),
{
    reveal(spec_verify_chip);
    lemma_scan_ok(chips, p, 0);
    assert forall|j: int| 0 <= j < p.cumulative_sums@.len() implies ext_valid(
        #[trigger] p.cumulative_sums@[j],
    ) by {
        assert((p.opened_values@[j])@.len() == spec_chip_width(chips[j]) && ext_valid(
            p.cumulative_sums@[j],
        ));
    }
}

fn ext_is_canonical(e: Ext4) -> (r: bool)
    ensures
        r == ext_valid(e),
{
    e.c0 < FIELD_PRIME && e.c1 < FIELD_PRIME && e.c2 < FIELD_PRIME && e.c3 < FIELD_PRIME
}

/// The verifier side of the per-chip protocol.
pub struct Verifier;

impl Verifier {
    /// Checks one chip's proof against a transcript clone, mirroring the
    /// prover's sub-protocol step for step.
    pub fn verify(
        config: &StarkConfig,
        chips: &Vec<ChipKind>,
        challenger: &mut DuplexChallenger,
        proof: &SegmentProof,
    ) -> (r: Result<(), VerificationError>)
        requires
            challenger_wf(old(challenger)@),
        ensures
            r == spec_verify_chip(chips@, old(challenger)@, *proof),
    {
        proof {
            reveal(spec_verify_chip);
        }
        let chip0 = if chips.len() == 0 {
            ChipKind::Program
        } else {
            chips[0]
        };
        if proof.n != chips.len() {
            return Err(
                VerificationError { chip: chip0, kind: VerificationErrorKind::ShardCountMismatch },
            );
        }
        if proof.n > 0x100000 {
            return Err(
                VerificationError { chip: chip0, kind: VerificationErrorKind::ShardCountMismatch },
            );
        }
        if proof.cumulative_sums.len() != proof.n {
            return Err(
                VerificationError { chip: chip0, kind: VerificationErrorKind::ShardCountMismatch },
            );
        }
        if proof.opened_values.len() != proof.n {
            return Err(
                VerificationError { chip: chip0, kind: VerificationErrorKind::OpenedValuesShape },
            );
        }
        if proof.public_values.len() > PROOF_MAX_NUM_PVS {
            return Err(
                VerificationError { chip: chip0, kind: VerificationErrorKind::PublicValuesLength },
            );
        }
        if proof.commitment.main_commit.len() != 32 {
            return Err(
                VerificationError { chip: chip0, kind: VerificationErrorKind::CommitmentShape },
            );
        }
        let mut i: usize = 0;
        while i < chips.len()
            invariant
                0 <= i <= chips@.len(),
                proof.n == chips@.len(),
                proof.n <= 0x100000,
                proof.opened_values@.len() == chips@.len(),
                proof.cumulative_sums@.len() == chips@.len(),
                proof.public_values@.len() <= PROOF_MAX_NUM_PVS,
                proof.commitment.main_commit@.len() == 32,
                spec_scan_shards(chips@, *proof, 0) == spec_scan_shards(chips@, *proof, i as int),
            decreases chips@.len() - i,
        {
            let opening = ChipOpening::from_opened_values(
                chips[i],
                &proof.opened_values[i],
                proof.cumulative_sums[i],
            );
            match opening {
                None => {
                    proof {
                        reveal(spec_verify_chip);
                        assert(proof.opened_values@[i as int]@.len() != spec_chip_width(
                            chips@[i as int],
                        ));
                        assert(spec_scan_shards(chips@, *proof, i as int) == Err::<
                            (),
                            VerificationError,
                        >(
                            VerificationError {
                                chip: chips@[i as int],
                                kind: VerificationErrorKind::OpenedValuesShape,
                            },
                        ));
                    }
                    return Err(
                        VerificationError {
                            chip: chips[i],
                            kind: VerificationErrorKind::OpenedValuesShape,
                        },
                    );
                },
                Some(op) => {
                    if !ext_is_canonical(op.cumulative_sum) {
                        proof {
                            reveal(spec_verify_chip);
                            assert(proof.opened_values@[i as int]@.len() == spec_chip_width(
                                chips@[i as int],
                            ));
                            assert(!ext_valid(proof.cumulative_sums@[i as int]));
                            assert(spec_scan_shards(chips@, *proof, i as int) == Err::<
                                (),
                                VerificationError,
                            >(
                                VerificationError {
                                    chip: chips@[i as int],
                                    kind: VerificationErrorKind::SumOutOfRange,
                                },
                            ));
                        }
                        return Err(
                            VerificationError {
                                chip: chips[i],
                                kind: VerificationErrorKind::SumOutOfRange,
                            },
                        );
                    }
                    proof {
                        assert(proof.opened_values@[i as int]@.len() == spec_chip_width(
                            chips@[i as int],
                        ));
                        assert(ext_valid(proof.cumulative_sums@[i as int]));
                    }
                },
            }
            i = i + 1;
        }
        proof {
            assert(spec_scan_shards(chips@, *proof, chips@.len() as int) is Ok);
        }
        let gamma = challenger.sample_ext();
        challenger.observe_commitment(&proof.commitment.main_commit);
        let z = challenger.sample_ext();
        proof {
            lemma_scan_ok(chips@, *proof, 0);
            assert forall|j: int|
                0 <= j < opened_view(proof.opened_values@).len() implies (#[trigger] opened_view(
                proof.opened_values@,
            )[j]).len() == spec_chip_width(chips@[j]) by {
                assert(opened_view(proof.opened_values@)[j] == proof.opened_values@[j]@);
            }
            crate::prover::lemma_digest_inputs_small(
                proof.commitment.main_commit@,
                gamma,
                z,
                opened_view(proof.opened_values@),
                proof.cumulative_sums@,
                chips@,
            );
        }
        let expected_opening = opening_digest(
            &proof.commitment.main_commit,
            gamma,
            z,
            &proof.opened_values,
            &proof.cumulative_sums,
        );
        if !bytes_eq(&proof.opening_proof, &expected_opening) {
            return Err(
                VerificationError { chip: chip0, kind: VerificationErrorKind::InvalidOpeningProof },
            );
        }
        let expected_permutation = sums_digest(&proof.cumulative_sums);
        if !bytes_eq(&proof.commitment.permutation_commit, &expected_permutation) {
            return Err(
                VerificationError {
                    chip: chip0,
                    kind: VerificationErrorKind::InvalidPermutationCommitment,
                },
            );
        }
        let expected_quotient = opened_digest(&proof.opened_values);
        if !bytes_eq(&proof.commitment.quotient_commit, &expected_quotient) {
            return Err(
                VerificationError {
                    chip: chip0,
                    kind: VerificationErrorKind::InvalidQuotientCommitment,
                },
            );
        }
        Ok(())
    }
}

/// Tamper binding: a proof is accepted only if its opening proof and its
/// derived commitments are exactly the digests that the transcript replay
/// demands of the commitment it carries, so any change to the carried
/// commitment or sums that leaves the digests unadjusted is rejected.
pub proof fn lemma_acceptance_binds_commitment(
    chips: Seq<ChipKind>,
    ch: ChallengerModel,
    p: SegmentProof,
)
    requires
        spec_verify_chip(chips, ch, p) is Ok,
    ensures
        ({
            let (gamma, c1) = spec_sample_ext(ch);
            let c2 = spec_observe_commitment(c1, p.commitment.main_commit@);
            let (z, c3) = spec_sample_ext(c2);
            &&& p.opening_proof@ == digest_of(
                spec_opening_input(
                    p.commitment.main_commit@,
                    gamma,
                    z,
                    opened_view(p.opened_values@),
                    p.cumulative_sums@,
                ),
            )
            &&& p.commitment.permutation_commit@ == digest_of(
                spec_exts_bytes(p.cumulative_sums@),
            )
            &&& p.commitment.quotient_commit@ == digest_of(
                spec_opened_bytes(opened_view(p.opened_values@)),
            )
        }),
{
    reveal(spec_verify_chip);
}

/// A proof whose shards are all well-shaped passes the shard scan.
pub proof fn lemma_scan_all_ok(chips: Seq<ChipKind>, p: SegmentProof, i: int)
    requires
        0 <= i,
        forall|j: int|
            i <= j < chips.len() ==> (#[trigger] p.opened_values@[j])@.len() == spec_chip_width(
                chips[j],
            ) && ext_valid(p.cumulative_sums@[j]),
    ensures
        spec_scan_shards(chips, p, i) is Ok,
    decreases chips.len() - i,
{
    if i < chips.len() {
        assert(p.opened_values@[i]@.len() == spec_chip_width(chips[i]) && ext_valid(
            p.cumulative_sums@[i],
        ));
        lemma_scan_all_ok(chips, p, i + 1);
    }
}

/// Soundness round trip, per chip: a proof produced by the prover's
/// sub-protocol checks against any transcript clone in the same state the
/// prover's clone started from.
#[verifier::rlimit(100)]
pub proof fn lemma_proved_verifies(
    p: SegmentProof,
    chips: Seq<ChipKind>,
    md: crate::prover::MainData,
    ch: ChallengerModel,
)
    requires
        crate::prover::spec_proved(p, chips, md, ch),
        chips.len() <= 0x100000,
    ensures
        spec_verify_chip(chips, ch, p) == Ok::<(), VerificationError>(()),
{
    reveal(spec_verify_chip);
    reveal(crate::prover::spec_proved);
    lemma_scan_all_ok(chips, p, 0);
}

} // verus!
