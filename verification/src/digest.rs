//! The opaque digest primitive behind the polynomial commitment interface.
//!
//! The engine treats the low-level commitment scheme as a binding black box:
//! a commitment is the digest of the serialized trace batch, and opening
//! proofs are digests that bind openings to commitments and challenges.

use vstd::prelude::*;

verus! {

/// The number of bytes in a digest.
pub const DIGEST_LEN: usize = 32;

/// The digest of a byte string. The value is determined by the input bytes
/// alone; nothing further is assumed of it.
pub uninterp spec fn digest_of(data: Seq<u8>) -> Seq<u8>;

/// The bound on the digest primitive's input, exclusive: the outside hash
/// counts message bits in a 32-bit word, and the final-block padding adds
/// up to 64 further counted bytes, so the input must stop eight bytes short
/// of 2^29 for that counter to stay sound.
pub const DIGEST_INPUT_LIMIT: usize = 0x1FFFFFF8;

/// Relies on amcl's `HASH256` (SHA-256): `new`, `process_array` and `hash`
/// together digest exactly the supplied bytes, the result is a function of
/// those bytes alone, and it is always 32 bytes long. The length bound
/// keeps the hasher's 32-bit low bit counter from overflowing, padding of
/// the final block included.
#[verifier::external_body]
pub(crate) fn sha256(data: &Vec<u8>) -> (r: Vec<u8>)
    requires
        data@.len() < DIGEST_INPUT_LIMIT,
    ensures
        r@ == digest_of(data@),
        r@.len() == 32,
{
    let mut h = amcl::hash256::HASH256::new();
    h.process_array(data.as_slice());
    h.hash().to_vec()
}

} // verus!
