//! Host-side secp256k1 operations: public-key decompression and signature
//! verification over an outside elliptic-curve library, with the results
//! named at the byte level.

use vstd::prelude::*;

verus! {

/// The uncompressed form of a compressed public key, or nothing if the
/// bytes are not a valid compressed curve point. The value depends on the
/// input bytes alone.
pub uninterp spec fn sec1_decompress_of(b: Seq<u8>) -> Option<Seq<u8>>;

/// Whether an encoded public key, message digest, and signature check out
/// under the curve's verification equation. The value depends on the bytes
/// alone.
pub uninterp spec fn sig_valid_of(pk: Seq<u8>, msg: Seq<u8>, sig: Seq<u8>) -> bool;

/// The ways a key or signature operation can fail.
#[derive(Clone, Copy, Debug, PartialEq, Eq, Structural)]
pub enum CryptoError {
    InvalidPubkey,
    InvalidSignature,
}

/// Relies on `PublicKey::from_sec1_bytes` and
/// `ToSec1Point::to_uncompressed_point`: parsing validates that the bytes
/// are a curve point, and the uncompressed encoding is sixty-five bytes
/// starting with the uncompressed tag; both depend on the input alone.
/// Parsing rejects non-canonical coordinates, so for a compressed input
/// the x-coordinate bytes round-trip into the uncompressed form unchanged.
#[verifier::external_body]
fn sec1_decompress(b: &Vec<u8>) -> (r: Option<Vec<u8>>)
    ensures
        match r {
            Some(v) => sec1_decompress_of(b@) == Some(v@) && v@.len() == 65 && v@[0] == 4 && (
            b@.len() == 33 ==> v@.subrange(1, 33) == b@.subrange(1, 33)),
            None => sec1_decompress_of(b@) is None,
        },
{
    match k256::PublicKey::from_sec1_bytes(b.as_slice()) {
        Ok(pk) => {
            let point = k256::elliptic_curve::sec1::ToSec1Point::to_uncompressed_point(&pk);
            Some(point.as_slice().to_vec())
        },
        Err(_) => None,
    }
}

/// Verifies a signature, given as its sixty-four bytes, against an encoded
/// public key and a message digest. The key is not checked to lie on the
/// curve beyond what parsing enforces.
///
/// Relies on `PublicKey::from_sec1_bytes`, `VerifyingKey::from` and
/// `PrehashVerifier::verify_prehash`, with `Signature::from_slice` to read
/// the signature bytes: acceptance is a function of the three byte strings
/// alone, and is false whenever the key or signature bytes do not parse.
#[verifier::external_body]
pub fn verify_signature(pk: &Vec<u8>, msg: &Vec<u8>, sig: &Vec<u8>) -> (r: bool)
    ensures
        r == sig_valid_of(pk@, msg@, sig@),
{
    let signature = match k256::ecdsa::Signature::from_slice(sig.as_slice()) {
        Ok(s) => s,
        Err(_) => return false,
    };
    let public_key = match k256::PublicKey::from_sec1_bytes(pk.as_slice()) {
        Ok(p) => p,
        Err(_) => return false,
    };
    let verify_key = k256::ecdsa::VerifyingKey::from(&public_key);
    k256::ecdsa::signature::hazmat::PrehashVerifier::verify_prehash(
        &verify_key,
        msg.as_slice(),
        &signature,
    ).is_ok()
}

/// Decompresses a compressed public key into its uncompressed form,
/// rejecting bytes that are not a valid compressed curve point.
pub fn decompress_pubkey(compressed_key: &Vec<u8>) -> (r: Result<Vec<u8>, CryptoError>)
    ensures
        r is Ok <==> sec1_decompress_of(compressed_key@) is Some,
        r is Ok ==> Some(r.unwrap()@) == sec1_decompress_of(compressed_key@) && r.unwrap()@.len()
            == 65 && r.unwrap()@[0] == 4,
        r is Ok && compressed_key@.len() == 33 ==> r.unwrap()@.subrange(1, 33)
            == compressed_key@.subrange(1, 33),
        r is Err ==> r.unwrap_err() == CryptoError::InvalidPubkey,
{
    match sec1_decompress(compressed_key) {
        Some(v) => Ok(v),
        None => Err(CryptoError::InvalidPubkey),
    }
}

/// Recovers and checks the uncompressed public key behind a signature: the
/// caller supplies the compressed recovered key (from its recovery oracle),
/// and the key is accepted only if it decompresses and verifies the
/// signature over the message digest.
pub fn ecrecover(sig: &Vec<u8>, msg_hash: &Vec<u8>, recovered_key: &Vec<u8>) -> (r: Result<
    Vec<u8>,
    CryptoError,
>)
    requires
        sig@.len() == 65,
    ensures
        r is Ok <==> sec1_decompress_of(recovered_key@) is Some && sig_valid_of(
            sec1_decompress_of(recovered_key@).unwrap(),
            msg_hash@,
            sig@.take(64),
        ),
        r is Ok ==> {
            &&& sec1_decompress_of(recovered_key@) == Some(r.unwrap()@)
            &&& sig_valid_of(r.unwrap()@, msg_hash@, sig@.take(64))
        },
        sec1_decompress_of(recovered_key@) is None ==> r == Err::<Vec<u8>, CryptoError>(
            CryptoError::InvalidPubkey,
        ),
        r is Err && sec1_decompress_of(recovered_key@) is Some ==> r.unwrap_err()
            == CryptoError::InvalidSignature,
{
    let pubkey = match decompress_pubkey(recovered_key) {
        Ok(p) => p,
        Err(_) => {
            return Err(CryptoError::InvalidPubkey);
        },
    };
    let mut sig64: Vec<u8> = Vec::new();
    let mut i: usize = 0;
    while i < 64
        invariant
            i <= 64,
            sig@.len() == 65,
            sig64@ =~= sig@.take(i as int),
        decreases 64 - i,
    {
        sig64.push(sig[i]);
        i = i + 1;
    }
    let verified = verify_signature(&pubkey, msg_hash, &sig64);
    if verified {
        Ok(pubkey)
    } else {
        Err(CryptoError::InvalidSignature)
    }
}

/// The curve operations unit of the secp256k1 accelerator interface.
#[derive(Clone, Copy, Debug, PartialEq, Eq, Structural)]
pub struct Secp256k1Operations;

/// The affine generator point of the curve, as sixteen little-endian words:
/// the x coordinate's eight words, then the y coordinate's.
pub open spec fn spec_secp256k1_generator() -> Seq<u32> {
    seq![
        385357720u32, 1509065051, 768485593, 43777243, 3464956679, 1436574357, 4191992748,
        2042521214, 4212184248, 2621952143, 2793755673, 4246189128, 235997352, 1571093500,
        648266853, 1211816567,
    ]
}

impl Secp256k1Operations {
    /// The generator point's words.
    pub fn generator() -> (r: Vec<u32>)
        ensures
            r@ == spec_secp256k1_generator(),
    {
        let mut v: Vec<u32> = Vec::new();
        v.push(385357720);
        v.push(1509065051);
        v.push(768485593);
        v.push(43777243);
        v.push(3464956679);
        v.push(1436574357);
        v.push(4191992748);
        v.push(2042521214);
        v.push(4212184248);
        v.push(2621952143);
        v.push(2793755673);
        v.push(4246189128);
        v.push(235997352);
        v.push(1571093500);
        v.push(648266853);
        v.push(1211816567);
        proof {
            assert(v@ =~= spec_secp256k1_generator());
        }
        v
    }
}

} // verus!
