//! Hashing and signature checking, taken from outside crates.

use vstd::prelude::*;

verus! {

/// A 256-bit digest.
pub type H256 = [u8; 32];

/// The BLAKE2b-256 digest of a byte string.
pub uninterp spec fn blake2_256_of(data: Seq<u8>) -> Seq<u8>;

/// Whether `sig` is a valid Ed25519 signature of `msg` under the public key `key`.
pub uninterp spec fn ed25519_valid(sig: Seq<u8>, msg: Seq<u8>, key: Seq<u8>) -> bool;

/// Relies on `blake2_rfc::blake2b::blake2b` with a 32-byte output and no key:
/// the digest depends on the input bytes alone.
#[verifier::external_body]
pub fn blake2_256(data: &[u8]) -> (r: H256)
    ensures
        r@ == blake2_256_of(data@),
{
    let digest = blake2_rfc::blake2b::blake2b(32, &[], data);
    let mut out = [0u8; 32];
    out.copy_from_slice(digest.as_bytes());
    out
}

/// Relies on `ed25519_dalek::VerifyingKey::from_bytes` and its `Verifier::verify`:
/// `true` exactly when the key decodes to a curve point and the signature
/// checks over `msg` under it. The outcome depends on the three byte strings alone.
#[verifier::external_body]
pub fn ed25519_verify(sig: &[u8; 64], msg: &[u8], key: &[u8; 32]) -> (r: bool)
    ensures
        r == ed25519_valid(sig@, msg@, key@),
{
    match ed25519_dalek::VerifyingKey::from_bytes(key) {
        Ok(vk) => ed25519_dalek::Verifier::verify(
            &vk,
            msg,
            &ed25519_dalek::Signature::from_bytes(sig),
        ).is_ok(),
        Err(_) => false,
    }
}

} // verus!
