//! Digests and signatures used by the ledger: SHA-256 from `sha2` and
//! Ed25519 from `ed25519-dalek`, called on plain bytes.
use vstd::prelude::*;
use sha2::{Digest, Sha256};
use ed25519_dalek::{Signature, Signer, SigningKey, Verifier, VerifyingKey};

verus! {

/// The SHA-256 digest of a byte sequence.
pub uninterp spec fn sha256_digest(data: Seq<u8>) -> Seq<u8>;

/// The Ed25519 signature (RFC 8032, 64 bytes) that the secret key makes on a message.
pub uninterp spec fn ed25519_signature(secret: Seq<u8>, msg: Seq<u8>) -> Seq<u8>;

/// Whether 32 bytes decompress to a curve point accepted as a public key.
pub uninterp spec fn ed25519_public_key_ok(public: Seq<u8>) -> bool;

/// Whether a 64-byte signature verifies on a message under a public key.
pub uninterp spec fn ed25519_verifies(public: Seq<u8>, sig: Seq<u8>, msg: Seq<u8>) -> bool;

/// `Sha256::digest` from `sha2`: the result is the digest named by
/// `sha256_digest` on the input bytes, and it is 32 bytes long.
#[verifier::external_body]
pub(crate) fn sha256(data: &[u8]) -> (r: Vec<u8>)
    ensures
        r@ == sha256_digest(data@),
        r@.len() == 32,
{
    Sha256::digest(data).to_vec()
}

/// `SigningKey::sign` from `ed25519-dalek` with the key made by
/// `SigningKey::from_bytes` from the 32 secret bytes; the signature's bytes
/// are those that `ed25519_signature` names (Ed25519 signing is deterministic).
#[verifier::external_body]
pub(crate) fn ed25519_sign(secret: &[u8; 32], msg: &[u8]) -> (r: [u8; 64])
    ensures
        r@ == ed25519_signature(secret@, msg@),
{
    SigningKey::from_bytes(secret).sign(msg).to_bytes()
}

/// `VerifyingKey::from_bytes` from `ed25519-dalek`: whether it returns `Ok`.
#[verifier::external_body]
pub(crate) fn ed25519_key_accepted(public: &[u8; 32]) -> (r: bool)
    ensures
        r == ed25519_public_key_ok(public@),
{
    VerifyingKey::from_bytes(public).is_ok()
}

/// `Verifier::verify` of the key made by `VerifyingKey::from_bytes` (which the
/// precondition says succeeds) on the signature made by `Signature::from_bytes`:
/// whether it returns `Ok`.
#[verifier::external_body]
pub(crate) fn ed25519_verify(public: &[u8; 32], sig: &[u8; 64], msg: &[u8]) -> (r: bool)
    requires
        ed25519_public_key_ok(public@),
    ensures
        r == ed25519_verifies(public@, sig@, msg@),
{
    match VerifyingKey::from_bytes(public) {
        Ok(key) => key.verify(msg, &Signature::from_bytes(sig)).is_ok(),
        Err(_) => false,
    }
}

/// The Ed25519 public key (32 bytes) of a 32-byte secret key.
pub uninterp spec fn ed25519_public_key(secret: Seq<u8>) -> Seq<u8>;

/// Whether `public` is the public key that goes with `secret`: it is a key
/// `VerifyingKey::from_bytes` accepts, and every signature the secret makes
/// is 64 bytes long and verifies under it.
pub open spec fn key_pair(secret: Seq<u8>, public: Seq<u8>) -> bool {
    &&& public.len() == 32
    &&& ed25519_public_key_ok(public)
    &&& forall|m: Seq<u8>| #[trigger] ed25519_signature(secret, m).len() == 64
        && ed25519_verifies(public, ed25519_signature(secret, m), m)
}

/// `SigningKey::verifying_key` from `ed25519-dalek`, for the key made by
/// `SigningKey::from_bytes`: the bytes of the public key, which goes with
/// the secret (Ed25519 signatures made with a secret key verify under its
/// public key).
#[verifier::external_body]
pub(crate) fn ed25519_public(secret: &[u8; 32]) -> (r: [u8; 32])
    ensures
        r@ == ed25519_public_key(secret@),
        key_pair(secret@, r@),
{
    SigningKey::from_bytes(secret).verifying_key().to_bytes()
}

} // verus!
