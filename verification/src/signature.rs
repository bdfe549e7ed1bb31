//! Ed25519 through `ed25519_dalek`: signing keys are held as their 32 secret
//! bytes, verifying keys and signatures as byte arrays.

use vstd::prelude::*;

use ed25519_dalek::Signer;

verus! {

/// The Ed25519 verifying key of a signing key given by its 32 secret bytes.
pub uninterp spec fn spec_ed25519_public(secret: Seq<u8>) -> Seq<u8>;

/// The Ed25519 signature of `msg` under a signing key given by its 32 secret bytes.
pub uninterp spec fn spec_ed25519_sign(secret: Seq<u8>, msg: Seq<u8>) -> Seq<u8>;

/// Whether `ed25519_dalek`'s strict verification accepts `sig` on `msg` under `vk`
/// (false also when `vk` is not a valid point).
pub uninterp spec fn spec_ed25519_verify_strict(vk: Seq<u8>, msg: Seq<u8>, sig: Seq<u8>) -> bool;

/// The verifying key of `SigningKey::from_bytes(secret)`.
///
/// Trusted: the result is the verifying key's 32 bytes, named `spec_ed25519_public`.
#[verifier::external_body]
pub(crate) fn ed25519_public(secret: &[u8; 32]) -> (vk: [u8; 32])
    ensures
        vk@ == spec_ed25519_public(secret@),
{
    ed25519_dalek::SigningKey::from_bytes(secret).verifying_key().to_bytes()
}

/// Signs `msg` with `SigningKey::from_bytes(secret)` (`Signer::sign`).
///
/// Trusted: Ed25519 signing is deterministic; the 64 signature bytes are named
/// `spec_ed25519_sign`. Nothing is claimed about verification.
#[verifier::external_body]
pub(crate) fn ed25519_sign(secret: &[u8; 32], msg: &[u8]) -> (sig: [u8; 64])
    ensures
        sig@ == spec_ed25519_sign(secret@, msg@),
{
    ed25519_dalek::SigningKey::from_bytes(secret).sign(msg).to_bytes()
}

/// Checks a signature with `VerifyingKey::from_bytes` then `verify_strict`.
///
/// Trusted: the answer is named `spec_ed25519_verify_strict`, a function of
/// the key, message and signature bytes.
#[verifier::external_body]
pub(crate) fn ed25519_verify_strict(vk: &[u8; 32], msg: &[u8], sig: &[u8; 64]) -> (ok: bool)
    ensures
        ok == spec_ed25519_verify_strict(vk@, msg@, sig@),
{
    match ed25519_dalek::VerifyingKey::from_bytes(vk) {
        Ok(key) => key.verify_strict(msg, &ed25519_dalek::Signature::from_bytes(sig)).is_ok(),
        Err(_) => false,
    }
}

} // verus!
