//! Key derivation from an identity seed: HKDF-SHA256 with a domain-separation
//! label per purpose.

use vstd::prelude::*;
use vstd::utf8::encode_utf8;

use crate::constants::{ED25519_DERIVE_LABEL, X25519_DERIVE_LABEL};
use crate::error::GhostError;
use crate::text::utf8_bytes;

verus! {

/// The 32 bytes that HKDF-SHA256 (no salt) extracts from `ikm` and expands under `info`.
pub uninterp spec fn spec_hkdf_sha256(ikm: Seq<u8>, info: Seq<u8>) -> Seq<u8>;

/// Runs `Hkdf::<Sha256>::new(None, ikm)` then `expand(info, ..)` into 32 bytes.
///
/// Trusted: hkdf 0.12 fails `expand` only when more than 255 hash blocks are
/// asked for, which 32 bytes never are; the output is named `spec_hkdf_sha256`.
#[verifier::external_body]
fn hkdf_sha256(ikm: &[u8], info: &[u8]) -> (r: Option<[u8; 32]>)
    ensures
        r is Some,
        r matches Some(k) ==> k@ == spec_hkdf_sha256(ikm@, info@),
{
    let hk = hkdf::Hkdf::<sha2::Sha256>::new(None, ikm);
    let mut out = [0u8; 32];
    match hk.expand(info, &mut out) {
        Ok(()) => Some(out),
        Err(_) => None,
    }
}

/// An X25519 static secret, held as its 32 bytes (the bytes
/// `x25519_dalek::StaticSecret::from` takes; a caller that needs the curve
/// operations builds the secret from them).
#[derive(Clone, Copy)]
pub struct X25519Secret {
    pub bytes: [u8; 32],
}

impl X25519Secret {
    /// The secret's 32 bytes.
    pub fn to_bytes(&self) -> (b: [u8; 32])
        ensures
            b == self.bytes,
    {
        self.bytes
    }
}

/// The X25519 secret bytes derived from an identity seed.
pub open spec fn x25519_secret_of(seed: Seq<u8>) -> Seq<u8> {
    spec_hkdf_sha256(seed, encode_utf8(X25519_DERIVE_LABEL@))
}

/// HKDF-SHA256: extract-then-expand with domain separation. Never fails.
pub fn derive_key(ikm: &[u8], info: &[u8]) -> (r: Result<[u8; 32], GhostError>)
    ensures
        r matches Ok(k) && k@ == spec_hkdf_sha256(ikm@, info@),
{
    match hkdf_sha256(ikm, info) {
        Some(k) => Ok(k),
        None => Err(GhostError::Crypto("HKDF expand failed".to_string())),
    }
}

/// The Ed25519 signing-key bytes derived from an identity seed.
pub open spec fn ed25519_seed_of(seed: Seq<u8>) -> Seq<u8> {
    spec_hkdf_sha256(seed, encode_utf8(ED25519_DERIVE_LABEL@))
}

/// Seed -> Ed25519 signing key bytes via HKDF. Never fails.
pub fn derive_ed25519_seed(seed: &[u8; 32]) -> (r: Result<[u8; 32], GhostError>)
    ensures
        r matches Ok(k) && k@ == ed25519_seed_of(seed@),
{
    derive_key(seed, utf8_bytes(ED25519_DERIVE_LABEL))
}

/// Seed -> X25519 static secret via HKDF: the secret's bytes are the HKDF
/// output under the X25519 label. Never fails.
pub fn derive_x25519_secret(seed: &[u8; 32]) -> (r: Result<X25519Secret, GhostError>)
    ensures
        r matches Ok(s) && s.bytes@ == x25519_secret_of(seed@),
{
    let bytes = match derive_key(seed, utf8_bytes(X25519_DERIVE_LABEL)) {
        Ok(b) => b,
        Err(e) => return Err(e),
    };
    Ok(X25519Secret { bytes })
}

} // verus!
