//! AES-256-GCM sealing with a fresh random nonce, the blob format
//! `nonce || ciphertext` used for sync messages and presence blobs.

use vstd::prelude::*;

use aes_gcm::aead::Aead;
use aes_gcm::{AeadCore, KeyInit};

use crate::codec::{copy12, put_bytes};

verus! {

/// Largest plaintext AES-GCM accepts: 2^36 bytes.
pub const AES_GCM_P_MAX: u64 = 0x10_0000_0000u64;

/// The AES-256-GCM ciphertext (with its 16-byte tag) of `pt` under `key` and `nonce`.
pub uninterp spec fn spec_aes_gcm_seal(key: Seq<u8>, nonce: Seq<u8>, pt: Seq<u8>) -> Seq<u8>;

/// The AES-256-GCM decryption of `ct` under `key` and `nonce`; `None` when the tag does not verify.
pub uninterp spec fn spec_aes_gcm_open(key: Seq<u8>, nonce: Seq<u8>, ct: Seq<u8>) -> Option<Seq<u8>>;

/// Encrypts with `Aes256Gcm::encrypt` (no associated data).
///
/// Trusted: aes-gcm 0.10 encrypts exactly when the plaintext is at most 2^36
/// bytes; the ciphertext is named `spec_aes_gcm_seal`, is 16 bytes longer than
/// the plaintext, and decrypts under the same key and nonce to the plaintext.
#[verifier::external_body]
pub(crate) fn aes256gcm_seal(key: &[u8; 32], nonce: &[u8; 12], pt: &[u8]) -> (r: Option<Vec<u8>>)
    ensures
        r is Some <==> pt@.len() <= AES_GCM_P_MAX,
        r matches Some(c) ==> {
            &&& c@ == spec_aes_gcm_seal(key@, nonce@, pt@)
            &&& c@.len() == pt@.len() + 16
            &&& spec_aes_gcm_open(key@, nonce@, c@) == Some(pt@)
        },
{
    let cipher = aes_gcm::Aes256Gcm::new(key.into());
    cipher.encrypt(aes_gcm::Nonce::from_slice(nonce), pt).ok()
}

/// Decrypts with `Aes256Gcm::decrypt` (no associated data).
///
/// Trusted: the result is the decryption named `spec_aes_gcm_open`, `None`
/// when authentication fails; a plaintext is the ciphertext less its 16-byte
/// tag.
#[verifier::external_body]
pub(crate) fn aes256gcm_open(key: &[u8; 32], nonce: &[u8; 12], ct: &[u8]) -> (r: Option<Vec<u8>>)
    ensures
        match r {
            Some(p) => spec_aes_gcm_open(key@, nonce@, ct@) == Some(p@) && p@.len() + 16 == ct@.len(),
            None => spec_aes_gcm_open(key@, nonce@, ct@) is None,
        },
{
    let cipher = aes_gcm::Aes256Gcm::new(key.into());
    cipher.decrypt(aes_gcm::Nonce::from_slice(nonce), ct).ok()
}

/// A fresh nonce from `Aes256Gcm::generate_nonce` fed by the operating
/// system's random number generator (`aes_gcm::aead::OsRng`). Nothing is
/// claimed of its value.
#[verifier::external_body]
pub(crate) fn random_nonce() -> (n: [u8; 12]) {
    aes_gcm::Aes256Gcm::generate_nonce(&mut aes_gcm::aead::OsRng).into()
}

/// `n` bytes from the operating system's random number generator
/// (`rand::rngs::OsRng`, `RngCore::fill_bytes`). Only their count is claimed.
#[verifier::external_body]
pub(crate) fn os_random_bytes(n: usize) -> (v: Vec<u8>)
    ensures
        v@.len() == n,
{
    let mut v = vec![0u8; n];
    rand::RngCore::fill_bytes(&mut rand::rngs::OsRng, v.as_mut_slice());
    v
}

/// `blob` is `nonce || ciphertext` of `pt` under `key` for some nonce.
pub open spec fn sealed_blob(key: Seq<u8>, pt: Seq<u8>, blob: Seq<u8>) -> bool {
    &&& blob.len() == 12 + pt.len() + 16
    &&& blob.subrange(12, blob.len() as int) == spec_aes_gcm_seal(key, blob.subrange(0, 12), pt)
    &&& spec_aes_gcm_open(key, blob.subrange(0, 12), blob.subrange(12, blob.len() as int)) == Some(pt)
}

/// What opening `blob` under `key` gives: `None` when it is shorter than
/// `min_len` or does not authenticate.
pub open spec fn opened_blob(key: Seq<u8>, blob: Seq<u8>, min_len: int) -> Option<Seq<u8>> {
    if blob.len() < min_len {
        None
    } else {
        spec_aes_gcm_open(key, blob.subrange(0, 12), blob.subrange(12, blob.len() as int))
    }
}

/// Seals `pt` as `nonce || ciphertext` with a fresh random nonce; `None` only
/// when the plaintext is too long for AES-GCM.
pub fn seal_blob(key: &[u8; 32], pt: &[u8]) -> (r: Option<Vec<u8>>)
    ensures
        r is Some <==> pt@.len() <= AES_GCM_P_MAX,
        r matches Some(b) ==> sealed_blob(key@, pt@, b@),
{
    let nonce = random_nonce();
    let ct = match aes256gcm_seal(key, &nonce, pt) {
        Some(c) => c,
        None => return None,
    };
    let mut blob: Vec<u8> = Vec::new();
    put_bytes(&mut blob, &nonce);
    put_bytes(&mut blob, ct.as_slice());
    assert(blob@.subrange(0, 12) =~= nonce@);
    assert(blob@.subrange(12, blob@.len() as int) =~= ct@);
    Some(blob)
}

/// Opens a `nonce || ciphertext` blob of at least `min_len` (at least 12) bytes.
pub fn open_blob(key: &[u8; 32], blob: &[u8], min_len: usize) -> (r: Option<Vec<u8>>)
    requires
        min_len >= 12,
    ensures
        match r {
            Some(p) => opened_blob(key@, blob@, min_len as int) == Some(p@),
            None => opened_blob(key@, blob@, min_len as int) is None,
        },
{
    if blob.len() < min_len {
        return None;
    }
    let nonce = copy12(blob, 0);
    aes256gcm_open(key, &nonce, vstd::slice::slice_subrange(blob, 12, blob.len()))
}

/// Opening a blob sealed under the same key gives back the plaintext.
pub proof fn law_seal_open(key: Seq<u8>, pt: Seq<u8>, blob: Seq<u8>, min_len: int)
    requires
        sealed_blob(key, pt, blob),
        12 <= min_len <= 28,
    ensures
        opened_blob(key, blob, min_len) == Some(pt),
{
}

} // verus!
