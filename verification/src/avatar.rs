//! Profile pictures: sealed under a per-upload key before they leave the
//! device, identified by the hash of the sealed blob, opened again by the
//! members that received the key, and shown as `data:` URLs.

use vstd::prelude::*;

use crate::aead::{opened_blob, open_blob, os_random_bytes, seal_blob, sealed_blob, AES_GCM_P_MAX};
use crate::codec::bytes_eq;
use crate::error::GhostError;
use crate::ids::{blake3_hash, spec_blake3};
use crate::records::blob32;
use crate::relay::{base64_std, spec_base64_std};
use crate::text::string_concat;

verus! {

/// An avatar ready for upload: the key members receive, the sealed blob the
/// relay stores, and the hash that names this version.
pub struct SealedAvatar {
    pub key: [u8; 32],
    pub blob: Vec<u8>,
    pub hash: [u8; 32],
}

/// Seals `data` under the fresh random `key`: the blob is
/// `nonce || ciphertext`, and the hash is BLAKE3 over the blob.
pub fn seal_avatar(key: [u8; 32], data: &[u8]) -> (r: Result<SealedAvatar, GhostError>)
    ensures
        r is Ok <==> data@.len() <= AES_GCM_P_MAX,
        r matches Ok(a) ==> a.key == key && sealed_blob(key@, data@, a.blob@) && a.hash@ == spec_blake3(a.blob@),
{
    let blob = match seal_blob(&key, data) {
        Some(b) => b,
        None => return Err(GhostError::Crypto("encrypt avatar: aead::Error".to_string())),
    };
    let hash = blake3_hash(blob.as_slice());
    Ok(SealedAvatar { key, blob, hash })
}

/// Seals `data` for upload under a key drawn from the operating system's
/// random number generator.
pub fn seal_new_avatar(data: &[u8]) -> (r: Result<SealedAvatar, GhostError>)
    ensures
        r is Ok <==> data@.len() <= AES_GCM_P_MAX,
        r matches Ok(a) ==> sealed_blob(a.key@, data@, a.blob@) && a.hash@ == spec_blake3(a.blob@),
{
    let fresh = os_random_bytes(32);
    let key = match blob32(fresh.as_slice()) {
        Some(k) => k,
        None => return Err(GhostError::Crypto("random key".to_string())),
    };
    seal_avatar(key, data)
}

/// Opens a fetched avatar blob (`nonce || ciphertext`, at least 28 bytes)
/// with the key its owner sent; `None` when it is too short or does not
/// authenticate.
pub fn open_avatar(key: &[u8; 32], blob: &[u8]) -> (r: Option<Vec<u8>>)
    ensures
        match r {
            Some(p) => opened_blob(key@, blob@, 28) == Some(p@),
            None => opened_blob(key@, blob@, 28) is None,
        },
{
    open_blob(key, blob, 28)
}

/// Whether the hash cached beside an avatar names the version announced,
/// so that it need not be fetched again.
pub fn cached_avatar_is_current(stored_hash: &[u8], announced: &[u8; 32]) -> (r: bool)
    ensures
        r == (stored_hash@ == announced@),
{
    bytes_eq(stored_hash, announced)
}

/// The media type an avatar's first bytes announce: GIF, PNG or JPEG by
/// their signatures, WebP otherwise.
pub open spec fn avatar_mime_of(b: Seq<u8>) -> Seq<char> {
    if b.len() >= 3 && b[0] == 0x47 && b[1] == 0x49 && b[2] == 0x46 {
        "image/gif"@
    } else if b.len() >= 4 && b[0] == 0x89 && b[1] == 0x50 && b[2] == 0x4E && b[3] == 0x47 {
        "image/png"@
    } else if b.len() >= 2 && b[0] == 0xFF && b[1] == 0xD8 {
        "image/jpeg"@
    } else {
        "image/webp"@
    }
}

/// The media type of a cached avatar.
pub fn avatar_mime(bytes: &[u8]) -> (m: &'static str)
    ensures
        m@ == avatar_mime_of(bytes@),
{
    proof {
        reveal_strlit("image/gif");
        reveal_strlit("image/png");
        reveal_strlit("image/jpeg");
        reveal_strlit("image/webp");
    }
    if bytes.len() >= 3 && bytes[0] == 0x47 && bytes[1] == 0x49 && bytes[2] == 0x46 {
        "image/gif"
    } else if bytes.len() >= 4 && bytes[0] == 0x89 && bytes[1] == 0x50 && bytes[2] == 0x4E && bytes[3] == 0x47 {
        "image/png"
    } else if bytes.len() >= 2 && bytes[0] == 0xFF && bytes[1] == 0xD8 {
        "image/jpeg"
    } else {
        "image/webp"
    }
}

/// The `data:` URL the interface shows a cached avatar with:
/// `data:<type>;base64,<standard base64 of the bytes>`.
pub fn avatar_data_url(bytes: &[u8]) -> (u: String)
    requires
        bytes@.len() <= usize::MAX / 2,
    ensures
        u@ == "data:"@ + avatar_mime_of(bytes@) + ";base64,"@ + spec_base64_std(bytes@),
{
    let mime = avatar_mime(bytes);
    let b64 = base64_std(bytes);
    let u = string_concat("data:".to_string(), mime);
    let u = string_concat(u, ";base64,");
    string_concat(u, b64.as_str())
}

} // verus!
