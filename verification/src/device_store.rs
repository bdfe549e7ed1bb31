//! The device credentials kept in the operating system's keyring between
//! launches: the account fingerprint, the device signing key and the keys of
//! the two local databases, stored as one hexadecimal string.

use vstd::prelude::*;
use vstd::utf8::encode_utf8;

use crate::codec::{copy32, put_bytes};
use crate::error::GhostError;
use crate::relay_paths::{dec_text, decimal};
use crate::text::{hex_decode, hex_decoded, hex_encode, hex_lower, lemma_hex_roundtrip, spec_hex_decode_error, string_concat};

verus! {

/// The length of the stored credentials: four 32-byte fields.
pub const DEVICE_BLOB_SIZE: usize = 128;

/// What a device needs to open its client again.
pub struct StoredDevice {
    pub fingerprint: [u8; 32],
    pub signing_key: [u8; 32],
    pub db_key: [u8; 32],
    pub mls_db_key: [u8; 32],
}

/// The stored bytes: fingerprint, signing key, database key, group-state
/// database key.
pub open spec fn device_blob(d: StoredDevice) -> Seq<u8> {
    d.fingerprint@ + d.signing_key@ + d.db_key@ + d.mls_db_key@
}

/// The text the keyring holds for a device: its bytes in lowercase hex.
pub fn encode_device(d: &StoredDevice) -> (text: String)
    ensures
        text@ == hex_lower(device_blob(*d)),
{
    let mut blob: Vec<u8> = Vec::new();
    put_bytes(&mut blob, &d.fingerprint);
    put_bytes(&mut blob, &d.signing_key);
    put_bytes(&mut blob, &d.db_key);
    put_bytes(&mut blob, &d.mls_db_key);
    hex_encode(blob.as_slice())
}

/// Reads the keyring's text for a device: an `InvalidKey` error when it is
/// not hex (`bad hex in keyring: ` and the hex decoder's reason) or not 128
/// bytes long (`expected 128 bytes, got ` and the length).
pub fn decode_device(text: &str) -> (r: Result<StoredDevice, GhostError>)
    ensures
        match r {
            Ok(d) => hex_decoded(encode_utf8(text@)) == Some(device_blob(d)),
            Err(e) => match hex_decoded(encode_utf8(text@)) {
                Some(b) => b.len() != DEVICE_BLOB_SIZE && (e matches GhostError::InvalidKey(m)
                    && m@ == "expected 128 bytes, got "@ + dec_text(b.len())),
                None => e matches GhostError::InvalidKey(m) && m@ == "bad hex in keyring: "@ + spec_hex_decode_error(text@),
            },
        },
{
    let blob = match hex_decode(text) {
        Ok(b) => b,
        Err(reason) => {
            return Err(GhostError::InvalidKey(string_concat("bad hex in keyring: ".to_string(), reason.as_str())));
        },
    };
    if blob.len() != DEVICE_BLOB_SIZE {
        let got = decimal(blob.len() as u64);
        return Err(GhostError::InvalidKey(string_concat("expected 128 bytes, got ".to_string(), got.as_str())));
    }
    let fingerprint = copy32(blob.as_slice(), 0);
    let signing_key = copy32(blob.as_slice(), 32);
    let db_key = copy32(blob.as_slice(), 64);
    let mls_db_key = copy32(blob.as_slice(), 96);
    let d = StoredDevice { fingerprint, signing_key, db_key, mls_db_key };
    assert(blob@ =~= device_blob(d));
    Ok(d)
}

/// The stored bytes determine the credentials.
proof fn lemma_blob_injective(d: StoredDevice, e: StoredDevice)
    requires
        device_blob(d) == device_blob(e),
    ensures
        e == d,
{
    let b = device_blob(d);
    assert(b.subrange(0, 32) =~= d.fingerprint@);
    assert(b.subrange(0, 32) =~= e.fingerprint@);
    assert(b.subrange(32, 64) =~= d.signing_key@);
    assert(b.subrange(32, 64) =~= e.signing_key@);
    assert(b.subrange(64, 96) =~= d.db_key@);
    assert(b.subrange(64, 96) =~= e.db_key@);
    assert(b.subrange(96, 128) =~= d.mls_db_key@);
    assert(b.subrange(96, 128) =~= e.mls_db_key@);
    broadcast use vstd::array::group_array_axioms;
    assert(e.fingerprint =~= d.fingerprint);
    assert(e.signing_key =~= d.signing_key);
    assert(e.db_key =~= d.db_key);
    assert(e.mls_db_key =~= d.mls_db_key);
}

/// Reading back the text `encode_device` stored for `d` succeeds, and
/// whatever it gives is `d`.
pub proof fn law_device_roundtrip(d: StoredDevice)
    ensures
        hex_decoded(encode_utf8(hex_lower(device_blob(d)))) == Some(device_blob(d)),
        device_blob(d).len() == DEVICE_BLOB_SIZE,
        forall|e: StoredDevice| #[trigger] device_blob(e) == device_blob(d) ==> e == d,
{
    lemma_hex_roundtrip(device_blob(d));
    assert forall|e: StoredDevice| #[trigger] device_blob(e) == device_blob(d) implies e == d by {
        lemma_blob_injective(d, e);
    }
}

} // verus!
