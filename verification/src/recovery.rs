//! Passphrase-protected recovery blobs holding the identity seed and the
//! device-sync key: `[version:1][salt:32][nonce:12][AES-256-GCM ciphertext]`,
//! keyed by Argon2id over the passphrase.
//!
//! Version 1 holds the seed only (93 bytes); versions 2 and 3 hold seed and
//! sync key (125 bytes). Versions 1 and 2 use the older Argon2 cost; version 3,
//! the one written, uses the hardened cost.

use vstd::prelude::*;
use vstd::utf8::encode_utf8;

use crate::aead::{aes256gcm_open, aes256gcm_seal, os_random_bytes, spec_aes_gcm_open, spec_aes_gcm_seal};
use crate::codec::{copy12, copy32, put_bytes};
use crate::error::GhostError;
use crate::text::utf8_bytes;

verus! {

/// Fewest characters a passphrase must have for a recovery blob to be
/// sealed under it.
pub const MIN_PASSPHRASE_CHARS: usize = 12;

/// Whether a passphrase is long enough to seal a recovery blob under.
pub fn passphrase_long_enough(passphrase: &str) -> (r: bool)
    ensures
        r == (passphrase@.len() >= MIN_PASSPHRASE_CHARS),
{
    passphrase.unicode_len() >= MIN_PASSPHRASE_CHARS
}

/// Length of a version 1 blob (seed only).
pub const V1_LEN: usize = 93;
/// Length of a version 2 blob (seed and sync key).
pub const V2_LEN: usize = 125;
/// Length of a version 3 blob: the version 2 layout with the hardened cost.
pub const V3_LEN: usize = 125;

/// Argon2 memory cost (KiB) of versions 1 and 2.
pub const V2_ARGON2_MEMORY_KIB: u32 = 19456;
/// Argon2 iterations of versions 1 and 2.
pub const V2_ARGON2_ITERATIONS: u32 = 2;
/// Argon2 parallelism of versions 1 and 2.
pub const V2_ARGON2_PARALLELISM: u32 = 1;
/// Argon2 memory cost (KiB) of version 3.
pub const ARGON2_MEMORY_KIB: u32 = 65536;
/// Argon2 iterations of version 3.
pub const ARGON2_ITERATIONS: u32 = 3;
/// Argon2 parallelism of version 3.
pub const ARGON2_PARALLELISM: u32 = 1;

/// Longest password or salt argon2 accepts.
pub const ARGON2_MAX_INPUT: u64 = 0xFFFF_FFFFu64;

/// The 32-byte Argon2id (version 0x13) hash of `pwd` under `salt` and the given costs.
pub uninterp spec fn spec_argon2id(pwd: Seq<u8>, salt: Seq<u8>, m_kib: u32, t: u32, p: u32) -> Seq<u8>;

/// Whether argon2 0.5 accepts these costs and input lengths for a 32-byte output.
pub open spec fn argon2_accepts(pwd_len: int, salt_len: int, m_kib: u32, t: u32, p: u32) -> bool {
    &&& m_kib >= 8
    &&& m_kib >= 8 * p
    &&& t >= 1
    &&& 1 <= p <= 0xFF_FFFF
    &&& pwd_len <= ARGON2_MAX_INPUT
    &&& 8 <= salt_len <= ARGON2_MAX_INPUT
}

/// Derives a 32-byte key with `argon2::Params::new(m_kib, t, p, Some(32))`,
/// `Argon2::new(Argon2id, V0x13, ..)` and `hash_password_into`.
///
/// Trusted: argon2 0.5.3 refuses exactly the costs and lengths that
/// `argon2_accepts` leaves out (the output length is always 32); the key is
/// named `spec_argon2id`. `p` is bounded so that `8 * p` does not overflow
/// inside `Params::new`.
#[verifier::external_body]
fn argon2id_key(pwd: &[u8], salt: &[u8], m_kib: u32, t: u32, p: u32) -> (r: Option<[u8; 32]>)
    requires
        p <= 0x1FFF_FFFF,
    ensures
        r is Some <==> argon2_accepts(pwd@.len() as int, salt@.len() as int, m_kib, t, p),
        r matches Some(k) ==> k@ == spec_argon2id(pwd@, salt@, m_kib, t, p),
{
    let params = argon2::Params::new(m_kib, t, p, Some(32)).ok()?;
    let hasher = argon2::Argon2::new(argon2::Algorithm::Argon2id, argon2::Version::V0x13, params);
    let mut key = [0u8; 32];
    hasher.hash_password_into(pwd, salt, &mut key).ok()?;
    Some(key)
}

/// What a recovery blob restores: the identity seed and, from version 2 on,
/// the device-sync key.
pub struct RecoveryBlob {
    pub seed: [u8; 32],
    pub sync_key: Option<[u8; 32]>,
}

/// The Argon2 costs of a blob version.
pub open spec fn version_costs(version: u8) -> (u32, u32, u32) {
    if version == 3 {
        (ARGON2_MEMORY_KIB, ARGON2_ITERATIONS, ARGON2_PARALLELISM)
    } else {
        (V2_ARGON2_MEMORY_KIB, V2_ARGON2_ITERATIONS, V2_ARGON2_PARALLELISM)
    }
}

/// The length a blob of a known version must have.
pub open spec fn version_len(version: u8) -> int {
    if version == 1 { V1_LEN as int } else { V2_LEN as int }
}

/// The plaintext length a blob of a known version must decrypt to.
pub open spec fn version_plain_len(version: u8) -> int {
    if version == 1 { 32 } else { 64 }
}

/// The key a blob is sealed under: Argon2id of the passphrase over the blob's salt.
pub open spec fn blob_key(data: Seq<u8>, pwd: Seq<u8>) -> Seq<u8> {
    let (m, t, p) = version_costs(data[0]);
    spec_argon2id(pwd, data.subrange(1, 33), m, t, p)
}

/// What the blob's ciphertext decrypts to under the passphrase's key.
pub open spec fn blob_plaintext(data: Seq<u8>, pwd: Seq<u8>) -> Option<Seq<u8>> {
    spec_aes_gcm_open(blob_key(data, pwd), data.subrange(33, 45), data.subrange(45, data.len() as int))
}

/// The blob has a known version and that version's length.
pub open spec fn blob_well_framed(data: Seq<u8>) -> bool {
    &&& data.len() > 0
    &&& 1 <= data[0] <= 3
    &&& data.len() == version_len(data[0])
}

/// `blob` is a version 3 blob sealing `seed || sync_key` under `pwd`.
pub open spec fn exported_blob(seed: Seq<u8>, sync_key: Seq<u8>, pwd: Seq<u8>, blob: Seq<u8>) -> bool {
    &&& blob.len() == V3_LEN
    &&& blob[0] == 3
    &&& blob.subrange(45, 125) == spec_aes_gcm_seal(blob_key(blob, pwd), blob.subrange(33, 45), seed + sync_key)
    &&& spec_aes_gcm_open(blob_key(blob, pwd), blob.subrange(33, 45), blob.subrange(45, 125)) == Some(seed + sync_key)
}

fn derive_export_key(pwd: &[u8], salt: &[u8], m_kib: u32, t: u32, p: u32) -> (r: Result<[u8; 32], GhostError>)
    requires
        p <= 0x1FFF_FFFF,
    ensures
        match r {
            Ok(k) => argon2_accepts(pwd@.len() as int, salt@.len() as int, m_kib, t, p)
                && k@ == spec_argon2id(pwd@, salt@, m_kib, t, p),
            Err(e) => e is Crypto && !argon2_accepts(pwd@.len() as int, salt@.len() as int, m_kib, t, p),
        },
{
    match argon2id_key(pwd, salt, m_kib, t, p) {
        Some(k) => Ok(k),
        None => Err(GhostError::Crypto("argon2 key derivation failed".to_string())),
    }
}

/// Encrypts seed and sync key under a passphrase as a 125-byte version 3 blob,
/// with a fresh random salt and nonce. Fails (with `Crypto`) only when the
/// passphrase is longer than argon2 accepts.
pub fn export_recovery_blob(seed: &[u8; 32], sync_key: &[u8; 32], passphrase: &str) -> (r: Result<Vec<u8>, GhostError>)
    ensures
        match r {
            Ok(b) => exported_blob(seed@, sync_key@, encode_utf8(passphrase@), b@),
            Err(e) => e is Crypto && encode_utf8(passphrase@).len() > ARGON2_MAX_INPUT,
        },
{
    let pwd = utf8_bytes(passphrase);
    let salt = os_random_bytes(32);
    let key = match derive_export_key(pwd, salt.as_slice(), ARGON2_MEMORY_KIB, ARGON2_ITERATIONS, ARGON2_PARALLELISM) {
        Ok(k) => k,
        Err(e) => return Err(e),
    };
    let nonce_bytes = os_random_bytes(12);
    let nonce = copy12(nonce_bytes.as_slice(), 0);
    assert(nonce@ =~= nonce_bytes@);
    let mut plaintext: Vec<u8> = Vec::new();
    put_bytes(&mut plaintext, seed);
    put_bytes(&mut plaintext, sync_key);
    let ciphertext = match aes256gcm_seal(&key, &nonce, plaintext.as_slice()) {
        Some(c) => c,
        None => return Err(GhostError::Export("encrypt failed".to_string())),
    };
    let mut out: Vec<u8> = Vec::new();
    out.push(3u8);
    put_bytes(&mut out, salt.as_slice());
    put_bytes(&mut out, &nonce);
    put_bytes(&mut out, ciphertext.as_slice());
    proof {
        assert(out@.subrange(1, 33) =~= salt@);
        assert(out@.subrange(33, 45) =~= nonce@);
        assert(out@.subrange(45, 125) =~= ciphertext@);
    }
    Ok(out)
}

/// Decrypts a recovery blob of any known version.
///
/// Errors: `Format` when the blob is empty, of an unknown version or of the
/// wrong length for its version; `Crypto` when the passphrase is too long for
/// argon2; `AuthenticationFailed` when the ciphertext does not authenticate
/// under the passphrase. A well-framed blob that authenticates always imports:
/// its plaintext is the ciphertext less the 16-byte tag, the length the
/// version calls for.
pub fn import_recovery_blob(data: &[u8], passphrase: &str) -> (r: Result<RecoveryBlob, GhostError>)
    ensures
        match r {
            Ok(b) => {
                &&& blob_well_framed(data@)
                &&& encode_utf8(passphrase@).len() <= ARGON2_MAX_INPUT
                &&& blob_plaintext(data@, encode_utf8(passphrase@)) matches Some(pt)
                &&& pt.len() == version_plain_len(data@[0])
                &&& b.seed@ == pt.subrange(0, 32)
                &&& if data@[0] == 1 {
                    b.sync_key is None
                } else {
                    b.sync_key matches Some(k) && k@ == pt.subrange(32, 64)
                }
            },
            Err(e) => if !blob_well_framed(data@) {
                e is Format
            } else if encode_utf8(passphrase@).len() > ARGON2_MAX_INPUT {
                e is Crypto
            } else {
                e is AuthenticationFailed && blob_plaintext(data@, encode_utf8(passphrase@)) is None
            },
        },
{
    if data.len() == 0 {
        return Err(GhostError::Format("empty blob".to_string()));
    }
    let version = data[0];
    if version == 1 {
        import_v1(data, passphrase)
    } else if version == 2 {
        import_v2(data, passphrase)
    } else if version == 3 {
        import_v3(data, passphrase)
    } else {
        Err(GhostError::Format("unsupported version".to_string()))
    }
}

fn import_v1(data: &[u8], passphrase: &str) -> (r: Result<RecoveryBlob, GhostError>)
    requires
        data@.len() > 0,
        data@[0] == 1,
    ensures
        match r {
            Ok(b) => {
                &&& blob_well_framed(data@)
                &&& encode_utf8(passphrase@).len() <= ARGON2_MAX_INPUT
                &&& blob_plaintext(data@, encode_utf8(passphrase@)) matches Some(pt)
                &&& pt.len() == 32
                &&& b.seed@ == pt.subrange(0, 32)
                &&& b.sync_key is None
            },
            Err(e) => if !blob_well_framed(data@) {
                e is Format
            } else if encode_utf8(passphrase@).len() > ARGON2_MAX_INPUT {
                e is Crypto
            } else {
                e is AuthenticationFailed && blob_plaintext(data@, encode_utf8(passphrase@)) is None
            },
        },
{
    if data.len() != V1_LEN {
        return Err(GhostError::Format("v1: wrong length".to_string()));
    }
    let pwd = utf8_bytes(passphrase);
    let salt = vstd::slice::slice_subrange(data, 1, 33);
    let key = match derive_export_key(pwd, salt, V2_ARGON2_MEMORY_KIB, V2_ARGON2_ITERATIONS, V2_ARGON2_PARALLELISM) {
        Ok(k) => k,
        Err(e) => return Err(e),
    };
    let nonce = copy12(data, 33);
    let plaintext = match aes256gcm_open(&key, &nonce, vstd::slice::slice_subrange(data, 45, 93)) {
        Some(p) => p,
        None => return Err(GhostError::AuthenticationFailed),
    };
    if plaintext.len() != 32 {
        return Err(GhostError::InvalidKey("v1: decrypted seed not 32 bytes".to_string()));
    }
    let seed = copy32(plaintext.as_slice(), 0);
    Ok(RecoveryBlob { seed, sync_key: None })
}

fn import_v2(data: &[u8], passphrase: &str) -> (r: Result<RecoveryBlob, GhostError>)
    requires
        data@.len() > 0,
        data@[0] == 2,
    ensures
        import_v2v3_outcome(data@, encode_utf8(passphrase@), r),
{
    if data.len() != V2_LEN {
        return Err(GhostError::Format("v2: wrong length".to_string()));
    }
    import_v2v3_inner(data, passphrase, V2_ARGON2_MEMORY_KIB, V2_ARGON2_ITERATIONS, V2_ARGON2_PARALLELISM)
}

fn import_v3(data: &[u8], passphrase: &str) -> (r: Result<RecoveryBlob, GhostError>)
    requires
        data@.len() > 0,
        data@[0] == 3,
    ensures
        import_v2v3_outcome(data@, encode_utf8(passphrase@), r),
{
    if data.len() != V3_LEN {
        return Err(GhostError::Format("v3: wrong length".to_string()));
    }
    import_v2v3_inner(data, passphrase, ARGON2_MEMORY_KIB, ARGON2_ITERATIONS, ARGON2_PARALLELISM)
}

/// The outcome of importing a version 2 or 3 blob.
pub open spec fn import_v2v3_outcome(data: Seq<u8>, pwd: Seq<u8>, r: Result<RecoveryBlob, GhostError>) -> bool {
    match r {
        Ok(b) => {
            &&& blob_well_framed(data)
            &&& pwd.len() <= ARGON2_MAX_INPUT
            &&& blob_plaintext(data, pwd) matches Some(pt)
            &&& pt.len() == 64
            &&& b.seed@ == pt.subrange(0, 32)
            &&& b.sync_key matches Some(k) && k@ == pt.subrange(32, 64)
        },
        Err(e) => if !blob_well_framed(data) {
            e is Format
        } else if pwd.len() > ARGON2_MAX_INPUT {
            e is Crypto
        } else {
            e is AuthenticationFailed && blob_plaintext(data, pwd) is None
        },
    }
}

fn import_v2v3_inner(data: &[u8], passphrase: &str, m_kib: u32, t: u32, p: u32) -> (r: Result<RecoveryBlob, GhostError>)
    requires
        data@.len() == V2_LEN,
        data@[0] == 2 || data@[0] == 3,
        version_costs(data@[0]) == (m_kib, t, p),
    ensures
        import_v2v3_outcome(data@, encode_utf8(passphrase@), r),
{
    let pwd = utf8_bytes(passphrase);
    let salt = vstd::slice::slice_subrange(data, 1, 33);
    let key = match derive_export_key(pwd, salt, m_kib, t, p) {
        Ok(k) => k,
        Err(e) => return Err(e),
    };
    let nonce = copy12(data, 33);
    let plaintext = match aes256gcm_open(&key, &nonce, vstd::slice::slice_subrange(data, 45, data.len())) {
        Some(pt) => pt,
        None => return Err(GhostError::AuthenticationFailed),
    };
    if plaintext.len() != 64 {
        return Err(GhostError::InvalidKey("decrypted blob not 64 bytes".to_string()));
    }
    let seed = copy32(plaintext.as_slice(), 0);
    let sync_key = copy32(plaintext.as_slice(), 32);
    Ok(RecoveryBlob { seed, sync_key: Some(sync_key) })
}

/// Importing what `export_recovery_blob` wrote, under the same passphrase,
/// restores the seed and the sync key: the blob is a well-framed version 3
/// blob whose ciphertext decrypts to the 64 bytes `seed || sync_key`.
pub proof fn law_export_import(seed: [u8; 32], sync_key: [u8; 32], pwd: Seq<u8>, blob: Seq<u8>)
    requires
        exported_blob(seed@, sync_key@, pwd, blob),
    ensures
        blob_well_framed(blob),
        blob_plaintext(blob, pwd) == Some(seed@ + sync_key@),
        version_plain_len(blob[0]) == 64,
        (seed@ + sync_key@).subrange(0, 32) == seed@,
        (seed@ + sync_key@).subrange(32, 64) == sync_key@,
{
    assert(blob.subrange(45, blob.len() as int) == blob.subrange(45, 125));
    assert((seed@ + sync_key@).subrange(0, 32) =~= seed@);
    assert((seed@ + sync_key@).subrange(32, 64) =~= sync_key@);
}

} // verus!
