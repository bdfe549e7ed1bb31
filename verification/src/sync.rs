//! Device-to-device sync: message types, AES-GCM sealing of sync payloads
//! under the account's sync key, and Ed25519 signing of sync plaintexts.

use vstd::prelude::*;


use crate::aead::{AES_GCM_P_MAX, open_blob, opened_blob, seal_blob, sealed_blob};
use crate::codec::{copy32, put_bytes};
use crate::payload::{enc_provision, provision_wf, ProvisionPayload, ProvisionPayloadView};
use crate::error::{GhostError, format_err};
use crate::signature::{ed25519_public, ed25519_sign, ed25519_verify_strict, spec_ed25519_public, spec_ed25519_sign,
    spec_ed25519_verify_strict};

verus! {

/// Sync message types sent between a user's devices.
#[derive(Debug, Clone, Copy, PartialEq, Eq, Structural)]
pub enum SyncMessageType {
    ServerProvisioned,
    ServerLeft,
    VoiceTakeover,
}

impl SyncMessageType {
    /// The byte written on the wire.
    pub open spec fn byte(self) -> u8 {
        match self {
            SyncMessageType::ServerProvisioned => 0x01,
            SyncMessageType::ServerLeft => 0x02,
            SyncMessageType::VoiceTakeover => 0x03,
        }
    }

    pub fn to_u8(self) -> (b: u8)
        ensures
            b == self.byte(),
    {
        match self {
            SyncMessageType::ServerProvisioned => 0x01,
            SyncMessageType::ServerLeft => 0x02,
            SyncMessageType::VoiceTakeover => 0x03,
        }
    }
}

/// Encrypts a sync message with AES-256-GCM. Returns nonce || ciphertext.
pub fn sync_seal(key: &[u8; 32], plaintext: &[u8]) -> (r: Result<Vec<u8>, GhostError>)
    ensures
        match r {
            Ok(b) => sealed_blob(key@, plaintext@, b@),
            Err(e) => e is Format && plaintext@.len() > AES_GCM_P_MAX,
        },
{
    match seal_blob(key, plaintext) {
        Some(b) => Ok(b),
        None => Err(format_err("sync seal failed")),
    }
}

/// Decrypts a sync message (nonce || ciphertext).
pub fn sync_open(key: &[u8; 32], blob: &[u8]) -> (r: Result<Vec<u8>, GhostError>)
    ensures
        match r {
            Ok(p) => opened_blob(key@, blob@, 12) == Some(p@),
            Err(e) => e is Format && opened_blob(key@, blob@, 12) is None,
        },
{
    if blob.len() < 12 {
        return Err(format_err("sync blob too short"));
    }
    match open_blob(key, blob, 12) {
        Some(p) => Ok(p),
        None => Err(format_err("sync open failed")),
    }
}

/// The signed form of a sync plaintext: verifying key, signature, plaintext.
pub open spec fn signed_sync(secret: Seq<u8>, plaintext: Seq<u8>) -> Seq<u8> {
    spec_ed25519_public(secret) + spec_ed25519_sign(secret, plaintext) + plaintext
}

/// Signs a sync plaintext with the device signing key (given by its 32 secret bytes).
/// Output: [device_vk:32][ed25519_sig:64][plaintext...]
pub fn sync_sign(signing_key: &[u8; 32], plaintext: &[u8]) -> (out: Vec<u8>)
    ensures
        out@ == signed_sync(signing_key@, plaintext@),
{
    let sig = ed25519_sign(signing_key, plaintext);
    let vk = ed25519_public(signing_key);
    let mut out: Vec<u8> = Vec::new();
    put_bytes(&mut out, &vk);
    put_bytes(&mut out, &sig);
    put_bytes(&mut out, plaintext);
    out
}

/// Verifies and extracts a signed sync plaintext: returns (device verifying key,
/// plaintext) exactly when the input is at least 96 bytes and its signature
/// verifies strictly over the rest.
pub fn sync_verify(signed: &[u8]) -> (r: Result<([u8; 32], Vec<u8>), GhostError>)
    ensures
        match r {
            Ok((vk, p)) => {
                &&& signed@.len() >= 96
                &&& vk@ == signed@.subrange(0, 32)
                &&& p@ == signed@.subrange(96, signed@.len() as int)
                &&& spec_ed25519_verify_strict(vk@, p@, signed@.subrange(32, 96))
            },
            Err(e) => e is Format && (signed@.len() < 96 || !spec_ed25519_verify_strict(
                signed@.subrange(0, 32), signed@.subrange(96, signed@.len() as int), signed@.subrange(32, 96))),
        },
{
    if signed.len() < 96 {
        return Err(format_err("signed sync too short"));
    }
    let vk = copy32(signed, 0);
    let mut sig = [0u8; 64];
    let mut i: usize = 0;
    while i < 64
        invariant
            0 <= i <= 64,
            signed@.len() >= 96,
            sig@.len() == 64,
            forall|j: int| 0 <= j < i ==> sig@[j] == signed@[32 + j],
        decreases 64 - i,
    {
        sig[i] = signed[32 + i];
        i = i + 1;
    }
    assert(sig@ =~= signed@.subrange(32, 96));
    let payload = vstd::slice::slice_subrange(signed, 96, signed.len());
    if !ed25519_verify_strict(&vk, payload, &sig) {
        return Err(format_err("sync signature invalid"));
    }
    Ok((vk, vstd::slice::slice_to_vec(payload)))
}

/// Opening what `sync_seal` produced under the same key gives the plaintext back.
pub proof fn law_sync_seal_open(key: Seq<u8>, pt: Seq<u8>, blob: Seq<u8>)
    requires
        sealed_blob(key, pt, blob),
    ensures
        opened_blob(key, blob, 12) == Some(pt),
{
}

/// Verifying what `sync_sign` produced returns the signer's verifying key and
/// the plaintext, provided strict verification accepts the signature.
pub proof fn law_sync_sign_verify(secret: Seq<u8>, pt: Seq<u8>)
    requires
        spec_ed25519_public(secret).len() == 32,
        spec_ed25519_sign(secret, pt).len() == 64,
    ensures
        ({
            let s = signed_sync(secret, pt);
            &&& s.len() >= 96
            &&& s.subrange(0, 32) == spec_ed25519_public(secret)
            &&& s.subrange(32, 96) == spec_ed25519_sign(secret, pt)
            &&& s.subrange(96, s.len() as int) == pt
        }),
{
    let s = signed_sync(secret, pt);
    assert(s.subrange(0, 32) =~= spec_ed25519_public(secret));
    assert(s.subrange(32, 96) =~= spec_ed25519_sign(secret, pt));
    assert(s.subrange(96, s.len() as int) =~= pt);
}

/// What a decrypted sync message from another device of the account asks for.
pub enum SyncEvent {
    /// Join the server this provision payload describes.
    ServerProvisioned(ProvisionPayload),
    /// The account left this server.
    ServerLeft([u8; 32]),
    /// Another device joined voice in this channel.
    VoiceTakeover([u8; 32]),
    /// A message type this device does not know.
    Unknown(u8),
}

/// Reads a sync message `[type:1][body]`. A provision body must be exactly a
/// well-formed provision payload; server-left and voice-takeover bodies start
/// with the 32-byte id they name. `Format` error for an empty message or a
/// body that does not read.
pub fn decode_sync_event(plaintext: &[u8]) -> (r: Result<SyncEvent, GhostError>)
    ensures
        plaintext@.len() == 0 ==> (r matches Err(e) && e is Format),
        plaintext@.len() > 0 ==> {
            let t = plaintext@[0];
            let body = plaintext@.skip(1);
            &&& t == SyncMessageType::ServerProvisioned.byte() ==> match r {
                Ok(SyncEvent::ServerProvisioned(p)) => provision_wf(p@) && enc_provision(p@) == body,
                Ok(_) => false,
                Err(e) => e is Format && !exists|v: ProvisionPayloadView| provision_wf(v) && enc_provision(v) == body,
            }
            &&& t == SyncMessageType::ServerLeft.byte() ==> match r {
                Ok(SyncEvent::ServerLeft(id)) => body.len() >= 32 && id@ == body.take(32),
                Ok(_) => false,
                Err(e) => e is Format && body.len() < 32,
            }
            &&& t == SyncMessageType::VoiceTakeover.byte() ==> match r {
                Ok(SyncEvent::VoiceTakeover(id)) => body.len() >= 32 && id@ == body.take(32),
                Ok(_) => false,
                Err(e) => e is Format && body.len() < 32,
            }
            &&& (t != 1 && t != 2 && t != 3) ==> (r matches Ok(SyncEvent::Unknown(b)) && b == t)
        },
{
    if plaintext.len() == 0 {
        return Err(format_err("empty sync message"));
    }
    let msg_type = plaintext[0];
    let body = vstd::slice::slice_subrange(plaintext, 1, plaintext.len());
    assert(body@ =~= plaintext@.skip(1));
    if msg_type == 0x01 {
        match ProvisionPayload::from_bytes(body) {
            Ok(p) => Ok(SyncEvent::ServerProvisioned(p)),
            Err(e) => Err(e),
        }
    } else if msg_type == 0x02 || msg_type == 0x03 {
        if body.len() < 32 {
            return Err(format_err("sync body too short"));
        }
        let id = copy32(body, 0);
        assert(body@.subrange(0, 32) =~= body@.take(32));
        if msg_type == 0x02 {
            Ok(SyncEvent::ServerLeft(id))
        } else {
            Ok(SyncEvent::VoiceTakeover(id))
        }
    } else {
        Ok(SyncEvent::Unknown(msg_type))
    }
}

} // verus!
