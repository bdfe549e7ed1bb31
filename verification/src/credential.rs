//! The self-validating credential a member presents in its groups: the
//! account fingerprint, the account master key, the identity-log sequence
//! that authorized the device, and the master key's delegation signature,
//! packed into the 136 identity bytes of a basic credential.

use vstd::prelude::*;

use crate::codec::{be64, copy32, fits, lemma_be64_roundtrip, put_bytes, put_u64, read_u64};
use crate::error::GhostError;
use crate::identity::Identity;

verus! {

/// The length of a credential's identity bytes.
pub const CREDENTIAL_SIZE: usize = 136;

/// A credential as a group carries it: the identity bytes of a basic
/// credential, and the device key that signs for it.
pub struct CredentialWithKey {
    pub identity: Vec<u8>,
    pub signature_key: [u8; 32],
}

/// The fields of a credential.
pub struct ParsedCredential {
    pub account_fp: [u8; 32],
    pub master_vk: [u8; 32],
    pub idlog_seq: u64,
    pub delegation_sig: [u8; 64],
}

/// The identity bytes of a credential: fingerprint, master key, big-endian
/// log sequence, delegation signature.
pub open spec fn credential_bytes(account_fp: [u8; 32], master_vk: [u8; 32], idlog_seq: u64, sig: [u8; 64]) -> Seq<u8> {
    account_fp@ + master_vk@ + be64(idlog_seq) + sig@
}

/// Packages an identity into its credential.
pub fn credential_from_identity(identity: &Identity) -> (c: CredentialWithKey)
    ensures
        c.identity@ == credential_bytes(identity.fingerprint, identity.master_vk, identity.idlog_seq, identity.delegation_sig),
        c.signature_key == identity.verifying_key,
{
    let mut id_bytes: Vec<u8> = Vec::new();
    put_bytes(&mut id_bytes, &identity.fingerprint);
    put_bytes(&mut id_bytes, &identity.master_vk);
    put_u64(&mut id_bytes, identity.idlog_seq);
    put_bytes(&mut id_bytes, &identity.delegation_sig);
    CredentialWithKey { identity: id_bytes, signature_key: identity.verifying_key }
}

fn copy64(data: &[u8], start: usize) -> (out: [u8; 64])
    requires
        fits(data@, start as int, 64),
    ensures
        out@ == data@.subrange(start as int, start + 64),
{
    let n = data.len();
    let mut out = [0u8; 64];
    let mut i: usize = 0;
    while i < 64
        invariant
            0 <= i <= 64,
            n == data@.len(),
            fits(data@, start as int, 64),
            out@.len() == 64,
            forall|j: int| 0 <= j < i ==> out@[j] == data@[start + j],
        decreases 64 - i,
    {
        out[i] = data[start + i];
        i = i + 1;
    }
    assert(out@ =~= data@.subrange(start as int, start + 64));
    out
}

/// Reads a credential's identity bytes; a `Format` error unless there are
/// exactly 136 of them.
pub fn parse_credential(identity: &[u8]) -> (r: Result<ParsedCredential, GhostError>)
    ensures
        match r {
            Ok(p) => identity@ == credential_bytes(p.account_fp, p.master_vk, p.idlog_seq, p.delegation_sig),
            Err(e) => identity@.len() != CREDENTIAL_SIZE && e is Format,
        },
{
    if identity.len() != CREDENTIAL_SIZE {
        return Err(GhostError::Format("credential identity is not 136 bytes".to_string()));
    }
    let account_fp = copy32(identity, 0);
    let master_vk = copy32(identity, 32);
    let mut pos: usize = 64;
    let idlog_seq = match read_u64(identity, &mut pos) {
        Ok(v) => v,
        Err(e) => return Err(e),
    };
    let delegation_sig = copy64(identity, 72);
    proof {
        crate::codec::lemma_be64_of(identity@.subrange(64, 72));
        assert(identity@ =~= identity@.subrange(0, 32) + identity@.subrange(32, 64) + identity@.subrange(64, 72)
            + identity@.subrange(72, 136));
    }
    Ok(ParsedCredential { account_fp, master_vk, idlog_seq, delegation_sig })
}

/// Reading a credential gives back the fields it was packed from.
pub proof fn law_credential_roundtrip(account_fp: [u8; 32], master_vk: [u8; 32], idlog_seq: u64, sig: [u8; 64], p: ParsedCredential)
    requires
        credential_bytes(account_fp, master_vk, idlog_seq, sig) == credential_bytes(p.account_fp, p.master_vk, p.idlog_seq, p.delegation_sig),
    ensures
        p.account_fp == account_fp,
        p.master_vk == master_vk,
        p.idlog_seq == idlog_seq,
        p.delegation_sig == sig,
{
    let b = credential_bytes(account_fp, master_vk, idlog_seq, sig);
    lemma_be64_roundtrip(idlog_seq);
    lemma_be64_roundtrip(p.idlog_seq);
    assert(b.subrange(0, 32) =~= account_fp@);
    assert(b.subrange(0, 32) =~= p.account_fp@);
    assert(b.subrange(32, 64) =~= master_vk@);
    assert(b.subrange(32, 64) =~= p.master_vk@);
    assert(b.subrange(64, 72) =~= be64(idlog_seq));
    assert(b.subrange(64, 72) =~= be64(p.idlog_seq));
    assert(b.subrange(72, 136) =~= sig@);
    assert(b.subrange(72, 136) =~= p.delegation_sig@);
    broadcast use vstd::array::group_array_axioms;
    assert(p.account_fp =~= account_fp);
    assert(p.master_vk =~= master_vk);
    assert(p.delegation_sig =~= sig);
}

} // verus!
