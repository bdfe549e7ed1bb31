//! Account and device identity: the master key derived from a seed, the
//! account fingerprint (BLAKE3 of the master verifying key), the delegation
//! signature by which the master key authorizes a device key, and the short
//! hex form of a fingerprint.

use vstd::prelude::*;
use vstd::utf8::encode_utf8;

use crate::aead::os_random_bytes;
use crate::codec::{be64, copy32, put_bytes, put_u64};
use crate::constants::FINGERPRINT_SHORT_BYTES;
use crate::error::GhostError;
use crate::ids::{blake3_hash, spec_blake3};
use crate::keys::{derive_ed25519_seed, ed25519_seed_of};
use crate::signature::{ed25519_public, ed25519_sign, spec_ed25519_public, spec_ed25519_sign};
use crate::text::{hex_encode, hex_lower, string_concat, utf8_bytes};

verus! {

/// Domain separator for delegation signatures, preventing cross-protocol attacks.
pub const DELEGATION_DOMAIN: &'static str = "ghost-delegation-v1:";

/// Prefix of the default display name of an identity.
pub const DISPLAY_NAME_PREFIX: &'static str = "ghost-";

/// The message a master key signs to authorize a device key.
pub open spec fn delegation_message(device_vk: Seq<u8>, account_fp: Seq<u8>, idlog_seq: u64) -> Seq<u8> {
    encode_utf8(DELEGATION_DOMAIN@) + device_vk + account_fp + be64(idlog_seq)
}

/// Signs a delegation: the master key (given by its secret bytes) authorizes
/// `device_vk` for this account at this identity log sequence.
pub fn compute_delegation_sig(
    master_sk: &[u8; 32],
    device_vk: &[u8; 32],
    account_fp: &[u8; 32],
    idlog_seq: u64,
) -> (sig: [u8; 64])
    ensures
        sig@ == spec_ed25519_sign(master_sk@, delegation_message(device_vk@, account_fp@, idlog_seq)),
{
    let mut msg: Vec<u8> = Vec::new();
    put_bytes(&mut msg, utf8_bytes(DELEGATION_DOMAIN));
    put_bytes(&mut msg, device_vk);
    put_bytes(&mut msg, account_fp);
    put_u64(&mut msg, idlog_seq);
    ed25519_sign(master_sk, msg.as_slice())
}

/// The short display form of a fingerprint: the hex of its first eight bytes.
pub open spec fn fingerprint_short_of(fp: Seq<u8>) -> Seq<char> {
    hex_lower(fp.take(FINGERPRINT_SHORT_BYTES as int))
}

/// The default display name of a fingerprint: `ghost-` and its short form.
pub open spec fn default_display_name(fp: Seq<u8>) -> Seq<char> {
    DISPLAY_NAME_PREFIX@ + fingerprint_short_of(fp)
}

fn short_hex(fingerprint: &[u8; 32]) -> (s: String)
    ensures
        s@ == fingerprint_short_of(fingerprint@),
{
    let head = vstd::slice::slice_subrange(fingerprint, 0, FINGERPRINT_SHORT_BYTES);
    assert(head@ =~= fingerprint@.take(FINGERPRINT_SHORT_BYTES as int));
    hex_encode(head)
}

fn display_name_for(fingerprint: &[u8; 32]) -> (s: String)
    ensures
        s@ == default_display_name(fingerprint@),
{
    let hex = short_hex(fingerprint);
    string_concat(DISPLAY_NAME_PREFIX.to_string(), hex.as_str())
}

/// A device identity. Signing keys are held as their 32 secret bytes.
pub struct Identity {
    /// This device's signing key.
    pub signing_key: [u8; 32],
    /// This device's verifying key.
    pub verifying_key: [u8; 32],
    /// The account fingerprint: BLAKE3 of the master verifying key.
    pub fingerprint: [u8; 32],
    pub display_name: String,
    /// Sequence number in the identity log that authorized this device key.
    pub idlog_seq: u64,
    /// Account master verifying key.
    pub master_vk: [u8; 32],
    /// Account master signing key, needed to authorize new devices during pairing.
    pub master_sk: [u8; 32],
    /// Delegation signature: the master key authorized this device key.
    pub delegation_sig: [u8; 64],
}

impl Identity {
    /// The identity `from_seed` derives: the seed-derived master key is also
    /// the device key, self-delegated at sequence 0.
    pub open spec fn of_seed(self, seed: Seq<u8>) -> bool {
        let sk = ed25519_seed_of(seed);
        let vk = spec_ed25519_public(sk);
        let fp = spec_blake3(vk);
        &&& self.signing_key@ == sk
        &&& self.master_sk@ == sk
        &&& self.verifying_key@ == vk
        &&& self.master_vk@ == vk
        &&& self.fingerprint@ == fp
        &&& self.display_name@ == default_display_name(fp)
        &&& self.idlog_seq == 0
        &&& self.delegation_sig@ == spec_ed25519_sign(sk, delegation_message(vk, fp, 0))
    }

    /// Derives an identity from a seed. Never fails.
    pub fn from_seed(seed: [u8; 32]) -> (r: Result<Identity, GhostError>)
        ensures
            r matches Ok(id) && id.of_seed(seed@),
    {
        let ed25519_bytes = match derive_ed25519_seed(&seed) {
            Ok(b) => b,
            Err(e) => return Err(e),
        };
        let master_vk = ed25519_public(&ed25519_bytes);
        let fingerprint = blake3_hash(&master_vk);
        let display_name = display_name_for(&fingerprint);
        let delegation_sig = compute_delegation_sig(&ed25519_bytes, &master_vk, &fingerprint, 0);
        Ok(Identity {
            signing_key: ed25519_bytes,
            verifying_key: master_vk,
            fingerprint,
            display_name,
            idlog_seq: 0,
            master_vk,
            master_sk: ed25519_bytes,
            delegation_sig,
        })
    }

    /// Generates an identity from a fresh random seed; whatever the seed, the
    /// identity is the one `from_seed` derives from it.
    pub fn generate() -> (r: Result<Identity, GhostError>)
        ensures
            r matches Ok(id) && exists|seed: Seq<u8>| seed.len() == 32 && id.of_seed(seed),
    {
        let bytes = os_random_bytes(32);
        let seed = copy32(bytes.as_slice(), 0);
        let r = Identity::from_seed(seed);
        proof {
            if r is Ok {
                assert(seed@.len() == 32 && r->Ok_0.of_seed(seed@));
            }
        }
        r
    }

    /// Restores a device identity from stored components: the account
    /// fingerprint, this device's signing key and its delegation.
    pub fn from_device(
        fingerprint: [u8; 32],
        signing_key: [u8; 32],
        idlog_seq: u64,
        master_vk: [u8; 32],
        master_sk: [u8; 32],
        delegation_sig: [u8; 64],
    ) -> (id: Identity)
        ensures
            id.signing_key == signing_key,
            id.verifying_key@ == spec_ed25519_public(signing_key@),
            id.fingerprint == fingerprint,
            id.display_name@ == default_display_name(fingerprint@),
            id.idlog_seq == idlog_seq,
            id.master_vk == master_vk,
            id.master_sk == master_sk,
            id.delegation_sig == delegation_sig,
    {
        let verifying_key = ed25519_public(&signing_key);
        let display_name = display_name_for(&fingerprint);
        Identity { signing_key, verifying_key, fingerprint, display_name, idlog_seq, master_vk, master_sk, delegation_sig }
    }

    /// First 16 hex chars of the fingerprint.
    pub fn fingerprint_short(&self) -> (s: String)
        ensures
            s@ == fingerprint_short_of(self.fingerprint@),
    {
        short_hex(&self.fingerprint)
    }
}

/// The short form of a fingerprint is 16 characters long.
pub proof fn law_fingerprint_short_len(fp: Seq<u8>)
    requires
        fp.len() == 32,
    ensures
        fingerprint_short_of(fp).len() == 16,
{
    lemma_hex_lower_len(fp.take(FINGERPRINT_SHORT_BYTES as int));
}

proof fn lemma_hex_lower_len(b: Seq<u8>)
    ensures
        hex_lower(b).len() == 2 * b.len(),
    decreases b.len(),
{
    if b.len() > 0 {
        lemma_hex_lower_len(b.drop_last());
    }
}

} // verus!
