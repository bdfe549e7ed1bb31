//! Recovering an account on a new device from its recovery blob: reading the
//! recovery code, checking that the recovered seed is the account's, and
//! finding the devices the recovery revokes.

use vstd::prelude::*;

use crate::error::GhostError;
use crate::ids::{blake3_hash, spec_blake3};
use crate::idlog::{device_active, device_entry, DeviceInfo, LogState};
use crate::keys::{derive_ed25519_seed, ed25519_seed_of};
use crate::links::hex_id_of;
use crate::pairing::lemma_index_of_char_found;
use crate::relay::index_of_char;
use crate::rosters::id_set_insert;
use crate::signature::{ed25519_public, spec_ed25519_public};
use crate::text::{find_char, hex_decode, hex_decoded, spec_hex_decode_error, string_concat, substring};
use vstd::utf8::encode_utf8;

verus! {

/// A recovery code: the relay that holds the blob, and the account.
pub struct RecoveryCode {
    pub relay_url: String,
    pub account_fp: [u8; 32],
}

/// The two parts of a recovery code `relay_url#fingerprint`, split at its
/// first `#`.
pub open spec fn recovery_code_parts(code: Seq<char>) -> Option<(Seq<char>, Seq<char>)> {
    let i = index_of_char(code, '#');
    if i >= code.len() {
        None
    } else {
        Some((code.take(i), code.skip(i + 1)))
    }
}

/// Reads a recovery code: an error unless it has a `#` and the fingerprint
/// after it is 32 bytes written in hex. A fingerprint that is not hex gives
/// `bad fingerprint: ` and the hex decoder's reason.
pub fn parse_recovery_code(code: &str) -> (r: Result<RecoveryCode, GhostError>)
    ensures
        match r {
            Ok(c) => recovery_code_parts(code@) matches Some((relay, fp)) && c.relay_url@ == relay
                && hex_id_of(fp) == Some(c.account_fp@),
            Err(e) => match recovery_code_parts(code@) {
                None => e matches GhostError::Format(m) && m@ == "invalid recovery code"@,
                Some((_, fp)) => match hex_decoded(encode_utf8(fp)) {
                    None => e matches GhostError::Format(m) && m@ == "bad fingerprint: "@ + spec_hex_decode_error(fp),
                    Some(b) => b.len() != 32 && (e matches GhostError::Format(m) && m@ == "fingerprint must be 32 bytes"@),
                },
            },
        },
{
    let n = code.unicode_len();
    let i = match find_char(code, '#', 0) {
        Some(i) => i,
        None => {
            proof {
                lemma_index_of_char_found(code@, '#', code@.len() as int);
            }
            return Err(GhostError::Format("invalid recovery code".to_string()));
        },
    };
    proof {
        lemma_index_of_char_found(code@, '#', i as int);
    }
    let relay_url = substring(code, 0, i);
    let fp_text = substring(code, i + 1, n);
    assert(relay_url@ =~= code@.take(i as int));
    assert(fp_text@ =~= code@.skip(i + 1));
    let bytes = match hex_decode(fp_text.as_str()) {
        Ok(b) => b,
        Err(reason) => return Err(GhostError::Format(string_concat("bad fingerprint: ".to_string(), reason.as_str()))),
    };
    let account_fp = match crate::records::blob32(bytes.as_slice()) {
        Some(f) => f,
        None => return Err(GhostError::Format("fingerprint must be 32 bytes".to_string())),
    };
    Ok(RecoveryCode { relay_url, account_fp })
}

/// The account a seed belongs to: BLAKE3 of the master verifying key the
/// seed derives.
pub open spec fn account_of_seed(seed: Seq<u8>) -> Seq<u8> {
    spec_blake3(spec_ed25519_public(ed25519_seed_of(seed)))
}

/// Checks that a recovered seed is that of account `account_fp`; an
/// `Export` error when it belongs to another account.
pub fn check_recovered_seed(seed: &[u8; 32], account_fp: &[u8; 32]) -> (r: Result<(), GhostError>)
    ensures
        r is Ok <==> account_of_seed(seed@) == account_fp@,
        r matches Err(e) ==> e matches GhostError::Export(m) && m@ == "recovery blob does not match this account"@,
{
    let sk = match derive_ed25519_seed(seed) {
        Ok(k) => k,
        Err(e) => return Err(e),
    };
    let vk = ed25519_public(&sk);
    let fp = blake3_hash(&vk);
    if crate::codec::eq32(&fp, account_fp) {
        Ok(())
    } else {
        Err(GhostError::Export("recovery blob does not match this account".to_string()))
    }
}

/// Whether one of the first `n` devices has key `k`.
pub open spec fn listed_before(devices: Seq<DeviceInfo>, k: [u8; 32], n: int) -> bool {
    exists|j: int| 0 <= j < n && (#[trigger] devices[j]).verifying_key == k
}

proof fn lemma_entry_listed(devices: Seq<DeviceInfo>, vk: [u8; 32])
    requires
        device_entry(devices, vk) is Some,
    ensures
        exists|i: int| 0 <= i < devices.len() && (#[trigger] devices[i]).verifying_key == vk,
    decreases devices.len(),
{
    if devices[0].verifying_key != vk {
        lemma_entry_listed(devices.skip(1), vk);
        let i = choose|i: int| 0 <= i < devices.skip(1).len() && (#[trigger] devices.skip(1)[i]).verifying_key == vk;
        assert(devices[i + 1] == devices.skip(1)[i]);
    } else {
        assert(devices[0].verifying_key == vk);
    }
}

/// The devices a recovery revokes: every device the log lists as active
/// before it, each once.
pub fn active_device_keys(state: &LogState) -> (r: Vec<[u8; 32]>)
    ensures
        r@.no_duplicates(),
        forall|k: [u8; 32]| r@.contains(k) <==> device_active(*state, k),
{
    let mut r: Vec<[u8; 32]> = Vec::new();
    let mut i: usize = 0;
    while i < state.devices.len()
        invariant
            i <= state.devices@.len(),
            r@.no_duplicates(),
            forall|k: [u8; 32]| r@.contains(k) <==> (device_active(*state, k) && listed_before(state.devices@, k, i as int)),
        decreases state.devices.len() - i,
    {
        let vk = state.devices[i].verifying_key;
        let active = state.is_active_device(&vk);
        let ghost before = r@;
        assert(forall|k: [u8; 32]| before.contains(k) <==> (device_active(*state, k) && listed_before(state.devices@, k, i as int)));
        if active {
            id_set_insert(&mut r, vk);
        }
        proof {
            assert forall|k: [u8; 32]| r@.contains(k) <==> (device_active(*state, k) && listed_before(state.devices@, k, i + 1)) by {
                if active {
                    assert(r@.to_set().contains(k) <==> before.to_set().contains(k) || k == vk);
                    assert(r@.contains(k) == r@.to_set().contains(k));
                    assert(before.contains(k) == before.to_set().contains(k));
                } else {
                    assert(r@ == before);
                }
                if before.contains(k) {
                    assert(device_active(*state, k) && listed_before(state.devices@, k, i as int));
                }
                if k == vk {
                    assert(state.devices@[i as int].verifying_key == k);
                }
                if exists|j: int| 0 <= j < i && (#[trigger] state.devices@[j]).verifying_key == k {
                    let j = choose|j: int| 0 <= j < i && (#[trigger] state.devices@[j]).verifying_key == k;
                    assert(0 <= j < i + 1 && state.devices@[j].verifying_key == k);
                }
                if exists|j: int| 0 <= j < i + 1 && (#[trigger] state.devices@[j]).verifying_key == k {
                    let j = choose|j: int| 0 <= j < i + 1 && (#[trigger] state.devices@[j]).verifying_key == k;
                    if j < i {
                        assert(exists|j: int| 0 <= j < i && (#[trigger] state.devices@[j]).verifying_key == k);
                    } else {
                        assert(k == vk);
                    }
                }
            }
        }
        i = i + 1;
    }
    proof {
        assert forall|k: [u8; 32]| device_active(*state, k) implies exists|j: int|
            0 <= j < state.devices@.len() && (#[trigger] state.devices@[j]).verifying_key == k by {
            lemma_entry_listed(state.devices@, k);
        }
    }
    r
}

} // verus!
