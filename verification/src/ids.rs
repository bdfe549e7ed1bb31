//! Identifiers derived with BLAKE3: message ids, MLS group ids, mailbox ids and
//! default channel ids.

use vstd::prelude::*;
use vstd::utf8::encode_utf8;

use crate::codec::{be64, put_bytes, put_u64};
use crate::constants::{DEFAULT_CHANNEL_TAG, MAILBOX_ID_TAG, MLS_GROUP_ID_TAG, SYNC_MAILBOX_TAG};
use crate::text::utf8_bytes;

verus! {

/// The BLAKE3 digest of a byte string.
pub uninterp spec fn spec_blake3(data: Seq<u8>) -> Seq<u8>;

/// Hashes `data` with `blake3::hash`.
///
/// Trusted: the result is the 32-byte BLAKE3 digest of `data`, named
/// `spec_blake3`; nothing more is claimed of it.
#[verifier::external_body]
pub(crate) fn blake3_hash(data: &[u8]) -> (h: [u8; 32])
    ensures
        h@ == spec_blake3(data@),
{
    *blake3::hash(data).as_bytes()
}

/// The bytes hashed into a message id.
pub open spec fn message_id_input(channel_id: Seq<u8>, sender_fp: Seq<u8>, timestamp: u64, content: Seq<u8>) -> Seq<u8> {
    channel_id + sender_fp + be64(timestamp) + content
}

/// The id of a message: BLAKE3 over channel, sender, big-endian timestamp and content.
pub open spec fn message_id_of(channel_id: Seq<u8>, sender_fp: Seq<u8>, timestamp: u64, content: Seq<u8>) -> Seq<u8> {
    spec_blake3(message_id_input(channel_id, sender_fp, timestamp, content))
}

pub fn derive_message_id(
    channel_id: &[u8; 32],
    sender_fp: &[u8; 32],
    timestamp: u64,
    content: &[u8],
) -> (id: [u8; 32])
    ensures
        id@ == message_id_of(channel_id@, sender_fp@, timestamp, content@),
{
    let mut buf: Vec<u8> = Vec::new();
    put_bytes(&mut buf, channel_id);
    put_bytes(&mut buf, sender_fp);
    put_u64(&mut buf, timestamp);
    put_bytes(&mut buf, content);
    blake3_hash(buf.as_slice())
}

/// BLAKE3 of `prefix` followed by the bytes of a tag.
fn hash_with_tag(prefix: &[u8], tag: &str) -> (h: [u8; 32])
    ensures
        h@ == spec_blake3(prefix@ + encode_utf8(tag@)),
{
    let mut buf: Vec<u8> = Vec::new();
    put_bytes(&mut buf, prefix);
    put_bytes(&mut buf, utf8_bytes(tag));
    blake3_hash(buf.as_slice())
}

/// The MLS group id of a server.
pub open spec fn mls_group_id_of(server_id: Seq<u8>) -> Seq<u8> {
    spec_blake3(server_id + encode_utf8(MLS_GROUP_ID_TAG@))
}

/// The relay mailbox of an MLS group.
pub open spec fn mailbox_id_of(mls_group_id: Seq<u8>) -> Seq<u8> {
    spec_blake3(mls_group_id + encode_utf8(MAILBOX_ID_TAG@))
}

/// The default channel of a server.
pub open spec fn default_channel_id_of(server_id: Seq<u8>) -> Seq<u8> {
    spec_blake3(server_id + encode_utf8(DEFAULT_CHANNEL_TAG@))
}

/// The device-sync mailbox of an account.
pub open spec fn sync_mailbox_id_of(account_fp: Seq<u8>) -> Seq<u8> {
    spec_blake3(account_fp + encode_utf8(SYNC_MAILBOX_TAG@))
}

pub fn derive_mls_group_id(server_id: &[u8; 32]) -> (id: [u8; 32])
    ensures
        id@ == mls_group_id_of(server_id@),
{
    hash_with_tag(server_id, MLS_GROUP_ID_TAG)
}

pub fn mls_group_mailbox_id(mls_group_id: &[u8]) -> (id: [u8; 32])
    ensures
        id@ == mailbox_id_of(mls_group_id@),
{
    hash_with_tag(mls_group_id, MAILBOX_ID_TAG)
}

pub fn derive_default_channel_id(server_id: &[u8; 32]) -> (id: [u8; 32])
    ensures
        id@ == default_channel_id_of(server_id@),
{
    hash_with_tag(server_id, DEFAULT_CHANNEL_TAG)
}

/// Deterministic mailbox id for device sync, derived from the account fingerprint.
pub fn sync_mailbox_id(account_fp: &[u8; 32]) -> (id: [u8; 32])
    ensures
        id@ == sync_mailbox_id_of(account_fp@),
{
    hash_with_tag(account_fp, SYNC_MAILBOX_TAG)
}

} // verus!
