//! The records the local store keeps (servers, channels, members, messages,
//! identity-log and key-transparency state) and the checked conversions from
//! the column values a database row hands back.

use vstd::prelude::*;

use crate::aead::os_random_bytes;
use crate::codec::copy32;
use crate::constants::MessageType;
use crate::error::GhostError;
use crate::ids::derive_default_channel_id;
use crate::kinds::{ChannelKind, MemberRole, ServerKind};
use crate::text::str_eq;
use crate::wire::ApplicationMessage;

verus! {

#[derive(Debug, Clone)]
pub struct Server {
    pub server_id: [u8; 32],
    pub name: String,
    pub kind: ServerKind,
    pub creator_fp: [u8; 32],
    pub created_at: u64,
}

#[derive(Debug, Clone)]
pub struct Channel {
    pub channel_id: [u8; 32],
    pub server_id: [u8; 32],
    pub name: String,
    pub kind: ChannelKind,
    pub position: i32,
}

#[derive(Debug, Clone)]
pub struct Member {
    pub server_id: [u8; 32],
    pub fingerprint: [u8; 32],
    pub display_name: String,
    pub role: MemberRole,
    pub joined_at: u64,
    pub avatar_hash: Option<[u8; 32]>,
    pub avatar_key: Option<[u8; 32]>,
}

#[derive(Debug, Clone)]
pub struct StoredMessage {
    pub message_id: [u8; 32],
    pub channel_id: [u8; 32],
    pub sender_fp: [u8; 32],
    pub message_type: u8,
    pub timestamp: u64,
    pub received_at: u64,
    pub content: Vec<u8>,
    pub expires_at: Option<u64>,
    pub references: Vec<[u8; 32]>,
}

/// Cached identity log state loaded from the local store.
pub struct CachedIdLogState {
    pub head_seq: u64,
    pub head_hash: [u8; 32],
    pub master_vk: Option<[u8; 32]>,
}

/// Persisted key transparency state for a relay.
pub struct KtState {
    pub tree_size: u64,
    pub root_hash: [u8; 32],
    pub checkpoint: Vec<u8>,
}

/// A 32-byte column value as an array; `None` when it has another length.
pub fn blob32(bytes: &[u8]) -> (r: Option<[u8; 32]>)
    ensures
        match r {
            Some(a) => bytes@.len() == 32 && a@ == bytes@,
            None => bytes@.len() != 32,
        },
{
    if bytes.len() != 32 {
        return None;
    }
    let a = copy32(bytes, 0);
    assert(bytes@.subrange(0, 32) =~= bytes@);
    Some(a)
}

/// An optional 32-byte column value; `Err` when present with another length.
pub fn opt_blob32(bytes: &Option<Vec<u8>>) -> (r: Result<Option<[u8; 32]>, GhostError>)
    ensures
        match bytes {
            None => r matches Ok(None),
            Some(b) => match r {
                Ok(Some(a)) => a@ == b@,
                Ok(None) => false,
                Err(e) => e is Database && b@.len() != 32,
            },
        },
{
    match bytes {
        None => Ok(None),
        Some(b) => match blob32(b.as_slice()) {
            Some(a) => Ok(Some(a)),
            None => Err(GhostError::Database("expected 32 bytes".to_string())),
        },
    }
}

/// A channel row as read from the store, its kind still as stored text.
pub struct RawChannel {
    pub channel_id: [u8; 32],
    pub server_id: [u8; 32],
    pub name: String,
    pub kind_str: String,
    pub position: i32,
}

impl RawChannel {
    /// The channel a row describes; `Database` error when the kind text is unknown.
    pub fn into_channel(self) -> (r: Result<Channel, GhostError>)
        ensures
            match r {
                Ok(c) => {
                    &&& ChannelKind::of_name(self.kind_str@) == Some(c.kind)
                    &&& c.channel_id == self.channel_id
                    &&& c.server_id == self.server_id
                    &&& c.name == self.name
                    &&& c.position == self.position
                },
                Err(e) => e is Database && ChannelKind::of_name(self.kind_str@) is None,
            },
    {
        let kind = match ChannelKind::parse(self.kind_str.as_str()) {
            Ok(k) => k,
            Err(e) => return Err(e),
        };
        Ok(Channel {
            channel_id: self.channel_id,
            server_id: self.server_id,
            name: self.name,
            kind,
            position: self.position,
        })
    }
}

/// A member row as read from the store, its role still as stored text.
pub struct RawMember {
    pub server_id: [u8; 32],
    pub fingerprint: [u8; 32],
    pub display_name: String,
    pub role_str: String,
    pub joined_at: u64,
    pub avatar_hash: Option<[u8; 32]>,
    pub avatar_key: Option<[u8; 32]>,
}

impl RawMember {
    /// The member a row describes; `Database` error when the role text is unknown.
    pub fn into_member(self) -> (r: Result<Member, GhostError>)
        ensures
            match r {
                Ok(m) => {
                    &&& MemberRole::of_name(self.role_str@) == Some(m.role)
                    &&& m.server_id == self.server_id
                    &&& m.fingerprint == self.fingerprint
                    &&& m.display_name == self.display_name
                    &&& m.joined_at == self.joined_at
                    &&& m.avatar_hash == self.avatar_hash
                    &&& m.avatar_key == self.avatar_key
                },
                Err(e) => e is Database && MemberRole::of_name(self.role_str@) is None,
            },
    {
        let role = match MemberRole::parse(self.role_str.as_str()) {
            Ok(r) => r,
            Err(e) => return Err(e),
        };
        Ok(Member {
            server_id: self.server_id,
            fingerprint: self.fingerprint,
            display_name: self.display_name,
            role,
            joined_at: self.joined_at,
            avatar_hash: self.avatar_hash,
            avatar_key: self.avatar_key,
        })
    }
}

/// A message row as read from the store, without its references.
pub struct RawMessage {
    pub message_id: [u8; 32],
    pub channel_id: [u8; 32],
    pub sender_fp: [u8; 32],
    pub message_type: u8,
    pub timestamp: u64,
    pub received_at: u64,
    pub content: Vec<u8>,
    pub expires_at: Option<u64>,
}

impl RawMessage {
    /// The stored message a row and its reference rows describe.
    pub fn into_stored(self, references: Vec<[u8; 32]>) -> (m: StoredMessage)
        ensures
            m.message_id == self.message_id,
            m.channel_id == self.channel_id,
            m.sender_fp == self.sender_fp,
            m.message_type == self.message_type,
            m.timestamp == self.timestamp,
            m.received_at == self.received_at,
            m.content == self.content,
            m.expires_at == self.expires_at,
            m.references == references,
    {
        StoredMessage {
            message_id: self.message_id,
            channel_id: self.channel_id,
            sender_fp: self.sender_fp,
            message_type: self.message_type,
            timestamp: self.timestamp,
            received_at: self.received_at,
            content: self.content,
            expires_at: self.expires_at,
            references,
        }
    }
}

/// The record an application message is kept as, received (or sent) at `received_at`.
pub fn stored_message_of(msg: &ApplicationMessage, received_at: u64) -> (m: StoredMessage)
    ensures
        m.message_id == msg.message_id,
        m.channel_id == msg.channel_id,
        m.sender_fp == msg.sender_fp,
        m.message_type == msg.message_type.byte(),
        m.timestamp == msg.timestamp,
        m.received_at == received_at,
        m.content@ == msg.content@,
        m.expires_at is None,
        m.references@ == msg.references@,
{
    StoredMessage {
        message_id: msg.message_id,
        channel_id: msg.channel_id,
        sender_fp: msg.sender_fp,
        message_type: msg.message_type.to_u8(),
        timestamp: msg.timestamp,
        received_at,
        content: vstd::slice::slice_to_vec(msg.content.as_slice()),
        expires_at: None,
        references: vstd::slice::slice_to_vec(msg.references.as_slice()),
    }
}

/// Whether a received application message is chat to keep: control
/// (metadata) messages are not stored.
pub fn is_persisted(msg: &ApplicationMessage) -> (b: bool)
    ensures
        b == (msg.message_type != MessageType::Metadata),
{
    match msg.message_type {
        MessageType::Metadata => false,
        _ => true,
    }
}

/// The identity-log state a row describes; `Database` error when the head
/// hash, or a present master key, is not 32 bytes.
pub fn cached_idlog_state_from(head_seq: i64, head_hash: &[u8], master_vk: &Option<Vec<u8>>) -> (r: Result<CachedIdLogState, GhostError>)
    ensures
        match r {
            Ok(s) => {
                &&& s.head_seq == head_seq as u64
                &&& s.head_hash@ == head_hash@
                &&& match master_vk {
                    Some(v) => s.master_vk matches Some(k) && k@ == v@,
                    None => s.master_vk is None,
                }
            },
            Err(e) => e is Database && (head_hash@.len() != 32 || (master_vk matches Some(v) && v@.len() != 32)),
        },
{
    let hash = match blob32(head_hash) {
        Some(h) => h,
        None => return Err(GhostError::Database("idlog state: bad head_hash length".to_string())),
    };
    let vk = match master_vk {
        None => None,
        Some(v) => match blob32(v.as_slice()) {
            Some(k) => Some(k),
            None => return Err(GhostError::Database("idlog state: bad master_vk length".to_string())),
        },
    };
    Ok(CachedIdLogState { head_seq: head_seq as u64, head_hash: hash, master_vk: vk })
}

/// The key transparency state a row describes. The stored root hash is
/// always 32 bytes long.
pub fn kt_state_from(tree_size: i64, root_bytes: &[u8], checkpoint: Vec<u8>) -> (s: KtState)
    requires
        root_bytes@.len() == 32,
    ensures
        s.tree_size == tree_size as u64,
        s.root_hash@ == root_bytes@,
        s.checkpoint == checkpoint,
{
    let root_hash = copy32(root_bytes, 0);
    assert(root_bytes@.subrange(0, 32) =~= root_bytes@);
    KtState { tree_size: tree_size as u64, root_hash, checkpoint }
}

/// Largest clock skew into the future a sync timestamp may carry: five minutes.
pub const MAX_FUTURE_MS: u64 = 300_000u64;

/// A sync timestamp clamped to at most five minutes after `now_ms`, so that a
/// peer cannot poison a key with a far-future timestamp.
pub fn clamp_sync_ts(ts: u64, now_ms: u64) -> (r: u64)
    requires
        now_ms + MAX_FUTURE_MS <= u64::MAX,
    ensures
        r == if ts <= now_ms + MAX_FUTURE_MS { ts } else { (now_ms + MAX_FUTURE_MS) as u64 },
{
    let limit = now_ms + MAX_FUTURE_MS;
    if ts <= limit { ts } else { limit }
}

/// The name of the default channel of a new server of the given kind.
pub open spec fn default_channel_name(kind: ServerKind) -> Seq<char> {
    match kind {
        ServerKind::Server => "general"@,
        _ => "messages"@,
    }
}

/// The kind a user picks for a new channel: voice for `"voice"`, text for
/// anything else.
pub open spec fn picked_channel_kind(kind: Seq<char>) -> ChannelKind {
    if kind == "voice"@ { ChannelKind::Voice } else { ChannelKind::Text }
}

/// A channel a member creates: a fresh random id, the picked kind, and the
/// position after the `existing` channels of the server.
pub fn new_channel(server_id: [u8; 32], name: &str, kind: &str, existing: usize) -> (c: Channel)
    ensures
        c.server_id == server_id,
        c.name@ == name@,
        c.kind == picked_channel_kind(kind@),
        c.position == existing as i32,
{
    let random = os_random_bytes(32);
    let channel_id = copy32(random.as_slice(), 0);
    let kind = if str_eq(kind, "voice") { ChannelKind::Voice } else { ChannelKind::Text };
    Channel { channel_id, server_id, name: name.to_string(), kind, position: existing as i32 }
}

/// The records a newly created server starts with: the server itself, its
/// default text channel at position 0 (id derived from the server id) and its
/// creator as first member.
pub fn new_server_records(
    server_id: [u8; 32],
    name: &str,
    kind: ServerKind,
    creator_fp: [u8; 32],
    creator_name: &str,
    timestamp: u64,
) -> (r: (Server, Channel, Member))
    ensures
        r.0.server_id == server_id,
        r.0.name@ == name@,
        r.0.kind == kind,
        r.0.creator_fp == creator_fp,
        r.0.created_at == timestamp,
        r.1.channel_id@ == crate::ids::default_channel_id_of(server_id@),
        r.1.server_id == server_id,
        r.1.name@ == default_channel_name(kind),
        r.1.kind == ChannelKind::Text,
        r.1.position == 0,
        r.2.server_id == server_id,
        r.2.fingerprint == creator_fp,
        r.2.display_name@ == creator_name@,
        r.2.role == MemberRole::Creator,
        r.2.joined_at == timestamp,
        r.2.avatar_hash is None,
        r.2.avatar_key is None,
{
    let server = Server { server_id, name: name.to_string(), kind, creator_fp, created_at: timestamp };
    let channel_name: &str = match kind {
        ServerKind::Dm | ServerKind::Group => "messages",
        ServerKind::Server => "general",
    };
    proof {
        reveal_strlit("messages");
        reveal_strlit("general");
    }
    let channel = Channel {
        channel_id: derive_default_channel_id(&server_id),
        server_id,
        name: channel_name.to_string(),
        kind: ChannelKind::Text,
        position: 0,
    };
    let member = Member {
        server_id,
        fingerprint: creator_fp,
        display_name: creator_name.to_string(),
        role: MemberRole::Creator,
        joined_at: timestamp,
        avatar_hash: None,
        avatar_key: None,
    };
    (server, channel, member)
}

} // verus!
