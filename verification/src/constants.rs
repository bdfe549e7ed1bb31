//! Protocol constants: the wire version, message type discriminants and the
//! domain-separation labels used in key and identifier derivation.

use vstd::prelude::*;

verus! {

/// Wire protocol version carried in the first byte of an application message.
pub const PROTOCOL_VERSION: u8 = 1u8;

/// Label used when deriving per-sender voice encryption keys from MLS epoch secrets.
pub const VOICE_EXPORT_LABEL: &'static str = "ghost-voice";

/// HKDF label for deriving X25519 keys from identity seeds.
pub const X25519_DERIVE_LABEL: &'static str = "ghost-x25519";

/// HKDF label for deriving Ed25519 signing keys from identity seeds.
pub const ED25519_DERIVE_LABEL: &'static str = "ghost-ed25519";

/// HKDF label for deriving the database encryption key from the identity seed.
pub const DB_KEY_DERIVE_LABEL: &'static str = "ghost-db-key";

/// How many bytes of a fingerprint make its short display form.
pub const FINGERPRINT_SHORT_BYTES: usize = 8;

/// BLAKE3 domain-separation tag for MLS group identifiers.
pub const MLS_GROUP_ID_TAG: &'static str = "ghost-mls";

/// BLAKE3 domain-separation tag for relay mailbox identifiers.
pub const MAILBOX_ID_TAG: &'static str = "ghost-mailbox";

/// BLAKE3 domain-separation tag for a server's default channel identifier.
pub const DEFAULT_CHANNEL_TAG: &'static str = "ghost-default-channel";

/// The URL an invite link starts from; the relay and token go in its query.
pub const INVITE_LINK_BASE: &'static str = "ghost://join";

/// Query key of the relay URL in an invite link.
pub const INVITE_RELAY_KEY: &'static str = "relay";

/// Query key of the invite token in an invite link.
pub const INVITE_TOKEN_KEY: &'static str = "token";

/// BLAKE3 domain-separation tag for the device-sync mailbox.
pub const SYNC_MAILBOX_TAG: &'static str = "ghost-sync-mailbox-v1";

/// Wire message type, serialized as one byte.
#[derive(Debug, Clone, Copy, PartialEq, Eq, Structural)]
pub enum MessageType {
    Text,
    Reaction,
    System,
    Delete,
    Metadata,
    DmWelcome,
    FriendRequest,
    FriendAccept,
}

impl MessageType {
    /// The byte written on the wire.
    pub open spec fn byte(self) -> u8 {
        match self {
            MessageType::Text => 0x01,
            MessageType::Reaction => 0x03,
            MessageType::System => 0x05,
            MessageType::Delete => 0x06,
            MessageType::Metadata => 0x07,
            MessageType::DmWelcome => 0x08,
            MessageType::FriendRequest => 0x09,
            MessageType::FriendAccept => 0x0A,
        }
    }

    /// The type whose wire byte is `b`, if any.
    pub open spec fn of_byte(b: u8) -> Option<MessageType> {
        if b == 0x01 {
            Some(MessageType::Text)
        } else if b == 0x03 {
            Some(MessageType::Reaction)
        } else if b == 0x05 {
            Some(MessageType::System)
        } else if b == 0x06 {
            Some(MessageType::Delete)
        } else if b == 0x07 {
            Some(MessageType::Metadata)
        } else if b == 0x08 {
            Some(MessageType::DmWelcome)
        } else if b == 0x09 {
            Some(MessageType::FriendRequest)
        } else if b == 0x0A {
            Some(MessageType::FriendAccept)
        } else {
            None
        }
    }

    /// The wire byte of this type.
    pub fn to_u8(self) -> (b: u8)
        ensures
            b == self.byte(),
    {
        match self {
            MessageType::Text => 0x01,
            MessageType::Reaction => 0x03,
            MessageType::System => 0x05,
            MessageType::Delete => 0x06,
            MessageType::Metadata => 0x07,
            MessageType::DmWelcome => 0x08,
            MessageType::FriendRequest => 0x09,
            MessageType::FriendAccept => 0x0A,
        }
    }

    /// The type for a wire byte; an unknown byte is handed back as the error.
    pub fn try_from_u8(v: u8) -> (r: Result<MessageType, u8>)
        ensures
            match r {
                Ok(t) => MessageType::of_byte(v) == Some(t),
                Err(b) => MessageType::of_byte(v) is None && b == v,
            },
    {
        if v == 0x01 {
            Ok(MessageType::Text)
        } else if v == 0x03 {
            Ok(MessageType::Reaction)
        } else if v == 0x05 {
            Ok(MessageType::System)
        } else if v == 0x06 {
            Ok(MessageType::Delete)
        } else if v == 0x07 {
            Ok(MessageType::Metadata)
        } else if v == 0x08 {
            Ok(MessageType::DmWelcome)
        } else if v == 0x09 {
            Ok(MessageType::FriendRequest)
        } else if v == 0x0A {
            Ok(MessageType::FriendAccept)
        } else {
            Err(v)
        }
    }
}

/// Reading back the byte of a message type gives the type; only its own byte does.
pub proof fn law_message_type_byte(t: MessageType, b: u8)
    ensures
        MessageType::of_byte(t.byte()) == Some(t),
        MessageType::of_byte(b) == Some(t) ==> t.byte() == b,
{
}

} // verus!
