//! The values the client hands its user interface: identities, servers,
//! channels, members and messages with their ids in hex, the settings shown,
//! the presence the user broadcasts, and the voice commands and events.

use vstd::prelude::*;
use vstd::utf8::{decode_utf8, valid_utf8};

use crate::identity::{fingerprint_short_of, Identity};

use crate::presence::OnlineStatus;
use crate::records::{Channel, Member, Server, StoredMessage};
use crate::text::{hex_encode, hex_lower, str_eq};
use crate::wire::ApplicationMessage;

verus! {

/// The text of bytes decoded as UTF-8, each invalid sequence replaced by U+FFFD.
pub uninterp spec fn spec_utf8_lossy(bytes: Seq<u8>) -> Seq<char>;

/// Decodes with `String::from_utf8_lossy`.
///
/// Trusted: the text is named `spec_utf8_lossy`; std documents that valid
/// UTF-8 is decoded unchanged.
#[verifier::external_body]
fn utf8_lossy(bytes: &[u8]) -> (s: String)
    ensures
        s@ == spec_utf8_lossy(bytes@),
        valid_utf8(bytes@) ==> s@ == decode_utf8(bytes@),
{
    String::from_utf8_lossy(bytes).into_owned()
}

pub struct IdentityDto {
    pub fingerprint: String,
    pub fingerprint_short: String,
    pub display_name: String,
}

impl IdentityDto {
    pub fn from_identity(id: &Identity) -> (d: IdentityDto)
        ensures
            d.fingerprint@ == hex_lower(id.fingerprint@),
            d.fingerprint_short@ == fingerprint_short_of(id.fingerprint@),
            d.display_name@ == id.display_name@,
    {
        IdentityDto {
            fingerprint: hex_encode(&id.fingerprint),
            fingerprint_short: id.fingerprint_short(),
            display_name: id.display_name.clone(),
        }
    }
}

/// A server as the interface lists it.
pub struct GroupDto {
    pub group_id: String,
    pub name: String,
    pub creator_fp: String,
    pub created_at: u64,
    pub has_unread: bool,
}

impl GroupDto {
    pub fn from_group(g: &Server, has_unread: bool) -> (d: GroupDto)
        ensures
            d.group_id@ == hex_lower(g.server_id@),
            d.name@ == g.name@,
            d.creator_fp@ == hex_lower(g.creator_fp@),
            d.created_at == g.created_at,
            d.has_unread == has_unread,
    {
        GroupDto {
            group_id: hex_encode(&g.server_id),
            name: g.name.clone(),
            creator_fp: hex_encode(&g.creator_fp),
            created_at: g.created_at,
            has_unread,
        }
    }
}

pub struct ChannelDto {
    pub channel_id: String,
    pub group_id: String,
    pub name: String,
    pub kind: String,
    pub position: i32,
    pub unread_count: u32,
}

impl ChannelDto {
    pub fn from_channel(c: &Channel, unread_count: u32) -> (d: ChannelDto)
        ensures
            d.channel_id@ == hex_lower(c.channel_id@),
            d.group_id@ == hex_lower(c.server_id@),
            d.name@ == c.name@,
            d.kind@ == c.kind.name(),
            d.position == c.position,
            d.unread_count == unread_count,
    {
        ChannelDto {
            channel_id: hex_encode(&c.channel_id),
            group_id: hex_encode(&c.server_id),
            name: c.name.clone(),
            kind: c.kind.as_str().to_string(),
            position: c.position,
            unread_count,
        }
    }
}

pub struct MemberDto {
    pub group_id: String,
    pub fingerprint: String,
    pub display_name: String,
    pub role: String,
    pub joined_at: u64,
}

impl MemberDto {
    pub fn from_member(m: &Member) -> (d: MemberDto)
        ensures
            d.group_id@ == hex_lower(m.server_id@),
            d.fingerprint@ == hex_lower(m.fingerprint@),
            d.display_name@ == m.display_name@,
            d.role@ == m.role.name(),
            d.joined_at == m.joined_at,
    {
        MemberDto {
            group_id: hex_encode(&m.server_id),
            fingerprint: hex_encode(&m.fingerprint),
            display_name: m.display_name.clone(),
            role: m.role.as_str().to_string(),
            joined_at: m.joined_at,
        }
    }
}

pub struct MessageDto {
    pub message_id: String,
    pub channel_id: String,
    pub sender_fp: String,
    pub message_type: u8,
    pub timestamp: u64,
    pub received_at: u64,
    /// The content as text; invalid UTF-8 is replaced, not rejected.
    pub content: String,
}

impl MessageDto {
    pub fn from_incoming(msg: &ApplicationMessage, received_at: u64) -> (d: MessageDto)
        ensures
            d.message_id@ == hex_lower(msg.message_id@),
            d.channel_id@ == hex_lower(msg.channel_id@),
            d.sender_fp@ == hex_lower(msg.sender_fp@),
            d.message_type == msg.message_type.byte(),
            d.timestamp == msg.timestamp,
            d.received_at == received_at,
            d.content@ == spec_utf8_lossy(msg.content@),
    {
        MessageDto {
            message_id: hex_encode(&msg.message_id),
            channel_id: hex_encode(&msg.channel_id),
            sender_fp: hex_encode(&msg.sender_fp),
            message_type: msg.message_type.to_u8(),
            timestamp: msg.timestamp,
            received_at,
            content: utf8_lossy(msg.content.as_slice()),
        }
    }

    pub fn from_stored(m: &StoredMessage) -> (d: MessageDto)
        ensures
            d.message_id@ == hex_lower(m.message_id@),
            d.channel_id@ == hex_lower(m.channel_id@),
            d.sender_fp@ == hex_lower(m.sender_fp@),
            d.message_type == m.message_type,
            d.timestamp == m.timestamp,
            d.received_at == m.received_at,
            d.content@ == spec_utf8_lossy(m.content@),
    {
        MessageDto {
            message_id: hex_encode(&m.message_id),
            channel_id: hex_encode(&m.channel_id),
            sender_fp: hex_encode(&m.sender_fp),
            message_type: m.message_type,
            timestamp: m.timestamp,
            received_at: m.received_at,
            content: utf8_lossy(m.content.as_slice()),
        }
    }
}

pub struct InviteDto {
    pub token: String,
    pub link: String,
}

/// The settings the interface shows.
pub struct ConfigDto {
    pub display_name: Option<String>,
    pub relay_url: Option<String>,
    pub input_device: Option<String>,
    pub output_device: Option<String>,
    pub noise_suppression: String,
    pub agc: String,
    pub input_mode: String,
}

/// A setting that is `"off"` only when stored as exactly `"off"`, otherwise `on`.
pub open spec fn off_or(stored: Option<Seq<char>>, on: Seq<char>) -> Seq<char> {
    if stored == Some("off"@) { "off"@ } else { on }
}

/// The view of an optional string.
pub open spec fn opt_view(s: Option<String>) -> Option<Seq<char>> {
    match s {
        Some(x) => Some(x@),
        None => None,
    }
}

fn is_off(s: &Option<String>) -> (r: bool)
    ensures
        r == (opt_view(*s) == Some("off"@)),
{
    proof {
        reveal_strlit("off");
    }
    match s {
        Some(x) => str_eq(x.as_str(), "off"),
        None => false,
    }
}

impl ConfigDto {
    /// The settings shown for stored settings: noise suppression is
    /// `nnnoiseless` and gain control `auto` unless stored as `off`; the input
    /// mode defaults to `voice_activity`.
    pub fn from_settings(
        display_name: Option<String>,
        relay_url: Option<String>,
        input_device: Option<String>,
        output_device: Option<String>,
        noise_suppression: Option<String>,
        agc: Option<String>,
        input_mode: Option<String>,
    ) -> (d: ConfigDto)
        ensures
            d.display_name == display_name,
            d.relay_url == relay_url,
            d.input_device == input_device,
            d.output_device == output_device,
            d.noise_suppression@ == off_or(opt_view(noise_suppression), "nnnoiseless"@),
            d.agc@ == off_or(opt_view(agc), "auto"@),
            d.input_mode@ == match opt_view(input_mode) {
                Some(m) => m,
                None => "voice_activity"@,
            },
    {
        proof {
            reveal_strlit("off");
            reveal_strlit("nnnoiseless");
            reveal_strlit("auto");
            reveal_strlit("voice_activity");
        }
        let ns: &str = if is_off(&noise_suppression) { "off" } else { "nnnoiseless" };
        let ag: &str = if is_off(&agc) { "off" } else { "auto" };
        let mode = match input_mode {
            Some(m) => m,
            None => "voice_activity".to_string(),
        };
        ConfigDto {
            display_name,
            relay_url,
            input_device,
            output_device,
            noise_suppression: ns.to_string(),
            agc: ag.to_string(),
            input_mode: mode,
        }
    }
}

pub struct KeybindConfigDto {
    pub push_to_talk: Option<String>,
}

/// Keyboard shortcuts the user configured.
pub struct KeybindConfig {
    pub push_to_talk: Option<String>,
}

impl Default for KeybindConfig {
    fn default() -> (k: KeybindConfig)
        ensures
            k.push_to_talk is None,
    {
        KeybindConfig { push_to_talk: None }
    }
}

impl KeybindConfig {
    /// Binds (or, with `None`, unbinds) the shortcut of an action; the only
    /// action is `push_to_talk`, any other is refused and nothing changes.
    pub fn set(&mut self, action: &str, shortcut: Option<String>) -> (r: Result<(), String>)
        ensures
            action@ == "push_to_talk"@ ==> r is Ok && final(self).push_to_talk == shortcut,
            action@ != "push_to_talk"@ ==> r is Err && final(self).push_to_talk == old(self).push_to_talk,
    {
        proof {
            reveal_strlit("push_to_talk");
        }
        if str_eq(action, "push_to_talk") {
            self.push_to_talk = shortcut;
            Ok(())
        } else {
            Err("unknown keybind action".to_string())
        }
    }

    pub fn to_dto(&self) -> (d: KeybindConfigDto)
        ensures
            d.push_to_talk == self.push_to_talk,
    {
        KeybindConfigDto { push_to_talk: self.push_to_talk.clone() }
    }
}

/// The presence the user broadcasts to the servers they are in.
pub struct PresenceInfo {
    pub status: OnlineStatus,
    pub status_message: Option<String>,
    pub status_expiry: Option<u64>,
    pub avatar_hash: Option<[u8; 32]>,
}

impl Default for PresenceInfo {
    fn default() -> (p: PresenceInfo)
        ensures
            p.status == OnlineStatus::Online,
            p.status_message is None,
            p.status_expiry is None,
            p.avatar_hash is None,
    {
        PresenceInfo { status: OnlineStatus::Online, status_message: None, status_expiry: None, avatar_hash: None }
    }
}

/// Commands the interface sends the voice session.
pub enum VoiceCommand {
    Join {
        server_id: String,
        channel_id: String,
        relay_url: String,
        fingerprint: String,
        input_device: Option<String>,
        output_device: Option<String>,
        ns_mode: u8,
        agc_mode: u8,
        vad_threshold: u32,
        input_gain: u32,
        input_mode: u8,
        muted: bool,
        deafened: bool,
    },
    Leave,
    SetMuted(bool),
    SetDeafened(bool),
    SetNoiseSuppression(u8),
    SetAgc(u8),
    SetVadThreshold(u32),
    SetInputGain(u32),
    SetInputMode(u8),
    SetPttActive(bool),
}

/// The voice session's state as the interface shows it.
pub struct VoiceStateEvent {
    pub connected: bool,
    pub server_id: Option<String>,
    pub channel_id: Option<String>,
    pub muted: bool,
    pub deafened: bool,
    pub udp_port: Option<u16>,
}

impl Default for VoiceStateEvent {
    fn default() -> (e: VoiceStateEvent)
        ensures
            !e.connected,
            e.server_id is None,
            e.channel_id is None,
            !e.muted,
            !e.deafened,
            e.udp_port is None,
    {
        VoiceStateEvent { connected: false, server_id: None, channel_id: None, muted: false, deafened: false, udp_port: None }
    }
}

impl VoiceStateEvent {
    /// The state after leaving or losing the session: disconnected, keeping
    /// only the user's mute and deafen choices.
    pub fn reset(&self) -> (e: VoiceStateEvent)
        ensures
            !e.connected,
            e.server_id is None,
            e.channel_id is None,
            e.muted == self.muted,
            e.deafened == self.deafened,
            e.udp_port is None,
    {
        VoiceStateEvent { muted: self.muted, deafened: self.deafened, ..VoiceStateEvent::default() }
    }
}

pub struct VoiceParticipantsEvent {
    pub participants: Vec<String>,
}

pub struct VoiceSpeakingEvent {
    pub fingerprint: String,
    pub speaking: bool,
}

pub struct VoiceMuteStateEvent {
    pub fingerprint: String,
    pub muted: bool,
    pub deafened: bool,
}

/// Audio devices the interface offers.
pub struct AudioDevicesDto {
    pub inputs: Vec<String>,
    pub outputs: Vec<String>,
    pub default_input: Option<String>,
    pub default_output: Option<String>,
}

/// Settings that follow the user across devices, as decoded from sync state.
/// A field left `None` was not in the synced entries; `status_message` is
/// `Some(None)` when the message was cleared.
pub struct SyncSettings {
    pub display_name: Option<String>,
    pub noise_suppression: Option<String>,
    pub agc: Option<String>,
    pub input_mode: Option<String>,
    pub status: Option<String>,
    pub status_message: Option<Option<String>>,
    pub read_marks: Vec<([u8; 32], u64)>,
    /// Each synced server entry: the server id and its metadata bytes as
    /// synced. This library has no reader for the server metadata format, so
    /// the entries are not filtered by whether those bytes parse; the reader
    /// that consumes them does that.
    pub server_entries: Vec<([u8; 32], Vec<u8>)>,
    pub server_order_changed: bool,
}

/// The part of the local configuration that sync settings overwrite.
pub struct SyncedConfig {
    pub display_name: Option<String>,
    pub noise_suppression: Option<String>,
    pub agc: Option<String>,
    pub input_mode: Option<String>,
    pub status: Option<String>,
    pub status_message: Option<String>,
}

/// A synced value overwrites the local one when present.
pub open spec fn overwritten<T>(synced: Option<T>, local: Option<T>) -> Option<T> {
    match synced {
        Some(v) => Some(v),
        None => local,
    }
}

impl SyncSettings {
    /// Whether applying these settings changes anything to write back.
    pub open spec fn touches(&self) -> bool {
        self.display_name is Some || self.noise_suppression is Some || self.agc is Some || self.input_mode is Some
            || self.status is Some || self.status_message is Some
    }

    /// Applies the synced settings to the local configuration; returns whether
    /// any was present, that is whether the configuration must be saved.
    pub fn apply_to(&self, cfg: &mut SyncedConfig) -> (dirty: bool)
        ensures
            dirty == self.touches(),
            final(cfg).display_name == overwritten(self.display_name, old(cfg).display_name),
            final(cfg).noise_suppression == overwritten(self.noise_suppression, old(cfg).noise_suppression),
            final(cfg).agc == overwritten(self.agc, old(cfg).agc),
            final(cfg).input_mode == overwritten(self.input_mode, old(cfg).input_mode),
            final(cfg).status == overwritten(self.status, old(cfg).status),
            final(cfg).status_message == match self.status_message {
                Some(m) => m,
                None => old(cfg).status_message,
            },
    {
        let mut dirty = false;
        if let Some(name) = &self.display_name {
            cfg.display_name = Some(name.clone());
            dirty = true;
        }
        if let Some(mode) = &self.noise_suppression {
            cfg.noise_suppression = Some(mode.clone());
            dirty = true;
        }
        if let Some(mode) = &self.agc {
            cfg.agc = Some(mode.clone());
            dirty = true;
        }
        if let Some(mode) = &self.input_mode {
            cfg.input_mode = Some(mode.clone());
            dirty = true;
        }
        if let Some(status) = &self.status {
            cfg.status = Some(status.clone());
            dirty = true;
        }
        if let Some(msg) = &self.status_message {
            cfg.status_message = msg.clone();
            dirty = true;
        }
        dirty
    }
}

} // verus!
