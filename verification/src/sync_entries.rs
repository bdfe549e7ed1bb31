//! The settings a device finds in its account's synced key-value state: the
//! keys it knows, and how a list of entries reads as settings.

use vstd::prelude::*;
use vstd::utf8::{decode_utf8, valid_utf8};

use crate::codec::{be64, lemma_be64_roundtrip, u64_of_be};
use crate::audio_control::{INPUT_MODE_PTT, INPUT_MODE_VA};
use crate::dto::{PresenceInfo, SyncSettings, VoiceCommand};
use crate::presence::{choice_name, OnlineStatus};
use crate::links::{hex_id_of, parse_hex_id};
use crate::text::{
    has_prefix, hex_encode, hex_lower, lemma_hex_roundtrip, starts_with, str_eq, string_concat,
    substring, utf8_decode,
};

verus! {

/// The key under which the order of the user's servers is synced.
pub const SYNC_KEY_SERVER_ORDER: &'static str = "server_order";
/// The prefix of a channel's read mark; the channel id follows in hex.
pub const SYNC_KEY_READ_PREFIX: &'static str = "read:";
/// The key of the display name.
pub const SYNC_KEY_DISPLAY_NAME: &'static str = "display_name";
/// The key of the noise suppression setting.
pub const SYNC_KEY_NOISE_SUPPRESSION: &'static str = "noise_suppression";
/// The key of the automatic gain control setting.
pub const SYNC_KEY_AGC: &'static str = "agc";
/// The key of the voice input mode.
pub const SYNC_KEY_INPUT_MODE: &'static str = "input_mode";
/// The key of the online status.
pub const SYNC_KEY_STATUS: &'static str = "status";
/// The key of the status message; a removed entry clears it.
pub const SYNC_KEY_STATUS_MESSAGE: &'static str = "status_message";
/// The prefix of a server's entry; the server id follows in hex.
pub const SYNC_KEY_SERVER_PREFIX: &'static str = "server:";

/// One entry of the synced state: key, value (`None` once removed), and the
/// time it was last written.
pub type SyncEntry = (String, Option<Vec<u8>>, u64);

/// What a key is, tried in this order: the server order, a read mark, the
/// display name, noise suppression, gain control, input mode, status, status
/// message, a server entry; anything else is ignored.
pub enum SyncKeyKind {
    ServerOrder,
    ReadMark,
    DisplayName,
    NoiseSuppression,
    Agc,
    InputMode,
    Status,
    StatusMessage,
    Server,
    Unknown,
}

pub open spec fn key_kind(key: Seq<char>) -> SyncKeyKind {
    if key == SYNC_KEY_SERVER_ORDER@ {
        SyncKeyKind::ServerOrder
    } else if has_prefix(key, SYNC_KEY_READ_PREFIX@) {
        SyncKeyKind::ReadMark
    } else if key == SYNC_KEY_DISPLAY_NAME@ {
        SyncKeyKind::DisplayName
    } else if key == SYNC_KEY_NOISE_SUPPRESSION@ {
        SyncKeyKind::NoiseSuppression
    } else if key == SYNC_KEY_AGC@ {
        SyncKeyKind::Agc
    } else if key == SYNC_KEY_INPUT_MODE@ {
        SyncKeyKind::InputMode
    } else if key == SYNC_KEY_STATUS@ {
        SyncKeyKind::Status
    } else if key == SYNC_KEY_STATUS_MESSAGE@ {
        SyncKeyKind::StatusMessage
    } else if has_prefix(key, SYNC_KEY_SERVER_PREFIX@) {
        SyncKeyKind::Server
    } else {
        SyncKeyKind::Unknown
    }
}

/// The text of the last entry of `kind` whose value is present and valid
/// UTF-8; `None` when there is none.
pub open spec fn synced_text(entries: Seq<SyncEntry>, kind: SyncKeyKind) -> Option<Seq<char>>
    decreases entries.len(),
{
    if entries.len() == 0 {
        None
    } else {
        let e = entries.last();
        if key_kind(e.0@) == kind && (e.1 matches Some(v) && valid_utf8(v@)) {
            Some(decode_utf8(e.1->0@))
        } else {
            synced_text(entries.drop_last(), kind)
        }
    }
}

/// The status message of the last status-message entry that is removed
/// (`Some(None)`) or valid UTF-8 (`Some(Some(text))`); `None` when there is none.
pub open spec fn synced_status_message(entries: Seq<SyncEntry>) -> Option<Option<Seq<char>>>
    decreases entries.len(),
{
    if entries.len() == 0 {
        None
    } else {
        let e = entries.last();
        if key_kind(e.0@) == SyncKeyKind::StatusMessage && e.1 is None {
            Some(None)
        } else if key_kind(e.0@) == SyncKeyKind::StatusMessage && (e.1 matches Some(v) && valid_utf8(v@)) {
            Some(Some(decode_utf8(e.1->0@)))
        } else {
            synced_status_message(entries.drop_last())
        }
    }
}

/// The 32-byte id written in hex after `prefix` in `key`.
pub open spec fn id_after(key: Seq<char>, prefix: Seq<char>) -> Option<Seq<u8>> {
    hex_id_of(key.skip(prefix.len() as int))
}

/// The read marks, in entry order: each read-mark entry whose value is 8
/// bytes and whose key ends in a 32-byte hex id gives (channel, big-endian
/// time).
pub open spec fn synced_read_marks(entries: Seq<SyncEntry>) -> Seq<(Seq<u8>, u64)>
    decreases entries.len(),
{
    if entries.len() == 0 {
        Seq::empty()
    } else {
        let prev = synced_read_marks(entries.drop_last());
        let e = entries.last();
        if key_kind(e.0@) == SyncKeyKind::ReadMark && id_after(e.0@, SYNC_KEY_READ_PREFIX@) is Some
            && (e.1 matches Some(v) && v@.len() == 8) {
            prev.push((id_after(e.0@, SYNC_KEY_READ_PREFIX@)->0, u64_of_be(e.1->0@)))
        } else {
            prev
        }
    }
}

/// The server entries, in entry order: each server entry whose value is
/// present and whose key ends in a 32-byte hex id gives (server, metadata).
pub open spec fn synced_servers(entries: Seq<SyncEntry>) -> Seq<(Seq<u8>, Seq<u8>)>
    decreases entries.len(),
{
    if entries.len() == 0 {
        Seq::empty()
    } else {
        let prev = synced_servers(entries.drop_last());
        let e = entries.last();
        if key_kind(e.0@) == SyncKeyKind::Server && id_after(e.0@, SYNC_KEY_SERVER_PREFIX@) is Some && e.1 is Some {
            prev.push((id_after(e.0@, SYNC_KEY_SERVER_PREFIX@)->0, e.1->0@))
        } else {
            prev
        }
    }
}

/// Whether some entry is the server order.
pub open spec fn server_order_synced(entries: Seq<SyncEntry>) -> bool {
    exists|i: int| 0 <= i < entries.len() && key_kind((#[trigger] entries[i]).0@) == SyncKeyKind::ServerOrder
}

pub open spec fn text_view(t: Option<String>) -> Option<Seq<char>> {
    match t {
        Some(s) => Some(s@),
        None => None,
    }
}

pub open spec fn message_view(t: Option<Option<String>>) -> Option<Option<Seq<char>>> {
    match t {
        Some(m) => Some(text_view(m)),
        None => None,
    }
}

/// The settings `entries` read as.
pub open spec fn settings_of(s: SyncSettings, entries: Seq<SyncEntry>) -> bool {
    &&& text_view(s.display_name) == synced_text(entries, SyncKeyKind::DisplayName)
    &&& text_view(s.noise_suppression) == synced_text(entries, SyncKeyKind::NoiseSuppression)
    &&& text_view(s.agc) == synced_text(entries, SyncKeyKind::Agc)
    &&& text_view(s.input_mode) == synced_text(entries, SyncKeyKind::InputMode)
    &&& text_view(s.status) == synced_text(entries, SyncKeyKind::Status)
    &&& message_view(s.status_message) == synced_status_message(entries)
    &&& s.read_marks@.map_values(|m: ([u8; 32], u64)| (m.0@, m.1)) == synced_read_marks(entries)
    &&& s.server_entries@.map_values(|e: ([u8; 32], Vec<u8>)| (e.0@, e.1@)) == synced_servers(entries)
    &&& s.server_order_changed == server_order_synced(entries)
}

/// `key` without `prefix`, when it starts with it.
fn strip_prefix(key: &str, prefix: &str) -> (r: Option<String>)
    ensures
        match r {
            Some(t) => has_prefix(key@, prefix@) && t@ == key@.skip(prefix@.len() as int),
            None => !has_prefix(key@, prefix@),
        },
{
    if starts_with(key, prefix) {
        let n = key.unicode_len();
        let m = prefix.unicode_len();
        let t = substring(key, m, n);
        assert(t@ =~= key@.skip(prefix@.len() as int));
        Some(t)
    } else {
        None
    }
}

/// Classifies a key, trying the kinds in the order `key_kind` gives.
fn classify(key: &str) -> (k: SyncKeyKind)
    ensures
        k == key_kind(key@),
{
    if str_eq(key, SYNC_KEY_SERVER_ORDER) {
        SyncKeyKind::ServerOrder
    } else if starts_with(key, SYNC_KEY_READ_PREFIX) {
        SyncKeyKind::ReadMark
    } else if str_eq(key, SYNC_KEY_DISPLAY_NAME) {
        SyncKeyKind::DisplayName
    } else if str_eq(key, SYNC_KEY_NOISE_SUPPRESSION) {
        SyncKeyKind::NoiseSuppression
    } else if str_eq(key, SYNC_KEY_AGC) {
        SyncKeyKind::Agc
    } else if str_eq(key, SYNC_KEY_INPUT_MODE) {
        SyncKeyKind::InputMode
    } else if str_eq(key, SYNC_KEY_STATUS) {
        SyncKeyKind::Status
    } else if str_eq(key, SYNC_KEY_STATUS_MESSAGE) {
        SyncKeyKind::StatusMessage
    } else if starts_with(key, SYNC_KEY_SERVER_PREFIX) {
        SyncKeyKind::Server
    } else {
        SyncKeyKind::Unknown
    }
}


/// Reads synced entries as settings, in order: a later entry of a kind
/// overrides an earlier one; read marks and server entries are collected;
/// a value that is not as its kind expects is skipped.
pub fn parse_sync_entries(entries: &[SyncEntry]) -> (s: SyncSettings)
    ensures
        settings_of(s, entries@),
{
    let mut s = SyncSettings {
        display_name: None,
        noise_suppression: None,
        agc: None,
        input_mode: None,
        status: None,
        status_message: None,
        read_marks: Vec::new(),
        server_entries: Vec::new(),
        server_order_changed: false,
    };
    let mut i: usize = 0;
    proof {
        assert(entries@.take(0).len() == 0);
        assert(s.read_marks@.map_values(|m: ([u8; 32], u64)| (m.0@, m.1)) =~= Seq::empty());
        assert(s.server_entries@.map_values(|e: ([u8; 32], Vec<u8>)| (e.0@, e.1@)) =~= Seq::empty());
    }
    while i < entries.len()
        invariant
            i <= entries@.len(),
            settings_of(s, entries@.take(i as int)),
        decreases entries.len() - i,
    {
        let ghost done = entries@.take(i as int);
        let ghost next = entries@.take(i as int + 1);
        proof {
            assert(next.drop_last() == done);
            assert(next.last() == entries@[i as int]);
        }
        let key = entries[i].0.as_str();
        let value = &entries[i].1;
        let kind = classify(key);
        match kind {
            SyncKeyKind::ServerOrder => {
                s.server_order_changed = true;
            },
            SyncKeyKind::ReadMark => {
                if let Some(val) = value {
                    if val.len() == 8 {
                        let mut pos: usize = 0;
                        let read_ts = match crate::codec::read_u64(val.as_slice(), &mut pos) {
                            Ok(t) => t,
                            Err(_) => 0,
                        };
                        proof {
                            assert(val@.subrange(0, 8) =~= val@);
                        }
                        if let Some(id_hex) = strip_prefix(key, SYNC_KEY_READ_PREFIX) {
                            if let Some(cid) = parse_hex_id(id_hex.as_str()) {
                                s.read_marks.push((cid, read_ts));
                            }
                        }
                    }
                }
            },
            SyncKeyKind::DisplayName => {
                if let Some(val) = value {
                    if let Some(name) = utf8_decode(val.as_slice()) {
                        s.display_name = Some(name);
                    }
                }
            },
            SyncKeyKind::NoiseSuppression => {
                if let Some(val) = value {
                    if let Some(mode) = utf8_decode(val.as_slice()) {
                        s.noise_suppression = Some(mode);
                    }
                }
            },
            SyncKeyKind::Agc => {
                if let Some(val) = value {
                    if let Some(mode) = utf8_decode(val.as_slice()) {
                        s.agc = Some(mode);
                    }
                }
            },
            SyncKeyKind::InputMode => {
                if let Some(val) = value {
                    if let Some(mode) = utf8_decode(val.as_slice()) {
                        s.input_mode = Some(mode);
                    }
                }
            },
            SyncKeyKind::Status => {
                if let Some(val) = value {
                    if let Some(status) = utf8_decode(val.as_slice()) {
                        s.status = Some(status);
                    }
                }
            },
            SyncKeyKind::StatusMessage => {
                match value {
                    Some(val) => {
                        if let Some(msg) = utf8_decode(val.as_slice()) {
                            s.status_message = Some(Some(msg));
                        }
                    },
                    None => {
                        s.status_message = Some(None);
                    },
                }
            },
            SyncKeyKind::Server => {
                if let Some(val) = value {
                    if let Some(id_hex) = strip_prefix(key, SYNC_KEY_SERVER_PREFIX) {
                        if let Some(server_id) = parse_hex_id(id_hex.as_str()) {
                            s.server_entries.push((server_id, val.clone()));
                        }
                    }
                }
            },
            SyncKeyKind::Unknown => {},
        }
        proof {
            let marks_view = |m: ([u8; 32], u64)| (m.0@, m.1);
            let servers_view = |e: ([u8; 32], Vec<u8>)| (e.0@, e.1@);
            assert(s.read_marks@.map_values(marks_view) =~= synced_read_marks(next));
            assert(s.server_entries@.map_values(servers_view) =~= synced_servers(next));
            if key_kind(entries@[i as int].0@) == SyncKeyKind::ServerOrder {
                assert(key_kind(next[i as int].0@) == SyncKeyKind::ServerOrder);
            } else {
                assert forall|j: int| 0 <= j < next.len() && key_kind((#[trigger] next[j]).0@) == SyncKeyKind::ServerOrder
                    implies 0 <= j < done.len() && key_kind(done[j].0@) == SyncKeyKind::ServerOrder by {
                    assert(next[j] == done[j]);
                }
            }
        }
        i = i + 1;
    }
    proof {
        assert(entries@.take(entries@.len() as int) == entries@);
    }
    s
}


/// The control byte of a synced noise suppression or gain control setting:
/// 0 for `"off"`, 1 otherwise.
pub open spec fn mode_byte(mode: Seq<char>) -> u8 {
    if mode == "off"@ { 0 } else { 1 }
}

/// The input mode a synced setting selects: push-to-talk for
/// `"push_to_talk"`, voice activity otherwise.
pub open spec fn input_mode_byte(mode: Seq<char>) -> u8 {
    if mode == "push_to_talk"@ { INPUT_MODE_PTT } else { INPUT_MODE_VA }
}

/// The status a synced setting names: away, invisible, or online for
/// anything else.
pub open spec fn status_named(text: Seq<char>) -> OnlineStatus {
    if text == "away"@ {
        OnlineStatus::Away
    } else if text == "invisible"@ {
        OnlineStatus::Invisible
    } else {
        OnlineStatus::Online
    }
}

/// A synced status text names the status a user picks by that same name:
/// `away` gives away and `invisible` invisible; idle (which the client sets
/// by itself) is never synced, and any other text gives online.
pub proof fn law_synced_status_is_picked_status(text: Seq<char>, s: OnlineStatus)
    ensures
        status_named(text) != OnlineStatus::Idle,
        status_named(text) == OnlineStatus::Online || choice_name(status_named(text)) == text,
        s != OnlineStatus::Idle ==> status_named(choice_name(s)) == s,
        (status_named(text) == OnlineStatus::Away) == (text == "away"@),
        (status_named(text) == OnlineStatus::Invisible) == (text == "invisible"@),
        status_named("away"@) == OnlineStatus::Away,
{
    reveal_strlit("online");
    reveal_strlit("idle");
    reveal_strlit("away");
    reveal_strlit("invisible");
    assert("online"@.len() == 6 && "away"@.len() == 4 && "invisible"@.len() == 9);
}

/// One element when `cond` holds.
pub open spec fn when<T>(cond: bool, t: T) -> Seq<T> {
    if cond { seq![t] } else { Seq::empty() }
}

/// The voice settings synced settings hand the voice session: noise
/// suppression, gain control, input mode, each when present.
pub open spec fn voice_commands_for(s: SyncSettings) -> Seq<VoiceCommand> {
    when(s.noise_suppression is Some, VoiceCommand::SetNoiseSuppression(mode_byte(s.noise_suppression->0@)))
        + when(s.agc is Some, VoiceCommand::SetAgc(mode_byte(s.agc->0@)))
        + when(s.input_mode is Some, VoiceCommand::SetInputMode(input_mode_byte(s.input_mode->0@)))
}

/// The interface events synced settings raise, as (event, payload).
pub open spec fn events_for(s: SyncSettings) -> Seq<(&'static str, &'static str)> {
    Seq::empty() + when(s.server_order_changed, ("sync-server-order", ""))
        + when(s.read_marks@.len() > 0, ("sync-read-state", ""))
        + when(s.display_name is Some, ("display-name-sync", ""))
        + when(s.noise_suppression is Some, ("sync-pref", "noise_suppression"))
        + when(s.agc is Some, ("sync-pref", "agc"))
        + when(s.input_mode is Some, ("sync-pref", "input_mode"))
        + when(s.status is Some || s.status_message is Some, ("sync-status", ""))
}

/// Appends `t` when `cond` holds.
fn push_when<T>(v: &mut Vec<T>, cond: bool, t: T)
    ensures
        final(v)@ == old(v)@ + when(cond, t),
{
    if cond {
        v.push(t);
        assert(v@ =~= old(v)@ + when(cond, t));
    } else {
        assert(v@ =~= v@ + when(cond, t));
    }
}

fn mode_control(mode: &String) -> (b: u8)
    ensures
        b == mode_byte(mode@),
{
    proof {
        reveal_strlit("off");
    }
    if str_eq(mode.as_str(), "off") { 0 } else { 1 }
}

fn input_mode_control(mode: &String) -> (b: u8)
    ensures
        b == input_mode_byte(mode@),
{
    proof {
        reveal_strlit("push_to_talk");
    }
    if str_eq(mode.as_str(), "push_to_talk") { INPUT_MODE_PTT } else { INPUT_MODE_VA }
}

fn status_from_text(text: &String) -> (st: OnlineStatus)
    ensures
        st == status_named(text@),
{
    proof {
        reveal_strlit("away");
        reveal_strlit("invisible");
    }
    if str_eq(text.as_str(), "away") {
        OnlineStatus::Away
    } else if str_eq(text.as_str(), "invisible") {
        OnlineStatus::Invisible
    } else {
        OnlineStatus::Online
    }
}

impl SyncSettings {
    /// The commands the voice session receives for these settings.
    pub fn voice_commands(&self) -> (r: Vec<VoiceCommand>)
        ensures
            r@ == voice_commands_for(*self),
    {
        let mut r: Vec<VoiceCommand> = Vec::new();
        if let Some(mode) = &self.noise_suppression {
            r.push(VoiceCommand::SetNoiseSuppression(mode_control(mode)));
        }
        let ghost a = r@;
        if let Some(mode) = &self.agc {
            r.push(VoiceCommand::SetAgc(mode_control(mode)));
        }
        let ghost b = r@;
        if let Some(mode) = &self.input_mode {
            r.push(VoiceCommand::SetInputMode(input_mode_control(mode)));
        }
        proof {
            assert(a =~= when(self.noise_suppression is Some, VoiceCommand::SetNoiseSuppression(mode_byte(self.noise_suppression->0@))));
            assert(b =~= a + when(self.agc is Some, VoiceCommand::SetAgc(mode_byte(self.agc->0@))));
            assert(r@ =~= b + when(self.input_mode is Some, VoiceCommand::SetInputMode(input_mode_byte(self.input_mode->0@))));
        }
        r
    }

    /// The interface events for these settings, in the order they are raised.
    pub fn events(&self) -> (r: Vec<(&'static str, &'static str)>)
        ensures
            r@ == events_for(*self),
    {
        let mut r: Vec<(&'static str, &'static str)> = Vec::new();
        push_when(&mut r, self.server_order_changed, ("sync-server-order", ""));
        push_when(&mut r, self.read_marks.len() > 0, ("sync-read-state", ""));
        push_when(&mut r, self.display_name.is_some(), ("display-name-sync", ""));
        push_when(&mut r, self.noise_suppression.is_some(), ("sync-pref", "noise_suppression"));
        push_when(&mut r, self.agc.is_some(), ("sync-pref", "agc"));
        push_when(&mut r, self.input_mode.is_some(), ("sync-pref", "input_mode"));
        push_when(&mut r, self.status.is_some() || self.status_message.is_some(), ("sync-status", ""));
        r
    }

    /// Applies a synced status and status message to the presence the user
    /// broadcasts; returns whether either was synced, that is whether the
    /// presence must be broadcast again.
    pub fn apply_to_presence(&self, p: &mut PresenceInfo) -> (changed: bool)
        ensures
            changed == (self.status is Some || self.status_message is Some),
            final(p).status == match self.status {
                Some(t) => status_named(t@),
                None => old(p).status,
            },
            final(p).status_message == match self.status_message {
                Some(m) => m,
                None => old(p).status_message,
            },
            final(p).status_expiry == old(p).status_expiry,
            final(p).avatar_hash == old(p).avatar_hash,
    {
        if let Some(text) = &self.status {
            p.status = status_from_text(text);
        }
        if let Some(msg) = &self.status_message {
            p.status_message = match msg {
                Some(m) => Some(m.clone()),
                None => None,
            };
        }
        self.status.is_some() || self.status_message.is_some()
    }
}


/// The key of a channel's read mark: the prefix, then the channel id in hex
/// as the interface gives it.
pub fn read_mark_key(channel_id_hex: &str) -> (k: String)
    ensures
        k@ == SYNC_KEY_READ_PREFIX@ + channel_id_hex@,
{
    string_concat(SYNC_KEY_READ_PREFIX.to_string(), channel_id_hex)
}

/// The key of a server's entry: the prefix, then the server id in lowercase hex.
pub fn server_entry_key(server_id: &[u8; 32]) -> (k: String)
    ensures
        k@ == SYNC_KEY_SERVER_PREFIX@ + hex_lower(server_id@),
{
    let h = hex_encode(server_id);
    string_concat(SYNC_KEY_SERVER_PREFIX.to_string(), h.as_str())
}

proof fn lemma_hex_id_roundtrip(id: [u8; 32])
    ensures
        hex_id_of(hex_lower(id@)) == Some(id@),
{
    lemma_hex_roundtrip(id@);
}

/// A read mark one device writes (its channel id in lowercase hex, the time
/// in big-endian bytes) is read by another as that channel and time.
pub proof fn law_read_mark_reads_back(e: SyncEntry, channel_id: [u8; 32], read_ts: u64)
    requires
        e.0@ == SYNC_KEY_READ_PREFIX@ + hex_lower(channel_id@),
        e.1 matches Some(v) && v@ == be64(read_ts),
    ensures
        synced_read_marks(seq![e]) == seq![(channel_id@, read_ts)],
        synced_servers(seq![e]) == Seq::<(Seq<u8>, Seq<u8>)>::empty(),
{
    reveal_strlit("read:");
    reveal_strlit("server_order");
    let k = e.0@;
    assert(k.subrange(0, 5) =~= SYNC_KEY_READ_PREFIX@);
    assert(k != SYNC_KEY_SERVER_ORDER@) by {
        assert(k[0] == 'r');
        assert(SYNC_KEY_SERVER_ORDER@[0] == 's');
    }
    assert(k.skip(5) =~= hex_lower(channel_id@));
    lemma_hex_id_roundtrip(channel_id);
    lemma_be64_roundtrip(read_ts);
    assert(has_prefix(k, SYNC_KEY_READ_PREFIX@));
    assert(key_kind(k) == SyncKeyKind::ReadMark);
    assert(id_after(k, SYNC_KEY_READ_PREFIX@) == Some(channel_id@));
    let es = seq![e];
    assert(es.drop_last() =~= Seq::<SyncEntry>::empty());
    assert(es.last() == e);
    assert(synced_read_marks(es.drop_last()) == Seq::<(Seq<u8>, u64)>::empty());
    assert(synced_servers(es.drop_last()) == Seq::<(Seq<u8>, Seq<u8>)>::empty());
    assert(synced_read_marks(es) =~= seq![(channel_id@, read_ts)]);
}

/// A server entry one device writes under `server_entry_key` is read by
/// another as that server with that metadata.
pub proof fn law_server_entry_reads_back(e: SyncEntry, server_id: [u8; 32])
    requires
        e.0@ == SYNC_KEY_SERVER_PREFIX@ + hex_lower(server_id@),
        e.1 is Some,
    ensures
        synced_servers(seq![e]) == seq![(server_id@, e.1->0@)],
        synced_read_marks(seq![e]) == Seq::<(Seq<u8>, u64)>::empty(),
{
    reveal_strlit("server:");
    reveal_strlit("read:");
    reveal_strlit("server_order");
    reveal_strlit("display_name");
    reveal_strlit("noise_suppression");
    reveal_strlit("agc");
    reveal_strlit("input_mode");
    reveal_strlit("status");
    reveal_strlit("status_message");
    let k = e.0@;
    lemma_hex_id_roundtrip(server_id);
    assert(k.subrange(0, 7) =~= SYNC_KEY_SERVER_PREFIX@);
    assert(k.skip(7) =~= hex_lower(server_id@));
    assert(hex_lower(server_id@).len() == 64) by {
        lemma_hex_len(server_id@);
    }
    assert(k[0] == 's' && k[6] == ':');
    assert(k != SYNC_KEY_SERVER_ORDER@) by {
        assert(SYNC_KEY_SERVER_ORDER@[6] == '_');
    }
    assert(!has_prefix(k, SYNC_KEY_READ_PREFIX@)) by {
        assert(SYNC_KEY_READ_PREFIX@[0] == 'r');
    }
    assert(k.len() == 71);
    assert(has_prefix(k, SYNC_KEY_SERVER_PREFIX@));
    assert(k != SYNC_KEY_DISPLAY_NAME@ && k != SYNC_KEY_NOISE_SUPPRESSION@ && k != SYNC_KEY_AGC@
        && k != SYNC_KEY_INPUT_MODE@ && k != SYNC_KEY_STATUS@ && k != SYNC_KEY_STATUS_MESSAGE@);
    assert(key_kind(k) == SyncKeyKind::Server);
    assert(id_after(k, SYNC_KEY_SERVER_PREFIX@) == Some(server_id@));
    let es = seq![e];
    assert(es.drop_last() =~= Seq::<SyncEntry>::empty());
    assert(es.last() == e);
    assert(synced_read_marks(es.drop_last()) == Seq::<(Seq<u8>, u64)>::empty());
    assert(synced_servers(es.drop_last()) == Seq::<(Seq<u8>, Seq<u8>)>::empty());
    assert(synced_servers(es) =~= seq![(server_id@, e.1->0@)]);
}

proof fn lemma_hex_len(b: Seq<u8>)
    ensures
        hex_lower(b).len() == 2 * b.len(),
    decreases b.len(),
{
    if b.len() > 0 {
        lemma_hex_len(b.drop_last());
    }
}

} // verus!
