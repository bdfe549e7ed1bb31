//! The decisions of a voice session, apart from the connection, the audio
//! devices and the clock that drive it.
//!
//! The session loop receives commands from the interface, messages from the
//! voice relay and its own polling ticks. Each of them is handed to a method
//! here, which updates the session and says what the loop must do next:
//! which presence to announce, which peer keys to install, whether to start
//! the audio pipeline, what the interface must show. Decrypting presence
//! blobs and sealing new ones is done by the loop with the group's keys; the
//! methods take the opened presence states.

use std::collections::HashMap;

use vstd::prelude::*;
use vstd::std_specs::hash::spec_values_iter;
use vstd::std_specs::iter::IteratorSpec;

use crate::audio_control::INPUT_MODE_PTT;
use crate::dto::VoiceStateEvent;
use crate::links::{hex_id_of, parse_hex_id};
use crate::voice::PresenceState;

verus! {

broadcast use vstd::std_specs::hash::group_hash_axioms;

/// What a join keeps between connecting to the voice relay and its welcome.
pub struct PendingJoin {
    pub server_id: [u8; 32],
    pub channel_id: [u8; 32],
    pub relay_url: String,
    pub own_fp: [u8; 32],
    pub own_device_vk: [u8; 32],
    pub voice_salt: [u8; 32],
    pub input_device: Option<String>,
    pub output_device: Option<String>,
    pub ns_mode: u8,
    pub agc_mode: u8,
    pub vad_threshold: u32,
    pub input_gain: u32,
    pub input_mode: u8,
}

/// A presence the session must seal and announce after the user's mute or
/// deafen state changed.
pub struct PresenceUpdate {
    pub server_id: [u8; 32],
    pub channel_id: [u8; 32],
    pub muted: bool,
    pub deafened: bool,
    pub voice_salt: [u8; 32],
}

/// The state of one voice session.
///
/// `state.connected` is set exactly while the connection to the voice relay
/// is open; `active` holds the server and channel of that connection;
/// `pending` the join that awaits the relay's welcome; `peers` the presence
/// of each other participant by relay slot; `audio_fp` the user's own
/// fingerprint while the audio pipeline runs.
pub struct VoiceSession {
    pub state: VoiceStateEvent,
    pub active: Option<([u8; 32], [u8; 32])>,
    pub voice_salt: [u8; 32],
    pub pending: Option<PendingJoin>,
    pub peers: HashMap<u32, PresenceState>,
    pub audio_fp: Option<[u8; 32]>,
    pub last_speaking: bool,
}

/// The session `s` after `old` was reset: disconnected with the user's mute
/// and deafen choices kept, nothing active, pending or playing, no peers.
pub open spec fn is_reset_of(s: VoiceSession, old: VoiceSession) -> bool {
    &&& !s.state.connected
    &&& s.state.server_id is None
    &&& s.state.channel_id is None
    &&& s.state.muted == old.state.muted
    &&& s.state.deafened == old.state.deafened
    &&& s.state.udp_port is None
    &&& s.active is None
    &&& s.pending is None
    &&& s.peers@ == Map::<u32, PresenceState>::empty()
    &&& s.audio_fp is None
    &&& s.voice_salt == old.voice_salt
    &&& s.last_speaking == old.last_speaking
}

/// The session's user state with only the mute and deafen flags changed.
pub open spec fn flags_set(s: VoiceSession, old: VoiceSession, muted: bool, deafened: bool) -> bool {
    &&& s.state.connected == old.state.connected
    &&& s.state.server_id == old.state.server_id
    &&& s.state.channel_id == old.state.channel_id
    &&& s.state.udp_port == old.state.udp_port
    &&& s.state.muted == muted
    &&& s.state.deafened == deafened
    &&& s.active == old.active
    &&& s.voice_salt == old.voice_salt
    &&& s.pending == old.pending
    &&& s.peers@ == old.peers@
    &&& s.audio_fp == old.audio_fp
    &&& s.last_speaking == old.last_speaking
}

/// The announcement owed after a change to `muted`/`deafened`: one exactly
/// when a session is active, for its server and channel with its salt.
pub open spec fn update_for(s: VoiceSession, u: Option<PresenceUpdate>) -> bool {
    match s.active {
        Some((sid, cid)) => u matches Some(p) && p.server_id == sid && p.channel_id == cid
            && p.muted == s.state.muted && p.deafened == s.state.deafened && p.voice_salt == s.voice_salt,
        None => u is None,
    }
}

/// A peer of a welcome message: its relay slot and, when its presence blob
/// opened, the presence state and the voice key derived for it.
pub type WelcomePeer = (u32, Option<(PresenceState, [u8; 32])>);

/// `m` with each opened peer of `peers` set, in order (a later entry for a
/// slot wins).
pub open spec fn with_peers(m: Map<u32, PresenceState>, peers: Seq<WelcomePeer>) -> Map<u32, PresenceState>
    decreases peers.len(),
{
    if peers.len() == 0 {
        m
    } else {
        let prev = with_peers(m, peers.drop_last());
        match peers.last().1 {
            Some((ps, _)) => prev.insert(peers.last().0, ps),
            None => prev,
        }
    }
}

/// The (slot, (fingerprint, voice key)) of each opened peer, in order.
pub open spec fn peer_keys_of(peers: Seq<WelcomePeer>) -> Seq<(u32, ([u8; 32], [u8; 32]))>
    decreases peers.len(),
{
    if peers.len() == 0 {
        Seq::empty()
    } else {
        let prev = peer_keys_of(peers.drop_last());
        match peers.last().1 {
            Some((ps, key)) => prev.push((peers.last().0, (ps.fingerprint, key))),
            None => prev,
        }
    }
}

/// What the loop does with a welcome from the voice relay.
pub enum WelcomeAction {
    /// No join awaits it and no audio runs: nothing.
    Ignore,
    /// The relay resent its state to a running session: replace the audio
    /// pipeline's peer keys with these.
    Resync { keys: Vec<(u32, ([u8; 32], [u8; 32]))> },
    /// The welcome of the pending join: start the audio pipeline for it with
    /// these peer keys.
    Start { join: PendingJoin, keys: Vec<(u32, ([u8; 32], [u8; 32]))> },
}

/// `s` is `old` with only the peers changed, to `peers`.
pub open spec fn peers_set(s: VoiceSession, old: VoiceSession, peers: Map<u32, PresenceState>) -> bool {
    &&& s.state == old.state
    &&& s.active == old.active
    &&& s.voice_salt == old.voice_salt
    &&& s.pending == old.pending
    &&& s.peers@ == peers
    &&& s.audio_fp == old.audio_fp
    &&& s.last_speaking == old.last_speaking
}

/// The participant list shown for a session: one fingerprint per peer, then
/// the user's own when given.
pub open spec fn is_participant_list(r: Seq<[u8; 32]>, peers: Map<u32, PresenceState>, own: Option<[u8; 32]>) -> bool {
    &&& r.len() == peers.dom().len() + if own is Some { 1int } else { 0int }
    &&& forall|f: [u8; 32]|
        r.contains(f) <==> ((exists|k: u32| #[trigger] peers.contains_key(k) && peers[k].fingerprint == f) || own == Some(f))
    &&& own matches Some(o) ==> r.last() == o
}

impl VoiceSession {
    /// A session that is not connected, with nothing muted.
    pub fn new() -> (s: VoiceSession)
        ensures
            !s.state.connected,
            s.state.server_id is None,
            s.state.channel_id is None,
            !s.state.muted,
            !s.state.deafened,
            s.state.udp_port is None,
            s.active is None,
            s.pending is None,
            s.peers@ == Map::<u32, PresenceState>::empty(),
            s.audio_fp is None,
            !s.last_speaking,
            s.voice_salt@ == Seq::new(32, |i: int| 0u8),
    {
        VoiceSession {
            state: VoiceStateEvent::default(),
            active: None,
            voice_salt: [0u8; 32],
            pending: None,
            peers: HashMap::new(),
            audio_fp: None,
            last_speaking: false,
        }
    }

    /// Drops the connection's state without telling the relay, as when the
    /// connection closed or failed; the user's mute and deafen choices stay.
    pub fn reset(&mut self)
        ensures
            is_reset_of(*final(self), *old(self)),
    {
        self.state = self.state.reset();
        self.active = None;
        self.pending = None;
        self.peers.clear();
        self.audio_fp = None;
    }

    /// Leaves the current session, if any: returns the server and channel
    /// the leave is announced for over the mailbox, and whether the voice
    /// connection is open and must be told before it is closed.
    pub fn leave(&mut self) -> (r: (Option<([u8; 32], [u8; 32])>, bool))
        ensures
            r.0 == old(self).active,
            r.1 == old(self).state.connected,
            is_reset_of(*final(self), *old(self)),
    {
        let announce = self.active;
        let was_open = self.state.connected;
        self.reset();
        (announce, was_open)
    }

    /// Reads the server, channel and own fingerprint of a join request, each
    /// a 32-byte id in hex; the error names the first that is not.
    pub fn join_target(server_id: &str, channel_id: &str, fingerprint: &str) -> (r: Result<
        ([u8; 32], [u8; 32], [u8; 32]),
        String,
    >)
        ensures
            match r {
                Ok((sid, cid, fp)) => hex_id_of(server_id@) == Some(sid@) && hex_id_of(channel_id@) == Some(cid@)
                    && hex_id_of(fingerprint@) == Some(fp@),
                Err(e) => if hex_id_of(server_id@) is None {
                    e@ == "bad server_id"@
                } else if hex_id_of(channel_id@) is None {
                    e@ == "bad channel_id"@
                } else {
                    hex_id_of(fingerprint@) is None && e@ == "bad fingerprint"@
                },
            },
    {
        let sid = match parse_hex_id(server_id) {
            Some(b) => b,
            None => return Err("bad server_id".to_string()),
        };
        let cid = match parse_hex_id(channel_id) {
            Some(b) => b,
            None => return Err("bad channel_id".to_string()),
        };
        let fp = match parse_hex_id(fingerprint) {
            Some(b) => b,
            None => return Err("bad fingerprint".to_string()),
        };
        Ok((sid, cid, fp))
    }

    /// Records a join whose connection is open and whose presence was sent:
    /// the session is connected to the join's server and channel, with the
    /// given hex ids and mute state shown, and waits for the relay's welcome.
    pub fn connected(&mut self, join: PendingJoin, server_id: String, channel_id: String, muted: bool, deafened: bool)
        ensures
            final(self).state.connected,
            final(self).state.server_id == Some(server_id),
            final(self).state.channel_id == Some(channel_id),
            final(self).state.muted == muted,
            final(self).state.deafened == deafened,
            final(self).state.udp_port is None,
            final(self).active == Some((join.server_id, join.channel_id)),
            final(self).voice_salt == join.voice_salt,
            final(self).pending == Some(join),
            final(self).peers@ == old(self).peers@,
            final(self).audio_fp == old(self).audio_fp,
            final(self).last_speaking == old(self).last_speaking,
    {
        self.active = Some((join.server_id, join.channel_id));
        self.voice_salt = join.voice_salt;
        self.state = VoiceStateEvent {
            connected: true,
            server_id: Some(server_id),
            channel_id: Some(channel_id),
            muted,
            deafened,
            udp_port: None,
        };
        self.pending = Some(join);
    }

    /// The announcement owed after the flags changed.
    fn owed_update(&self) -> (u: Option<PresenceUpdate>)
        ensures
            update_for(*self, u),
    {
        match self.active {
            Some((sid, cid)) => Some(PresenceUpdate {
                server_id: sid,
                channel_id: cid,
                muted: self.state.muted,
                deafened: self.state.deafened,
                voice_salt: self.voice_salt,
            }),
            None => None,
        }
    }

    /// Mutes or unmutes the user; unmuting while deafened also undeafens.
    /// Returns the presence to announce.
    pub fn set_muted(&mut self, muted: bool) -> (u: Option<PresenceUpdate>)
        ensures
            flags_set(*final(self), *old(self), muted, old(self).state.deafened && muted),
            update_for(*final(self), u),
    {
        if !muted && self.state.deafened {
            self.state.deafened = false;
        }
        self.state.muted = muted;
        self.owed_update()
    }

    /// Deafens or undeafens the user, muting or unmuting along with it.
    /// Returns the presence to announce.
    pub fn set_deafened(&mut self, deafened: bool) -> (u: Option<PresenceUpdate>)
        ensures
            flags_set(*final(self), *old(self), deafened, deafened),
            update_for(*final(self), u),
    {
        self.state.deafened = deafened;
        self.state.muted = deafened;
        self.owed_update()
    }

    /// Switching to push-to-talk unmutes a muted user. Returns whether the
    /// state changed, and then the presence to announce.
    pub fn set_input_mode(&mut self, mode: u8) -> (r: (bool, Option<PresenceUpdate>))
        ensures
            r.0 == (mode == INPUT_MODE_PTT && old(self).state.muted),
            r.0 ==> flags_set(*final(self), *old(self), false, old(self).state.deafened) && update_for(*final(self), r.1),
            !r.0 ==> *final(self) == *old(self) && r.1 is None,
    {
        if mode == INPUT_MODE_PTT && self.state.muted {
            self.state.muted = false;
            let u = self.owed_update();
            (true, u)
        } else {
            (false, None)
        }
    }

    /// The server and channel under which the peers of a welcome are
    /// opened: those of the pending join, else those of the running session,
    /// else none (the welcome is then ignored).
    pub fn welcome_ids(&self) -> (r: Option<([u8; 32], [u8; 32])>)
        ensures
            r == match self.pending {
                Some(j) => Some((j.server_id, j.channel_id)),
                None => if self.audio_fp is Some { self.active } else { None },
            },
    {
        match &self.pending {
            Some(j) => Some((j.server_id, j.channel_id)),
            None => if self.audio_fp.is_some() { self.active } else { None },
        }
    }

    /// Adds the opened peers of a welcome to `self.peers` and returns their
    /// keys.
    fn take_peers(&mut self, peers: &Vec<WelcomePeer>) -> (keys: Vec<(u32, ([u8; 32], [u8; 32]))>)
        ensures
            peers_set(*final(self), *old(self), with_peers(old(self).peers@, peers@)),
            keys@ == peer_keys_of(peers@),
    {
        let mut keys: Vec<(u32, ([u8; 32], [u8; 32]))> = Vec::new();
        let mut i: usize = 0;
        while i < peers.len()
            invariant
                i <= peers.len(),
                peers_set(*self, *old(self), with_peers(old(self).peers@, peers@.take(i as int))),
                keys@ == peer_keys_of(peers@.take(i as int)),
            decreases peers.len() - i,
        {
            proof {
                assert(peers@.take(i as int + 1).drop_last() == peers@.take(i as int));
            }
            let (slot, opened) = &peers[i];
            match opened {
                Some((ps, key)) => {
                    self.peers.insert(*slot, *ps);
                    keys.push((*slot, (ps.fingerprint, *key)));
                },
                None => {},
            }
            i = i + 1;
        }
        proof {
            assert(peers@.take(peers@.len() as int) == peers@);
        }
        keys
    }

    /// Handles the relay's welcome on `port`, with the peers it lists.
    /// For the pending join: the peers are added, the port shown, and audio
    /// is to start. For a running session without one: the peers are
    /// replaced. Otherwise nothing changes.
    pub fn on_welcome(&mut self, port: u16, peers: Vec<WelcomePeer>) -> (a: WelcomeAction)
        ensures
            match old(self).pending {
                Some(join) => {
                    &&& a matches WelcomeAction::Start { join: j, keys } && j == join && keys@ == peer_keys_of(peers@)
                    &&& final(self).pending is None
                    &&& final(self).peers@ == with_peers(old(self).peers@, peers@)
                    &&& final(self).state.udp_port == Some(port)
                    &&& final(self).state.connected == old(self).state.connected
                    &&& final(self).state.server_id == old(self).state.server_id
                    &&& final(self).state.channel_id == old(self).state.channel_id
                    &&& final(self).state.muted == old(self).state.muted
                    &&& final(self).state.deafened == old(self).state.deafened
                    &&& final(self).active == old(self).active
                    &&& final(self).voice_salt == old(self).voice_salt
                    &&& final(self).audio_fp == old(self).audio_fp
                    &&& final(self).last_speaking == old(self).last_speaking
                },
                None => if old(self).audio_fp is Some && old(self).active is Some {
                    &&& a matches WelcomeAction::Resync { keys } && keys@ == peer_keys_of(peers@)
                    &&& peers_set(*final(self), *old(self), with_peers(Map::empty(), peers@))
                } else {
                    a is Ignore && *final(self) == *old(self)
                },
            },
    {
        match self.pending.take() {
            Some(join) => {
                let keys = self.take_peers(&peers);
                self.state.udp_port = Some(port);
                WelcomeAction::Start { join, keys }
            },
            None => {
                if self.audio_fp.is_some() && self.active.is_some() {
                    self.peers.clear();
                    let keys = self.take_peers(&peers);
                    WelcomeAction::Resync { keys }
                } else {
                    WelcomeAction::Ignore
                }
            },
        }
    }

    /// Records that the audio pipeline runs for the user `own_fp`.
    pub fn audio_started(&mut self, own_fp: [u8; 32])
        ensures
            final(self).audio_fp == Some(own_fp),
            final(self).state == old(self).state,
            final(self).active == old(self).active,
            final(self).voice_salt == old(self).voice_salt,
            final(self).pending == old(self).pending,
            final(self).peers@ == old(self).peers@,
            final(self).last_speaking == old(self).last_speaking,
    {
        self.audio_fp = Some(own_fp);
    }

    /// A peer joined at `slot` with the presence `ps`.
    pub fn on_joined(&mut self, slot: u32, ps: PresenceState)
        ensures
            peers_set(*final(self), *old(self), old(self).peers@.insert(slot, ps)),
    {
        self.peers.insert(slot, ps);
    }

    /// The peer at `slot` left.
    pub fn on_left(&mut self, slot: u32)
        ensures
            peers_set(*final(self), *old(self), old(self).peers@.remove(slot)),
    {
        self.peers.remove(&slot);
    }

    /// The peer at `slot` announced the presence `ps`; it is kept only for
    /// a peer the session knows.
    pub fn on_presence(&mut self, slot: u32, ps: PresenceState)
        ensures
            peers_set(
                *final(self),
                *old(self),
                if old(self).peers@.contains_key(slot) {
                    old(self).peers@.insert(slot, ps)
                } else {
                    old(self).peers@
                },
            ),
    {
        if self.peers.contains_key(&slot) {
            self.peers.insert(slot, ps);
        }
    }

    /// The fingerprint of the peer at `slot`, for its speaking indicator.
    pub fn peer_fingerprint(&self, slot: u32) -> (r: Option<[u8; 32]>)
        ensures
            r == if self.peers@.contains_key(slot) {
                Some(self.peers@[slot].fingerprint)
            } else {
                None
            },
    {
        match self.peers.get(&slot) {
            Some(ps) => Some(ps.fingerprint),
            None => None,
        }
    }

    /// A poll of the local speaking flag: while audio runs, a change is
    /// recorded and the user's fingerprint returned for announcing it.
    pub fn poll_speaking(&mut self, speaking: bool) -> (r: Option<[u8; 32]>)
        ensures
            match old(self).audio_fp {
                Some(fp) if speaking != old(self).last_speaking => r == Some(fp) && final(self).last_speaking == speaking,
                _ => r is None && final(self).last_speaking == old(self).last_speaking,
            },
            final(self).state == old(self).state,
            final(self).active == old(self).active,
            final(self).voice_salt == old(self).voice_salt,
            final(self).pending == old(self).pending,
            final(self).peers@ == old(self).peers@,
            final(self).audio_fp == old(self).audio_fp,
    {
        match self.audio_fp {
            Some(fp) => if speaking != self.last_speaking {
                self.last_speaking = speaking;
                Some(fp)
            } else {
                None
            },
            None => None,
        }
    }

    /// The fingerprints of the participants, the user's own (`own`) last.
    pub fn participants(&self, own: Option<[u8; 32]>) -> (r: Vec<[u8; 32]>)
        ensures
            is_participant_list(r@, self.peers@, own),
    {
        let mut r: Vec<[u8; 32]> = Vec::new();
        for p in it: self.peers.values()
            invariant
                r@.len() == it.index(),
                forall|j: int| 0 <= j < it.index() ==> r@[j] == (#[trigger] it.seq()[j]).fingerprint,
        {
            r.push(p.fingerprint);
        }
        let ghost listed = r@;
        proof {
            let vals = spec_values_iter(&self.peers).remaining();
            assert(vals.unref().to_set() == self.peers@.values());
            assert(listed.len() == self.peers@.dom().len());
            assert forall|f: [u8; 32]| listed.contains(f) <==> (exists|k: u32| #[trigger] self.peers@.contains_key(k) && self.peers@[k].fingerprint == f) by {
                if listed.contains(f) {
                    let j = choose|j: int| 0 <= j < listed.len() && listed[j] == f;
                    assert(vals.unref()[j] == *vals[j]);
                    assert(vals.unref().to_set().contains(vals.unref()[j]));
                    let v = vals.unref()[j];
                    assert(self.peers@.values().contains(v));
                    let k = choose|k: u32| self.peers@.contains_key(k) && self.peers@[k] == v;
                    assert(self.peers@.contains_key(k) && self.peers@[k].fingerprint == f);
                }
                if exists|k: u32| #[trigger] self.peers@.contains_key(k) && self.peers@[k].fingerprint == f {
                    let k = choose|k: u32| #[trigger] self.peers@.contains_key(k) && self.peers@[k].fingerprint == f;
                    let v = self.peers@[k];
                    assert(self.peers@.values().contains(v));
                    assert(vals.unref().to_set().contains(v));
                    let j = choose|j: int| 0 <= j < vals.unref().len() && vals.unref()[j] == v;
                    assert(listed[j] == f);
                }
            }
        }
        match own {
            Some(o) => {
                r.push(o);
                assert(r@ == listed.push(o));
                assert forall|f: [u8; 32]| r@.contains(f) <==> (listed.contains(f) || f == o) by {
                    if r@.contains(f) && f != o {
                        let j = choose|j: int| 0 <= j < r@.len() && r@[j] == f;
                        assert(listed[j] == f);
                    }
                    if listed.contains(f) {
                        let j = choose|j: int| 0 <= j < listed.len() && listed[j] == f;
                        assert(r@[j] == f);
                    }
                    if f == o {
                        assert(r@[listed.len() as int] == f);
                    }
                }
            },
            None => {
                assert(r@ == listed);
            },
        }
        assert forall|f: [u8; 32]|
            r@.contains(f) <==> ((exists|k: u32| #[trigger] self.peers@.contains_key(k) && self.peers@[k].fingerprint == f)
                || own == Some(f)) by {
            assert(r@.contains(f) <==> (listed.contains(f) || own == Some(f)));
            assert(listed.contains(f) <==> (exists|k: u32| #[trigger] self.peers@.contains_key(k) && self.peers@[k].fingerprint == f));
        }
        r
    }
}

} // verus!
