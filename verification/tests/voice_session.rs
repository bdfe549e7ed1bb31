use ghost_core::audio_control::{INPUT_MODE_PTT, INPUT_MODE_VA};
use ghost_core::voice::PresenceState;
use ghost_core::voice_session::{PendingJoin, VoiceSession, WelcomeAction};

fn presence(fp: u8, muted: bool) -> PresenceState {
    PresenceState { fingerprint: [fp; 32], muted, deafened: false, device_vk: [fp ^ 0xFF; 32], voice_salt: [0; 32] }
}

fn join(sid: u8, cid: u8) -> PendingJoin {
    PendingJoin {
        server_id: [sid; 32],
        channel_id: [cid; 32],
        relay_url: "https://relay.example".to_string(),
        own_fp: [0xEE; 32],
        own_device_vk: [0xED; 32],
        voice_salt: [0x5A; 32],
        input_device: None,
        output_device: None,
        ns_mode: 1,
        agc_mode: 0,
        vad_threshold: 7,
        input_gain: 9,
        input_mode: INPUT_MODE_VA,
    }
}

fn connected_session() -> VoiceSession {
    let mut s = VoiceSession::new();
    s.connected(join(1, 2), "01".repeat(32), "02".repeat(32), false, false);
    s
}

#[test]
fn join_target_reads_hex_ids_and_names_the_bad_one() {
    let a = "ab".repeat(32);
    let (sid, cid, fp) = VoiceSession::join_target(&a, &"cd".repeat(32), &"EF".repeat(32)).unwrap();
    assert_eq!(sid, [0xAB; 32]);
    assert_eq!(cid, [0xCD; 32]);
    assert_eq!(fp, [0xEF; 32]);
    assert_eq!(VoiceSession::join_target("zz", &a, &a).unwrap_err(), "bad server_id");
    assert_eq!(VoiceSession::join_target(&a, "abcd", &a).unwrap_err(), "bad channel_id");
    assert_eq!(VoiceSession::join_target(&a, &a, "").unwrap_err(), "bad fingerprint");
}

#[test]
fn unmuting_while_deafened_undeafens() {
    let mut s = connected_session();
    let u = s.set_deafened(true).unwrap();
    assert!(u.muted && u.deafened);
    assert_eq!(u.voice_salt, [0x5A; 32]);
    let u = s.set_muted(false).unwrap();
    assert!(!u.muted && !u.deafened);
    assert!(!s.state.deafened);
    // Muting leaves deafen off.
    let u = s.set_muted(true).unwrap();
    assert!(u.muted && !u.deafened);
}

#[test]
fn mute_changes_are_announced_only_while_active() {
    let mut s = VoiceSession::new();
    assert!(s.set_muted(true).is_none());
    assert!(s.state.muted);
    assert!(s.set_deafened(true).is_none());
    let (changed, update) = s.set_input_mode(INPUT_MODE_PTT);
    assert!(changed && update.is_none());
    assert!(!s.state.muted);
}

#[test]
fn push_to_talk_unmutes_only_a_muted_user() {
    let mut s = connected_session();
    assert_eq!(s.set_input_mode(INPUT_MODE_PTT).0, false);
    s.set_muted(true);
    let (changed, update) = s.set_input_mode(INPUT_MODE_VA);
    assert!(!changed && update.is_none());
    let (changed, update) = s.set_input_mode(INPUT_MODE_PTT);
    assert!(changed);
    let u = update.unwrap();
    assert_eq!(u.server_id, [1; 32]);
    assert_eq!(u.channel_id, [2; 32]);
    assert!(!u.muted);
}

#[test]
fn welcome_starts_audio_for_the_pending_join() {
    let mut s = connected_session();
    assert_eq!(s.welcome_ids(), Some(([1; 32], [2; 32])));
    let peers = vec![(7, Some((presence(0x70, true), [0x77; 32]))), (8, None), (9, Some((presence(0x90, false), [0x99; 32])))];
    match s.on_welcome(4433, peers) {
        WelcomeAction::Start { join, keys } => {
            assert_eq!(join.own_fp, [0xEE; 32]);
            assert_eq!(keys, vec![(7, ([0x70; 32], [0x77; 32])), (9, ([0x90; 32], [0x99; 32]))]);
        }
        _ => panic!("expected start"),
    }
    assert!(s.pending.is_none());
    assert_eq!(s.state.udp_port, Some(4433));
    assert_eq!(s.peers.len(), 2);
    // A second welcome before audio runs is ignored.
    assert!(s.welcome_ids().is_none());
    assert!(matches!(s.on_welcome(1, vec![]), WelcomeAction::Ignore));
    assert_eq!(s.peers.len(), 2);
}

#[test]
fn welcome_resyncs_a_running_session() {
    let mut s = connected_session();
    s.on_welcome(4433, vec![(7, Some((presence(0x70, true), [0x77; 32])))]);
    s.audio_started([0xEE; 32]);
    match s.on_welcome(4433, vec![(3, Some((presence(0x30, false), [0x33; 32])))]) {
        WelcomeAction::Resync { keys } => assert_eq!(keys, vec![(3, ([0x30; 32], [0x33; 32]))]),
        _ => panic!("expected resync"),
    }
    assert_eq!(s.peers.len(), 1);
    assert_eq!(s.peer_fingerprint(3), Some([0x30; 32]));
    assert_eq!(s.peer_fingerprint(7), None);
}

#[test]
fn peers_join_update_and_leave() {
    let mut s = connected_session();
    s.on_joined(4, presence(0x40, false));
    s.on_presence(4, presence(0x40, true));
    s.on_presence(5, presence(0x50, true));
    assert_eq!(s.peers.get(&4).unwrap().muted, true);
    assert!(s.peers.get(&5).is_none());
    let list = s.participants(Some([0xEE; 32]));
    assert_eq!(list, vec![[0x40; 32], [0xEE; 32]]);
    s.on_left(4);
    assert!(s.participants(None).is_empty());
}

#[test]
fn speaking_changes_are_reported_once_while_audio_runs() {
    let mut s = connected_session();
    assert_eq!(s.poll_speaking(true), None);
    s.audio_started([0xEE; 32]);
    assert_eq!(s.poll_speaking(true), Some([0xEE; 32]));
    assert_eq!(s.poll_speaking(true), None);
    assert_eq!(s.poll_speaking(false), Some([0xEE; 32]));
}

#[test]
fn leave_and_reset_keep_mute_choices() {
    let mut s = connected_session();
    s.set_deafened(true);
    s.on_joined(4, presence(0x40, false));
    let (announce, was_open) = s.leave();
    assert_eq!(announce, Some(([1; 32], [2; 32])));
    assert!(was_open);
    assert!(!s.state.connected && s.state.muted && s.state.deafened);
    assert!(s.active.is_none() && s.peers.is_empty());
    let (announce, was_open) = s.leave();
    assert!(announce.is_none() && !was_open);
}
