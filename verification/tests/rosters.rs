use ghost_core::presence::{OnlinePresence, OnlineStatus};
use ghost_core::rosters::{status_str, OnlineRoster, VoiceRoster, MAX_PENDING_PRESENCE};
use ghost_core::voice::PresenceState;

fn ps(fp: u8, dev: u8, muted: bool) -> PresenceState {
    PresenceState { fingerprint: [fp; 32], muted, deafened: false, device_vk: [dev; 32], voice_salt: [fp; 32] }
}

fn online(fp: u8, status: OnlineStatus, msg: Option<&str>, expiry: Option<u64>, avatar: Option<[u8; 32]>) -> OnlinePresence {
    OnlinePresence {
        fingerprint: [fp; 32],
        status,
        status_message: msg.map(|m| m.to_string()),
        status_expiry: expiry,
        avatar_hash: avatar,
    }
}

const MB: [u8; 32] = [0xB0; 32];
const CH: [u8; 32] = [0xC0; 32];
const CH2: [u8; 32] = [0xC1; 32];

#[test]
fn voice_join_updates_the_same_device() {
    let mut r = VoiceRoster::new();
    r.join(MB, CH, ps(1, 1, false));
    r.join(MB, CH, ps(2, 2, false));
    r.join(MB, CH, ps(1, 1, true));
    // A second device of the same account is listed on its own.
    r.join(MB, CH, ps(1, 9, false));
    let m = r.members(&CH);
    assert_eq!(m.len(), 3);
    assert_eq!(m[0].fingerprint, [1; 32]);
    assert!(m[0].muted);
    assert_eq!(m[2].device_vk, [9; 32]);
    assert_eq!(r.mailbox_channels(&MB), vec![CH]);
}

#[test]
fn voice_leave_drops_empty_channels() {
    let mut r = VoiceRoster::new();
    assert!(!r.leave(MB, CH, ps(1, 1, false)));
    r.join(MB, CH, ps(1, 1, false));
    r.join(MB, CH, ps(2, 2, false));
    assert!(r.leave(MB, CH, ps(1, 1, true)));
    assert_eq!(r.members(&CH), vec![ps(2, 2, false)]);
    assert_eq!(r.mailbox_channels(&MB), vec![CH]);
    assert!(r.leave(MB, CH, ps(2, 2, false)));
    assert!(r.members(&CH).is_empty());
    assert!(r.mailbox_channels(&MB).is_empty());
}

#[test]
fn voice_snapshot_replaces_the_mailbox_channels() {
    let mut r = VoiceRoster::new();
    r.join(MB, CH, ps(1, 1, false));
    r.join([0xB1; 32], CH2, ps(3, 3, false));
    let cleared = r.clear_mailbox(MB);
    assert_eq!(cleared, vec![CH]);
    assert!(r.members(&CH).is_empty());
    assert_eq!(r.members(&CH2).len(), 1);
    r.add_snapshot_member(MB, CH, ps(4, 4, false));
    r.add_snapshot_member(MB, CH, ps(4, 4, false));
    assert_eq!(r.members(&CH).len(), 2);
    assert_eq!(r.mailbox_channels(&MB), vec![CH]);
}

#[test]
fn online_status_words() {
    assert_eq!(status_str(OnlineStatus::Online), "online");
    assert_eq!(status_str(OnlineStatus::Idle), "idle");
    assert_eq!(status_str(OnlineStatus::Away), "away");
    assert_eq!(status_str(OnlineStatus::Invisible), "offline");
}

#[test]
fn online_update_upserts_and_strips_expired_messages() {
    let mut r = OnlineRoster::new();
    let s = [7u8; 32];
    assert_eq!(r.update(s, online(1, OnlineStatus::Online, Some("hi"), Some(100), None), 50), None);
    assert_eq!(r.members(&s)[0].status_message.as_deref(), Some("hi"));
    let avatar = Some([0xAA; 32]);
    assert_eq!(r.update(s, online(1, OnlineStatus::Away, Some("hi"), Some(100), avatar), 100), avatar);
    let m = r.members(&s);
    assert_eq!(m.len(), 1);
    assert_eq!(m[0].status, OnlineStatus::Away);
    assert!(m[0].status_message.is_none());
    assert_eq!(m[0].avatar_hash, avatar);
    r.update(s, online(2, OnlineStatus::Idle, None, None, None), 0);
    r.leave(s, [1; 32]);
    assert_eq!(r.members(&s).len(), 1);
    assert_eq!(r.members(&s)[0].fingerprint, [2; 32]);
}

#[test]
fn online_snapshot_keeps_failed_blobs_for_retry() {
    let mut r = OnlineRoster::new();
    let s = [7u8; 32];
    r.update(s, online(9, OnlineStatus::Online, None, None, None), 0);
    let outcomes = vec![
        Ok(online(1, OnlineStatus::Online, None, None, Some([1; 32]))),
        Err(vec![0xE1]),
        Ok(online(2, OnlineStatus::Idle, None, None, None)),
        Err(vec![0xE2]),
    ];
    let avatars = r.snapshot(s, outcomes, 0);
    assert_eq!(avatars, vec![([1; 32], [1; 32])]);
    assert_eq!(r.members(&s).len(), 2);
    let pending = r.take_pending(s);
    assert_eq!(pending, vec![vec![0xE1], vec![0xE2]]);
    assert!(r.take_pending(s).is_empty());
    r.retry(s, vec![Ok(online(3, OnlineStatus::Away, None, None, None)), Err(vec![0xE2])], 0);
    assert_eq!(r.members(&s).len(), 3);
    assert_eq!(r.take_pending(s), vec![vec![0xE2]]);
}

#[test]
fn pending_blobs_are_capped() {
    let mut r = OnlineRoster::new();
    let s = [7u8; 32];
    for i in 0..100u8 {
        r.hold_blob(s, vec![i]);
    }
    let pending = r.take_pending(s);
    assert_eq!(pending.len(), MAX_PENDING_PRESENCE);
    assert_eq!(pending[63], vec![63]);
    let many: Vec<Result<OnlinePresence, Vec<u8>>> = (0..70u8).map(|i| Err(vec![i])).collect();
    r.snapshot(s, many, 0);
    assert_eq!(r.take_pending(s).len(), MAX_PENDING_PRESENCE);
}
