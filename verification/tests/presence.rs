use ghost_core::presence::{status_from_choice, status_is_remembered};
use ghost_core::presence::{
    filter_expired_status, open_online_presence, seal_online_presence, try_open_online_presence, OnlinePresence,
    OnlineStatus,
};

#[test]
fn online_presence_roundtrip_minimal() {
    let state = OnlinePresence {
        fingerprint: [0xAA; 32],
        status: OnlineStatus::Online,
        status_message: None,
        status_expiry: None,
        avatar_hash: None,
    };
    let bytes = state.to_bytes();
    assert_eq!(bytes.len(), 34);
    let parsed = OnlinePresence::from_bytes(&bytes).unwrap();
    assert_eq!(state, parsed);
}

#[test]
fn online_presence_roundtrip_full() {
    let state = OnlinePresence {
        fingerprint: [0xBB; 32],
        status: OnlineStatus::Away,
        status_message: Some("brb lunch".into()),
        status_expiry: Some(1700000000000),
        avatar_hash: Some([0xCC; 32]),
    };
    let bytes = state.to_bytes();
    let parsed = OnlinePresence::from_bytes(&bytes).unwrap();
    assert_eq!(state, parsed);
}

#[test]
fn online_presence_seal_open_roundtrip() {
    let key = [0x42u8; 32];
    let state = OnlinePresence {
        fingerprint: [0xDD; 32],
        status: OnlineStatus::Idle,
        status_message: Some("afk".into()),
        status_expiry: None,
        avatar_hash: None,
    };
    let blob = seal_online_presence(&key, &state).unwrap();
    let opened = open_online_presence(&key, &blob).unwrap();
    assert_eq!(state, opened);
}

#[test]
fn online_presence_wrong_key_fails() {
    let state = OnlinePresence {
        fingerprint: [0xEE; 32],
        status: OnlineStatus::Online,
        status_message: None,
        status_expiry: None,
        avatar_hash: None,
    };
    let blob = seal_online_presence(&[0x42; 32], &state).unwrap();
    assert!(open_online_presence(&[0x43; 32], &blob).is_err());
}

#[test]
fn online_presence_layout() {
    let state = OnlinePresence {
        fingerprint: [0x01; 32],
        status: OnlineStatus::Away,
        status_message: Some("hi".into()),
        status_expiry: Some(0x0102),
        avatar_hash: None,
    };
    let bytes = state.to_bytes();
    assert_eq!(bytes[32], OnlineStatus::Away.to_u8());
    assert_eq!(bytes[33], 0x03);
    assert_eq!(&bytes[34..36], &[2, 0]);
    assert_eq!(&bytes[36..38], b"hi");
    assert_eq!(&bytes[38..46], &[0, 0, 0, 0, 0, 0, 1, 2]);
    assert_eq!(bytes.len(), 46);
}

#[test]
fn online_presence_rejects_bad_status_and_truncation() {
    let state = OnlinePresence {
        fingerprint: [0x01; 32],
        status: OnlineStatus::Online,
        status_message: None,
        status_expiry: Some(5),
        avatar_hash: None,
    };
    let mut bytes = state.to_bytes();
    assert!(OnlinePresence::from_bytes(&bytes[..40]).is_err());
    assert!(OnlinePresence::from_bytes(&bytes[..33]).is_err());
    bytes[32] = 0xEE;
    assert!(OnlinePresence::from_bytes(&bytes).is_err());
}

#[test]
fn online_presence_ignores_trailing_bytes() {
    let state = OnlinePresence {
        fingerprint: [0x07; 32],
        status: OnlineStatus::Online,
        status_message: None,
        status_expiry: None,
        avatar_hash: None,
    };
    let mut bytes = state.to_bytes();
    bytes.extend_from_slice(&[9, 9, 9]);
    assert_eq!(OnlinePresence::from_bytes(&bytes).unwrap(), state);
}

#[test]
fn online_status_bytes() {
    for s in [OnlineStatus::Online, OnlineStatus::Idle, OnlineStatus::Away, OnlineStatus::Invisible] {
        assert_eq!(OnlineStatus::try_from_u8(s.to_u8()).unwrap(), s);
    }
    assert!(OnlineStatus::try_from_u8(0x7F).is_err());
}

#[test]
fn expired_status_message_is_dropped() {
    let mut p = OnlinePresence {
        fingerprint: [0x01; 32],
        status: OnlineStatus::Away,
        status_message: Some("out".into()),
        status_expiry: Some(1000),
        avatar_hash: Some([0x02; 32]),
    };
    filter_expired_status(&mut p, 999);
    assert_eq!(p.status_message.as_deref(), Some("out"));
    filter_expired_status(&mut p, 1000);
    assert!(p.status_message.is_none());
    assert!(p.status_expiry.is_none());
    assert_eq!(p.avatar_hash, Some([0x02; 32]));
}

#[test]
fn seal_online_presence_blob_layout() {
    let state = OnlinePresence {
        fingerprint: [0x03; 32],
        status: OnlineStatus::Online,
        status_message: None,
        status_expiry: None,
        avatar_hash: None,
    };
    let blob = seal_online_presence(&[0x11; 32], &state).unwrap();
    assert_eq!(blob.len(), 12 + 34 + 16);
    assert!(open_online_presence(&[0x11; 32], &blob[..27]).is_err());
}

#[test]
fn try_open_online_presence_picks_matching_member() {
    let alice_key = [0x11u8; 32];
    let bob_key = [0x22u8; 32];
    let state = OnlinePresence {
        fingerprint: [0xB0; 32],
        status: OnlineStatus::Away,
        status_message: Some("focus".into()),
        status_expiry: None,
        avatar_hash: None,
    };
    let blob = seal_online_presence(&bob_key, &state).unwrap();
    let members = vec![([0xA0u8; 32], alice_key), ([0xB0u8; 32], bob_key)];
    assert_eq!(try_open_online_presence(&members, &blob).unwrap(), state);
    let wrong = vec![([0xA0u8; 32], bob_key)];
    assert!(try_open_online_presence(&wrong, &blob).is_err());
}

#[test]
fn trial_decryption() {
    let id = ghost_core::identity::Identity::from_seed([0x01u8; 32]).unwrap();
    let key = [0x3Cu8; 32];
    let state = OnlinePresence {
        fingerprint: id.fingerprint,
        status: OnlineStatus::Online,
        status_message: Some("hello".into()),
        status_expiry: None,
        avatar_hash: None,
    };
    let blob = seal_online_presence(&key, &state).unwrap();
    let candidates = vec![([0xAA; 32], [0xA1u8; 32]), (id.fingerprint, key), ([0xBB; 32], [0xB1u8; 32])];
    let opened = try_open_online_presence(&candidates, &blob).unwrap();
    assert_eq!(opened.fingerprint, id.fingerprint);
    assert_eq!(opened.status, OnlineStatus::Online);
    assert_eq!(opened.status_message.as_deref(), Some("hello"));
}

#[test]
fn status_picked_by_name() {
    assert_eq!(status_from_choice("online"), Some(OnlineStatus::Online));
    assert_eq!(status_from_choice("idle"), Some(OnlineStatus::Idle));
    assert_eq!(status_from_choice("away"), Some(OnlineStatus::Away));
    assert_eq!(status_from_choice("invisible"), Some(OnlineStatus::Invisible));
    assert_eq!(status_from_choice("offline"), None);
    assert_eq!(status_from_choice("busy"), None);
    assert!(status_is_remembered(OnlineStatus::Away));
    assert!(!status_is_remembered(OnlineStatus::Idle));
}
