use ghost_core::records::new_channel;
use ghost_core::constants::MessageType;
use ghost_core::ids::derive_default_channel_id;
use ghost_core::kinds::{ChannelKind, MemberRole, ServerKind};
use ghost_core::records::{
    blob32, cached_idlog_state_from, clamp_sync_ts, is_persisted, kt_state_from, new_server_records, opt_blob32,
    stored_message_of, RawChannel, RawMember, RawMessage,
};
use ghost_core::wire::ApplicationMessage;

#[test]
fn raw_channel_parses_kind() {
    let raw = RawChannel {
        channel_id: [1; 32],
        server_id: [2; 32],
        name: "general".to_string(),
        kind_str: "voice".to_string(),
        position: 4,
    };
    let c = raw.into_channel().unwrap();
    assert_eq!(c.kind, ChannelKind::Voice);
    assert_eq!(c.position, 4);
    assert_eq!(c.name, "general");
    let bad = RawChannel { channel_id: [1; 32], server_id: [2; 32], name: String::new(), kind_str: "video".to_string(), position: 0 };
    assert!(bad.into_channel().is_err());
}

#[test]
fn raw_member_parses_role() {
    let raw = RawMember {
        server_id: [1; 32],
        fingerprint: [3; 32],
        display_name: "ann".to_string(),
        role_str: "creator".to_string(),
        joined_at: 77,
        avatar_hash: Some([4; 32]),
        avatar_key: None,
    };
    let m = raw.into_member().unwrap();
    assert_eq!(m.role, MemberRole::Creator);
    assert_eq!(m.joined_at, 77);
    assert_eq!(m.avatar_hash, Some([4; 32]));
    let bad = RawMember {
        server_id: [1; 32],
        fingerprint: [3; 32],
        display_name: "ann".to_string(),
        role_str: "owner".to_string(),
        joined_at: 77,
        avatar_hash: None,
        avatar_key: None,
    };
    assert!(bad.into_member().is_err());
}

#[test]
fn raw_message_takes_references() {
    let raw = RawMessage {
        message_id: [1; 32],
        channel_id: [2; 32],
        sender_fp: [3; 32],
        message_type: 1,
        timestamp: 10,
        received_at: 11,
        content: b"x".to_vec(),
        expires_at: Some(99),
    };
    let m = raw.into_stored(vec![[5; 32]]);
    assert_eq!(m.references, vec![[5; 32]]);
    assert_eq!(m.expires_at, Some(99));
    assert_eq!(m.received_at, 11);
}

#[test]
fn blob_columns_must_be_32_bytes() {
    assert_eq!(blob32(&[7u8; 32]), Some([7u8; 32]));
    assert_eq!(blob32(&[7u8; 31]), None);
    assert!(matches!(opt_blob32(&None), Ok(None)));
    assert!(matches!(opt_blob32(&Some(vec![1u8; 32])), Ok(Some(_))));
    assert!(opt_blob32(&Some(vec![1u8; 33])).is_err());
}

#[test]
fn idlog_state_row_checks_lengths() {
    let s = cached_idlog_state_from(5, &[1u8; 32], &Some(vec![2u8; 32])).unwrap();
    assert_eq!(s.head_seq, 5);
    assert_eq!(s.master_vk, Some([2u8; 32]));
    assert!(cached_idlog_state_from(5, &[1u8; 31], &None).is_err());
    assert!(cached_idlog_state_from(5, &[1u8; 32], &Some(vec![2u8; 3])).is_err());
    assert!(cached_idlog_state_from(5, &[1u8; 32], &None).unwrap().master_vk.is_none());
}

#[test]
fn kt_state_row() {
    let s = kt_state_from(12, &[9u8; 32], vec![1, 2]);
    assert_eq!(s.tree_size, 12);
    assert_eq!(s.root_hash, [9u8; 32]);
    assert_eq!(s.checkpoint, vec![1, 2]);
}

#[test]
fn sync_timestamps_are_clamped_to_five_minutes_ahead() {
    assert_eq!(clamp_sync_ts(1_000, 2_000), 1_000);
    assert_eq!(clamp_sync_ts(302_000, 2_000), 302_000);
    assert_eq!(clamp_sync_ts(302_001, 2_000), 302_000);
    assert_eq!(clamp_sync_ts(u64::MAX, 0), 300_000);
}

#[test]
fn new_server_starts_with_default_channel_and_creator() {
    let (s, c, m) = new_server_records([0x42; 32], "club", ServerKind::Server, [0x01; 32], "ann", 500);
    assert_eq!(s.name, "club");
    assert_eq!(s.creator_fp, [0x01; 32]);
    assert_eq!(c.name, "general");
    assert_eq!(c.channel_id, derive_default_channel_id(&[0x42; 32]));
    assert_eq!(c.kind, ChannelKind::Text);
    assert_eq!(c.position, 0);
    assert_eq!(m.role, MemberRole::Creator);
    assert_eq!(m.display_name, "ann");
    assert_eq!(m.joined_at, 500);
    let (_, dm_channel, _) = new_server_records([0x43; 32], "", ServerKind::Dm, [0x01; 32], "ann", 1);
    assert_eq!(dm_channel.name, "messages");
    let (_, group_channel, _) = new_server_records([0x44; 32], "", ServerKind::Group, [0x01; 32], "ann", 1);
    assert_eq!(group_channel.name, "messages");
}

#[test]
fn stored_message_copies_fields() {
    let msg = ApplicationMessage::new(MessageType::Text, [1; 32], [2; 32], 40, vec![[3; 32]], b"hey".to_vec()).unwrap();
    let s = stored_message_of(&msg, 41);
    assert_eq!(s.message_id, msg.message_id);
    assert_eq!(s.message_type, 0x01);
    assert_eq!(s.received_at, 41);
    assert_eq!(s.content, b"hey");
    assert_eq!(s.references, vec![[3; 32]]);
    assert!(s.expires_at.is_none());
    assert!(is_persisted(&msg));
    let meta = ApplicationMessage::new(MessageType::Metadata, [0; 32], [2; 32], 40, vec![], vec![]).unwrap();
    assert!(!is_persisted(&meta));
}

#[test]
fn new_channel_goes_last_with_picked_kind() {
    let a = new_channel([3; 32], "lounge", "voice", 2);
    assert_eq!(a.server_id, [3; 32]);
    assert_eq!(a.name, "lounge");
    assert_eq!(a.kind, ChannelKind::Voice);
    assert_eq!(a.position, 2);
    let b = new_channel([3; 32], "chat", "anything", 0);
    assert_eq!(b.kind, ChannelKind::Text);
    assert_eq!(b.position, 0);
    assert_ne!(a.channel_id, b.channel_id);
}
