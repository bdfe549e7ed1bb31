use ghost_core::kinds::{ChannelKind, MemberRole, ServerKind};
use ghost_core::metadata::{
    decode_channel_op, decode_metadata, encode_avatar_clear, encode_avatar_update, encode_channel_op, encode_member_announce,
    ChannelOpPayload, MetadataPayload,
};
use ghost_core::payload::{InviteChannel, InviteMember, InvitePayload, ProvisionPayload};

fn member(b: u8, name: &str, role: MemberRole) -> InviteMember {
    InviteMember { fingerprint: [b; 32], display_name: name.to_string(), role }
}

fn channel(b: u8, name: &str, kind: ChannelKind, position: i32) -> InviteChannel {
    InviteChannel { channel_id: [b; 32], name: name.to_string(), kind, position }
}

#[test]
fn invite_payload_roundtrip() {
    let p = InvitePayload {
        server_id: [0x01; 32],
        server_name: "home".to_string(),
        kind: ServerKind::Server,
        members: vec![member(0x02, "ann", MemberRole::Creator), member(0x03, "bo", MemberRole::Member)],
        channels: vec![channel(0x04, "general", ChannelKind::Text, 0), channel(0x05, "talk", ChannelKind::Voice, -1)],
        group_info_bytes: vec![9, 8, 7],
    };
    let bytes = p.to_bytes();
    let q = InvitePayload::from_bytes(&bytes).unwrap();
    assert_eq!(q.server_id, p.server_id);
    assert_eq!(q.server_name, "home");
    assert_eq!(q.kind, ServerKind::Server);
    assert_eq!(q.members.len(), 2);
    assert_eq!(q.members[1].display_name, "bo");
    assert_eq!(q.members[0].role, MemberRole::Creator);
    assert_eq!(q.channels[1].kind, ChannelKind::Voice);
    assert_eq!(q.channels[1].position, -1);
    assert_eq!(q.group_info_bytes, vec![9, 8, 7]);
    assert!(InvitePayload::from_bytes(&bytes[..bytes.len() - 1]).is_err());
}

#[test]
fn provision_payload_roundtrip() {
    let p = ProvisionPayload {
        server_id: [0x11; 32],
        server_name: "dm".to_string(),
        kind: ServerKind::Dm,
        members: vec![member(0x12, "x", MemberRole::Member)],
        channels: vec![],
        mailbox_id: [0x13; 32],
    };
    let bytes = p.to_bytes();
    let q = ProvisionPayload::from_bytes(&bytes).unwrap();
    assert_eq!(q.server_id, p.server_id);
    assert_eq!(q.kind, ServerKind::Dm);
    assert_eq!(q.members[0].fingerprint, [0x12; 32]);
    assert!(q.channels.is_empty());
    assert_eq!(q.mailbox_id, [0x13; 32]);
    assert!(ProvisionPayload::from_bytes(&bytes[..40]).is_err());
}

#[test]
fn channel_op_roundtrip() {
    let ops = vec![
        ChannelOpPayload::Create { channel_id: [1; 32], name: "voice".to_string(), kind: ChannelKind::Voice, position: 3 },
        ChannelOpPayload::Rename { channel_id: [2; 32], name: "renamed".to_string() },
        ChannelOpPayload::Delete { channel_id: [3; 32] },
    ];
    for op in ops {
        let bytes = encode_channel_op(&op);
        let back = decode_channel_op(&bytes).unwrap();
        match (op, back) {
            (
                ChannelOpPayload::Create { channel_id: a, name: n, kind: k, position: p },
                ChannelOpPayload::Create { channel_id: b, name: m, kind: j, position: q },
            ) => {
                assert_eq!((a, n, k, p), (b, m, j, q));
            }
            (ChannelOpPayload::Rename { channel_id: a, name: n }, ChannelOpPayload::Rename { channel_id: b, name: m }) => {
                assert_eq!((a, n), (b, m));
            }
            (ChannelOpPayload::Delete { channel_id: a }, ChannelOpPayload::Delete { channel_id: b }) => {
                assert_eq!(a, b);
            }
            _ => panic!("channel op changed kind"),
        }
    }
}

#[test]
fn metadata_member_announce_and_clear() {
    match decode_metadata(&encode_member_announce("alice")).unwrap() {
        MetadataPayload::MemberAnnounce { display_name } => assert_eq!(display_name, "alice"),
        _ => panic!("expected MemberAnnounce"),
    }
    assert!(matches!(decode_metadata(&encode_avatar_clear()).unwrap(), MetadataPayload::AvatarClear));
    assert!(decode_metadata(&[0x7E]).is_err());
    assert!(decode_metadata(&[]).is_err());
}

#[test]
fn kinds_text_and_bytes() {
    for k in [ServerKind::Server, ServerKind::Group, ServerKind::Dm] {
        assert_eq!(ServerKind::parse(k.as_str()).unwrap(), k);
        assert_eq!(ServerKind::from_byte(k.to_byte()).unwrap(), k);
    }
    for k in [ChannelKind::Text, ChannelKind::Voice] {
        assert_eq!(ChannelKind::parse(k.as_str()).unwrap(), k);
        assert_eq!(ChannelKind::from_byte(k.to_byte()).unwrap(), k);
    }
    for r in [MemberRole::Creator, MemberRole::Member] {
        assert_eq!(MemberRole::parse(r.as_str()).unwrap(), r);
        assert_eq!(MemberRole::from_byte(r.to_byte()).unwrap(), r);
    }
    assert_eq!(ServerKind::Group.to_byte(), 2);
    assert_eq!(ServerKind::Dm.to_byte(), 1);
    assert!(ServerKind::parse("guild").is_err());
    assert!(ChannelKind::from_byte(9).is_err());
    assert!(MemberRole::parse("admin").is_err());
}

#[test]
fn metadata_reads_back_with_trailing_bytes() {
    let mut bytes = encode_avatar_update(&[4; 32], &[5; 32]);
    bytes.extend_from_slice(&[9, 9]);
    match decode_metadata(&bytes).unwrap() {
        MetadataPayload::AvatarUpdate { avatar_hash, avatar_key } => {
            assert_eq!(avatar_hash, [4; 32]);
            assert_eq!(avatar_key, [5; 32]);
        }
        _ => panic!("expected AvatarUpdate"),
    }
    let mut op = encode_channel_op(&ChannelOpPayload::Rename { channel_id: [7; 32], name: "x".to_string() });
    op.push(0xFF);
    match decode_metadata(&op).unwrap() {
        MetadataPayload::ChannelOp(ChannelOpPayload::Rename { channel_id, name }) => {
            assert_eq!(channel_id, [7; 32]);
            assert_eq!(name, "x");
        }
        _ => panic!("expected Rename"),
    }
}
