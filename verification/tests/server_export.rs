use ghost_core::ids::{derive_mls_group_id, mls_group_mailbox_id};
use ghost_core::kinds::{ChannelKind, MemberRole, ServerKind};
use ghost_core::payload::{InvitePayload, ProvisionPayload};
use ghost_core::records::{Channel, Member, Server};
use ghost_core::server_export::{build_invite_payload, export_provision_payload, invite_channels, invite_members};

fn member(fp: u8, name: &str, role: MemberRole) -> Member {
    Member {
        server_id: [9; 32],
        fingerprint: [fp; 32],
        display_name: name.to_string(),
        role,
        joined_at: 1000 + fp as u64,
        avatar_hash: Some([fp; 32]),
        avatar_key: None,
    }
}

fn channel(id: u8, name: &str, kind: ChannelKind, position: i32) -> Channel {
    Channel { channel_id: [id; 32], server_id: [9; 32], name: name.to_string(), kind, position }
}

#[test]
fn members_keep_order_and_fields() {
    let ms = vec![member(1, "alice", MemberRole::Creator), member(2, "bob", MemberRole::Member)];
    let listed = invite_members(&ms);
    assert_eq!(listed.len(), 2);
    assert_eq!(listed[0].fingerprint, [1; 32]);
    assert_eq!(listed[0].display_name, "alice");
    assert_eq!(listed[0].role, MemberRole::Creator);
    assert_eq!(listed[1].fingerprint, [2; 32]);
    assert_eq!(listed[1].display_name, "bob");
    assert_eq!(listed[1].role, MemberRole::Member);
    assert!(invite_members(&[]).is_empty());
}

#[test]
fn channels_keep_order_and_fields() {
    let cs = vec![channel(5, "general", ChannelKind::Text, 0), channel(6, "lounge", ChannelKind::Voice, 3)];
    let listed = invite_channels(&cs);
    assert_eq!(listed.len(), 2);
    assert_eq!(listed[0].channel_id, [5; 32]);
    assert_eq!(listed[0].name, "general");
    assert_eq!(listed[0].kind, ChannelKind::Text);
    assert_eq!(listed[0].position, 0);
    assert_eq!(listed[1].channel_id, [6; 32]);
    assert_eq!(listed[1].name, "lounge");
    assert_eq!(listed[1].kind, ChannelKind::Voice);
    assert_eq!(listed[1].position, 3);
}

#[test]
fn invite_payload_from_records_roundtrips() {
    let ms = vec![member(1, "alice", MemberRole::Creator)];
    let cs = vec![channel(5, "general", ChannelKind::Text, 0)];
    let p = build_invite_payload(&[9; 32], "club", ServerKind::Server, &ms, &cs, vec![7, 7, 7]);
    assert_eq!(p.server_id, [9; 32]);
    assert_eq!(p.server_name, "club");
    assert_eq!(p.kind, ServerKind::Server);
    assert_eq!(p.group_info_bytes, vec![7, 7, 7]);
    let back = InvitePayload::from_bytes(&p.to_bytes()).unwrap();
    assert_eq!(back.server_name, "club");
    assert_eq!(back.members.len(), 1);
    assert_eq!(back.members[0].display_name, "alice");
    assert_eq!(back.channels[0].name, "general");
    assert_eq!(back.group_info_bytes, vec![7, 7, 7]);
}

#[test]
fn provision_payload_uses_group_mailbox() {
    let server_id = [9u8; 32];
    let meta = Server { server_id, name: "club".to_string(), kind: ServerKind::Group, creator_fp: [1; 32], created_at: 5 };
    let ms = vec![member(1, "alice", MemberRole::Creator), member(2, "bob", MemberRole::Member)];
    let cs = vec![channel(5, "messages", ChannelKind::Text, 0)];
    let group_id = derive_mls_group_id(&server_id);
    let p = export_provision_payload(&server_id, &meta, &ms, &cs, &group_id);
    assert_eq!(p.mailbox_id, mls_group_mailbox_id(&group_id));
    assert_ne!(p.mailbox_id, server_id);
    assert_eq!(p.server_name, "club");
    assert_eq!(p.kind, ServerKind::Group);
    assert_eq!(p.members.len(), 2);
    assert_eq!(p.members[1].display_name, "bob");
    let back = ProvisionPayload::from_bytes(&p.to_bytes()).unwrap();
    assert_eq!(back.mailbox_id, p.mailbox_id);
    assert_eq!(back.members[0].role, MemberRole::Creator);
}
