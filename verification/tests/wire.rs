use ghost_core::constants::MessageType;
use ghost_core::ids::{derive_default_channel_id, derive_message_id, derive_mls_group_id, mls_group_mailbox_id};
use ghost_core::metadata::{decode_metadata, encode_avatar_update, MetadataPayload};
use ghost_core::sync::{sync_sign, sync_verify};
use ghost_core::wire::{accept_application, removed_fingerprints, ApplicationMessage, FIXED_HEADER_LEN};

const MESSAGE_ID_OFFSET: usize = 1 + 1 + 32 + 32 + 8;

fn test_channel() -> [u8; 32] {
    [0xAA; 32]
}

fn test_sender() -> [u8; 32] {
    [0xBB; 32]
}

fn make_text(content: &[u8]) -> ApplicationMessage {
    ApplicationMessage::new(MessageType::Text, test_channel(), test_sender(), 1000, vec![], content.to_vec()).unwrap()
}

#[test]
fn roundtrip_text() {
    let msg = make_text(b"hello ghost");
    let bytes = msg.to_bytes();
    let decoded = ApplicationMessage::from_bytes(&bytes).unwrap();

    assert_eq!(decoded.message_type, MessageType::Text);
    assert_eq!(decoded.channel_id, test_channel());
    assert_eq!(decoded.sender_fp, test_sender());
    assert_eq!(decoded.timestamp, 1000);
    assert_eq!(decoded.message_id, msg.message_id);
    assert!(decoded.references.is_empty());
    assert_eq!(decoded.content, b"hello ghost");
}

#[test]
fn roundtrip_with_references() {
    let target = [0xCC; 32];
    let msg = ApplicationMessage::new(
        MessageType::Text,
        test_channel(),
        test_sender(),
        2000,
        vec![target],
        b"replying".to_vec(),
    )
    .unwrap();
    let decoded = ApplicationMessage::from_bytes(&msg.to_bytes()).unwrap();

    assert_eq!(decoded.references.len(), 1);
    assert_eq!(decoded.references[0], target);
    assert_eq!(decoded.content, b"replying");
}

#[test]
fn roundtrip_empty_content() {
    let target = [0xDD; 32];
    let msg = ApplicationMessage::new(MessageType::Delete, test_channel(), test_sender(), 3000, vec![target], vec![])
        .unwrap();
    let decoded = ApplicationMessage::from_bytes(&msg.to_bytes()).unwrap();

    assert_eq!(decoded.message_type, MessageType::Delete);
    assert!(decoded.content.is_empty());
    assert_eq!(decoded.references[0], target);
}

#[test]
fn roundtrip_max_references() {
    let refs: Vec<[u8; 32]> = (0..255u8).map(|i| [i; 32]).collect();
    let msg = ApplicationMessage::new(
        MessageType::Text,
        test_channel(),
        test_sender(),
        4000,
        refs.clone(),
        b"many refs".to_vec(),
    )
    .unwrap();
    let decoded = ApplicationMessage::from_bytes(&msg.to_bytes()).unwrap();
    assert_eq!(decoded.references.len(), 255);
    assert_eq!(decoded.references[254], [254; 32]);
}

#[test]
fn too_many_references_rejected() {
    let refs: Vec<[u8; 32]> = (0..=255u16).map(|i| [i as u8; 32]).collect();
    assert!(ApplicationMessage::new(MessageType::Text, test_channel(), test_sender(), 1000, refs, vec![]).is_err());
}

#[test]
fn message_id_deterministic() {
    let a = derive_message_id(&test_channel(), &test_sender(), 1000, b"hello");
    let b = derive_message_id(&test_channel(), &test_sender(), 1000, b"hello");
    assert_eq!(a, b);
}

#[test]
fn message_id_changes_with_input() {
    let base = derive_message_id(&test_channel(), &test_sender(), 1000, b"hello");
    let diff_content = derive_message_id(&test_channel(), &test_sender(), 1000, b"world");
    let diff_ts = derive_message_id(&test_channel(), &test_sender(), 1001, b"hello");
    let diff_sender = derive_message_id(&test_channel(), &[0xFF; 32], 1000, b"hello");
    let diff_channel = derive_message_id(&[0xFF; 32], &test_sender(), 1000, b"hello");

    assert_ne!(base, diff_content);
    assert_ne!(base, diff_ts);
    assert_ne!(base, diff_sender);
    assert_ne!(base, diff_channel);
}

#[test]
fn mls_group_id_deterministic() {
    let gid = [0x11; 32];
    let a = derive_mls_group_id(&gid);
    let b = derive_mls_group_id(&gid);
    assert_eq!(a, b);

    let different = derive_mls_group_id(&[0x22; 32]);
    assert_ne!(a, different);
}

#[test]
fn default_channel_id_deterministic() {
    let gid = [0x11; 32];
    let a = derive_default_channel_id(&gid);
    let b = derive_default_channel_id(&gid);
    assert_eq!(a, b);

    let different = derive_default_channel_id(&[0x22; 32]);
    assert_ne!(a, different);

    // Must differ from MLS group ID derivation for same input
    assert_ne!(a, derive_mls_group_id(&gid));
}

#[test]
fn mailbox_id_deterministic() {
    let mls_id = derive_mls_group_id(&[0x33; 32]);
    let a = mls_group_mailbox_id(&mls_id);
    let b = mls_group_mailbox_id(&mls_id);
    assert_eq!(a, b);

    let different = mls_group_mailbox_id(&[0x44; 32]);
    assert_ne!(a, different);
}

#[test]
fn reject_truncated() {
    let msg = make_text(b"hello");
    let bytes = msg.to_bytes();
    assert!(ApplicationMessage::from_bytes(&bytes[..50]).is_err());
}

#[test]
fn reject_wrong_version() {
    let msg = make_text(b"hello");
    let mut bytes = msg.to_bytes();
    bytes[0] = 0xFF;
    assert!(ApplicationMessage::from_bytes(&bytes).is_err());
}

#[test]
fn reject_trailing_bytes() {
    let msg = make_text(b"hello");
    let mut bytes = msg.to_bytes();
    bytes.push(0x00);
    assert!(ApplicationMessage::from_bytes(&bytes).is_err());
}

#[test]
fn reject_unknown_message_type() {
    let msg = make_text(b"hello");
    let mut bytes = msg.to_bytes();
    bytes[1] = 0xFF;
    assert!(ApplicationMessage::from_bytes(&bytes).is_err());
}

#[test]
fn reject_tampered_message_id() {
    let msg = make_text(b"hello");
    let mut bytes = msg.to_bytes();
    bytes[MESSAGE_ID_OFFSET] ^= 0xFF;
    assert!(ApplicationMessage::from_bytes(&bytes).is_err());
}

#[test]
fn reject_truncated_references() {
    let target = [0xCC; 32];
    let msg = ApplicationMessage::new(
        MessageType::Text,
        test_channel(),
        test_sender(),
        1000,
        vec![target],
        b"hello".to_vec(),
    )
    .unwrap();
    let bytes = msg.to_bytes();
    // Cut mid-way through the references section
    assert!(ApplicationMessage::from_bytes(&bytes[..FIXED_HEADER_LEN + 10]).is_err());
}

#[test]
fn reject_content_len_overflow() {
    let msg = make_text(b"hello");
    let mut bytes = msg.to_bytes();
    let content_len_pos = FIXED_HEADER_LEN - 4;
    bytes[content_len_pos..content_len_pos + 4].copy_from_slice(&9999u32.to_be_bytes());
    assert!(ApplicationMessage::from_bytes(&bytes).is_err());
}

#[test]
fn avatar_update_roundtrip() {
    let hash = [0xAA; 32];
    let key = [0xBB; 32];
    let encoded = encode_avatar_update(&hash, &key);
    let decoded = decode_metadata(&encoded).unwrap();
    match decoded {
        MetadataPayload::AvatarUpdate { avatar_hash, avatar_key } => {
            assert_eq!(avatar_hash, hash);
            assert_eq!(avatar_key, key);
        }
        _ => panic!("expected AvatarUpdate"),
    }
}

#[test]
fn sync_sign_verify_roundtrip() {
    let sk = [0x42u8; 32];
    let payload = b"hello sync";
    let signed = sync_sign(&sk, payload);
    let (vk, recovered) = sync_verify(&signed).unwrap();
    assert_eq!(vk, ed25519_dalek::SigningKey::from_bytes(&sk).verifying_key().to_bytes());
    assert_eq!(recovered, payload);
}

#[test]
fn sync_verify_rejects_tampered() {
    let sk = [0x42u8; 32];
    let mut signed = sync_sign(&sk, b"original");
    // Tamper with the payload
    *signed.last_mut().unwrap() ^= 0xFF;
    assert!(sync_verify(&signed).is_err());
}

#[test]
fn sync_verify_rejects_too_short() {
    assert!(sync_verify(&[0u8; 95]).is_err());
}

#[test]
fn wire_header_layout_is_big_endian() {
    let msg = ApplicationMessage::new(
        MessageType::Reaction,
        test_channel(),
        test_sender(),
        0x0102030405060708,
        vec![],
        vec![0x55, 0x66],
    )
    .unwrap();
    let bytes = msg.to_bytes();
    assert_eq!(bytes.len(), FIXED_HEADER_LEN + 2);
    assert_eq!(bytes[0], 0x01);
    assert_eq!(bytes[1], 0x03);
    assert_eq!(&bytes[66..74], &[1, 2, 3, 4, 5, 6, 7, 8]);
    assert_eq!(&bytes[MESSAGE_ID_OFFSET..MESSAGE_ID_OFFSET + 32], &msg.message_id);
    assert_eq!(bytes[106], 0);
    assert_eq!(&bytes[107..111], &[0, 0, 0, 2]);
    assert_eq!(&bytes[111..], &[0x55, 0x66]);
}

#[test]
fn message_id_is_blake3_of_fields() {
    let mut input = Vec::new();
    input.extend_from_slice(&test_channel());
    input.extend_from_slice(&test_sender());
    input.extend_from_slice(&1000u64.to_be_bytes());
    input.extend_from_slice(b"hello");
    let expected: [u8; 32] = blake3::hash(&input).into();
    assert_eq!(derive_message_id(&test_channel(), &test_sender(), 1000, b"hello"), expected);
}

#[test]
fn mls_group_id_is_blake3_with_tag() {
    let gid = [0x11u8; 32];
    let mut input = gid.to_vec();
    input.extend_from_slice(b"ghost-mls");
    let expected: [u8; 32] = blake3::hash(&input).into();
    assert_eq!(derive_mls_group_id(&gid), expected);
}

#[test]
fn accept_application_checks_sender() {
    let msg = make_text(b"hi");
    let bytes = msg.to_bytes();
    let ok = accept_application(&bytes, &test_sender()).unwrap();
    assert_eq!(ok.content, b"hi");
    assert!(accept_application(&bytes, &[0x01; 32]).is_err());
    assert!(accept_application(&bytes, &test_sender()[..31]).is_err());
    assert!(accept_application(&bytes[..20], &test_sender()).is_err());
}

#[test]
fn removed_fingerprints_resolves_leaves_in_order() {
    let members = vec![(0u32, [0x0A; 32]), (1, [0x0B; 32]), (2, [0x0C; 32]), (1, [0x0D; 32])];
    let out = removed_fingerprints(&members, &[2, 7, 1]);
    assert_eq!(out, vec![[0x0C; 32], [0x0D; 32]]);
    assert!(removed_fingerprints(&members, &[]).is_empty());
}
