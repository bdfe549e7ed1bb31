use ghost_core::kinds::ServerKind;
use ghost_core::payload::ProvisionPayload;
use ghost_core::sync::{decode_sync_event, sync_open, sync_seal, sync_sign, sync_verify, SyncEvent, SyncMessageType};

#[test]
fn sync_seal_open_roundtrip() {
    let key = [0x21u8; 32];
    let blob = sync_seal(&key, b"state").unwrap();
    assert_eq!(blob.len(), 12 + 5 + 16);
    assert_eq!(sync_open(&key, &blob).unwrap(), b"state");
    assert!(sync_open(&[0x22u8; 32], &blob).is_err());
    assert!(sync_open(&key, &blob[..11]).is_err());
}

#[test]
fn sync_signed_layout() {
    let sk = [0x05u8; 32];
    let signed = sync_sign(&sk, b"abc");
    assert_eq!(signed.len(), 96 + 3);
    let vk = ed25519_dalek::SigningKey::from_bytes(&sk).verifying_key().to_bytes();
    assert_eq!(&signed[..32], &vk);
    assert_eq!(&signed[96..], b"abc");
}

#[test]
fn sync_verify_rejects_wrong_key() {
    let mut signed = sync_sign(&[0x05u8; 32], b"abc");
    let other = ed25519_dalek::SigningKey::from_bytes(&[0x06u8; 32]).verifying_key().to_bytes();
    signed[..32].copy_from_slice(&other);
    assert!(sync_verify(&signed).is_err());
}

#[test]
fn sync_message_type_bytes() {
    assert_eq!(SyncMessageType::ServerProvisioned.to_u8(), 0x01);
    assert_eq!(SyncMessageType::ServerLeft.to_u8(), 0x02);
    assert_eq!(SyncMessageType::VoiceTakeover.to_u8(), 0x03);
}

#[test]
fn sync_events_are_decoded() {
    assert!(decode_sync_event(&[]).is_err());
    let mut left = vec![0x02];
    left.extend_from_slice(&[7u8; 32]);
    assert!(matches!(decode_sync_event(&left).unwrap(), SyncEvent::ServerLeft(id) if id == [7u8; 32]));
    let mut voice = vec![0x03];
    voice.extend_from_slice(&[8u8; 40]);
    assert!(matches!(decode_sync_event(&voice).unwrap(), SyncEvent::VoiceTakeover(id) if id == [8u8; 32]));
    assert!(decode_sync_event(&[0x02, 1, 2, 3]).is_err());
    assert!(matches!(decode_sync_event(&[0x7A, 1]).unwrap(), SyncEvent::Unknown(0x7A)));
    let p = ProvisionPayload {
        server_id: [1; 32],
        server_name: "s".to_string(),
        kind: ServerKind::Group,
        members: vec![],
        channels: vec![],
        mailbox_id: [2; 32],
    };
    let mut prov = vec![0x01];
    prov.extend_from_slice(&p.to_bytes());
    match decode_sync_event(&prov).unwrap() {
        SyncEvent::ServerProvisioned(q) => assert_eq!(q.mailbox_id, [2; 32]),
        _ => panic!("expected provision"),
    }
    prov.push(0);
    assert!(decode_sync_event(&prov).is_err());
}
