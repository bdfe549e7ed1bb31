use ghost_core::idlog::{DeviceInfo, IdLogCache, LogState};
use ghost_core::membership::{GroupMembership, MemberBinding, BINDING_SIZE};

fn fp(byte: u8) -> [u8; 32] {
    [byte; 32]
}

#[test]
fn encode_decode_empty() {
    let m = GroupMembership::new();
    let bytes = m.encode();
    assert_eq!(bytes.len(), 2);
    let decoded = GroupMembership::decode(&bytes).unwrap();
    assert!(decoded.bindings.is_empty());
}

#[test]
fn encode_decode_roundtrip() {
    let mut m = GroupMembership::new();
    m.add(MemberBinding { account_fp: fp(0x01), idlog_seq: 1, device_key: fp(0xAA) });
    m.add(MemberBinding { account_fp: fp(0x02), idlog_seq: 3, device_key: fp(0xBB) });
    m.add(MemberBinding { account_fp: fp(0x01), idlog_seq: 2, device_key: fp(0xCC) });

    let bytes = m.encode();
    assert_eq!(bytes.len(), 2 + 3 * BINDING_SIZE);

    let decoded = GroupMembership::decode(&bytes).unwrap();
    assert_eq!(decoded.bindings.len(), 3);
    assert_eq!(decoded.bindings[0].account_fp, fp(0x01));
    assert_eq!(decoded.bindings[0].idlog_seq, 1);
    assert_eq!(decoded.bindings[0].device_key, fp(0xAA));
    assert_eq!(decoded.bindings[1].idlog_seq, 3);
    assert_eq!(decoded.bindings[2].device_key, fp(0xCC));
}

#[test]
fn add_updates_existing() {
    let mut m = GroupMembership::new();
    m.add(MemberBinding { account_fp: fp(0x01), idlog_seq: 1, device_key: fp(0xAA) });
    m.add(MemberBinding { account_fp: fp(0x01), idlog_seq: 5, device_key: fp(0xAA) });
    assert_eq!(m.bindings.len(), 1);
    assert_eq!(m.bindings[0].idlog_seq, 5);
}

#[test]
fn remove_account() {
    let mut m = GroupMembership::new();
    m.add(MemberBinding { account_fp: fp(0x01), idlog_seq: 1, device_key: fp(0xAA) });
    m.add(MemberBinding { account_fp: fp(0x01), idlog_seq: 2, device_key: fp(0xBB) });
    m.add(MemberBinding { account_fp: fp(0x02), idlog_seq: 1, device_key: fp(0xCC) });
    m.remove_account(&fp(0x01));
    assert_eq!(m.bindings.len(), 1);
    assert_eq!(m.bindings[0].account_fp, fp(0x02));
}

#[test]
fn remove_device() {
    let mut m = GroupMembership::new();
    m.add(MemberBinding { account_fp: fp(0x01), idlog_seq: 1, device_key: fp(0xAA) });
    m.add(MemberBinding { account_fp: fp(0x01), idlog_seq: 2, device_key: fp(0xBB) });
    m.remove_device(&fp(0xAA));
    assert_eq!(m.bindings.len(), 1);
    assert_eq!(m.bindings[0].device_key, fp(0xBB));
}

#[test]
fn decode_rejects_truncated() {
    assert!(GroupMembership::decode(&[]).is_err());
    assert!(GroupMembership::decode(&[0x00, 0x01]).is_err()); // claims 1 entry, no data
}

#[test]
fn decode_rejects_wrong_length() {
    let mut data = vec![0x00, 0x01]; // 1 entry
    data.extend_from_slice(&[0u8; 50]); // too short (needs 72)
    assert!(GroupMembership::decode(&data).is_err());
}

#[test]
fn encoding_is_count_then_bindings() {
    let mut m = GroupMembership::new();
    m.add(MemberBinding { account_fp: fp(0x01), idlog_seq: 0x0102030405060708, device_key: fp(0xAA) });
    let bytes = m.encode();
    assert_eq!(&bytes[0..2], &[0x00, 0x01]);
    assert_eq!(&bytes[2..34], &fp(0x01));
    assert_eq!(&bytes[34..42], &[1, 2, 3, 4, 5, 6, 7, 8]);
    assert_eq!(&bytes[42..74], &fp(0xAA));
}

#[test]
fn decode_rejects_trailing_bytes() {
    let m = GroupMembership::new();
    let mut bytes = m.encode();
    bytes.push(0);
    assert!(GroupMembership::decode(&bytes).is_err());
}

#[test]
fn add_keeps_distinct_devices_of_one_account() {
    let mut m = GroupMembership::new();
    m.add(MemberBinding { account_fp: fp(0x01), idlog_seq: 1, device_key: fp(0xAA) });
    m.add(MemberBinding { account_fp: fp(0x01), idlog_seq: 1, device_key: fp(0xBB) });
    m.add(MemberBinding { account_fp: fp(0x02), idlog_seq: 1, device_key: fp(0xAA) });
    assert_eq!(m.bindings.len(), 3);
}

#[test]
fn remove_unknown_account_changes_nothing() {
    let mut m = GroupMembership::new();
    m.add(MemberBinding { account_fp: fp(0x01), idlog_seq: 1, device_key: fp(0xAA) });
    m.remove_account(&fp(0x09));
    m.remove_device(&fp(0x09));
    assert_eq!(m.bindings.len(), 1);
}

#[test]
fn validate_accepts_authorized_device() {
    let mut m = GroupMembership::new();
    m.add(MemberBinding { account_fp: fp(0x01), idlog_seq: 1, device_key: fp(0xAA) });

    let mut cache = IdLogCache::new();
    let mut state = LogState {
        account_fp: fp(0x01),
        master_verifying_key: Some(fp(0xFF)),
        devices: Vec::new(),
        head_seq: 2,
        head_hash: [0u8; 32],
    };
    state.devices.push(DeviceInfo {
        verifying_key: fp(0xAA),
        added_at_seq: 1,
        label: "device-1".into(),
        revoked_at_seq: None,
    });
    cache.insert(state);

    assert!(m.validate(&cache).is_ok());
}

#[test]
fn validate_rejects_revoked_device() {
    let mut m = GroupMembership::new();
    m.add(MemberBinding { account_fp: fp(0x01), idlog_seq: 1, device_key: fp(0xAA) });

    let mut cache = IdLogCache::new();
    let mut state = LogState {
        account_fp: fp(0x01),
        master_verifying_key: Some(fp(0xFF)),
        devices: Vec::new(),
        head_seq: 3,
        head_hash: [0u8; 32],
    };
    state.devices.push(DeviceInfo {
        verifying_key: fp(0xAA),
        added_at_seq: 1,
        label: "device-1".into(),
        revoked_at_seq: Some(2),
    });
    cache.insert(state);

    assert!(m.validate(&cache).is_err());
}

#[test]
fn validate_rejects_unknown_device() {
    let mut m = GroupMembership::new();
    m.add(MemberBinding { account_fp: fp(0x01), idlog_seq: 1, device_key: fp(0xAA) });

    let mut cache = IdLogCache::new();
    cache.insert(LogState {
        account_fp: fp(0x01),
        master_verifying_key: Some(fp(0xFF)),
        devices: Vec::new(),
        head_seq: 2,
        head_hash: [0u8; 32],
    });

    assert!(m.validate(&cache).is_err());
}

#[test]
fn validate_rejects_missing_log() {
    let mut m = GroupMembership::new();
    m.add(MemberBinding { account_fp: fp(0x01), idlog_seq: 1, device_key: fp(0xAA) });
    let cache = IdLogCache::new();
    assert!(m.validate(&cache).is_err());
}

#[test]
fn validate_rejects_binding_beyond_log_head() {
    let mut m = GroupMembership::new();
    m.add(MemberBinding { account_fp: fp(0x01), idlog_seq: 9, device_key: fp(0xAA) });
    let mut cache = IdLogCache::new();
    cache.insert(LogState {
        account_fp: fp(0x01),
        master_verifying_key: None,
        devices: vec![DeviceInfo { verifying_key: fp(0xAA), added_at_seq: 1, label: String::new(), revoked_at_seq: None }],
        head_seq: 8,
        head_hash: [0u8; 32],
    });
    assert!(m.validate(&cache).is_err());
}

#[test]
fn idlog_cache_insert_replaces_and_answers_device_queries() {
    let mut cache = IdLogCache::new();
    assert!(cache.is_active_device(&fp(1), &fp(0xAA)).is_err());
    cache.insert(LogState {
        account_fp: fp(1),
        master_verifying_key: None,
        devices: vec![DeviceInfo { verifying_key: fp(0xAA), added_at_seq: 1, label: String::new(), revoked_at_seq: None }],
        head_seq: 1,
        head_hash: [0u8; 32],
    });
    cache.insert(LogState { account_fp: fp(2), master_verifying_key: None, devices: vec![], head_seq: 4, head_hash: [1u8; 32] });
    assert_eq!(cache.is_active_device(&fp(1), &fp(0xAA)).unwrap(), true);
    assert_eq!(cache.is_active_device(&fp(1), &fp(0xBB)).unwrap(), false);
    cache.insert(LogState {
        account_fp: fp(1),
        master_verifying_key: None,
        devices: vec![DeviceInfo { verifying_key: fp(0xAA), added_at_seq: 1, label: String::new(), revoked_at_seq: Some(2) }],
        head_seq: 2,
        head_hash: [0u8; 32],
    });
    assert_eq!(cache.is_active_device(&fp(1), &fp(0xAA)).unwrap(), false);
    assert_eq!(cache.get(&fp(1)).unwrap().head_seq, 2);
    assert_eq!(cache.get(&fp(2)).unwrap().head_seq, 4);
    assert!(cache.get(&fp(3)).is_none());
}
