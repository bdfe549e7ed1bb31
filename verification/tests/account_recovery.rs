use ghost_core::account_recovery::{active_device_keys, check_recovered_seed, parse_recovery_code};
use ghost_core::error::GhostError;
use ghost_core::identity::Identity;
use ghost_core::idlog::{DeviceInfo, LogState};

fn format_message(e: GhostError) -> String {
    match e {
        GhostError::Format(m) => m,
        _ => panic!("expected a format error"),
    }
}

#[test]
fn recovery_code_reading() {
    let fp_hex = "ab".repeat(32);
    let c = parse_recovery_code(&format!("https://relay.example#{fp_hex}")).unwrap();
    assert_eq!(c.relay_url, "https://relay.example");
    assert_eq!(c.account_fp, [0xAB; 32]);
    assert_eq!(format_message(parse_recovery_code("https://relay.example").err().unwrap()), "invalid recovery code");
    assert_eq!(format_message(parse_recovery_code("r#zz").err().unwrap()), "bad fingerprint: Invalid character 'z' at position 0");
    assert_eq!(format_message(parse_recovery_code("r#abcd").err().unwrap()), "fingerprint must be 32 bytes");
    // Only the first '#' separates.
    assert_eq!(format_message(parse_recovery_code(&format!("r#{fp_hex}#x")).err().unwrap()), "bad fingerprint: Invalid character '#' at position 64");
    assert_eq!(format_message(parse_recovery_code("r#abc").err().unwrap()), "bad fingerprint: Odd number of digits");
}

#[test]
fn recovered_seed_must_be_the_accounts() {
    let seed = [0x11u8; 32];
    let id = Identity::from_seed(seed).unwrap();
    assert!(check_recovered_seed(&seed, &id.fingerprint).is_ok());
    match check_recovered_seed(&[0x12; 32], &id.fingerprint) {
        Err(GhostError::Export(m)) => assert_eq!(m, "recovery blob does not match this account"),
        _ => panic!("expected a mismatch"),
    }
}

#[test]
fn recovery_revokes_the_active_devices() {
    let dev = |k: u8, revoked: Option<u64>| DeviceInfo { verifying_key: [k; 32], added_at_seq: 1, label: "d".into(), revoked_at_seq: revoked };
    let state = LogState {
        account_fp: [0; 32],
        master_verifying_key: None,
        devices: vec![dev(1, None), dev(2, Some(4)), dev(3, None), dev(1, Some(9)), dev(2, None)],
        head_seq: 9,
        head_hash: [0; 32],
    };
    let mut keys = active_device_keys(&state);
    keys.sort();
    assert_eq!(keys, vec![[1; 32], [3; 32]]);
}
