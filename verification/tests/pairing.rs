use ghost_core::pairing::{
    encode_provision_bundle, pairing_code, pairing_open, pairing_response, pairing_seal, parse_pairing_code,
    parse_pairing_response, parse_provision_bundle,
};

#[test]
fn pairing_code_roundtrip() {
    let code = pairing_code("https://relay.example", &[0xAB; 32], &[0x01; 32]);
    assert_eq!(code, format!("https://relay.example#{}#{}", "ab".repeat(32), "01".repeat(32)));
    let parsed = parse_pairing_code(&code).unwrap();
    assert_eq!(parsed.relay_url, "https://relay.example");
    assert_eq!(parsed.account_fp, [0xAB; 32]);
    assert_eq!(parsed.secret, [0x01; 32]);
}

#[test]
fn pairing_code_rejects_malformed() {
    assert!(parse_pairing_code("no-separators").is_err());
    assert!(parse_pairing_code(&format!("r#{}", "ab".repeat(32))).is_err());
    assert!(parse_pairing_code(&format!("r#{}#{}", "ab".repeat(31), "01".repeat(32))).is_err());
    assert!(parse_pairing_code(&format!("r#{}#{}#x", "ab".repeat(32), "01".repeat(32))).is_err());
}

fn pairing_error(code: &str) -> String {
    match parse_pairing_code(code) {
        Err(ghost_core::error::GhostError::Format(m)) => m,
        _ => panic!("expected a format error"),
    }
}

#[test]
fn pairing_code_errors_say_which_part_failed() {
    let fp = "ab".repeat(32);
    let secret = "01".repeat(32);
    assert_eq!(pairing_error("no-separators"), "invalid pairing code");
    assert_eq!(pairing_error(&format!("r#{fp}")), "invalid pairing code");
    assert_eq!(pairing_error(&format!("r#zz#{secret}")), "bad fingerprint: Invalid character 'z' at position 0");
    assert_eq!(pairing_error(&format!("r#abc#{secret}")), "bad fingerprint: Odd number of digits");
    assert_eq!(pairing_error(&format!("r#abcd#{secret}")), "fingerprint must be 32 bytes");
    assert_eq!(pairing_error(&format!("r#{fp}#0x")), "bad secret: Invalid character 'x' at position 1");
    assert_eq!(pairing_error(&format!("r#{fp}#0102")), "secret must be 32 bytes");
    // the fingerprint is checked first
    assert_eq!(pairing_error("r#zz#zz"), "bad fingerprint: Invalid character 'z' at position 0");
}

#[test]
fn pairing_blobs_roundtrip() {
    let key = [0x33; 32];
    let blob = pairing_seal(&key, b"offer").unwrap();
    assert_eq!(pairing_open(&key, &blob).unwrap(), b"offer");
    assert!(pairing_open(&[0x34; 32], &blob).is_err());
    assert!(pairing_open(&key, &blob[..11]).is_err());
}

#[test]
fn pairing_response_roundtrip() {
    let resp = pairing_response(&[0x07; 32], "laptop");
    assert_eq!(resp.len(), 38);
    let (key, label) = parse_pairing_response(&resp).unwrap();
    assert_eq!(key, [0x07; 32]);
    assert_eq!(label, "laptop");
    assert!(parse_pairing_response(&resp[..32]).is_err());
    let mut bad = resp.clone();
    bad[33] = 0xFF;
    assert!(parse_pairing_response(&bad).is_err());
}

#[test]
fn provision_bundle_roundtrip() {
    let payloads = vec![vec![1, 2, 3], vec![], vec![9; 10]];
    let mut bytes = encode_provision_bundle(&[0x55; 32], b"group-info", &payloads);
    let len = bytes.len();
    assert_eq!(len, 32 + 4 + 10 + 2 + (4 + 3) + 4 + (4 + 10));
    bytes.extend_from_slice(b"settings");
    let b = parse_provision_bundle(&bytes).unwrap();
    assert_eq!(b.sync_key, [0x55; 32]);
    assert_eq!(b.group_info, b"group-info");
    assert_eq!(b.payloads, payloads);
    assert_eq!(b.settings_offset, len);
    assert_eq!(&bytes[b.settings_offset..], b"settings");
}

#[test]
fn provision_bundle_rejects_truncation() {
    let bytes = encode_provision_bundle(&[0x55; 32], b"gi", &[vec![1, 2, 3]]);
    assert!(parse_provision_bundle(&bytes[..37]).is_err());
    assert!(parse_provision_bundle(&bytes[..bytes.len() - 1]).is_err());
    let mut huge = bytes.clone();
    huge[32..36].copy_from_slice(&1000u32.to_be_bytes());
    assert!(parse_provision_bundle(&huge).is_err());
}
