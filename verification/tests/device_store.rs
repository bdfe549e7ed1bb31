use ghost_core::device_store::{decode_device, encode_device, StoredDevice, DEVICE_BLOB_SIZE};
use ghost_core::error::GhostError;

fn device() -> StoredDevice {
    StoredDevice { fingerprint: [0x55; 32], signing_key: [0x01; 32], db_key: [0xAA; 32], mls_db_key: [0xBB; 32] }
}

#[test]
fn device_credentials_roundtrip() {
    let text = encode_device(&device());
    assert_eq!(text.len(), 2 * DEVICE_BLOB_SIZE);
    assert!(text.starts_with(&"55".repeat(32)));
    let d = decode_device(&text).unwrap();
    assert_eq!(d.fingerprint, [0x55; 32]);
    assert_eq!(d.signing_key, [0x01; 32]);
    assert_eq!(d.db_key, [0xAA; 32]);
    assert_eq!(d.mls_db_key, [0xBB; 32]);
    // Upper-case hex reads too.
    assert_eq!(decode_device(&text.to_uppercase()).unwrap().db_key, [0xAA; 32]);
}

#[test]
fn device_credentials_rejects_bad_text() {
    assert!(matches!(decode_device("zz"), Err(GhostError::InvalidKey(_))));
    assert!(matches!(decode_device(&"00".repeat(127)), Err(GhostError::InvalidKey(_))));
    assert!(matches!(decode_device(&"00".repeat(129)), Err(GhostError::InvalidKey(_))));
    assert!(matches!(decode_device("0"), Err(GhostError::InvalidKey(_))));
    match decode_device("zz") {
        Err(GhostError::InvalidKey(m)) => assert_eq!(m, "bad hex in keyring: Invalid character 'z' at position 0"),
        _ => panic!("expected InvalidKey"),
    }
    match decode_device(&"00".repeat(127)) {
        Err(GhostError::InvalidKey(m)) => assert_eq!(m, "expected 128 bytes, got 127"),
        _ => panic!("expected InvalidKey"),
    }
}
