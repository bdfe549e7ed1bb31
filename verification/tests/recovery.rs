use ghost_core::recovery::passphrase_long_enough;
use aes_gcm::aead::Aead;
use aes_gcm::{Aes256Gcm, KeyInit, Nonce};
use ghost_core::error::GhostError;
use ghost_core::recovery::{
    export_recovery_blob, import_recovery_blob, RecoveryBlob, V1_LEN, V2_ARGON2_ITERATIONS, V2_ARGON2_MEMORY_KIB,
    V2_ARGON2_PARALLELISM, V2_LEN, V3_LEN,
};

fn old_key(pass: &[u8], salt: &[u8]) -> [u8; 32] {
    let params =
        argon2::Params::new(V2_ARGON2_MEMORY_KIB, V2_ARGON2_ITERATIONS, V2_ARGON2_PARALLELISM, Some(32)).unwrap();
    let a = argon2::Argon2::new(argon2::Algorithm::Argon2id, argon2::Version::V0x13, params);
    let mut key = [0u8; 32];
    a.hash_password_into(pass, salt, &mut key).unwrap();
    key
}

fn import_err(data: &[u8], pass: &str) -> GhostError {
    match import_recovery_blob(data, pass) {
        Err(e) => e,
        Ok(_) => panic!("import unexpectedly succeeded"),
    }
}

fn import_ok(data: &[u8], pass: &str) -> RecoveryBlob {
    match import_recovery_blob(data, pass) {
        Ok(b) => b,
        Err(e) => panic!("import failed: {e:?}"),
    }
}

#[test]
fn v3_roundtrip() {
    let seed = [0xBBu8; 32];
    let sync_key = [0xCCu8; 32];
    let blob = export_recovery_blob(&seed, &sync_key, "hunter2").unwrap();
    assert_eq!(blob.len(), V3_LEN);
    assert_eq!(blob[0], 3);

    let restored = import_ok(&blob, "hunter2");
    assert_eq!(restored.seed, seed);
    assert_eq!(restored.sync_key.unwrap(), sync_key);
}

#[test]
fn v1_backward_compat() {
    let seed = [0xAAu8; 32];
    let mut salt = [0u8; 32];
    rand::RngCore::fill_bytes(&mut rand::rngs::OsRng, &mut salt);
    let key = old_key(b"oldpass", &salt);
    let cipher = Aes256Gcm::new(&key.into());
    let mut nonce_bytes = [0u8; 12];
    rand::RngCore::fill_bytes(&mut rand::rngs::OsRng, &mut nonce_bytes);
    let nonce = Nonce::from_slice(&nonce_bytes);
    let ct = cipher.encrypt(nonce, seed.as_ref()).unwrap();

    let mut blob = Vec::with_capacity(V1_LEN);
    blob.push(1);
    blob.extend_from_slice(&salt);
    blob.extend_from_slice(&nonce_bytes);
    blob.extend_from_slice(&ct);
    assert_eq!(blob.len(), V1_LEN);

    let restored = import_ok(&blob, "oldpass");
    assert_eq!(restored.seed, seed);
    assert!(restored.sync_key.is_none());
}

#[test]
fn v2_backward_compat() {
    let seed = [0xBBu8; 32];
    let sync_key = [0xCCu8; 32];
    let mut salt = [0u8; 32];
    rand::RngCore::fill_bytes(&mut rand::rngs::OsRng, &mut salt);
    let key = old_key(b"pass2", &salt);
    let cipher = Aes256Gcm::new(&key.into());
    let mut nonce_bytes = [0u8; 12];
    rand::RngCore::fill_bytes(&mut rand::rngs::OsRng, &mut nonce_bytes);
    let nonce = Nonce::from_slice(&nonce_bytes);
    let mut pt = Vec::with_capacity(64);
    pt.extend_from_slice(&seed);
    pt.extend_from_slice(&sync_key);
    let ct = cipher.encrypt(nonce, pt.as_ref()).unwrap();

    let mut blob = Vec::with_capacity(V2_LEN);
    blob.push(2);
    blob.extend_from_slice(&salt);
    blob.extend_from_slice(&nonce_bytes);
    blob.extend_from_slice(&ct);
    assert_eq!(blob.len(), V2_LEN);

    let restored = import_ok(&blob, "pass2");
    assert_eq!(restored.seed, seed);
    assert_eq!(restored.sync_key.unwrap(), sync_key);
}

#[test]
fn wrong_passphrase_fails() {
    let blob = export_recovery_blob(&[0xCCu8; 32], &[0xDDu8; 32], "correct").unwrap();
    let err = import_err(&blob, "wrong");
    assert!(matches!(err, GhostError::AuthenticationFailed));
}

#[test]
fn bad_length_fails() {
    let err = import_err(&[3u8; 50], "pass");
    assert!(matches!(err, GhostError::Format(_)));
}

#[test]
fn bad_version_fails() {
    let mut blob = vec![0xFF];
    blob.extend_from_slice(&[0u8; 124]);
    let err = import_err(&blob, "pass");
    assert!(matches!(err, GhostError::Format(_)));
}

#[test]
fn empty_blob_fails() {
    let err = import_err(&[], "pass");
    assert!(matches!(err, GhostError::Format(_)));
}

#[test]
fn export_layout_and_distinct_salts() {
    let a = export_recovery_blob(&[1u8; 32], &[2u8; 32], "x").unwrap();
    let b = export_recovery_blob(&[1u8; 32], &[2u8; 32], "x").unwrap();
    assert_eq!(a.len(), 125);
    assert_ne!(&a[1..33], &b[1..33]);
    assert!(matches!(import_err(&a[..124], "x"), GhostError::Format(_)));
}

#[test]
fn passphrase_needs_twelve_characters() {
    assert!(!passphrase_long_enough("short"));
    assert!(!passphrase_long_enough("elevenchars"));
    assert!(passphrase_long_enough("twelve chars"));
    // characters, not bytes: eleven two-byte characters are still too few
    assert!(!passphrase_long_enough("ééééééééééé"));
    assert!(passphrase_long_enough("éééééééééééé"));
}
