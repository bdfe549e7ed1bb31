use ed25519_dalek::{Signer, SigningKey, VerifyingKey};
use ghost_core::identity::{compute_delegation_sig, Identity};
use ghost_core::keys::{derive_ed25519_seed, derive_key, derive_x25519_secret};

#[test]
fn generate_produces_unique_identities() {
    let a = Identity::generate().unwrap();
    let b = Identity::generate().unwrap();
    assert_ne!(a.fingerprint, b.fingerprint, "generate must use randomness");
    assert!(a.display_name.starts_with("ghost-"));
    // Signing key actually works
    let sk = SigningKey::from_bytes(&a.signing_key);
    let sig = sk.sign(b"test");
    let vk = VerifyingKey::from_bytes(&a.verifying_key).unwrap();
    vk.verify_strict(b"test", &sig).unwrap();
}

#[test]
fn from_seed_deterministic() {
    let seed = [0x42u8; 32];
    let a = Identity::from_seed(seed).unwrap();
    let b = Identity::from_seed(seed).unwrap();
    assert_eq!(a.fingerprint, b.fingerprint);
    assert_eq!(a.verifying_key, b.verifying_key);
    assert_eq!(a.display_name, b.display_name);
}

#[test]
fn different_seeds_different_identities() {
    let a = Identity::from_seed([0x01u8; 32]).unwrap();
    let b = Identity::from_seed([0x02u8; 32]).unwrap();
    assert_ne!(a.fingerprint, b.fingerprint);
}

#[test]
fn fingerprint_is_blake3_of_verifying_key() {
    let id = Identity::from_seed([0xAAu8; 32]).unwrap();
    let expected: [u8; 32] = blake3::hash(&id.verifying_key).into();
    assert_eq!(id.fingerprint, expected);
}

#[test]
fn fingerprint_short_is_16_hex_chars() {
    let id = Identity::generate().unwrap();
    assert_eq!(id.fingerprint_short().len(), 16);
}

#[test]
fn from_device_uses_provided_fingerprint() {
    let mut master_bytes = [0u8; 32];
    rand::RngCore::fill_bytes(&mut rand::rngs::OsRng, &mut master_bytes);
    let master = SigningKey::from_bytes(&master_bytes);
    let master_vk: [u8; 32] = master.verifying_key().to_bytes();
    let fp: [u8; 32] = blake3::hash(&master_vk).into();
    let mut device_bytes = [0u8; 32];
    rand::RngCore::fill_bytes(&mut rand::rngs::OsRng, &mut device_bytes);
    let device = SigningKey::from_bytes(&device_bytes);
    let sig = compute_delegation_sig(&master_bytes, device.verifying_key().as_bytes(), &fp, 1);
    let id = Identity::from_device(fp, device_bytes, 1, master_vk, master_bytes, sig);
    assert_eq!(id.fingerprint, fp);
}

#[test]
fn derive_key_deterministic() {
    let seed = [0xABu8; 32];
    let a = derive_key(&seed, b"test-info").unwrap();
    let b = derive_key(&seed, b"test-info").unwrap();
    assert_eq!(a, b);
}

#[test]
fn derive_key_different_info_different_output() {
    let seed = [0xABu8; 32];
    let a = derive_key(&seed, b"info-one").unwrap();
    let b = derive_key(&seed, b"info-two").unwrap();
    assert_ne!(a, b);
}

#[test]
fn derive_key_is_hkdf_sha256() {
    let hk = hkdf::Hkdf::<sha2::Sha256>::new(None, b"ikm");
    let mut expected = [0u8; 32];
    hk.expand(b"info", &mut expected).unwrap();
    assert_eq!(derive_key(b"ikm", b"info").unwrap(), expected);
    assert_ne!(derive_key(b"ikm", b"info").unwrap(), [0u8; 32]);
}

#[test]
fn identity_from_seed_uses_derived_master_key() {
    let seed = [0x07u8; 32];
    let id = Identity::from_seed(seed).unwrap();
    let sk = derive_ed25519_seed(&seed).unwrap();
    assert_eq!(id.signing_key, sk);
    assert_eq!(id.master_sk, sk);
    assert_eq!(id.master_vk, SigningKey::from_bytes(&sk).verifying_key().to_bytes());
    assert_eq!(id.idlog_seq, 0);
    assert_eq!(id.display_name, format!("ghost-{}", hex::encode(&id.fingerprint[..8])));
    assert_eq!(id.fingerprint_short(), hex::encode(&id.fingerprint[..8]));
}

#[test]
fn delegation_signature_verifies_over_domain_message() {
    let id = Identity::from_seed([0x09u8; 32]).unwrap();
    let mut msg = b"ghost-delegation-v1:".to_vec();
    msg.extend_from_slice(&id.master_vk);
    msg.extend_from_slice(&id.fingerprint);
    msg.extend_from_slice(&0u64.to_be_bytes());
    let vk = VerifyingKey::from_bytes(&id.master_vk).unwrap();
    let sig = ed25519_dalek::Signature::from_bytes(&id.delegation_sig);
    vk.verify_strict(&msg, &sig).unwrap();
}

#[test]
fn x25519_secret_is_hkdf_output() {
    let seed = [0x33u8; 32];
    let secret = derive_x25519_secret(&seed).unwrap();
    assert_eq!(secret.to_bytes(), derive_key(&seed, b"ghost-x25519").unwrap());
    let curve_secret = x25519_dalek::StaticSecret::from(secret.bytes);
    assert_eq!(curve_secret.to_bytes(), secret.bytes);
}
