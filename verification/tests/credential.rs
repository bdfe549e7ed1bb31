use ghost_core::credential::{credential_from_identity, parse_credential, CREDENTIAL_SIZE};
use ghost_core::identity::Identity;

#[test]
fn credential_roundtrip() {
    let id = Identity::from_seed([0xAAu8; 32]).unwrap();
    let cred = credential_from_identity(&id);
    let parsed = parse_credential(&cred.identity).unwrap();
    assert_eq!(parsed.account_fp, id.fingerprint);
    assert_eq!(parsed.master_vk, id.master_vk);
    assert_eq!(parsed.idlog_seq, id.idlog_seq);
    assert_eq!(parsed.delegation_sig, id.delegation_sig);
    assert_eq!(parse_credential(&cred.identity).unwrap().account_fp, id.fingerprint);
}

#[test]
fn credential_layout_and_length_check() {
    let id = Identity::from_seed([0xBBu8; 32]).unwrap();
    let cred = credential_from_identity(&id);
    assert_eq!(cred.identity.len(), CREDENTIAL_SIZE);
    assert_eq!(cred.signature_key, id.verifying_key);
    assert_eq!(&cred.identity[..32], &id.fingerprint);
    assert_eq!(&cred.identity[32..64], &id.master_vk);
    assert_eq!(&cred.identity[64..72], &id.idlog_seq.to_be_bytes());
    assert_eq!(&cred.identity[72..], &id.delegation_sig[..]);
    assert!(parse_credential(&cred.identity[..135]).is_err());
    let mut long = cred.identity.clone();
    long.push(0);
    assert!(parse_credential(&long).is_err());
    let mut other = cred.identity.clone();
    other[71] = 7;
    assert_eq!(parse_credential(&other).unwrap().idlog_seq, 7);
}
