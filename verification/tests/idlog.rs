use ghost_core::error::GhostError;
use ghost_core::idlog::{IdLogCache, LogState};

#[test]
fn unknown_account_returns_error() {
    let cache = IdLogCache::new();
    let result = cache.is_active_device(&[0xFF; 32], &[0xAA; 32]);
    assert!(result.is_err());
    assert!(matches!(result, Err(GhostError::IdentityLog(_))));
}

#[test]
fn direct_insert_works() {
    let mut cache = IdLogCache::new();
    let fp = [0x11; 32];
    let state = LogState {
        account_fp: fp,
        master_verifying_key: Some([0x22; 32]),
        devices: Vec::new(),
        head_seq: 1,
        head_hash: [0x33; 32],
    };
    cache.insert(state);
    assert!(cache.get(&fp).is_some());
}
