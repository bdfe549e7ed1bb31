use ghost_core::session::{classify_commit, kt_consistency_check, kt_head_mismatch, KtCheck, ReceiveResult};

#[test]
fn commit_that_removes_our_last_leaf_kicks_us() {
    let me = [1u8; 32];
    let r = classify_commit(&[me, [2u8; 32]], &[[3u8; 32]], &me);
    assert!(matches!(r, ReceiveResult::Kicked));
}

#[test]
fn commit_removing_one_of_our_devices_is_not_a_kick() {
    let me = [1u8; 32];
    let r = classify_commit(&[me], &[me, [3u8; 32]], &me);
    assert!(matches!(r, ReceiveResult::CommitProcessed));
}

#[test]
fn commit_reports_only_accounts_without_leaves() {
    let me = [1u8; 32];
    let r = classify_commit(&[[2u8; 32], [3u8; 32], [4u8; 32]], &[me, [3u8; 32]], &me);
    match r {
        ReceiveResult::MembersRemoved(v) => assert_eq!(v, vec![[2u8; 32], [4u8; 32]]),
        _ => panic!("expected MembersRemoved"),
    }
    assert!(matches!(classify_commit(&[], &[me], &me), ReceiveResult::CommitProcessed));
}

#[test]
fn kt_head_warning() {
    assert!(!kt_head_mismatch(None, &[1u8; 32]));
    assert!(!kt_head_mismatch(Some([1u8; 32]), &[1u8; 32]));
    assert!(kt_head_mismatch(Some([2u8; 32]), &[1u8; 32]));
}

#[test]
fn kt_checkpoint_consistency() {
    assert!(matches!(kt_consistency_check(None, 5), Ok(KtCheck::NoProofNeeded)));
    assert!(matches!(kt_consistency_check(Some(5), 5), Ok(KtCheck::NoProofNeeded)));
    assert!(matches!(kt_consistency_check(Some(5), 6), Ok(KtCheck::ProofNeeded)));
    assert!(kt_consistency_check(Some(5), 4).is_err());
}
