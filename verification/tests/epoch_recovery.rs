use ghost_core::epoch_recovery::{
    info_fetch_next, InfoFetch, contains_str, gap_action, recovery_next, recovery_start, AttemptResult, GapAction, RecoveryNext,
    MAX_EPOCH_RECOVERY_ATTEMPTS,
};

#[test]
fn recovery_retries_then_gives_up() {
    let mut next = recovery_start();
    let mut attempts = 0;
    loop {
        match next {
            RecoveryNext::Attempt(a) => {
                assert_eq!(a, attempts);
                attempts += 1;
                next = recovery_next("gap recovery", a, if a % 2 == 0 { AttemptResult::CommitFailed } else { AttemptResult::Rejected });
            }
            RecoveryNext::Finish(r) => {
                assert_eq!(r, Ok(false));
                break;
            }
        }
    }
    assert_eq!(attempts, MAX_EPOCH_RECOVERY_ATTEMPTS);
}

#[test]
fn recovery_ends_on_accept_or_missing_info() {
    assert!(matches!(recovery_next("x", 1, AttemptResult::Accepted), RecoveryNext::Finish(Ok(true))));
    match recovery_next("gap recovery", 0, AttemptResult::InfoUnavailable("HTTP 404".to_string())) {
        RecoveryNext::Finish(Err(m)) => assert_eq!(m, "gap recovery: fetch GroupInfo: HTTP 404"),
        _ => panic!("expected an error"),
    }
}

#[test]
fn gap_restarts_only_on_missing_group_info() {
    assert!(matches!(gap_action(&Err("gap recovery: fetch GroupInfo: relay returned 404".to_string())), GapAction::Restart));
    assert!(matches!(gap_action(&Err("timeout".to_string())), GapAction::Keep));
    assert!(matches!(gap_action(&Ok(false)), GapAction::Keep));
    assert!(matches!(gap_action(&Ok(true)), GapAction::Keep));
    assert!(contains_str("abc", ""));
    assert!(contains_str("x404", "404"));
    assert!(!contains_str("40", "404"));
}

#[test]
fn rejoin_info_fetch_decisions() {
    assert!(matches!(info_fetch_next(Some(200)), InfoFetch::Proceed));
    assert!(matches!(info_fetch_next(Some(204)), InfoFetch::Proceed));
    assert!(matches!(info_fetch_next(Some(404)), InfoFetch::GiveUp));
    assert!(matches!(info_fetch_next(Some(403)), InfoFetch::GiveUp));
    assert!(matches!(info_fetch_next(Some(302)), InfoFetch::GiveUp));
    assert!(matches!(info_fetch_next(Some(503)), InfoFetch::Retry));
    assert!(matches!(info_fetch_next(None), InfoFetch::Retry));
}
