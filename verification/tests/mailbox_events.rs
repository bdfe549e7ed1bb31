use ghost_core::kinds::MemberRole;
use ghost_core::mailbox_events::{discovered_member, discovered_members, Connectivity, ErrorStreaks};

#[test]
fn third_consecutive_error_triggers_recovery() {
    let mut s = ErrorStreaks::new();
    let a = [1u8; 32];
    let b = [2u8; 32];
    assert!(!s.on_failed(a));
    assert!(!s.on_failed(a));
    assert!(!s.on_failed(b));
    assert!(s.on_failed(a));
    // The run starts over.
    assert!(!s.on_failed(a));
    s.on_received(a);
    assert!(!s.on_failed(a));
    assert!(!s.on_failed(a));
    assert!(s.on_failed(a));
    assert!(!s.on_failed(b));
    assert!(s.on_failed(b));
}

#[test]
fn relay_connectivity_is_any_mailbox_up() {
    let mut c = Connectivity::new();
    assert!(c.on_connection([1; 32], true));
    assert!(c.on_connection([2; 32], true));
    assert!(c.on_connection([1; 32], true));
    assert!(c.on_connection([1; 32], false));
    assert!(!c.on_connection([2; 32], false));
    assert!(!c.on_connection([3; 32], false));
}

#[test]
fn commit_members_missing_from_records() {
    let group = [[1u8; 32], [2; 32], [3; 32], [2; 32]];
    let stored = [[1u8; 32], [9; 32]];
    assert_eq!(discovered_members(&group, &stored), vec![[2; 32], [3; 32], [2; 32]]);
    assert!(discovered_members(&[], &stored).is_empty());
    let mut fp = [0xEE; 32];
    fp[0] = 0x01;
    let m = discovered_member([5; 32], fp, 777);
    assert_eq!(m.display_name, "01eeeeeeeeeeeeee");
    assert_eq!(m.role, MemberRole::Member);
    assert_eq!(m.joined_at, 777);
    assert!(m.avatar_hash.is_none() && m.avatar_key.is_none());
}
