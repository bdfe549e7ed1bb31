use ghost_core::error::GhostError;
use ghost_core::group_policy::{
    check_can_invite, check_revoke_target, kick_leaves, leaves_of_device, member_fingerprints, new_invite_token, sync_device_leaves,
    validate_pending_proposal, GroupLeaf, ProposalKind, ProposalSender,
};
use ghost_core::kinds::MemberRole;

fn leaf(index: u32, fp: Option<u8>, vk: u8) -> GroupLeaf {
    GroupLeaf { index, identity: fp.map(|b| vec![b; 32]), signature_key: vec![vk; 32] }
}

#[test]
fn proposal_policy() {
    assert!(validate_pending_proposal(ProposalSender::Member, ProposalKind::Add));
    assert!(validate_pending_proposal(ProposalSender::Member, ProposalKind::Other));
    assert!(validate_pending_proposal(ProposalSender::External, ProposalKind::Remove));
    assert!(validate_pending_proposal(ProposalSender::External, ProposalKind::GroupContextExtensions));
    assert!(!validate_pending_proposal(ProposalSender::External, ProposalKind::Add));
    assert!(!validate_pending_proposal(ProposalSender::External, ProposalKind::Update));
    assert!(validate_pending_proposal(ProposalSender::NewMemberCommit, ProposalKind::ExternalInit));
    assert!(validate_pending_proposal(ProposalSender::NewMemberCommit, ProposalKind::Remove));
    assert!(validate_pending_proposal(ProposalSender::NewMemberCommit, ProposalKind::PreSharedKey));
    assert!(!validate_pending_proposal(ProposalSender::NewMemberCommit, ProposalKind::Add));
    assert!(!validate_pending_proposal(ProposalSender::NewMemberProposal, ProposalKind::Add));
}

#[test]
fn only_creator_invites() {
    assert!(check_can_invite(MemberRole::Creator).is_ok());
    assert!(matches!(check_can_invite(MemberRole::Member), Err(GhostError::PermissionDenied(_))));
}

#[test]
fn kick_takes_all_devices_of_target() {
    let leaves = vec![leaf(0, Some(1), 10), leaf(1, Some(2), 20), leaf(2, None, 30), leaf(3, Some(2), 21)];
    let r = kick_leaves(&[1; 32], MemberRole::Creator, &[2; 32], &leaves).unwrap();
    assert_eq!(r, vec![1, 3]);
}

#[test]
fn kick_refusals() {
    let leaves = vec![leaf(0, Some(1), 10), leaf(1, Some(2), 20)];
    assert!(matches!(kick_leaves(&[1; 32], MemberRole::Creator, &[1; 32], &leaves), Err(GhostError::PermissionDenied(_))));
    assert!(matches!(kick_leaves(&[2; 32], MemberRole::Member, &[1; 32], &leaves), Err(GhostError::PermissionDenied(_))));
    assert!(matches!(kick_leaves(&[1; 32], MemberRole::Creator, &[7; 32], &leaves), Err(GhostError::Mls(_))));
}

#[test]
fn device_leaves_by_signature_key() {
    let leaves = vec![leaf(4, Some(1), 10), leaf(5, Some(1), 11), leaf(6, Some(2), 10)];
    assert_eq!(leaves_of_device(&leaves, &[10; 32]), vec![4, 6]);
    assert_eq!(sync_device_leaves(&leaves, &[11; 32]).unwrap(), vec![5]);
    assert!(matches!(sync_device_leaves(&leaves, &[99; 32]), Err(GhostError::Mls(_))));
}

#[test]
fn fingerprints_skip_odd_credentials() {
    let mut short = leaf(9, None, 1);
    short.identity = Some(vec![5; 16]);
    let leaves = vec![leaf(0, Some(1), 10), short, leaf(2, None, 30), leaf(3, Some(2), 21)];
    assert_eq!(member_fingerprints(&leaves), vec![[1; 32], [2; 32]]);
}

#[test]
fn invite_token_is_hex_of_sixteen_bytes() {
    let t = new_invite_token();
    assert_eq!(t.len(), 32);
    assert!(t.chars().all(|c| c.is_ascii_hexdigit() && !c.is_ascii_uppercase()));
    assert_ne!(new_invite_token(), t);
}

#[test]
fn current_device_cannot_be_revoked() {
    assert!(check_revoke_target(&[1; 32], &[2; 32]).is_ok());
    assert_eq!(check_revoke_target(&[2; 32], &[2; 32]).unwrap_err(), "cannot revoke current device");
}
