//! Decisions the client takes over the leaves of an MLS group: which queued
//! proposals it lets into a commit, who may invite and kick, and which leaves
//! a kick or a device revocation removes. The group itself stays with the MLS
//! library; these functions see each leaf as its index, the identity of its
//! basic credential and its signature key.

use vstd::prelude::*;

use crate::aead::os_random_bytes;
use crate::codec::{bytes_eq, copy32, eq32};
use crate::error::GhostError;
use crate::kinds::MemberRole;
use crate::text::{hex_encode, hex_lower};

verus! {

/// Who sent a proposal queued in a group.
#[derive(Debug, Clone, Copy, PartialEq, Eq, Structural)]
pub enum ProposalSender {
    /// A member of the group.
    Member,
    /// An external sender listed in the group context (the relay).
    External,
    /// Someone joining by external commit.
    NewMemberCommit,
    /// Someone asking to join by proposal.
    NewMemberProposal,
}

/// What a queued proposal asks for.
#[derive(Debug, Clone, Copy, PartialEq, Eq, Structural)]
pub enum ProposalKind {
    Add,
    Update,
    Remove,
    PreSharedKey,
    ReInit,
    ExternalInit,
    GroupContextExtensions,
    /// Any other proposal type.
    Other,
}

/// The commit policy: member proposals are accepted (the relay validated
/// them); the relay as external sender may only remove members or change the
/// group context extensions; an external commit may carry its required
/// ExternalInit and removals or pre-shared keys; nothing else is accepted.
pub open spec fn proposal_allowed(sender: ProposalSender, kind: ProposalKind) -> bool {
    match sender {
        ProposalSender::Member => true,
        ProposalSender::External => kind == ProposalKind::Remove || kind == ProposalKind::GroupContextExtensions,
        ProposalSender::NewMemberCommit => kind == ProposalKind::ExternalInit || kind == ProposalKind::Remove
            || kind == ProposalKind::PreSharedKey,
        ProposalSender::NewMemberProposal => false,
    }
}

/// The reach of each sender under the commit policy. An external commit may
/// carry exactly what joining needs (its ExternalInit, removals, pre-shared
/// keys) and nothing else; of those, the ExternalInit and the pre-shared keys
/// are what the relay may not send. Only members and the relay may change the
/// group context extensions; only members may add, update or re-initialise;
/// a would-be member's own proposal is never let in; and whatever anyone may
/// send, a member may too.
pub proof fn law_commit_policy_reach(s: ProposalSender, k: ProposalKind)
    ensures
        proposal_allowed(ProposalSender::NewMemberCommit, k)
            == (k == ProposalKind::ExternalInit || k == ProposalKind::Remove || k == ProposalKind::PreSharedKey),
        (proposal_allowed(ProposalSender::NewMemberCommit, k) && !proposal_allowed(ProposalSender::External, k))
            == (k == ProposalKind::ExternalInit || k == ProposalKind::PreSharedKey),
        proposal_allowed(s, ProposalKind::GroupContextExtensions)
            == (s == ProposalSender::Member || s == ProposalSender::External),
        proposal_allowed(s, ProposalKind::Add) == (s == ProposalSender::Member),
        proposal_allowed(s, ProposalKind::Update) == (s == ProposalSender::Member),
        proposal_allowed(s, ProposalKind::ReInit) == (s == ProposalSender::Member),
        !proposal_allowed(ProposalSender::NewMemberProposal, k),
        proposal_allowed(s, k) ==> proposal_allowed(ProposalSender::Member, k),
{
}

/// Whether a queued proposal may go into a commit.
pub fn validate_pending_proposal(sender: ProposalSender, kind: ProposalKind) -> (ok: bool)
    ensures
        ok == proposal_allowed(sender, kind),
{
    match sender {
        ProposalSender::Member => true,
        ProposalSender::External => match kind {
            ProposalKind::Remove | ProposalKind::GroupContextExtensions => true,
            _ => false,
        },
        ProposalSender::NewMemberCommit => match kind {
            ProposalKind::ExternalInit | ProposalKind::Remove | ProposalKind::PreSharedKey => true,
            _ => false,
        },
        ProposalSender::NewMemberProposal => false,
    }
}

/// A leaf of a group as the decisions here see it.
#[derive(Debug, Clone)]
pub struct GroupLeaf {
    pub index: u32,
    /// The identity of the leaf's basic credential, if it has one.
    pub identity: Option<Vec<u8>>,
    pub signature_key: Vec<u8>,
}

/// Whether a leaf's credential names the account `fp`.
pub open spec fn leaf_of_account(l: GroupLeaf, fp: Seq<u8>) -> bool {
    l.identity matches Some(id) && id@ == fp
}

/// Whether a leaf belongs to the device key `vk`.
pub open spec fn leaf_of_device(l: GroupLeaf, vk: Seq<u8>) -> bool {
    l.signature_key@ == vk
}

/// The indices of the leaves of `leaves` that name the account `fp`, in order.
pub open spec fn account_leaves(leaves: Seq<GroupLeaf>, fp: Seq<u8>) -> Seq<u32>
    decreases leaves.len(),
{
    if leaves.len() == 0 {
        seq![]
    } else {
        let rest = account_leaves(leaves.drop_last(), fp);
        if leaf_of_account(leaves.last(), fp) {
            rest.push(leaves.last().index)
        } else {
            rest
        }
    }
}

/// The indices of the leaves of `leaves` that belong to the device key `vk`, in order.
pub open spec fn device_leaves_of(leaves: Seq<GroupLeaf>, vk: Seq<u8>) -> Seq<u32>
    decreases leaves.len(),
{
    if leaves.len() == 0 {
        seq![]
    } else {
        let rest = device_leaves_of(leaves.drop_last(), vk);
        if leaf_of_device(leaves.last(), vk) {
            rest.push(leaves.last().index)
        } else {
            rest
        }
    }
}

/// The accounts the leaves name: each credential identity of 32 bytes, in order.
pub open spec fn leaf_fingerprints(leaves: Seq<GroupLeaf>) -> Seq<Seq<u8>>
    decreases leaves.len(),
{
    if leaves.len() == 0 {
        seq![]
    } else {
        let rest = leaf_fingerprints(leaves.drop_last());
        match leaves.last().identity {
            Some(id) => if id@.len() == 32 { rest.push(id@) } else { rest },
            None => rest,
        }
    }
}

/// Whether `x` is the index of a leaf of `leaves` that names the account `fp`.
pub open spec fn is_account_leaf(leaves: Seq<GroupLeaf>, fp: Seq<u8>, x: u32) -> bool {
    exists|j: int| 0 <= j < leaves.len() && leaf_of_account(leaves[j], fp) && #[trigger] leaves[j].index == x
}

/// A kick takes every device of the target and nothing else: each leaf whose
/// credential names the account is selected, and each selected index is the
/// index of such a leaf.
pub proof fn law_kick_takes_every_device(leaves: Seq<GroupLeaf>, fp: Seq<u8>)
    ensures
        forall|j: int| 0 <= j < leaves.len() && leaf_of_account(#[trigger] leaves[j], fp)
            ==> account_leaves(leaves, fp).contains(leaves[j].index),
        forall|k: int| 0 <= k < account_leaves(leaves, fp).len()
            ==> is_account_leaf(leaves, fp, #[trigger] account_leaves(leaves, fp)[k]),
    decreases leaves.len(),
{
    if leaves.len() > 0 {
        let init = leaves.drop_last();
        law_kick_takes_every_device(init, fp);
        let rest = account_leaves(init, fp);
        assert forall|j: int| 0 <= j < leaves.len() && leaf_of_account(#[trigger] leaves[j], fp)
            implies account_leaves(leaves, fp).contains(leaves[j].index) by {
            if j < leaves.len() - 1 {
                assert(init[j] == leaves[j]);
                let k = choose|k: int| 0 <= k < rest.len() && rest[k] == init[j].index;
                if leaf_of_account(leaves.last(), fp) {
                    assert(account_leaves(leaves, fp)[k] == leaves[j].index);
                }
            } else {
                assert(account_leaves(leaves, fp).last() == leaves[j].index);
            }
        }
        assert forall|k: int| 0 <= k < account_leaves(leaves, fp).len()
            implies is_account_leaf(leaves, fp, #[trigger] account_leaves(leaves, fp)[k]) by {
            if k < rest.len() {
                assert(account_leaves(leaves, fp)[k] == rest[k]);
                assert(is_account_leaf(init, fp, rest[k]));
                let j = choose|j: int| 0 <= j < init.len() && leaf_of_account(init[j], fp)
                    && #[trigger] init[j].index == rest[k];
                assert(leaves[j] == init[j]);
            } else {
                let j = leaves.len() - 1;
                assert(leaves[j] == leaves.last());
            }
        }
    }
}

/// The leaves that name the account `fp` (all its devices), in group order.
pub fn leaves_of_account(leaves: &[GroupLeaf], fp: &[u8; 32]) -> (out: Vec<u32>)
    ensures
        out@ == account_leaves(leaves@, fp@),
{
    let mut out: Vec<u32> = Vec::new();
    for i in 0..leaves.len()
        invariant
            out@ == account_leaves(leaves@.take(i as int), fp@),
    {
        assert(leaves@.take(i + 1).drop_last() =~= leaves@.take(i as int));
        let l = &leaves[i];
        let hit = match &l.identity {
            Some(id) => bytes_eq(id.as_slice(), fp),
            None => false,
        };
        if hit {
            out.push(l.index);
        }
    }
    assert(leaves@.take(leaves@.len() as int) =~= leaves@);
    out
}

/// The leaves that belong to the device key `vk`, in group order.
pub fn leaves_of_device(leaves: &[GroupLeaf], vk: &[u8; 32]) -> (out: Vec<u32>)
    ensures
        out@ == device_leaves_of(leaves@, vk@),
{
    let mut out: Vec<u32> = Vec::new();
    for i in 0..leaves.len()
        invariant
            out@ == device_leaves_of(leaves@.take(i as int), vk@),
    {
        assert(leaves@.take(i + 1).drop_last() =~= leaves@.take(i as int));
        let l = &leaves[i];
        if bytes_eq(l.signature_key.as_slice(), vk) {
            out.push(l.index);
        }
    }
    assert(leaves@.take(leaves@.len() as int) =~= leaves@);
    out
}

/// The account fingerprints the group's credentials name, in group order;
/// a credential that is not basic, or whose identity is not 32 bytes, names none.
pub fn member_fingerprints(leaves: &[GroupLeaf]) -> (out: Vec<[u8; 32]>)
    ensures
        out@.map_values(|f: [u8; 32]| f@) == leaf_fingerprints(leaves@),
{
    let mut out: Vec<[u8; 32]> = Vec::new();
    for i in 0..leaves.len()
        invariant
            out@.map_values(|f: [u8; 32]| f@) == leaf_fingerprints(leaves@.take(i as int)),
    {
        assert(leaves@.take(i + 1).drop_last() =~= leaves@.take(i as int));
        let ghost before = out@;
        if let Some(id) = &leaves[i].identity {
            if id.len() == 32 {
                let fp = copy32(id.as_slice(), 0);
                assert(fp@ =~= id@);
                out.push(fp);
                assert(out@.map_values(|f: [u8; 32]| f@) =~= before.map_values(|f: [u8; 32]| f@).push(id@));
            }
        }
    }
    assert(leaves@.take(leaves@.len() as int) =~= leaves@);
    out
}

/// Only the creator of a server may create invites.
pub fn check_can_invite(role: MemberRole) -> (r: Result<(), GhostError>)
    ensures
        r is Ok <==> role == MemberRole::Creator,
        r matches Err(e) ==> e is PermissionDenied,
{
    if role != MemberRole::Creator {
        return Err(GhostError::PermissionDenied("only the creator can create invites".to_string()));
    }
    Ok(())
}

/// The leaves a kick removes. Refused with `PermissionDenied` when the target
/// is oneself or one is not the creator; with `Mls` when no leaf names the
/// target. Otherwise every leaf of the target (all its devices) goes.
pub fn kick_leaves(
    self_fp: &[u8; 32],
    self_role: MemberRole,
    target_fp: &[u8; 32],
    leaves: &[GroupLeaf],
) -> (r: Result<Vec<u32>, GhostError>)
    ensures
        *target_fp == *self_fp ==> (r matches Err(e) && e is PermissionDenied),
        *target_fp != *self_fp && self_role != MemberRole::Creator ==> (r matches Err(e) && e is PermissionDenied),
        *target_fp != *self_fp && self_role == MemberRole::Creator ==> {
            let found = account_leaves(leaves@, target_fp@);
            &&& found.len() == 0 ==> (r matches Err(e) && e is Mls)
            &&& found.len() > 0 ==> (r matches Ok(v) && v@ == found)
        },
{
    if eq32(target_fp, self_fp) {
        return Err(GhostError::PermissionDenied("cannot kick yourself".to_string()));
    }
    if self_role != MemberRole::Creator {
        return Err(GhostError::PermissionDenied("only the creator can kick members".to_string()));
    }
    let found = leaves_of_account(leaves, target_fp);
    if found.len() == 0 {
        return Err(GhostError::Mls("member not found in MLS group".to_string()));
    }
    Ok(found)
}

/// The leaves of a device in the account's sync group; `Mls` when it has none.
pub fn sync_device_leaves(leaves: &[GroupLeaf], device_vk: &[u8; 32]) -> (r: Result<Vec<u32>, GhostError>)
    ensures
        device_leaves_of(leaves@, device_vk@).len() == 0 ==> (r matches Err(e) && e is Mls),
        device_leaves_of(leaves@, device_vk@).len() > 0 ==> (r matches Ok(v) && v@ == device_leaves_of(leaves@, device_vk@)),
{
    let found = leaves_of_device(leaves, device_vk);
    if found.len() == 0 {
        return Err(GhostError::Mls("device not in sync group".to_string()));
    }
    Ok(found)
}

/// A fresh invite token: the hex of 16 random bytes.
pub fn new_invite_token() -> (t: String)
    ensures
        exists|b: Seq<u8>| b.len() == 16 && t@ == hex_lower(b),
{
    let bytes = os_random_bytes(16);
    hex_encode(bytes.as_slice())
}

/// A device may revoke any of the account's devices but itself: an error
/// `cannot revoke current device` exactly when the target is its own key.
pub fn check_revoke_target(target: &[u8; 32], own: &[u8; 32]) -> (r: Result<(), String>)
    ensures
        r is Ok <==> *target != *own,
        r matches Err(m) ==> m@ == "cannot revoke current device"@,
{
    if eq32(target, own) {
        return Err("cannot revoke current device".to_string());
    }
    Ok(())
}

} // verus!
