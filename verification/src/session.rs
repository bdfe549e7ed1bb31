//! Decisions of a client session taken after the group layer has done its
//! work: what a merged commit means for us, whether a sender's key
//! transparency head disagrees with ours, and whether a new key transparency
//! checkpoint needs a consistency proof.

use vstd::prelude::*;

use crate::codec::eq32;
use crate::error::GhostError;
use crate::wire::ApplicationMessage;

verus! {

/// What receiving a blob for a server amounted to.
pub enum ReceiveResult {
    Message(ApplicationMessage),
    /// Message received, but the sender's key transparency head differs from
    /// our cached copy: likely a stale cache, possibly a split view.
    MessageWithKtWarning(ApplicationMessage),
    CommitProcessed,
    /// This client was removed from the group by a commit.
    Kicked,
    /// A commit removed these members (fingerprints) from the group.
    MembersRemoved(Vec<[u8; 32]>),
    /// A proposal was queued (e.g. relay Remove). The creator should commit pending proposals.
    ProposalProcessed,
    Skipped,
}

/// The fingerprints of `removed` that no remaining member still has, in order.
pub open spec fn gone(removed: Seq<[u8; 32]>, remaining: Seq<[u8; 32]>) -> Seq<[u8; 32]>
    decreases removed.len(),
{
    if removed.len() == 0 {
        Seq::empty()
    } else {
        gone(removed.drop_last(), remaining) + if remaining.contains(removed.last()) {
            Seq::empty()
        } else {
            seq![removed.last()]
        }
    }
}

/// What a merged commit means, given the fingerprints it removed leaves of and
/// the fingerprints of the members left in the group afterwards.
pub open spec fn commit_outcome_kind(removed: Seq<[u8; 32]>, remaining: Seq<[u8; 32]>, self_fp: [u8; 32]) -> int {
    if removed.contains(self_fp) && !remaining.contains(self_fp) {
        0
    } else if gone(removed, remaining).len() == 0 {
        1
    } else {
        2
    }
}

fn contains32(s: &[[u8; 32]], x: &[u8; 32]) -> (r: bool)
    ensures
        r == s@.contains(*x),
{
    let mut i: usize = 0;
    while i < s.len()
        invariant
            0 <= i <= s@.len(),
            forall|j: int| 0 <= j < i ==> s@[j] != *x,
        decreases s@.len() - i,
    {
        if eq32(&s[i], x) {
            assert(s@[i as int] == *x);
            return true;
        }
        i = i + 1;
    }
    false
}

/// Classifies a merged commit. We were kicked when the commit removed our
/// fingerprint and no leaf of ours is left; otherwise members are reported
/// removed only when no leaf of theirs remains (a device revocation removes
/// one leaf but the account stays while other devices remain).
pub fn classify_commit(removed: &[[u8; 32]], remaining: &[[u8; 32]], self_fp: &[u8; 32]) -> (r: ReceiveResult)
    ensures
        commit_outcome_kind(removed@, remaining@, *self_fp) == 0 ==> r is Kicked,
        commit_outcome_kind(removed@, remaining@, *self_fp) == 1 ==> r is CommitProcessed,
        commit_outcome_kind(removed@, remaining@, *self_fp) == 2 ==> (r matches ReceiveResult::MembersRemoved(v)
            && v@ == gone(removed@, remaining@)),
{
    if contains32(removed, self_fp) && !contains32(remaining, self_fp) {
        return ReceiveResult::Kicked;
    }
    let mut truly_removed: Vec<[u8; 32]> = Vec::new();
    let mut k: usize = 0;
    while k < removed.len()
        invariant
            0 <= k <= removed@.len(),
            truly_removed@ == gone(removed@.take(k as int), remaining@),
        decreases removed@.len() - k,
    {
        assert(removed@.take(k + 1).drop_last() =~= removed@.take(k as int));
        if !contains32(remaining, &removed[k]) {
            truly_removed.push(removed[k]);
        }
        k = k + 1;
        assert(truly_removed@ =~= gone(removed@.take(k as int), remaining@));
    }
    assert(removed@.take(removed@.len() as int) =~= removed@);
    if truly_removed.len() == 0 {
        ReceiveResult::CommitProcessed
    } else {
        ReceiveResult::MembersRemoved(truly_removed)
    }
}

/// Whether a received message's key transparency head disagrees with the head
/// we have cached for its sender (no warning when nothing is cached).
pub fn kt_head_mismatch(cached_head: Option<[u8; 32]>, message_head: &[u8; 32]) -> (w: bool)
    ensures
        w == (cached_head matches Some(h) && h != *message_head),
{
    match cached_head {
        Some(h) => !eq32(&h, message_head),
        None => false,
    }
}

/// Whether a new key transparency checkpoint can be accepted against the one
/// seen before from the same relay.
pub enum KtCheck {
    /// First checkpoint, or the same tree size as before.
    NoProofNeeded,
    /// The tree grew: a consistency proof from the old root to the new one is needed.
    ProofNeeded,
}

/// Decides how a new checkpoint of `new_size` relates to the previous one:
/// `IdentityLog` error when the tree shrank.
pub fn kt_consistency_check(prev_size: Option<u64>, new_size: u64) -> (r: Result<KtCheck, GhostError>)
    ensures
        match prev_size {
            None => r matches Ok(KtCheck::NoProofNeeded),
            Some(p) => if new_size < p {
                r matches Err(e) && e is IdentityLog
            } else if new_size > p {
                r matches Ok(KtCheck::ProofNeeded)
            } else {
                r matches Ok(KtCheck::NoProofNeeded)
            },
        },
{
    match prev_size {
        None => Ok(KtCheck::NoProofNeeded),
        Some(p) => {
            if new_size < p {
                Err(GhostError::IdentityLog("relay checkpoint went backwards".to_string()))
            } else if new_size > p {
                Ok(KtCheck::ProofNeeded)
            } else {
                Ok(KtCheck::NoProofNeeded)
            }
        },
    }
}

} // verus!
