//! Recovering a group whose epoch the device lost: the relay's group info is
//! fetched, an external commit rejoins the group and is posted; a failed
//! commit or post is tried again a few times. And what a message gap on a
//! mailbox leads to when recovery fails.

use vstd::prelude::*;

use crate::relay::has_prefix_at;
use crate::text::{has_prefix, string_concat};

verus! {

/// How many times an external commit is built and posted before giving up.
pub const MAX_EPOCH_RECOVERY_ATTEMPTS: usize = 3;

/// What one recovery attempt came to.
pub enum AttemptResult {
    /// The relay did not hand out the group info; its error.
    InfoUnavailable(String),
    /// The external commit could not be built from the group info.
    CommitFailed,
    /// The relay rejected the commit.
    Rejected,
    /// The relay accepted the commit.
    Accepted,
}

/// What the recovery does next.
pub enum RecoveryNext {
    /// Make the attempt with this number (from 0).
    Attempt(usize),
    /// Stop: `Ok(true)` when the group was rejoined, `Ok(false)` when every
    /// attempt failed, an error when the group info could not be had.
    Finish(Result<bool, String>),
}

/// The first step of a recovery.
pub fn recovery_start() -> (n: RecoveryNext)
    ensures
        n == RecoveryNext::Attempt(0),
{
    RecoveryNext::Attempt(0)
}

/// The step after attempt `attempt` of a recovery labelled `label` came to
/// `result`: a missing group info ends it with an error naming the label,
/// an accepted commit ends it successfully, and a failed commit or post
/// leads to the next attempt while any are left.
pub fn recovery_next(label: &str, attempt: usize, result: AttemptResult) -> (n: RecoveryNext)
    requires
        attempt < MAX_EPOCH_RECOVERY_ATTEMPTS,
    ensures
        match result {
            AttemptResult::InfoUnavailable(e) => n matches RecoveryNext::Finish(Err(m))
                && m@ == label@ + ": fetch GroupInfo: "@ + e@,
            AttemptResult::Accepted => n == RecoveryNext::Finish(Ok(true)),
            _ => if attempt + 1 < MAX_EPOCH_RECOVERY_ATTEMPTS {
                n == RecoveryNext::Attempt((attempt + 1) as usize)
            } else {
                n == RecoveryNext::Finish(Ok(false))
            },
        },
{
    match result {
        AttemptResult::InfoUnavailable(e) => {
            let m = string_concat(label.to_string(), ": fetch GroupInfo: ");
            RecoveryNext::Finish(Err(string_concat(m, e.as_str())))
        },
        AttemptResult::Accepted => RecoveryNext::Finish(Ok(true)),
        _ => if attempt + 1 < MAX_EPOCH_RECOVERY_ATTEMPTS {
            RecoveryNext::Attempt(attempt + 1)
        } else {
            RecoveryNext::Finish(Ok(false))
        },
    }
}

/// Whether `p` occurs in `s`.
pub open spec fn contains_text(s: Seq<char>, p: Seq<char>) -> bool {
    exists|i: int| 0 <= i <= s.len() && #[trigger] has_prefix(s.skip(i), p)
}

/// Whether `p` occurs in `s`.
pub fn contains_str(s: &str, p: &str) -> (r: bool)
    ensures
        r == contains_text(s@, p@),
{
    let n = s.unicode_len();
    let mut i: usize = 0;
    while i < n
        invariant
            i <= n,
            n == s@.len(),
            forall|k: int| 0 <= k < i ==> !#[trigger] has_prefix(s@.skip(k), p@),
        decreases n - i,
    {
        if has_prefix_at(s, p, i) {
            return true;
        }
        i = i + 1;
    }
    has_prefix_at(s, p, n)
}

/// What a mailbox does after a gap in its messages, given how recovering its
/// group's epoch ended.
pub enum GapAction {
    /// Nothing more (the group was recovered, or the failure was logged).
    Keep,
    /// The relay has no group info for the mailbox: read it again from the
    /// start (last seen sequence 0).
    Restart,
}

/// A failure whose message mentions `404` (the relay has no group info)
/// restarts the mailbox from the beginning; anything else keeps it.
pub fn gap_action(outcome: &Result<bool, String>) -> (a: GapAction)
    ensures
        a == match outcome {
            Err(e) => if contains_text(e@, "404"@) { GapAction::Restart } else { GapAction::Keep },
            Ok(_) => GapAction::Keep,
        },
{
    match outcome {
        Err(e) => if contains_str(e.as_str(), "404") {
            GapAction::Restart
        } else {
            GapAction::Keep
        },
        Ok(_) => GapAction::Keep,
    }
}


/// What a rejoin does after asking the relay for the group's info.
pub enum InfoFetch {
    /// The info came: build and post the external commit.
    Proceed,
    /// Try the next attempt.
    Retry,
    /// Stop: the relay has no such group, or refused the request.
    GiveUp,
}

/// The decision on the relay's answer for a group's info: `None` when the
/// request or the reading of its body failed, otherwise the HTTP status.
/// Success proceeds, 404 and client errors give up, server errors and
/// failed requests retry.
pub fn info_fetch_next(status: Option<u16>) -> (d: InfoFetch)
    ensures
        d == match status {
            None => InfoFetch::Retry,
            Some(s) => if 200 <= s <= 299 {
                InfoFetch::Proceed
            } else if s == 404 {
                InfoFetch::GiveUp
            } else if 500 <= s <= 599 {
                InfoFetch::Retry
            } else {
                InfoFetch::GiveUp
            },
        },
{
    match status {
        None => InfoFetch::Retry,
        Some(s) => if 200 <= s && s <= 299 {
            InfoFetch::Proceed
        } else if s == 404 {
            InfoFetch::GiveUp
        } else if 500 <= s && s <= 599 {
            InfoFetch::Retry
        } else {
            InfoFetch::GiveUp
        },
    }
}

} // verus!
