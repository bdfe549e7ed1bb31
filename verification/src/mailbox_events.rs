//! Decisions the client takes on what its mailbox connections report: when
//! repeated failures to read a mailbox call for recovering its group's
//! epoch, whether any relay connection is up, and which members a processed
//! commit brought in that the local records do not know yet.

use vstd::prelude::*;

use crate::kinds::MemberRole;
use crate::records::Member;
use crate::rosters::{
    assoc, find_key, id_set_insert, id_set_remove, keys_unique, lemma_assoc_push,
    lemma_assoc_update,
};
use crate::text::{hex_encode, hex_lower};

verus! {

/// Consecutive receive errors on a mailbox after which its epoch is recovered.
pub const EPOCH_RECOVERY_ERROR_THRESHOLD: u32 = 3;

/// The current run of receive errors of each mailbox.
pub struct ErrorStreaks {
    pub counts: Vec<([u8; 32], u32)>,
}

impl ErrorStreaks {
    /// Keys are unique and every run is below the threshold.
    pub open spec fn wf(&self) -> bool {
        &&& keys_unique(self.counts@)
        &&& forall|i: int| 0 <= i < self.counts@.len() ==> (#[trigger] self.counts@[i]).1 < EPOCH_RECOVERY_ERROR_THRESHOLD
    }

    /// The current run of errors on mailbox `mb`.
    pub open spec fn streak(&self, mb: [u8; 32]) -> u32 {
        match assoc(self.counts@, mb) {
            Some(n) => n,
            None => 0,
        }
    }

    pub fn new() -> (s: ErrorStreaks)
        ensures
            s.wf(),
            forall|mb: [u8; 32]| s.streak(mb) == 0,
    {
        ErrorStreaks { counts: Vec::new() }
    }

    fn set(&mut self, mb: [u8; 32], n: u32)
        requires
            old(self).wf(),
            n < EPOCH_RECOVERY_ERROR_THRESHOLD,
        ensures
            final(self).wf(),
            final(self).streak(mb) == n,
            forall|m: [u8; 32]| m != mb ==> final(self).streak(m) == old(self).streak(m),
    {
        let ghost before = self.counts@;
        match find_key(&self.counts, &mb) {
            Some(i) => {
                let _ = self.counts.remove(i);
                self.counts.insert(i, (mb, n));
                proof {
                    assert(self.counts@ =~= before.update(i as int, (mb, n)));
                    lemma_assoc_update(before, i as int, n);
                    assert forall|j: int| 0 <= j < self.counts@.len() implies (#[trigger] self.counts@[j]).1 < EPOCH_RECOVERY_ERROR_THRESHOLD by {
                        if j != i {
                            assert(self.counts@[j] == before[j]);
                        }
                    }
                }
            },
            None => {
                self.counts.push((mb, n));
                proof {
                    lemma_assoc_push(before, mb, n);
                    assert forall|j: int| 0 <= j < self.counts@.len() implies (#[trigger] self.counts@[j]).1 < EPOCH_RECOVERY_ERROR_THRESHOLD by {
                        if j < before.len() {
                            assert(self.counts@[j] == before[j]);
                        }
                    }
                }
            },
        }
    }

    /// A blob of mailbox `mb` was received and processed: its run ends.
    pub fn on_received(&mut self, mb: [u8; 32])
        requires
            old(self).wf(),
        ensures
            final(self).wf(),
            final(self).streak(mb) == 0,
            forall|m: [u8; 32]| m != mb ==> final(self).streak(m) == old(self).streak(m),
    {
        self.set(mb, 0);
    }

    /// A blob of mailbox `mb` could not be processed: its run grows; when it
    /// reaches the threshold it starts over and recovery is called for.
    pub fn on_failed(&mut self, mb: [u8; 32]) -> (recover: bool)
        requires
            old(self).wf(),
        ensures
            final(self).wf(),
            recover == (old(self).streak(mb) + 1 >= EPOCH_RECOVERY_ERROR_THRESHOLD),
            final(self).streak(mb) == if recover { 0 } else { (old(self).streak(mb) + 1) as u32 },
            forall|m: [u8; 32]| m != mb ==> final(self).streak(m) == old(self).streak(m),
    {
        let n = match find_key(&self.counts, &mb) {
            Some(i) => self.counts[i].1,
            None => 0,
        };
        proof {
            if let Some(i) = assoc(self.counts@, mb) {
                let j = choose|j: int| 0 <= j < self.counts@.len() && (#[trigger] self.counts@[j]).0 == mb;
                assert(self.counts@[j].1 < EPOCH_RECOVERY_ERROR_THRESHOLD);
            }
        }
        if n + 1 >= EPOCH_RECOVERY_ERROR_THRESHOLD {
            self.set(mb, 0);
            true
        } else {
            self.set(mb, n + 1);
            false
        }
    }
}

/// Which mailbox connections are up.
pub struct Connectivity {
    pub connected: Vec<[u8; 32]>,
}

impl Connectivity {
    pub open spec fn wf(&self) -> bool {
        self.connected@.no_duplicates()
    }

    pub fn new() -> (c: Connectivity)
        ensures
            c.wf(),
            c.connected@.to_set() == Set::<[u8; 32]>::empty(),
    {
        let c = Connectivity { connected: Vec::new() };
        assert(c.connected@.to_set() =~= Set::<[u8; 32]>::empty());
        c
    }

    /// Mailbox `mb`'s connection went up or down. Returns whether any
    /// connection is up, which the interface shows as the relay's state.
    pub fn on_connection(&mut self, mb: [u8; 32], up: bool) -> (any: bool)
        requires
            old(self).wf(),
        ensures
            final(self).wf(),
            final(self).connected@.to_set() == if up {
                old(self).connected@.to_set().insert(mb)
            } else {
                old(self).connected@.to_set().remove(mb)
            },
            any == (final(self).connected@.to_set() != Set::<[u8; 32]>::empty()),
    {
        if up {
            id_set_insert(&mut self.connected, mb);
        } else {
            id_set_remove(&mut self.connected, &mb);
        }
        let any = self.connected.len() > 0;
        proof {
            if any {
                assert(self.connected@.to_set().contains(self.connected@[0]));
            } else {
                assert(self.connected@.to_set() =~= Set::<[u8; 32]>::empty());
            }
        }
        any
    }
}

/// The members the group now has that the local records lack, in group
/// order (an account listed twice in the group appears twice).
pub fn discovered_members(group_fps: &[[u8; 32]], stored_fps: &[[u8; 32]]) -> (r: Vec<[u8; 32]>)
    ensures
        r@ == group_fps@.filter(|f: [u8; 32]| !stored_fps@.contains(f)),
{
    let mut r: Vec<[u8; 32]> = Vec::new();
    let mut i: usize = 0;
    while i < group_fps.len()
        invariant
            i <= group_fps@.len(),
            r@ == group_fps@.take(i as int).filter(|f: [u8; 32]| !stored_fps@.contains(f)),
        decreases group_fps.len() - i,
    {
        proof {
            reveal(Seq::filter);
            assert(group_fps@.take(i as int + 1).drop_last() =~= group_fps@.take(i as int));
            assert(group_fps@.take(i as int + 1).last() == group_fps@[i as int]);
        }
        let fp = group_fps[i];
        let mut known = false;
        let mut j: usize = 0;
        while j < stored_fps.len()
            invariant
                j <= stored_fps@.len(),
                known == exists|k: int| 0 <= k < j && stored_fps@[k] == fp,
            decreases stored_fps.len() - j,
        {
            if crate::codec::eq32(&stored_fps[j], &fp) {
                known = true;
            }
            j = j + 1;
        }
        if !known {
            r.push(fp);
        }
        i = i + 1;
    }
    proof {
        assert(group_fps@.take(group_fps@.len() as int) =~= group_fps@);
    }
    r
}

/// The record of a member a commit brought in, seen at `joined_at`: named
/// by the hex of the first 8 bytes of its fingerprint until it announces a
/// name, an ordinary member without avatar.
pub fn discovered_member(server_id: [u8; 32], fingerprint: [u8; 32], joined_at: u64) -> (m: Member)
    ensures
        m.server_id == server_id,
        m.fingerprint == fingerprint,
        m.display_name@ == hex_lower(fingerprint@.subrange(0, 8)),
        m.role == MemberRole::Member,
        m.joined_at == joined_at,
        m.avatar_hash is None,
        m.avatar_key is None,
{
    let head = vstd::slice::slice_subrange(&fingerprint, 0, 8);
    Member {
        server_id,
        fingerprint,
        display_name: hex_encode(head),
        role: MemberRole::Member,
        joined_at,
        avatar_hash: None,
        avatar_key: None,
    }
}

} // verus!
