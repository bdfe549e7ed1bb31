//! Who is where, as the mailbox connection reports it: the members of each
//! voice channel, and the online presence of each server's members with the
//! presence blobs that could not be opened yet.
//!
//! Both are tables keyed by 32-byte ids, held as lists of (key, value) pairs
//! in which no key occurs twice.

use vstd::prelude::*;

use crate::codec::eq32;
use crate::presence::{filter_expired_status, OnlinePresence, OnlineStatus};
use crate::voice::PresenceState;

verus! {

/// No key occurs twice in `s`.
pub open spec fn keys_unique<V>(s: Seq<([u8; 32], V)>) -> bool {
    forall|i: int, j: int| 0 <= i < j < s.len() ==> (#[trigger] s[i]).0 != (#[trigger] s[j]).0
}

/// The value under `k` in `s`, if any.
pub open spec fn assoc<V>(s: Seq<([u8; 32], V)>, k: [u8; 32]) -> Option<V> {
    if exists|i: int| 0 <= i < s.len() && (#[trigger] s[i]).0 == k {
        Some(s[choose|i: int| 0 <= i < s.len() && (#[trigger] s[i]).0 == k].1)
    } else {
        None
    }
}

pub proof fn lemma_assoc_at<V>(s: Seq<([u8; 32], V)>, i: int)
    requires
        keys_unique(s),
        0 <= i < s.len(),
    ensures
        assoc(s, s[i].0) == Some(s[i].1),
{
    let k = s[i].0;
    assert(0 <= i < s.len() && s[i].0 == k);
    let j = choose|j: int| 0 <= j < s.len() && (#[trigger] s[j]).0 == k;
    if j != i {
        if j < i {
            assert(s[j].0 != s[i].0);
        } else {
            assert(s[i].0 != s[j].0);
        }
    }
}

/// Setting the value of the pair at `i` changes the value under its key only.
pub proof fn lemma_assoc_update<V>(s: Seq<([u8; 32], V)>, i: int, v: V)
    requires
        keys_unique(s),
        0 <= i < s.len(),
    ensures
        keys_unique(s.update(i, (s[i].0, v))),
        forall|k: [u8; 32]| #[trigger] assoc(s.update(i, (s[i].0, v)), k) == if k == s[i].0 { Some(v) } else { assoc(s, k) },
{
    let t = s.update(i, (s[i].0, v));
    assert forall|a: int, b: int| 0 <= a < b < t.len() implies (#[trigger] t[a]).0 != (#[trigger] t[b]).0 by {
        assert(t[a].0 == s[a].0 && t[b].0 == s[b].0);
    }
    assert forall|k: [u8; 32]| #[trigger] assoc(t, k) == if k == s[i].0 { Some(v) } else { assoc(s, k) } by {
        if k == s[i].0 {
            lemma_assoc_at(t, i);
        } else if exists|j: int| 0 <= j < s.len() && (#[trigger] s[j]).0 == k {
            let j = choose|j: int| 0 <= j < s.len() && (#[trigger] s[j]).0 == k;
            lemma_assoc_at(s, j);
            assert(t[j] == s[j]);
            lemma_assoc_at(t, j);
        } else {
            assert forall|j: int| 0 <= j < t.len() implies (#[trigger] t[j]).0 != k by {
                assert(t[j].0 == s[j].0);
            }
        }
    }
}

/// Appending a pair under a new key adds that key only.
pub proof fn lemma_assoc_push<V>(s: Seq<([u8; 32], V)>, k: [u8; 32], v: V)
    requires
        keys_unique(s),
        assoc(s, k) is None,
    ensures
        keys_unique(s.push((k, v))),
        forall|k2: [u8; 32]| #[trigger] assoc(s.push((k, v)), k2) == if k2 == k { Some(v) } else { assoc(s, k2) },
{
    let t = s.push((k, v));
    assert forall|a: int, b: int| 0 <= a < b < t.len() implies (#[trigger] t[a]).0 != (#[trigger] t[b]).0 by {
        if b == s.len() {
            assert(t[a] == s[a]);
            assert(0 <= a < s.len() && s[a].0 == s[a].0);
        } else {
            assert(t[a] == s[a] && t[b] == s[b]);
        }
    }
    assert forall|k2: [u8; 32]| #[trigger] assoc(t, k2) == if k2 == k { Some(v) } else { assoc(s, k2) } by {
        if k2 == k {
            lemma_assoc_at(t, s.len() as int);
        } else if exists|j: int| 0 <= j < s.len() && (#[trigger] s[j]).0 == k2 {
            let j = choose|j: int| 0 <= j < s.len() && (#[trigger] s[j]).0 == k2;
            lemma_assoc_at(s, j);
            assert(t[j] == s[j]);
            lemma_assoc_at(t, j);
        } else {
            assert forall|j: int| 0 <= j < t.len() implies (#[trigger] t[j]).0 != k2 by {
                if j < s.len() {
                    assert(t[j] == s[j]);
                }
            }
        }
    }
}

/// Removing the pair at `i` removes its key only.
pub proof fn lemma_assoc_remove<V>(s: Seq<([u8; 32], V)>, i: int)
    requires
        keys_unique(s),
        0 <= i < s.len(),
    ensures
        keys_unique(s.remove(i)),
        forall|k: [u8; 32]| #[trigger] assoc(s.remove(i), k) == if k == s[i].0 { None } else { assoc(s, k) },
{
    let t = s.remove(i);
    assert forall|a: int, b: int| 0 <= a < b < t.len() implies (#[trigger] t[a]).0 != (#[trigger] t[b]).0 by {
        let a2 = if a < i { a } else { a + 1 };
        let b2 = if b < i { b } else { b + 1 };
        assert(t[a] == s[a2] && t[b] == s[b2]);
        assert(s[a2].0 != s[b2].0);
    }
    assert forall|k: [u8; 32]| #[trigger] assoc(t, k) == if k == s[i].0 { None } else { assoc(s, k) } by {
        if k == s[i].0 {
            assert forall|j: int| 0 <= j < t.len() implies (#[trigger] t[j]).0 != k by {
                let j2 = if j < i { j } else { j + 1 };
                assert(t[j] == s[j2]);
                if j2 < i {
                    assert(s[j2].0 != s[i].0);
                } else {
                    assert(s[i].0 != s[j2].0);
                }
            }
        } else if exists|j: int| 0 <= j < s.len() && (#[trigger] s[j]).0 == k {
            let j = choose|j: int| 0 <= j < s.len() && (#[trigger] s[j]).0 == k;
            lemma_assoc_at(s, j);
            let j2 = if j < i { j } else { j - 1 };
            assert(t[j2] == s[j]);
            lemma_assoc_at(t, j2);
        } else {
            assert forall|j: int| 0 <= j < t.len() implies (#[trigger] t[j]).0 != k by {
                let j2 = if j < i { j } else { j + 1 };
                assert(t[j] == s[j2]);
            }
        }
    }
}

/// The position of `k` in a list of pairs.
pub fn find_key<V>(v: &Vec<([u8; 32], V)>, k: &[u8; 32]) -> (r: Option<usize>)
    requires
        keys_unique(v@),
    ensures
        match r {
            Some(i) => i < v@.len() && v@[i as int].0 == *k && assoc(v@, *k) == Some(v@[i as int].1),
            None => assoc(v@, *k) is None,
        },
{
    let mut i: usize = 0;
    while i < v.len()
        invariant
            i <= v@.len(),
            keys_unique(v@),
            forall|j: int| 0 <= j < i ==> (#[trigger] v@[j]).0 != *k,
        decreases v.len() - i,
    {
        if eq32(&v[i].0, k) {
            proof {
                lemma_assoc_at(v@, i as int);
            }
            return Some(i);
        }
        i = i + 1;
    }
    None
}


/// The position of `k` in a list of ids.
pub(crate) fn id_pos(v: &Vec<[u8; 32]>, k: &[u8; 32]) -> (r: Option<usize>)
    ensures
        match r {
            Some(i) => i < v@.len() && v@[i as int] == *k,
            None => !v@.contains(*k),
        },
{
    let mut i: usize = 0;
    while i < v.len()
        invariant
            i <= v@.len(),
            forall|j: int| 0 <= j < i ==> v@[j] != *k,
        decreases v.len() - i,
    {
        if eq32(&v[i], k) {
            return Some(i);
        }
        i = i + 1;
    }
    None
}

/// Adds `k` to a list of distinct ids.
pub(crate) fn id_set_insert(v: &mut Vec<[u8; 32]>, k: [u8; 32])
    requires
        old(v)@.no_duplicates(),
    ensures
        final(v)@.no_duplicates(),
        final(v)@.to_set() == old(v)@.to_set().insert(k),
{
    match id_pos(v, &k) {
        Some(_) => {
            assert(v@.to_set() =~= v@.to_set().insert(k));
        },
        None => {
            let ghost before = v@;
            v.push(k);
            assert forall|x: [u8; 32]| v@.contains(x) <==> (before.contains(x) || x == k) by {
                if v@.contains(x) {
                    let j = choose|j: int| 0 <= j < v@.len() && v@[j] == x;
                    if j < before.len() {
                        assert(before[j] == x);
                    }
                }
                if before.contains(x) {
                    let j = choose|j: int| 0 <= j < before.len() && before[j] == x;
                    assert(v@[j] == x);
                }
                if x == k {
                    assert(v@[before.len() as int] == k);
                }
            }
            assert(v@.to_set() =~= before.to_set().insert(k));
        },
    }
}

/// Takes `k` out of a list of distinct ids.
pub(crate) fn id_set_remove(v: &mut Vec<[u8; 32]>, k: &[u8; 32])
    requires
        old(v)@.no_duplicates(),
    ensures
        final(v)@.no_duplicates(),
        final(v)@.to_set() == old(v)@.to_set().remove(*k),
{
    match id_pos(v, k) {
        Some(i) => {
            let ghost before = v@;
            v.remove(i);
            assert forall|x: [u8; 32]| v@.contains(x) <==> (before.contains(x) && x != *k) by {
                if v@.contains(x) {
                    let j = choose|j: int| 0 <= j < v@.len() && v@[j] == x;
                    let j2 = if j < i { j } else { j + 1 };
                    assert(before[j2] == x);
                    assert(j2 != i);
                }
                if before.contains(x) && x != *k {
                    let j = choose|j: int| 0 <= j < before.len() && before[j] == x;
                    assert(j != i);
                    let j2 = if j < i { j } else { j - 1 };
                    assert(v@[j2] == x);
                }
            }
            assert(v@.to_set() =~= before.to_set().remove(*k));
        },
        None => {
            assert(v@.to_set() =~= v@.to_set().remove(*k));
        },
    }
}

/// Two presences come from the same device: same account, same device key.
pub open spec fn same_device(a: PresenceState, b: PresenceState) -> bool {
    a.fingerprint == b.fingerprint && a.device_vk == b.device_vk
}

/// The first member of `list` on the device of `ps`.
pub open spec fn device_pos(list: Seq<PresenceState>, ps: PresenceState) -> Option<int> {
    if exists|i: int| 0 <= i < list.len() && same_device(#[trigger] list[i], ps) {
        Some(
            choose|i: int|
                0 <= i < list.len() && same_device(#[trigger] list[i], ps) && forall|j: int|
                    0 <= j < i ==> !same_device(#[trigger] list[j], ps),
        )
    } else {
        None
    }
}

/// A channel's members after `ps` announced joining: the member on its
/// device takes its mute and deafen flags, or it is added at the end.
pub open spec fn joined(list: Seq<PresenceState>, ps: PresenceState) -> Seq<PresenceState> {
    match device_pos(list, ps) {
        Some(i) => list.update(
            i,
            PresenceState {
                fingerprint: list[i].fingerprint,
                muted: ps.muted,
                deafened: ps.deafened,
                device_vk: list[i].device_vk,
                voice_salt: list[i].voice_salt,
            },
        ),
        None => list.push(ps),
    }
}

/// A channel's members after `ps` announced leaving: every member on its
/// device is gone.
pub open spec fn left(list: Seq<PresenceState>, ps: PresenceState) -> Seq<PresenceState> {
    list.filter(|m: PresenceState| !same_device(m, ps))
}

/// The first member on the device of `ps`.
fn find_device(list: &Vec<PresenceState>, ps: &PresenceState) -> (r: Option<usize>)
    ensures
        match r {
            Some(i) => i < list@.len() && device_pos(list@, *ps) == Some(i as int),
            None => device_pos(list@, *ps) is None,
        },
{
    let mut i: usize = 0;
    while i < list.len()
        invariant
            i <= list@.len(),
            forall|j: int| 0 <= j < i ==> !same_device(#[trigger] list@[j], *ps),
        decreases list.len() - i,
    {
        if eq32(&list[i].fingerprint, &ps.fingerprint) && eq32(&list[i].device_vk, &ps.device_vk) {
            proof {
                assert(same_device(list@[i as int], *ps));
                let c = choose|c: int|
                    0 <= c < list@.len() && same_device(#[trigger] list@[c], *ps) && forall|j: int|
                        0 <= j < c ==> !same_device(#[trigger] list@[j], *ps);
                if c < i {
                    assert(!same_device(list@[c], *ps));
                }
                if c > i {
                    assert(!same_device(list@[i as int], *ps));
                }
            }
            return Some(i);
        }
        i = i + 1;
    }
    None
}

/// Filtering is unchanged by replacing an element the filter drops with
/// another it drops.
proof fn lemma_filter_update_dropped<A>(s: Seq<A>, pred: spec_fn(A) -> bool, i: int, x: A)
    requires
        0 <= i < s.len(),
        !pred(s[i]),
        !pred(x),
    ensures
        s.update(i, x).filter(pred) == s.filter(pred),
    decreases s.len(),
{
    reveal(Seq::filter);
    let t = s.update(i, x);
    if i == s.len() - 1 {
        assert(t.drop_last() =~= s.drop_last());
    } else {
        assert(t.drop_last() =~= s.drop_last().update(i, x));
        lemma_filter_update_dropped(s.drop_last(), pred, i, x);
        assert(t.last() == s.last());
    }
}

/// When some member of `list` is on the device of `ps`, a first one is.
proof fn lemma_first_device(list: Seq<PresenceState>, ps: PresenceState, k: int)
    requires
        0 <= k <= list.len(),
        forall|j: int| 0 <= j < k ==> !same_device(#[trigger] list[j], ps),
        exists|i: int| k <= i < list.len() && same_device(#[trigger] list[i], ps),
    ensures
        exists|i: int|
            0 <= i < list.len() && same_device(#[trigger] list[i], ps) && forall|j: int|
                0 <= j < i ==> !same_device(#[trigger] list[j], ps),
    decreases list.len() - k,
{
    if same_device(list[k], ps) {
        assert(0 <= k < list.len() && same_device(list[k], ps) && forall|j: int| 0 <= j < k ==> !same_device(#[trigger] list[j], ps));
    } else {
        lemma_first_device(list, ps, k + 1);
    }
}

/// A member who announces joining a channel and then leaving it is gone
/// from it, and the others are as before the join.
pub proof fn law_join_then_leave(list: Seq<PresenceState>, ps: PresenceState)
    ensures
        left(joined(list, ps), ps) == left(list, ps),
{
    reveal(Seq::filter);
    let pred = |m: PresenceState| !same_device(m, ps);
    if exists|i: int| 0 <= i < list.len() && same_device(#[trigger] list[i], ps) {
        lemma_first_device(list, ps, 0);
    }
    match device_pos(list, ps) {
        Some(i) => {
            let i = choose|i: int|
                0 <= i < list.len() && same_device(#[trigger] list[i], ps) && forall|j: int|
                    0 <= j < i ==> !same_device(#[trigger] list[j], ps);
            let x = PresenceState {
                fingerprint: list[i].fingerprint,
                muted: ps.muted,
                deafened: ps.deafened,
                device_vk: list[i].device_vk,
                voice_salt: list[i].voice_salt,
            };
            lemma_filter_update_dropped(list, pred, i, x);
        },
        None => {
            assert(list.push(ps).drop_last() =~= list);
        },
    }
}

/// The voice channels with someone in them, by channel, and the channels
/// each mailbox reported. Both tables are association lists with unique keys
/// (`wf`) rather than maps: vstd specifies `HashMap` and `BTreeMap` only for
/// integer-like keys, not for `[u8; 32]` ids.
pub struct VoiceRoster {
    pub channels: Vec<([u8; 32], Vec<PresenceState>)>,
    pub mailboxes: Vec<([u8; 32], Vec<[u8; 32]>)>,
}

impl VoiceRoster {
    /// Keys are unique, no channel is listed empty, and each mailbox's
    /// channels are distinct.
    pub open spec fn wf(&self) -> bool {
        &&& keys_unique(self.channels@)
        &&& keys_unique(self.mailboxes@)
        &&& forall|i: int| 0 <= i < self.channels@.len() ==> (#[trigger] self.channels@[i]).1@.len() > 0
        &&& forall|i: int| 0 <= i < self.mailboxes@.len() ==> (#[trigger] self.mailboxes@[i]).1@.no_duplicates()
    }

    /// The members of channel `c`, in the order they joined.
    pub open spec fn members_of(&self, c: [u8; 32]) -> Seq<PresenceState> {
        match assoc(self.channels@, c) {
            Some(m) => m@,
            None => Seq::empty(),
        }
    }

    /// The channels mailbox `mb` reported.
    pub open spec fn channels_of(&self, mb: [u8; 32]) -> Set<[u8; 32]> {
        match assoc(self.mailboxes@, mb) {
            Some(l) => l@.to_set(),
            None => Set::empty(),
        }
    }

    pub fn new() -> (r: VoiceRoster)
        ensures
            r.wf(),
            forall|c: [u8; 32]| r.members_of(c) == Seq::<PresenceState>::empty(),
            forall|mb: [u8; 32]| r.channels_of(mb) == Set::<[u8; 32]>::empty(),
    {
        VoiceRoster { channels: Vec::new(), mailboxes: Vec::new() }
    }

    /// Sets the members of channel `c`; an empty list drops the channel.
    fn set_members(&mut self, c: [u8; 32], list: Vec<PresenceState>)
        requires
            old(self).wf(),
        ensures
            final(self).wf(),
            final(self).members_of(c) == list@,
            forall|c2: [u8; 32]| c2 != c ==> final(self).members_of(c2) == old(self).members_of(c2),
            final(self).mailboxes == old(self).mailboxes,
    {
        let ghost old_channels = self.channels@;
        match find_key(&self.channels, &c) {
            Some(i) => {
                let _ = self.channels.remove(i);
                proof {
                    lemma_assoc_remove(old_channels, i as int);
                }
                if list.len() > 0 {
                    self.channels.insert(i, (c, list));
                    proof {
                        assert(self.channels@ =~= old_channels.update(i as int, (c, list)));
                        lemma_assoc_update(old_channels, i as int, list);
                    }
                }
            },
            None => {
                if list.len() > 0 {
                    self.channels.push((c, list));
                    proof {
                        lemma_assoc_push(old_channels, c, list);
                    }
                }
            },
        }
    }

    /// A copy of the members of channel `c`.
    pub fn members(&self, c: &[u8; 32]) -> (r: Vec<PresenceState>)
        requires
            self.wf(),
        ensures
            r@ == self.members_of(*c),
    {
        match find_key(&self.channels, c) {
            Some(i) => {
                let list = &self.channels[i].1;
                let mut r: Vec<PresenceState> = Vec::new();
                let mut j: usize = 0;
                while j < list.len()
                    invariant
                        j <= list@.len(),
                        r@ == list@.take(j as int),
                    decreases list.len() - j,
                {
                    r.push(list[j]);
                    j = j + 1;
                    proof {
                        assert(r@ =~= list@.take(j as int));
                    }
                }
                proof {
                    assert(list@.take(list@.len() as int) =~= list@);
                }
                r
            },
            None => Vec::new(),
        }
    }

    /// Adds channel `c` to those of mailbox `mb`.
    fn mailbox_insert(&mut self, mb: [u8; 32], c: [u8; 32])
        requires
            old(self).wf(),
        ensures
            final(self).wf(),
            final(self).channels_of(mb) == old(self).channels_of(mb).insert(c),
            forall|mb2: [u8; 32]| mb2 != mb ==> final(self).channels_of(mb2) == old(self).channels_of(mb2),
            final(self).channels == old(self).channels,
    {
        let ghost old_boxes = self.mailboxes@;
        match find_key(&self.mailboxes, &mb) {
            Some(i) => {
                let (k, mut l) = self.mailboxes.remove(i);
                id_set_insert(&mut l, c);
                self.mailboxes.insert(i, (k, l));
                proof {
                    assert(self.mailboxes@ =~= old_boxes.update(i as int, (mb, l)));
                    lemma_assoc_update(old_boxes, i as int, l);
                    assert forall|j: int| 0 <= j < self.mailboxes@.len() implies (#[trigger] self.mailboxes@[j]).1@.no_duplicates() by {
                        if j != i {
                            assert(self.mailboxes@[j] == old_boxes[j]);
                        }
                    }
                }
            },
            None => {
                let mut l: Vec<[u8; 32]> = Vec::new();
                l.push(c);
                proof {
                    assert forall|x: [u8; 32]| l@.to_set().contains(x) <==> x == c by {
                        if x == c {
                            assert(l@[0] == c);
                        }
                    }
                    assert(l@.to_set() =~= Set::<[u8; 32]>::empty().insert(c));
                }
                self.mailboxes.push((mb, l));
                proof {
                    lemma_assoc_push(old_boxes, mb, l);
                    assert forall|j: int| 0 <= j < self.mailboxes@.len() implies (#[trigger] self.mailboxes@[j]).1@.no_duplicates() by {
                        if j < old_boxes.len() {
                            assert(self.mailboxes@[j] == old_boxes[j]);
                        }
                    }
                }
            },
        }
    }

    /// Takes channel `c` out of those of mailbox `mb`.
    fn mailbox_remove(&mut self, mb: [u8; 32], c: [u8; 32])
        requires
            old(self).wf(),
        ensures
            final(self).wf(),
            final(self).channels_of(mb) == old(self).channels_of(mb).remove(c),
            forall|mb2: [u8; 32]| mb2 != mb ==> final(self).channels_of(mb2) == old(self).channels_of(mb2),
            final(self).channels == old(self).channels,
    {
        let ghost old_boxes = self.mailboxes@;
        match find_key(&self.mailboxes, &mb) {
            Some(i) => {
                let (k, mut l) = self.mailboxes.remove(i);
                id_set_remove(&mut l, &c);
                self.mailboxes.insert(i, (k, l));
                proof {
                    assert(self.mailboxes@ =~= old_boxes.update(i as int, (mb, l)));
                    lemma_assoc_update(old_boxes, i as int, l);
                    assert forall|j: int| 0 <= j < self.mailboxes@.len() implies (#[trigger] self.mailboxes@[j]).1@.no_duplicates() by {
                        if j != i {
                            assert(self.mailboxes@[j] == old_boxes[j]);
                        }
                    }
                }
            },
            None => {
                assert(Set::<[u8; 32]>::empty().remove(c) =~= Set::<[u8; 32]>::empty());
            },
        }
    }

    /// Removes mailbox `mb`'s entry and returns its channels.
    fn mailbox_take(&mut self, mb: [u8; 32]) -> (l: Vec<[u8; 32]>)
        requires
            old(self).wf(),
        ensures
            final(self).wf(),
            l@.no_duplicates(),
            l@.to_set() == old(self).channels_of(mb),
            final(self).channels_of(mb) == Set::<[u8; 32]>::empty(),
            forall|mb2: [u8; 32]| mb2 != mb ==> final(self).channels_of(mb2) == old(self).channels_of(mb2),
            final(self).channels == old(self).channels,
    {
        let ghost old_boxes = self.mailboxes@;
        match find_key(&self.mailboxes, &mb) {
            Some(i) => {
                let (_, l) = self.mailboxes.remove(i);
                proof {
                    lemma_assoc_remove(old_boxes, i as int);
                    assert forall|j: int| 0 <= j < self.mailboxes@.len() implies (#[trigger] self.mailboxes@[j]).1@.no_duplicates() by {
                        let j2 = if j < i { j } else { j + 1 };
                        assert(self.mailboxes@[j] == old_boxes[j2]);
                    }
                }
                l
            },
            None => {
                let l: Vec<[u8; 32]> = Vec::new();
                assert(l@.to_set() =~= Set::<[u8; 32]>::empty());
                l
            },
        }
    }

    /// A copy of the channels mailbox `mb` reported, each once.
    pub fn mailbox_channels(&self, mb: &[u8; 32]) -> (r: Vec<[u8; 32]>)
        requires
            self.wf(),
        ensures
            r@.no_duplicates(),
            r@.to_set() == self.channels_of(*mb),
    {
        match find_key(&self.mailboxes, mb) {
            Some(i) => {
                let list = &self.mailboxes[i].1;
                let mut r: Vec<[u8; 32]> = Vec::new();
                let mut j: usize = 0;
                while j < list.len()
                    invariant
                        j <= list@.len(),
                        r@ == list@.take(j as int),
                    decreases list.len() - j,
                {
                    r.push(list[j]);
                    j = j + 1;
                    proof {
                        assert(r@ =~= list@.take(j as int));
                    }
                }
                proof {
                    assert(list@.take(list@.len() as int) =~= list@);
                }
                r
            },
            None => {
                let r: Vec<[u8; 32]> = Vec::new();
                assert(r@.to_set() =~= Set::<[u8; 32]>::empty());
                r
            },
        }
    }

    /// A member announced (through mailbox `mailbox`) that it is in voice
    /// channel `channel`, or changed its mute state there.
    pub fn join(&mut self, mailbox: [u8; 32], channel: [u8; 32], ps: PresenceState)
        requires
            old(self).wf(),
        ensures
            final(self).wf(),
            final(self).members_of(channel) == joined(old(self).members_of(channel), ps),
            forall|c: [u8; 32]| c != channel ==> final(self).members_of(c) == old(self).members_of(c),
            final(self).channels_of(mailbox) == old(self).channels_of(mailbox).insert(channel),
            forall|mb: [u8; 32]| mb != mailbox ==> final(self).channels_of(mb) == old(self).channels_of(mb),
    {
        self.mailbox_insert(mailbox, channel);
        let mut list = self.members(&channel);
        match find_device(&list, &ps) {
            Some(i) => {
                let m = list[i];
                list.set(
                    i,
                    PresenceState {
                        fingerprint: m.fingerprint,
                        muted: ps.muted,
                        deafened: ps.deafened,
                        device_vk: m.device_vk,
                        voice_salt: m.voice_salt,
                    },
                );
            },
            None => {
                list.push(ps);
            },
        }
        self.set_members(channel, list);
    }

    /// A member announced (through mailbox `mailbox`) that it left voice
    /// channel `channel`: its device is dropped from the channel, and a
    /// channel left empty is dropped. Returns whether the channel was known;
    /// nothing changes when it was not.
    pub fn leave(&mut self, mailbox: [u8; 32], channel: [u8; 32], ps: PresenceState) -> (known: bool)
        requires
            old(self).wf(),
        ensures
            final(self).wf(),
            known == (old(self).members_of(channel).len() > 0),
            final(self).members_of(channel) == left(old(self).members_of(channel), ps),
            forall|c: [u8; 32]| c != channel ==> final(self).members_of(c) == old(self).members_of(c),
            final(self).channels_of(mailbox) == if known && left(old(self).members_of(channel), ps).len() == 0 {
                old(self).channels_of(mailbox).remove(channel)
            } else {
                old(self).channels_of(mailbox)
            },
            forall|mb: [u8; 32]| mb != mailbox ==> final(self).channels_of(mb) == old(self).channels_of(mb),
    {
        let list = self.members(&channel);
        if list.len() == 0 {
            assert(left(list@, ps) =~= Seq::<PresenceState>::empty()) by {
                reveal_with_fuel(Seq::filter, 1);
            }
            return false;
        }
        let mut kept: Vec<PresenceState> = Vec::new();
        let mut j: usize = 0;
        while j < list.len()
            invariant
                j <= list@.len(),
                kept@ == left(list@.take(j as int), ps),
            decreases list.len() - j,
        {
            proof {
                assert(list@.take(j as int + 1).drop_last() =~= list@.take(j as int));
                assert(list@.take(j as int + 1).last() == list@[j as int]);
            }
            let m = list[j];
            if !(eq32(&m.fingerprint, &ps.fingerprint) && eq32(&m.device_vk, &ps.device_vk)) {
                kept.push(m);
                proof {
                    reveal(Seq::filter);
                    assert(left(list@.take(j as int + 1), ps) == left(list@.take(j as int), ps).push(m));
                }
            } else {
                proof {
                    reveal(Seq::filter);
                    assert(left(list@.take(j as int + 1), ps) == left(list@.take(j as int), ps));
                }
            }
            j = j + 1;
        }
        proof {
            assert(list@.take(list@.len() as int) =~= list@);
        }
        if kept.len() == 0 {
            self.set_members(channel, kept);
            self.mailbox_remove(mailbox, channel);
        } else {
            self.set_members(channel, kept);
        }
        true
    }

    /// A snapshot from mailbox `mailbox` starts: every channel it reported
    /// before is emptied and forgotten. Returns those channels that had
    /// members, whose lists the interface must now show empty.
    pub fn clear_mailbox(&mut self, mailbox: [u8; 32]) -> (cleared: Vec<[u8; 32]>)
        requires
            old(self).wf(),
        ensures
            final(self).wf(),
            forall|c: [u8; 32]| #[trigger] final(self).members_of(c) == if old(self).channels_of(mailbox).contains(c) {
                Seq::<PresenceState>::empty()
            } else {
                old(self).members_of(c)
            },
            final(self).channels_of(mailbox) == Set::<[u8; 32]>::empty(),
            forall|mb: [u8; 32]| mb != mailbox ==> final(self).channels_of(mb) == old(self).channels_of(mb),
            cleared@.no_duplicates(),
            forall|c: [u8; 32]| #[trigger] cleared@.contains(c) <==> (old(self).channels_of(mailbox).contains(c)
                && old(self).members_of(c).len() > 0),
    {
        let ghost before = *self;
        let chans = self.mailbox_take(mailbox);
        let mut cleared: Vec<[u8; 32]> = Vec::new();
        let mut j: usize = 0;
        while j < chans.len()
            invariant
                j <= chans@.len(),
                chans@.no_duplicates(),
                chans@.to_set() == before.channels_of(mailbox),
                self.wf(),
                self.channels_of(mailbox) == Set::<[u8; 32]>::empty(),
                forall|mb: [u8; 32]| mb != mailbox ==> self.channels_of(mb) == before.channels_of(mb),
                forall|c: [u8; 32]| #[trigger] self.members_of(c) == if chans@.take(j as int).contains(c) {
                    Seq::<PresenceState>::empty()
                } else {
                    before.members_of(c)
                },
                cleared@.no_duplicates(),
                forall|c: [u8; 32]| #[trigger] cleared@.contains(c) <==> (chans@.take(j as int).contains(c)
                    && before.members_of(c).len() > 0),
            decreases chans.len() - j,
        {
            let ch = chans[j];
            let had = self.members(&ch).len() > 0;
            proof {
                assert(had == (before.members_of(ch).len() > 0));
                assert(!chans@.take(j as int).contains(ch)) by {
                    if chans@.take(j as int).contains(ch) {
                        let k = choose|k: int| 0 <= k < j && (#[trigger] chans@.take(j as int)[k]) == ch;
                        assert(chans@[k] == chans@[j as int]);
                    }
                }
                assert forall|c: [u8; 32]| chans@.take(j as int + 1).contains(c) <==> (chans@.take(j as int).contains(c) || c == ch) by {
                    if chans@.take(j as int + 1).contains(c) {
                        let k = choose|k: int| 0 <= k < j + 1 && (#[trigger] chans@.take(j as int + 1)[k]) == c;
                        if k < j {
                            assert(chans@.take(j as int)[k] == c);
                        }
                    }
                    if chans@.take(j as int).contains(c) {
                        let k = choose|k: int| 0 <= k < j && (#[trigger] chans@.take(j as int)[k]) == c;
                        assert(chans@.take(j as int + 1)[k] == c);
                    }
                    if c == ch {
                        assert(chans@.take(j as int + 1)[j as int] == c);
                    }
                }
            }
            self.set_members(ch, Vec::new());
            let ghost prev = cleared@;
            if had {
                cleared.push(ch);
                proof {
                    assert forall|c: [u8; 32]| cleared@.contains(c) <==> (prev.contains(c) || c == ch) by {
                        if cleared@.contains(c) {
                            let k = choose|k: int| 0 <= k < cleared@.len() && cleared@[k] == c;
                            if k < prev.len() {
                                assert(prev[k] == c);
                            }
                        }
                        if prev.contains(c) {
                            let k = choose|k: int| 0 <= k < prev.len() && prev[k] == c;
                            assert(cleared@[k] == c);
                        }
                        if c == ch {
                            assert(cleared@[prev.len() as int] == c);
                        }
                    }
                    assert(!prev.contains(ch));
                    assert forall|a: int, b: int| 0 <= a < cleared@.len() && 0 <= b < cleared@.len() && a != b
                        implies cleared@[a] != cleared@[b] by {
                        if a == prev.len() {
                            assert(cleared@[b] == prev[b]);
                            assert(prev.contains(prev[b]));
                        } else if b == prev.len() {
                            assert(cleared@[a] == prev[a]);
                            assert(prev.contains(prev[a]));
                        } else {
                            assert(cleared@[a] == prev[a] && cleared@[b] == prev[b]);
                        }
                    }
                }
            }
            proof {
                assert forall|c: [u8; 32]| #[trigger] cleared@.contains(c) <==> (chans@.take(j as int + 1).contains(c)
                    && before.members_of(c).len() > 0) by {
                    assert(chans@.take(j as int + 1).contains(c) <==> (chans@.take(j as int).contains(c) || c == ch));
                    assert(prev.contains(c) <==> (chans@.take(j as int).contains(c) && before.members_of(c).len() > 0));
                    if had {
                        assert(cleared@.contains(c) <==> (prev.contains(c) || c == ch));
                    } else {
                        assert(cleared@ == prev);
                    }
                }
            }
            j = j + 1;
        }
        proof {
            assert(chans@.take(chans@.len() as int) =~= chans@);
        }
        cleared
    }

    /// A member of a snapshot from mailbox `mailbox`: `ps` is in voice
    /// channel `channel`.
    pub fn add_snapshot_member(&mut self, mailbox: [u8; 32], channel: [u8; 32], ps: PresenceState)
        requires
            old(self).wf(),
        ensures
            final(self).wf(),
            final(self).members_of(channel) == old(self).members_of(channel).push(ps),
            forall|c: [u8; 32]| c != channel ==> final(self).members_of(c) == old(self).members_of(c),
            final(self).channels_of(mailbox) == old(self).channels_of(mailbox).insert(channel),
            forall|mb: [u8; 32]| mb != mailbox ==> final(self).channels_of(mb) == old(self).channels_of(mb),
    {
        let mut list = self.members(&channel);
        list.push(ps);
        self.set_members(channel, list);
        self.mailbox_insert(mailbox, channel);
    }
}


/// The most presence blobs kept per server while they cannot be opened.
pub const MAX_PENDING_PRESENCE: usize = 64;

/// A member of a server as its online presence shows it.
pub struct OnlineMember {
    pub fingerprint: [u8; 32],
    pub status: OnlineStatus,
    pub status_message: Option<String>,
    pub avatar_hash: Option<[u8; 32]>,
}

/// The word the interface shows for a status; an invisible member shows
/// as offline.
pub open spec fn status_word(s: OnlineStatus) -> Seq<char> {
    match s {
        OnlineStatus::Online => "online"@,
        OnlineStatus::Idle => "idle"@,
        OnlineStatus::Away => "away"@,
        OnlineStatus::Invisible => "offline"@,
    }
}

pub fn status_str(s: OnlineStatus) -> (w: &'static str)
    ensures
        w@ == status_word(s),
{
    proof {
        reveal_strlit("online");
        reveal_strlit("idle");
        reveal_strlit("away");
        reveal_strlit("offline");
    }
    match s {
        OnlineStatus::Online => "online",
        OnlineStatus::Idle => "idle",
        OnlineStatus::Away => "away",
        OnlineStatus::Invisible => "offline",
    }
}

/// A received presence with a status message whose expiry has passed at
/// `now` stripped of it.
pub open spec fn unexpired(p: OnlinePresence, now: u64) -> OnlinePresence {
    match p.status_expiry {
        Some(e) => if now >= e {
            OnlinePresence { status_message: None, status_expiry: None, ..p }
        } else {
            p
        },
        None => p,
    }
}

pub open spec fn member_of(p: OnlinePresence) -> OnlineMember {
    OnlineMember {
        fingerprint: p.fingerprint,
        status: p.status,
        status_message: p.status_message,
        avatar_hash: p.avatar_hash,
    }
}

/// The first member of `list` with fingerprint `fp`.
pub open spec fn fp_pos(list: Seq<OnlineMember>, fp: [u8; 32]) -> Option<int> {
    if exists|i: int| 0 <= i < list.len() && (#[trigger] list[i]).fingerprint == fp {
        Some(
            choose|i: int|
                0 <= i < list.len() && (#[trigger] list[i]).fingerprint == fp && forall|j: int|
                    0 <= j < i ==> (#[trigger] list[j]).fingerprint != fp,
        )
    } else {
        None
    }
}

/// A server's members after presence `p`: the member with its fingerprint
/// takes its status, message and avatar, or it is added at the end.
pub open spec fn upserted(list: Seq<OnlineMember>, p: OnlinePresence) -> Seq<OnlineMember> {
    match fp_pos(list, p.fingerprint) {
        Some(i) => list.update(i, member_of(p)),
        None => list.push(member_of(p)),
    }
}

/// An opened presence, or the blob that could not be opened.
pub type PresenceOutcome = Result<OnlinePresence, Vec<u8>>;

/// `list` with each opened presence of `rs` applied in order, expired
/// status messages stripped at `now`.
pub open spec fn upsert_all(list: Seq<OnlineMember>, rs: Seq<PresenceOutcome>, now: u64) -> Seq<OnlineMember>
    decreases rs.len(),
{
    if rs.len() == 0 {
        list
    } else {
        let prev = upsert_all(list, rs.drop_last(), now);
        match rs.last() {
            Ok(p) => upserted(prev, unexpired(p, now)),
            Err(_) => prev,
        }
    }
}

/// The blobs of `rs` that could not be opened, in order.
pub open spec fn failed_blobs(rs: Seq<PresenceOutcome>) -> Seq<Vec<u8>>
    decreases rs.len(),
{
    if rs.len() == 0 {
        Seq::empty()
    } else {
        let prev = failed_blobs(rs.drop_last());
        match rs.last() {
            Ok(_) => prev,
            Err(b) => prev.push(b),
        }
    }
}

/// The (member, avatar hash) of each opened presence of `rs` that names an
/// avatar, in order.
pub open spec fn avatars_named(rs: Seq<PresenceOutcome>) -> Seq<([u8; 32], [u8; 32])>
    decreases rs.len(),
{
    if rs.len() == 0 {
        Seq::empty()
    } else {
        let prev = avatars_named(rs.drop_last());
        match rs.last() {
            Ok(p) => match p.avatar_hash {
                Some(h) => prev.push((p.fingerprint, h)),
                None => prev,
            },
            Err(_) => prev,
        }
    }
}

/// No more blobs fail than there were outcomes.
pub proof fn lemma_failed_len(rs: Seq<PresenceOutcome>)
    ensures
        failed_blobs(rs).len() <= rs.len(),
    decreases rs.len(),
{
    if rs.len() > 0 {
        lemma_failed_len(rs.drop_last());
    }
}

/// When some member of `list` has fingerprint `fp`, a first one does.
proof fn lemma_first_fp(list: Seq<OnlineMember>, fp: [u8; 32], k: int)
    requires
        0 <= k <= list.len(),
        forall|j: int| 0 <= j < k ==> (#[trigger] list[j]).fingerprint != fp,
        exists|i: int| k <= i < list.len() && (#[trigger] list[i]).fingerprint == fp,
    ensures
        exists|i: int|
            0 <= i < list.len() && (#[trigger] list[i]).fingerprint == fp && forall|j: int|
                0 <= j < i ==> (#[trigger] list[j]).fingerprint != fp,
    decreases list.len() - k,
{
    if list[k].fingerprint == fp {
        assert(0 <= k < list.len() && list[k].fingerprint == fp && forall|j: int| 0 <= j < k ==> (#[trigger] list[j]).fingerprint != fp);
    } else {
        lemma_first_fp(list, fp, k + 1);
    }
}

/// A member whose presence arrives and who then goes offline is gone from
/// the server's list, and the others are as before its presence arrived.
pub proof fn law_update_then_leave(list: Seq<OnlineMember>, p: OnlinePresence)
    ensures
        upserted(list, p).filter(|m: OnlineMember| m.fingerprint != p.fingerprint)
            == list.filter(|m: OnlineMember| m.fingerprint != p.fingerprint),
{
    reveal(Seq::filter);
    let pred = |m: OnlineMember| m.fingerprint != p.fingerprint;
    if exists|i: int| 0 <= i < list.len() && (#[trigger] list[i]).fingerprint == p.fingerprint {
        lemma_first_fp(list, p.fingerprint, 0);
    }
    match fp_pos(list, p.fingerprint) {
        Some(i) => {
            let i = choose|i: int|
                0 <= i < list.len() && (#[trigger] list[i]).fingerprint == p.fingerprint && forall|j: int|
                    0 <= j < i ==> (#[trigger] list[j]).fingerprint != p.fingerprint;
            lemma_filter_update_dropped(list, pred, i, member_of(p));
        },
        None => {
            assert(list.push(member_of(p)).drop_last() =~= list);
        },
    }
}

/// The first member with fingerprint `fp`.
fn find_member(list: &Vec<OnlineMember>, fp: &[u8; 32]) -> (r: Option<usize>)
    ensures
        match r {
            Some(i) => i < list@.len() && fp_pos(list@, *fp) == Some(i as int),
            None => fp_pos(list@, *fp) is None,
        },
{
    let mut i: usize = 0;
    while i < list.len()
        invariant
            i <= list@.len(),
            forall|j: int| 0 <= j < i ==> (#[trigger] list@[j]).fingerprint != *fp,
        decreases list.len() - i,
    {
        if eq32(&list[i].fingerprint, fp) {
            proof {
                let c = choose|c: int|
                    0 <= c < list@.len() && (#[trigger] list@[c]).fingerprint == *fp && forall|j: int|
                        0 <= j < c ==> (#[trigger] list@[j]).fingerprint != *fp;
                if c < i {
                    assert(list@[c].fingerprint != *fp);
                }
                if c > i {
                    assert(list@[i as int].fingerprint != *fp);
                }
            }
            return Some(i);
        }
        i = i + 1;
    }
    None
}

/// Applies presence `p` to a member list.
fn upsert(list: &mut Vec<OnlineMember>, p: OnlinePresence)
    ensures
        final(list)@ == upserted(old(list)@, p),
{
    let fp = p.fingerprint;
    let m = OnlineMember {
        fingerprint: p.fingerprint,
        status: p.status,
        status_message: p.status_message,
        avatar_hash: p.avatar_hash,
    };
    match find_member(list, &fp) {
        Some(i) => {
            list.set(i, m);
        },
        None => {
            list.push(m);
        },
    }
}

/// The online members of each server, and per server the presence blobs
/// that could not be opened yet (at most 64). Both tables are association
/// lists with unique keys (`wf`), for the same reason as in `VoiceRoster`.
pub struct OnlineRoster {
    pub servers: Vec<([u8; 32], Vec<OnlineMember>)>,
    pub pending: Vec<([u8; 32], Vec<Vec<u8>>)>,
}

impl OnlineRoster {
    /// Keys are unique and no server holds more than 64 pending blobs.
    pub open spec fn wf(&self) -> bool {
        &&& keys_unique(self.servers@)
        &&& keys_unique(self.pending@)
        &&& forall|i: int| 0 <= i < self.pending@.len() ==> (#[trigger] self.pending@[i]).1@.len() <= MAX_PENDING_PRESENCE
    }

    /// The online members of server `s`.
    pub open spec fn members_of(&self, s: [u8; 32]) -> Seq<OnlineMember> {
        match assoc(self.servers@, s) {
            Some(m) => m@,
            None => Seq::empty(),
        }
    }

    /// The blobs of server `s` waiting to be opened.
    pub open spec fn pending_of(&self, s: [u8; 32]) -> Seq<Vec<u8>> {
        match assoc(self.pending@, s) {
            Some(b) => b@,
            None => Seq::empty(),
        }
    }

    pub fn new() -> (r: OnlineRoster)
        ensures
            r.wf(),
            forall|s: [u8; 32]| r.members_of(s) == Seq::<OnlineMember>::empty(),
            forall|s: [u8; 32]| r.pending_of(s) == Seq::<Vec<u8>>::empty(),
    {
        OnlineRoster { servers: Vec::new(), pending: Vec::new() }
    }

    /// The members of server `s`.
    pub fn members(&self, s: &[u8; 32]) -> (r: &[OnlineMember])
        requires
            self.wf(),
        ensures
            r@ == self.members_of(*s),
    {
        match find_key(&self.servers, s) {
            Some(i) => self.servers[i].1.as_slice(),
            None => &[],
        }
    }

    /// Takes out the member list of server `s` (empty when there is none);
    /// the entry stays, empty.
    fn take_members(&mut self, s: [u8; 32]) -> (list: Vec<OnlineMember>)
        requires
            old(self).wf(),
        ensures
            final(self).wf(),
            list@ == old(self).members_of(s),
            final(self).members_of(s) == Seq::<OnlineMember>::empty(),
            forall|s2: [u8; 32]| s2 != s ==> final(self).members_of(s2) == old(self).members_of(s2),
            final(self).pending == old(self).pending,
    {
        let ghost old_servers = self.servers@;
        match find_key(&self.servers, &s) {
            Some(i) => {
                let (k, list) = self.servers.remove(i);
                let empty: Vec<OnlineMember> = Vec::new();
                let ghost e = empty;
                self.servers.insert(i, (k, empty));
                proof {
                    assert(self.servers@ =~= old_servers.update(i as int, (s, e)));
                    lemma_assoc_update(old_servers, i as int, e);
                }
                list
            },
            None => Vec::new(),
        }
    }

    /// Sets the member list of server `s`.
    fn put_members(&mut self, s: [u8; 32], list: Vec<OnlineMember>)
        requires
            old(self).wf(),
        ensures
            final(self).wf(),
            final(self).members_of(s) == list@,
            forall|s2: [u8; 32]| s2 != s ==> final(self).members_of(s2) == old(self).members_of(s2),
            final(self).pending == old(self).pending,
    {
        let ghost old_servers = self.servers@;
        match find_key(&self.servers, &s) {
            Some(i) => {
                let _ = self.servers.remove(i);
                self.servers.insert(i, (s, list));
                proof {
                    assert(self.servers@ =~= old_servers.update(i as int, (s, list)));
                    lemma_assoc_update(old_servers, i as int, list);
                }
            },
            None => {
                self.servers.push((s, list));
                proof {
                    lemma_assoc_push(old_servers, s, list);
                }
            },
        }
    }

    /// Takes out the pending blobs of server `s`, removing its entry.
    pub fn take_pending(&mut self, s: [u8; 32]) -> (blobs: Vec<Vec<u8>>)
        requires
            old(self).wf(),
        ensures
            final(self).wf(),
            blobs@ == old(self).pending_of(s),
            blobs@.len() <= MAX_PENDING_PRESENCE,
            assoc(final(self).pending@, s) is None,
            final(self).pending_of(s) == Seq::<Vec<u8>>::empty(),
            forall|s2: [u8; 32]| s2 != s ==> final(self).pending_of(s2) == old(self).pending_of(s2),
            final(self).servers == old(self).servers,
    {
        let ghost old_pending = self.pending@;
        match find_key(&self.pending, &s) {
            Some(i) => {
                let (_, blobs) = self.pending.remove(i);
                proof {
                    lemma_assoc_remove(old_pending, i as int);
                    assert forall|j: int| 0 <= j < self.pending@.len() implies (#[trigger] self.pending@[j]).1@.len() <= MAX_PENDING_PRESENCE by {
                        let j2 = if j < i { j } else { j + 1 };
                        assert(self.pending@[j] == old_pending[j2]);
                    }
                }
                blobs
            },
            None => Vec::new(),
        }
    }

    /// Sets the pending blobs of server `s`; an empty list drops the entry.
    fn put_pending(&mut self, s: [u8; 32], blobs: Vec<Vec<u8>>)
        requires
            old(self).wf(),
            blobs@.len() <= MAX_PENDING_PRESENCE,
        ensures
            final(self).wf(),
            final(self).pending_of(s) == blobs@,
            forall|s2: [u8; 32]| s2 != s ==> final(self).pending_of(s2) == old(self).pending_of(s2),
            final(self).servers == old(self).servers,
    {
        let _ = self.take_pending(s);
        if blobs.len() > 0 {
            let ghost before = self.pending@;
            self.pending.push((s, blobs));
            proof {
                lemma_assoc_push(before, s, blobs);
                assert forall|j: int| 0 <= j < self.pending@.len() implies (#[trigger] self.pending@[j]).1@.len() <= MAX_PENDING_PRESENCE by {
                    if j < before.len() {
                        assert(self.pending@[j] == before[j]);
                    }
                }
            }
        }
    }

    /// Applies each outcome to `list` in order; returns the blobs that could
    /// not be opened and the avatars named.
    fn apply_outcomes(list: &mut Vec<OnlineMember>, outcomes: Vec<PresenceOutcome>, now_ms: u64) -> (r: (
        Vec<Vec<u8>>,
        Vec<([u8; 32], [u8; 32])>,
    ))
        ensures
            final(list)@ == upsert_all(old(list)@, outcomes@, now_ms),
            r.0@ == failed_blobs(outcomes@),
            r.1@ == avatars_named(outcomes@),
    {
        let ghost all = outcomes@;
        let ghost init = list@;
        let mut rest = outcomes;
        let mut failed: Vec<Vec<u8>> = Vec::new();
        let mut avatars: Vec<([u8; 32], [u8; 32])> = Vec::new();
        let mut k: usize = 0;
        proof {
            assert(all.len() == rest.len());
            assert(all.take(0) =~= Seq::<PresenceOutcome>::empty());
            assert(all.skip(0) =~= all);
        }
        while rest.len() > 0
            invariant
                k <= all.len() <= usize::MAX,
                rest@ == all.skip(k as int),
                list@ == upsert_all(init, all.take(k as int), now_ms),
                failed@ == failed_blobs(all.take(k as int)),
                avatars@ == avatars_named(all.take(k as int)),
            decreases rest.len(),
        {
            let o = rest.remove(0);
            proof {
                assert(o == all[k as int]);
                assert(all.take(k as int + 1).drop_last() =~= all.take(k as int));
                assert(all.take(k as int + 1).last() == all[k as int]);
                assert(rest@ =~= all.skip(k as int + 1));
            }
            match o {
                Ok(p) => {
                    let mut p = p;
                    let ghost orig = p;
                    filter_expired_status(&mut p, now_ms);
                    assert(p == unexpired(orig, now_ms));
                    match p.avatar_hash {
                        Some(h) => {
                            avatars.push((p.fingerprint, h));
                        },
                        None => {},
                    }
                    upsert(list, p);
                },
                Err(b) => {
                    failed.push(b);
                },
            }
            k = k + 1;
        }
        proof {
            assert(all.take(k as int) =~= all);
        }
        (failed, avatars)
    }

    /// A snapshot of server `s`'s online presence: its member list is
    /// rebuilt from the opened presences, the blobs that could not be opened
    /// (the first 64) replace its pending ones. Returns the avatars named.
    pub fn snapshot(&mut self, s: [u8; 32], outcomes: Vec<PresenceOutcome>, now_ms: u64) -> (avatars: Vec<
        ([u8; 32], [u8; 32]),
    >)
        requires
            old(self).wf(),
        ensures
            final(self).wf(),
            final(self).members_of(s) == upsert_all(Seq::empty(), outcomes@, now_ms),
            final(self).pending_of(s) == if failed_blobs(outcomes@).len() > MAX_PENDING_PRESENCE {
                failed_blobs(outcomes@).take(MAX_PENDING_PRESENCE as int)
            } else {
                failed_blobs(outcomes@)
            },
            forall|s2: [u8; 32]| s2 != s ==> final(self).members_of(s2) == old(self).members_of(s2),
            forall|s2: [u8; 32]| s2 != s ==> final(self).pending_of(s2) == old(self).pending_of(s2),
            avatars@ == avatars_named(outcomes@),
    {
        let mut list: Vec<OnlineMember> = Vec::new();
        let (mut failed, avatars) = Self::apply_outcomes(&mut list, outcomes, now_ms);
        failed.truncate(MAX_PENDING_PRESENCE);
        self.put_members(s, list);
        self.put_pending(s, failed);
        avatars
    }

    /// An opened presence for server `s`: its member is updated or added.
    /// Returns the avatar it names, to fetch.
    pub fn update(&mut self, s: [u8; 32], p: OnlinePresence, now_ms: u64) -> (avatar: Option<[u8; 32]>)
        requires
            old(self).wf(),
        ensures
            final(self).wf(),
            final(self).members_of(s) == upserted(old(self).members_of(s), unexpired(p, now_ms)),
            forall|s2: [u8; 32]| s2 != s ==> final(self).members_of(s2) == old(self).members_of(s2),
            forall|s2: [u8; 32]| final(self).pending_of(s2) == old(self).pending_of(s2),
            avatar == p.avatar_hash,
    {
        let mut list = self.take_members(s);
        let mut p = p;
        let ghost orig = p;
        filter_expired_status(&mut p, now_ms);
        assert(p == unexpired(orig, now_ms));
        let avatar = p.avatar_hash;
        upsert(&mut list, p);
        self.put_members(s, list);
        avatar
    }

    /// A presence blob for server `s` that could not be opened: kept for a
    /// retry unless 64 are waiting already.
    pub fn hold_blob(&mut self, s: [u8; 32], blob: Vec<u8>)
        requires
            old(self).wf(),
        ensures
            final(self).wf(),
            final(self).pending_of(s) == if old(self).pending_of(s).len() < MAX_PENDING_PRESENCE {
                old(self).pending_of(s).push(blob)
            } else {
                old(self).pending_of(s)
            },
            forall|s2: [u8; 32]| s2 != s ==> final(self).pending_of(s2) == old(self).pending_of(s2),
            forall|s2: [u8; 32]| final(self).members_of(s2) == old(self).members_of(s2),
    {
        let mut blobs = self.take_pending(s);
        if blobs.len() < MAX_PENDING_PRESENCE {
            blobs.push(blob);
        }
        self.put_pending(s, blobs);
    }

    /// Member `fp` of server `s` went offline.
    pub fn leave(&mut self, s: [u8; 32], fp: [u8; 32])
        requires
            old(self).wf(),
        ensures
            final(self).wf(),
            final(self).members_of(s) == old(self).members_of(s).filter(|m: OnlineMember| m.fingerprint != fp),
            forall|s2: [u8; 32]| s2 != s ==> final(self).members_of(s2) == old(self).members_of(s2),
            forall|s2: [u8; 32]| final(self).pending_of(s2) == old(self).pending_of(s2),
    {
        let list = self.take_members(s);
        let ghost orig = list@;
        let mut kept: Vec<OnlineMember> = Vec::new();
        let ghost pred = |m: OnlineMember| m.fingerprint != fp;
        let mut rest = list;
        let mut k: usize = 0;
        proof {
            reveal(Seq::filter);
            assert(orig.len() == rest.len());
            assert(orig.take(0) =~= Seq::<OnlineMember>::empty());
            assert(orig.skip(0) =~= orig);
        }
        while rest.len() > 0
            invariant
                k <= orig.len() <= usize::MAX,
                rest@ == orig.skip(k as int),
                kept@ == orig.take(k as int).filter(pred),
                pred == (|m: OnlineMember| m.fingerprint != fp),
            decreases rest.len(),
        {
            let m = rest.remove(0);
            proof {
                reveal(Seq::filter);
                assert(m == orig[k as int]);
                assert(orig.take(k as int + 1).drop_last() =~= orig.take(k as int));
                assert(orig.take(k as int + 1).last() == orig[k as int]);
                assert(rest@ =~= orig.skip(k as int + 1));
            }
            if !eq32(&m.fingerprint, &fp) {
                kept.push(m);
            }
            k = k + 1;
        }
        proof {
            assert(orig.take(k as int) =~= orig);
        }
        self.put_members(s, kept);
    }

    /// Retries the pending blobs of server `s` after its group changed
    /// epoch: `outcomes` are those of the blobs `take_pending` returned. The
    /// opened presences are applied, the others wait again.
    pub fn retry(&mut self, s: [u8; 32], outcomes: Vec<PresenceOutcome>, now_ms: u64)
        requires
            old(self).wf(),
            outcomes@.len() <= MAX_PENDING_PRESENCE,
        ensures
            final(self).wf(),
            final(self).members_of(s) == upsert_all(old(self).members_of(s), outcomes@, now_ms),
            final(self).pending_of(s) == failed_blobs(outcomes@),
            forall|s2: [u8; 32]| s2 != s ==> final(self).members_of(s2) == old(self).members_of(s2),
            forall|s2: [u8; 32]| s2 != s ==> final(self).pending_of(s2) == old(self).pending_of(s2),
    {
        let ghost n = outcomes@;
        let mut list = self.take_members(s);
        let (failed, _) = Self::apply_outcomes(&mut list, outcomes, now_ms);
        proof {
            lemma_failed_len(n);
        }
        self.put_members(s, list);
        self.put_pending(s, failed);
    }
}

} // verus!
