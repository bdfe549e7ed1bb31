//! Group membership bindings: which device keys of which accounts are
//! authorized in an MLS group, and their wire encoding.

use vstd::prelude::*;

use crate::codec::{
    be16, be64, concat_map, copy32, eq32, lemma_be16_of, lemma_be16_roundtrip, lemma_be64_of,
    lemma_concat_map_push, put_bytes, put_u16, put_u64, u16_of_be, u64_of_be,
};
use crate::idlog::{device_active, IdLogCache};
use crate::error::{GhostError, format_err};

verus! {

/// Size of one encoded binding: account fingerprint, sequence, device key.
pub const BINDING_SIZE: usize = 72;

/// Binds an account fingerprint to an authorized device key at an identity log sequence.
#[derive(Debug, Clone, Copy, PartialEq, Eq)]
pub struct MemberBinding {
    pub account_fp: [u8; 32],
    pub idlog_seq: u64,
    pub device_key: [u8; 32],
}

/// Maps account fingerprints to authorized device keys within an MLS group.
/// Wire format: [count: 2 BE] ([account_fp: 32][idlog_seq: 8 BE][device_key: 32]) * count
#[derive(Debug, Clone)]
pub struct GroupMembership {
    pub bindings: Vec<MemberBinding>,
}

/// Whether `x` binds the same account and device as `b`.
pub open spec fn same_pair(x: MemberBinding, b: MemberBinding) -> bool {
    x.account_fp == b.account_fp && x.device_key == b.device_key
}

/// No (account, device) pair is bound twice.
pub open spec fn pairs_unique(s: Seq<MemberBinding>) -> bool {
    forall|i: int, j: int| 0 <= i < j < s.len() ==> !same_pair(#[trigger] s[i], #[trigger] s[j])
}

/// `t` is `s` after adding `b`: the first binding of the same (account, device)
/// pair takes `b`'s sequence number, or `b` is appended when the pair is unbound.
pub open spec fn added(s: Seq<MemberBinding>, b: MemberBinding, t: Seq<MemberBinding>) -> bool {
    ||| exists|i: int| {
            &&& 0 <= i < s.len()
            &&& same_pair(s[i], b)
            &&& (forall|j: int| 0 <= j < i ==> !same_pair(#[trigger] s[j], b))
            &&& t == s.update(i, MemberBinding { idlog_seq: b.idlog_seq, ..s[i] })
        }
    ||| (forall|j: int| 0 <= j < s.len() ==> !same_pair(#[trigger] s[j], b)) && t == s.push(b)
}

/// Wire bytes of one binding.
pub open spec fn enc_binding(b: MemberBinding) -> Seq<u8> {
    b.account_fp@ + be64(b.idlog_seq) + b.device_key@
}

/// Wire bytes of a membership list: big-endian count, then each binding.
pub open spec fn enc_membership(s: Seq<MemberBinding>) -> Seq<u8> {
    be16(s.len() as u16) + concat_map(s, |b: MemberBinding| enc_binding(b))
}

impl GroupMembership {
    pub fn new() -> (m: GroupMembership)
        ensures
            m.bindings@ == Seq::<MemberBinding>::empty(),
    {
        GroupMembership { bindings: Vec::new() }
    }

    /// Adds or updates a binding: if the same (account_fp, device_key) pair is
    /// bound, its first binding takes the new `idlog_seq`; otherwise the binding
    /// is appended.
    pub fn add(&mut self, binding: MemberBinding)
        ensures
            added(old(self).bindings@, binding, final(self).bindings@),
    {
        let mut i: usize = 0;
        while i < self.bindings.len()
            invariant
                0 <= i <= self.bindings@.len(),
                self.bindings@ == old(self).bindings@,
                forall|j: int| 0 <= j < i ==> !same_pair(#[trigger] self.bindings@[j], binding),
            decreases self.bindings@.len() - i,
        {
            let b = self.bindings[i];
            if eq32(&b.account_fp, &binding.account_fp) && eq32(&b.device_key, &binding.device_key) {
                let updated = MemberBinding { idlog_seq: binding.idlog_seq, ..b };
                self.bindings.set(i, updated);
                return;
            }
            i = i + 1;
        }
        self.bindings.push(binding);
    }

    /// Removes every binding of an account.
    pub fn remove_account(&mut self, account_fp: &[u8; 32])
        ensures
            final(self).bindings@ == old(self).bindings@.filter(|b: MemberBinding| b.account_fp != *account_fp),
    {
        let ghost pred = |b: MemberBinding| b.account_fp != *account_fp;
        let old_b = self.bindings.clone();
        let mut kept: Vec<MemberBinding> = Vec::new();
        let mut i: usize = 0;
        while i < old_b.len()
            invariant
                0 <= i <= old_b@.len(),
                old_b@ == old(self).bindings@,
                kept@ == old_b@.take(i as int).filter(pred),
                pred == (|b: MemberBinding| b.account_fp != *account_fp),
            decreases old_b@.len() - i,
        {
            reveal_with_fuel(Seq::<_>::filter, 1);
            let b = old_b[i];
            let ghost prev = kept@;
            if !eq32(&b.account_fp, account_fp) {
                kept.push(b);
            }
            assert(old_b@.take(i + 1).drop_last() =~= old_b@.take(i as int));
            assert(old_b@.take(i + 1).last() == b);
            assert(pred(b) == (b.account_fp != *account_fp));
            assert(old_b@.take(i + 1).filter(pred) == if pred(b) {
                old_b@.take(i as int).filter(pred).push(b)
            } else {
                old_b@.take(i as int).filter(pred)
            });
            i = i + 1;
        }
        assert(old_b@.take(old_b@.len() as int) =~= old_b@);
        self.bindings = kept;
    }

    /// Removes every binding of a device key.
    pub fn remove_device(&mut self, device_key: &[u8; 32])
        ensures
            final(self).bindings@ == old(self).bindings@.filter(|b: MemberBinding| b.device_key != *device_key),
    {
        let ghost pred = |b: MemberBinding| b.device_key != *device_key;
        let old_b = self.bindings.clone();
        let mut kept: Vec<MemberBinding> = Vec::new();
        let mut i: usize = 0;
        while i < old_b.len()
            invariant
                0 <= i <= old_b@.len(),
                old_b@ == old(self).bindings@,
                kept@ == old_b@.take(i as int).filter(pred),
                pred == (|b: MemberBinding| b.device_key != *device_key),
            decreases old_b@.len() - i,
        {
            reveal_with_fuel(Seq::<_>::filter, 1);
            let b = old_b[i];
            let ghost prev = kept@;
            if !eq32(&b.device_key, device_key) {
                kept.push(b);
            }
            assert(old_b@.take(i + 1).drop_last() =~= old_b@.take(i as int));
            assert(old_b@.take(i + 1).last() == b);
            assert(pred(b) == (b.device_key != *device_key));
            assert(old_b@.take(i + 1).filter(pred) == if pred(b) {
                old_b@.take(i as int).filter(pred).push(b)
            } else {
                old_b@.take(i as int).filter(pred)
            });
            i = i + 1;
        }
        assert(old_b@.take(old_b@.len() as int) =~= old_b@);
        self.bindings = kept;
    }

    pub fn encode(&self) -> (out: Vec<u8>)
        ensures
            out@ == enc_membership(self.bindings@),
    {
        let count = self.bindings.len() as u16;
        let mut out: Vec<u8> = Vec::new();
        put_u16(&mut out, count);
        let ghost head = out@;
        let mut i: usize = 0;
        while i < self.bindings.len()
            invariant
                0 <= i <= self.bindings@.len(),
                out@ == head + concat_map(self.bindings@.take(i as int), |b: MemberBinding| enc_binding(b)),
            decreases self.bindings@.len() - i,
        {
            let b = self.bindings[i];
            put_bytes(&mut out, &b.account_fp);
            put_u64(&mut out, b.idlog_seq);
            put_bytes(&mut out, &b.device_key);
            proof {
                lemma_concat_map_push(self.bindings@.take(i as int), b, |b: MemberBinding| enc_binding(b));
                assert(self.bindings@.take(i + 1) =~= self.bindings@.take(i as int).push(b));
            }
            i = i + 1;
        }
        assert(self.bindings@.take(self.bindings@.len() as int) =~= self.bindings@);
        out
    }

    /// Decodes a membership list; succeeds exactly when the length matches the
    /// count prefix, which is exactly on the encodings of lists of at most 65535 bindings.
    pub fn decode(data: &[u8]) -> (r: Result<GroupMembership, GhostError>)
        ensures
            match r {
                Ok(m) => m.bindings@.len() <= 0xffff && enc_membership(m.bindings@) == data@,
                Err(e) => e is Format && !exists|s: Seq<MemberBinding>| s.len() <= 0xffff && enc_membership(s) == data@,
            },
            r is Ok <==> (data@.len() >= 2 && data@.len() == 2 + BINDING_SIZE * u16_of_be(data@.subrange(0, 2))),
    {
        if data.len() < 2 {
            proof {
                assert forall|s: Seq<MemberBinding>| s.len() <= 0xffff implies enc_membership(s) != data@ by {
                    lemma_be16_roundtrip(s.len() as u16);
                }
            }
            return Err(format_err("membership extension too short"));
        }
        let count = (((data[0] as u16) << 8u16) | (data[1] as u16)) as usize;
        assert(count == u16_of_be(data@.subrange(0, 2)));
        if data.len() / BINDING_SIZE < count || data.len() - 2 != count * BINDING_SIZE {
            proof {
                assert forall|s: Seq<MemberBinding>| s.len() <= 0xffff implies enc_membership(s) != data@ by {
                    if enc_membership(s) == data@ {
                        lemma_be16_roundtrip(s.len() as u16);
                        assert(data@.subrange(0, 2) =~= be16(s.len() as u16));
                        lemma_enc_bindings_len(s);
                    }
                }
            }
            return Err(format_err("membership extension length mismatch"));
        }
        let mut bindings: Vec<MemberBinding> = Vec::new();
        let mut offset: usize = 2;
        let mut i: usize = 0;
        while i < count
            invariant
                0 <= i <= count,
                count <= 0xffff,
                data@.len() == 2 + count * 72,
                offset == 2 + 72 * i,
                bindings@.len() == i,
                data@.subrange(2, offset as int) == concat_map(bindings@, |b: MemberBinding| enc_binding(b)),
            decreases count - i,
        {
            let account_fp = copy32(data, offset);
            let idlog_seq = ((data[offset + 32] as u64) << 56u64) | ((data[offset + 33] as u64) << 48u64)
                | ((data[offset + 34] as u64) << 40u64) | ((data[offset + 35] as u64) << 32u64)
                | ((data[offset + 36] as u64) << 24u64) | ((data[offset + 37] as u64) << 16u64)
                | ((data[offset + 38] as u64) << 8u64) | (data[offset + 39] as u64);
            let device_key = copy32(data, offset + 40);
            let b = MemberBinding { account_fp, idlog_seq, device_key };
            proof {
                let o = offset as int;
                assert(idlog_seq == u64_of_be(data@.subrange(o + 32, o + 40)));
                lemma_be64_of(data@.subrange(o + 32, o + 40));
                assert(data@.subrange(o, o + 72) =~= enc_binding(b));
                crate::codec::lemma_join(data@, 2, o, o + 72);
                lemma_concat_map_push(bindings@, b, |b: MemberBinding| enc_binding(b));
            }
            bindings.push(b);
            offset = offset + BINDING_SIZE;
            i = i + 1;
        }
        let m = GroupMembership { bindings };
        proof {
            lemma_be16_of(data@.subrange(0, 2));
            assert(data@ =~= data@.subrange(0, 2) + data@.subrange(2, data@.len() as int));
        }
        Ok(m)
    }
}

/// Each binding encodes to 72 bytes.
pub proof fn lemma_enc_bindings_len(s: Seq<MemberBinding>)
    ensures
        concat_map(s, |b: MemberBinding| enc_binding(b)).len() == 72 * s.len(),
        enc_membership(s).len() == 2 + 72 * s.len(),
    decreases s.len(),
{
    if s.len() > 0 {
        lemma_enc_bindings_len(s.drop_first());
    }
}

} // verus!

verus! {

/// Adding a binding keeps every (account, device) pair bound at most once.
pub proof fn law_add_keeps_pairs_unique(s: Seq<MemberBinding>, b: MemberBinding, t: Seq<MemberBinding>)
    requires
        pairs_unique(s),
        added(s, b, t),
    ensures
        pairs_unique(t),
{
    if exists|i: int| {
        &&& 0 <= i < s.len()
        &&& same_pair(s[i], b)
        &&& (forall|j: int| 0 <= j < i ==> !same_pair(#[trigger] s[j], b))
        &&& t == s.update(i, MemberBinding { idlog_seq: b.idlog_seq, ..s[i] })
    } {
        let i = choose|i: int| {
            &&& 0 <= i < s.len()
            &&& same_pair(s[i], b)
            &&& (forall|j: int| 0 <= j < i ==> !same_pair(#[trigger] s[j], b))
            &&& t == s.update(i, MemberBinding { idlog_seq: b.idlog_seq, ..s[i] })
        };
        assert forall|x: int, y: int| 0 <= x < y < t.len() implies !same_pair(#[trigger] t[x], #[trigger] t[y]) by {
            assert(same_pair(t[x], s[x]) || !same_pair(t[x], s[x]));
            assert(t[x].account_fp == s[x].account_fp && t[x].device_key == s[x].device_key);
            assert(t[y].account_fp == s[y].account_fp && t[y].device_key == s[y].device_key);
            assert(!same_pair(s[x], s[y]));
        }
    } else {
        assert forall|x: int, y: int| 0 <= x < y < t.len() implies !same_pair(#[trigger] t[x], #[trigger] t[y]) by {
            if y == s.len() {
                assert(t[y] == b);
                assert(t[x] == s[x]);
            } else {
                assert(!same_pair(s[x], s[y]));
            }
        }
    }
}

/// After adding a binding, its pair is bound with its sequence number.
pub proof fn law_add_binds(s: Seq<MemberBinding>, b: MemberBinding, t: Seq<MemberBinding>)
    requires
        added(s, b, t),
    ensures
        exists|k: int| 0 <= k < t.len() && t[k] == b,
{
    if exists|i: int| {
        &&& 0 <= i < s.len()
        &&& same_pair(s[i], b)
        &&& (forall|j: int| 0 <= j < i ==> !same_pair(#[trigger] s[j], b))
        &&& t == s.update(i, MemberBinding { idlog_seq: b.idlog_seq, ..s[i] })
    } {
        let i = choose|i: int| {
            &&& 0 <= i < s.len()
            &&& same_pair(s[i], b)
            &&& (forall|j: int| 0 <= j < i ==> !same_pair(#[trigger] s[j], b))
            &&& t == s.update(i, MemberBinding { idlog_seq: b.idlog_seq, ..s[i] })
        };
        assert(t[i] == b);
    } else {
        assert(t[s.len() as int] == b);
    }
}

/// Removing an account's bindings keeps exactly the other accounts' bindings.
pub proof fn law_remove_account(s: Seq<MemberBinding>, account_fp: [u8; 32])
    ensures
        ({
            let t = s.filter(|b: MemberBinding| b.account_fp != account_fp);
            &&& forall|k: int| 0 <= k < t.len() ==> (#[trigger] t[k]).account_fp != account_fp && s.contains(t[k])
            &&& forall|k: int| 0 <= k < s.len() && (#[trigger] s[k]).account_fp != account_fp ==> t.contains(s[k])
        }),
{
    let pred = |b: MemberBinding| b.account_fp != account_fp;
    let t = s.filter(pred);
    assert forall|k: int| 0 <= k < t.len() implies (#[trigger] t[k]).account_fp != account_fp && s.contains(t[k]) by {
        s.lemma_filter_pred(pred, k);
        assert(t.contains(t[k]));
        s.lemma_filter_contains_rev(pred, t[k]);
    }
    assert forall|k: int| 0 <= k < s.len() && (#[trigger] s[k]).account_fp != account_fp implies t.contains(s[k]) by {
        s.lemma_filter_contains(pred, k);
    }
}

/// Removing a device's bindings keeps exactly the other devices' bindings.
pub proof fn law_remove_device(s: Seq<MemberBinding>, device_key: [u8; 32])
    ensures
        ({
            let t = s.filter(|b: MemberBinding| b.device_key != device_key);
            &&& forall|k: int| 0 <= k < t.len() ==> (#[trigger] t[k]).device_key != device_key && s.contains(t[k])
            &&& forall|k: int| 0 <= k < s.len() && (#[trigger] s[k]).device_key != device_key ==> t.contains(s[k])
        }),
{
    let pred = |b: MemberBinding| b.device_key != device_key;
    let t = s.filter(pred);
    assert forall|k: int| 0 <= k < t.len() implies (#[trigger] t[k]).device_key != device_key && s.contains(t[k]) by {
        s.lemma_filter_pred(pred, k);
        assert(t.contains(t[k]));
        s.lemma_filter_contains_rev(pred, t[k]);
    }
    assert forall|k: int| 0 <= k < s.len() && (#[trigger] s[k]).device_key != device_key implies t.contains(s[k]) by {
        s.lemma_filter_contains(pred, k);
    }
}

/// Filtering keeps every (account, device) pair bound at most once.
pub proof fn law_filter_keeps_pairs_unique(s: Seq<MemberBinding>, pred: spec_fn(MemberBinding) -> bool)
    requires
        pairs_unique(s),
    ensures
        pairs_unique(s.filter(pred)),
    decreases s.len(),
{
    reveal_with_fuel(Seq::<_>::filter, 1);
    if s.len() > 0 {
        let r = s.drop_last();
        assert(pairs_unique(r)) by {
            assert forall|i: int, j: int| 0 <= i < j < r.len() implies !same_pair(#[trigger] r[i], #[trigger] r[j]) by {
                assert(r[i] == s[i] && r[j] == s[j]);
            }
        }
        law_filter_keeps_pairs_unique(r, pred);
        let f = r.filter(pred);
        if pred(s.last()) {
            let t = f.push(s.last());
            assert forall|i: int, j: int| 0 <= i < j < t.len() implies !same_pair(#[trigger] t[i], #[trigger] t[j]) by {
                if j == f.len() {
                    assert(f.contains(t[i]));
                    r.lemma_filter_contains_rev(pred, t[i]);
                    let k = choose|k: int| 0 <= k < r.len() && r[k] == t[i];
                    assert(s[k] == r[k]);
                    assert(!same_pair(s[k], s[s.len() - 1]));
                } else {
                    assert(t[i] == f[i] && t[j] == f[j]);
                }
            }
        }
    }
}

/// A binding is determined by its 72 encoded bytes.
proof fn lemma_binding_unique(a: MemberBinding, b: MemberBinding)
    requires
        enc_binding(a) == enc_binding(b),
    ensures
        a == b,
{
    let x = enc_binding(a);
    let y = enc_binding(b);
    assert(x.subrange(0, 32) =~= a.account_fp@);
    assert(y.subrange(0, 32) =~= b.account_fp@);
    assert(x.subrange(32, 40) =~= be64(a.idlog_seq));
    assert(y.subrange(32, 40) =~= be64(b.idlog_seq));
    assert(x.subrange(40, 72) =~= a.device_key@);
    assert(y.subrange(40, 72) =~= b.device_key@);
    crate::codec::lemma_arr32_eq(a.account_fp, b.account_fp);
    crate::codec::lemma_arr32_eq(a.device_key, b.device_key);
    crate::codec::lemma_be64_roundtrip(a.idlog_seq);
    crate::codec::lemma_be64_roundtrip(b.idlog_seq);
}

proof fn lemma_bindings_unique(a: Seq<MemberBinding>, b: Seq<MemberBinding>)
    requires
        a.len() == b.len(),
        concat_map(a, |x: MemberBinding| enc_binding(x)) == concat_map(b, |x: MemberBinding| enc_binding(x)),
    ensures
        a == b,
    decreases a.len(),
{
    if a.len() > 0 {
        let ra = concat_map(a.drop_first(), |x: MemberBinding| enc_binding(x));
        let rb = concat_map(b.drop_first(), |x: MemberBinding| enc_binding(x));
        let x = enc_binding(a[0]) + ra;
        assert(x.subrange(0, 72) =~= enc_binding(a[0]));
        assert((enc_binding(b[0]) + rb).subrange(0, 72) =~= enc_binding(b[0]));
        assert(x.subrange(72, x.len() as int) =~= ra);
        assert((enc_binding(b[0]) + rb).subrange(72, x.len() as int) =~= rb);
        lemma_binding_unique(a[0], b[0]);
        lemma_bindings_unique(a.drop_first(), b.drop_first());
        assert forall|i: int| 0 <= i < a.len() implies a[i] == b[i] by {
            if i > 0 {
                assert(a[i] == a.drop_first()[i - 1]);
                assert(b[i] == b.drop_first()[i - 1]);
            }
        }
        assert(a =~= b);
    } else {
        assert(a =~= b);
    }
}

/// A membership list of at most 65535 bindings is determined by its encoding:
/// decoding what `encode` wrote gives the same bindings in the same order.
pub proof fn law_membership_encoding_injective(a: Seq<MemberBinding>, b: Seq<MemberBinding>)
    requires
        a.len() <= 0xffff,
        b.len() <= 0xffff,
        enc_membership(a) == enc_membership(b),
    ensures
        a == b,
{
    lemma_enc_bindings_len(a);
    lemma_enc_bindings_len(b);
    lemma_be16_roundtrip(a.len() as u16);
    lemma_be16_roundtrip(b.len() as u16);
    let x = enc_membership(a);
    let y = enc_membership(b);
    assert(x.subrange(0, 2) =~= be16(a.len() as u16));
    assert(y.subrange(0, 2) =~= be16(b.len() as u16));
    assert(x.subrange(2, x.len() as int) =~= concat_map(a, |x: MemberBinding| enc_binding(x)));
    assert(y.subrange(2, y.len() as int) =~= concat_map(b, |x: MemberBinding| enc_binding(x)));
    lemma_bindings_unique(a, b);
}

/// Whether a binding's device is active in its account's cached identity log,
/// at a sequence number the log has reached.
pub open spec fn binding_authorized(cache: IdLogCache, b: MemberBinding) -> bool {
    match cache.lookup(b.account_fp) {
        Some(s) => device_active(s, b.device_key) && b.idlog_seq <= s.head_seq,
        None => false,
    }
}

impl GroupMembership {
    /// Validates every binding against the cached identity logs: each
    /// account's log must be cached, list the device key as active, and have
    /// reached the binding's sequence number. An `IdentityLog` error otherwise.
    pub fn validate(&self, log_cache: &IdLogCache) -> (r: Result<(), GhostError>)
        ensures
            r is Ok <==> forall|i: int| 0 <= i < self.bindings@.len() ==> binding_authorized(*log_cache, #[trigger] self.bindings@[i]),
            r matches Err(e) ==> e is IdentityLog,
    {
        let mut i: usize = 0;
        while i < self.bindings.len()
            invariant
                0 <= i <= self.bindings@.len(),
                forall|k: int| 0 <= k < i ==> binding_authorized(*log_cache, #[trigger] self.bindings@[k]),
            decreases self.bindings@.len() - i,
        {
            let b = &self.bindings[i];
            let state = match log_cache.get(&b.account_fp) {
                Some(s) => s,
                None => return Err(GhostError::IdentityLog("no identity log for account".to_string())),
            };
            let device = match state.device(&b.device_key) {
                Some(d) => d,
                None => return Err(GhostError::IdentityLog("device key not found in identity log".to_string())),
            };
            if !device.is_active() {
                return Err(GhostError::IdentityLog("device key was revoked".to_string()));
            }
            if b.idlog_seq > state.head_seq {
                return Err(GhostError::IdentityLog("binding idlog_seq exceeds log head".to_string()));
            }
            i = i + 1;
        }
        Ok(())
    }
}

} // verus!
