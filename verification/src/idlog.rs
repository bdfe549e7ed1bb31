//! Identity log state as the client caches it: which device keys an account's
//! log has authorized (and which it revoked), up to which sequence number, and
//! the in-memory cache of validated states, one per account. Group membership
//! bindings are checked against this cache.

use vstd::prelude::*;

use crate::codec::eq32;
use crate::error::GhostError;

verus! {

/// A device key an identity log added, and when it was revoked if it was.
pub struct DeviceInfo {
    pub verifying_key: [u8; 32],
    pub added_at_seq: u64,
    pub label: String,
    pub revoked_at_seq: Option<u64>,
}

impl DeviceInfo {
    /// A device is active until its log revokes it.
    pub fn is_active(&self) -> (r: bool)
        ensures
            r == self.revoked_at_seq is None,
    {
        self.revoked_at_seq.is_none()
    }
}

/// The state a validated identity log leads to, its devices keyed by
/// verifying key. They are held in a `Vec` (vstd specifies maps only for
/// integer-like keys, not for `[u8; 32]`), so the key map is read as the
/// first entry for a key. The fields are public (callers build states from
/// validated logs), which rules out a type invariant; a state whose keys are
/// all distinct (`devices_unique`) reads as the map it stands for, as
/// `law_device_entry_is_the_keys_entry` shows.
pub struct LogState {
    pub account_fp: [u8; 32],
    pub master_verifying_key: Option<[u8; 32]>,
    pub devices: Vec<DeviceInfo>,
    pub head_seq: u64,
    pub head_hash: [u8; 32],
}

/// The first device entry for `vk`.
pub open spec fn device_entry(devices: Seq<DeviceInfo>, vk: [u8; 32]) -> Option<DeviceInfo>
    decreases devices.len(),
{
    if devices.len() == 0 {
        None
    } else if devices[0].verifying_key == vk {
        Some(devices[0])
    } else {
        device_entry(devices.skip(1), vk)
    }
}

/// No verifying key is listed twice.
pub open spec fn devices_unique(devices: Seq<DeviceInfo>) -> bool {
    forall|i: int, j: int| 0 <= i < j < devices.len() ==>
        #[trigger] devices[i].verifying_key != #[trigger] devices[j].verifying_key
}

/// When no key is listed twice, the entry looked up for a key is the entry
/// listed for it, wherever it stands; and a key listed nowhere finds none.
pub proof fn law_device_entry_is_the_keys_entry(devices: Seq<DeviceInfo>, i: int, vk: [u8; 32])
    requires
        devices_unique(devices),
    ensures
        0 <= i < devices.len() && devices[i].verifying_key == vk ==> device_entry(devices, vk) == Some(devices[i]),
        (forall|k: int| 0 <= k < devices.len() ==> devices[k].verifying_key != vk) ==> device_entry(devices, vk) is None,
    decreases devices.len(),
{
    if devices.len() > 0 {
        let t = devices.skip(1);
        assert forall|a: int, b: int| 0 <= a < b < t.len() implies
            #[trigger] t[a].verifying_key != #[trigger] t[b].verifying_key by {
            assert(t[a] == devices[a + 1] && t[b] == devices[b + 1]);
        }
        law_device_entry_is_the_keys_entry(t, i - 1, vk);
        if 0 < i < devices.len() && devices[i].verifying_key == vk {
            assert(t[i - 1] == devices[i]);
            assert(devices[0].verifying_key != devices[i].verifying_key);
        }
        if forall|k: int| 0 <= k < devices.len() ==> devices[k].verifying_key != vk {
            assert forall|k: int| 0 <= k < t.len() implies t[k].verifying_key != vk by {
                assert(t[k] == devices[k + 1]);
            }
            assert(devices[0].verifying_key != vk);
        }
    }
}

/// Whether the log lists `vk` as an active device.
pub open spec fn device_active(s: LogState, vk: [u8; 32]) -> bool {
    device_entry(s.devices@, vk) matches Some(d) && d.revoked_at_seq is None
}

impl LogState {
    /// Finds the device entry for a verifying key.
    pub fn device(&self, vk: &[u8; 32]) -> (r: Option<&DeviceInfo>)
        ensures
            match r {
                Some(d) => device_entry(self.devices@, *vk) == Some(*d),
                None => device_entry(self.devices@, *vk) is None,
            },
    {
        let mut i: usize = 0;
        assert(self.devices@.skip(0) =~= self.devices@);
        while i < self.devices.len()
            invariant
                0 <= i <= self.devices@.len(),
                device_entry(self.devices@, *vk) == device_entry(self.devices@.skip(i as int), *vk),
            decreases self.devices@.len() - i,
        {
            let ghost rest = self.devices@.skip(i as int);
            assert(rest[0] == self.devices@[i as int]);
            if eq32(&self.devices[i].verifying_key, vk) {
                return Some(&self.devices[i]);
            }
            assert(rest.skip(1) =~= self.devices@.skip(i + 1));
            i = i + 1;
        }
        None
    }

    /// Whether the log lists `vk` as an active device (false for unknown keys).
    pub fn is_active_device(&self, vk: &[u8; 32]) -> (r: bool)
        ensures
            r == device_active(*self, *vk),
    {
        match self.device(vk) {
            Some(d) => d.is_active(),
            None => false,
        }
    }
}

/// The cached state of an account's log.
pub open spec fn log_entry(states: Seq<LogState>, fp: [u8; 32]) -> Option<LogState>
    decreases states.len(),
{
    if states.len() == 0 {
        None
    } else if states[0].account_fp == fp {
        Some(states[0])
    } else {
        log_entry(states.skip(1), fp)
    }
}

/// In-memory cache of validated identity log states, one per account.
///
/// The states sit in a `Vec` with the invariant that no account occurs twice,
/// not in a `HashMap` keyed by fingerprint: vstd specifies `HashMap` and
/// `BTreeMap` only for keys it knows to hash and compare by value (integers,
/// `bool` and boxes of them), and a `[u8; 32]` key would need that assumed.
pub struct IdLogCache {
    states: Vec<LogState>,
}

impl IdLogCache {
    /// No account is cached twice.
    pub closed spec fn wf(&self) -> bool {
        forall|i: int, j: int| 0 <= i < j < self.states@.len() ==>
            #[trigger] self.states@[i].account_fp != #[trigger] self.states@[j].account_fp
    }

    /// The cached state of an account, if any.
    pub closed spec fn lookup(&self, fp: [u8; 32]) -> Option<LogState> {
        log_entry(self.states@, fp)
    }

    pub fn new() -> (c: IdLogCache)
        ensures
            c.wf(),
            forall|fp: [u8; 32]| c.lookup(fp) is None,
    {
        IdLogCache { states: Vec::new() }
    }

    fn position(&self, fp: &[u8; 32]) -> (r: Option<usize>)
        ensures
            match r {
                Some(i) => i < self.states@.len() && self.states@[i as int].account_fp == *fp
                    && log_entry(self.states@, *fp) == Some(self.states@[i as int])
                    && forall|k: int| 0 <= k < i ==> self.states@[k].account_fp != *fp,
                None => log_entry(self.states@, *fp) is None
                    && forall|k: int| 0 <= k < self.states@.len() ==> self.states@[k].account_fp != *fp,
            },
    {
        let mut i: usize = 0;
        assert(self.states@.skip(0) =~= self.states@);
        while i < self.states.len()
            invariant
                0 <= i <= self.states@.len(),
                log_entry(self.states@, *fp) == log_entry(self.states@.skip(i as int), *fp),
                forall|k: int| 0 <= k < i ==> self.states@[k].account_fp != *fp,
            decreases self.states@.len() - i,
        {
            let ghost rest = self.states@.skip(i as int);
            assert(rest[0] == self.states@[i as int]);
            if eq32(&self.states[i].account_fp, fp) {
                return Some(i);
            }
            assert(rest.skip(1) =~= self.states@.skip(i + 1));
            i = i + 1;
        }
        None
    }

    /// Caches a validated state, replacing the account's previous one.
    pub fn insert(&mut self, state: LogState)
        requires
            old(self).wf(),
        ensures
            final(self).wf(),
            final(self).lookup(state.account_fp) == Some(state),
            forall|fp: [u8; 32]| fp != state.account_fp ==> final(self).lookup(fp) == old(self).lookup(fp),
    {
        let ghost old_states = self.states@;
        let ghost fp0 = state.account_fp;
        match self.position(&state.account_fp) {
            Some(i) => {
                self.states.set(i, state);
                proof {
                    lemma_log_entry_update(old_states, i as int, fp0, self.states@);
                }
            },
            None => {
                self.states.push(state);
                proof {
                    lemma_log_entry_push(old_states, self.states@);
                }
            },
        }
    }

    /// The cached state of an account.
    pub fn get(&self, account_fp: &[u8; 32]) -> (r: Option<&LogState>)
        ensures
            match r {
                Some(s) => self.lookup(*account_fp) == Some(*s),
                None => self.lookup(*account_fp) is None,
            },
    {
        match self.position(account_fp) {
            Some(i) => Some(&self.states[i]),
            None => None,
        }
    }

    /// Whether an account's cached log lists a device as active; an
    /// `IdentityLog` error when the account's log is not cached.
    pub fn is_active_device(&self, account_fp: &[u8; 32], device_vk: &[u8; 32]) -> (r: Result<bool, GhostError>)
        ensures
            match self.lookup(*account_fp) {
                Some(s) => r == Ok::<bool, GhostError>(device_active(s, *device_vk)),
                None => r matches Err(e) && e is IdentityLog,
            },
    {
        match self.get(account_fp) {
            Some(s) => Ok(s.is_active_device(device_vk)),
            None => Err(GhostError::IdentityLog("no cached identity log for account".to_string())),
        }
    }
}

proof fn lemma_log_entry_update(s: Seq<LogState>, i: int, fp: [u8; 32], t: Seq<LogState>)
    requires
        0 <= i < s.len(),
        s[i].account_fp == fp,
        forall|k: int| 0 <= k < i ==> s[k].account_fp != fp,
        t.len() == s.len(),
        t[i].account_fp == fp,
        forall|k: int| 0 <= k < s.len() && k != i ==> t[k] == s[k],
    ensures
        log_entry(t, fp) == Some(t[i]),
        forall|g: [u8; 32]| g != fp ==> log_entry(t, g) == log_entry(s, g),
    decreases i,
{
    if i > 0 {
        lemma_log_entry_update(s.skip(1), i - 1, fp, t.skip(1));
    }
    assert forall|g: [u8; 32]| g != fp implies log_entry(t, g) == log_entry(s, g) by {
        lemma_log_entry_same_except(s, t, i, g);
    }
}

proof fn lemma_log_entry_same_except(s: Seq<LogState>, t: Seq<LogState>, i: int, g: [u8; 32])
    requires
        0 <= i < s.len(),
        t.len() == s.len(),
        s[i].account_fp != g,
        t[i].account_fp != g,
        forall|k: int| 0 <= k < s.len() && k != i ==> t[k] == s[k],
    ensures
        log_entry(t, g) == log_entry(s, g),
    decreases s.len(),
{
    if s.len() > 0 && i > 0 && s[0].account_fp != g {
        lemma_log_entry_same_except(s.skip(1), t.skip(1), i - 1, g);
    } else if s.len() > 0 && i == 0 {
        assert(s.skip(1) =~= t.skip(1));
    }
}

proof fn lemma_log_entry_push(s: Seq<LogState>, t: Seq<LogState>)
    requires
        t.len() == s.len() + 1,
        forall|k: int| 0 <= k < s.len() ==> t[k] == s[k],
        forall|k: int| 0 <= k < s.len() ==> s[k].account_fp != t[s.len() as int].account_fp,
    ensures
        log_entry(t, t[s.len() as int].account_fp) == Some(t[s.len() as int]),
        forall|g: [u8; 32]| g != t[s.len() as int].account_fp ==> log_entry(t, g) == log_entry(s, g),
    decreases s.len(),
{
    let x = t[s.len() as int].account_fp;
    if s.len() > 0 {
        assert(t.skip(1)[s.len() - 1] == t[s.len() as int]);
        lemma_log_entry_push(s.skip(1), t.skip(1));
        assert forall|g: [u8; 32]| g != x implies log_entry(t, g) == log_entry(s, g) by {
            assert(t[0] == s[0]);
            if s[0].account_fp != g {
                assert(log_entry(t.skip(1), g) == log_entry(s.skip(1), g));
            }
        }
    } else {
        assert forall|g: [u8; 32]| g != x implies log_entry(t, g) == log_entry(s, g) by {
            assert(t.skip(1).len() == 0);
            assert(log_entry(t.skip(1), g) is None);
        }
    }
}

} // verus!
