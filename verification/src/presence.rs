//! Online presence: a member's availability status, optional status message,
//! expiry and avatar hash, with the plaintext format sealed into presence blobs.

use vstd::prelude::*;
use vstd::utf8::encode_utf8;

use crate::codec::{be64, copy32, fits, lemma_be64_of, lemma_be64_roundtrip, put_bytes, put_u64, u64_of_be};
use crate::aead::{open_blob, opened_blob, seal_blob, sealed_blob, AES_GCM_P_MAX};
use crate::error::GhostError;
use crate::text::{str_eq, utf8_bytes, utf8_decode};

verus! {

/// Online availability status, broadcast via encrypted presence blobs.
#[derive(Debug, Clone, Copy, PartialEq, Eq, Structural)]
pub enum OnlineStatus {
    Online,
    Idle,
    Away,
    Invisible,
}

impl OnlineStatus {
    /// The byte written on the wire.
    pub open spec fn byte(self) -> u8 {
        match self {
            OnlineStatus::Online => 0,
            OnlineStatus::Idle => 1,
            OnlineStatus::Away => 2,
            OnlineStatus::Invisible => 3,
        }
    }

    /// The status whose wire byte is `b`, if any.
    pub open spec fn of_byte(b: u8) -> Option<OnlineStatus> {
        if b == 0 {
            Some(OnlineStatus::Online)
        } else if b == 1 {
            Some(OnlineStatus::Idle)
        } else if b == 2 {
            Some(OnlineStatus::Away)
        } else if b == 3 {
            Some(OnlineStatus::Invisible)
        } else {
            None
        }
    }

    pub fn to_u8(self) -> (b: u8)
        ensures
            b == self.byte(),
    {
        match self {
            OnlineStatus::Online => 0,
            OnlineStatus::Idle => 1,
            OnlineStatus::Away => 2,
            OnlineStatus::Invisible => 3,
        }
    }

    pub fn try_from_u8(v: u8) -> (r: Result<OnlineStatus, GhostError>)
        ensures
            match r {
                Ok(s) => OnlineStatus::of_byte(v) == Some(s),
                Err(e) => OnlineStatus::of_byte(v) is None && e is Crypto,
            },
    {
        if v == 0 {
            Ok(OnlineStatus::Online)
        } else if v == 1 {
            Ok(OnlineStatus::Idle)
        } else if v == 2 {
            Ok(OnlineStatus::Away)
        } else if v == 3 {
            Ok(OnlineStatus::Invisible)
        } else {
            Err(GhostError::Crypto("invalid online status".to_string()))
        }
    }
}

/// The name shown for a status ("offline" for invisible members).
pub open spec fn status_name(s: OnlineStatus) -> Seq<char> {
    match s {
        OnlineStatus::Online => "online"@,
        OnlineStatus::Idle => "idle"@,
        OnlineStatus::Away => "away"@,
        OnlineStatus::Invisible => "offline"@,
    }
}

pub fn status_str(s: OnlineStatus) -> (r: &'static str)
    ensures
        r@ == status_name(s),
{
    match s {
        OnlineStatus::Online => "online",
        OnlineStatus::Idle => "idle",
        OnlineStatus::Away => "away",
        OnlineStatus::Invisible => "offline",
    }
}

/// The name by which a user picks a status.
pub open spec fn choice_name(s: OnlineStatus) -> Seq<char> {
    match s {
        OnlineStatus::Online => "online"@,
        OnlineStatus::Idle => "idle"@,
        OnlineStatus::Away => "away"@,
        OnlineStatus::Invisible => "invisible"@,
    }
}

/// The status a user picks by its name; `None` for any other name.
pub fn status_from_choice(name: &str) -> (r: Option<OnlineStatus>)
    ensures
        r matches Some(s) ==> choice_name(s) == name@,
        r is None ==> forall|s: OnlineStatus| choice_name(s) != name@,
{
    proof {
        reveal_strlit("online");
        reveal_strlit("idle");
        reveal_strlit("away");
        reveal_strlit("invisible");
    }
    if str_eq(name, "online") {
        Some(OnlineStatus::Online)
    } else if str_eq(name, "idle") {
        Some(OnlineStatus::Idle)
    } else if str_eq(name, "away") {
        Some(OnlineStatus::Away)
    } else if str_eq(name, "invisible") {
        Some(OnlineStatus::Invisible)
    } else {
        None
    }
}

/// A status the user picks is remembered (in the configuration and across
/// devices) unless it is idle, which the client sets and clears by itself.
pub fn status_is_remembered(s: OnlineStatus) -> (r: bool)
    ensures
        r == (s != OnlineStatus::Idle),
{
    s != OnlineStatus::Idle
}

/// Each status has its own name: picking by the name of `s` gives `s` back.
pub proof fn law_status_choice_roundtrip(s: OnlineStatus, t: OnlineStatus)
    ensures
        choice_name(t) == choice_name(s) ==> t == s,
{
    reveal_strlit("online");
    reveal_strlit("idle");
    reveal_strlit("away");
    reveal_strlit("invisible");
    if choice_name(t) == choice_name(s) {
        assert(choice_name(t).len() == choice_name(s).len());
        assert(choice_name(t)[0] == choice_name(s)[0]);
    }
}

/// A status's wire byte agrees with the name a user picks it by: 0 online,
/// 1 idle, 2 away, 3 invisible; and a byte reads back as the status written
/// with it.
pub proof fn law_online_status_wire_matches_name(s: OnlineStatus, b: u8)
    ensures
        (s.byte() == 0) == (choice_name(s) == "online"@),
        (s.byte() == 1) == (choice_name(s) == "idle"@),
        (s.byte() == 2) == (choice_name(s) == "away"@),
        (s.byte() == 3) == (choice_name(s) == "invisible"@),
        OnlineStatus::of_byte(b) matches Some(t) ==> t.byte() == b,
        OnlineStatus::of_byte(b) is Some == (b <= 3),
        OnlineStatus::of_byte(1) == Some(OnlineStatus::Idle),
        OnlineStatus::of_byte(2) == Some(OnlineStatus::Away),
        choice_name(OnlineStatus::Away) == "away"@,
{
    reveal_strlit("online");
    reveal_strlit("idle");
    reveal_strlit("away");
    reveal_strlit("invisible");
    assert("idle"@[0] != "away"@[0]);
    assert("online"@.len() == 6 && "idle"@.len() == 4 && "away"@.len() == 4 && "invisible"@.len() == 9);
}

/// Reading back the byte of a status gives the status; only its own byte does.
pub proof fn law_online_status_byte(s: OnlineStatus, b: u8)
    ensures
        OnlineStatus::of_byte(s.byte()) == Some(s),
        OnlineStatus::of_byte(b) == Some(s) ==> s.byte() == b,
{
}

/// Online presence state, encrypted and broadcast server-wide.
#[derive(Debug, Clone, PartialEq, Eq)]
pub struct OnlinePresence {
    pub fingerprint: [u8; 32],
    pub status: OnlineStatus,
    pub status_message: Option<String>,
    pub status_expiry: Option<u64>,
    pub avatar_hash: Option<[u8; 32]>,
}

/// The abstract value of an [`OnlinePresence`].
pub struct OnlinePresenceView {
    pub fingerprint: [u8; 32],
    pub status: OnlineStatus,
    pub status_message: Option<Seq<char>>,
    pub status_expiry: Option<u64>,
    pub avatar_hash: Option<[u8; 32]>,
}

impl View for OnlinePresence {
    type V = OnlinePresenceView;

    open spec fn view(&self) -> OnlinePresenceView {
        OnlinePresenceView {
            fingerprint: self.fingerprint,
            status: self.status,
            status_message: match self.status_message {
                Some(m) => Some(m@),
                None => None,
            },
            status_expiry: self.status_expiry,
            avatar_hash: self.avatar_hash,
        }
    }
}

pub const FLAG_HAS_MESSAGE: u8 = 0x01u8;
pub const FLAG_HAS_EXPIRY: u8 = 0x02u8;
pub const FLAG_HAS_AVATAR_HASH: u8 = 0x04u8;

/// Little-endian bytes of a `u16` (the status message length is little-endian).
pub open spec fn le16(v: u16) -> Seq<u8> {
    seq![v as u8, (v >> 8u16) as u8]
}

/// The `u16` whose little-endian bytes are `b[0..2]`.
pub open spec fn u16_of_le(b: Seq<u8>) -> u16 {
    ((b[0] as u16) | ((b[1] as u16) << 8u16)) as u16
}

proof fn lemma_le16_roundtrip(v: u16)
    ensures
        u16_of_le(le16(v)) == v,
{
    let b0 = v as u8;
    let b1 = (v >> 8u16) as u8;
    assert(((b0 as u16) | ((b1 as u16) << 8u16)) as u16 == v) by (bit_vector)
        requires
            b0 == v as u8,
            b1 == (v >> 8u16) as u8,
    ;
}

/// The flag byte a presence is written with.
pub open spec fn flags_of(p: OnlinePresenceView) -> u8 {
    ((if p.status_message is Some { 1u8 } else { 0u8 }) | (if p.status_expiry is Some { 2u8 } else { 0u8 })
        | (if p.avatar_hash is Some { 4u8 } else { 0u8 })) as u8
}

/// Whether flag byte `f` announces exactly the optional fields `p` has (other bits are ignored).
pub open spec fn flags_announce(f: u8, p: OnlinePresenceView) -> bool {
    &&& ((f & FLAG_HAS_MESSAGE) != 0) == (p.status_message is Some)
    &&& ((f & FLAG_HAS_EXPIRY) != 0) == (p.status_expiry is Some)
    &&& ((f & FLAG_HAS_AVATAR_HASH) != 0) == (p.avatar_hash is Some)
}

/// How many bytes of the status message are written: at most 65535.
pub open spec fn message_written_len(c: Seq<char>) -> int {
    if encode_utf8(c).len() <= 0xffff { encode_utf8(c).len() as int } else { 0xffff }
}

/// The status-message part of the fields.
#[verifier::opaque]
pub open spec fn msg_part(m: Option<Seq<char>>) -> Seq<u8> {
    match m {
        Some(c) => le16(message_written_len(c) as u16) + encode_utf8(c).take(message_written_len(c)),
        None => Seq::empty(),
    }
}

/// The expiry part of the fields.
#[verifier::opaque]
pub open spec fn expiry_part(e: Option<u64>) -> Seq<u8> {
    match e {
        Some(x) => be64(x),
        None => Seq::empty(),
    }
}

/// The avatar-hash part of the fields.
#[verifier::opaque]
pub open spec fn avatar_part(a: Option<[u8; 32]>) -> Seq<u8> {
    match a {
        Some(h) => h@,
        None => Seq::empty(),
    }
}

/// Wire bytes of the optional fields, in order: message, expiry, avatar hash.
pub open spec fn enc_presence_fields(p: OnlinePresenceView) -> Seq<u8> {
    msg_part(p.status_message) + (expiry_part(p.status_expiry) + avatar_part(p.avatar_hash))
}

/// Wire bytes of a presence written with flag byte `f`.
pub open spec fn enc_presence_with(p: OnlinePresenceView, f: u8) -> Seq<u8> {
    p.fingerprint@ + seq![p.status.byte(), f] + enc_presence_fields(p)
}

/// A status message that fits its two-byte length.
pub open spec fn message_fits(m: Option<Seq<char>>) -> bool {
    match m {
        Some(c) => encode_utf8(c).len() <= 0xffff,
        None => true,
    }
}

/// A presence whose status message fits its two-byte length.
pub open spec fn presence_fits(p: OnlinePresenceView) -> bool {
    message_fits(p.status_message)
}

proof fn lemma_flags_of(p: OnlinePresenceView)
    ensures
        flags_announce(flags_of(p), p),
{
    let m = p.status_message is Some;
    let e = p.status_expiry is Some;
    let a = p.avatar_hash is Some;
    let x: u8 = if m { 1u8 } else { 0u8 };
    let y: u8 = if e { 2u8 } else { 0u8 };
    let z: u8 = if a { 4u8 } else { 0u8 };
    assert((((x | y | z) as u8 & 1u8) != 0) == (x == 1u8)
        && (((x | y | z) as u8 & 2u8) != 0) == (y == 2u8)
        && (((x | y | z) as u8 & 4u8) != 0) == (z == 4u8)) by (bit_vector)
        requires
            x == 0u8 || x == 1u8,
            y == 0u8 || y == 2u8,
            z == 0u8 || z == 4u8,
    ;
}

impl OnlinePresence {
    #[verifier::spinoff_prover]
    #[verifier::rlimit(40)]
    pub fn to_bytes(&self) -> (out: Vec<u8>)
        ensures
            out@ == enc_presence_with(self@, flags_of(self@)),
    {
        let mut buf: Vec<u8> = Vec::new();
        put_bytes(&mut buf, &self.fingerprint);
        buf.push(self.status.to_u8());
        let m: u8 = if self.status_message.is_some() { 1u8 } else { 0u8 };
        let e: u8 = if self.status_expiry.is_some() { 2u8 } else { 0u8 };
        let a: u8 = if self.avatar_hash.is_some() { 4u8 } else { 0u8 };
        let flags: u8 = m | e | a;
        buf.push(flags);
        let ghost head = buf@;
        match &self.status_message {
            Some(msg) => {
                let bytes = utf8_bytes(msg.as_str());
                let len: usize = if bytes.len() <= 0xffff { bytes.len() } else { 0xffff };
                let l16 = len as u16;
                buf.push(l16 as u8);
                buf.push((l16 >> 8u16) as u8);
                put_bytes(&mut buf, vstd::slice::slice_subrange(bytes, 0, len));
            },
            None => {},
        }
        let ghost after_msg = buf@;
        match self.status_expiry {
            Some(expiry) => put_u64(&mut buf, expiry),
            None => {},
        }
        let ghost after_exp = buf@;
        match &self.avatar_hash {
            Some(hash) => put_bytes(&mut buf, hash),
            None => {},
        }
        proof {
            reveal(msg_part);
        reveal(expiry_part);
        reveal(avatar_part);
            let p = self@;
            assert(after_msg =~= head + msg_part(p.status_message));
            assert(after_exp =~= after_msg + expiry_part(p.status_expiry));
            assert(buf@ =~= after_exp + avatar_part(p.avatar_hash));
            assert(buf@ =~= enc_presence_with(p, flags_of(p)));
        }
        buf
    }
}

} // verus!

verus! {

/// The view of an optional string.
pub open spec fn opt_str_view(m: Option<String>) -> Option<Seq<char>> {
    match m {
        Some(s) => Some(s@),
        None => None,
    }
}

/// A fitting status message is determined by its encoding, whatever follows.
proof fn lemma_msg_part_unique(a: Option<Seq<char>>, b: Option<Seq<char>>, t1: Seq<u8>, t2: Seq<u8>)
    requires
        a is Some == b is Some,
        message_fits(a),
        message_fits(b),
        msg_part(a) + t1 == msg_part(b) + t2,
    ensures
        a == b,
        t1 == t2,
{
    reveal(msg_part);
    reveal(expiry_part);
    reveal(avatar_part);
    if a is Some {
        let ca = a->0;
        let cb = b->0;
        let la = encode_utf8(ca).len();
        let lb = encode_utf8(cb).len();
        let x = msg_part(a) + t1;
        let y = msg_part(b) + t2;
        lemma_le16_roundtrip(la as u16);
        lemma_le16_roundtrip(lb as u16);
        assert(encode_utf8(ca).take(la as int) =~= encode_utf8(ca));
        assert(encode_utf8(cb).take(lb as int) =~= encode_utf8(cb));
        assert(x.subrange(0, 2) =~= le16(la as u16));
        assert(y.subrange(0, 2) =~= le16(lb as u16));
        assert(x.subrange(2, 2 + la as int) =~= encode_utf8(ca));
        assert(y.subrange(2, 2 + lb as int) =~= encode_utf8(cb));
        crate::codec::lemma_utf8_injective(ca, cb);
        assert(t1 =~= x.subrange(2 + la as int, x.len() as int));
        assert(t2 =~= y.subrange(2 + lb as int, y.len() as int));
    } else {
        assert(msg_part(a) + t1 =~= t1);
        assert(msg_part(b) + t2 =~= t2);
    }
}

/// An expiry is determined by its encoding, whatever follows.
proof fn lemma_expiry_part_unique(a: Option<u64>, b: Option<u64>, t1: Seq<u8>, t2: Seq<u8>)
    requires
        a is Some == b is Some,
        expiry_part(a) + t1 == expiry_part(b) + t2,
    ensures
        a == b,
        t1 == t2,
{
    reveal(msg_part);
    reveal(expiry_part);
    reveal(avatar_part);
    let x = expiry_part(a) + t1;
    let y = expiry_part(b) + t2;
    if a is Some {
        assert(x.subrange(0, 8) =~= be64(a->0));
        assert(y.subrange(0, 8) =~= be64(b->0));
        lemma_be64_roundtrip(a->0);
        lemma_be64_roundtrip(b->0);
        assert(t1 =~= x.subrange(8, x.len() as int));
        assert(t2 =~= y.subrange(8, y.len() as int));
    } else {
        assert(x =~= t1);
        assert(y =~= t2);
    }
}

/// An avatar hash is determined by its encoding, whatever follows.
proof fn lemma_avatar_part_unique(a: Option<[u8; 32]>, b: Option<[u8; 32]>, t1: Seq<u8>, t2: Seq<u8>)
    requires
        a is Some == b is Some,
        avatar_part(a) + t1 == avatar_part(b) + t2,
    ensures
        a == b,
        t1 == t2,
{
    reveal(msg_part);
    reveal(expiry_part);
    reveal(avatar_part);
    let x = avatar_part(a) + t1;
    let y = avatar_part(b) + t2;
    if a is Some {
        assert(x.subrange(0, 32) =~= a->0@);
        assert(y.subrange(0, 32) =~= b->0@);
        crate::codec::lemma_arr32_eq(a->0, b->0);
        assert(t1 =~= x.subrange(32, x.len() as int));
        assert(t2 =~= y.subrange(32, y.len() as int));
    } else {
        assert(x =~= t1);
        assert(y =~= t2);
    }
}

/// Reads the status message at `*pos` when `present`.
fn read_opt_message(data: &[u8], pos: &mut usize, present: bool) -> (r: Result<Option<String>, GhostError>)
    requires
        *old(pos) <= data@.len(),
    ensures
        match r {
            Ok(m) => {
                &&& (m is Some) == present
                &&& message_fits(opt_str_view(m))
                &&& *old(pos) <= *final(pos) <= data@.len()
                &&& data@.subrange(*old(pos) as int, *final(pos) as int) == msg_part(opt_str_view(m))
            },
            Err(e) => e is Crypto && present && !exists|c: Seq<char>, t: Seq<u8>|
                message_fits(Some(c)) && crate::codec::rest(data@, *old(pos) as int) == msg_part(Some(c)) + t,
        },
{
    proof {
        reveal(msg_part);
        reveal(expiry_part);
        reveal(avatar_part);
    }
    if !present {
        assert(data@.subrange(*pos as int, *pos as int) =~= Seq::<u8>::empty());
        return Ok(None);
    }
    let ghost p0 = *pos as int;
    let ghost has = exists|c: Seq<char>, t: Seq<u8>|
        message_fits(Some(c)) && crate::codec::rest(data@, p0) == msg_part(Some(c)) + t;
    let ghost (wc, wt) = choose|c: Seq<char>, t: Seq<u8>|
        message_fits(Some(c)) && crate::codec::rest(data@, p0) == msg_part(Some(c)) + t;
    proof {
        if has {
            let l = encode_utf8(wc).len();
            lemma_le16_roundtrip(l as u16);
            assert(encode_utf8(wc).take(l as int) =~= encode_utf8(wc));
            assert(msg_part(Some(wc)) + wt =~= le16(l as u16) + (encode_utf8(wc) + wt));
            crate::codec::lemma_take(data@, p0, le16(l as u16), encode_utf8(wc) + wt);
        }
    }
    let offset = *pos;
    if data.len() - offset < 2 {
        return Err(GhostError::Crypto("truncated message length".to_string()));
    }
    let len = ((data[offset] as u16) | ((data[offset + 1] as u16) << 8u16)) as usize;
    assert(len == u16_of_le(data@.subrange(p0, p0 + 2)));
    proof {
        if has {
            crate::codec::lemma_take(data@, p0 + 2, encode_utf8(wc), wt);
        }
    }
    if data.len() - (offset + 2) < len {
        return Err(GhostError::Crypto("truncated message body".to_string()));
    }
    let bytes = vstd::slice::slice_subrange(data, offset + 2, offset + 2 + len);
    let msg = match utf8_decode(bytes) {
        Some(s) => s,
        None => {
            proof {
                if has {
                    crate::text::lemma_utf8_roundtrip(wc);
                }
            }
            return Err(GhostError::Crypto("invalid utf8 in status message".to_string()));
        },
    };
    proof {
        crate::text::lemma_utf8_decode_encode(bytes@);
        let b0 = data@[p0];
        let b1 = data@[p0 + 1];
        let l16 = len as u16;
        assert(l16 as u8 == b0 && (l16 >> 8u16) as u8 == b1) by (bit_vector)
            requires
                l16 == ((b0 as u16) | ((b1 as u16) << 8u16)) as u16,
        ;
        assert(encode_utf8(msg@).take(len as int) =~= encode_utf8(msg@));
        assert(data@.subrange(p0, p0 + 2 + len) =~= msg_part(Some(msg@)));
    }
    *pos = offset + 2 + len;
    Ok(Some(msg))
}

/// Reads the expiry at `*pos` when `present`.
fn read_opt_expiry(data: &[u8], pos: &mut usize, present: bool) -> (r: Result<Option<u64>, GhostError>)
    requires
        *old(pos) <= data@.len(),
    ensures
        match r {
            Ok(e) => {
                &&& (e is Some) == present
                &&& *old(pos) <= *final(pos) <= data@.len()
                &&& data@.subrange(*old(pos) as int, *final(pos) as int) == expiry_part(e)
            },
            Err(e) => e is Crypto && present && !exists|x: u64, t: Seq<u8>|
                crate::codec::rest(data@, *old(pos) as int) == expiry_part(Some(x)) + t,
        },
{
    proof {
        reveal(msg_part);
        reveal(expiry_part);
        reveal(avatar_part);
    }
    if !present {
        assert(data@.subrange(*pos as int, *pos as int) =~= Seq::<u8>::empty());
        return Ok(None);
    }
    let o = *pos;
    if data.len() - o < 8 {
        proof {
            assert forall|x: u64, t: Seq<u8>| crate::codec::rest(data@, o as int) != expiry_part(Some(x)) + t by {
                if crate::codec::rest(data@, o as int) == expiry_part(Some(x)) + t {
                    crate::codec::lemma_take(data@, o as int, be64(x), t);
                }
            }
        }
        return Err(GhostError::Crypto("truncated expiry".to_string()));
    }
    let expiry = ((data[o] as u64) << 56u64) | ((data[o + 1] as u64) << 48u64)
        | ((data[o + 2] as u64) << 40u64) | ((data[o + 3] as u64) << 32u64)
        | ((data[o + 4] as u64) << 24u64) | ((data[o + 5] as u64) << 16u64)
        | ((data[o + 6] as u64) << 8u64) | (data[o + 7] as u64);
    assert(expiry == u64_of_be(data@.subrange(o as int, o + 8)));
    proof {
        lemma_be64_of(data@.subrange(o as int, o + 8));
    }
    *pos = o + 8;
    Ok(Some(expiry))
}

/// Reads the avatar hash at `*pos` when `present`.
fn read_opt_avatar(data: &[u8], pos: &mut usize, present: bool) -> (r: Result<Option<[u8; 32]>, GhostError>)
    requires
        *old(pos) <= data@.len(),
    ensures
        match r {
            Ok(a) => {
                &&& (a is Some) == present
                &&& *old(pos) <= *final(pos) <= data@.len()
                &&& data@.subrange(*old(pos) as int, *final(pos) as int) == avatar_part(a)
            },
            Err(e) => e is Crypto && present && !exists|h: [u8; 32], t: Seq<u8>|
                crate::codec::rest(data@, *old(pos) as int) == avatar_part(Some(h)) + t,
        },
{
    proof {
        reveal(msg_part);
        reveal(expiry_part);
        reveal(avatar_part);
    }
    if !present {
        assert(data@.subrange(*pos as int, *pos as int) =~= Seq::<u8>::empty());
        return Ok(None);
    }
    let o = *pos;
    if data.len() - o < 32 {
        proof {
            assert forall|h: [u8; 32], t: Seq<u8>| crate::codec::rest(data@, o as int) != avatar_part(Some(h)) + t by {
                if crate::codec::rest(data@, o as int) == avatar_part(Some(h)) + t {
                    crate::codec::lemma_take(data@, o as int, h@, t);
                }
            }
        }
        return Err(GhostError::Crypto("truncated avatar hash".to_string()));
    }
    let hash = copy32(data, o);
    *pos = o + 32;
    Ok(Some(hash))
}

impl OnlinePresence {
    /// Parses a presence; bytes after the last announced field are ignored, as
    /// are flag bits other than the three defined ones. Succeeds exactly when the
    /// bytes start with the encoding of a fitting presence under their own flag byte.
    pub fn from_bytes(data: &[u8]) -> (r: Result<OnlinePresence, GhostError>)
        ensures
            match r {
                Ok(p) => presence_fits(p@) && data@.len() >= 34 && flags_announce(data@[33], p@)
                    && exists|t: Seq<u8>| data@ == enc_presence_with(p@, data@[33]) + t,
                Err(e) => e is Crypto && !exists|v: OnlinePresenceView, f: u8, t: Seq<u8>|
                    presence_fits(v) && flags_announce(f, v) && data@ == enc_presence_with(v, f) + t,
            },
    {
        let ghost has = exists|v: OnlinePresenceView, f: u8, t: Seq<u8>|
            presence_fits(v) && flags_announce(f, v) && data@ == enc_presence_with(v, f) + t;
        let ghost (w, wf, wt) = choose|v: OnlinePresenceView, f: u8, t: Seq<u8>|
            presence_fits(v) && flags_announce(f, v) && data@ == enc_presence_with(v, f) + t;
        let ghost t_msg = expiry_part(w.status_expiry) + (avatar_part(w.avatar_hash) + wt);
        let ghost t_exp = avatar_part(w.avatar_hash) + wt;
        proof {
            if has {
                assert(data@ =~= w.fingerprint@ + (seq![w.status.byte(), wf] + (msg_part(w.status_message) + t_msg)));
                assert(data@.subrange(0, 32) =~= w.fingerprint@);
                assert(data@[32] == w.status.byte());
                assert(data@[33] == wf);
                assert(crate::codec::rest(data@, 34) =~= msg_part(w.status_message) + t_msg);
            }
        }
        if data.len() < 34 {
            return Err(GhostError::Crypto("online presence too short".to_string()));
        }
        let fingerprint = copy32(data, 0);
        let status = match OnlineStatus::try_from_u8(data[32]) {
            Ok(s) => s,
            Err(e) => {
                proof {
                    if has {
                        law_online_status_byte(w.status, data@[32]);
                    }
                }
                return Err(e);
            },
        };
        let flags = data[33];
        let mut offset: usize = 34;
        let status_message = match read_opt_message(data, &mut offset, flags & FLAG_HAS_MESSAGE != 0) {
            Ok(m) => m,
            Err(e) => {
                proof {
                    if has {
                        assert(crate::codec::rest(data@, 34) == msg_part(Some(w.status_message->0)) + t_msg);
                    }
                }
                return Err(e);
            },
        };
        let ghost o1 = offset as int;
        proof {
            crate::codec::lemma_rest_split(data@, 34, o1);
            if has {
                lemma_msg_part_unique(opt_str_view(status_message), w.status_message, crate::codec::rest(data@, o1), t_msg);
            }
        }
        let status_expiry = match read_opt_expiry(data, &mut offset, flags & FLAG_HAS_EXPIRY != 0) {
            Ok(e) => e,
            Err(e) => {
                proof {
                    if has {
                        assert(crate::codec::rest(data@, o1) == expiry_part(Some(w.status_expiry->0)) + t_exp);
                    }
                }
                return Err(e);
            },
        };
        let ghost o2 = offset as int;
        proof {
            crate::codec::lemma_rest_split(data@, o1, o2);
            if has {
                lemma_expiry_part_unique(status_expiry, w.status_expiry, crate::codec::rest(data@, o2), t_exp);
            }
        }
        let avatar_hash = match read_opt_avatar(data, &mut offset, flags & FLAG_HAS_AVATAR_HASH != 0) {
            Ok(a) => a,
            Err(e) => {
                proof {
                    if has {
                        assert(crate::codec::rest(data@, o2) == avatar_part(Some(w.avatar_hash->0)) + wt);
                    }
                }
                return Err(e);
            },
        };
        let p = OnlinePresence { fingerprint, status, status_message, status_expiry, avatar_hash };
        proof {
            crate::codec::lemma_rest_split(data@, o2, offset as int);
            let v = p@;
            assert(v.status_message == opt_str_view(status_message));
            assert(data@.subrange(0, 32) =~= fingerprint@);
            assert(data@ =~= data@.subrange(0, 34) + crate::codec::rest(data@, 34));
            assert(data@.subrange(0, 34) =~= fingerprint@ + seq![status.byte(), flags]);
            assert(data@ =~= enc_presence_with(v, flags) + crate::codec::rest(data@, offset as int));
        }
        Ok(p)
    }
}

/// A fitting presence is determined by its encoding under an announcing flag
/// byte, whatever follows. So `from_bytes` reads back what `to_bytes` wrote.
pub proof fn law_presence_encoding_injective(a: OnlinePresenceView, b: OnlinePresenceView, fa: u8, fb: u8, t1: Seq<u8>, t2: Seq<u8>)
    requires
        presence_fits(a),
        presence_fits(b),
        flags_announce(fa, a),
        flags_announce(fb, b),
        enc_presence_with(a, fa) + t1 == enc_presence_with(b, fb) + t2,
    ensures
        a == b,
        fa == fb,
{
    let x = enc_presence_with(a, fa) + t1;
    let y = enc_presence_with(b, fb) + t2;
    assert(x.subrange(0, 32) =~= a.fingerprint@);
    assert(y.subrange(0, 32) =~= b.fingerprint@);
    crate::codec::lemma_arr32_eq(a.fingerprint, b.fingerprint);
    assert(x[32] == a.status.byte() && y[32] == b.status.byte());
    law_online_status_byte(a.status, b.status.byte());
    assert(x[33] == fa && y[33] == fb);
    let ea = expiry_part(a.status_expiry) + (avatar_part(a.avatar_hash) + t1);
    let eb = expiry_part(b.status_expiry) + (avatar_part(b.avatar_hash) + t2);
    assert(x.subrange(34, x.len() as int) =~= msg_part(a.status_message) + ea);
    assert(y.subrange(34, y.len() as int) =~= msg_part(b.status_message) + eb);
    lemma_msg_part_unique(a.status_message, b.status_message, ea, eb);
    lemma_expiry_part_unique(a.status_expiry, b.status_expiry, avatar_part(a.avatar_hash) + t1, avatar_part(b.avatar_hash) + t2);
    lemma_avatar_part_unique(a.avatar_hash, b.avatar_hash, t1, t2);
}

/// Drops a status message whose expiry has passed at `now_ms`.
pub fn filter_expired_status(ps: &mut OnlinePresence, now_ms: u64)
    ensures
        match old(ps).status_expiry {
            Some(exp) => if now_ms >= exp {
                &&& final(ps).status_message is None
                &&& final(ps).status_expiry is None
                &&& final(ps).fingerprint == old(ps).fingerprint
                &&& final(ps).status == old(ps).status
                &&& final(ps).avatar_hash == old(ps).avatar_hash
            } else {
                *final(ps) == *old(ps)
            },
            None => *final(ps) == *old(ps),
        },
{
    if let Some(exp) = ps.status_expiry {
        if now_ms >= exp {
            ps.status_message = None;
            ps.status_expiry = None;
        }
    }
}

proof fn lemma_presence_len(p: OnlinePresenceView, f: u8)
    ensures
        enc_presence_with(p, f).len() <= 34 + 2 + 0xffff + 8 + 32,
{
    reveal(msg_part);
    reveal(expiry_part);
    reveal(avatar_part);
    match p.status_message {
        Some(c) => {
            assert(msg_part(p.status_message).len() == 2 + message_written_len(c));
        },
        None => {},
    }
}

/// Encrypts an online presence blob. Wire format: [nonce:12][ciphertext+tag].
/// Never fails: the encoded presence is always within AES-GCM's limit.
pub fn seal_online_presence(key: &[u8; 32], state: &OnlinePresence) -> (r: Result<Vec<u8>, GhostError>)
    ensures
        r matches Ok(b) && sealed_blob(key@, enc_presence_with(state@, flags_of(state@)), b@),
{
    let plaintext = state.to_bytes();
    proof {
        lemma_presence_len(state@, flags_of(state@));
    }
    assert(plaintext@.len() <= AES_GCM_P_MAX);
    match seal_blob(key, plaintext.as_slice()) {
        Some(b) => Ok(b),
        None => Err(GhostError::Crypto("online presence seal failed".to_string())),
    }
}

/// Whether `pt` starts with the encoding of a fitting presence under its own flag byte.
pub open spec fn presence_parses(pt: Seq<u8>) -> bool {
    exists|v: OnlinePresenceView, f: u8, t: Seq<u8>|
        presence_fits(v) && flags_announce(f, v) && pt == enc_presence_with(v, f) + t
}

/// Decrypts an online presence blob of at least 28 bytes and parses it.
pub fn open_online_presence(key: &[u8; 32], blob: &[u8]) -> (r: Result<OnlinePresence, GhostError>)
    ensures
        match r {
            Ok(p) => opened_blob(key@, blob@, 28) matches Some(pt) && presence_fits(p@) && pt.len() >= 34
                && flags_announce(pt[33], p@)
                && exists|t: Seq<u8>| pt == enc_presence_with(p@, pt[33]) + t,
            Err(e) => e is Crypto && match opened_blob(key@, blob@, 28) {
                Some(pt) => !presence_parses(pt),
                None => true,
            },
        },
{
    if blob.len() < 28 {
        return Err(GhostError::Crypto("online presence blob too short".to_string()));
    }
    match open_blob(key, blob, 28) {
        Some(pt) => OnlinePresence::from_bytes(pt.as_slice()),
        None => Err(GhostError::Crypto("online presence open: auth failed".to_string())),
    }
}

/// Opening a sealed online presence blob under the same key gives back the
/// sealed presence (when its status message fits its two-byte length).
pub proof fn law_online_presence_seal_open(key: Seq<u8>, s: OnlinePresenceView, blob: Seq<u8>, q: OnlinePresenceView)
    requires
        presence_fits(s),
        sealed_blob(key, enc_presence_with(s, flags_of(s)), blob),
        opened_blob(key, blob, 28) matches Some(pt) && presence_fits(q) && pt.len() >= 34
            && flags_announce(pt[33], q)
            && exists|t: Seq<u8>| pt == enc_presence_with(q, pt[33]) + t,
    ensures
        q == s,
{
    let pt = enc_presence_with(s, flags_of(s));
    let t = choose|t: Seq<u8>| pt == enc_presence_with(q, pt[33]) + t;
    lemma_flags_of(s);
    assert(pt == enc_presence_with(s, flags_of(s)) + Seq::<u8>::empty());
    law_presence_encoding_injective(q, s, pt[33], flags_of(s), t, Seq::<u8>::empty());
}

/// Whether `blob` opens under `key` to an online presence of the member `fp`.
pub open spec fn online_presence_opens_as(key: Seq<u8>, blob: Seq<u8>, fp: [u8; 32]) -> bool {
    opened_blob(key, blob, 28) matches Some(pt) && presence_parses(pt) && pt.subrange(0, 32) == fp@
}

/// Trial-decrypts an online presence blob with each member's key, given as
/// (fingerprint, key) in member order: the first member whose key opens the
/// blob to a presence carrying that member's fingerprint. `Crypto` error when
/// none does.
pub fn try_open_online_presence(member_keys: &[([u8; 32], [u8; 32])], blob: &[u8]) -> (r: Result<OnlinePresence, GhostError>)
    ensures
        match r {
            Ok(p) => exists|i: int| 0 <= i < member_keys@.len() && {
                let (fp, key) = #[trigger] member_keys@[i];
                &&& online_presence_opens_as(key@, blob@, fp)
                &&& (forall|j: int| 0 <= j < i ==> !online_presence_opens_as(member_keys@[j].1@, blob@, member_keys@[j].0))
                &&& p.fingerprint == fp
                &&& opened_blob(key@, blob@, 28) matches Some(pt) && presence_fits(p@)
                    && exists|t: Seq<u8>| pt == enc_presence_with(p@, pt[33]) + t
            },
            Err(e) => e is Crypto && forall|i: int| 0 <= i < member_keys@.len() ==>
                !online_presence_opens_as((#[trigger] member_keys@[i]).1@, blob@, member_keys@[i].0),
        },
{
    let mut i: usize = 0;
    while i < member_keys.len()
        invariant
            0 <= i <= member_keys@.len(),
            forall|j: int| 0 <= j < i ==> !online_presence_opens_as((#[trigger] member_keys@[j]).1@, blob@, member_keys@[j].0),
        decreases member_keys@.len() - i,
    {
        let (fp, key) = member_keys[i];
        let ghost opened = opened_blob(key@, blob@, 28);
        match open_online_presence(&key, blob) {
            Ok(state) => {
                proof {
                    let pt = opened->0;
                    let t = choose|t: Seq<u8>| pt == enc_presence_with(state@, pt[33]) + t;
                    assert(pt.subrange(0, 32) =~= state.fingerprint@);
                    assert(presence_parses(pt));
                }
                if crate::codec::eq32(&state.fingerprint, &fp) {
                    assert(member_keys@[i as int] == (fp, key));
                    return Ok(state);
                }
            },
            Err(_) => {},
        }
        i = i + 1;
    }
    Err(GhostError::Crypto("no member key decrypts this online presence blob".to_string()))
}

/// In a presence blob's plaintext, the byte after the fingerprint is the
/// status: whatever follows, it is 1 exactly for an idle member and 2 exactly
/// for an away one, so a decoder that accepts the bytes reads that status.
pub proof fn law_presence_status_on_wire(v: OnlinePresenceView, f: u8, t: Seq<u8>)
    ensures
        (enc_presence_with(v, f) + t)[32] == v.status.byte(),
        ((enc_presence_with(v, f) + t)[32] == 1) == (choice_name(v.status) == "idle"@),
        ((enc_presence_with(v, f) + t)[32] == 2) == (choice_name(v.status) == "away"@),
{
    let e = enc_presence_with(v, f);
    assert(e[32] == v.status.byte());
    assert((e + t)[32] == e[32]);
    law_online_status_wire_matches_name(v.status, 0);
}

} // verus!
