//! The application message: the plaintext unit sealed into an MLS group, with
//! its big-endian wire format.

use vstd::prelude::*;

use crate::codec::{
    bytes_eq, be32, be64, eq32, fits, flat32, lemma_be32_of, lemma_be64_of, lemma_flat32_at,
    lemma_flat32_len, lemma_flat32_push, put_bytes, put_u32, put_u64, read_blob32, read_u32,
    read_u64, read_u8, u32_of_be, u64_of_be,
};
use crate::constants::{MessageType, PROTOCOL_VERSION, law_message_type_byte};
use crate::error::{GhostError, format_err};
use crate::ids::{derive_message_id, message_id_of};

verus! {

/// Most references one message may carry.
pub const MAX_REFERENCES: usize = 255;

/// version + type + channel_id + sender_fp + timestamp + message_id + ref_count + content_len
pub const FIXED_HEADER_LEN: usize = 111;

/// Application-layer message: the plaintext unit before MLS encryption.
pub struct ApplicationMessage {
    pub message_type: MessageType,
    pub channel_id: [u8; 32],
    pub sender_fp: [u8; 32],
    pub timestamp: u64,
    pub message_id: [u8; 32],
    pub references: Vec<[u8; 32]>,
    pub content: Vec<u8>,
}

impl ApplicationMessage {
    /// A message that can be written and read back: few enough references, a
    /// content length that fits its four-byte prefix, and an id derived from its fields.
    pub open spec fn wf(&self) -> bool {
        &&& self.references@.len() <= MAX_REFERENCES
        &&& self.content@.len() <= u32::MAX
        &&& self.message_id@ == message_id_of(self.channel_id@, self.sender_fp@, self.timestamp, self.content@)
    }

    /// The wire bytes of the message.
    pub open spec fn encoding(&self) -> Seq<u8> {
        seq![PROTOCOL_VERSION, self.message_type.byte()] + self.channel_id@ + self.sender_fp@
            + be64(self.timestamp) + self.message_id@ + seq![self.references@.len() as u8]
            + flat32(self.references@) + be32(self.content@.len() as u32) + self.content@
    }

    /// Builds a message, deriving its id from the channel, sender, timestamp and content.
    pub fn new(
        message_type: MessageType,
        channel_id: [u8; 32],
        sender_fp: [u8; 32],
        timestamp: u64,
        references: Vec<[u8; 32]>,
        content: Vec<u8>,
    ) -> (r: Result<ApplicationMessage, GhostError>)
        ensures
            match r {
                Ok(m) => {
                    &&& m.wf()
                    &&& m.message_type == message_type
                    &&& m.channel_id == channel_id
                    &&& m.sender_fp == sender_fp
                    &&& m.timestamp == timestamp
                    &&& m.references@ == references@
                    &&& m.content@ == content@
                },
                Err(e) => e is Format && (references@.len() > MAX_REFERENCES || content@.len() > u32::MAX),
            },
    {
        if references.len() > MAX_REFERENCES {
            return Err(format_err("too many references"));
        }
        if content.len() as u64 > 0xffff_ffffu64 {
            return Err(format_err("content exceeds u32::MAX"));
        }
        let message_id = derive_message_id(&channel_id, &sender_fp, timestamp, content.as_slice());
        Ok(ApplicationMessage {
            message_type,
            channel_id,
            sender_fp,
            timestamp,
            message_id,
            references,
            content,
        })
    }

    /// Serializes to the wire format (big-endian).
    pub fn to_bytes(&self) -> (out: Vec<u8>)
        ensures
            out@ == self.encoding(),
    {
        let ref_count = self.references.len() as u8;
        let content_len = self.content.len() as u32;
        let mut buf: Vec<u8> = Vec::new();
        buf.push(PROTOCOL_VERSION);
        buf.push(self.message_type.to_u8());
        put_bytes(&mut buf, &self.channel_id);
        put_bytes(&mut buf, &self.sender_fp);
        put_u64(&mut buf, self.timestamp);
        put_bytes(&mut buf, &self.message_id);
        buf.push(ref_count);
        let ghost head = buf@;
        let mut i: usize = 0;
        while i < self.references.len()
            invariant
                0 <= i <= self.references@.len(),
                buf@ == head + flat32(self.references@.take(i as int)),
            decreases self.references@.len() - i,
        {
            put_bytes(&mut buf, &self.references[i]);
            proof {
                lemma_flat32_push(self.references@.take(i as int), self.references@[i as int]);
                assert(self.references@.take(i + 1) =~= self.references@.take(i as int).push(self.references@[i as int]));
            }
            i = i + 1;
        }
        assert(self.references@.take(self.references@.len() as int) =~= self.references@);
        put_u32(&mut buf, content_len);
        put_bytes(&mut buf, self.content.as_slice());
        buf
    }

    /// Deserializes from the wire format; succeeds exactly on the encodings of
    /// well-formed messages.
    pub fn from_bytes(data: &[u8]) -> (r: Result<ApplicationMessage, GhostError>)
        ensures
            match r {
                Ok(m) => m.wf() && m.encoding() == data@,
                Err(e) => e is Format && !exists|m: ApplicationMessage| m.wf() && m.encoding() == data@,
            },
    {
        let ghost has = exists|m: ApplicationMessage| m.wf() && m.encoding() == data@;
        let ghost w = choose|m: ApplicationMessage| m.wf() && m.encoding() == data@;
        proof {
            if has {
                lemma_app_layout(w);
            }
        }
        let mut pos: usize = 0;

        let version = match read_u8(data, &mut pos) {
            Ok(v) => v,
            Err(e) => return Err(e),
        };
        if version != PROTOCOL_VERSION {
            return Err(format_err("unsupported version"));
        }

        let type_byte = match read_u8(data, &mut pos) {
            Ok(v) => v,
            Err(e) => return Err(e),
        };
        let message_type = match MessageType::try_from_u8(type_byte) {
            Ok(t) => t,
            Err(_) => {
                proof {
                    if has {
                        law_message_type_byte(w.message_type, type_byte);
                    }
                }
                return Err(format_err("unknown message type"));
            },
        };

        let channel_id = match read_blob32(data, &mut pos) {
            Ok(v) => v,
            Err(e) => return Err(e),
        };
        let sender_fp = match read_blob32(data, &mut pos) {
            Ok(v) => v,
            Err(e) => return Err(e),
        };
        let timestamp = match read_u64(data, &mut pos) {
            Ok(v) => v,
            Err(e) => return Err(e),
        };
        let message_id = match read_blob32(data, &mut pos) {
            Ok(v) => v,
            Err(e) => return Err(e),
        };
        let ref_count = match read_u8(data, &mut pos) {
            Ok(v) => v as usize,
            Err(e) => return Err(e),
        };
        assert(pos == 107);
        proof {
            if has {
                lemma_be64_roundtrip_at(w.timestamp);
                assert(channel_id@ == w.channel_id@);
                assert(sender_fp@ == w.sender_fp@);
                assert(timestamp == w.timestamp);
                assert(message_id@ == w.message_id@);
                assert(ref_count == w.references@.len());
            }
        }

        let mut references: Vec<[u8; 32]> = Vec::new();
        let mut i: usize = 0;
        while i < ref_count
            invariant
                0 <= i <= ref_count <= 255,
                pos == 107 + 32 * i,
                references@.len() == i,
                pos <= data@.len(),
                data@.subrange(107, pos as int) == flat32(references@),
                has == exists|m: ApplicationMessage| m.wf() && m.encoding() == data@,
                has ==> {
                    &&& ref_count == w.references@.len()
                    &&& references@ == w.references@.take(i as int)
                    &&& data@ == w.encoding()
                    &&& data@.subrange(107, 107 + 32 * ref_count) == flat32(w.references@)
                    &&& flat32(w.references@).len() == 32 * ref_count
                    &&& data@.len() == 111 + 32 * ref_count + w.content@.len()
                },
            decreases ref_count - i,
        {
            let ghost before = pos;
            let r = match read_blob32(data, &mut pos) {
                Ok(v) => v,
                Err(e) => {
                    proof {
                        if has {
                            lemma_flat32_at(w.references@, i as int);
                            assert(fits(data@, before as int, 32));
                        }
                    }
                    return Err(e);
                },
            };
            proof {
                crate::codec::lemma_join(data@, 107, before as int, pos as int);
                lemma_flat32_push(references@, r);
                if has {
                    lemma_flat32_at(w.references@, i as int);
                    assert(data@.subrange(107 + 32 * i, 107 + 32 * i + 32)
                        =~= flat32(w.references@).subrange(32 * i, 32 * i + 32));
                    assert(r@ == w.references@[i as int]@);
                    crate::codec::lemma_arr32_eq(r, w.references@[i as int]);
                    assert(w.references@.take(i + 1) =~= w.references@.take(i as int).push(r));
                }
            }
            references.push(r);
            i = i + 1;
        }
        proof {
            if has {
                assert(w.references@.take(ref_count as int) =~= w.references@);
            }
        }

        let content_len = match read_u32(data, &mut pos) {
            Ok(v) => v as usize,
            Err(e) => return Err(e),
        };
        proof {
            if has {
                lemma_be32_roundtrip_at(w.content@.len() as u32);
            }
        }
        if data.len() - pos != content_len {
            return Err(format_err("content length mismatch"));
        }
        let content = vstd::slice::slice_to_vec(vstd::slice::slice_subrange(data, pos, data.len()));

        let expected_id = derive_message_id(&channel_id, &sender_fp, timestamp, content.as_slice());
        if !eq32(&message_id, &expected_id) {
            proof {
                if has {
                    assert(content@ =~= w.content@);
                }
            }
            return Err(format_err("message_id does not match content"));
        }

        let m = ApplicationMessage {
            message_type,
            channel_id,
            sender_fp,
            timestamp,
            message_id,
            references,
            content,
        };
        proof {
            law_message_type_byte(message_type, type_byte);
            lemma_be64_of(data@.subrange(66, 74));
            lemma_be32_of(data@.subrange(pos - 4, pos as int));
            lemma_flat32_len(m.references@);
            assert(m.encoding() =~= data@);
        }
        Ok(m)
    }
}

/// Where each field of a message sits in its encoding.
proof fn lemma_app_layout(m: ApplicationMessage)
    requires
        m.wf(),
    ensures
        ({
            let e = m.encoding();
            let n = m.references@.len() as int;
            let c = m.content@.len() as int;
            &&& e.len() == 111 + 32 * n + c
            &&& e[0] == PROTOCOL_VERSION
            &&& e[1] == m.message_type.byte()
            &&& e.subrange(2, 34) == m.channel_id@
            &&& e.subrange(34, 66) == m.sender_fp@
            &&& e.subrange(66, 74) == be64(m.timestamp)
            &&& e.subrange(74, 106) == m.message_id@
            &&& e[106] == n as u8
            &&& e.subrange(107, 107 + 32 * n) == flat32(m.references@)
            &&& e.subrange(107 + 32 * n, 111 + 32 * n) == be32(c as u32)
            &&& e.subrange(111 + 32 * n, e.len() as int) == m.content@
        }),
{
    lemma_flat32_len(m.references@);
    let e = m.encoding();
    let n = m.references@.len() as int;
    assert(e.subrange(2, 34) =~= m.channel_id@);
    assert(e.subrange(34, 66) =~= m.sender_fp@);
    assert(e.subrange(66, 74) =~= be64(m.timestamp));
    assert(e.subrange(74, 106) =~= m.message_id@);
    assert(e.subrange(107, 107 + 32 * n) =~= flat32(m.references@));
    assert(e.subrange(107 + 32 * n, 111 + 32 * n) =~= be32(m.content@.len() as u32));
    assert(e.subrange(111 + 32 * n, e.len() as int) =~= m.content@);
}

proof fn lemma_be64_roundtrip_at(v: u64)
    ensures
        u64_of_be(be64(v)) == v,
{
    crate::codec::lemma_be64_roundtrip(v);
}

proof fn lemma_be32_roundtrip_at(v: u32)
    ensures
        u32_of_be(be32(v)) == v,
{
    crate::codec::lemma_be32_roundtrip(v);
}

} // verus!

verus! {

/// Sequences of identifiers with the same concatenation and length are equal.
pub proof fn lemma_flat32_injective(a: Seq<[u8; 32]>, b: Seq<[u8; 32]>)
    requires
        a.len() == b.len(),
        flat32(a) == flat32(b),
    ensures
        a == b,
{
    assert forall|i: int| 0 <= i < a.len() implies a[i] == b[i] by {
        lemma_flat32_at(a, i);
        lemma_flat32_at(b, i);
        crate::codec::lemma_arr32_eq(a[i], b[i]);
    }
    assert(a =~= b);
}

/// A message's wire bytes determine it: two well-formed messages with the same
/// encoding agree on every field. With `to_bytes` writing `encoding()` and
/// `from_bytes` accepting exactly such encodings, reading back what was written
/// gives the original message.
pub proof fn law_app_message_encoding_injective(a: ApplicationMessage, b: ApplicationMessage)
    requires
        a.wf(),
        b.wf(),
        a.encoding() == b.encoding(),
    ensures
        a.message_type == b.message_type,
        a.channel_id == b.channel_id,
        a.sender_fp == b.sender_fp,
        a.timestamp == b.timestamp,
        a.message_id == b.message_id,
        a.references@ == b.references@,
        a.content@ == b.content@,
{
    lemma_app_layout(a);
    lemma_app_layout(b);
    law_message_type_byte(a.message_type, b.message_type.byte());
    crate::codec::lemma_arr32_eq(a.channel_id, b.channel_id);
    crate::codec::lemma_arr32_eq(a.sender_fp, b.sender_fp);
    crate::codec::lemma_arr32_eq(a.message_id, b.message_id);
    lemma_be64_roundtrip_at(a.timestamp);
    lemma_be64_roundtrip_at(b.timestamp);
    let n = a.references@.len() as int;
    assert(b.references@.len() == n);
    lemma_flat32_injective(a.references@, b.references@);
}

/// Every well-formed message has an encoding that `from_bytes` accepts.
pub proof fn law_app_message_decodable(m: ApplicationMessage)
    requires
        m.wf(),
    ensures
        exists|x: ApplicationMessage| x.wf() && x.encoding() == m.encoding(),
{
}

/// What an inbound blob turned out to be.
pub enum InboundMessage {
    Application(ApplicationMessage),
    /// A commit was merged. Contains fingerprints of members removed by this commit.
    Commit { removed: Vec<[u8; 32]> },
}

/// Encrypted blob addressed to a relay mailbox.
pub struct Outbound {
    pub mailbox_id: [u8; 32],
    pub blob: Vec<u8>,
}

/// Accepts a decrypted application message whose sender is the identity the
/// group's credential authenticated: the plaintext must parse, and its
/// `sender_fp` must equal that identity.
pub fn accept_application(plaintext: &[u8], credential_identity: &[u8]) -> (r: Result<ApplicationMessage, GhostError>)
    ensures
        match r {
            Ok(m) => m.wf() && m.encoding() == plaintext@ && m.sender_fp@ == credential_identity@,
            Err(e) => e is Format && !exists|m: ApplicationMessage|
                m.wf() && m.encoding() == plaintext@ && m.sender_fp@ == credential_identity@,
        },
{
    let msg = match ApplicationMessage::from_bytes(plaintext) {
        Ok(m) => m,
        Err(e) => return Err(e),
    };
    if !bytes_eq(&msg.sender_fp, credential_identity) {
        proof {
            assert forall|m: ApplicationMessage| m.wf() && m.encoding() == plaintext@
                implies m.sender_fp@ != credential_identity@ by {
                law_app_message_encoding_injective(m, msg);
            }
        }
        return Err(format_err("sender_fp does not match MLS credential"));
    }
    Ok(msg)
}

/// The fingerprint of the last member entry with leaf index `idx`.
pub open spec fn leaf_fp(members: Seq<(u32, [u8; 32])>, idx: u32) -> Option<[u8; 32]>
    decreases members.len(),
{
    if members.len() == 0 {
        None
    } else if members.last().0 == idx {
        Some(members.last().1)
    } else {
        leaf_fp(members.drop_last(), idx)
    }
}

/// The fingerprints of removed leaves, in the order of `removed`, skipping
/// leaves that no member entry names.
pub open spec fn removed_fps(members: Seq<(u32, [u8; 32])>, removed: Seq<u32>) -> Seq<[u8; 32]>
    decreases removed.len(),
{
    if removed.len() == 0 {
        Seq::empty()
    } else {
        removed_fps(members, removed.drop_last()) + match leaf_fp(members, removed.last()) {
            Some(fp) => seq![fp],
            None => Seq::empty(),
        }
    }
}

fn find_leaf(members: &[(u32, [u8; 32])], idx: u32) -> (r: Option<[u8; 32]>)
    ensures
        r == leaf_fp(members@, idx),
{
    let mut i: usize = members.len();
    assert(members@.take(i as int) =~= members@);
    while i > 0
        invariant
            0 <= i <= members@.len(),
            leaf_fp(members@, idx) == leaf_fp(members@.take(i as int), idx),
        decreases i,
    {
        assert(members@.take(i as int).drop_last() =~= members@.take(i - 1));
        if members[i - 1].0 == idx {
            return Some(members[i - 1].1);
        }
        i = i - 1;
    }
    assert(members@.take(0) =~= Seq::<(u32, [u8; 32])>::empty());
    None
}

/// Resolves removed leaf indices to member fingerprints, given the group's
/// members as (leaf index, fingerprint) entries; later entries win for a
/// repeated index, and unknown indices are skipped.
pub fn removed_fingerprints(members: &[(u32, [u8; 32])], removed: &[u32]) -> (out: Vec<[u8; 32]>)
    ensures
        out@ == removed_fps(members@, removed@),
{
    let mut out: Vec<[u8; 32]> = Vec::new();
    let mut k: usize = 0;
    while k < removed.len()
        invariant
            0 <= k <= removed@.len(),
            out@ == removed_fps(members@, removed@.take(k as int)),
        decreases removed@.len() - k,
    {
        assert(removed@.take(k + 1).drop_last() =~= removed@.take(k as int));
        match find_leaf(members, removed[k]) {
            Some(fp) => out.push(fp),
            None => {},
        }
        k = k + 1;
        assert(out@ =~= removed_fps(members@, removed@.take(k as int)));
    }
    assert(removed@.take(removed@.len() as int) =~= removed@);
    out
}

} // verus!
