//! Linking a new device to an account: the pairing code shown on the existing
//! device, the blobs both sides seal under the pairing secret, the new
//! device's response, and the provision bundle the existing device sends
//! (sync key, sync group info, one provision payload per server, then the
//! synced settings).

use vstd::prelude::*;
use vstd::utf8::{encode_utf8, valid_utf8};

use crate::aead::{open_blob, opened_blob, seal_blob, sealed_blob, AES_GCM_P_MAX};
use crate::codec::{
    be16, be32, concat_map, copy32, fits, lemma_be16_of, lemma_be32_of, lemma_be32_roundtrip,
    lemma_concat_map_push, lemma_concat_map_skip, lemma_rest_split, lemma_take, put_bytes, put_u16,
    put_u32, read_u16, read_u32, remaining_at_least, rest,
};
use crate::error::{format_err, GhostError};
use crate::relay::index_of_char;
use crate::text::{
    find_char, hex_decode, hex_decoded, hex_encode, hex_lower, lemma_utf8_decode_encode,
    spec_hex_decode_error, string_concat, substring, utf8_bytes, utf8_decode,
};

verus! {

/// Seals a pairing message as `nonce || ciphertext` under the pairing secret.
pub fn pairing_seal(key: &[u8; 32], plaintext: &[u8]) -> (r: Result<Vec<u8>, GhostError>)
    ensures
        match r {
            Ok(b) => sealed_blob(key@, plaintext@, b@),
            Err(e) => e is Crypto && plaintext@.len() > AES_GCM_P_MAX,
        },
{
    match seal_blob(key, plaintext) {
        Some(b) => Ok(b),
        None => Err(GhostError::Crypto("pairing seal failed".to_string())),
    }
}

/// Opens a pairing message of at least 12 bytes.
pub fn pairing_open(key: &[u8; 32], blob: &[u8]) -> (r: Result<Vec<u8>, GhostError>)
    ensures
        match r {
            Ok(p) => opened_blob(key@, blob@, 12) == Some(p@),
            Err(e) => e is Crypto && opened_blob(key@, blob@, 12) is None,
        },
{
    match open_blob(key, blob, 12) {
        Some(p) => Ok(p),
        None => Err(GhostError::Crypto("pairing open failed".to_string())),
    }
}

/// The pairing code: `<relay url>#<account fingerprint hex>#<secret hex>`.
pub open spec fn pairing_code_of(relay_url: Seq<char>, account_fp: Seq<u8>, secret: Seq<u8>) -> Seq<char> {
    relay_url + "#"@ + hex_lower(account_fp) + "#"@ + hex_lower(secret)
}

/// The code the existing device shows for the new device to type in.
pub fn pairing_code(relay_url: &str, account_fp: &[u8; 32], secret: &[u8; 32]) -> (code: String)
    ensures
        code@ == pairing_code_of(relay_url@, account_fp@, secret@),
{
    let a = string_concat(relay_url.to_string(), "#");
    let b = string_concat(a, hex_encode(account_fp).as_str());
    let c = string_concat(b, "#");
    string_concat(c, hex_encode(secret).as_str())
}

/// A pairing code as the new device reads it.
pub struct PairingCode {
    pub relay_url: String,
    pub account_fp: [u8; 32],
    pub secret: [u8; 32],
}

/// How a pairing code splits at its first two `#`: relay URL, fingerprint
/// text, secret text (the rest); `None` when it has fewer than two.
pub open spec fn code_parts(code: Seq<char>) -> Option<(Seq<char>, Seq<char>, Seq<char>)> {
    let i = index_of_char(code, '#');
    if i >= code.len() {
        None
    } else {
        let tail = code.skip(i + 1);
        let j = index_of_char(tail, '#');
        if j >= tail.len() {
            None
        } else {
            Some((code.take(i), tail.take(j), tail.skip(j + 1)))
        }
    }
}

pub(crate) proof fn lemma_index_of_char_found(s: Seq<char>, c: char, i: int)
    requires
        0 <= i <= s.len(),
        forall|k: int| 0 <= k < i ==> s[k] != c,
        i < s.len() ==> s[i] == c,
    ensures
        index_of_char(s, c) == i,
    decreases i,
{
    if i > 0 {
        let t = s.skip(1);
        assert forall|k: int| 0 <= k < i - 1 implies t[k] != c by {
            assert(t[k] == s[k + 1]);
        }
        if i < s.len() {
            assert(t[i - 1] == s[i]);
        }
        lemma_index_of_char_found(t, c, i - 1);
    }
}

/// How a 32-byte field written in hex reads: its bytes, or the error text:
/// `bad_prefix` and the hex decoder's reason when it is not hex, `wrong_len`
/// when it is hex of another length.
pub open spec fn hex32_field(text: Seq<char>, bad_prefix: Seq<char>, wrong_len: Seq<char>) -> Result<Seq<u8>, Seq<char>> {
    match hex_decoded(encode_utf8(text)) {
        None => Err(bad_prefix + spec_hex_decode_error(text)),
        Some(b) => if b.len() == 32 { Ok(b) } else { Err(wrong_len) },
    }
}

fn read_hex32(text: &str, bad_prefix: &str, wrong_len: &str) -> (r: Result<[u8; 32], String>)
    ensures
        match r {
            Ok(a) => hex32_field(text@, bad_prefix@, wrong_len@) == Ok::<Seq<u8>, Seq<char>>(a@),
            Err(m) => hex32_field(text@, bad_prefix@, wrong_len@) == Err::<Seq<u8>, Seq<char>>(m@),
        },
{
    let bytes = match hex_decode(text) {
        Ok(b) => b,
        Err(reason) => return Err(string_concat(bad_prefix.to_string(), reason.as_str())),
    };
    match crate::records::blob32(bytes.as_slice()) {
        Some(a) => Ok(a),
        None => Err(wrong_len.to_string()),
    }
}

/// Reads a pairing code `relay_url#fingerprint#secret`. Errors, in the order
/// they are checked: `invalid pairing code` without two `#`; `bad
/// fingerprint: ` and the hex decoder's reason, or `fingerprint must be 32
/// bytes`; then the same for the secret (`bad secret: `, `secret must be 32
/// bytes`).
pub fn parse_pairing_code(code: &str) -> (r: Result<PairingCode, GhostError>)
    ensures
        match r {
            Ok(p) => code_parts(code@) matches Some((relay, fp, secret)) && p.relay_url@ == relay
                && hex32_field(fp, "bad fingerprint: "@, "fingerprint must be 32 bytes"@) == Ok::<Seq<u8>, Seq<char>>(p.account_fp@)
                && hex32_field(secret, "bad secret: "@, "secret must be 32 bytes"@) == Ok::<Seq<u8>, Seq<char>>(p.secret@),
            Err(e) => e matches GhostError::Format(m) && match code_parts(code@) {
                None => m@ == "invalid pairing code"@,
                Some((_, fp, secret)) => match hex32_field(fp, "bad fingerprint: "@, "fingerprint must be 32 bytes"@) {
                    Err(x) => m@ == x,
                    Ok(_) => hex32_field(secret, "bad secret: "@, "secret must be 32 bytes"@) == Err::<Seq<u8>, Seq<char>>(m@),
                },
            },
        },
{
    let n = code.unicode_len();
    let i = match find_char(code, '#', 0) {
        Some(i) => i,
        None => {
            proof {
                lemma_index_of_char_found(code@, '#', code@.len() as int);
            }
            return Err(GhostError::Format("invalid pairing code".to_string()));
        },
    };
    proof {
        lemma_index_of_char_found(code@, '#', i as int);
    }
    let ghost tail = code@.skip(i + 1);
    let j = match find_char(code, '#', i + 1) {
        Some(j) => j,
        None => {
            proof {
                assert forall|k: int| 0 <= k < tail.len() implies tail[k] != '#' by {
                    assert(tail[k] == code@[k + i + 1]);
                }
                lemma_index_of_char_found(tail, '#', tail.len() as int);
            }
            return Err(GhostError::Format("invalid pairing code".to_string()));
        },
    };
    proof {
        assert forall|k: int| 0 <= k < j - (i + 1) implies tail[k] != '#' by {
            assert(tail[k] == code@[k + i + 1]);
        }
        assert(tail[j - (i + 1)] == code@[j as int]);
        lemma_index_of_char_found(tail, '#', j - (i + 1));
    }
    let relay_url = substring(code, 0, i);
    let fp_text = substring(code, i + 1, j);
    let secret_text = substring(code, j + 1, n);
    assert(relay_url@ =~= code@.take(i as int));
    assert(fp_text@ =~= tail.take(j - (i + 1)));
    assert(secret_text@ =~= tail.skip(j - (i + 1) + 1));
    let account_fp = match read_hex32(fp_text.as_str(), "bad fingerprint: ", "fingerprint must be 32 bytes") {
        Ok(f) => f,
        Err(m) => return Err(GhostError::Format(m)),
    };
    let secret = match read_hex32(secret_text.as_str(), "bad secret: ", "secret must be 32 bytes") {
        Ok(s) => s,
        Err(m) => return Err(GhostError::Format(m)),
    };
    Ok(PairingCode { relay_url, account_fp, secret })
}

/// The new device's response: its signing key, then its label's UTF-8 bytes.
pub fn pairing_response(signing_key: &[u8; 32], label: &str) -> (out: Vec<u8>)
    ensures
        out@ == signing_key@ + encode_utf8(label@),
{
    let mut out: Vec<u8> = Vec::new();
    put_bytes(&mut out, signing_key);
    put_bytes(&mut out, utf8_bytes(label));
    out
}

/// Reads a pairing response: at least 33 bytes, the label valid UTF-8.
pub fn parse_pairing_response(plaintext: &[u8]) -> (r: Result<([u8; 32], String), GhostError>)
    ensures
        match r {
            Ok((key, label)) => plaintext@.len() >= 33 && key@ == plaintext@.take(32)
                && encode_utf8(label@) == plaintext@.skip(32),
            Err(e) => e is Format && (plaintext@.len() < 33 || !valid_utf8(plaintext@.skip(32))),
        },
{
    if plaintext.len() < 33 {
        return Err(format_err("pairing response too short"));
    }
    let key = copy32(plaintext, 0);
    assert(plaintext@.subrange(0, 32) =~= plaintext@.take(32));
    let label_bytes = vstd::slice::slice_subrange(plaintext, 32, plaintext.len());
    assert(label_bytes@ =~= plaintext@.skip(32));
    match utf8_decode(label_bytes) {
        Some(label) => {
            proof {
                lemma_utf8_decode_encode(label_bytes@);
            }
            Ok((key, label))
        },
        None => Err(format_err("invalid label in pairing response")),
    }
}

/// A length-prefixed blob: its length as a big-endian `u32`, then its bytes.
pub open spec fn enc_blob(b: Seq<u8>) -> Seq<u8> {
    be32(b.len() as u32) + b
}

/// A list of length-prefixed blobs, one after the other.
pub open spec fn enc_blobs(ps: Seq<Seq<u8>>) -> Seq<u8> {
    concat_map(ps, |p: Seq<u8>| enc_blob(p))
}

/// Every blob's length fits its four-byte prefix.
pub open spec fn blobs_fit(ps: Seq<Seq<u8>>) -> bool {
    forall|i: int| 0 <= i < ps.len() ==> (#[trigger] ps[i]).len() <= u32::MAX
}

/// The provision bundle, before the synced settings: sync key, sync group
/// info as a blob, the count of server payloads, and each payload as a blob.
pub open spec fn enc_bundle(sync_key: Seq<u8>, group_info: Seq<u8>, payloads: Seq<Seq<u8>>) -> Seq<u8> {
    sync_key + enc_blob(group_info) + be16(payloads.len() as u16) + enc_blobs(payloads)
}

/// A bundle whose lengths fit their prefixes.
pub open spec fn bundle_fits(sync_key: Seq<u8>, group_info: Seq<u8>, payloads: Seq<Seq<u8>>) -> bool {
    &&& sync_key.len() == 32
    &&& group_info.len() <= u32::MAX
    &&& payloads.len() <= u16::MAX
    &&& blobs_fit(payloads)
}

/// The view of a list of byte vectors.
pub open spec fn vecs_view(v: Seq<Vec<u8>>) -> Seq<Seq<u8>> {
    v.map_values(|x: Vec<u8>| x@)
}

fn write_blob(buf: &mut Vec<u8>, b: &[u8])
    ensures
        final(buf)@ == old(buf)@ + enc_blob(b@),
{
    put_u32(buf, b.len() as u32);
    put_bytes(buf, b);
}

/// Writes the provision bundle (the synced settings are appended by the caller).
/// Each length is written truncated to the width of its prefix (32 bits for a
/// blob, 16 for the payload count).
pub fn encode_provision_bundle(sync_key: &[u8; 32], group_info: &[u8], payloads: &[Vec<u8>]) -> (out: Vec<u8>)
    ensures
        out@ == enc_bundle(sync_key@, group_info@, vecs_view(payloads@)),
{
    let mut out: Vec<u8> = Vec::new();
    put_bytes(&mut out, sync_key);
    write_blob(&mut out, group_info);
    put_u16(&mut out, payloads.len() as u16);
    let ghost head = out@;
    let mut i: usize = 0;
    while i < payloads.len()
        invariant
            0 <= i <= payloads@.len(),
            out@ == head + enc_blobs(vecs_view(payloads@.take(i as int))),
        decreases payloads@.len() - i,
    {
        proof {
            lemma_concat_map_push(vecs_view(payloads@.take(i as int)), payloads@[i as int]@, |p: Seq<u8>| enc_blob(p));
            assert(vecs_view(payloads@.take(i + 1)) =~= vecs_view(payloads@.take(i as int)).push(payloads@[i as int]@));
        }
        write_blob(&mut out, payloads[i].as_slice());
        i = i + 1;
    }
    assert(payloads@.take(payloads@.len() as int) =~= payloads@);
    assert(vecs_view(payloads@).len() == payloads@.len());
    out
}

/// A blob's encoding is determined by what it encodes, whatever follows.
proof fn lemma_blob_unique(a: Seq<u8>, b: Seq<u8>, t1: Seq<u8>, t2: Seq<u8>)
    requires
        a.len() <= u32::MAX,
        b.len() <= u32::MAX,
        enc_blob(a) + t1 == enc_blob(b) + t2,
    ensures
        a == b,
        t1 == t2,
{
    let x = enc_blob(a) + t1;
    let y = enc_blob(b) + t2;
    lemma_be32_roundtrip(a.len() as u32);
    lemma_be32_roundtrip(b.len() as u32);
    assert(x.subrange(0, 4) =~= be32(a.len() as u32));
    assert(y.subrange(0, 4) =~= be32(b.len() as u32));
    assert(a.len() == b.len());
    assert(x.subrange(4, 4 + a.len() as int) =~= a);
    assert(y.subrange(4, 4 + b.len() as int) =~= b);
    assert(x.subrange(4 + a.len() as int, x.len() as int) =~= t1);
    assert(y.subrange(4 + b.len() as int, y.len() as int) =~= t2);
}

/// Reads a length-prefixed blob at `*pos`.
fn read_blob(data: &[u8], pos: &mut usize) -> (r: Result<Vec<u8>, GhostError>)
    requires
        *old(pos) <= data@.len(),
    ensures
        match r {
            Ok(b) => {
                &&& *old(pos) <= *final(pos) <= data@.len()
                &&& data@.subrange(*old(pos) as int, *final(pos) as int) == enc_blob(b@)
                &&& b@.len() <= u32::MAX
            },
            Err(e) => e is Format && !exists|b: Seq<u8>, t: Seq<u8>|
                b.len() <= u32::MAX && rest(data@, *old(pos) as int) == enc_blob(b) + t,
        },
{
    let p0 = *pos;
    let len = match read_u32(data, pos) {
        Ok(l) => l,
        Err(e) => {
            proof {
                assert forall|b: Seq<u8>, t: Seq<u8>| b.len() <= u32::MAX
                    implies rest(data@, p0 as int) != enc_blob(b) + t by {
                    if rest(data@, p0 as int) == enc_blob(b) + t {
                        lemma_be32_roundtrip(b.len() as u32);
                        assert(enc_blob(b) + t =~= be32(b.len() as u32) + (b + t));
                        lemma_take(data@, p0 as int, be32(b.len() as u32), b + t);
                    }
                }
            }
            return Err(e);
        },
    };
    let n = len as usize;
    if !remaining_at_least(data, *pos, n) {
        proof {
            assert forall|b: Seq<u8>, t: Seq<u8>| b.len() <= u32::MAX
                implies rest(data@, p0 as int) != enc_blob(b) + t by {
                if rest(data@, p0 as int) == enc_blob(b) + t {
                    lemma_be32_roundtrip(b.len() as u32);
                    assert(enc_blob(b) + t =~= be32(b.len() as u32) + (b + t));
                    lemma_take(data@, p0 as int, be32(b.len() as u32), b + t);
                    lemma_take(data@, p0 + 4, b, t);
                }
            }
        }
        return Err(format_err("truncated blob"));
    }
    let p1 = *pos;
    let b = vstd::slice::slice_to_vec(vstd::slice::slice_subrange(data, p1, p1 + n));
    *pos = p1 + n;
    proof {
        lemma_be32_of(data@.subrange(p0 as int, p0 + 4));
        assert(data@.subrange(p0 as int, *pos as int) =~= data@.subrange(p0 as int, p0 + 4) + b@);
    }
    Ok(b)
}

/// Reads `count` length-prefixed blobs at `*pos`.
fn read_blobs(data: &[u8], pos: &mut usize, count: usize) -> (r: Result<Vec<Vec<u8>>, GhostError>)
    requires
        *old(pos) <= data@.len(),
    ensures
        match r {
            Ok(v) => {
                &&& v@.len() == count
                &&& *old(pos) <= *final(pos) <= data@.len()
                &&& data@.subrange(*old(pos) as int, *final(pos) as int) == enc_blobs(vecs_view(v@))
                &&& blobs_fit(vecs_view(v@))
            },
            Err(e) => e is Format && !exists|s: Seq<Seq<u8>>, t: Seq<u8>|
                s.len() == count && blobs_fit(s) && rest(data@, *old(pos) as int) == enc_blobs(s) + t,
        },
{
    let ghost p0 = *pos as int;
    let ghost has = exists|s: Seq<Seq<u8>>, t: Seq<u8>|
        s.len() == count && blobs_fit(s) && rest(data@, p0) == enc_blobs(s) + t;
    let ghost (ws, wt) = choose|s: Seq<Seq<u8>>, t: Seq<u8>|
        s.len() == count && blobs_fit(s) && rest(data@, p0) == enc_blobs(s) + t;
    proof {
        if has {
            assert(ws.skip(0) =~= ws);
        }
        assert(data@.subrange(p0, p0) =~= Seq::<u8>::empty());
        assert(vecs_view(Seq::<Vec<u8>>::empty()) =~= Seq::<Seq<u8>>::empty());
    }
    let mut v: Vec<Vec<u8>> = Vec::new();
    let mut i: usize = 0;
    while i < count
        invariant
            0 <= i <= count,
            0 <= p0,
            p0 == *old(pos),
            v@.len() == i,
            p0 <= *pos <= data@.len(),
            data@.subrange(p0, *pos as int) == enc_blobs(vecs_view(v@)),
            blobs_fit(vecs_view(v@)),
            has == exists|s: Seq<Seq<u8>>, t: Seq<u8>|
                s.len() == count && blobs_fit(s) && rest(data@, p0) == enc_blobs(s) + t,
            has ==> {
                &&& ws.len() == count
                &&& blobs_fit(ws)
                &&& vecs_view(v@) == ws.take(i as int)
                &&& rest(data@, *pos as int) == enc_blobs(ws.skip(i as int)) + wt
            },
        decreases count - i,
    {
        let ghost before = *pos as int;
        proof {
            if has {
                lemma_concat_map_skip(ws, i as int, |p: Seq<u8>| enc_blob(p));
                assert(rest(data@, before) =~= enc_blob(ws[i as int]) + (enc_blobs(ws.skip(i + 1)) + wt));
                assert(ws[i as int].len() <= u32::MAX);
            }
        }
        let b = match read_blob(data, pos) {
            Ok(b) => b,
            Err(e) => {
                proof {
                    if has {
                        let tail = enc_blobs(ws.skip(i + 1)) + wt;
                        assert(rest(data@, before) == enc_blob(ws[i as int]) + tail);
                    }
                }
                return Err(e);
            },
        };
        proof {
            lemma_rest_split(data@, before, *pos as int);
            crate::codec::lemma_join(data@, p0, before, *pos as int);
            lemma_concat_map_push(vecs_view(v@), b@, |p: Seq<u8>| enc_blob(p));
            assert(vecs_view(v@.push(b)) =~= vecs_view(v@).push(b@));
            if has {
                lemma_blob_unique(b@, ws[i as int], rest(data@, *pos as int), enc_blobs(ws.skip(i + 1)) + wt);
                assert(ws.take(i + 1) =~= ws.take(i as int).push(ws[i as int]));
            }
        }
        v.push(b);
        i = i + 1;
    }
    Ok(v)
}

/// A provision bundle as the new device reads it; the synced settings start at `settings_offset`.
pub struct ProvisionBundle {
    pub sync_key: [u8; 32],
    pub group_info: Vec<u8>,
    pub payloads: Vec<Vec<u8>>,
    pub settings_offset: usize,
}

/// Whether `data` starts with a bundle whose lengths fit.
pub open spec fn starts_with_bundle(data: Seq<u8>) -> bool {
    exists|k: Seq<u8>, g: Seq<u8>, s: Seq<Seq<u8>>, t: Seq<u8>|
        bundle_fits(k, g, s) && data == enc_bundle(k, g, s) + t
}

/// Reads the provision bundle at the start of a decrypted provision message.
/// `Format` error exactly when it does not start with one.
pub fn parse_provision_bundle(plaintext: &[u8]) -> (r: Result<ProvisionBundle, GhostError>)
    ensures
        match r {
            Ok(b) => {
                &&& bundle_fits(b.sync_key@, b.group_info@, vecs_view(b.payloads@))
                &&& b.settings_offset <= plaintext@.len()
                &&& plaintext@.take(b.settings_offset as int) == enc_bundle(b.sync_key@, b.group_info@, vecs_view(b.payloads@))
            },
            Err(e) => e is Format && !starts_with_bundle(plaintext@),
        },
{
    let ghost has = starts_with_bundle(plaintext@);
    let ghost (wk, wg, ws, wt) = choose|k: Seq<u8>, g: Seq<u8>, s: Seq<Seq<u8>>, t: Seq<u8>|
        bundle_fits(k, g, s) && plaintext@ == enc_bundle(k, g, s) + t;
    proof {
        if has {
            assert(plaintext@ =~= wk + (enc_blob(wg) + (be16(ws.len() as u16) + (enc_blobs(ws) + wt))));
            assert(rest(plaintext@, 0) =~= plaintext@);
            lemma_take(plaintext@, 0, wk, enc_blob(wg) + (be16(ws.len() as u16) + (enc_blobs(ws) + wt)));
            assert(rest(plaintext@, 0) =~= plaintext@);
        }
    }
    if plaintext.len() < 38 {
        proof {
            if has {
                lemma_be32_roundtrip(wg.len() as u32);
                assert(enc_bundle(wk, wg, ws).len() >= 38);
            }
        }
        return Err(format_err("provision blob too short"));
    }
    let sync_key = copy32(plaintext, 0);
    let mut pos: usize = 32;
    let group_info = match read_blob(plaintext, &mut pos) {
        Ok(g) => g,
        Err(e) => {
            proof {
                if has {
                    assert(rest(plaintext@, 32) == enc_blob(wg) + (be16(ws.len() as u16) + (enc_blobs(ws) + wt)));
                }
            }
            return Err(e);
        },
    };
    let ghost p1 = pos as int;
    proof {
        lemma_rest_split(plaintext@, 32, p1);
        if has {
            lemma_blob_unique(group_info@, wg, rest(plaintext@, p1), be16(ws.len() as u16) + (enc_blobs(ws) + wt));
        }
    }
    let count = match read_u16(plaintext, &mut pos) {
        Ok(c) => c,
        Err(e) => {
            proof {
                if has {
                    lemma_take(plaintext@, p1, be16(ws.len() as u16), enc_blobs(ws) + wt);
                }
            }
            return Err(e);
        },
    };
    let ghost p2 = pos as int;
    proof {
        if has {
            lemma_take(plaintext@, p1, be16(ws.len() as u16), enc_blobs(ws) + wt);
            crate::codec::lemma_be16_roundtrip(ws.len() as u16);
        }
    }
    let payloads = match read_blobs(plaintext, &mut pos, count as usize) {
        Ok(v) => v,
        Err(e) => return Err(e),
    };
    proof {
        lemma_be16_of(plaintext@.subrange(p1, p2));
        crate::codec::lemma_join(plaintext@, 0, 32, p1);
        crate::codec::lemma_join(plaintext@, 0, p1, p2);
        crate::codec::lemma_join(plaintext@, 0, p2, pos as int);
        assert(plaintext@.subrange(0, 32) =~= sync_key@);
        assert(plaintext@.take(pos as int) =~= plaintext@.subrange(0, pos as int));
        assert(vecs_view(payloads@).len() == count);
    }
    Ok(ProvisionBundle { sync_key, group_info, payloads, settings_offset: pos })
}

proof fn lemma_blobs_unique(s1: Seq<Seq<u8>>, s2: Seq<Seq<u8>>, t1: Seq<u8>, t2: Seq<u8>)
    requires
        s1.len() == s2.len(),
        blobs_fit(s1),
        blobs_fit(s2),
        enc_blobs(s1) + t1 == enc_blobs(s2) + t2,
    ensures
        s1 == s2,
        t1 == t2,
    decreases s1.len(),
{
    if s1.len() == 0 {
        assert(enc_blobs(s1) == Seq::<u8>::empty());
        assert(enc_blobs(s2) == Seq::<u8>::empty());
        assert(t1 =~= enc_blobs(s1) + t1);
        assert(t2 =~= enc_blobs(s2) + t2);
        assert(s1 =~= s2);
    } else {
        let r1 = enc_blobs(s1.drop_first()) + t1;
        let r2 = enc_blobs(s2.drop_first()) + t2;
        assert(enc_blobs(s1) + t1 =~= enc_blob(s1[0]) + r1);
        assert(enc_blobs(s2) + t2 =~= enc_blob(s2[0]) + r2);
        assert(s1[0].len() <= u32::MAX && s2[0].len() <= u32::MAX);
        lemma_blob_unique(s1[0], s2[0], r1, r2);
        assert forall|i: int| 0 <= i < s1.drop_first().len() implies (#[trigger] s1.drop_first()[i]).len() <= u32::MAX by {
            assert(s1.drop_first()[i] == s1[i + 1]);
        }
        assert forall|i: int| 0 <= i < s2.drop_first().len() implies (#[trigger] s2.drop_first()[i]).len() <= u32::MAX by {
            assert(s2.drop_first()[i] == s2[i + 1]);
        }
        lemma_blobs_unique(s1.drop_first(), s2.drop_first(), t1, t2);
        assert(s1 =~= seq![s1[0]] + s1.drop_first());
        assert(s2 =~= seq![s2[0]] + s2.drop_first());
    }
}

/// A provision bundle is determined by its encoding, whatever follows it: so
/// reading back what `encode_provision_bundle` wrote (with the synced settings
/// after it) gives the same sync key, group info and payloads.
pub proof fn law_bundle_encoding_injective(
    k1: Seq<u8>,
    g1: Seq<u8>,
    s1: Seq<Seq<u8>>,
    t1: Seq<u8>,
    k2: Seq<u8>,
    g2: Seq<u8>,
    s2: Seq<Seq<u8>>,
    t2: Seq<u8>,
)
    requires
        bundle_fits(k1, g1, s1),
        bundle_fits(k2, g2, s2),
        enc_bundle(k1, g1, s1) + t1 == enc_bundle(k2, g2, s2) + t2,
    ensures
        k1 == k2,
        g1 == g2,
        s1 == s2,
        t1 == t2,
{
    let x = enc_bundle(k1, g1, s1) + t1;
    let y = enc_bundle(k2, g2, s2) + t2;
    assert(x.subrange(0, 32) =~= k1);
    assert(y.subrange(0, 32) =~= k2);
    let a1 = be16(s1.len() as u16) + (enc_blobs(s1) + t1);
    let a2 = be16(s2.len() as u16) + (enc_blobs(s2) + t2);
    assert(x.subrange(32, x.len() as int) =~= enc_blob(g1) + a1);
    assert(y.subrange(32, y.len() as int) =~= enc_blob(g2) + a2);
    lemma_blob_unique(g1, g2, a1, a2);
    crate::codec::lemma_be16_roundtrip(s1.len() as u16);
    crate::codec::lemma_be16_roundtrip(s2.len() as u16);
    assert(a1.subrange(0, 2) =~= be16(s1.len() as u16));
    assert(a2.subrange(0, 2) =~= be16(s2.len() as u16));
    assert(a1.subrange(2, a1.len() as int) =~= enc_blobs(s1) + t1);
    assert(a2.subrange(2, a2.len() as int) =~= enc_blobs(s2) + t2);
    lemma_blobs_unique(s1, s2, t1, t2);
}

} // verus!
