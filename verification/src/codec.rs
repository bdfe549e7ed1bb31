//! Big-endian integer encodings and the bounds-checked readers that every
//! wire format of the library is built from.

use vstd::prelude::*;

verus! {

/// Big-endian bytes of a `u16`.
pub open spec fn be16(v: u16) -> Seq<u8> {
    seq![(v >> 8u16) as u8, v as u8]
}

/// Big-endian bytes of a `u32`.
pub open spec fn be32(v: u32) -> Seq<u8> {
    seq![(v >> 24u32) as u8, (v >> 16u32) as u8, (v >> 8u32) as u8, v as u8]
}

/// Big-endian bytes of a `u64`.
pub open spec fn be64(v: u64) -> Seq<u8> {
    seq![
        (v >> 56u64) as u8, (v >> 48u64) as u8, (v >> 40u64) as u8, (v >> 32u64) as u8,
        (v >> 24u64) as u8, (v >> 16u64) as u8, (v >> 8u64) as u8, v as u8,
    ]
}

/// Big-endian two's-complement bytes of an `i32`.
pub open spec fn be_i32(v: i32) -> Seq<u8> {
    be32(v as u32)
}

/// The `u16` whose big-endian bytes are `b[0..2]`.
pub open spec fn u16_of_be(b: Seq<u8>) -> u16 {
    (((b[0] as u16) << 8u16) | (b[1] as u16)) as u16
}

/// The `u32` whose big-endian bytes are `b[0..4]`.
pub open spec fn u32_of_be(b: Seq<u8>) -> u32 {
    (((b[0] as u32) << 24u32) | ((b[1] as u32) << 16u32) | ((b[2] as u32) << 8u32) | (b[3] as u32)) as u32
}

/// The `u64` whose big-endian bytes are `b[0..8]`.
pub open spec fn u64_of_be(b: Seq<u8>) -> u64 {
    (((b[0] as u64) << 56u64) | ((b[1] as u64) << 48u64) | ((b[2] as u64) << 40u64)
        | ((b[3] as u64) << 32u64) | ((b[4] as u64) << 24u64) | ((b[5] as u64) << 16u64)
        | ((b[6] as u64) << 8u64) | (b[7] as u64)) as u64
}

/// The `i32` whose big-endian two's-complement bytes are `b[0..4]`.
pub open spec fn i32_of_be(b: Seq<u8>) -> i32 {
    u32_of_be(b) as i32
}

/// Decoding the big-endian bytes of a `u16` gives it back.
pub proof fn lemma_be16_roundtrip(v: u16)
    ensures
        be16(v).len() == 2,
        u16_of_be(be16(v)) == v,
{
    let b0 = (v >> 8u16) as u8;
    let b1 = v as u8;
    assert((((b0 as u16) << 8u16) | (b1 as u16)) as u16 == v) by (bit_vector)
        requires
            b0 == (v >> 8u16) as u8,
            b1 == v as u8,
    ;
}

/// Decoding the big-endian bytes of a `u32` gives it back.
pub proof fn lemma_be32_roundtrip(v: u32)
    ensures
        be32(v).len() == 4,
        u32_of_be(be32(v)) == v,
{
    let b0 = (v >> 24u32) as u8;
    let b1 = (v >> 16u32) as u8;
    let b2 = (v >> 8u32) as u8;
    let b3 = v as u8;
    assert((((b0 as u32) << 24u32) | ((b1 as u32) << 16u32) | ((b2 as u32) << 8u32) | (b3 as u32))
        as u32 == v) by (bit_vector)
        requires
            b0 == (v >> 24u32) as u8,
            b1 == (v >> 16u32) as u8,
            b2 == (v >> 8u32) as u8,
            b3 == v as u8,
    ;
}

/// Decoding the big-endian bytes of a `u64` gives it back.
pub proof fn lemma_be64_roundtrip(v: u64)
    ensures
        be64(v).len() == 8,
        u64_of_be(be64(v)) == v,
{
    let b0 = (v >> 56u64) as u8;
    let b1 = (v >> 48u64) as u8;
    let b2 = (v >> 40u64) as u8;
    let b3 = (v >> 32u64) as u8;
    let b4 = (v >> 24u64) as u8;
    let b5 = (v >> 16u64) as u8;
    let b6 = (v >> 8u64) as u8;
    let b7 = v as u8;
    assert((((b0 as u64) << 56u64) | ((b1 as u64) << 48u64) | ((b2 as u64) << 40u64)
        | ((b3 as u64) << 32u64) | ((b4 as u64) << 24u64) | ((b5 as u64) << 16u64)
        | ((b6 as u64) << 8u64) | (b7 as u64)) as u64 == v) by (bit_vector)
        requires
            b0 == (v >> 56u64) as u8,
            b1 == (v >> 48u64) as u8,
            b2 == (v >> 40u64) as u8,
            b3 == (v >> 32u64) as u8,
            b4 == (v >> 24u64) as u8,
            b5 == (v >> 16u64) as u8,
            b6 == (v >> 8u64) as u8,
            b7 == v as u8,
    ;
}

/// Decoding the big-endian bytes of an `i32` gives it back.
pub proof fn lemma_be_i32_roundtrip(v: i32)
    ensures
        be_i32(v).len() == 4,
        i32_of_be(be_i32(v)) == v,
{
    lemma_be32_roundtrip(v as u32);
    assert(((v as u32) as i32) == v) by (bit_vector);
}

/// Appends the big-endian bytes of `v`.
pub fn put_u16(buf: &mut Vec<u8>, v: u16)
    ensures
        final(buf)@ == old(buf)@ + be16(v),
{
    buf.push((v >> 8u16) as u8);
    buf.push(v as u8);
}

/// Appends the big-endian bytes of `v`.
pub fn put_u32(buf: &mut Vec<u8>, v: u32)
    ensures
        final(buf)@ == old(buf)@ + be32(v),
{
    buf.push((v >> 24u32) as u8);
    buf.push((v >> 16u32) as u8);
    buf.push((v >> 8u32) as u8);
    buf.push(v as u8);
}

/// Appends the big-endian bytes of `v`.
pub fn put_u64(buf: &mut Vec<u8>, v: u64)
    ensures
        final(buf)@ == old(buf)@ + be64(v),
{
    buf.push((v >> 56u64) as u8);
    buf.push((v >> 48u64) as u8);
    buf.push((v >> 40u64) as u8);
    buf.push((v >> 32u64) as u8);
    buf.push((v >> 24u64) as u8);
    buf.push((v >> 16u64) as u8);
    buf.push((v >> 8u64) as u8);
    buf.push(v as u8);
}

/// Appends the big-endian two's-complement bytes of `v`.
pub fn put_i32(buf: &mut Vec<u8>, v: i32)
    ensures
        final(buf)@ == old(buf)@ + be_i32(v),
{
    put_u32(buf, v as u32);
}

/// Appends every byte of `src`.
pub fn put_bytes(buf: &mut Vec<u8>, src: &[u8])
    ensures
        final(buf)@ == old(buf)@ + src@,
{
    let ghost start = buf@;
    let mut i: usize = 0;
    while i < src.len()
        invariant
            0 <= i <= src@.len(),
            buf@ == start + src@.subrange(0, i as int),
        decreases src@.len() - i,
    {
        buf.push(src[i]);
        i = i + 1;
        assert(src@.subrange(0, i as int) == src@.subrange(0, i - 1) + seq![src@[i - 1]]);
    }
    assert(src@.subrange(0, src@.len() as int) == src@);
}

} // verus!

use crate::error::{GhostError, format_err};
use crate::text::utf8_decode;
use vstd::utf8::*;

verus! {

/// The bytes of `data` from `pos` to its end.
pub open spec fn rest(data: Seq<u8>, pos: int) -> Seq<u8> {
    data.subrange(pos, data.len() as int)
}

/// True when `n` bytes can be read at `pos`.
pub open spec fn fits(data: Seq<u8>, pos: int, n: int) -> bool {
    0 <= pos && pos + n <= data.len()
}

/// A length-prefixed string as it is written: two big-endian length bytes,
/// then the UTF-8 bytes (the length is taken modulo 2^16).
pub open spec fn enc_string(chars: Seq<char>) -> Seq<u8> {
    be16(encode_utf8(chars).len() as u16) + encode_utf8(chars)
}

/// Whether a string fits the two-byte length prefix.
pub open spec fn string_fits(chars: Seq<char>) -> bool {
    encode_utf8(chars).len() <= 0xffff
}

pub(crate) fn remaining_at_least(data: &[u8], pos: usize, n: usize) -> (b: bool)
    ensures
        b == fits(data@, pos as int, n as int),
        data@.len() <= usize::MAX,
{
    pos <= data.len() && data.len() - pos >= n
}

/// Reads one byte at `*pos`.
pub fn read_u8(data: &[u8], pos: &mut usize) -> (r: Result<u8, GhostError>)
    ensures
        match r {
            Ok(v) => fits(data@, *old(pos) as int, 1) && *final(pos) == *old(pos) + 1
                && v == data@[*old(pos) as int],
            Err(e) => !fits(data@, *old(pos) as int, 1) && *final(pos) == *old(pos) && e is Format,
        },
{
    if !remaining_at_least(data, *pos, 1) {
        return Err(format_err("truncated u8"));
    }
    let v = data[*pos];
    *pos = *pos + 1;
    Ok(v)
}

/// Reads a big-endian `u16` at `*pos`.
pub fn read_u16(data: &[u8], pos: &mut usize) -> (r: Result<u16, GhostError>)
    ensures
        match r {
            Ok(v) => fits(data@, *old(pos) as int, 2) && *final(pos) == *old(pos) + 2
                && v == u16_of_be(data@.subrange(*old(pos) as int, *old(pos) + 2)),
            Err(e) => !fits(data@, *old(pos) as int, 2) && *final(pos) == *old(pos) && e is Format,
        },
{
    if !remaining_at_least(data, *pos, 2) {
        return Err(format_err("truncated u16"));
    }
    let p = *pos;
    let v = ((data[p] as u16) << 8u16) | (data[p + 1] as u16);
    *pos = p + 2;
    Ok(v)
}

/// Reads a big-endian `u32` at `*pos`.
pub fn read_u32(data: &[u8], pos: &mut usize) -> (r: Result<u32, GhostError>)
    ensures
        match r {
            Ok(v) => fits(data@, *old(pos) as int, 4) && *final(pos) == *old(pos) + 4
                && v == u32_of_be(data@.subrange(*old(pos) as int, *old(pos) + 4)),
            Err(e) => !fits(data@, *old(pos) as int, 4) && *final(pos) == *old(pos) && e is Format,
        },
{
    if !remaining_at_least(data, *pos, 4) {
        return Err(format_err("truncated u32"));
    }
    let p = *pos;
    let v = ((data[p] as u32) << 24u32) | ((data[p + 1] as u32) << 16u32)
        | ((data[p + 2] as u32) << 8u32) | (data[p + 3] as u32);
    *pos = p + 4;
    Ok(v)
}

/// Reads a big-endian two's-complement `i32` at `*pos`.
pub fn read_i32(data: &[u8], pos: &mut usize) -> (r: Result<i32, GhostError>)
    ensures
        match r {
            Ok(v) => fits(data@, *old(pos) as int, 4) && *final(pos) == *old(pos) + 4
                && v == i32_of_be(data@.subrange(*old(pos) as int, *old(pos) + 4)),
            Err(e) => !fits(data@, *old(pos) as int, 4) && *final(pos) == *old(pos) && e is Format,
        },
{
    if !remaining_at_least(data, *pos, 4) {
        return Err(format_err("truncated i32"));
    }
    let p = *pos;
    let v = ((data[p] as u32) << 24u32) | ((data[p + 1] as u32) << 16u32)
        | ((data[p + 2] as u32) << 8u32) | (data[p + 3] as u32);
    *pos = p + 4;
    Ok(v as i32)
}

/// Reads a big-endian `u64` at `*pos`.
pub fn read_u64(data: &[u8], pos: &mut usize) -> (r: Result<u64, GhostError>)
    ensures
        match r {
            Ok(v) => fits(data@, *old(pos) as int, 8) && *final(pos) == *old(pos) + 8
                && v == u64_of_be(data@.subrange(*old(pos) as int, *old(pos) + 8)),
            Err(e) => !fits(data@, *old(pos) as int, 8) && *final(pos) == *old(pos) && e is Format,
        },
{
    if !remaining_at_least(data, *pos, 8) {
        return Err(format_err("truncated u64"));
    }
    let p = *pos;
    let v = ((data[p] as u64) << 56u64) | ((data[p + 1] as u64) << 48u64)
        | ((data[p + 2] as u64) << 40u64) | ((data[p + 3] as u64) << 32u64)
        | ((data[p + 4] as u64) << 24u64) | ((data[p + 5] as u64) << 16u64)
        | ((data[p + 6] as u64) << 8u64) | (data[p + 7] as u64);
    *pos = p + 8;
    Ok(v)
}

/// Copies 32 bytes starting at `start` into an array.
pub fn copy32(data: &[u8], start: usize) -> (out: [u8; 32])
    requires
        fits(data@, start as int, 32),
    ensures
        out@ == data@.subrange(start as int, start + 32),
{
    let n = data.len();
    let mut out = [0u8; 32];
    let mut i: usize = 0;
    while i < 32
        invariant
            0 <= i <= 32,
            n == data@.len(),
            fits(data@, start as int, 32),
            out@.len() == 32,
            forall|j: int| 0 <= j < i ==> out@[j] == data@[start + j],
        decreases 32 - i,
    {
        out[i] = data[start + i];
        i = i + 1;
    }
    assert(out@ =~= data@.subrange(start as int, start + 32));
    out
}

/// Copies 12 bytes (a nonce) starting at `start` into an array.
pub fn copy12(data: &[u8], start: usize) -> (out: [u8; 12])
    requires
        fits(data@, start as int, 12),
    ensures
        out@ == data@.subrange(start as int, start + 12),
{
    let n = data.len();
    let mut out = [0u8; 12];
    let mut i: usize = 0;
    while i < 12
        invariant
            0 <= i <= 12,
            n == data@.len(),
            fits(data@, start as int, 12),
            out@.len() == 12,
            forall|j: int| 0 <= j < i ==> out@[j] == data@[start + j],
        decreases 12 - i,
    {
        out[i] = data[start + i];
        i = i + 1;
    }
    assert(out@ =~= data@.subrange(start as int, start + 12));
    out
}

/// Reads a 32-byte identifier at `*pos`.
pub fn read_blob32(data: &[u8], pos: &mut usize) -> (r: Result<[u8; 32], GhostError>)
    ensures
        match r {
            Ok(v) => fits(data@, *old(pos) as int, 32) && *final(pos) == *old(pos) + 32
                && v@ == data@.subrange(*old(pos) as int, *old(pos) + 32),
            Err(e) => !fits(data@, *old(pos) as int, 32) && *final(pos) == *old(pos) && e is Format,
        },
{
    if !remaining_at_least(data, *pos, 32) {
        return Err(format_err("truncated blob32"));
    }
    let v = copy32(data, *pos);
    *pos = *pos + 32;
    Ok(v)
}

/// Reads a length-prefixed UTF-8 string at `*pos`.
pub fn read_string(data: &[u8], pos: &mut usize) -> (r: Result<String, GhostError>)
    ensures
        match r {
            Ok(s) => {
                let len = u16_of_be(data@.subrange(*old(pos) as int, *old(pos) + 2)) as int;
                &&& fits(data@, *old(pos) as int, 2 + len)
                &&& *final(pos) == *old(pos) + 2 + len
                &&& valid_utf8(data@.subrange(*old(pos) + 2, *old(pos) + 2 + len))
                &&& encode_utf8(s@) == data@.subrange(*old(pos) + 2, *old(pos) + 2 + len)
            },
            Err(e) => e is Format && (!fits(data@, *old(pos) as int, 2) || {
                let len = u16_of_be(data@.subrange(*old(pos) as int, *old(pos) + 2)) as int;
                !fits(data@, *old(pos) as int, 2 + len)
                    || !valid_utf8(data@.subrange(*old(pos) + 2, *old(pos) + 2 + len))
            }),
        },
{
    let len = match read_u16(data, pos) {
        Ok(l) => l as usize,
        Err(_) => return Err(format_err("truncated string length")),
    };
    if !remaining_at_least(data, *pos, len) {
        return Err(format_err("truncated string"));
    }
    let p = *pos;
    let bytes = vstd::slice::slice_subrange(data, p, p + len);
    match utf8_decode(bytes) {
        Some(s) => {
            proof {
                crate::text::lemma_utf8_decode_encode(bytes@);
            }
            *pos = p + len;
            Ok(s)
        },
        None => Err(format_err("invalid UTF-8")),
    }
}

/// Appends a length-prefixed UTF-8 string.
pub fn write_string(buf: &mut Vec<u8>, s: &str)
    ensures
        final(buf)@ == old(buf)@ + enc_string(s@),
{
    let bytes = crate::text::utf8_bytes(s);
    put_u16(buf, bytes.len() as u16);
    put_bytes(buf, bytes);
}

/// Whether two byte strings are equal.
pub fn bytes_eq(a: &[u8], b: &[u8]) -> (r: bool)
    ensures
        r == (a@ == b@),
{
    if a.len() != b.len() {
        return false;
    }
    let mut i: usize = 0;
    while i < a.len()
        invariant
            0 <= i <= a@.len(),
            a@.len() == b@.len(),
            forall|j: int| 0 <= j < i ==> a@[j] == b@[j],
        decreases a@.len() - i,
    {
        if a[i] != b[i] {
            return false;
        }
        i = i + 1;
    }
    assert(a@ =~= b@);
    true
}

/// Byte-wise equality of two 32-byte identifiers.
pub fn eq32(a: &[u8; 32], b: &[u8; 32]) -> (r: bool)
    ensures
        r == (a@ == b@),
        r == (*a == *b),
{
    let mut i: usize = 0;
    while i < 32
        invariant
            0 <= i <= 32,
            a@.len() == 32,
            b@.len() == 32,
            forall|j: int| 0 <= j < i ==> a@[j] == b@[j],
        decreases 32 - i,
    {
        if a[i] != b[i] {
            return false;
        }
        i = i + 1;
    }
    assert(a@ =~= b@);
    proof {
        broadcast use vstd::array::group_array_axioms;
        assert(*a =~= *b);
    }
    true
}

} // verus!

verus! {

/// Splitting the rest of the input after a known prefix.
pub proof fn lemma_take(data: Seq<u8>, pos: int, a: Seq<u8>, tail: Seq<u8>)
    requires
        0 <= pos <= data.len(),
        rest(data, pos) == a + tail,
    ensures
        fits(data, pos, a.len() as int),
        data.subrange(pos, pos + a.len()) == a,
        rest(data, pos + a.len()) == tail,
{
    assert(rest(data, pos).len() == a.len() + tail.len());
    assert(data.subrange(pos, pos + a.len()) =~= (a + tail).subrange(0, a.len() as int));
    assert(rest(data, pos + a.len()) =~= (a + tail).subrange(a.len() as int, (a + tail).len() as int));
}

/// Two adjacent windows of the input joined together.
pub proof fn lemma_join(data: Seq<u8>, a: int, b: int, c: int)
    requires
        0 <= a <= b <= c <= data.len(),
    ensures
        data.subrange(a, c) == data.subrange(a, b) + data.subrange(b, c),
{
    assert(data.subrange(a, c) =~= data.subrange(a, b) + data.subrange(b, c));
}

/// Encoding the `u16` read from two bytes gives the bytes back.
pub proof fn lemma_be16_of(b: Seq<u8>)
    requires
        b.len() == 2,
    ensures
        be16(u16_of_be(b)) == b,
{
    let b0 = b[0];
    let b1 = b[1];
    let v = u16_of_be(b);
    assert(((v >> 8u16) as u8) == b0 && (v as u8) == b1) by (bit_vector)
        requires
            v == (((b0 as u16) << 8u16) | (b1 as u16)) as u16,
    ;
    assert(be16(v) =~= b);
}

/// Encoding the `u32` read from four bytes gives the bytes back.
pub proof fn lemma_be32_of(b: Seq<u8>)
    requires
        b.len() == 4,
    ensures
        be32(u32_of_be(b)) == b,
{
    let b0 = b[0];
    let b1 = b[1];
    let b2 = b[2];
    let b3 = b[3];
    let v = u32_of_be(b);
    assert(((v >> 24u32) as u8) == b0 && ((v >> 16u32) as u8) == b1 && ((v >> 8u32) as u8) == b2
        && (v as u8) == b3) by (bit_vector)
        requires
            v == (((b0 as u32) << 24u32) | ((b1 as u32) << 16u32) | ((b2 as u32) << 8u32) | (b3 as u32)) as u32,
    ;
    assert(be32(v) =~= b);
}

/// Encoding the `i32` read from four bytes gives the bytes back.
pub proof fn lemma_be_i32_of(b: Seq<u8>)
    requires
        b.len() == 4,
    ensures
        be_i32(i32_of_be(b)) == b,
{
    lemma_be32_of(b);
    let u = u32_of_be(b);
    assert(((u as i32) as u32) == u) by (bit_vector);
}

/// Encoding the `u64` read from eight bytes gives the bytes back.
pub proof fn lemma_be64_of(b: Seq<u8>)
    requires
        b.len() == 8,
    ensures
        be64(u64_of_be(b)) == b,
{
    let b0 = b[0];
    let b1 = b[1];
    let b2 = b[2];
    let b3 = b[3];
    let b4 = b[4];
    let b5 = b[5];
    let b6 = b[6];
    let b7 = b[7];
    let v = u64_of_be(b);
    assert(((v >> 56u64) as u8) == b0 && ((v >> 48u64) as u8) == b1 && ((v >> 40u64) as u8) == b2
        && ((v >> 32u64) as u8) == b3 && ((v >> 24u64) as u8) == b4 && ((v >> 16u64) as u8) == b5
        && ((v >> 8u64) as u8) == b6 && (v as u8) == b7) by (bit_vector)
        requires
            v == (((b0 as u64) << 56u64) | ((b1 as u64) << 48u64) | ((b2 as u64) << 40u64)
                | ((b3 as u64) << 32u64) | ((b4 as u64) << 24u64) | ((b5 as u64) << 16u64)
                | ((b6 as u64) << 8u64) | (b7 as u64)) as u64,
    ;
    assert(be64(v) =~= b);
}

/// The concatenation of a sequence of 32-byte identifiers.
pub open spec fn flat32(s: Seq<[u8; 32]>) -> Seq<u8>
    decreases s.len(),
{
    if s.len() == 0 {
        Seq::empty()
    } else {
        flat32(s.drop_last()) + s.last()@
    }
}

/// Appending one identifier appends its bytes.
pub proof fn lemma_flat32_push(s: Seq<[u8; 32]>, x: [u8; 32])
    ensures
        flat32(s.push(x)) == flat32(s) + x@,
{
    assert(s.push(x).drop_last() =~= s);
}

/// The concatenation has 32 bytes per identifier.
pub proof fn lemma_flat32_len(s: Seq<[u8; 32]>)
    ensures
        flat32(s).len() == 32 * s.len(),
    decreases s.len(),
{
    if s.len() > 0 {
        lemma_flat32_len(s.drop_last());
    }
}

/// The concatenation splits after the first `i` identifiers.
pub proof fn lemma_flat32_split(s: Seq<[u8; 32]>, i: int)
    requires
        0 <= i <= s.len(),
    ensures
        flat32(s) == flat32(s.take(i)) + flat32(s.skip(i)),
    decreases s.len(),
{
    if i == s.len() {
        assert(s.take(i) =~= s);
        assert(s.skip(i) =~= Seq::<[u8; 32]>::empty());
        assert(flat32(s) + Seq::<u8>::empty() =~= flat32(s));
    } else {
        lemma_flat32_split(s.drop_last(), i);
        assert(s.drop_last().take(i) =~= s.take(i));
        assert(s.drop_last().skip(i) =~= s.skip(i).drop_last());
        assert(s.skip(i).last() == s.last());
        assert(flat32(s) =~= flat32(s.take(i)) + flat32(s.skip(i)));
    }
}

/// The identifiers after the first `i`: the next one's bytes, then the rest.
pub proof fn lemma_flat32_next(s: Seq<[u8; 32]>, i: int)
    requires
        0 <= i < s.len(),
    ensures
        flat32(s.skip(i)) == s[i]@ + flat32(s.skip(i + 1)),
{
    let t = s.skip(i);
    lemma_flat32_split(t, 1);
    assert(t.take(1) =~= seq![s[i]]);
    assert(t.skip(1) =~= s.skip(i + 1));
    let one = seq![s[i]];
    assert(one.drop_last() =~= Seq::<[u8; 32]>::empty());
    assert(flat32(one.drop_last()) == Seq::<u8>::empty());
    assert(one.last() == s[i]);
    assert(flat32(one) == flat32(one.drop_last()) + one.last()@);
    assert(flat32(one) =~= s[i]@);
}

} // verus!

verus! {

/// The bytes of the `i`-th identifier inside the concatenation.
pub proof fn lemma_flat32_at(s: Seq<[u8; 32]>, i: int)
    requires
        0 <= i < s.len(),
    ensures
        flat32(s).len() == 32 * s.len(),
        flat32(s).subrange(32 * i, 32 * i + 32) == s[i]@,
{
    lemma_flat32_len(s);
    lemma_flat32_split(s, i);
    lemma_flat32_next(s, i);
    lemma_flat32_len(s.take(i));
    assert(s.take(i).len() == i);
    let a = flat32(s.take(i));
    let b = s[i]@;
    let c = flat32(s.skip(i + 1));
    assert(flat32(s) == a + (b + c));
    assert(flat32(s).subrange(32 * i, 32 * i + 32) =~= b);
}

} // verus!

verus! {

/// Two identifiers with the same bytes are the same identifier.
pub proof fn lemma_arr32_eq(a: [u8; 32], b: [u8; 32])
    requires
        a@ == b@,
    ensures
        a == b,
{
    broadcast use vstd::array::group_array_axioms;

    assert(a =~= b);
}

} // verus!

verus! {

/// The concatenation of the encodings of each element.
pub open spec fn concat_map<T>(s: Seq<T>, f: spec_fn(T) -> Seq<u8>) -> Seq<u8>
    decreases s.len(),
{
    if s.len() == 0 {
        Seq::empty()
    } else {
        f(s[0]) + concat_map(s.drop_first(), f)
    }
}

/// Appending an element appends its encoding.
pub proof fn lemma_concat_map_push<T>(s: Seq<T>, x: T, f: spec_fn(T) -> Seq<u8>)
    ensures
        concat_map(s.push(x), f) == concat_map(s, f) + f(x),
    decreases s.len(),
{
    if s.len() == 0 {
        assert(s.push(x).drop_first() =~= Seq::<T>::empty());
        assert(concat_map(s.push(x).drop_first(), f) == Seq::<u8>::empty());
        assert(s.push(x)[0] == x);
        assert(concat_map(s.push(x), f) =~= f(x));
        assert(concat_map(s, f) + f(x) =~= f(x));
    } else {
        lemma_concat_map_push(s.drop_first(), x, f);
        assert(s.push(x).drop_first() =~= s.drop_first().push(x));
        assert(concat_map(s.push(x), f) =~= concat_map(s, f) + f(x));
    }
}

/// The encodings after the first `i` elements: the next one, then the rest.
pub proof fn lemma_concat_map_skip<T>(s: Seq<T>, i: int, f: spec_fn(T) -> Seq<u8>)
    requires
        0 <= i < s.len(),
    ensures
        concat_map(s.skip(i), f) == f(s[i]) + concat_map(s.skip(i + 1), f),
{
    assert(s.skip(i).drop_first() =~= s.skip(i + 1));
    assert(s.skip(i)[0] == s[i]);
}

/// Reading a length-prefixed string whose encoding starts the rest of the input.
pub proof fn lemma_string_at(data: Seq<u8>, pos: int, chars: Seq<char>, tail: Seq<u8>)
    requires
        0 <= pos <= data.len(),
        string_fits(chars),
        rest(data, pos) == enc_string(chars) + tail,
    ensures
        fits(data, pos, 2),
        u16_of_be(data.subrange(pos, pos + 2)) as int == encode_utf8(chars).len(),
        fits(data, pos, 2 + encode_utf8(chars).len() as int),
        data.subrange(pos + 2, pos + 2 + encode_utf8(chars).len()) == encode_utf8(chars),
        valid_utf8(encode_utf8(chars)),
        rest(data, pos + 2 + encode_utf8(chars).len()) == tail,
{
    let b = encode_utf8(chars);
    let l = be16(b.len() as u16);
    lemma_be16_roundtrip(b.len() as u16);
    assert(enc_string(chars) + tail =~= l + (b + tail));
    lemma_take(data, pos, l, b + tail);
    lemma_take(data, pos + 2, b, tail);
    crate::text::lemma_utf8_roundtrip(chars);
}

/// A string is determined by its UTF-8 encoding.
pub proof fn lemma_utf8_injective(a: Seq<char>, b: Seq<char>)
    requires
        encode_utf8(a) == encode_utf8(b),
    ensures
        a == b,
{
    crate::text::lemma_utf8_roundtrip(a);
    crate::text::lemma_utf8_roundtrip(b);
}

} // verus!

verus! {

/// A string with its length prefix is determined by its encoding, whatever follows.
pub proof fn lemma_string_unique(a: Seq<char>, b: Seq<char>, t1: Seq<u8>, t2: Seq<u8>)
    requires
        string_fits(a),
        string_fits(b),
        enc_string(a) + t1 == enc_string(b) + t2,
    ensures
        a == b,
        t1 == t2,
{
    let x = enc_string(a) + t1;
    let ea = encode_utf8(a);
    let eb = encode_utf8(b);
    lemma_be16_roundtrip(ea.len() as u16);
    lemma_be16_roundtrip(eb.len() as u16);
    assert(x.subrange(0, 2) =~= be16(ea.len() as u16));
    assert((enc_string(b) + t2).subrange(0, 2) =~= be16(eb.len() as u16));
    assert(ea.len() == eb.len());
    assert(x.subrange(2, 2 + ea.len() as int) =~= ea);
    assert((enc_string(b) + t2).subrange(2, 2 + eb.len() as int) =~= eb);
    lemma_utf8_injective(a, b);
    assert(t1 =~= x.subrange(2 + ea.len() as int, x.len() as int));
    assert(t2 =~= (enc_string(b) + t2).subrange(2 + eb.len() as int, x.len() as int));
}

/// The window read as a length-prefixed string is that string's encoding.
pub proof fn lemma_read_string_window(data: Seq<u8>, p: int, len: int, chars: Seq<char>)
    requires
        fits(data, p, 2 + len),
        len == u16_of_be(data.subrange(p, p + 2)) as int,
        encode_utf8(chars) == data.subrange(p + 2, p + 2 + len),
    ensures
        string_fits(chars),
        data.subrange(p, p + 2 + len) == enc_string(chars),
{
    lemma_be16_of(data.subrange(p, p + 2));
    assert(data.subrange(p, p + 2 + len) =~= data.subrange(p, p + 2) + data.subrange(p + 2, p + 2 + len));
}

/// A window of the input followed by what comes after it is the rest of the input.
pub proof fn lemma_rest_split(data: Seq<u8>, p: int, q: int)
    requires
        0 <= p <= q <= data.len(),
    ensures
        rest(data, p) == data.subrange(p, q) + rest(data, q),
{
    assert(rest(data, p) =~= data.subrange(p, q) + rest(data, q));
}

} // verus!
