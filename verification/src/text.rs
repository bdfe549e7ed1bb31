//! Text: UTF-8 decoding of byte strings read off the wire, and the few
//! string operations the library needs, over the character view of `str`.

use vstd::prelude::*;
use vstd::string::*;
use vstd::utf8::*;

verus! {

/// Decodes `bytes` as UTF-8 through `String::from_utf8`.
///
/// Trusted: `String::from_utf8` is documented to succeed exactly when the bytes
/// are valid UTF-8, and then to hold those same bytes; the contract states that
/// over vstd's model of UTF-8.
#[verifier::external_body]
pub(crate) fn utf8_decode(bytes: &[u8]) -> (r: Option<String>)
    ensures
        r is Some <==> valid_utf8(bytes@),
        r matches Some(s) ==> s@ == decode_utf8(bytes@),
{
    String::from_utf8(bytes.to_vec()).ok()
}

/// The UTF-8 bytes of `s`.
pub fn utf8_bytes(s: &str) -> (b: &[u8])
    ensures
        b@ == encode_utf8(s@),
{
    s.as_bytes()
}

/// Decoding the UTF-8 encoding of a string gives the string back.
pub proof fn lemma_utf8_roundtrip(chars: Seq<char>)
    ensures
        valid_utf8(encode_utf8(chars)),
        decode_utf8(encode_utf8(chars)) == chars,
{
    encode_utf8_valid_utf8(chars);
    encode_utf8_decode_utf8(chars);
}

/// A decoded string's encoding is the bytes it was decoded from.
pub proof fn lemma_utf8_decode_encode(bytes: Seq<u8>)
    requires
        valid_utf8(bytes),
    ensures
        encode_utf8(decode_utf8(bytes)) == bytes,
{
    decode_utf8_encode_utf8(bytes);
}

/// Whether two strings hold the same characters.
pub(crate) fn str_eq(a: &str, b: &str) -> (r: bool)
    ensures
        r == (a@ == b@),
{
    let x = a.to_owned();
    let y = b.to_owned();
    x == y
}

/// `head` followed by `tail`.
pub(crate) fn string_concat(head: String, tail: &str) -> (s: String)
    ensures
        s@ == head@ + tail@,
{
    head.concat(tail)
}

/// Whether `s` starts with `p`.
pub open spec fn has_prefix(s: Seq<char>, p: Seq<char>) -> bool {
    p.len() <= s.len() && s.subrange(0, p.len() as int) == p
}

/// Whether the characters of `s` start with those of `p`.
pub fn starts_with(s: &str, p: &str) -> (r: bool)
    ensures
        r == has_prefix(s@, p@),
{
    let n = s.unicode_len();
    let m = p.unicode_len();
    if m > n {
        return false;
    }
    let mut i: usize = 0;
    while i < m
        invariant
            0 <= i <= m,
            m == p@.len(),
            n == s@.len(),
            m <= n,
            forall|j: int| 0 <= j < i ==> s@[j] == p@[j],
        decreases m - i,
    {
        if s.get_char(i) != p.get_char(i) {
            assert(s@.subrange(0, m as int)[i as int] != p@[i as int]);
            return false;
        }
        i = i + 1;
    }
    assert(s@.subrange(0, m as int) =~= p@);
    true
}

/// Finds the first `c` in `s` at or after `from`.
pub fn find_char(s: &str, c: char, from: usize) -> (r: Option<usize>)
    ensures
        match r {
            Some(i) => from <= i < s@.len() && s@[i as int] == c && forall|k: int| from <= k < i ==> s@[k] != c,
            None => forall|k: int| from <= k < s@.len() ==> s@[k] != c,
        },
{
    let n = s.unicode_len();
    let mut i: usize = from;
    while i < n
        invariant
            from <= i || n <= i,
            n == s@.len(),
            forall|k: int| from <= k < i && k < n ==> s@[k] != c,
        decreases n - i,
    {
        if s.get_char(i) == c {
            return Some(i);
        }
        i = i + 1;
    }
    None
}

/// The characters of `s` from `from` to `to`, as an owned string.
pub fn substring(s: &str, from: usize, to: usize) -> (r: String)
    requires
        from <= to <= s@.len(),
    ensures
        r@ == s@.subrange(from as int, to as int),
{
    s.substring_char(from, to).to_string()
}

/// The lowercase hexadecimal digit of a value below 16.
pub open spec fn hex_digit(n: int) -> char {
    if n < 10 { (48 + n) as char } else { (87 + n) as char }
}

/// Lowercase hexadecimal text of a byte string, two digits per byte, high nibble first.
pub open spec fn hex_lower(b: Seq<u8>) -> Seq<char>
    decreases b.len(),
{
    if b.len() == 0 {
        Seq::empty()
    } else {
        hex_lower(b.drop_last()) + seq![hex_digit(b.last() as int / 16), hex_digit(b.last() as int % 16)]
    }
}

proof fn lemma_hex_lower_shape(b: Seq<u8>)
    ensures
        hex_lower(b).len() == 2 * b.len(),
        forall|k: int| 0 <= k < b.len() ==> hex_lower(b)[2 * k] == hex_digit(b[k] as int / 16)
            && hex_lower(b)[2 * k + 1] == hex_digit(b[k] as int % 16),
    decreases b.len(),
{
    if b.len() > 0 {
        let p = b.drop_last();
        lemma_hex_lower_shape(p);
        let h = hex_lower(b);
        assert forall|k: int| 0 <= k < b.len() implies h[2 * k] == hex_digit(b[k] as int / 16)
            && h[2 * k + 1] == hex_digit(b[k] as int % 16) by {
            if k < p.len() {
                assert(h[2 * k] == hex_lower(p)[2 * k]);
                assert(h[2 * k + 1] == hex_lower(p)[2 * k + 1]);
                assert(b[k] == p[k]);
            }
        }
    }
}

proof fn lemma_hex_digit(n: int)
    requires
        0 <= n < 16,
    ensures
        '\0' <= hex_digit(n) <= '\u{7f}',
        hex_value(hex_digit(n) as u8) == Some(n as u8),
{
    if n < 10 {
        assert(hex_digit(n) as u32 == 48 + n);
    } else {
        assert(hex_digit(n) as u32 == 87 + n);
    }
}

/// Hexadecimal text written by `hex_encode` decodes back to the same bytes.
pub proof fn lemma_hex_roundtrip(b: Seq<u8>)
    ensures
        hex_decoded(encode_utf8(hex_lower(b))) == Some(b),
{
    lemma_hex_lower_shape(b);
    let h = hex_lower(b);
    assert(is_ascii_chars(h)) by {
        assert forall|i: int| 0 <= i < h.len() implies '\0' <= #[trigger] h[i] <= '\u{7f}' by {
            let k = i / 2;
            lemma_hex_digit(b[k] as int / 16);
            lemma_hex_digit(b[k] as int % 16);
            if i == 2 * k {
                assert(h[i] == hex_digit(b[k] as int / 16));
            } else {
                assert(i == 2 * k + 1);
                assert(h[i] == hex_digit(b[k] as int % 16));
            }
        }
    }
    is_ascii_chars_encode_utf8(h);
    let t = encode_utf8(h);
    assert forall|i: int| 0 <= i < t.len() implies (#[trigger] hex_value(t[i])) is Some by {
        let k = i / 2;
        assert(t[i] == h[i] as u8);
        lemma_hex_digit(b[k] as int / 16);
        lemma_hex_digit(b[k] as int % 16);
        if i == 2 * k {
            assert(h[i] == hex_digit(b[k] as int / 16));
        } else {
            assert(i == 2 * k + 1);
            assert(h[i] == hex_digit(b[k] as int % 16));
        }
    }
    let d = hex_decoded(t)->0;
    assert forall|k: int| 0 <= k < b.len() implies d[k] == b[k] by {
        assert(t[2 * k] == h[2 * k] as u8);
        assert(t[2 * k + 1] == h[2 * k + 1] as u8);
        let hi = b[k] as int / 16;
        let lo = b[k] as int % 16;
        lemma_hex_digit(hi);
        lemma_hex_digit(lo);
        assert(hex_value(t[2 * k]) == Some(hi as u8));
        assert(hex_value(t[2 * k + 1]) == Some(lo as u8));
        assert(hi * 16 + lo == b[k]);
    }
    assert(d =~= b);
}

/// Encodes bytes as lowercase hexadecimal with `hex::encode`.
///
/// Trusted: hex 0.4 writes each byte as two lowercase digits, high nibble
/// first, which is `hex_lower`.
#[verifier::external_body]
pub(crate) fn hex_encode(bytes: &[u8]) -> (s: String)
    ensures
        s@ == hex_lower(bytes@),
{
    hex::encode(bytes)
}

/// The value of an ASCII hexadecimal digit (either case); `None` for any other byte.
pub open spec fn hex_value(b: u8) -> Option<u8> {
    if 48 <= b <= 57 {
        Some((b - 48) as u8)
    } else if 97 <= b <= 102 {
        Some((b - 87) as u8)
    } else if 65 <= b <= 70 {
        Some((b - 55) as u8)
    } else {
        None
    }
}

/// The bytes hexadecimal text (given by its bytes) stands for: `None` when its
/// length is odd or a byte is not a hexadecimal digit.
pub open spec fn hex_decoded(t: Seq<u8>) -> Option<Seq<u8>> {
    if t.len() % 2 == 0 && forall|i: int| 0 <= i < t.len() ==> (#[trigger] hex_value(t[i])) is Some {
        Some(Seq::new((t.len() / 2) as nat, |i: int| (hex_value(t[2 * i])->0 * 16 + hex_value(t[2 * i + 1])->0) as u8))
    } else {
        None
    }
}

/// The text `hex::decode` gives as its error for `text` (the `Display` of
/// its `FromHexError`).
pub uninterp spec fn spec_hex_decode_error(text: Seq<char>) -> Seq<char>;

/// Decodes hexadecimal text with `hex::decode`, its error turned into the
/// error's text.
///
/// Trusted: hex 0.4 accepts text of even length made of digits of either
/// case, two per byte, high nibble first, which is `hex_decoded`. Otherwise
/// the error's text is named `spec_hex_decode_error`; for text of odd length
/// in bytes it is "Odd number of digits" (the check `decode` makes first).
#[verifier::external_body]
pub(crate) fn hex_decode(text: &str) -> (r: Result<Vec<u8>, String>)
    ensures
        match r {
            Ok(b) => hex_decoded(encode_utf8(text@)) == Some(b@),
            Err(m) => hex_decoded(encode_utf8(text@)) is None
                && m@ == spec_hex_decode_error(text@)
                && (encode_utf8(text@).len() % 2 == 1 ==> m@ == "Odd number of digits"@),
        },
{
    hex::decode(text).map_err(|e| e.to_string())
}

} // verus!
