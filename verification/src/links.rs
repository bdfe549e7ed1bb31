//! Identifiers and URLs the client reads from and hands to its user: 32-byte
//! ids written in hex, the voice connection URL of a channel, the relay's
//! host for the voice transport, and invite links.

use vstd::prelude::*;
use vstd::string::*;
use vstd::utf8::encode_utf8;

use crate::constants::{INVITE_LINK_BASE, INVITE_RELAY_KEY, INVITE_TOKEN_KEY};
use crate::relay::{base64_url_nopad, has_prefix_at, spec_base64_url_nopad};
use crate::text::{has_prefix, hex_decode, hex_decoded, spec_hex_decode_error, string_concat, substring, utf8_bytes};

verus! {

/// The 32-byte id written as hex text (either case); `None` when the text is
/// not hex or not 32 bytes long.
pub open spec fn hex_id_of(text: Seq<char>) -> Option<Seq<u8>> {
    match hex_decoded(encode_utf8(text)) {
        Some(b) => if b.len() == 32 { Some(b) } else { None },
        None => None,
    }
}

/// Reads a 32-byte id written in hex.
pub fn parse_hex_id(hex: &str) -> (r: Option<[u8; 32]>)
    ensures
        match r {
            Some(id) => hex_id_of(hex@) == Some(id@),
            None => hex_id_of(hex@) is None,
        },
{
    let bytes = match hex_decode(hex) {
        Ok(b) => b,
        Err(_) => return None,
    };
    crate::records::blob32(bytes.as_slice())
}

/// Reads a 32-byte id a user hands over in hex: the hex decoder's reason when
/// it is not hex, `invalid 32-byte id` when it is hex of another length.
pub fn parse_id(hex: &str) -> (r: Result<[u8; 32], String>)
    ensures
        match r {
            Ok(id) => hex_id_of(hex@) == Some(id@),
            Err(m) => match hex_decoded(encode_utf8(hex@)) {
                None => m@ == spec_hex_decode_error(hex@),
                Some(b) => b.len() != 32 && m@ == "invalid 32-byte id"@,
            },
        },
{
    let bytes = match hex_decode(hex) {
        Ok(b) => b,
        Err(reason) => return Err(reason),
    };
    match crate::records::blob32(bytes.as_slice()) {
        Some(id) => Ok(id),
        None => Err("invalid 32-byte id".to_string()),
    }
}

/// `s` with the first occurrence of `from` replaced by `to`.
pub open spec fn replace_first(s: Seq<char>, from: Seq<char>, to: Seq<char>) -> Seq<char>
    decreases s.len(),
{
    if s.len() == 0 {
        Seq::empty()
    } else if from.len() > 0 && has_prefix(s, from) {
        to + s.skip(from.len() as int)
    } else {
        seq![s[0]] + replace_first(s.skip(1), from, to)
    }
}

/// Replaces the first occurrence of `from` in `s` by `to` (`str::replacen(.., 1)`).
pub fn replace_first_str(s: &str, from: &str, to: &str) -> (r: String)
    requires
        from@.len() > 0,
    ensures
        r@ == replace_first(s@, from@, to@),
{
    let n = s.unicode_len();
    let mut i: usize = 0;
    assert(s@.take(0) =~= Seq::<char>::empty());
    assert(s@.skip(0) =~= s@);
    while i < n
        invariant
            0 <= i <= n,
            n == s@.len(),
            from@.len() > 0,
            replace_first(s@, from@, to@) == s@.take(i as int) + replace_first(s@.skip(i as int), from@, to@),
        decreases n - i,
    {
        let ghost rest = s@.skip(i as int);
        if has_prefix_at(s, from, i) {
            let head = substring(s, 0, i);
            let with_to = string_concat(head, to);
            let tail = s.substring_char(i + from.unicode_len(), n);
            assert(rest.skip(from@.len() as int) =~= s@.skip(i + from@.len()));
            return string_concat(with_to, tail);
        }
        assert(rest.skip(1) =~= s@.skip(i + 1));
        assert(s@.take(i + 1) =~= s@.take(i as int) + seq![rest[0]]);
        i = i + 1;
    }
    assert(s@.take(n as int) =~= s@);
    assert(s@.skip(n as int) =~= Seq::<char>::empty());
    substring(s, 0, n)
}

/// The WebSocket URL of a voice channel: the relay URL with its first
/// `http://` made `ws://` and then its first `https://` made `wss://`,
/// followed by `/voice/` and the channel id in URL-safe base64.
pub open spec fn voice_ws_url_of(relay_url: Seq<char>, channel_id: Seq<u8>) -> Seq<char> {
    replace_first(replace_first(relay_url, "http://"@, "ws://"@), "https://"@, "wss://"@) + "/voice/"@
        + spec_base64_url_nopad(channel_id)
}

/// The voice connection URL for a channel given by its hex id; when the id
/// is not hex, the error `bad channel_id: ` followed by the hex decoder's reason.
pub fn voice_ws_url(relay_url: &str, channel_id: &str) -> (r: Result<String, String>)
    ensures
        match r {
            Ok(u) => hex_decoded(encode_utf8(channel_id@)) matches Some(b) && u@ == voice_ws_url_of(relay_url@, b),
            Err(m) => hex_decoded(encode_utf8(channel_id@)) is None
                && m@ == "bad channel_id: "@ + spec_hex_decode_error(channel_id@),
        },
{
    proof {
        reveal_strlit("http://");
        reveal_strlit("https://");
    }
    let text_bytes = utf8_bytes(channel_id);
    let text_len = text_bytes.len();
    let channel_bytes = match hex_decode(channel_id) {
        Ok(b) => b,
        Err(reason) => return Err(string_concat("bad channel_id: ".to_string(), reason.as_str())),
    };
    assert(channel_bytes@.len() == text_len / 2);
    let b64 = base64_url_nopad(channel_bytes.as_slice());
    let base1 = replace_first_str(relay_url, "http://", "ws://");
    let base = replace_first_str(base1.as_str(), "https://", "wss://");
    let u = string_concat(base, "/voice/");
    Ok(string_concat(u, b64.as_str()))
}

/// The host `url::Url::parse` finds in a URL; `None` when it does not parse
/// or has no host.
pub uninterp spec fn spec_url_host(url: Seq<char>) -> Option<Seq<char>>;

/// Parses with `url::Url::parse` and takes `host_str`.
///
/// Trusted: the outcome is named `spec_url_host`.
#[verifier::external_body]
fn url_parse_host(url: &str) -> (r: Option<String>)
    ensures
        match r {
            Some(h) => spec_url_host(url@) == Some(h@),
            None => spec_url_host(url@) is None,
        },
{
    url::Url::parse(url).ok()?.host_str().map(|h| h.to_string())
}

/// The relay's host, where the voice transport connects.
pub fn relay_host(relay_url: &str) -> (r: Result<String, String>)
    ensures
        match r {
            Ok(h) => spec_url_host(relay_url@) == Some(h@),
            Err(_) => spec_url_host(relay_url@) is None,
        },
{
    match url_parse_host(relay_url) {
        Some(h) => Ok(h),
        None => Err("no host in relay url".to_string()),
    }
}

/// What `url::Url::parse(base)` followed by `query_pairs_mut().append_pair(k1, v1)
/// .append_pair(k2, v2)` serializes to; `None` when `base` does not parse.
pub uninterp spec fn spec_url_with_query(base: Seq<char>, k1: Seq<char>, v1: Seq<char>, k2: Seq<char>, v2: Seq<char>) -> Option<Seq<char>>;

/// Parses `base` with `url::Url::parse`, appends two form-encoded query pairs
/// with `query_pairs_mut().append_pair(..)`, and serializes the URL.
///
/// Trusted: the outcome, including whether `base` parses, is named
/// `spec_url_with_query`.
#[verifier::external_body]
fn url_with_query(base: &str, k1: &str, v1: &str, k2: &str, v2: &str) -> (r: Option<String>)
    ensures
        match r {
            Some(l) => spec_url_with_query(base@, k1@, v1@, k2@, v2@) == Some(l@),
            None => spec_url_with_query(base@, k1@, v1@, k2@, v2@) is None,
        },
{
    let mut link = url::Url::parse(base).ok()?;
    link.query_pairs_mut().append_pair(k1, v1).append_pair(k2, v2);
    Some(link.to_string())
}

/// The invite link for a token registered at a relay: `ghost://join` with the
/// relay URL and the token as form-encoded query pairs, in that order. `None`
/// only if the fixed base URL failed to parse, which it does not.
pub fn invite_link(relay_url: &str, token: &str) -> (r: Option<String>)
    ensures
        match r {
            Some(l) => spec_url_with_query(INVITE_LINK_BASE@, INVITE_RELAY_KEY@, relay_url@, INVITE_TOKEN_KEY@, token@)
                == Some(l@),
            None => spec_url_with_query(INVITE_LINK_BASE@, INVITE_RELAY_KEY@, relay_url@, INVITE_TOKEN_KEY@, token@)
                is None,
        },
{
    url_with_query(INVITE_LINK_BASE, INVITE_RELAY_KEY, relay_url, INVITE_TOKEN_KEY, token)
}

} // verus!
