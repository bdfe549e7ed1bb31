//! The relay protocol as the client sees it: the events a mailbox connection
//! reports, the frames it reads and how they are told apart, acknowledgement
//! parsing, reconnection backoff, and the URLs derived from the relay's base URL.

use vstd::prelude::*;

use base64::Engine;

use crate::codec::{u64_of_be, lemma_be64_of};
use crate::error::GhostError;
use crate::text::{find_char, starts_with, str_eq, string_concat, substring, has_prefix};

verus! {

/// Identity log entry with a key transparency inclusion proof.
pub struct IdLogBlobWithProof {
    pub seq: u64,
    pub payload: Vec<u8>,
    pub inclusion_proof: Vec<u8>,
}

/// Identity log entries with their proofs and the relay's signed checkpoint.
pub struct IdLogWithProofs {
    pub entries: Vec<IdLogBlobWithProof>,
    pub checkpoint: Vec<u8>,
}

/// A blob delivered to a mailbox, with the sequence number and arrival time
/// the relay stamped on it.
pub struct IncomingBlob {
    pub mailbox_id: [u8; 32],
    pub seq: u64,
    pub received_at: u64,
    pub payload: Vec<u8>,
}

/// The relay's acknowledgement of a sent blob.
pub struct Ack {
    pub seq: u64,
    pub epoch_mismatch: bool,
}

/// What a mailbox connection reports.
pub enum RelayEvent {
    Blob(IncomingBlob),
    Ack(Ack),
    Error { mailbox_id: [u8; 32], message: String },
    Gap { mailbox_id: [u8; 32] },
    VoiceState { mailbox_id: [u8; 32], json: String },
    Presence { mailbox_id: [u8; 32], json: String },
    ConnectionState { mailbox_id: [u8; 32], connected: bool },
}

/// A frame to send on a mailbox connection.
pub enum WsOutgoing {
    Binary(Vec<u8>),
    Text(String),
}

/// Bytes of the sequence number at the start of a binary frame.
pub const WS_SEQ_SIZE: usize = 8;
/// Bytes of a binary frame's header: sequence number and arrival time.
pub const WS_FRAME_HEADER_SIZE: usize = 16;
/// Prefix of an error reported by the relay as text.
pub const RELAY_ERROR_PREFIX: &'static str = "error: ";
/// Prefix of a voice-state notification.
pub const VOICE_STATE_PREFIX: &'static str = "{\"vs";
/// Prefix of a presence notification.
pub const PRESENCE_PREFIX: &'static str = "{\"ps";
/// First reconnection delay, in seconds.
pub const INITIAL_BACKOFF_SECS: u64 = 1;
/// Longest reconnection delay, in seconds.
pub const MAX_BACKOFF_SECS: u64 = 30;

/// Reads a binary frame `[seq:8][received_at:8][payload]`; `None` when it is
/// shorter than its header.
pub fn parse_ws_binary(mailbox_id: [u8; 32], data: &[u8]) -> (r: Option<IncomingBlob>)
    ensures
        match r {
            Some(b) => {
                &&& data@.len() >= WS_FRAME_HEADER_SIZE
                &&& b.mailbox_id == mailbox_id
                &&& b.seq == u64_of_be(data@.subrange(0, 8))
                &&& b.received_at == u64_of_be(data@.subrange(8, 16))
                &&& b.payload@ == data@.subrange(16, data@.len() as int)
            },
            None => data@.len() < WS_FRAME_HEADER_SIZE,
        },
{
    if data.len() < WS_FRAME_HEADER_SIZE {
        return None;
    }
    let seq = be64_at(data, 0);
    let received_at = be64_at(data, WS_SEQ_SIZE);
    let payload = vstd::slice::slice_to_vec(vstd::slice::slice_subrange(data, WS_FRAME_HEADER_SIZE, data.len()));
    Some(IncomingBlob { mailbox_id, seq, received_at, payload })
}

fn be64_at(data: &[u8], at: usize) -> (v: u64)
    requires
        at + 8 <= data@.len(),
    ensures
        v == u64_of_be(data@.subrange(at as int, at + 8)),
{
    let n = data.len();
    let mut v: u64 = 0;
    let mut i: usize = 0;
    while i < 8
        invariant
            0 <= i <= 8,
            n == data@.len(),
            at + 8 <= data@.len(),
            v == u64_of_be_prefix(data@.subrange(at as int, at + 8), i as int),
        decreases 8 - i,
    {
        proof {
            lemma_prefix_step(data@.subrange(at as int, at + 8), i as int, v);
        }
        v = (v << 8u64) | (data[at + i] as u64);
        i = i + 1;
    }
    proof {
        lemma_prefix_full(data@.subrange(at as int, at + 8));
    }
    v
}

/// The big-endian value of the first `n` bytes of `b`.
pub open spec fn u64_of_be_prefix(b: Seq<u8>, n: int) -> u64
    decreases n,
{
    if n <= 0 {
        0
    } else {
        ((u64_of_be_prefix(b, n - 1) << 8u64) | (b[n - 1] as u64)) as u64
    }
}

proof fn lemma_prefix_step(b: Seq<u8>, i: int, v: u64)
    requires
        0 <= i < 8,
        b.len() == 8,
        v == u64_of_be_prefix(b, i),
    ensures
        u64_of_be_prefix(b, i + 1) == ((v << 8u64) | (b[i] as u64)) as u64,
{
}

proof fn lemma_prefix_full(b: Seq<u8>)
    requires
        b.len() == 8,
    ensures
        u64_of_be_prefix(b, 8) == u64_of_be(b),
{
    reveal_with_fuel(u64_of_be_prefix, 9);
    lemma_be64_of(b);
    let (b0, b1, b2, b3, b4, b5, b6, b7) = (b[0], b[1], b[2], b[3], b[4], b[5], b[6], b[7]);
    assert(((((((((((((((((0u64 << 8u64) | b0 as u64) << 8u64) | b1 as u64) << 8u64) | b2 as u64) << 8u64)
        | b3 as u64) << 8u64) | b4 as u64) << 8u64) | b5 as u64) << 8u64) | b6 as u64) << 8u64) | b7 as u64)
        == (((b0 as u64) << 56u64) | ((b1 as u64) << 48u64) | ((b2 as u64) << 40u64) | ((b3 as u64) << 32u64)
        | ((b4 as u64) << 24u64) | ((b5 as u64) << 16u64) | ((b6 as u64) << 8u64) | (b7 as u64))) by (bit_vector);
}

/// Whether `c` is an ASCII decimal digit.
pub open spec fn is_digit(c: char) -> bool {
    48 <= c as u32 <= 57
}

/// The value of a string of decimal digits.
pub open spec fn digits_value(d: Seq<char>) -> int
    decreases d.len(),
{
    if d.len() == 0 {
        0
    } else {
        digits_value(d.drop_last()) * 10 + (d.last() as u32 - 48)
    }
}

/// The digits of an unsigned decimal: the text without one leading `+`.
pub open spec fn unsigned_digits(t: Seq<char>) -> Seq<char> {
    if t.len() > 0 && t[0] == '+' { t.skip(1) } else { t }
}

/// How `u64::from_str` reads `t`: an optional `+`, then at least one decimal
/// digit and nothing else, with a value that fits in 64 bits.
pub open spec fn dec_u64(t: Seq<char>) -> Option<u64> {
    let d = unsigned_digits(t);
    if d.len() > 0 && (forall|i: int| 0 <= i < d.len() ==> is_digit(#[trigger] d[i])) && digits_value(d) <= u64::MAX {
        Some(digits_value(d) as u64)
    } else {
        None
    }
}

/// Parses an unsigned decimal as `u64::from_str` does.
pub fn parse_u64(t: &str) -> (r: Option<u64>)
    ensures
        r == dec_u64(t@),
{
    let n = t.unicode_len();
    let start: usize = if n > 0 && t.get_char(0) == '+' { 1 } else { 0 };
    let ghost d = unsigned_digits(t@);
    assert(d =~= t@.skip(start as int));
    if start == n {
        assert(d.len() == 0);
        return None;
    }
    let mut v: u64 = 0;
    let mut overflow = false;
    let mut i: usize = start;
    while i < n
        invariant
            start <= i <= n,
            n == t@.len(),
            start < n,
            d == t@.skip(start as int),
            d == unsigned_digits(t@),
            forall|k: int| 0 <= k < i - start ==> is_digit(#[trigger] d[k]),
            !overflow ==> v == digits_value(d.take(i - start)),
            overflow ==> digits_value(d.take(i - start)) > u64::MAX,
        decreases n - i,
    {
        let c = t.get_char(i);
        let ghost k = i - start;
        assert(d[k] == c);
        if !((c as u32) >= 48 && (c as u32) <= 57) {
            assert(!is_digit(d[k]));
            return None;
        }
        let digit = (c as u32 - 48) as u64;
        assert(d.take(k + 1).drop_last() =~= d.take(k));
        assert(digits_value(d.take(k + 1)) == digits_value(d.take(k)) * 10 + digit);
        if !overflow {
            match v.checked_mul(10) {
                Some(m) => match m.checked_add(digit) {
                    Some(s) => {
                        v = s;
                    },
                    None => {
                        overflow = true;
                    },
                },
                None => {
                    overflow = true;
                },
            }
        }
        i = i + 1;
    }
    assert(d.take(n - start) =~= d);
    if overflow { None } else { Some(v) }
}

/// The index of the first `c` in `s`, or the length of `s` when there is none.
pub open spec fn index_of_char(s: Seq<char>, c: char) -> int
    decreases s.len(),
{
    if s.len() == 0 {
        0
    } else if s[0] == c {
        0
    } else {
        1 + index_of_char(s.skip(1), c)
    }
}

proof fn lemma_index_of_char(s: Seq<char>, c: char, i: int)
    requires
        0 <= i <= s.len(),
        forall|k: int| 0 <= k < i ==> s[k] != c,
        i < s.len() ==> s[i] == c,
    ensures
        index_of_char(s, c) == i,
    decreases i,
{
    if i > 0 {
        assert(s[0] != c);
        let t = s.skip(1);
        assert forall|k: int| 0 <= k < i - 1 implies t[k] != c by {
            assert(t[k] == s[k + 1]);
        }
        if i - 1 < t.len() {
            assert(t[i - 1] == s[i]);
        }
        lemma_index_of_char(t, c, i - 1);
    }
}

/// How an acknowledgement reads: the text up to the first space is the
/// sequence number; the epoch-mismatch signal, when it is all that follows
/// that space, marks a mismatch.
pub open spec fn ack_of(text: Seq<char>, epoch_mismatch_signal: Seq<char>) -> Option<(u64, bool)> {
    let i = index_of_char(text, ' ');
    match dec_u64(text.take(i)) {
        Some(seq) => Some((seq, i < text.len() && text.skip(i + 1) == epoch_mismatch_signal)),
        None => None,
    }
}

/// Parses an acknowledgement `"<seq>[ <signal>]"`.
pub fn parse_ack(text: &str, epoch_mismatch_signal: &str) -> (r: Option<Ack>)
    ensures
        match r {
            Some(a) => ack_of(text@, epoch_mismatch_signal@) == Some((a.seq, a.epoch_mismatch)),
            None => ack_of(text@, epoch_mismatch_signal@) is None,
        },
{
    let n = text.unicode_len();
    let (head_end, rest) = match find_char(text, ' ', 0) {
        Some(i) => (i, Some(substring(text, i + 1, n))),
        None => (n, None),
    };
    proof {
        lemma_index_of_char(text@, ' ', head_end as int);
    }
    let head = substring(text, 0, head_end);
    assert(head@ =~= text@.take(head_end as int));
    let seq = match parse_u64(head.as_str()) {
        Some(s) => s,
        None => return None,
    };
    let epoch_mismatch = match &rest {
        Some(r) => str_eq(r.as_str(), epoch_mismatch_signal),
        None => false,
    };
    proof {
        if head_end < n {
            assert(rest matches Some(r) && r@ =~= text@.skip(head_end + 1));
        }
    }
    Some(Ack { seq, epoch_mismatch })
}

/// The event a text frame stands for, as a kind: gap, voice state, presence,
/// relay error, acknowledgement, or nothing known.
pub open spec fn text_frame_kind(text: Seq<char>, gap_signal: Seq<char>, epoch_mismatch_signal: Seq<char>) -> int {
    if text == gap_signal {
        0
    } else if has_prefix(text, VOICE_STATE_PREFIX@) {
        1
    } else if has_prefix(text, PRESENCE_PREFIX@) {
        2
    } else if has_prefix(text, RELAY_ERROR_PREFIX@) {
        3
    } else if ack_of(text, epoch_mismatch_signal) is Some {
        4
    } else {
        5
    }
}

/// Classifies a text frame of a mailbox connection: the gap signal; a voice
/// state or presence notification (kept whole as JSON); a relay error (the
/// text after its prefix); an acknowledgement; or nothing to report.
pub fn classify_ws_text(
    mailbox_id: [u8; 32],
    text: &str,
    gap_signal: &str,
    epoch_mismatch_signal: &str,
) -> (r: Option<RelayEvent>)
    ensures
        match r {
            Some(RelayEvent::Gap { mailbox_id: m }) => text_frame_kind(text@, gap_signal@, epoch_mismatch_signal@) == 0
                && m == mailbox_id,
            Some(RelayEvent::VoiceState { mailbox_id: m, json }) => text_frame_kind(text@, gap_signal@,
                epoch_mismatch_signal@) == 1 && m == mailbox_id && json@ == text@,
            Some(RelayEvent::Presence { mailbox_id: m, json }) => text_frame_kind(text@, gap_signal@,
                epoch_mismatch_signal@) == 2 && m == mailbox_id && json@ == text@,
            Some(RelayEvent::Error { mailbox_id: m, message }) => text_frame_kind(text@, gap_signal@,
                epoch_mismatch_signal@) == 3 && m == mailbox_id
                && message@ == text@.skip(RELAY_ERROR_PREFIX@.len() as int),
            Some(RelayEvent::Ack(a)) => text_frame_kind(text@, gap_signal@, epoch_mismatch_signal@) == 4
                && ack_of(text@, epoch_mismatch_signal@) == Some((a.seq, a.epoch_mismatch)),
            Some(_) => false,
            None => text_frame_kind(text@, gap_signal@, epoch_mismatch_signal@) == 5,
        },
{
    if str_eq(text, gap_signal) {
        return Some(RelayEvent::Gap { mailbox_id });
    }
    if starts_with(text, VOICE_STATE_PREFIX) {
        return Some(RelayEvent::VoiceState { mailbox_id, json: text.to_string() });
    }
    if starts_with(text, PRESENCE_PREFIX) {
        return Some(RelayEvent::Presence { mailbox_id, json: text.to_string() });
    }
    if starts_with(text, RELAY_ERROR_PREFIX) {
        let prefix_len = RELAY_ERROR_PREFIX.unicode_len();
        let message = substring(text, prefix_len, text.unicode_len());
        assert(message@ =~= text@.skip(RELAY_ERROR_PREFIX@.len() as int));
        return Some(RelayEvent::Error { mailbox_id, message });
    }
    match parse_ack(text, epoch_mismatch_signal) {
        Some(a) => Some(RelayEvent::Ack(a)),
        None => None,
    }
}

/// The next reconnection delay: doubled, at most `MAX_BACKOFF_SECS`.
pub fn next_backoff(secs: u64) -> (r: u64)
    requires
        secs * 2 <= u64::MAX,
    ensures
        r == if secs * 2 < MAX_BACKOFF_SECS { secs * 2 } else { MAX_BACKOFF_SECS as int },
{
    let d = secs * 2;
    if d < MAX_BACKOFF_SECS { d } else { MAX_BACKOFF_SECS }
}

/// The URL without its `ws://` or `wss://` scheme (the whole URL when it has neither).
pub open spec fn without_ws_scheme(url: Seq<char>) -> Seq<char> {
    if has_prefix(url, "ws://"@) {
        url.skip(5)
    } else if has_prefix(url, "wss://"@) {
        url.skip(6)
    } else {
        url
    }
}

/// The `host[:port]` of a `ws://` or `wss://` URL: what follows the scheme, up
/// to the first `/`.
pub open spec fn host_of(url: Seq<char>) -> Seq<char> {
    let w = without_ws_scheme(url);
    w.take(index_of_char(w, '/'))
}

/// Extracts `host[:port]` from a `ws://` or `wss://` URL, for the Host header.
pub fn url_host(url: &str) -> (r: String)
    ensures
        r@ == host_of(url@),
{
    proof {
        reveal_strlit("ws://");
        reveal_strlit("wss://");
    }
    let n = url.unicode_len();
    let start: usize = if starts_with(url, "ws://") {
        5
    } else if starts_with(url, "wss://") {
        6
    } else {
        0
    };
    let ghost w = without_ws_scheme(url@);
    assert(w =~= url@.skip(start as int));
    let end = match find_char(url, '/', start) {
        Some(j) => j,
        None => n,
    };
    proof {
        assert forall|k: int| 0 <= k < end - start implies w[k] != '/' by {
            assert(w[k] == url@[k + start]);
        }
        if end < n {
            assert(w[end - start] == url@[end as int]);
        }
        lemma_index_of_char(w, '/', end - start);
    }
    let host = substring(url, start, end);
    assert(host@ =~= w.take(end - start));
    host
}

/// Whether `s` holds `//` at `k`.
pub open spec fn slash_pair_at(s: Seq<char>, k: int) -> bool {
    s[k] == '/' && s[k + 1] == '/'
}

/// The index of the first `//` in `s`, or the length of `s` when there is none.
pub open spec fn index_of_double_slash(s: Seq<char>) -> int
    decreases s.len(),
{
    if s.len() < 2 {
        s.len() as int
    } else if slash_pair_at(s, 0) {
        0
    } else {
        1 + index_of_double_slash(s.skip(1))
    }
}

proof fn lemma_index_of_double_slash(s: Seq<char>, i: int)
    requires
        0 <= i <= s.len(),
        forall|k: int| 0 <= k < i && k + 1 < s.len() ==> !#[trigger] slash_pair_at(s, k),
        i + 1 < s.len() ==> slash_pair_at(s, i),
        i + 1 >= s.len() ==> i == s.len(),
    ensures
        index_of_double_slash(s) == i,
    decreases i,
{
    if s.len() >= 2 && i > 0 {
        let t = s.skip(1);
        assert forall|k: int| 0 <= k < i - 1 && k + 1 < t.len() implies !#[trigger] slash_pair_at(t, k) by {
            assert(t[k] == s[k + 1] && t[k + 1] == s[k + 2]);
            assert(!slash_pair_at(s, k + 1));
        }
        assert(!slash_pair_at(s, 0));
        if i - 1 + 1 < t.len() {
            assert(t[i - 1] == s[i] && t[i] == s[i + 1]);
        }
        lemma_index_of_double_slash(t, i - 1);
    }
}

/// The request path of a URL: from the first `/` after the `//` that ends
/// its scheme; `/` when there is no `//` or no path.
pub open spec fn request_path_of(url: Seq<char>) -> Seq<char> {
    let i = index_of_double_slash(url);
    if i + 2 > url.len() {
        "/"@
    } else {
        let after = url.skip(i + 2);
        let j = index_of_char(after, '/');
        if j < after.len() { after.skip(j) } else { "/"@ }
    }
}

/// The path the connection request for `url` is signed over.
pub fn ws_request_path(url: &str) -> (r: String)
    ensures
        r@ == request_path_of(url@),
{
    let n = url.unicode_len();
    let mut i: usize = 0;
    let mut found = false;
    while !found && n > 0 && i < n - 1
        invariant
            0 <= i <= n,
            n == url@.len(),
            found ==> i + 1 < n && slash_pair_at(url@, i as int),
            forall|k: int| 0 <= k < i && k + 1 < n ==> !#[trigger] slash_pair_at(url@, k),
        decreases n - i + (if found { 0int } else { 1int }),
    {
        if url.get_char(i) == '/' && url.get_char(i + 1) == '/' {
            found = true;
        } else {
            i = i + 1;
        }
    }
    let i: usize = if found { i } else { n };
    proof {
        lemma_index_of_double_slash(url@, i as int);
        reveal_strlit("/");
    }
    if !found {
        return "/".to_string();
    }
    let ghost after = url@.skip(i + 2);
    match find_char(url, '/', i + 2) {
        Some(j) => {
            proof {
                assert forall|k: int| 0 <= k < j - (i + 2) implies after[k] != '/' by {
                    assert(after[k] == url@[k + i + 2]);
                }
                assert(after[j - (i + 2)] == url@[j as int]);
                lemma_index_of_char(after, '/', j - (i + 2));
            }
            let p = substring(url, j, n);
            assert(p@ =~= after.skip(j - (i + 2)));
            p
        },
        None => {
            proof {
                assert forall|k: int| 0 <= k < after.len() implies after[k] != '/' by {
                    assert(after[k] == url@[k + i + 2]);
                }
                lemma_index_of_char(after, '/', after.len() as int);
            }
            "/".to_string()
        },
    }
}

/// The URL-safe base64 text of `bytes`, without padding.
pub uninterp spec fn spec_base64_url_nopad(bytes: Seq<u8>) -> Seq<char>;

/// The bytes standard base64 (with padding) text decodes to; `None` when it is not valid.
pub uninterp spec fn spec_base64_std_decode(text: Seq<char>) -> Option<Seq<u8>>;

/// Encodes with `base64::engine::general_purpose::URL_SAFE_NO_PAD`.
///
/// Trusted: the text is named `spec_base64_url_nopad`. The length bound keeps
/// the encoder's size computation from overflowing.
#[verifier::external_body]
pub(crate) fn base64_url_nopad(bytes: &[u8]) -> (s: String)
    requires
        bytes@.len() <= usize::MAX / 2,
    ensures
        s@ == spec_base64_url_nopad(bytes@),
{
    base64::engine::general_purpose::URL_SAFE_NO_PAD.encode(bytes)
}

/// The standard base64 text (with padding) of `bytes`.
pub uninterp spec fn spec_base64_std(bytes: Seq<u8>) -> Seq<char>;

/// Encodes with `base64::engine::general_purpose::STANDARD`.
///
/// Trusted: the text is named `spec_base64_std`. The length bound keeps the
/// encoder's size computation from overflowing.
#[verifier::external_body]
pub(crate) fn base64_std(bytes: &[u8]) -> (s: String)
    requires
        bytes@.len() <= usize::MAX / 2,
    ensures
        s@ == spec_base64_std(bytes@),
{
    base64::engine::general_purpose::STANDARD.encode(bytes)
}

/// Decodes with `base64::engine::general_purpose::STANDARD`.
///
/// Trusted: the outcome is named `spec_base64_std_decode`.
#[verifier::external_body]
pub(crate) fn base64_std_decode(text: &str) -> (r: Result<Vec<u8>, base64::DecodeError>)
    ensures
        match r {
            Ok(b) => spec_base64_std_decode(text@) == Some(b@),
            Err(_) => spec_base64_std_decode(text@) is None,
        },
{
    base64::engine::general_purpose::STANDARD.decode(text)
}

#[verifier::external_type_specification]
#[verifier::external_body]
pub struct ExDecodeError(base64::DecodeError);

/// `s` without its trailing `/` characters.
pub open spec fn trim_trailing_slashes(s: Seq<char>) -> Seq<char>
    decreases s.len(),
{
    if s.len() > 0 && s.last() == '/' {
        trim_trailing_slashes(s.drop_last())
    } else {
        s
    }
}

/// `s` with every occurrence of `from`, scanning left to right without
/// overlap, replaced by `to`.
pub open spec fn replace_all(s: Seq<char>, from: Seq<char>, to: Seq<char>) -> Seq<char>
    decreases s.len(),
{
    if s.len() == 0 {
        Seq::empty()
    } else if from.len() > 0 && has_prefix(s, from) {
        to + replace_all(s.skip(from.len() as int), from, to)
    } else {
        seq![s[0]] + replace_all(s.skip(1), from, to)
    }
}

pub(crate) fn has_prefix_at(s: &str, p: &str, at: usize) -> (r: bool)
    requires
        at <= s@.len(),
    ensures
        r == has_prefix(s@.skip(at as int), p@),
{
    let n = s.unicode_len();
    let m = p.unicode_len();
    if m > n - at {
        return false;
    }
    let mut i: usize = 0;
    while i < m
        invariant
            0 <= i <= m,
            m == p@.len(),
            n == s@.len(),
            at + m <= n,
            forall|j: int| 0 <= j < i ==> s@[at + j] == p@[j],
        decreases m - i,
    {
        if s.get_char(at + i) != p.get_char(i) {
            assert(s@.skip(at as int).subrange(0, m as int)[i as int] != p@[i as int]);
            return false;
        }
        i = i + 1;
    }
    assert(s@.skip(at as int).subrange(0, m as int) =~= p@);
    true
}

/// Replaces every occurrence of `from` in `s` by `to` (`str::replace`).
pub fn replace_str(s: &str, from: &str, to: &str) -> (r: String)
    requires
        from@.len() > 0,
    ensures
        r@ == replace_all(s@, from@, to@),
{
    let n = s.unicode_len();
    let m = from.unicode_len();
    let mut out = String::new();
    let mut i: usize = 0;
    assert(s@.skip(0) =~= s@);
    assert(out@ + replace_all(s@, from@, to@) =~= replace_all(s@, from@, to@));
    while i < n
        invariant
            0 <= i <= n,
            n == s@.len(),
            m == from@.len(),
            m > 0,
            out@ + replace_all(s@.skip(i as int), from@, to@) == replace_all(s@, from@, to@),
        decreases n - i,
    {
        let ghost rest = s@.skip(i as int);
        if has_prefix_at(s, from, i) {
            out = string_concat(out, to);
            assert(rest.skip(m as int) =~= s@.skip(i + m));
            assert(replace_all(rest, from@, to@) == to@ + replace_all(rest.skip(m as int), from@, to@));
            assert(out@ + replace_all(s@.skip(i + m), from@, to@) =~= replace_all(s@, from@, to@));
            i = i + m;
        } else {
            let one = s.substring_char(i, i + 1);
            out = string_concat(out, one);
            assert(rest.skip(1) =~= s@.skip(i + 1));
            assert(one@ =~= seq![rest[0]]);
            assert(out@ + replace_all(s@.skip(i + 1), from@, to@) =~= replace_all(s@, from@, to@));
            i = i + 1;
        }
    }
    assert(s@.skip(n as int) =~= Seq::<char>::empty());
    assert(out@ + Seq::<char>::empty() =~= out@);
    out
}

/// Removes trailing `/` characters (`str::trim_end_matches('/')`).
pub fn trim_slashes(s: &str) -> (r: String)
    ensures
        r@ == trim_trailing_slashes(s@),
{
    let mut end = s.unicode_len();
    assert(s@.take(end as int) =~= s@);
    while end > 0 && s.get_char(end - 1) == '/'
        invariant
            end <= s@.len(),
            trim_trailing_slashes(s@) == trim_trailing_slashes(s@.take(end as int)),
        decreases end,
    {
        assert(s@.take(end as int).drop_last() =~= s@.take(end - 1));
        end = end - 1;
    }
    assert(s@.take(end as int) =~= s@.subrange(0, end as int));
    substring(s, 0, end)
}

/// The relay's base URL without trailing slashes, and the WebSocket base URL
/// derived from it (`http://` becomes `ws://`, `https://` becomes `wss://`).
pub fn relay_base_urls(base_url: &str) -> (r: (String, String))
    ensures
        r.0@ == trim_trailing_slashes(base_url@),
        r.1@ == replace_all(replace_all(trim_trailing_slashes(base_url@), "http://"@, "ws://"@), "https://"@, "wss://"@),
{
    proof {
        reveal_strlit("http://");
        reveal_strlit("https://");
    }
    let base = trim_slashes(base_url);
    let ws1 = replace_str(base.as_str(), "http://", "ws://");
    let ws = replace_str(ws1.as_str(), "https://", "wss://");
    (base, ws)
}

/// The WebSocket URL of a mailbox: `<ws base>/ws/<mailbox id, URL-safe base64>`.
pub fn mailbox_ws_url(ws_base: &str, mailbox_id: &[u8; 32]) -> (r: String)
    ensures
        r@ == ws_base@ + "/ws/"@ + spec_base64_url_nopad(mailbox_id@),
{
    let u = string_concat(ws_base.to_string(), "/ws/");
    let id = base64_url_nopad(mailbox_id);
    string_concat(u, id.as_str())
}

/// The request path of a mailbox: `/box/<mailbox id, URL-safe base64>`.
pub fn mailbox_path(mailbox_id: &[u8; 32]) -> (r: String)
    ensures
        r@ == "/box/"@ + spec_base64_url_nopad(mailbox_id@),
{
    let id = base64_url_nopad(mailbox_id);
    string_concat("/box/".to_string(), id.as_str())
}

/// The identity log a relay answered with, its checkpoint and each entry's
/// payload and inclusion proof still in standard base64.
pub open spec fn idlog_decoded(checkpoint: Seq<char>, entries: Seq<(u64, Seq<char>, Seq<char>)>, r: IdLogWithProofs) -> bool {
    &&& spec_base64_std_decode(checkpoint) == Some(r.checkpoint@)
    &&& r.entries@.len() == entries.len()
    &&& forall|i: int| 0 <= i < entries.len() ==> {
        &&& (#[trigger] r.entries@[i]).seq == entries[i].0
        &&& spec_base64_std_decode(entries[i].1) == Some(r.entries@[i].payload@)
        &&& spec_base64_std_decode(entries[i].2) == Some(r.entries@[i].inclusion_proof@)
    }
}

/// Whether every base64 text of the answer decodes.
pub open spec fn idlog_decodable(checkpoint: Seq<char>, entries: Seq<(u64, Seq<char>, Seq<char>)>) -> bool {
    &&& spec_base64_std_decode(checkpoint) is Some
    &&& forall|i: int| 0 <= i < entries.len() ==> spec_base64_std_decode(#[trigger] entries[i].1) is Some
        && spec_base64_std_decode(entries[i].2) is Some
}

/// The character view of the entries of an identity log answer.
pub open spec fn entries_view(entries: Seq<(u64, String, String)>) -> Seq<(u64, Seq<char>, Seq<char>)> {
    entries.map_values(|e: (u64, String, String)| (e.0, e.1@, e.2@))
}

/// Decodes an identity log answer; `Network` error when any base64 text is invalid.
pub fn decode_idlog(checkpoint: &str, entries: &[(u64, String, String)]) -> (r: Result<IdLogWithProofs, GhostError>)
    ensures
        match r {
            Ok(l) => idlog_decoded(checkpoint@, entries_view(entries@), l),
            Err(e) => e is Network && !idlog_decodable(checkpoint@, entries_view(entries@)),
        },
{
    let ghost ev = entries_view(entries@);
    let cp = match base64_std_decode(checkpoint) {
        Ok(b) => b,
        Err(_) => return Err(GhostError::Network("base64: bad checkpoint".to_string())),
    };
    let mut out: Vec<IdLogBlobWithProof> = Vec::new();
    let mut i: usize = 0;
    while i < entries.len()
        invariant
            0 <= i <= entries@.len(),
            ev == entries_view(entries@),
            ev.len() == entries@.len(),
            out@.len() == i,
            forall|k: int| 0 <= k < i ==> {
                &&& (#[trigger] out@[k]).seq == ev[k].0
                &&& spec_base64_std_decode(ev[k].1) == Some(out@[k].payload@)
                &&& spec_base64_std_decode(ev[k].2) == Some(out@[k].inclusion_proof@)
            },
        decreases entries@.len() - i,
    {
        let e = &entries[i];
        assert(ev[i as int] == (e.0, e.1@, e.2@));
        let payload = match base64_std_decode(e.1.as_str()) {
            Ok(b) => b,
            Err(_) => {
                assert(spec_base64_std_decode(ev[i as int].1) is None);
                return Err(GhostError::Network("base64: bad entry payload".to_string()));
            },
        };
        let inclusion_proof = match base64_std_decode(e.2.as_str()) {
            Ok(b) => b,
            Err(_) => {
                assert(spec_base64_std_decode(ev[i as int].2) is None);
                return Err(GhostError::Network("base64: bad inclusion proof".to_string()));
            },
        };
        out.push(IdLogBlobWithProof { seq: e.0, payload, inclusion_proof });
        i = i + 1;
    }
    Ok(IdLogWithProofs { entries: out, checkpoint: cp })
}

} // verus!
