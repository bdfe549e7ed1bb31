//! The request paths of the relay's HTTP interface, relative to its base
//! URL: mailbox resources by URL-safe base64 id, account resources by hex
//! fingerprint, invites by token, and the key-transparency proofs.

use vstd::prelude::*;

use crate::relay::{dec_u64, digits_value, is_digit, mailbox_path, spec_base64_url_nopad};
use crate::text::{hex_encode, hex_lower, string_concat};

verus! {

/// The decimal digits of `n`, most significant first, without leading zeros.
pub open spec fn dec_text(n: nat) -> Seq<char>
    decreases n,
{
    if n < 10 {
        seq![(48 + n) as char]
    } else {
        dec_text(n / 10).push((48 + n % 10) as char)
    }
}

proof fn lemma_dec_text(n: nat)
    ensures
        dec_text(n).len() > 0,
        dec_text(n)[0] != '+',
        forall|i: int| 0 <= i < dec_text(n).len() ==> is_digit(#[trigger] dec_text(n)[i]),
        digits_value(dec_text(n)) == n,
    decreases n,
{
    let t = dec_text(n);
    if n < 10 {
        assert(t.drop_last() =~= Seq::<char>::empty());
        assert(t.last() as u32 == 48 + n);
        assert(digits_value(t) == digits_value(t.drop_last()) * 10 + (t.last() as u32 - 48));
    } else {
        lemma_dec_text(n / 10);
        let prev = dec_text(n / 10);
        assert(t.drop_last() =~= prev);
        assert(t[0] == prev[0]);
        assert forall|i: int| 0 <= i < t.len() implies is_digit(#[trigger] t[i]) by {
            if i < prev.len() {
                assert(t[i] == prev[i]);
            }
        }
        assert((n / 10) * 10 + n % 10 == n) by (nonlinear_arith);
        assert(t.last() as u32 == 48 + n % 10);
        assert(digits_value(t) == digits_value(prev) * 10 + (t.last() as u32 - 48));
    }
}

/// A number written in decimal into a request reads back, with the parser
/// the relay's acknowledgements are read with, as the same number.
pub proof fn law_decimal_reads_back(n: u64)
    ensures
        dec_u64(dec_text(n as nat)) == Some(n),
{
    lemma_dec_text(n as nat);
}

/// Writes `n` in decimal with `u64`'s `Display` (through `to_string`).
///
/// Trusted: std documents integers as displayed in decimal, with no sign,
/// padding or separators for an unsigned value: `dec_text`.
#[verifier::external_body]
pub(crate) fn decimal(n: u64) -> (s: String)
    ensures
        s@ == dec_text(n as nat),
{
    n.to_string()
}

/// `/box/<mailbox>/server_info`, where a group's current info is kept.
pub fn server_info_path(mailbox_id: &[u8; 32]) -> (p: String)
    ensures
        p@ == "/box/"@ + spec_base64_url_nopad(mailbox_id@) + "/server_info"@,
{
    string_concat(mailbox_path(mailbox_id), "/server_info")
}

/// `/box/<mailbox>/avatar/<fingerprint>`, where a member's sealed avatar is kept.
pub fn avatar_path(mailbox_id: &[u8; 32], fingerprint: &[u8; 32]) -> (p: String)
    ensures
        p@ == "/box/"@ + spec_base64_url_nopad(mailbox_id@) + "/avatar/"@ + hex_lower(fingerprint@),
{
    let p = string_concat(mailbox_path(mailbox_id), "/avatar/");
    let fp = hex_encode(fingerprint);
    string_concat(p, fp.as_str())
}

/// `/invite/<token>/<step>`, for the `join` and `accept` steps of an invite.
pub fn invite_step_path(token: &str, step: &str) -> (p: String)
    ensures
        p@ == "/invite/"@ + token@ + "/"@ + step@,
{
    let p = string_concat("/invite/".to_string(), token);
    let p = string_concat(p, "/");
    string_concat(p, step)
}

/// `<prefix><fingerprint><suffix>`: an account resource such as
/// `/idlog/<fp>`, `/recovery/<fp>`, `/sync_state/<fp>` or `/pair/<fp>/respond`.
pub fn account_path(prefix: &str, fingerprint: &[u8; 32], suffix: &str) -> (p: String)
    ensures
        p@ == prefix@ + hex_lower(fingerprint@) + suffix@,
{
    let fp = hex_encode(fingerprint);
    let p = string_concat(prefix.to_string(), fp.as_str());
    string_concat(p, suffix)
}

/// `/idlog/<fingerprint>`, followed by `?after_seq=<n>` when entries after
/// sequence `n > 0` are asked for.
pub fn idlog_path(fingerprint: &[u8; 32], after_seq: u64) -> (p: String)
    ensures
        p@ == "/idlog/"@ + hex_lower(fingerprint@) + if after_seq > 0 {
            "?after_seq="@ + dec_text(after_seq as nat)
        } else {
            Seq::empty()
        },
{
    proof {
        reveal_strlit("");
    }
    let p = account_path("/idlog/", fingerprint, "");
    assert(p@ =~= "/idlog/"@ + hex_lower(fingerprint@));
    if after_seq > 0 {
        let q = string_concat(p, "?after_seq=");
        let n = decimal(after_seq);
        let r = string_concat(q, n.as_str());
        assert(r@ =~= "/idlog/"@ + hex_lower(fingerprint@) + ("?after_seq="@ + dec_text(after_seq as nat)));
        r
    } else {
        assert(p@ =~= "/idlog/"@ + hex_lower(fingerprint@) + Seq::<char>::empty());
        p
    }
}

/// `/kt/consistency-proof?from=<from>&to=<to>`.
pub fn consistency_proof_path(from: u64, to: u64) -> (p: String)
    ensures
        p@ == "/kt/consistency-proof?from="@ + dec_text(from as nat) + "&to="@ + dec_text(to as nat),
{
    let f = decimal(from);
    let t = decimal(to);
    let p = string_concat("/kt/consistency-proof?from=".to_string(), f.as_str());
    let p = string_concat(p, "&to=");
    string_concat(p, t.as_str())
}

} // verus!
