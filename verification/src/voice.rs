//! Voice: the presence state a participant announces in a voice channel, and
//! the header framing of voice packets.

use vstd::prelude::*;

use crate::codec::{
    be16, be32, copy32, lemma_be16_roundtrip, lemma_be32_roundtrip, put_bytes, put_u16, put_u32,
    u16_of_be, u32_of_be,
};
use crate::aead::{open_blob, opened_blob, seal_blob, sealed_blob, AES_GCM_P_MAX};
use crate::error::GhostError;

verus! {

/// Voice presence state, encrypted inside a presence blob.
#[derive(Debug, Clone, Copy, PartialEq, Eq)]
pub struct PresenceState {
    pub fingerprint: [u8; 32],
    pub muted: bool,
    pub deafened: bool,
    pub device_vk: [u8; 32],
    /// Random value generated per voice session, mixed into key derivation.
    pub voice_salt: [u8; 32],
}

/// The byte a flag is written as.
pub open spec fn bool_byte(b: bool) -> u8 {
    if b { 1u8 } else { 0u8 }
}

/// The 98 bytes of a presence state.
pub open spec fn enc_presence_state(p: PresenceState) -> Seq<u8> {
    p.fingerprint@ + seq![bool_byte(p.muted), bool_byte(p.deafened)] + p.device_vk@ + p.voice_salt@
}

/// `p` is what the first 98 bytes of `b` say (a non-zero flag byte means true).
pub open spec fn presence_state_read_from(p: PresenceState, b: Seq<u8>) -> bool {
    &&& b.len() >= 98
    &&& p.fingerprint@ == b.subrange(0, 32)
    &&& p.muted == (b[32] != 0)
    &&& p.deafened == (b[33] != 0)
    &&& p.device_vk@ == b.subrange(34, 66)
    &&& p.voice_salt@ == b.subrange(66, 98)
}

impl PresenceState {
    pub fn to_bytes(&self) -> (out: [u8; 98])
        ensures
            out@ == enc_presence_state(*self),
    {
        let mut buf = [0u8; 98];
        let mut i: usize = 0;
        while i < 32
            invariant
                0 <= i <= 32,
                buf@.len() == 98,
                forall|j: int| 0 <= j < i ==> buf@[j] == self.fingerprint@[j],
                forall|j: int| 0 <= j < i ==> buf@[34 + j] == self.device_vk@[j],
                forall|j: int| 0 <= j < i ==> buf@[66 + j] == self.voice_salt@[j],
            decreases 32 - i,
        {
            buf[i] = self.fingerprint[i];
            buf[34 + i] = self.device_vk[i];
            buf[66 + i] = self.voice_salt[i];
            i = i + 1;
        }
        buf[32] = if self.muted { 1u8 } else { 0u8 };
        buf[33] = if self.deafened { 1u8 } else { 0u8 };
        assert(buf@ =~= enc_presence_state(*self));
        buf
    }

    pub fn from_bytes(data: &[u8]) -> (r: Result<PresenceState, GhostError>)
        ensures
            match r {
                Ok(p) => presence_state_read_from(p, data@),
                Err(e) => e is Crypto && data@.len() < 98,
            },
    {
        if data.len() < 98 {
            return Err(GhostError::Crypto("presence too short".to_string()));
        }
        let fingerprint = copy32(data, 0);
        let muted = data[32] != 0;
        let deafened = data[33] != 0;
        let device_vk = copy32(data, 34);
        let voice_salt = copy32(data, 66);
        Ok(PresenceState { fingerprint, muted, deafened, device_vk, voice_salt })
    }
}

/// Reading back the bytes of a presence state gives the same state.
pub proof fn law_presence_state_roundtrip(p: PresenceState, q: PresenceState)
    requires
        presence_state_read_from(q, enc_presence_state(p)),
    ensures
        q == p,
{
    let e = enc_presence_state(p);
    assert(e.subrange(0, 32) =~= p.fingerprint@);
    assert(e.subrange(34, 66) =~= p.device_vk@);
    assert(e.subrange(66, 98) =~= p.voice_salt@);
    crate::codec::lemma_arr32_eq(q.fingerprint, p.fingerprint);
    crate::codec::lemma_arr32_eq(q.device_vk, p.device_vk);
    crate::codec::lemma_arr32_eq(q.voice_salt, p.voice_salt);
}

/// Length of a voice packet header: header length, channel id, slot, flags,
/// sequence and payload length.
pub const VOICE_HEADER_SIZE: usize = 45;

/// The bytes of a voice packet.
pub open spec fn enc_voice_packet(channel_id: Seq<u8>, slot_id: u32, sequence: u32, payload: Seq<u8>) -> Seq<u8> {
    be16(VOICE_HEADER_SIZE as u16) + channel_id + be32(slot_id) + seq![0u8] + be32(sequence)
        + be16(payload.len() as u16) + payload
}

pub fn build_packet(channel_id: &[u8; 32], slot_id: u32, sequence: u32, payload: &[u8]) -> (pkt: Vec<u8>)
    ensures
        pkt@ == enc_voice_packet(channel_id@, slot_id, sequence, payload@),
{
    let mut pkt: Vec<u8> = Vec::new();
    put_u16(&mut pkt, VOICE_HEADER_SIZE as u16);
    put_bytes(&mut pkt, channel_id);
    put_u32(&mut pkt, slot_id);
    pkt.push(0x00);
    put_u32(&mut pkt, sequence);
    put_u16(&mut pkt, payload.len() as u16);
    put_bytes(&mut pkt, payload);
    pkt
}

/// The header `parse_header` reads from `buf`, when it accepts it:
/// (channel_id, slot_id, sequence, payload_len, header_len).
pub open spec fn voice_header_ok(buf: Seq<u8>) -> bool {
    &&& buf.len() >= VOICE_HEADER_SIZE
    &&& u16_of_be(buf.subrange(0, 2)) >= VOICE_HEADER_SIZE
    &&& buf.len() >= u16_of_be(buf.subrange(0, 2))
    &&& buf.len() >= u16_of_be(buf.subrange(0, 2)) + u16_of_be(buf.subrange(43, 45))
}

/// Returns (channel_id, slot_id, sequence, payload_len, header_len); the payload
/// is `buf[header_len..header_len + payload_len]`.
pub fn parse_header(buf: &[u8]) -> (r: Option<([u8; 32], u32, u32, usize, usize)>)
    ensures
        r is Some <==> voice_header_ok(buf@),
        r matches Some((c, s, q, pl, hl)) ==> {
            &&& c@ == buf@.subrange(2, 34)
            &&& s == u32_of_be(buf@.subrange(34, 38))
            &&& q == u32_of_be(buf@.subrange(39, 43))
            &&& pl == u16_of_be(buf@.subrange(43, 45))
            &&& hl == u16_of_be(buf@.subrange(0, 2))
        },
{
    if buf.len() < VOICE_HEADER_SIZE {
        return None;
    }
    let header_len = (((buf[0] as u16) << 8u16) | (buf[1] as u16)) as usize;
    assert(header_len == u16_of_be(buf@.subrange(0, 2)));
    if header_len < VOICE_HEADER_SIZE || buf.len() < header_len {
        return None;
    }
    let channel_id = copy32(buf, 2);
    let slot_id = ((buf[34] as u32) << 24u32) | ((buf[35] as u32) << 16u32) | ((buf[36] as u32) << 8u32)
        | (buf[37] as u32);
    assert(slot_id == u32_of_be(buf@.subrange(34, 38)));
    let sequence = ((buf[39] as u32) << 24u32) | ((buf[40] as u32) << 16u32) | ((buf[41] as u32) << 8u32)
        | (buf[42] as u32);
    assert(sequence == u32_of_be(buf@.subrange(39, 43)));
    let payload_len = (((buf[43] as u16) << 8u16) | (buf[44] as u16)) as usize;
    assert(payload_len == u16_of_be(buf@.subrange(43, 45)));
    if buf.len() - header_len < payload_len {
        return None;
    }
    Some((channel_id, slot_id, sequence, payload_len, header_len))
}

/// A built packet's header parses back to what was put in it, provided the
/// payload length fits its two bytes.
pub proof fn law_voice_packet_roundtrip(channel_id: [u8; 32], slot_id: u32, sequence: u32, payload: Seq<u8>)
    requires
        payload.len() <= 0xffff,
    ensures
        ({
            let b = enc_voice_packet(channel_id@, slot_id, sequence, payload);
            &&& voice_header_ok(b)
            &&& b.subrange(2, 34) == channel_id@
            &&& u32_of_be(b.subrange(34, 38)) == slot_id
            &&& u32_of_be(b.subrange(39, 43)) == sequence
            &&& u16_of_be(b.subrange(43, 45)) == payload.len()
            &&& u16_of_be(b.subrange(0, 2)) == VOICE_HEADER_SIZE
            &&& b.subrange(45, 45 + payload.len() as int) == payload
        }),
{
    let b = enc_voice_packet(channel_id@, slot_id, sequence, payload);
    lemma_be16_roundtrip(VOICE_HEADER_SIZE as u16);
    lemma_be16_roundtrip(payload.len() as u16);
    lemma_be32_roundtrip(slot_id);
    lemma_be32_roundtrip(sequence);
    assert(b.subrange(0, 2) =~= be16(VOICE_HEADER_SIZE as u16));
    assert(b.subrange(2, 34) =~= channel_id@);
    assert(b.subrange(34, 38) =~= be32(slot_id));
    assert(b.subrange(39, 43) =~= be32(sequence));
    assert(b.subrange(43, 45) =~= be16(payload.len() as u16));
    assert(b.subrange(45, 45 + payload.len() as int) =~= payload);
}

/// Encrypts a presence state blob. Wire format: [nonce:12][ciphertext+tag].
/// Never fails: the 98-byte plaintext is always within AES-GCM's limit.
pub fn seal_presence(key: &[u8; 32], state: &PresenceState) -> (r: Result<Vec<u8>, GhostError>)
    ensures
        r matches Ok(b) && sealed_blob(key@, enc_presence_state(*state), b@),
{
    let plaintext = state.to_bytes();
    assert(plaintext@.len() <= AES_GCM_P_MAX);
    match seal_blob(key, &plaintext) {
        Some(b) => Ok(b),
        None => Err(GhostError::Crypto("presence seal failed".to_string())),
    }
}

/// Decrypts a presence blob of at least 28 bytes and parses the state in it.
pub fn open_presence(key: &[u8; 32], blob: &[u8]) -> (r: Result<PresenceState, GhostError>)
    ensures
        match r {
            Ok(p) => opened_blob(key@, blob@, 28) matches Some(pt) && presence_state_read_from(p, pt),
            Err(e) => e is Crypto && match opened_blob(key@, blob@, 28) {
                Some(pt) => pt.len() < 98,
                None => true,
            },
        },
{
    if blob.len() < 28 {
        return Err(GhostError::Crypto("presence blob too short".to_string()));
    }
    match open_blob(key, blob, 28) {
        Some(pt) => PresenceState::from_bytes(pt.as_slice()),
        None => Err(GhostError::Crypto("presence open: auth failed".to_string())),
    }
}

/// Opening a sealed presence blob under the same key gives back the sealed state.
pub proof fn law_presence_seal_open(key: Seq<u8>, s: PresenceState, blob: Seq<u8>, q: PresenceState)
    requires
        sealed_blob(key, enc_presence_state(s), blob),
        opened_blob(key, blob, 28) matches Some(pt) && presence_state_read_from(q, pt),
    ensures
        q == s,
{
    law_presence_state_roundtrip(s, q);
}

/// A sealed presence blob always opens (it is at least 28 bytes and decrypts
/// to the 98 bytes of the state).
pub proof fn law_presence_sealed_opens(key: Seq<u8>, s: PresenceState, blob: Seq<u8>)
    requires
        sealed_blob(key, enc_presence_state(s), blob),
    ensures
        opened_blob(key, blob, 28) == Some(enc_presence_state(s)),
        enc_presence_state(s).len() == 98,
        presence_state_read_from(s, enc_presence_state(s)),
{
    let e = enc_presence_state(s);
    assert(e.subrange(0, 32) =~= s.fingerprint@);
    assert(e.subrange(34, 66) =~= s.device_vk@);
    assert(e.subrange(66, 98) =~= s.voice_salt@);
}

#[verifier::external_type_specification]
#[verifier::external_body]
pub struct ExSframeError(sframe::error::SframeError);

/// The SFrame (RFC 9605) cipher suites the voice layer can name.
#[derive(Debug, Clone, Copy, PartialEq, Eq, Structural)]
pub enum SframeSuite {
    /// AES-128-GCM with HKDF-SHA256 key expansion.
    AesGcm128Sha256,
    /// AES-256-GCM with HKDF-SHA512 key expansion.
    AesGcm256Sha512,
}

/// The cipher suite voice frames are sealed with.
pub const VOICE_CIPHER_SUITE: SframeSuite = SframeSuite::AesGcm256Sha512;

/// The SFrame key id voice frames carry.
pub const VOICE_KEY_ID: u64 = 0;

/// The SFrame frame that `key` (under `suite`, key id `key_id`) produces for
/// `frame` at counter `counter`; `None` when encryption fails.
pub uninterp spec fn spec_sframe_encrypt(suite: SframeSuite, key_id: u64, key: Seq<u8>, counter: u64, frame: Seq<u8>) -> Option<Seq<u8>>;

/// What `key` (under `suite`, key id `key_id`) decrypts an SFrame frame to;
/// `None` when the frame does not parse, names another key id or does not
/// authenticate.
pub uninterp spec fn spec_sframe_decrypt(suite: SframeSuite, key_id: u64, key: Seq<u8>, data: Seq<u8>) -> Option<Seq<u8>>;

/// A voice frame sealed under `key` at counter `counter`.
pub open spec fn voice_frame_sealed(key: Seq<u8>, counter: u64, frame: Seq<u8>) -> Option<Seq<u8>> {
    spec_sframe_encrypt(VOICE_CIPHER_SUITE, VOICE_KEY_ID, key, counter, frame)
}

/// What a sealed voice frame opens to under `key`.
pub open spec fn voice_frame_opened(key: Seq<u8>, data: Seq<u8>) -> Option<Seq<u8>> {
    spec_sframe_decrypt(VOICE_CIPHER_SUITE, VOICE_KEY_ID, key, data)
}

/// Encrypts with `EncryptionKey::derive_from(suite, key_id, key)`, a
/// `MonotonicCounter` started at `counter`, `MediaFrameView::try_new` and
/// `encrypt_into`.
///
/// Trusted: the frame is a function of suite, key id, key, counter and
/// payload (the nonce comes from the key and the counter), named
/// `spec_sframe_encrypt`; a frame it produces decrypts under the same suite,
/// key id and key to the payload.
#[verifier::external_body]
fn sframe_encrypt(suite: SframeSuite, key_id: u64, key: &[u8; 32], counter: u64, frame: &[u8]) -> (r: Result<Vec<u8>, sframe::error::SframeError>)
    ensures
        match r {
            Ok(c) => spec_sframe_encrypt(suite, key_id, key@, counter, frame@) == Some(c@)
                && spec_sframe_decrypt(suite, key_id, key@, c@) == Some(frame@),
            Err(_) => spec_sframe_encrypt(suite, key_id, key@, counter, frame@) is None,
        },
{
    let suite = match suite {
        SframeSuite::AesGcm128Sha256 => sframe::CipherSuite::AesGcm128Sha256,
        SframeSuite::AesGcm256Sha512 => sframe::CipherSuite::AesGcm256Sha512,
    };
    let enc_key = sframe::key::EncryptionKey::derive_from(suite, key_id, key)?;
    let mut ctr = sframe::frame::MonotonicCounter::with_start_value(counter, u64::MAX);
    let media = sframe::frame::MediaFrameView::try_new(&mut ctr, frame)?;
    let mut buf = Vec::new();
    media.encrypt_into(&enc_key, &mut buf)?;
    Ok(buf)
}

/// Decrypts with `DecryptionKey::derive_from(suite, key_id, key)`,
/// `EncryptedFrameView::try_from` and `decrypt_into`.
///
/// Trusted: the outcome is named `spec_sframe_decrypt`, a function of the
/// suite, key id, key and frame bytes (the counter is read from the frame
/// header).
#[verifier::external_body]
fn sframe_decrypt(suite: SframeSuite, key_id: u64, key: &[u8; 32], data: &[u8]) -> (r: Result<Vec<u8>, sframe::error::SframeError>)
    ensures
        match r {
            Ok(p) => spec_sframe_decrypt(suite, key_id, key@, data@) == Some(p@),
            Err(_) => spec_sframe_decrypt(suite, key_id, key@, data@) is None,
        },
{
    let suite = match suite {
        SframeSuite::AesGcm128Sha256 => sframe::CipherSuite::AesGcm128Sha256,
        SframeSuite::AesGcm256Sha512 => sframe::CipherSuite::AesGcm256Sha512,
    };
    let dec_key = sframe::key::DecryptionKey::derive_from(suite, key_id, key)?;
    let view = sframe::frame::EncryptedFrameView::try_from(data)?;
    let mut buf = Vec::new();
    view.decrypt_into(&dec_key, &mut buf)?;
    Ok(buf)
}

/// Encrypts a media frame with SFrame (RFC 9605) at counter `sequence`.
/// Output: [sframe_header][ciphertext][auth_tag]; it decrypts under the same
/// key back to the frame.
pub fn encrypt_voice_frame(key: &[u8; 32], sequence: u32, frame: &[u8]) -> (r: Result<Vec<u8>, GhostError>)
    ensures
        match r {
            Ok(c) => voice_frame_sealed(key@, sequence as u64, frame@) == Some(c@)
                && voice_frame_opened(key@, c@) == Some(frame@),
            Err(e) => e is Crypto && voice_frame_sealed(key@, sequence as u64, frame@) is None,
        },
{
    match sframe_encrypt(VOICE_CIPHER_SUITE, VOICE_KEY_ID, key, sequence as u64, frame) {
        Ok(c) => Ok(c),
        Err(_) => Err(GhostError::Crypto("sframe encrypt failed".to_string())),
    }
}

/// Decrypts an SFrame-framed media payload; the counter is read from the
/// frame header, so `sequence` is not used.
pub fn decrypt_voice_frame(key: &[u8; 32], sequence: u32, encrypted: &[u8]) -> (r: Result<Vec<u8>, GhostError>)
    ensures
        match r {
            Ok(p) => voice_frame_opened(key@, encrypted@) == Some(p@),
            Err(e) => e is Crypto && voice_frame_opened(key@, encrypted@) is None,
        },
{
    match sframe_decrypt(VOICE_CIPHER_SUITE, VOICE_KEY_ID, key, encrypted) {
        Ok(p) => Ok(p),
        Err(_) => Err(GhostError::Crypto("sframe decrypt failed".to_string())),
    }
}

/// Whether `blob` opens under `key` to a presence state of the member `fp`.
pub open spec fn presence_opens_as(key: Seq<u8>, blob: Seq<u8>, fp: [u8; 32]) -> bool {
    opened_blob(key, blob, 28) matches Some(pt) && pt.len() >= 98 && pt.subrange(0, 32) == fp@
}

/// Trial-decrypts a presence blob with each member's per-sender key, given
/// as (fingerprint, key) in member order (members whose key could not be
/// derived are left out): the first member whose key opens the blob to a
/// state carrying that member's fingerprint. `Crypto` error when none does.
pub fn try_open_presence(member_keys: &[([u8; 32], [u8; 32])], blob: &[u8]) -> (r: Result<PresenceState, GhostError>)
    ensures
        match r {
            Ok(s) => exists|i: int| 0 <= i < member_keys@.len() && {
                let (fp, key) = #[trigger] member_keys@[i];
                &&& presence_opens_as(key@, blob@, fp)
                &&& (forall|j: int| 0 <= j < i ==> !presence_opens_as(member_keys@[j].1@, blob@, member_keys@[j].0))
                &&& opened_blob(key@, blob@, 28) matches Some(pt) && presence_state_read_from(s, pt)
            },
            Err(e) => e is Crypto && forall|i: int| 0 <= i < member_keys@.len() ==>
                !presence_opens_as((#[trigger] member_keys@[i]).1@, blob@, member_keys@[i].0),
        },
{
    let mut i: usize = 0;
    while i < member_keys.len()
        invariant
            0 <= i <= member_keys@.len(),
            forall|j: int| 0 <= j < i ==> !presence_opens_as((#[trigger] member_keys@[j]).1@, blob@, member_keys@[j].0),
        decreases member_keys@.len() - i,
    {
        let (fp, key) = member_keys[i];
        match open_presence(&key, blob) {
            Ok(state) => {
                if crate::codec::eq32(&state.fingerprint, &fp) {
                    assert(member_keys@[i as int] == (fp, key));
                    return Ok(state);
                }
            },
            Err(_) => {},
        }
        i = i + 1;
    }
    Err(GhostError::Crypto("no member key decrypts this presence blob".to_string()))
}

/// The context a sender's voice key is exported under: channel, sender
/// fingerprint, sender device key and the sender's per-session salt.
pub open spec fn voice_key_context_of(channel_id: [u8; 32], sender_fp: [u8; 32], device_vk: [u8; 32], voice_salt: [u8; 32]) -> Seq<u8> {
    channel_id@ + sender_fp@ + device_vk@ + voice_salt@
}

/// Builds the 128-byte export context of a sender's voice key.
pub fn voice_key_context(channel_id: &[u8; 32], sender_fp: &[u8; 32], device_vk: &[u8; 32], voice_salt: &[u8; 32]) -> (c: Vec<u8>)
    ensures
        c@ == voice_key_context_of(*channel_id, *sender_fp, *device_vk, *voice_salt),
        c@.len() == 128,
{
    let mut c: Vec<u8> = Vec::new();
    put_bytes(&mut c, channel_id);
    put_bytes(&mut c, sender_fp);
    put_bytes(&mut c, device_vk);
    put_bytes(&mut c, voice_salt);
    c
}

/// The context a sender's voice presence key is exported under: channel and
/// sender fingerprint.
pub open spec fn presence_key_context_of(channel_id: [u8; 32], sender_fp: [u8; 32]) -> Seq<u8> {
    channel_id@ + sender_fp@
}

/// Builds the 64-byte export context of a sender's voice presence key.
pub fn presence_key_context(channel_id: &[u8; 32], sender_fp: &[u8; 32]) -> (c: Vec<u8>)
    ensures
        c@ == presence_key_context_of(*channel_id, *sender_fp),
        c@.len() == 64,
{
    let mut c: Vec<u8> = Vec::new();
    put_bytes(&mut c, channel_id);
    put_bytes(&mut c, sender_fp);
    c
}

/// Each sender gets a key of its own: two voice key contexts are equal only
/// when channel, sender, device key and session salt all are, so keys
/// exported under them (and the nonces derived from those keys) are never
/// shared between senders, devices or sessions.
pub proof fn law_voice_context_per_sender(
    c1: [u8; 32], f1: [u8; 32], d1: [u8; 32], s1: [u8; 32],
    c2: [u8; 32], f2: [u8; 32], d2: [u8; 32], s2: [u8; 32],
)
    requires
        voice_key_context_of(c1, f1, d1, s1) == voice_key_context_of(c2, f2, d2, s2),
    ensures
        c1 == c2,
        f1 == f2,
        d1 == d2,
        s1 == s2,
{
    let x = voice_key_context_of(c1, f1, d1, s1);
    let y = voice_key_context_of(c2, f2, d2, s2);
    assert(x.subrange(0, 32) =~= c1@);
    assert(y.subrange(0, 32) =~= c2@);
    assert(x.subrange(32, 64) =~= f1@);
    assert(y.subrange(32, 64) =~= f2@);
    assert(x.subrange(64, 96) =~= d1@);
    assert(y.subrange(64, 96) =~= d2@);
    assert(x.subrange(96, 128) =~= s1@);
    assert(y.subrange(96, 128) =~= s2@);
    crate::codec::lemma_arr32_eq(c1, c2);
    crate::codec::lemma_arr32_eq(f1, f2);
    crate::codec::lemma_arr32_eq(d1, d2);
    crate::codec::lemma_arr32_eq(s1, s2);
}

} // verus!
