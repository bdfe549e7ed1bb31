use ghost_core::voice::{
    build_packet, presence_key_context, voice_key_context, decrypt_voice_frame, encrypt_voice_frame, open_presence, parse_header, seal_presence, try_open_presence,
    PresenceState, VOICE_HEADER_SIZE,
};

#[test]
fn voice_frame_roundtrip() {
    let key = [0x42u8; 32];
    let frame = b"fake opus data here";
    let encrypted = encrypt_voice_frame(&key, 1, frame).unwrap();
    let decrypted = decrypt_voice_frame(&key, 1, &encrypted).unwrap();
    assert_eq!(decrypted, frame);
}

#[test]
fn tampered_sframe_header_fails() {
    let key = [0x42u8; 32];
    let frame = b"opus";
    let mut encrypted = encrypt_voice_frame(&key, 1, frame).unwrap();
    // Flip a byte in the SFrame header (authenticated as AAD)
    encrypted[0] ^= 0xFF;
    assert!(decrypt_voice_frame(&key, 1, &encrypted).is_err());
}

#[test]
fn voice_wrong_key_fails() {
    let key1 = [0x42u8; 32];
    let key2 = [0x43u8; 32];
    let frame = b"opus";
    let encrypted = encrypt_voice_frame(&key1, 1, frame).unwrap();
    assert!(decrypt_voice_frame(&key2, 1, &encrypted).is_err());
}

#[test]
fn presence_state_roundtrip() {
    let state = PresenceState {
        fingerprint: [0xAA; 32],
        muted: true,
        deafened: false,
        device_vk: [0xDD; 32],
        voice_salt: [0xEE; 32],
    };
    let bytes = state.to_bytes();
    let parsed = PresenceState::from_bytes(&bytes).unwrap();
    assert_eq!(state, parsed);
}

#[test]
fn presence_seal_open_roundtrip() {
    let key = [0x42u8; 32];
    let state = PresenceState {
        fingerprint: [0xBB; 32],
        muted: false,
        deafened: true,
        device_vk: [0xDD; 32],
        voice_salt: [0xEE; 32],
    };
    let blob = seal_presence(&key, &state).unwrap();
    let opened = open_presence(&key, &blob).unwrap();
    assert_eq!(state, opened);
}

#[test]
fn presence_wrong_key_fails() {
    let key1 = [0x42u8; 32];
    let key2 = [0x43u8; 32];
    let state = PresenceState {
        fingerprint: [0xCC; 32],
        muted: false,
        deafened: false,
        device_vk: [0xDD; 32],
        voice_salt: [0xEE; 32],
    };
    let blob = seal_presence(&key1, &state).unwrap();
    assert!(open_presence(&key2, &blob).is_err());
}

#[test]
fn presence_state_truncated_rejected() {
    assert!(PresenceState::from_bytes(&[0x00; 10]).is_err());
}

#[test]
fn presence_state_layout() {
    let state = PresenceState {
        fingerprint: [0x01; 32],
        muted: true,
        deafened: true,
        device_vk: [0x02; 32],
        voice_salt: [0x03; 32],
    };
    let bytes = state.to_bytes();
    assert_eq!(&bytes[0..32], &[0x01; 32]);
    assert_eq!(bytes[32], 1);
    assert_eq!(bytes[33], 1);
    assert_eq!(&bytes[34..66], &[0x02; 32]);
    assert_eq!(&bytes[66..98], &[0x03; 32]);
}

#[test]
fn presence_flag_bytes_read_nonzero_as_true() {
    let mut bytes = [0u8; 98];
    bytes[32] = 7;
    let parsed = PresenceState::from_bytes(&bytes).unwrap();
    assert!(parsed.muted);
    assert!(!parsed.deafened);
}

#[test]
fn presence_blob_too_short_rejected() {
    assert!(open_presence(&[0x42; 32], &[0u8; 27]).is_err());
}

#[test]
fn voice_frames_differ_by_sequence() {
    let key = [0x42u8; 32];
    let a = encrypt_voice_frame(&key, 1, b"same").unwrap();
    let b = encrypt_voice_frame(&key, 2, b"same").unwrap();
    assert_ne!(a, b);
    assert_eq!(decrypt_voice_frame(&key, 0, &b).unwrap(), b"same");
}

#[test]
fn voice_packet_header_roundtrip() {
    let channel = [0x5A; 32];
    let pkt = build_packet(&channel, 7, 99, b"payload");
    assert_eq!(pkt.len(), VOICE_HEADER_SIZE + 7);
    let (c, slot, seq, plen, hlen) = parse_header(&pkt).unwrap();
    assert_eq!(c, channel);
    assert_eq!(slot, 7);
    assert_eq!(seq, 99);
    assert_eq!(plen, 7);
    assert_eq!(hlen, VOICE_HEADER_SIZE);
    assert_eq!(&pkt[hlen..hlen + plen], b"payload");
    assert!(parse_header(&pkt[..VOICE_HEADER_SIZE - 1]).is_none());
    assert!(parse_header(&pkt[..VOICE_HEADER_SIZE + 3]).is_none());
}

#[test]
fn try_open_presence_picks_matching_member() {
    let alice_key = [0x11u8; 32];
    let bob_key = [0x22u8; 32];
    let state = PresenceState {
        fingerprint: [0xB0; 32],
        muted: true,
        deafened: false,
        device_vk: [0x01; 32],
        voice_salt: [0x02; 32],
    };
    let blob = seal_presence(&bob_key, &state).unwrap();
    let members = vec![([0xA0u8; 32], alice_key), ([0xB0u8; 32], bob_key)];
    assert_eq!(try_open_presence(&members, &blob).unwrap(), state);
}

#[test]
fn try_open_presence_rejects_fingerprint_mismatch() {
    let bob_key = [0x22u8; 32];
    let state = PresenceState {
        fingerprint: [0xB0; 32],
        muted: false,
        deafened: false,
        device_vk: [0x01; 32],
        voice_salt: [0x02; 32],
    };
    let blob = seal_presence(&bob_key, &state).unwrap();
    // The key opens the blob, but it is listed under another member's fingerprint.
    let members = vec![([0xC0u8; 32], bob_key)];
    assert!(try_open_presence(&members, &blob).is_err());
    assert!(try_open_presence(&[], &blob).is_err());
}

#[test]
fn presence_trial_decryption() {
    let id = ghost_core::identity::Identity::from_seed([0x01u8; 32]).unwrap();
    let sender_fp = id.fingerprint;
    // Each candidate member comes with the presence key derived for it.
    let key = [0x5Eu8; 32];
    let state = PresenceState {
        fingerprint: sender_fp,
        muted: true,
        deafened: false,
        device_vk: id.verifying_key,
        voice_salt: [0x11; 32],
    };
    let blob = seal_presence(&key, &state).unwrap();
    let candidates = vec![([0xAA; 32], [0xA1u8; 32]), (sender_fp, key), ([0xBB; 32], [0xB1u8; 32])];
    let opened = try_open_presence(&candidates, &blob).unwrap();
    assert_eq!(opened.fingerprint, sender_fp);
    assert!(opened.muted);
}

#[test]
fn presence_trial_decryption_fails_no_match() {
    let id = ghost_core::identity::Identity::from_seed([0x01u8; 32]).unwrap();
    let key = [0x5Eu8; 32];
    let state = PresenceState {
        fingerprint: id.fingerprint,
        muted: false,
        deafened: false,
        device_vk: id.verifying_key,
        voice_salt: [0x11; 32],
    };
    let blob = seal_presence(&key, &state).unwrap();
    let candidates = vec![([0xAA; 32], [0xA1u8; 32]), ([0xBB; 32], [0xB1u8; 32])];
    assert!(try_open_presence(&candidates, &blob).is_err());
}

#[test]
fn key_contexts_lay_out_the_sender() {
    let c = voice_key_context(&[1; 32], &[2; 32], &[3; 32], &[4; 32]);
    assert_eq!(c.len(), 128);
    assert_eq!(&c[0..32], &[1; 32]);
    assert_eq!(&c[32..64], &[2; 32]);
    assert_eq!(&c[64..96], &[3; 32]);
    assert_eq!(&c[96..128], &[4; 32]);
    assert_ne!(c, voice_key_context(&[1; 32], &[2; 32], &[3; 32], &[5; 32]));
    let p = presence_key_context(&[1; 32], &[2; 32]);
    assert_eq!(p, [[1u8; 32], [2u8; 32]].concat());
}
