use base64::Engine;
use ghost_core::relay::{
    classify_ws_text, decode_idlog, mailbox_path, mailbox_ws_url, next_backoff, parse_ack, parse_u64, parse_ws_binary,
    relay_base_urls, replace_str, trim_slashes, url_host, ws_request_path, RelayEvent,
};

const GAP: &str = "gap";
const EPOCH: &str = "epoch_mismatch";

#[test]
fn binary_frame_header_is_seq_then_arrival() {
    let mut data = 7u64.to_be_bytes().to_vec();
    data.extend_from_slice(&1234u64.to_be_bytes());
    data.extend_from_slice(b"blob");
    let b = parse_ws_binary([9; 32], &data).unwrap();
    assert_eq!(b.seq, 7);
    assert_eq!(b.received_at, 1234);
    assert_eq!(b.payload, b"blob");
    assert_eq!(b.mailbox_id, [9; 32]);
    assert!(parse_ws_binary([9; 32], &data[..15]).is_none());
    assert!(parse_ws_binary([9; 32], &data[..16]).unwrap().payload.is_empty());
}

#[test]
fn decimal_parsing_follows_u64_from_str() {
    assert_eq!(parse_u64("0"), Some(0));
    assert_eq!(parse_u64("+42"), Some(42));
    assert_eq!(parse_u64("18446744073709551615"), Some(u64::MAX));
    assert_eq!(parse_u64("18446744073709551616"), None);
    assert_eq!(parse_u64(""), None);
    assert_eq!(parse_u64("+"), None);
    assert_eq!(parse_u64("-1"), None);
    assert_eq!(parse_u64(" 1"), None);
    assert_eq!(parse_u64("12a"), None);
    for s in ["0", "+7", "99999999999999999999", "x", "+", "", "00012"] {
        assert_eq!(parse_u64(s), s.parse::<u64>().ok());
    }
}

#[test]
fn acks_carry_sequence_and_epoch_signal() {
    let a = parse_ack("42", EPOCH).unwrap();
    assert_eq!(a.seq, 42);
    assert!(!a.epoch_mismatch);
    let b = parse_ack("43 epoch_mismatch", EPOCH).unwrap();
    assert_eq!(b.seq, 43);
    assert!(b.epoch_mismatch);
    let c = parse_ack("44 something else", EPOCH).unwrap();
    assert!(!c.epoch_mismatch);
    assert!(parse_ack("nope", EPOCH).is_none());
    assert!(parse_ack(" 5", EPOCH).is_none());
}

#[test]
fn text_frames_are_classified() {
    let m = [3u8; 32];
    assert!(matches!(classify_ws_text(m, GAP, GAP, EPOCH), Some(RelayEvent::Gap { .. })));
    match classify_ws_text(m, "{\"vs\":1}", GAP, EPOCH) {
        Some(RelayEvent::VoiceState { json, .. }) => assert_eq!(json, "{\"vs\":1}"),
        _ => panic!("expected voice state"),
    }
    match classify_ws_text(m, "{\"ps\":{}}", GAP, EPOCH) {
        Some(RelayEvent::Presence { json, .. }) => assert_eq!(json, "{\"ps\":{}}"),
        _ => panic!("expected presence"),
    }
    match classify_ws_text(m, "error: mailbox full", GAP, EPOCH) {
        Some(RelayEvent::Error { message, mailbox_id }) => {
            assert_eq!(message, "mailbox full");
            assert_eq!(mailbox_id, m);
        }
        _ => panic!("expected error"),
    }
    match classify_ws_text(m, "9 epoch_mismatch", GAP, EPOCH) {
        Some(RelayEvent::Ack(a)) => {
            assert_eq!(a.seq, 9);
            assert!(a.epoch_mismatch);
        }
        _ => panic!("expected ack"),
    }
    assert!(classify_ws_text(m, "hello", GAP, EPOCH).is_none());
}

#[test]
fn backoff_doubles_up_to_thirty_seconds() {
    assert_eq!(next_backoff(1), 2);
    assert_eq!(next_backoff(8), 16);
    assert_eq!(next_backoff(16), 30);
    assert_eq!(next_backoff(30), 30);
}

#[test]
fn host_and_path_of_ws_urls() {
    assert_eq!(url_host("ws://relay.example:8080/ws/abc"), "relay.example:8080");
    assert_eq!(url_host("wss://relay.example/ws/abc"), "relay.example");
    assert_eq!(url_host("relay.example"), "relay.example");
    assert_eq!(ws_request_path("wss://relay.example/ws/abc"), "/ws/abc");
    assert_eq!(ws_request_path("wss://relay.example"), "/");
    assert_eq!(ws_request_path("no-scheme"), "/");
}

#[test]
fn base_urls_from_relay_url() {
    let (base, ws) = relay_base_urls("https://relay.example//");
    assert_eq!(base, "https://relay.example");
    assert_eq!(ws, "wss://relay.example");
    let (base, ws) = relay_base_urls("http://localhost:3000");
    assert_eq!(base, "http://localhost:3000");
    assert_eq!(ws, "ws://localhost:3000");
    assert_eq!(trim_slashes("///"), "");
    assert_eq!(replace_str("aXbXc", "X", "--"), "a--b--c");
    assert_eq!(replace_str("aaa", "aa", "b"), "aaa".replace("aa", "b"));
}

#[test]
fn mailbox_urls_use_url_safe_base64() {
    let id = [0xFBu8; 32];
    let b64 = base64::engine::general_purpose::URL_SAFE_NO_PAD.encode(id);
    assert_eq!(mailbox_ws_url("wss://r", &id), format!("wss://r/ws/{b64}"));
    assert_eq!(mailbox_path(&id), format!("/box/{b64}"));
    assert!(!b64.contains('+') && !b64.contains('/') && !b64.contains('='));
}

#[test]
fn idlog_answer_is_decoded() {
    let b64 = &base64::engine::general_purpose::STANDARD;
    let entries = vec![(3u64, b64.encode(b"payload"), b64.encode(b"proof")), (4u64, b64.encode(b""), String::new())];
    let log = decode_idlog(&b64.encode(b"cp"), &entries).unwrap();
    assert_eq!(log.checkpoint, b"cp");
    assert_eq!(log.entries.len(), 2);
    assert_eq!(log.entries[0].seq, 3);
    assert_eq!(log.entries[0].payload, b"payload");
    assert_eq!(log.entries[0].inclusion_proof, b"proof");
    assert!(log.entries[1].inclusion_proof.is_empty());
    assert!(decode_idlog("%%%", &entries).is_err());
    let bad = vec![(1u64, "***".to_string(), String::new())];
    assert!(decode_idlog(&b64.encode(b"cp"), &bad).is_err());
}
