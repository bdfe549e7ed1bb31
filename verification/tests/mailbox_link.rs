use ghost_core::mailbox_link::MailboxLink;
use ghost_core::relay::{RelayEvent, INITIAL_BACKOFF_SECS, MAX_BACKOFF_SECS};

const GAP: &str = "gap";
const EPOCH: &str = "epoch_mismatch";

#[test]
fn reconnect_waits_grow_and_reset_on_delivery() {
    let mut l = MailboxLink::new([1; 32], 0);
    assert_eq!(l.before_connect(), None);
    let mut waits = Vec::new();
    for _ in 0..7 {
        waits.push(l.before_connect().unwrap());
    }
    assert_eq!(waits, vec![1, 2, 4, 8, 16, 30, 30]);
    assert_eq!(l.backoff_secs, MAX_BACKOFF_SECS);
    l.handshake();
    assert!(l.on_text("hello", GAP, EPOCH).is_none());
    assert_eq!(l.backoff_secs, INITIAL_BACKOFF_SECS);
    assert_eq!(l.before_connect(), Some(1));
}

#[test]
fn blobs_move_the_resume_point() {
    let mut l = MailboxLink::new([1; 32], 5);
    assert_eq!(l.handshake(), 5u64.to_be_bytes().to_vec());
    let mut frame = 42u64.to_be_bytes().to_vec();
    frame.extend_from_slice(&1000u64.to_be_bytes());
    frame.extend_from_slice(b"payload");
    let b = l.on_binary(&frame).unwrap();
    assert_eq!((b.seq, b.received_at, b.mailbox_id), (42, 1000, [1; 32]));
    assert_eq!(b.payload, b"payload");
    assert_eq!(l.last_seen, 42);
    assert!(l.on_binary(&frame[..15]).is_none());
    assert_eq!(l.last_seen, 42);
    assert_eq!(l.handshake(), 42u64.to_be_bytes().to_vec());
}

#[test]
fn link_text_frames_are_classified() {
    let mut l = MailboxLink::new([2; 32], 0);
    assert!(matches!(l.on_text(GAP, GAP, EPOCH), Some(RelayEvent::Gap { mailbox_id }) if mailbox_id == [2; 32]));
    assert!(matches!(l.on_text("{\"vs\":{}}", GAP, EPOCH), Some(RelayEvent::VoiceState { .. })));
    assert!(matches!(l.on_text("{\"ps\":{}}", GAP, EPOCH), Some(RelayEvent::Presence { .. })));
    match l.on_text("error: nope", GAP, EPOCH) {
        Some(RelayEvent::Error { message, .. }) => assert_eq!(message, "nope"),
        _ => panic!("expected error"),
    }
    match l.on_text("17 epoch_mismatch", GAP, EPOCH) {
        Some(RelayEvent::Ack(a)) => assert!(a.seq == 17 && a.epoch_mismatch),
        _ => panic!("expected ack"),
    }
    assert!(l.got_message);
}
