use ghost_core::jitter::{JitterBuffer, Playback, JITTER_MAX_ENTRIES, JITTER_MAX_PLC_RUN, JITTER_MIN_DEPTH};
use ghost_core::voice::encrypt_voice_frame;

const KEY: [u8; 32] = [0x42; 32];

fn frame(seq: u32, data: &[u8]) -> Vec<u8> {
    encrypt_voice_frame(&KEY, seq, data).unwrap()
}

#[test]
fn buffers_until_target_depth() {
    let mut jb = JitterBuffer::new();
    assert!(jb.is_stale());
    jb.set_next_seq(10);
    jb.insert(10, frame(10, b"a"));
    jb.insert(11, frame(11, b"b"));
    assert!(!jb.ready());
    jb.insert(12, frame(12, b"c"));
    assert!(jb.ready());
    assert_eq!(jb.depth(), 3);
    assert_eq!(jb.target_depth(), JITTER_MIN_DEPTH);
}

#[test]
fn plays_frames_in_order() {
    let mut jb = JitterBuffer::new();
    jb.set_next_seq(5);
    for s in 5..8u32 {
        jb.insert(s, frame(s, &[s as u8]));
    }
    match jb.pop_frame(&KEY) {
        Playback::Frame(p) => assert_eq!(p, vec![5]),
        _ => panic!("expected frame 5"),
    }
    match jb.pop_frame(&KEY) {
        Playback::Frame(p) => assert_eq!(p, vec![6]),
        _ => panic!("expected frame 6"),
    }
    assert!(jb.ready());
    assert_eq!(jb.take_quality(), (2, 0));
    assert_eq!(jb.take_quality(), (0, 0));
}

#[test]
fn missing_frame_uses_fec_of_next() {
    let mut jb = JitterBuffer::new();
    jb.set_next_seq(0);
    jb.insert(1, frame(1, b"next"));
    match jb.pop_frame(&KEY) {
        Playback::Fec(p) => assert_eq!(p, b"next"),
        _ => panic!("expected FEC from frame 1"),
    }
    // frame 1 stays buffered and plays normally afterwards
    match jb.pop_frame(&KEY) {
        Playback::Frame(p) => assert_eq!(p, b"next"),
        _ => panic!("expected frame 1"),
    }
    assert_eq!(jb.consecutive_misses(), 0);
}

#[test]
fn missing_frame_without_next_is_concealed() {
    let mut jb = JitterBuffer::new();
    jb.set_next_seq(0);
    assert!(matches!(jb.pop_frame(&KEY), Playback::Conceal));
    assert_eq!(jb.consecutive_misses(), 1);
    assert_eq!(jb.take_quality(), (1, 1));
}

#[test]
fn undecryptable_frame_counts_as_missing() {
    let mut jb = JitterBuffer::new();
    jb.set_next_seq(0);
    jb.insert(0, vec![1, 2, 3]);
    assert!(matches!(jb.pop_frame(&KEY), Playback::Conceal));
    assert_eq!(jb.depth(), 0);
}

#[test]
fn long_loss_run_resets_the_buffer() {
    let mut jb = JitterBuffer::new();
    jb.set_next_seq(0);
    for _ in 0..JITTER_MAX_PLC_RUN {
        assert!(matches!(jb.pop_frame(&KEY), Playback::Conceal));
    }
    jb.insert(100, frame(100, b"far"));
    assert!(matches!(jb.pop_frame(&KEY), Playback::Stopped));
    assert_eq!(jb.depth(), 0);
    assert!(jb.is_stale());
    // the next frame seen restarts the sequence
    jb.set_next_seq(200);
    jb.insert(200, frame(200, b"again"));
    match jb.pop_frame(&KEY) {
        Playback::Frame(p) => assert_eq!(p, b"again"),
        _ => panic!("expected restart"),
    }
}

#[test]
fn late_frames_are_dropped_and_capacity_is_bounded() {
    let mut jb = JitterBuffer::new();
    jb.set_next_seq(100);
    jb.insert(99, frame(99, b"late"));
    assert_eq!(jb.depth(), 0);
    for s in 100..(100 + JITTER_MAX_ENTRIES as u32 + 10) {
        jb.insert(s, vec![0]);
    }
    assert_eq!(jb.depth(), JITTER_MAX_ENTRIES);
}

#[test]
fn target_depth_grows_when_many_frames_are_late() {
    let mut jb = JitterBuffer::new();
    jb.set_next_seq(0);
    // 15 of the first 50 frames missing: more than a quarter late, so the depth grows.
    for _ in 0..15 {
        let _ = jb.pop_frame(&KEY);
    }
    for s in 15..65u32 {
        jb.insert(s, frame(s, b"x"));
    }
    for _ in 0..34 {
        let _ = jb.pop_frame(&KEY);
    }
    assert_eq!(jb.target_depth(), JITTER_MIN_DEPTH);
    let _ = jb.pop_frame(&KEY);
    assert_eq!(jb.target_depth(), JITTER_MIN_DEPTH + 1);
}
