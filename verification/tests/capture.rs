use ghost_core::audio_control::{NoiseSuppressionMode, INPUT_MODE_PTT, INPUT_MODE_VA, VAD_HANGOVER_FRAMES};
use ghost_core::capture::{CaptureState, OPUS_SILENCE};
use ghost_core::voice::{decrypt_voice_frame, parse_header};

const KEY: [u8; 32] = [0x42; 32];
const CH: [u8; 32] = [0xC4; 32];

fn seq_of(pkt: &[u8]) -> u32 {
    parse_header(pkt).unwrap().2
}

fn payload_of(pkt: &[u8]) -> Vec<u8> {
    let (_, _, seq, len, hdr) = parse_header(pkt).unwrap();
    decrypt_voice_frame(&KEY, seq, &pkt[hdr..hdr + len]).unwrap()
}

#[test]
fn noise_suppressor_drops_its_first_frame() {
    let mut c = CaptureState::new(3, 2);
    assert!(c.frame_mode(NoiseSuppressionMode::Nnnoiseless));
    assert!(!c.frame_mode(NoiseSuppressionMode::Nnnoiseless));
    assert!(!c.frame_mode(NoiseSuppressionMode::Off));
    // Switching back on primes it again.
    assert!(c.frame_mode(NoiseSuppressionMode::Nnnoiseless));
    assert!(!c.frame_mode(NoiseSuppressionMode::Nnnoiseless));
}

#[test]
fn speaking_hangover() {
    let mut c = CaptureState::new(3, 2);
    assert!(!c.speaking(INPUT_MODE_VA, false));
    assert!(c.speaking(INPUT_MODE_VA, true));
    assert_eq!(c.hangover, VAD_HANGOVER_FRAMES);
    for _ in 0..VAD_HANGOVER_FRAMES - 1 {
        assert!(c.speaking(INPUT_MODE_VA, false));
    }
    assert!(!c.speaking(INPUT_MODE_VA, false));
    assert!(c.speaking(INPUT_MODE_PTT, false));
    assert_eq!(c.hangover, 0);
}

#[test]
fn pre_roll_is_flushed_when_speech_starts() {
    let mut c = CaptureState::new(2, 2);
    for i in 0..3u8 {
        assert!(c.on_encoded(&KEY, &CH, 7, false, &[i]).is_empty());
    }
    assert_eq!(c.pre_roll.len(), 2);
    let out = c.on_encoded(&KEY, &CH, 7, true, &[9]);
    assert_eq!(out.len(), 3);
    assert_eq!(out.iter().map(|p| seq_of(p)).collect::<Vec<_>>(), vec![1, 2, 3]);
    assert_eq!(payload_of(&out[0]), vec![1]);
    assert_eq!(payload_of(&out[2]), vec![9]);
    assert!(c.pre_roll.is_empty());
    // Still speaking: only the frame.
    let out = c.on_encoded(&KEY, &CH, 7, true, &[10]);
    assert_eq!(out.len(), 1);
    assert_eq!(seq_of(&out[0]), 4);
}

#[test]
fn speech_end_sends_silence_frames() {
    let mut c = CaptureState::new(2, 3);
    c.on_encoded(&KEY, &CH, 7, true, &[1]);
    let out = c.on_encoded(&KEY, &CH, 7, false, &[2]);
    // The silent frame goes to the pre-roll; three silence frames follow it in sequence.
    assert_eq!(out.len(), 3);
    assert_eq!(out.iter().map(|p| seq_of(p)).collect::<Vec<_>>(), vec![2, 3, 4]);
    assert_eq!(payload_of(&out[1]), OPUS_SILENCE.to_vec());
    assert_eq!(c.pre_roll.len(), 1);
    assert_eq!(seq_of(&c.pre_roll[0]), 1);
    assert_eq!(c.sequence, 5);
}

#[test]
fn muting_mid_speech_closes_it_and_drops_pre_roll() {
    let mut c = CaptureState::new(2, 2);
    assert!(c.on_not_transmitting(&KEY, &CH, 7).is_empty());
    c.on_encoded(&KEY, &CH, 7, true, &[1]);
    c.hangover = 5;
    let out = c.on_not_transmitting(&KEY, &CH, 7);
    assert_eq!(out.len(), 2);
    assert!(!c.was_speaking);
    assert_eq!(c.hangover, 0);
    c.on_encoded(&KEY, &CH, 7, false, &[3]);
    assert_eq!(c.pre_roll.len(), 1);
    assert!(c.on_not_transmitting(&KEY, &CH, 7).is_empty());
    assert!(c.pre_roll.is_empty());
}

#[test]
fn sequence_wraps() {
    let mut c = CaptureState::new(1, 1);
    c.sequence = u32::MAX;
    let out = c.on_encoded(&KEY, &CH, 7, true, &[1]);
    assert_eq!(seq_of(&out[0]), u32::MAX);
    assert_eq!(c.sequence, 0);
}
