//! What the capture path sends, frame by frame: the speaking indicator, the
//! short pre-roll kept while the user is silent so that speech is not
//! clipped at its start, the silence frames that close a burst of speech,
//! and the sequence numbers of the packets. Capturing, filtering and
//! encoding the samples is done by the audio thread; what it hands over
//! here is the encoded frame and the decisions it measured.

use vstd::prelude::*;

use crate::audio_control::{speaking_after_frame, NoiseSuppressionMode, INPUT_MODE_PTT, VAD_HANGOVER_FRAMES};
use crate::voice::{build_packet, encrypt_voice_frame, enc_voice_packet, voice_frame_sealed};

verus! {

/// An Opus frame of silence, sent when speech ends so that decoders reset
/// cleanly.
pub const OPUS_SILENCE: [u8; 3] = [0xF8, 0xFF, 0xFE];

/// The sequence number after `s`, wrapping.
pub open spec fn seq_after(s: u32) -> u32 {
    if s == 0xFFFF_FFFFu32 { 0 } else { (s + 1) as u32 }
}

/// The voice packet of `frame` sealed under `key` at sequence `seq`, when
/// sealing succeeds.
pub open spec fn sealed_packet(key: Seq<u8>, channel: Seq<u8>, slot: u32, seq: u32, frame: Seq<u8>) -> Option<Seq<u8>> {
    match voice_frame_sealed(key, seq as u64, frame) {
        Some(c) => Some(enc_voice_packet(channel, slot, seq, c)),
        None => None,
    }
}

/// The packets of `n` silence frames sent from sequence `seq`, and the
/// sequence after them (a frame that fails to seal is skipped and does not
/// take a number).
pub open spec fn silence_run(key: Seq<u8>, channel: Seq<u8>, slot: u32, seq: u32, n: nat) -> (Seq<Seq<u8>>, u32)
    decreases n,
{
    if n == 0 {
        (Seq::empty(), seq)
    } else {
        let (prev, s) = silence_run(key, channel, slot, seq, (n - 1) as nat);
        match sealed_packet(key, channel, slot, s, OPUS_SILENCE@) {
            Some(p) => (prev.push(p), seq_after(s)),
            None => (prev, s),
        }
    }
}

/// The pre-roll after `p` is kept: the oldest packet goes when `cap` are
/// held already.
pub open spec fn kept(pre: Seq<Seq<u8>>, p: Seq<u8>, cap: usize) -> Seq<Seq<u8>> {
    (if pre.len() >= cap && pre.len() > 0 { pre.drop_first() } else { pre }).push(p)
}

pub open spec fn views(v: Seq<Vec<u8>>) -> Seq<Seq<u8>> {
    v.map_values(|p: Vec<u8>| p@)
}

/// The capture path's state between frames.
pub struct CaptureState {
    /// The sequence number of the next packet.
    pub sequence: u32,
    /// Whether the last frame was sent as speech.
    pub was_speaking: bool,
    /// Frames the speaking indicator stays on.
    pub hangover: u32,
    /// Packets of the last silent frames, oldest first, sent when speech starts.
    pub pre_roll: Vec<Vec<u8>>,
    /// How many packets the pre-roll holds.
    pub pre_roll_frames: usize,
    /// How many silence frames close a burst of speech.
    pub silence_frames: usize,
    /// Whether the noise suppressor has been fed a frame since it was enabled.
    pub denoise_primed: bool,
    /// The noise suppression mode of the last transmitted frame.
    pub last_ns_mode: NoiseSuppressionMode,
}

impl CaptureState {
    pub fn new(pre_roll_frames: usize, silence_frames: usize) -> (c: CaptureState)
        ensures
            c.sequence == 0,
            !c.was_speaking,
            c.hangover == 0,
            c.pre_roll@.len() == 0,
            c.pre_roll_frames == pre_roll_frames,
            c.silence_frames == silence_frames,
            !c.denoise_primed,
            c.last_ns_mode == NoiseSuppressionMode::Nnnoiseless,
    {
        CaptureState {
            sequence: 0,
            was_speaking: false,
            hangover: 0,
            pre_roll: Vec::new(),
            pre_roll_frames,
            silence_frames,
            denoise_primed: false,
            last_ns_mode: NoiseSuppressionMode::Nnnoiseless,
        }
    }

    /// A frame to transmit with noise suppression `ns_mode` (already
    /// applied by the caller): returns whether the frame is dropped because
    /// the suppressor was just enabled and this is the first frame it saw.
    pub fn frame_mode(&mut self, ns_mode: NoiseSuppressionMode) -> (skip: bool)
        ensures
            final(self).last_ns_mode == ns_mode,
            skip == (ns_mode == NoiseSuppressionMode::Nnnoiseless && (old(self).last_ns_mode != NoiseSuppressionMode::Nnnoiseless
                || !old(self).denoise_primed)),
            final(self).denoise_primed == if ns_mode == NoiseSuppressionMode::Nnnoiseless {
                true
            } else {
                old(self).denoise_primed
            },
            final(self).sequence == old(self).sequence,
            final(self).was_speaking == old(self).was_speaking,
            final(self).hangover == old(self).hangover,
            final(self).pre_roll == old(self).pre_roll,
    {
        if ns_mode == NoiseSuppressionMode::Nnnoiseless && self.last_ns_mode != NoiseSuppressionMode::Nnnoiseless {
            self.denoise_primed = false;
        }
        self.last_ns_mode = ns_mode;
        if ns_mode == NoiseSuppressionMode::Nnnoiseless && !self.denoise_primed {
            self.denoise_primed = true;
            return true;
        }
        false
    }

    /// The speaking decision for a transmitted frame: push-to-talk always
    /// speaks; otherwise voice above the threshold restarts the hangover,
    /// which counts down without it.
    pub fn speaking(&mut self, input_mode: u8, voice_above_threshold: bool) -> (speaking: bool)
        ensures
            final(self).hangover == speaking_after_frame_hangover(input_mode, voice_above_threshold, old(self).hangover),
            speaking == (input_mode == INPUT_MODE_PTT || final(self).hangover > 0),
            final(self).sequence == old(self).sequence,
            final(self).was_speaking == old(self).was_speaking,
            final(self).pre_roll == old(self).pre_roll,
            final(self).denoise_primed == old(self).denoise_primed,
            final(self).last_ns_mode == old(self).last_ns_mode,
    {
        let (h, _) = speaking_after_frame(input_mode, voice_above_threshold, self.hangover);
        self.hangover = h;
        input_mode == INPUT_MODE_PTT || h > 0
    }

    /// Seals silence frames after speech ended.
    fn push_silence(&mut self, key: &[u8; 32], channel_id: &[u8; 32], slot_id: u32, out: &mut Vec<Vec<u8>>)
        ensures
            views(final(out)@) == views(old(out)@) + silence_run(key@, channel_id@, slot_id, old(self).sequence, old(self).silence_frames as nat).0,
            final(self).sequence == silence_run(key@, channel_id@, slot_id, old(self).sequence, old(self).silence_frames as nat).1,
            final(self).was_speaking == old(self).was_speaking,
            final(self).hangover == old(self).hangover,
            final(self).pre_roll == old(self).pre_roll,
            final(self).pre_roll_frames == old(self).pre_roll_frames,
            final(self).silence_frames == old(self).silence_frames,
            final(self).denoise_primed == old(self).denoise_primed,
            final(self).last_ns_mode == old(self).last_ns_mode,
    {
        let ghost start = out@;
        let ghost seq0 = self.sequence;
        let silence: [u8; 3] = OPUS_SILENCE;
        let mut i: usize = 0;
        while i < self.silence_frames
            invariant
                i <= self.silence_frames,
                self.silence_frames == old(self).silence_frames,
                self.was_speaking == old(self).was_speaking,
                self.hangover == old(self).hangover,
                self.pre_roll == old(self).pre_roll,
                self.pre_roll_frames == old(self).pre_roll_frames,
                self.denoise_primed == old(self).denoise_primed,
                self.last_ns_mode == old(self).last_ns_mode,
                silence@ == OPUS_SILENCE@,
                views(out@) == views(start) + silence_run(key@, channel_id@, slot_id, seq0, i as nat).0,
                self.sequence == silence_run(key@, channel_id@, slot_id, seq0, i as nat).1,
            decreases self.silence_frames - i,
        {
            let ghost before = out@;
            match encrypt_voice_frame(key, self.sequence, &silence) {
                Ok(enc) => {
                    let pkt = build_packet(channel_id, slot_id, self.sequence, enc.as_slice());
                    out.push(pkt);
                    self.sequence = self.sequence.wrapping_add(1);
                    proof {
                        assert(views(out@) =~= views(before).push(pkt@));
                    }
                },
                Err(_) => {},
            }
            i = i + 1;
        }
    }

    /// An encoded frame to transmit, `speaking` as decided for it. Returns
    /// the packets to send now, in order: when speech starts, the pre-roll
    /// and then the frame; while speaking, the frame; when speech ends, the
    /// silence frames; while silent, nothing (the frame joins the
    /// pre-roll). A frame that fails to seal changes nothing.
    pub fn on_encoded(&mut self, key: &[u8; 32], channel_id: &[u8; 32], slot_id: u32, speaking: bool, encoded: &[u8]) -> (out: Vec<Vec<u8>>)
        ensures
            final(self).hangover == old(self).hangover,
            final(self).pre_roll_frames == old(self).pre_roll_frames,
            final(self).silence_frames == old(self).silence_frames,
            final(self).denoise_primed == old(self).denoise_primed,
            final(self).last_ns_mode == old(self).last_ns_mode,
            match sealed_packet(key@, channel_id@, slot_id, old(self).sequence, encoded@) {
                None => views(out@) == Seq::<Seq<u8>>::empty() && final(self).sequence == old(self).sequence
                    && final(self).was_speaking == old(self).was_speaking && final(self).pre_roll == old(self).pre_roll,
                Some(pkt) => if speaking {
                    &&& views(out@) == (if old(self).was_speaking { Seq::empty() } else { views(old(self).pre_roll@) }).push(pkt)
                    &&& views(final(self).pre_roll@) == if old(self).was_speaking { views(old(self).pre_roll@) } else { Seq::empty() }
                    &&& final(self).was_speaking
                    &&& final(self).sequence == seq_after(old(self).sequence)
                } else {
                    let run = if old(self).was_speaking {
                        silence_run(key@, channel_id@, slot_id, seq_after(old(self).sequence), old(self).silence_frames as nat)
                    } else {
                        (Seq::empty(), seq_after(old(self).sequence))
                    };
                    &&& views(out@) == run.0
                    &&& final(self).sequence == run.1
                    &&& !final(self).was_speaking
                    &&& views(final(self).pre_roll@) == kept(views(old(self).pre_roll@), pkt, old(self).pre_roll_frames)
                },
            },
    {
        let mut out: Vec<Vec<u8>> = Vec::new();
        let enc = match encrypt_voice_frame(key, self.sequence, encoded) {
            Ok(e) => e,
            Err(_) => {
                assert(views(out@) =~= Seq::<Seq<u8>>::empty());
                return out;
            },
        };
        let pkt = build_packet(channel_id, slot_id, self.sequence, enc.as_slice());
        self.sequence = self.sequence.wrapping_add(1);
        if speaking {
            if !self.was_speaking {
                std::mem::swap(&mut out, &mut self.pre_roll);
                assert(views(self.pre_roll@) =~= Seq::<Seq<u8>>::empty());
            }
            self.was_speaking = true;
            let ghost before = out@;
            out.push(pkt);
            assert(views(out@) =~= views(before).push(pkt@));
        } else {
            if self.was_speaking {
                self.push_silence(key, channel_id, slot_id, &mut out);
                self.was_speaking = false;
            }
            assert(views(out@) == (if old(self).was_speaking {
                silence_run(key@, channel_id@, slot_id, seq_after(old(self).sequence), old(self).silence_frames as nat).0
            } else {
                Seq::<Seq<u8>>::empty()
            })) by {
                if !old(self).was_speaking {
                    assert(views(out@) =~= Seq::<Seq<u8>>::empty());
                }
            }
            let ghost pre = views(self.pre_roll@);
            if self.pre_roll.len() >= self.pre_roll_frames && self.pre_roll.len() > 0 {
                let _ = self.pre_roll.remove(0);
                assert(views(self.pre_roll@) =~= pre.drop_first());
            }
            let ghost mid = self.pre_roll@;
            self.pre_roll.push(pkt);
            assert(views(self.pre_roll@) =~= views(mid).push(pkt@));
        }
        out
    }

    /// A frame that is not transmitted (muted, or push-to-talk released):
    /// the speaking hangover ends, the pre-roll is dropped, and if speech
    /// was going on the silence frames that close it are returned.
    pub fn on_not_transmitting(&mut self, key: &[u8; 32], channel_id: &[u8; 32], slot_id: u32) -> (out: Vec<Vec<u8>>)
        ensures
            final(self).hangover == 0,
            !final(self).was_speaking,
            final(self).pre_roll@.len() == 0,
            final(self).pre_roll_frames == old(self).pre_roll_frames,
            final(self).silence_frames == old(self).silence_frames,
            final(self).denoise_primed == old(self).denoise_primed,
            final(self).last_ns_mode == old(self).last_ns_mode,
            if old(self).was_speaking {
                &&& views(out@) == silence_run(key@, channel_id@, slot_id, old(self).sequence, old(self).silence_frames as nat).0
                &&& final(self).sequence == silence_run(key@, channel_id@, slot_id, old(self).sequence, old(self).silence_frames as nat).1
            } else {
                views(out@) == Seq::<Seq<u8>>::empty() && final(self).sequence == old(self).sequence
            },
    {
        self.hangover = 0;
        let mut out: Vec<Vec<u8>> = Vec::new();
        if self.was_speaking {
            self.push_silence(key, channel_id, slot_id, &mut out);
            self.was_speaking = false;
            assert(views(out@) =~= Seq::<Seq<u8>>::empty() + silence_run(key@, channel_id@, slot_id, old(self).sequence, old(self).silence_frames as nat).0);
        } else {
            assert(views(out@) =~= Seq::<Seq<u8>>::empty());
        }
        self.pre_roll.clear();
        out
    }
}

/// The hangover counter `speaking_after_frame` carries to the next frame.
pub open spec fn speaking_after_frame_hangover(input_mode: u8, voice_above_threshold: bool, hangover: u32) -> u32 {
    if input_mode == INPUT_MODE_PTT {
        hangover
    } else if voice_above_threshold {
        VAD_HANGOVER_FRAMES
    } else if hangover > 0 {
        (hangover - 1) as u32
    } else {
        0
    }
}

} // verus!
