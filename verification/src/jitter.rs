//! Per-sender jitter buffer for voice playback. It buffers a few frames before
//! playback starts, then plays continuously: a frame that is missing (or does
//! not decrypt) is recovered from the next frame's forward error correction
//! when that one is at hand, and concealed otherwise; after a long run of
//! misses the sender is taken to have paused and the buffer resets. The
//! target depth adapts to how many frames arrive late.
//!
//! The buffer decides; decoding the chosen audio is left to the caller.

use vstd::prelude::*;

use std::collections::BTreeMap;

use crate::voice::{decrypt_voice_frame, voice_frame_opened};

verus! {

broadcast use vstd::laws_cmp::group_laws_cmp;

/// Frames buffered before playback starts, at least.
pub const JITTER_MIN_DEPTH: u32 = 3;
/// Largest target depth.
pub const JITTER_MAX_DEPTH: u32 = 5;
/// Consecutive concealed frames after which the buffer resets (~300 ms).
pub const JITTER_MAX_PLC_RUN: u32 = 15;
/// Most frames held at once.
pub const JITTER_MAX_ENTRIES: usize = 50;
/// Frames counted before the target depth adapts.
pub const JITTER_ADAPT_WINDOW: u32 = 50;
/// The depth grows when more than 1/4 of the counted frames were late.
pub const JITTER_LATE_THRESHOLD: u32 = 4;
/// The depth shrinks when fewer than 1/20 of the counted frames were late.
pub const JITTER_EARLY_THRESHOLD: u32 = 20;

/// The state of a jitter buffer.
pub struct JitterView {
    pub buffer: Map<u32, Vec<u8>>,
    pub next_seq: u32,
    pub initialized: bool,
    pub playing: bool,
    pub target_depth: u32,
    pub late_count: u32,
    pub on_time_count: u32,
    pub consecutive_misses: u32,
    pub quality_frames: u32,
    pub quality_missing: u32,
}

pub struct JitterBuffer {
    buffer: BTreeMap<u32, Vec<u8>>,
    next_seq: u32,
    initialized: bool,
    playing: bool,
    target_depth: u32,
    late_count: u32,
    on_time_count: u32,
    consecutive_misses: u32,
    quality_frames: u32,
    quality_missing: u32,
}

impl View for JitterBuffer {
    type V = JitterView;

    closed spec fn view(&self) -> JitterView {
        JitterView {
            buffer: self.buffer@,
            next_seq: self.next_seq,
            initialized: self.initialized,
            playing: self.playing,
            target_depth: self.target_depth,
            late_count: self.late_count,
            on_time_count: self.on_time_count,
            consecutive_misses: self.consecutive_misses,
            quality_frames: self.quality_frames,
            quality_missing: self.quality_missing,
        }
    }
}

/// What to play for the next frame slot.
pub enum Playback {
    /// The frame arrived in time: its decrypted payload.
    Frame(Vec<u8>),
    /// The frame is missing; the next frame's decrypted payload, to decode
    /// with forward error correction.
    Fec(Vec<u8>),
    /// The frame is missing and cannot be recovered: conceal the loss.
    Conceal,
    /// Too many frames were missing in a row: play silence; the buffer reset.
    Stopped,
}

/// A buffer holds at most the maximum number of frames and its target depth
/// stays within bounds.
pub open spec fn jitter_wf(v: JitterView) -> bool {
    &&& v.buffer.dom().finite()
    &&& v.buffer.len() <= JITTER_MAX_ENTRIES
    &&& JITTER_MIN_DEPTH <= v.target_depth <= JITTER_MAX_DEPTH
}

/// The state after adapting the target depth (once a full window of frames
/// has been counted; the counts then start over).
pub open spec fn adapted(v: JitterView) -> JitterView {
    let total = v.late_count.wrapping_add(v.on_time_count);
    if total < JITTER_ADAPT_WINDOW {
        v
    } else {
        let t = if v.late_count > total / JITTER_LATE_THRESHOLD && v.target_depth < JITTER_MAX_DEPTH {
            (v.target_depth + 1) as u32
        } else if v.late_count < total / JITTER_EARLY_THRESHOLD && v.target_depth > JITTER_MIN_DEPTH {
            (v.target_depth - 1) as u32
        } else {
            v.target_depth
        };
        JitterView { target_depth: t, late_count: 0, on_time_count: 0, ..v }
    }
}

/// The state and outcome of popping the next frame under `key`.
pub open spec fn popped(v: JitterView, key: Seq<u8>) -> (JitterView, Option<Seq<u8>>, int) {
    let seq = v.next_seq;
    let next = seq.wrapping_add(1);
    let v1 = JitterView {
        playing: true,
        quality_frames: v.quality_frames.wrapping_add(1),
        next_seq: next,
        buffer: v.buffer.remove(seq),
        ..v
    };
    let on_time = v.buffer.contains_key(seq) && voice_frame_opened(key, v.buffer[seq]@) is Some;
    if on_time {
        let v2 = JitterView {
            on_time_count: v1.on_time_count.wrapping_add(1),
            consecutive_misses: 0,
            ..v1
        };
        (adapted(v2), voice_frame_opened(key, v.buffer[seq]@), 0)
    } else {
        let v2 = JitterView {
            quality_missing: v1.quality_missing.wrapping_add(1),
            late_count: v1.late_count.wrapping_add(1),
            consecutive_misses: v1.consecutive_misses.wrapping_add(1),
            ..v1
        };
        if v2.consecutive_misses > JITTER_MAX_PLC_RUN {
            (JitterView { playing: false, initialized: false, buffer: Map::empty(), ..v2 }, None, 3)
        } else if v2.buffer.contains_key(next) && voice_frame_opened(key, v2.buffer[next]@) is Some {
            (adapted(v2), voice_frame_opened(key, v2.buffer[next]@), 1)
        } else {
            (adapted(v2), None, 2)
        }
    }
}

impl JitterBuffer {
    pub closed spec fn wf(&self) -> bool {
        jitter_wf(self@)
    }

    /// An empty buffer, not yet started, at the minimum depth.
    pub fn new() -> (jb: JitterBuffer)
        ensures
            jb.wf(),
            jb@.buffer == Map::<u32, Vec<u8>>::empty(),
            !jb@.initialized,
            !jb@.playing,
            jb@.target_depth == JITTER_MIN_DEPTH,
            jb@.next_seq == 0,
            jb@.late_count == 0,
            jb@.on_time_count == 0,
            jb@.consecutive_misses == 0,
            jb@.quality_frames == 0,
            jb@.quality_missing == 0,
    {
        JitterBuffer {
            buffer: BTreeMap::new(),
            next_seq: 0,
            initialized: false,
            playing: false,
            target_depth: JITTER_MIN_DEPTH,
            late_count: 0,
            on_time_count: 0,
            consecutive_misses: 0,
            quality_frames: 0,
            quality_missing: 0,
        }
    }

    /// Starts the sequence at the first frame seen; later calls change nothing.
    pub fn set_next_seq(&mut self, seq: u32)
        requires
            old(self).wf(),
        ensures
            final(self).wf(),
            final(self)@ == if old(self)@.initialized {
                old(self)@
            } else {
                (JitterView { next_seq: seq, initialized: true, ..old(self)@ })
            },
    {
        if !self.initialized {
            self.next_seq = seq;
            self.initialized = true;
        }
    }

    /// Buffers a frame. A frame older than the next one to play is counted
    /// late and dropped; when the buffer is full the frame is dropped.
    pub fn insert(&mut self, seq: u32, payload: Vec<u8>)
        requires
            old(self).wf(),
        ensures
            final(self).wf(),
            final(self)@ == if old(self)@.initialized && seq < old(self)@.next_seq {
                (JitterView { late_count: old(self)@.late_count.wrapping_add(1), ..old(self)@ })
            } else if old(self)@.buffer.len() >= JITTER_MAX_ENTRIES {
                old(self)@
            } else {
                (JitterView { buffer: old(self)@.buffer.insert(seq, payload), ..old(self)@ })
            },
    {
        if self.initialized && seq < self.next_seq {
            self.late_count = self.late_count.wrapping_add(1);
            return;
        }
        if self.buffer.len() >= JITTER_MAX_ENTRIES {
            return;
        }
        self.buffer.insert(seq, payload);
        proof {
            vstd::set_lib::lemma_len_subset(self.buffer@.dom(), old(self).buffer@.dom().insert(seq));
        }
    }

    /// Whether a frame should be played: always once playing, otherwise when
    /// the target depth of frames is buffered.
    pub fn ready(&self) -> (r: bool)
        requires
            self.wf(),
        ensures
            r == (self@.playing || self@.buffer.len() >= self@.target_depth),
    {
        if self.playing {
            return true;
        }
        self.buffer.len() >= self.target_depth as usize
    }

    /// Whether the buffer is idle and empty, so that it can be dropped.
    pub fn is_stale(&self) -> (r: bool)
        requires
            self.wf(),
        ensures
            r == (!self@.playing && !self@.initialized && self@.buffer.len() == 0),
    {
        !self.playing && !self.initialized && self.buffer.len() == 0
    }

    fn adapt_depth(&mut self)
        requires
            old(self).wf(),
        ensures
            final(self).wf(),
            final(self)@ == adapted(old(self)@),
    {
        let total = self.late_count.wrapping_add(self.on_time_count);
        if total < JITTER_ADAPT_WINDOW {
            return;
        }
        if self.late_count > total / JITTER_LATE_THRESHOLD && self.target_depth < JITTER_MAX_DEPTH {
            self.target_depth = self.target_depth + 1;
        } else if self.late_count < total / JITTER_EARLY_THRESHOLD && self.target_depth > JITTER_MIN_DEPTH {
            self.target_depth = self.target_depth - 1;
        }
        self.late_count = 0;
        self.on_time_count = 0;
    }

    /// Plays the next frame slot: the frame itself when it is buffered and
    /// decrypts under `key`; else the next frame for forward error correction
    /// when that one decrypts (it stays buffered); else concealment, or a
    /// reset once more than `JITTER_MAX_PLC_RUN` frames were missing in a row.
    pub fn pop_frame(&mut self, key: &[u8; 32]) -> (r: Playback)
        requires
            old(self).wf(),
        ensures
            final(self).wf(),
            final(self)@ == popped(old(self)@, key@).0,
            match r {
                Playback::Frame(p) => popped(old(self)@, key@).2 == 0 && popped(old(self)@, key@).1 == Some(p@),
                Playback::Fec(p) => popped(old(self)@, key@).2 == 1 && popped(old(self)@, key@).1 == Some(p@),
                Playback::Conceal => popped(old(self)@, key@).2 == 2,
                Playback::Stopped => popped(old(self)@, key@).2 == 3,
            },
    {
        let ghost v = self@;
        self.playing = true;
        self.quality_frames = self.quality_frames.wrapping_add(1);
        let seq = self.next_seq;
        self.next_seq = seq.wrapping_add(1);
        let removed = self.buffer.remove(&seq);
        proof {
            vstd::set_lib::lemma_len_subset(self.buffer@.dom(), v.buffer.dom());
        }
        if let Some(encrypted) = removed {
            if let Ok(opus_bytes) = decrypt_voice_frame(key, seq, encrypted.as_slice()) {
                self.on_time_count = self.on_time_count.wrapping_add(1);
                self.consecutive_misses = 0;
                self.adapt_depth();
                return Playback::Frame(opus_bytes);
            }
        }
        self.quality_missing = self.quality_missing.wrapping_add(1);
        self.late_count = self.late_count.wrapping_add(1);
        self.consecutive_misses = self.consecutive_misses.wrapping_add(1);
        if self.consecutive_misses > JITTER_MAX_PLC_RUN {
            self.playing = false;
            self.initialized = false;
            self.buffer.clear();
            return Playback::Stopped;
        }
        let next_seq = seq.wrapping_add(1);
        let fec = match self.buffer.get(&next_seq) {
            Some(next_encrypted) => match decrypt_voice_frame(key, next_seq, next_encrypted.as_slice()) {
                Ok(next_opus) => Some(next_opus),
                Err(_) => None,
            },
            None => None,
        };
        self.adapt_depth();
        match fec {
            Some(p) => Playback::Fec(p),
            None => Playback::Conceal,
        }
    }

    /// Frames buffered now.
    pub fn depth(&self) -> (n: usize)
        requires
            self.wf(),
        ensures
            n == self@.buffer.len(),
    {
        self.buffer.len()
    }

    /// The current target depth.
    pub fn target_depth(&self) -> (t: u32)
        ensures
            t == self@.target_depth,
    {
        self.target_depth
    }

    /// Frames missing in a row so far.
    pub fn consecutive_misses(&self) -> (n: u32)
        ensures
            n == self@.consecutive_misses,
    {
        self.consecutive_misses
    }

    /// Frames played and frames missing since the quality counters were last
    /// taken; both counters start over.
    pub fn take_quality(&mut self) -> (counts: (u32, u32))
        requires
            old(self).wf(),
        ensures
            final(self).wf(),
            counts == (old(self)@.quality_frames, old(self)@.quality_missing),
            final(self)@ == (JitterView { quality_frames: 0, quality_missing: 0, ..old(self)@ }),
    {
        let r = (self.quality_frames, self.quality_missing);
        self.quality_frames = 0;
        self.quality_missing = 0;
        r
    }
}

} // verus!
