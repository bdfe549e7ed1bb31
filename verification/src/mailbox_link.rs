//! The bookkeeping of one mailbox connection across reconnections: how long
//! to wait before the next attempt, which sequence number to resume from,
//! and what each frame the relay sends reports.

use vstd::prelude::*;

use crate::codec::{be64, put_u64};
use crate::relay::{
    ack_of, classify_ws_text, next_backoff, parse_ws_binary, text_frame_kind, IncomingBlob, RelayEvent,
    INITIAL_BACKOFF_SECS, MAX_BACKOFF_SECS, RELAY_ERROR_PREFIX, WS_FRAME_HEADER_SIZE,
};

verus! {

/// The state a mailbox connection keeps between frames and attempts.
pub struct MailboxLink {
    pub mailbox_id: [u8; 32],
    /// The sequence number of the last blob received; the relay replays
    /// what follows it.
    pub last_seen: u64,
    /// The wait before the next reconnection, in seconds.
    pub backoff_secs: u64,
    /// Whether no connection was attempted yet.
    pub first_attempt: bool,
    /// Whether the current connection delivered anything yet.
    pub got_message: bool,
}

impl MailboxLink {
    /// The backoff stays between the first and the longest delay.
    pub open spec fn wf(&self) -> bool {
        INITIAL_BACKOFF_SECS <= self.backoff_secs <= MAX_BACKOFF_SECS
    }

    /// A link to `mailbox_id` that resumes after `last_seen`.
    pub fn new(mailbox_id: [u8; 32], last_seen: u64) -> (l: MailboxLink)
        ensures
            l.wf(),
            l.mailbox_id == mailbox_id,
            l.last_seen == last_seen,
            l.backoff_secs == INITIAL_BACKOFF_SECS,
            l.first_attempt,
            !l.got_message,
    {
        MailboxLink { mailbox_id, last_seen, backoff_secs: INITIAL_BACKOFF_SECS, first_attempt: true, got_message: false }
    }

    /// Before an attempt to connect: no wait the first time; afterwards the
    /// current backoff, which then doubles up to the longest delay.
    pub fn before_connect(&mut self) -> (wait: Option<u64>)
        requires
            old(self).wf(),
        ensures
            final(self).wf(),
            !final(self).first_attempt,
            wait == if old(self).first_attempt { None } else { Some(old(self).backoff_secs) },
            final(self).backoff_secs == if old(self).first_attempt {
                old(self).backoff_secs as int
            } else if old(self).backoff_secs * 2 < MAX_BACKOFF_SECS {
                old(self).backoff_secs * 2
            } else {
                MAX_BACKOFF_SECS as int
            },
            final(self).last_seen == old(self).last_seen,
            final(self).mailbox_id == old(self).mailbox_id,
            final(self).got_message == old(self).got_message,
    {
        let wait = if !self.first_attempt {
            let w = self.backoff_secs;
            self.backoff_secs = next_backoff(self.backoff_secs);
            Some(w)
        } else {
            None
        };
        self.first_attempt = false;
        wait
    }

    /// The connection opened: the handshake frame to send first, the
    /// big-endian sequence number to resume after.
    pub fn handshake(&mut self) -> (frame: Vec<u8>)
        ensures
            frame@ == be64(old(self).last_seen),
            !final(self).got_message,
            final(self).last_seen == old(self).last_seen,
            final(self).backoff_secs == old(self).backoff_secs,
            final(self).first_attempt == old(self).first_attempt,
            final(self).mailbox_id == old(self).mailbox_id,
    {
        self.got_message = false;
        let mut frame: Vec<u8> = Vec::new();
        put_u64(&mut frame, self.last_seen);
        assert(frame@ =~= be64(self.last_seen));
        frame
    }

    /// Something arrived on the connection: the first delivery resets the
    /// backoff.
    fn delivered(&mut self)
        requires
            old(self).wf(),
        ensures
            final(self).wf(),
            final(self).got_message,
            final(self).backoff_secs == if old(self).got_message { old(self).backoff_secs } else { INITIAL_BACKOFF_SECS },
            final(self).last_seen == old(self).last_seen,
            final(self).first_attempt == old(self).first_attempt,
            final(self).mailbox_id == old(self).mailbox_id,
    {
        if !self.got_message {
            self.got_message = true;
            self.backoff_secs = INITIAL_BACKOFF_SECS;
        }
    }

    /// A binary frame: a blob, which moves the resume point to its sequence
    /// number; a frame shorter than its header is ignored.
    pub fn on_binary(&mut self, data: &[u8]) -> (r: Option<IncomingBlob>)
        requires
            old(self).wf(),
        ensures
            final(self).wf(),
            match r {
                Some(b) => {
                    &&& data@.len() >= WS_FRAME_HEADER_SIZE
                    &&& b.mailbox_id == old(self).mailbox_id
                    &&& b.seq == crate::codec::u64_of_be(data@.subrange(0, 8))
                    &&& b.received_at == crate::codec::u64_of_be(data@.subrange(8, 16))
                    &&& b.payload@ == data@.subrange(16, data@.len() as int)
                    &&& final(self).last_seen == b.seq
                    &&& final(self).got_message
                    &&& final(self).backoff_secs == if old(self).got_message { old(self).backoff_secs } else { INITIAL_BACKOFF_SECS }
                },
                None => data@.len() < WS_FRAME_HEADER_SIZE && *final(self) == *old(self),
            },
            final(self).first_attempt == old(self).first_attempt,
            final(self).mailbox_id == old(self).mailbox_id,
    {
        match parse_ws_binary(self.mailbox_id, data) {
            Some(b) => {
                self.last_seen = b.seq;
                self.delivered();
                Some(b)
            },
            None => None,
        }
    }

    /// A text frame: any text counts as a delivery; it reports a gap, a
    /// voice-state or presence notification, a relay error or an
    /// acknowledgement, or nothing.
    pub fn on_text(&mut self, text: &str, gap_signal: &str, epoch_mismatch_signal: &str) -> (r: Option<RelayEvent>)
        requires
            old(self).wf(),
        ensures
            final(self).wf(),
            final(self).got_message,
            final(self).backoff_secs == if old(self).got_message { old(self).backoff_secs } else { INITIAL_BACKOFF_SECS },
            final(self).last_seen == old(self).last_seen,
            final(self).first_attempt == old(self).first_attempt,
            final(self).mailbox_id == old(self).mailbox_id,
            match r {
                Some(RelayEvent::Gap { mailbox_id: m }) => text_frame_kind(text@, gap_signal@, epoch_mismatch_signal@) == 0
                    && m == old(self).mailbox_id,
                Some(RelayEvent::VoiceState { mailbox_id: m, json }) => text_frame_kind(text@, gap_signal@,
                    epoch_mismatch_signal@) == 1 && m == old(self).mailbox_id && json@ == text@,
                Some(RelayEvent::Presence { mailbox_id: m, json }) => text_frame_kind(text@, gap_signal@,
                    epoch_mismatch_signal@) == 2 && m == old(self).mailbox_id && json@ == text@,
                Some(RelayEvent::Error { mailbox_id: m, message }) => text_frame_kind(text@, gap_signal@,
                    epoch_mismatch_signal@) == 3 && m == old(self).mailbox_id
                    && message@ == text@.skip(RELAY_ERROR_PREFIX@.len() as int),
                Some(RelayEvent::Ack(a)) => text_frame_kind(text@, gap_signal@, epoch_mismatch_signal@) == 4
                    && ack_of(text@, epoch_mismatch_signal@) == Some((a.seq, a.epoch_mismatch)),
                Some(_) => false,
                None => text_frame_kind(text@, gap_signal@, epoch_mismatch_signal@) == 5,
            },
    {
        self.delivered();
        classify_ws_text(self.mailbox_id, text, gap_signal, epoch_mismatch_signal)
    }
}

} // verus!
