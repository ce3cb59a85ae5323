//! Live MIDI events and the passthrough listener step.
//!
//! The listener runs on the MIDI subsystem's real-time thread. For each raw
//! incoming message it forwards the bytes verbatim to the output connection
//! and, when the bytes decode to a live event, queues a self-owned copy of
//! that event for the foreground. Decoding follows the MIDI wire grammar for
//! channel-voice messages; system common, exclusive and real-time messages
//! are recognized and ignored, and anything else is discarded as malformed.

use vstd::prelude::*;

verus! {

/// A decoded live MIDI message. Only note events matter to the foreground;
/// every other recognized message decodes to `Other` and is ignored.
#[derive(Debug, Clone, Copy, PartialEq, Eq, Structural)]
pub enum LiveEvent {
    NoteOn { channel: u8, key: u8, vel: u8 },
    NoteOff { channel: u8, key: u8, vel: u8 },
    Other,
}

/// The live event denoted by the raw bytes of one incoming MIDI message,
/// or nothing if the bytes are malformed.
///
/// A channel-voice message is a status byte with the channel in its low
/// nibble followed by one or two data bytes below 0x80: note off (0x8x) and
/// note on (0x9x) decode to note events; polyphonic aftertouch (0xAx),
/// control change (0xBx) and pitch bend (0xEx) take two data bytes and
/// program change (0xCx) and channel pressure (0xDx) one, all decoding to
/// `Other`. System messages also decode to `Other`: an exclusive message
/// (0xF0, data bytes, 0xF7), a quarter-frame or song select (0xF1/0xF3 with
/// one data byte), a song position (0xF2 with two), a tune request (0xF6)
/// and any single real-time byte (0xF8..=0xFF).
pub open spec fn spec_parse_live_event(m: Seq<u8>) -> Option<LiveEvent> {
    if m.len() >= 2 && m[0] == 0xf0 {
        if m.last() == 0xf7 && (forall|i: int| 1 <= i < m.len() - 1 ==> m[i] < 0x80) {
            Some(LiveEvent::Other)
        } else {
            None
        }
    } else if m.len() == 3 && 0x80 <= m[0] && m[0] <= 0x8f && m[1] < 0x80 && m[2] < 0x80 {
        Some(LiveEvent::NoteOff { channel: (m[0] - 0x80) as u8, key: m[1], vel: m[2] })
    } else if m.len() == 3 && 0x90 <= m[0] && m[0] <= 0x9f && m[1] < 0x80 && m[2] < 0x80 {
        Some(LiveEvent::NoteOn { channel: (m[0] - 0x90) as u8, key: m[1], vel: m[2] })
    } else if m.len() == 3 && 0xa0 <= m[0] && m[0] <= 0xbf && m[1] < 0x80 && m[2] < 0x80 {
        Some(LiveEvent::Other)
    } else if m.len() == 3 && 0xe0 <= m[0] && m[0] <= 0xef && m[1] < 0x80 && m[2] < 0x80 {
        Some(LiveEvent::Other)
    } else if m.len() == 3 && m[0] == 0xf2 && m[1] < 0x80 && m[2] < 0x80 {
        Some(LiveEvent::Other)
    } else if m.len() == 2 && 0xc0 <= m[0] && m[0] <= 0xdf && m[1] < 0x80 {
        Some(LiveEvent::Other)
    } else if m.len() == 2 && (m[0] == 0xf1 || m[0] == 0xf3) && m[1] < 0x80 {
        Some(LiveEvent::Other)
    } else if m.len() == 1 && (m[0] == 0xf6 || 0xf8 <= m[0]) {
        Some(LiveEvent::Other)
    } else {
        None
    }
}

/// Decode the raw bytes of one incoming MIDI message.
pub fn parse_live_event(message: &[u8]) -> (r: Option<LiveEvent>)
    ensures
        r == spec_parse_live_event(message@),
{
    let n = message.len();
    if n >= 2 && message[0] == 0xf0 {
        if message[n - 1] != 0xf7 {
            return None;
        }
        let mut i: usize = 1;
        while i < n - 1
            invariant
                1 <= i <= n - 1,
                n == message@.len(),
                n >= 2,
                forall|j: int| 1 <= j < i ==> message@[j] < 0x80,
            decreases n - 1 - i,
        {
            if message[i] >= 0x80 {
                return None;
            }
            i = i + 1;
        }
        return Some(LiveEvent::Other);
    }
    if message.len() == 3 {
        let status = message[0];
        let d1 = message[1];
        let d2 = message[2];
        if d1 < 0x80 && d2 < 0x80 {
            if 0x80 <= status && status <= 0x8f {
                Some(LiveEvent::NoteOff { channel: status - 0x80, key: d1, vel: d2 })
            } else if 0x90 <= status && status <= 0x9f {
                Some(LiveEvent::NoteOn { channel: status - 0x90, key: d1, vel: d2 })
            } else if 0xa0 <= status && status <= 0xbf {
                Some(LiveEvent::Other)
            } else if 0xe0 <= status && status <= 0xef {
                Some(LiveEvent::Other)
            } else if status == 0xf2 {
                Some(LiveEvent::Other)
            } else {
                None
            }
        } else {
            None
        }
    } else if message.len() == 2 {
        let status = message[0];
        if 0xc0 <= status && status <= 0xdf && message[1] < 0x80 {
            Some(LiveEvent::Other)
        } else if (status == 0xf1 || status == 0xf3) && message[1] < 0x80 {
            Some(LiveEvent::Other)
        } else {
            None
        }
    } else if message.len() == 1 && (message[0] == 0xf6 || 0xf8 <= message[0]) {
        Some(LiveEvent::Other)
    } else {
        None
    }
}

/// What one listener step does with an incoming message: the bytes to send
/// on the output connection and the event to queue for the foreground.
#[derive(Debug)]
pub struct PassthroughAction {
    pub forward: Vec<u8>,
    pub event: Option<LiveEvent>,
}

/// One step of the passthrough listener for one raw incoming message.
///
/// The forwarded bytes equal the received bytes exactly — passthrough is
/// byte-exact and never alters, drops or reframes a message — and the queued
/// event is exactly what the bytes decode to, so a malformed message queues
/// nothing and stops nothing.
pub fn passthrough_step(message: &[u8]) -> (r: PassthroughAction)
    ensures
        r.forward@ == message@,
        r.event == spec_parse_live_event(message@),
{
    PassthroughAction {
        forward: vstd::slice::slice_to_vec(message),
        event: parse_live_event(message),
    }
}

} // verus!
