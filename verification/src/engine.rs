//! Debounce and key-priority engine.
//!
//! Ticked once per loop iteration with the active key of the current button
//! sample and the monotonic time in microseconds.  At most one key gesture is
//! pending at any time; a gesture produces exactly one outbound event, either
//! when the key is released or once it has been held for more than a second.
//! The hold duration reported with an event runs from the press timestamp to
//! the send timestamp, so a tap shorter than the send-poll interval reports
//! the time up to the poll that sent it, not the true release time.

use vstd::prelude::*;

use crate::keys::KeyboardCodes;

verus! {

/// Microseconds between two send polls.
pub const SEND_POLL_INTERVAL_US: u64 = 250_000;

/// A hold longer than this many milliseconds sends without waiting for the
/// release.
pub const LONG_HOLD_MS: u64 = 1000;

/// The gesture state of the engine.
///
/// At most one gesture is tracked at a time: each variant carries at most one
/// key, so at most one event can ever be pending.
#[derive(Debug, PartialEq, Eq, Structural, Clone, Copy)]
pub enum EngineState {
    /// No key active and nothing pending.
    Idle,
    /// `key` is currently asserted; the press began at `since`.
    Holding { key: KeyboardCodes, since: u64 },
    /// The key was released before sending; the event awaits the next poll.
    ArmedToSend { key: KeyboardCodes, since: u64 },
    /// The event of the current press was already sent; nothing more is sent
    /// until the key is released.
    AwaitingRelease { key: KeyboardCodes },
}

/// A key event ready for the wire: the key and the hold duration in
/// milliseconds.
#[derive(Debug, PartialEq, Eq, Structural, Clone, Copy)]
pub struct KeyEvent {
    pub key: KeyboardCodes,
    pub hold_ms: u64,
}

/// One sampling transition: what the state becomes when `active` is the
/// resolved key of the current iteration at time `now`.
///
/// A press starting from idle records `now`; while a press lasts, the start
/// timestamp is kept even when the visible key changes under priority.  A
/// release arms a pending gesture for sending; the same key pressed again
/// before the gesture is sent resumes it with its timer unchanged, while a
/// different key starts a new gesture in its place.
pub open spec fn spec_step(st: EngineState, active: Option<KeyboardCodes>, now: u64) -> EngineState {
    match active {
        Some(k) => match st {
            EngineState::Idle => EngineState::Holding { key: k, since: now },
            EngineState::Holding { key, since } => EngineState::Holding { key: k, since },
            EngineState::ArmedToSend { key, since } => if k == key {
                EngineState::Holding { key, since }
            } else {
                EngineState::Holding { key: k, since: now }
            },
            EngineState::AwaitingRelease { key } => if k == key {
                EngineState::AwaitingRelease { key }
            } else {
                EngineState::Holding { key: k, since: now }
            },
        },
        None => match st {
            EngineState::Idle => EngineState::Idle,
            EngineState::Holding { key, since } => EngineState::ArmedToSend { key, since },
            EngineState::ArmedToSend { key, since } => EngineState::ArmedToSend { key, since },
            EngineState::AwaitingRelease { key } => EngineState::Idle,
        },
    }
}

/// The send decision of one poll at time `now`: send if the gesture's key was
/// released, or if it is still held and has been held for more than
/// `LONG_HOLD_MS`.  The reported duration runs from the press to this poll.
pub open spec fn spec_send_decision(st: EngineState, now: u64) -> Option<KeyEvent> {
    match st {
        EngineState::ArmedToSend { key, since } => Some(
            KeyEvent { key, hold_ms: (((now - since) / 1000) as u64) },
        ),
        EngineState::Holding { key, since } => if (now - since) / 1000 > LONG_HOLD_MS {
            Some(KeyEvent { key, hold_ms: (((now - since) / 1000) as u64) })
        } else {
            None
        },
        _ => None,
    }
}

/// The state after a poll that sent an event: a released gesture is done; a
/// still-held gesture waits for its release so that one press sends exactly
/// once.
pub open spec fn spec_state_after_send(st: EngineState) -> EngineState {
    match st {
        EngineState::ArmedToSend { key, since } => EngineState::Idle,
        EngineState::Holding { key, since } => EngineState::AwaitingRelease { key },
        _ => st,
    }
}

/// The debounce engine: the gesture state plus the time of the last send
/// poll.  `seen` is the latest time handed to the engine; times must be
/// monotonic.
pub struct KeypadEngine {
    pub state: EngineState,
    pub last_poll: u64,
    pub seen: u64,
}

impl KeypadEngine {
    /// Every timestamp held by the engine lies in the observed past.
    pub open spec fn wf(self) -> bool {
        &&& self.last_poll <= self.seen
        &&& match self.state {
            EngineState::Holding { key, since } => since <= self.seen,
            EngineState::ArmedToSend { key, since } => since <= self.seen,
            _ => true,
        }
    }

    /// A fresh engine at time `now`: idle, with the poll timer started.
    pub fn new(now: u64) -> (e: KeypadEngine)
        ensures
            e.wf(),
            e.state == EngineState::Idle,
            e.last_poll == now,
            e.seen == now,
    {
        KeypadEngine { state: EngineState::Idle, last_poll: now, seen: now }
    }

    /// Apply one iteration's resolved active key at time `now`.
    pub fn sample(&mut self, active: Option<KeyboardCodes>, now: u64)
        requires
            old(self).wf(),
            now >= old(self).seen,
        ensures
            final(self).wf(),
            final(self).state == spec_step(old(self).state, active, now),
            final(self).last_poll == old(self).last_poll,
            final(self).seen == now,
    {
        let next = match (active, self.state) {
            (Some(k), EngineState::Idle) => EngineState::Holding { key: k, since: now },
            (Some(k), EngineState::Holding { key: _, since }) => EngineState::Holding {
                key: k,
                since,
            },
            (Some(k), EngineState::ArmedToSend { key, since }) => if k == key {
                EngineState::Holding { key, since }
            } else {
                EngineState::Holding { key: k, since: now }
            },
            (Some(k), EngineState::AwaitingRelease { key }) => if k == key {
                EngineState::AwaitingRelease { key }
            } else {
                EngineState::Holding { key: k, since: now }
            },
            (None, EngineState::Idle) => EngineState::Idle,
            (None, EngineState::Holding { key, since }) => EngineState::ArmedToSend { key, since },
            (None, EngineState::ArmedToSend { key, since }) => EngineState::ArmedToSend {
                key,
                since,
            },
            (None, EngineState::AwaitingRelease { key: _ }) => EngineState::Idle,
        };
        self.state = next;
        self.seen = now;
    }

    /// One send poll at time `now`.  When the poll interval has not yet
    /// passed, nothing happens.  When it has, the poll timer restarts; if the
    /// transmitter is not `writable` the decision is postponed to a later
    /// poll, otherwise the pending gesture's event is returned and the
    /// gesture is retired so that each press sends exactly once.
    pub fn poll_send(&mut self, now: u64, writable: bool) -> (ev: Option<KeyEvent>)
        requires
            old(self).wf(),
            now >= old(self).seen,
        ensures
            final(self).wf(),
            final(self).seen == now,
            final(self).last_poll == (if now - old(self).last_poll > SEND_POLL_INTERVAL_US {
                now
            } else {
                old(self).last_poll
            }),
            !(now - old(self).last_poll > SEND_POLL_INTERVAL_US) ==> ev is None
                && final(self).state == old(self).state,
            (now - old(self).last_poll > SEND_POLL_INTERVAL_US) && !writable ==> ev is None
                && final(self).state == old(self).state,
            (now - old(self).last_poll > SEND_POLL_INTERVAL_US) && writable ==> {
                &&& ev == spec_send_decision(old(self).state, now)
                &&& final(self).state == (if ev is Some {
                    spec_state_after_send(old(self).state)
                } else {
                    old(self).state
                })
            },
    {
        if !(now - self.last_poll > SEND_POLL_INTERVAL_US) {
            self.seen = now;
            return None;
        }
        self.last_poll = now;
        self.seen = now;
        if !writable {
            return None;
        }
        match self.state {
            EngineState::ArmedToSend { key, since } => {
                let hold_ms = (now - since) / 1000;
                self.state = EngineState::Idle;
                Some(KeyEvent { key, hold_ms })
            },
            EngineState::Holding { key, since } => {
                let hold_ms = (now - since) / 1000;
                if hold_ms > LONG_HOLD_MS {
                    self.state = EngineState::AwaitingRelease { key };
                    Some(KeyEvent { key, hold_ms })
                } else {
                    None
                }
            },
            _ => None,
        }
    }
}

/// Law: one press sends at most once.  After a long-hold send, as long as the
/// same key stays asserted the engine keeps waiting for its release, and no
/// poll decides to send again.
pub proof fn lemma_one_event_per_press(key: KeyboardCodes, now: u64, later: u64)
    ensures
        spec_step(EngineState::AwaitingRelease { key }, Some(key), now) == (
        EngineState::AwaitingRelease { key }),
        (spec_send_decision(EngineState::AwaitingRelease { key }, later) is None),
        spec_step(EngineState::AwaitingRelease { key }, None, now) == EngineState::Idle,
{
}

} // verus!
