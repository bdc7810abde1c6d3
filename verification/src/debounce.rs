//! Key-repeat debouncing for held inputs (grid resize, single-step): the
//! first press fires at once, then the key stays silent for an initial
//! delay, and after that it fires again at a fixed cadence for as long as it
//! is held.  Releasing the key resets the state to "not held".  Time comes
//! in as a parameter, in milliseconds, so the state machine owns no clock.

use vstd::prelude::*;

verus! {

/// Initial delay between the first fire and the start of repeating.
pub const REPEAT_DELAY_MS: u64 = 500;

/// Cadence of repeated fires while the key stays held.
pub const REPEAT_INTERVAL_MS: u64 = 100;

/// Mathematical model of one key's repeat state: whether a qualifying press
/// is in progress and when the next fire is due.
#[verifier::ext_equal]
pub ghost struct KeyRepeatView {
    pub held: bool,
    pub next_fire_ms: int,
}

/// Addition capped at the largest representable time.
pub open spec fn time_add(a: int, b: int) -> int {
    if a + b > u64::MAX {
        u64::MAX as int
    } else {
        a + b
    }
}

/// One poll of the key at time `now`: a fresh press fires immediately and
/// schedules the next fire after the initial delay; a held key fires when
/// its deadline has passed and reschedules at the repeat cadence; a
/// released key just resets.  The second component says whether the press
/// fires this poll.
pub open spec fn spec_poll(s: KeyRepeatView, now: int, down: bool) -> (KeyRepeatView, bool) {
    if !down {
        (KeyRepeatView { held: false, next_fire_ms: 0 }, false)
    } else if !s.held {
        (KeyRepeatView { held: true, next_fire_ms: time_add(now, REPEAT_DELAY_MS as int) }, true)
    } else if now >= s.next_fire_ms {
        (KeyRepeatView { held: true, next_fire_ms: time_add(now, REPEAT_INTERVAL_MS as int) }, true)
    } else {
        (s, false)
    }
}

/// The repeat state of one key.
pub struct KeyRepeat {
    held: bool,
    next_fire_ms: u64,
}

impl View for KeyRepeat {
    type V = KeyRepeatView;

    closed spec fn view(&self) -> KeyRepeatView {
        KeyRepeatView { held: self.held, next_fire_ms: self.next_fire_ms as int }
    }
}

impl KeyRepeat {
    /// A key that is not held.
    pub fn new() -> (k: KeyRepeat)
        ensures
            k@ == (KeyRepeatView { held: false, next_fire_ms: 0 }),
    {
        KeyRepeat { held: false, next_fire_ms: 0 }
    }

    /// Polls the key once per frame with the current time and whether the
    /// key is down; returns whether the press fires this frame.
    pub fn poll(&mut self, now_ms: u64, down: bool) -> (fire: bool)
        ensures
            final(self)@ == spec_poll(old(self)@, now_ms as int, down).0,
            fire == spec_poll(old(self)@, now_ms as int, down).1,
    {
        if !down {
            self.held = false;
            self.next_fire_ms = 0;
            return false;
        }
        if !self.held {
            self.held = true;
            self.next_fire_ms = if now_ms > u64::MAX - REPEAT_DELAY_MS {
                u64::MAX
            } else {
                now_ms + REPEAT_DELAY_MS
            };
            return true;
        }
        if now_ms >= self.next_fire_ms {
            self.next_fire_ms = if now_ms > u64::MAX - REPEAT_INTERVAL_MS {
                u64::MAX
            } else {
                now_ms + REPEAT_INTERVAL_MS
            };
            return true;
        }
        false
    }
}

} // verus!
