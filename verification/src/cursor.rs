//! Cursor blinking as a state machine: the decisions live here, the caller
//! runs the timers and hands their tokens and expirations back.

use vstd::prelude::*;

verus! {

/// The token of a timer that was never armed.
pub const INVALID_TIMER: u64 = 0;

/// How long the caret stays in one state while blinking, in milliseconds,
/// unless the caller configures another interval.
pub const DEFAULT_BLINK_INTERVAL: u64 = 500;

/// By default the caret blinks.
pub const DEFAULT_SHOULD_BLINK: bool = true;

/// Cursor rendering state: whether the caret is hidden right now, and the
/// token of the blink timer that is allowed to toggle it.
#[derive(Clone, Copy, Debug, PartialEq, Eq)]
pub struct CursorInfo {
    pub hidden: bool,
    pub blink_timer: u64,
}

impl CursorInfo {
    /// A visible cursor with no blink timer armed. Whether and how fast it
    /// blinks is decided at each `blink` call; callers that configure
    /// nothing pass `DEFAULT_BLINK_INTERVAL` and `DEFAULT_SHOULD_BLINK`.
    pub fn new() -> (r: CursorInfo)
        ensures
            r.hidden == false,
            r.blink_timer == INVALID_TIMER,
    {
        CursorInfo { hidden: false, blink_timer: INVALID_TIMER }
    }

    /// Decide whether to arm the next blink timer: blinking happens only
    /// with a positive interval and while blinking is wanted. When armed,
    /// the new token supersedes any earlier timer.
    pub fn blink(&mut self, blink_interval: u64, should_blink: bool, next_timer: u64) -> (armed:
        bool)
        ensures
            armed == (blink_interval > 0 && should_blink),
            final(self).hidden == old(self).hidden,
            final(self).blink_timer == (if blink_interval > 0 && should_blink {
                next_timer
            } else {
                old(self).blink_timer
            }),
    {
        if blink_interval > 0 && should_blink {
            self.blink_timer = next_timer;
            true
        } else {
            false
        }
    }

    /// A timer fired: only the currently armed timer may toggle the caret;
    /// a stale token changes nothing.
    pub fn timer_fired(&mut self, timer_token: u64) -> (toggled: bool)
        ensures
            toggled == (timer_token == old(self).blink_timer),
            final(self).blink_timer == old(self).blink_timer,
            final(self).hidden == (if timer_token == old(self).blink_timer {
                !old(self).hidden
            } else {
                old(self).hidden
            }),
    {
        if timer_token == self.blink_timer {
            self.hidden = !self.hidden;
            true
        } else {
            false
        }
    }

    /// The cursor moved: show the caret and disarm the blink timer; the
    /// caller then re-arms it through `blink`.
    pub fn reset(&mut self)
        ensures
            final(self).hidden == false,
            final(self).blink_timer == INVALID_TIMER,
    {
        self.hidden = false;
        self.blink_timer = INVALID_TIMER;
    }
}

} // verus!
