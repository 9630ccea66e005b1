//! Pure timers over caller-supplied clock readings.
//!
//! The library never reads a clock: every timer query takes the current
//! time as a millisecond count, so the timers are plain state machines.

use vstd::prelude::*;

verus! {

/// Whether a timer started at `start` with limit `timeout` has expired
/// strictly, at time `now`.
pub open spec fn spec_elapsed_over(start: u64, timeout: u64, now: u64) -> bool {
    now > start + timeout
}

/// Whether it has expired, counting exact expiry.
pub open spec fn spec_elapsed_at_least(start: u64, timeout: u64, now: u64) -> bool {
    now >= start + timeout
}

/// A timer that arms itself on the first query and then reports expiry.
pub struct Timeout {
    pub start: Option<u64>,
    pub timeout: u64,
}

impl Timeout {
    /// An unarmed timer with the given limit.
    pub fn new(timeout_ms: u64) -> (r: Self)
        ensures
            r.start.is_none(),
            r.timeout == timeout_ms,
    {
        Timeout { start: None, timeout: timeout_ms }
    }

    /// Disarm the timer; the next query arms it again.
    pub fn reset(&mut self)
        ensures
            final(self).start.is_none(),
            final(self).timeout == old(self).timeout,
    {
        self.start = None;
    }

    /// Whether the timer has run out.  An unarmed timer arms itself at
    /// `now_ms` and reports no expiry.
    pub fn is_timeout(&mut self, now_ms: u64) -> (r: bool)
        ensures
            final(self).timeout == old(self).timeout,
            match old(self).start {
                Some(t) => r == spec_elapsed_at_least(t, old(self).timeout, now_ms) && final(self).start == old(self).start,
                None => !r && final(self).start == Some(now_ms),
            },
    {
        if let Some(start) = self.start {
            if now_ms >= start && now_ms - start >= self.timeout {
                return true;
            }
            if now_ms < start {
                assert(now_ms < start + self.timeout);
            }
            return false;
        }

        self.start = Some(now_ms);
        false
    }
}

/// A timer that is armed explicitly and fires once armed and strictly past
/// its limit.
pub struct OneshotTimer {
    pub start: Option<u64>,
    pub timeout: u64,
}

impl OneshotTimer {
    /// An unarmed timer with the given limit.
    pub fn new(timeout_ms: u64) -> (r: OneshotTimer)
        ensures
            r.start.is_none(),
            r.timeout == timeout_ms,
    {
        OneshotTimer { start: None, timeout: timeout_ms }
    }

    /// Arm the timer at `now_ms`.
    pub fn explicit_start(&mut self, now_ms: u64)
        ensures
            final(self).start == Some(now_ms),
            final(self).timeout == old(self).timeout,
    {
        self.start = Some(now_ms);
    }

    /// Whether the timer has run out.  An unarmed timer arms itself at
    /// `now_ms` and reports no expiry.
    pub fn is_timeout(&mut self, now_ms: u64) -> (r: bool)
        ensures
            final(self).timeout == old(self).timeout,
            match old(self).start {
                Some(t) => r == spec_elapsed_over(t, old(self).timeout, now_ms) && final(self).start == old(self).start,
                None => !r && final(self).start == Some(now_ms),
            },
    {
        if let Some(start) = self.start {
            now_ms > start && now_ms - start > self.timeout
        } else {
            self.explicit_start(now_ms);
            false
        }
    }

    /// Disarm the timer.
    pub fn reset(&mut self)
        ensures
            final(self).start.is_none(),
            final(self).timeout == old(self).timeout,
    {
        self.start = None;
    }
}

} // verus!
