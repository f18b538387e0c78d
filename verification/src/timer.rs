//! The two 8-bit countdown timers (delay and sound).
//!
//! A timer holds its current value and the wall-clock deadline, in
//! microseconds, of its next decrement. Each `update` reads the clock
//! once; when the deadline has passed, the deadline moves one 60 Hz
//! period forward and the value, if positive, goes down by one. The
//! value never goes below zero.
use vstd::prelude::*;

verus! {

/// One sixtieth of a second, in microseconds.
pub const TIMER_PERIOD_MICROS: u64 = 16_667;

/// An 8-bit countdown timer with its next-decrement deadline.
#[derive(Clone, Copy, PartialEq, Eq, Structural, Debug)]
pub struct Timer {
    pub val: u8,
    pub next_tick: u64,
}

/// The timer as it stands after one update that observed the clock
/// reading `now`: untouched while the deadline lies in the future,
/// otherwise decremented (not below zero) with the deadline moved one
/// period past `now`, saturating at the largest representable time.
pub open spec fn ticked(t: Timer, now: u64) -> Timer {
    if t.next_tick < now {
        Timer {
            val: if t.val > 0 {
                (t.val - 1) as u8
            } else {
                0
            },
            next_tick: if now + TIMER_PERIOD_MICROS <= u64::MAX {
                (now + TIMER_PERIOD_MICROS) as u64
            } else {
                u64::MAX
            },
        }
    } else {
        t
    }
}

/// Reads the wall clock as microseconds since the Unix epoch.
///
/// Relies on std::time::SystemTime::now and duration_since: the pair
/// yields the current time as a duration since the epoch. Nothing is
/// promised of the value; callers state what holds of every outcome.
#[verifier::external_body]
fn now_micros() -> u64 {
    match std::time::SystemTime::now().duration_since(std::time::UNIX_EPOCH) {
        Ok(d) => u64::try_from(d.as_micros()).unwrap_or(u64::MAX),
        Err(_) => 0,
    }
}

impl Timer {
    /// Creates a stopped timer whose first deadline is already due.
    pub fn new() -> (r: Timer)
        ensures
            r.val == 0,
            r.next_tick == 0,
    {
        Timer { val: 0, next_tick: 0 }
    }

    /// One timer step against the clock reading `now`.
    pub fn tick(&mut self, now: u64)
        ensures
            *final(self) == ticked(*old(self), now),
    {
        if self.next_tick < now {
            self.next_tick = if now <= u64::MAX - TIMER_PERIOD_MICROS {
                now + TIMER_PERIOD_MICROS
            } else {
                u64::MAX
            };
            if self.val > 0 {
                self.val = self.val - 1;
            }
        }
    }

    /// Advances the timer against the wall clock: one clock read, then
    /// one `tick`. Whatever time came back, the value drops by at most
    /// one and a zero value stays zero.
    pub fn update(&mut self)
        ensures
            exists|now: u64| *final(self) == ticked(*old(self), now),
            final(self).val == old(self).val || final(self).val + 1 == old(self).val,
            old(self).val == 0 ==> final(self).val == 0,
    {
        let now = now_micros();
        self.tick(now);
        proof {
            assert(*self == ticked(*old(self), now));
        }
    }
}

} // verus!
