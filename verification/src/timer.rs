//! Countdown timers, driven from outside by elapsed time.
//!
//! The arithmetic of a countdown is done by the `rusty_time` crate. Its
//! `Timer` is kept here as three plain values, so that contracts can speak
//! of them; all times are whole nanoseconds.

use rusty_time::timer::Timer;
use std::time::Duration;
use vstd::prelude::*;

verus! {

/// Nanoseconds in one millisecond.
pub const NANOS_PER_MILLI: u64 = 1_000_000;

/// The longest countdown, in milliseconds, whose length in nanoseconds
/// still fits in a `u64`.
pub const MAX_MILLIS: u64 = 18_446_744_073_709;

/// The state of a countdown timer.
#[derive(Clone, Copy, Debug, PartialEq, Eq, Structural)]
pub struct Countdown {
    /// The full length of the countdown, in nanoseconds.
    pub duration: u64,
    /// The time that is left, in nanoseconds.
    pub time_left: u64,
    /// Whether the countdown has run out.
    pub ready: bool,
}

impl Countdown {
    /// A countdown of `ms` milliseconds that has not yet been advanced.
    pub open spec fn fresh(ms: u64) -> Countdown {
        Countdown {
            duration: (ms * NANOS_PER_MILLI) as u64,
            time_left: (ms * NANOS_PER_MILLI) as u64,
            ready: false,
        }
    }

    /// The countdown after `delta` nanoseconds have passed. A countdown that
    /// has run out stays as it is. Otherwise the time left shrinks by
    /// `delta`; only when `delta` is more than the time left does the
    /// countdown run out, so one that reaches zero exactly runs out at the
    /// next advance by a positive amount.
    pub open spec fn ticked(self, delta: u64) -> Countdown {
        if self.ready {
            self
        } else if delta <= self.time_left {
            Countdown { time_left: (self.time_left - delta) as u64, ..self }
        } else {
            Countdown { time_left: 0, ready: true, ..self }
        }
    }

    /// The countdown started again from its full length.
    pub open spec fn rewound(self) -> Countdown {
        Countdown { time_left: self.duration, ready: false, ..self }
    }

    /// The full length in whole milliseconds.
    pub open spec fn millis(self) -> nat {
        (self.duration / NANOS_PER_MILLI) as nat
    }

    /// Starts a countdown of `ms` milliseconds.
    ///
    /// Trusted: the body calls `rusty_time::timer::Timer::from_millis`, which
    /// builds a timer whose length and time left are both `ms` milliseconds
    /// and which is not ready. The bound on `ms` keeps the length in
    /// nanoseconds within `u64`.
    #[verifier::external_body]
    pub(crate) fn from_millis(ms: u64) -> (c: Countdown)
        requires
            ms <= MAX_MILLIS,
        ensures
            c == Countdown::fresh(ms),
    {
        let t = Timer::from_millis(ms);
        Countdown {
            duration: t.duration.as_nanos() as u64,
            time_left: t.time_left.as_nanos() as u64,
            ready: t.ready,
        }
    }

    /// Advances the countdown by `delta` nanoseconds.
    ///
    /// Trusted: the body calls `rusty_time::timer::Timer::update` on a timer
    /// with this state. That function leaves a ready timer alone, subtracts
    /// `delta` from the time left where it fits, and otherwise sets the time
    /// left to zero and marks the timer ready.
    #[verifier::external_body]
    pub(crate) fn update(&mut self, delta: u64)
        ensures
            *final(self) == old(self).ticked(delta),
    {
        let mut t = Timer {
            duration: Duration::from_nanos(self.duration),
            time_left: Duration::from_nanos(self.time_left),
            ready: self.ready,
        };
        t.update(Duration::from_nanos(delta));
        self.time_left = t.time_left.as_nanos() as u64;
        self.ready = t.ready;
    }

    /// Starts the countdown again from its full length.
    ///
    /// Trusted: the body calls `rusty_time::timer::Timer::reset` on a timer
    /// with this state. That function clears the ready flag and sets the
    /// time left to the timer's length.
    #[verifier::external_body]
    pub(crate) fn reset(&mut self)
        ensures
            *final(self) == old(self).rewound(),
    {
        let mut t = Timer {
            duration: Duration::from_nanos(self.duration),
            time_left: Duration::from_nanos(self.time_left),
            ready: self.ready,
        };
        t.reset();
        self.time_left = t.time_left.as_nanos() as u64;
        self.ready = t.ready;
    }
}

} // verus!
