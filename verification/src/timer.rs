//! A single countdown timer: duration, progress, mode and pause state,
//! advanced once per frame by a delta.
//!
//! All durations are in nanoseconds. A timer with duration zero is legal but
//! inert: it never finishes.

use vstd::prelude::*;

verus! {

/// Number of nanoseconds in one second.
pub const NANOS_PER_SEC: u64 = 1_000_000_000;

/// Whether a timer fires once and is then done, or fires at every full
/// period and keeps running.
#[derive(Clone, Copy, Debug, PartialEq, Eq, Structural)]
pub enum TimerMode {
    /// The timer fires once, stays finished, and no longer advances.
    Once,
    /// The timer fires every time a full period elapses and keeps counting.
    Repeating,
}

/// A countdown timer.
///
/// `elapsed` accumulates the ticked deltas (saturating at `u64::MAX`).
/// `finished` records whether the timer has reached its duration (for a
/// repeating timer, whether it did so on the most recent tick), and
/// `just_finished` is true only on the tick during which the timer's elapsed
/// time reached its duration.
#[derive(Clone, Copy, Debug, PartialEq, Eq, Structural)]
pub struct Timer {
    /// Length of one full period, in nanoseconds.
    pub duration: u64,
    /// Time accumulated toward the current period, in nanoseconds.
    pub elapsed: u64,
    /// One-shot or repeating.
    pub mode: TimerMode,
    /// A paused timer does not advance.
    pub paused: bool,
    /// Whether the timer has reached its duration.
    pub finished: bool,
    /// Whether the timer reached its duration on the most recent tick.
    pub just_finished: bool,
}

/// The timer produced by [`Timer::tick`]: what one advancement by `delta`
/// does to `t`.
///
/// A paused timer does not advance; a finished one-shot timer no longer
/// advances. Otherwise the delta is added to the elapsed time (saturating),
/// and the timer finishes when the total reaches a positive duration: a
/// one-shot timer parks its elapsed time at the duration, a repeating timer
/// wraps it to the remainder of the period.
pub open spec fn spec_tick(t: Timer, delta: u64) -> Timer {
    if t.paused {
        Timer {
            finished: if t.mode == TimerMode::Repeating {
                false
            } else {
                t.finished
            },
            just_finished: false,
            ..t
        }
    } else if t.mode == TimerMode::Once && t.finished {
        Timer { just_finished: false, ..t }
    } else {
        let total: int = if t.elapsed + delta > u64::MAX {
            u64::MAX as int
        } else {
            t.elapsed + delta
        };
        if t.duration > 0 && total >= t.duration {
            if t.mode == TimerMode::Once {
                Timer { elapsed: t.duration, finished: true, just_finished: true, ..t }
            } else {
                Timer {
                    elapsed: (total % (t.duration as int)) as u64,
                    finished: true,
                    just_finished: true,
                    ..t
                }
            }
        } else {
            Timer { elapsed: total as u64, finished: false, just_finished: false, ..t }
        }
    }
}

/// The timer produced by [`Timer::reset`]: progress cleared, configuration
/// kept.
pub open spec fn spec_reset(t: Timer) -> Timer {
    Timer { elapsed: 0, finished: false, just_finished: false, ..t }
}

/// The timer produced by [`Timer::pause`].
pub open spec fn spec_pause(t: Timer) -> Timer {
    Timer { paused: true, ..t }
}

/// The timer produced by [`Timer::unpause`].
pub open spec fn spec_unpause(t: Timer) -> Timer {
    Timer { paused: false, ..t }
}

impl Timer {
    /// Creates an unpaused timer with the given duration in nanoseconds and
    /// no progress.
    pub fn new(duration: u64, mode: TimerMode) -> (t: Timer)
        ensures
            t == (Timer {
                duration,
                elapsed: 0,
                mode,
                paused: false,
                finished: false,
                just_finished: false,
            }),
    {
        Timer { duration, elapsed: 0, mode, paused: false, finished: false, just_finished: false }
    }

    /// Creates an unpaused timer with the given duration in whole seconds.
    pub fn from_secs(secs: u64, mode: TimerMode) -> (t: Timer)
        requires
            secs <= u64::MAX / NANOS_PER_SEC,
        ensures
            t == (Timer {
                duration: (secs * NANOS_PER_SEC) as u64,
                elapsed: 0,
                mode,
                paused: false,
                finished: false,
                just_finished: false,
            }),
    {
        Timer::new(secs * NANOS_PER_SEC, mode)
    }

    /// Advances the timer by `delta` nanoseconds, as [`spec_tick`] describes.
    pub fn tick(&mut self, delta: u64)
        ensures
            *final(self) == spec_tick(*old(self), delta),
    {
        if self.paused {
            if self.mode == TimerMode::Repeating {
                self.finished = false;
            }
            self.just_finished = false;
        } else if self.mode == TimerMode::Once && self.finished {
            self.just_finished = false;
        } else {
            let total: u64 = if delta > u64::MAX - self.elapsed {
                u64::MAX
            } else {
                self.elapsed + delta
            };
            if self.duration > 0 && total >= self.duration {
                self.elapsed = if self.mode == TimerMode::Once {
                    self.duration
                } else {
                    total % self.duration
                };
                self.finished = true;
                self.just_finished = true;
            } else {
                self.elapsed = total;
                self.finished = false;
                self.just_finished = false;
            }
        }
    }

    /// Clears the timer's progress, keeping its duration, mode and pause
    /// flag.
    pub fn reset(&mut self)
        ensures
            *final(self) == spec_reset(*old(self)),
    {
        self.elapsed = 0;
        self.finished = false;
        self.just_finished = false;
    }

    /// Stops the timer from advancing; its progress is kept.
    pub fn pause(&mut self)
        ensures
            *final(self) == spec_pause(*old(self)),
    {
        self.paused = true;
    }

    /// Lets the timer advance again from where it left off.
    pub fn unpause(&mut self)
        ensures
            *final(self) == spec_unpause(*old(self)),
    {
        self.paused = false;
    }

    /// Length of one full period, in nanoseconds.
    pub fn duration(&self) -> (d: u64)
        ensures
            d == self.duration,
    {
        self.duration
    }

    /// Time accumulated toward the current period, in nanoseconds.
    pub fn elapsed(&self) -> (e: u64)
        ensures
            e == self.elapsed,
    {
        self.elapsed
    }

    /// One-shot or repeating.
    pub fn mode(&self) -> (m: TimerMode)
        ensures
            m == self.mode,
    {
        self.mode
    }

    /// Whether the timer is paused.
    pub fn paused(&self) -> (p: bool)
        ensures
            p == self.paused,
    {
        self.paused
    }

    /// Whether the timer has reached its duration.
    pub fn finished(&self) -> (f: bool)
        ensures
            f == self.finished,
    {
        self.finished
    }

    /// Whether the timer reached its duration on the most recent tick.
    pub fn just_finished(&self) -> (f: bool)
        ensures
            f == self.just_finished,
    {
        self.just_finished
    }
}

} // verus!
