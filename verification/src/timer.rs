//! Single-shot countdown timers and the entries a pool queues.

use vstd::prelude::*;

verus! {

/// A single-shot countdown. It starts at a requested delay and counts down
/// as elapsed time is reported to it; it finishes the first time the
/// remaining wait reaches zero and stays finished from then on.
#[derive(Clone, Copy, PartialEq, Eq, Structural, Debug)]
pub struct Countdown {
    /// Time units still to wait before the countdown finishes.
    pub remaining: u64,
    /// Whether the countdown has run out. Set the first time an advance
    /// brings `remaining` to zero; never cleared afterwards.
    pub finished: bool,
}

impl Countdown {
    /// The countdown state after one advance by `elapsed`: a finished
    /// countdown is left untouched; otherwise the remaining wait drops by
    /// `elapsed`, clamped at zero, and the countdown finishes exactly when
    /// the remaining wait reaches zero.
    pub open spec fn advanced(self, elapsed: u64) -> Countdown {
        if self.finished {
            self
        } else if self.remaining > elapsed {
            Countdown { remaining: (self.remaining - elapsed) as u64, finished: false }
        } else {
            Countdown { remaining: 0, finished: true }
        }
    }

    /// Start a countdown that waits `delay` time units. A zero delay gives a
    /// countdown that finishes on its first advance, not one that is already
    /// finished: even an overdue payload waits for the next processing pass.
    pub fn new(delay: u64) -> (r: Countdown)
        ensures
            r == (Countdown { remaining: delay, finished: false }),
    {
        Countdown { remaining: delay, finished: false }
    }

    /// Advance the countdown by `elapsed` and report whether it is finished
    /// after this call. Advancing a finished countdown is a no-op that still
    /// reports it finished.
    pub fn tick(&mut self, elapsed: u64) -> (finished: bool)
        ensures
            *final(self) == old(self).advanced(elapsed),
            finished == final(self).finished,
    {
        if !self.finished {
            if self.remaining > elapsed {
                self.remaining = self.remaining - elapsed;
            } else {
                self.remaining = 0;
                self.finished = true;
            }
        }
        self.finished
    }

    /// Whether the countdown has run out.
    pub fn is_finished(&self) -> (r: bool)
        ensures
            r == self.finished,
    {
        self.finished
    }
}

/// One queued item: a countdown paired with the payload it delivers when the
/// countdown finishes.
pub struct TimedEntry<M> {
    /// Decides when the payload comes due.
    pub countdown: Countdown,
    /// The payload handed back when the entry fires.
    pub message: M,
}

impl<M> TimedEntry<M> {
    /// The entry as it stands right after enqueueing `message` with `delay`.
    pub open spec fn fresh(message: M, delay: u64) -> TimedEntry<M> {
        TimedEntry { countdown: Countdown { remaining: delay, finished: false }, message }
    }

    /// The entry after its countdown is advanced by `elapsed`.
    pub open spec fn advanced(self, elapsed: u64) -> TimedEntry<M> {
        TimedEntry { countdown: self.countdown.advanced(elapsed), message: self.message }
    }

    /// Build an entry that delivers `message` once `delay` time units have
    /// elapsed.
    pub fn create(message: M, delay: u64) -> (r: TimedEntry<M>)
        ensures
            r == TimedEntry::fresh(message, delay),
    {
        TimedEntry { countdown: Countdown::new(delay), message }
    }

    /// Advance the entry's countdown by `elapsed` and report whether the
    /// entry is due after this call.
    pub fn tick(&mut self, elapsed: u64) -> (due: bool)
        ensures
            *final(self) == old(self).advanced(elapsed),
            due == final(self).countdown.finished,
    {
        self.countdown.tick(elapsed)
    }

    /// Fire the entry: consume it and hand its payload back, for the caller
    /// to route to the delivery sink. Terminal for the entry.
    pub fn fire(self) -> (r: M)
        ensures
            r == self.message,
    {
        self.message
    }
}

} // verus!
