//! `sleep`: wait for a while without blocking a thread.

use vstd::prelude::*;
use crate::time::timers::{Timers, timers_register_spec};

verus! {

/// The future returned by [`sleep`]. Does nothing until polled.
///
/// It stores the moment to wake up rather than the duration, so being polled
/// early or late does not stretch the wait.
pub struct Sleep {
    wake_time: u64,
}

impl View for Sleep {
    type V = u64;

    closed spec fn view(&self) -> u64 {
        self.wake_time
    }
}

/// The moment a sleep of `duration` started at `start` ends.
pub open spec fn sleep_deadline_spec(start: u64, duration: u64) -> int {
    start + duration
}

/// Whether a sleep ending at `wake_time` is over at `now`.
pub open spec fn sleep_ready_spec(wake_time: u64, now: u64) -> bool {
    now >= wake_time
}

/// Pause the current task for `duration` nanoseconds from `now`.
pub fn sleep(now: u64, duration: u64) -> (s: Sleep)
    requires
        now + duration <= u64::MAX,
    ensures
        s@ == sleep_deadline_spec(now, duration),
{
    Sleep { wake_time: now + duration }
}

impl Sleep {
    /// The moment this sleep ends.
    pub fn wake_time(&self) -> (t: u64)
        ensures
            t == self@,
    {
        self.wake_time
    }

    /// Either the moment has arrived at `now`, or leave `waker` in the timer
    /// list (the caller then nudges the reactor) and report not ready.
    pub fn poll<W>(&self, now: u64, timers: &mut Timers<W>, waker: W) -> (ready: bool)
        ensures
            ready == sleep_ready_spec(self@, now),
            ready ==> final(timers).wake_times() == old(timers).wake_times(),
            !ready ==> final(timers).wake_times() == timers_register_spec(old(timers).wake_times(), self@, waker),
    {
        if now >= self.wake_time {
            true
        } else {
            timers.register(self.wake_time, waker);
            false
        }
    }
}

/// A sleep started at `start` for `duration` is ready exactly when at least
/// `duration` has passed: never early, and not held back once it is due.
pub proof fn lemma_sleep_waits_at_least(start: u64, duration: u64, now: u64)
    requires
        start + duration <= u64::MAX,
    ensures
        sleep_ready_spec(sleep_deadline_spec(start, duration) as u64, now) <==> (now >= start && now - start >= duration),
{
}

} // verus!
