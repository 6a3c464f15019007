//! Time: the timer list the reactor sleeps on, and the `sleep` future.
//!
//! Instants are counted in nanoseconds from a fixed origin chosen by the
//! runtime (its start); durations are counted in nanoseconds too.

pub mod sleep;
pub mod timers;
