//! The reactor's doorbell: a pipe whose only job is to make `poll()` return.
//!
//! Ringing it writes one byte into the pipe. The pipe is non-blocking, so a
//! write can come back "would block", which means the pipe is already full of
//! unread bytes: a wakeup is already pending, and the ring has done its job.

use vstd::prelude::*;
use crate::net::IoResult;

verus! {

/// The result of ringing the doorbell, given the outcome of the one-byte
/// write: only an error other than "would block" is a failure.
pub fn trigger_result<E>(attempt: IoResult<isize, E>) -> (r: Result<(), E>)
    ensures
        match attempt {
            IoResult::Failed(e) => r == Err::<(), E>(e),
            _ => r == Ok::<(), E>(()),
        },
{
    match attempt {
        IoResult::Failed(e) => Err(e),
        _ => Ok(()),
    }
}

} // verus!
