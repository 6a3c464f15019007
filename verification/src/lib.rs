//! The verified core of a small async runtime.
//!
//! Each module holds the state that one part of the runtime keeps behind a
//! lock, together with the transitions that the runtime's threads perform on
//! it. The threads, the locks, the operating-system calls and the futures
//! themselves live around this crate; every decision they take about that
//! state is made here, and proved.

pub mod channel;
pub mod error;
pub mod net;
pub mod reactor;
pub mod task;
pub mod time;
pub mod wakeup;
