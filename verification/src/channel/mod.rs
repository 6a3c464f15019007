//! Channels.

pub mod oneshot;
