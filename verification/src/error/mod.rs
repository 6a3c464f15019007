//! What can go wrong.

use vstd::prelude::*;

verus! {

/// `std::io::Error`, declared so that [`Error::Io`] can carry it. Nothing
/// inside it is read and nothing is claimed of it; it is only moved.
#[verifier::external_type_specification]
#[verifier::external_body]
pub struct ExIoError(std::io::Error);

/// Anything the runtime can fail with.
#[derive(Debug)]
pub enum Error {
    /// Something at the OS level failed: opening the wakeup pipe, a socket
    /// call, and so on.
    Io(std::io::Error),
    /// The runtime is on its way down and won't take new work.
    Shutdown,
}

/// `Result` with [`Error`] already filled in.
pub type Result<T> = core::result::Result<T, Error>;

/// An OS error becomes [`Error::Io`], unchanged.
impl From<std::io::Error> for Error {
    fn from(e: std::io::Error) -> (r: Self) {
        Error::Io(e)
    }
}

impl vstd::std_specs::convert::FromSpecImpl<std::io::Error> for Error {
    open spec fn obeys_from_spec() -> bool {
        true
    }

    open spec fn from_spec(v: std::io::Error) -> Self {
        Error::Io(v)
    }
}

} // verus!
