//! Async TCP, one decision at a time.
//!
//! Every helper has the same shape: try the socket operation; if it succeeds
//! the helper is done (or goes on), and if the OS answers "would block" the
//! socket is handed to the reactor with the interest to wait for and the
//! future returns `Pending`. The socket calls themselves are made by the
//! caller, who reports each one's outcome here and carries out the step that
//! comes back.

use vstd::prelude::*;

verus! {

/// What to wait for when a socket is not ready.
#[derive(Clone, Copy, PartialEq, Eq, Structural, Debug)]
pub enum Interest {
    /// Wait until it can be read from (or accepted on).
    Readable,
    /// Wait until it can be written to.
    Writable,
}

/// The outcome of one non-blocking socket call.
pub enum IoResult<V, E> {
    /// The call went through, with this result.
    Done(V),
    /// The OS answered "not ready yet".
    WouldBlock,
    /// The call failed with another error.
    Failed(E),
}

/// What a helper does next.
pub enum Step<V, E> {
    /// Finish with this result.
    Ready(Result<V, E>),
    /// Register the socket with the reactor for this interest and return `Pending`.
    Pending(Interest),
}

/// Accepting a connection: take the new connection (the caller switches it to
/// non-blocking before handing it out), or wait until the listener is
/// readable, or fail.
pub fn accept<S, E>(attempt: IoResult<S, E>) -> (step: Step<S, E>)
    ensures
        match attempt {
            IoResult::Done(s) => step == Step::<S, E>::Ready(Ok(s)),
            IoResult::WouldBlock => step == Step::<S, E>::Pending(Interest::Readable),
            IoResult::Failed(e) => step == Step::<S, E>::Ready(Err(e)),
        },
{
    match attempt {
        IoResult::Done(s) => Step::Ready(Ok(s)),
        IoResult::WouldBlock => Step::Pending(Interest::Readable),
        IoResult::Failed(e) => Step::Ready(Err(e)),
    }
}

/// What went wrong while sending a buffer.
pub enum WriteError<E> {
    /// The peer stopped accepting data before the buffer was finished.
    WriteZero,
    /// A socket error.
    Io(E),
}

/// What [`write_all`] does after one write.
pub enum WriteStep<E> {
    /// Write the rest of the buffer, from [`WriteAll::written`] on.
    Continue,
    /// Finish with this result.
    Ready(Result<(), WriteError<E>>),
    /// Wait until the socket is writable.
    Pending(Interest),
}

/// Sending every byte of a buffer: how long it is and how much has gone out.
pub struct WriteAll {
    len: usize,
    written: usize,
}

/// Progress of a send: (buffer length, bytes written so far).
pub struct WriteAllView {
    pub len: nat,
    pub written: nat,
}

impl View for WriteAll {
    type V = WriteAllView;

    closed spec fn view(&self) -> WriteAllView {
        WriteAllView { len: self.len as nat, written: self.written as nat }
    }
}

/// The progress after one write that took `n` bytes, and the step that follows.
pub open spec fn write_advance_spec<E>(w: WriteAllView, attempt: IoResult<usize, E>) -> (WriteAllView, WriteStep<E>) {
    match attempt {
        IoResult::Done(n) => if n == 0 {
            (w, WriteStep::Ready(Err(WriteError::WriteZero)))
        } else if w.written + n == w.len {
            (WriteAllView { len: w.len, written: w.len }, WriteStep::Ready(Ok(())))
        } else {
            (WriteAllView { len: w.len, written: (w.written + n) as nat }, WriteStep::Continue)
        },
        IoResult::WouldBlock => (w, WriteStep::Pending(Interest::Writable)),
        IoResult::Failed(e) => (w, WriteStep::Ready(Err(WriteError::Io(e)))),
    }
}

/// Start sending a buffer of `len` bytes.
pub fn write_all(len: usize) -> (w: WriteAll)
    ensures
        w@.len == len,
        w@.written == 0,
{
    WriteAll { len, written: 0 }
}

impl WriteAll {
    /// How many bytes have gone out; the next write starts there.
    pub fn written(&self) -> (n: usize)
        ensures
            n == self@.written,
            n <= self@.len,
    {
        proof {
            use_type_invariant(self);
        }
        self.written
    }

    /// Whether the whole buffer has gone out (an empty buffer is done at once).
    pub fn is_done(&self) -> (b: bool)
        ensures
            b == (self@.written == self@.len),
    {
        self.written == self.len
    }

    #[verifier::type_invariant]
    spec fn within(&self) -> bool {
        self.written <= self.len
    }

    /// Take in the outcome of one write of the rest of the buffer. A write
    /// that took nothing means the peer gave up; a write that took the rest
    /// finishes the send.
    pub fn advance<E>(&mut self, attempt: IoResult<usize, E>) -> (step: WriteStep<E>)
        requires
            old(self)@.written < old(self)@.len,
            attempt matches IoResult::Done(n) ==> n <= old(self)@.len - old(self)@.written,
        ensures
            (final(self)@, step) == write_advance_spec(old(self)@, attempt),
    {
        match attempt {
            IoResult::Done(n) => {
                if n == 0 {
                    WriteStep::Ready(Err(WriteError::WriteZero))
                } else {
                    proof {
                        use_type_invariant(&*self);
                    }
                    self.written = self.written + n;
                    if self.written == self.len {
                        WriteStep::Ready(Ok(()))
                    } else {
                        WriteStep::Continue
                    }
                }
            },
            IoResult::WouldBlock => WriteStep::Pending(Interest::Writable),
            IoResult::Failed(e) => WriteStep::Ready(Err(WriteError::Io(e))),
        }
    }
}

/// What [`print_all`] does after one read.
pub enum ReadStep<E> {
    /// Print the first this-many bytes read, then read again.
    Output(usize),
    /// Finish with this result.
    Ready(Result<(), E>),
    /// Wait until the socket is readable.
    Pending(Interest),
}

/// Reading a stream to its end and printing it: a read of nothing is the end
/// of the stream; bytes read are printed and the reading goes on.
pub fn print_all<E>(attempt: IoResult<usize, E>) -> (step: ReadStep<E>)
    ensures
        match attempt {
            IoResult::Done(n) => if n == 0 {
                step == ReadStep::<E>::Ready(Ok(()))
            } else {
                step == ReadStep::<E>::Output(n)
            },
            IoResult::WouldBlock => step == ReadStep::<E>::Pending(Interest::Readable),
            IoResult::Failed(e) => step == ReadStep::<E>::Ready(Err(e)),
        },
{
    match attempt {
        IoResult::Done(n) => if n == 0 {
            ReadStep::Ready(Ok(()))
        } else {
            ReadStep::Output(n)
        },
        IoResult::WouldBlock => ReadStep::Pending(Interest::Readable),
        IoResult::Failed(e) => ReadStep::Ready(Err(e)),
    }
}

/// A send succeeds only once every byte has gone out, and never counts more
/// bytes than the buffer holds.
pub proof fn lemma_write_all_ok_means_all_written<E>(w: WriteAllView, attempt: IoResult<usize, E>)
    requires
        w.written < w.len,
        attempt matches IoResult::Done(n) ==> n <= w.len - w.written,
    ensures
        ({
            let (after, step) = write_advance_spec(w, attempt);
            &&& after.len == w.len
            &&& w.written <= after.written <= after.len
            &&& (step matches WriteStep::Ready(Ok(_)) ==> after.written == after.len)
            &&& (step matches WriteStep::Continue ==> after.written < after.len && after.written > w.written)
        }),
{
}

/// Each write outcome moves a send exactly as far as the bytes it took: a
/// write of `n > 0` bytes adds exactly `n` to the bytes sent, and finishes the
/// send with success exactly when those were the last bytes, otherwise the
/// send goes on; a write of nothing fails with `WriteZero`; a write that
/// would block waits for the socket to become writable; any other failure is
/// passed on. Only a write that took bytes changes the progress.
pub proof fn lemma_write_advance_outcomes<E>(w: WriteAllView, attempt: IoResult<usize, E>)
    requires
        w.written < w.len,
        attempt matches IoResult::Done(n) ==> n <= w.len - w.written,
    ensures
        ({
            let (after, step) = write_advance_spec(w, attempt);
            &&& after.len == w.len
            &&& match attempt {
                IoResult::Done(n) => if n == 0 {
                    after == w && step == WriteStep::<E>::Ready(Err(WriteError::WriteZero))
                } else {
                    &&& after.written == w.written + n
                    &&& (w.written + n == w.len) == (step == WriteStep::<E>::Ready(Ok(())))
                    &&& (w.written + n < w.len) == (step == WriteStep::<E>::Continue)
                },
                IoResult::WouldBlock => after == w && step == WriteStep::<E>::Pending(Interest::Writable),
                IoResult::Failed(e) => after == w && step == WriteStep::<E>::Ready(Err(WriteError::Io(e))),
            }
        }),
{
}

/// A sequence of partial writes that together take the whole buffer ends the
/// send with success, and not before: for a write of `a > 0` then `b > 0`
/// bytes with `a + b` the buffer's length, the first goes on and the second
/// finishes.
pub proof fn lemma_write_all_two_parts<E>(len: nat, a: usize, b: usize)
    requires
        a > 0,
        b > 0,
        a + b == len,
    ensures
        ({
            let w0 = WriteAllView { len, written: 0 };
            let (w1, s1) = write_advance_spec::<E>(w0, IoResult::Done(a));
            let (w2, s2) = write_advance_spec::<E>(w1, IoResult::Done(b));
            &&& s1 == WriteStep::<E>::Continue
            &&& w1.written == a
            &&& s2 == WriteStep::<E>::Ready(Ok(()))
            &&& w2.written == len
        }),
{
}

} // verus!
