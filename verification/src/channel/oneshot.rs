//! A channel that carries exactly one value, once.
//!
//! The two ends share one slot: the value once it arrives, and the waker of an
//! async receiver that got there first. The [`Sender`] is consumed by
//! [`Sender::send`], so it fires once. The receiving end works both ways: it
//! can be polled from a task, or [`Receiver::recv_blocking`] can be asked from
//! an ordinary thread, which waits on a condition variable between asks.

use vstd::prelude::*;

verus! {

/// The slot shared by the two ends of one channel.
pub struct Channel<T, W> {
    value: Option<T>,
    waker: Option<W>,
    sent: Ghost<bool>,
    id: Ghost<int>,
}

/// The value waiting in a channel, the waker of a receiver parked on it, and
/// whether the one send has happened.
pub struct ChannelView<T, W> {
    pub value: Option<T>,
    pub waker: Option<W>,
    pub sent: bool,
}

impl<T, W> View for Channel<T, W> {
    type V = ChannelView<T, W>;

    closed spec fn view(&self) -> ChannelView<T, W> {
        ChannelView { value: self.value, waker: self.waker, sent: self.sent@ }
    }
}

impl<T, W> Channel<T, W> {
    /// Which channel this slot belongs to.
    pub closed spec fn id(&self) -> int {
        self.id@
    }
}

/// The sending half. Consumed by [`send`](Sender::send), so it fires once.
pub struct Sender {
    id: Ghost<int>,
}

impl Sender {
    /// Which channel this end belongs to.
    pub closed spec fn id(&self) -> int {
        self.id@
    }
}

/// The receiving half.
pub struct Receiver {
    id: Ghost<int>,
}

impl Receiver {
    /// Which channel this end belongs to.
    pub closed spec fn id(&self) -> int {
        self.id@
    }
}

/// A connected sender/receiver pair and the empty slot they share. The three
/// belong together: each end works only on its own slot.
pub fn channel<T, W>() -> (r: (Sender, Receiver, Channel<T, W>))
    ensures
        r.0.id() == r.2.id(),
        r.1.id() == r.2.id(),
        r.2@ == (ChannelView::<T, W> { value: None, waker: None, sent: false }),
{
    let ghost id: int = 0;
    (
        Sender { id: Ghost(id) },
        Receiver { id: Ghost(id) },
        Channel { value: None, waker: None, sent: Ghost(false), id: Ghost(id) },
    )
}

/// The slot after a send of `value`, and the waker the sender must call.
pub open spec fn send_spec<T, W>(c: ChannelView<T, W>, value: T) -> (ChannelView<T, W>, Option<W>) {
    (ChannelView { value: Some(value), waker: None, sent: true }, c.waker)
}

/// The slot after a receiver asks for the value, and what it gets.
pub open spec fn recv_spec<T, W>(c: ChannelView<T, W>) -> (ChannelView<T, W>, Option<T>) {
    (ChannelView { value: None, waker: c.waker, sent: c.sent }, c.value)
}

/// The slot after an async receiver polls with `waker`, and what it gets: the
/// value if it is there, else its waker is left behind.
pub open spec fn poll_spec<T, W>(c: ChannelView<T, W>, waker: W) -> (ChannelView<T, W>, Option<T>) {
    match c.value {
        Some(v) => (ChannelView { value: None, waker: c.waker, sent: c.sent }, Some(v)),
        None => (ChannelView { value: None, waker: Some(waker), sent: c.sent }, None),
    }
}

impl Sender {
    /// Deliver the value. Returns the waker of an async receiver that was
    /// already waiting, for the caller to wake (and a blocking receiver is
    /// notified by the caller too).
    pub fn send<T, W>(self, channel: &mut Channel<T, W>, value: T) -> (wake: Option<W>)
        requires
            self.id() == old(channel).id(),
            !old(channel)@.sent,
        ensures
            final(channel).id() == old(channel).id(),
            (final(channel)@, wake) == send_spec(old(channel)@, value),
    {
        channel.value = Some(value);
        channel.sent = Ghost(true);
        channel.waker.take()
    }
}

impl Receiver {
    /// One round of the blocking receive: take the value if it has arrived;
    /// `None` means the calling thread waits for the sender's notification and
    /// asks again.
    pub fn recv_blocking<T, W>(&self, channel: &mut Channel<T, W>) -> (r: Option<T>)
        requires
            self.id() == old(channel).id(),
        ensures
            final(channel).id() == old(channel).id(),
            (final(channel)@, r) == recv_spec(old(channel)@),
    {
        channel.value.take()
    }

    /// The async way to wait: take the value if it is there, otherwise leave
    /// `waker` for the sender to call.
    pub fn poll<T, W>(&self, channel: &mut Channel<T, W>, waker: W) -> (r: Option<T>)
        requires
            self.id() == old(channel).id(),
        ensures
            final(channel).id() == old(channel).id(),
            (final(channel)@, r) == poll_spec(old(channel)@, waker),
    {
        match channel.value.take() {
            Some(v) => Some(v),
            None => {
                channel.waker = Some(waker);
                None
            },
        }
    }
}

/// What is sent is what is received: on a fresh channel, after a send of
/// `value`, a blocking receive gets exactly `value`, and so does a poll.
pub proof fn lemma_receive_gets_sent_value<T, W>(value: T, waker: W)
    ensures
        ({
            let fresh = ChannelView::<T, W> { value: None, waker: None, sent: false };
            let sent = send_spec(fresh, value).0;
            &&& recv_spec(sent).1 == Some(value)
            &&& poll_spec(sent, waker).1 == Some(value)
        }),
{
}

/// The value is handed out once: after a receive took it, further receives
/// and polls find nothing.
pub proof fn lemma_value_taken_once<T, W>(c: ChannelView<T, W>, waker: W)
    ensures
        recv_spec(recv_spec(c).0).1 is None,
        poll_spec(recv_spec(c).0, waker).1 is None,
        recv_spec(poll_spec(c, waker).0).1 is None,
{
}

/// A receiver that polls before the value arrives is not forgotten: the send
/// hands its waker back to be woken, and the value is then there to take.
pub proof fn lemma_early_receiver_is_woken<T, W>(waker: W, value: T)
    ensures
        ({
            let fresh = ChannelView::<T, W> { value: None, waker: None, sent: false };
            let parked = poll_spec(fresh, waker);
            let sent = send_spec(parked.0, value);
            &&& parked.1 is None
            &&& sent.1 == Some(waker)
            &&& poll_spec(sent.0, waker).1 == Some(value)
        }),
{
}

/// The latest parked receiver is the one woken: after polls with `w1` and
/// then `w2` before anything is sent, the send hands back `w2`, and the value
/// sent is what the next receive or poll gets; a poll or receive on a slot
/// holding a value takes exactly that value and leaves the slot empty.
pub proof fn lemma_latest_receiver_is_woken<T, W>(c: ChannelView<T, W>, w1: W, w2: W, value: T, w3: W)
    requires
        c.value is None,
        !c.sent,
    ensures
        ({
            let p1 = poll_spec(c, w1);
            let p2 = poll_spec(p1.0, w2);
            let sent = send_spec(p2.0, value);
            &&& p1.1 is None && p2.1 is None
            &&& sent.1 == Some(w2)
            &&& sent.0.value == Some(value)
            &&& sent.0.sent
            &&& recv_spec(sent.0).1 == Some(value) && recv_spec(sent.0).0.value is None
            &&& poll_spec(sent.0, w3).1 == Some(value) && poll_spec(sent.0, w3).0.value is None
        }),
{
}

/// One event on a channel's slot: the send, a blocking receive, or a poll.
pub enum ChannelEvent<T, W> {
    Send(T),
    Recv,
    Poll(W),
}

/// The slot after one event, and the value the receiving side got (if any).
pub open spec fn channel_step<T, W>(c: ChannelView<T, W>, e: ChannelEvent<T, W>) -> (ChannelView<T, W>, Option<T>) {
    match e {
        ChannelEvent::Send(v) => (send_spec(c, v).0, None),
        ChannelEvent::Recv => recv_spec(c),
        ChannelEvent::Poll(w) => poll_spec(c, w),
    }
}

/// Whether the events, taken in turn from `c`, are allowed: the send happens
/// only on a slot not sent to yet.
pub open spec fn channel_trace_allowed<T, W>(c: ChannelView<T, W>, es: Seq<ChannelEvent<T, W>>) -> bool
    decreases es.len(),
{
    es.len() == 0 || ((es[0] is Send ==> !c.sent) && channel_trace_allowed(channel_step(c, es[0]).0, es.drop_first()))
}

/// What the receiving side got at each event.
pub open spec fn channel_trace_outputs<T, W>(c: ChannelView<T, W>, es: Seq<ChannelEvent<T, W>>) -> Seq<Option<T>>
    decreases es.len(),
{
    if es.len() == 0 {
        Seq::empty()
    } else {
        seq![channel_step(c, es[0]).1] + channel_trace_outputs(channel_step(c, es[0]).0, es.drop_first())
    }
}

/// Exactly once: over any sequence of receives, polls and the one send that
/// the `requires` admit on a fresh channel, the receiving side gets a value at
/// most once, and what it gets is the value sent before it.
pub proof fn lemma_channel_delivers_at_most_once<T, W>(es: Seq<ChannelEvent<T, W>>)
    requires
        channel_trace_allowed(ChannelView::<T, W> { value: None, waker: None, sent: false }, es),
    ensures
        ({
            let out = channel_trace_outputs(ChannelView::<T, W> { value: None, waker: None, sent: false }, es);
            &&& out.len() == es.len()
            &&& forall|i: int, j: int| 0 <= i < j < es.len() && (#[trigger] out[i]) is Some ==> (#[trigger] out[j]) is None
            &&& forall|i: int| 0 <= i < es.len() && (#[trigger] out[i]) is Some
                ==> exists|k: int| 0 <= k < i && #[trigger] es[k] == ChannelEvent::<T, W>::Send(out[i]->0)
        }),
{
    lemma_channel_trace(ChannelView::<T, W> { value: None, waker: None, sent: false }, es);
}

/// The general form: from a slot where nothing waits unless it was sent, at
/// most one value comes out; none once the sent value is gone; and each value
/// that comes out is the one waiting or one sent earlier in the trace.
proof fn lemma_channel_trace<T, W>(c: ChannelView<T, W>, es: Seq<ChannelEvent<T, W>>)
    requires
        channel_trace_allowed(c, es),
        !c.sent ==> c.value is None,
    ensures
        ({
            let out = channel_trace_outputs(c, es);
            &&& out.len() == es.len()
            &&& forall|i: int, j: int| 0 <= i < j < es.len() && (#[trigger] out[i]) is Some ==> (#[trigger] out[j]) is None
            &&& (c.sent && c.value is None) ==> forall|i: int| 0 <= i < es.len() ==> (#[trigger] out[i]) is None
            &&& forall|i: int| 0 <= i < es.len() && (#[trigger] out[i]) is Some
                ==> c.value == out[i] || exists|k: int| 0 <= k < i && #[trigger] es[k] == ChannelEvent::<T, W>::Send(out[i]->0)
        }),
    decreases es.len(),
{
    if es.len() > 0 {
        let (c1, o) = channel_step(c, es[0]);
        let rest = es.drop_first();
        lemma_channel_trace(c1, rest);
        let out = channel_trace_outputs(c, es);
        let tail = channel_trace_outputs(c1, rest);
        assert(out =~= seq![o] + tail);
        assert forall|i: int, j: int| 0 <= i < j < es.len() && (#[trigger] out[i]) is Some implies (#[trigger] out[j]) is None by {
            assert(out[j] == tail[j - 1]);
            if i == 0 {
                assert(c1.sent && c1.value is None);
            } else {
                assert(out[i] == tail[i - 1]);
            }
        }
        assert forall|i: int| 0 <= i < es.len() && (#[trigger] out[i]) is Some implies c.value == out[i]
            || exists|k: int| 0 <= k < i && #[trigger] es[k] == ChannelEvent::<T, W>::Send(out[i]->0) by {
            if i > 0 {
                assert(out[i] == tail[i - 1]);
                if c1.value == tail[i - 1] {
                    if es[0] is Send {
                        assert(es[0] == ChannelEvent::<T, W>::Send(out[i]->0));
                    } else {
                        assert(c.value == out[i]);
                    }
                } else {
                    let k = choose|k: int| 0 <= k < i - 1 && #[trigger] rest[k] == ChannelEvent::<T, W>::Send(tail[i - 1]->0);
                    assert(es[k + 1] == rest[k]);
                }
            }
        }
    }
}

} // verus!
