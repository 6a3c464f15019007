//! Tasks: the queue of work that is ready to run.

use vstd::prelude::*;
use std::collections::VecDeque;

verus! {

/// The tasks that are ready to run, first in, first out.
///
/// Workers take from the front, wakers and `spawn` push onto the back.
pub struct Queue<T> {
    tasks: VecDeque<T>,
}

impl<T> View for Queue<T> {
    type V = Seq<T>;

    closed spec fn view(&self) -> Seq<T> {
        self.tasks@
    }
}

/// The queue after adding a task.
pub open spec fn queue_push_spec<T>(s: Seq<T>, x: T) -> Seq<T> {
    s.push(x)
}

/// Tasks come out in the order they went in: pushing `a` then `b` onto an
/// empty queue, the first take gives `a`, the second `b`, and the queue is
/// then empty again; a push adds exactly one task, behind all the others,
/// and keeps them.
pub proof fn lemma_queue_fifo<T>(s: Seq<T>, a: T, b: T)
    ensures
        ({
            let q = queue_push_spec(queue_push_spec(Seq::<T>::empty(), a), b);
            let (q1, x1) = queue_pop_spec(q);
            let (q2, x2) = queue_pop_spec(q1);
            &&& x1 == Some(a)
            &&& x2 == Some(b)
            &&& q2.len() == 0
        }),
        queue_push_spec(s, a).len() == s.len() + 1,
        queue_push_spec(s, a).take(s.len() as int) == s,
        queue_push_spec(s, a).last() == a,
{
    let q = queue_push_spec(queue_push_spec(Seq::<T>::empty(), a), b);
    assert(q =~= seq![a, b]);
    assert(q.drop_first() =~= seq![b]);
    assert(queue_push_spec(s, a).take(s.len() as int) =~= s);
}

/// The queue after taking from the front, and what was taken.
pub open spec fn queue_pop_spec<T>(s: Seq<T>) -> (Seq<T>, Option<T>) {
    if s.len() == 0 {
        (s, None)
    } else {
        (s.drop_first(), Some(s[0]))
    }
}

/// A task pushed onto an empty queue is the next one taken.
pub proof fn lemma_queue_push_pop_empty<T>(x: T)
    ensures
        queue_pop_spec(Seq::<T>::empty().push(x)) == (Seq::<T>::empty(), Some(x)),
{
    assert(Seq::<T>::empty().push(x).drop_first() =~= Seq::<T>::empty());
}

/// First in, first out: on a queue that already holds work, pushing does not
/// change which task is taken next, and taking does not disturb what was
/// pushed behind it.
pub proof fn lemma_queue_push_pop_commute<T>(s: Seq<T>, x: T)
    requires
        s.len() > 0,
    ensures
        queue_pop_spec(s.push(x)) == (queue_pop_spec(s).0.push(x), queue_pop_spec(s).1),
{
    assert(s.push(x).drop_first() =~= s.drop_first().push(x));
}

impl<T> Queue<T> {
    /// An empty queue.
    pub fn new() -> (q: Self)
        ensures
            q@ == Seq::<T>::empty(),
    {
        Queue { tasks: VecDeque::new() }
    }

    /// Add a task to the back of the queue.
    pub fn push(&mut self, task: T)
        ensures
            final(self)@ == queue_push_spec(old(self)@, task),
    {
        self.tasks.push_back(task);
    }

    /// Take the task at the front, or `None` when nothing is ready (the caller
    /// then waits for a push and asks again).
    pub fn pop(&mut self) -> (task: Option<T>)
        ensures
            (final(self)@, task) == queue_pop_spec(old(self)@),
    {
        self.tasks.pop_front()
    }

    /// How many tasks are waiting.
    pub fn len(&self) -> (n: usize)
        ensures
            n == self@.len(),
    {
        self.tasks.len()
    }
}

} // verus!

verus! {

/// How one poll of a task's future ended.
#[derive(Clone, Copy, PartialEq, Eq, Structural, Debug)]
pub enum PollOutcome {
    /// Not finished; the future kept a waker and will be scheduled again.
    Pending,
    /// Finished with a value.
    Ready,
    /// Panicked while being polled.
    Panicked,
}

/// One spawned unit of work: the slot that holds its future.
///
/// The slot is emptied once the future has completed or panicked, so a stray
/// wake can never poll it again.
pub struct Task<F> {
    future: Option<F>,
}

impl<F> View for Task<F> {
    type V = Option<F>;

    closed spec fn view(&self) -> Option<F> {
        self.future
    }
}

impl<F> Task<F> {
    /// A task that still has its future to run.
    pub fn new(future: F) -> (t: Self)
        ensures
            t@ == Some(future),
    {
        Task { future: Some(future) }
    }

    /// Whether the future is still there to be polled.
    pub fn is_live(&self) -> (b: bool)
        ensures
            b == self@ is Some,
    {
        self.future.is_some()
    }

    /// Take the future out to poll it (the caller holds the task's lock for
    /// the whole poll). `None` means the task already finished: a duplicate
    /// wake, which is then a no-op.
    pub fn take_future(&mut self) -> (f: Option<F>)
        ensures
            (final(self)@, f) == task_take_spec(old(self)@),
    {
        self.future.take()
    }

    /// Hand the polled future back. It is kept only if it is still pending;
    /// a completed or panicked future is dropped here.
    pub fn finish_poll(&mut self, future: F, outcome: PollOutcome)
        ensures
            final(self)@ == task_finish_spec(old(self)@, future, outcome),
    {
        if outcome == PollOutcome::Pending {
            self.future = Some(future);
        }
    }
}

/// Queue a freshly spawned task: it goes to the back, behind every task that
/// was already ready.
pub fn spawn<X>(queue: &mut Queue<X>, task: X)
    ensures
        final(queue)@ == old(queue)@.push(task),
{
    queue.push(task);
}

/// The shared slot between a task and whoever awaits its result.
///
/// It moves in one direction only: `Unawaited` -> maybe `Awaited` -> `Ready`
/// -> `Done`.
pub enum JoinState<T, W, P> {
    /// Still running, nobody is waiting yet.
    Unawaited,
    /// Still running, and someone is parked on it: wake them when done.
    Awaited(W),
    /// Finished. Holds the value, or the panic it died with.
    Ready(Result<T, P>),
    /// The result has been taken.
    Done,
}

impl<T, W, P> JoinState<T, W, P> {
    /// Position along the one-way path `Unawaited` -> `Awaited` -> `Ready` -> `Done`.
    pub open spec fn rank(self) -> int {
        match self {
            JoinState::Unawaited => 0,
            JoinState::Awaited(_) => 1,
            JoinState::Ready(_) => 2,
            JoinState::Done => 3,
        }
    }
}

/// The state after the awaiting side polls with `waker`, and what it gets.
pub open spec fn join_poll_spec<T, W, P>(s: JoinState<T, W, P>, waker: W)
    -> (JoinState<T, W, P>, Option<Result<T, P>>)
{
    match s {
        JoinState::Ready(r) => (JoinState::Done, Some(r)),
        _ => (JoinState::Awaited(waker), None),
    }
}

/// The state after the task finishes with `result`, and the waker to call.
pub open spec fn join_complete_spec<T, W, P>(s: JoinState<T, W, P>, result: Result<T, P>)
    -> (JoinState<T, W, P>, Option<W>)
{
    match s {
        JoinState::Awaited(w) => (JoinState::Ready(result), Some(w)),
        _ => (JoinState::Ready(result), None),
    }
}

/// The receipt for a spawned task: the slot its result lands in.
pub struct JoinHandle<T, W, P> {
    state: JoinState<T, W, P>,
}

impl<T, W, P> View for JoinHandle<T, W, P> {
    type V = JoinState<T, W, P>;

    closed spec fn view(&self) -> JoinState<T, W, P> {
        self.state
    }
}

impl<T, W, P> JoinHandle<T, W, P> {
    /// The slot of a task that has just been spawned.
    pub fn new() -> (h: Self)
        ensures
            h@ == JoinState::<T, W, P>::Unawaited,
    {
        JoinHandle { state: JoinState::Unawaited }
    }

    /// Whether the result has already been taken (polling again is a bug).
    pub fn is_done(&self) -> (b: bool)
        ensures
            b == self@ is Done,
    {
        match self.state {
            JoinState::Done => true,
            _ => false,
        }
    }

    /// Whether the task has already finished (completing it again is a bug).
    pub fn is_finished(&self) -> (b: bool)
        ensures
            b == (self@.rank() >= 2),
    {
        match self.state {
            JoinState::Ready(_) => true,
            JoinState::Done => true,
            _ => false,
        }
    }

    /// The awaiting side: take the finished result, or leave `waker` behind
    /// (replacing an earlier one) and report that it is not there yet.
    pub fn poll(&mut self, waker: W) -> (r: Option<Result<T, P>>)
        requires
            !(old(self)@ is Done),
        ensures
            (final(self)@, r) == join_poll_spec(old(self)@, waker),
    {
        let mut prev = JoinState::Done;
        std::mem::swap(&mut self.state, &mut prev);
        match prev {
            JoinState::Ready(r) => Some(r),
            _ => {
                self.state = JoinState::Awaited(waker);
                None
            },
        }
    }

    /// The task's side: store the result and hand back the waker of an
    /// awaiter that got there first, which the caller then wakes.
    pub fn complete(&mut self, result: Result<T, P>) -> (wake: Option<W>)
        requires
            old(self)@.rank() < 2,
        ensures
            (final(self)@, wake) == join_complete_spec(old(self)@, result),
    {
        let mut prev = JoinState::Ready(result);
        std::mem::swap(&mut self.state, &mut prev);
        match prev {
            JoinState::Awaited(w) => Some(w),
            _ => None,
        }
    }
}

} // verus!

verus! {

/// Awaiting never moves the join slot backwards along its path.
pub proof fn lemma_join_poll_moves_forward<T, W, P>(s: JoinState<T, W, P>, waker: W)
    requires
        !(s is Done),
    ensures
        join_poll_spec(s, waker).0.rank() >= s.rank(),
{
}

/// A task finishing for the first time moves its join slot forward, to `Ready`.
pub proof fn lemma_join_complete_moves_forward<T, W, P>(s: JoinState<T, W, P>, result: Result<T, P>)
    requires
        s.rank() < 2,
    ensures
        join_complete_spec(s, result).0.rank() == 2,
        join_complete_spec(s, result).0.rank() > s.rank(),
{
}

/// When the task finishes before anyone awaits it, its result waits in the
/// slot: the next poll takes exactly that result and retires the slot.
pub proof fn lemma_join_result_waits<T, W, P>(s: JoinState<T, W, P>, result: Result<T, P>, waker: W)
    requires
        s.rank() < 2,
    ensures
        join_poll_spec(join_complete_spec(s, result).0, waker) == (
        JoinState::<T, W, P>::Done,
        Some(result),
        ),
{
}

/// When the awaiter arrives first, the wake-up is not lost: finishing the task
/// hands back the waker the awaiter left last.
pub proof fn lemma_join_awaiter_is_woken<T, W, P>(s: JoinState<T, W, P>, waker: W, result: Result<T, P>)
    requires
        s.rank() < 2,
    ensures
        join_poll_spec(s, waker).1 is None,
        join_complete_spec(join_poll_spec(s, waker).0, result) == (
        JoinState::<T, W, P>::Ready(result),
        Some(waker),
        ),
{
}

/// What a task's slot holds after the future is handed back with `outcome`.
pub open spec fn task_finish_spec<F>(slot: Option<F>, future: F, outcome: PollOutcome) -> Option<F> {
    if outcome == PollOutcome::Pending {
        Some(future)
    } else {
        slot
    }
}

/// A future that completed or panicked is never polled again: after it is
/// taken and handed back finished, every later attempt to take it finds
/// nothing.
pub proof fn lemma_finished_task_is_never_polled_again<F>(slot: Option<F>, future: F, outcome: PollOutcome)
    requires
        outcome != PollOutcome::Pending,
    ensures
        ({
            let after_take = task_take_spec(slot).0;
            let after_finish = task_finish_spec(after_take, future, outcome);
            task_take_spec(after_finish).1 is None
        }),
{
}

/// A future that is still pending is kept to be polled again: taken out and
/// handed back pending, the same future is there for the next poll.
pub proof fn lemma_pending_task_is_polled_again<F>(future: F)
    ensures
        ({
            let (after_take, taken) = task_take_spec(Some(future));
            let after_finish = task_finish_spec(after_take, future, PollOutcome::Pending);
            &&& taken == Some(future)
            &&& after_take is None
            &&& task_take_spec(after_finish).1 == Some(future)
        }),
{
}

/// The slot after the future is taken out to be polled, and what was taken.
pub open spec fn task_take_spec<F>(slot: Option<F>) -> (Option<F>, Option<F>) {
    (None, slot)
}

/// The join slot after the awaiter polls with each waker of `ws` in turn, and
/// what each poll got.
pub open spec fn join_polls_spec<T, W, P>(s: JoinState<T, W, P>, ws: Seq<W>) -> (
    JoinState<T, W, P>,
    Seq<Option<Result<T, P>>>,
)
    decreases ws.len(),
{
    if ws.len() == 0 {
        (s, Seq::empty())
    } else {
        let first = join_poll_spec(s, ws[0]);
        let rest = join_polls_spec(first.0, ws.drop_first());
        (rest.0, seq![first.1] + rest.1)
    }
}

/// Polls before the task finishes all come back empty, and leave the waker
/// of the latest one in the slot.
proof fn lemma_join_polls_while_running<T, W, P>(s: JoinState<T, W, P>, ws: Seq<W>)
    requires
        s.rank() < 2,
    ensures
        ws.len() > 0 ==> join_polls_spec(s, ws).0 == JoinState::<T, W, P>::Awaited(ws.last()),
        ws.len() == 0 ==> join_polls_spec(s, ws).0 == s,
        join_polls_spec(s, ws).1.len() == ws.len(),
        forall|k: int| 0 <= k < ws.len() ==> #[trigger] join_polls_spec(s, ws).1[k] is None,
    decreases ws.len(),
{
    if ws.len() > 0 {
        let s1 = join_poll_spec(s, ws[0]).0;
        let t = ws.drop_first();
        lemma_join_polls_while_running(s1, t);
        let out = join_polls_spec(s, ws).1;
        assert forall|k: int| 0 <= k < ws.len() implies #[trigger] out[k] is None by {
            if k > 0 {
                assert(out[k] == join_polls_spec(s1, t).1[k - 1]);
            }
        }
        if t.len() > 0 {
            assert(t.last() == ws.last());
        }
    }
}

/// What awaiting a spawned task gives back: however many times the awaiter
/// polls while the task runs, each poll comes back empty; when the task
/// finishes, the waker of the latest poll is handed back to be woken; and the
/// next poll gets exactly the task's result, once, retiring the slot.
pub proof fn lemma_join_delivers_result_once<T, W, P>(ws: Seq<W>, result: Result<T, P>, w: W)
    ensures
        ({
            let (running, early) = join_polls_spec(JoinState::<T, W, P>::Unawaited, ws);
            let (finished, wake) = join_complete_spec(running, result);
            let (last, got) = join_poll_spec(finished, w);
            &&& forall|k: int| 0 <= k < early.len() ==> #[trigger] early[k] is None
            &&& wake == (if ws.len() > 0 { Some(ws.last()) } else { None })
            &&& got == Some(result)
            &&& last is Done
        }),
{
    lemma_join_polls_while_running(JoinState::<T, W, P>::Unawaited, ws);
}

/// One event on a join slot: the awaiter polls with a waker, or the task
/// finishes with a result.
pub enum JoinEvent<T, W, P> {
    Poll(W),
    Complete(Result<T, P>),
}

/// Whether an event may happen in state `s`: polling after the result was
/// taken is a bug, and a task finishes once.
pub open spec fn join_event_allowed<T, W, P>(s: JoinState<T, W, P>, e: JoinEvent<T, W, P>) -> bool {
    match e {
        JoinEvent::Poll(_) => !(s is Done),
        JoinEvent::Complete(_) => s.rank() < 2,
    }
}

/// The state after one event.
pub open spec fn join_event_step<T, W, P>(s: JoinState<T, W, P>, e: JoinEvent<T, W, P>) -> JoinState<T, W, P> {
    match e {
        JoinEvent::Poll(w) => join_poll_spec(s, w).0,
        JoinEvent::Complete(r) => join_complete_spec(s, r).0,
    }
}

/// Whether every event of `es`, taken in turn from `s`, is allowed where it happens.
pub open spec fn join_trace_allowed<T, W, P>(s: JoinState<T, W, P>, es: Seq<JoinEvent<T, W, P>>) -> bool
    decreases es.len(),
{
    es.len() == 0 || (join_event_allowed(s, es[0]) && join_trace_allowed(
        join_event_step(s, es[0]),
        es.drop_first(),
    ))
}

/// The states the slot passes through: `s`, then the state after each event.
pub open spec fn join_trace_states<T, W, P>(s: JoinState<T, W, P>, es: Seq<JoinEvent<T, W, P>>) -> Seq<JoinState<T, W, P>>
    decreases es.len(),
{
    if es.len() == 0 {
        seq![s]
    } else {
        seq![s] + join_trace_states(join_event_step(s, es[0]), es.drop_first())
    }
}

/// The join slot's path is one-way, over any interleaving of polls and the
/// task's completion that the functions' `requires` admit: no state is ever
/// followed by an earlier one, the task completes at most once, right after
/// its completion the slot is `Ready` with its result, and once `Done` it
/// stays `Done`.
pub proof fn lemma_join_path_is_one_way<T, W, P>(s: JoinState<T, W, P>, es: Seq<JoinEvent<T, W, P>>)
    requires
        join_trace_allowed(s, es),
    ensures
        join_trace_states(s, es).len() == es.len() + 1,
        join_trace_states(s, es)[0] == s,
        forall|i: int, j: int| 0 <= i <= j <= es.len()
            ==> (#[trigger] join_trace_states(s, es)[i]).rank() <= (#[trigger] join_trace_states(s, es)[j]).rank(),
        forall|i: int, j: int| 0 <= i < j < es.len() && #[trigger] es[i] is Complete ==> !(#[trigger] es[j] is Complete),
        forall|i: int| 0 <= i < es.len() && #[trigger] es[i] is Complete
            ==> join_trace_states(s, es)[i + 1] == JoinState::<T, W, P>::Ready(es[i]->Complete_0),
        forall|i: int, j: int| 0 <= i <= j <= es.len() && (#[trigger] join_trace_states(s, es)[i]) is Done
            ==> (#[trigger] join_trace_states(s, es)[j]) is Done,
    decreases es.len(),
{
    let st = join_trace_states(s, es);
    if es.len() > 0 {
        let s1 = join_event_step(s, es[0]);
        let rest = es.drop_first();
        lemma_join_path_is_one_way(s1, rest);
        let tail = join_trace_states(s1, rest);
        assert(st =~= seq![s] + tail);
        assert(s1.rank() >= s.rank());
        assert forall|i: int, j: int| 0 <= i <= j <= es.len() implies (#[trigger] st[i]).rank() <= (#[trigger] st[j]).rank() by {
            if i == 0 {
                if j > 0 {
                    assert(st[j] == tail[j - 1]);
                    assert(tail[0].rank() <= tail[j - 1].rank());
                }
            } else {
                assert(st[i] == tail[i - 1] && st[j] == tail[j - 1]);
            }
        }
        assert forall|i: int, j: int| 0 <= i < j < es.len() && #[trigger] es[i] is Complete implies !(#[trigger] es[j] is Complete) by {
            if i == 0 {
                assert(s1.rank() == 2);
                lemma_join_trace_allows_each(s1, rest, j - 1);
                assert(rest[j - 1] == es[j]);
                assert(tail[0].rank() <= tail[j - 1].rank());
            } else {
                assert(es[i] == rest[i - 1] && es[j] == rest[j - 1]);
            }
        }
        assert forall|i: int| 0 <= i < es.len() && #[trigger] es[i] is Complete implies st[i + 1]
            == JoinState::<T, W, P>::Ready(es[i]->Complete_0) by {
            if i > 0 {
                assert(es[i] == rest[i - 1]);
                assert(st[i + 1] == tail[i]);
            }
        }
        assert forall|i: int, j: int| 0 <= i <= j <= es.len() && (#[trigger] st[i]) is Done implies (
        #[trigger] st[j]) is Done by {
            assert(st[i].rank() <= st[j].rank());
        }
    }
}

/// A trace of `n` events passes through `n + 1` states.
proof fn lemma_join_trace_len<T, W, P>(s: JoinState<T, W, P>, es: Seq<JoinEvent<T, W, P>>)
    ensures
        join_trace_states(s, es).len() == es.len() + 1,
    decreases es.len(),
{
    if es.len() > 0 {
        lemma_join_trace_len(join_event_step(s, es[0]), es.drop_first());
    }
}

/// Each event of an allowed trace is allowed in the state where it happens.
proof fn lemma_join_trace_allows_each<T, W, P>(s: JoinState<T, W, P>, es: Seq<JoinEvent<T, W, P>>, k: int)
    requires
        join_trace_allowed(s, es),
        0 <= k < es.len(),
    ensures
        join_event_allowed(join_trace_states(s, es)[k], es[k]),
    decreases es.len(),
{
    if k > 0 {
        let s1 = join_event_step(s, es[0]);
        lemma_join_trace_allows_each(s1, es.drop_first(), k - 1);
        lemma_join_trace_len(s1, es.drop_first());
        assert(join_trace_states(s, es)[k] == join_trace_states(s1, es.drop_first())[k - 1]);
    }
}

} // verus!
