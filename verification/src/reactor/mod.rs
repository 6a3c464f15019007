//! The reactor: the requests of tasks waiting on a socket.
//!
//! Tasks that wait on a file descriptor are registered here. The reactor
//! thread turns the registrations into one `poll()` call's array, sleeps in
//! it, and afterwards wakes the tasks whose descriptor became ready. Those
//! registrations are one-shot: they are dropped as they fire, and a task that
//! is still not done registers again on its next poll.

use vstd::prelude::*;
use std::collections::HashSet;

verus! {

/// One "wake me when this descriptor is ready" request.
///
/// The `id` tells apart two tasks waiting on the same `fd`.
pub struct Registration<W> {
    pub id: u64,
    pub fd: i32,
    pub events: i16,
    pub waker: W,
}

/// One entry of the array handed to `poll()`.
#[derive(Clone, Copy, PartialEq, Eq, Structural, Debug)]
pub struct PollFd {
    pub fd: i32,
    pub events: i16,
    pub revents: i16,
}

/// How a `poll()` call came back.
pub enum PollReturn<E> {
    /// It returned normally (some descriptor is ready, or the timeout passed).
    Returned,
    /// A signal cut the wait short.
    Interrupted,
    /// It failed with another error.
    Failed(E),
}

/// What the reactor does after `poll()` came back: `Ok(true)` to drain the
/// wakeup pipe and wake the tasks whose descriptor is ready, `Ok(false)` when
/// a signal cut the wait short (nothing is wrong; the reactor's loop comes
/// back around), `Err` for any other failure.
pub fn after_poll<E>(returned: PollReturn<E>) -> (r: Result<bool, E>)
    ensures
        match returned {
            PollReturn::Returned => r == Ok::<bool, E>(true),
            PollReturn::Interrupted => r == Ok::<bool, E>(false),
            PollReturn::Failed(e) => r == Err::<bool, E>(e),
        },
{
    match returned {
        PollReturn::Returned => Ok(true),
        PollReturn::Interrupted => Ok(false),
        PollReturn::Failed(e) => Err(e),
    }
}

/// The registrations waiting for their descriptor, and the next id to give out.
///
/// Until the id counter wraps around, every registration's id is below the
/// next id to give out, so no two registrations share an id.
pub struct Reactor<W> {
    registrations: Vec<Registration<W>>,
    next_id: u64,
    wrapped: Ghost<bool>,
}

/// Every registration's id is below `next`.
pub open spec fn ids_below<W>(regs: Seq<Registration<W>>, next: u64) -> bool {
    forall|k: int| 0 <= k < regs.len() ==> #[trigger] regs[k].id < next
}

/// The id given out after `id`; ids wrap around after `u64::MAX`.
pub open spec fn next_id_spec(id: u64) -> u64 {
    if id == u64::MAX {
        0
    } else {
        (id + 1) as u64
    }
}

/// The poll entry that watches a registration's descriptor.
pub open spec fn poll_entry<W>(r: Registration<W>) -> PollFd {
    PollFd { fd: r.fd, events: r.events, revents: 0 }
}

/// The ids whose descriptor `poll()` reported as ready: those paired, position
/// by position, with a non-zero `revents`. Pairing stops at the shorter list,
/// which leaves out the wakeup pipe's entry at the end of the poll array.
pub open spec fn ready_ids(ids: Seq<u64>, revents: Seq<i16>) -> Set<u64> {
    Set::new(|id: u64| exists|i: int| 0 <= i < ids.len() && i < revents.len() && ids[i] == id && revents[i] != 0)
}

/// The registrations that stay: those whose id is not ready, in order.
pub open spec fn kept_spec<W>(regs: Seq<Registration<W>>, ready: Set<u64>) -> Seq<Registration<W>> {
    regs.filter(|r: Registration<W>| !ready.contains(r.id))
}

/// The wakers to call: those of the registrations whose id is ready, in order.
pub open spec fn fired_spec<W>(regs: Seq<Registration<W>>, ready: Set<u64>) -> Seq<W> {
    regs.filter(|r: Registration<W>| ready.contains(r.id)).map_values(|r: Registration<W>| r.waker)
}

impl<W> Reactor<W> {
    /// The registrations, oldest first.
    pub closed spec fn registrations(&self) -> Seq<Registration<W>> {
        self.registrations@
    }

    /// The id the next registration gets.
    pub closed spec fn next_id(&self) -> u64 {
        self.next_id
    }

    /// Whether the id counter has wrapped around since the reactor was made.
    pub closed spec fn wrapped(&self) -> bool {
        self.wrapped@
    }

    #[verifier::type_invariant]
    spec fn fresh_ids(&self) -> bool {
        !self.wrapped@ ==> ids_below(self.registrations@, self.next_id)
    }

    /// No registrations yet; ids start at zero.
    pub fn new() -> (r: Self)
        ensures
            r.registrations() == Seq::<Registration<W>>::empty(),
            r.next_id() == 0,
            !r.wrapped(),
    {
        Reactor { registrations: Vec::new(), next_id: 0, wrapped: Ghost(false) }
    }

    /// Watch `fd` for `events` and keep `waker` to call once it is ready. The
    /// caller then rings the reactor's wakeup pipe, since the reactor is
    /// probably asleep on a list that lacks this descriptor.
    pub fn register(&mut self, fd: i32, events: i16, waker: W) -> (id: u64)
        ensures
            id == old(self).next_id(),
            final(self).next_id() == next_id_spec(old(self).next_id()),
            final(self).registrations() == old(self).registrations().push(
                (Registration { id, fd, events, waker }),
            ),
            final(self).wrapped() == (old(self).wrapped() || old(self).next_id() == u64::MAX),
            !old(self).wrapped() ==> ids_below(old(self).registrations(), old(self).next_id()),
            !final(self).wrapped() ==> ids_below(final(self).registrations(), final(self).next_id()),
    {
        proof {
            use_type_invariant(&*self);
        }
        let ghost old_regs = self.registrations@;
        let id = self.next_id;
        let mut regs: Vec<Registration<W>> = Vec::new();
        std::mem::swap(&mut regs, &mut self.registrations);
        let ghost now_wrapped = self.wrapped@ || id == u64::MAX;
        self.wrapped = Ghost(now_wrapped);
        self.next_id = self.next_id.wrapping_add(1);
        regs.push(Registration { id, fd, events, waker });
        proof {
            if !self.wrapped@ {
                assert forall|k: int| 0 <= k < regs@.len() implies #[trigger] regs@[k].id < self.next_id by {
                    if k < old_regs.len() {
                        assert(regs@[k] == old_regs[k]);
                    }
                }
            }
        }
        self.registrations = regs;
        id
    }

    /// The snapshot handed to `poll()`: the ids of the registrations, and one
    /// poll entry per registration plus, at the end, the wakeup pipe's read end
    /// watched for `wakeup_events`.
    pub fn poll_set(&self, wakeup_fd: i32, wakeup_events: i16) -> (r: (Vec<u64>, Vec<PollFd>))
        ensures
            r.0@.len() == self.registrations().len(),
            r.1@.len() == self.registrations().len() + 1,
            forall|i: int| 0 <= i < self.registrations().len() ==> {
                &&& #[trigger] r.0@[i] == self.registrations()[i].id
                &&& r.1@[i] == poll_entry(self.registrations()[i])
            },
            r.1@[self.registrations().len() as int] == (PollFd { fd: wakeup_fd, events: wakeup_events, revents: 0 }),
            !self.wrapped() ==> ids_below(self.registrations(), self.next_id()),
    {
        proof {
            use_type_invariant(self);
        }
        let n = self.registrations.len();
        let mut ids: Vec<u64> = Vec::new();
        let mut fds: Vec<PollFd> = Vec::new();
        let mut i: usize = 0;
        while i < n
            invariant
                n == self.registrations@.len(),
                0 <= i <= n,
                ids@.len() == i,
                fds@.len() == i,
                forall|k: int| 0 <= k < i ==> #[trigger] ids@[k] == self.registrations@[k].id,
                forall|k: int| 0 <= k < i ==> #[trigger] fds@[k] == poll_entry(self.registrations@[k]),
            decreases n - i,
        {
            let reg = &self.registrations[i];
            ids.push(reg.id);
            fds.push(PollFd { fd: reg.fd, events: reg.events, revents: 0 });
            i = i + 1;
        }
        let ghost before = fds@;
        fds.push(PollFd { fd: wakeup_fd, events: wakeup_events, revents: 0 });
        assert forall|k: int| 0 <= k < n implies #[trigger] fds@[k] == poll_entry(self.registrations@[k]) by {
            assert(fds@[k] == before[k]);
        }
        (ids, fds)
    }

    /// After `poll()` came back: `ids` is the snapshot's id list and `revents`
    /// what `poll()` wrote back into each entry. Drop the registrations that
    /// fired and hand back their wakers, oldest first, for the caller to wake;
    /// keep the rest in their order.
    pub fn take_ready(&mut self, ids: &Vec<u64>, revents: &Vec<i16>) -> (wakers: Vec<W>)
        ensures
            final(self).next_id() == old(self).next_id(),
            final(self).wrapped() == old(self).wrapped(),
            !old(self).wrapped() ==> ids_below(old(self).registrations(), old(self).next_id()),
            !final(self).wrapped() ==> ids_below(final(self).registrations(), final(self).next_id()),
            final(self).registrations() == kept_spec(old(self).registrations(), ready_ids(ids@, revents@)),
            wakers@ == fired_spec(old(self).registrations(), ready_ids(ids@, revents@)),
    {
        proof {
            use_type_invariant(&*self);
        }
        let ghost target = ready_ids(ids@, revents@);
        let m = if ids.len() < revents.len() { ids.len() } else { revents.len() };
        let mut ready: HashSet<u64> = HashSet::new();
        let mut i: usize = 0;
        while i < m
            invariant
                m <= ids@.len(),
                m <= revents@.len(),
                0 <= i <= m,
                ready@ == Set::new(|id: u64| exists|k: int| 0 <= k < i && ids@[k] == id && revents@[k] != 0),
            decreases m - i,
        {
            if revents[i] != 0 {
                ready.insert(ids[i]);
            }
            i = i + 1;
            assert(ready@ =~= Set::new(|id: u64| exists|k: int| 0 <= k < i && ids@[k] == id && revents@[k] != 0));
        }
        assert(ready@ =~= target);

        let ghost all = self.registrations@;
        if ready.is_empty() {
            proof {
                lemma_nothing_ready_keeps_all(all, target);
            }
            return Vec::new();
        }

        let mut regs: Vec<Registration<W>> = Vec::new();
        std::mem::swap(&mut regs, &mut self.registrations);
        let mut kept: Vec<Registration<W>> = Vec::new();
        let mut wakers: Vec<W> = Vec::new();
        assert(all.take(0) =~= Seq::<Registration<W>>::empty());
        proof {
            lemma_empty_filters::<W>(target);
        }
        for reg in it: regs.into_iter()
            invariant
                it.seq() == all,
                ready@ == target,
                kept@ == kept_spec(all.take(it.index() as int), target),
                wakers@ == fired_spec(all.take(it.index() as int), target),
        {
            let ghost j = it.index() as int;
            proof {
                assert(all.take(j + 1) =~= all.take(j).push(all[j]));
                lemma_split_push(all.take(j), all[j], target);
            }
            if ready.contains(&reg.id) {
                wakers.push(reg.waker);
            } else {
                kept.push(reg);
            }
        }
        assert(all.take(all.len() as int) =~= all);
        proof {
            if !self.wrapped@ {
                lemma_kept_ids_below(all, target, self.next_id);
            }
        }
        self.registrations = kept;
        wakers
    }
}

/// What stays keeps its ids below the bound.
proof fn lemma_kept_ids_below<W>(regs: Seq<Registration<W>>, ready: Set<u64>, next: u64)
    requires
        ids_below(regs, next),
    ensures
        ids_below(kept_spec(regs, ready), next),
    decreases regs.len(),
{
    if regs.len() == 0 {
        lemma_empty_filters::<W>(ready);
    } else {
        let p = regs.drop_last();
        assert(p.push(regs.last()) =~= regs);
        assert forall|k: int| 0 <= k < p.len() implies #[trigger] p[k].id < next by {
            assert(p[k] == regs[k]);
        }
        lemma_kept_ids_below(p, ready, next);
        lemma_split_push(p, regs.last(), ready);
        let kp = kept_spec(p, ready);
        let kr = kept_spec(regs, ready);
        assert forall|k: int| 0 <= k < kr.len() implies #[trigger] kr[k].id < next by {
            if k < kp.len() {
                assert(kr[k] == kp[k]);
            }
        }
    }
}

/// Filtering the empty list keeps and fires nothing.
proof fn lemma_empty_filters<W>(ready: Set<u64>)
    ensures
        kept_spec(Seq::<Registration<W>>::empty(), ready) == Seq::<Registration<W>>::empty(),
        fired_spec(Seq::<Registration<W>>::empty(), ready) == Seq::<W>::empty(),
{
    reveal(Seq::filter);
    assert(fired_spec(Seq::<Registration<W>>::empty(), ready) =~= Seq::<W>::empty());
}

/// One more registration, at the end, goes either to the end of the kept
/// list (its id not ready) or to the end of the fired wakers (its id ready),
/// and leaves the rest of both as they were: fired wakers come out in the
/// order the registrations were made.
pub proof fn lemma_split_push<W>(regs: Seq<Registration<W>>, r: Registration<W>, ready: Set<u64>)
    ensures
        kept_spec(regs.push(r), ready) == (if ready.contains(r.id) {
            kept_spec(regs, ready)
        } else {
            kept_spec(regs, ready).push(r)
        }),
        fired_spec(regs.push(r), ready) == (if ready.contains(r.id) {
            fired_spec(regs, ready).push(r.waker)
        } else {
            fired_spec(regs, ready)
        }),
{
    reveal(Seq::filter);
    assert(regs.push(r).drop_last() =~= regs);
    let fp = |x: Registration<W>| ready.contains(x.id);
    let f0 = regs.filter(fp);
    if ready.contains(r.id) {
        assert(f0.push(r).map_values(|x: Registration<W>| x.waker) =~= f0.map_values(
            |x: Registration<W>| x.waker,
        ).push(r.waker));
    }
}

/// With no id ready, every registration stays and nothing fires.
proof fn lemma_nothing_ready_keeps_all<W>(regs: Seq<Registration<W>>, ready: Set<u64>)
    requires
        ready =~= Set::<u64>::empty(),
    ensures
        kept_spec(regs, ready) == regs,
        fired_spec(regs, ready) == Seq::<W>::empty(),
    decreases regs.len(),
{
    reveal(Seq::filter);
    if regs.len() > 0 {
        lemma_nothing_ready_keeps_all(regs.drop_last(), ready);
        assert(regs.drop_last().push(regs.last()) =~= regs);
    }
    assert(kept_spec(regs, ready) =~= regs);
    assert(fired_spec(regs, ready) =~= Seq::<W>::empty());
}

/// The ready ids are exactly those paired, position by position, with a
/// non-zero `revents`; positions past either list (the wakeup pipe's entry)
/// count for nothing.
pub proof fn lemma_ready_ids_meaning(ids: Seq<u64>, revents: Seq<i16>, i: int)
    requires
        0 <= i < ids.len(),
    ensures
        i < revents.len() && revents[i] != 0 ==> ready_ids(ids, revents).contains(ids[i]),
        ids.len() <= revents.len() && (forall|k: int| 0 <= k < ids.len() ==> #[trigger] revents[k] == 0)
            ==> !ready_ids(ids, revents).contains(ids[i]),
{
}

/// Registrations are one-shot: after `poll()` each registration either fired
/// (its waker handed back) or stays, never both; those that stay are exactly
/// the ones whose id was not ready, and every one whose id was not ready stays.
pub proof fn lemma_registrations_fire_once<W>(regs: Seq<Registration<W>>, ready: Set<u64>)
    ensures
        kept_spec(regs, ready).len() + fired_spec(regs, ready).len() == regs.len(),
        forall|k: int| 0 <= k < kept_spec(regs, ready).len()
            ==> !ready.contains(#[trigger] kept_spec(regs, ready)[k].id),
        forall|i: int| 0 <= i < regs.len() && !ready.contains(regs[i].id)
            ==> kept_spec(regs, ready).contains(#[trigger] regs[i]),
    decreases regs.len(),
{
    if regs.len() == 0 {
        lemma_empty_filters::<W>(ready);
    } else {
        let p = regs.drop_last();
        let r = regs.last();
        lemma_registrations_fire_once(p, ready);
        assert(p.push(r) =~= regs);
        lemma_split_push(p, r, ready);
        let kp = kept_spec(p, ready);
        let kr = kept_spec(regs, ready);
        assert forall|i: int| 0 <= i < regs.len() && !ready.contains(regs[i].id) implies kr.contains(
            #[trigger] regs[i],
        ) by {
            if i < p.len() {
                assert(p[i] == regs[i]);
                assert(kp.contains(p[i]));
                let w = choose|w: int| 0 <= w < kp.len() && kp[w] == p[i];
                assert(kr[w] == kp[w]);
            } else {
                assert(kr[kr.len() - 1] == r);
            }
        }
    }
}

/// Every registration gets an id of its own: while ids have not wrapped
/// around, a new registration's id differs from all earlier ones, and all ids
/// stay below the next one to be given out.
pub proof fn lemma_register_gives_fresh_id<W>(regs: Seq<Registration<W>>, next: u64, reg: Registration<W>)
    requires
        forall|k: int| 0 <= k < regs.len() ==> #[trigger] regs[k].id < next,
        next < u64::MAX,
        reg.id == next,
    ensures
        forall|k: int| 0 <= k < regs.len() ==> #[trigger] regs[k].id != reg.id,
        forall|k: int| 0 <= k < regs.push(reg).len() ==> #[trigger] regs.push(reg)[k].id < next_id_spec(next),
{
    assert forall|k: int| 0 <= k < regs.push(reg).len() implies #[trigger] regs.push(reg)[k].id < next_id_spec(next) by {
        if k < regs.len() {
            assert(regs.push(reg)[k] == regs[k]);
        }
    }
}

/// A registration made while the reactor sleeps in `poll()` survives the
/// wake-up that follows: the snapshot handed to `poll()` holds only ids below
/// the next id, so registrations added after it (ids from there on) are not
/// among the ready ones and all stay, in order, behind those kept. (This needs
/// the id counter not to have wrapped, which the reactor's invariant gives.)
pub proof fn lemma_registration_during_poll_survives<W>(
    regs: Seq<Registration<W>>,
    next: u64,
    ids: Seq<u64>,
    revents: Seq<i16>,
    added: Seq<Registration<W>>,
)
    requires
        ids_below(regs, next),
        ids.len() == regs.len(),
        forall|i: int| 0 <= i < regs.len() ==> #[trigger] ids[i] == regs[i].id,
        forall|k: int| 0 <= k < added.len() ==> #[trigger] added[k].id >= next,
    ensures
        kept_spec(regs + added, ready_ids(ids, revents)) == kept_spec(regs, ready_ids(ids, revents)) + added,
    decreases added.len(),
{
    let ready = ready_ids(ids, revents);
    if added.len() == 0 {
        assert(regs + added =~= regs);
        assert(kept_spec(regs, ready) + added =~= kept_spec(regs, ready));
    } else {
        let front = added.drop_last();
        let r = added.last();
        assert forall|k: int| 0 <= k < front.len() implies #[trigger] front[k].id >= next by {
            assert(front[k] == added[k]);
        }
        lemma_registration_during_poll_survives(regs, next, ids, revents, front);
        assert((regs + front).push(r) =~= regs + added);
        lemma_split_push(regs + front, r, ready);
        assert(!ready.contains(r.id)) by {
            if ready.contains(r.id) {
                let i = choose|i: int| 0 <= i < ids.len() && i < revents.len() && ids[i] == r.id && revents[i] != 0;
                assert(regs[i].id < next);
            }
        }
        assert((kept_spec(regs, ready) + front).push(r) =~= kept_spec(regs, ready) + added);
    }
}

} // verus!
