//! Who to wake, and when.
//!
//! The timer list maps each deadline to the wakers of the tasks sleeping
//! until it. It is a `BTreeMap`, which keeps its keys sorted, so the reactor
//! can read the soonest deadline off the front.

use vstd::prelude::*;
use std::collections::BTreeMap;
use vstd::std_specs::btree::spec_keys_iter;
use vstd::std_specs::iter::IteratorSpec;

verus! {

broadcast use {vstd::std_specs::btree::group_btree_axioms, vstd::laws_cmp::group_laws_cmp};

/// The timer list: deadline -> wakers waiting for it, in the order they came.
pub struct Timers<W> {
    wake_times: BTreeMap<u64, Vec<W>>,
}

/// Whether `k` is the soonest deadline of `m`: present, and no later than
/// any other.
pub open spec fn is_soonest<W>(m: Map<u64, Seq<W>>, k: u64) -> bool {
    m.contains_key(k) && forall|j: u64| m.contains_key(j) ==> k <= j
}

/// The soonest deadline of `m` (meaningful when `m` is not empty).
pub open spec fn soonest<W>(m: Map<u64, Seq<W>>) -> u64 {
    choose|k: u64| is_soonest(m, k)
}

/// Whether any timer is set.
pub open spec fn has_timers<W>(m: Map<u64, Seq<W>>) -> bool {
    exists|k: u64| m.contains_key(k)
}

/// The list after a waker `w` asks to be woken at `d`: appended to the
/// wakers already waiting for `d`, if any.
pub open spec fn timers_register_spec<W>(m: Map<u64, Seq<W>>, d: u64, w: W) -> Map<u64, Seq<W>> {
    if m.contains_key(d) {
        m.insert(d, m[d].push(w))
    } else {
        m.insert(d, seq![w])
    }
}

/// The list after taking the soonest deadline if it is due at `now`, and the
/// wakers taken.
pub open spec fn timers_pop_due_spec<W>(m: Map<u64, Seq<W>>, now: u64) -> (Map<u64, Seq<W>>, Option<Seq<W>>) {
    if has_timers(m) && soonest(m) <= now {
        (m.remove(soonest(m)), Some(m[soonest(m)]))
    } else {
        (m, None)
    }
}

/// How long the reactor may sleep at `now`, in milliseconds: until the
/// soonest deadline, rounded up to a whole millisecond after dropping the
/// part below a microsecond, capped at `i32::MAX`; `-1` (no limit) when no
/// timer is set.
pub open spec fn timeout_ms_spec<W>(m: Map<u64, Seq<W>>, now: u64) -> int {
    if !has_timers(m) {
        -1
    } else {
        let next = soonest(m);
        let remaining: int = if next > now { next - now } else { 0 };
        let micros: int = remaining / 1000;
        let ms: int = (micros + 999) / 1000;
        if ms > i32::MAX {
            i32::MAX as int
        } else {
            ms
        }
    }
}

/// A soonest deadline, once found, is the soonest deadline.
proof fn lemma_soonest_unique<W>(m: Map<u64, Seq<W>>, k: u64)
    requires
        is_soonest(m, k),
    ensures
        has_timers(m),
        soonest(m) == k,
        is_soonest(m, soonest(m)),
{
    assert(m.contains_key(k));
    let c = soonest(m);
    assert(is_soonest(m, c));
    assert(c <= k && k <= c);
}

/// A finite, non-empty list has a soonest deadline.
proof fn lemma_soonest_exists<W>(m: Map<u64, Seq<W>>)
    requires
        m.dom().finite(),
        has_timers(m),
    ensures
        is_soonest(m, soonest(m)),
    decreases m.dom().len(),
{
    let k = choose|k: u64| m.contains_key(k);
    let rest = m.remove(k);
    if has_timers(rest) {
        assert(rest.dom() =~= m.dom().remove(k));
        lemma_soonest_exists(rest);
        let r = soonest(rest);
        if k < r {
            assert(is_soonest(m, k));
            lemma_soonest_unique(m, k);
        } else {
            assert(is_soonest(m, r));
            lemma_soonest_unique(m, r);
        }
    } else {
        assert forall|j: u64| m.contains_key(j) implies k <= j by {
            if j != k {
                assert(rest.contains_key(j));
            }
        }
        lemma_soonest_unique(m, k);
    }
}

impl<W> Timers<W> {
    /// The list as a map from deadline to the wakers waiting for it.
    pub closed spec fn wake_times(&self) -> Map<u64, Seq<W>> {
        self.wake_times@.map_values(|v: Vec<W>| v@)
    }

    /// An empty timer list.
    pub fn new() -> (t: Self)
        ensures
            t.wake_times() == Map::<u64, Seq<W>>::empty(),
    {
        let t = Timers { wake_times: BTreeMap::new() };
        assert(t.wake_times() =~= Map::<u64, Seq<W>>::empty());
        t
    }

    /// The soonest deadline, read off the front of the sorted keys.
    fn soonest_key(&self) -> (r: Option<u64>)
        ensures
            r is None ==> !has_timers(self.wake_times()),
            r is Some ==> is_soonest(self.wake_times(), r->0),
            self.wake_times().dom().finite(),
    {
        proof {
            assert(vstd::laws_cmp::obeys_cmp::<u64>());
            assert(vstd::laws_cmp::obeys_cmp::<&u64>());
            vstd::std_specs::btree::axiom_spec_keys_iter(&self.wake_times);
        }
        let ghost m = self.wake_times@;
        let ghost ks = spec_keys_iter(&self.wake_times).remaining();
        let mut first: Option<u64> = None;
        for k in it: self.wake_times.keys()
            invariant_except_break
                first is None,
                it.index() == 0,
            invariant
                it.seq() == ks,
            ensures
                first is None ==> ks.len() == 0,
                first is Some ==> ks.len() > 0 && &first->0 == ks[0],
        {
            first = Some(*k);
            break;
        }
        proof {
            let v = self.wake_times();
            assert(ks.unref().to_set() == m.dom());
            assert(v.dom() =~= m.dom());
            if first is None {
                if has_timers(v) {
                    let k = choose|k: u64| v.contains_key(k);
                    assert(ks.unref().to_set().contains(k));
                }
            } else {
                let k0 = first->0;
                assert(ks.unref()[0] == k0);
                assert(ks.unref().to_set().contains(k0));
                assert(vstd::std_specs::btree::increasing_seq(ks));
                vstd::std_specs::btree::axiom_increasing_seq_meaning(ks);
                assert forall|k: u64| v.contains_key(k) implies k0 <= k by {
                    assert(ks.unref().to_set().contains(k));
                    let j = choose|j: int| 0 <= j < ks.unref().len() && ks.unref()[j] == k;
                    assert(ks.unref().len() == ks.len());
                    assert(ks.unref()[j] == *ks[j]);
                    if j > 0 {
                        assert(vstd::std_specs::cmp::OrdSpec::cmp_spec(&ks[0], &ks[j]) is Less);
                    }
                }
            }
        }
        first
    }

    /// Ask for `waker` to be woken once the clock reaches `deadline`.
    pub fn register(&mut self, deadline: u64, waker: W)
        ensures
            final(self).wake_times() == timers_register_spec(old(self).wake_times(), deadline, waker),
    {
        proof {
            assert(vstd::laws_cmp::obeys_cmp::<u64>());
        }
        let ghost old_v = self.wake_times();
        match self.wake_times.remove(&deadline) {
            Some(mut wakers) => {
                wakers.push(waker);
                self.wake_times.insert(deadline, wakers);
            },
            None => {
                let mut wakers = Vec::new();
                wakers.push(waker);
                self.wake_times.insert(deadline, wakers);
            },
        }
        assert(self.wake_times() =~= timers_register_spec(old_v, deadline, waker));
    }

    /// Take the soonest deadline's wakers if it has passed at `now`. The
    /// reactor calls this in a loop, reading the clock anew each time, until
    /// it answers `None`.
    pub fn pop_due(&mut self, now: u64) -> (due: Option<Vec<W>>)
        ensures
            old(self).wake_times().dom().finite(),
            ({
                let (rest, taken) = timers_pop_due_spec(old(self).wake_times(), now);
                &&& final(self).wake_times() == rest
                &&& match due {
                    Some(v) => taken == Some(v@),
                    None => taken is None,
                }
            }),
    {
        proof {
            assert(vstd::laws_cmp::obeys_cmp::<u64>());
        }
        let ghost old_v = self.wake_times();
        match self.soonest_key() {
            Some(k) => {
                proof {
                    lemma_soonest_unique(old_v, k);
                }
                if k <= now {
                    let due = self.wake_times.remove(&k);
                    assert(self.wake_times() =~= old_v.remove(k));
                    due
                } else {
                    None
                }
            },
            None => None,
        }
    }

    /// How long the reactor may sleep at `now`; see [`timeout_ms_spec`].
    pub fn timeout_ms(&self, now: u64) -> (ms: i32)
        ensures
            ms as int == timeout_ms_spec(self.wake_times(), now),
    {
        let next = match self.soonest_key() {
            None => return -1,
            Some(k) => k,
        };
        proof {
            lemma_soonest_unique(self.wake_times(), next);
        }
        let remaining: u64 = if next > now { next - now } else { 0 };
        let micros: u64 = remaining / 1000;
        let ms: u64 = micros / 1000 + if micros % 1000 == 0 { 0 } else { 1 };
        assert(ms as int == (micros + 999) / 1000) by (nonlinear_arith)
            requires ms == micros / 1000 + if micros % 1000 == 0 { 0u64 } else { 1u64 };
        if ms > 2147483647 {
            i32::MAX
        } else {
            ms as i32
        }
    }
}

/// Due timers come out soonest first: the deadline taken is sooner than
/// every deadline left behind.
pub proof fn lemma_due_timers_in_deadline_order<W>(m: Map<u64, Seq<W>>, now: u64)
    requires
        m.dom().finite(),
        timers_pop_due_spec(m, now).1 is Some,
    ensures
        soonest(m) <= now,
        forall|k: u64| #[trigger] timers_pop_due_spec(m, now).0.contains_key(k) ==> soonest(m) < k,
{
    lemma_soonest_exists(m);
}

/// When nothing is taken, nothing is due: every deadline is after `now`.
pub proof fn lemma_nothing_due_when_none_taken<W>(m: Map<u64, Seq<W>>, now: u64)
    requires
        m.dom().finite(),
        timers_pop_due_spec(m, now).1 is None,
    ensures
        forall|k: u64| #[trigger] m.contains_key(k) ==> k > now,
{
    if has_timers(m) {
        lemma_soonest_exists(m);
    }
}

/// A registered waker is kept until its deadline: it sits last among the
/// wakers for its deadline, and no other deadline changes.
pub proof fn lemma_registered_waker_waits_for_deadline<W>(m: Map<u64, Seq<W>>, d: u64, w: W)
    ensures
        ({
            let r = timers_register_spec(m, d, w);
            let before: Seq<W> = if m.contains_key(d) { m[d] } else { Seq::empty() };
            &&& r.contains_key(d)
            &&& r[d].len() == before.len() + 1
            &&& r[d].take(before.len() as int) == before
            &&& r[d].last() == w
            &&& forall|k: u64| k != d ==> (#[trigger] r.contains_key(k) == m.contains_key(k)) && (m.contains_key(k) ==> r[k] == m[k])
        }),
{
    let r = timers_register_spec(m, d, w);
    if m.contains_key(d) {
        assert(r[d].take(m[d].len() as int) =~= m[d]);
    } else {
        assert(r[d].take(0) =~= Seq::<W>::empty());
    }
}

/// Sleepers that register for the same deadline are all kept, in the order
/// they came: registering `w1`, then `w2`, then `w3` for a deadline nobody
/// waited for leaves exactly `[w1, w2, w3]` there.
pub proof fn lemma_same_deadline_keeps_every_sleeper<W>(m: Map<u64, Seq<W>>, d: u64, w1: W, w2: W, w3: W)
    requires
        !m.contains_key(d),
    ensures
        ({
            let r = timers_register_spec(
                timers_register_spec(timers_register_spec(m, d, w1), d, w2),
                d,
                w3,
            );
            r[d] == seq![w1, w2, w3]
        }),
{
    let r1 = timers_register_spec(m, d, w1);
    let r2 = timers_register_spec(r1, d, w2);
    let r3 = timers_register_spec(r2, d, w3);
    assert(r1[d] =~= seq![w1]);
    assert(r2[d] =~= seq![w1, w2]);
    assert(r3[d] =~= seq![w1, w2, w3]);
}

/// Taking due timers loses no waker: after a take, every deadline that was
/// set is either still there with exactly the wakers it had, or it is the one
/// deadline taken, and then every waker stored at it comes out, in the order
/// stored, and that deadline is gone.
pub proof fn lemma_pop_due_loses_no_waker<W>(m: Map<u64, Seq<W>>, now: u64)
    requires
        m.dom().finite(),
    ensures
        ({
            let (rest, taken) = timers_pop_due_spec(m, now);
            &&& forall|k: u64| #[trigger] rest.contains_key(k) ==> m.contains_key(k) && rest[k] == m[k]
            &&& forall|k: u64| #[trigger] m.contains_key(k) && !rest.contains_key(k)
                ==> taken == Some(m[k]) && k <= now && forall|j: u64| m.contains_key(j) ==> k <= j
            &&& taken is None ==> rest == m
            &&& taken is Some ==> rest.dom().len() + 1 == m.dom().len()
        }),
{
    if has_timers(m) {
        lemma_soonest_exists(m);
        let (rest, taken) = timers_pop_due_spec(m, now);
        if taken is Some {
            assert(rest.dom() =~= m.dom().remove(soonest(m)));
        }
    }
}

/// A sleeper is woken once its deadline has passed: after a waker registers
/// for `d`, each take at a moment `now` from `d` on takes something, and
/// either it takes the deadline `d` itself, with the waker last, or a sooner
/// deadline, leaving `d` with its waker for a later take (the list shrinks
/// with every take, so `d` is reached).
pub proof fn lemma_due_sleeper_is_woken<W>(m: Map<u64, Seq<W>>, d: u64, w: W, now: u64)
    requires
        m.dom().finite(),
        d <= now,
    ensures
        ({
            let r = timers_register_spec(m, d, w);
            let (rest, taken) = timers_pop_due_spec(r, now);
            &&& taken is Some
            &&& rest.dom().len() + 1 == r.dom().len()
            &&& soonest(r) == d ==> taken->0.last() == w
            &&& soonest(r) != d ==> soonest(r) < d && rest.contains_key(d) && rest[d] == r[d] && rest[d].last() == w
        }),
{
    let r = timers_register_spec(m, d, w);
    assert(r.dom() =~= m.dom().insert(d));
    assert(r.contains_key(d));
    lemma_soonest_exists(r);
    assert(r.remove(soonest(r)).dom() =~= r.dom().remove(soonest(r)));
}

/// The wait is the least whole number of milliseconds that covers the whole
/// microseconds left until the soonest deadline, capped at `i32::MAX` only
/// when that number does not fit; it is 0 once the deadline has passed and
/// -1 (no limit) with no timer set.
pub proof fn lemma_timeout_is_least_cover<W>(m: Map<u64, Seq<W>>, now: u64)
    ensures
        !has_timers(m) ==> timeout_ms_spec(m, now) == -1,
        has_timers(m) && soonest(m) <= now ==> timeout_ms_spec(m, now) == 0,
        has_timers(m) && soonest(m) > now ==> ({
            let t = timeout_ms_spec(m, now);
            let micros: int = (soonest(m) - now) / 1000;
            &&& 0 <= t <= i32::MAX
            &&& t < i32::MAX ==> t * 1000 >= micros && (t == 0 || (t - 1) * 1000 < micros)
            &&& t == i32::MAX ==> (i32::MAX - 1) * 1000 < micros
            &&& micros <= i32::MAX * 1000 ==> t * 1000 >= micros && (t == 0 || (t - 1) * 1000 < micros)
        }),
{
    if has_timers(m) && soonest(m) > now {
        let rem: int = soonest(m) - now;
        let micros: int = rem / 1000;
        let ms: int = (micros + 999) / 1000;
        assert(ms * 1000 >= micros && (ms == 0 || (ms - 1) * 1000 < micros) && ms >= 0) by (nonlinear_arith)
            requires
                micros >= 0,
                ms == (micros + 999) / 1000;
        assert(micros <= i32::MAX * 1000 ==> ms <= i32::MAX) by (nonlinear_arith)
            requires
                micros >= 0,
                ms == (micros + 999) / 1000;
    }
}

/// The reactor never spins on a pending timer: a deadline at least a
/// microsecond away gives a wait of at least one millisecond.
pub proof fn lemma_timeout_never_spins<W>(m: Map<u64, Seq<W>>, now: u64)
    requires
        has_timers(m),
        soonest(m) >= now + 1000,
    ensures
        timeout_ms_spec(m, now) >= 1,
{
}

/// The wait never overshoots the soonest deadline by a millisecond or more,
/// and never falls short of it by a microsecond or more (unless capped).
pub proof fn lemma_timeout_is_tight<W>(m: Map<u64, Seq<W>>, now: u64)
    requires
        has_timers(m),
        soonest(m) > now,
        timeout_ms_spec(m, now) < i32::MAX,
    ensures
        timeout_ms_spec(m, now) * 1_000_000 < (soonest(m) - now) + 1_000_000,
        timeout_ms_spec(m, now) * 1_000_000 + 1000 > (soonest(m) - now),
{
    let rem: int = soonest(m) - now;
    let micros: int = rem / 1000;
    let ms: int = (micros + 999) / 1000;
    assert(ms * 1_000_000 < rem + 1_000_000 && ms * 1_000_000 + 1000 > rem) by (nonlinear_arith)
        requires
            rem > 0,
            micros == rem / 1000,
            ms == (micros + 999) / 1000;
}

} // verus!
