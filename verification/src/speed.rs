use vstd::prelude::*;
use std::collections::VecDeque;
use crate::clock::{now_millis, whole_secs_between};

verus! {

/// Samples older than this many whole seconds leave the window.
pub const SPEED_WINDOW_SECS: u64 = 5;

/// A sample is stale at `now` when more than the window lies between them.
pub open spec fn is_stale(sample_ms: u64, now: u64) -> bool {
    whole_secs_between(sample_ms, now) > SPEED_WINDOW_SECS
}

/// Drops stale samples from the front of the history, stopping at the first
/// fresh one.
pub open spec fn prune_front(h: Seq<(u64, u64)>, now: u64) -> Seq<(u64, u64)>
    decreases h.len(),
{
    if h.len() > 0 && is_stale(h[0].0, now) {
        prune_front(h.drop_first(), now)
    } else {
        h
    }
}

/// The samples of `h` that are not stale at `now`, in order.
pub open spec fn fresh_samples(h: Seq<(u64, u64)>, now: u64) -> Seq<(u64, u64)>
    decreases h.len(),
{
    if h.len() == 0 {
        Seq::empty()
    } else if is_stale(h.last().0, now) {
        fresh_samples(h.drop_last(), now)
    } else {
        fresh_samples(h.drop_last(), now).push(h.last())
    }
}

/// Sum of the byte counts of a list of samples.
pub open spec fn total_bytes(h: Seq<(u64, u64)>) -> int
    decreases h.len(),
{
    if h.len() == 0 { 0 } else { total_bytes(h.drop_last()) + h.last().1 }
}

/// Rolling record of transferred byte counts, each stamped with the
/// millisecond at which it was recorded.
pub struct SpeedMonitor {
    pub history: VecDeque<(u64, u64)>,
}

/// What the window holds at one moment: how many fresh samples, their byte
/// total, and the stamps of the first and last of them.
pub struct SpeedWindow {
    pub samples: usize,
    pub total_bytes: u128,
    pub first_ms: u64,
    pub last_ms: u64,
}

impl SpeedMonitor {
    /// An empty monitor.
    pub fn new() -> (m: Self)
        ensures
            m.history@ == Seq::<(u64, u64)>::empty(),
    {
        SpeedMonitor { history: VecDeque::new() }
    }

    /// Records `bytes` at the current time of the system clock and drops the
    /// stale samples at the front of the history; `add_at` takes the time
    /// from the caller.
    pub fn add(&mut self, bytes: u64)
        ensures
            exists|now: u64|
                final(self).history@ == prune_front(#[trigger] old(self).history@.push((now, bytes)), now),
    {
        let now = now_millis();
        self.add_at(now, bytes);
    }

    /// Records `bytes` at `now` and drops the stale samples at the front of the
    /// history, stopping at the first fresh one.
    pub fn add_at(&mut self, now: u64, bytes: u64)
        ensures
            final(self).history@ == prune_front(old(self).history@.push((now, bytes)), now),
    {
        self.history.push_back((now, bytes));
        let ghost pushed = self.history@;
        loop
            invariant
                prune_front(pushed, now) == prune_front(self.history@, now),
            ensures
                prune_front(pushed, now) == self.history@,
            decreases self.history@.len(),
        {
            if self.history.len() == 0 {
                break;
            }
            let t = self.history[0].0;
            if t <= now && (now - t) / 1000 > SPEED_WINDOW_SECS {
                let ghost before = self.history@;
                let _ = self.history.pop_front();
                assert(self.history@ =~= before.drop_first());
            } else {
                break;
            }
        }
    }

    /// The fresh samples at `now`: their count, byte total and the stamps of
    /// the first and last of them (zero when there are none).
    pub fn window(&self, now: u64) -> (w: SpeedWindow)
        ensures
            w.samples == fresh_samples(self.history@, now).len(),
            w.total_bytes == total_bytes(fresh_samples(self.history@, now)),
            w.samples > 0 ==> w.first_ms == fresh_samples(self.history@, now)[0].0,
            w.samples > 0 ==> w.last_ms == fresh_samples(self.history@, now).last().0,
            w.samples == 0 ==> w.first_ms == 0 && w.last_ms == 0,
    {
        let n = self.history.len();
        let mut samples: usize = 0;
        let mut total: u128 = 0;
        let mut first_ms: u64 = 0;
        let mut last_ms: u64 = 0;
        let mut i: usize = 0;
        while i < n
            invariant
                n == self.history@.len(),
                i <= n,
                samples == fresh_samples(self.history@.take(i as int), now).len(),
                total == total_bytes(fresh_samples(self.history@.take(i as int), now)),
                samples <= i,
                total <= i * 0xffff_ffff_ffff_ffffu64,
                samples > 0 ==> first_ms == fresh_samples(self.history@.take(i as int), now)[0].0,
                samples > 0 ==> last_ms == fresh_samples(self.history@.take(i as int), now).last().0,
                samples == 0 ==> first_ms == 0 && last_ms == 0,
            decreases n - i,
        {
            let (t, b) = self.history[i];
            let ghost h = self.history@;
            assert(h.take(i + 1).drop_last() =~= h.take(i as int));
            assert(h.take(i + 1).last() == h[i as int]);
            let stale = t <= now && (now - t) / 1000 > SPEED_WINDOW_SECS;
            if !stale {
                assert(total + b <= (i + 1) * 0xffff_ffff_ffff_ffffu64) by (nonlinear_arith)
                    requires total <= i * 0xffff_ffff_ffff_ffffu64, b <= 0xffff_ffff_ffff_ffffu64;
                assert((i + 1) * 0xffff_ffff_ffff_ffffu64 <= 0xffff_ffff_ffff_ffffu64 * 0xffff_ffff_ffff_ffffu64) by (nonlinear_arith)
                    requires i < 0xffff_ffff_ffff_ffffu64;
                if samples == 0 {
                    first_ms = t;
                }
                let ghost prev = fresh_samples(h.take(i as int), now);
                assert(prev.push(h[i as int]).drop_last() =~= prev);
                samples = samples + 1;
                total = total + b as u128;
                last_ms = t;
            } else {
                assert(total <= (i + 1) * 0xffff_ffff_ffff_ffffu64) by (nonlinear_arith)
                    requires total <= i * 0xffff_ffff_ffff_ffffu64;
            }
            i = i + 1;
        }
        assert(self.history@.take(n as int) =~= self.history@);
        SpeedWindow { samples, total_bytes: total, first_ms, last_ms }
    }
}

} // verus!

verus! {

proof fn lemma_prune_front_suffix(h: Seq<(u64, u64)>, now: u64)
    ensures
        prune_front(h, now).len() <= h.len(),
        forall|k: int| 0 <= k < prune_front(h, now).len() ==> #[trigger] prune_front(h, now)[k] == h[h.len() - prune_front(h, now).len() + k],
    decreases h.len(),
{
    if h.len() > 0 && is_stale(h[0].0, now) {
        lemma_prune_front_suffix(h.drop_first(), now);
    }
}

/// Law of the speed window: recording a sample never drops that sample and
/// grows the history by at most one; the recorded sample is the newest one.
pub proof fn lemma_add_keeps_new_sample(h: Seq<(u64, u64)>, now: u64, bytes: u64)
    ensures
        prune_front(h.push((now, bytes)), now).len() >= 1,
        prune_front(h.push((now, bytes)), now).len() <= h.len() + 1,
        prune_front(h.push((now, bytes)), now).last() == (now, bytes),
{
    let p = h.push((now, bytes));
    lemma_prune_front_suffix(p, now);
    lemma_prune_keeps_fresh_last(p, now);
}

proof fn lemma_prune_keeps_fresh_last(h: Seq<(u64, u64)>, now: u64)
    requires
        h.len() > 0,
        !is_stale(h.last().0, now),
    ensures
        prune_front(h, now).len() >= 1,
        prune_front(h, now).last() == h.last(),
    decreases h.len(),
{
    if is_stale(h[0].0, now) {
        assert(h.len() > 1);
        assert(h.drop_first().last() == h.last());
        lemma_prune_keeps_fresh_last(h.drop_first(), now);
    }
}

} // verus!
