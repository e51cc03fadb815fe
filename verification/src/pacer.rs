//! Fixed-interval pacing with a skip policy for missed ticks.
//!
//! Instants are plain integers in an arbitrary unit (the caller's clock,
//! e.g. milliseconds). The pacer retains nothing but the period and the
//! next scheduled instant. When the consumer falls behind, missed instants
//! are skipped and the schedule realigns to the next boundary strictly in
//! the future; delayed ticks are never replayed back-to-back.

use vstd::prelude::*;

verus! {

pub struct Pacer {
    /// Length of one tick interval; always positive.
    pub period: u64,
    /// The next scheduled tick instant.
    pub next: u64,
}

/// The instant at which a tick consumed at time `now` fires: the scheduled
/// instant when the consumer is on time (it sleeps until then), or `now`
/// itself when the schedule was already missed.
pub open spec fn spec_fire(p: Pacer, now: u64) -> u64 {
    if now < p.next {
        p.next
    } else {
        now
    }
}

/// The pacer state after consuming a tick at time `now`: on time, the
/// schedule advances one period; late, the missed boundaries are skipped
/// and the deadline becomes the first boundary of the original schedule
/// strictly after `now`.
pub open spec fn spec_after(p: Pacer, now: u64) -> Pacer {
    if now < p.next {
        Pacer { period: p.period, next: (p.next + p.period) as u64 }
    } else {
        Pacer {
            period: p.period,
            next: (now + p.period - (now - p.next) % (p.period as int)) as u64,
        }
    }
}

impl Pacer {
    pub open spec fn wf(self) -> bool {
        self.period > 0
    }

    /// A pacer whose first tick is one period after `start`.
    pub fn new(period: u64, start: u64) -> (p: Pacer)
        requires
            period > 0,
            start + period <= u64::MAX,
        ensures
            p.wf(),
            p.period == period,
            p.next == start + period,
    {
        Pacer { period, next: start + period }
    }

    /// Consumes one tick at current time `now` and returns the instant it
    /// fires. The following deadline is strictly after the fire instant, at
    /// most one period away, and congruent to the old deadline modulo the
    /// period: the original schedule is kept, missed instants are skipped.
    pub fn tick(&mut self, now: u64) -> (fired: u64)
        requires
            old(self).wf(),
            now + old(self).period <= u64::MAX,
            old(self).next + old(self).period <= u64::MAX,
        ensures
            final(self).wf(),
            fired == spec_fire(*old(self), now),
            *final(self) == spec_after(*old(self), now),
            final(self).period == old(self).period,
            final(self).next > fired,
            final(self).next <= fired + old(self).period,
            final(self).next % old(self).period == old(self).next % old(self).period,
    {
        let period = self.period;
        if now < self.next {
            let fired = self.next;
            self.next = self.next + period;
            proof {
                lemma_step_congruent(*old(self), now);
            }
            fired
        } else {
            let missed = (now - self.next) % period;
            self.next = now + (period - missed);
            proof {
                lemma_step_congruent(*old(self), now);
            }
            now
        }
    }
}

/// One pacing step keeps the schedule: the new deadline is congruent to the
/// old one modulo the period, strictly after the fire instant, and at most
/// one period after it.
pub proof fn lemma_step_congruent(p: Pacer, now: u64)
    requires
        p.wf(),
        now + p.period <= u64::MAX,
        p.next + p.period <= u64::MAX,
    ensures
        spec_after(p, now).next % p.period == p.next % p.period,
        spec_after(p, now).next > spec_fire(p, now),
        spec_after(p, now).next <= spec_fire(p, now) + p.period,
{
    let per = p.period as int;
    let n0 = p.next as int;
    let t = now as int;
    if now < p.next {
        vstd::arithmetic::div_mod::lemma_mod_multiples_vanish(1, n0, per);
        assert((per * 1 + n0) % per == n0 % per);
    } else {
        let d = t - n0;
        vstd::arithmetic::div_mod::lemma_fundamental_div_mod(d, per);
        vstd::arithmetic::div_mod::lemma_mod_bound(d, per);
        let q = d / per;
        let missed = d % per;
        assert(per * (q + 1) == per * q + per) by (nonlinear_arith);
        assert(t + per - missed == n0 + per * (q + 1));
        vstd::arithmetic::div_mod::lemma_mod_multiples_vanish(q + 1, n0, per);
    }
}

/// The pacer never fires twice at one instant: whatever delay the consumer
/// incurs between two ticks, the second tick fires strictly after the
/// first. A consumer that overruns a period sees at most one immediate
/// (late) tick, and the tick after that waits for a strictly later boundary.
pub proof fn lemma_no_simultaneous_ticks(p: Pacer, now1: u64, now2: u64)
    requires
        p.wf(),
        now1 + p.period <= u64::MAX,
        p.next + p.period <= u64::MAX,
    ensures
        spec_fire(spec_after(p, now1), now2) > spec_fire(p, now1),
{
    lemma_step_congruent(p, now1);
}

} // verus!
