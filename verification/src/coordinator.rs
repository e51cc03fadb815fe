//! Sizing of the worker pool and partition of the global request rate.

use vstd::prelude::*;

verus! {

/// Number of workers for a machine offering `parallelism` cores: the core
/// count clamped to the inclusive range 1..=16.
pub open spec fn spec_worker_count(parallelism: usize) -> usize {
    if parallelism < 1 {
        1usize
    } else if parallelism > 16 {
        16usize
    } else {
        parallelism
    }
}

pub fn worker_count(parallelism: usize) -> (n: usize)
    ensures
        n == spec_worker_count(parallelism),
        1 <= n <= 16,
{
    if parallelism < 1 {
        1
    } else if parallelism > 16 {
        16
    } else {
        parallelism
    }
}

/// One worker's share of the global requests-per-second budget: floor
/// division, so the remainder (less than `workers` requests per second) is
/// dropped and the aggregate achieved rate never exceeds the request.
pub fn rate_share(global_rps: usize, workers: usize) -> (share: usize)
    requires
        workers >= 1,
    ensures
        share == global_rps as int / workers as int,
        share * workers <= global_rps,
        global_rps - share * workers < workers,
{
    let share: usize = global_rps / workers;
    proof {
        let g = global_rps as int;
        let w = workers as int;
        vstd::arithmetic::div_mod::lemma_fundamental_div_mod(g, w);
        vstd::arithmetic::div_mod::lemma_mod_bound(g, w);
        assert(g == w * (g / w) + g % w);
        assert(w * (g / w) == (g / w) * w) by (nonlinear_arith);
        assert(share * w == (g / w) * w);
    }
    share
}

} // verus!
