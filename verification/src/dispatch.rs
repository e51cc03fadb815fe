//! Batch planning and outcome folding for one tick.
//!
//! On each tick the dispatcher issues exactly the worker's rate share of
//! sends, each against one target chosen uniformly at random from the pool,
//! and folds the outcomes into counts: individual failures are swallowed
//! here, never propagated.

use vstd::prelude::*;
use crate::address::Address;

verus! {

/// Relies on rand::random::<u64>: one draw from the thread-local generator.
/// Nothing is promised of the value.
#[verifier::external_body]
fn random_u64() -> u64 {
    rand::random()
}

/// Reduces one random draw to an index below `len`.
pub fn select_index(r: u64, len: usize) -> (i: usize)
    requires
        len > 0,
    ensures
        i == r as int % len as int,
        i < len,
{
    (r % (len as u64)) as usize
}

/// Picks one send target from a non-empty pool. The draw is random, so
/// nothing relates two calls: every call returns some element of the pool.
pub fn pick_target(pool: &Vec<Address>) -> (t: Address)
    requires
        pool@.len() > 0,
    ensures
        pool@.contains(t),
{
    let r = random_u64();
    let i = select_index(r, pool.len());
    let t = pool[i];
    proof {
        assert(pool@[i as int] == t);
    }
    t
}

/// Plans one batch: exactly `n` targets, every one an element of the pool.
pub fn plan_batch(pool: &Vec<Address>, n: usize) -> (batch: Vec<Address>)
    requires
        pool@.len() > 0,
    ensures
        batch@.len() == n,
        forall|k: int| 0 <= k < n ==> pool@.contains(#[trigger] batch@[k]),
{
    let mut batch: Vec<Address> = Vec::new();
    let mut i: usize = 0;
    while i < n
        invariant
            pool@.len() > 0,
            i <= n,
            batch@.len() == i,
            forall|k: int| 0 <= k < i ==> pool@.contains(#[trigger] batch@[k]),
        decreases n - i,
    {
        let t = pick_target(pool);
        batch.push(t);
        i = i + 1;
    }
    batch
}

/// Number of failed sends among a batch's outcomes.
pub open spec fn spec_failures(s: Seq<bool>) -> int
    decreases s.len(),
{
    if s.len() == 0 {
        0
    } else {
        spec_failures(s.drop_last()) + if s.last() {
            0int
        } else {
            1int
        }
    }
}

/// Folds a batch's per-send outcomes (`true` = sent) into the one number
/// kept of them: how many failed.
pub fn count_failures(outcomes: &Vec<bool>) -> (failed: usize)
    ensures
        failed == spec_failures(outcomes@),
        failed <= outcomes@.len(),
{
    let mut failed: usize = 0;
    let mut i: usize = 0;
    while i < outcomes.len()
        invariant
            i <= outcomes@.len(),
            failed == spec_failures(outcomes@.take(i as int)),
            failed <= i,
        decreases outcomes@.len() - i,
    {
        proof {
            assert(outcomes@.take(i + 1).drop_last() =~= outcomes@.take(i as int));
            assert(outcomes@.take(i + 1).last() == outcomes@[i as int]);
        }
        if !outcomes[i] {
            failed = failed + 1;
        }
        i = i + 1;
    }
    proof {
        assert(outcomes@.take(outcomes@.len() as int) =~= outcomes@);
    }
    failed
}

} // verus!
