//! One worker: a pacer-driven run loop bound to a deadline, with counters.

use vstd::prelude::*;
use crate::address::Address;

verus! {

/// How often (in completed batches) a progress observation is surfaced.
pub const PROGRESS_EVERY: usize = 60;

/// Aggregate counters owned by exactly one worker. Per-send outcomes are
/// never retained individually; they are folded into these counts once per
/// batch.
pub struct Stats {
    pub total_requests: usize,
    pub batches_sent: usize,
    /// The instant the run loop started, once it has.
    pub start_time: Option<u64>,
}

impl Default for Stats {
    /// Fresh counters: nothing sent, run not started.
    fn default() -> (s: Stats)
        ensures
            s.total_requests == 0,
            s.batches_sent == 0,
            s.start_time is None,
    {
        Stats { total_requests: 0, batches_sent: 0, start_time: None }
    }
}

/// The run-loop phase: a worker is idle until its loop starts, running
/// while it consumes ticks, and completed the moment its elapsed time
/// reaches the configured duration.
#[derive(Clone, Copy, PartialEq, Eq, Structural, Debug)]
pub enum Phase {
    Idle,
    Running,
    Completed,
}

/// One worker, owning its target pool view and its counters.
pub struct PingWorker {
    pub targets: Vec<Address>,
    pub stats: Stats,
    pub phase: Phase,
}

impl PingWorker {
    /// The target pool is non-empty before any worker starts, and the
    /// counters never run ahead of what was recorded.
    pub open spec fn wf(self) -> bool {
        self.targets@.len() > 0
    }

    /// An idle worker over a non-empty pool, with zeroed counters.
    pub fn new(targets: Vec<Address>) -> (w: PingWorker)
        requires
            targets@.len() > 0,
        ensures
            w.wf(),
            w.targets == targets,
            w.stats.total_requests == 0,
            w.stats.batches_sent == 0,
            w.stats.start_time is None,
            w.phase == Phase::Idle,
    {
        PingWorker { targets, stats: Stats::default(), phase: Phase::Idle }
    }

    /// Starts the run loop at instant `now`: Idle -> Running, recording the
    /// start instant; counters and pool are untouched.
    pub fn begin_run(&mut self, now: u64)
        requires
            old(self).wf(),
            old(self).phase == Phase::Idle,
        ensures
            final(self).wf(),
            final(self).phase == Phase::Running,
            final(self).stats.start_time == Some(now),
            final(self).stats.total_requests == old(self).stats.total_requests,
            final(self).stats.batches_sent == old(self).stats.batches_sent,
            final(self).targets == old(self).targets,
    {
        self.stats.start_time = Some(now);
        self.phase = Phase::Running;
    }

    /// The deadline check between batches, the only cancellation trigger:
    /// a new batch may be dispatched exactly while the elapsed time is
    /// still below `duration`. The instant elapsed time reaches the
    /// duration the worker completes, consuming no further tick; nothing
    /// else changes, so a batch already in flight is left to finish.
    pub fn on_tick(&mut self, now: u64, duration: u64) -> (go: bool)
        requires
            old(self).wf(),
            old(self).phase == Phase::Running,
            (old(self).stats.start_time matches Some(st) && st <= now),
        ensures
            final(self).wf(),
            go == (now - old(self).stats.start_time->Some_0 < duration),
            go ==> *final(self) == *old(self),
            !go ==> *final(self) == (PingWorker { phase: Phase::Completed, ..*old(self) }),
            final(self).stats == old(self).stats,
            final(self).targets == old(self).targets,
    {
        let st = match self.stats.start_time {
            Some(st) => st,
            None => 0,  // unreachable under the precondition
        };
        if now - st < duration {
            true
        } else {
            self.phase = Phase::Completed;
            false
        }
    }

    /// Commits one completed batch of `n` sends into the counters, once per
    /// batch. Returns whether this batch is a progress boundary (every
    /// `PROGRESS_EVERY` completed batches): the caller then surfaces a
    /// best-effort progress observation.
    pub fn record_batch(&mut self, n: usize) -> (report: bool)
        requires
            old(self).wf(),
            old(self).phase == Phase::Running,
            old(self).stats.total_requests + n <= usize::MAX,
            old(self).stats.batches_sent + 1 <= usize::MAX,
        ensures
            final(self).wf(),
            final(self).stats.total_requests == old(self).stats.total_requests + n,
            final(self).stats.batches_sent == old(self).stats.batches_sent + 1,
            final(self).stats.start_time == old(self).stats.start_time,
            final(self).phase == old(self).phase,
            final(self).targets == old(self).targets,
            report == (final(self).stats.batches_sent % PROGRESS_EVERY == 0),
    {
        self.stats.total_requests = self.stats.total_requests + n;
        self.stats.batches_sent = self.stats.batches_sent + 1;
        self.stats.batches_sent % PROGRESS_EVERY == 0
    }
}

} // verus!
