//! Exponentially smoothed throughput estimator.
//!
//! Records per-batch totals and keeps a smoothed nodes-per-second estimate,
//! from which a minimum queue-backlog threshold for slow clients is derived.

use vstd::prelude::*;
use vstd::arithmetic::div_mod::lemma_div_is_ordered;
use vstd::arithmetic::div_mod::lemma_div_is_ordered_by_denominator;

verus! {

/// Initial smoothed estimate: deliberately low, so a fresh client
/// under-advertises its speed rather than over-advertising it.
pub const INITIAL_NPS: u32 = 1_500_000;

/// Node budget of an average batch position.
pub const DEFAULT_NODES: u64 = 4_000_000;

/// Saturating addition on `u64`, as a mathematical function.
pub open spec fn sat_add_u64(a: u64, b: u64) -> u64 {
    if a + b > u64::MAX {
        u64::MAX
    } else {
        (a + b) as u64
    }
}

/// The smoothed estimate after one observation: a 4:1 weighted mean of the
/// old estimate and the new observation, clamped to at least 1.
pub open spec fn spec_smooth(old_nps: u32, new_nps: u32) -> u32 {
    let mean = (4 * old_nps + new_nps) / 5;
    if mean < 1 {
        1u32
    } else {
        mean as u32
    }
}

/// Estimated seconds this client needs for an average batch
/// (60 positions at the default node budget), capped at a 6 minute timeout.
pub open spec fn spec_estimated_batch_seconds(nps: u32) -> u64
    recommends
        nps >= 1,
{
    let est = (60 * DEFAULT_NODES) as int / nps as int;
    if est > 360 {
        360u64
    } else {
        est as u64
    }
}

/// Minimum backlog (milliseconds) this client should demand before it
/// accepts work: the estimated batch time minus the time a top-tier
/// client needs, and zero for clients at least that fast.
pub open spec fn spec_min_user_backlog_ms(nps: u32) -> u64
    recommends
        nps >= 1,
{
    let est = spec_estimated_batch_seconds(nps);
    if est > 60 {
        ((est - 60) * 1000) as u64
    } else {
        0u64
    }
}

/// Cumulative work counters and the smoothed nodes-per-second estimate.
#[derive(Clone, Copy, Debug)]
pub struct StatsRecorder {
    pub total_batches: u64,
    pub total_positions: u64,
    pub total_nodes: u64,
    pub nps: u32,
}

impl StatsRecorder {
    /// The estimate never degenerates to zero; that would break the
    /// capacity estimate in `min_user_backlog`.
    pub open spec fn wf(&self) -> bool {
        self.nps >= 1
    }

    pub fn new() -> (r: StatsRecorder)
        ensures
            r.wf(),
            r.total_batches == 0,
            r.total_positions == 0,
            r.total_nodes == 0,
            r.nps == INITIAL_NPS,
    {
        StatsRecorder { total_batches: 0, total_positions: 0, total_nodes: 0, nps: INITIAL_NPS }
    }

    /// Record a completed batch: bump the totals and fold the observed
    /// throughput into the smoothed estimate. The estimate stays >= 1
    /// for every input.
    pub fn record_batch(&mut self, positions: u64, nodes: u64, nps: u32)
        ensures
            final(self).total_batches == sat_add_u64(old(self).total_batches, 1),
            final(self).total_positions == sat_add_u64(old(self).total_positions, positions),
            final(self).total_nodes == sat_add_u64(old(self).total_nodes, nodes),
            final(self).nps == spec_smooth(old(self).nps, nps),
            final(self).nps >= 1,
            final(self).wf(),
    {
        self.total_batches = self.total_batches.saturating_add(1);
        self.total_positions = self.total_positions.saturating_add(positions);
        self.total_nodes = self.total_nodes.saturating_add(nodes);

        let weighted: u64 = (self.nps as u64) * 4 + (nps as u64);
        let mean: u64 = weighted / 5;
        assert(mean <= u32::MAX) by {
            lemma_div_is_ordered(weighted as int, 5 * (u32::MAX as int), 5);
        };
        self.nps = if mean < 1 {
            1
        } else {
            mean as u32
        };
    }

    /// Minimum backlog, in milliseconds, this client should demand before
    /// it accepts work. A slow client should only join when the queue is
    /// deep enough that by the time it finishes, a fast client would not
    /// have drained it anyway.
    pub fn min_user_backlog(&self) -> (r: u64)
        requires
            self.wf(),
        ensures
            r == spec_min_user_backlog_ms(self.nps),
    {
        let best_batch_seconds: u64 = 60;
        let raw: u64 = (60 * DEFAULT_NODES) / (self.nps as u64);
        let estimated_batch_seconds: u64 = if raw > 360 {
            360
        } else {
            raw
        };
        if estimated_batch_seconds > best_batch_seconds {
            (estimated_batch_seconds - best_batch_seconds) * 1000
        } else {
            0
        }
    }
}

/// How `record_batch` relates the statistics after one observation to
/// the statistics before it.
pub open spec fn spec_recorded(
    s0: StatsRecorder,
    s1: StatsRecorder,
    positions: u64,
    nodes: u64,
    nps: u32,
) -> bool {
    &&& s1.total_batches == sat_add_u64(s0.total_batches, 1)
    &&& s1.total_positions == sat_add_u64(s0.total_positions, positions)
    &&& s1.total_nodes == sat_add_u64(s0.total_nodes, nodes)
    &&& s1.nps == spec_smooth(s0.nps, nps)
}

/// The backlog threshold never rises as the throughput estimate rises:
/// a faster client is never asked to wait for a deeper queue.
pub proof fn lemma_min_user_backlog_monotonic(slower: u32, faster: u32)
    requires
        1 <= slower <= faster,
    ensures
        spec_min_user_backlog_ms(faster) <= spec_min_user_backlog_ms(slower),
{
    lemma_div_is_ordered_by_denominator((60 * DEFAULT_NODES) as int, slower as int, faster as int);
}

/// A client at least as fast as the top-tier reference (the default node
/// budget, in nodes per second) is always eligible: its threshold is zero.
pub proof fn lemma_min_user_backlog_fast_client(nps: u32)
    requires
        nps >= DEFAULT_NODES,
    ensures
        spec_min_user_backlog_ms(nps) == 0,
{
    lemma_div_is_ordered_by_denominator((60 * DEFAULT_NODES) as int, DEFAULT_NODES as int, nps as int);
    assert(240_000_000int / 4_000_000int == 60);
}

} // verus!
