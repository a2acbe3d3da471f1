//! Market context shared with the reflection cadence: the compact regime view and
//! the named constants of the phase-correct exit-cost and breadth planes.

use vstd::prelude::*;

verus! {

/// Maximum mints with live breadth/phase context.
pub const MAX_TRACKED_MINTS: usize = 1024;

/// Latency-window adverse drift (bps) charged on every exit, both phases.
pub const EXIT_LATENCY_DRIFT_BPS: u32 = 50;

/// Curve-phase failure rate (bps) of first exit attempts.
pub const CURVE_FAILURE_RATE_BPS: u32 = 500;

/// Curve-phase retry adder (bps) paid by the retry after a failed exit.
pub const CURVE_RETRY_ADDER_BPS: u32 = 100;

/// Minimum cluster net-SOL exposure (lamports) to count as meaningful breadth.
pub const BREADTH_MEANINGFUL_NET_QUOTE_LAMPORTS: u64 = 10_000_000;

/// Trailing window (events) for the breadth-decay measure.
pub const BREADTH_DECAY_WINDOW_EVENTS: u64 = 64;

/// Per-mint cluster capacity for the breadth reducer.
pub const BREADTH_MAX_CLUSTERS: usize = 512;

/// Per-mint distinct-id capacity per raw-uniqueness dimension.
pub const BREADTH_MAX_IDS: usize = 512;

/// Compact regime view: three independent flags, deliberately not a score. A
/// missing dimension reads as `false`, since the flags are evidence and an
/// unknown is never promoted to evidence.
#[derive(Clone, Copy, Debug, PartialEq, Eq, Structural)]
pub struct RegimeSummary {
    /// Market-wide launch velocity is high.
    pub frothy: bool,
    /// Market-wide buy/sell imbalance skews up.
    pub imbalance_up: bool,
    /// Rug/collapse rate is elevated or worse.
    pub rug_elevated: bool,
}

} // verus!
