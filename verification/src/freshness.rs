//! Decision freshness: a verdict is bound to the clock its snapshot was taken at,
//! and refused when it is applied too late or when its clock runs backwards.
//! Both timestamps are supplied by the caller; nothing here reads a clock.

use vstd::prelude::*;

use crate::expected_move::clamp_i64;

verus! {

/// The two ends of a decision's life: when its snapshot was taken, and when it is
/// being applied.
#[derive(Debug, Clone, Copy, PartialEq, Eq)]
pub struct DecisionClock {
    /// The clock the snapshot was rendered at.
    pub decided_at_ms: i64,
    /// The time the verdict is being resolved.
    pub resolved_at_ms: i64,
}

/// The age of a decision: the saturating gap between its two clocks, or `None`
/// when the gap is negative.
pub open spec fn spec_age_ms(clock: DecisionClock) -> Option<u64> {
    let gap = clamp_i64(clock.resolved_at_ms - clock.decided_at_ms);
    if gap < 0 {
        None
    } else {
        Some(gap as u64)
    }
}

impl DecisionClock {
    /// The age of a decision, in milliseconds, when the clock is coherent.
    pub fn age_ms(self) -> (r: Option<u64>)
        ensures
            r == spec_age_ms(self),
    {
        let gap: i128 = self.resolved_at_ms as i128 - self.decided_at_ms as i128;
        let gap: i64 = if gap > i64::MAX as i128 {
            i64::MAX
        } else if gap < i64::MIN as i128 {
            i64::MIN
        } else {
            gap as i64
        };
        if gap < 0 {
            None
        } else {
            Some(gap as u64)
        }
    }
}

/// Why a decision could not be applied.
#[derive(Debug, Clone, Copy, PartialEq, Eq)]
pub enum StalenessVeto {
    /// The clock ran backwards: resolved before it was decided. Fails closed.
    Backwards {
        /// The clock the snapshot was rendered at.
        decided_at_ms: i64,
        /// The inconsistent resolution time.
        resolved_at_ms: i64,
    },
    /// The decision arrived later than the limit allows.
    Stale {
        /// The measured age, milliseconds.
        age_ms: u64,
        /// The limit in force.
        max_ms: u64,
    },
}

impl StalenessVeto {
    /// Stable label for journals and dashboards.
    pub fn as_str(self) -> (s: &'static str)
        ensures
            s@ == (match self {
                StalenessVeto::Backwards { .. } => "decision_clock_backwards"@,
                StalenessVeto::Stale { .. } => "decision_stale"@,
            }),
    {
        match self {
            StalenessVeto::Backwards { .. } => "decision_clock_backwards",
            StalenessVeto::Stale { .. } => "decision_stale",
        }
    }
}

/// The freshness limit the champion runs with, milliseconds: the three-second
/// horizon after which the model itself treats a state as no longer current.
pub const CHAMPION_MAX_DECISION_AGE_MS: u64 = 3_000;

/// The freshness result: the age when it is within the (inclusive) limit, a
/// `Backwards` veto for an incoherent clock, and a `Stale` veto past the limit.
pub open spec fn spec_check_freshness(clock: DecisionClock, max_age_ms: u64) -> Result<
    u64,
    StalenessVeto,
> {
    match spec_age_ms(clock) {
        None => Err(
            StalenessVeto::Backwards {
                decided_at_ms: clock.decided_at_ms,
                resolved_at_ms: clock.resolved_at_ms,
            },
        ),
        Some(age) => if age > max_age_ms {
            Err(StalenessVeto::Stale { age_ms: age, max_ms: max_age_ms })
        } else {
            Ok(age)
        },
    }
}

/// Check that a decision is fresh enough to apply, returning its age when it is.
pub fn check_freshness(clock: DecisionClock, max_age_ms: u64) -> (r: Result<u64, StalenessVeto>)
    ensures
        r == spec_check_freshness(clock, max_age_ms),
{
    let age_ms = match clock.age_ms() {
        Some(a) => a,
        None => {
            return Err(
                StalenessVeto::Backwards {
                    decided_at_ms: clock.decided_at_ms,
                    resolved_at_ms: clock.resolved_at_ms,
                },
            );
        },
    };
    if age_ms > max_age_ms {
        return Err(StalenessVeto::Stale { age_ms, max_ms: max_age_ms });
    }
    Ok(age_ms)
}

/// A decision whose resolution clock precedes its decision clock is never
/// applied, whatever the limit: a backwards clock cannot read as fresh.
pub proof fn lemma_backwards_clock_never_fresh(clock: DecisionClock, max_age_ms: u64)
    requires
        clock.resolved_at_ms < clock.decided_at_ms,
    ensures
        spec_check_freshness(clock, max_age_ms) is Err,
        spec_age_ms(clock) is None,
{
}

/// Freshness is monotone in the limit: a decision accepted under one limit is
/// accepted, with the same age, under any larger limit.
pub proof fn lemma_freshness_monotone_in_limit(clock: DecisionClock, lo: u64, hi: u64)
    requires
        lo <= hi,
        spec_check_freshness(clock, lo) is Ok,
    ensures
        spec_check_freshness(clock, hi) == spec_check_freshness(clock, lo),
{
}

} // verus!
