//! Bonding-curve arithmetic shared by the expected-move strata and the own-impact
//! veto: how far along its curve a market is, and how far our own clip moves it.

use vstd::prelude::*;

verus! {

/// Virtual SOL reserve a bonding curve is seeded with at launch (30 SOL).
pub const LAUNCH_VSOL_LAMPORTS: u64 = 30_000_000_000;

/// Virtual SOL reserve at which a bonding curve graduates to a pool.
pub const GRADUATION_VSOL_LAMPORTS: u64 = 115_005_359_056;

/// Curve progress in basis points: the share of the launch-to-graduation virtual
/// reserve distance already covered, clamped to `0..=10_000`.
pub open spec fn spec_curve_progress_bps(vsol: u64) -> u32 {
    if vsol <= LAUNCH_VSOL_LAMPORTS {
        0
    } else if vsol >= GRADUATION_VSOL_LAMPORTS {
        10_000
    } else {
        (((vsol - LAUNCH_VSOL_LAMPORTS) * 10_000) / (GRADUATION_VSOL_LAMPORTS
            - LAUNCH_VSOL_LAMPORTS)) as u32
    }
}

/// Curve progress of a market whose virtual SOL reserve is `vsol_lamports`.
pub fn curve_progress_bps(vsol_lamports: u64) -> (r: u32)
    ensures
        r == spec_curve_progress_bps(vsol_lamports),
        r <= 10_000,
{
    if vsol_lamports <= LAUNCH_VSOL_LAMPORTS {
        0
    } else if vsol_lamports >= GRADUATION_VSOL_LAMPORTS {
        10_000
    } else {
        let covered: u128 = (vsol_lamports - LAUNCH_VSOL_LAMPORTS) as u128;
        let span: u128 = (GRADUATION_VSOL_LAMPORTS - LAUNCH_VSOL_LAMPORTS) as u128;
        assert(covered * 10_000 < span * 10_000) by (nonlinear_arith)
            requires covered < span;
        let q: u128 = (covered * 10_000) / span;
        assert(q < 10_000) by (nonlinear_arith)
            requires q == (covered * 10_000) / (span as int), covered < span, span > 0;
        q as u32
    }
}

/// Own impact of deploying `notional` into a reserve of `depth`, in basis points:
/// `notional · 10_000 / depth`, or `None` when the reserve is empty or the scaled
/// notional does not fit in 64 bits.
pub open spec fn spec_own_impact_bps(depth: u64, notional: u64) -> Option<u64> {
    if depth == 0 || notional * 10_000 > u64::MAX {
        None
    } else {
        Some(((notional * 10_000) / depth as int) as u64)
    }
}

/// The fill model's own-impact charge for one leg.
pub fn own_impact_bps(depth_lamports: u64, notional_lamports: u64) -> (r: Option<u64>)
    ensures
        r == spec_own_impact_bps(depth_lamports, notional_lamports),
{
    if depth_lamports == 0 {
        return None;
    }
    match notional_lamports.checked_mul(10_000) {
        Some(scaled) => Some(scaled / depth_lamports),
        None => None,
    }
}

} // verus!
