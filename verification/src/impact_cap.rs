//! Our own market impact: price how far our own clip moves the reserve it is
//! deployed into, and veto the leg when that is unsafe. An unpriced book fails
//! closed; a zero clip moves nothing and needs no price.

use vstd::prelude::*;

use crate::curve::{own_impact_bps, spec_own_impact_bps};

verus! {

/// Why our own leg was refused.
#[derive(Debug, Clone, Copy, PartialEq, Eq)]
pub enum ImpactVeto {
    /// No depth was available, so our own impact is unknown. Fail closed.
    DepthUnknown,
    /// The leg would move the price further than the limit allows.
    TooLarge {
        /// Our own impact, bp, as charged by the fill model.
        impact_bps: u64,
        /// The limit in force.
        max_bps: u64,
    },
}

impl ImpactVeto {
    /// Stable label for journals and dashboards.
    pub fn as_str(self) -> (s: &'static str)
        ensures
            s@ == (match self {
                ImpactVeto::DepthUnknown => "own_impact_unpriced"@,
                ImpactVeto::TooLarge { .. } => "own_impact_too_large"@,
            }),
    {
        match self {
            ImpactVeto::DepthUnknown => "own_impact_unpriced",
            ImpactVeto::TooLarge { .. } => "own_impact_too_large",
        }
    }
}

/// The own-impact result: `Ok(0)` for a zero clip, `DepthUnknown` for an absent
/// or empty reserve, `TooLarge` (with `u64::MAX` as the impact when it cannot even
/// be priced) past the limit, and the impact otherwise.
pub open spec fn spec_own_impact_veto(
    depth_lamports: Option<u64>,
    clip_lamports: u64,
    max_impact_bps: u64,
) -> Result<u64, ImpactVeto> {
    if clip_lamports == 0 {
        Ok(0)
    } else {
        match depth_lamports {
            None => Err(ImpactVeto::DepthUnknown),
            Some(depth) => if depth == 0 {
                Err(ImpactVeto::DepthUnknown)
            } else {
                match spec_own_impact_bps(depth, clip_lamports) {
                    None => Err(ImpactVeto::TooLarge { impact_bps: u64::MAX, max_bps: max_impact_bps }),
                    Some(bp) => if bp > max_impact_bps {
                        Err(ImpactVeto::TooLarge { impact_bps: bp, max_bps: max_impact_bps })
                    } else {
                        Ok(bp)
                    },
                }
            },
        }
    }
}

/// Price our own impact and veto the leg if it is unsafe. Returns the impact in
/// basis points when the leg may proceed.
pub fn own_impact_veto(depth_lamports: Option<u64>, clip_lamports: u64, max_impact_bps: u64) -> (r:
    Result<u64, ImpactVeto>)
    ensures
        r == spec_own_impact_veto(depth_lamports, clip_lamports, max_impact_bps),
{
    if clip_lamports == 0 {
        return Ok(0);
    }
    let depth = match depth_lamports {
        Some(d) => d,
        None => {
            return Err(ImpactVeto::DepthUnknown);
        },
    };
    if depth == 0 {
        return Err(ImpactVeto::DepthUnknown);
    }
    let impact_bps = match own_impact_bps(depth, clip_lamports) {
        Some(bp) => bp,
        None => {
            return Err(ImpactVeto::TooLarge { impact_bps: u64::MAX, max_bps: max_impact_bps });
        },
    };
    if impact_bps > max_impact_bps {
        return Err(ImpactVeto::TooLarge { impact_bps, max_bps: max_impact_bps });
    }
    Ok(impact_bps)
}

/// The veto and the fill model cannot disagree: whenever a leg is accepted, the
/// impact it reports is exactly the fill model's charge for the same leg.
pub proof fn lemma_veto_agrees_with_fill_model(depth: u64, clip: u64, max_bps: u64)
    requires
        clip > 0,
        spec_own_impact_veto(Some(depth), clip, max_bps) is Ok,
    ensures
        spec_own_impact_bps(depth, clip) == Some(
            spec_own_impact_veto(Some(depth), clip, max_bps)->Ok_0,
        ),
        spec_own_impact_veto(Some(depth), clip, max_bps)->Ok_0 <= max_bps,
{
}

/// Impact is monotone in the clip: over a fixed reserve, a larger clip never
/// reports less impact than a smaller one.
pub proof fn lemma_impact_monotone_in_clip(depth: u64, small: u64, large: u64)
    requires
        depth > 0,
        small <= large,
        spec_own_impact_bps(depth, large) is Some,
    ensures
        spec_own_impact_bps(depth, small) is Some,
        spec_own_impact_bps(depth, small)->Some_0 <= spec_own_impact_bps(depth, large)->Some_0,
{
    assert(small * 10_000 <= large * 10_000) by (nonlinear_arith)
        requires small <= large;
    assert((small * 10_000) / (depth as int) <= (large * 10_000) / (depth as int))
        by (nonlinear_arith)
        requires small * 10_000 <= large * 10_000, depth > 0;
}

} // verus!
