//! The entry decision. A candidate at the top of the watchlist is a hypothesis,
//! not an order: entry needs a fresh on-chain confirmation, real numeric
//! microstructure and an economically viable size band (`decide`); an admitted
//! candidate then passes the pre-entry vetoes and the sizing chain
//! (`gate_size`), and the exit-cost and pricing checks (`gate_price`). Every
//! candidate either ends priced for entry or is refused with a stable code that
//! `record_gate_outcome` journals and counts.

use vstd::prelude::*;

verus! {

/// Why entry was refused for a candidate.
#[derive(Clone, Copy, Debug, PartialEq, Eq, Structural)]
pub enum GateReject {
    /// No on-chain confirmation has been seen for this market; corroboration
    /// lanes cannot substitute for it.
    NeedsOnchainConfirmation,
    /// The market has no numeric microstructure snapshot yet, so nothing
    /// verifiable backs the corroboration.
    NoNumericConfirmation,
    /// The economic size band collapsed: no size clears costs with margin.
    EconomicallyUnviable,
    /// The market's bonding-curve market cap sits outside the operator's target
    /// band: a selection refusal, not an economic one.
    OutsideMcapBand,
    /// The calibrated model's realistic upside cannot reach the first take-profit
    /// after round-trip costs.
    Tp1Unreachable,
    /// The mint was exited recently and is still in its re-entry cooldown.
    ReentryCooldown,
}


/// A size band `[x_min, x_cost, x_max]` and whether it admits a size at all, as
/// the economic size-band computation and the operator floor left it.
#[derive(Clone, Copy, Debug, PartialEq, Eq)]
pub struct SizeBand {
    /// Effective minimum size, lamports.
    pub x_min: u64,
    /// Cost-minimizing size, lamports.
    pub x_cost: u64,
    /// Maximum size, lamports.
    pub x_max: u64,
    /// `false` when no size clears costs with margin.
    pub viable: bool,
}

/// What the entry decision reads about one candidate.
#[derive(Clone, Copy, Debug, PartialEq, Eq)]
pub struct DecideFacts {
    /// A fresh on-chain confirmation exists (see `confirmation_depth`).
    pub confirmed: bool,
    /// The price reserve the confirmation proves, lamports; `None` when unproven.
    pub price_reserve: Option<u64>,
    /// The payout reserve a seller can receive, lamports; `None` when unproven.
    pub payout_reserve: Option<u64>,
    /// Pool liquidity in the numeric snapshot (0 without one).
    pub numeric_liquidity_lamports: u64,
    /// Whether the operator's market-cap band is armed.
    pub mcap_band_enable: bool,
    /// Whether the market cap lies inside that band.
    pub mcap_in_band: bool,
    /// The size band for the market, after the operator floor.
    pub band: SizeBand,
    /// Whether the calibrated move model (not the cold-start prior) priced it.
    pub model_spoke: bool,
    /// The admission-view expected move, bps.
    pub admission_bps: u32,
    /// The first take-profit, bps.
    pub lc_tp1_bps: u32,
    /// The round-trip cost at `x_cost`, bps; `None` when it cannot be priced.
    pub rt_at_x_cost_bps: Option<u32>,
}

/// The entry decision, in order: confirmation, proven depth, numeric evidence,
/// the market-cap band, first-take-profit reachability (only once the model has
/// spoken and the cost is priced), then the band's own verdict.
pub open spec fn spec_decide(f: DecideFacts) -> Result<SizeBand, GateReject> {
    if !f.confirmed || f.price_reserve is None || f.payout_reserve is None {
        Err(GateReject::NeedsOnchainConfirmation)
    } else if f.numeric_liquidity_lamports == 0 {
        Err(GateReject::NoNumericConfirmation)
    } else if f.mcap_band_enable && !f.mcap_in_band {
        Err(GateReject::OutsideMcapBand)
    } else if f.band.viable && f.model_spoke && f.rt_at_x_cost_bps is Some
        && (f.admission_bps as int) < sat_add_u32(f.lc_tp1_bps, f.rt_at_x_cost_bps->Some_0) {
        Err(GateReject::Tp1Unreachable)
    } else if f.band.viable {
        Ok(f.band)
    } else {
        Err(GateReject::EconomicallyUnviable)
    }
}

/// `a + b`, saturating at `u32::MAX`.
pub open spec fn sat_add_u32(a: u32, b: u32) -> int {
    if a + b > u32::MAX { u32::MAX as int } else { a + b }
}

/// Decide one candidate: admit at the band, or refuse with the binding reason.
pub fn decide(f: &DecideFacts) -> (r: Result<SizeBand, GateReject>)
    ensures
        r == spec_decide(*f),
{
    if !f.confirmed || f.price_reserve.is_none() || f.payout_reserve.is_none() {
        return Err(GateReject::NeedsOnchainConfirmation);
    }
    if f.numeric_liquidity_lamports == 0 {
        return Err(GateReject::NoNumericConfirmation);
    }
    if f.mcap_band_enable && !f.mcap_in_band {
        return Err(GateReject::OutsideMcapBand);
    }
    if f.band.viable && f.model_spoke {
        if let Some(rt) = f.rt_at_x_cost_bps {
            let tp1_with_cost = f.lc_tp1_bps.saturating_add(rt);
            if f.admission_bps < tp1_with_cost {
                return Err(GateReject::Tp1Unreachable);
            }
        }
    }
    if f.band.viable {
        Ok(f.band)
    } else {
        Err(GateReject::EconomicallyUnviable)
    }
}

/// The depth a recorded confirmation still vouches for at `now`: `None` once it
/// is older than `confirm_ttl_ticks`; otherwise the asserted depth, cross-checked
/// against the fresh numeric liquidity (zero without a fresh snapshot).
pub open spec fn spec_confirmation_depth(
    recorded: Option<(u64, u64)>,
    now: u64,
    confirm_ttl_ticks: u64,
    fresh_liquidity: Option<u64>,
) -> Option<u64> {
    match recorded {
        None => None,
        Some((depth, at)) => {
            let age: int = if now >= at { now - at } else { 0 };
            if age > confirm_ttl_ticks {
                None
            } else {
                let liq: u64 = match fresh_liquidity {
                    Some(l) => l,
                    None => 0,
                };
                Some(if depth <= liq { depth } else { liq })
            }
        },
    }
}

/// The depth a recorded on-chain confirmation `(depth, at_tick)` authorizes at
/// `now`: a confirmation older than its TTL no longer authorizes entry, and the
/// asserted depth never exceeds the freshly observed pool liquidity.
pub fn confirmation_depth(
    recorded: Option<(u64, u64)>,
    now: u64,
    confirm_ttl_ticks: u64,
    fresh_liquidity: Option<u64>,
) -> (r: Option<u64>)
    ensures
        r == spec_confirmation_depth(recorded, now, confirm_ttl_ticks, fresh_liquidity),
{
    match recorded {
        None => None,
        Some((depth, at)) => {
            if now.saturating_sub(at) > confirm_ttl_ticks {
                None
            } else {
                let liq: u64 = match fresh_liquidity {
                    Some(l) => l,
                    None => 0,
                };
                Some(if depth <= liq { depth } else { liq })
            }
        },
    }
}

/// A stale confirmation authorizes nothing: past its TTL the confirmation is
/// gone, and a decision without one refuses for want of confirmation.
pub proof fn lemma_stale_confirmation_never_admits(
    depth: u64,
    at: u64,
    now: u64,
    confirm_ttl_ticks: u64,
    fresh_liquidity: Option<u64>,
    f: DecideFacts,
)
    requires
        now >= at,
        now - at > confirm_ttl_ticks,
        f.confirmed == spec_confirmation_depth(Some((depth, at)), now, confirm_ttl_ticks, fresh_liquidity) is Some,
    ensures
        spec_confirmation_depth(Some((depth, at)), now, confirm_ttl_ticks, fresh_liquidity) is None,
        spec_decide(f) == Err::<SizeBand, GateReject>(GateReject::NeedsOnchainConfirmation),
{
}


/// First-take-profit reachability: once the decision gets past confirmation,
/// depth, numeric evidence and the market-cap band with a viable band, a model
/// estimate and a priced round trip, it refuses as unreachable exactly when the
/// admission-view move is below the first take-profit plus the round-trip cost
/// (their sum capped at `u32::MAX`), and admits at the band otherwise.
pub proof fn lemma_tp1_reachability(f: DecideFacts)
    requires
        f.confirmed,
        f.price_reserve is Some,
        f.payout_reserve is Some,
        f.numeric_liquidity_lamports > 0,
        !f.mcap_band_enable || f.mcap_in_band,
        f.band.viable,
        f.model_spoke,
        f.rt_at_x_cost_bps is Some,
    ensures
        ({
            let need: int = f.lc_tp1_bps + f.rt_at_x_cost_bps->Some_0;
            let bar: int = if need > u32::MAX { u32::MAX as int } else { need };
            &&& (f.admission_bps < bar ==> spec_decide(f) == Err::<SizeBand, GateReject>(GateReject::Tp1Unreachable))
            &&& (f.admission_bps >= bar ==> spec_decide(f) == Ok::<SizeBand, GateReject>(f.band))
        }),
{
}

/// What an admission means: the candidate was confirmed with proven depth and
/// numeric evidence, sits in the market-cap band when that is armed, carries a
/// viable band (which is what it is admitted at), and, whenever the model has
/// spoken and the round trip is priced, its move reaches the first take-profit
/// plus the round-trip cost (capped at `u32::MAX`).
pub proof fn lemma_admission_meaning(f: DecideFacts)
    ensures
        spec_decide(f) is Ok ==> {
            &&& spec_decide(f) == Ok::<SizeBand, GateReject>(f.band)
            &&& f.confirmed && f.price_reserve is Some && f.payout_reserve is Some
            &&& f.numeric_liquidity_lamports > 0
            &&& (f.mcap_band_enable ==> f.mcap_in_band)
            &&& f.band.viable
            &&& (f.model_spoke && f.rt_at_x_cost_bps is Some) ==> f.admission_bps >= (if f.lc_tp1_bps
                + f.rt_at_x_cost_bps->Some_0 > u32::MAX {
                u32::MAX as int
            } else {
                f.lc_tp1_bps + f.rt_at_x_cost_bps->Some_0
            })
        },
{
}


/// The refusals in order: no confirmation or unproven depth refuses for want of
/// confirmation whatever else holds; with both, zero numeric liquidity refuses
/// for want of numeric evidence; then an armed band the market falls outside;
/// and a band that admits no size is economically unviable.
pub proof fn lemma_refusal_order(f: DecideFacts)
    ensures
        (!f.confirmed || f.price_reserve is None || f.payout_reserve is None) ==> spec_decide(f) == Err::<
            SizeBand,
            GateReject,
        >(GateReject::NeedsOnchainConfirmation),
        (f.confirmed && f.price_reserve is Some && f.payout_reserve is Some && f.numeric_liquidity_lamports == 0)
            ==> spec_decide(f) == Err::<SizeBand, GateReject>(GateReject::NoNumericConfirmation),
        (f.confirmed && f.price_reserve is Some && f.payout_reserve is Some && f.numeric_liquidity_lamports > 0
            && f.mcap_band_enable && !f.mcap_in_band) ==> spec_decide(f) == Err::<SizeBand, GateReject>(
            GateReject::OutsideMcapBand,
        ),
        (f.confirmed && f.price_reserve is Some && f.payout_reserve is Some && f.numeric_liquidity_lamports > 0
            && (!f.mcap_band_enable || f.mcap_in_band) && !f.band.viable) ==> spec_decide(f) == Err::<
            SizeBand,
            GateReject,
        >(GateReject::EconomicallyUnviable),
        (f.confirmed && f.price_reserve is Some && f.payout_reserve is Some && f.numeric_liquidity_lamports > 0
            && (!f.mcap_band_enable || f.mcap_in_band) && f.band.viable && !(f.model_spoke
            && f.rt_at_x_cost_bps is Some)) ==> spec_decide(f) == Ok::<SizeBand, GateReject>(f.band),
{
}

} // verus!
