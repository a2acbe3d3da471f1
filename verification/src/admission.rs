//! Admission of a candidate the entry decision let through: the pre-entry
//! vetoes, the bankroll and sizing chain (`gate_size`), the wallet-floor,
//! exit-cost and pricing checks (`gate_price`), and the journaling of every
//! refusal with its stable code (`record_gate_outcome`, `RejectLedger`).
//!
//! Values that other planes compute (the flow-authenticity reading, the VPIN
//! multiplier, the brain's size verdict, the survival floor, the wallet-floor
//! guard, the exit cost and the round-trip cost) arrive as plain facts.

use vstd::prelude::*;

use crate::engine::{dd_f_eff_bp, spec_dd_f_eff_bp};
use crate::gate::SizeBand;
use crate::holder_concentration::{
    spec_size_mult_bp, verdict_risk, ConcentrationRisk, ConcentrationVerdict,
};
use crate::journal_log::{Decision, DecisionJournal};
use crate::lane::{sat_i128, sat_mul_i128, trunc_div};

verus! {

/// The fourth refusal code: the VPIN extreme tier (a sell-dominant dump).
pub const REJECT_VPIN_TOXIC: u8 = 4;
/// No deployable capital or no remaining risk budget.
pub const REJECT_INSUFFICIENT_BANKROLL: u8 = 5;
/// The concurrency cap is reached.
pub const REJECT_MAX_CONCURRENT: u8 = 6;
/// The sized entry lands below the effective floor and cannot be promoted.
pub const REJECT_BELOW_COST_FLOOR: u8 = 7;
/// The entry spend would push the balance below the survival floor.
pub const REJECT_WALLET_FLOOR: u8 = 8;
/// Extreme fabrication signature on the mint's flow.
pub const REJECT_FABRICATED_FLOW: u8 = 9;
/// The executable exit cost is unpriceable or consumes the priced move.
pub const REJECT_EXIT_COST: u8 = 10;
/// The discovering lane is retired.
pub const REJECT_LANE_RETIRED: u8 = 12;
/// The deployer is in a confirmed distribution.
pub const REJECT_CREATOR_DUMP: u8 = 13;
/// A fully saturated first-slot fee footprint.
pub const REJECT_FEE_FLOOR: u8 = 14;
/// The market's quote mint could not be decoded.
pub const REJECT_UNDECODED_QUOTE: u8 = 15;
/// Episodic memory says this setup bled.
pub const REJECT_BRAIN_BLED: u8 = 16;
/// Corroborated holder concentration.
pub const REJECT_HOLDER_CONCENTRATION: u8 = 17;

/// The flow-authenticity reading at or below which it corroborates a
/// concentration veto, bps.
pub const CONCENTRATION_VETO_AUTH_BPS: u32 = 5_000;
/// The size multiplier under an elevated market-wide rug rate, bps.
pub const REGIME_RUG_HAIRCUT_BP: u32 = 7_000;
/// The exit cost may be at most this multiple of the expected move.
pub const EXIT_COST_VETO_MULT: u32 = 10;

/// What the vetoes and the sizing chain read about one admitted candidate.
#[derive(Clone, Copy, Debug, PartialEq, Eq)]
pub struct GateFacts {
    /// Extreme fabrication signature on the mint's flow.
    pub fabricated: bool,
    /// The deployer is in a confirmed distribution.
    pub creator_dump: bool,
    /// The first-slot fee footprint vetoes.
    pub fee_floor_veto: bool,
    /// The graded fee-floor fade, bps.
    pub fee_fade_bps: u32,
    /// The holder-concentration verdict.
    pub conc: ConcentrationVerdict,
    /// Whether the flow-authenticity reading rests on evidence.
    pub has_auth_evidence: bool,
    /// The flow-authenticity reading, bps.
    pub auth_bps: u32,
    /// The VPIN size multiplier (0 = extreme tier), bps.
    pub vpin_mult_bp: u32,
    /// Open positions now.
    pub open_positions: u64,
    /// The concurrency cap.
    pub max_concurrent_positions: u64,
    /// Bankroll balance, lamports.
    pub balance: u64,
    /// Deployable capital (balance above the survival floor), lamports.
    pub deployable: u64,
    /// The total risk cap, bps of deployable.
    pub total_risk_cap_bp: u32,
    /// Risk already committed to open positions, lamports.
    pub committed: u128,
    /// Realized high-water mark of the bankroll, lamports.
    pub bankroll_hwm: u64,
    /// Base per-position fraction, bps.
    pub f_base_bp: u32,
    /// Probe-only fraction, bps.
    pub probe_f_bp: u32,
    /// Drawdown tiers, bps.
    pub dd_tier1_bp: u32,
    /// Second drawdown tier, bps.
    pub dd_tier2_bp: u32,
    /// Third drawdown tier, bps.
    pub dd_tier3_bp: u32,
    /// The sizing validator's recommended fraction, bps, when it has one.
    pub f_recommended_bp: Option<u32>,
    /// The corroboration-tier haircut (`engine::size_haircut_bps`), bps.
    pub size_haircut_bp: u32,
    /// The tape regime reads `Revert`.
    pub revert: bool,
    /// The size multiplier under a `Revert` regime, bps.
    pub revert_size_mult_bp: u32,
    /// The authenticity multiplier, bps.
    pub auth_mult_bp: u32,
    /// The creator-credibility multiplier, bps.
    pub cred_mult_bp: u32,
    /// The deployer-screen multiplier, bps.
    pub deployer_mult_bp: u32,
    /// The market-wide rug rate is elevated.
    pub rug_elevated: bool,
    /// The swing structure is a downtrend.
    pub downtrend: bool,
    /// The size multiplier under a downtrend, bps.
    pub structure_downtrend_haircut_bp: u32,
    /// Episodic memory vetoes the setup.
    pub brain_veto: bool,
    /// Episodic memory's size multiplier, bps.
    pub brain_mult_bp: u32,
    /// The size band the entry decision admitted at.
    pub band: SizeBand,
    /// Whether sub-floor calibration probes are budgeted.
    pub probe_budget_enable: bool,
    /// The operator's minimum trade size, lamports (0 = no floor).
    pub min_trade_size_lamports: u64,
    /// Cap on a promotion up to `x_min`, bps of deployable.
    pub x_min_promote_cap_bp: u32,
    /// The least haircut at which a promotion is allowed, bps.
    pub promote_min_haircut_bp: u32,
    /// The entry fee, bps of size.
    pub entry_fee_bps: u32,
    /// The entry tip, lamports.
    pub entry_tip_lamports: u64,
}

/// The facts lie in the reduce-only envelope: every multiplier is at most the
/// identity, and a recommended fraction is clamped into a non-empty
/// `[probe_f, f_base]` range.
pub open spec fn gate_facts_in_envelope(f: GateFacts) -> bool {
    &&& f.size_haircut_bp <= 10_000
    &&& f.vpin_mult_bp <= 10_000
    &&& f.revert_size_mult_bp <= 10_000
    &&& f.auth_mult_bp <= 10_000
    &&& f.cred_mult_bp <= 10_000
    &&& f.deployer_mult_bp <= 10_000
    &&& f.structure_downtrend_haircut_bp <= 10_000
    &&& f.brain_mult_bp <= 10_000
    &&& (f.f_recommended_bp is Some ==> f.probe_f_bp <= f.f_base_bp)
}

/// How the vetoes and the sizing chain ended.
#[derive(Clone, Copy, Debug, PartialEq, Eq)]
pub enum GateSizing {
    /// Refused with this code.
    Reject(u8),
    /// Below the floor with the floor off and probes budgeted: a paid
    /// calibration probe of this spend, not a position.
    Probe { intended_spend: u64 },
    /// Sized: the entry size, its all-in cost and the applied haircut.
    Sized { size: u64, entry_cost: u64, haircut_bp: u32 },
}

/// One reduce-only step of the multiplier product: `acc x m / 10 000`.
pub open spec fn chain_step(acc: int, m: int) -> int {
    acc * m / 10_000
}

/// The concentration risk tier the facts give.
pub open spec fn facts_risk(f: GateFacts) -> ConcentrationRisk {
    verdict_risk(f.conc, f.has_auth_evidence && f.auth_bps <= CONCENTRATION_VETO_AUTH_BPS)
}

/// The product of the reduce-only multipliers before episodic memory.
pub open spec fn base_haircut(f: GateFacts) -> int {
    let regime: int = if f.revert { f.revert_size_mult_bp as int } else { 10_000 };
    let fee: int = 10_000 - (if f.fee_fade_bps > 10_000 { 10_000 } else { f.fee_fade_bps as int });
    let rug: int = if f.rug_elevated { REGIME_RUG_HAIRCUT_BP as int } else { 10_000 };
    let st: int = if f.downtrend { f.structure_downtrend_haircut_bp as int } else { 10_000 };
    let conc: int = spec_size_mult_bp(facts_risk(f)) as int;
    chain_step(
        chain_step(
            chain_step(
                chain_step(
                    chain_step(
                        chain_step(
                            chain_step(chain_step(chain_step(f.size_haircut_bp as int, f.vpin_mult_bp as int), regime), f.auth_mult_bp as int),
                            f.cred_mult_bp as int,
                        ),
                        f.deployer_mult_bp as int,
                    ),
                    fee,
                ),
                rug,
            ),
            st,
        ),
        conc,
    )
}

/// The risk budget still available: `deployable x cap / 10 000 - committed`,
/// floored at zero.
pub open spec fn available_risk(f: GateFacts) -> int {
    let budget: int = f.deployable * f.total_risk_cap_bp / 10_000;
    if budget >= f.committed { budget - f.committed } else { 0 }
}

/// The per-position fraction: the drawdown-ratcheted fraction, lowered to the
/// recommended fraction clamped into `[probe_f, f_base]`.
pub open spec fn effective_fraction(f: GateFacts) -> int {
    let dd: int = spec_dd_f_eff_bp(
        f.bankroll_hwm,
        f.balance,
        f.f_base_bp,
        f.probe_f_bp,
        f.dd_tier1_bp,
        f.dd_tier2_bp,
        f.dd_tier3_bp,
    ) as int;
    match f.f_recommended_bp {
        Some(rec) => {
            let c: int = if rec < f.probe_f_bp { f.probe_f_bp as int } else if rec > f.f_base_bp { f.f_base_bp as int } else { rec as int };
            if c < dd { c } else { dd }
        },
        None => dd,
    }
}

/// The all-in entry cost of a size: the size plus its fee (truncated to `u64`)
/// plus the tip, saturating.
pub open spec fn entry_cost_of(f: GateFacts, size: u64) -> int {
    let fee: u64 = (size * f.entry_fee_bps / 10_000) as u64;
    let a: int = if size + fee > u64::MAX { u64::MAX as int } else { size + fee };
    if a + f.entry_tip_lamports > u64::MAX { u64::MAX as int } else { a + f.entry_tip_lamports }
}

/// The vetoes, in order, then the sizing chain: the size is the fraction of
/// deployable capital under the haircut product, capped at `x_max` and at the
/// available risk; a size below `x_min` becomes a budgeted probe when the floor
/// is off, is promoted to `x_min` when that breaks no hard cap, and is refused
/// otherwise.
pub open spec fn spec_gate_size(f: GateFacts) -> GateSizing {
    let risk = facts_risk(f);
    if f.fabricated {
        GateSizing::Reject(REJECT_FABRICATED_FLOW)
    } else if f.creator_dump {
        GateSizing::Reject(REJECT_CREATOR_DUMP)
    } else if f.fee_floor_veto {
        GateSizing::Reject(REJECT_FEE_FLOOR)
    } else if risk == ConcentrationRisk::Veto {
        GateSizing::Reject(REJECT_HOLDER_CONCENTRATION)
    } else if f.vpin_mult_bp == 0 {
        GateSizing::Reject(REJECT_VPIN_TOXIC)
    } else if f.open_positions >= f.max_concurrent_positions {
        GateSizing::Reject(REJECT_MAX_CONCURRENT)
    } else if f.deployable == 0 || available_risk(f) == 0 {
        GateSizing::Reject(REJECT_INSUFFICIENT_BANKROLL)
    } else if f.brain_veto {
        GateSizing::Reject(REJECT_BRAIN_BLED)
    } else {
        let f_eff = effective_fraction(f);
        let haircut: int = base_haircut(f) * f.brain_mult_bp / 10_000;
        let raw: int = f.deployable * f_eff / 10_000;
        let s0: int = raw * haircut / 10_000;
        let s1: int = if s0 <= f.band.x_max { s0 } else { f.band.x_max as int };
        let sized: int = if s1 <= available_risk(f) { s1 } else { available_risk(f) };
        if sized >= f.band.x_min {
            GateSizing::Sized { size: sized as u64, entry_cost: entry_cost_of(f, sized as u64) as u64, haircut_bp: haircut as u32 }
        } else if f.probe_budget_enable && f.min_trade_size_lamports == 0 {
            GateSizing::Probe { intended_spend: sized as u64 }
        } else if f_eff == f.f_base_bp && haircut >= f.promote_min_haircut_bp && f.band.x_min
            <= f.deployable * f.x_min_promote_cap_bp / 10_000 && f.band.x_min <= available_risk(f) && f.band.x_min
            <= f.band.x_max {
            GateSizing::Sized {
                size: f.band.x_min,
                entry_cost: entry_cost_of(f, f.band.x_min) as u64,
                haircut_bp: haircut as u32,
            }
        } else {
            GateSizing::Reject(REJECT_BELOW_COST_FLOOR)
        }
    }
}

proof fn lemma_chain_step_bounds(acc: int, m: int)
    requires
        0 <= acc <= 10_000,
        0 <= m <= 10_000,
    ensures
        0 <= chain_step(acc, m) <= acc,
{
    assert(0 <= acc * m / 10_000 <= acc) by (nonlinear_arith)
        requires
            0 <= acc <= 10_000,
            0 <= m <= 10_000,
    ;
}

/// One exec step of the multiplier product.
fn chain_mul(acc: u128, m: u32) -> (r: u128)
    requires
        acc <= 10_000,
        m <= 10_000,
    ensures
        r == chain_step(acc as int, m as int),
        r <= acc,
{
    proof { lemma_chain_step_bounds(acc as int, m as int); }
    assert(acc * (m as u128) <= 100_000_000) by (nonlinear_arith)
        requires
            acc <= 10_000,
            m <= 10_000,
    ;
    acc * (m as u128) / 10_000
}

/// Run the vetoes and the sizing chain for an admitted candidate.
pub fn gate_size(f: &GateFacts) -> (r: GateSizing)
    requires
        gate_facts_in_envelope(*f),
    ensures
        r == spec_gate_size(*f),
        r matches GateSizing::Sized { size, .. } ==> f.band.x_min <= size <= f.band.x_max && size <= available_risk(*f),
        r matches GateSizing::Reject(c) ==> c == REJECT_FABRICATED_FLOW || c == REJECT_CREATOR_DUMP || c
            == REJECT_FEE_FLOOR || c == REJECT_HOLDER_CONCENTRATION || c == REJECT_VPIN_TOXIC || c == REJECT_MAX_CONCURRENT
            || c == REJECT_INSUFFICIENT_BANKROLL || c == REJECT_BRAIN_BLED || c == REJECT_BELOW_COST_FLOOR,
{
    let corroborated = f.has_auth_evidence && f.auth_bps <= CONCENTRATION_VETO_AUTH_BPS;
    let risk = f.conc.risk_or_clear(corroborated);
    if f.fabricated {
        return GateSizing::Reject(REJECT_FABRICATED_FLOW);
    }
    if f.creator_dump {
        return GateSizing::Reject(REJECT_CREATOR_DUMP);
    }
    if f.fee_floor_veto {
        return GateSizing::Reject(REJECT_FEE_FLOOR);
    }
    if matches!(risk, ConcentrationRisk::Veto) {
        return GateSizing::Reject(REJECT_HOLDER_CONCENTRATION);
    }
    if f.vpin_mult_bp == 0 {
        return GateSizing::Reject(REJECT_VPIN_TOXIC);
    }
    if f.open_positions >= f.max_concurrent_positions {
        return GateSizing::Reject(REJECT_MAX_CONCURRENT);
    }
    assert((f.deployable as u128) * (f.total_risk_cap_bp as u128) <= 0xffff_ffff_ffff_ffff * 0xffff_ffff) by (nonlinear_arith)
        requires
            f.deployable <= 0xffff_ffff_ffff_ffff,
            f.total_risk_cap_bp <= 0xffff_ffff,
    ;
    let budget: u128 = (f.deployable as u128) * (f.total_risk_cap_bp as u128) / 10_000;
    let available: u128 = budget.saturating_sub(f.committed);
    if f.deployable == 0 || available == 0 {
        return GateSizing::Reject(REJECT_INSUFFICIENT_BANKROLL);
    }
    // Drawdown-ratcheted fraction, lowered to the clamped recommendation.
    let mut f_eff: u32 = dd_f_eff_bp(
        f.bankroll_hwm,
        f.balance,
        f.f_base_bp,
        f.probe_f_bp,
        f.dd_tier1_bp,
        f.dd_tier2_bp,
        f.dd_tier3_bp,
    );
    if let Some(rec) = f.f_recommended_bp {
        let c: u32 = if rec < f.probe_f_bp { f.probe_f_bp } else if rec > f.f_base_bp { f.f_base_bp } else { rec };
        if c < f_eff {
            f_eff = c;
        }
    }
    // The reduce-only multiplier product.
    let regime: u32 = if f.revert { f.revert_size_mult_bp } else { 10_000 };
    let fee: u32 = 10_000 - (if f.fee_fade_bps > 10_000 { 10_000 } else { f.fee_fade_bps });
    let rug: u32 = if f.rug_elevated { REGIME_RUG_HAIRCUT_BP } else { 10_000 };
    let st: u32 = if f.downtrend { f.structure_downtrend_haircut_bp } else { 10_000 };
    let conc: u32 = risk.size_mult_bp();
    let mut b: u128 = f.size_haircut_bp as u128;
    b = chain_mul(b, f.vpin_mult_bp);
    b = chain_mul(b, regime);
    b = chain_mul(b, f.auth_mult_bp);
    b = chain_mul(b, f.cred_mult_bp);
    b = chain_mul(b, f.deployer_mult_bp);
    b = chain_mul(b, fee);
    b = chain_mul(b, rug);
    b = chain_mul(b, st);
    b = chain_mul(b, conc);
    assert(b == base_haircut(*f));
    if f.brain_veto {
        return GateSizing::Reject(REJECT_BRAIN_BLED);
    }
    let haircut: u128 = chain_mul(b, f.brain_mult_bp);
    let haircut_bp: u32 = haircut as u32;
    assert((f.deployable as u128) * (f_eff as u128) <= 0xffff_ffff_ffff_ffff * 0xffff_ffff) by (nonlinear_arith)
        requires
            f.deployable <= 0xffff_ffff_ffff_ffff,
            f_eff <= 0xffff_ffff,
    ;
    let raw: u128 = (f.deployable as u128) * (f_eff as u128) / 10_000;
    assert(raw <= 0xffff_ffff_ffff_ffff * 0xffff_ffff) by (nonlinear_arith)
        requires
            raw == (f.deployable as u128) * (f_eff as u128) / 10_000,
            (f.deployable as u128) * (f_eff as u128) <= 0xffff_ffff_ffff_ffff * 0xffff_ffff,
    ;
    assert(raw * haircut <= 0xffff_ffff_ffff_ffff * 0xffff_ffff * 10_000) by (nonlinear_arith)
        requires
            raw <= 0xffff_ffff_ffff_ffff * 0xffff_ffff,
            haircut <= 10_000,
    ;
    let s0: u128 = raw * haircut / 10_000;
    let s1: u128 = if s0 <= f.band.x_max as u128 { s0 } else { f.band.x_max as u128 };
    let sized: u128 = if s1 <= available { s1 } else { available };
    let size: u64 = if sized >= f.band.x_min as u128 {
        sized as u64
    } else {
        if f.probe_budget_enable && f.min_trade_size_lamports == 0 {
            return GateSizing::Probe { intended_spend: sized as u64 };
        }
        assert((f.deployable as u128) * (f.x_min_promote_cap_bp as u128) <= 0xffff_ffff_ffff_ffff * 0xffff_ffff) by (nonlinear_arith)
            requires
                f.deployable <= 0xffff_ffff_ffff_ffff,
                f.x_min_promote_cap_bp <= 0xffff_ffff,
        ;
        let promote_cap: u128 = (f.deployable as u128) * (f.x_min_promote_cap_bp as u128) / 10_000;
        let promotable = f_eff == f.f_base_bp && haircut_bp >= f.promote_min_haircut_bp
            && (f.band.x_min as u128) <= promote_cap && (f.band.x_min as u128) <= available
            && f.band.x_min <= f.band.x_max;
        if promotable {
            f.band.x_min
        } else {
            return GateSizing::Reject(REJECT_BELOW_COST_FLOOR);
        }
    };
    assert((size as u128) * (f.entry_fee_bps as u128) <= 0xffff_ffff_ffff_ffff * 0xffff_ffff) by (nonlinear_arith)
        requires
            size <= 0xffff_ffff_ffff_ffff,
            f.entry_fee_bps <= 0xffff_ffff,
    ;
    let fee_wide: u128 = (size as u128) * (f.entry_fee_bps as u128) / 10_000;
    let entry_fee: u64 = #[verifier::truncate] (fee_wide as u64);
    let entry_cost: u64 = size.saturating_add(entry_fee).saturating_add(f.entry_tip_lamports);
    GateSizing::Sized { size, entry_cost, haircut_bp }
}

/// What the pricing stage reads about a sized entry.
#[derive(Clone, Copy, Debug, PartialEq, Eq)]
pub struct PriceFacts {
    /// The entry size, lamports.
    pub size: u64,
    /// Its all-in cost, lamports.
    pub entry_cost: u64,
    /// The wallet-floor guard refused the entry cost.
    pub floor_refused: bool,
    /// The phase-correct executable exit cost at this size, bps; `None` when
    /// unpriceable.
    pub exit_cost_bps: Option<u32>,
    /// The configured expected move, bps.
    pub expected_move_bps: u32,
    /// The latest trade price (0 when the lane holds none).
    pub entry_price_fp: u64,
    /// The round-trip cost at this size, bps; `None` for an undecoded quote.
    pub rt_bps: Option<u32>,
    /// The lane's conditional edge (`engine::conditional_edge_bps`), bps.
    pub lane_edge_bps: i128,
    /// The admitted size band.
    pub band: SizeBand,
}

/// A fully priced pending entry, ready for slot arbitration.
#[derive(Clone, Copy, Debug, PartialEq, Eq)]
pub struct SizedEntry {
    /// The entry size, lamports.
    pub size: u64,
    /// Its all-in cost, lamports.
    pub entry_cost: u64,
    /// The entry price.
    pub entry_price_fp: u64,
    /// The round-trip cost at this size, bps.
    pub round_trip_cost_bps: u32,
    /// Expected net lamports: `size x (edge - round trip) / 10 000`.
    pub expected_net: i128,
    /// The size band that justified the size.
    pub band: SizeBand,
}

/// How one candidate's evaluation ended.
#[derive(Clone, Copy, Debug, PartialEq, Eq)]
pub enum GateOutcome {
    /// Priced for entry.
    Entry(SizedEntry),
    /// Refused with this code.
    Reject(u8),
    /// A budgeted calibration probe of this spend.
    Probe(u64),
    /// Nothing to price against (no trade price): neither entered nor refused.
    Dropped,
}

/// The pricing stage: the wallet floor, the exit cost (unpriceable or more than
/// `EXIT_COST_VETO_MULT` expected moves refuses), a trade price, a decoded
/// quote, then the expected net at this size.
pub open spec fn spec_gate_price(p: PriceFacts) -> GateOutcome {
    let cap: int = if EXIT_COST_VETO_MULT * p.expected_move_bps > u32::MAX { u32::MAX as int } else { EXIT_COST_VETO_MULT * p.expected_move_bps };
    if p.floor_refused {
        GateOutcome::Reject(REJECT_WALLET_FLOOR)
    } else if p.exit_cost_bps is None || p.exit_cost_bps->Some_0 > cap {
        GateOutcome::Reject(REJECT_EXIT_COST)
    } else if p.entry_price_fp == 0 {
        GateOutcome::Dropped
    } else if p.rt_bps is None {
        GateOutcome::Reject(REJECT_UNDECODED_QUOTE)
    } else {
        let edge: int = p.lane_edge_bps - p.rt_bps->Some_0;
        GateOutcome::Entry(SizedEntry {
            size: p.size,
            entry_cost: p.entry_cost,
            entry_price_fp: p.entry_price_fp,
            round_trip_cost_bps: p.rt_bps->Some_0,
            expected_net: trunc_div(sat_i128(p.size * edge), 10_000) as i128,
            band: p.band,
        })
    }
}

/// Price a sized entry, or refuse it.
pub fn gate_price(p: &PriceFacts) -> (r: GateOutcome)
    requires
        p.rt_bps matches Some(rt) ==> p.lane_edge_bps - rt >= i128::MIN,
    ensures
        r == spec_gate_price(*p),
        r matches GateOutcome::Entry(e) ==> e.entry_price_fp > 0 && e.size == p.size,
{
    if p.floor_refused {
        return GateOutcome::Reject(REJECT_WALLET_FLOOR);
    }
    let wide: u64 = p.expected_move_bps as u64 * EXIT_COST_VETO_MULT as u64;
    let cap: u32 = if wide > 0xffff_ffff { 0xffff_ffff } else { wide as u32 };
    assert(cap == (if EXIT_COST_VETO_MULT * p.expected_move_bps > u32::MAX { u32::MAX as int } else { EXIT_COST_VETO_MULT * p.expected_move_bps }));
    match p.exit_cost_bps {
        Some(x) => {
            if x > cap {
                return GateOutcome::Reject(REJECT_EXIT_COST);
            }
        },
        None => {
            return GateOutcome::Reject(REJECT_EXIT_COST);
        },
    }
    if p.entry_price_fp == 0 {
        return GateOutcome::Dropped;
    }
    let rt: u32 = match p.rt_bps {
        Some(b) => b,
        None => {
            return GateOutcome::Reject(REJECT_UNDECODED_QUOTE);
        },
    };
    let edge: i128 = p.lane_edge_bps - rt as i128;
    let net: i128 = sat_mul_i128(p.size as i128, edge) / 10_000;
    GateOutcome::Entry(SizedEntry {
        size: p.size,
        entry_cost: p.entry_cost,
        entry_price_fp: p.entry_price_fp,
        round_trip_cost_bps: rt,
        expected_net: net,
        band: p.band,
    })
}

/// The sum of a histogram.
pub open spec fn histogram_sum(c: Seq<u64>) -> int
    decreases c.len(),
{
    if c.len() == 0 { 0 } else { histogram_sum(c.drop_last()) + c.last() }
}

proof fn lemma_histogram_entry_le_sum(c: Seq<u64>, i: int)
    requires
        0 <= i < c.len(),
    ensures
        c[i] <= histogram_sum(c),
        histogram_sum(c) >= 0,
    decreases c.len(),
{
    if i < c.len() - 1 {
        lemma_histogram_entry_le_sum(c.drop_last(), i);
    } else {
        lemma_histogram_nonneg(c.drop_last());
    }
}

proof fn lemma_histogram_nonneg(c: Seq<u64>)
    ensures
        histogram_sum(c) >= 0,
    decreases c.len(),
{
    if c.len() > 0 {
        lemma_histogram_nonneg(c.drop_last());
    }
}

proof fn lemma_histogram_bump(c: Seq<u64>, i: int, v: u64)
    requires
        0 <= i < c.len(),
        v == c[i] + 1,
    ensures
        histogram_sum(c.update(i, v)) == histogram_sum(c) + 1,
    decreases c.len(),
{
    if i < c.len() - 1 {
        lemma_histogram_bump(c.drop_last(), i, v);
        assert(c.update(i, v).drop_last() =~= c.drop_last().update(i, v));
    } else {
        assert(c.update(i, v).drop_last() =~= c.drop_last());
    }
}

/// The refusal counter and its per-code histogram.
#[derive(Clone, Copy, Debug, PartialEq, Eq)]
pub struct RejectLedger {
    /// Candidates refused so far.
    pub rejected: u64,
    /// Refusals per code (index = code).
    pub reject_counts: [u64; 32],
}

impl RejectLedger {
    /// The histogram invariant: the per-code counts sum to `rejected`.
    pub open spec fn wf(&self) -> bool {
        histogram_sum(self.reject_counts@) == self.rejected
    }

    /// An empty ledger.
    pub fn new() -> (r: Self)
        ensures
            r.wf(),
            r.rejected == 0,
            forall|i: int| 0 <= i < 32 ==> #[trigger] r.reject_counts@[i] == 0,
    {
        let r = RejectLedger { rejected: 0, reject_counts: [0u64; 32] };
        proof {
            let z = r.reject_counts@;
            assert forall|k: int| 0 <= k <= 32 implies histogram_sum(#[trigger] z.take(k)) == 0 by {
                lemma_zero_prefix(z, k);
            }
            assert(z.take(32) =~= z);
        }
        r
    }

    /// Count one refusal under `code`.
    pub fn record(&mut self, code: u8)
        requires
            old(self).wf(),
            code < 32,
            old(self).rejected < u64::MAX,
        ensures
            final(self).wf(),
            final(self).rejected == old(self).rejected + 1,
            final(self).reject_counts@ == old(self).reject_counts@.update(
                code as int,
                (old(self).reject_counts@[code as int] + 1) as u64,
            ),
    {
        let ghost c0 = self.reject_counts@;
        proof { lemma_histogram_entry_le_sum(c0, code as int); }
        let i = code as usize;
        let v = self.reject_counts[i] + 1;
        self.reject_counts[i] = v;
        self.rejected = self.rejected + 1;
        proof {
            lemma_histogram_bump(c0, code as int, v);
            assert(self.reject_counts@ =~= c0.update(code as int, v));
        }
    }
}

proof fn lemma_zero_prefix(z: Seq<u64>, k: int)
    requires
        0 <= k <= z.len(),
        forall|i: int| 0 <= i < z.len() ==> #[trigger] z[i] == 0,
    ensures
        histogram_sum(z.take(k)) == 0,
    decreases k,
{
    if k > 0 {
        lemma_zero_prefix(z, k - 1);
        assert(z.take(k).drop_last() =~= z.take(k - 1));
    }
}

/// Journal and count a refusal; any other outcome leaves the journal and the
/// ledger untouched. Every refusal is journaled under its code and counted, so
/// the histogram keeps summing to the refusal count.
pub fn record_gate_outcome(j: &mut DecisionJournal, ledger: &mut RejectLedger, mint: [u8; 32], outcome: &GateOutcome)
    requires
        old(j).wf(),
        old(ledger).wf(),
        old(ledger).rejected < u64::MAX,
        outcome matches GateOutcome::Reject(c) ==> c < 32,
    ensures
        final(j).wf(),
        final(ledger).wf(),
        match *outcome {
            GateOutcome::Reject(c) => {
                &&& final(ledger).rejected == old(ledger).rejected + 1
                &&& final(ledger).reject_counts@ == old(ledger).reject_counts@.update(
                    c as int,
                    (old(ledger).reject_counts@[c as int] + 1) as u64,
                )
                &&& final(j).decisions() == old(j).decisions().push(Decision::Rejected { mint, reason: c })
            },
            _ => *final(ledger) == *old(ledger) && final(j).decisions() == old(j).decisions()
                && final(j).hashed_bytes() == old(j).hashed_bytes(),
        },
{
    match outcome {
        GateOutcome::Reject(c) => {
            ledger.record(*c);
            j.record(Decision::Rejected { mint, reason: *c });
        },
        _ => {},
    }
}

/// The histogram law over any run of refusals: from an empty ledger, recording
/// refusals keeps the counts summing to the refusal count, and each code's count
/// is the number of refusals under it.
pub proof fn lemma_reject_histogram_sums_to_rejected(l: RejectLedger)
    requires
        l.wf(),
    ensures
        histogram_sum(l.reject_counts@) == l.rejected,
        forall|i: int| 0 <= i < 32 ==> #[trigger] l.reject_counts@[i] <= l.rejected,
{
    assert forall|i: int| 0 <= i < 32 implies #[trigger] l.reject_counts@[i] <= l.rejected by {
        lemma_histogram_entry_le_sum(l.reject_counts@, i);
    }
}


proof fn lemma_chain_step_le_factor(acc: int, m: int)
    requires
        0 <= acc <= 10_000,
        0 <= m <= 10_000,
    ensures
        0 <= chain_step(acc, m) <= acc,
        chain_step(acc, m) <= m,
{
    assert(0 <= acc * m / 10_000 <= acc) by (nonlinear_arith)
        requires
            0 <= acc <= 10_000,
            0 <= m <= 10_000,
    ;
    assert(acc * m / 10_000 <= m) by (nonlinear_arith)
        requires
            0 <= acc <= 10_000,
            0 <= m <= 10_000,
    ;
}

/// Every reduce-only multiplier caps the applied haircut: a sized entry's
/// haircut is at most the corroboration-tier haircut, the VPIN multiplier, the
/// authenticity, creator-credibility and deployer multipliers, the fee-floor
/// fade's complement, episodic memory's multiplier, the revert multiplier under
/// a `Revert` regime, 7 000 bps under an elevated rug rate, the downtrend
/// multiplier under a downtrend, and 6 000 bps under a concentration haircut.
/// A size above `x_min` (not a promotion) is at most the fraction of deployable
/// capital (at the larger of the base and probe fractions) under that haircut.
pub proof fn lemma_every_multiplier_caps_the_haircut(f: GateFacts)
    requires
        gate_facts_in_envelope(f),
    ensures
        spec_gate_size(f) matches GateSizing::Sized { size, haircut_bp, .. } ==> {
            &&& haircut_bp <= f.size_haircut_bp
            &&& haircut_bp <= f.vpin_mult_bp
            &&& haircut_bp <= f.auth_mult_bp
            &&& haircut_bp <= f.cred_mult_bp
            &&& haircut_bp <= f.deployer_mult_bp
            &&& haircut_bp <= f.brain_mult_bp
            &&& haircut_bp + (if f.fee_fade_bps > 10_000 { 10_000 } else { f.fee_fade_bps as int }) <= 10_000
            &&& (f.revert ==> haircut_bp <= f.revert_size_mult_bp)
            &&& (f.rug_elevated ==> haircut_bp <= 7_000)
            &&& (f.downtrend ==> haircut_bp <= f.structure_downtrend_haircut_bp)
            &&& (verdict_risk(f.conc, f.has_auth_evidence && f.auth_bps <= 5_000) == ConcentrationRisk::Haircut
                ==> haircut_bp <= 6_000)
            &&& (size > f.band.x_min ==> size <= (f.deployable * (if f.f_base_bp >= f.probe_f_bp {
                f.f_base_bp
            } else {
                f.probe_f_bp
            }) / 10_000) * haircut_bp / 10_000)
        },
{
    if spec_gate_size(f) is Sized {
        let regime: int = if f.revert { f.revert_size_mult_bp as int } else { 10_000 };
        let fee: int = 10_000 - (if f.fee_fade_bps > 10_000 { 10_000 } else { f.fee_fade_bps as int });
        let rug: int = if f.rug_elevated { REGIME_RUG_HAIRCUT_BP as int } else { 10_000 };
        let st: int = if f.downtrend { f.structure_downtrend_haircut_bp as int } else { 10_000 };
        let conc: int = spec_size_mult_bp(facts_risk(f)) as int;
        assert(conc <= 10_000);
        let b1 = chain_step(f.size_haircut_bp as int, f.vpin_mult_bp as int);
        lemma_chain_step_le_factor(f.size_haircut_bp as int, f.vpin_mult_bp as int);
        let b2 = chain_step(b1, regime);
        lemma_chain_step_le_factor(b1, regime);
        let b3 = chain_step(b2, f.auth_mult_bp as int);
        lemma_chain_step_le_factor(b2, f.auth_mult_bp as int);
        let b4 = chain_step(b3, f.cred_mult_bp as int);
        lemma_chain_step_le_factor(b3, f.cred_mult_bp as int);
        let b5 = chain_step(b4, f.deployer_mult_bp as int);
        lemma_chain_step_le_factor(b4, f.deployer_mult_bp as int);
        let b6 = chain_step(b5, fee);
        lemma_chain_step_le_factor(b5, fee);
        let b7 = chain_step(b6, rug);
        lemma_chain_step_le_factor(b6, rug);
        let b8 = chain_step(b7, st);
        lemma_chain_step_le_factor(b7, st);
        let b9 = chain_step(b8, conc);
        lemma_chain_step_le_factor(b8, conc);
        assert(b9 == base_haircut(f));
        let h = chain_step(b9, f.brain_mult_bp as int);
        lemma_chain_step_le_factor(b9, f.brain_mult_bp as int);
        assert(h == base_haircut(f) * f.brain_mult_bp / 10_000);
        let m: int = if f.f_base_bp >= f.probe_f_bp { f.f_base_bp as int } else { f.probe_f_bp as int };
        let f_eff = effective_fraction(f);
        assert(0 <= f_eff <= m);
        let raw: int = f.deployable * f_eff / 10_000;
        let rawm: int = f.deployable * m / 10_000;
        assert(raw <= rawm) by (nonlinear_arith)
            requires
                raw == f.deployable * f_eff / 10_000,
                rawm == f.deployable * m / 10_000,
                0 <= f_eff <= m,
                f.deployable >= 0,
        ;
        assert(raw >= 0) by (nonlinear_arith)
            requires
                raw == f.deployable * f_eff / 10_000,
                0 <= f_eff,
                f.deployable >= 0,
        ;
        assert(raw * h / 10_000 <= rawm * h / 10_000) by (nonlinear_arith)
            requires
                0 <= raw <= rawm,
                0 <= h,
        ;
    }
}


/// The vetoes in order, on the facts: fabricated flow refuses first (9), then a
/// creator dump (13), a fee-floor veto (14), a corroborated veto-grade
/// concentration (17), the VPIN extreme tier (4), a full book of open positions
/// (6), no deployable capital or no risk budget left (5), and an episodic-memory
/// veto (16); only past all of them is anything sized, probed or refused for the
/// floor (7).
pub proof fn lemma_veto_order(f: GateFacts)
    ensures
        f.fabricated ==> spec_gate_size(f) == GateSizing::Reject(9),
        !f.fabricated && f.creator_dump ==> spec_gate_size(f) == GateSizing::Reject(13),
        !f.fabricated && !f.creator_dump && f.fee_floor_veto ==> spec_gate_size(f) == GateSizing::Reject(14),
        !f.fabricated && !f.creator_dump && !f.fee_floor_veto && verdict_risk(
            f.conc,
            f.has_auth_evidence && f.auth_bps <= 5_000,
        ) == ConcentrationRisk::Veto ==> spec_gate_size(f) == GateSizing::Reject(17),
        !f.fabricated && !f.creator_dump && !f.fee_floor_veto && verdict_risk(
            f.conc,
            f.has_auth_evidence && f.auth_bps <= 5_000,
        ) != ConcentrationRisk::Veto && f.vpin_mult_bp == 0 ==> spec_gate_size(f) == GateSizing::Reject(4),
        spec_gate_size(f) !is Reject ==> {
            &&& !f.fabricated && !f.creator_dump && !f.fee_floor_veto && !f.brain_veto
            &&& f.vpin_mult_bp > 0
            &&& f.open_positions < f.max_concurrent_positions
            &&& f.deployable > 0
            &&& f.deployable * f.total_risk_cap_bp / 10_000 > f.committed
        },
{
}

/// The expected net of a priced entry is its size times the lane edge less the
/// round-trip cost, over 10 000, saturating and rounded toward zero; every
/// priced entry passed the wallet floor and an exit cost within ten expected
/// moves, and carries a positive price.
pub proof fn lemma_priced_entry_meaning(p: PriceFacts)
    ensures
        spec_gate_price(p) matches GateOutcome::Entry(e) ==> {
            let edge: int = p.lane_edge_bps - e.round_trip_cost_bps;
            let raw: int = p.size * edge;
            let sat: int = if raw > i128::MAX { i128::MAX as int } else if raw < i128::MIN { i128::MIN as int } else { raw };
            &&& !p.floor_refused
            &&& p.exit_cost_bps is Some && p.exit_cost_bps->Some_0 <= 10 * p.expected_move_bps
            &&& e.entry_price_fp == p.entry_price_fp && e.entry_price_fp > 0
            &&& p.rt_bps == Some(e.round_trip_cost_bps)
            &&& e.size == p.size && e.entry_cost == p.entry_cost && e.band == p.band
            &&& (sat >= 0 ==> e.expected_net == sat / 10_000)
            &&& (sat < 0 ==> e.expected_net == -((-sat) / 10_000))
        },
{
}

} // verus!
