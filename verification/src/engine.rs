//! The engine's integer bookkeeping and sizing rules: run modes, bankroll
//! provenance, the probe/scale-in split, the running per-lane net-SOL
//! reconciliation, the stable codes the decision journal records, the drawdown
//! ratchet, the corroboration-tier size haircut, the pooled lane edge that
//! conditions slot arbitration, the meta-rotation rank adjustment and the signed
//! veto counterfactual.

use vstd::prelude::*;

use crate::gate::GateReject;
use crate::lane::{decade, spec_decade, trunc_div, RankLane};

verus! {

/// How the engine is allowed to act. Only paper and replay exist; live capital is
/// a world this type cannot express.
#[derive(Clone, Copy, Debug, PartialEq, Eq, Structural)]
pub enum RunMode {
    /// Drive the calibrated fill model; no capital moves.
    Paper,
    /// Re-run a recorded event journal for determinism checking.
    Replay,
}

/// Provenance of the engine's bankroll base. A paper seed and a live-reconciled
/// balance are different variants, and only `LiveReconciled` satisfies the
/// fail-closed live-sizing guard.
#[derive(Clone, Copy, Debug, PartialEq, Eq, Structural)]
pub enum BankrollOrigin {
    /// The configured paper/replay seed; never backs a live trade.
    PaperSeed(u64),
    /// A base backed by the reconciled on-chain wallet balance.
    LiveReconciled(u64),
}

/// Why a live-sizing bankroll check was refused.
#[derive(Clone, Copy, Debug, PartialEq, Eq, Structural)]
pub enum BankrollOriginError {
    /// A live order path tried to size off a paper/replay seed.
    PaperSeedNotLive,
}

impl BankrollOriginError {
    /// The human-readable explanation.
    pub fn message(&self) -> (s: &'static str)
        ensures
            s@ == "bankroll origin is a paper/replay seed; live sizing requires a reconciled on-chain wallet balance"@,
    {
        "bankroll origin is a paper/replay seed; live sizing requires a reconciled on-chain wallet balance"
    }
}

impl BankrollOrigin {
    /// The base bankroll in lamports, whatever its provenance.
    pub fn seed_lamports(&self) -> (r: u64)
        ensures
            r == (match *self {
                BankrollOrigin::PaperSeed(v) => v,
                BankrollOrigin::LiveReconciled(v) => v,
            }),
    {
        match self {
            BankrollOrigin::PaperSeed(v) => *v,
            BankrollOrigin::LiveReconciled(v) => *v,
        }
    }

    /// Whether this origin is backed by the reconciled live wallet.
    pub fn is_live_verified(&self) -> (r: bool)
        ensures
            r == (*self is LiveReconciled),
    {
        match self {
            BankrollOrigin::LiveReconciled(_) => true,
            BankrollOrigin::PaperSeed(_) => false,
        }
    }

    /// The fail-closed live-sizing guard: the reconciled balance, or an error for
    /// a paper seed.
    pub fn require_live_verified(&self) -> (r: Result<u64, BankrollOriginError>)
        ensures
            r == (match *self {
                BankrollOrigin::LiveReconciled(v) => Ok::<u64, BankrollOriginError>(v),
                BankrollOrigin::PaperSeed(_) => Err(BankrollOriginError::PaperSeedNotLive),
            }),
    {
        match self {
            BankrollOrigin::LiveReconciled(v) => Ok(*v),
            BankrollOrigin::PaperSeed(_) => Err(BankrollOriginError::PaperSeedNotLive),
        }
    }
}

/// The probe/scale-in split of an entry `target`: the probe is
/// `max(min_trade_size, probe_frac_bp x target / 10_000, 1)` capped at `target`;
/// the remainder is the scale-in add, folded back into a single bite when it is a
/// nonzero clip below `min_trade_size`.
pub open spec fn spec_probe_scale_split(target: u64, probe_frac_bp: u32, min_trade_size: u64) -> (u64, u64) {
    let probe_raw = ((target as int * probe_frac_bp as int) / 10_000) as u64;
    let floor: u64 = if min_trade_size >= 1 { min_trade_size } else { 1 };
    let lifted: u64 = if probe_raw >= floor { probe_raw } else { floor };
    let probe: u64 = if lifted <= target { lifted } else { target };
    let scale_add = (target - probe) as u64;
    if scale_add > 0 && scale_add < min_trade_size {
        (target, 0)
    } else {
        (probe, scale_add)
    }
}

/// Split an entry `target` into `(probe, scale_in_add)`.
pub fn probe_scale_split(target: u64, probe_frac_bp: u32, min_trade_size: u64) -> (r: (u64, u64))
    ensures
        r == spec_probe_scale_split(target, probe_frac_bp, min_trade_size),
{
    proof {
        assert(target as int * probe_frac_bp as int <= 0xffff_ffff_ffff_ffff * 0xffff_ffff) by (nonlinear_arith);
    }
    let prod: u128 = target as u128 * probe_frac_bp as u128;
    let probe_raw: u64 = (prod / 10_000) as u64;
    let floor: u64 = if min_trade_size >= 1 { min_trade_size } else { 1 };
    let lifted: u64 = if probe_raw >= floor { probe_raw } else { floor };
    let probe: u64 = if lifted <= target { lifted } else { target };
    let scale_add = target - probe;
    if scale_add > 0 && scale_add < min_trade_size {
        (target, 0)
    } else {
        (probe, scale_add)
    }
}

/// The split never loses or invents lamports: the two bites sum to the target; a
/// nonzero target opens with a nonzero probe; and with the floor active every
/// emitted bite of a target at or above the floor is at least the floor.
pub proof fn lemma_probe_split_conserves(target: u64, probe_frac_bp: u32, min_trade_size: u64)
    ensures
        ({
            let (probe, add) = spec_probe_scale_split(target, probe_frac_bp, min_trade_size);
            &&& probe + add == target
            &&& target > 0 ==> probe > 0
            &&& target >= min_trade_size ==> probe >= min_trade_size
            &&& add > 0 ==> add >= min_trade_size
        }),
{
}

/// One realized round trip's reconciliation inputs.
#[derive(Clone, Copy, Debug, Default, PartialEq, Eq)]
pub struct ReconTrade {
    /// Gross realized lamports (signed).
    pub gross_lamports: i128,
    /// Fees paid.
    pub fees: u128,
    /// Tips paid.
    pub tips: u128,
    /// Costs of failed attempts.
    pub failed_costs: u128,
}

/// A bounded running reconciliation of realized net-SOL for one evaluator lane:
/// fixed-width saturating totals instead of every trade.
#[derive(Clone, Copy, Debug, Default, PartialEq, Eq)]
pub struct ReconAccum {
    /// Summed gross lamports.
    pub gross: i128,
    /// Summed fees.
    pub fees: u128,
    /// Summed tips.
    pub tips: u128,
    /// Summed failed-attempt costs.
    pub failed: u128,
    /// Trades folded in.
    pub n: u64,
}

/// `a + b` clamped to the `i128` range.
pub open spec fn clamp_i128(v: int) -> i128 {
    if v > i128::MAX {
        i128::MAX
    } else if v < i128::MIN {
        i128::MIN
    } else {
        v as i128
    }
}

/// `a + b` clamped to the `u128` range.
pub open spec fn clamp_u128(v: int) -> u128 {
    if v > u128::MAX {
        u128::MAX
    } else {
        v as u128
    }
}

fn sat_add_i128(a: i128, b: i128) -> (r: i128)
    ensures
        r == clamp_i128(a + b),
{
    if b > 0 && a > i128::MAX - b {
        i128::MAX
    } else if b < 0 && a < i128::MIN - b {
        i128::MIN
    } else {
        a + b
    }
}

fn sat_sub_i128(a: i128, b: i128) -> (r: i128)
    ensures
        r == clamp_i128(a - b),
{
    if b < 0 && a > i128::MAX + b {
        i128::MAX
    } else if b > 0 && a < i128::MIN + b {
        i128::MIN
    } else {
        a - b
    }
}

/// The net of a reconciliation: zero with no trades, else
/// `gross - (fees + tips + failed)`, each cost read as `i128` and every step
/// saturating.
pub open spec fn spec_recon_net(a: ReconAccum) -> i128 {
    if a.n == 0 {
        0
    } else {
        let costs = clamp_i128(clamp_i128(a.fees as i128 + a.tips as i128) + a.failed as i128);
        clamp_i128(a.gross - costs)
    }
}

impl ReconAccum {
    /// Fold one trade in.
    pub fn add(&mut self, t: &ReconTrade)
        ensures
            final(self).gross == clamp_i128(old(self).gross + t.gross_lamports),
            final(self).fees == clamp_u128(old(self).fees + t.fees),
            final(self).tips == clamp_u128(old(self).tips + t.tips),
            final(self).failed == clamp_u128(old(self).failed + t.failed_costs),
            final(self).n == (if old(self).n == u64::MAX { u64::MAX } else { (old(self).n + 1) as u64 }),
    {
        self.gross = sat_add_i128(self.gross, t.gross_lamports);
        self.fees = self.fees.saturating_add(t.fees);
        self.tips = self.tips.saturating_add(t.tips);
        self.failed = self.failed.saturating_add(t.failed_costs);
        self.n = self.n.saturating_add(1);
    }

    /// The reconciled net (see `spec_recon_net`).
    pub fn net(&self) -> (r: i128)
        ensures
            r == spec_recon_net(*self),
    {
        if self.n == 0 {
            return 0;
        }
        let costs = sat_add_i128(sat_add_i128(self.fees as i128, self.tips as i128), self.failed as i128);
        sat_sub_i128(self.gross, costs)
    }
}

/// An evaluator lane: where a held position's realized net-SOL is accounted.
#[derive(Clone, Copy, Debug, PartialEq, Eq, Structural)]
pub enum EvalLane {
    /// Active-market and graduation scalping.
    Scalp,
    /// Sniper and early-confirmation discovery.
    Early,
}

/// Index of an evaluator lane into the running-accumulator array.
pub fn accum_index(lane: EvalLane) -> (r: usize)
    ensures
        r == (match lane {
            EvalLane::Scalp => 0usize,
            EvalLane::Early => 1usize,
        }),
{
    match lane {
        EvalLane::Scalp => 0,
        EvalLane::Early => 1,
    }
}

/// A p-value proxy (ppm) for a challenger's sequential log-likelihood ratio
/// (milli-nats): 900 000 for non-positive evidence, else `500 000 - min(llr,
/// 500 000)`, floored at 1.
pub open spec fn spec_sprt_llr_to_p_ppm(llr_millinats: i64) -> u32 {
    if llr_millinats <= 0 {
        900_000
    } else {
        let dec: int = if llr_millinats > 500_000 { 500_000 } else { llr_millinats as int };
        let p = 500_000 - dec;
        if p == 0 {
            1
        } else {
            p as u32
        }
    }
}

/// Map a sequential log-likelihood ratio to a p-value proxy in ppm.
pub fn sprt_llr_to_p_ppm(llr_millinats: i64) -> (r: u32)
    ensures
        r == spec_sprt_llr_to_p_ppm(llr_millinats),
{
    if llr_millinats <= 0 {
        900_000
    } else {
        let dec: u32 = if llr_millinats > 500_000 { 500_000u32 } else { llr_millinats as u32 };
        let p = 500_000u32.saturating_sub(dec);
        if p == 0 {
            1
        } else {
            p
        }
    }
}

/// Stronger evidence never gives a larger p: the proxy is non-increasing in the
/// log-likelihood ratio, and always a valid ppm in `1..=900 000`.
pub proof fn lemma_sprt_p_is_monotone(a: i64, b: i64)
    requires
        a <= b,
    ensures
        spec_sprt_llr_to_p_ppm(b) <= spec_sprt_llr_to_p_ppm(a),
        1 <= spec_sprt_llr_to_p_ppm(a) <= 900_000,
{
}

/// The stable small journal code of a gate refusal.
pub open spec fn spec_reject_code(r: GateReject) -> u8 {
    match r {
        GateReject::NeedsOnchainConfirmation => 1,
        GateReject::NoNumericConfirmation => 2,
        GateReject::EconomicallyUnviable => 3,
        GateReject::OutsideMcapBand => 18,
        GateReject::Tp1Unreachable => 19,
        GateReject::ReentryCooldown => 20,
    }
}

/// Stable small codes for gate refusals, for the journal. The first three keep
/// their long-standing numbering; the selection refusals take codes after the last
/// post-gate refusal code (17), so no two reasons ever share a code.
pub fn reject_code(r: GateReject) -> (c: u8)
    ensures
        c == spec_reject_code(r),
{
    match r {
        GateReject::NeedsOnchainConfirmation => 1,
        GateReject::NoNumericConfirmation => 2,
        GateReject::EconomicallyUnviable => 3,
        GateReject::OutsideMcapBand => 18,
        GateReject::Tp1Unreachable => 19,
        GateReject::ReentryCooldown => 20,
    }
}

/// Distinct refusals are journaled under distinct codes.
pub proof fn lemma_reject_codes_are_distinct(a: GateReject, b: GateReject)
    requires
        a != b,
    ensures
        spec_reject_code(a) != spec_reject_code(b),
{
}

/// The evaluator lane a ranking lane's held positions are accounted in:
/// sniper and early discovery are `Early`; active and graduation scalping are
/// `Scalp`.
pub open spec fn spec_eval_lane_of(lane: RankLane) -> EvalLane {
    match lane {
        RankLane::CreationSniper => EvalLane::Early,
        RankLane::EarlyConfirmation => EvalLane::Early,
        RankLane::GraduationTransition => EvalLane::Scalp,
        RankLane::ActiveMarketScalp => EvalLane::Scalp,
    }
}

/// Route a ranking lane to its evaluator lane.
pub fn eval_lane_of(lane: RankLane) -> (r: EvalLane)
    ensures
        r == spec_eval_lane_of(lane),
{
    match lane {
        RankLane::CreationSniper | RankLane::EarlyConfirmation => EvalLane::Early,
        RankLane::GraduationTransition | RankLane::ActiveMarketScalp => EvalLane::Scalp,
    }
}

/// Coarse base-10 magnitude of a lamport quantity (0 -> 0, else the digit count),
/// the same magnitude the lanes score with.
pub fn decade_u64(v: u64) -> (r: u64)
    ensures
        r == spec_decade(v as nat),
{
    decade(v)
}


// ---------------------------------------------------------------------------
// Sizing: the drawdown ratchet and the corroboration-tier haircut
// ---------------------------------------------------------------------------

/// Drawdown from the high-water mark in bps: `(hwm - balance) x 10 000 / hwm`,
/// with the mark floored at 1; zero at or above the mark.
pub open spec fn spec_drawdown_bp(bankroll_hwm: u64, balance: u64) -> int {
    let hwm: int = if bankroll_hwm == 0 { 1 } else { bankroll_hwm as int };
    if balance >= hwm { 0 } else { (hwm - balance) * 10_000 / hwm }
}

/// The effective per-position fraction after the drawdown ratchet.
pub open spec fn spec_dd_f_eff_bp(
    bankroll_hwm: u64,
    balance: u64,
    f_base_bp: u32,
    probe_f_bp: u32,
    dd_tier1_bp: u32,
    dd_tier2_bp: u32,
    dd_tier3_bp: u32,
) -> u32 {
    let hwm: int = if bankroll_hwm == 0 { 1 } else { bankroll_hwm as int };
    let dd = spec_drawdown_bp(bankroll_hwm, balance);
    if balance >= hwm {
        f_base_bp
    } else if dd >= dd_tier3_bp {
        probe_f_bp
    } else if dd >= dd_tier2_bp {
        (f_base_bp / 4) as u32
    } else if dd >= dd_tier1_bp {
        (f_base_bp / 2) as u32
    } else {
        f_base_bp
    }
}

/// The effective per-position fraction (bps of deployable) after the drawdown
/// ratchet: full at or above the realized high-water mark and below tier 1,
/// halved past tier 1, quartered past tier 2, probe-only past tier 3.
pub fn dd_f_eff_bp(
    bankroll_hwm: u64,
    balance: u64,
    f_base_bp: u32,
    probe_f_bp: u32,
    dd_tier1_bp: u32,
    dd_tier2_bp: u32,
    dd_tier3_bp: u32,
) -> (r: u32)
    ensures
        r == spec_dd_f_eff_bp(bankroll_hwm, balance, f_base_bp, probe_f_bp, dd_tier1_bp, dd_tier2_bp, dd_tier3_bp),
{
    let hwm: u64 = if bankroll_hwm == 0 { 1 } else { bankroll_hwm };
    if balance >= hwm {
        return f_base_bp;
    }
    let gap: u128 = (hwm - balance) as u128;
    assert(gap * 10_000 <= (hwm as u128) * 10_000) by (nonlinear_arith)
        requires
            gap <= hwm,
    ;
    let num: u128 = gap * 10_000;
    let q: u128 = num / (hwm as u128);
    assert(q <= 10_000) by (nonlinear_arith)
        requires
            num <= (hwm as u128) * 10_000,
            hwm >= 1,
            q as int == num as int / (hwm as int),
    ;
    let dd_bp: u32 = q as u32;
    assert(dd_bp as int == spec_drawdown_bp(bankroll_hwm, balance));
    assert(f_base_bp >> 2 == f_base_bp / 4) by (bit_vector);
    assert(f_base_bp >> 1 == f_base_bp / 2) by (bit_vector);
    if dd_bp >= dd_tier3_bp {
        probe_f_bp
    } else if dd_bp >= dd_tier2_bp {
        f_base_bp >> 2
    } else if dd_bp >= dd_tier1_bp {
        f_base_bp >> 1
    } else {
        f_base_bp
    }
}

/// A deeper drawdown never sizes larger: with the probe fraction at most a
/// quarter of the base, the effective fraction is non-decreasing in the balance
/// (for a fixed high-water mark and tiers), and it never exceeds the base.
pub proof fn lemma_drawdown_ratchet_is_monotone(
    bankroll_hwm: u64,
    lower: u64,
    higher: u64,
    f_base_bp: u32,
    probe_f_bp: u32,
    dd_tier1_bp: u32,
    dd_tier2_bp: u32,
    dd_tier3_bp: u32,
)
    requires
        lower <= higher,
        probe_f_bp <= f_base_bp / 4,
    ensures
        spec_dd_f_eff_bp(bankroll_hwm, lower, f_base_bp, probe_f_bp, dd_tier1_bp, dd_tier2_bp, dd_tier3_bp)
            <= spec_dd_f_eff_bp(bankroll_hwm, higher, f_base_bp, probe_f_bp, dd_tier1_bp, dd_tier2_bp, dd_tier3_bp),
        spec_dd_f_eff_bp(bankroll_hwm, higher, f_base_bp, probe_f_bp, dd_tier1_bp, dd_tier2_bp, dd_tier3_bp) <= f_base_bp,
{
    let hwm: int = if bankroll_hwm == 0 { 1 } else { bankroll_hwm as int };
    if higher < hwm {
        let a = hwm - higher;
        let b = hwm - lower;
        assert(a * 10_000 / hwm <= b * 10_000 / hwm) by (nonlinear_arith)
            requires
                0 <= a <= b,
                hwm >= 1,
        ;
    }
}

/// The most the creator-distribution fade alone can take off size, bps.
pub const MAX_CREATOR_FADE_BPS: u32 = 5_000;

/// The creator-distribution fade in bps of size: zero until the creator has sold
/// more than `creator_fade_sold_bps` of peak, then linear in the excess over the
/// span to 10 000, capped at `MAX_CREATOR_FADE_BPS`.
pub open spec fn spec_creator_fade(sold: Option<u64>, creator_fade_sold_bps: u64) -> int {
    match sold {
        Some(s) => if s > creator_fade_sold_bps {
            let excess = s - creator_fade_sold_bps;
            let span: int = if creator_fade_sold_bps >= 10_000 { 1 } else { 10_000 - creator_fade_sold_bps };
            let e: int = if excess < span { excess } else { span };
            MAX_CREATOR_FADE_BPS * e / span
        } else {
            0
        },
        None => 0,
    }
}

/// The composed size multiplier before the final cap.
pub open spec fn spec_haircut_raw(
    sold: Option<u64>,
    creator_fade_sold_bps: u64,
    category_adj: Option<i64>,
    narrative_conviction_bp: Option<u32>,
) -> int {
    let m1: int = 10_000 - spec_creator_fade(sold, creator_fade_sold_bps);
    let m2: int = match category_adj {
        Some(adj) => if adj < 0 {
            let hair: int = if -adj > 10_000 { 10_000 } else { -adj };
            m1 - m1 * hair / 10_000
        } else {
            m1
        },
        None => m1,
    };
    match narrative_conviction_bp {
        Some(c) => m2 * c / 10_000,
        None => m2,
    }
}

/// The corroboration-tier size multiplier, capped at the identity.
pub open spec fn spec_size_haircut_bps(
    sold: Option<u64>,
    creator_fade_sold_bps: u64,
    category_adj: Option<i64>,
    narrative_conviction_bp: Option<u32>,
) -> u32 {
    let raw = spec_haircut_raw(sold, creator_fade_sold_bps, category_adj, narrative_conviction_bp);
    if raw > 10_000 { 10_000 } else { raw as u32 }
}

/// The corroboration-tier size multiplier (bps of 10 000) for an admitted
/// market, composed from three reduce-only fades, each the identity when its
/// evidence is absent: the creator-distribution fade (`sold` is the creator's
/// sold fraction of peak), the category-saturation fade (`category_adj` is the
/// discovery adjustment the market's category carries; only a negative one
/// fades), and the narrative-class conviction (`None` when that law is off or
/// the class is unknown).
pub fn size_haircut_bps(
    sold: Option<u64>,
    creator_fade_sold_bps: u64,
    category_adj: Option<i64>,
    narrative_conviction_bp: Option<u32>,
) -> (r: u32)
    ensures
        r == spec_size_haircut_bps(sold, creator_fade_sold_bps, category_adj, narrative_conviction_bp),
        r <= 10_000,
{
    let mut mult: u64 = 10_000;
    if let Some(s) = sold {
        if s > creator_fade_sold_bps {
            let excess: u64 = s - creator_fade_sold_bps;
            let span: u64 = if creator_fade_sold_bps >= 10_000 { 1 } else { 10_000 - creator_fade_sold_bps };
            let e: u64 = if excess < span { excess } else { span };
            assert(5_000 * e <= 5_000 * span) by (nonlinear_arith)
                requires
                    e <= span,
            ;
            let fade: u64 = (5_000 * e) / span;
            assert(fade <= 5_000) by (nonlinear_arith)
                requires
                    fade as int == (5_000 * e as int) / (span as int),
                    e <= span,
                    span >= 1,
            ;
            mult = 10_000 - fade;
        }
    }
    assert(mult == 10_000 - spec_creator_fade(sold, creator_fade_sold_bps));
    let ghost m1: int = mult as int;
    if let Some(adj) = category_adj {
        if adj < 0 {
            let mag: u64 = if adj == i64::MIN { 0x8000_0000_0000_0000u64 } else { (-adj) as u64 };
            let hair: u64 = if mag > 10_000 { 10_000 } else { mag };
            assert(mult * hair <= 10_000 * 10_000) by (nonlinear_arith)
                requires
                    mult <= 10_000,
                    hair <= 10_000,
            ;
            let cut: u64 = (mult * hair) / 10_000;
            assert(cut <= mult) by (nonlinear_arith)
                requires
                    cut as int == (mult as int * hair as int) / 10_000,
                    hair <= 10_000,
            ;
            mult = mult - cut;
        }
    }
    assert(mult <= 10_000);
    if let Some(c) = narrative_conviction_bp {
        assert(mult * (c as u64) <= 10_000 * 0xffff_ffff) by (nonlinear_arith)
            requires
                mult <= 10_000,
                c <= 0xffff_ffff,
        ;
        mult = (mult * (c as u64)) / 10_000;
    }
    if mult > 10_000 { 10_000 } else { mult as u32 }
}

/// The haircut is reduce-only and never a veto on creator evidence alone: with
/// no category or narrative evidence the creator fade leaves at least
/// `10 000 - MAX_CREATOR_FADE_BPS` of size, and with no evidence at all it is
/// the identity.
pub proof fn lemma_creator_fade_is_capped(sold: Option<u64>, creator_fade_sold_bps: u64)
    ensures
        spec_size_haircut_bps(sold, creator_fade_sold_bps, None, None) >= 10_000 - MAX_CREATOR_FADE_BPS,
        spec_size_haircut_bps(None, creator_fade_sold_bps, None, None) == 10_000,
{
    if let Some(s) = sold {
        if s > creator_fade_sold_bps {
            let excess = s - creator_fade_sold_bps;
            let span: int = if creator_fade_sold_bps >= 10_000 { 1 } else { 10_000 - creator_fade_sold_bps };
            let e: int = if excess < span { excess } else { span };
            assert(5_000 * e / span <= 5_000) by (nonlinear_arith)
                requires
                    0 <= e <= span,
                    span >= 1,
            ;
            assert(5_000 * e / span >= 0) by (nonlinear_arith)
                requires
                    0 <= e,
                    span >= 1,
            ;
        }
    }
}


// ---------------------------------------------------------------------------
// Slot arbitration edge and meta-rotation ranking
// ---------------------------------------------------------------------------

/// The lane's conditional edge: the cold-start prior until the lane has
/// `min_lane_trades` (at least one) realized fills, then the realized mean
/// shrunk toward the prior with that many pseudo-observations,
/// `(sum + prior x k) / (n + k)`, rounded toward zero.
pub open spec fn spec_conditional_edge_bps(prior_bps: u32, sum_bps: i128, n: u64, min_lane_trades: u64) -> int {
    let k: int = if min_lane_trades == 0 { 1 } else { min_lane_trades as int };
    if n < k {
        prior_bps as int
    } else {
        trunc_div(sum_bps + prior_bps * k, n + k)
    }
}

/// The lane's conditional edge for slot arbitration (bps): the configured
/// expected move is a cold-start prior; once a lane has `min_lane_trades`
/// realized fills, its summed realized return `sum_bps` over `n` fills is
/// pooled with the prior at a pseudo-count of the same gate.
pub fn conditional_edge_bps(prior_bps: u32, sum_bps: i128, n: u64, min_lane_trades: u64) -> (r: i128)
    requires
        sum_bps + prior_bps * (if min_lane_trades == 0 { 1 } else { min_lane_trades as int }) <= i128::MAX,
    ensures
        r == spec_conditional_edge_bps(prior_bps, sum_bps, n, min_lane_trades),
{
    let prior: i128 = prior_bps as i128;
    let k: i128 = if min_lane_trades == 0 { 1 } else { min_lane_trades as i128 };
    if (n as i128) < k {
        return prior;
    }
    assert(0 <= prior * k <= 0xffff_ffff * 0xffff_ffff_ffff_ffff) by (nonlinear_arith)
        requires
            0 <= prior <= 0xffff_ffff,
            1 <= k <= 0xffff_ffff_ffff_ffff,
    ;
    let num: i128 = sum_bps + prior * k;
    let den: i128 = n as i128 + k;
    num / den
}

/// Pooling shrinks toward the prior without overshooting it: a lane whose
/// realized mean is at least the prior never pools below the prior, and one
/// whose mean is at most the prior never pools above it.
pub proof fn lemma_pooling_stays_on_the_prior_side(prior_bps: u32, sum_bps: i128, n: u64, min_lane_trades: u64)
    ensures
        sum_bps >= prior_bps * n ==> spec_conditional_edge_bps(prior_bps, sum_bps, n, min_lane_trades) >= prior_bps,
        sum_bps <= prior_bps * n ==> spec_conditional_edge_bps(prior_bps, sum_bps, n, min_lane_trades) <= prior_bps,
{
    let k: int = if min_lane_trades == 0 { 1 } else { min_lane_trades as int };
    if n >= k {
        let p = prior_bps as int;
        let x = sum_bps + p * k;
        let d = n + k;
        if sum_bps >= p * n {
            assert(x >= p * d) by (nonlinear_arith)
                requires
                    x == sum_bps + p * k,
                    d == n + k,
                    sum_bps >= p * n,
            ;
            assert(x >= 0) by (nonlinear_arith)
                requires
                    x >= p * d,
                    p >= 0,
                    d >= 1,
            ;
            assert(x / d >= p) by (nonlinear_arith)
                requires
                    x >= p * d,
                    d >= 1,
            ;
        }
        if sum_bps <= p * n {
            assert(x <= p * d) by (nonlinear_arith)
                requires
                    x == sum_bps + p * k,
                    d == n + k,
                    sum_bps <= p * n,
            ;
            if x >= 0 {
                assert(x / d <= p) by (nonlinear_arith)
                    requires
                        0 <= x <= p * d,
                        d >= 1,
                ;
            } else {
                assert((-x) / d >= 0) by (nonlinear_arith)
                    requires
                        -x > 0,
                        d >= 1,
                ;
            }
        }
    }
}

/// A discovery score under a category's rank adjustment: scaled by
/// `max(10 000 + adj, 0) / 10 000`, truncated to `u64`.
pub open spec fn spec_meta_ranked_score(score: u64, adj_bps: i64) -> u64 {
    let f: int = 10_000 + adj_bps;
    let factor: int = if f < 0 { 0 } else { f };
    (score * factor / 10_000) as u64
}

/// Apply a category's rank adjustment to a candidate's discovery score:
/// multiplicative over a 10 000 base and clamped at zero, so a haircut can zero
/// a score but never invert it.
pub fn meta_ranked_score(score: u64, adj_bps: i64) -> (r: u64)
    requires
        adj_bps <= i64::MAX - 10_000,
    ensures
        r == spec_meta_ranked_score(score, adj_bps),
{
    let f: i64 = 10_000 + adj_bps;
    let factor: u128 = if f < 0 { 0 } else { f as u128 };
    assert((score as u128) * factor <= 0xffff_ffff_ffff_ffff * 0x7fff_ffff_ffff_ffff) by (nonlinear_arith)
        requires
            factor <= 0x7fff_ffff_ffff_ffff,
    ;
    let scaled: u128 = (score as u128) * factor / 10_000;
    #[verifier::truncate]
    (scaled as u64)
}

/// A haircut never raises a score and no adjustment leaves it unchanged.
pub proof fn lemma_meta_rank_haircut_is_reduce_only(score: u64, adj_bps: i64)
    requires
        adj_bps <= 0,
    ensures
        spec_meta_ranked_score(score, adj_bps) <= score,
        spec_meta_ranked_score(score, 0) == score,
{
    let f: int = 10_000 + adj_bps;
    let factor: int = if f < 0 { 0 } else { f };
    assert(score * factor / 10_000 <= score) by (nonlinear_arith)
        requires
            0 <= factor <= 10_000,
            score >= 0,
    ;
    assert(score * factor / 10_000 >= 0) by (nonlinear_arith)
        requires
            0 <= factor,
            score >= 0,
    ;
    assert(score * 10_000 / 10_000 == score) by (nonlinear_arith);
}

/// The rank adjustment one category rotation earns: an emerging category earns
/// the full bonus when attention breadth confirms it and half otherwise; a
/// saturating one takes the haircut as a negative adjustment; a zero amount, or
/// a rotation that is neither, records nothing.
pub open spec fn spec_meta_rank_adjustment(
    emerging: bool,
    saturating: bool,
    attention_confirms: bool,
    bonus_bp: u32,
    haircut_bp: u32,
) -> Option<i64> {
    if emerging {
        let b: int = if attention_confirms { bonus_bp as int } else { (bonus_bp / 2) as int };
        if b != 0 { Some(b as i64) } else { None }
    } else if saturating {
        if haircut_bp != 0 { Some((-(haircut_bp as int)) as i64) } else { None }
    } else {
        None
    }
}

/// The per-category adjustment a meta rotation records.
pub fn meta_rank_adjustment(
    emerging: bool,
    saturating: bool,
    attention_confirms: bool,
    bonus_bp: u32,
    haircut_bp: u32,
) -> (r: Option<i64>)
    ensures
        r == spec_meta_rank_adjustment(emerging, saturating, attention_confirms, bonus_bp, haircut_bp),
{
    if emerging {
        let full: i64 = bonus_bp as i64;
        let bonus: i64 = if attention_confirms { full } else { full / 2 };
        if bonus != 0 { Some(bonus) } else { None }
    } else if saturating {
        let haircut: i64 = haircut_bp as i64;
        if haircut != 0 { Some(-haircut) } else { None }
    } else {
        None
    }
}


/// The magnitude a veto counterfactual carries: the market's recent realized
/// volatility when it is positive (clamped into `i64`), else the configured
/// expected move.
pub open spec fn spec_counterfactual_mag(recent_vol_bps: Option<i128>, expected_move_bps: u32) -> int {
    match recent_vol_bps {
        Some(v) => {
            let c: int = if v < 0 { 0 } else if v > i64::MAX { i64::MAX as int } else { v as int };
            if c > 0 { c } else { expected_move_bps as int }
        },
        None => expected_move_bps as int,
    }
}

/// The signed veto counterfactual (bps): the magnitude, negative when the swing
/// structure at veto time is a downtrend (the loss the veto avoided), positive
/// otherwise (the upside it forwent).
pub fn veto_counterfactual_bps(recent_vol_bps: Option<i128>, downtrend: bool, expected_move_bps: u32) -> (r: i64)
    ensures
        r == (if downtrend {
            -spec_counterfactual_mag(recent_vol_bps, expected_move_bps)
        } else {
            spec_counterfactual_mag(recent_vol_bps, expected_move_bps)
        }),
{
    let mag: i64 = match recent_vol_bps {
        Some(v) => {
            let c: i64 = if v < 0 { 0 } else if v > 0x7fff_ffff_ffff_ffff { 0x7fff_ffff_ffff_ffff } else { v as i64 };
            if c > 0 { c } else { expected_move_bps as i64 }
        },
        None => expected_move_bps as i64,
    };
    if downtrend { -mag } else { mag }
}

} // verus!
