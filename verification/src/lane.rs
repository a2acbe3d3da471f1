//! The independent discovery lanes: each scans the world its own way and can
//! surface a mint on its own (union, not intersection). Four source modalities
//! map one-to-one onto the watchlist's four ranking lanes:
//!
//! | discovery source        | ranking lane           | self-authorizing |
//! |-------------------------|------------------------|------------------|
//! | Numeric (on-chain flow) | `ActiveMarketScalp`    | yes              |
//! | Narrative (attention)   | `EarlyConfirmation`    | no (corroborate) |
//! | Social (calls/mentions) | `CreationSniper`       | no (corroborate) |
//! | Wallet (smart-money)    | `GraduationTransition` | no (corroborate) |
//!
//! Every lane keeps bounded per-mint state in ascending mint order and evicts its
//! weakest mint at capacity; every score is an integer.

use std::collections::VecDeque;

use vstd::prelude::*;

use crate::event::{LaneKind, Mint};
use crate::table::{
    lemma_prepare_then_set, prior_or, slot_key, upserted, EvictionWeight, KeyTable, Slot,
};

verus! {

/// Bound on how many distinct mints a single lane tracks before it evicts the
/// weakest.
pub const LANE_TRACK_CAP: usize = 4_096;

/// Max recent trades retained per mint for microstructure.
pub const NUMERIC_RING_CAP: usize = 64;

/// Minimum trades before the numeric microstructure is trusted.
pub const NUMERIC_MIN_TRADES: usize = 3;

/// Minimum nonzero price deltas before the Roll estimator is trusted.
pub const ROLL_MIN_NONZERO_DELTAS: usize = 16;

// ---------------------------------------------------------------------------
// Plain values the lanes produce
// ---------------------------------------------------------------------------

/// The watchlist's four ranking lanes.
#[derive(Clone, Copy, Debug, PartialEq, Eq, Structural)]
pub enum RankLane {
    /// Creation sniping.
    CreationSniper,
    /// Early confirmation.
    EarlyConfirmation,
    /// Graduation transition.
    GraduationTransition,
    /// Active-market scalping.
    ActiveMarketScalp,
}

/// The discovery lane a candidate is attributed to for net-SOL reflection.
#[derive(Clone, Copy, Debug, PartialEq, Eq, Structural)]
pub enum DiscoveryLane {
    /// On-chain active-market flow.
    ActiveMarket,
    /// Narrative attention velocity.
    NarrativeAttentionVelocity,
    /// The open social-caller firehose.
    SocialCaller,
    /// A designated-caller alpha room.
    AlphaCall,
    /// Smart-money wallets.
    WalletSmartMoney,
}

/// The numeric feature snapshot a candidate carries.
#[derive(Clone, Copy, Debug, Default, PartialEq, Eq, Structural)]
pub struct Features {
    /// Pool quote-reserve depth, lamports.
    pub liquidity_lamports: u64,
    /// Buy pressure on the 0..=10_000 scale (5_000 = balanced).
    pub buy_pressure_bp: u32,
    /// Distinct buyers seen.
    pub unique_buyers: u32,
    /// Market age, slots.
    pub age_slots: u32,
}

/// A discovered candidate: a mint, its ranking lane, an integer score, the tick it
/// was emitted at, its features and its discovery lane.
#[derive(Clone, Copy, Debug, PartialEq, Eq)]
pub struct Candidate {
    /// The mint.
    pub mint: Mint,
    /// Ranking lane.
    pub lane: RankLane,
    /// Integer discovery score.
    pub score: u64,
    /// Emission tick.
    pub now: u64,
    /// Feature snapshot.
    pub features: Features,
    /// Discovery lane.
    pub discovery_lane: DiscoveryLane,
}

/// The documented source-to-ranking-lane bijection.
pub open spec fn spec_wl_lane_for(kind: LaneKind) -> RankLane {
    match kind {
        LaneKind::Numeric => RankLane::ActiveMarketScalp,
        LaneKind::Narrative => RankLane::EarlyConfirmation,
        LaneKind::Social => RankLane::CreationSniper,
        LaneKind::Wallet => RankLane::GraduationTransition,
    }
}

/// The ranking lane a discovery source feeds.
pub fn wl_lane_for(kind: LaneKind) -> (r: RankLane)
    ensures
        r == spec_wl_lane_for(kind),
{
    match kind {
        LaneKind::Numeric => RankLane::ActiveMarketScalp,
        LaneKind::Narrative => RankLane::EarlyConfirmation,
        LaneKind::Social => RankLane::CreationSniper,
        LaneKind::Wallet => RankLane::GraduationTransition,
    }
}

/// The source-to-lane mapping is a bijection: distinct sources feed distinct
/// ranking lanes.
pub proof fn lemma_wl_lane_for_is_injective(a: LaneKind, b: LaneKind)
    requires
        a != b,
    ensures
        spec_wl_lane_for(a) != spec_wl_lane_for(b),
{
}

// ---------------------------------------------------------------------------
// Integer leaves
// ---------------------------------------------------------------------------

/// Order-flow imbalance (bps, -10_000..=10_000) on the 0..=10_000 buy-pressure
/// scale; no flow reads 0.
pub open spec fn spec_ofi_to_pressure_bp(ofi_bps: Option<i32>) -> u32 {
    match ofi_bps {
        Some(b) => ((b + 10_000) / 2) as u32,
        None => 0,
    }
}

/// Map order-flow imbalance onto the shared buy-pressure scale.
pub fn ofi_to_pressure_bp(ofi_bps: Option<i32>) -> (r: u32)
    requires
        ofi_bps matches Some(b) ==> -10_000 <= b <= 10_000,
    ensures
        r == spec_ofi_to_pressure_bp(ofi_bps),
        r <= 10_000,
{
    match ofi_bps {
        Some(b) => ((b as i64 + 10_000) / 2) as u32,
        None => 0,
    }
}

/// The number of decimal digits of `v` (0 for 0): a coarse base-10 magnitude.
pub open spec fn spec_decade(v: nat) -> nat
    decreases v,
{
    if v == 0 {
        0
    } else {
        1 + spec_decade(v / 10)
    }
}

/// `10^k`.
pub open spec fn pow10(k: nat) -> nat
    decreases k,
{
    if k == 0 {
        1
    } else {
        10 * pow10((k - 1) as nat)
    }
}

/// A value below `10^k` has at most `k` digits.
proof fn lemma_decade_le(v: nat, k: nat)
    requires
        v < pow10(k),
    ensures
        spec_decade(v) <= k,
    decreases k,
{
    if v > 0 {
        assert(k > 0);
        lemma_decade_le(v / 10, (k - 1) as nat);
    }
}

/// A coarse base-10 magnitude of a lamport quantity (0 -> 0, 1..9 -> 1, 10..99 -> 2).
pub fn decade(v: u64) -> (r: u64)
    ensures
        r == spec_decade(v as nat),
{
    proof {
        reveal_with_fuel(pow10, 21);
        assert(pow10(20) == 100_000_000_000_000_000_000);
        lemma_decade_le(v as nat, 20);
    }
    let mut x: u64 = v;
    let mut d: u64 = 0;
    while x > 0
        invariant
            d + spec_decade(x as nat) == spec_decade(v as nat),
            d <= 20 - spec_decade(x as nat),
            spec_decade(x as nat) <= 20,
        decreases x,
    {
        assert(spec_decade(x as nat) == 1 + spec_decade(x as nat / 10));
        x = x / 10;
        d = d + 1;
    }
    d
}

/// The tape's momentum/reversion regime from the sign of the lag-1 serial
/// covariance of price changes.
#[derive(Clone, Copy, Debug, PartialEq, Eq, Structural)]
pub enum Regime {
    /// Positive serial covariance: momentum playbook.
    Trend,
    /// Deadband or insufficient tape: default playbook.
    Neutral,
    /// Negative serial covariance: raised entry bar and reduced size.
    Revert,
}

/// The regime of a rho reading against the deadband edges.
pub open spec fn spec_classify_regime(rho_bp: Option<i64>, trend_bp: i64, revert_bp: i64) -> Regime {
    match rho_bp {
        Some(r) => if r >= trend_bp {
            Regime::Trend
        } else if r <= revert_bp {
            Regime::Revert
        } else {
            Regime::Neutral
        },
        None => Regime::Neutral,
    }
}

/// Classify a rho reading against operator deadband edges.
pub fn classify_regime(rho_bp: Option<i64>, trend_bp: i64, revert_bp: i64) -> (r: Regime)
    ensures
        r == spec_classify_regime(rho_bp, trend_bp, revert_bp),
{
    match rho_bp {
        Some(r) => {
            if r >= trend_bp {
                Regime::Trend
            } else if r <= revert_bp {
                Regime::Revert
            } else {
                Regime::Neutral
            }
        },
        None => Regime::Neutral,
    }
}

/// The side of a trade.
#[derive(Clone, Copy, Debug, PartialEq, Eq, Structural)]
pub enum Side {
    /// A buy.
    Buy,
    /// A sell.
    Sell,
}

/// One decoded trade in a mint's ring.
#[derive(Clone, Copy, Debug, PartialEq, Eq, Structural)]
pub struct TradeEvent {
    /// Event id.
    pub event_id: u64,
    /// Timestamp (logical).
    pub ts_ns: u64,
    /// Execution price, fixed-point.
    pub price_fp: i128,
    /// Base quantity (unsigned).
    pub base_qty: u64,
    /// Quote quantity, lamports.
    pub quote_qty: u64,
    /// Trade side.
    pub side: Side,
}

/// `v` clamped to the `i128` range.
pub open spec fn sat_i128(v: int) -> int {
    if v > i128::MAX {
        i128::MAX as int
    } else if v < i128::MIN {
        i128::MIN as int
    } else {
        v
    }
}

/// Division rounding toward zero.
pub open spec fn trunc_div(a: int, b: int) -> int {
    if a >= 0 && b > 0 {
        a / b
    } else if a < 0 && b > 0 {
        -((-a) / b)
    } else if a >= 0 && b < 0 {
        -(a / (-b))
    } else {
        (-a) / (-b)
    }
}

/// The running state of the serial-covariance fold: the covariance numerator,
/// the squared-delta denominator (both saturating), the previous delta, and the
/// count of nonzero deltas.
pub struct RollState {
    /// Sum of products of consecutive deltas.
    pub cov: int,
    /// Sum of squared deltas.
    pub den: int,
    /// The previous delta.
    pub prev: Option<int>,
    /// Nonzero deltas seen.
    pub nonzero: nat,
}

/// The price change across window `i` (trades `i` and `i + 1`).
pub open spec fn price_delta(t: Seq<TradeEvent>, i: int) -> int {
    t[i + 1].price_fp - t[i].price_fp
}

/// The fold after the first `m` windows.
pub open spec fn roll_fold(t: Seq<TradeEvent>, m: nat) -> RollState
    decreases m,
{
    if m == 0 {
        RollState { cov: 0, den: 0, prev: None, nonzero: 0 }
    } else {
        let st = roll_fold(t, (m - 1) as nat);
        let d = price_delta(t, m - 1);
        RollState {
            cov: match st.prev {
                Some(pd) => sat_i128(st.cov + sat_i128(d * pd)),
                None => st.cov,
            },
            den: sat_i128(st.den + sat_i128(d * d)),
            prev: Some(d),
            nonzero: st.nonzero + if d != 0 { 1nat } else { 0nat },
        }
    }
}

/// Every consecutive price change fits an `i128`.
pub open spec fn deltas_fit(t: Seq<TradeEvent>) -> bool {
    forall|i: int| 0 <= i < t.len() - 1 ==> i128::MIN <= #[trigger] price_delta(t, i) <= i128::MAX
}

/// The lag-1 (uncentered) autocorrelation of price changes in bps:
/// `10_000 x sum(d_i x d_(i-1)) / sum(d_i^2)`, truncated toward zero and read
/// as an `i64`; `None` under three trades, under `ROLL_MIN_NONZERO_DELTAS`
/// nonzero deltas, or on a zero denominator.
pub open spec fn spec_roll_rho_bp(t: Seq<TradeEvent>) -> Option<i64> {
    if t.len() < 3 {
        None
    } else {
        let st = roll_fold(t, (t.len() - 1) as nat);
        if st.nonzero < ROLL_MIN_NONZERO_DELTAS || st.den == 0 {
            None
        } else {
            Some(trunc_div(sat_i128(st.cov * 10_000), st.den) as i64)
        }
    }
}

proof fn lemma_roll_fold_bounds(t: Seq<TradeEvent>, m: nat)
    ensures
        i128::MIN <= roll_fold(t, m).cov <= i128::MAX,
        0 <= roll_fold(t, m).den <= i128::MAX,
    decreases m,
{
    if m > 0 {
        lemma_roll_fold_bounds(t, (m - 1) as nat);
        let d = price_delta(t, m - 1);
        assert(d * d >= 0) by (nonlinear_arith);
    }
}

/// `a x b`, saturating at the `i128` bounds.
pub fn sat_mul_i128(a: i128, b: i128) -> (r: i128)
    ensures
        r == sat_i128(a * b),
{
    match a.checked_mul(b) {
        Some(v) => v,
        None => {
            if (a > 0) == (b > 0) {
                proof {
                    assert(a * b > 0) by (nonlinear_arith)
                        requires
                            (a > 0) == (b > 0),
                            a != 0,
                            b != 0,
                    ;
                }
                i128::MAX
            } else {
                proof {
                    assert(a * b < 0) by (nonlinear_arith)
                        requires
                            (a > 0) != (b > 0),
                            a != 0,
                            b != 0,
                    ;
                }
                i128::MIN
            }
        },
    }
}

fn sat_add_i128(a: i128, b: i128) -> (r: i128)
    ensures
        r == sat_i128(a + b),
{
    if b > 0 && a > i128::MAX - b {
        i128::MAX
    } else if b < 0 && a < i128::MIN - b {
        i128::MIN
    } else {
        a + b
    }
}

/// The lag-1 autocorrelation of trade-price changes over `trades`, in bps.
pub fn roll_rho_bp(trades: &[TradeEvent]) -> (r: Option<i64>)
    requires
        deltas_fit(trades@),
    ensures
        r == spec_roll_rho_bp(trades@),
{
    if trades.len() < 3 {
        return None;
    }
    let ghost t = trades@;
    let mut cov_num: i128 = 0;
    let mut den: i128 = 0;
    let mut prev_delta: Option<i128> = None;
    let mut nonzero: usize = 0;
    let mut i: usize = 0;
    while i < trades.len() - 1
        invariant
            t == trades@,
            deltas_fit(t),
            t.len() >= 3,
            i + 1 <= t.len(),
            nonzero <= i,
            ({
                let st = roll_fold(t, i as nat);
                &&& cov_num == st.cov
                &&& den == st.den
                &&& nonzero == st.nonzero
                &&& match prev_delta {
                    Some(p) => st.prev == Some(p as int),
                    None => st.prev is None,
                }
            }),
        decreases t.len() - i,
    {
        proof {
            assert(i128::MIN <= price_delta(t, i as int) <= i128::MAX);
        }
        let d: i128 = trades[i + 1].price_fp - trades[i].price_fp;
        if d != 0 {
            nonzero += 1;
        }
        den = sat_add_i128(den, sat_mul_i128(d, d));
        match prev_delta {
            Some(pd) => {
                cov_num = sat_add_i128(cov_num, sat_mul_i128(d, pd));
            },
            None => {},
        }
        prev_delta = Some(d);
        i += 1;
    }
    if nonzero < ROLL_MIN_NONZERO_DELTAS || den == 0 {
        return None;
    }
    proof {
        lemma_roll_fold_bounds(t, (t.len() - 1) as nat);
    }
    let q: i128 = sat_mul_i128(cov_num, 10_000) / den;
    Some(#[verifier::truncate] (q as i64))
}

/// The operator gate the numeric lane's emission consults.
#[derive(Clone, Copy, Debug, PartialEq, Eq, Structural)]
pub struct NumericEmitGate {
    /// Baseline minimum order-flow imbalance (bps) to emit.
    pub ofi_min_bp: u32,
    /// Raised imbalance bar under `Regime::Revert`.
    pub revert_ofi_min_bp: u32,
    /// Regime deadband edge for trend (rho bps at or above).
    pub roll_trend_bp: i64,
    /// Regime deadband edge for revert (rho bps at or below; negative).
    pub roll_revert_bp: i64,
    /// Evidence freshness limit (ticks).
    pub evidence_ttl_ticks: u64,
}

/// Attention decay applied to narrative evidence at emission: multiplicative
/// shrinkage per age step, with an absolute floor.
#[derive(Clone, Copy, Debug)]
pub struct AttentionDecayParams {
    /// Per-step survival rate, bps of 10_000 (at most 10_000).
    pub rate_bp: u32,
    /// Logical ticks per decay step (0 reads as 1).
    pub step_ticks: u64,
    /// Absolute decayed-score floor: below it the mint emits nothing.
    pub floor: u64,
}

/// Bound on decay iterations.
pub const ATTENTION_MAX_STEPS: u64 = 32;

/// `s` decayed by `rate_bp` for `k` steps, each step rounding down.
pub open spec fn decay_steps(s: nat, rate_bp: nat, k: nat) -> nat
    decreases k,
{
    if k == 0 {
        s
    } else {
        decay_steps(s, rate_bp, (k - 1) as nat) * rate_bp / 10_000
    }
}

/// The number of decay steps an age covers: `age / max(step, 1)`, capped.
pub open spec fn decay_step_count(p: AttentionDecayParams, age_ticks: u64) -> nat {
    let step: nat = if p.step_ticks >= 1 { p.step_ticks as nat } else { 1 };
    let k = age_ticks as nat / step;
    if k > ATTENTION_MAX_STEPS { ATTENTION_MAX_STEPS as nat } else { k }
}

/// A rate of at most 100% never grows a score.
proof fn lemma_decay_steps_le(s: nat, rate_bp: nat, k: nat)
    requires
        rate_bp <= 10_000,
    ensures
        decay_steps(s, rate_bp, k) <= s,
    decreases k,
{
    if k > 0 {
        lemma_decay_steps_le(s, rate_bp, (k - 1) as nat);
        let prev = decay_steps(s, rate_bp, (k - 1) as nat);
        assert(prev * rate_bp <= prev * 10_000) by (nonlinear_arith)
            requires
                rate_bp <= 10_000,
        ;
        assert(prev * rate_bp / 10_000 <= prev) by (nonlinear_arith)
            requires
                prev * rate_bp <= prev * 10_000,
        ;
    }
}

/// More steps never give more.
pub proof fn lemma_decay_is_antitone_in_steps(s: nat, rate_bp: nat, k1: nat, k2: nat)
    requires
        rate_bp <= 10_000,
        k1 <= k2,
    ensures
        decay_steps(s, rate_bp, k2) <= decay_steps(s, rate_bp, k1),
    decreases k2 - k1,
{
    if k1 < k2 {
        lemma_decay_is_antitone_in_steps(s, rate_bp, k1, (k2 - 1) as nat);
        let prev = decay_steps(s, rate_bp, (k2 - 1) as nat);
        assert(prev * rate_bp / 10_000 <= prev) by (nonlinear_arith)
            requires
                rate_bp <= 10_000,
        ;
    }
}

impl AttentionDecayParams {
    /// `score x rate^(age/step)`, integer, rounding down at every step, at most
    /// `ATTENTION_MAX_STEPS` steps.
    pub fn apply(&self, score: u64, age_ticks: u64) -> (r: u64)
        requires
            self.rate_bp <= 10_000,
        ensures
            r == decay_steps(score as nat, self.rate_bp as nat, decay_step_count(*self, age_ticks)),
            r <= score,
    {
        let step: u64 = if self.step_ticks >= 1 { self.step_ticks } else { 1 };
        let k0: u64 = age_ticks / step;
        let steps: u64 = if k0 > ATTENTION_MAX_STEPS { ATTENTION_MAX_STEPS } else { k0 };
        let mut s: u128 = score as u128;
        let mut i: u64 = 0;
        while i < steps
            invariant
                i <= steps,
                steps == decay_step_count(*self, age_ticks),
                self.rate_bp <= 10_000,
                s == decay_steps(score as nat, self.rate_bp as nat, i as nat),
                s <= score,
            decreases steps - i,
        {
            proof {
                lemma_decay_steps_le(score as nat, self.rate_bp as nat, (i + 1) as nat);
                assert(s * (self.rate_bp as u128) <= 0xffff_ffff_ffff_ffff * 10_000) by (nonlinear_arith)
                    requires
                        s <= 0xffff_ffff_ffff_ffff,
                        self.rate_bp <= 10_000,
                ;
            }
            s = s * (self.rate_bp as u128) / 10_000;
            i = i + 1;
        }
        s as u64
    }
}

} // verus!

verus! {

/// `now - then`, floored at zero.
pub open spec fn age_of(now: u64, then: u64) -> u64 {
    if now >= then { (now - then) as u64 } else { 0 }
}

/// `a + b`, saturating at `u64::MAX`.
pub open spec fn sat_add_u64(a: u64, b: u64) -> u64 {
    if a + b > u64::MAX { u64::MAX } else { (a + b) as u64 }
}

/// `a * b`, saturating at `u64::MAX`.
pub open spec fn sat_mul_u64(a: u64, b: u64) -> u64 {
    if a * b > u64::MAX { u64::MAX } else { (a * b) as u64 }
}

// ---------------------------------------------------------------------------
// Narrative lane
// ---------------------------------------------------------------------------

/// Per-mint narrative evidence.
#[derive(Clone, Copy, Debug, Default, PartialEq, Eq, Structural)]
pub struct NarrativeObs {
    /// Mentions active in the prior window, as last reported.
    pub prior_active: u64,
    /// New mentions accumulated (saturating).
    pub new_mentions: u64,
    /// Samples folded in (saturating).
    pub samples: u32,
    /// Tick of the last sample.
    pub last_tick: u64,
}

impl EvictionWeight for NarrativeObs {
    open spec fn spec_weight(&self) -> u64 {
        self.new_mentions
    }

    fn weight(&self) -> (w: u64) {
        self.new_mentions
    }
}

/// A mint's narrative evidence after one more sample.
pub open spec fn narrative_observed(prior: NarrativeObs, prior_active: u64, new_mentions: u64, now: u64) -> NarrativeObs {
    NarrativeObs {
        prior_active,
        new_mentions: sat_add_u64(prior.new_mentions, new_mentions),
        samples: if prior.samples == u32::MAX { u32::MAX } else { (prior.samples + 1) as u32 },
        last_tick: now,
    }
}

/// The narrative / attention-velocity lane.
#[derive(Clone, Debug)]
pub struct NarrativeLane {
    obs: KeyTable<NarrativeObs>,
}

impl NarrativeLane {
    /// The lane's per-mint evidence.
    pub closed spec fn evidence(&self) -> KeyTable<NarrativeObs> {
        self.obs
    }

    /// Well-formedness: an ordered table within the track bound.
    pub closed spec fn wf(&self) -> bool {
        self.obs.wf() && self.obs.entries().len() <= LANE_TRACK_CAP
    }

    /// A fresh, empty lane.
    pub fn new() -> (r: Self)
        ensures
            r.wf(),
            r.evidence().entries().len() == 0,
    {
        NarrativeLane { obs: KeyTable::new() }
    }

    /// Ingest a narrative sample at logical `now`.
    pub fn observe(&mut self, mint: Mint, prior_active: u64, new_mentions: u64, now: u64)
        requires
            old(self).wf(),
        ensures
            final(self).wf(),
            upserted(
                old(self).evidence(),
                final(self).evidence(),
                mint,
                narrative_observed(
                    prior_or(old(self).evidence(), mint, NarrativeObs { prior_active: 0, new_mentions: 0, samples: 0, last_tick: 0 }),
                    prior_active,
                    new_mentions,
                    now,
                ),
                LANE_TRACK_CAP as nat,
            ),
    {
        let fresh = NarrativeObs { prior_active: 0, new_mentions: 0, samples: 0, last_tick: 0 };
        let ghost o = self.obs;
        let p = self.obs.prepare(&mint, LANE_TRACK_CAP, fresh);
        let ghost mid = self.obs;
        let e = self.obs.at(p).val;
        let upd = NarrativeObs {
            prior_active,
            new_mentions: e.new_mentions.saturating_add(new_mentions),
            samples: e.samples.saturating_add(1),
            last_tick: now,
        };
        self.obs.set_val(p, upd);
        proof {
            lemma_prepare_then_set(o, mid, self.obs, mint, fresh, upd, LANE_TRACK_CAP as nat);
        }
    }
}

// ---------------------------------------------------------------------------
// Social lane
// ---------------------------------------------------------------------------

/// Per-mint social evidence: summed quality weight, last observation tick, and
/// whether a designated-caller alpha room surfaced the mint (sticky).
#[derive(Clone, Copy, Debug, PartialEq, Eq, Structural)]
pub struct SocialObs {
    /// Summed source quality (saturating).
    pub quality: u64,
    /// Tick of the last call.
    pub last: u64,
    /// Whether an alpha room ever called the mint.
    pub alpha: bool,
}

impl EvictionWeight for SocialObs {
    open spec fn spec_weight(&self) -> u64 {
        self.quality
    }

    fn weight(&self) -> (w: u64) {
        self.quality
    }
}

/// A mint's social evidence after one more call.
pub open spec fn social_observed(prior: SocialObs, source_quality_bp: u32, now: u64, alpha: bool) -> SocialObs {
    SocialObs { quality: sat_add_u64(prior.quality, source_quality_bp as u64), last: now, alpha: prior.alpha || alpha }
}

/// The candidate a fresh social entry emits.
pub open spec fn social_candidate(s: Slot<SocialObs>, now: u64) -> Candidate {
    Candidate {
        mint: s.key,
        lane: RankLane::CreationSniper,
        score: s.val.quality,
        now,
        features: Features { liquidity_lamports: 0, buy_pressure_bp: 0, unique_buyers: 0, age_slots: 0 },
        discovery_lane: if s.val.alpha { DiscoveryLane::AlphaCall } else { DiscoveryLane::SocialCaller },
    }
}

/// The candidates the social entries emit at `now`, in key order: every entry
/// whose last call is at most `ttl_ticks` old.
pub open spec fn social_emitted(s: Seq<Slot<SocialObs>>, now: u64, ttl_ticks: u64) -> Seq<Candidate>
    decreases s.len(),
{
    if s.len() == 0 {
        Seq::empty()
    } else {
        let rest = social_emitted(s.drop_last(), now, ttl_ticks);
        if age_of(now, s.last().val.last) > ttl_ticks {
            rest
        } else {
            rest.push(social_candidate(s.last(), now))
        }
    }
}

/// The social lane: quality-weighted call accumulation, corroboration-tier.
#[derive(Clone, Debug)]
pub struct SocialLane {
    obs: KeyTable<SocialObs>,
}

impl SocialLane {
    /// The lane's per-mint evidence.
    pub closed spec fn evidence(&self) -> KeyTable<SocialObs> {
        self.obs
    }

    /// Well-formedness: an ordered table within the track bound.
    pub closed spec fn wf(&self) -> bool {
        self.obs.wf() && self.obs.entries().len() <= LANE_TRACK_CAP
    }

    /// A fresh, empty lane.
    pub fn new() -> (r: Self)
        ensures
            r.wf(),
            r.evidence().entries().len() == 0,
    {
        SocialLane { obs: KeyTable::new() }
    }

    /// Ingest a scored social call at logical `now` (the open social-caller lane).
    pub fn observe(&mut self, mint: Mint, source_quality_bp: u32, now: u64)
        requires
            old(self).wf(),
        ensures
            final(self).wf(),
            upserted(
                old(self).evidence(),
                final(self).evidence(),
                mint,
                social_observed(prior_or(old(self).evidence(), mint, SocialObs { quality: 0, last: now, alpha: false }), source_quality_bp, now, false),
                LANE_TRACK_CAP as nat,
            ),
    {
        self.observe_lane(mint, source_quality_bp, now, false);
    }

    /// Ingest a scored call from a designated-caller alpha room: the same
    /// accumulation, and the mint is marked alpha-sourced for good.
    pub fn observe_alpha(&mut self, mint: Mint, source_quality_bp: u32, now: u64)
        requires
            old(self).wf(),
        ensures
            final(self).wf(),
            upserted(
                old(self).evidence(),
                final(self).evidence(),
                mint,
                social_observed(prior_or(old(self).evidence(), mint, SocialObs { quality: 0, last: now, alpha: false }), source_quality_bp, now, true),
                LANE_TRACK_CAP as nat,
            ),
    {
        self.observe_lane(mint, source_quality_bp, now, true);
    }

    fn observe_lane(&mut self, mint: Mint, source_quality_bp: u32, now: u64, alpha: bool)
        requires
            old(self).wf(),
        ensures
            final(self).wf(),
            upserted(
                old(self).evidence(),
                final(self).evidence(),
                mint,
                social_observed(prior_or(old(self).evidence(), mint, SocialObs { quality: 0, last: now, alpha: false }), source_quality_bp, now, alpha),
                LANE_TRACK_CAP as nat,
            ),
    {
        let fresh = SocialObs { quality: 0, last: now, alpha: false };
        let ghost o = self.obs;
        let p = self.obs.prepare(&mint, LANE_TRACK_CAP, fresh);
        let ghost mid = self.obs;
        let e = self.obs.at(p).val;
        let upd = SocialObs { quality: e.quality.saturating_add(source_quality_bp as u64), last: now, alpha: e.alpha || alpha };
        self.obs.set_val(p, upd);
        proof {
            lemma_prepare_then_set(o, mid, self.obs, mint, fresh, upd, LANE_TRACK_CAP as nat);
        }
    }

    /// One candidate per fresh tracked mint, in key order (see `social_emitted`).
    pub fn emit(&self, now: u64, ttl_ticks: u64) -> (r: Vec<Candidate>)
        requires
            self.wf(),
        ensures
            r@ == social_emitted(self.evidence().entries(), now, ttl_ticks),
    {
        let mut out: Vec<Candidate> = Vec::new();
        self.emit_into(&mut out, now, ttl_ticks);
        out
    }

    /// Append one candidate per fresh tracked mint into `buf`.
    pub fn emit_into(&self, buf: &mut Vec<Candidate>, now: u64, ttl_ticks: u64)
        requires
            self.wf(),
        ensures
            final(buf)@ == old(buf)@ + social_emitted(self.evidence().entries(), now, ttl_ticks),
    {
        let ghost start = buf@;
        let ghost s = self.obs.entries();
        let mut i: usize = 0;
        while i < self.obs.len()
            invariant
                s == self.obs.entries(),
                i <= s.len(),
                buf@ == start + social_emitted(s.subrange(0, i as int), now, ttl_ticks),
            decreases s.len() - i,
        {
            let slot = self.obs.at(i);
            proof {
                assert(s.subrange(0, i + 1).drop_last() =~= s.subrange(0, i as int));
                assert(s.subrange(0, i + 1).last() == s[i as int]);
            }
            if now.saturating_sub(slot.val.last) <= ttl_ticks {
                let c = Candidate {
                    mint: slot.key,
                    lane: RankLane::CreationSniper,
                    score: slot.val.quality,
                    now,
                    features: Features { liquidity_lamports: 0, buy_pressure_bp: 0, unique_buyers: 0, age_slots: 0 },
                    discovery_lane: if slot.val.alpha { DiscoveryLane::AlphaCall } else { DiscoveryLane::SocialCaller },
                };
                buf.push(c);
            }
            i += 1;
            proof {
                assert(buf@ =~= start + social_emitted(s.subrange(0, i as int), now, ttl_ticks));
            }
        }
        proof {
            assert(s.subrange(0, s.len() as int) =~= s);
        }
    }
}

// ---------------------------------------------------------------------------
// Wallet lane
// ---------------------------------------------------------------------------

/// Per-mint smart-money evidence: cumulative followable size and the last tick.
#[derive(Clone, Copy, Debug, PartialEq, Eq, Structural)]
pub struct WalletObs {
    /// Cumulative followable lamports (saturating).
    pub size: u64,
    /// Tick of the last action.
    pub last: u64,
}

impl EvictionWeight for WalletObs {
    open spec fn spec_weight(&self) -> u64 {
        self.size
    }

    fn weight(&self) -> (w: u64) {
        self.size
    }
}

/// The candidate a fresh wallet entry emits: the decade of its size, scaled.
pub open spec fn wallet_candidate(s: Slot<WalletObs>, now: u64, score_scale: u64) -> Candidate {
    Candidate {
        mint: s.key,
        lane: RankLane::GraduationTransition,
        score: sat_mul_u64(spec_decade(s.val.size as nat) as u64, score_scale),
        now,
        features: Features { liquidity_lamports: 0, buy_pressure_bp: 0, unique_buyers: 0, age_slots: 0 },
        discovery_lane: DiscoveryLane::WalletSmartMoney,
    }
}

/// The candidates the wallet entries emit at `now`, in key order.
pub open spec fn wallet_emitted(s: Seq<Slot<WalletObs>>, now: u64, score_scale: u64, ttl_ticks: u64) -> Seq<Candidate>
    decreases s.len(),
{
    if s.len() == 0 {
        Seq::empty()
    } else {
        let rest = wallet_emitted(s.drop_last(), now, score_scale, ttl_ticks);
        if age_of(now, s.last().val.last) > ttl_ticks {
            rest
        } else {
            rest.push(wallet_candidate(s.last(), now, score_scale))
        }
    }
}

/// The wallet / smart-money lane: cumulative followable size, corroboration-tier.
#[derive(Clone, Debug)]
pub struct WalletLane {
    obs: KeyTable<WalletObs>,
}

impl WalletLane {
    /// The lane's per-mint evidence.
    pub closed spec fn evidence(&self) -> KeyTable<WalletObs> {
        self.obs
    }

    /// Well-formedness: an ordered table within the track bound.
    pub closed spec fn wf(&self) -> bool {
        self.obs.wf() && self.obs.entries().len() <= LANE_TRACK_CAP
    }

    /// A fresh, empty lane.
    pub fn new() -> (r: Self)
        ensures
            r.wf(),
            r.evidence().entries().len() == 0,
    {
        WalletLane { obs: KeyTable::new() }
    }

    /// Ingest a smart-money action at logical `now`; only followable wallets
    /// contribute, and anything else leaves the lane untouched.
    pub fn observe(&mut self, mint: Mint, followable: bool, size_lamports: u64, now: u64)
        requires
            old(self).wf(),
        ensures
            final(self).wf(),
            !followable ==> final(self).evidence() == old(self).evidence(),
            followable ==> upserted(
                old(self).evidence(),
                final(self).evidence(),
                mint,
                ({
                    let prior = prior_or(old(self).evidence(), mint, WalletObs { size: 0, last: now });
                    WalletObs { size: sat_add_u64(prior.size, size_lamports), last: now }
                }),
                LANE_TRACK_CAP as nat,
            ),
    {
        if !followable {
            return;
        }
        let fresh = WalletObs { size: 0, last: now };
        let ghost o = self.obs;
        let p = self.obs.prepare(&mint, LANE_TRACK_CAP, fresh);
        let ghost mid = self.obs;
        let e = self.obs.at(p).val;
        let upd = WalletObs { size: e.size.saturating_add(size_lamports), last: now };
        self.obs.set_val(p, upd);
        proof {
            lemma_prepare_then_set(o, mid, self.obs, mint, fresh, upd, LANE_TRACK_CAP as nat);
        }
    }

    /// Cumulative followable inflow (lamports) tracked for a mint, 0 when untracked.
    pub fn inflow_of(&self, mint: Mint) -> (r: u64)
        requires
            self.wf(),
        ensures
            r == (match self.evidence().get(mint) {
                Some(w) => w.size,
                None => 0,
            }),
    {
        match self.obs.find(&mint) {
            Some(i) => self.obs.at(i).val.size,
            None => 0,
        }
    }

    /// One candidate per fresh tracked mint, in key order (see `wallet_emitted`).
    pub fn emit(&self, now: u64, score_scale: u64, ttl_ticks: u64) -> (r: Vec<Candidate>)
        requires
            self.wf(),
        ensures
            r@ == wallet_emitted(self.evidence().entries(), now, score_scale, ttl_ticks),
    {
        let mut out: Vec<Candidate> = Vec::new();
        self.emit_into(&mut out, now, score_scale, ttl_ticks);
        out
    }

    /// Append one candidate per fresh tracked mint into `buf`.
    pub fn emit_into(&self, buf: &mut Vec<Candidate>, now: u64, score_scale: u64, ttl_ticks: u64)
        requires
            self.wf(),
        ensures
            final(buf)@ == old(buf)@ + wallet_emitted(self.evidence().entries(), now, score_scale, ttl_ticks),
    {
        let ghost start = buf@;
        let ghost s = self.obs.entries();
        let mut i: usize = 0;
        while i < self.obs.len()
            invariant
                s == self.obs.entries(),
                i <= s.len(),
                buf@ == start + wallet_emitted(s.subrange(0, i as int), now, score_scale, ttl_ticks),
            decreases s.len() - i,
        {
            let slot = self.obs.at(i);
            proof {
                assert(s.subrange(0, i + 1).drop_last() =~= s.subrange(0, i as int));
                assert(s.subrange(0, i + 1).last() == s[i as int]);
            }
            if now.saturating_sub(slot.val.last) <= ttl_ticks {
                let d = decade(slot.val.size);
                let score = match d.checked_mul(score_scale) {
                    Some(v) => v,
                    None => u64::MAX,
                };
                let c = Candidate {
                    mint: slot.key,
                    lane: RankLane::GraduationTransition,
                    score,
                    now,
                    features: Features { liquidity_lamports: 0, buy_pressure_bp: 0, unique_buyers: 0, age_slots: 0 },
                    discovery_lane: DiscoveryLane::WalletSmartMoney,
                };
                buf.push(c);
            }
            i += 1;
            proof {
                assert(buf@ =~= start + wallet_emitted(s.subrange(0, i as int), now, score_scale, ttl_ticks));
            }
        }
        proof {
            assert(s.subrange(0, s.len() as int) =~= s);
        }
    }
}

} // verus!

verus! {

// ---------------------------------------------------------------------------
// Numeric lane
// ---------------------------------------------------------------------------

/// Per-mint numeric microstructure: a bounded ring of recent trades plus the
/// scalar context a discovery score needs.
#[derive(Debug)]
pub struct NumericObs {
    /// Pool depth at the last trade, lamports.
    pub liquidity_lamports: u64,
    /// Buyer-breadth proxy: entity ids folded into a 64-bit set.
    pub buyer_bitset: u64,
    /// Market age at the last trade, slots.
    pub age_slots: u32,
    /// Tick of the last trade.
    pub last_tick: u64,
    /// Recent trades, oldest first, at most `NUMERIC_RING_CAP`.
    pub trades: VecDeque<TradeEvent>,
}

impl EvictionWeight for NumericObs {
    open spec fn spec_weight(&self) -> u64 {
        self.trades@.len() as u64
    }

    fn weight(&self) -> (w: u64) {
        self.trades.len() as u64
    }
}

/// The ring after appending `t`, dropping the oldest trade when full.
pub open spec fn ring_push(ring: Seq<TradeEvent>, t: TradeEvent) -> Seq<TradeEvent> {
    if ring.len() >= NUMERIC_RING_CAP {
        ring.subrange(1, ring.len() as int).push(t)
    } else {
        ring.push(t)
    }
}

/// A numeric entry's invariant: a bounded ring.
pub open spec fn numeric_obs_wf(o: NumericObs) -> bool {
    o.trades@.len() <= NUMERIC_RING_CAP
}

/// The on-chain numeric lane: trade-flow microstructure over a bounded per-mint
/// trade ring. The only self-authorizing lane.
#[derive(Debug)]
pub struct NumericLane {
    obs: KeyTable<NumericObs>,
}

impl NumericLane {
    /// The lane's per-mint evidence.
    pub closed spec fn evidence(&self) -> KeyTable<NumericObs> {
        self.obs
    }

    /// Well-formedness: an ordered table within the track bound, every ring
    /// bounded.
    pub closed spec fn wf(&self) -> bool {
        &&& self.obs.wf()
        &&& self.obs.entries().len() <= LANE_TRACK_CAP
        &&& forall|k: Mint| #[trigger] self.obs.get(k) is Some ==> numeric_obs_wf(self.obs.get(k)->Some_0)
    }

    /// A fresh, empty lane.
    pub fn new() -> (r: Self)
        ensures
            r.wf(),
            r.evidence().entries().len() == 0,
    {
        NumericLane { obs: KeyTable::new() }
    }

    /// One ingested swap: the mint's entry is written (possibly evicting the
    /// weakest when the lane is full), its scalar context refreshed, its buyer set
    /// extended, and the trade appended to its bounded ring.
    pub open spec fn observe_transition(
        old: NumericLane,
        new: NumericLane,
        mint: Mint,
        price_fp: i128,
        quote_lamports: u64,
        liquidity_lamports: u64,
        signed_base: i64,
        buyer_entity: u64,
        age_slots: u32,
        now: u64,
    ) -> bool {
        let e = new.evidence().get(mint)->Some_0;
        let prior_ring = match old.evidence().get(mint) {
            Some(p) => p.trades@,
            None => Seq::<TradeEvent>::empty(),
        };
        let prior_bits: u64 = match old.evidence().get(mint) {
            Some(p) => p.buyer_bitset,
            None => 0,
        };
        &&& new.evidence().get(mint) is Some
        &&& upserted(old.evidence(), new.evidence(), mint, e, LANE_TRACK_CAP as nat)
        &&& e.liquidity_lamports == liquidity_lamports
        &&& e.age_slots == age_slots
        &&& e.last_tick == now
        &&& e.buyer_bitset == prior_bits | (1u64 << (buyer_entity % 64))
        &&& e.trades@ == ring_push(
            prior_ring,
            TradeEvent {
                event_id: now,
                ts_ns: now,
                price_fp,
                base_qty: if signed_base >= 0 { signed_base as u64 } else { (-(signed_base as int)) as u64 },
                quote_qty: quote_lamports,
                side: if signed_base >= 0 { Side::Buy } else { Side::Sell },
            },
        )
    }

    /// Ingest a decoded swap: append it to the mint's bounded ring and refresh the
    /// scalar context. The trade is a buy when `signed_base >= 0`.
    pub fn observe(
        &mut self,
        mint: Mint,
        price_fp: i128,
        quote_lamports: u64,
        liquidity_lamports: u64,
        signed_base: i64,
        buyer_entity: u64,
        age_slots: u32,
        now: u64,
    )
        requires
            old(self).wf(),
        ensures
            final(self).wf(),
            Self::observe_transition(
                *old(self),
                *final(self),
                mint,
                price_fp,
                quote_lamports,
                liquidity_lamports,
                signed_base,
                buyer_entity,
                age_slots,
                now,
            ),
    {
        let fresh = NumericObs { liquidity_lamports: 0, buyer_bitset: 0, age_slots: 0, last_tick: 0, trades: VecDeque::new() };
        let ghost o = self.obs;
        let p = self.obs.prepare(&mint, LANE_TRACK_CAP, fresh);
        let ghost mid = self.obs;
        let vacant = NumericObs { liquidity_lamports: 0, buyer_bitset: 0, age_slots: 0, last_tick: 0, trades: VecDeque::new() };
        let mut e = self.obs.replace_val(p, vacant);
        let ghost prior = e;
        proof {
            assert(prior == prior_or(o, mint, fresh));
            if o.get(mint) is None {
                assert(prior.trades@ == Seq::<TradeEvent>::empty());
            } else {
                assert(numeric_obs_wf(prior));
            }
        }
        e.liquidity_lamports = liquidity_lamports;
        e.age_slots = age_slots;
        e.last_tick = now;
        e.buyer_bitset = e.buyer_bitset | (1u64 << (buyer_entity % 64));
        let side = if signed_base >= 0 { Side::Buy } else { Side::Sell };
        let base_qty: u64 = if signed_base >= 0 { signed_base as u64 } else { (-(signed_base as i128)) as u64 };
        if e.trades.len() >= NUMERIC_RING_CAP {
            e.trades.pop_front();
        }
        let t = TradeEvent { event_id: now, ts_ns: now, price_fp, base_qty, quote_qty: quote_lamports, side };
        e.trades.push_back(t);
        let ghost written = e;
        self.obs.set_val(p, e);
        proof {
            assert(written.trades@ =~= ring_push(prior.trades@, t));
            lemma_prepare_then_set(o, mid, self.obs, mint, prior_or(o, mint, fresh), written, LANE_TRACK_CAP as nat);
            assert forall|k: Mint| #[trigger] self.obs.get(k) is Some implies numeric_obs_wf(self.obs.get(k)->Some_0) by {
                if k != mint {
                    assert(self.obs.get(k) == mid.get(k));
                    if o.get(mint) is None && o.entries().len() >= LANE_TRACK_CAP {
                    } else {
                        assert(mid.get(k) == o.get(k));
                    }
                }
            }
        }
    }
}

impl NumericLane {
    /// The most recent trade price the lane holds for a mint, floored at zero and
    /// capped at `u64::MAX`; `None` when untracked or without trades.
    pub fn latest_price_fp(&self, mint: Mint) -> (r: Option<u64>)
        requires
            self.wf(),
        ensures
            r == (match self.evidence().get(mint) {
                Some(o) => if o.trades@.len() == 0 {
                    None
                } else {
                    let p = o.trades@.last().price_fp;
                    Some(if p <= 0 { 0u64 } else if p > u64::MAX { u64::MAX } else { p as u64 })
                },
                None => None,
            }),
    {
        match self.obs.find(&mint) {
            Some(i) => {
                let o = &self.obs.at(i).val;
                let n = o.trades.len();
                if n == 0 {
                    None
                } else {
                    let p = o.trades[n - 1].price_fp;
                    Some(if p <= 0 { 0u64 } else if p > u64::MAX as i128 { u64::MAX } else { p as u64 })
                }
            },
            None => None,
        }
    }

    /// Age (ticks) of the mint's most recent numeric evidence, or `None` when
    /// untracked.
    pub fn evidence_age(&self, mint: Mint, now: u64) -> (r: Option<u64>)
        requires
            self.wf(),
        ensures
            r == (match self.evidence().get(mint) {
                Some(o) => Some(age_of(now, o.last_tick)),
                None => None,
            }),
    {
        match self.obs.find(&mint) {
            Some(i) => Some(now.saturating_sub(self.obs.at(i).val.last_tick)),
            None => None,
        }
    }

    /// The tape regime for a mint (Roll sign over its trade ring); neutral for an
    /// untracked mint or an insufficient tape. Every price change across the
    /// ring must fit an `i128`.
    pub fn regime_of(&self, mint: Mint, trend_bp: i64, revert_bp: i64) -> (r: Regime)
        requires
            self.wf(),
            self.evidence().get(mint) matches Some(o) ==> deltas_fit(o.trades@),
        ensures
            r == (match self.evidence().get(mint) {
                Some(o) => spec_classify_regime(spec_roll_rho_bp(o.trades@), trend_bp, revert_bp),
                None => Regime::Neutral,
            }),
    {
        match self.obs.find(&mint) {
            Some(i) => {
                let o = &self.obs.at(i).val;
                let mut ordered: Vec<TradeEvent> = Vec::new();
                let mut j: usize = 0;
                while j < o.trades.len()
                    invariant
                        j <= o.trades@.len(),
                        ordered@ == o.trades@.subrange(0, j as int),
                    decreases o.trades@.len() - j,
                {
                    ordered.push(o.trades[j]);
                    j += 1;
                    assert(ordered@ =~= o.trades@.subrange(0, j as int));
                }
                proof {
                    assert(o.trades@.subrange(0, o.trades@.len() as int) =~= o.trades@);
                }
                classify_regime(roll_rho_bp(ordered.as_slice()), trend_bp, revert_bp)
            },
            None => Regime::Neutral,
        }
    }
}


// ---------------------------------------------------------------------------
// Promotion: union preservation
// ---------------------------------------------------------------------------

/// Whether a candidate comes from a corroboration lane (anything but the
/// numeric active-market lane).
pub open spec fn is_corroboration(c: Candidate) -> bool {
    c.lane != RankLane::ActiveMarketScalp
}

/// Corroboration candidates among `s`.
pub open spec fn count_corroboration(s: Seq<Candidate>) -> nat
    decreases s.len(),
{
    if s.len() == 0 {
        0
    } else {
        count_corroboration(s.drop_last()) + if is_corroboration(s.last()) { 1nat } else { 0nat }
    }
}

/// Whether some candidate in `s` names `m`.
pub open spec fn names_mint(s: Seq<Candidate>, m: Mint) -> bool {
    exists|i: int| 0 <= i < s.len() && (#[trigger] s[i]).mint == m
}

/// The first `need` candidates of `c`, in order, with a positive score and a
/// mint not already promoted.
pub open spec fn pick_extras(c: Seq<Candidate>, promoted: Seq<Candidate>, need: nat) -> Seq<Candidate>
    decreases c.len(),
{
    if need == 0 || c.len() == 0 {
        Seq::empty()
    } else if c[0].score > 0 && !names_mint(promoted, c[0].mint) {
        seq![c[0]] + pick_extras(c.drop_first(), promoted, (need - 1) as nat)
    } else {
        pick_extras(c.drop_first(), promoted, need)
    }
}

/// The promotion list after the union-preservation quota: when fewer than
/// `min(quota, promote_k)` promoted candidates come from corroboration lanes,
/// the best eligible corroboration candidates (in `corrob` order) replace the
/// lowest-ranked winners, keeping the list at most `promote_k` long.
pub open spec fn spec_union_quota(
    promoted: Seq<Candidate>,
    corrob: Seq<Candidate>,
    promote_k: usize,
    quota_cfg: usize,
) -> Seq<Candidate> {
    let quota: nat = if quota_cfg <= promote_k { quota_cfg as nat } else { promote_k as nat };
    let have = count_corroboration(promoted);
    if quota == 0 || have >= quota {
        promoted
    } else {
        let extras = pick_extras(corrob, promoted, (quota - have) as nat);
        if extras.len() == 0 {
            promoted
        } else {
            let keep: int = if promote_k >= extras.len() { promote_k - extras.len() } else { 0 };
            let kept = if keep < promoted.len() { promoted.take(keep) } else { promoted };
            kept + extras
        }
    }
}

proof fn lemma_count_corroboration_push(s: Seq<Candidate>, c: Candidate)
    ensures
        count_corroboration(s.push(c)) == count_corroboration(s) + if is_corroboration(c) { 1nat } else { 0nat },
{
    assert(s.push(c).drop_last() =~= s);
}

proof fn lemma_pick_extras_step(c: Seq<Candidate>, promoted: Seq<Candidate>, need: nat, i: int)
    requires
        0 <= i < c.len(),
        need > 0,
    ensures
        pick_extras(c.subrange(i, c.len() as int), promoted, need) == (if c[i].score > 0 && !names_mint(
            promoted,
            c[i].mint,
        ) {
            seq![c[i]] + pick_extras(c.subrange(i + 1, c.len() as int), promoted, (need - 1) as nat)
        } else {
            pick_extras(c.subrange(i + 1, c.len() as int), promoted, need)
        }),
{
    let t = c.subrange(i, c.len() as int);
    assert(t.drop_first() =~= c.subrange(i + 1, c.len() as int));
    assert(t[0] == c[i]);
}

proof fn lemma_pick_extras_len(c: Seq<Candidate>, promoted: Seq<Candidate>, need: nat)
    ensures
        pick_extras(c, promoted, need).len() <= need,
    decreases c.len(),
{
    if need > 0 && c.len() > 0 {
        if c[0].score > 0 && !names_mint(promoted, c[0].mint) {
            lemma_pick_extras_len(c.drop_first(), promoted, (need - 1) as nat);
        } else {
            lemma_pick_extras_len(c.drop_first(), promoted, need);
        }
    }
}

/// Apply the union-preservation quota to a rank-ordered promotion list.
pub fn union_quota(promoted: &Vec<Candidate>, corrob: &Vec<Candidate>, promote_k: usize, quota_cfg: usize) -> (r: Vec<
    Candidate,
>)
    ensures
        r@ == spec_union_quota(promoted@, corrob@, promote_k, quota_cfg),
{
    let quota: usize = if quota_cfg <= promote_k { quota_cfg } else { promote_k };
    if quota == 0 {
        return promoted.clone();
    }
    let mut have: usize = 0;
    let mut i: usize = 0;
    while i < promoted.len()
        invariant
            i <= promoted@.len(),
            have == count_corroboration(promoted@.take(i as int)),
            have <= i,
        decreases promoted@.len() - i,
    {
        proof {
            assert(promoted@.take(i as int + 1) =~= promoted@.take(i as int).push(promoted@[i as int]));
            lemma_count_corroboration_push(promoted@.take(i as int), promoted@[i as int]);
        }
        if !matches!(promoted[i].lane, RankLane::ActiveMarketScalp) {
            have = have + 1;
        }
        i = i + 1;
    }
    assert(promoted@.take(promoted@.len() as int) =~= promoted@);
    if have >= quota {
        return promoted.clone();
    }
    let need: usize = quota - have;
    let ghost full = pick_extras(corrob@, promoted@, need as nat);
    let mut extras: Vec<Candidate> = Vec::new();
    let mut j: usize = 0;
    proof {
        assert(corrob@.subrange(0, corrob@.len() as int) =~= corrob@);
    }
    while j < corrob.len() && extras.len() < need
        invariant
            j <= corrob@.len(),
            extras@.len() <= need,
            extras@ + pick_extras(corrob@.subrange(j as int, corrob@.len() as int), promoted@, (need - extras@.len()) as nat)
                == full,
        decreases corrob@.len() - j,
    {
        let cand = corrob[j];
        let mut seen = false;
        let mut q: usize = 0;
        while q < promoted.len()
            invariant
                q <= promoted@.len(),
                seen == (exists|x: int| 0 <= x < q && (#[trigger] promoted@[x]).mint == cand.mint),
            decreases promoted@.len() - q,
        {
            if crate::holder_flow::key_eq(&promoted[q].mint, &cand.mint) {
                seen = true;
            }
            q = q + 1;
        }
        proof {
            lemma_pick_extras_step(corrob@, promoted@, (need - extras@.len()) as nat, j as int);
        }
        if cand.score > 0 && !seen {
            let ghost before = extras@;
            extras.push(cand);
            proof {
                assert(extras@ == before + seq![cand]);
                assert((before + seq![cand]) + pick_extras(
                    corrob@.subrange(j as int + 1, corrob@.len() as int),
                    promoted@,
                    (need - extras@.len()) as nat,
                ) =~= before + (seq![cand] + pick_extras(
                    corrob@.subrange(j as int + 1, corrob@.len() as int),
                    promoted@,
                    (need - before.len() - 1) as nat,
                )));
            }
        }
        j = j + 1;
    }
    proof {
        if extras@.len() < need {
            assert(corrob@.subrange(j as int, corrob@.len() as int) =~= Seq::<Candidate>::empty());
        }
        assert(pick_extras(corrob@.subrange(j as int, corrob@.len() as int), promoted@, (need - extras@.len()) as nat)
            =~= Seq::<Candidate>::empty());
        assert(extras@ =~= full);
    }
    if extras.len() == 0 {
        return promoted.clone();
    }
    let keep: usize = if promote_k >= extras.len() { promote_k - extras.len() } else { 0 };
    let mut out: Vec<Candidate> = Vec::new();
    let mut p: usize = 0;
    let bound: usize = if keep < promoted.len() { keep } else { promoted.len() };
    while p < bound
        invariant
            bound <= promoted@.len(),
            p <= bound,
            out@ == promoted@.take(p as int),
        decreases bound - p,
    {
        out.push(promoted[p]);
        p = p + 1;
        assert(out@ =~= promoted@.take(p as int));
    }
    let mut e: usize = 0;
    let ghost kept = out@;
    while e < extras.len()
        invariant
            e <= extras@.len(),
            out@ == kept + extras@.take(e as int),
        decreases extras@.len() - e,
    {
        out.push(extras[e]);
        e = e + 1;
        assert(out@ =~= kept + extras@.take(e as int));
    }
    proof {
        assert(extras@.take(extras@.len() as int) =~= extras@);
        if keep >= promoted@.len() {
            assert(promoted@.take(promoted@.len() as int) =~= promoted@);
        }
    }
    out
}


/// The quota never grows the entry decision's workload: a promotion list of at most
/// `promote_k` candidates stays at most `promote_k` long.
pub proof fn lemma_union_quota_keeps_the_workload(
    promoted: Seq<Candidate>,
    corrob: Seq<Candidate>,
    promote_k: usize,
    quota_cfg: usize,
)
    requires
        promoted.len() <= promote_k,
    ensures
        spec_union_quota(promoted, corrob, promote_k, quota_cfg).len() <= promote_k,
{
    let quota: nat = if quota_cfg <= promote_k { quota_cfg as nat } else { promote_k as nat };
    let have = count_corroboration(promoted);
    if quota > 0 && have < quota {
        lemma_pick_extras_len(corrob, promoted, (quota - have) as nat);
    }
}


/// The quota only ever replaces the tail: with `q = min(quota_cfg, promote_k)`
/// corroboration seats of which `have` are already held, at most `q - have`
/// extras are added, so the first `min(promoted.len(), promote_k - (q - have))`
/// promoted candidates always keep their places at the head of the result; in
/// particular, when `promoted.len() + (q - have) <= promote_k` every promoted
/// candidate is kept. Everything after the kept head is an eligible
/// corroboration candidate (positive score, not already promoted).
pub proof fn lemma_union_quota_keeps_the_head(
    promoted: Seq<Candidate>,
    corrob: Seq<Candidate>,
    promote_k: usize,
    quota_cfg: usize,
)
    ensures
        ({
            let q: int = if quota_cfg <= promote_k { quota_cfg as int } else { promote_k as int };
            let have: int = count_corroboration(promoted) as int;
            let room: int = if have >= q { 0 } else { q - have };
            let head: int = if promoted.len() <= promote_k - room { promoted.len() as int } else { promote_k - room };
            let r = spec_union_quota(promoted, corrob, promote_k, quota_cfg);
            &&& head <= r.len()
            &&& r.take(head) == promoted.take(head)
            &&& (promoted.len() + room <= promote_k ==> r.take(promoted.len() as int) == promoted)
            &&& forall|i: int| 0 <= i < r.len() && !(0 <= i < promoted.len() && r[i] == promoted[i]) ==> {
                &&& (#[trigger] r[i]).score > 0
                &&& !names_mint(promoted, r[i].mint)
                &&& corrob.contains(r[i])
            }
        }),
{
    let q: int = if quota_cfg <= promote_k { quota_cfg as int } else { promote_k as int };
    let have: int = count_corroboration(promoted) as int;
    let r = spec_union_quota(promoted, corrob, promote_k, quota_cfg);
    if q > 0 && have < q {
        let need = (q - have) as nat;
        let extras = pick_extras(corrob, promoted, need);
        lemma_pick_extras_len(corrob, promoted, need);
        lemma_pick_extras_eligible(corrob, promoted, need);
        if extras.len() > 0 {
            let keep: int = if promote_k >= extras.len() { promote_k - extras.len() } else { 0 };
            let kept = if keep < promoted.len() { promoted.take(keep) } else { promoted };
            assert(r == kept + extras);
            assert forall|i: int| 0 <= i < r.len() && !(0 <= i < promoted.len() && r[i] == promoted[i]) implies {
                &&& (#[trigger] r[i]).score > 0
                &&& !names_mint(promoted, r[i].mint)
                &&& corrob.contains(r[i])
            } by {
                if i < kept.len() {
                    assert(r[i] == promoted[i]);
                } else {
                    assert(r[i] == extras[i - kept.len()]);
                }
            }
        }
    }
}

proof fn lemma_pick_extras_eligible(c: Seq<Candidate>, promoted: Seq<Candidate>, need: nat)
    ensures
        forall|i: int| 0 <= i < pick_extras(c, promoted, need).len() ==> {
            let x = #[trigger] pick_extras(c, promoted, need)[i];
            &&& x.score > 0
            &&& !names_mint(promoted, x.mint)
            &&& c.contains(x)
        },
    decreases c.len(),
{
    if need > 0 && c.len() > 0 {
        let rest = c.drop_first();
        if c[0].score > 0 && !names_mint(promoted, c[0].mint) {
            lemma_pick_extras_eligible(rest, promoted, (need - 1) as nat);
            let p = pick_extras(c, promoted, need);
            let tail = pick_extras(rest, promoted, (need - 1) as nat);
            assert forall|i: int| 0 <= i < p.len() implies {
                let x = #[trigger] p[i];
                &&& x.score > 0
                &&& !names_mint(promoted, x.mint)
                &&& c.contains(x)
            } by {
                if i == 0 {
                    assert(p[0] == c[0]);
                } else {
                    assert(p[i] == tail[i - 1]);
                    let j = choose|j: int| 0 <= j < rest.len() && rest[j] == tail[i - 1];
                    assert(c[j + 1] == rest[j]);
                }
            }
        } else {
            lemma_pick_extras_eligible(rest, promoted, need);
            let p = pick_extras(c, promoted, need);
            assert forall|i: int| 0 <= i < p.len() implies {
                let x = #[trigger] p[i];
                &&& x.score > 0
                &&& !names_mint(promoted, x.mint)
                &&& c.contains(x)
            } by {
                let j = choose|j: int| 0 <= j < rest.len() && rest[j] == p[i];
                assert(c[j + 1] == rest[j]);
            }
        }
    }
}

} // verus!
