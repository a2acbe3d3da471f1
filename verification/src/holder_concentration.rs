//! Holder distribution SHAPE: concentration, early-buyer capture, bundle/sniper
//! presence and flip (bump/wash) behaviour, derived from the continuous holder
//! ledger.
//!
//! Concentration is a level quantity: every share has the tracked supply in its
//! denominator, which is the true supply only when the ledger saw the mint from an
//! empty holder set (`Exact`). Anything weaker refuses with a reason and carries
//! no number at all. The family maps to a reduce-only lever — a size haircut, and
//! a refusal only with independent corroboration — never a boost.
//!
//! The tracked cohort's own internal inequality (normalized Herfindahl) is a
//! different quantity, readable on a `DeltaOnly` basis, and is sampled into a
//! bounded per-mint series whose signed rate says whether a market is
//! concentrating or dispersing.

use vstd::prelude::*;

use crate::holder_flow::{
    count_live, entity_index, evicts_before, find_entity, has_entity, key_eq, key_less,
    lemma_entity_index_unique, lemma_key_lt_strict, lemma_key_lt_total, sorted_entities,
    EntityPosition, HolderCountBasis, HolderFlow, HolderShapeRef, EARLY_ROSTER_CAP,
    HOLDER_FLOW_MINT_CAP,
};
use crate::keyed::{keyed_get, keyed_has, keys_distinct, lemma_keyed_at, lemma_keyed_push, lemma_keyed_remove, lemma_keyed_update};

verus! {

/// Basis-point scale (100% == 10 000 bps).
pub const BPS: u128 = 10_000;

/// Cohort size for the cumulative top-N share; the same size as the early-buyer
/// roster so the two shares are comparable.
pub const TOP_N: usize = 10;

/// Minimum tracked entities before a distribution shape is a measurement (twice
/// the cohort size: below it the top-N share has no dynamic range).
pub const MIN_ENTITIES_FOR_SHAPE: u32 = 20;

/// Equal-weight reference for the first-ten-buyer share: ten of twenty equal
/// holders hold exactly half.
pub const EARLY_TOP10_EQUAL_SHARE_BPS: u32 = 5_000;

/// The published high-risk excess of the first ten buyers' share: 17 percentage
/// points.
pub const MEMETRANS_EARLY_TOP10_EXCESS_BPS: u32 = 1_700;

/// Early-top-10 share at which size is cut: the reference plus the whole excess.
pub const EARLY_TOP10_HAIRCUT_BPS: u32 = 6_700;

/// Early-top-10 share that contributes a veto leg: the reference plus twice the
/// excess.
pub const EARLY_TOP10_VETO_BPS: u32 = 8_400;

/// Cumulative top-10 share at which size is cut (the universe screen's bar).
pub const TOP10_HAIRCUT_BPS: u32 = 5_000;

/// Cumulative top-10 share that contributes a veto leg: the midpoint between the
/// haircut bar and total capture (a stated convention).
pub const TOP10_VETO_BPS: u32 = 7_500;

/// Whale-dominance score at which size is cut (a stated convention).
pub const WHALE_DOMINANCE_HAIRCUT_BPS: u32 = 2_500;

/// Whale-dominance score that contributes a veto leg (a stated convention).
pub const WHALE_DOMINANCE_VETO_BPS: u32 = 4_500;

/// Reduce-only size multiplier applied at a haircut (a 40% cut).
pub const CONCENTRATION_HAIRCUT_MULT_BPS: u32 = 6_000;

/// Cap on the reported flip ratio (100x).
pub const FLIP_RATIO_CAP_BPS: u64 = 1_000_000;

/// The neutral flip ratio: pure accumulation, `gross == net`.
pub const FLIP_RATIO_NEUTRAL_BPS: u64 = 10_000;

/// Flip-ratio tolerance before the bump/wash penalty starts (3x neutral).
pub const FLIP_TOLERANCE_BPS: u64 = 30_000;

/// Bundle+sniper suspect count tolerated before the authenticity penalty starts.
pub const BUNDLE_TOLERANCE_COUNT: u32 = 6;

/// The published bars relate as documented: the shape floor is twice the cohort,
/// the early reference is the cohort's equal share at that floor, each haircut bar
/// is the reference plus the excess, each veto bar sits strictly above its haircut
/// bar, and the haircut only ever reduces size.
pub proof fn lemma_bars_are_ordered()
    ensures
        TOP_N == EARLY_ROSTER_CAP,
        MIN_ENTITIES_FOR_SHAPE == 2 * TOP_N,
        EARLY_TOP10_EQUAL_SHARE_BPS == 10_000 * TOP_N / (MIN_ENTITIES_FOR_SHAPE as int),
        EARLY_TOP10_HAIRCUT_BPS == EARLY_TOP10_EQUAL_SHARE_BPS + MEMETRANS_EARLY_TOP10_EXCESS_BPS,
        EARLY_TOP10_VETO_BPS == EARLY_TOP10_EQUAL_SHARE_BPS + 2 * MEMETRANS_EARLY_TOP10_EXCESS_BPS,
        TOP10_VETO_BPS == (TOP10_HAIRCUT_BPS + 10_000) / 2,
        FLIP_TOLERANCE_BPS == 3 * FLIP_RATIO_NEUTRAL_BPS,
        TOP10_VETO_BPS > TOP10_HAIRCUT_BPS,
        EARLY_TOP10_VETO_BPS > EARLY_TOP10_HAIRCUT_BPS,
        WHALE_DOMINANCE_VETO_BPS > WHALE_DOMINANCE_HAIRCUT_BPS,
        CONCENTRATION_HAIRCUT_MULT_BPS < 10_000,
{
}

/// Why a concentration verdict carries no numbers.
#[derive(Debug, Clone, Copy, PartialEq, Eq, Hash)]
pub enum ConcentrationUnknown {
    /// The law is not armed, so no reading was taken.
    Disarmed,
    /// The mint has no holder ledger at all.
    Untracked,
    /// The ledger is `DeltaOnly`: every share would be overstated.
    DeltaOnlyBasis,
    /// The ledger is `Incomplete`: the observed set is a truncated subset.
    IncompleteBasis,
    /// Fewer than `MIN_ENTITIES_FOR_SHAPE` tracked entities.
    ThinLedger,
    /// Tracked supply is zero.
    NoTrackedSupply,
}

/// The distribution-shape statistics for one mint. Every field is bps or a count.
#[derive(Debug, Clone, Copy, PartialEq, Eq)]
pub struct ConcentrationMetrics {
    /// Largest single entity's share of tracked supply (bps).
    pub top1_share_bps: u32,
    /// Cumulative share of the `TOP_N` largest tracked positions (bps).
    pub top10_share_bps: u32,
    /// Herfindahl index over tracked shares, `Σ share_bps² / 10 000` (bps).
    pub hhi_bps: u32,
    /// HHI rescaled so perfect equality is 0 and total capture is 10 000.
    pub hhi_normalized_bps: u32,
    /// Whale dominance: `top10_share_bps · hhi_normalized_bps / 10 000`.
    pub whale_dominance_bps: u32,
    /// Share of tracked supply held by the first distinct buyers (bps).
    pub early_top10_share_bps: u32,
    /// Bundle plus sniper first buys.
    pub bundle_suspect_count: u32,
    /// First buys that landed in the creation slot.
    pub bundle_entities: u32,
    /// First buys that landed within the sniper window after it.
    pub sniper_entities: u32,
    /// First buys that carried slot evidence at all.
    pub aged_first_buys: u32,
    /// Gross traded base over net position retained (bps), capped.
    pub flip_ratio_bps: u64,
    /// Entities with a strictly positive tracked position.
    pub holders: u32,
    /// Distinct entities in the ledger.
    pub entities_tracked: u32,
    /// Σ net tracked base position — the denominator of every share.
    pub tracked_supply_base: u128,
}

/// Reduce-only risk tier implied by a distribution shape, ordered by severity.
#[derive(Debug, Clone, Copy, PartialEq, Eq, PartialOrd, Ord, Hash)]
pub enum ConcentrationRisk {
    /// Nothing binds: the identity.
    Clear,
    /// Size is cut by `CONCENTRATION_HAIRCUT_MULT_BPS`.
    Haircut,
    /// Pre-entry refusal, reachable only with independent corroboration.
    Veto,
}

/// Reduce-only size multiplier of a tier (bps).
pub open spec fn spec_size_mult_bp(r: ConcentrationRisk) -> u32 {
    match r {
        ConcentrationRisk::Clear => 10_000,
        _ => CONCENTRATION_HAIRCUT_MULT_BPS,
    }
}

impl ConcentrationRisk {
    /// Reduce-only size multiplier for this tier (bps, `<= 10_000`). A veto also
    /// returns the haircut multiplier: refusals happen at entry, never by
    /// sizing to nothing.
    pub fn size_mult_bp(self) -> (r: u32)
        ensures
            r == spec_size_mult_bp(self),
            r <= 10_000,
    {
        match self {
            ConcentrationRisk::Clear => 10_000,
            ConcentrationRisk::Haircut | ConcentrationRisk::Veto => CONCENTRATION_HAIRCUT_MULT_BPS,
        }
    }
}

/// Additional authenticity evidence carried out of the holder ledger.
#[derive(Debug, Clone, Copy, PartialEq, Eq, Default)]
pub struct HolderAuthEvidence {
    /// Bundle + sniper first-buy cohort size.
    pub bundle_suspect_count: u32,
    /// Aggregate flip ratio (bps).
    pub flip_ratio_bps: u64,
}

/// The risk tier a shape implies: a veto leg (any share past its veto bar) vetoes
/// only when corroborated and otherwise haircuts; a haircut leg haircuts; else
/// clear.
pub open spec fn spec_risk(m: ConcentrationMetrics, corroborated: bool) -> ConcentrationRisk {
    let veto_leg = m.top10_share_bps >= TOP10_VETO_BPS || m.early_top10_share_bps
        >= EARLY_TOP10_VETO_BPS || m.whale_dominance_bps >= WHALE_DOMINANCE_VETO_BPS;
    let haircut_leg = m.top10_share_bps >= TOP10_HAIRCUT_BPS || m.early_top10_share_bps
        >= EARLY_TOP10_HAIRCUT_BPS || m.whale_dominance_bps >= WHALE_DOMINANCE_HAIRCUT_BPS;
    if veto_leg {
        if corroborated {
            ConcentrationRisk::Veto
        } else {
            ConcentrationRisk::Haircut
        }
    } else if haircut_leg {
        ConcentrationRisk::Haircut
    } else {
        ConcentrationRisk::Clear
    }
}

impl ConcentrationMetrics {
    /// The reduce-only risk tier this shape implies. Without corroboration a
    /// veto-grade shape degrades to a haircut.
    pub fn risk(&self, corroborated: bool) -> (r: ConcentrationRisk)
        ensures
            r == spec_risk(*self, corroborated),
    {
        let veto_leg = self.top10_share_bps >= TOP10_VETO_BPS || self.early_top10_share_bps
            >= EARLY_TOP10_VETO_BPS || self.whale_dominance_bps >= WHALE_DOMINANCE_VETO_BPS;
        if veto_leg {
            if corroborated {
                return ConcentrationRisk::Veto;
            }
            return ConcentrationRisk::Haircut;
        }
        let haircut_leg = self.top10_share_bps >= TOP10_HAIRCUT_BPS || self.early_top10_share_bps
            >= EARLY_TOP10_HAIRCUT_BPS || self.whale_dominance_bps >= WHALE_DOMINANCE_HAIRCUT_BPS;
        if haircut_leg {
            ConcentrationRisk::Haircut
        } else {
            ConcentrationRisk::Clear
        }
    }

    /// The bundle/flip half of the reading, for the authenticity channel.
    pub fn auth_evidence(&self) -> (r: HolderAuthEvidence)
        ensures
            r == (HolderAuthEvidence {
                bundle_suspect_count: self.bundle_suspect_count,
                flip_ratio_bps: self.flip_ratio_bps,
            }),
    {
        HolderAuthEvidence {
            bundle_suspect_count: self.bundle_suspect_count,
            flip_ratio_bps: self.flip_ratio_bps,
        }
    }
}

/// The concentration family never vetoes alone: without corroboration no shape
/// reaches `Veto`, and corroboration only ever raises the tier by at most the
/// veto step (it never turns a clear shape into a refusal).
pub proof fn lemma_never_a_standalone_veto(m: ConcentrationMetrics)
    ensures
        spec_risk(m, false) != ConcentrationRisk::Veto,
        spec_risk(m, true) == ConcentrationRisk::Veto ==> spec_risk(m, false)
            == ConcentrationRisk::Haircut,
        spec_risk(m, false) == ConcentrationRisk::Clear ==> spec_risk(m, true)
            == ConcentrationRisk::Clear,
{
}

/// Every tier is reduce-only: its size multiplier never exceeds the identity, and
/// only `Clear` is the identity.
pub proof fn lemma_every_tier_is_reduce_only(r: ConcentrationRisk)
    ensures
        spec_size_mult_bp(r) <= 10_000,
        spec_size_mult_bp(r) == 10_000 <==> r == ConcentrationRisk::Clear,
{
}

/// A concentration reading, or a labelled refusal with no estimate at all.
#[derive(Debug, Clone, Copy, PartialEq, Eq)]
pub enum ConcentrationVerdict {
    /// The ledger supports a distribution reading.
    Known(ConcentrationMetrics),
    /// It does not, and here is why.
    Unknown(ConcentrationUnknown),
}

/// The risk tier a verdict feeds: the metrics' tier, or `Clear` under `Unknown`.
pub open spec fn verdict_risk(v: ConcentrationVerdict, corroborated: bool) -> ConcentrationRisk {
    match v {
        ConcentrationVerdict::Known(m) => spec_risk(m, corroborated),
        ConcentrationVerdict::Unknown(_) => ConcentrationRisk::Clear,
    }
}

/// The authenticity evidence a verdict feeds: the metrics' counts, or zeros.
pub open spec fn verdict_auth(v: ConcentrationVerdict) -> HolderAuthEvidence {
    match v {
        ConcentrationVerdict::Known(m) => HolderAuthEvidence {
            bundle_suspect_count: m.bundle_suspect_count,
            flip_ratio_bps: m.flip_ratio_bps,
        },
        ConcentrationVerdict::Unknown(_) => HolderAuthEvidence { bundle_suspect_count: 0, flip_ratio_bps: 0 },
    }
}

/// The concentration the active-market screen reads: the top-10 share, or `0`.
pub open spec fn verdict_screen_bps(v: ConcentrationVerdict) -> u32 {
    match v {
        ConcentrationVerdict::Known(m) => m.top10_share_bps,
        ConcentrationVerdict::Unknown(_) => 0,
    }
}

impl ConcentrationVerdict {
    /// `true` when a reading is available.
    pub fn is_known(&self) -> (r: bool)
        ensures
            r == (*self is Known),
    {
        matches!(self, ConcentrationVerdict::Known(_))
    }

    /// The metrics, or `None`. The only way to reach a number.
    pub fn metrics(&self) -> (r: Option<&ConcentrationMetrics>)
        ensures
            r is Some <==> *self is Known,
            r matches Some(m) ==> *m == self->Known_0,
    {
        match self {
            ConcentrationVerdict::Known(m) => Some(m),
            ConcentrationVerdict::Unknown(_) => None,
        }
    }

    /// Why the reading was declined, or `None` if it was not.
    pub fn unknown_reason(&self) -> (r: Option<ConcentrationUnknown>)
        ensures
            r == (match *self {
                ConcentrationVerdict::Known(_) => None,
                ConcentrationVerdict::Unknown(u) => Some(u),
            }),
    {
        match self {
            ConcentrationVerdict::Known(_) => None,
            ConcentrationVerdict::Unknown(u) => Some(*u),
        }
    }

    /// The risk tier, with `Clear` (identity) for every refusal: an `Unknown`
    /// leaves behaviour exactly as it was without this family.
    pub fn risk_or_clear(&self, corroborated: bool) -> (r: ConcentrationRisk)
        ensures
            r == verdict_risk(*self, corroborated),
    {
        match self {
            ConcentrationVerdict::Known(m) => m.risk(corroborated),
            ConcentrationVerdict::Unknown(_) => ConcentrationRisk::Clear,
        }
    }

    /// The authenticity evidence, or the neutral default under `Unknown`.
    pub fn auth_evidence_or_default(&self) -> (r: HolderAuthEvidence)
        ensures
            r == verdict_auth(*self),
    {
        match self {
            ConcentrationVerdict::Known(m) => m.auth_evidence(),
            ConcentrationVerdict::Unknown(_) => HolderAuthEvidence {
                bundle_suspect_count: 0,
                flip_ratio_bps: 0,
            },
        }
    }

    /// The number the active-market screen consumes, or `0` (never binds) under
    /// `Unknown`.
    pub fn screen_concentration_bps(&self) -> (r: u32)
        ensures
            r == verdict_screen_bps(*self),
    {
        match self {
            ConcentrationVerdict::Known(m) => m.top10_share_bps,
            ConcentrationVerdict::Unknown(_) => 0,
        }
    }
}

/// THE FAIL-OPEN LAW: a refused reading is the identity on every channel it
/// feeds — no risk tier, no authenticity evidence, no screen concentration.
pub proof fn lemma_unknown_is_the_identity(u: ConcentrationUnknown, corroborated: bool)
    ensures
        verdict_risk(ConcentrationVerdict::Unknown(u), corroborated) == ConcentrationRisk::Clear,
        spec_size_mult_bp(verdict_risk(ConcentrationVerdict::Unknown(u), corroborated)) == 10_000,
        verdict_auth(ConcentrationVerdict::Unknown(u)) == (HolderAuthEvidence { bundle_suspect_count: 0, flip_ratio_bps: 0 }),
        verdict_screen_bps(ConcentrationVerdict::Unknown(u)) == 0,
{
}

// ---------------------------------------------------------------------------
// Sums over a ledger
// ---------------------------------------------------------------------------

/// Σ net over tracked positions.
pub open spec fn sum_net(s: Seq<EntityPosition>) -> nat
    decreases s.len(),
{
    if s.len() == 0 {
        0
    } else {
        sum_net(s.drop_last()) + s.last().net as nat
    }
}

/// Σ gross over tracked positions.
pub open spec fn sum_gross(s: Seq<EntityPosition>) -> nat
    decreases s.len(),
{
    if s.len() == 0 {
        0
    } else {
        sum_gross(s.drop_last()) + s.last().gross as nat
    }
}

/// A value's share of `supply`, in bps, capped at 10 000.
pub open spec fn share_of(v: int, supply: int) -> int {
    if v * 10_000 / supply > 10_000 {
        10_000
    } else {
        v * 10_000 / supply
    }
}

/// Σ share² over tracked positions with a positive net.
pub open spec fn sum_sq_shares(s: Seq<EntityPosition>, supply: int) -> nat
    decreases s.len(),
{
    if s.len() == 0 {
        0
    } else {
        sum_sq_shares(s.drop_last(), supply) + if s.last().net > 0 {
            (share_of(s.last().net as int, supply) * share_of(s.last().net as int, supply)) as nat
        } else {
            0nat
        }
    }
}

/// A count saturated into `u32`.
pub open spec fn sat_u32(n: int) -> u32 {
    if n > u32::MAX {
        u32::MAX
    } else {
        n as u32
    }
}

/// The Herfindahl index (bps) from the summed squared shares.
pub open spec fn hhi_of(acc: int) -> int {
    if acc / 10_000 > 10_000 {
        10_000
    } else {
        acc / 10_000
    }
}

/// The normalized Herfindahl: 0 at perfect equality, 10 000 at total capture (or
/// with a single holder).
pub open spec fn normalized_hhi_of(hhi: int, holders: int) -> u32 {
    if holders <= 1 {
        10_000
    } else {
        let min_hhi = 10_000int / holders;
        let den = 10_000 - min_hhi;
        let num = (if hhi > min_hhi { hhi - min_hhi } else { 0 }) * 10_000;
        if num / den > 10_000 {
            10_000
        } else {
            (num / den) as u32
        }
    }
}

/// The net position an entity holds in the ledger (0 when absent).
pub open spec fn net_of(s: Seq<EntityPosition>, e: u64) -> nat {
    if has_entity(s, e) {
        s[entity_index(s, e)].net as nat
    } else {
        0
    }
}

/// Σ net held by the listed entities.
pub open spec fn early_supply(early: Seq<u64>, s: Seq<EntityPosition>) -> nat
    decreases early.len(),
{
    if early.len() == 0 {
        0
    } else {
        early_supply(early.drop_last(), s) + net_of(s, early.last())
    }
}

/// Elements of `t` that are at least `v`.
pub open spec fn count_at_least(t: Seq<u64>, v: u64) -> nat
    decreases t.len(),
{
    if t.len() == 0 {
        0
    } else {
        count_at_least(t.drop_last(), v) + if t.last() >= v {
            1nat
        } else {
            0nat
        }
    }
}

/// Non-increasing order.
pub open spec fn sorted_desc(t: Seq<u64>) -> bool {
    forall|i: int, j: int| 0 <= i < j < t.len() ==> #[trigger] t[i] >= #[trigger] t[j]
}

/// Insert `v` into a descending top-N buffer, dropping the smallest, when it
/// beats the smallest.
pub open spec fn top_insert(top: Seq<u64>, v: u64) -> Seq<u64> {
    if v > top[TOP_N - 1] {
        let i = count_at_least(top.take(TOP_N - 1), v) as int;
        top.take(i).push(v) + top.subrange(i, TOP_N - 1)
    } else {
        top
    }
}

/// The `TOP_N` largest positive nets of a ledger, descending (zero-padded).
pub open spec fn top_of(s: Seq<EntityPosition>) -> Seq<u64>
    decreases s.len(),
{
    if s.len() == 0 {
        Seq::new(TOP_N as nat, |i: int| 0u64)
    } else {
        let t = top_of(s.drop_last());
        if s.last().net == 0 {
            t
        } else {
            top_insert(t, s.last().net)
        }
    }
}

/// Σ of a sequence of `u64`.
pub open spec fn sum_u64(t: Seq<u64>) -> nat
    decreases t.len(),
{
    if t.len() == 0 {
        0
    } else {
        sum_u64(t.drop_last()) + t.last() as nat
    }
}

/// The distribution-shape verdict of a ledger view.
pub open spec fn spec_concentration(
    basis: HolderCountBasis,
    positions: Seq<EntityPosition>,
    early: Seq<u64>,
    bundle_entities: u32,
    sniper_entities: u32,
    aged_first_buys: u32,
) -> ConcentrationVerdict {
    let entities_tracked = sat_u32(positions.len() as int);
    let supply = sum_net(positions) as int;
    if basis == HolderCountBasis::DeltaOnly {
        ConcentrationVerdict::Unknown(ConcentrationUnknown::DeltaOnlyBasis)
    } else if basis == HolderCountBasis::Incomplete {
        ConcentrationVerdict::Unknown(ConcentrationUnknown::IncompleteBasis)
    } else if entities_tracked < MIN_ENTITIES_FOR_SHAPE {
        ConcentrationVerdict::Unknown(ConcentrationUnknown::ThinLedger)
    } else if supply == 0 {
        ConcentrationVerdict::Unknown(ConcentrationUnknown::NoTrackedSupply)
    } else {
        let holders = sat_u32(count_live(positions) as int);
        let top = top_of(positions);
        let top10 = share_of(sum_u64(top) as int, supply) as u32;
        let hhi = hhi_of(sum_sq_shares(positions, supply) as int);
        let hhin = normalized_hhi_of(hhi, holders as int);
        let whale = if top10 * hhin / 10_000 > 10_000 {
            10_000u32
        } else {
            (top10 * hhin / 10_000) as u32
        };
        let gross = sum_gross(positions) as int;
        let scaled = if gross * 10_000 > u128::MAX {
            u128::MAX as int
        } else {
            gross * 10_000
        };
        let flip = if scaled / supply > FLIP_RATIO_CAP_BPS {
            FLIP_RATIO_CAP_BPS
        } else {
            (scaled / supply) as u64
        };
        ConcentrationVerdict::Known(
            ConcentrationMetrics {
                top1_share_bps: share_of(top[0] as int, supply) as u32,
                top10_share_bps: top10,
                hhi_bps: hhi as u32,
                hhi_normalized_bps: hhin,
                whale_dominance_bps: whale,
                early_top10_share_bps: share_of(early_supply(early, positions) as int, supply) as u32,
                bundle_suspect_count: if bundle_entities + sniper_entities > u32::MAX {
                    u32::MAX
                } else {
                    (bundle_entities + sniper_entities) as u32
                },
                bundle_entities,
                sniper_entities,
                aged_first_buys,
                flip_ratio_bps: flip,
                holders,
                entities_tracked,
                tracked_supply_base: supply as u128,
            },
        )
    }
}


// ---------------------------------------------------------------------------
// The passes over a ledger
// ---------------------------------------------------------------------------

fn tracked_supply(positions: &[EntityPosition]) -> (r: u128)
    ensures
        r == sum_net(positions@),
{
    let mut acc: u128 = 0;
    let mut i: usize = 0;
    while i < positions.len()
        invariant
            i <= positions@.len(),
            acc == sum_net(positions@.take(i as int)),
            acc <= i * 0xFFFF_FFFF_FFFF_FFFFint,
        decreases positions@.len() - i,
    {
        assert(positions@.take(i + 1).drop_last() =~= positions@.take(i as int));
        acc = acc + positions[i].net as u128;
        i += 1;
    }
    assert(positions@.take(positions@.len() as int) =~= positions@);
    acc
}

fn gross_total(positions: &[EntityPosition]) -> (r: u128)
    ensures
        r == sum_gross(positions@),
{
    let mut acc: u128 = 0;
    let mut i: usize = 0;
    while i < positions.len()
        invariant
            i <= positions@.len(),
            acc == sum_gross(positions@.take(i as int)),
            acc <= i * 0xFFFF_FFFF_FFFF_FFFFint,
        decreases positions@.len() - i,
    {
        assert(positions@.take(i + 1).drop_last() =~= positions@.take(i as int));
        acc = acc + positions[i].gross as u128;
        i += 1;
    }
    assert(positions@.take(positions@.len() as int) =~= positions@);
    acc
}

fn holder_count(positions: &[EntityPosition]) -> (r: u32)
    ensures
        r == sat_u32(count_live(positions@) as int),
{
    let mut c: u64 = 0;
    let mut i: usize = 0;
    while i < positions.len()
        invariant
            i <= positions@.len(),
            c == count_live(positions@.take(i as int)),
            c <= i,
        decreases positions@.len() - i,
    {
        assert(positions@.take(i + 1).drop_last() =~= positions@.take(i as int));
        if positions[i].net > 0 {
            c = c + 1;
        }
        i += 1;
    }
    assert(positions@.take(positions@.len() as int) =~= positions@);
    if c > u32::MAX as u64 {
        u32::MAX
    } else {
        c as u32
    }
}

fn share_bps(v: u128, supply: u128) -> (r: u32)
    requires
        supply > 0,
        v <= 16 * 0xFFFF_FFFF_FFFF_FFFFint,
    ensures
        r == share_of(v as int, supply as int),
        r <= 10_000,
{
    let q = (v * 10_000) / supply;
    if q > 10_000 {
        10_000
    } else {
        q as u32
    }
}

fn hhi_sum(positions: &[EntityPosition], supply: u128) -> (r: u128)
    requires
        supply > 0,
    ensures
        r == sum_sq_shares(positions@, supply as int),
{
    let mut acc: u128 = 0;
    let mut i: usize = 0;
    while i < positions.len()
        invariant
            supply > 0,
            i <= positions@.len(),
            acc == sum_sq_shares(positions@.take(i as int), supply as int),
            acc <= i * 100_000_000int,
        decreases positions@.len() - i,
    {
        assert(positions@.take(i + 1).drop_last() =~= positions@.take(i as int));
        let net = positions[i].net;
        if net > 0 {
            let sh = share_bps(net as u128, supply) as u128;
            assert(sh * sh <= 100_000_000) by (nonlinear_arith)
                requires sh <= 10_000;
            acc = acc + sh * sh;
        }
        i += 1;
    }
    assert(positions@.take(positions@.len() as int) =~= positions@);
    acc
}

fn early_supply_of(positions: &[EntityPosition], early: &[u64]) -> (r: u128)
    requires
        sorted_entities(positions@),
        early@.len() <= EARLY_ROSTER_CAP,
    ensures
        r == early_supply(early@, positions@),
        r <= EARLY_ROSTER_CAP * 0xFFFF_FFFF_FFFF_FFFFint,
{
    let mut acc: u128 = 0;
    let mut i: usize = 0;
    while i < early.len()
        invariant
            sorted_entities(positions@),
            early@.len() <= EARLY_ROSTER_CAP,
            i <= early@.len(),
            acc == early_supply(early@.take(i as int), positions@),
            acc <= i * 0xFFFF_FFFF_FFFF_FFFFint,
        decreases early@.len() - i,
    {
        assert(early@.take(i + 1).drop_last() =~= early@.take(i as int));
        let e = early[i];
        match find_entity(positions, e) {
            Ok(j) => {
                proof { lemma_entity_index_unique(positions@, e, j as int); }
                acc = acc + positions[j].net as u128;
            },
            Err(_) => {
                proof {
                    if has_entity(positions@, e) {
                        let k = choose|k: int| 0 <= k < positions@.len() && #[trigger] positions@[k].entity == e;
                        assert(positions@[k].entity == e);
                    }
                }
            },
        }
        i += 1;
    }
    assert(early@.take(early@.len() as int) =~= early@);
    acc
}

proof fn lemma_count_at_least_split(t: Seq<u64>, v: u64, i: int)
    requires
        0 <= i <= t.len(),
        forall|j: int| 0 <= j < i ==> #[trigger] t[j] >= v,
        forall|j: int| i <= j < t.len() ==> #[trigger] t[j] < v,
    ensures
        count_at_least(t, v) == i,
    decreases t.len(),
{
    if t.len() > 0 {
        let d = t.drop_last();
        if i == t.len() {
            lemma_count_at_least_split(d, v, i - 1);
        } else {
            lemma_count_at_least_split(d, v, i);
        }
    }
}

proof fn lemma_desc_split(t: Seq<u64>, v: u64) -> (k: int)
    requires
        sorted_desc(t),
    ensures
        0 <= k <= t.len(),
        forall|j: int| 0 <= j < k ==> #[trigger] t[j] >= v,
        forall|j: int| k <= j < t.len() ==> #[trigger] t[j] < v,
    decreases t.len(),
{
    if t.len() == 0 {
        0
    } else {
        let d = t.drop_last();
        let n = t.len() - 1;
        let k2 = lemma_desc_split(d, v);
        if t[n] >= v {
            assert forall|j: int| 0 <= j < t.len() implies #[trigger] t[j] >= v by {
                if j < n {
                    assert(t[j] >= t[n]);
                }
            }
            t.len() as int
        } else {
            assert forall|j: int| 0 <= j < k2 implies #[trigger] t[j] >= v by {
                assert(d[j] >= v);
            }
            assert forall|j: int| k2 <= j < t.len() implies #[trigger] t[j] < v by {
                if j < n {
                    assert(d[j] < v);
                }
            }
            k2
        }
    }
}

proof fn lemma_top_insert_props(t: Seq<u64>, v: u64)
    requires
        t.len() == TOP_N,
        sorted_desc(t),
    ensures
        top_insert(t, v).len() == TOP_N,
        sorted_desc(top_insert(t, v)),
{
    if v > t[TOP_N - 1] {
        let t9 = t.take(TOP_N - 1);
        let k = lemma_desc_split(t9, v);
        lemma_count_at_least_split(t9, v, k);
        let r = t.take(k).push(v) + t.subrange(k, TOP_N - 1);
        assert(r.len() == TOP_N);
        assert forall|a: int, b: int| 0 <= a < b < r.len() implies #[trigger] r[a] >= #[trigger] r[b] by {
            if a < k {
                assert(r[a] == t[a]);
                if b < k {
                    assert(r[b] == t[b]);
                } else if b == k {
                    assert(t9[a] >= v);
                } else {
                    assert(r[b] == t[b - 1]);
                }
            } else if a == k {
                assert(r[a] == v);
                assert(r[b] == t[b - 1]);
                assert(t9[b - 1] < v);
            } else {
                assert(r[a] == t[a - 1]);
                assert(r[b] == t[b - 1]);
            }
        }
    }
}

proof fn lemma_top_of_props(s: Seq<EntityPosition>)
    ensures
        top_of(s).len() == TOP_N,
        sorted_desc(top_of(s)),
    decreases s.len(),
{
    if s.len() == 0 {
        let t = top_of(s);
        assert(t.len() == TOP_N);
    } else {
        lemma_top_of_props(s.drop_last());
        lemma_top_insert_props(top_of(s.drop_last()), s.last().net);
    }
}

fn top_insert_exec(top: &mut Vec<u64>, v: u64)
    requires
        old(top)@.len() == TOP_N,
        sorted_desc(old(top)@),
    ensures
        final(top)@ == top_insert(old(top)@, v),
{
    if v > top[TOP_N - 1] {
        let ghost t = top@;
        let mut i: usize = TOP_N - 1;
        while i > 0 && top[i - 1] < v
            invariant
                0 <= i <= TOP_N - 1,
                top@.len() == TOP_N,
                t.len() == TOP_N,
                sorted_desc(t),
                v > t[TOP_N - 1],
                forall|j: int| 0 <= j <= i ==> #[trigger] top@[j] == t[j],
                forall|j: int| i < j < TOP_N ==> #[trigger] top@[j] == t[j - 1],
                forall|j: int| i <= j < TOP_N - 1 ==> #[trigger] t[j] < v,
            decreases i,
        {
            let prev = top[i - 1];
            top.set(i, prev);
            i = i - 1;
        }
        top.set(i, v);
        proof {
            let t9 = t.take(TOP_N - 1);
            assert forall|j: int| 0 <= j < i implies #[trigger] t9[j] >= v by {
                assert(t[i - 1] >= v);
                assert(t[j] >= t[i - 1]);
            }
            assert forall|j: int| i <= j < t9.len() implies #[trigger] t9[j] < v by {}
            lemma_count_at_least_split(t9, v, i as int);
            assert(top@ =~= t.take(i as int).push(v) + t.subrange(i as int, TOP_N - 1));
        }
    }
}

fn top_n(positions: &[EntityPosition]) -> (top: Vec<u64>)
    ensures
        top@ == top_of(positions@),
        top@.len() == TOP_N,
{
    let mut top: Vec<u64> = Vec::new();
    let mut z: usize = 0;
    while z < TOP_N
        invariant
            z <= TOP_N,
            top@.len() == z,
            forall|j: int| 0 <= j < z ==> #[trigger] top@[j] == 0u64,
        decreases TOP_N - z,
    {
        top.push(0);
        z += 1;
    }
    assert(top@ =~= top_of(positions@.take(0)));
    let mut i: usize = 0;
    while i < positions.len()
        invariant
            i <= positions@.len(),
            top@ == top_of(positions@.take(i as int)),
            top@.len() == TOP_N,
            sorted_desc(top@),
        decreases positions@.len() - i,
    {
        assert(positions@.take(i + 1).drop_last() =~= positions@.take(i as int));
        let net = positions[i].net;
        if net != 0 {
            proof { lemma_top_insert_props(top@, net); }
            top_insert_exec(&mut top, net);
        }
        i += 1;
    }
    assert(positions@.take(positions@.len() as int) =~= positions@);
    proof { lemma_top_of_props(positions@); }
    top
}

fn normalized_hhi(hhi: u128, holders: u32) -> (r: u32)
    requires
        hhi <= 10_000,
    ensures
        r == normalized_hhi_of(hhi as int, holders as int),
        r <= 10_000,
{
    if holders <= 1 {
        return 10_000;
    }
    let min_hhi: u128 = 10_000u128 / holders as u128;
    assert(min_hhi <= 5_000) by (nonlinear_arith)
        requires min_hhi == 10_000int / (holders as int), holders >= 2;
    let den: u128 = 10_000 - min_hhi;
    let num: u128 = (if hhi > min_hhi { hhi - min_hhi } else { 0 }) * 10_000;
    let q = num / den;
    if q > 10_000 {
        10_000
    } else {
        q as u32
    }
}

/// The distribution-shape verdict of a borrowed ledger view.
///
/// `Known` only when the basis is `Exact`, at least `MIN_ENTITIES_FOR_SHAPE`
/// entities are tracked and tracked supply is positive; otherwise `Unknown` with
/// the binding reason, in that order of precedence.
pub fn concentration_of_shape(shape: &HolderShapeRef<'_>) -> (v: ConcentrationVerdict)
    requires
        sorted_entities(shape.positions@),
        shape.early@.len() <= EARLY_ROSTER_CAP,
    ensures
        v == spec_concentration(
            shape.basis,
            shape.positions@,
            shape.early@,
            shape.bundle_entities,
            shape.sniper_entities,
            shape.aged_first_buys,
        ),
{
    match shape.basis {
        HolderCountBasis::Exact => {},
        HolderCountBasis::DeltaOnly => {
            return ConcentrationVerdict::Unknown(ConcentrationUnknown::DeltaOnlyBasis);
        },
        HolderCountBasis::Incomplete => {
            return ConcentrationVerdict::Unknown(ConcentrationUnknown::IncompleteBasis);
        },
    }
    let n = shape.positions.len();
    let entities_tracked: u32 = if n > u32::MAX as usize {
        u32::MAX
    } else {
        n as u32
    };
    if entities_tracked < MIN_ENTITIES_FOR_SHAPE {
        return ConcentrationVerdict::Unknown(ConcentrationUnknown::ThinLedger);
    }
    let supply = tracked_supply(shape.positions);
    if supply == 0 {
        return ConcentrationVerdict::Unknown(ConcentrationUnknown::NoTrackedSupply);
    }
    let gross = gross_total(shape.positions);
    let holders = holder_count(shape.positions);
    let top = top_n(shape.positions);
    let mut top_sum: u128 = 0;
    let mut i: usize = 0;
    while i < TOP_N
        invariant
            i <= TOP_N,
            top@.len() == TOP_N,
            top_sum == sum_u64(top@.take(i as int)),
            top_sum <= i * 0xFFFF_FFFF_FFFF_FFFFint,
        decreases TOP_N - i,
    {
        assert(top@.take(i + 1).drop_last() =~= top@.take(i as int));
        top_sum = top_sum + top[i] as u128;
        i += 1;
    }
    assert(top@.take(TOP_N as int) =~= top@);
    let top1_share_bps = share_bps(top[0] as u128, supply);
    let top10_share_bps = share_bps(top_sum, supply);
    let acc = hhi_sum(shape.positions, supply);
    let hhi_raw = acc / 10_000;
    let hhi: u128 = if hhi_raw > 10_000 { 10_000 } else { hhi_raw };
    let hhi_normalized_bps = normalized_hhi(hhi, holders);
    assert((top10_share_bps as u128) * (hhi_normalized_bps as u128) <= 100_000_000) by (nonlinear_arith)
        requires top10_share_bps <= 10_000, hhi_normalized_bps <= 10_000;
    let whale_raw = (top10_share_bps as u128) * (hhi_normalized_bps as u128) / 10_000;
    let whale_dominance_bps: u32 = if whale_raw > 10_000 { 10_000 } else { whale_raw as u32 };
    let early_sum = early_supply_of(shape.positions, shape.early);
    let early_top10_share_bps = share_bps(early_sum, supply);
    let flip_scaled: u128 = if gross > u128::MAX / 10_000 {
        proof {
            assert(gross * 10_000 > u128::MAX) by (nonlinear_arith)
                requires gross > u128::MAX / 10_000;
        }
        u128::MAX / supply
    } else {
        proof {
            assert(gross * 10_000 <= u128::MAX) by (nonlinear_arith)
                requires gross <= u128::MAX / 10_000;
        }
        (gross * 10_000) / supply
    };
    let flip_ratio_bps: u64 = if flip_scaled > FLIP_RATIO_CAP_BPS as u128 {
        FLIP_RATIO_CAP_BPS
    } else {
        flip_scaled as u64
    };
    let bundle_suspect_count = shape.bundle_entities.saturating_add(shape.sniper_entities);
    ConcentrationVerdict::Known(
        ConcentrationMetrics {
            top1_share_bps,
            top10_share_bps,
            hhi_bps: hhi as u32,
            hhi_normalized_bps,
            whale_dominance_bps,
            early_top10_share_bps,
            bundle_suspect_count,
            bundle_entities: shape.bundle_entities,
            sniper_entities: shape.sniper_entities,
            aged_first_buys: shape.aged_first_buys,
            flip_ratio_bps,
            holders,
            entities_tracked,
            tracked_supply_base: supply,
        },
    )
}

proof fn lemma_sum_gross_bound(s: Seq<EntityPosition>)
    ensures
        sum_gross(s) <= s.len() * 0xFFFF_FFFF_FFFF_FFFFint,
    decreases s.len(),
{
    if s.len() > 0 {
        lemma_sum_gross_bound(s.drop_last());
    }
}


/// Derive `mint`'s distribution shape from the continuous holder ledger:
/// `Untracked` when the mint has no ledger, otherwise the shape verdict of its
/// ledger.
pub fn concentration_of(flow: &HolderFlow, mint: &[u8; 32]) -> (v: ConcentrationVerdict)
    requires
        flow.wf(),
    ensures
        v == (match flow.ledger(*mint) {
            None => ConcentrationVerdict::Unknown(ConcentrationUnknown::Untracked),
            Some(l) => spec_concentration(
                l.basis,
                l.entities,
                l.early,
                l.bundle_entities,
                l.sniper_entities,
                l.aged_first_buys,
            ),
        }),
{
    match flow.shape(mint) {
        None => ConcentrationVerdict::Unknown(ConcentrationUnknown::Untracked),
        Some(shape) => {
            proof { flow.lemma_ledgers_wf(*mint); }
            concentration_of_shape(&shape)
        },
    }
}

// ===========================================================================
// The parallel stream: the tracked cohort's internal concentration
// ===========================================================================

/// Bound on mints carrying a concentration-trajectory series (the holder plane's
/// own bound).
pub const TRAJECTORY_MINT_CAP: usize = HOLDER_FLOW_MINT_CAP;

/// Ring capacity of one mint's internal-concentration series.
pub const TRAJECTORY_SERIES_CAP: usize = 8;

/// Minimum samples before a trajectory is a measurement.
pub const TRAJECTORY_MIN_SAMPLES: usize = 2;

/// Minimum spacing between the two samples a rate is taken over (one second).
pub const HOLDER_MIN_INTERVAL_NS: u64 = 1_000_000_000;

/// Maximum span between the two samples a rate is taken over: an unobserved gap
/// longer than this is not a measurement.
pub const HOLDER_MAX_INTERVAL_NS: u64 = 300_000_000_000;

/// The time unit rates are expressed per (one minute).
pub const HOLDER_GROWTH_NORM_NS: u64 = 60_000_000_000;

/// The tracked cohort's internal distribution statistic at one instant.
#[derive(Debug, Clone, Copy, PartialEq, Eq)]
pub struct InternalConcentration {
    /// Normalized Herfindahl over tracked shares: 0 at equality, 10 000 at capture.
    pub hhi_normalized_bps: u32,
    /// Entities with a strictly positive tracked position.
    pub holders: u32,
}

/// Why an internal-concentration reading could not be taken.
#[derive(Debug, Clone, Copy, PartialEq, Eq, Hash)]
pub enum InternalUnknown {
    /// The mint has no holder ledger at all.
    Untracked,
    /// The ledger is `Incomplete` — the one basis the internal statistic refuses.
    IncompleteBasis,
    /// Fewer than `MIN_ENTITIES_FOR_SHAPE` tracked entities.
    ThinLedger,
    /// Tracked supply is zero.
    NoTrackedSupply,
}

/// The tracked cohort's internal concentration, or a labelled refusal.
#[derive(Debug, Clone, Copy, PartialEq, Eq)]
pub enum InternalVerdict {
    /// A reading over the tracked cohort.
    Known(InternalConcentration),
    /// No reading, and why.
    Unknown(InternalUnknown),
}

impl InternalVerdict {
    /// The reading, or `None`.
    pub fn reading(&self) -> (r: Option<InternalConcentration>)
        ensures
            r == (match *self {
                InternalVerdict::Known(m) => Some(m),
                InternalVerdict::Unknown(_) => None,
            }),
    {
        match self {
            InternalVerdict::Known(m) => Some(*m),
            InternalVerdict::Unknown(_) => None,
        }
    }

    /// Why the reading was declined, or `None`.
    pub fn unknown_reason(&self) -> (r: Option<InternalUnknown>)
        ensures
            r == (match *self {
                InternalVerdict::Known(_) => None,
                InternalVerdict::Unknown(u) => Some(u),
            }),
    {
        match self {
            InternalVerdict::Known(_) => None,
            InternalVerdict::Unknown(u) => Some(*u),
        }
    }
}

/// The internal-concentration verdict of a ledger view: refused on an
/// `Incomplete` basis, a thin ledger or zero supply; otherwise the normalized
/// Herfindahl of the tracked shares and the holder count.
pub open spec fn spec_internal(basis: HolderCountBasis, positions: Seq<EntityPosition>) -> InternalVerdict {
    let supply = sum_net(positions) as int;
    let holders = sat_u32(count_live(positions) as int);
    if basis == HolderCountBasis::Incomplete {
        InternalVerdict::Unknown(InternalUnknown::IncompleteBasis)
    } else if sat_u32(positions.len() as int) < MIN_ENTITIES_FOR_SHAPE {
        InternalVerdict::Unknown(InternalUnknown::ThinLedger)
    } else if supply == 0 {
        InternalVerdict::Unknown(InternalUnknown::NoTrackedSupply)
    } else {
        InternalVerdict::Known(
            InternalConcentration {
                hhi_normalized_bps: normalized_hhi_of(
                    hhi_of(sum_sq_shares(positions, supply) as int),
                    holders as int,
                ),
                holders,
            },
        )
    }
}

/// The internal statistic describes the tracked positions alone: any two bases
/// that admit growth read the same number off the same positions, and whenever a
/// float-share reading exists the internal reading exists too and agrees with it.
pub proof fn lemma_internal_reads_where_the_level_does(
    b1: HolderCountBasis,
    b2: HolderCountBasis,
    positions: Seq<EntityPosition>,
    early: Seq<u64>,
    bundle: u32,
    sniper: u32,
    aged: u32,
)
    requires
        b1 != HolderCountBasis::Incomplete,
        b2 != HolderCountBasis::Incomplete,
    ensures
        spec_internal(b1, positions) == spec_internal(b2, positions),
        spec_concentration(b1, positions, early, bundle, sniper, aged) matches ConcentrationVerdict::Known(m)
            ==> spec_internal(b1, positions) == InternalVerdict::Known(
            InternalConcentration { hhi_normalized_bps: m.hhi_normalized_bps, holders: m.holders },
        ),
{
}

/// The tracked cohort's internal concentration over a borrowed ledger view.
pub fn internal_concentration_of_shape(shape: &HolderShapeRef<'_>) -> (v: InternalVerdict)
    ensures
        v == spec_internal(shape.basis, shape.positions@),
{
    if !shape.basis.admits_growth() {
        return InternalVerdict::Unknown(InternalUnknown::IncompleteBasis);
    }
    let n = shape.positions.len();
    let entities_tracked: u32 = if n > u32::MAX as usize {
        u32::MAX
    } else {
        n as u32
    };
    if entities_tracked < MIN_ENTITIES_FOR_SHAPE {
        return InternalVerdict::Unknown(InternalUnknown::ThinLedger);
    }
    let supply = tracked_supply(shape.positions);
    let holders = holder_count(shape.positions);
    if supply == 0 {
        return InternalVerdict::Unknown(InternalUnknown::NoTrackedSupply);
    }
    let acc = hhi_sum(shape.positions, supply);
    let hhi_raw = acc / 10_000;
    let hhi: u128 = if hhi_raw > 10_000 { 10_000 } else { hhi_raw };
    InternalVerdict::Known(
        InternalConcentration { hhi_normalized_bps: normalized_hhi(hhi, holders), holders },
    )
}

/// The tracked cohort's internal concentration for `mint`: `Untracked` when the
/// mint has no ledger, otherwise the internal verdict of its ledger.
pub fn internal_concentration_of(flow: &HolderFlow, mint: &[u8; 32]) -> (v: InternalVerdict)
    requires
        flow.wf(),
    ensures
        v == (match flow.ledger(*mint) {
            None => InternalVerdict::Unknown(InternalUnknown::Untracked),
            Some(l) => spec_internal(l.basis, l.entities),
        }),
{
    match flow.shape(mint) {
        None => InternalVerdict::Unknown(InternalUnknown::Untracked),
        Some(shape) => internal_concentration_of_shape(&shape),
    }
}

// ---------------------------------------------------------------------------
// The trajectory series
// ---------------------------------------------------------------------------

/// One sampled point of a mint's internal-concentration series.
#[derive(Debug, Clone, Copy, PartialEq, Eq, Default)]
pub struct TrajectorySample {
    /// Information time of the sample.
    pub ts_ns: u64,
    /// The normalized Herfindahl at that time.
    pub hhi_normalized_bps: u32,
}

/// The abstract state of one mint's series.
pub struct SeriesModel {
    /// Retained samples, oldest first (at most `TRAJECTORY_SERIES_CAP`).
    pub samples: Seq<TrajectorySample>,
    /// Information time of the most recent accepted sample.
    pub last_ts_ns: u64,
    /// Logical tick of the most recent observation (the eviction clock).
    pub last_tick: u64,
}

/// Appending a sample: one that would move information time backwards is dropped;
/// at capacity the oldest sample is evicted.
pub open spec fn series_push(m: SeriesModel, sample: TrajectorySample) -> SeriesModel {
    if m.samples.len() > 0 && sample.ts_ns < m.last_ts_ns {
        m
    } else if m.samples.len() < TRAJECTORY_SERIES_CAP {
        SeriesModel { samples: m.samples.push(sample), last_ts_ns: sample.ts_ns, ..m }
    } else {
        SeriesModel { samples: m.samples.drop_first().push(sample), last_ts_ns: sample.ts_ns, ..m }
    }
}

/// The most recent sample (largest index) at or before `bound`.
pub open spec fn latest_at_or_before(s: Seq<TrajectorySample>, bound: u64) -> Option<int>
    decreases s.len(),
{
    if s.len() == 0 {
        None
    } else if s.last().ts_ns <= bound {
        Some(s.len() - 1)
    } else {
        latest_at_or_before(s.drop_last(), bound)
    }
}

/// Clamp a mathematical integer into `i64`.
pub open spec fn clamp_to_i64(v: int) -> i64 {
    if v > i64::MAX {
        i64::MAX
    } else if v < i64::MIN {
        i64::MIN
    } else {
        v as i64
    }
}

/// Truncating (toward zero) integer division.
pub open spec fn div_trunc(a: int, b: int) -> int {
    if a >= 0 {
        a / b
    } else {
        -((-a) / b)
    }
}

/// The signed rate of change of normalized internal concentration as known at
/// `as_of_ns`, in bps per `HOLDER_GROWTH_NORM_NS`: taken between the newest sample
/// at or before the cutoff and the newest earlier sample at least
/// `HOLDER_MIN_INTERVAL_NS` older, refused when fewer than two samples exist, when
/// no such pair exists, or when the pair spans more than `HOLDER_MAX_INTERVAL_NS`.
pub open spec fn spec_rate(s: Seq<TrajectorySample>, as_of_ns: u64) -> Option<i64> {
    if s.len() < TRAJECTORY_MIN_SAMPLES {
        None
    } else {
        match latest_at_or_before(s, as_of_ns) {
            None => None,
            Some(i) => {
                let newest = s[i];
                if newest.ts_ns < HOLDER_MIN_INTERVAL_NS {
                    None
                } else {
                    match latest_at_or_before(s.take(i), (newest.ts_ns - HOLDER_MIN_INTERVAL_NS) as u64) {
                        None => None,
                        Some(j) => {
                            let oldest = s[j];
                            let dt = newest.ts_ns - oldest.ts_ns;
                            if dt == 0 || dt > HOLDER_MAX_INTERVAL_NS {
                                None
                            } else {
                                Some(clamp_to_i64(div_trunc(
                                    (newest.hhi_normalized_bps - oldest.hhi_normalized_bps) * HOLDER_GROWTH_NORM_NS,
                                    dt,
                                )))
                            }
                        },
                    }
                }
            },
        }
    }
}

/// One mint's bounded internal-concentration series.
#[derive(Debug, Clone)]
struct TrajectorySeries {
    samples: Vec<TrajectorySample>,
    last_ts_ns: u64,
    last_tick: u64,
}

fn latest_at_or_before_exec(s: &Vec<TrajectorySample>, end: usize, bound: u64) -> (r: Option<usize>)
    requires
        end <= s@.len(),
    ensures
        match r {
            Some(i) => latest_at_or_before(s@.take(end as int), bound) == Some(i as int),
            None => latest_at_or_before(s@.take(end as int), bound) is None,
        },
{
    let mut k: usize = end;
    while k > 0
        invariant
            k <= end <= s@.len(),
            latest_at_or_before(s@.take(end as int), bound) == latest_at_or_before(s@.take(k as int), bound),
        decreases k,
    {
        assert(s@.take(k as int).last() == s@[k - 1]);
        if s[k - 1].ts_ns <= bound {
            return Some(k - 1);
        }
        assert(s@.take(k as int).drop_last() =~= s@.take(k - 1));
        k = k - 1;
    }
    None
}

impl TrajectorySeries {
    spec fn model(&self) -> SeriesModel {
        SeriesModel { samples: self.samples@, last_ts_ns: self.last_ts_ns, last_tick: self.last_tick }
    }

    fn new(now: u64) -> (r: Self)
        ensures
            r.model() == (SeriesModel { samples: Seq::empty(), last_ts_ns: 0, last_tick: now }),
    {
        let r = TrajectorySeries { samples: Vec::new(), last_ts_ns: 0, last_tick: now };
        assert(r.samples@ =~= Seq::<TrajectorySample>::empty());
        r
    }

    fn push(&mut self, sample: TrajectorySample)
        requires
            old(self).samples@.len() <= TRAJECTORY_SERIES_CAP,
        ensures
            final(self).model() == series_push(old(self).model(), sample),
            final(self).samples@.len() <= TRAJECTORY_SERIES_CAP,
    {
        if self.samples.len() > 0 && sample.ts_ns < self.last_ts_ns {
            return;
        }
        if self.samples.len() >= TRAJECTORY_SERIES_CAP {
            self.samples.remove(0);
            assert(self.samples@ =~= old(self).samples@.drop_first());
        }
        self.samples.push(sample);
        self.last_ts_ns = sample.ts_ns;
    }

    fn rate_as_of(&self, as_of_ns: u64) -> (r: Option<i64>)
        ensures
            r == spec_rate(self.samples@, as_of_ns),
    {
        let n = self.samples.len();
        if n < TRAJECTORY_MIN_SAMPLES {
            return None;
        }
        assert(self.samples@.take(n as int) =~= self.samples@);
        let i = match latest_at_or_before_exec(&self.samples, n, as_of_ns) {
            Some(i) => i,
            None => {
                return None;
            },
        };
        proof { lemma_latest_in_range(self.samples@, as_of_ns); }
        let newest = self.samples[i];
        if newest.ts_ns < HOLDER_MIN_INTERVAL_NS {
            return None;
        }
        let cutoff = newest.ts_ns - HOLDER_MIN_INTERVAL_NS;
        let j = match latest_at_or_before_exec(&self.samples, i, cutoff) {
            Some(j) => j,
            None => {
                return None;
            },
        };
        proof {
            lemma_latest_in_range(self.samples@.take(i as int), cutoff);
            assert(self.samples@.take(i as int)[j as int] == self.samples@[j as int]);
        }
        let oldest = self.samples[j];
        let dt = newest.ts_ns - oldest.ts_ns;
        if dt == 0 || dt > HOLDER_MAX_INTERVAL_NS {
            return None;
        }
        let a = newest.hhi_normalized_bps as u128;
        let b = oldest.hhi_normalized_bps as u128;
        let norm = HOLDER_GROWTH_NORM_NS as u128;
        if a >= b {
            let num = (a - b) * norm;
            let q = num / (dt as u128);
            assert(q <= num) by (nonlinear_arith)
                requires q == (num as int) / (dt as int), dt >= 1;
            if q > i64::MAX as u128 {
                Some(i64::MAX)
            } else {
                Some(q as i64)
            }
        } else {
            let num = (b - a) * norm;
            let q = num / (dt as u128);
            assert(q <= num) by (nonlinear_arith)
                requires q == (num as int) / (dt as int), dt >= 1;
            if q > i64::MAX as u128 + 1 {
                Some(i64::MIN)
            } else if q == i64::MAX as u128 + 1 {
                Some(i64::MIN)
            } else {
                Some(-(q as i64))
            }
        }
    }
}

proof fn lemma_latest_in_range(s: Seq<TrajectorySample>, bound: u64)
    ensures
        latest_at_or_before(s, bound) matches Some(i) ==> 0 <= i < s.len() && s[i].ts_ns <= bound,
    decreases s.len(),
{
    if s.len() > 0 && s.last().ts_ns > bound {
        lemma_latest_in_range(s.drop_last(), bound);
    }
}


// ---------------------------------------------------------------------------
// The trajectory plane
// ---------------------------------------------------------------------------

#[derive(Debug, Clone)]
struct PlaneSlot {
    key: [u8; 32],
    series: TrajectorySeries,
}

spec fn plane_key() -> spec_fn(PlaneSlot) -> [u8; 32] {
    |p: PlaneSlot| p.key
}

/// Why no trajectory could be read.
#[derive(Clone, Copy, Debug, PartialEq, Eq, Structural)]
pub enum TrajectoryUnknown {
    /// The holder plane does not track the mint.
    Untracked,
    /// The holder basis is `Incomplete`.
    IncompleteBasis,
    /// The trajectory plane holds no series for the mint.
    ThinLedger,
    /// The series holds too little history at the read time.
    InsufficientHistory,
}

/// A point-in-time concentration trajectory: the signed rate of the normalized
/// internal concentration (bps per minute), or why none exists.
#[derive(Clone, Copy, Debug, PartialEq, Eq, Structural)]
pub enum TrajectoryReading {
    /// A measured rate; positive is concentrating, negative dispersing.
    Known { rate_bps_per_min: i64 },
    /// No trajectory.
    Unknown(TrajectoryUnknown),
}

impl TrajectoryReading {
    /// Why no trajectory was read, or `None` for a measured one.
    pub fn unknown_reason(&self) -> (r: Option<TrajectoryUnknown>)
        ensures
            r == (match *self {
                TrajectoryReading::Known { .. } => None,
                TrajectoryReading::Unknown(u) => Some(u),
            }),
    {
        match self {
            TrajectoryReading::Known { .. } => None,
            TrajectoryReading::Unknown(u) => Some(*u),
        }
    }

    /// The measured rate, or `None`: a refusal carries no direction.
    pub fn rate_bps(&self) -> (r: Option<i64>)
        ensures
            r == (match *self {
                TrajectoryReading::Known { rate_bps_per_min } => Some(rate_bps_per_min),
                TrajectoryReading::Unknown(_) => None,
            }),
    {
        match self {
            TrajectoryReading::Known { rate_bps_per_min } => Some(*rate_bps_per_min),
            TrajectoryReading::Unknown(_) => None,
        }
    }
}

/// The trajectory a basis and a series give at `as_of_ns`.
pub open spec fn spec_trajectory(basis: Option<HolderCountBasis>, series: Option<SeriesModel>, as_of_ns: u64) -> TrajectoryReading {
    match basis {
        None => TrajectoryReading::Unknown(TrajectoryUnknown::Untracked),
        Some(b) => if b == HolderCountBasis::Incomplete {
            TrajectoryReading::Unknown(TrajectoryUnknown::IncompleteBasis)
        } else {
            match series {
                None => TrajectoryReading::Unknown(TrajectoryUnknown::ThinLedger),
                Some(m) => match spec_rate(m.samples, as_of_ns) {
                    Some(rate) => TrajectoryReading::Known { rate_bps_per_min: rate },
                    None => TrajectoryReading::Unknown(TrajectoryUnknown::InsufficientHistory),
                },
            }
        },
    }
}

/// The continuous concentration-trajectory plane: a bounded per-mint series of
/// internal-concentration readings, folded on the holder-sample cadence, with
/// least-recently-updated eviction (ties by the smaller mint key).
#[derive(Debug, Clone)]
pub struct ConcentrationTrajectoryPlane {
    mints: Vec<PlaneSlot>,
    mint_cap: usize,
    evictions: u64,
}

impl ConcentrationTrajectoryPlane {
    /// The series of `mint`, when tracked.
    pub closed spec fn series(&self, mint: [u8; 32]) -> Option<SeriesModel> {
        match keyed_get(self.mints@, plane_key(), mint) {
            Some(p) => Some(p.series.model()),
            None => None,
        }
    }

    /// Number of mints carrying a series.
    pub closed spec fn tracked_count(&self) -> nat {
        self.mints@.len()
    }

    /// The mint bound.
    pub closed spec fn mint_cap_of(&self) -> nat {
        self.mint_cap as nat
    }

    /// Series evicted so far.
    pub closed spec fn eviction_count(&self) -> u64 {
        self.evictions
    }

    /// Well-formedness: distinct keys, bounded table and series.
    pub closed spec fn wf(&self) -> bool {
        &&& self.mint_cap >= 1
        &&& keys_distinct(self.mints@, plane_key())
        &&& self.mints@.len() <= self.mint_cap
        &&& forall|i: int| 0 <= i < self.mints@.len() ==> (#[trigger] self.mints@[i]).series.samples@.len() <= TRAJECTORY_SERIES_CAP
    }

    /// A well-formed plane never tracks more mints than its cap, and its cap is
    /// at least one.
    pub proof fn lemma_within_mint_cap(&self)
        requires
            self.wf(),
        ensures
            1 <= self.mint_cap_of(),
            self.tracked_count() <= self.mint_cap_of(),
    {
    }

    /// Whether `v` is the series eviction picks: older (ties: smaller key) than
    /// every other tracked series.
    pub open spec fn is_eviction_victim(&self, v: [u8; 32]) -> bool {
        &&& self.series(v) is Some
        &&& forall|k: [u8; 32]| #[trigger] self.series(k) is Some && k != v ==> evicts_before(
            self.series(v)->Some_0.last_tick,
            v,
            self.series(k)->Some_0.last_tick,
            k,
        )
    }

    /// An empty plane at the named-const bound.
    pub fn new() -> (r: Self)
        ensures
            r.wf(),
            r.mint_cap_of() == TRAJECTORY_MINT_CAP,
            r.tracked_count() == 0,
            r.eviction_count() == 0,
            forall|k: [u8; 32]| #[trigger] r.series(k) is None,
    {
        Self::with_capacity(TRAJECTORY_MINT_CAP)
    }

    /// An empty plane with an explicit mint bound (clamped to at least 1).
    pub fn with_capacity(mint_cap: usize) -> (r: Self)
        ensures
            r.wf(),
            r.mint_cap_of() == (if mint_cap >= 1 { mint_cap as nat } else { 1 }),
            r.tracked_count() == 0,
            r.eviction_count() == 0,
            forall|k: [u8; 32]| #[trigger] r.series(k) is None,
    {
        ConcentrationTrajectoryPlane {
            mints: Vec::new(),
            mint_cap: if mint_cap >= 1 { mint_cap } else { 1 },
            evictions: 0,
        }
    }

    /// Mints carrying a series.
    pub fn len(&self) -> (r: usize)
        ensures
            r == self.tracked_count(),
            self.wf() ==> r <= self.mint_cap_of(),
    {
        self.mints.len()
    }

    /// Whether no mint carries a series.
    pub fn is_empty(&self) -> (r: bool)
        ensures
            r == (self.tracked_count() == 0),
    {
        self.mints.len() == 0
    }

    /// Series evicted by the mint bound.
    pub fn evictions(&self) -> (r: u64)
        ensures
            r == self.eviction_count(),
    {
        self.evictions
    }

    /// The tracked mints, in table order.
    pub fn keys(&self) -> (r: Vec<[u8; 32]>)
        requires
            self.wf(),
        ensures
            r@.len() == self.tracked_count(),
            forall|k: [u8; 32]| self.series(k) is Some <==> #[trigger] r@.contains(k),
    {
        let mut out: Vec<[u8; 32]> = Vec::new();
        let mut i: usize = 0;
        while i < self.mints.len()
            invariant
                i <= self.mints@.len(),
                out@.len() == i,
                forall|j: int| 0 <= j < i ==> #[trigger] out@[j] == self.mints@[j].key,
            decreases self.mints@.len() - i,
        {
            out.push(self.mints[i].key);
            i += 1;
        }
        proof {
            assert forall|k: [u8; 32]| self.series(k) is Some <==> #[trigger] out@.contains(k) by {
                if self.series(k) is Some {
                    let j = choose|j: int| 0 <= j < self.mints@.len() && #[trigger] plane_key()(self.mints@[j]) == k;
                    assert(out@[j] == k);
                }
                if out@.contains(k) {
                    let j = choose|j: int| 0 <= j < out@.len() && out@[j] == k;
                    assert(plane_key()(self.mints@[j]) == k);
                    assert(keyed_has(self.mints@, plane_key(), k));
                }
            }
        }
        out
    }

    fn find(&self, mint: &[u8; 32]) -> (r: Option<usize>)
        ensures
            match r {
                Some(i) => i < self.mints@.len() && self.mints@[i as int].key == *mint,
                None => !keyed_has(self.mints@, plane_key(), *mint),
            },
    {
        let mut i: usize = 0;
        while i < self.mints.len()
            invariant
                i <= self.mints@.len(),
                forall|j: int| 0 <= j < i ==> #[trigger] self.mints@[j].key != *mint,
            decreases self.mints@.len() - i,
        {
            if key_eq(&self.mints[i].key, mint) {
                return Some(i);
            }
            i += 1;
        }
        proof {
            if keyed_has(self.mints@, plane_key(), *mint) {
                let j = choose|j: int| 0 <= j < self.mints@.len() && #[trigger] plane_key()(self.mints@[j]) == *mint;
                assert(self.mints@[j].key != *mint);
            }
        }
        None
    }

    /// The eviction victim: least-recently-updated series, ties by smaller key.
    fn evict_key(&self) -> (r: Option<usize>)
        requires
            self.wf(),
        ensures
            match r {
                Some(i) => i < self.mints@.len() && self.is_eviction_victim(self.mints@[i as int].key),
                None => self.tracked_count() == 0,
            },
    {
        if self.mints.len() == 0 {
            return None;
        }
        let mut best: usize = 0;
        let mut i: usize = 1;
        while i < self.mints.len()
            invariant
                self.wf(),
                1 <= i <= self.mints@.len(),
                best < i,
                forall|j: int| 0 <= j < i && j != best ==> evicts_before(
                    self.mints@[best as int].series.last_tick,
                    self.mints@[best as int].key,
                    #[trigger] self.mints@[j].series.last_tick,
                    self.mints@[j].key,
                ),
            decreases self.mints@.len() - i,
        {
            let ti = self.mints[i].series.last_tick;
            let tb = self.mints[best].series.last_tick;
            let ghost old_best = best;
            proof {
                assert(plane_key()(self.mints@[i as int]) != plane_key()(self.mints@[best as int]));
            }
            if ti < tb || (ti == tb && key_less(&self.mints[i].key, &self.mints[best].key)) {
                proof {
                    let s = self.mints@;
                    assert forall|j: int| 0 <= j < i + 1 && j != i implies evicts_before(
                        s[i as int].series.last_tick,
                        s[i as int].key,
                        #[trigger] s[j].series.last_tick,
                        s[j].key,
                    ) by {
                        if j != old_best {
                            lemma_key_lt_strict(s[i as int].key, s[old_best as int].key, s[j].key);
                        }
                    }
                }
                best = i;
            } else {
                proof {
                    lemma_key_lt_total(self.mints@[i as int].key, self.mints@[best as int].key);
                }
            }
            i += 1;
        }
        proof {
            let s = self.mints@;
            let v = s[best as int].key;
            lemma_keyed_at(s, plane_key(), best as int);
            assert forall|k: [u8; 32]| #[trigger] self.series(k) is Some && k != v implies evicts_before(
                self.series(v)->Some_0.last_tick,
                v,
                self.series(k)->Some_0.last_tick,
                k,
            ) by {
                let j = choose|j: int| 0 <= j < s.len() && #[trigger] plane_key()(s[j]) == k;
                lemma_keyed_at(s, plane_key(), j);
                assert(j != best);
            }
        }
        Some(best)
    }

    /// The effect of one observation: a refused reading changes nothing; a
    /// reading opens the mint's series when untracked (evicting the victim when
    /// the plane is full), stamps it with `now`, and appends the sample.
    pub open spec fn observe_transition(
        old: ConcentrationTrajectoryPlane,
        new: ConcentrationTrajectoryPlane,
        mint: [u8; 32],
        verdict: InternalVerdict,
        now: u64,
        ns: u64,
    ) -> bool {
        &&& new.mint_cap_of() == old.mint_cap_of()
        &&& match verdict {
            InternalVerdict::Unknown(_) => {
                &&& new.eviction_count() == old.eviction_count()
                &&& new.tracked_count() == old.tracked_count()
                &&& forall|k: [u8; 32]| #[trigger] new.series(k) == old.series(k)
            },
            InternalVerdict::Known(reading) => {
                let start = match old.series(mint) {
                    Some(m) => m,
                    None => SeriesModel { samples: Seq::empty(), last_ts_ns: 0, last_tick: now },
                };
                &&& new.series(mint) == Some(
                    series_push(
                        SeriesModel { last_tick: now, ..start },
                        TrajectorySample { ts_ns: ns, hhi_normalized_bps: reading.hhi_normalized_bps },
                    ),
                )
                &&& (old.series(mint) is Some || old.tracked_count() < old.mint_cap_of()) ==> {
                    &&& new.eviction_count() == old.eviction_count()
                    &&& new.tracked_count() == old.tracked_count() + (if old.series(mint) is Some { 0nat } else { 1nat })
                    &&& forall|k: [u8; 32]| k != mint ==> #[trigger] new.series(k) == old.series(k)
                }
                &&& (old.series(mint) is None && old.tracked_count() >= old.mint_cap_of()) ==> exists|v: [u8; 32]| {
                    &&& #[trigger] old.is_eviction_victim(v)
                    &&& new.series(v) is None
                    &&& new.eviction_count() == (if old.eviction_count() == u64::MAX { u64::MAX } else { (old.eviction_count() + 1) as u64 })
                    &&& new.tracked_count() == old.tracked_count()
                    &&& forall|k: [u8; 32]| k != mint && k != v ==> #[trigger] new.series(k) == old.series(k)
                }
            },
        }
    }

    /// Fold one internal-concentration observation for `mint`. A refused reading
    /// pushes nothing, so a gap in the series is a genuine gap.
    pub fn observe(&mut self, mint: &[u8; 32], verdict: InternalVerdict, now: u64, ns: u64)
        requires
            old(self).wf(),
        ensures
            final(self).wf(),
            Self::observe_transition(*old(self), *final(self), *mint, verdict, now, ns),
    {
        let reading = match verdict {
            InternalVerdict::Known(r) => r,
            InternalVerdict::Unknown(_) => {
                return;
            },
        };
        let ghost o = *self;
        let ghost victim: Option<[u8; 32]> = None;
        let idx: usize = match self.find(mint) {
            Some(i) => {
                proof { lemma_keyed_at(self.mints@, plane_key(), i as int); }
                i
            },
            None => {
                if self.mints.len() >= self.mint_cap {
                    match self.evict_key() {
                        Some(j) => {
                            proof {
                                lemma_keyed_at(self.mints@, plane_key(), j as int);
                                lemma_keyed_remove(self.mints@, plane_key(), j as int);
                                victim = Some(self.mints@[j as int].key);
                            }
                            self.mints.remove(j);
                            self.evictions = self.evictions.saturating_add(1);
                        },
                        None => {},
                    }
                }
                let slot = PlaneSlot { key: *mint, series: TrajectorySeries::new(now) };
                proof {
                    assert(!keyed_has(self.mints@, plane_key(), *mint)) by {
                        if keyed_has(self.mints@, plane_key(), *mint) {
                            assert(self.series(*mint) is Some);
                        }
                    }
                    lemma_keyed_push(self.mints@, plane_key(), slot);
                }
                self.mints.push(slot);
                proof { lemma_keyed_at(self.mints@, plane_key(), self.mints@.len() - 1); }
                self.mints.len() - 1
            },
        };
        let ghost pre = *self;
        let ghost before = self.mints@;
        self.mints[idx].series.last_tick = now;
        self.mints[idx].series.push(TrajectorySample { ts_ns: ns, hhi_normalized_bps: reading.hhi_normalized_bps });
        proof {
            let x = self.mints@[idx as int];
            lemma_keyed_update(before, plane_key(), idx as int, x);
            assert(self.mints@ =~= before.update(idx as int, x));
            assert forall|k: [u8; 32]| k != *mint implies #[trigger] self.series(k) == pre.series(k) by {}
            if o.series(*mint) is None && o.tracked_count() >= o.mint_cap_of() {
                let vk = victim->Some_0;
                assert(victim is Some);
                assert forall|k: [u8; 32]| k != *mint && k != vk implies #[trigger] self.series(k) == o.series(k) by {
                    assert(self.series(k) == pre.series(k));
                }
                assert(o.is_eviction_victim(vk) && self.series(vk) is None);
            } else if o.series(*mint) is None {
                assert(victim is None);
                assert forall|k: [u8; 32]| k != *mint implies #[trigger] self.series(k) == o.series(k) by {
                    assert(self.series(k) == pre.series(k));
                }
            }
        }
    }

    /// The point-in-time concentration trajectory for `mint` as known at
    /// `as_of_ns`. `basis` is the mint's current holder basis (`None` when the
    /// holder plane does not track it); an `Incomplete` basis refuses, as the
    /// internal statistic does.
    pub fn trajectory_as_of(&self, mint: &[u8; 32], basis: Option<HolderCountBasis>, as_of_ns: u64) -> (r: TrajectoryReading)
        requires
            self.wf(),
        ensures
            r == spec_trajectory(basis, self.series(*mint), as_of_ns),
    {
        let b = match basis {
            Some(b) => b,
            None => return TrajectoryReading::Unknown(TrajectoryUnknown::Untracked),
        };
        if !b.admits_growth() {
            return TrajectoryReading::Unknown(TrajectoryUnknown::IncompleteBasis);
        }
        match self.find(mint) {
            Some(i) => {
                proof { lemma_keyed_at(self.mints@, plane_key(), i as int); }
                match self.mints[i].series.rate_as_of(as_of_ns) {
                    Some(rate) => TrajectoryReading::Known { rate_bps_per_min: rate },
                    None => TrajectoryReading::Unknown(TrajectoryUnknown::InsufficientHistory),
                }
            },
            None => TrajectoryReading::Unknown(TrajectoryUnknown::ThinLedger),
        }
    }

    /// The raw signed rate for `mint` (bps of normalized internal concentration
    /// per minute), or `None` when untracked or no rate is measurable.
    pub fn rate_as_of(&self, mint: &[u8; 32], as_of_ns: u64) -> (r: Option<i64>)
        requires
            self.wf(),
        ensures
            r == (match self.series(*mint) {
                Some(m) => spec_rate(m.samples, as_of_ns),
                None => None,
            }),
    {
        match self.find(mint) {
            Some(i) => {
                proof { lemma_keyed_at(self.mints@, plane_key(), i as int); }
                self.mints[i].series.rate_as_of(as_of_ns)
            },
            None => None,
        }
    }
}


/// The tier as a function of the shape's three shares: a share at or past its
/// veto bar (top-10 7 500, early top-10 8 400, whale dominance 4 500 bps) vetoes
/// with corroboration and haircuts without; otherwise a share at or past its
/// haircut bar (5 000, 6 700, 2 500 bps) haircuts; otherwise the shape is clear.
pub proof fn lemma_risk_tiers_by_share(m: ConcentrationMetrics, corroborated: bool)
    ensures
        ({
            let veto = m.top10_share_bps >= 7_500 || m.early_top10_share_bps >= 8_400 || m.whale_dominance_bps >= 4_500;
            let cut = m.top10_share_bps >= 5_000 || m.early_top10_share_bps >= 6_700 || m.whale_dominance_bps >= 2_500;
            &&& (veto && corroborated ==> spec_risk(m, corroborated) == ConcentrationRisk::Veto)
            &&& (veto && !corroborated ==> spec_risk(m, corroborated) == ConcentrationRisk::Haircut)
            &&& (!veto && cut ==> spec_risk(m, corroborated) == ConcentrationRisk::Haircut)
            &&& (!veto && !cut ==> spec_risk(m, corroborated) == ConcentrationRisk::Clear)
        }),
{
}

} // verus!
