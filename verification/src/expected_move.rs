//! The per-candidate expected-move estimator: a table of realized outcomes
//! stratified by bonding-curve progress, which refuses to answer until a stratum
//! holds enough evidence and otherwise shrinks the stratum mean toward a prior.
//!
//! The table ships empty, so every lookup refuses and callers fall back to their
//! configured constant.

use vstd::prelude::*;

use crate::curve::{curve_progress_bps, spec_curve_progress_bps};

verus! {

/// Number of curve-progress strata: eight pre-graduation bands of 1,250 bps each,
/// plus a ninth for anything at or past graduation.
pub const N_BANDS: usize = 9;

/// Width of one pre-graduation band, bps.
pub const BAND_WIDTH_BPS: u32 = 1_250;

/// The stratum a curve-progress reading falls in.
pub open spec fn spec_band_of(curve_progress_bps: u32) -> usize {
    if curve_progress_bps >= 10_000 {
        (N_BANDS - 1) as usize
    } else {
        (curve_progress_bps / BAND_WIDTH_BPS) as usize
    }
}

/// The band index a curve-progress reading falls in. `8` is post-graduation.
pub fn band_of(curve_progress_bps: u32) -> (r: usize)
    ensures
        r == spec_band_of(curve_progress_bps),
        r < N_BANDS,
{
    if curve_progress_bps >= 10_000 {
        return N_BANDS - 1;
    }
    (curve_progress_bps / BAND_WIDTH_BPS) as usize
}

/// The band a SOL-side reserve falls in, straight from the curve.
pub fn band_of_vsol(vsol_lamports: u64) -> (r: usize)
    ensures
        r == spec_band_of(spec_curve_progress_bps(vsol_lamports)),
        r < N_BANDS,
{
    band_of(curve_progress_bps(vsol_lamports))
}

/// One stratum's accumulated evidence.
#[derive(Clone, Copy, Debug, Default, PartialEq, Eq)]
pub struct Cell {
    /// Episodes observed in this stratum.
    pub n: u32,
    /// Sum of realized forward returns, basis points. Signed: losses count.
    pub sum_bps: i64,
}

/// Estimator tuning.
#[derive(Clone, Copy, Debug, PartialEq, Eq)]
pub struct MoveParams {
    /// Minimum episodes in a stratum before it may answer at all.
    pub min_sample: u32,
    /// Pseudo-count for shrinkage toward the prior.
    pub prior_weight: u32,
    /// The cold-start prior itself, bps.
    pub prior_bps: u32,
}

/// Why an estimate could not be produced.
#[derive(Clone, Copy, Debug, PartialEq, Eq)]
pub enum MoveUnknown {
    /// The law is off.
    Disarmed,
    /// No episode has ever been recorded anywhere.
    EmptyTable,
    /// This stratum exists but is under the sample floor.
    BelowSampleFloor { n: u32, need: u32 },
}

/// A produced estimate, with the evidence behind it attached.
#[derive(Clone, Copy, Debug, PartialEq, Eq)]
pub struct MoveEstimate {
    /// Shrunk expected favourable move, bps. Never negative.
    pub bps: u32,
    /// Episodes in the stratum this came from.
    pub n: u32,
    /// The stratum index.
    pub band: usize,
}

/// The estimator's answer.
#[derive(Clone, Copy, Debug, PartialEq, Eq)]
pub enum MoveVerdict {
    Known(MoveEstimate),
    Unknown(MoveUnknown),
}

impl MoveVerdict {
    /// The bps a caller should use, or `None` to fall back to the configured constant.
    pub fn known_bps(&self) -> (r: Option<u32>)
        ensures
            r == (match *self {
                MoveVerdict::Known(e) => Some(e.bps),
                MoveVerdict::Unknown(_) => None,
            }),
    {
        match self {
            MoveVerdict::Known(e) => Some(e.bps),
            MoveVerdict::Unknown(_) => None,
        }
    }
}

/// Clamp a mathematical integer into the `i64` range (saturating arithmetic).
pub open spec fn clamp_i64(x: int) -> int {
    if x > i64::MAX {
        i64::MAX as int
    } else if x < i64::MIN {
        i64::MIN as int
    } else {
        x
    }
}

/// Saturating signed 64-bit addition.
pub fn sat_add_i64(a: i64, b: i64) -> (r: i64)
    ensures
        r == clamp_i64(a + b),
{
    let s: i128 = a as i128 + b as i128;
    if s > i64::MAX as i128 {
        i64::MAX
    } else if s < i64::MIN as i128 {
        i64::MIN
    } else {
        s as i64
    }
}

/// Saturating unsigned 32-bit increment.
pub open spec fn sat_inc_u32(x: u32) -> u32 {
    if x == u32::MAX {
        u32::MAX
    } else {
        (x + 1) as u32
    }
}

/// Whether no stratum holds any evidence.
pub open spec fn cells_empty(cells: Seq<Cell>) -> bool {
    forall|i: int| 0 <= i < cells.len() ==> #[trigger] cells[i].n == 0
}

/// Total episodes over a sequence of strata.
pub open spec fn cells_total(cells: Seq<Cell>) -> nat
    decreases cells.len(),
{
    if cells.len() == 0 {
        0
    } else {
        cells_total(cells.drop_last()) + cells.last().n as nat
    }
}

/// The shrunk estimate of one stratum: `(Σ realized + prior · k) / (n + k)` with
/// `k = max(prior_weight, 1)`, saturating in 64 bits, truncated, floored at zero
/// and capped at `u32::MAX`.
pub open spec fn spec_shrunk_bps(c: Cell, p: MoveParams) -> u32 {
    let k: int = if p.prior_weight >= 1 { p.prior_weight as int } else { 1 };
    let num: int = clamp_i64(c.sum_bps + clamp_i64(p.prior_bps * k));
    let den: int = c.n + k;
    if num <= 0 {
        0
    } else if num / den > u32::MAX {
        u32::MAX
    } else {
        (num / den) as u32
    }
}

/// The estimator's answer for a candidate at `vsol` over the strata `cells`.
pub open spec fn spec_estimate(cells: Seq<Cell>, vsol: u64, p: MoveParams) -> MoveVerdict {
    if cells_empty(cells) {
        MoveVerdict::Unknown(MoveUnknown::EmptyTable)
    } else {
        let band = spec_band_of(spec_curve_progress_bps(vsol));
        let c = cells[band as int];
        if c.n < p.min_sample {
            MoveVerdict::Unknown(MoveUnknown::BelowSampleFloor { n: c.n, need: p.min_sample })
        } else {
            MoveVerdict::Known(MoveEstimate { bps: spec_shrunk_bps(c, p), n: c.n, band })
        }
    }
}

/// The stratified table. Fixed-size, so state is bounded by construction.
#[derive(Clone, Copy, Debug, PartialEq, Eq)]
pub struct MoveTable {
    cells: [Cell; N_BANDS],
}

impl View for MoveTable {
    type V = Seq<Cell>;

    closed spec fn view(&self) -> Seq<Cell> {
        self.cells@
    }
}

impl MoveTable {
    /// An empty table — the shipped state. Every lookup refuses.
    pub fn empty() -> (t: Self)
        ensures
            t@.len() == N_BANDS,
            cells_empty(t@),
            forall|i: int| 0 <= i < N_BANDS ==> #[trigger] t@[i] == (Cell { n: 0, sum_bps: 0 }),
    {
        let z = Cell { n: 0, sum_bps: 0 };
        let t = MoveTable { cells: [z, z, z, z, z, z, z, z, z] };
        assert(t@.len() == N_BANDS);
        t
    }

    /// Whether any evidence at all has been recorded.
    pub fn is_empty(&self) -> (r: bool)
        ensures
            r == cells_empty(self@),
    {
        let mut i: usize = 0;
        while i < N_BANDS
            invariant
                i <= N_BANDS,
                self@.len() == N_BANDS,
                forall|j: int| 0 <= j < i ==> #[trigger] self@[j].n == 0,
            decreases N_BANDS - i,
        {
            if self.cells[i].n != 0 {
                return false;
            }
            i += 1;
        }
        true
    }

    /// Total episodes across all strata.
    pub fn total_n(&self) -> (r: u64)
        ensures
            r == cells_total(self@),
    {
        let mut total: u64 = 0;
        let mut i: usize = 0;
        while i < N_BANDS
            invariant
                i <= N_BANDS,
                self@.len() == N_BANDS,
                total == cells_total(self@.subrange(0, i as int)),
                total <= i * (u32::MAX as int),
            decreases N_BANDS - i,
        {
            assert(self@.subrange(0, (i + 1) as int).drop_last() =~= self@.subrange(0, i as int));
            total = total + self.cells[i].n as u64;
            i += 1;
        }
        assert(self@.subrange(0, N_BANDS as int) =~= self@);
        total
    }

    /// Read one stratum's raw evidence (a zero cell for an out-of-range band).
    pub fn cell(&self, band: usize) -> (c: Cell)
        ensures
            c == (if band < N_BANDS { self@[band as int] } else { Cell { n: 0, sum_bps: 0 } }),
    {
        if band < N_BANDS {
            self.cells[band]
        } else {
            Cell { n: 0, sum_bps: 0 }
        }
    }

    /// Record one realized outcome into its stratum, saturating throughout.
    pub fn record(&mut self, curve_progress_bps: u32, realized_bps: i64)
        ensures
            final(self)@ == old(self)@.update(
                spec_band_of(curve_progress_bps) as int,
                Cell {
                    n: sat_inc_u32(old(self)@[spec_band_of(curve_progress_bps) as int].n),
                    sum_bps: clamp_i64(
                        old(self)@[spec_band_of(curve_progress_bps) as int].sum_bps + realized_bps,
                    ) as i64,
                },
            ),
    {
        let b = band_of(curve_progress_bps);
        let c = self.cells[b];
        let n = if c.n == u32::MAX { u32::MAX } else { c.n + 1 };
        let sum_bps = sat_add_i64(c.sum_bps, realized_bps);
        self.cells[b] = Cell { n, sum_bps };
        assert(self@ =~= old(self)@.update(b as int, Cell { n, sum_bps }));
    }

    /// Estimate the expected favourable move for a candidate at `vsol_lamports`.
    pub fn estimate(&self, vsol_lamports: u64, p: MoveParams) -> (v: MoveVerdict)
        ensures
            v == spec_estimate(self@, vsol_lamports, p),
    {
        if self.is_empty() {
            return MoveVerdict::Unknown(MoveUnknown::EmptyTable);
        }
        let band = band_of_vsol(vsol_lamports);
        let c = self.cell(band);
        if c.n < p.min_sample {
            return MoveVerdict::Unknown(
                MoveUnknown::BelowSampleFloor { n: c.n, need: p.min_sample },
            );
        }
        let k: i64 = if p.prior_weight >= 1 { p.prior_weight as i64 } else { 1 };
        assert((p.prior_bps as int) * (k as int) <= (u32::MAX as int) * (u32::MAX as int))
            by (nonlinear_arith)
            requires 0 <= p.prior_bps <= u32::MAX, 1 <= k <= u32::MAX;
        assert((p.prior_bps as int) * (k as int) >= 0) by (nonlinear_arith)
            requires 0 <= p.prior_bps, 1 <= k;
        let prior_load: i128 = (p.prior_bps as i128) * (k as i128);
        assert(prior_load >= 0);
        let prior_sat: i64 = if prior_load > i64::MAX as i128 { i64::MAX } else { prior_load as i64 };
        let num = sat_add_i64(c.sum_bps, prior_sat);
        let den: i64 = c.n as i64 + k;
        let bps: u32 = if num <= 0 {
            0
        } else {
            let q: u64 = (num as u64) / (den as u64);
            if q > u32::MAX as u64 {
                u32::MAX
            } else {
                q as u32
            }
        };
        MoveVerdict::Known(MoveEstimate { bps, n: c.n, band })
    }
}


/// Every table has exactly `N_BANDS` strata.
pub proof fn lemma_move_table_has_n_bands(t: MoveTable)
    ensures
        t@.len() == N_BANDS,
{
}

/// A table is empty exactly when its episode total is zero.
pub proof fn lemma_empty_iff_no_episodes(cells: Seq<Cell>)
    ensures
        cells_empty(cells) <==> cells_total(cells) == 0,
    decreases cells.len(),
{
    if cells.len() > 0 {
        lemma_empty_iff_no_episodes(cells.drop_last());
        if cells_empty(cells) {
            assert(cells_empty(cells.drop_last()));
        } else {
            let i = choose|i: int| 0 <= i < cells.len() && #[trigger] cells[i].n != 0;
            if i < cells.len() - 1 {
                assert(cells.drop_last()[i].n != 0);
            }
        }
        if cells_total(cells) == 0 {
            assert forall|i: int| 0 <= i < cells.len() implies #[trigger] cells[i].n == 0 by {
                if i < cells.len() - 1 {
                    assert(cells.drop_last()[i] == cells[i]);
                }
            }
        }
    }
}

/// An empty table refuses every lookup, and a recorded outcome leaves the table
/// non-empty.
pub proof fn lemma_empty_table_refuses(t: MoveTable, vsol: u64, p: MoveParams, curve_progress_bps: u32, realized_bps: i64)
    ensures
        cells_empty(t@) ==> spec_estimate(t@, vsol, p) == MoveVerdict::Unknown(MoveUnknown::EmptyTable),
        !cells_empty(t@.update(
            spec_band_of(curve_progress_bps) as int,
            Cell {
                n: sat_inc_u32(t@[spec_band_of(curve_progress_bps) as int].n),
                sum_bps: clamp_i64(t@[spec_band_of(curve_progress_bps) as int].sum_bps + realized_bps) as i64,
            },
        )),
{
    let b = spec_band_of(curve_progress_bps) as int;
    assert(0 <= b < N_BANDS);
    let u = t@.update(b, Cell {
        n: sat_inc_u32(t@[b].n),
        sum_bps: clamp_i64(t@[b].sum_bps + realized_bps) as i64,
    });
    assert(u[b].n != 0);
}


/// A known estimate is the stratum's realized sum pooled with `k` prior
/// observations, `(sum + prior x k) / (n + k)` with `k = max(prior_weight, 1)`
/// (the prior product and the sum saturating in `i64`), truncated, floored at
/// zero and capped at `u32::MAX`; it reads the stratum of the candidate's curve
/// progress and needs at least `min_sample` episodes there.
pub proof fn lemma_known_estimate_is_the_pooled_mean(cells: Seq<Cell>, vsol: u64, p: MoveParams)
    ensures
        spec_estimate(cells, vsol, p) matches MoveVerdict::Known(e) ==> {
            let k: int = if p.prior_weight >= 1 { p.prior_weight as int } else { 1 };
            let c = cells[e.band as int];
            let prod: int = p.prior_bps * k;
            let prod_s: int = if prod > i64::MAX { i64::MAX as int } else { prod };
            let num0: int = c.sum_bps + prod_s;
            let num: int = if num0 > i64::MAX { i64::MAX as int } else if num0 < i64::MIN { i64::MIN as int } else { num0 };
            let den: int = c.n + k;
            &&& e.band == spec_band_of(spec_curve_progress_bps(vsol))
            &&& e.n == c.n
            &&& c.n >= p.min_sample
            &&& (num <= 0 ==> e.bps == 0)
            &&& (num > 0 ==> e.bps == (if num / den > u32::MAX { u32::MAX as int } else { num / den }))
            &&& (num >= den ==> e.bps > 0)
        },
{
    if let MoveVerdict::Known(e) = spec_estimate(cells, vsol, p) {
        let k: int = if p.prior_weight >= 1 { p.prior_weight as int } else { 1 };
        let c = cells[e.band as int];
        let prod: int = p.prior_bps * k;
        assert(prod >= 0) by (nonlinear_arith)
            requires
                prod == p.prior_bps * k,
                k >= 1,
        ;
        let prod_s: int = if prod > i64::MAX { i64::MAX as int } else { prod };
        let num0: int = c.sum_bps + prod_s;
        let num: int = if num0 > i64::MAX { i64::MAX as int } else if num0 < i64::MIN { i64::MIN as int } else { num0 };
        let den: int = c.n + k;
        assert(clamp_i64(p.prior_bps * k) == prod_s);
        assert(clamp_i64(c.sum_bps + clamp_i64(p.prior_bps * k)) == num);
        if num >= den {
            assert(num / den >= 1) by (nonlinear_arith)
                requires
                    num >= den,
                    den >= 1,
            ;
        }
    }
}

} // verus!
