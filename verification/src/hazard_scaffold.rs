//! Hold-horizon hazard estimator scaffolding, a report-plane readout only.
//!
//! Realized paper-fill outcomes are folded into per-cell accumulators (archetype x
//! phase x catalyst x regime). A cell's raw event rate and its phase-level parent
//! feed the hierarchical estimator, which shrinks the cell toward its parent and
//! defaults a starved cell (below the minimum effective sample) to a fixed
//! baseline.
//!
//! Phase separation is load-bearing: curve-phase fills and pool-phase fills are
//! pooled into separate parents that are never combined, and the estimator refuses
//! any cross-phase shrink. Nothing here is read by a live decision or journaled.
//! Integer-only and bounded.

use vstd::prelude::*;

use crate::keyed::{keyed_get, keyed_has, keys_distinct, lemma_keyed_at, lemma_keyed_push, lemma_keyed_remove, lemma_keyed_update};

verus! {

/// Maximum distinct cells tracked before the least-sampled one is evicted.
pub const HAZARD_CELL_CAP: usize = 4_096;

/// Basis-point scale for a hazard rate (events / samples).
pub const BPS: u64 = 10_000;

/// The market phase a position trades in.
#[derive(Clone, Copy, Debug, PartialEq, Eq, Structural)]
pub enum Phase {
    /// On the bonding curve.
    Curve,
    /// In the AMM pool after migration.
    Pool,
}

/// A conditioning cell: archetype x phase x catalyst x regime.
#[derive(Clone, Copy, Debug, PartialEq, Eq)]
pub struct CellKey {
    /// Archetype code.
    pub archetype: u16,
    /// Market phase.
    pub phase: Phase,
    /// Catalyst code.
    pub catalyst: u16,
    /// Regime code.
    pub regime: u16,
}

/// The total-order key of a cell; the phase is tagged 0 = curve, 1 = pool.
pub type CellKeyOrd = (u16, u8, u16, u16);

/// The tag of a phase in the cell order.
pub open spec fn spec_phase_tag(phase: Phase) -> u8 {
    match phase {
        Phase::Curve => 0,
        Phase::Pool => 1,
    }
}

/// The order key of a cell.
pub open spec fn spec_ord_key(cell: CellKey) -> CellKeyOrd {
    (cell.archetype, spec_phase_tag(cell.phase), cell.catalyst, cell.regime)
}

fn phase_tag(phase: Phase) -> (t: u8)
    ensures
        t == spec_phase_tag(phase),
{
    match phase {
        Phase::Curve => 0,
        Phase::Pool => 1,
    }
}

fn ord_key(cell: &CellKey) -> (k: CellKeyOrd)
    ensures
        k == spec_ord_key(*cell),
{
    (cell.archetype, phase_tag(cell.phase), cell.catalyst, cell.regime)
}

/// Lexicographic order on cell keys.
pub open spec fn ord_lt(a: CellKeyOrd, b: CellKeyOrd) -> bool {
    ||| a.0 < b.0
    ||| a.0 == b.0 && a.1 < b.1
    ||| a.0 == b.0 && a.1 == b.1 && a.2 < b.2
    ||| a.0 == b.0 && a.1 == b.1 && a.2 == b.2 && a.3 < b.3
}

fn ord_less(a: CellKeyOrd, b: CellKeyOrd) -> (r: bool)
    ensures
        r == ord_lt(a, b),
{
    if a.0 != b.0 {
        a.0 < b.0
    } else if a.1 != b.1 {
        a.1 < b.1
    } else if a.2 != b.2 {
        a.2 < b.2
    } else {
        a.3 < b.3
    }
}

/// Eviction order: fewer samples first, ties by the smaller key.
pub open spec fn cell_evicts_before(n1: u32, k1: CellKeyOrd, n2: u32, k2: CellKeyOrd) -> bool {
    n1 < n2 || (n1 == n2 && ord_lt(k1, k2))
}

/// A hazard accumulator: fills observed and how many realized the hazard event.
#[derive(Clone, Copy, Debug, Default, PartialEq, Eq)]
pub struct HazardAccum {
    /// Fills folded in.
    pub n: u32,
    /// Fills that realized the hazard event.
    pub events: u32,
}

/// The event rate in bps (0 when unsampled); a rate that does not fit a `u32`
/// reads as the full scale.
pub open spec fn spec_est_bps(a: HazardAccum) -> u32 {
    if a.n == 0 {
        0
    } else {
        let q = (a.events as int * BPS) / (a.n as int);
        if q > u32::MAX {
            BPS as u32
        } else {
            q as u32
        }
    }
}

/// The accumulator after one more fill.
pub open spec fn bumped(a: HazardAccum, hazard_event: bool) -> HazardAccum {
    HazardAccum {
        n: if a.n == u32::MAX { u32::MAX } else { (a.n + 1) as u32 },
        events: if hazard_event {
            if a.events == u32::MAX { u32::MAX } else { (a.events + 1) as u32 }
        } else {
            a.events
        },
    }
}

impl HazardAccum {
    /// Event rate in bps (0 when unsampled).
    pub fn est_bps(&self) -> (r: u32)
        ensures
            r == spec_est_bps(*self),
    {
        if self.n == 0 {
            0
        } else {
            let q: u64 = (self.events as u64) * BPS / (self.n as u64);
            if q > u32::MAX as u64 {
                BPS as u32
            } else {
                q as u32
            }
        }
    }

    fn bump(&mut self, hazard_event: bool)
        ensures
            *final(self) == bumped(*old(self), hazard_event),
    {
        self.n = self.n.saturating_add(1);
        if hazard_event {
            self.events = self.events.saturating_add(1);
        }
    }
}

/// A cell's raw estimate, as handed to the estimator.
#[derive(Clone, Copy, Debug, PartialEq, Eq)]
pub struct CellEstimate {
    /// The cell's phase.
    pub phase: Phase,
    /// The cell's raw event rate, bps.
    pub est_bps: u32,
    /// The cell's sample count.
    pub n: u32,
}

/// A phase-level parent, as handed to the estimator.
#[derive(Clone, Copy, Debug, PartialEq, Eq)]
pub struct PhaseParent {
    /// The parent's phase.
    pub phase: Phase,
    /// The parent's pooled event rate, bps.
    pub est_bps: u32,
    /// The parent's sample count.
    pub n: u32,
}

/// Where an estimate came from.
#[derive(Clone, Copy, Debug, PartialEq, Eq)]
pub enum HazardSource {
    /// The cell was below the minimum effective sample: the fixed baseline.
    Baseline,
    /// The cell's estimate shrunk toward its phase parent.
    Shrunk,
}

/// A hazard estimate.
#[derive(Clone, Copy, Debug, PartialEq, Eq)]
pub struct HazardEstimate {
    /// The hazard rate, bps.
    pub value_bps: u32,
    /// Where it came from.
    pub source: HazardSource,
    /// The cell's own sample count behind it.
    pub effective_sample: u32,
}

/// Why the estimator refused.
#[derive(Clone, Copy, Debug, PartialEq, Eq)]
pub enum ShrinkError {
    /// The cell and the parent belong to different phases.
    PhaseMismatch,
}

/// The cell estimate shrunk toward its parent with `k` pseudo-samples:
/// `(n * est + k * parent) / (n + k)`, the cell's own estimate when `n + k == 0`.
pub open spec fn spec_shrunk(cell: CellEstimate, parent: PhaseParent, k: u32) -> u32 {
    let den = cell.n as int + k as int;
    if den == 0 {
        cell.est_bps
    } else {
        ((cell.n as int * cell.est_bps as int + k as int * parent.est_bps as int) / den) as u32
    }
}

/// The hierarchical estimator's answer.
pub open spec fn spec_cell_hazard(
    cell: CellEstimate,
    parent: PhaseParent,
    k: u32,
    min_effective_sample: u32,
    baseline_bps: u32,
) -> Result<HazardEstimate, ShrinkError> {
    if cell.phase != parent.phase {
        Err(ShrinkError::PhaseMismatch)
    } else if cell.n < min_effective_sample {
        Ok(HazardEstimate { value_bps: baseline_bps, source: HazardSource::Baseline, effective_sample: cell.n })
    } else {
        Ok(HazardEstimate { value_bps: spec_shrunk(cell, parent, k), source: HazardSource::Shrunk, effective_sample: cell.n })
    }
}

/// A shrunk estimate lies between the cell's estimate and its parent's.
pub proof fn lemma_shrunk_between(cell: CellEstimate, parent: PhaseParent, k: u32)
    ensures
        spec_shrunk(cell, parent, k) as int <= if cell.est_bps >= parent.est_bps { cell.est_bps as int } else { parent.est_bps as int },
        cell.n + k > 0 ==> spec_shrunk(cell, parent, k) as int >= if cell.est_bps <= parent.est_bps { cell.est_bps as int } else { parent.est_bps as int },
{
    let n = cell.n as int;
    let kk = k as int;
    let e = cell.est_bps as int;
    let p = parent.est_bps as int;
    let den = n + kk;
    if den > 0 {
        let hi = if e >= p { e } else { p };
        let lo = if e <= p { e } else { p };
        let num = n * e + kk * p;
        assert(num <= den * hi) by (nonlinear_arith)
            requires
                n >= 0,
                kk >= 0,
                e <= hi,
                p <= hi,
                num == n * e + kk * p,
                den == n + kk,
        ;
        assert(num >= den * lo) by (nonlinear_arith)
            requires
                n >= 0,
                kk >= 0,
                e >= lo,
                p >= lo,
                num == n * e + kk * p,
                den == n + kk,
        ;
        assert(num / den <= hi) by (nonlinear_arith)
            requires
                num <= den * hi,
                den > 0,
                num >= 0,
        ;
        assert(num / den >= lo) by (nonlinear_arith)
            requires
                num >= den * lo,
                den > 0,
                lo >= 0,
        ;
    }
}

/// The hierarchical hazard estimator: refuses a cross-phase shrink, defaults a
/// cell below `min_effective_sample` to `baseline_bps`, and otherwise shrinks the
/// cell toward its phase parent with `k` pseudo-samples.
pub fn cell_hazard(
    cell: &CellEstimate,
    parent: &PhaseParent,
    k: u32,
    min_effective_sample: u32,
    baseline_bps: u32,
) -> (r: Result<HazardEstimate, ShrinkError>)
    ensures
        r == spec_cell_hazard(*cell, *parent, k, min_effective_sample, baseline_bps),
{
    if cell.phase != parent.phase {
        return Err(ShrinkError::PhaseMismatch);
    }
    if cell.n < min_effective_sample {
        return Ok(HazardEstimate { value_bps: baseline_bps, source: HazardSource::Baseline, effective_sample: cell.n });
    }
    let den: u64 = cell.n as u64 + k as u64;
    let value: u32 = if den == 0 {
        cell.est_bps
    } else {
        proof {
            lemma_shrunk_between(*cell, *parent, k);
            let (a, b, c, d) = (cell.n as u128, cell.est_bps as u128, k as u128, parent.est_bps as u128);
            assert(a * b <= 0xffff_ffff * 0xffff_ffffu128 && c * d <= 0xffff_ffff * 0xffff_ffffu128) by (nonlinear_arith)
                requires
                    a <= 0xffff_ffff,
                    b <= 0xffff_ffff,
                    c <= 0xffff_ffff,
                    d <= 0xffff_ffff,
            ;
        }
        let num: u128 = cell.n as u128 * cell.est_bps as u128 + k as u128 * parent.est_bps as u128;
        (num / den as u128) as u32
    };
    Ok(HazardEstimate { value_bps: value, source: HazardSource::Shrunk, effective_sample: cell.n })
}

#[derive(Clone, Copy, Debug)]
struct CellSlot {
    key: CellKeyOrd,
    accum: HazardAccum,
}

spec fn cell_slot_key() -> spec_fn(CellSlot) -> CellKeyOrd {
    |s: CellSlot| s.key
}

/// The report-plane hazard scaffold: per-cell accumulators plus the two
/// phase-separated parents.
#[derive(Clone, Debug)]
pub struct HazardScaffold {
    cells: Vec<CellSlot>,
    /// Pooled over curve-phase fills only.
    curve_parent: HazardAccum,
    /// Pooled over pool-phase fills only; never combined with the curve parent.
    pool_parent: HazardAccum,
}

impl HazardScaffold {
    /// The accumulator of the cell with order key `key`, when tracked.
    pub closed spec fn cell_accum(&self, key: CellKeyOrd) -> Option<HazardAccum> {
        match keyed_get(self.cells@, cell_slot_key(), key) {
            Some(s) => Some(s.accum),
            None => None,
        }
    }

    /// The phase-separated parent accumulator of `phase`.
    pub closed spec fn parent_accum(&self, phase: Phase) -> HazardAccum {
        match phase {
            Phase::Curve => self.curve_parent,
            Phase::Pool => self.pool_parent,
        }
    }

    /// Number of tracked cells.
    pub closed spec fn cell_count(&self) -> nat {
        self.cells@.len()
    }

    /// Well-formedness: distinct cell keys, at most `HAZARD_CELL_CAP` cells.
    pub closed spec fn wf(&self) -> bool {
        &&& keys_distinct(self.cells@, cell_slot_key())
        &&& self.cells@.len() <= HAZARD_CELL_CAP
    }

    /// Whether `v` is the cell eviction picks: fewest samples, ties by the smaller
    /// key.
    pub open spec fn is_eviction_victim(&self, v: CellKeyOrd) -> bool {
        &&& self.cell_accum(v) is Some
        &&& forall|k: CellKeyOrd| #[trigger] self.cell_accum(k) is Some && k != v ==> cell_evicts_before(
            self.cell_accum(v)->Some_0.n,
            v,
            self.cell_accum(k)->Some_0.n,
            k,
        )
    }

    /// A fresh, empty scaffold.
    pub fn new() -> (r: Self)
        ensures
            r.wf(),
            r.cell_count() == 0,
            forall|k: CellKeyOrd| #[trigger] r.cell_accum(k) is None,
            r.parent_accum(Phase::Curve) == (HazardAccum { n: 0, events: 0 }),
            r.parent_accum(Phase::Pool) == (HazardAccum { n: 0, events: 0 }),
    {
        HazardScaffold {
            cells: Vec::new(),
            curve_parent: HazardAccum { n: 0, events: 0 },
            pool_parent: HazardAccum { n: 0, events: 0 },
        }
    }

    fn find(&self, key: CellKeyOrd) -> (r: Option<usize>)
        ensures
            match r {
                Some(i) => i < self.cells@.len() && self.cells@[i as int].key == key,
                None => !keyed_has(self.cells@, cell_slot_key(), key),
            },
    {
        let mut i: usize = 0;
        while i < self.cells.len()
            invariant
                i <= self.cells@.len(),
                forall|j: int| 0 <= j < i ==> #[trigger] self.cells@[j].key != key,
            decreases self.cells@.len() - i,
        {
            let k = self.cells[i].key;
            if k.0 == key.0 && k.1 == key.1 && k.2 == key.2 && k.3 == key.3 {
                return Some(i);
            }
            i += 1;
        }
        proof {
            if keyed_has(self.cells@, cell_slot_key(), key) {
                let j = choose|j: int| 0 <= j < self.cells@.len() && #[trigger] cell_slot_key()(self.cells@[j]) == key;
                assert(self.cells@[j].key != key);
            }
        }
        None
    }

    /// The eviction victim: fewest samples, ties by the smaller key.
    fn evict_key(&self) -> (r: Option<usize>)
        requires
            self.wf(),
        ensures
            match r {
                Some(i) => i < self.cells@.len() && self.is_eviction_victim(self.cells@[i as int].key),
                None => self.cell_count() == 0,
            },
    {
        if self.cells.len() == 0 {
            return None;
        }
        let mut best: usize = 0;
        let mut i: usize = 1;
        while i < self.cells.len()
            invariant
                self.wf(),
                1 <= i <= self.cells@.len(),
                best < i,
                forall|j: int| 0 <= j < i && j != best ==> cell_evicts_before(
                    self.cells@[best as int].accum.n,
                    self.cells@[best as int].key,
                    #[trigger] self.cells@[j].accum.n,
                    self.cells@[j].key,
                ),
            decreases self.cells@.len() - i,
        {
            let ni = self.cells[i].accum.n;
            let nb = self.cells[best].accum.n;
            proof {
                assert(cell_slot_key()(self.cells@[i as int]) != cell_slot_key()(self.cells@[best as int]));
            }
            if ni < nb || (ni == nb && ord_less(self.cells[i].key, self.cells[best].key)) {
                best = i;
            }
            i += 1;
        }
        proof {
            let s = self.cells@;
            let v = s[best as int].key;
            lemma_keyed_at(s, cell_slot_key(), best as int);
            assert forall|k: CellKeyOrd| #[trigger] self.cell_accum(k) is Some && k != v implies cell_evicts_before(
                self.cell_accum(v)->Some_0.n,
                v,
                self.cell_accum(k)->Some_0.n,
                k,
            ) by {
                let j = choose|j: int| 0 <= j < s.len() && #[trigger] cell_slot_key()(s[j]) == k;
                lemma_keyed_at(s, cell_slot_key(), j);
                assert(j != best);
            }
        }
        Some(best)
    }

    /// The effect of one fill: the cell's own phase parent and the cell are bumped
    /// (the cell from empty when untracked), the other phase's parent is untouched,
    /// and a new cell at capacity first evicts the victim.
    pub open spec fn record_transition(
        old: HazardScaffold,
        new: HazardScaffold,
        cell: CellKey,
        hazard_event: bool,
    ) -> bool {
        let key = spec_ord_key(cell);
        let other = match cell.phase {
            Phase::Curve => Phase::Pool,
            Phase::Pool => Phase::Curve,
        };
        let prior = match old.cell_accum(key) {
            Some(a) => a,
            None => HazardAccum { n: 0, events: 0 },
        };
        &&& new.parent_accum(cell.phase) == bumped(old.parent_accum(cell.phase), hazard_event)
        &&& new.parent_accum(other) == old.parent_accum(other)
        &&& new.cell_accum(key) == Some(bumped(prior, hazard_event))
        &&& (old.cell_accum(key) is Some || old.cell_count() < HAZARD_CELL_CAP) ==> {
            &&& new.cell_count() == old.cell_count() + (if old.cell_accum(key) is Some { 0nat } else { 1nat })
            &&& forall|k: CellKeyOrd| k != key ==> #[trigger] new.cell_accum(k) == old.cell_accum(k)
        }
        &&& (old.cell_accum(key) is None && old.cell_count() >= HAZARD_CELL_CAP) ==> exists|v: CellKeyOrd| {
            &&& #[trigger] old.is_eviction_victim(v)
            &&& new.cell_accum(v) is None
            &&& new.cell_count() == old.cell_count()
            &&& forall|k: CellKeyOrd| k != key && k != v ==> #[trigger] new.cell_accum(k) == old.cell_accum(k)
        }
    }

    /// Fold one realized paper-fill outcome for `cell`; `hazard_event` is whether
    /// the fill realized the hazard (such as a time-stop exit).
    pub fn record_fill(&mut self, cell: CellKey, hazard_event: bool)
        requires
            old(self).wf(),
        ensures
            final(self).wf(),
            Self::record_transition(*old(self), *final(self), cell, hazard_event),
    {
        let ghost o = *self;
        match cell.phase {
            Phase::Curve => self.curve_parent.bump(hazard_event),
            Phase::Pool => self.pool_parent.bump(hazard_event),
        }
        let ghost victim: Option<CellKeyOrd> = None;
        let key = ord_key(&cell);
        let idx: usize = match self.find(key) {
            Some(i) => {
                proof { lemma_keyed_at(self.cells@, cell_slot_key(), i as int); }
                i
            },
            None => {
                if self.cells.len() >= HAZARD_CELL_CAP {
                    match self.evict_key() {
                        Some(j) => {
                            proof {
                                lemma_keyed_at(self.cells@, cell_slot_key(), j as int);
                                lemma_keyed_remove(self.cells@, cell_slot_key(), j as int);
                                victim = Some(self.cells@[j as int].key);
                                assert(o.cells@ == self.cells@);
                                assert forall|kk: CellKeyOrd| #[trigger] o.cell_accum(kk) == self.cell_accum(kk) by {}
                                assert(o.is_eviction_victim(self.cells@[j as int].key));
                            }
                            self.cells.remove(j);
                        },
                        None => {},
                    }
                }
                let slot = CellSlot { key, accum: HazardAccum { n: 0, events: 0 } };
                proof {
                    assert(!keyed_has(self.cells@, cell_slot_key(), key)) by {
                        if keyed_has(self.cells@, cell_slot_key(), key) {
                            assert(self.cell_accum(key) is Some);
                        }
                    }
                    lemma_keyed_push(self.cells@, cell_slot_key(), slot);
                }
                self.cells.push(slot);
                proof { lemma_keyed_at(self.cells@, cell_slot_key(), self.cells@.len() - 1); }
                self.cells.len() - 1
            },
        };
        let ghost pre = *self;
        let ghost before = self.cells@;
        let mut a = self.cells[idx].accum;
        a.bump(hazard_event);
        let x = CellSlot { key, accum: a };
        self.cells.set(idx, x);
        proof {
            lemma_keyed_update(before, cell_slot_key(), idx as int, x);
            assert(self.cells@ =~= before.update(idx as int, x));
            assert forall|k: CellKeyOrd| k != key implies #[trigger] self.cell_accum(k) == pre.cell_accum(k) by {}
            if o.cell_accum(key) is None && o.cell_count() >= HAZARD_CELL_CAP {
                let vk = victim->Some_0;
                assert(victim is Some);
                assert forall|k: CellKeyOrd| k != key && k != vk implies #[trigger] self.cell_accum(k) == o.cell_accum(k) by {
                    assert(self.cell_accum(k) == pre.cell_accum(k));
                }
                assert(o.is_eviction_victim(vk) && self.cell_accum(vk) is None);
            } else if o.cell_accum(key) is None {
                assert(victim is None);
                assert forall|k: CellKeyOrd| k != key implies #[trigger] self.cell_accum(k) == o.cell_accum(k) by {
                    assert(self.cell_accum(k) == pre.cell_accum(k));
                }
            }
        }
    }

    /// The phase-separated parent accumulator for `phase`.
    fn parent_of(&self, phase: Phase) -> (r: HazardAccum)
        ensures
            r == self.parent_accum(phase),
    {
        match phase {
            Phase::Curve => self.curve_parent,
            Phase::Pool => self.pool_parent,
        }
    }

    /// The estimator's inputs for `cell`: its own accumulator (empty when untracked)
    /// and its phase-matched parent.
    pub open spec fn spec_inputs(&self, cell: CellKey) -> (CellEstimate, PhaseParent) {
        let a = match self.cell_accum(spec_ord_key(cell)) {
            Some(a) => a,
            None => HazardAccum { n: 0, events: 0 },
        };
        let p = self.parent_accum(cell.phase);
        (
            CellEstimate { phase: cell.phase, est_bps: spec_est_bps(a), n: a.n },
            PhaseParent { phase: cell.phase, est_bps: spec_est_bps(p), n: p.n },
        )
    }

    /// The hierarchical hazard estimate for `cell`, shrunk toward its own phase
    /// parent (the parent is chosen by `cell.phase`, so phases never mix).
    pub fn cell_hazard(&self, cell: CellKey, k: u32, min_effective_sample: u32, baseline_bps: u32) -> (r: Result<HazardEstimate, ShrinkError>)
        requires
            self.wf(),
        ensures
            r == spec_cell_hazard(self.spec_inputs(cell).0, self.spec_inputs(cell).1, k, min_effective_sample, baseline_bps),
            r is Ok,
    {
        let key = ord_key(&cell);
        let accum = match self.find(key) {
            Some(i) => {
                proof { lemma_keyed_at(self.cells@, cell_slot_key(), i as int); }
                self.cells[i].accum
            },
            None => HazardAccum { n: 0, events: 0 },
        };
        let cell_est = CellEstimate { phase: cell.phase, est_bps: accum.est_bps(), n: accum.n };
        let parent_acc = self.parent_of(cell.phase);
        let parent = PhaseParent { phase: cell.phase, est_bps: parent_acc.est_bps(), n: parent_acc.n };
        cell_hazard(&cell_est, &parent, k, min_effective_sample, baseline_bps)
    }

    /// Number of distinct cells tracked.
    pub fn cells_tracked(&self) -> (r: usize)
        requires
            self.wf(),
        ensures
            r == self.cell_count(),
            r <= HAZARD_CELL_CAP,
    {
        self.cells.len()
    }
}

/// Curve and pool are never pooled: a fill in one phase leaves everything the
/// estimator reads for a cell of the other phase unchanged (as long as the fill
/// did not evict that cell to make room).
pub proof fn lemma_phases_never_pool(
    old: HazardScaffold,
    new: HazardScaffold,
    fill: CellKey,
    hazard_event: bool,
    probe: CellKey,
)
    requires
        HazardScaffold::record_transition(old, new, fill, hazard_event),
        fill.phase != probe.phase,
        old.cell_accum(spec_ord_key(fill)) is Some || old.cell_count() < HAZARD_CELL_CAP,
    ensures
        new.spec_inputs(probe) == old.spec_inputs(probe),
{
    assert(spec_ord_key(fill) != spec_ord_key(probe));
    assert(new.cell_accum(spec_ord_key(probe)) == old.cell_accum(spec_ord_key(probe)));
}

impl Default for HazardScaffold {
    fn default() -> (r: Self)
        ensures
            r.wf(),
            r.cell_count() == 0,
            forall|k: CellKeyOrd| #[trigger] r.cell_accum(k) is None,
    {
        HazardScaffold::new()
    }
}

/// A run of `record_fill` calls: `states[i + 1]` follows `states[i]` by
/// recording a fill for the cell keyed `keys[i]` (`keys[i] == spec_ord_key(cells[i])`).
pub open spec fn is_fill_run(
    states: Seq<HazardScaffold>,
    cells: Seq<CellKey>,
    keys: Seq<CellKeyOrd>,
    events: Seq<bool>,
) -> bool {
    &&& states.len() == cells.len() + 1
    &&& keys.len() == cells.len()
    &&& events.len() == cells.len()
    &&& forall|i: int| 0 <= i < cells.len() ==> #[trigger] keys[i] == spec_ord_key(cells[i])
    &&& forall|i: int| 0 <= i < cells.len() ==> #[trigger] HazardScaffold::record_transition(
        states[i],
        states[i + 1],
        cells[i],
        events[i],
    )
}

proof fn lemma_fill_run_prefix(
    states: Seq<HazardScaffold>,
    cells: Seq<CellKey>,
    keys: Seq<CellKeyOrd>,
    events: Seq<bool>,
    n: int,
)
    requires
        is_fill_run(states, cells, keys, events),
        states[0].cell_count() == 0,
        forall|k: CellKeyOrd| #[trigger] states[0].cell_accum(k) is None,
        keys.to_set().len() <= HAZARD_CELL_CAP,
        0 <= n <= keys.len(),
    ensures
        states[n].cell_count() == keys.take(n).to_set().len(),
        forall|k: CellKeyOrd| #[trigger] states[n].cell_accum(k) is Some <==> keys.take(n).to_set().contains(k),
    decreases n,
{
    broadcast use vstd::seq_lib::seq_to_set_is_finite;
    if n == 0 {
        assert(keys.take(0).to_set() =~= Set::<CellKeyOrd>::empty());
    } else {
        lemma_fill_run_prefix(states, cells, keys, events, n - 1);
        let k = keys[n - 1];
        let s0 = keys.take(n - 1).to_set();
        let s1 = keys.take(n).to_set();
        let t0 = keys.take(n - 1);
        let t1 = keys.take(n);
        assert(t1 =~= t0.push(k));
        assert forall|x: CellKeyOrd| s1.contains(x) <==> s0.insert(k).contains(x) by {
            if s1.contains(x) {
                let i = choose|i: int| 0 <= i < t1.len() && t1[i] == x;
                if i < n - 1 {
                    assert(t0[i] == x);
                }
            }
            if s0.contains(x) {
                let i = choose|i: int| 0 <= i < t0.len() && t0[i] == x;
                assert(t1[i] == x);
            }
            if x == k {
                assert(t1[n - 1] == x);
            }
        }
        assert(s1 =~= s0.insert(k));
        assert(s1.subset_of(keys.to_set()));
        vstd::set_lib::lemma_len_subset(s1, keys.to_set());
        assert(keys[n - 1] == spec_ord_key(cells[n - 1]));
        assert(HazardScaffold::record_transition(states[n - 1], states[n], cells[n - 1], events[n - 1]));
        if !s0.contains(k) {
            assert(s1.len() == s0.len() + 1);
        }
    }
}

/// The scaffold's count is the number of distinct cells recorded: from an empty
/// scaffold, a run of fills over at most `HAZARD_CELL_CAP` distinct cell keys
/// tracks exactly those cells, one accumulator each.
pub proof fn lemma_cells_tracked_counts_distinct_cells(
    states: Seq<HazardScaffold>,
    cells: Seq<CellKey>,
    keys: Seq<CellKeyOrd>,
    events: Seq<bool>,
)
    requires
        is_fill_run(states, cells, keys, events),
        states[0].cell_count() == 0,
        forall|k: CellKeyOrd| #[trigger] states[0].cell_accum(k) is None,
        keys.to_set().len() <= HAZARD_CELL_CAP,
    ensures
        states.last().cell_count() == keys.to_set().len(),
        forall|k: CellKeyOrd| #[trigger] states.last().cell_accum(k) is Some <==> keys.contains(k),
{
    lemma_fill_run_prefix(states, cells, keys, events, cells.len() as int);
    assert(keys.take(cells.len() as int) =~= keys);
    assert forall|k: CellKeyOrd| #[trigger] states.last().cell_accum(k) is Some <==> keys.contains(k) by {
        assert(keys.to_set().contains(k) <==> keys.contains(k));
    }
}


} // verus!
