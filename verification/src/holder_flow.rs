//! Continuous holder accounting, folded from our own decoded swap flow.
//!
//! Per watched mint the plane keeps `entity -> net base-token position`, folded
//! per swap:
//!
//! | event | effect |
//! |---|---|
//! | buy by an entity whose tracked position is zero | `live += 1`, position `= qty` |
//! | buy by an entity already holding | position `+= qty`, count unchanged |
//! | sell that takes a tracked position to zero | `live -= 1`, position `= 0` |
//! | sell that leaves a tracked position positive | count unchanged |
//! | sell by an entity with no tracked position | exactness falsifier, count unchanged |
//! | zero-quantity swap | nothing moves |
//!
//! THE OBSERVATION-WINDOW LAW. From flow alone we only observe entities that trade
//! during our window. A mint watched from its creation event has an `Exact` count;
//! a mint discovered mid-life only has a `DeltaOnly` change; a mint whose entity
//! ledger overflowed is `Incomplete`, a lower bound. The basis only ever moves
//! toward less confidence, and a sell from an untracked position falsifies an
//! exactness claim on the spot.
//!
//! Besides the count, each ledger keeps what the distribution-shape statistics
//! need: per-entity gross traded base, the first buyers in arrival order, and how
//! many first buys landed in the creation slot (bundle) or just after it (sniper).
//!
//! Bounds: at most `entity_cap` entities per mint and `mint_cap` mints; a new mint
//! at capacity evicts the least-recently-traded ledger, ties broken by the smaller
//! mint key — a pure function of state.

use vstd::prelude::*;

verus! {

broadcast use vstd::array::group_array_axioms;

/// Bound on distinct entities tracked per mint.
pub const HOLDER_ENTITY_CAP: usize = 512;

/// Bound on mints with a live holder ledger.
pub const HOLDER_FLOW_MINT_CAP: usize = 512;

/// Minimum logical ticks between two holder samples handed to the growth
/// estimator (three 400 ms ticks, just above its one-second spacing floor).
pub const HOLDER_SAMPLE_INTERVAL_TICKS: u64 = 3;

/// Size of the early-buyer roster: the first distinct buyers of a mint, in
/// arrival order.
pub const EARLY_ROSTER_CAP: usize = 10;

/// A first buy landing within this many slots after the creation slot (and not in
/// it) is a sniper buy; one landing in the creation slot itself is a bundle buy.
pub const SNIPER_SLOT_WINDOW: u64 = 5;

/// What kind of number a holder reading actually is. Ordered by decreasing
/// confidence.
#[derive(Debug, Clone, Copy, PartialEq, Eq, PartialOrd, Ord, Hash)]
pub enum HolderCountBasis {
    /// Observed from the mint's creation event: an absolute number of holders.
    Exact,
    /// Observed from mid-life: a change, not a level.
    DeltaOnly,
    /// The entity ledger overflowed: a lower bound.
    Incomplete,
}

/// Confidence rank of a basis (0 = most confident).
pub open spec fn basis_rank(b: HolderCountBasis) -> u8 {
    match b {
        HolderCountBasis::Exact => 0,
        HolderCountBasis::DeltaOnly => 1,
        HolderCountBasis::Incomplete => 2,
    }
}

/// The less confident of two bases.
pub open spec fn basis_worst(a: HolderCountBasis, b: HolderCountBasis) -> HolderCountBasis {
    if basis_rank(b) > basis_rank(a) {
        b
    } else {
        a
    }
}

impl HolderCountBasis {
    /// Whether a consumer that wants an absolute holder level may read this
    /// reading. Only `Exact` qualifies.
    pub fn admits_level(self) -> (r: bool)
        ensures
            r == (self == HolderCountBasis::Exact),
    {
        matches!(self, HolderCountBasis::Exact)
    }

    /// Whether a consumer that wants holder growth may read this reading.
    /// `Exact` and `DeltaOnly` qualify; `Incomplete` does not.
    pub fn admits_growth(self) -> (r: bool)
        ensures
            r == (self != HolderCountBasis::Incomplete),
    {
        matches!(self, HolderCountBasis::Exact | HolderCountBasis::DeltaOnly)
    }

    /// Confidence rank (0 = most confident).
    fn rank(self) -> (r: u8)
        ensures
            r == basis_rank(self),
    {
        match self {
            HolderCountBasis::Exact => 0,
            HolderCountBasis::DeltaOnly => 1,
            HolderCountBasis::Incomplete => 2,
        }
    }

    /// The less confident of two bases.
    pub fn worst(self, other: HolderCountBasis) -> (r: HolderCountBasis)
        ensures
            r == basis_worst(self, other),
    {
        if other.rank() > self.rank() {
            other
        } else {
            self
        }
    }
}

/// The basis lattice is a join semilattice that only moves toward less
/// confidence: `worst` is commutative, associative and idempotent, and its result
/// is never more confident than either argument.
pub proof fn lemma_basis_worst_is_a_join(a: HolderCountBasis, b: HolderCountBasis, c: HolderCountBasis)
    ensures
        basis_worst(a, b) == basis_worst(b, a),
        basis_worst(basis_worst(a, b), c) == basis_worst(a, basis_worst(b, c)),
        basis_worst(a, a) == a,
        basis_rank(basis_worst(a, b)) >= basis_rank(a),
        basis_rank(basis_worst(a, b)) >= basis_rank(b),
{
}

/// Saturating unsigned 64-bit addition.
pub open spec fn sat_add_u64(a: u64, b: u64) -> u64 {
    if a + b > u64::MAX {
        u64::MAX
    } else {
        (a + b) as u64
    }
}

/// Saturating unsigned 32-bit increment.
pub open spec fn sat_inc32(a: u32) -> u32 {
    if a == u32::MAX {
        u32::MAX
    } else {
        (a + 1) as u32
    }
}

/// One entity's tracked position in a mint's ledger.
#[derive(Debug, Clone, Copy, PartialEq, Eq)]
pub struct EntityPosition {
    /// The trading entity.
    pub entity: u64,
    /// Net base-token position, saturating at zero (never negative).
    pub net: u64,
    /// Gross base-token quantity this entity traded while tracked, both sides.
    pub gross: u64,
    /// Whether a buy by this entity has been observed.
    pub bought: bool,
}

impl EntityPosition {
    /// The entity id.
    pub fn entity(&self) -> (r: u64)
        ensures
            r == self.entity,
    {
        self.entity
    }

    /// The net tracked position.
    pub fn net(&self) -> (r: u64)
        ensures
            r == self.net,
    {
        self.net
    }

    /// The gross traded quantity.
    pub fn gross(&self) -> (r: u64)
        ensures
            r == self.gross,
    {
        self.gross
    }
}

/// Entities strictly increasing by id (sorted, hence distinct).
pub open spec fn sorted_entities(s: Seq<EntityPosition>) -> bool {
    forall|i: int, j: int| 0 <= i < j < s.len() ==> #[trigger] s[i].entity < #[trigger] s[j].entity
}

/// Whether `e` has a tracked position.
pub open spec fn has_entity(s: Seq<EntityPosition>, e: u64) -> bool {
    exists|i: int| 0 <= i < s.len() && #[trigger] s[i].entity == e
}

/// The index of `e`'s position (meaningful when `has_entity`).
pub open spec fn entity_index(s: Seq<EntityPosition>, e: u64) -> int {
    choose|i: int| 0 <= i < s.len() && #[trigger] s[i].entity == e
}

/// Whether `i` splits the ledger around `e`: everything before is smaller and
/// everything from `i` on is larger.
pub open spec fn splits_at(s: Seq<EntityPosition>, e: u64, i: int) -> bool {
    &&& 0 <= i <= s.len()
    &&& forall|j: int| 0 <= j < i ==> #[trigger] s[j].entity < e
    &&& forall|j: int| i <= j < s.len() ==> #[trigger] s[j].entity > e
}

/// Where a new entity `e` is inserted to keep the ledger sorted.
pub open spec fn insert_point(s: Seq<EntityPosition>, e: u64) -> int {
    choose|i: int| splits_at(s, e, i)
}

/// Entities with a strictly positive tracked position.
pub open spec fn count_live(s: Seq<EntityPosition>) -> nat
    decreases s.len(),
{
    if s.len() == 0 {
        0
    } else {
        count_live(s.drop_last()) + if s.last().net > 0 {
            1nat
        } else {
            0nat
        }
    }
}

/// The abstract state of one mint's holder ledger.
pub struct LedgerModel {
    /// Tracked positions, sorted by entity id.
    pub entities: Seq<EntityPosition>,
    /// Entities with a strictly positive tracked position.
    pub live: u64,
    /// What kind of number the count is.
    pub basis: HolderCountBasis,
    /// Entity arrivals refused by the entity cap.
    pub truncated: u64,
    /// Sells from entities with no tracked position.
    pub unattributed_exits: u64,
    /// Information time of the first folded swap.
    pub first_ns: u64,
    /// Information time of the most recent folded swap.
    pub last_ns: u64,
    /// Logical tick of the most recent folded swap (the eviction clock).
    pub last_tick: u64,
    /// Tick of the last sample handed to the growth estimator.
    pub last_sample_tick: Option<u64>,
    /// The first distinct buyers, in arrival order.
    pub early: Seq<u64>,
    /// First buys that landed in the creation slot.
    pub bundle_entities: u32,
    /// First buys that landed within the sniper window after the creation slot.
    pub sniper_entities: u32,
    /// First buys that carried slot evidence at all.
    pub aged_first_buys: u32,
}

/// A fresh ledger for a mint first seen at tick `now`, information time `ns`.
pub open spec fn new_ledger(basis: HolderCountBasis, now: u64, ns: u64) -> LedgerModel {
    LedgerModel {
        entities: Seq::empty(),
        live: 0,
        basis,
        truncated: 0,
        unattributed_exits: 0,
        first_ns: ns,
        last_ns: ns,
        last_tick: now,
        last_sample_tick: None,
        early: Seq::empty(),
        bundle_entities: 0,
        sniper_entities: 0,
        aged_first_buys: 0,
    }
}

/// Well-formedness of a ledger under an entity cap.
pub open spec fn ledger_wf(l: LedgerModel, entity_cap: nat) -> bool {
    &&& sorted_entities(l.entities)
    &&& l.entities.len() <= entity_cap
    &&& l.live == count_live(l.entities)
    &&& l.early.len() <= EARLY_ROSTER_CAP
    &&& forall|i: int| 0 <= i < l.entities.len() ==> #[trigger] l.entities[i].gross >= l.entities[i].net
    &&& l.truncated > 0 ==> l.basis == HolderCountBasis::Incomplete
    &&& l.unattributed_exits > 0 ==> l.basis != HolderCountBasis::Exact
}

/// The cohort bookkeeping for an entity's first observed buy: the early roster
/// admits it while it has room, and the slot evidence (if any) classifies it as
/// a bundle buy (creation slot), a sniper buy (within the window after it), or
/// organic.
pub open spec fn first_buy(l: LedgerModel, e: u64, slot_age: Option<u64>) -> LedgerModel {
    LedgerModel {
        early: if l.early.len() < EARLY_ROSTER_CAP {
            l.early.push(e)
        } else {
            l.early
        },
        aged_first_buys: if slot_age is Some {
            sat_inc32(l.aged_first_buys)
        } else {
            l.aged_first_buys
        },
        bundle_entities: if slot_age == Some(0u64) {
            sat_inc32(l.bundle_entities)
        } else {
            l.bundle_entities
        },
        sniper_entities: if (slot_age matches Some(a) && 1 <= a <= SNIPER_SLOT_WINDOW) {
            sat_inc32(l.sniper_entities)
        } else {
            l.sniper_entities
        },
        ..l
    }
}

/// The magnitude of a signed base quantity.
pub open spec fn qty_of(signed_base: i64) -> u64 {
    if signed_base >= 0 {
        signed_base as u64
    } else {
        (-(signed_base as int)) as u64
    }
}

/// The accounting of one swap (see the module table): the new ledger, the signed
/// change in the live count, and whether the swap hit the entity cap.
pub open spec fn apply_flow(
    l: LedgerModel,
    e: u64,
    signed_base: i64,
    slot_age: Option<u64>,
    entity_cap: nat,
) -> (LedgerModel, i8, bool) {
    let s = l.entities;
    let qty = qty_of(signed_base);
    if signed_base > 0 {
        if has_entity(s, e) {
            let i = entity_index(s, e);
            let p = s[i];
            let np = EntityPosition {
                entity: e,
                net: sat_add_u64(p.net, qty),
                gross: sat_add_u64(p.gross, qty),
                bought: true,
            };
            let l1 = LedgerModel {
                entities: s.update(i, np),
                live: if p.net == 0 {
                    (l.live + 1) as u64
                } else {
                    l.live
                },
                ..l
            };
            (
                if p.bought {
                    l1
                } else {
                    first_buy(l1, e, slot_age)
                },
                if p.net == 0 {
                    1i8
                } else {
                    0i8
                },
                false,
            )
        } else if s.len() >= entity_cap {
            (
                LedgerModel {
                    truncated: sat_add_u64(l.truncated, 1),
                    basis: basis_worst(l.basis, HolderCountBasis::Incomplete),
                    ..l
                },
                0i8,
                true,
            )
        } else {
            let np = EntityPosition { entity: e, net: qty, gross: qty, bought: true };
            let l1 = LedgerModel {
                entities: s.insert(insert_point(s, e), np),
                live: (l.live + 1) as u64,
                ..l
            };
            (first_buy(l1, e, slot_age), 1i8, false)
        }
    } else if signed_base < 0 {
        if has_entity(s, e) {
            let i = entity_index(s, e);
            let p = s[i];
            if p.net == 0 {
                (
                    LedgerModel {
                        entities: s.update(i, EntityPosition { gross: sat_add_u64(p.gross, qty), ..p }),
                        unattributed_exits: sat_add_u64(l.unattributed_exits, 1),
                        basis: basis_worst(l.basis, HolderCountBasis::DeltaOnly),
                        ..l
                    },
                    0i8,
                    false,
                )
            } else if qty >= p.net {
                (
                    LedgerModel {
                        entities: s.update(
                            i,
                            EntityPosition { net: 0, gross: sat_add_u64(p.gross, qty), ..p },
                        ),
                        live: (l.live - 1) as u64,
                        basis: if qty > p.net {
                            basis_worst(l.basis, HolderCountBasis::DeltaOnly)
                        } else {
                            l.basis
                        },
                        ..l
                    },
                    -1i8,
                    false,
                )
            } else {
                (
                    LedgerModel {
                        entities: s.update(
                            i,
                            EntityPosition {
                                net: (p.net - qty) as u64,
                                gross: sat_add_u64(p.gross, qty),
                                ..p
                            },
                        ),
                        ..l
                    },
                    0i8,
                    false,
                )
            }
        } else {
            let l1 = LedgerModel {
                unattributed_exits: sat_add_u64(l.unattributed_exits, 1),
                basis: basis_worst(l.basis, HolderCountBasis::DeltaOnly),
                ..l
            };
            if s.len() >= entity_cap {
                (
                    LedgerModel {
                        truncated: sat_add_u64(l1.truncated, 1),
                        basis: basis_worst(l1.basis, HolderCountBasis::Incomplete),
                        ..l1
                    },
                    0i8,
                    true,
                )
            } else {
                (
                    LedgerModel {
                        entities: s.insert(
                            insert_point(s, e),
                            EntityPosition { entity: e, net: 0, gross: qty, bought: false },
                        ),
                        ..l1
                    },
                    0i8,
                    false,
                )
            }
        }
    } else {
        (l, 0i8, false)
    }
}

/// Whether the sampling cadence fires at `now`: the first observation always
/// samples; afterwards a whole sample interval must elapse.
pub open spec fn sample_due(last_sample_tick: Option<u64>, now: u64) -> bool {
    match last_sample_tick {
        None => true,
        Some(t) => now >= t && now - t >= HOLDER_SAMPLE_INTERVAL_TICKS,
    }
}

/// What one folded swap did to a mint's holder state.
#[derive(Debug, Clone, Copy, PartialEq, Eq, Default)]
pub struct HolderFold {
    /// Signed change in the live holder count (`-1`, `0` or `+1`).
    pub delta: i8,
    /// The count to sample into the growth estimator, when the cadence fired.
    pub sample: Option<u64>,
    /// True when this swap pushed the mint past the entity cap.
    pub truncated: bool,
}

/// One swap folded into a ledger at tick `now` and information time `ns`: the
/// clocks advance, the accounting applies, and the sampling cadence is consulted.
pub open spec fn fold_swap(
    l: LedgerModel,
    e: u64,
    signed_base: i64,
    now: u64,
    ns: u64,
    slot_age: Option<u64>,
    entity_cap: nat,
) -> (LedgerModel, HolderFold) {
    let l0 = LedgerModel { last_tick: now, last_ns: ns, ..l };
    let r = apply_flow(l0, e, signed_base, slot_age, entity_cap);
    if sample_due(r.0.last_sample_tick, now) {
        (
            LedgerModel { last_sample_tick: Some(now), ..r.0 },
            HolderFold { delta: r.1, sample: Some(r.0.live), truncated: r.2 },
        )
    } else {
        (r.0, HolderFold { delta: r.1, sample: None, truncated: r.2 })
    }
}

/// The accounting laws of one folded swap over a well-formed ledger:
///
/// * the basis only ever moves toward less confidence;
/// * the live count moves by exactly the reported delta, which is `-1`, `0` or `+1`;
/// * a zero-quantity swap moves no position and no count;
/// * a sell from an entity with no tracked position falsifies an `Exact` claim;
/// * a swap that hits the entity cap leaves the ledger `Incomplete`;
/// * a sample, when the cadence fires, is the post-swap live count;
/// * the ledger stays well formed.
pub proof fn lemma_fold_swap_laws(
    l: LedgerModel,
    e: u64,
    signed_base: i64,
    now: u64,
    ns: u64,
    slot_age: Option<u64>,
    entity_cap: nat,
)
    requires
        ledger_wf(l, entity_cap),
        entity_cap <= usize::MAX,
    ensures
        ({
            let r = fold_swap(l, e, signed_base, now, ns, slot_age, entity_cap);
            &&& basis_rank(r.0.basis) >= basis_rank(l.basis)
            &&& -1 <= r.1.delta <= 1
            &&& r.0.live == l.live + r.1.delta
            &&& signed_base == 0 ==> r.0.entities == l.entities && r.1.delta == 0
            &&& (signed_base < 0 && !has_entity(l.entities, e)) ==> r.0.basis != HolderCountBasis::Exact
            &&& r.1.truncated ==> r.0.basis == HolderCountBasis::Incomplete
            &&& r.1.sample matches Some(c) ==> c == r.0.live
            &&& r.0.last_tick == now && r.0.last_ns == ns
            &&& r.0.live <= r.0.entities.len() <= entity_cap
        }),
{
    let l0 = LedgerModel { last_tick: now, last_ns: ns, ..l };
    let s = l.entities;
    let qty = qty_of(signed_base);
    if has_entity(s, e) {
        let i = entity_index(s, e);
        let p = s[i];
        if signed_base > 0 {
            let np = EntityPosition {
                entity: e,
                net: sat_add_u64(p.net, qty),
                gross: sat_add_u64(p.gross, qty),
                bought: true,
            };
            lemma_count_live_update(s, i, np);
            lemma_count_live_le_len(s.update(i, np));
            if p.net == 0 {
                lemma_count_live_lt_len_with_zero(s, i);
            }
        } else if signed_base < 0 {
            if p.net == 0 {
                let np = EntityPosition { gross: sat_add_u64(p.gross, qty), ..p };
                lemma_count_live_update(s, i, np);
                lemma_count_live_le_len(s.update(i, np));
            } else if qty >= p.net {
                let np = EntityPosition { net: 0, gross: sat_add_u64(p.gross, qty), ..p };
                lemma_count_live_update(s, i, np);
                lemma_count_live_le_len(s.update(i, np));
                lemma_count_live_pos_at(s, i);
            } else {
                let np = EntityPosition { net: (p.net - qty) as u64, gross: sat_add_u64(p.gross, qty), ..p };
                lemma_count_live_update(s, i, np);
                lemma_count_live_le_len(s.update(i, np));
            }
        } else {
            lemma_count_live_le_len(s);
        }
    } else {
        lemma_count_live_le_len(s);
        if s.len() < entity_cap && signed_base != 0 {
            let ip = insert_point(s, e);
            let np = if signed_base > 0 {
                EntityPosition { entity: e, net: qty, gross: qty, bought: true }
            } else {
                EntityPosition { entity: e, net: 0, gross: qty, bought: false }
            };
            lemma_insert_point_exists(s, e);
            lemma_count_live_insert(s, ip, np);
            lemma_count_live_le_len(s.insert(ip, np));
        }
    }
}

// ---------------------------------------------------------------------------
// Ledger lemmas
// ---------------------------------------------------------------------------

/// In a sorted ledger an entity's index is unique.
pub proof fn lemma_entity_index_unique(s: Seq<EntityPosition>, e: u64, i: int)
    requires
        sorted_entities(s),
        0 <= i < s.len(),
        s[i].entity == e,
    ensures
        has_entity(s, e),
        entity_index(s, e) == i,
{
    let k = entity_index(s, e);
    assert(0 <= k < s.len() && s[k].entity == e);
    if k < i {
        assert(s[k].entity < s[i].entity);
    } else if k > i {
        assert(s[i].entity < s[k].entity);
    }
}

proof fn lemma_insert_point_unique(s: Seq<EntityPosition>, e: u64, i: int)
    requires
        splits_at(s, e, i),
    ensures
        insert_point(s, e) == i,
        !has_entity(s, e),
{
    let k = insert_point(s, e);
    assert(splits_at(s, e, k));
    if k < i {
        assert(s[k].entity < e);
        assert(s[k].entity > e);
    } else if k > i {
        assert(s[i].entity < e);
        assert(s[i].entity > e);
    }
    if has_entity(s, e) {
        let j = choose|j: int| 0 <= j < s.len() && #[trigger] s[j].entity == e;
        if j < i {
            assert(s[j].entity < e);
        } else {
            assert(s[j].entity > e);
        }
    }
}

proof fn lemma_split_exists(s: Seq<EntityPosition>, e: u64) -> (i: int)
    requires
        sorted_entities(s),
        !has_entity(s, e),
    ensures
        splits_at(s, e, i),
    decreases s.len(),
{
    if s.len() == 0 {
        0
    } else {
        let t = s.drop_last();
        assert(sorted_entities(t));
        assert(!has_entity(t, e)) by {
            if has_entity(t, e) {
                let j = choose|j: int| 0 <= j < t.len() && #[trigger] t[j].entity == e;
                assert(s[j].entity == e);
            }
        }
        let k = lemma_split_exists(t, e);
        let n = s.len() - 1;
        assert(s[n].entity != e);
        if s[n].entity < e {
            assert forall|j: int| 0 <= j < s.len() implies #[trigger] s[j].entity < e by {
                if j < n {
                    assert(s[j].entity < s[n].entity);
                }
            }
            s.len() as int
        } else {
            assert forall|j: int| 0 <= j < k implies #[trigger] s[j].entity < e by {
                assert(t[j].entity < e);
            }
            assert forall|j: int| k <= j < s.len() implies #[trigger] s[j].entity > e by {
                if j < n {
                    assert(t[j].entity > e);
                }
            }
            k
        }
    }
}

/// A ledger that does not hold `e` has a well-defined insertion point for it.
pub proof fn lemma_insert_point_exists(s: Seq<EntityPosition>, e: u64)
    requires
        sorted_entities(s),
        !has_entity(s, e),
    ensures
        splits_at(s, e, insert_point(s, e)),
{
    let i = lemma_split_exists(s, e);
    lemma_insert_point_unique(s, e, i);
}

proof fn lemma_count_live_update(s: Seq<EntityPosition>, i: int, p: EntityPosition)
    requires
        0 <= i < s.len(),
    ensures
        count_live(s.update(i, p)) + (if s[i].net > 0 { 1int } else { 0int }) == count_live(s)
            + (if p.net > 0 { 1int } else { 0int }),
    decreases s.len(),
{
    let t = s.update(i, p);
    if i == s.len() - 1 {
        assert(t.drop_last() =~= s.drop_last());
    } else {
        assert(t.drop_last() =~= s.drop_last().update(i, p));
        lemma_count_live_update(s.drop_last(), i, p);
    }
}

proof fn lemma_count_live_insert(s: Seq<EntityPosition>, i: int, p: EntityPosition)
    requires
        0 <= i <= s.len(),
    ensures
        count_live(s.insert(i, p)) == count_live(s) + (if p.net > 0 { 1int } else { 0int }),
    decreases s.len(),
{
    let t = s.insert(i, p);
    if i == s.len() {
        assert(t.drop_last() =~= s);
    } else {
        assert(t.drop_last() =~= s.drop_last().insert(i, p));
        lemma_count_live_insert(s.drop_last(), i, p);
    }
}

/// The live count never exceeds the number of tracked entities.
pub proof fn lemma_count_live_le_len(s: Seq<EntityPosition>)
    ensures
        count_live(s) <= s.len(),
    decreases s.len(),
{
    if s.len() > 0 {
        lemma_count_live_le_len(s.drop_last());
    }
}

proof fn lemma_count_live_lt_len_with_zero(s: Seq<EntityPosition>, i: int)
    requires
        0 <= i < s.len(),
        s[i].net == 0,
    ensures
        count_live(s) < s.len(),
{
    let p = EntityPosition { net: 1, ..s[i] };
    lemma_count_live_update(s, i, p);
    lemma_count_live_le_len(s.update(i, p));
}

proof fn lemma_count_live_pos_at(s: Seq<EntityPosition>, i: int)
    requires
        0 <= i < s.len(),
        s[i].net > 0,
    ensures
        count_live(s) >= 1,
{
    let p = EntityPosition { net: 0, ..s[i] };
    lemma_count_live_update(s, i, p);
}

// ---------------------------------------------------------------------------
// One mint's ledger
// ---------------------------------------------------------------------------

/// A point-in-time holder reading for one mint, with its basis attached. The
/// count is private: every accessor that yields a number is gated on the basis.
#[derive(Debug, Clone, Copy, PartialEq, Eq)]
pub struct HolderReading {
    basis: HolderCountBasis,
    live: u64,
    entities_tracked: u32,
    truncated: u64,
    unattributed_exits: u64,
    first_ns: u64,
    last_ns: u64,
}

/// The observable content of a holder reading.
pub struct ReadingModel {
    /// What kind of number the count is.
    pub basis: HolderCountBasis,
    /// Entities with a strictly positive tracked position.
    pub live: u64,
    /// Distinct entities in the ledger (saturating at `u32::MAX`).
    pub entities_tracked: u32,
    /// Entity arrivals refused by the entity cap.
    pub truncated: u64,
    /// Sells from entities with no tracked position.
    pub unattributed_exits: u64,
    /// Information time of the first folded swap.
    pub first_ns: u64,
    /// Information time of the most recent folded swap.
    pub last_ns: u64,
}

/// The reading a ledger yields.
pub open spec fn reading_of(l: LedgerModel) -> ReadingModel {
    ReadingModel {
        basis: l.basis,
        live: l.live,
        entities_tracked: if l.entities.len() > u32::MAX {
            u32::MAX
        } else {
            l.entities.len() as u32
        },
        truncated: l.truncated,
        unattributed_exits: l.unattributed_exits,
        first_ns: l.first_ns,
        last_ns: l.last_ns,
    }
}

impl View for HolderReading {
    type V = ReadingModel;

    closed spec fn view(&self) -> ReadingModel {
        ReadingModel {
            basis: self.basis,
            live: self.live,
            entities_tracked: self.entities_tracked,
            truncated: self.truncated,
            unattributed_exits: self.unattributed_exits,
            first_ns: self.first_ns,
            last_ns: self.last_ns,
        }
    }
}

impl HolderReading {
    /// What kind of number this is.
    pub fn basis(&self) -> (r: HolderCountBasis)
        ensures
            r == self@.basis,
    {
        self.basis
    }

    /// The absolute holder count, or `None` when the basis cannot support one.
    pub fn level(&self) -> (r: Option<u64>)
        ensures
            r == (if self@.basis == HolderCountBasis::Exact {
                Some(self@.live)
            } else {
                None
            }),
    {
        if self.basis.admits_level() {
            Some(self.live)
        } else {
            None
        }
    }

    /// The count usable as the base of a growth measurement, or `None` under
    /// `Incomplete`.
    pub fn growth_level(&self) -> (r: Option<u64>)
        ensures
            r == (if self@.basis != HolderCountBasis::Incomplete {
                Some(self@.live)
            } else {
                None
            }),
    {
        if self.basis.admits_growth() {
            Some(self.live)
        } else {
            None
        }
    }

    /// The raw tracked count with no basis gate — a lower bound, for diagnostics.
    pub fn lower_bound(&self) -> (r: u64)
        ensures
            r == self@.live,
    {
        self.live
    }

    /// Distinct entities in the mint's ledger.
    pub fn entities_tracked(&self) -> (r: u32)
        ensures
            r == self@.entities_tracked,
    {
        self.entities_tracked
    }

    /// Entity arrivals refused by the entity cap.
    pub fn truncated(&self) -> (r: u64)
        ensures
            r == self@.truncated,
    {
        self.truncated
    }

    /// Sells observed from entities with no tracked position.
    pub fn unattributed_exits(&self) -> (r: u64)
        ensures
            r == self@.unattributed_exits,
    {
        self.unattributed_exits
    }

    /// Information time of the first folded swap for this mint.
    pub fn first_ns(&self) -> (r: u64)
        ensures
            r == self@.first_ns,
    {
        self.first_ns
    }

    /// Information time of the most recent folded swap for this mint.
    pub fn last_ns(&self) -> (r: u64)
        ensures
            r == self@.last_ns,
    {
        self.last_ns
    }
}

/// One mint's holder ledger.
#[derive(Debug)]
struct MintHolders {
    entities: Vec<EntityPosition>,
    live: u64,
    basis: HolderCountBasis,
    truncated: u64,
    unattributed_exits: u64,
    first_ns: u64,
    last_ns: u64,
    last_tick: u64,
    last_sample_tick: Option<u64>,
    early: Vec<u64>,
    bundle_entities: u32,
    sniper_entities: u32,
    aged_first_buys: u32,
}

/// Binary search for `e` in a sorted ledger: its index, or the insertion point
/// that keeps the ledger sorted.
pub fn find_entity(s: &[EntityPosition], e: u64) -> (r: Result<usize, usize>)
    requires
        sorted_entities(s@),
    ensures
        match r {
            Ok(i) => i < s@.len() && s@[i as int].entity == e,
            Err(i) => splits_at(s@, e, i as int),
        },
{
    let mut lo: usize = 0;
    let mut hi: usize = s.len();
    while lo < hi
        invariant
            0 <= lo <= hi <= s@.len(),
            sorted_entities(s@),
            forall|j: int| 0 <= j < lo ==> #[trigger] s@[j].entity < e,
            forall|j: int| hi <= j < s@.len() ==> #[trigger] s@[j].entity > e,
        decreases hi - lo,
    {
        let mid = lo + (hi - lo) / 2;
        let m = s[mid].entity;
        if m == e {
            return Ok(mid);
        } else if m < e {
            assert forall|j: int| 0 <= j < mid + 1 implies #[trigger] s@[j].entity < e by {
                if j < mid {
                    assert(s@[j].entity < s@[mid as int].entity);
                }
            }
            lo = mid + 1;
        } else {
            assert forall|j: int| mid <= j < s@.len() implies #[trigger] s@[j].entity > e by {
                if j > mid {
                    assert(s@[mid as int].entity < s@[j].entity);
                }
            }
            hi = mid;
        }
    }
    Err(lo)
}

impl MintHolders {
    closed spec fn model(&self) -> LedgerModel {
        LedgerModel {
            entities: self.entities@,
            live: self.live,
            basis: self.basis,
            truncated: self.truncated,
            unattributed_exits: self.unattributed_exits,
            first_ns: self.first_ns,
            last_ns: self.last_ns,
            last_tick: self.last_tick,
            last_sample_tick: self.last_sample_tick,
            early: self.early@,
            bundle_entities: self.bundle_entities,
            sniper_entities: self.sniper_entities,
            aged_first_buys: self.aged_first_buys,
        }
    }

    fn new(basis: HolderCountBasis, now: u64, ns: u64) -> (m: Self)
        ensures
            m.model() == new_ledger(basis, now, ns),
    {
        let m = MintHolders {
            entities: Vec::new(),
            live: 0,
            basis,
            truncated: 0,
            unattributed_exits: 0,
            first_ns: ns,
            last_ns: ns,
            last_tick: now,
            last_sample_tick: None,
            early: Vec::new(),
            bundle_entities: 0,
            sniper_entities: 0,
            aged_first_buys: 0,
        };
        assert(m.model().entities =~= Seq::<EntityPosition>::empty());
        assert(m.model().early =~= Seq::<u64>::empty());
        m
    }

    fn reading(&self) -> (r: HolderReading)
        ensures
            r@ == reading_of(self.model()),
    {
        let n = self.entities.len();
        HolderReading {
            basis: self.basis,
            live: self.live,
            entities_tracked: if n > u32::MAX as usize {
                u32::MAX
            } else {
                n as u32
            },
            truncated: self.truncated,
            unattributed_exits: self.unattributed_exits,
            first_ns: self.first_ns,
            last_ns: self.last_ns,
        }
    }

    fn sample_due(&self, now: u64) -> (r: bool)
        ensures
            r == sample_due(self.last_sample_tick, now),
    {
        match self.last_sample_tick {
            None => true,
            Some(t) => now >= t && now - t >= HOLDER_SAMPLE_INTERVAL_TICKS,
        }
    }

    fn note_first_buy(&mut self, e: u64, slot_age: Option<u64>)
        ensures
            final(self).model() == first_buy(old(self).model(), e, slot_age),
    {
        if self.early.len() < EARLY_ROSTER_CAP {
            self.early.push(e);
        }
        if let Some(a) = slot_age {
            self.aged_first_buys = self.aged_first_buys.saturating_add(1);
            if a == 0 {
                self.bundle_entities = self.bundle_entities.saturating_add(1);
            } else if a <= SNIPER_SLOT_WINDOW {
                self.sniper_entities = self.sniper_entities.saturating_add(1);
            }
        }
        assert(final(self).model().early =~= first_buy(old(self).model(), e, slot_age).early);
    }

    /// Fold one swap into this ledger.
    #[verifier::rlimit(40)]
    fn fold(&mut self, e: u64, signed_base: i64, now: u64, ns: u64, slot_age: Option<u64>, entity_cap: usize) -> (f: HolderFold)
        requires
            ledger_wf(old(self).model(), entity_cap as nat),
        ensures
            ledger_wf(final(self).model(), entity_cap as nat),
            (final(self).model(), f) == fold_swap(old(self).model(), e, signed_base, now, ns, slot_age, entity_cap as nat),
    {
        let ghost l = old(self).model();
        let ghost l0 = LedgerModel { last_tick: now, last_ns: ns, ..l };
        self.last_tick = now;
        self.last_ns = ns;
        assert(self.model() == l0);
        let ghost r = apply_flow(l0, e, signed_base, slot_age, entity_cap as nat);
        let qty: u64 = if signed_base >= 0 {
            signed_base as u64
        } else if signed_base == i64::MIN {
            9_223_372_036_854_775_808u64
        } else {
            (-signed_base) as u64
        };
        assert(qty == qty_of(signed_base));
        let mut delta: i8 = 0;
        let mut truncated = false;
        if signed_base > 0 {
            match find_entity(self.entities.as_slice(), e) {
                Ok(i) => {
                    proof { lemma_entity_index_unique(self.entities@, e, i as int); }
                    let p = self.entities[i];
                    let np = EntityPosition {
                        entity: e,
                        net: p.net.saturating_add(qty),
                        gross: p.gross.saturating_add(qty),
                        bought: true,
                    };
                    proof {
                        lemma_count_live_update(self.entities@, i as int, np);
                        if p.net == 0 {
                            lemma_count_live_lt_len_with_zero(self.entities@, i as int);
                        }
                    }
                    self.entities.set(i, np);
                    if p.net == 0 {
                        self.live = self.live + 1;
                        delta = 1;
                    }
                    if !p.bought {
                        self.note_first_buy(e, slot_age);
                    }
                },
                Err(pos) => {
                    proof { lemma_insert_point_unique(self.entities@, e, pos as int); }
                    if self.entities.len() >= entity_cap {
                        self.truncated = self.truncated.saturating_add(1);
                        self.basis = self.basis.worst(HolderCountBasis::Incomplete);
                        truncated = true;
                    } else {
                        let np = EntityPosition { entity: e, net: qty, gross: qty, bought: true };
                        proof {
                            lemma_count_live_insert(self.entities@, pos as int, np);
                            lemma_count_live_le_len(self.entities@);
                        }
                        self.entities.insert(pos, np);
                        self.live = self.live + 1;
                        delta = 1;
                        self.note_first_buy(e, slot_age);
                    }
                },
            }
        } else if signed_base < 0 {
            match find_entity(self.entities.as_slice(), e) {
                Ok(i) => {
                    proof { lemma_entity_index_unique(self.entities@, e, i as int); }
                    let p = self.entities[i];
                    if p.net == 0 {
                        let np = EntityPosition { gross: p.gross.saturating_add(qty), ..p };
                        proof { lemma_count_live_update(self.entities@, i as int, np); }
                        self.entities.set(i, np);
                        self.unattributed_exits = self.unattributed_exits.saturating_add(1);
                        self.basis = self.basis.worst(HolderCountBasis::DeltaOnly);
                    } else if qty >= p.net {
                        if qty > p.net {
                            self.basis = self.basis.worst(HolderCountBasis::DeltaOnly);
                        }
                        let np = EntityPosition { net: 0, gross: p.gross.saturating_add(qty), ..p };
                        proof {
                            lemma_count_live_update(self.entities@, i as int, np);
                            lemma_count_live_pos_at(self.entities@, i as int);
                        }
                        self.entities.set(i, np);
                        self.live = self.live - 1;
                        delta = -1;
                    } else {
                        let np = EntityPosition {
                            net: p.net - qty,
                            gross: p.gross.saturating_add(qty),
                            ..p
                        };
                        proof { lemma_count_live_update(self.entities@, i as int, np); }
                        self.entities.set(i, np);
                    }
                },
                Err(pos) => {
                    proof { lemma_insert_point_unique(self.entities@, e, pos as int); }
                    self.unattributed_exits = self.unattributed_exits.saturating_add(1);
                    self.basis = self.basis.worst(HolderCountBasis::DeltaOnly);
                    if self.entities.len() >= entity_cap {
                        self.truncated = self.truncated.saturating_add(1);
                        self.basis = self.basis.worst(HolderCountBasis::Incomplete);
                        truncated = true;
                    } else {
                        let np = EntityPosition { entity: e, net: 0, gross: qty, bought: false };
                        proof { lemma_count_live_insert(self.entities@, pos as int, np); }
                        self.entities.insert(pos, np);
                    }
                },
            }
        }
        assert(self.model() == r.0);
        assert(delta == r.1 && truncated == r.2);
        let mut fold = HolderFold { delta, sample: None, truncated };
        if self.sample_due(now) {
            self.last_sample_tick = Some(now);
            fold.sample = Some(self.live);
        }
        fold
    }
}


// ---------------------------------------------------------------------------
// Mint keys
// ---------------------------------------------------------------------------

/// Lexicographic order on 32-byte mint keys.
pub open spec fn key_lt(a: [u8; 32], b: [u8; 32]) -> bool {
    exists|i: int|
        0 <= i < 32 && #[trigger] a[i] < b[i] && forall|j: int| 0 <= j < i ==> a[j] == b[j]
}

/// Whether two mint keys are equal, byte by byte.
pub fn key_eq(a: &[u8; 32], b: &[u8; 32]) -> (r: bool)
    ensures
        r == (*a == *b),
{
    let mut i: usize = 0;
    while i < 32
        invariant
            i <= 32,
            forall|j: int| 0 <= j < i ==> a[j] == b[j],
        decreases 32 - i,
    {
        if a[i] != b[i] {
            return false;
        }
        i += 1;
    }
    assert(*a =~= *b);
    true
}

/// Whether `a` sorts strictly before `b`.
pub fn key_less(a: &[u8; 32], b: &[u8; 32]) -> (r: bool)
    ensures
        r == key_lt(*a, *b),
{
    let mut i: usize = 0;
    while i < 32
        invariant
            i <= 32,
            forall|j: int| 0 <= j < i ==> a[j] == b[j],
        decreases 32 - i,
    {
        if a[i] != b[i] {
            let r = a[i] < b[i];
            proof {
                if !r {
                    if key_lt(*a, *b) {
                        let k = choose|k: int|
                            0 <= k < 32 && #[trigger] a[k] < b[k] && forall|j: int|
                                0 <= j < k ==> a[j] == b[j];
                        if k < i {
                        } else if k > i {
                            assert(a[i as int] == b[i as int]);
                        }
                    }
                }
            }
            return r;
        }
        i += 1;
    }
    proof {
        if key_lt(*a, *b) {
            let k = choose|k: int|
                0 <= k < 32 && #[trigger] a[k] < b[k] && forall|j: int| 0 <= j < k ==> a[j] == b[j];
            assert(a[k] == b[k]);
        }
    }
    false
}

proof fn lemma_first_diff(a: [u8; 32], b: [u8; 32], k: int) -> (i: int)
    requires
        0 <= k <= 32,
        forall|j: int| 0 <= j < k ==> a[j] == b[j],
        exists|j: int| k <= j < 32 && #[trigger] a[j] != b[j],
    ensures
        k <= i < 32,
        a[i] != b[i],
        forall|j: int| 0 <= j < i ==> a[j] == b[j],
    decreases 32 - k,
{
    if a[k] != b[k] {
        k
    } else {
        lemma_first_diff(a, b, k + 1)
    }
}

/// The key order is total on distinct keys.
pub proof fn lemma_key_lt_total(a: [u8; 32], b: [u8; 32])
    requires
        a != b,
    ensures
        key_lt(a, b) || key_lt(b, a),
{
    if a =~= b {
        assert(a == b);
    }
    let w = choose|j: int| 0 <= j < 32 && a[j] != b[j];
    assert(0 <= w < 32 && a[w] != b[w]);
    let i = lemma_first_diff(a, b, 0);
    if a[i] < b[i] {
        assert(key_lt(a, b));
    } else {
        assert(forall|j: int| 0 <= j < i ==> b[j] == a[j]);
        assert(b[i] < a[i]);
        assert(key_lt(b, a));
    }
}

/// The key order is a strict order: irreflexive, asymmetric and transitive.
pub proof fn lemma_key_lt_strict(a: [u8; 32], b: [u8; 32], c: [u8; 32])
    ensures
        !key_lt(a, a),
        key_lt(a, b) ==> !key_lt(b, a),
        key_lt(a, b) && key_lt(b, c) ==> key_lt(a, c),
{
    if key_lt(a, b) {
        let i = choose|i: int|
            0 <= i < 32 && #[trigger] a[i] < b[i] && forall|j: int| 0 <= j < i ==> a[j] == b[j];
        if key_lt(b, a) {
            let k = choose|k: int|
                0 <= k < 32 && #[trigger] b[k] < a[k] && forall|j: int| 0 <= j < k ==> b[j] == a[j];
            if i < k {
                assert(b[i] == a[i]);
            } else if k < i {
                assert(a[k] == b[k]);
            }
        }
        if key_lt(b, c) {
            let k = choose|k: int|
                0 <= k < 32 && #[trigger] b[k] < c[k] && forall|j: int| 0 <= j < k ==> b[j] == c[j];
            let m = if i < k { i } else { k };
            assert(a[m] < c[m]);
            assert(forall|j: int| 0 <= j < m ==> a[j] == c[j]);
        }
    }
}

/// The eviction order on `(last_tick, key)` pairs: older first, then smaller key.
pub open spec fn evicts_before(t1: u64, k1: [u8; 32], t2: u64, k2: [u8; 32]) -> bool {
    t1 < t2 || (t1 == t2 && key_lt(k1, k2))
}

// ---------------------------------------------------------------------------
// The plane
// ---------------------------------------------------------------------------

#[derive(Debug)]
struct MintSlot {
    key: [u8; 32],
    holders: MintHolders,
}

#[derive(Debug, Clone, Copy)]
struct CreationMark {
    key: [u8; 32],
    tick: u64,
}

spec fn slots_distinct(s: Seq<MintSlot>) -> bool {
    forall|i: int, j: int| 0 <= i < s.len() && 0 <= j < s.len() && i != j ==> #[trigger] s[i].key != #[trigger] s[j].key
}

spec fn slots_have(s: Seq<MintSlot>, k: [u8; 32]) -> bool {
    exists|i: int| 0 <= i < s.len() && #[trigger] s[i].key == k
}

spec fn slot_ledger(s: Seq<MintSlot>, k: [u8; 32]) -> Option<LedgerModel> {
    if slots_have(s, k) {
        Some(s[choose|i: int| 0 <= i < s.len() && #[trigger] s[i].key == k].holders.model())
    } else {
        None
    }
}

spec fn marks_distinct(s: Seq<CreationMark>) -> bool {
    forall|i: int, j: int| 0 <= i < s.len() && 0 <= j < s.len() && i != j ==> #[trigger] s[i].key != #[trigger] s[j].key
}

spec fn marks_have(s: Seq<CreationMark>, k: [u8; 32]) -> bool {
    exists|i: int| 0 <= i < s.len() && #[trigger] s[i].key == k
}

spec fn mark_tick(s: Seq<CreationMark>, k: [u8; 32]) -> Option<u64> {
    if marks_have(s, k) {
        Some(s[choose|i: int| 0 <= i < s.len() && #[trigger] s[i].key == k].tick)
    } else {
        None
    }
}

proof fn lemma_slot_at(s: Seq<MintSlot>, i: int)
    requires
        slots_distinct(s),
        0 <= i < s.len(),
    ensures
        slots_have(s, s[i].key),
        slot_ledger(s, s[i].key) == Some(s[i].holders.model()),
{
    let k = s[i].key;
    assert(slots_have(s, k));
    let c = choose|c: int| 0 <= c < s.len() && #[trigger] s[c].key == k;
    if c != i {
        assert(s[c].key != s[i].key);
    }
}

proof fn lemma_slot_update(s: Seq<MintSlot>, i: int, slot: MintSlot)
    requires
        slots_distinct(s),
        0 <= i < s.len(),
        s[i].key == slot.key,
    ensures
        slots_distinct(s.update(i, slot)),
        forall|k: [u8; 32]| #[trigger] slot_ledger(s.update(i, slot), k) == (if k == slot.key {
            Some(slot.holders.model())
        } else {
            slot_ledger(s, k)
        }),
{
    let t = s.update(i, slot);
    assert(slots_distinct(t)) by {
        assert forall|a: int, b: int| 0 <= a < t.len() && 0 <= b < t.len() && a != b implies #[trigger] t[a].key != #[trigger] t[b].key by {
            assert(t[a].key == s[a].key);
            assert(t[b].key == s[b].key);
        }
    }
    assert forall|k: [u8; 32]| #[trigger] slot_ledger(t, k) == (if k == slot.key {
        Some(slot.holders.model())
    } else {
        slot_ledger(s, k)
    }) by {
        if k == slot.key {
            lemma_slot_at(t, i);
        } else if slots_have(s, k) {
            let j = choose|j: int| 0 <= j < s.len() && #[trigger] s[j].key == k;
            lemma_slot_at(s, j);
            assert(t[j] == s[j]);
            lemma_slot_at(t, j);
        } else {
            if slots_have(t, k) {
                let j = choose|j: int| 0 <= j < t.len() && #[trigger] t[j].key == k;
                assert(t[j] == s[j]);
            }
        }
    }
}

proof fn lemma_slot_remove(s: Seq<MintSlot>, i: int)
    requires
        slots_distinct(s),
        0 <= i < s.len(),
    ensures
        slots_distinct(s.remove(i)),
        forall|k: [u8; 32]| #[trigger] slot_ledger(s.remove(i), k) == (if k == s[i].key {
            None
        } else {
            slot_ledger(s, k)
        }),
{
    let t = s.remove(i);
    assert(slots_distinct(t)) by {
        assert forall|a: int, b: int| 0 <= a < t.len() && 0 <= b < t.len() && a != b implies #[trigger] t[a].key != #[trigger] t[b].key by {
            let a2 = if a < i { a } else { a + 1 };
            let b2 = if b < i { b } else { b + 1 };
            assert(t[a] == s[a2]);
            assert(t[b] == s[b2]);
        }
    }
    assert forall|k: [u8; 32]| #[trigger] slot_ledger(t, k) == (if k == s[i].key {
        None
    } else {
        slot_ledger(s, k)
    }) by {
        if slots_have(t, k) {
            let j = choose|j: int| 0 <= j < t.len() && #[trigger] t[j].key == k;
            let j2 = if j < i { j } else { j + 1 };
            assert(t[j] == s[j2]);
            lemma_slot_at(t, j);
            lemma_slot_at(s, j2);
            if k == s[i].key {
                assert(s[j2].key == s[i].key);
            }
        } else if k != s[i].key && slots_have(s, k) {
            let j = choose|j: int| 0 <= j < s.len() && #[trigger] s[j].key == k;
            assert(j != i);
            let j2 = if j < i { j } else { j - 1 };
            assert(t[j2] == s[j]);
        }
    }
}

proof fn lemma_slot_push(s: Seq<MintSlot>, slot: MintSlot)
    requires
        slots_distinct(s),
        !slots_have(s, slot.key),
    ensures
        slots_distinct(s.push(slot)),
        forall|k: [u8; 32]| #[trigger] slot_ledger(s.push(slot), k) == (if k == slot.key {
            Some(slot.holders.model())
        } else {
            slot_ledger(s, k)
        }),
{
    let t = s.push(slot);
    assert(slots_distinct(t)) by {
        assert forall|a: int, b: int| 0 <= a < t.len() && 0 <= b < t.len() && a != b implies #[trigger] t[a].key != #[trigger] t[b].key by {
            if a < s.len() && b < s.len() {
                assert(t[a] == s[a]);
                assert(t[b] == s[b]);
            } else if a < s.len() {
                assert(t[a] == s[a]);
            } else {
                assert(t[b] == s[b]);
            }
        }
    }
    assert forall|k: [u8; 32]| #[trigger] slot_ledger(t, k) == (if k == slot.key {
        Some(slot.holders.model())
    } else {
        slot_ledger(s, k)
    }) by {
        if k == slot.key {
            lemma_slot_at(t, s.len() as int);
        } else if slots_have(s, k) {
            let j = choose|j: int| 0 <= j < s.len() && #[trigger] s[j].key == k;
            lemma_slot_at(s, j);
            assert(t[j] == s[j]);
            lemma_slot_at(t, j);
        } else if slots_have(t, k) {
            let j = choose|j: int| 0 <= j < t.len() && #[trigger] t[j].key == k;
            assert(j < s.len());
            assert(t[j] == s[j]);
        }
    }
}

proof fn lemma_mark_at(s: Seq<CreationMark>, i: int)
    requires
        marks_distinct(s),
        0 <= i < s.len(),
    ensures
        marks_have(s, s[i].key),
        mark_tick(s, s[i].key) == Some(s[i].tick),
{
    let k = s[i].key;
    assert(marks_have(s, k));
    let c = choose|c: int| 0 <= c < s.len() && #[trigger] s[c].key == k;
    if c != i {
        assert(s[c].key != s[i].key);
    }
}

proof fn lemma_mark_update(s: Seq<CreationMark>, i: int, m: CreationMark)
    requires
        marks_distinct(s),
        0 <= i < s.len(),
        s[i].key == m.key,
    ensures
        marks_distinct(s.update(i, m)),
        forall|k: [u8; 32]| #[trigger] mark_tick(s.update(i, m), k) == (if k == m.key {
            Some(m.tick)
        } else {
            mark_tick(s, k)
        }),
{
    let t = s.update(i, m);
    assert(marks_distinct(t)) by {
        assert forall|a: int, b: int| 0 <= a < t.len() && 0 <= b < t.len() && a != b implies #[trigger] t[a].key != #[trigger] t[b].key by {
            assert(t[a].key == s[a].key);
            assert(t[b].key == s[b].key);
        }
    }
    assert forall|k: [u8; 32]| #[trigger] mark_tick(t, k) == (if k == m.key {
        Some(m.tick)
    } else {
        mark_tick(s, k)
    }) by {
        if k == m.key {
            lemma_mark_at(t, i);
        } else if marks_have(s, k) {
            let j = choose|j: int| 0 <= j < s.len() && #[trigger] s[j].key == k;
            lemma_mark_at(s, j);
            assert(t[j] == s[j]);
            lemma_mark_at(t, j);
        } else if marks_have(t, k) {
            let j = choose|j: int| 0 <= j < t.len() && #[trigger] t[j].key == k;
            assert(t[j] == s[j]);
        }
    }
}

proof fn lemma_mark_remove(s: Seq<CreationMark>, i: int)
    requires
        marks_distinct(s),
        0 <= i < s.len(),
    ensures
        marks_distinct(s.remove(i)),
        forall|k: [u8; 32]| #[trigger] mark_tick(s.remove(i), k) == (if k == s[i].key {
            None
        } else {
            mark_tick(s, k)
        }),
{
    let t = s.remove(i);
    assert(marks_distinct(t)) by {
        assert forall|a: int, b: int| 0 <= a < t.len() && 0 <= b < t.len() && a != b implies #[trigger] t[a].key != #[trigger] t[b].key by {
            let a2 = if a < i { a } else { a + 1 };
            let b2 = if b < i { b } else { b + 1 };
            assert(t[a] == s[a2]);
            assert(t[b] == s[b2]);
        }
    }
    assert forall|k: [u8; 32]| #[trigger] mark_tick(t, k) == (if k == s[i].key {
        None
    } else {
        mark_tick(s, k)
    }) by {
        if marks_have(t, k) {
            let j = choose|j: int| 0 <= j < t.len() && #[trigger] t[j].key == k;
            let j2 = if j < i { j } else { j + 1 };
            assert(t[j] == s[j2]);
            lemma_mark_at(t, j);
            lemma_mark_at(s, j2);
        } else if k != s[i].key && marks_have(s, k) {
            let j = choose|j: int| 0 <= j < s.len() && #[trigger] s[j].key == k;
            let j2 = if j < i { j } else { j - 1 };
            assert(t[j2] == s[j]);
        }
    }
}

proof fn lemma_mark_push(s: Seq<CreationMark>, m: CreationMark)
    requires
        marks_distinct(s),
        !marks_have(s, m.key),
    ensures
        marks_distinct(s.push(m)),
        forall|k: [u8; 32]| #[trigger] mark_tick(s.push(m), k) == (if k == m.key {
            Some(m.tick)
        } else {
            mark_tick(s, k)
        }),
{
    let t = s.push(m);
    assert(marks_distinct(t)) by {
        assert forall|a: int, b: int| 0 <= a < t.len() && 0 <= b < t.len() && a != b implies #[trigger] t[a].key != #[trigger] t[b].key by {
            if a < s.len() && b < s.len() {
                assert(t[a] == s[a]);
                assert(t[b] == s[b]);
            } else if a < s.len() {
                assert(t[a] == s[a]);
            } else {
                assert(t[b] == s[b]);
            }
        }
    }
    assert forall|k: [u8; 32]| #[trigger] mark_tick(t, k) == (if k == m.key {
        Some(m.tick)
    } else {
        mark_tick(s, k)
    }) by {
        if k == m.key {
            lemma_mark_at(t, s.len() as int);
        } else if marks_have(s, k) {
            let j = choose|j: int| 0 <= j < s.len() && #[trigger] s[j].key == k;
            lemma_mark_at(s, j);
            assert(t[j] == s[j]);
            lemma_mark_at(t, j);
        } else if marks_have(t, k) {
            let j = choose|j: int| 0 <= j < t.len() && #[trigger] t[j].key == k;
            assert(j < s.len());
            assert(t[j] == s[j]);
        }
    }
}

/// A borrowed view of one mint's ledger, for the distribution-shape statistics.
pub struct HolderShapeRef<'a> {
    /// The ledger's basis.
    pub basis: HolderCountBasis,
    /// Tracked positions, sorted by entity id.
    pub positions: &'a [EntityPosition],
    /// The first distinct buyers, in arrival order.
    pub early: &'a [u64],
    /// First buys that landed in the creation slot.
    pub bundle_entities: u32,
    /// First buys that landed within the sniper window after the creation slot.
    pub sniper_entities: u32,
    /// First buys that carried slot evidence at all.
    pub aged_first_buys: u32,
}

/// The continuous per-mint holder-accounting plane.
#[derive(Debug)]
pub struct HolderFlow {
    mints: Vec<MintSlot>,
    creation_seen: Vec<CreationMark>,
    mint_cap: usize,
    entity_cap: usize,
    evictions: u64,
}

impl HolderFlow {
    /// The ledger of `mint`, when tracked.
    pub closed spec fn ledger(&self, mint: [u8; 32]) -> Option<LedgerModel> {
        slot_ledger(self.mints@, mint)
    }

    /// The pending creation sighting of `mint` (the tick it was seen at), if any.
    pub closed spec fn creation_claim(&self, mint: [u8; 32]) -> Option<u64> {
        mark_tick(self.creation_seen@, mint)
    }

    /// Number of mints with a ledger.
    pub closed spec fn tracked_count(&self) -> nat {
        self.mints@.len()
    }

    /// Number of pending creation sightings.
    pub closed spec fn claims_count(&self) -> nat {
        self.creation_seen@.len()
    }

    /// The mint bound.
    pub closed spec fn mint_cap_of(&self) -> nat {
        self.mint_cap as nat
    }

    /// The per-mint entity bound.
    pub closed spec fn entity_cap_of(&self) -> nat {
        self.entity_cap as nat
    }

    /// Ledgers evicted so far.
    pub closed spec fn eviction_count(&self) -> u64 {
        self.evictions
    }

    /// Well-formedness: distinct keys, bounded tables, well-formed ledgers.
    pub closed spec fn wf(&self) -> bool {
        &&& self.mint_cap >= 1
        &&& self.entity_cap >= 1
        &&& slots_distinct(self.mints@)
        &&& marks_distinct(self.creation_seen@)
        &&& self.mints@.len() <= self.mint_cap
        &&& self.creation_seen@.len() <= self.mint_cap
        &&& forall|i: int| 0 <= i < self.mints@.len() ==> ledger_wf(#[trigger] self.mints@[i].holders.model(), self.entity_cap as nat)
    }

    /// A well-formed plane never tracks more mints than its cap, and its cap is
    /// at least one.
    pub proof fn lemma_within_mint_cap(&self)
        requires
            self.wf(),
        ensures
            1 <= self.mint_cap_of(),
            self.tracked_count() <= self.mint_cap_of(),
    {
    }

    /// Whether `v` is the ledger eviction picks: tracked, and older (ties: smaller
    /// key) than every other tracked ledger.
    pub open spec fn is_eviction_victim(&self, v: [u8; 32]) -> bool {
        &&& self.ledger(v) is Some
        &&& forall|k: [u8; 32]| #[trigger] self.ledger(k) is Some && k != v ==> evicts_before(
            self.ledger(v)->Some_0.last_tick,
            v,
            self.ledger(k)->Some_0.last_tick,
            k,
        )
    }

    /// Whether `k` is the smallest key among the pending creation sightings.
    pub open spec fn is_smallest_claim(&self, k: [u8; 32]) -> bool {
        &&& self.creation_claim(k) is Some
        &&& forall|k2: [u8; 32]| #[trigger] self.creation_claim(k2) is Some && k2 != k ==> key_lt(k, k2)
    }

    /// Every ledger the plane holds is well formed under its entity cap.
    pub proof fn lemma_ledgers_wf(&self, mint: [u8; 32])
        requires
            self.wf(),
            self.ledger(mint) is Some,
        ensures
            ledger_wf(self.ledger(mint)->Some_0, self.entity_cap_of()),
    {
        let i = choose|i: int| 0 <= i < self.mints@.len() && #[trigger] self.mints@[i].key == mint;
        lemma_slot_at(self.mints@, i);
    }

    /// An empty plane at the named-const bounds.
    pub fn new() -> (r: Self)
        ensures
            r.wf(),
            r.mint_cap_of() == HOLDER_FLOW_MINT_CAP,
            r.entity_cap_of() == HOLDER_ENTITY_CAP,
            r.tracked_count() == 0,
            r.claims_count() == 0,
            r.eviction_count() == 0,
            forall|k: [u8; 32]| #[trigger] r.ledger(k) is None && r.creation_claim(k) is None,
    {
        Self::with_caps(HOLDER_FLOW_MINT_CAP, HOLDER_ENTITY_CAP)
    }

    /// An empty plane with explicit bounds, each clamped to at least 1.
    pub fn with_caps(mint_cap: usize, entity_cap: usize) -> (r: Self)
        ensures
            r.wf(),
            r.mint_cap_of() == (if mint_cap >= 1 { mint_cap as nat } else { 1 }),
            r.entity_cap_of() == (if entity_cap >= 1 { entity_cap as nat } else { 1 }),
            r.tracked_count() == 0,
            r.claims_count() == 0,
            r.eviction_count() == 0,
            forall|k: [u8; 32]| #[trigger] r.ledger(k) is None && r.creation_claim(k) is None,
    {
        HolderFlow {
            mints: Vec::new(),
            creation_seen: Vec::new(),
            mint_cap: if mint_cap >= 1 { mint_cap } else { 1 },
            entity_cap: if entity_cap >= 1 { entity_cap } else { 1 },
            evictions: 0,
        }
    }

    /// Mints with a live holder ledger.
    pub fn len(&self) -> (r: usize)
        ensures
            r == self.tracked_count(),
            self.wf() ==> r <= self.mint_cap_of(),
    {
        self.mints.len()
    }

    /// Whether no mint is tracked.
    pub fn is_empty(&self) -> (r: bool)
        ensures
            r == (self.tracked_count() == 0),
    {
        self.mints.len() == 0
    }

    /// Ledgers evicted by the mint bound.
    pub fn evictions(&self) -> (r: u64)
        ensures
            r == self.eviction_count(),
    {
        self.evictions
    }

    /// Configured per-mint entity bound.
    pub fn entity_cap(&self) -> (r: usize)
        ensures
            r == self.entity_cap_of(),
    {
        self.entity_cap
    }

    fn find_mint(&self, mint: &[u8; 32]) -> (r: Option<usize>)
        requires
            slots_distinct(self.mints@),
        ensures
            match r {
                Some(i) => i < self.mints@.len() && self.mints@[i as int].key == *mint,
                None => !slots_have(self.mints@, *mint),
            },
    {
        let mut i: usize = 0;
        while i < self.mints.len()
            invariant
                i <= self.mints@.len(),
                forall|j: int| 0 <= j < i ==> #[trigger] self.mints@[j].key != *mint,
            decreases self.mints@.len() - i,
        {
            if key_eq(&self.mints[i].key, mint) {
                return Some(i);
            }
            i += 1;
        }
        None
    }

    fn find_mark(&self, mint: &[u8; 32]) -> (r: Option<usize>)
        requires
            marks_distinct(self.creation_seen@),
        ensures
            match r {
                Some(i) => i < self.creation_seen@.len() && self.creation_seen@[i as int].key == *mint,
                None => !marks_have(self.creation_seen@, *mint),
            },
    {
        let mut i: usize = 0;
        while i < self.creation_seen.len()
            invariant
                i <= self.creation_seen@.len(),
                forall|j: int| 0 <= j < i ==> #[trigger] self.creation_seen@[j].key != *mint,
            decreases self.creation_seen@.len() - i,
        {
            if key_eq(&self.creation_seen[i].key, mint) {
                return Some(i);
            }
            i += 1;
        }
        None
    }

    fn smallest_mark(&self) -> (r: usize)
        requires
            self.wf(),
            self.creation_seen@.len() > 0,
        ensures
            r < self.creation_seen@.len(),
            self.is_smallest_claim(self.creation_seen@[r as int].key),
    {
        let mut best: usize = 0;
        let mut i: usize = 1;
        while i < self.creation_seen.len()
            invariant
                self.wf(),
                1 <= i <= self.creation_seen@.len(),
                best < i,
                forall|j: int| 0 <= j < i && j != best ==> key_lt(
                    self.creation_seen@[best as int].key,
                    #[trigger] self.creation_seen@[j].key,
                ),
            decreases self.creation_seen@.len() - i,
        {
            let ghost old_best = best;
            if key_less(&self.creation_seen[i].key, &self.creation_seen[best].key) {
                proof {
                    assert forall|j: int| 0 <= j < i + 1 && j != i implies key_lt(
                        self.creation_seen@[i as int].key,
                        #[trigger] self.creation_seen@[j].key,
                    ) by {
                        if j != old_best {
                            lemma_key_lt_strict(
                                self.creation_seen@[i as int].key,
                                self.creation_seen@[old_best as int].key,
                                self.creation_seen@[j].key,
                            );
                        }
                    }
                }
                best = i;
            } else {
                proof {
                    assert(self.creation_seen@[i as int].key != self.creation_seen@[best as int].key);
                    lemma_key_lt_total(self.creation_seen@[i as int].key, self.creation_seen@[best as int].key);
                }
            }
            i += 1;
        }
        proof {
            let s = self.creation_seen@;
            let v = s[best as int].key;
            lemma_mark_at(s, best as int);
            assert forall|k2: [u8; 32]| #[trigger] self.creation_claim(k2) is Some && k2 != v implies key_lt(v, k2) by {
                let j = choose|j: int| 0 <= j < s.len() && #[trigger] s[j].key == k2;
                assert(j != best);
            }
        }
        best
    }

    /// The eviction victim: least-recently-traded ledger, ties by smaller mint key.
    fn evict_key(&self) -> (r: Option<[u8; 32]>)
        requires
            self.wf(),
        ensures
            match r {
                Some(v) => self.is_eviction_victim(v),
                None => self.tracked_count() == 0,
            },
    {
        if self.mints.len() == 0 {
            return None;
        }
        let mut best: usize = 0;
        let mut i: usize = 1;
        while i < self.mints.len()
            invariant
                self.wf(),
                1 <= i <= self.mints@.len(),
                best < i,
                forall|j: int| 0 <= j < i && j != best ==> evicts_before(
                    self.mints@[best as int].holders.last_tick,
                    self.mints@[best as int].key,
                    #[trigger] self.mints@[j].holders.last_tick,
                    self.mints@[j].key,
                ),
            decreases self.mints@.len() - i,
        {
            let ti = self.mints[i].holders.last_tick;
            let tb = self.mints[best].holders.last_tick;
            let ghost old_best = best;
            if ti < tb || (ti == tb && key_less(&self.mints[i].key, &self.mints[best].key)) {
                proof {
                    let s = self.mints@;
                    assert forall|j: int| 0 <= j < i + 1 && j != i implies evicts_before(
                        s[i as int].holders.last_tick,
                        s[i as int].key,
                        #[trigger] s[j].holders.last_tick,
                        s[j].key,
                    ) by {
                        if j != old_best {
                            lemma_key_lt_strict(s[i as int].key, s[old_best as int].key, s[j].key);
                        }
                    }
                }
                best = i;
            } else {
                proof {
                    let s = self.mints@;
                    assert(s[i as int].key != s[best as int].key);
                    lemma_key_lt_total(s[i as int].key, s[best as int].key);
                }
            }
            i += 1;
        }
        let v = self.mints[best].key;
        proof {
            let s = self.mints@;
            lemma_slot_at(s, best as int);
            assert forall|k: [u8; 32]| #[trigger] self.ledger(k) is Some && k != v implies evicts_before(
                self.ledger(v)->Some_0.last_tick,
                v,
                self.ledger(k)->Some_0.last_tick,
                k,
            ) by {
                let j = choose|j: int| 0 <= j < s.len() && #[trigger] s[j].key == k;
                lemma_slot_at(s, j);
                assert(j != best);
            }
        }
        Some(v)
    }

    /// Record that `mint`'s creation was observed at logical tick `now` — the only
    /// path to an `Exact` basis. Ignored once flow has been folded for the mint.
    /// At capacity a new sighting displaces the smallest pending key.
    pub fn note_creation(&mut self, mint: &[u8; 32], now: u64)
        requires
            old(self).wf(),
        ensures
            final(self).wf(),
            final(self).mint_cap_of() == old(self).mint_cap_of(),
            final(self).entity_cap_of() == old(self).entity_cap_of(),
            final(self).eviction_count() == old(self).eviction_count(),
            final(self).tracked_count() == old(self).tracked_count(),
            forall|k: [u8; 32]| #[trigger] final(self).ledger(k) == old(self).ledger(k),
            old(self).ledger(*mint) is Some ==> forall|k: [u8; 32]| #[trigger] final(self).creation_claim(k) == old(self).creation_claim(k),
            old(self).ledger(*mint) is None ==> final(self).creation_claim(*mint) == Some(now),
            old(self).ledger(*mint) is None ==> forall|k: [u8; 32]| k != *mint ==> #[trigger] final(self).creation_claim(k) == (if old(self).creation_claim(*mint) is None
                && old(self).claims_count() >= old(self).mint_cap_of() && old(self).is_smallest_claim(k) {
                None
            } else {
                old(self).creation_claim(k)
            }),
    {
        if self.find_mint(mint).is_some() {
            return;
        }
        match self.find_mark(mint) {
            Some(i) => {
                let m = CreationMark { key: *mint, tick: now };
                proof { lemma_mark_update(self.creation_seen@, i as int, m); }
                self.creation_seen.set(i, m);
            },
            None => {
                let ghost s0 = self.creation_seen@;
                if self.creation_seen.len() >= self.mint_cap {
                    let v = self.smallest_mark();
                    proof {
                        lemma_mark_remove(self.creation_seen@, v as int);
                        lemma_mark_at(self.creation_seen@, v as int);
                        let vk = self.creation_seen@[v as int].key;
                        assert forall|k: [u8; 32]| k != vk && #[trigger] old(self).is_smallest_claim(k) implies false by {
                            lemma_key_lt_strict(k, vk, vk);
                        }
                    }
                    self.creation_seen.remove(v);
                }
                let m = CreationMark { key: *mint, tick: now };
                proof {
                    if marks_have(self.creation_seen@, *mint) {
                        let j = choose|j: int| 0 <= j < self.creation_seen@.len() && #[trigger] self.creation_seen@[j].key == *mint;
                        assert(mark_tick(self.creation_seen@, *mint) is Some);
                    }
                    lemma_mark_push(self.creation_seen@, m);
                }
                self.creation_seen.push(m);
            },
        }
    }

    fn take_claim(&mut self, mint: &[u8; 32]) -> (claimed: bool)
        requires
            old(self).wf(),
        ensures
            final(self).wf(),
            claimed == old(self).creation_claim(*mint) is Some,
            final(self).creation_claim(*mint) is None,
            forall|k: [u8; 32]| k != *mint ==> #[trigger] final(self).creation_claim(k) == old(self).creation_claim(k),
            final(self).mints == old(self).mints,
            final(self).mint_cap == old(self).mint_cap,
            final(self).entity_cap == old(self).entity_cap,
            final(self).evictions == old(self).evictions,
    {
        match self.find_mark(mint) {
            Some(i) => {
                proof {
                    lemma_mark_remove(self.creation_seen@, i as int);
                    lemma_mark_at(self.creation_seen@, i as int);
                }
                self.creation_seen.remove(i);
                true
            },
            None => false,
        }
    }

    /// Fold one decoded swap with no slot evidence into `mint`'s holder ledger.
    pub fn observe_swap(&mut self, mint: &[u8; 32], entity: u64, signed_base: i64, now: u64, ns: u64) -> (f: HolderFold)
        requires
            old(self).wf(),
        ensures
            final(self).wf(),
            Self::swap_transition(*old(self), *final(self), *mint, entity, signed_base, now, ns, None, f),
    {
        self.observe_swap_aged(mint, entity, signed_base, now, ns, None)
    }

    /// The effect of folding one swap for `mint`: its creation sighting is
    /// consumed; a new ledger is opened (`Exact` when a sighting was pending,
    /// `DeltaOnly` otherwise), evicting the victim ledger when the plane is full;
    /// the swap is folded into the mint's ledger; every other ledger is unchanged.
    pub open spec fn swap_transition(
        old: HolderFlow,
        new: HolderFlow,
        mint: [u8; 32],
        entity: u64,
        signed_base: i64,
        now: u64,
        ns: u64,
        slot_age: Option<u64>,
        f: HolderFold,
    ) -> bool {
        let start = match old.ledger(mint) {
            Some(l) => l,
            None => new_ledger(
                if old.creation_claim(mint) is Some {
                    HolderCountBasis::Exact
                } else {
                    HolderCountBasis::DeltaOnly
                },
                now,
                ns,
            ),
        };
        let r = fold_swap(start, entity, signed_base, now, ns, slot_age, old.entity_cap_of());
        &&& new.ledger(mint) == Some(r.0)
        &&& f == r.1
        &&& new.creation_claim(mint) is None
        &&& forall|k: [u8; 32]| k != mint ==> #[trigger] new.creation_claim(k) == old.creation_claim(k)
        &&& new.mint_cap_of() == old.mint_cap_of()
        &&& new.entity_cap_of() == old.entity_cap_of()
        &&& (old.ledger(mint) is Some || old.tracked_count() < old.mint_cap_of()) ==> {
            &&& new.eviction_count() == old.eviction_count()
            &&& new.tracked_count() == old.tracked_count() + (if old.ledger(mint) is Some { 0nat } else { 1nat })
            &&& forall|k: [u8; 32]| k != mint ==> #[trigger] new.ledger(k) == old.ledger(k)
        }
        &&& (old.ledger(mint) is None && old.tracked_count() >= old.mint_cap_of()) ==> exists|v: [u8; 32]| {
            &&& #[trigger] old.is_eviction_victim(v)
            &&& new.ledger(v) is None
            &&& new.eviction_count() == sat_add_u64(old.eviction_count(), 1)
            &&& new.tracked_count() == old.tracked_count()
            &&& forall|k: [u8; 32]| k != mint && k != v ==> #[trigger] new.ledger(k) == old.ledger(k)
        }
    }

    /// A creation sighting makes the ledger's first non-negative swap open an
    /// `Exact` ledger; without one, the first such swap opens it `DeltaOnly`.
    pub proof fn lemma_first_swap_basis(
        old: HolderFlow,
        new: HolderFlow,
        mint: [u8; 32],
        entity: u64,
        signed_base: i64,
        now: u64,
        ns: u64,
        slot_age: Option<u64>,
        f: HolderFold,
    )
        requires
            old.wf(),
            old.ledger(mint) is None,
            signed_base >= 0,
            Self::swap_transition(old, new, mint, entity, signed_base, now, ns, slot_age, f),
        ensures
            new.ledger(mint)->Some_0.basis == (if old.creation_claim(mint) is Some {
                HolderCountBasis::Exact
            } else {
                HolderCountBasis::DeltaOnly
            }),
    {
        let b = if old.creation_claim(mint) is Some { HolderCountBasis::Exact } else { HolderCountBasis::DeltaOnly };
        let l = new_ledger(b, now, ns);
        let l0 = LedgerModel { last_tick: now, last_ns: ns, ..l };
        assert(!has_entity(l0.entities, entity));
        assert(old.entity_cap_of() >= 1);
        let r = apply_flow(l0, entity, signed_base, slot_age, old.entity_cap_of());
        assert(r.0.basis == b);
    }

    /// Fold one decoded swap into `mint`'s holder ledger. `signed_base` is the
    /// signed base quantity (positive = buy), `now` the logical tick, `ns` the
    /// information time, and `slot_age` the slots between the mint's creation slot
    /// and this swap when the tape carried that evidence.
    pub fn observe_swap_aged(
        &mut self,
        mint: &[u8; 32],
        entity: u64,
        signed_base: i64,
        now: u64,
        ns: u64,
        slot_age: Option<u64>,
    ) -> (f: HolderFold)
        requires
            old(self).wf(),
        ensures
            final(self).wf(),
            Self::swap_transition(*old(self), *final(self), *mint, entity, signed_base, now, ns, slot_age, f),
    {
        let entity_cap = self.entity_cap;
        let ghost o = *old(self);
        let claimed_exact = self.take_claim(mint);
        let ghost mid = *self;
        let ghost victim: Option<[u8; 32]> = None;
        let idx: usize = match self.find_mint(mint) {
            Some(i) => {
                proof { lemma_slot_at(self.mints@, i as int); }
                i
            },
            None => {
                if self.mints.len() >= self.mint_cap {
                    let v = self.evict_key();
                    match v {
                        Some(vk) => {
                            proof {
                                assert forall|k: [u8; 32]| #[trigger] mid.ledger(k) == o.ledger(k) by {}
                                assert(mid.is_eviction_victim(vk));
                                assert(o.ledger(vk) == mid.ledger(vk));
                                assert forall|k: [u8; 32]| #[trigger] o.ledger(k) is Some && k != vk implies evicts_before(
                                    o.ledger(vk)->Some_0.last_tick,
                                    vk,
                                    o.ledger(k)->Some_0.last_tick,
                                    k,
                                ) by {
                                    assert(mid.ledger(k) == o.ledger(k));
                                    assert(mid.ledger(k) is Some);
                                }
                                assert(o.is_eviction_victim(vk));
                            }
                            let vi = self.find_mint(&vk);
                            match vi {
                                Some(j) => {
                                    proof {
                                        lemma_slot_remove(self.mints@, j as int);
                                        lemma_slot_at(self.mints@, j as int);
                                        assert(vk != *mint);
                                    }
                                    self.mints.remove(j);
                                    self.evictions = self.evictions.saturating_add(1);
                                    proof { victim = Some(vk); }
                                },
                                None => {
                                    proof {
                                        assert(self.ledger(vk) is Some);
                                        assert(false);
                                    }
                                },
                            }
                        },
                        None => {},
                    }
                }
                let basis = if claimed_exact {
                    HolderCountBasis::Exact
                } else {
                    HolderCountBasis::DeltaOnly
                };
                let slot = MintSlot { key: *mint, holders: MintHolders::new(basis, now, ns) };
                proof {
                    assert(!slots_have(self.mints@, *mint)) by {
                        if slots_have(self.mints@, *mint) {
                            assert(self.ledger(*mint) is Some);
                        }
                    }
                    lemma_slot_push(self.mints@, slot);
                }
                self.mints.push(slot);
                proof {
                    lemma_slot_at(self.mints@, self.mints@.len() - 1);
                }
                self.mints.len() - 1
            },
        };
        let ghost pre = *self;
        let ghost before = self.mints@;
        proof {
            lemma_slot_at(before, idx as int);
        }
        let f = self.mints[idx].holders.fold(entity, signed_base, now, ns, slot_age, entity_cap);
        proof {
            lemma_slot_update(before, idx as int, self.mints@[idx as int]);
            assert(self.mints@ =~= before.update(idx as int, self.mints@[idx as int]));
            assert forall|k: [u8; 32]| k != *mint implies #[trigger] self.ledger(k) == pre.ledger(k) by {}
            assert(self.ledger(*mint) == Some(self.mints@[idx as int].holders.model()));
            assert(self.creation_seen@ == mid.creation_seen@);
            assert forall|k: [u8; 32]| k != *mint implies #[trigger] self.creation_claim(k) == o.creation_claim(k) by {
                assert(self.creation_claim(k) == mid.creation_claim(k));
            }
            assert forall|k: [u8; 32]| #[trigger] mid.ledger(k) == o.ledger(k) by {}
            if o.ledger(*mint) is Some {
                assert(mid.ledger(*mint) == o.ledger(*mint));
                assert(pre.mints@ == mid.mints@);
            } else {
                assert(before[idx as int].holders.model() == new_ledger(
                    if o.creation_claim(*mint) is Some {
                        HolderCountBasis::Exact
                    } else {
                        HolderCountBasis::DeltaOnly
                    },
                    now,
                    ns,
                ));
                if o.tracked_count() >= o.mint_cap_of() {
                    let vk = victim->Some_0;
                    assert(victim is Some);
                    assert(o.is_eviction_victim(vk));
                    assert(self.ledger(vk) is None);
                    assert forall|k: [u8; 32]| k != *mint && k != vk implies #[trigger] self.ledger(k) == o.ledger(k) by {
                        assert(self.ledger(k) == pre.ledger(k));
                    }
                    assert(o.is_eviction_victim(vk) && self.ledger(vk) is None);
                } else {
                    assert(victim is None);
                    assert forall|k: [u8; 32]| k != *mint implies #[trigger] self.ledger(k) == o.ledger(k) by {
                        assert(self.ledger(k) == pre.ledger(k));
                    }
                }
            }
        }
        f
    }

    /// The current holder reading for `mint`, or `None` when untracked.
    pub fn reading(&self, mint: &[u8; 32]) -> (r: Option<HolderReading>)
        requires
            self.wf(),
        ensures
            match self.ledger(*mint) {
                Some(l) => r is Some && r->Some_0@ == reading_of(l),
                None => r is None,
            },
    {
        match self.find_mint(mint) {
            Some(i) => {
                proof { lemma_slot_at(self.mints@, i as int); }
                Some(self.mints[i].holders.reading())
            },
            None => None,
        }
    }

    /// A borrowed view of `mint`'s ledger for the distribution-shape statistics.
    pub fn shape(&self, mint: &[u8; 32]) -> (r: Option<HolderShapeRef<'_>>)
        requires
            self.wf(),
        ensures
            match self.ledger(*mint) {
                Some(l) => r is Some && ({
                    let sh = r->Some_0;
                    &&& sh.basis == l.basis
                    &&& sh.positions@ == l.entities
                    &&& sh.early@ == l.early
                    &&& sh.bundle_entities == l.bundle_entities
                    &&& sh.sniper_entities == l.sniper_entities
                    &&& sh.aged_first_buys == l.aged_first_buys
                }),
                None => r is None,
            },
    {
        match self.find_mint(mint) {
            Some(i) => {
                proof { lemma_slot_at(self.mints@, i as int); }
                let h = &self.mints[i].holders;
                Some(
                    HolderShapeRef {
                        basis: h.basis,
                        positions: h.entities.as_slice(),
                        early: h.early.as_slice(),
                        bundle_entities: h.bundle_entities,
                        sniper_entities: h.sniper_entities,
                        aged_first_buys: h.aged_first_buys,
                    },
                )
            },
            None => None,
        }
    }
}

} // verus!
