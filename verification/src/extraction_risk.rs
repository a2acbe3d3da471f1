//! A per-mint, time-decayed extraction-risk covariate: a `manip_history_fp`-style
//! bps figure accumulated from wash-strength readings. It is a report-plane
//! readout only: no sizing, gating or promotion decision reads it, and it never
//! enters the decision journal.
//!
//! Integer-only. The covariate halves once per elapsed half-life of the logical
//! tick clock, is clamped to `MANIP_HISTORY_CLAMP`, and the ledger is bounded to
//! `EXTRACTION_LEDGER_CAP` mints, evicting the least-recently-updated mint (ties
//! by the smaller key) when a new one arrives at capacity.

use vstd::prelude::*;

use crate::holder_flow::{evicts_before, key_eq, key_less, lemma_key_lt_strict, lemma_key_lt_total};
use crate::keyed::{keyed_get, keyed_has, keys_distinct, lemma_keyed_at, lemma_keyed_push, lemma_keyed_remove, lemma_keyed_update};

verus! {

/// Maximum mints tracked before the least-recently-updated one is evicted.
pub const EXTRACTION_LEDGER_CAP: usize = 4_096;

/// Ceiling of the covariate, in bps.
pub const MANIP_HISTORY_CLAMP: u64 = 10_000;

/// Logical ticks per halving of the covariate.
pub const LPI_COVARIATE_HALF_LIFE_SECS: u64 = 3_600;

/// `c` halved `k` times, rounding down each time (that is, `c / 2^k`).
pub open spec fn halve_times(c: nat, k: nat) -> nat
    decreases k,
{
    if k == 0 {
        c
    } else {
        halve_times(c / 2, (k - 1) as nat)
    }
}

/// The covariate `c` after `age` ticks: halved once per elapsed half-life.
pub open spec fn spec_decayed(c: nat, age: u64) -> nat {
    halve_times(c, (age / LPI_COVARIATE_HALF_LIFE_SECS) as nat)
}

/// The covariate `c`, last refreshed at `last_tick`, decayed to `now`; a clock that
/// runs backwards counts as no time elapsed.
pub open spec fn spec_decay_to(c: u64, last_tick: u64, now: u64) -> nat {
    if c == 0 {
        0
    } else {
        spec_decayed(c as nat, if now >= last_tick { (now - last_tick) as u64 } else { 0 })
    }
}

/// Halving never increases a value.
proof fn lemma_halve_times_le(c: nat, k: nat)
    ensures
        halve_times(c, k) <= c,
    decreases k,
{
    if k > 0 {
        lemma_halve_times_le(c / 2, (k - 1) as nat);
    }
}

/// Halving zero stays zero.
proof fn lemma_halve_times_zero(k: nat)
    ensures
        halve_times(0, k) == 0,
    decreases k,
{
    if k > 0 {
        lemma_halve_times_zero((k - 1) as nat);
    }
}

/// More halvings never give more.
proof fn lemma_halve_times_antitone(c: nat, k1: nat, k2: nat)
    requires
        k1 <= k2,
    ensures
        halve_times(c, k2) <= halve_times(c, k1),
    decreases k1,
{
    if k1 == 0 {
        lemma_halve_times_le(c, k2);
    } else {
        lemma_halve_times_antitone(c / 2, (k1 - 1) as nat, (k2 - 1) as nat);
    }
}

/// Reading later never reads more: the decayed covariate is non-increasing in the
/// read tick, and never exceeds the stored covariate.
pub proof fn lemma_decay_is_antitone_in_time(c: u64, last_tick: u64, t1: u64, t2: u64)
    requires
        t1 <= t2,
    ensures
        spec_decay_to(c, last_tick, t2) <= spec_decay_to(c, last_tick, t1),
        spec_decay_to(c, last_tick, t1) <= c,
{
    if c != 0 {
        let a1: u64 = if t1 >= last_tick { (t1 - last_tick) as u64 } else { 0 };
        let a2: u64 = if t2 >= last_tick { (t2 - last_tick) as u64 } else { 0 };
        assert(a1 <= a2);
        assert(a1 / LPI_COVARIATE_HALF_LIFE_SECS <= a2 / LPI_COVARIATE_HALF_LIFE_SECS) by (nonlinear_arith)
            requires
                a1 <= a2,
        ;
        lemma_halve_times_antitone(
            c as nat,
            (a1 / LPI_COVARIATE_HALF_LIFE_SECS) as nat,
            (a2 / LPI_COVARIATE_HALF_LIFE_SECS) as nat,
        );
        lemma_halve_times_le(c as nat, (a1 / LPI_COVARIATE_HALF_LIFE_SECS) as nat);
    }
}

/// Within one half-life of its last refresh the covariate has not decayed, and
/// exactly one half-life later it is halved.
pub proof fn lemma_decay_halves_per_half_life(c: u64, last_tick: u64, now: u64)
    requires
        last_tick <= now,
    ensures
        now - last_tick < LPI_COVARIATE_HALF_LIFE_SECS ==> spec_decay_to(c, last_tick, now) == c,
        now - last_tick == LPI_COVARIATE_HALF_LIFE_SECS ==> spec_decay_to(c, last_tick, now) == c / 2,
{
    let age = (now - last_tick) as u64;
    if age < LPI_COVARIATE_HALF_LIFE_SECS {
        assert(age / LPI_COVARIATE_HALF_LIFE_SECS == 0);
    }
    if age == LPI_COVARIATE_HALF_LIFE_SECS {
        assert(age / LPI_COVARIATE_HALF_LIFE_SECS == 1);
        assert(halve_times(c as nat, 1) == halve_times(c as nat / 2, 0));
        if c == 0 {
            assert(spec_decay_to(c, last_tick, now) == 0);
        }
    }
}

/// A zero contribution into an untracked mint creates no risk.
pub proof fn lemma_zero_contribution_creates_no_risk(now: u64)
    ensures
        accumulated(RiskAccum { covariate: 0, last_tick: 0 }, 0, now) == 0,
{
}

/// The covariate `covariate` after `age` ticks.
fn decayed_covariate(covariate: u64, age: u64) -> (r: u64)
    ensures
        r == spec_decayed(covariate as nat, age),
{
    let mut c: u64 = covariate;
    let mut h: u64 = age / LPI_COVARIATE_HALF_LIFE_SECS;
    while h > 0 && c > 0
        invariant
            halve_times(c as nat, h as nat) == spec_decayed(covariate as nat, age),
        decreases h,
    {
        c = c / 2;
        h = h - 1;
    }
    proof {
        if c == 0 {
            lemma_halve_times_zero(h as nat);
        }
    }
    c
}

/// Decay `covariate` from `last_tick` to `now`; a zero covariate stays zero.
fn decay_to(covariate: u64, last_tick: u64, now: u64) -> (r: u64)
    ensures
        r == spec_decay_to(covariate, last_tick, now),
{
    if covariate == 0 {
        return 0;
    }
    let age = now.saturating_sub(last_tick);
    decayed_covariate(covariate, age)
}

/// A mint's accumulated risk: the last-decayed covariate and the logical tick it
/// was last refreshed at.
#[derive(Clone, Copy, Debug, Default, PartialEq, Eq)]
pub struct RiskAccum {
    /// Accumulated, last-decayed covariate (bps, at most `MANIP_HISTORY_CLAMP`).
    pub covariate: u64,
    /// Logical tick at which `covariate` was last refreshed.
    pub last_tick: u64,
}

#[derive(Clone, Copy, Debug)]
struct RiskSlot {
    key: [u8; 32],
    accum: RiskAccum,
}

spec fn slot_key() -> spec_fn(RiskSlot) -> [u8; 32] {
    |s: RiskSlot| s.key
}

/// The covariate after folding `base` into the prior `prior` decayed to `now`:
/// the sum, clamped to `MANIP_HISTORY_CLAMP`.
pub open spec fn accumulated(prior: RiskAccum, base: u64, now: u64) -> u64 {
    let d = spec_decay_to(prior.covariate, prior.last_tick, now);
    if d + base > MANIP_HISTORY_CLAMP {
        MANIP_HISTORY_CLAMP
    } else {
        (d + base) as u64
    }
}

/// A bounded per-mint decayed extraction-risk covariate ledger (report plane only).
#[derive(Clone, Debug)]
pub struct ExtractionRiskLedger {
    mints: Vec<RiskSlot>,
}

impl ExtractionRiskLedger {
    /// What the ledger holds for `mint`, when tracked.
    pub closed spec fn entry(&self, mint: [u8; 32]) -> Option<RiskAccum> {
        match keyed_get(self.mints@, slot_key(), mint) {
            Some(s) => Some(s.accum),
            None => None,
        }
    }

    /// Number of tracked mints.
    pub closed spec fn tracked_count(&self) -> nat {
        self.mints@.len()
    }

    /// Well-formedness: distinct keys, at most `EXTRACTION_LEDGER_CAP` mints, every
    /// covariate within the clamp.
    pub closed spec fn wf(&self) -> bool {
        &&& keys_distinct(self.mints@, slot_key())
        &&& self.mints@.len() <= EXTRACTION_LEDGER_CAP
        &&& forall|i: int| 0 <= i < self.mints@.len() ==> (#[trigger] self.mints@[i]).accum.covariate <= MANIP_HISTORY_CLAMP
    }

    /// Whether `v` is the mint eviction picks: least recently updated, ties by the
    /// smaller key.
    pub open spec fn is_eviction_victim(&self, v: [u8; 32]) -> bool {
        &&& self.entry(v) is Some
        &&& forall|k: [u8; 32]| #[trigger] self.entry(k) is Some && k != v ==> evicts_before(
            self.entry(v)->Some_0.last_tick,
            v,
            self.entry(k)->Some_0.last_tick,
            k,
        )
    }

    /// A fresh, empty ledger.
    pub fn new() -> (r: Self)
        ensures
            r.wf(),
            r.tracked_count() == 0,
            forall|k: [u8; 32]| #[trigger] r.entry(k) is None,
    {
        ExtractionRiskLedger { mints: Vec::new() }
    }

    fn find(&self, mint: &[u8; 32]) -> (r: Option<usize>)
        ensures
            match r {
                Some(i) => i < self.mints@.len() && self.mints@[i as int].key == *mint,
                None => !keyed_has(self.mints@, slot_key(), *mint),
            },
    {
        let mut i: usize = 0;
        while i < self.mints.len()
            invariant
                i <= self.mints@.len(),
                forall|j: int| 0 <= j < i ==> #[trigger] self.mints@[j].key != *mint,
            decreases self.mints@.len() - i,
        {
            if key_eq(&self.mints[i].key, mint) {
                return Some(i);
            }
            i += 1;
        }
        proof {
            if keyed_has(self.mints@, slot_key(), *mint) {
                let j = choose|j: int| 0 <= j < self.mints@.len() && #[trigger] slot_key()(self.mints@[j]) == *mint;
                assert(self.mints@[j].key != *mint);
            }
        }
        None
    }

    /// The eviction victim: least recently updated, ties by the smaller key.
    fn evict_key(&self) -> (r: Option<usize>)
        requires
            self.wf(),
        ensures
            match r {
                Some(i) => i < self.mints@.len() && self.is_eviction_victim(self.mints@[i as int].key),
                None => self.tracked_count() == 0,
            },
    {
        if self.mints.len() == 0 {
            return None;
        }
        let mut best: usize = 0;
        let mut i: usize = 1;
        while i < self.mints.len()
            invariant
                self.wf(),
                1 <= i <= self.mints@.len(),
                best < i,
                forall|j: int| 0 <= j < i && j != best ==> evicts_before(
                    self.mints@[best as int].accum.last_tick,
                    self.mints@[best as int].key,
                    #[trigger] self.mints@[j].accum.last_tick,
                    self.mints@[j].key,
                ),
            decreases self.mints@.len() - i,
        {
            let ti = self.mints[i].accum.last_tick;
            let tb = self.mints[best].accum.last_tick;
            let ghost old_best = best;
            proof {
                assert(slot_key()(self.mints@[i as int]) != slot_key()(self.mints@[best as int]));
            }
            if ti < tb || (ti == tb && key_less(&self.mints[i].key, &self.mints[best].key)) {
                proof {
                    let s = self.mints@;
                    assert forall|j: int| 0 <= j < i + 1 && j != i implies evicts_before(
                        s[i as int].accum.last_tick,
                        s[i as int].key,
                        #[trigger] s[j].accum.last_tick,
                        s[j].key,
                    ) by {
                        if j != old_best {
                            lemma_key_lt_strict(s[i as int].key, s[old_best as int].key, s[j].key);
                        }
                    }
                }
                best = i;
            } else {
                proof {
                    lemma_key_lt_total(self.mints@[i as int].key, self.mints@[best as int].key);
                }
            }
            i += 1;
        }
        proof {
            let s = self.mints@;
            let v = s[best as int].key;
            lemma_keyed_at(s, slot_key(), best as int);
            assert forall|k: [u8; 32]| #[trigger] self.entry(k) is Some && k != v implies evicts_before(
                self.entry(v)->Some_0.last_tick,
                v,
                self.entry(k)->Some_0.last_tick,
                k,
            ) by {
                let j = choose|j: int| 0 <= j < s.len() && #[trigger] slot_key()(s[j]) == k;
                lemma_keyed_at(s, slot_key(), j);
                assert(j != best);
            }
        }
        Some(best)
    }

    /// The effect of folding `base` for `mint` at `now`: the mint's prior (zero
    /// when untracked) decays to `now`, `base` is added, the sum is clamped, and
    /// the mint is stamped with `now`. A new mint at capacity first evicts the
    /// victim; every other mint is untouched.
    pub open spec fn observe_transition(
        old: ExtractionRiskLedger,
        new: ExtractionRiskLedger,
        mint: [u8; 32],
        base: u64,
        now: u64,
    ) -> bool {
        let prior = match old.entry(mint) {
            Some(e) => e,
            None => RiskAccum { covariate: 0, last_tick: 0 },
        };
        &&& new.entry(mint) == Some(RiskAccum { covariate: accumulated(prior, base, now), last_tick: now })
        &&& (old.entry(mint) is Some || old.tracked_count() < EXTRACTION_LEDGER_CAP) ==> {
            &&& new.tracked_count() == old.tracked_count() + (if old.entry(mint) is Some { 0nat } else { 1nat })
            &&& forall|k: [u8; 32]| k != mint ==> #[trigger] new.entry(k) == old.entry(k)
        }
        &&& (old.entry(mint) is None && old.tracked_count() >= EXTRACTION_LEDGER_CAP) ==> exists|v: [u8; 32]| {
            &&& #[trigger] old.is_eviction_victim(v)
            &&& new.entry(v) is None
            &&& new.tracked_count() == old.tracked_count()
            &&& forall|k: [u8; 32]| k != mint && k != v ==> #[trigger] new.entry(k) == old.entry(k)
        }
    }

    /// Fold a fresh extraction-risk contribution `base` (bps) for `mint` at logical
    /// tick `now`.
    pub fn observe(&mut self, mint: [u8; 32], base: u64, now: u64)
        requires
            old(self).wf(),
        ensures
            final(self).wf(),
            Self::observe_transition(*old(self), *final(self), mint, base, now),
    {
        let ghost o = *self;
        let ghost victim: Option<[u8; 32]> = None;
        let idx: usize = match self.find(&mint) {
            Some(i) => {
                proof { lemma_keyed_at(self.mints@, slot_key(), i as int); }
                i
            },
            None => {
                if self.mints.len() >= EXTRACTION_LEDGER_CAP {
                    match self.evict_key() {
                        Some(j) => {
                            proof {
                                lemma_keyed_at(self.mints@, slot_key(), j as int);
                                lemma_keyed_remove(self.mints@, slot_key(), j as int);
                                victim = Some(self.mints@[j as int].key);
                            }
                            self.mints.remove(j);
                        },
                        None => {},
                    }
                }
                let slot = RiskSlot { key: mint, accum: RiskAccum { covariate: 0, last_tick: 0 } };
                proof {
                    assert(!keyed_has(self.mints@, slot_key(), mint)) by {
                        if keyed_has(self.mints@, slot_key(), mint) {
                            assert(self.entry(mint) is Some);
                        }
                    }
                    lemma_keyed_push(self.mints@, slot_key(), slot);
                }
                self.mints.push(slot);
                proof { lemma_keyed_at(self.mints@, slot_key(), self.mints@.len() - 1); }
                self.mints.len() - 1
            },
        };
        let ghost pre = *self;
        let ghost before = self.mints@;
        let e = self.mints[idx].accum;
        let decayed = decay_to(e.covariate, e.last_tick, now);
        let sum = decayed.saturating_add(base);
        let covariate = if sum > MANIP_HISTORY_CLAMP { MANIP_HISTORY_CLAMP } else { sum };
        let x = RiskSlot { key: mint, accum: RiskAccum { covariate, last_tick: now } };
        self.mints.set(idx, x);
        proof {
            lemma_keyed_update(before, slot_key(), idx as int, x);
            assert(self.mints@ =~= before.update(idx as int, x));
            assert forall|k: [u8; 32]| k != mint implies #[trigger] self.entry(k) == pre.entry(k) by {}
            if o.entry(mint) is None && o.tracked_count() >= EXTRACTION_LEDGER_CAP {
                let vk = victim->Some_0;
                assert(victim is Some);
                assert forall|k: [u8; 32]| k != mint && k != vk implies #[trigger] self.entry(k) == o.entry(k) by {
                    assert(self.entry(k) == pre.entry(k));
                }
                assert(o.is_eviction_victim(vk) && self.entry(vk) is None);
            } else if o.entry(mint) is None {
                assert(victim is None);
                assert forall|k: [u8; 32]| k != mint implies #[trigger] self.entry(k) == o.entry(k) by {
                    assert(self.entry(k) == pre.entry(k));
                }
            }
        }
    }

    /// The mint's covariate decayed to `now`, as a `u32` bps figure (0 for an
    /// untracked mint). A pure read: the decay clock is not moved.
    pub fn manip_history_fp(&self, mint: &[u8; 32], now: u64) -> (r: u32)
        requires
            self.wf(),
        ensures
            r == (match self.entry(*mint) {
                Some(e) => {
                    let d = spec_decay_to(e.covariate, e.last_tick, now);
                    if d > MANIP_HISTORY_CLAMP { MANIP_HISTORY_CLAMP as nat } else { d }
                },
                None => 0,
            }),
            r <= MANIP_HISTORY_CLAMP,
    {
        match self.find(mint) {
            Some(i) => {
                proof { lemma_keyed_at(self.mints@, slot_key(), i as int); }
                let e = self.mints[i].accum;
                let d = decay_to(e.covariate, e.last_tick, now);
                let c = if d > MANIP_HISTORY_CLAMP { MANIP_HISTORY_CLAMP } else { d };
                c as u32
            },
            None => 0,
        }
    }

    /// Number of mints currently tracked.
    pub fn mints_tracked(&self) -> (r: usize)
        requires
            self.wf(),
        ensures
            r == self.tracked_count(),
            r <= EXTRACTION_LEDGER_CAP,
    {
        self.mints.len()
    }
}

impl Default for ExtractionRiskLedger {
    fn default() -> (r: Self)
        ensures
            r.wf(),
            r.tracked_count() == 0,
            forall|k: [u8; 32]| #[trigger] r.entry(k) is None,
    {
        ExtractionRiskLedger::new()
    }
}


/// A run of `observe` calls: `states[i + 1]` follows `states[i]` by observing
/// `mints[i]` with `bases[i]` at `nows[i]`.
pub open spec fn is_observe_run(
    states: Seq<ExtractionRiskLedger>,
    mints: Seq<[u8; 32]>,
    bases: Seq<u64>,
    nows: Seq<u64>,
) -> bool {
    &&& states.len() == mints.len() + 1
    &&& bases.len() == mints.len()
    &&& nows.len() == mints.len()
    &&& forall|i: int| 0 <= i < mints.len() ==> #[trigger] ExtractionRiskLedger::observe_transition(
        states[i],
        states[i + 1],
        mints[i],
        bases[i],
        nows[i],
    )
}

proof fn lemma_observe_run_prefix(
    states: Seq<ExtractionRiskLedger>,
    mints: Seq<[u8; 32]>,
    bases: Seq<u64>,
    nows: Seq<u64>,
    n: int,
)
    requires
        is_observe_run(states, mints, bases, nows),
        states[0].tracked_count() == 0,
        forall|k: [u8; 32]| #[trigger] states[0].entry(k) is None,
        mints.to_set().len() <= EXTRACTION_LEDGER_CAP,
        0 <= n <= mints.len(),
    ensures
        states[n].tracked_count() == mints.take(n).to_set().len(),
        forall|k: [u8; 32]| #[trigger] states[n].entry(k) is Some <==> mints.take(n).to_set().contains(k),
    decreases n,
{
    broadcast use vstd::seq_lib::seq_to_set_is_finite;
    if n == 0 {
        assert(mints.take(0).to_set() =~= Set::<[u8; 32]>::empty());
    } else {
        lemma_observe_run_prefix(states, mints, bases, nows, n - 1);
        let k = mints[n - 1];
        let s0 = mints.take(n - 1).to_set();
        let s1 = mints.take(n).to_set();
        let t0 = mints.take(n - 1);
        let t1 = mints.take(n);
        assert(t1 =~= t0.push(k));
        assert forall|x: [u8; 32]| s1.contains(x) <==> s0.insert(k).contains(x) by {
            if s1.contains(x) {
                let i = choose|i: int| 0 <= i < t1.len() && t1[i] == x;
                if i < n - 1 {
                    assert(t0[i] == x);
                }
            }
            if s0.contains(x) {
                let i = choose|i: int| 0 <= i < t0.len() && t0[i] == x;
                assert(t1[i] == x);
            }
            if x == k {
                assert(t1[n - 1] == x);
            }
        }
        assert(s1 =~= s0.insert(k));
        assert(s1.subset_of(mints.to_set()));
        vstd::set_lib::lemma_len_subset(s1, mints.to_set());
        assert(ExtractionRiskLedger::observe_transition(states[n - 1], states[n], k, bases[n - 1], nows[n - 1]));
        if !s0.contains(k) {
            assert(s1.len() == s0.len() + 1);
        }
    }
}

/// The ledger's count is the number of distinct mints observed: from an empty
/// ledger, a run of observations over at most `EXTRACTION_LEDGER_CAP` distinct
/// mints tracks exactly those mints, one entry each.
pub proof fn lemma_tracked_counts_distinct_mints(
    states: Seq<ExtractionRiskLedger>,
    mints: Seq<[u8; 32]>,
    bases: Seq<u64>,
    nows: Seq<u64>,
)
    requires
        is_observe_run(states, mints, bases, nows),
        states[0].tracked_count() == 0,
        forall|k: [u8; 32]| #[trigger] states[0].entry(k) is None,
        mints.to_set().len() <= EXTRACTION_LEDGER_CAP,
    ensures
        states.last().tracked_count() == mints.to_set().len(),
        forall|k: [u8; 32]| #[trigger] states.last().entry(k) is Some <==> mints.contains(k),
{
    lemma_observe_run_prefix(states, mints, bases, nows, mints.len() as int);
    assert(mints.take(mints.len() as int) =~= mints);
    assert forall|k: [u8; 32]| #[trigger] states.last().entry(k) is Some <==> mints.contains(k) by {
        assert(mints.to_set().contains(k) <==> mints.contains(k));
    }
}

} // verus!
