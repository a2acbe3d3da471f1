//! The measured-state plane's own arithmetic: the monotone chain-slot cursor and
//! the differencing of cumulative per-category totals into interval samples. A
//! meta series fed cumulative counters could never decline, so each interval is
//! sampled as the difference against the previous totals; an interval with no
//! flow is not a measurement and yields no sample.

use vstd::prelude::*;

verus! {

/// Cumulative on-chain totals for one category at one instant.
#[derive(Clone, Copy, Debug, Default, PartialEq, Eq, Structural)]
pub struct MetaTotals {
    /// Distinct creators who have ever launched into the category.
    pub unique_creators: u64,
    /// Total buy quote observed, lamports.
    pub buy_quote: u128,
    /// Total sell quote observed, lamports.
    pub sell_quote: u128,
    /// Total buy events observed.
    pub buy_count: u64,
    /// Total sell events observed.
    pub sell_count: u64,
}

/// `a + b`, saturating at `u64::MAX`.
pub open spec fn sat_add_u64(a: u64, b: u64) -> u64 {
    if a + b > u64::MAX { u64::MAX } else { (a + b) as u64 }
}

/// `a - b`, floored at zero.
pub open spec fn sat_sub(a: int, b: int) -> int {
    if a >= b { a - b } else { 0 }
}

impl MetaTotals {
    /// Total trade events (both sides), saturating.
    pub fn events(&self) -> (r: u64)
        ensures
            r == sat_add_u64(self.buy_count, self.sell_count),
    {
        self.buy_count.saturating_add(self.sell_count)
    }
}

/// One interval's meta observation.
#[derive(Clone, Copy, Debug, PartialEq, Eq, Structural)]
pub struct MetaSample {
    /// The slot the interval closed at.
    pub slot: u64,
    /// New distinct creators this interval.
    pub participation: u64,
    /// Trade events this interval.
    pub attention: u64,
    /// The interval's signed flow imbalance, bps.
    pub realized_outcome_bps: i64,
}

/// Clamp into the `i64` range.
pub open spec fn clamp_i64(v: int) -> i64 {
    if v > i64::MAX { i64::MAX } else if v < i64::MIN { i64::MIN } else { v as i64 }
}

/// Clamp an `i128` into `i64` without panicking.
pub fn clamp_i64_i128(v: i128) -> (r: i64)
    ensures
        r == clamp_i64(v as int),
{
    if v > i64::MAX as i128 {
        i64::MAX
    } else if v < i64::MIN as i128 {
        i64::MIN
    } else {
        v as i64
    }
}

/// Division rounding toward zero (for a positive divisor).
pub open spec fn trunc_div(a: int, b: int) -> int {
    if a >= 0 { a / b } else { -((-a) / b) }
}

/// `v` read as an `i128`, saturating.
pub open spec fn as_i128_sat(v: u128) -> int {
    if v > i128::MAX { i128::MAX as int } else { v as int }
}

/// The interval sample from the previous and current cumulative totals: the
/// differences (floored at zero) of creators and events, and the flow imbalance
/// `(buy - sell) x 10_000 / (buy + sell)` truncated toward zero and clamped; no
/// sample when the interval saw no flow.
pub open spec fn spec_interval_sample(prev: MetaTotals, totals: MetaTotals, slot: u64) -> Option<MetaSample> {
    let buy = sat_sub(totals.buy_quote as int, prev.buy_quote as int);
    let sell = sat_sub(totals.sell_quote as int, prev.sell_quote as int);
    let gross: int = if buy + sell > u128::MAX { u128::MAX as int } else { buy + sell };
    if gross == 0 {
        None
    } else {
        let net = as_i128_sat(buy as u128) - as_i128_sat(sell as u128);
        let prod: int = if net * 10_000 > i128::MAX { i128::MAX as int } else if net * 10_000 < i128::MIN { i128::MIN as int } else { net * 10_000 };
        Some(MetaSample {
            slot,
            participation: sat_sub(totals.unique_creators as int, prev.unique_creators as int) as u64,
            attention: sat_sub(sat_add_u64(totals.buy_count, totals.sell_count) as int, sat_add_u64(prev.buy_count, prev.sell_count) as int) as u64,
            realized_outcome_bps: clamp_i64(trunc_div(prod, as_i128_sat(gross as u128))),
        })
    }
}

/// The interval sample between two cumulative totals (see `spec_interval_sample`).
pub fn interval_sample(prev: MetaTotals, totals: MetaTotals, slot: u64) -> (r: Option<MetaSample>)
    ensures
        r == spec_interval_sample(prev, totals, slot),
{
    let buy = totals.buy_quote.saturating_sub(prev.buy_quote);
    let sell = totals.sell_quote.saturating_sub(prev.sell_quote);
    let gross = buy.saturating_add(sell);
    if gross == 0 {
        return None;
    }
    let b: i128 = if buy > i128::MAX as u128 { i128::MAX } else { buy as i128 };
    let s: i128 = if sell > i128::MAX as u128 { i128::MAX } else { sell as i128 };
    let net: i128 = b - s;
    let d: i128 = if gross > i128::MAX as u128 { i128::MAX } else { gross as i128 };
    let denom: i128 = if d >= 1 { d } else { 1 };
    let prod: i128 = match net.checked_mul(10_000) {
        Some(p) => p,
        None => if net > 0 { i128::MAX } else { i128::MIN },
    };
    let q: i128 = prod / denom;
    let realized_outcome_bps = clamp_i64_i128(q);
    Some(MetaSample {
        slot,
        participation: totals.unique_creators.saturating_sub(prev.unique_creators),
        attention: totals.events().saturating_sub(prev.events()),
        realized_outcome_bps,
    })
}

/// An interval whose cumulative flow did not move is never a measurement.
pub proof fn lemma_no_flow_no_sample(prev: MetaTotals, totals: MetaTotals, slot: u64)
    requires
        totals.buy_quote <= prev.buy_quote,
        totals.sell_quote <= prev.sell_quote,
    ensures
        spec_interval_sample(prev, totals, slot) is None,
{
}

/// The imbalance of a sample always lies within +-10 000 bps.
pub proof fn lemma_imbalance_is_bounded(prev: MetaTotals, totals: MetaTotals, slot: u64)
    requires
        spec_interval_sample(prev, totals, slot) is Some,
    ensures
        -10_000 <= spec_interval_sample(prev, totals, slot)->Some_0.realized_outcome_bps <= 10_000,
{
    let buy = sat_sub(totals.buy_quote as int, prev.buy_quote as int);
    let sell = sat_sub(totals.sell_quote as int, prev.sell_quote as int);
    let gross: int = if buy + sell > u128::MAX { u128::MAX as int } else { buy + sell };
    let b = as_i128_sat(buy as u128);
    let s = as_i128_sat(sell as u128);
    let g = as_i128_sat(gross as u128);
    let net = b - s;
    assert(-g <= net <= g);
    assert(g > 0);
    let p = net * 10_000;
    assert(-g * 10_000 <= p <= g * 10_000) by (nonlinear_arith)
        requires
            -g <= net <= g,
            p == net * 10_000,
    ;
    let prod: int = if p > i128::MAX { i128::MAX as int } else if p < i128::MIN { i128::MIN as int } else { p };
    assert(-g * 10_000 <= prod <= g * 10_000);
    if prod >= 0 {
        assert(prod / g <= 10_000) by (nonlinear_arith)
            requires
                0 <= prod <= g * 10_000,
                g > 0,
        ;
    } else {
        assert((-prod) / g <= 10_000) by (nonlinear_arith)
            requires
                0 < -prod <= g * 10_000,
                g > 0,
        ;
    }
}

/// The measured state's own cursor and the previous cumulative totals of each
/// category.
#[derive(Clone, Debug)]
pub struct MeasuredState {
    chain_slot: u64,
    meta_prev_totals: Vec<(u64, MetaTotals)>,
}

/// The previous totals recorded for `category`, or all zeros.
pub open spec fn prev_totals(s: Seq<(u64, MetaTotals)>, category: u64) -> MetaTotals {
    if exists|i: int| 0 <= i < s.len() && (#[trigger] s[i]).0 == category {
        s[choose|i: int| 0 <= i < s.len() && (#[trigger] s[i]).0 == category].1
    } else {
        MetaTotals { unique_creators: 0, buy_quote: 0, sell_quote: 0, buy_count: 0, sell_count: 0 }
    }
}

/// No category appears twice.
pub open spec fn categories_distinct(s: Seq<(u64, MetaTotals)>) -> bool {
    forall|i: int, j: int| 0 <= i < s.len() && 0 <= j < s.len() && i != j ==> (#[trigger] s[i]).0 != (#[trigger] s[j]).0
}

impl MeasuredState {
    /// The highest chain slot observed.
    pub closed spec fn slot_cursor(&self) -> u64 {
        self.chain_slot
    }

    /// The cumulative totals last recorded for `category` (zeros when none).
    pub closed spec fn last_totals(&self, category: u64) -> MetaTotals {
        prev_totals(self.meta_prev_totals@, category)
    }

    /// Well-formedness: one entry per category.
    pub closed spec fn wf(&self) -> bool {
        categories_distinct(self.meta_prev_totals@)
    }

    /// An empty plane.
    pub fn new() -> (r: Self)
        ensures
            r.wf(),
            r.slot_cursor() == 0,
            forall|c: u64| #[trigger] r.last_totals(c) == (MetaTotals { unique_creators: 0, buy_quote: 0, sell_quote: 0, buy_count: 0, sell_count: 0 }),
    {
        MeasuredState { chain_slot: 0, meta_prev_totals: Vec::new() }
    }

    /// Advance the chain-slot cursor; a late lower slot never rewinds it.
    pub fn observe_slot(&mut self, slot: u64)
        requires
            old(self).wf(),
        ensures
            final(self).wf(),
            final(self).slot_cursor() == (if slot > old(self).slot_cursor() { slot } else { old(self).slot_cursor() }),
            forall|c: u64| #[trigger] final(self).last_totals(c) == old(self).last_totals(c),
    {
        if slot > self.chain_slot {
            self.chain_slot = slot;
        }
    }

    /// The highest chain slot observed.
    pub fn chain_slot(&self) -> (r: u64)
        ensures
            r == self.slot_cursor(),
    {
        self.chain_slot
    }

    /// Record one category's cumulative totals: the interval sample against the
    /// previous totals (none when the interval saw no flow), and the totals are
    /// remembered for the next interval either way.
    pub fn record_meta_interval(&mut self, category: u64, slot: u64, totals: MetaTotals) -> (r: Option<MetaSample>)
        requires
            old(self).wf(),
        ensures
            final(self).wf(),
            r == spec_interval_sample(old(self).last_totals(category), totals, slot),
            final(self).last_totals(category) == totals,
            forall|c: u64| c != category ==> #[trigger] final(self).last_totals(c) == old(self).last_totals(c),
            final(self).slot_cursor() == old(self).slot_cursor(),
    {
        let ghost old_s = self.meta_prev_totals@;
        let n = self.meta_prev_totals.len();
        let mut i: usize = 0;
        while i < n && self.meta_prev_totals[i].0 != category
            invariant
                i <= n,
                n == old_s.len(),
                self.meta_prev_totals@ == old_s,
                forall|j: int| 0 <= j < i ==> (#[trigger] old_s[j]).0 != category,
            decreases n - i,
        {
            i += 1;
        }
        let found: Option<usize> = if i < n { Some(i) } else { None };
        let prev = match found {
            Some(k) => self.meta_prev_totals[k].1,
            None => MetaTotals { unique_creators: 0, buy_quote: 0, sell_quote: 0, buy_count: 0, sell_count: 0 },
        };
        proof {
            match found {
                Some(k) => {
                    assert(old_s[k as int].0 == category);
                    let c = choose|j: int| 0 <= j < old_s.len() && (#[trigger] old_s[j]).0 == category;
                    if c != k {
                        assert(old_s[c].0 != old_s[k as int].0);
                    }
                },
                None => {
                    assert(i == old_s.len());
                },
            }
            assert(prev == prev_totals(old_s, category));
        }
        match found {
            Some(k) => {
                self.meta_prev_totals.set(k, (category, totals));
            },
            None => {
                self.meta_prev_totals.push((category, totals));
            },
        }
        proof {
            let s = self.meta_prev_totals@;
            assert forall|a: int, b: int| 0 <= a < s.len() && 0 <= b < s.len() && a != b implies (#[trigger] s[a]).0 != (#[trigger] s[b]).0 by {
                match found {
                    Some(k) => {
                        if a != k && b != k {
                            assert(s[a] == old_s[a] && s[b] == old_s[b]);
                        }
                    },
                    None => {},
                }
            }
            let ki: int = match found { Some(k) => k as int, None => old_s.len() as int };
            assert(s[ki] == (category, totals));
            assert(prev_totals(s, category) == totals) by {
                let c = choose|j: int| 0 <= j < s.len() && (#[trigger] s[j]).0 == category;
                if c != ki {
                    assert(s[c].0 != s[ki].0);
                }
            }
            assert forall|c: u64| c != category implies #[trigger] prev_totals(s, c) == prev_totals(old_s, c) by {
                if exists|j: int| 0 <= j < old_s.len() && (#[trigger] old_s[j]).0 == c {
                    let j = choose|j: int| 0 <= j < old_s.len() && (#[trigger] old_s[j]).0 == c;
                    assert(s[j] == old_s[j]);
                    let cs = choose|j2: int| 0 <= j2 < s.len() && (#[trigger] s[j2]).0 == c;
                    if cs != j {
                        assert(s[cs].0 != s[j].0);
                    }
                } else if exists|j: int| 0 <= j < s.len() && (#[trigger] s[j]).0 == c {
                    let j = choose|j: int| 0 <= j < s.len() && (#[trigger] s[j]).0 == c;
                    assert(j != ki);
                    assert(s[j] == old_s[j]);
                }
            }
        }
        interval_sample(prev, totals, slot)
    }
}

} // verus!
