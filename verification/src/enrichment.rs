//! The enriched candidate state's integer tally: a strict as-of-clock reduction
//! over a mint's tape (every trade received at or before the decision clock,
//! inclusive) into per-wallet net balances and buy/sell round-trip counts,
//! per-slot distinct-wallet sets, buy and sell counts and the summed SOL leg.
//!
//! The holder count, bundle counts and round-trip wallets are integers and are
//! computed here; the float shares (top-1, top-5, Herfindahl, wash ratio) are
//! derived from the positive balances this tally lists in wallet order.

use vstd::prelude::*;

use crate::holder_flow::key_eq;
use crate::table::{keys_ascend, slots_get, KeyTable, Slot};

verus! {

/// One tape event, as the enrichment window consumes it.
#[derive(Debug, Clone, Copy, PartialEq, Eq)]
pub struct EnrichmentTrade {
    /// The producer's receive time, milliseconds.
    pub recv_unix_ms: i64,
    /// The trader's wallet.
    pub trader: [u8; 32],
    /// The signed token leg: positive for a buy, negative for a sell.
    pub tokens_raw: i128,
    /// The SOL leg, unsigned.
    pub sol_lamports: u64,
    /// The slot the trade landed in; `None` without slot evidence.
    pub slot: Option<u64>,
}

/// Why the enrichment could not be produced for a clock.
#[derive(Debug, Clone, Copy, PartialEq, Eq, Structural)]
pub enum EnrichmentGap {
    /// Fewer than two events at or before the decision clock.
    InsufficientHistory,
    /// The shares did not form a distribution in `[0, 1]`.
    InconsistentShares,
}

/// A wallet's net balance and round-trip count (+1 per buy, -1 per sell).
#[derive(Debug, Clone, Copy, PartialEq, Eq)]
pub struct WalletTally {
    /// Net token balance.
    pub balance: i128,
    /// Buys minus sells.
    pub round_trip: i64,
}

/// A slot's distinct wallets.
#[derive(Debug, Clone, PartialEq, Eq)]
pub struct SlotTally {
    /// The slot.
    pub slot: u64,
    /// The distinct wallets that traded in it.
    pub wallets: Vec<[u8; 32]>,
}

/// The integer enrichment of a tape at a clock.
#[derive(Debug, Clone, PartialEq, Eq)]
pub struct EnrichmentTally {
    /// Events at or before the clock.
    pub events: u64,
    /// Buys among them (positive token leg).
    pub n_buys: u64,
    /// Sells among them (everything else).
    pub n_sells: u64,
    /// Summed SOL leg, lamports.
    pub volume_lamports: u128,
    /// Every wallet that traded, ascending by wallet, with its tally.
    pub wallets: Vec<Slot<WalletTally>>,
    /// Every slot with slot evidence, with its distinct wallets.
    pub slots: Vec<SlotTally>,
    /// Wallets with a strictly positive balance.
    pub holders_at_t: u64,
    /// Slots in which at least two distinct wallets traded.
    pub bundle_slots: u64,
    /// Distinct wallets summed over those slots.
    pub bundle_wallets: u64,
    /// Wallets whose buys equal their sells.
    pub round_trip_wallets: u64,
}

// ---------------------------------------------------------------------------
// The model
// ---------------------------------------------------------------------------

/// The trades received at or before `t`, in tape order.
pub open spec fn cutoff(trades: Seq<EnrichmentTrade>, t: i64) -> Seq<EnrichmentTrade>
    decreases trades.len(),
{
    if trades.len() == 0 {
        Seq::empty()
    } else {
        let rest = cutoff(trades.drop_last(), t);
        if trades.last().recv_unix_ms <= t { rest.push(trades.last()) } else { rest }
    }
}

/// A wallet's net token balance over `c`.
pub open spec fn balance_of(c: Seq<EnrichmentTrade>, w: [u8; 32]) -> int
    decreases c.len(),
{
    if c.len() == 0 {
        0
    } else {
        balance_of(c.drop_last(), w) + if c.last().trader == w { c.last().tokens_raw as int } else { 0 }
    }
}

/// A wallet's buys minus sells over `c`.
pub open spec fn round_trip_of(c: Seq<EnrichmentTrade>, w: [u8; 32]) -> int
    decreases c.len(),
{
    if c.len() == 0 {
        0
    } else {
        round_trip_of(c.drop_last(), w) + if c.last().trader != w {
            0
        } else if c.last().tokens_raw > 0 {
            1
        } else {
            -1
        }
    }
}

/// Whether `w` traded in `c`.
pub open spec fn traded(c: Seq<EnrichmentTrade>, w: [u8; 32]) -> bool {
    exists|i: int| 0 <= i < c.len() && (#[trigger] c[i]).trader == w
}

/// Whether `w` traded in slot `s` in `c`.
pub open spec fn traded_in_slot(c: Seq<EnrichmentTrade>, s: u64, w: [u8; 32]) -> bool {
    exists|i: int| 0 <= i < c.len() && (#[trigger] c[i]).trader == w && c[i].slot == Some(s)
}

/// Whether some trade in `c` carries slot `s`.
pub open spec fn slot_seen(c: Seq<EnrichmentTrade>, s: u64) -> bool {
    exists|i: int| 0 <= i < c.len() && (#[trigger] c[i]).slot == Some(s)
}

/// Buys in `c`.
pub open spec fn buys_of(c: Seq<EnrichmentTrade>) -> int
    decreases c.len(),
{
    if c.len() == 0 { 0 } else { buys_of(c.drop_last()) + if c.last().tokens_raw > 0 { 1int } else { 0int } }
}

/// Summed SOL leg of `c`.
pub open spec fn volume_of(c: Seq<EnrichmentTrade>) -> int
    decreases c.len(),
{
    if c.len() == 0 { 0 } else { volume_of(c.drop_last()) + c.last().sol_lamports as int }
}

/// Every running per-wallet balance over the tape fits an `i128`.
pub open spec fn balances_fit(c: Seq<EnrichmentTrade>) -> bool {
    forall|k: int, w: [u8; 32]| 0 <= k <= c.len() ==> i128::MIN <= #[trigger] balance_of(c.take(k), w) <= i128::MAX
}

/// Wallet entries with a strictly positive balance.
pub open spec fn count_holders(ws: Seq<Slot<WalletTally>>) -> nat
    decreases ws.len(),
{
    if ws.len() == 0 { 0 } else { count_holders(ws.drop_last()) + if ws.last().val.balance > 0 { 1nat } else { 0nat } }
}

/// Wallet entries whose buys equal their sells.
pub open spec fn count_round_trips(ws: Seq<Slot<WalletTally>>) -> nat
    decreases ws.len(),
{
    if ws.len() == 0 { 0 } else { count_round_trips(ws.drop_last()) + if ws.last().val.round_trip == 0 { 1nat } else { 0nat } }
}

/// Slots with at least two distinct wallets.
pub open spec fn count_bundles(ss: Seq<SlotTally>) -> nat
    decreases ss.len(),
{
    if ss.len() == 0 { 0 } else { count_bundles(ss.drop_last()) + if ss.last().wallets@.len() >= 2 { 1nat } else { 0nat } }
}

/// Distinct wallets summed over every slot.
pub open spec fn sum_all(ss: Seq<SlotTally>) -> nat
    decreases ss.len(),
{
    if ss.len() == 0 { 0 } else { sum_all(ss.drop_last()) + ss.last().wallets@.len() }
}

/// Distinct wallets summed over the slots with at least two.
pub open spec fn sum_bundled(ss: Seq<SlotTally>) -> nat
    decreases ss.len(),
{
    if ss.len() == 0 {
        0
    } else {
        sum_bundled(ss.drop_last()) + if ss.last().wallets@.len() >= 2 { ss.last().wallets@.len() } else { 0nat }
    }
}

/// The wallet entries describe `c` exactly: ascending by wallet, one per wallet
/// that traded, each with its net balance and round-trip count.
pub open spec fn wallets_describe(ws: Seq<Slot<WalletTally>>, c: Seq<EnrichmentTrade>) -> bool {
    &&& keys_ascend(ws)
    &&& forall|w: [u8; 32]| #[trigger] slots_get(ws, w) == (if traded(c, w) {
        Some(WalletTally { balance: balance_of(c, w) as i128, round_trip: round_trip_of(c, w) as i64 })
    } else {
        None
    })
}

/// The slot entries describe `c` exactly: one per slot seen, each listing the
/// distinct wallets that traded in it.
pub open spec fn slots_describe(ss: Seq<SlotTally>, c: Seq<EnrichmentTrade>) -> bool {
    &&& forall|i: int, j: int| 0 <= i < ss.len() && 0 <= j < ss.len() && i != j ==> (#[trigger] ss[i]).slot != (#[trigger] ss[j]).slot
    &&& forall|s: u64| slot_seen(c, s) ==> exists|i: int| 0 <= i < ss.len() && (#[trigger] ss[i]).slot == s
    &&& forall|i: int| 0 <= i < ss.len() ==> {
        &&& slot_seen(c, (#[trigger] ss[i]).slot)
        &&& forall|a: int, b: int| 0 <= a < b < ss[i].wallets@.len() ==> ss[i].wallets@[a] != ss[i].wallets@[b]
        &&& forall|w: [u8; 32]| ss[i].wallets@.contains(w) <==> traded_in_slot(c, ss[i].slot, w)
    }
}

/// What the tally says of the trades at or before the clock.
pub open spec fn tally_describes(r: EnrichmentTally, c: Seq<EnrichmentTrade>) -> bool {
    &&& r.events == c.len()
    &&& r.n_buys == buys_of(c)
    &&& r.n_sells == c.len() - buys_of(c)
    &&& r.volume_lamports == volume_of(c)
    &&& wallets_describe(r.wallets@, c)
    &&& slots_describe(r.slots@, c)
    &&& r.holders_at_t == count_holders(r.wallets@)
    &&& r.round_trip_wallets == count_round_trips(r.wallets@)
    &&& r.bundle_slots == count_bundles(r.slots@)
    &&& r.bundle_wallets == sum_bundled(r.slots@)
}

// ---------------------------------------------------------------------------
// Lemmas
// ---------------------------------------------------------------------------

/// One more trade extends the window by itself exactly when it is on time.
proof fn lemma_cutoff_step(trades: Seq<EnrichmentTrade>, t: i64, i: int)
    requires
        0 <= i < trades.len(),
    ensures
        cutoff(trades.take(i + 1), t) == (if trades[i].recv_unix_ms <= t {
            cutoff(trades.take(i), t).push(trades[i])
        } else {
            cutoff(trades.take(i), t)
        }),
{
    assert(trades.take(i + 1).drop_last() =~= trades.take(i));
}

/// The window of a shorter tape is a prefix of the window of a longer one.
proof fn lemma_cutoff_prefix(trades: Seq<EnrichmentTrade>, t: i64, i: int, j: int)
    requires
        0 <= i <= j <= trades.len(),
    ensures
        cutoff(trades.take(i), t).len() <= cutoff(trades.take(j), t).len(),
        cutoff(trades.take(j), t).take(cutoff(trades.take(i), t).len() as int) == cutoff(trades.take(i), t),
    decreases j - i,
{
    if i == j {
        assert(cutoff(trades.take(j), t).take(cutoff(trades.take(i), t).len() as int) =~= cutoff(trades.take(i), t));
    } else {
        lemma_cutoff_prefix(trades, t, i, j - 1);
        lemma_cutoff_step(trades, t, j - 1);
        let a = cutoff(trades.take(i), t);
        let b = cutoff(trades.take(j - 1), t);
        let c = cutoff(trades.take(j), t);
        assert(c.take(a.len() as int) =~= b.take(a.len() as int));
    }
}

/// The window never holds more than the tape.
proof fn lemma_cutoff_len(trades: Seq<EnrichmentTrade>, t: i64)
    ensures
        cutoff(trades, t).len() <= trades.len(),
    decreases trades.len(),
{
    if trades.len() > 0 {
        lemma_cutoff_len(trades.drop_last(), t);
    }
}

/// A round-trip count is bounded by the number of trades.
proof fn lemma_round_trip_bound(c: Seq<EnrichmentTrade>, w: [u8; 32])
    ensures
        -(c.len() as int) <= round_trip_of(c, w) <= c.len(),
        0 <= buys_of(c) <= c.len(),
        0 <= volume_of(c) <= c.len() * 0xffff_ffff_ffff_ffff,
    decreases c.len(),
{
    if c.len() > 0 {
        lemma_round_trip_bound(c.drop_last(), w);
    }
}

proof fn lemma_untraded_zero(c: Seq<EnrichmentTrade>, w: [u8; 32])
    requires
        !traded(c, w),
    ensures
        balance_of(c, w) == 0,
        round_trip_of(c, w) == 0,
    decreases c.len(),
{
    if c.len() > 0 {
        assert(!traded(c.drop_last(), w)) by {
            if traded(c.drop_last(), w) {
                let i = choose|i: int| 0 <= i < c.drop_last().len() && (#[trigger] c.drop_last()[i]).trader == w;
                assert(c[i] == c.drop_last()[i]);
            }
        }
        assert(c.last() == c[c.len() - 1]);
        lemma_untraded_zero(c.drop_last(), w);
    }
}

proof fn lemma_buys_bound(c: Seq<EnrichmentTrade>)
    ensures
        0 <= buys_of(c) <= c.len(),
    decreases c.len(),
{
    if c.len() > 0 {
        lemma_buys_bound(c.drop_last());
    }
}

proof fn lemma_push_facts(c: Seq<EnrichmentTrade>, tr: EnrichmentTrade)
    ensures
        forall|w: [u8; 32]| #[trigger] balance_of(c.push(tr), w) == balance_of(c, w) + if tr.trader == w { tr.tokens_raw as int } else { 0 },
        forall|w: [u8; 32]| #[trigger] round_trip_of(c.push(tr), w) == round_trip_of(c, w) + if tr.trader != w {
            0
        } else if tr.tokens_raw > 0 {
            1
        } else {
            -1
        },
        forall|w: [u8; 32]| #[trigger] traded(c.push(tr), w) == (traded(c, w) || tr.trader == w),
        forall|s: u64, w: [u8; 32]| #[trigger] traded_in_slot(c.push(tr), s, w) == (traded_in_slot(c, s, w) || (tr.trader == w && tr.slot == Some(s))),
        forall|s: u64| #[trigger] slot_seen(c.push(tr), s) == (slot_seen(c, s) || tr.slot == Some(s)),
        buys_of(c.push(tr)) == buys_of(c) + if tr.tokens_raw > 0 { 1int } else { 0int },
        volume_of(c.push(tr)) == volume_of(c) + tr.sol_lamports,
{
    let d = c.push(tr);
    assert(d.drop_last() =~= c);
    assert forall|w: [u8; 32]| #[trigger] traded(d, w) == (traded(c, w) || tr.trader == w) by {
        if traded(d, w) {
            let i = choose|i: int| 0 <= i < d.len() && (#[trigger] d[i]).trader == w;
            if i < c.len() {
                assert(c[i] == d[i]);
            }
        }
        if traded(c, w) {
            let i = choose|i: int| 0 <= i < c.len() && (#[trigger] c[i]).trader == w;
            assert(d[i] == c[i]);
        }
        if tr.trader == w {
            assert(d[c.len() as int] == tr);
        }
    }
    assert forall|s: u64, w: [u8; 32]| #[trigger] traded_in_slot(d, s, w) == (traded_in_slot(c, s, w) || (tr.trader == w && tr.slot == Some(s))) by {
        if traded_in_slot(d, s, w) {
            let i = choose|i: int| 0 <= i < d.len() && (#[trigger] d[i]).trader == w && d[i].slot == Some(s);
            if i < c.len() {
                assert(c[i] == d[i]);
            }
        }
        if traded_in_slot(c, s, w) {
            let i = choose|i: int| 0 <= i < c.len() && (#[trigger] c[i]).trader == w && c[i].slot == Some(s);
            assert(d[i] == c[i]);
        }
        if tr.trader == w && tr.slot == Some(s) {
            assert(d[c.len() as int] == tr);
        }
    }
    assert forall|s: u64| #[trigger] slot_seen(d, s) == (slot_seen(c, s) || tr.slot == Some(s)) by {
        if slot_seen(d, s) {
            let i = choose|i: int| 0 <= i < d.len() && (#[trigger] d[i]).slot == Some(s);
            if i < c.len() {
                assert(c[i] == d[i]);
            }
        }
        if slot_seen(c, s) {
            let i = choose|i: int| 0 <= i < c.len() && (#[trigger] c[i]).slot == Some(s);
            assert(d[i] == c[i]);
        }
        if tr.slot == Some(s) {
            assert(d[c.len() as int] == tr);
        }
    }
}

proof fn lemma_sum_all_update(ss: Seq<SlotTally>, i: int, x: SlotTally)
    requires
        0 <= i < ss.len(),
    ensures
        sum_all(ss.update(i, x)) == sum_all(ss) - ss[i].wallets@.len() + x.wallets@.len(),
    decreases ss.len(),
{
    let u = ss.update(i, x);
    if i == ss.len() - 1 {
        assert(u.drop_last() =~= ss.drop_last());
    } else {
        lemma_sum_all_update(ss.drop_last(), i, x);
        assert(u.drop_last() =~= ss.drop_last().update(i, x));
    }
}

proof fn lemma_sum_prefix_le(ss: Seq<SlotTally>, j: int)
    requires
        0 <= j <= ss.len(),
    ensures
        sum_all(ss.subrange(0, j)) <= sum_all(ss),
    decreases ss.len() - j,
{
    if j < ss.len() {
        lemma_sum_prefix_le(ss, j + 1);
        assert(ss.subrange(0, j + 1).drop_last() =~= ss.subrange(0, j));
    } else {
        assert(ss.subrange(0, j) =~= ss);
    }
}

proof fn lemma_sum_bundled_le(ss: Seq<SlotTally>)
    ensures
        sum_bundled(ss) <= sum_all(ss),
        count_bundles(ss) <= ss.len(),
    decreases ss.len(),
{
    if ss.len() > 0 {
        lemma_sum_bundled_le(ss.drop_last());
    }
}

// ---------------------------------------------------------------------------
// The fold
// ---------------------------------------------------------------------------

/// Fold one on-time trade into the wallet table.
fn fold_wallet(ws: &mut KeyTable<WalletTally>, tr: &EnrichmentTrade, Ghost(c): Ghost<Seq<EnrichmentTrade>>)
    requires
        wallets_describe(old(ws).entries(), c),
        i128::MIN <= balance_of(c, tr.trader) <= i128::MAX,
        i128::MIN <= balance_of(c.push(*tr), tr.trader) <= i128::MAX,
        c.len() + 1 <= i64::MAX,
    ensures
        wallets_describe(final(ws).entries(), c.push(*tr)),
{
    proof {
        lemma_push_facts(c, *tr);
        lemma_round_trip_bound(c, tr.trader);
        lemma_round_trip_bound(c.push(*tr), tr.trader);
    }
    let d: i64 = if tr.tokens_raw > 0 { 1 } else { -1 };
    let ghost o = *ws;
    match ws.find(&tr.trader) {
        Some(p) => {
            let cur = ws.at(p).val;
            let upd = WalletTally { balance: cur.balance + tr.tokens_raw, round_trip: cur.round_trip + d };
            ws.set_val(p, upd);
        },
        None => {
            let upd = WalletTally { balance: tr.tokens_raw, round_trip: d };
            ws.insert_new(tr.trader, upd);
        },
    }
    proof {
        let e = c.push(*tr);
        assert forall|w: [u8; 32]| #[trigger] slots_get(ws.entries(), w) == (if traded(e, w) {
            Some(WalletTally { balance: balance_of(e, w) as i128, round_trip: round_trip_of(e, w) as i64 })
        } else {
            None
        }) by {
            if w != tr.trader {
                assert(ws.get(w) == o.get(w));
            } else {
                if traded(c, w) {
                    assert(o.get(w) == Some(WalletTally { balance: balance_of(c, w) as i128, round_trip: round_trip_of(c, w) as i64 }));
                } else {
                    lemma_untraded_zero(c, w);
                }
                assert(traded(e, w));
            }
        }
    }
}

/// Fold one on-time trade into the slot list.
fn fold_slot(ss: &mut Vec<SlotTally>, tr: &EnrichmentTrade, Ghost(c): Ghost<Seq<EnrichmentTrade>>)
    requires
        slots_describe(old(ss)@, c),
        sum_all(old(ss)@) <= c.len(),
    ensures
        slots_describe(final(ss)@, c.push(*tr)),
        sum_all(final(ss)@) <= c.len() + 1,
{
    proof {
        lemma_push_facts(c, *tr);
    }
    let e = Ghost(c.push(*tr));
    let s = match tr.slot {
        Some(s) => s,
        None => {
            return;
        },
    };
    let ghost o = ss@;
    let n = ss.len();
    let mut i: usize = 0;
    while i < n && ss[i].slot != s
        invariant
            i <= n,
            n == ss@.len(),
            ss@ == o,
            forall|j: int| 0 <= j < i ==> (#[trigger] o[j]).slot != s,
        decreases n - i,
    {
        i += 1;
    }
    if i == n {
        let mut wallets: Vec<[u8; 32]> = Vec::new();
        wallets.push(tr.trader);
        let entry = SlotTally { slot: s, wallets };
        ss.push(entry);
        proof {
            let f = ss@;
            assert(f.drop_last() =~= o);
            assert(!slot_seen(c, s)) by {
                if slot_seen(c, s) {
                    let k = choose|k: int| 0 <= k < o.len() && (#[trigger] o[k]).slot == s;
                    assert(o[k].slot != s);
                }
            }
            assert forall|w: [u8; 32]| f[n as int].wallets@.contains(w) <==> traded_in_slot(e@, s, w) by {
                if f[n as int].wallets@.contains(w) {
                    assert(f[n as int].wallets@[0] == tr.trader);
                }
                if traded_in_slot(e@, s, w) {
                    if traded_in_slot(c, s, w) {
                        let k = choose|k: int| 0 <= k < c.len() && (#[trigger] c[k]).trader == w && c[k].slot == Some(s);
                        assert(slot_seen(c, s));
                    }
                    assert(f[n as int].wallets@[0] == w);
                }
            }
            assert forall|s2: u64| slot_seen(e@, s2) implies exists|k: int| 0 <= k < f.len() && (#[trigger] f[k]).slot == s2 by {
                if s2 == s {
                    assert(f[n as int].slot == s);
                } else {
                    let k = choose|k: int| 0 <= k < o.len() && (#[trigger] o[k]).slot == s2;
                    assert(f[k] == o[k]);
                }
            }
            assert forall|k: int| 0 <= k < f.len() implies {
                &&& slot_seen(e@, (#[trigger] f[k]).slot)
                &&& forall|a: int, b: int| 0 <= a < b < f[k].wallets@.len() ==> f[k].wallets@[a] != f[k].wallets@[b]
                &&& forall|w: [u8; 32]| f[k].wallets@.contains(w) <==> traded_in_slot(e@, f[k].slot, w)
            } by {
                if k < n {
                    assert(f[k] == o[k]);
                    assert(o[k].slot != s);
                    assert forall|w: [u8; 32]| f[k].wallets@.contains(w) <==> traded_in_slot(e@, f[k].slot, w) by {
                        assert(traded_in_slot(e@, o[k].slot, w) == traded_in_slot(c, o[k].slot, w));
                    }
                }
            }
        }
        return;
    }
    let ghost entry = o[i as int];
    let m = ss[i].wallets.len();
    let mut k: usize = 0;
    while k < m && !key_eq(&ss[i].wallets[k], &tr.trader)
        invariant
            k <= m,
            i < n,
            n == ss@.len(),
            ss@ == o,
            m == o[i as int].wallets@.len(),
            forall|j: int| 0 <= j < k ==> (#[trigger] o[i as int].wallets@[j]) != tr.trader,
        decreases m - k,
    {
        k += 1;
    }
    if k < m {
        proof {
            assert(entry.wallets@.contains(tr.trader));
            assert forall|kk: int| 0 <= kk < o.len() implies forall|w: [u8; 32]| (#[trigger] o[kk]).wallets@.contains(w) <==> traded_in_slot(e@, o[kk].slot, w) by {
                assert forall|w: [u8; 32]| o[kk].wallets@.contains(w) <==> traded_in_slot(e@, o[kk].slot, w) by {
                    assert(traded_in_slot(e@, o[kk].slot, w) == (traded_in_slot(c, o[kk].slot, w) || (tr.trader == w && tr.slot == Some(o[kk].slot))));
                    if tr.trader == w && tr.slot == Some(o[kk].slot) {
                        assert(o[kk].slot == s);
                        if kk != i {
                            assert(o[kk].slot != o[i as int].slot);
                        }
                    }
                }
            }
        }
        return;
    }
    let mut taken = SlotTally { slot: s, wallets: Vec::new() };
    std::mem::swap(&mut taken, &mut ss[i]);
    taken.wallets.push(tr.trader);
    let ghost grown = taken;
    std::mem::swap(&mut taken, &mut ss[i]);
    proof {
        let f = ss@;
        assert(f =~= o.update(i as int, grown));
        lemma_sum_all_update(o, i as int, grown);
        assert(!entry.wallets@.contains(tr.trader));
        assert forall|k2: int| 0 <= k2 < f.len() implies {
            &&& slot_seen(e@, (#[trigger] f[k2]).slot)
            &&& forall|a: int, b: int| 0 <= a < b < f[k2].wallets@.len() ==> f[k2].wallets@[a] != f[k2].wallets@[b]
            &&& forall|w: [u8; 32]| f[k2].wallets@.contains(w) <==> traded_in_slot(e@, f[k2].slot, w)
        } by {
            if k2 == i {
                assert(f[k2].wallets@ == entry.wallets@.push(tr.trader));
                assert forall|a: int, b: int| 0 <= a < b < f[k2].wallets@.len() implies f[k2].wallets@[a] != f[k2].wallets@[b] by {
                    if b == entry.wallets@.len() {
                        assert(f[k2].wallets@[a] == entry.wallets@[a]);
                    }
                }
                assert forall|w: [u8; 32]| f[k2].wallets@.contains(w) <==> traded_in_slot(e@, f[k2].slot, w) by {
                    if f[k2].wallets@.contains(w) && w != tr.trader {
                        let a = choose|a: int| 0 <= a < f[k2].wallets@.len() && f[k2].wallets@[a] == w;
                        assert(entry.wallets@[a] == w);
                        assert(entry.wallets@.contains(w));
                    }
                    if traded_in_slot(e@, s, w) && w != tr.trader {
                        assert(traded_in_slot(c, s, w));
                        assert(entry.wallets@.contains(w));
                        let a = choose|a: int| 0 <= a < entry.wallets@.len() && entry.wallets@[a] == w;
                        assert(f[k2].wallets@[a] == w);
                    }
                    if w == tr.trader {
                        assert(f[k2].wallets@[entry.wallets@.len() as int] == w);
                    }
                }
            } else {
                assert(f[k2] == o[k2]);
                assert(o[k2].slot != s);
                assert forall|w: [u8; 32]| f[k2].wallets@.contains(w) <==> traded_in_slot(e@, f[k2].slot, w) by {
                    assert(traded_in_slot(e@, o[k2].slot, w) == traded_in_slot(c, o[k2].slot, w));
                }
            }
        }
        assert forall|s2: u64| slot_seen(e@, s2) implies exists|k2: int| 0 <= k2 < f.len() && (#[trigger] f[k2]).slot == s2 by {
            let k2 = if s2 == s { i as int } else { choose|k2: int| 0 <= k2 < o.len() && (#[trigger] o[k2]).slot == s2 };
            assert(f[k2].slot == s2);
        }
    }
}

/// Reduce the trades at or before `t_dec_ms` (inclusive) into the integer tally;
/// fewer than two such trades are no distribution.
pub fn tally(trades: &[EnrichmentTrade], t_dec_ms: i64) -> (r: Result<EnrichmentTally, EnrichmentGap>)
    requires
        balances_fit(cutoff(trades@, t_dec_ms)),
        trades@.len() < i64::MAX,
    ensures
        match r {
            Ok(x) => cutoff(trades@, t_dec_ms).len() >= 2 && tally_describes(x, cutoff(trades@, t_dec_ms)),
            Err(g) => cutoff(trades@, t_dec_ms).len() < 2 && g == EnrichmentGap::InsufficientHistory,
        },
{
    let ghost all = trades@;
    let ghost full = cutoff(all, t_dec_ms);
    let mut table: KeyTable<WalletTally> = KeyTable::new();
    let mut slots: Vec<SlotTally> = Vec::new();
    let mut events: u64 = 0;
    let mut n_buys: u64 = 0;
    let mut volume: u128 = 0;
    let n = trades.len();
    let mut i: usize = 0;
    proof {
        assert(all.take(0) =~= Seq::<EnrichmentTrade>::empty());
        assert forall|w: [u8; 32]| #[trigger] slots_get(table.entries(), w) == (if traded(cutoff(all.take(0), t_dec_ms), w) {
            Some(WalletTally { balance: 0, round_trip: 0 })
        } else {
            None
        }) by {}
    }
    while i < n
        invariant
            i <= n,
            n == all.len(),
            all == trades@,
            n < i64::MAX,
            full == cutoff(all, t_dec_ms),
            balances_fit(full),
            wallets_describe(table.entries(), cutoff(all.take(i as int), t_dec_ms)),
            slots_describe(slots@, cutoff(all.take(i as int), t_dec_ms)),
            sum_all(slots@) <= cutoff(all.take(i as int), t_dec_ms).len(),
            cutoff(all.take(i as int), t_dec_ms).len() <= i,
            events == cutoff(all.take(i as int), t_dec_ms).len(),
            n_buys == buys_of(cutoff(all.take(i as int), t_dec_ms)),
            volume == volume_of(cutoff(all.take(i as int), t_dec_ms)),
        decreases n - i,
    {
        let ghost c = cutoff(all.take(i as int), t_dec_ms);
        proof {
            lemma_cutoff_step(all, t_dec_ms, i as int);
            lemma_round_trip_bound(c, all[i as int].trader);
        }
        let tr = trades[i];
        if tr.recv_unix_ms <= t_dec_ms {
            proof {
                let e = c.push(tr);
                lemma_cutoff_prefix(all, t_dec_ms, i as int, n as int);
                lemma_cutoff_prefix(all, t_dec_ms, i + 1, n as int);
                assert(all.take(n as int) =~= all);
                assert(full.take(c.len() as int) == c);
                assert(full.take(e.len() as int) == e);
                assert(i128::MIN <= balance_of(full.take(c.len() as int), tr.trader) <= i128::MAX);
                assert(i128::MIN <= balance_of(full.take(e.len() as int), tr.trader) <= i128::MAX);
                lemma_push_facts(c, tr);
                assert(volume_of(c) <= c.len() * 0xffff_ffff_ffff_ffff);
                assert(c.len() * 0xffff_ffff_ffff_ffff + 0xffff_ffff_ffff_ffff <= 0x7fff_ffff_ffff_ffff * 0x1_0000_0000_0000_0000) by (nonlinear_arith)
                    requires
                        c.len() < 0x7fff_ffff_ffff_ffff,
                ;
            }
            fold_wallet(&mut table, &tr, Ghost(c));
            fold_slot(&mut slots, &tr, Ghost(c));
            events = events + 1;
            if tr.tokens_raw > 0 {
                n_buys = n_buys + 1;
            }
            volume = volume + tr.sol_lamports as u128;
        }
        i += 1;
    }
    proof {
        assert(all.take(n as int) =~= all);
    }
    if events < 2 {
        return Err(EnrichmentGap::InsufficientHistory);
    }
    let ghost c = full;
    // Copy the wallet table out, counting holders and round trips.
    let mut wallets: Vec<Slot<WalletTally>> = Vec::new();
    let mut holders: u64 = 0;
    let mut round_trips: u64 = 0;
    let m = table.len();
    let mut k: usize = 0;
    while k < m
        invariant
            k <= m,
            m == table.entries().len(),
            wallets@ == table.entries().subrange(0, k as int),
            holders == count_holders(wallets@),
            round_trips == count_round_trips(wallets@),
            holders <= k,
            round_trips <= k,
        decreases m - k,
    {
        let sl = *table.at(k);
        let ghost prev = wallets@;
        wallets.push(sl);
        proof {
            assert(wallets@.drop_last() =~= prev);
        }
        if sl.val.balance > 0 {
            holders = holders + 1;
        }
        if sl.val.round_trip == 0 {
            round_trips = round_trips + 1;
        }
        k += 1;
        proof {
            assert(wallets@ =~= table.entries().subrange(0, k as int));
        }
    }
    proof {
        assert(table.entries().subrange(0, m as int) =~= table.entries());
    }
    // Count the bundled slots.
    let mut bundle_slots: u64 = 0;
    let mut bundle_wallets: u64 = 0;
    let ns = slots.len();
    let mut j: usize = 0;
    proof {
        lemma_sum_bundled_le(slots@);
    }
    while j < ns
        invariant
            j <= ns,
            ns == slots@.len(),
            sum_all(slots@) <= c.len(),
            c.len() < i64::MAX,
            bundle_slots == count_bundles(slots@.subrange(0, j as int)),
            bundle_wallets == sum_bundled(slots@.subrange(0, j as int)),
            bundle_wallets <= sum_all(slots@.subrange(0, j as int)),
            sum_all(slots@.subrange(0, j as int)) <= sum_all(slots@),
            bundle_slots <= j,
        decreases ns - j,
    {
        let w = slots[j].wallets.len();
        proof {
            let a = slots@.subrange(0, j + 1);
            assert(a.drop_last() =~= slots@.subrange(0, j as int));
            lemma_sum_prefix_le(slots@, j + 1);
        }
        if w >= 2 {
            bundle_slots = bundle_slots + 1;
            bundle_wallets = bundle_wallets + w as u64;
        }
        j += 1;
    }
    proof {
        assert(slots@.subrange(0, ns as int) =~= slots@);
        lemma_buys_bound(c);
    }
    Ok(EnrichmentTally {
        events,
        n_buys,
        n_sells: events - n_buys,
        volume_lamports: volume,
        wallets,
        slots,
        holders_at_t: holders,
        bundle_slots,
        bundle_wallets,
        round_trip_wallets: round_trips,
    })
}

} // verus!
