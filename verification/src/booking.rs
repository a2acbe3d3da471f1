//! Booking a realized exit: the lane's reconciliation, the decision journal's
//! `Filled` record, realized-only bankroll accounting, and on a full close the
//! committed-risk release, the lane's conditional-expectancy cell, the hazard
//! scaffold's fill and the drawdown ratchet's high-water mark.
//!
//! The held-position lifecycle that produces an exit, and the report planes an
//! exit also feeds (markouts, analytics, episodic memory, tournaments), are
//! held elsewhere; their inputs here arrive as plain facts.

use vstd::prelude::*;

use crate::engine::{accum_index, BankrollOrigin, clamp_i128, eval_lane_of, spec_eval_lane_of, EvalLane, ReconAccum, ReconTrade};
use crate::hazard_scaffold::{CellKey, HazardScaffold, Phase};
use crate::journal_log::{Decision, DecisionJournal};
use crate::lane::{sat_i128, sat_mul_i128, trunc_div, RankLane};

verus! {

/// What the engine remembers of an open position for attribution.
#[derive(Clone, Copy, Debug, PartialEq, Eq)]
pub struct OpenAttribution {
    /// The ranking lane that opened it.
    pub lane: RankLane,
    /// The setup archetype tagged at entry.
    pub archetype: u16,
    /// Realized net over the position's exits so far, lamports.
    pub realized_acc: i128,
    /// The entry spend committed against the risk budget, lamports.
    pub entry_spend: u64,
}

/// One exit from the held-position lifecycle.
#[derive(Clone, Copy, Debug, PartialEq, Eq)]
pub struct ExitFacts {
    /// The market.
    pub mint: [u8; 32],
    /// Realized net of this exit (a tranche or the close), lamports.
    pub net_lamports: i128,
    /// The stable exit-reason code.
    pub reason: u8,
    /// Whether this exit closes the position.
    pub closed: bool,
    /// Whether the exit was the time stop (the hazard event).
    pub time_stop: bool,
    /// Whether the market trades in a pool (else on its curve).
    pub is_pool: bool,
}

/// The realized-only bankroll.
#[derive(Clone, Copy, Debug, PartialEq, Eq)]
pub struct Bankroll {
    /// The origin's seed, lamports.
    pub seed: u64,
    /// Realized net since the seed, lamports.
    pub realized: i128,
    /// Entry spend of the open positions, lamports.
    pub committed: u128,
    /// Realized high-water mark of the balance, lamports.
    pub hwm: u64,
}

/// The balance: seed plus realized net, clamped into `u64`.
pub open spec fn spec_balance(b: Bankroll) -> u64 {
    let v: int = b.seed + b.realized;
    if v < 0 { 0 } else if v > u64::MAX { u64::MAX } else { v as u64 }
}

impl Bankroll {
    /// A bankroll on an origin: the origin's seed, nothing realized or
    /// committed, and the high-water mark at the seed.
    pub fn new(origin: BankrollOrigin) -> (r: Self)
        ensures
            r.seed == (match origin {
                BankrollOrigin::PaperSeed(v) => v,
                BankrollOrigin::LiveReconciled(v) => v,
            }),
            r.realized == 0,
            r.committed == 0,
            r.hwm == r.seed,
    {
        let seed = origin.seed_lamports();
        Bankroll { seed, realized: 0, committed: 0, hwm: seed }
    }

    /// Re-base on a reconciled live wallet balance: the seed becomes that
    /// balance and the drawdown mark is re-based to it; realized net and
    /// committed risk carry over.
    pub fn set_live(&mut self, reconciled_wallet_balance_lamports: u64)
        ensures
            *final(self) == (Bankroll {
                seed: reconciled_wallet_balance_lamports,
                hwm: reconciled_wallet_balance_lamports,
                ..*old(self)
            }),
    {
        self.seed = reconciled_wallet_balance_lamports;
        self.hwm = reconciled_wallet_balance_lamports;
    }

    /// The balance (see `spec_balance`).
    pub fn balance(&self) -> (r: u64)
        ensures
            r == spec_balance(*self),
    {
        if self.realized < 0 {
            let loss: u128 = if self.realized == i128::MIN { 0x8000_0000_0000_0000_0000_0000_0000_0000u128 } else { (-self.realized) as u128 };
            if loss >= self.seed as u128 { 0 } else { self.seed - (loss as u64) }
        } else {
            let gain: u128 = self.realized as u128;
            let total: u128 = if gain > 0xffff_ffff_ffff_ffff { 0xffff_ffff_ffff_ffff_ffff_ffff_ffff_ffff } else { gain + self.seed as u128 };
            if total > 0xffff_ffff_ffff_ffff { 0xffff_ffff_ffff_ffff } else { total as u64 }
        }
    }
}

/// Per-lane realized bookkeeping.
#[derive(Clone, Copy, Debug, PartialEq, Eq)]
pub struct ExitBook {
    /// The bankroll.
    pub bankroll: Bankroll,
    /// Running reconciliation per evaluator lane (scalp, early).
    pub recon: [ReconAccum; 2],
    /// Per ranking lane: summed realized return (bps) and closed fills.
    pub lane_edge: [(i128, u32); 4],
}

/// The index of a ranking lane into per-lane arrays.
pub open spec fn spec_lane_index(lane: RankLane) -> int {
    match lane {
        RankLane::CreationSniper => 0,
        RankLane::EarlyConfirmation => 1,
        RankLane::GraduationTransition => 2,
        RankLane::ActiveMarketScalp => 3,
    }
}

/// The index of a ranking lane into per-lane arrays.
pub fn lane_index(lane: RankLane) -> (r: usize)
    ensures
        r == spec_lane_index(lane),
{
    match lane {
        RankLane::CreationSniper => 0,
        RankLane::EarlyConfirmation => 1,
        RankLane::GraduationTransition => 2,
        RankLane::ActiveMarketScalp => 3,
    }
}

/// A reconciliation after one more trade.
pub open spec fn recon_added(a: ReconAccum, t: ReconTrade) -> ReconAccum {
    ReconAccum {
        gross: clamp_i128(a.gross + t.gross_lamports),
        fees: if a.fees + t.fees > u128::MAX { u128::MAX } else { (a.fees + t.fees) as u128 },
        tips: if a.tips + t.tips > u128::MAX { u128::MAX } else { (a.tips + t.tips) as u128 },
        failed: if a.failed + t.failed_costs > u128::MAX { u128::MAX } else { (a.failed + t.failed_costs) as u128 },
        n: if a.n == u64::MAX { u64::MAX } else { (a.n + 1) as u64 },
    }
}

/// The realized return of a closed position in bps of its entry spend: the
/// saturated `total x 10 000` over the spend, rounded toward zero and read as an
/// `i64`; zero for a zero spend.
pub open spec fn realized_bps_of(total: i128, entry_spend: u64) -> i64 {
    if entry_spend > 0 {
        trunc_div(sat_i128(total * 10_000), entry_spend as int) as i64
    } else {
        0
    }
}

/// What one exit does to the book, the journal's decisions and the
/// attribution, and which hazard fill it records on a close.
pub open spec fn book_transition(
    old: ExitBook,
    new: ExitBook,
    e: ExitFacts,
    att: Option<OpenAttribution>,
    r: Option<OpenAttribution>,
) -> bool {
    let b1 = Bankroll { realized: clamp_i128(old.bankroll.realized + e.net_lamports), ..old.bankroll };
    &&& new.recon@ == (match att {
        Some(a) => {
            let ix: int = if spec_eval_lane_of(a.lane) == EvalLane::Scalp { 0 } else { 1 };
            old.recon@.update(
                ix,
                recon_added(old.recon@[ix], ReconTrade { gross_lamports: e.net_lamports, fees: 0, tips: 0, failed_costs: 0 }),
            )
        },
        None => old.recon@,
    })
    &&& new.bankroll.seed == old.bankroll.seed
    &&& new.bankroll.realized == b1.realized
    &&& match att {
        None => {
            &&& r is None
            &&& new.bankroll.committed == old.bankroll.committed
            &&& new.lane_edge@ == old.lane_edge@
        },
        Some(a) => {
            let acc = clamp_i128(a.realized_acc + e.net_lamports);
            if !e.closed {
                &&& r == Some(OpenAttribution { realized_acc: acc, ..a })
                &&& new.bankroll.committed == old.bankroll.committed
                &&& new.lane_edge@ == old.lane_edge@
            } else {
                let li = spec_lane_index(a.lane);
                let cell = old.lane_edge@[li];
                let rb = realized_bps_of(acc, a.entry_spend);
                &&& r is None
                &&& new.bankroll.committed == (if old.bankroll.committed >= a.entry_spend {
                    (old.bankroll.committed - a.entry_spend) as u128
                } else {
                    0
                })
                &&& new.lane_edge@ == old.lane_edge@.update(
                    li,
                    (clamp_i128(cell.0 + rb), if cell.1 == u32::MAX { u32::MAX } else { (cell.1 + 1) as u32 }),
                )
            }
        },
    }
    &&& new.bankroll.hwm == (if e.closed && spec_balance(b1) > old.bankroll.hwm {
        spec_balance(b1)
    } else {
        old.bankroll.hwm
    })
}

/// The hazard cell a closing exit is filed under.
pub open spec fn exit_cell(e: ExitFacts, a: OpenAttribution) -> CellKey {
    CellKey { archetype: a.archetype, phase: if e.is_pool { Phase::Pool } else { Phase::Curve }, catalyst: 0, regime: 0 }
}

fn add_i128_sat(a: i128, b: i128) -> (r: i128)
    ensures
        r == clamp_i128(a + b),
{
    if b > 0 && a > i128::MAX - b {
        i128::MAX
    } else if b < 0 && a < i128::MIN - b {
        i128::MIN
    } else {
        a + b
    }
}

/// Book one exit: journal the fill and fold it into the book; on a close
/// release the committed spend, fold the realized return into the lane's
/// expectancy cell, file the hazard fill, and raise the high-water mark when
/// the balance passes it. Returns the attribution still open after the exit.
pub fn book_exit(
    book: &mut ExitBook,
    journal: &mut DecisionJournal,
    hazard: &mut HazardScaffold,
    e: &ExitFacts,
    att: Option<OpenAttribution>,
) -> (r: Option<OpenAttribution>)
    requires
        old(journal).wf(),
        old(hazard).wf(),
    ensures
        final(journal).wf(),
        final(hazard).wf(),
        final(journal).decisions() == old(journal).decisions().push(
            Decision::Filled { mint: e.mint, net_pnl_lamports: e.net_lamports, reason: e.reason },
        ),
        book_transition(*old(book), *final(book), *e, att, r),
        match att {
            Some(a) => if e.closed {
                HazardScaffold::record_transition(*old(hazard), *final(hazard), exit_cell(*e, a), e.time_stop)
            } else {
                *final(hazard) == *old(hazard)
            },
            None => *final(hazard) == *old(hazard),
        },
{
    let ghost old_book = *book;
    if let Some(a) = att {
        let t = ReconTrade { gross_lamports: e.net_lamports, fees: 0, tips: 0, failed_costs: 0 };
        let ix = accum_index(eval_lane_of(a.lane));
        let mut acc = book.recon[ix];
        acc.add(&t);
        book.recon[ix] = acc;
        assert(book.recon@ =~= old_book.recon@.update(ix as int, recon_added(old_book.recon@[ix as int], t)));
    }
    journal.record(Decision::Filled { mint: e.mint, net_pnl_lamports: e.net_lamports, reason: e.reason });
    book.bankroll.realized = add_i128_sat(book.bankroll.realized, e.net_lamports);
    let mut out: Option<OpenAttribution> = None;
    if let Some(a) = att {
        let total = add_i128_sat(a.realized_acc, e.net_lamports);
        if e.closed {
            book.bankroll.committed = book.bankroll.committed.saturating_sub(a.entry_spend as u128);
            let rb: i64 = if a.entry_spend > 0 {
                let q: i128 = sat_mul_i128(total, 10_000) / (a.entry_spend as i128);
                #[verifier::truncate]
                (q as i64)
            } else {
                0
            };
            let li = lane_index(a.lane);
            let cell = book.lane_edge[li];
            let n: u32 = if cell.1 == u32::MAX { u32::MAX } else { cell.1 + 1 };
            let ghost before = book.lane_edge@;
            book.lane_edge[li] = (add_i128_sat(cell.0, rb as i128), n);
            assert(book.lane_edge@ =~= before.update(li as int, (clamp_i128(cell.0 + rb), n)));
            let cell_key = CellKey {
                archetype: a.archetype,
                phase: if e.is_pool { Phase::Pool } else { Phase::Curve },
                catalyst: 0,
                regime: 0,
            };
            hazard.record_fill(cell_key, e.time_stop);
        } else {
            out = Some(OpenAttribution { realized_acc: total, ..a });
        }
    }
    if e.closed {
        let balance = book.bankroll.balance();
        if balance > book.bankroll.hwm {
            book.bankroll.hwm = balance;
        }
    }
    out
}

/// Marks never count: an exit that realizes nothing leaves the realized net and
/// the balance unchanged, and the high-water mark never falls.
pub proof fn lemma_booking_is_realized_only(
    old: ExitBook,
    new: ExitBook,
    e: ExitFacts,
    att: Option<OpenAttribution>,
    r: Option<OpenAttribution>,
)
    requires
        book_transition(old, new, e, att, r),
    ensures
        new.bankroll.hwm >= old.bankroll.hwm,
        e.net_lamports == 0 ==> new.bankroll.realized == old.bankroll.realized && spec_balance(new.bankroll)
            == spec_balance(old.bankroll),
        e.closed ==> new.bankroll.hwm >= spec_balance(new.bankroll),
{
}

} // verus!
