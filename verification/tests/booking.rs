use pump_quant_app::booking::{book_exit, Bankroll, ExitBook, ExitFacts, OpenAttribution};
use pump_quant_app::engine::{BankrollOrigin, ReconAccum};
use pump_quant_app::hazard_scaffold::HazardScaffold;
use pump_quant_app::journal_log::{Decision, DecisionJournal};
use pump_quant_app::lane::RankLane;

const M: [u8; 32] = [4u8; 32];

fn book() -> ExitBook {
    ExitBook {
        bankroll: Bankroll { seed: 1_000_000, realized: 0, committed: 300_000, hwm: 1_000_000 },
        recon: [ReconAccum::default(); 2],
        lane_edge: [(0, 0); 4],
    }
}

fn exit(net: i128, closed: bool) -> ExitFacts {
    ExitFacts { mint: M, net_lamports: net, reason: 3, closed, time_stop: true, is_pool: false }
}

#[test]
fn a_tranche_then_a_close_books_realized_net_only() {
    let mut b = book();
    let mut j = DecisionJournal::new();
    let mut hz = HazardScaffold::new();
    let att = OpenAttribution { lane: RankLane::ActiveMarketScalp, archetype: 2, realized_acc: 0, entry_spend: 200_000 };
    let still = book_exit(&mut b, &mut j, &mut hz, &exit(50_000, false), Some(att)).expect("still open");
    assert_eq!(still.realized_acc, 50_000);
    assert_eq!(b.bankroll.realized, 50_000);
    assert_eq!(b.bankroll.hwm, 1_000_000, "the mark only moves on a close");
    assert_eq!(b.recon[0].gross, 50_000, "active-market scalping reconciles in the scalp lane");
    assert_eq!(hz.cells_tracked(), 0);

    assert_eq!(book_exit(&mut b, &mut j, &mut hz, &exit(10_000, true), Some(still)), None);
    assert_eq!(b.bankroll.realized, 60_000);
    assert_eq!(b.bankroll.committed, 100_000);
    assert_eq!(b.bankroll.hwm, 1_060_000);
    assert_eq!(b.bankroll.balance(), 1_060_000);
    assert_eq!(b.lane_edge[3], (3_000, 1), "60 000 over a 200 000 spend is 3 000 bps");
    assert_eq!(hz.cells_tracked(), 1);
    assert_eq!(
        j.recent(),
        vec![
            Decision::Filled { mint: M, net_pnl_lamports: 50_000, reason: 3 },
            Decision::Filled { mint: M, net_pnl_lamports: 10_000, reason: 3 },
        ]
    );
}

#[test]
fn a_losing_close_lowers_the_balance_but_not_the_mark() {
    let mut b = book();
    let mut j = DecisionJournal::new();
    let mut hz = HazardScaffold::new();
    let att = OpenAttribution { lane: RankLane::CreationSniper, archetype: 0, realized_acc: 0, entry_spend: 300_000 };
    book_exit(&mut b, &mut j, &mut hz, &exit(-150_000, true), Some(att));
    assert_eq!(b.bankroll.balance(), 850_000);
    assert_eq!(b.bankroll.hwm, 1_000_000);
    assert_eq!(b.bankroll.committed, 0);
    assert_eq!(b.lane_edge[0], (-5_000, 1));
    assert_eq!(b.recon[1].gross, -150_000, "sniping reconciles in the early lane");
}

#[test]
fn an_unattributed_exit_is_journaled_and_counted_in_the_bankroll() {
    let mut b = book();
    let mut j = DecisionJournal::new();
    let mut hz = HazardScaffold::new();
    assert_eq!(book_exit(&mut b, &mut j, &mut hz, &exit(-2_000_000, true), None), None);
    assert_eq!(b.bankroll.balance(), 0, "the balance floors at zero");
    assert_eq!(b.recon[0].n + b.recon[1].n, 0);
    assert_eq!(j.len(), 1);
}

#[test]
fn a_bankroll_starts_at_its_origin_and_rebases_on_a_live_wallet() {
    let mut b = Bankroll::new(BankrollOrigin::PaperSeed(5_000));
    assert_eq!((b.seed, b.realized, b.committed, b.hwm), (5_000, 0, 0, 5_000));
    b.realized = -1_000;
    b.committed = 700;
    b.set_live(9_000);
    assert_eq!((b.seed, b.realized, b.committed, b.hwm), (9_000, -1_000, 700, 9_000));
    assert_eq!(b.balance(), 8_000);
}
