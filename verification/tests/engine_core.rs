use pump_quant_app::admission::RejectLedger;
use pump_quant_app::engine_core::{EngineAction, EngineCore};
use pump_quant_app::event::AppEvent;
use pump_quant_app::live_status::LiveStatus;

const M: [u8; 32] = [5u8; 32];

fn trade(signed_base: i64, buyer: u64) -> AppEvent {
    AppEvent::MarketTrade {
        mint: M,
        price_fp: 1_000,
        quote_lamports: 50_000,
        liquidity_lamports: 30_000_000_000,
        signed_base,
        buyer_entity: buyer,
        age_slots: 3,
    }
}

#[test]
fn a_tick_advances_the_clock_and_asks_for_evaluation() {
    let mut core = EngineCore::new(400_000_000, 8);
    assert_eq!(core.step(&AppEvent::Tick), vec![EngineAction::Evaluate { now: 1 }]);
    assert_eq!(core.step(&AppEvent::Tick), vec![EngineAction::Evaluate { now: 2 }]);
    assert_eq!(core.now, 2);
}

#[test]
fn a_trade_feeds_the_numeric_lane_and_the_holder_ledger_and_is_forwarded() {
    let mut core = EngineCore::new(400_000_000, 8);
    let ev = trade(100, 7);
    let actions = core.step(&ev);
    assert_eq!(actions.last(), Some(&EngineAction::Forward(ev)));
    assert_eq!(core.numeric.latest_price_fp(M), Some(1_000));
    assert_eq!(core.holders.reading(&M).and_then(|r| r.growth_level()), Some(1));
    for a in &actions[..actions.len() - 1] {
        assert!(matches!(a, EngineAction::HolderSample { mint: M, count: 1, info_time_ns: 0 }));
    }
}

#[test]
fn lane_events_update_lanes_and_ask_for_nothing() {
    let mut core = EngineCore::new(400_000_000, 8);
    assert!(core.step(&AppEvent::SocialCall { mint: M, source_quality_bp: 4_000 }).is_empty());
    assert!(core.step(&AppEvent::WalletAction { mint: M, followable: true, size_lamports: 9 }).is_empty());
    assert_eq!(core.wallet.inflow_of(M), 9);
    assert!(core.step(&AppEvent::NarrativeSample { mint: M, prior_active: 1, new_mentions: 4 }).is_empty());
}

#[test]
fn confirmations_are_kept_with_their_tick_and_bounded() {
    let mut core = EngineCore::new(400_000_000, 2);
    core.step(&AppEvent::Tick);
    for (i, depth) in [(1u8, 500u64), (2, 100), (3, 300)] {
        let ev = AppEvent::OnchainConfirm { mint: [i; 32], virtual_sol_lamports: 0, real_sol_lamports: depth };
        assert!(core.step(&ev).is_empty());
    }
    assert_eq!(core.confirmed.len(), 2, "the weakest depth was evicted");
    assert!(core.confirmed.find(&[2u8; 32]).is_none());
    let i = core.confirmed.find(&[3u8; 32]).unwrap();
    assert_eq!(core.confirmed.at(i).val.depth, 300);
    assert_eq!(core.confirmed.at(i).val.at_tick, 1);
}

#[test]
fn migrations_advance_the_slot_cursor_and_are_forwarded() {
    let mut core = EngineCore::new(400_000_000, 2);
    let ev = AppEvent::Migration { mint: M, slot: 90 };
    assert_eq!(core.step(&ev), vec![EngineAction::Forward(ev)]);
    core.step(&AppEvent::Migration { mint: M, slot: 10 });
    assert_eq!(core.measured.chain_slot(), 90);
}

#[test]
fn identical_tapes_reach_identical_clocks_and_actions() {
    let tape = vec![trade(100, 1), AppEvent::Tick, trade(-40, 1), AppEvent::Tick];
    let mut a = EngineCore::new(400_000_000, 8);
    let mut b = EngineCore::new(400_000_000, 8);
    let xa: Vec<Vec<EngineAction>> = tape.iter().map(|e| a.step(e)).collect();
    let xb: Vec<Vec<EngineAction>> = tape.iter().map(|e| b.step(e)).collect();
    assert_eq!(xa, xb);
    assert_eq!(a.now, b.now);
}

#[test]
fn status_histogram_sums_to_rejected() {
    let mut l = RejectLedger::new();
    l.record(7);
    l.record(7);
    l.record(10);
    let base = LiveStatus {
        info_time_tick: 3,
        promoted: 0,
        admitted: 0,
        rejected: 0,
        reject_counts: [0; 32],
        open_positions: 0,
        net_realized_lamports: 0,
        universe_filtered: 0,
        probes_budgeted: 0,
        probe_spend_lamports: 0,
        journal_digest: 0,
        live_outbound_successes: 0,
        live_outbound_failures: 0,
        live_sell_successes: 0,
        live_sell_failures: 0,
        buy_confirmed_count: 0,
        buy_failed_count: 0,
        sell_confirmed_count: 0,
        sell_failed_count: 0,
        pending_buy_count: 0,
        pending_sell_count: 0,
    };
    let st = base.with_rejects(&l);
    assert_eq!(st.rejected, 3);
    assert_eq!(st.reject_counts.iter().sum::<u64>(), st.rejected);
    assert_eq!(st.info_time_tick, 3);
}
