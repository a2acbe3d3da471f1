use pump_quant_app::admission::{
    gate_price, gate_size, record_gate_outcome, GateFacts, GateOutcome, GateSizing, PriceFacts, RejectLedger,
    REJECT_BELOW_COST_FLOOR, REJECT_BRAIN_BLED, REJECT_CREATOR_DUMP, REJECT_EXIT_COST, REJECT_FABRICATED_FLOW,
    REJECT_FEE_FLOOR, REJECT_INSUFFICIENT_BANKROLL, REJECT_MAX_CONCURRENT, REJECT_UNDECODED_QUOTE,
    REJECT_VPIN_TOXIC, REJECT_WALLET_FLOOR,
};
use pump_quant_app::gate::{confirmation_depth, decide, DecideFacts, GateReject, SizeBand};
use pump_quant_app::holder_concentration::{ConcentrationUnknown, ConcentrationVerdict};
use pump_quant_app::journal_log::{Decision, DecisionJournal};

const BAND: SizeBand = SizeBand { x_min: 10_000_000, x_cost: 50_000_000, x_max: 500_000_000, viable: true };

fn facts() -> GateFacts {
    GateFacts {
        fabricated: false,
        creator_dump: false,
        fee_floor_veto: false,
        fee_fade_bps: 0,
        conc: ConcentrationVerdict::Unknown(ConcentrationUnknown::Untracked),
        has_auth_evidence: false,
        auth_bps: 10_000,
        vpin_mult_bp: 10_000,
        open_positions: 0,
        max_concurrent_positions: 4,
        balance: 10_000_000_000,
        deployable: 8_000_000_000,
        total_risk_cap_bp: 2_000,
        committed: 0,
        bankroll_hwm: 10_000_000_000,
        f_base_bp: 500,
        probe_f_bp: 100,
        dd_tier1_bp: 1_000,
        dd_tier2_bp: 2_000,
        dd_tier3_bp: 3_000,
        f_recommended_bp: None,
        size_haircut_bp: 10_000,
        revert: false,
        revert_size_mult_bp: 5_000,
        auth_mult_bp: 10_000,
        cred_mult_bp: 10_000,
        deployer_mult_bp: 10_000,
        rug_elevated: false,
        downtrend: false,
        structure_downtrend_haircut_bp: 5_000,
        brain_veto: false,
        brain_mult_bp: 10_000,
        band: BAND,
        probe_budget_enable: false,
        min_trade_size_lamports: 10_000_000,
        x_min_promote_cap_bp: 100,
        promote_min_haircut_bp: 5_000,
        entry_fee_bps: 100,
        entry_tip_lamports: 1_000,
    }
}

fn decide_facts() -> DecideFacts {
    DecideFacts {
        confirmed: true,
        price_reserve: Some(40_000_000_000),
        payout_reserve: Some(10_000_000_000),
        numeric_liquidity_lamports: 40_000_000_000,
        mcap_band_enable: false,
        mcap_in_band: false,
        band: BAND,
        model_spoke: false,
        admission_bps: 3_400,
        lc_tp1_bps: 11_000,
        rt_at_x_cost_bps: Some(500),
    }
}

#[test]
fn decide_refuses_in_order_and_admits_at_the_band() {
    assert_eq!(decide(&decide_facts()), Ok(BAND));
    let mut f = decide_facts();
    f.confirmed = false;
    assert_eq!(decide(&f), Err(GateReject::NeedsOnchainConfirmation));
    let mut f = decide_facts();
    f.payout_reserve = None;
    assert_eq!(decide(&f), Err(GateReject::NeedsOnchainConfirmation));
    let mut f = decide_facts();
    f.numeric_liquidity_lamports = 0;
    assert_eq!(decide(&f), Err(GateReject::NoNumericConfirmation));
    let mut f = decide_facts();
    f.mcap_band_enable = true;
    assert_eq!(decide(&f), Err(GateReject::OutsideMcapBand));
    let mut f = decide_facts();
    f.model_spoke = true;
    assert_eq!(decide(&f), Err(GateReject::Tp1Unreachable), "3 400 < 11 000 + 500");
    f.admission_bps = 11_500;
    assert_eq!(decide(&f), Ok(BAND), "exactly reaching tp1 plus cost admits");
    let mut f = decide_facts();
    f.band.viable = false;
    assert_eq!(decide(&f), Err(GateReject::EconomicallyUnviable));
}

#[test]
fn a_stale_confirmation_authorizes_nothing() {
    assert_eq!(confirmation_depth(Some((5_000, 10)), 20, 10, Some(9_000)), Some(5_000));
    assert_eq!(confirmation_depth(Some((5_000, 10)), 21, 10, Some(9_000)), None, "one tick past the ttl");
    assert_eq!(confirmation_depth(Some((5_000, 10)), 12, 10, Some(3_000)), Some(3_000), "capped by fresh liquidity");
    assert_eq!(confirmation_depth(Some((5_000, 10)), 12, 10, None), Some(0), "no fresh snapshot zeroes depth");
    assert_eq!(confirmation_depth(None, 12, 10, Some(3_000)), None);
}

#[test]
fn gate_size_sizes_by_fraction_budget_and_band() {
    // raw = 8e9 * 500 / 1e4 = 4e8; budget = 8e9 * 2000 / 1e4 = 1.6e9.
    match gate_size(&facts()) {
        GateSizing::Sized { size, entry_cost, haircut_bp } => {
            assert_eq!(size, 400_000_000);
            assert_eq!(entry_cost, 400_000_000 + 4_000_000 + 1_000);
            assert_eq!(haircut_bp, 10_000);
        }
        other => panic!("expected a size, got {other:?}"),
    }
    let mut f = facts();
    f.revert = true;
    f.rug_elevated = true;
    // 10 000 * 5 000 / 1e4 * 7 000 / 1e4 = 3 500 bps.
    assert_eq!(gate_size(&f), GateSizing::Sized { size: 140_000_000, entry_cost: 141_401_000, haircut_bp: 3_500 });
    let mut f = facts();
    f.committed = 1_500_000_000;
    assert!(matches!(gate_size(&f), GateSizing::Sized { size: 100_000_000, .. }), "capped at the available risk");
    let mut f = facts();
    f.band.x_max = 200_000_000;
    assert!(matches!(gate_size(&f), GateSizing::Sized { size: 200_000_000, .. }), "capped at x_max");
}

#[test]
fn gate_size_vetoes_in_order() {
    let mut f = facts();
    f.fabricated = true;
    f.creator_dump = true;
    assert_eq!(gate_size(&f), GateSizing::Reject(REJECT_FABRICATED_FLOW));
    f.fabricated = false;
    assert_eq!(gate_size(&f), GateSizing::Reject(REJECT_CREATOR_DUMP));
    let mut f = facts();
    f.fee_floor_veto = true;
    assert_eq!(gate_size(&f), GateSizing::Reject(REJECT_FEE_FLOOR));
    let mut f = facts();
    f.vpin_mult_bp = 0;
    assert_eq!(gate_size(&f), GateSizing::Reject(REJECT_VPIN_TOXIC));
    let mut f = facts();
    f.open_positions = 4;
    assert_eq!(gate_size(&f), GateSizing::Reject(REJECT_MAX_CONCURRENT));
    let mut f = facts();
    f.committed = 2_000_000_000;
    assert_eq!(gate_size(&f), GateSizing::Reject(REJECT_INSUFFICIENT_BANKROLL));
    let mut f = facts();
    f.brain_veto = true;
    assert_eq!(gate_size(&f), GateSizing::Reject(REJECT_BRAIN_BLED));
}

#[test]
fn below_the_floor_is_promoted_probed_or_refused() {
    // A 2% haircut leaves 8e6 < x_min = 1e7.
    let mut f = facts();
    f.size_haircut_bp = 200;
    assert_eq!(gate_size(&f), GateSizing::Reject(REJECT_BELOW_COST_FLOOR), "a faded trade is never sized up");
    f.promote_min_haircut_bp = 100;
    f.x_min_promote_cap_bp = 10;
    // promote cap = 8e9 * 10 / 1e4 = 8e6 < x_min.
    assert_eq!(gate_size(&f), GateSizing::Reject(REJECT_BELOW_COST_FLOOR), "over the promote cap");
    f.x_min_promote_cap_bp = 100;
    assert!(matches!(gate_size(&f), GateSizing::Sized { size: 10_000_000, .. }), "promoted to x_min");
    let mut f = facts();
    f.size_haircut_bp = 200;
    f.probe_budget_enable = true;
    f.min_trade_size_lamports = 0;
    assert_eq!(gate_size(&f), GateSizing::Probe { intended_spend: 8_000_000 });
}

fn price_facts() -> PriceFacts {
    PriceFacts {
        size: 400_000_000,
        entry_cost: 404_001_000,
        floor_refused: false,
        exit_cost_bps: Some(300),
        expected_move_bps: 3_400,
        entry_price_fp: 1_000,
        rt_bps: Some(400),
        lane_edge_bps: 3_400,
        band: BAND,
    }
}

#[test]
fn gate_price_prices_or_refuses() {
    match gate_price(&price_facts()) {
        GateOutcome::Entry(e) => {
            assert_eq!(e.expected_net, 400_000_000 * 3_000 / 10_000);
            assert_eq!(e.round_trip_cost_bps, 400);
            assert_eq!(e.size, 400_000_000);
        }
        other => panic!("expected an entry, got {other:?}"),
    }
    let mut p = price_facts();
    p.floor_refused = true;
    assert_eq!(gate_price(&p), GateOutcome::Reject(REJECT_WALLET_FLOOR));
    let mut p = price_facts();
    p.exit_cost_bps = None;
    assert_eq!(gate_price(&p), GateOutcome::Reject(REJECT_EXIT_COST), "an unpriceable exit fails closed");
    p.exit_cost_bps = Some(34_001);
    assert_eq!(gate_price(&p), GateOutcome::Reject(REJECT_EXIT_COST));
    p.exit_cost_bps = Some(34_000);
    assert!(matches!(gate_price(&p), GateOutcome::Entry(_)));
    let mut p = price_facts();
    p.entry_price_fp = 0;
    assert_eq!(gate_price(&p), GateOutcome::Dropped);
    let mut p = price_facts();
    p.rt_bps = None;
    assert_eq!(gate_price(&p), GateOutcome::Reject(REJECT_UNDECODED_QUOTE));
    let mut p = price_facts();
    p.lane_edge_bps = -1_000;
    match gate_price(&p) {
        GateOutcome::Entry(e) => assert_eq!(e.expected_net, -56_000_000),
        other => panic!("expected an entry, got {other:?}"),
    }
}

#[test]
fn every_refusal_is_journaled_and_counted() {
    let mut j = DecisionJournal::new();
    let mut l = RejectLedger::new();
    let m = [3u8; 32];
    record_gate_outcome(&mut j, &mut l, m, &GateOutcome::Reject(REJECT_EXIT_COST));
    record_gate_outcome(&mut j, &mut l, m, &GateOutcome::Reject(REJECT_EXIT_COST));
    record_gate_outcome(&mut j, &mut l, m, &GateOutcome::Reject(REJECT_VPIN_TOXIC));
    record_gate_outcome(&mut j, &mut l, m, &GateOutcome::Dropped);
    record_gate_outcome(&mut j, &mut l, m, &GateOutcome::Probe(5));
    assert_eq!(l.rejected, 3);
    assert_eq!(l.reject_counts[REJECT_EXIT_COST as usize], 2);
    assert_eq!(l.reject_counts[REJECT_VPIN_TOXIC as usize], 1);
    assert_eq!(l.reject_counts.iter().sum::<u64>(), l.rejected);
    assert_eq!(
        j.recent(),
        vec![
            Decision::Rejected { mint: m, reason: REJECT_EXIT_COST },
            Decision::Rejected { mint: m, reason: REJECT_EXIT_COST },
            Decision::Rejected { mint: m, reason: REJECT_VPIN_TOXIC },
        ]
    );
}
