use pump_quant_app::event::{all_lanes, AppEvent, LaneKind};
use pump_quant_app::lane::{
    classify_regime, decade, union_quota, Candidate, Features, ofi_to_pressure_bp, roll_rho_bp, wl_lane_for, AttentionDecayParams, DiscoveryLane,
    NumericLane, RankLane, Regime, Side, SocialLane, TradeEvent, WalletLane,
};

fn mint(tag: u8) -> [u8; 32] {
    let mut b = [0u8; 32];
    b[0] = tag;
    b
}

fn trade(price_fp: i128) -> TradeEvent {
    TradeEvent { event_id: 0, ts_ns: 0, price_fp, base_qty: 1, quote_qty: 1, side: Side::Buy }
}

#[test]
fn only_the_numeric_lane_self_authorizes() {
    let lanes = all_lanes();
    assert_eq!(lanes, [LaneKind::Numeric, LaneKind::Narrative, LaneKind::Social, LaneKind::Wallet]);
    let authorizing: Vec<LaneKind> = lanes.iter().copied().filter(|l| l.is_self_authorizing()).collect();
    assert_eq!(authorizing, vec![LaneKind::Numeric]);
    assert_eq!(wl_lane_for(LaneKind::Numeric), RankLane::ActiveMarketScalp);
    assert_eq!(wl_lane_for(LaneKind::Narrative), RankLane::EarlyConfirmation);
    assert_eq!(wl_lane_for(LaneKind::Social), RankLane::CreationSniper);
    assert_eq!(wl_lane_for(LaneKind::Wallet), RankLane::GraduationTransition);
}

#[test]
fn every_mint_event_names_its_market_and_a_tick_names_none() {
    let m = mint(5);
    assert_eq!(AppEvent::SocialCall { mint: m, source_quality_bp: 10 }.mint(), Some(m));
    assert_eq!(AppEvent::Migration { mint: m, slot: 3 }.mint(), Some(m));
    assert_eq!(AppEvent::Tick.mint(), None);
    assert_eq!(AppEvent::TimeSignal { dow: 1, hour_utc: 3 }.mint(), None);
}

#[test]
fn pressure_maps_imbalance_onto_the_shared_scale() {
    assert_eq!(ofi_to_pressure_bp(Some(-10_000)), 0);
    assert_eq!(ofi_to_pressure_bp(Some(0)), 5_000);
    assert_eq!(ofi_to_pressure_bp(Some(10_000)), 10_000);
    assert_eq!(ofi_to_pressure_bp(Some(-1)), 4_999);
    assert_eq!(ofi_to_pressure_bp(None), 0);
}

#[test]
fn decade_is_a_digit_count() {
    assert_eq!(decade(0), 0);
    assert_eq!(decade(1), 1);
    assert_eq!(decade(99), 2);
    assert_eq!(decade(100), 3);
    assert_eq!(decade(u64::MAX), 20);
}

#[test]
fn regimes_follow_the_deadband() {
    assert_eq!(classify_regime(Some(3_000), 2_000, -2_000), Regime::Trend);
    assert_eq!(classify_regime(Some(-3_000), 2_000, -2_000), Regime::Revert);
    assert_eq!(classify_regime(Some(0), 2_000, -2_000), Regime::Neutral);
    assert_eq!(classify_regime(None, 2_000, -2_000), Regime::Neutral);
}

#[test]
fn a_one_sided_tape_is_trending_and_an_alternating_one_reverts() {
    let rising: Vec<TradeEvent> = (0..20).map(|i| trade(1_000 + 10 * i)).collect();
    assert_eq!(roll_rho_bp(&rising), Some(9_473));
    let zigzag: Vec<TradeEvent> = (0..20).map(|i| trade(if i % 2 == 0 { 1_000 } else { 1_010 })).collect();
    assert_eq!(roll_rho_bp(&zigzag), Some(-9_473));
    assert_eq!(roll_rho_bp(&rising[..2]), None);
    let flat: Vec<TradeEvent> = (0..20).map(|_| trade(1_000)).collect();
    assert_eq!(roll_rho_bp(&flat), None);
}

#[test]
fn attention_decays_per_step_and_never_grows() {
    let p = AttentionDecayParams { rate_bp: 5_000, step_ticks: 10, floor: 0 };
    assert_eq!(p.apply(1_000, 0), 1_000);
    assert_eq!(p.apply(1_000, 9), 1_000);
    assert_eq!(p.apply(1_000, 10), 500);
    assert_eq!(p.apply(1_000, 25), 250);
    let zero_step = AttentionDecayParams { rate_bp: 9_000, step_ticks: 0, floor: 0 };
    assert_eq!(zero_step.apply(100, 1), 90);
    assert_eq!(p.apply(u64::MAX, 1_000_000), 4_294_967_295);
}

#[test]
fn social_emits_fresh_mints_in_key_order_with_alpha_attribution() {
    let mut s = SocialLane::new();
    s.observe(mint(9), 4_000, 10);
    s.observe_alpha(mint(2), 1_000, 10);
    s.observe(mint(2), 500, 12);
    s.observe(mint(5), 100, 0);
    let out = s.emit(20, 15);
    assert_eq!(out.len(), 2);
    assert_eq!(out[0].mint, mint(2));
    assert_eq!(out[0].score, 1_500);
    assert_eq!(out[0].discovery_lane, DiscoveryLane::AlphaCall);
    assert_eq!(out[0].lane, RankLane::CreationSniper);
    assert_eq!(out[1].mint, mint(9));
    assert_eq!(out[1].discovery_lane, DiscoveryLane::SocialCaller);
    assert_eq!(out[1].now, 20);
}

#[test]
fn wallet_counts_only_followable_size() {
    let mut w = WalletLane::new();
    w.observe(mint(1), true, 5_000_000, 1);
    w.observe(mint(1), false, 9_000_000_000, 2);
    w.observe(mint(1), true, 5_000_000, 3);
    assert_eq!(w.inflow_of(mint(1)), 10_000_000);
    assert_eq!(w.inflow_of(mint(2)), 0);
    let out = w.emit(4, 100, 10);
    assert_eq!(out.len(), 1);
    assert_eq!(out[0].score, 800);
    assert_eq!(out[0].lane, RankLane::GraduationTransition);
    assert!(w.emit(100, 100, 10).is_empty());
}

#[test]
fn the_social_lane_evicts_its_weakest_mint_at_capacity() {
    let mut s = SocialLane::new();
    for i in 0..4_096u32 {
        let mut m = [0u8; 32];
        m[..4].copy_from_slice(&i.to_le_bytes());
        s.observe(m, 100 + (i % 7), 0);
    }
    let mut newcomer = [0u8; 32];
    newcomer[31] = 1;
    s.observe(newcomer, 1, 0);
    let out = s.emit(0, 0);
    assert_eq!(out.len(), 4_096);
    assert!(out.iter().any(|c| c.mint == newcomer));
    let mut first_weakest = [0u8; 32];
    first_weakest[..4].copy_from_slice(&0u32.to_le_bytes());
    assert!(!out.iter().any(|c| c.mint == first_weakest));
}

#[test]
fn numeric_lane_tracks_price_age_and_regime() {
    let mut n = NumericLane::new();
    for i in 0..20i128 {
        n.observe(mint(3), 1_000 + 10 * i, 1_000, 50_000, 100, i as u64, 10, 5);
    }
    assert_eq!(n.latest_price_fp(mint(3)), Some(1_190));
    assert_eq!(n.latest_price_fp(mint(4)), None);
    assert_eq!(n.evidence_age(mint(3), 9), Some(4));
    assert_eq!(n.evidence_age(mint(3), 1), Some(0));
    assert_eq!(n.regime_of(mint(3), 2_000, -2_000), Regime::Trend);
    assert_eq!(n.regime_of(mint(4), 2_000, -2_000), Regime::Neutral);
    n.observe(mint(6), -5, 1, 1, -3, 0, 0, 0);
    assert_eq!(n.latest_price_fp(mint(6)), Some(0));
}

fn quota_cand(tag: u8, lane: RankLane, score: u64) -> Candidate {
    Candidate {
        mint: [tag; 32],
        lane,
        score,
        now: 0,
        features: Features { liquidity_lamports: 0, buy_pressure_bp: 0, unique_buyers: 0, age_slots: 0 },
        discovery_lane: DiscoveryLane::SocialCaller,
    }
}

#[test]
fn union_quota_reserves_slots_for_corroboration() {
    let n = RankLane::ActiveMarketScalp;
    let s = RankLane::CreationSniper;
    let promoted = vec![quota_cand(1, n, 900), quota_cand(2, n, 800), quota_cand(3, n, 700)];
    let corrob = vec![quota_cand(2, s, 50), quota_cand(9, s, 0), quota_cand(7, s, 40), quota_cand(8, s, 30)];
    let out = union_quota(&promoted, &corrob, 3, 2);
    let tags: Vec<u8> = out.iter().map(|c| c.mint[0]).collect();
    assert_eq!(tags, vec![1, 7, 8], "the two lowest numeric winners give way; dup and zero-score skipped");
    assert_eq!(union_quota(&promoted, &corrob, 3, 0), promoted, "no quota, no change");
    let mixed = vec![quota_cand(1, n, 900), quota_cand(5, s, 60), quota_cand(3, n, 700)];
    let out = union_quota(&mixed, &corrob, 3, 2);
    let tags: Vec<u8> = out.iter().map(|c| c.mint[0]).collect();
    assert_eq!(tags, vec![1, 5, 2], "one corroboration seat already held: one extra");
    let out = union_quota(&promoted, &[quota_cand(4, s, 0)].to_vec(), 3, 2);
    assert_eq!(out, promoted, "nothing eligible: unchanged");
}
