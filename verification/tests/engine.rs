use pump_quant_app::engine::{
    accum_index, conditional_edge_bps, dd_f_eff_bp, decade_u64, meta_rank_adjustment, meta_ranked_score, size_haircut_bps, veto_counterfactual_bps, eval_lane_of, probe_scale_split, reject_code, sprt_llr_to_p_ppm, BankrollOrigin,
    BankrollOriginError, EvalLane, ReconAccum, ReconTrade, RunMode,
};
use pump_quant_app::gate::GateReject;
use pump_quant_app::lane::RankLane;

#[test]
fn a_paper_seed_can_never_back_live_sizing() {
    let paper = BankrollOrigin::PaperSeed(5_000_000_000);
    let live = BankrollOrigin::LiveReconciled(7_000_000_000);
    assert_eq!(paper.seed_lamports(), 5_000_000_000);
    assert_eq!(live.seed_lamports(), 7_000_000_000);
    assert!(!paper.is_live_verified());
    assert!(live.is_live_verified());
    assert_eq!(paper.require_live_verified(), Err(BankrollOriginError::PaperSeedNotLive));
    assert_eq!(live.require_live_verified(), Ok(7_000_000_000));
    assert!(BankrollOriginError::PaperSeedNotLive.message().contains("paper/replay seed"));
    assert_ne!(RunMode::Paper, RunMode::Replay);
}

#[test]
fn the_probe_split_honours_the_floor() {
    // 20% probe of 1 SOL with a 0.1 SOL floor: 0.2 SOL now, 0.8 SOL later.
    assert_eq!(probe_scale_split(1_000_000_000, 2_000, 100_000_000), (200_000_000, 800_000_000));
    // A target in [floor, 2 x floor) opens as one bite.
    assert_eq!(probe_scale_split(150_000_000, 2_000, 100_000_000), (150_000_000, 0));
    // A tiny fraction is lifted to the floor.
    assert_eq!(probe_scale_split(1_000_000_000, 1, 100_000_000), (100_000_000, 900_000_000));
    // With the floor disabled the probe keeps a one-lamport minimum.
    assert_eq!(probe_scale_split(1_000, 0, 0), (1, 999));
    assert_eq!(probe_scale_split(0, 5_000, 0), (0, 0));
}

#[test]
fn the_reconciled_net_is_gross_minus_costs() {
    let mut a = ReconAccum::default();
    assert_eq!(a.net(), 0);
    a.add(&ReconTrade { gross_lamports: 1_000_000, fees: 5_000, tips: 1_000, failed_costs: 500 });
    a.add(&ReconTrade { gross_lamports: -200_000, fees: 5_000, tips: 0, failed_costs: 0 });
    assert_eq!(a.n, 2);
    assert_eq!(a.net(), 800_000 - 11_500);
}

#[test]
fn the_reconciled_net_saturates() {
    let mut a = ReconAccum::default();
    a.add(&ReconTrade { gross_lamports: i128::MIN, fees: 10, tips: 0, failed_costs: 0 });
    assert_eq!(a.net(), i128::MIN);
}

#[test]
fn the_sprt_p_proxy_is_monotone() {
    assert_eq!(sprt_llr_to_p_ppm(0), 900_000);
    assert_eq!(sprt_llr_to_p_ppm(-5), 900_000);
    assert_eq!(sprt_llr_to_p_ppm(100_000), 400_000);
    assert_eq!(sprt_llr_to_p_ppm(500_000), 1);
    assert_eq!(sprt_llr_to_p_ppm(i64::MAX), 1);
}

#[test]
fn reject_codes_are_stable_and_distinct() {
    let all = [
        GateReject::NeedsOnchainConfirmation,
        GateReject::NoNumericConfirmation,
        GateReject::EconomicallyUnviable,
        GateReject::OutsideMcapBand,
        GateReject::Tp1Unreachable,
        GateReject::ReentryCooldown,
    ];
    assert_eq!(reject_code(GateReject::NeedsOnchainConfirmation), 1);
    assert_eq!(reject_code(GateReject::NoNumericConfirmation), 2);
    assert_eq!(reject_code(GateReject::EconomicallyUnviable), 3);
    let mut seen: Vec<u8> = Vec::new();
    for r in all {
        let c = reject_code(r);
        assert!(!seen.contains(&c));
        seen.push(c);
    }
}

#[test]
fn lanes_route_to_their_evaluators() {
    assert_eq!(eval_lane_of(RankLane::CreationSniper), EvalLane::Early);
    assert_eq!(eval_lane_of(RankLane::EarlyConfirmation), EvalLane::Early);
    assert_eq!(eval_lane_of(RankLane::GraduationTransition), EvalLane::Scalp);
    assert_eq!(eval_lane_of(RankLane::ActiveMarketScalp), EvalLane::Scalp);
    assert_eq!(accum_index(EvalLane::Scalp), 0);
    assert_eq!(accum_index(EvalLane::Early), 1);
}

#[test]
fn decade_counts_digits() {
    assert_eq!(decade_u64(0), 0);
    assert_eq!(decade_u64(9), 1);
    assert_eq!(decade_u64(10), 2);
    assert_eq!(decade_u64(999_999_999), 9);
    assert_eq!(decade_u64(u64::MAX), 20);
}

#[test]
fn drawdown_ratchet_steps_down_by_tier() {
    let f = |balance: u64| dd_f_eff_bp(1_000, balance, 2_000, 100, 1_000, 2_000, 5_000);
    assert_eq!(f(1_000), 2_000, "at the high-water mark: full fraction");
    assert_eq!(f(5_000), 2_000, "above the mark: full fraction");
    assert_eq!(f(950), 2_000, "a 5% drawdown is below tier 1");
    assert_eq!(f(900), 1_000, "10% reaches tier 1: halved");
    assert_eq!(f(750), 500, "25% is past tier 2: quartered");
    assert_eq!(f(400), 100, "60% is past tier 3: probe only");
    assert_eq!(dd_f_eff_bp(0, 0, 2_000, 100, 1_000, 2_000, 5_000), 100, "a zero mark is floored at one lamport");
}

#[test]
fn size_haircut_composes_reduce_only_fades() {
    assert_eq!(size_haircut_bps(None, 5_000, None, None), 10_000);
    assert_eq!(size_haircut_bps(Some(5_000), 5_000, None, None), 10_000, "at the bar: no fade");
    assert_eq!(size_haircut_bps(Some(7_500), 5_000, None, None), 7_500);
    assert_eq!(size_haircut_bps(Some(10_000), 5_000, None, None), 5_000);
    assert_eq!(size_haircut_bps(Some(20_000), 5_000, None, None), 5_000, "the creator fade is capped");
    assert_eq!(size_haircut_bps(Some(10_001), 10_000, None, None), 5_000);
    assert_eq!(size_haircut_bps(Some(7_500), 5_000, Some(-2_000), None), 6_000);
    assert_eq!(size_haircut_bps(Some(7_500), 5_000, Some(2_000), None), 7_500, "a positive adjustment never fades");
    assert_eq!(size_haircut_bps(Some(7_500), 5_000, Some(-2_000), Some(5_000)), 3_000);
    assert_eq!(size_haircut_bps(None, 0, Some(i64::MIN), None), 0);
    assert_eq!(size_haircut_bps(None, 0, None, Some(20_000)), 10_000, "capped at the identity");
}

#[test]
fn conditional_edge_pools_toward_the_prior() {
    assert_eq!(conditional_edge_bps(300, 0, 0, 5), 300, "cold start reads the prior");
    assert_eq!(conditional_edge_bps(300, 9_999, 4, 5), 300, "below the trade minimum: still the prior");
    assert_eq!(conditional_edge_bps(300, 2_000, 5, 5), 350);
    assert_eq!(conditional_edge_bps(300, -5_000, 5, 5), -350);
    assert_eq!(conditional_edge_bps(100, 500, 1, 0), 300, "a zero gate counts as one pseudo-trade");
    assert_eq!(conditional_edge_bps(0, -15, 5, 5), -1, "rounds toward zero");
}

#[test]
fn meta_rank_scales_and_clamps_the_score() {
    assert_eq!(meta_ranked_score(1_000, 0), 1_000);
    assert_eq!(meta_ranked_score(1_000, -2_500), 750);
    assert_eq!(meta_ranked_score(1_000, -20_000), 0, "a haircut zeroes but never inverts");
    assert_eq!(meta_ranked_score(1_000, 5_000), 1_500);
    assert_eq!(meta_ranked_score(u64::MAX, 0), u64::MAX);
    assert_eq!(meta_ranked_score(u64::MAX, 10_000), u64::MAX - 1, "the product is read back as a u64");
}

#[test]
fn meta_rotation_adjustment_rules() {
    assert_eq!(meta_rank_adjustment(true, false, true, 400, 300), Some(400));
    assert_eq!(meta_rank_adjustment(true, false, false, 400, 300), Some(200), "on-chain alone earns half");
    assert_eq!(meta_rank_adjustment(true, true, false, 1, 300), None, "a zero bonus records nothing");
    assert_eq!(meta_rank_adjustment(false, true, false, 400, 300), Some(-300));
    assert_eq!(meta_rank_adjustment(false, true, true, 400, 0), None);
    assert_eq!(meta_rank_adjustment(false, false, true, 400, 300), None);
}

#[test]
fn veto_counterfactual_is_signed_by_structure() {
    assert_eq!(veto_counterfactual_bps(Some(420), false, 300), 420, "upside forgone");
    assert_eq!(veto_counterfactual_bps(Some(420), true, 300), -420, "loss avoided");
    assert_eq!(veto_counterfactual_bps(None, true, 300), -300, "no bars: the expected move");
    assert_eq!(veto_counterfactual_bps(Some(0), false, 300), 300, "a flat tape is no measurement");
    assert_eq!(veto_counterfactual_bps(Some(-5), false, 300), 300);
    assert_eq!(veto_counterfactual_bps(Some(i128::MAX), false, 300), i64::MAX);
}
