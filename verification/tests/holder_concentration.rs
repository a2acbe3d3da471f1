use pump_quant_app::holder_concentration::{
    concentration_of, internal_concentration_of, ConcentrationRisk, ConcentrationTrajectoryPlane,
    ConcentrationUnknown, InternalConcentration, InternalUnknown, InternalVerdict, TrajectoryReading, TrajectoryUnknown, FLIP_RATIO_NEUTRAL_BPS,
    FLIP_TOLERANCE_BPS, HOLDER_MIN_INTERVAL_NS, MIN_ENTITIES_FOR_SHAPE, WHALE_DOMINANCE_VETO_BPS,
};
use pump_quant_app::holder_flow::{HolderCountBasis, HolderFlow, SNIPER_SLOT_WINDOW};

const M: [u8; 32] = [9u8; 32];

fn equal_ledger(n: u64) -> HolderFlow {
    let mut hf = HolderFlow::new();
    hf.note_creation(&M, 0);
    for e in 0..n {
        hf.observe_swap_aged(&M, e, 1_000, 0, 0, Some(100));
    }
    hf
}

#[test]
fn equal_distribution_scores_zero_internal_inequality() {
    let hf = equal_ledger(40);
    let v = concentration_of(&hf, &M);
    let m = v.metrics().expect("Exact basis, 40 entities");
    assert_eq!(m.holders, 40);
    assert_eq!(m.top10_share_bps, 2_500);
    assert_eq!(m.hhi_normalized_bps, 0);
    assert_eq!(m.whale_dominance_bps, 0);
    assert_eq!(m.flip_ratio_bps, FLIP_RATIO_NEUTRAL_BPS);
    assert_eq!(m.risk(true), ConcentrationRisk::Clear);
}

#[test]
fn a_whale_lifts_dominance_and_the_risk_tier() {
    let mut hf = equal_ledger(30);
    hf.observe_swap_aged(&M, 0, 200_000, 0, 0, Some(100));
    let v = concentration_of(&hf, &M);
    let m = v.metrics().expect("Exact basis");
    assert!(m.top1_share_bps > 8_000, "top1 = {}", m.top1_share_bps);
    assert!(m.whale_dominance_bps >= WHALE_DOMINANCE_VETO_BPS);
    assert_eq!(m.risk(true), ConcentrationRisk::Veto);
    assert_eq!(m.risk(false), ConcentrationRisk::Haircut);
}

#[test]
fn delta_only_basis_refuses_with_no_estimate() {
    let mut hf = HolderFlow::new();
    for e in 0..40u64 {
        hf.observe_swap_aged(&M, e, 1_000, 0, 0, Some(100));
    }
    let v = concentration_of(&hf, &M);
    assert!(!v.is_known());
    assert_eq!(v.metrics(), None);
    assert_eq!(v.unknown_reason(), Some(ConcentrationUnknown::DeltaOnlyBasis));
    assert_eq!(v.risk_or_clear(true), ConcentrationRisk::Clear);
    assert_eq!(v.screen_concentration_bps(), 0);
}

#[test]
fn bundle_and_sniper_cohorts_are_classified_by_slot() {
    let mut hf = HolderFlow::new();
    hf.note_creation(&M, 0);
    for e in 0..5u64 {
        hf.observe_swap_aged(&M, e, 1_000, 0, 0, Some(0));
    }
    for e in 5..9u64 {
        hf.observe_swap_aged(&M, e, 1_000, 0, 0, Some(SNIPER_SLOT_WINDOW));
    }
    for e in 9..25u64 {
        hf.observe_swap_aged(&M, e, 1_000, 0, 0, Some(500));
    }
    let v = concentration_of(&hf, &M);
    let m = v.metrics().expect("Exact basis");
    assert_eq!(m.bundle_entities, 5);
    assert_eq!(m.sniper_entities, 4);
    assert_eq!(m.bundle_suspect_count, 9);
    assert_eq!(m.aged_first_buys, 25);
}

#[test]
fn a_swap_with_no_slot_evidence_classifies_nobody() {
    let mut hf = HolderFlow::new();
    hf.note_creation(&M, 0);
    for e in 0..25u64 {
        hf.observe_swap(&M, e, 1_000, 0, 0);
    }
    let v = concentration_of(&hf, &M);
    let m = v.metrics().expect("Exact basis");
    assert_eq!(m.bundle_suspect_count, 0, "unknown age is not slot 0");
    assert_eq!(m.aged_first_buys, 0);
}

#[test]
fn flip_ratio_rises_with_round_trip_churn() {
    let mut hf = HolderFlow::new();
    hf.note_creation(&M, 0);
    for e in 0..25u64 {
        hf.observe_swap_aged(&M, e, 1_000, 0, 0, Some(100));
    }
    let hold = concentration_of(&hf, &M).metrics().map(|m| m.flip_ratio_bps).unwrap_or_default();
    for _ in 0..4 {
        for e in 0..25u64 {
            hf.observe_swap_aged(&M, e, 5_000, 0, 0, Some(100));
            hf.observe_swap_aged(&M, e, -5_000, 0, 0, Some(100));
        }
    }
    let churn = concentration_of(&hf, &M).metrics().map(|m| m.flip_ratio_bps).unwrap_or_default();
    assert_eq!(hold, FLIP_RATIO_NEUTRAL_BPS);
    assert!(churn > FLIP_TOLERANCE_BPS, "churned flip ratio = {churn}");
}

#[test]
fn thin_ledger_refuses_rather_than_reading_a_trivial_hundred_percent() {
    let hf = equal_ledger(u64::from(MIN_ENTITIES_FOR_SHAPE) - 1);
    let v = concentration_of(&hf, &M);
    assert_eq!(v.unknown_reason(), Some(ConcentrationUnknown::ThinLedger));
}

#[test]
fn every_risk_tier_is_reduce_only() {
    assert_eq!(ConcentrationRisk::Clear.size_mult_bp(), 10_000);
    for tier in [ConcentrationRisk::Haircut, ConcentrationRisk::Veto] {
        assert!(tier.size_mult_bp() < 10_000, "{tier:?} must reduce");
    }
}

#[test]
fn the_internal_statistic_reads_where_the_level_refuses() {
    let mut exact = HolderFlow::new();
    exact.note_creation(&M, 0);
    let mut delta = HolderFlow::new();
    for e in 0..40u64 {
        exact.observe_swap_aged(&M, e, 1_000, 0, 0, Some(100));
        delta.observe_swap_aged(&M, e, 1_000, 0, 0, Some(100));
    }
    assert!(concentration_of(&exact, &M).is_known());
    assert_eq!(
        concentration_of(&delta, &M).unknown_reason(),
        Some(ConcentrationUnknown::DeltaOnlyBasis),
        "a float share needs an Exact basis"
    );
    let a = internal_concentration_of(&exact, &M).reading().expect("exact");
    let b = internal_concentration_of(&delta, &M).reading().expect("delta-only is admitted for a derivative");
    assert_eq!(a, b);
    assert_eq!(a.hhi_normalized_bps, 0, "forty equal holders");
    assert_eq!(a.holders, 40);
}

#[test]
fn a_truncated_ledger_refuses_even_the_internal_statistic() {
    let mut hf = HolderFlow::with_caps(4, 25);
    hf.note_creation(&M, 0);
    for e in 0..40u64 {
        hf.observe_swap_aged(&M, e, 1_000, 0, 0, Some(100));
    }
    assert_eq!(internal_concentration_of(&hf, &M).unknown_reason(), Some(InternalUnknown::IncompleteBasis));
    assert_eq!(internal_concentration_of(&hf, &M).reading(), None);
}

#[test]
fn the_internal_statistic_moves_with_the_shape_not_the_size() {
    let mut hf = HolderFlow::new();
    for e in 0..30u64 {
        hf.observe_swap_aged(&M, e, 1_000, 0, 0, Some(100));
    }
    let flat = internal_concentration_of(&hf, &M).reading().expect("readable").hhi_normalized_bps;
    hf.observe_swap_aged(&M, 0, 500_000, 1, 1_000_000_000, Some(100));
    let whale = internal_concentration_of(&hf, &M).reading().expect("readable").hhi_normalized_bps;
    assert!(whale > flat, "{whale} must exceed {flat}");
    for e in 30..60u64 {
        hf.observe_swap_aged(&M, e, 20_000, 2, 2_000_000_000, Some(100));
    }
    let diluted = internal_concentration_of(&hf, &M).reading().expect("readable").hhi_normalized_bps;
    assert!(diluted < whale, "{diluted} must fall back below {whale}");
}

#[test]
fn the_trajectory_plane_is_bounded_and_evicts_deterministically() {
    let mut plane = ConcentrationTrajectoryPlane::with_capacity(3);
    let reading = InternalVerdict::Known(InternalConcentration { hhi_normalized_bps: 100, holders: 30 });
    for i in 0..10u8 {
        let mut m = [0u8; 32];
        m[0] = i;
        plane.observe(&m, reading, u64::from(i), u64::from(i) * 1_000);
    }
    assert_eq!(plane.len(), 3, "hard bound");
    assert_eq!(plane.evictions(), 7);
    let mut again = ConcentrationTrajectoryPlane::with_capacity(3);
    for i in 0..10u8 {
        let mut m = [0u8; 32];
        m[0] = i;
        again.observe(&m, reading, u64::from(i), u64::from(i) * 1_000);
    }
    assert_eq!(plane.keys(), again.keys());
}

#[test]
fn a_refused_reading_is_not_sampled() {
    let mut plane = ConcentrationTrajectoryPlane::new();
    plane.observe(&M, InternalVerdict::Unknown(InternalUnknown::ThinLedger), 0, 0);
    assert!(plane.is_empty());
    assert_eq!(plane.rate_as_of(&M, 0), None);
}

#[test]
fn one_sample_has_no_rate() {
    let mut hf = HolderFlow::new();
    for e in 0..30u64 {
        hf.observe_swap_aged(&M, e, 1_000, 0, 0, Some(100));
    }
    let mut plane = ConcentrationTrajectoryPlane::new();
    plane.observe(&M, internal_concentration_of(&hf, &M), 0, 0);
    assert_eq!(plane.len(), 1);
    assert_eq!(plane.rate_as_of(&M, 0), None);
}

#[test]
fn a_whale_taking_over_reads_a_positive_rate() {
    let mut hf = HolderFlow::new();
    for e in 0..30u64 {
        hf.observe_swap_aged(&M, e, 1_000, 0, 0, Some(100));
    }
    let mut plane = ConcentrationTrajectoryPlane::new();
    plane.observe(&M, internal_concentration_of(&hf, &M), 0, 0);
    let t1 = 60 * HOLDER_MIN_INTERVAL_NS;
    hf.observe_swap_aged(&M, 0, 500_000, 1, t1, Some(100));
    plane.observe(&M, internal_concentration_of(&hf, &M), 1, t1);
    assert!(plane.rate_as_of(&M, t1).unwrap_or(0) > 0);
}

#[test]
fn a_crowd_arriving_reads_a_negative_rate() {
    let mut hf = HolderFlow::new();
    hf.observe_swap_aged(&M, 0, 1_000_000, 0, 0, Some(100));
    for e in 1..30u64 {
        hf.observe_swap_aged(&M, e, 100, 0, 0, Some(100));
    }
    let mut plane = ConcentrationTrajectoryPlane::new();
    plane.observe(&M, internal_concentration_of(&hf, &M), 0, 0);
    let t1 = 60 * HOLDER_MIN_INTERVAL_NS;
    for e in 30..120u64 {
        hf.observe_swap_aged(&M, e, 40_000, 1, t1, Some(100));
    }
    plane.observe(&M, internal_concentration_of(&hf, &M), 1, t1);
    assert!(plane.rate_as_of(&M, t1).unwrap_or(0) < 0);
}

#[test]
fn trajectory_refusals_name_their_reason() {
    let mut hf = HolderFlow::new();
    for e in 0..30u64 {
        hf.observe_swap_aged(&M, e, 1_000, 0, 0, Some(100));
    }
    let mut plane = ConcentrationTrajectoryPlane::new();
    assert_eq!(plane.trajectory_as_of(&M, None, 0), TrajectoryReading::Unknown(TrajectoryUnknown::Untracked));
    assert_eq!(
        plane.trajectory_as_of(&M, Some(HolderCountBasis::Incomplete), 0),
        TrajectoryReading::Unknown(TrajectoryUnknown::IncompleteBasis)
    );
    assert_eq!(
        plane.trajectory_as_of(&M, Some(HolderCountBasis::DeltaOnly), 0),
        TrajectoryReading::Unknown(TrajectoryUnknown::ThinLedger)
    );
    plane.observe(&M, internal_concentration_of(&hf, &M), 0, 0);
    assert_eq!(
        plane.trajectory_as_of(&M, Some(HolderCountBasis::DeltaOnly), 0),
        TrajectoryReading::Unknown(TrajectoryUnknown::InsufficientHistory),
        "one sample is not a trajectory"
    );
}

#[test]
fn a_delta_only_ledger_reads_a_concentrating_rate() {
    let mut hf = HolderFlow::new();
    for e in 0..30u64 {
        hf.observe_swap_aged(&M, e, 1_000, 0, 0, Some(100));
    }
    let basis = hf.reading(&M).map(|r| r.basis());
    assert_eq!(basis, Some(HolderCountBasis::DeltaOnly));
    let mut plane = ConcentrationTrajectoryPlane::new();
    plane.observe(&M, internal_concentration_of(&hf, &M), 0, 0);
    let t1 = 60 * HOLDER_MIN_INTERVAL_NS;
    hf.observe_swap_aged(&M, 0, 500_000, 1, t1, Some(100));
    plane.observe(&M, internal_concentration_of(&hf, &M), 1, t1);
    match plane.trajectory_as_of(&M, basis, t1) {
        TrajectoryReading::Known { rate_bps_per_min } => {
            assert!(rate_bps_per_min > 0);
            assert_eq!(Some(rate_bps_per_min), plane.rate_as_of(&M, t1));
        }
        other => panic!("expected a trajectory, got {other:?}"),
    }
}

#[test]
fn one_sample_is_not_a_trajectory() {
    let mut hf = HolderFlow::new();
    for e in 0..30u64 {
        hf.observe_swap_aged(&M, e, 1_000, 0, 0, Some(100));
    }
    let mut plane = ConcentrationTrajectoryPlane::new();
    plane.observe(&M, internal_concentration_of(&hf, &M), 0, 0);
    let t = plane.trajectory_as_of(&M, Some(HolderCountBasis::DeltaOnly), 0);
    assert_eq!(t.unknown_reason(), Some(TrajectoryUnknown::InsufficientHistory));
    assert_eq!(t.rate_bps(), None, "a refusal carries no direction");
}

#[test]
fn a_delta_only_ledger_yields_a_concentrating_trajectory() {
    let mut hf = HolderFlow::new();
    for e in 0..30u64 {
        hf.observe_swap_aged(&M, e, 1_000, 0, 0, Some(100));
    }
    let mut plane = ConcentrationTrajectoryPlane::new();
    plane.observe(&M, internal_concentration_of(&hf, &M), 0, 0);
    let t1 = 60 * HOLDER_MIN_INTERVAL_NS;
    hf.observe_swap_aged(&M, 0, 500_000, 1, t1, Some(100));
    plane.observe(&M, internal_concentration_of(&hf, &M), 1, t1);
    assert_eq!(
        hf.reading(&M).map(|r| r.basis()),
        Some(HolderCountBasis::DeltaOnly),
        "the premise: this is the basis a float share refuses"
    );
    let t = plane.trajectory_as_of(&M, Some(HolderCountBasis::DeltaOnly), t1);
    assert!(t.rate_bps().unwrap_or(0) > 0, "concentrating: {t:?}");
    assert!(plane.rate_as_of(&M, t1).unwrap_or(0) > 0);
}

#[test]
fn the_dispersing_direction_is_reachable() {
    let mut hf = HolderFlow::new();
    hf.observe_swap_aged(&M, 0, 1_000_000, 0, 0, Some(100));
    for e in 1..30u64 {
        hf.observe_swap_aged(&M, e, 100, 0, 0, Some(100));
    }
    let mut plane = ConcentrationTrajectoryPlane::new();
    plane.observe(&M, internal_concentration_of(&hf, &M), 0, 0);
    let t1 = 60 * HOLDER_MIN_INTERVAL_NS;
    for e in 30..120u64 {
        hf.observe_swap_aged(&M, e, 40_000, 1, t1, Some(100));
    }
    plane.observe(&M, internal_concentration_of(&hf, &M), 1, t1);
    let t = plane.trajectory_as_of(&M, Some(HolderCountBasis::DeltaOnly), t1);
    assert!(t.rate_bps().unwrap_or(0) < 0, "dispersing: {t:?}");
    assert!(plane.rate_as_of(&M, t1).unwrap_or(0) < 0);
}
