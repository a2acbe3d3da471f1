use pump_quant_app::expected_move::{band_of, band_of_vsol, MoveParams, MoveTable, MoveUnknown, MoveVerdict};
use pump_quant_app::{curve_progress_bps, GRADUATION_VSOL_LAMPORTS, LAUNCH_VSOL_LAMPORTS};

const P: MoveParams = MoveParams { min_sample: 30, prior_weight: 30, prior_bps: 1_800 };

#[test]
fn the_shipped_table_refuses_everywhere() {
    let t = MoveTable::empty();
    assert!(t.is_empty());
    assert_eq!(t.total_n(), 0);
    for vsol in [30_000_000_000u64, 61_740_908_643, 92_038_689_690, 115_005_359_056] {
        assert_eq!(
            t.estimate(vsol, P),
            MoveVerdict::Unknown(MoveUnknown::EmptyTable),
            "an uncalibrated estimator must never produce a number"
        );
        assert_eq!(t.estimate(vsol, P).known_bps(), None);
    }
}

#[test]
fn a_thin_stratum_refuses_and_reports_its_thinness() {
    let mut t = MoveTable::empty();
    for _ in 0..29 {
        t.record(curve_progress_bps(61_740_908_643), 500);
    }
    match t.estimate(61_740_908_643, P) {
        MoveVerdict::Unknown(MoveUnknown::BelowSampleFloor { n, need }) => {
            assert_eq!((n, need), (29, 30));
        }
        other => panic!("expected a refusal, got {other:?}"),
    }
    t.record(curve_progress_bps(61_740_908_643), 500);
    assert!(t.estimate(61_740_908_643, P).known_bps().is_some());
}

#[test]
fn shrinkage_is_hierarchical_and_exactly_halfway_at_n_equals_k() {
    let mut t = MoveTable::empty();
    let prog = curve_progress_bps(61_740_908_643);
    for _ in 0..30 {
        t.record(prog, 200);
    }
    let e = match t.estimate(61_740_908_643, P) {
        MoveVerdict::Known(e) => e,
        other => panic!("expected an estimate, got {other:?}"),
    };
    assert_eq!(e.n, 30);
    assert_eq!(e.bps, (200 + 1_800) / 2, "n == k must land exactly halfway");
}

#[test]
fn a_losing_stratum_estimates_zero_and_cannot_clear_any_cost() {
    let mut t = MoveTable::empty();
    let prog = curve_progress_bps(45_000_000_000);
    for _ in 0..300 {
        t.record(prog, -4_000);
    }
    let e = match t.estimate(45_000_000_000, P) {
        MoveVerdict::Known(e) => e,
        other => panic!("expected an estimate, got {other:?}"),
    };
    assert_eq!(e.bps, 0, "a losing stratum must not report a positive move");
    assert!(e.bps < 300);
}

#[test]
fn strata_do_not_leak_into_one_another() {
    let mut t = MoveTable::empty();
    let early = curve_progress_bps(35_000_000_000);
    for _ in 0..100 {
        t.record(early, 9_000);
    }
    assert!(t.estimate(35_000_000_000, P).known_bps().is_some());
    match t.estimate(92_038_689_690, P) {
        MoveVerdict::Unknown(MoveUnknown::BelowSampleFloor { n, .. }) => assert_eq!(n, 0),
        other => panic!("a neighbouring band must not borrow evidence: {other:?}"),
    }
}

#[test]
fn bands_partition_the_curve_and_graduation_is_its_own_stratum() {
    assert_eq!(band_of(0), 0);
    assert_eq!(band_of(1_249), 0);
    assert_eq!(band_of(1_250), 1);
    assert_eq!(band_of(9_999), 7);
    assert_eq!(band_of(10_000), 8, "graduation is its own stratum");
    assert_eq!(band_of(u32::MAX), 8);
    assert_eq!(band_of_vsol(LAUNCH_VSOL_LAMPORTS), 0);
    assert_eq!(band_of_vsol(GRADUATION_VSOL_LAMPORTS), 8);
    assert_eq!(band_of_vsol(61_740_908_643), 2, "$9k sits in stratum 2 (37% of curve)");
    assert_eq!(band_of_vsol(92_038_689_690), 5, "$20k sits in stratum 5 (72% of curve)");
}

#[test]
fn state_is_bounded_under_unbounded_recording() {
    let mut t = MoveTable::empty();
    for i in 0..50_000u32 {
        t.record(i % 12_000, i64::from(i % 700) - 350);
    }
    assert_eq!(core::mem::size_of_val(&t), core::mem::size_of::<MoveTable>());
    assert_eq!(t.total_n(), 50_000);
}

#[test]
fn the_shrunk_estimate_sits_between_evidence_and_prior() {
    let mut t = MoveTable::empty();
    let prog = curve_progress_bps(61_740_908_643);
    for _ in 0..90 {
        t.record(prog, 1_000);
    }
    // (90 * 1000 + 30 * 1800) / 120 = 1200
    assert_eq!(t.estimate(61_740_908_643, P).known_bps(), Some(1_200));
    assert_eq!(t.cell(2).n, 90);
    assert_eq!(t.cell(2).sum_bps, 90_000);
}

#[test]
fn curve_progress_is_linear_and_clamped() {
    assert_eq!(curve_progress_bps(LAUNCH_VSOL_LAMPORTS), 0);
    assert_eq!(curve_progress_bps(0), 0);
    assert_eq!(curve_progress_bps(GRADUATION_VSOL_LAMPORTS), 10_000);
    assert_eq!(curve_progress_bps(u64::MAX), 10_000);
}
