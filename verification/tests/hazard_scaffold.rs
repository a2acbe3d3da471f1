use pump_quant_app::hazard_scaffold::{
    cell_hazard, CellEstimate, CellKey, HazardAccum, HazardScaffold, HazardSource, Phase, PhaseParent, ShrinkError,
};

fn cell(archetype: u16, phase: Phase) -> CellKey {
    CellKey { archetype, phase, catalyst: 0, regime: 0 }
}

#[test]
fn below_min_sample_defaults_to_baseline() {
    let mut h = HazardScaffold::new();
    h.record_fill(cell(1, Phase::Curve), true);
    h.record_fill(cell(1, Phase::Curve), false);
    let est = h.cell_hazard(cell(1, Phase::Curve), 8, 10, 3_000).expect("same-phase parent never mismatches");
    assert_eq!(est.source, HazardSource::Baseline);
    assert_eq!(est.value_bps, 3_000, "starved cell defaults to baseline");
    assert_eq!(est.effective_sample, 2);
}

#[test]
fn at_min_sample_uses_shrunk_estimate() {
    let mut h = HazardScaffold::new();
    for _ in 0..10 {
        h.record_fill(cell(2, Phase::Pool), true);
    }
    let est = h.cell_hazard(cell(2, Phase::Pool), 8, 10, 3_000).expect("same-phase parent never mismatches");
    assert_eq!(est.source, HazardSource::Shrunk);
    assert_eq!(est.value_bps, 10_000);
}

#[test]
fn curve_and_pool_are_never_pooled() {
    let mut h = HazardScaffold::new();
    for _ in 0..20 {
        h.record_fill(cell(7, Phase::Curve), true);
    }
    for _ in 0..20 {
        h.record_fill(cell(7, Phase::Pool), false);
    }
    let curve = h.cell_hazard(cell(7, Phase::Curve), 8, 10, 5_000).unwrap();
    let pool = h.cell_hazard(cell(7, Phase::Pool), 8, 10, 5_000).unwrap();
    assert_eq!(curve.value_bps, 10_000, "curve hazard is not diluted by pool");
    assert_eq!(pool.value_bps, 0, "pool hazard is not inflated by curve");
    assert_ne!(curve.value_bps, pool.value_bps);
}

#[test]
fn starved_cell_shrinks_toward_its_own_phase_parent_only() {
    let mut h = HazardScaffold::new();
    for _ in 0..50 {
        h.record_fill(cell(3, Phase::Curve), true);
    }
    for _ in 0..10 {
        h.record_fill(cell(3, Phase::Pool), false);
    }
    let pool = h.cell_hazard(cell(3, Phase::Pool), 8, 10, 5_000).unwrap();
    assert!(pool.value_bps < 5_000, "pool cell must not inherit curve hazard mass");
}

#[test]
fn untracked_cell_defaults_to_baseline() {
    let h = HazardScaffold::new();
    let est = h.cell_hazard(cell(9, Phase::Curve), 8, 10, 4_200).unwrap();
    assert_eq!(est.source, HazardSource::Baseline);
    assert_eq!(est.value_bps, 4_200);
    assert_eq!(est.effective_sample, 0);
}

#[test]
fn the_estimator_refuses_a_cross_phase_shrink() {
    let c = CellEstimate { phase: Phase::Curve, est_bps: 5_000, n: 20 };
    let p = PhaseParent { phase: Phase::Pool, est_bps: 1_000, n: 20 };
    assert_eq!(cell_hazard(&c, &p, 8, 10, 3_000), Err(ShrinkError::PhaseMismatch));
}

#[test]
fn the_shrunk_estimate_is_the_pseudo_count_mean() {
    let c = CellEstimate { phase: Phase::Curve, est_bps: 6_000, n: 12 };
    let p = PhaseParent { phase: Phase::Curve, est_bps: 1_000, n: 100 };
    // (12 * 6000 + 8 * 1000) / 20 = 4000
    let e = cell_hazard(&c, &p, 8, 10, 3_000).unwrap();
    assert_eq!(e.value_bps, 4_000);
    assert_eq!(e.source, HazardSource::Shrunk);
    assert_eq!(e.effective_sample, 12);
}

#[test]
fn the_event_rate_is_in_bps() {
    assert_eq!(HazardAccum { n: 0, events: 0 }.est_bps(), 0);
    assert_eq!(HazardAccum { n: 4, events: 1 }.est_bps(), 2_500);
    assert_eq!(HazardAccum { n: 3, events: 3 }.est_bps(), 10_000);
}

#[test]
fn the_cell_table_is_bounded() {
    let mut h = HazardScaffold::new();
    for a in 0..(4_096u32 + 20) {
        h.record_fill(CellKey { archetype: (a % 65_536) as u16, phase: Phase::Curve, catalyst: (a / 65_536) as u16, regime: 0 }, false);
    }
    assert_eq!(h.cells_tracked(), 4_096);
}
