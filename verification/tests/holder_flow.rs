use pump_quant_app::holder_flow::{HolderCountBasis, HolderFlow, HOLDER_SAMPLE_INTERVAL_TICKS};

const M: [u8; 32] = [7u8; 32];

#[test]
fn basis_lattice_is_monotone_toward_less_confidence() {
    assert_eq!(HolderCountBasis::Exact.worst(HolderCountBasis::DeltaOnly), HolderCountBasis::DeltaOnly);
    assert_eq!(HolderCountBasis::Incomplete.worst(HolderCountBasis::Exact), HolderCountBasis::Incomplete);
    assert!(HolderCountBasis::Exact.admits_level());
    assert!(!HolderCountBasis::DeltaOnly.admits_level());
    assert!(HolderCountBasis::DeltaOnly.admits_growth());
    assert!(!HolderCountBasis::Incomplete.admits_growth());
}

#[test]
fn buy_then_full_sell_is_plus_one_then_minus_one() {
    let mut hf = HolderFlow::new();
    hf.note_creation(&M, 0);
    assert_eq!(hf.observe_swap(&M, 1, 100, 0, 0).delta, 1);
    assert_eq!(hf.reading(&M).and_then(|r| r.level()), Some(1));
    assert_eq!(hf.observe_swap(&M, 1, -40, 1, 400_000_000).delta, 0);
    assert_eq!(hf.reading(&M).and_then(|r| r.level()), Some(1));
    assert_eq!(hf.observe_swap(&M, 1, -60, 2, 800_000_000).delta, -1);
    assert_eq!(hf.reading(&M).and_then(|r| r.level()), Some(0));
}

#[test]
fn a_mint_first_seen_mid_life_is_delta_only_and_has_no_level() {
    let mut hf = HolderFlow::new();
    hf.observe_swap(&M, 1, 100, 0, 0);
    let r = hf.reading(&M).expect("tracked");
    assert_eq!(r.basis(), HolderCountBasis::DeltaOnly);
    assert_eq!(r.level(), None);
    assert_eq!(r.lower_bound(), 1);
    assert_eq!(r.growth_level(), Some(1));
}

#[test]
fn a_sell_from_an_unknown_entity_is_an_unattributed_exit() {
    let mut hf = HolderFlow::new();
    hf.note_creation(&M, 0);
    let f = hf.observe_swap(&M, 9, -50, 0, 0);
    assert_eq!(f.delta, 0);
    let r = hf.reading(&M).expect("tracked");
    assert_eq!(r.unattributed_exits(), 1);
    assert_ne!(r.basis(), HolderCountBasis::Exact);
}

#[test]
fn the_entity_cap_truncates_and_the_basis_becomes_incomplete() {
    let mut hf = HolderFlow::with_caps(4, 2);
    hf.note_creation(&M, 0);
    hf.observe_swap(&M, 1, 10, 0, 0);
    hf.observe_swap(&M, 2, 10, 0, 0);
    let f = hf.observe_swap(&M, 3, 10, 0, 0);
    assert!(f.truncated);
    let r = hf.reading(&M).expect("tracked");
    assert_eq!(r.basis(), HolderCountBasis::Incomplete);
    assert_eq!(r.truncated(), 1);
    assert_eq!(r.entities_tracked(), 2);
    assert_eq!(r.growth_level(), None);
}

#[test]
fn the_mint_table_is_bounded_and_counts_evictions() {
    let mut hf = HolderFlow::with_caps(3, 8);
    for i in 0..10u8 {
        let mut m = [0u8; 32];
        m[0] = i;
        hf.observe_swap(&m, 1, 10, u64::from(i), 0);
    }
    assert_eq!(hf.len(), 3);
    assert_eq!(hf.evictions(), 7);
    assert!(!hf.is_empty());
    assert_eq!(hf.entity_cap(), 8);
}

#[test]
fn samples_fire_on_the_cadence() {
    let mut hf = HolderFlow::new();
    hf.note_creation(&M, 0);
    let first = hf.observe_swap(&M, 1, 10, 0, 0);
    assert_eq!(first.sample, Some(1));
    let soon = hf.observe_swap(&M, 2, 10, 1, 0);
    assert_eq!(soon.sample, None);
    let later = hf.observe_swap(&M, 3, 10, HOLDER_SAMPLE_INTERVAL_TICKS, 0);
    assert_eq!(later.sample, Some(3));
}
