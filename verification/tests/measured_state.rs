use pump_quant_app::measured_state::{clamp_i64_i128, interval_sample, MeasuredState, MetaTotals};

#[test]
fn an_interval_with_no_flow_is_not_a_measurement() {
    let mut m = MeasuredState::new();
    let totals = MetaTotals { unique_creators: 3, buy_quote: 100, sell_quote: 50, buy_count: 2, sell_count: 1 };
    assert!(m.record_meta_interval(1, 10, totals).is_some());
    assert!(m.record_meta_interval(1, 20, totals).is_none());
}

#[test]
fn the_chain_slot_cursor_is_monotone() {
    let mut m = MeasuredState::new();
    m.observe_slot(50);
    m.observe_slot(10);
    assert_eq!(m.chain_slot(), 50, "a late lower slot never rewinds time");
}

#[test]
fn cumulative_totals_are_differenced_per_category() {
    let mut m = MeasuredState::new();
    let rounds: &[(u64, u64, u128, u128, u64, u64)] = &[
        (10, 10, 10_000, 4_000, 40, 20),
        (20, 25, 40_000, 12_000, 140, 60),
        (30, 27, 42_000, 30_000, 150, 130),
        (40, 27, 42_500, 42_000, 152, 200),
    ];
    let mut samples = Vec::new();
    for &(slot, creators, buy, sell, bc, sc) in rounds {
        let s = m
            .record_meta_interval(5, slot, MetaTotals { unique_creators: creators, buy_quote: buy, sell_quote: sell, buy_count: bc, sell_count: sc })
            .expect("flow moved");
        samples.push((s.participation, s.attention, s.realized_outcome_bps));
    }
    // (10000-4000)*10000/14000 = 4285; (30000-8000)*10000/38000 = 5789;
    // (2000-18000)*10000/20000 = -8000; (500-12000)*10000/12500 = -9200.
    assert_eq!(samples, vec![(10, 60, 4_285), (15, 140, 5_789), (2, 80, -8_000), (0, 72, -9_200)]);
    // Another category starts from zero.
    let other = m.record_meta_interval(6, 1, MetaTotals { unique_creators: 1, buy_quote: 0, sell_quote: 10, buy_count: 0, sell_count: 1 });
    assert_eq!(other.map(|s| s.realized_outcome_bps), Some(-10_000));
}

#[test]
fn totals_that_fall_back_read_as_no_flow() {
    let prev = MetaTotals { unique_creators: 9, buy_quote: 100, sell_quote: 100, buy_count: 5, sell_count: 5 };
    let now = MetaTotals { unique_creators: 3, buy_quote: 50, sell_quote: 60, buy_count: 1, sell_count: 1 };
    assert_eq!(interval_sample(prev, now, 7), None);
    assert_eq!(now.events(), 2);
    assert_eq!(MetaTotals { unique_creators: 0, buy_quote: 0, sell_quote: 0, buy_count: u64::MAX, sell_count: 1 }.events(), u64::MAX);
}

#[test]
fn narrowing_clamps_instead_of_wrapping() {
    assert_eq!(clamp_i64_i128(i128::MAX), i64::MAX);
    assert_eq!(clamp_i64_i128(i128::MIN), i64::MIN);
    assert_eq!(clamp_i64_i128(-5), -5);
}
