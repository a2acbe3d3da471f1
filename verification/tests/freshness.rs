use pump_quant_app::freshness::{check_freshness, DecisionClock, StalenessVeto, CHAMPION_MAX_DECISION_AGE_MS};

fn clock(decided: i64, resolved: i64) -> DecisionClock {
    DecisionClock { decided_at_ms: decided, resolved_at_ms: resolved }
}

#[test]
fn a_decision_inside_the_limit_reports_its_age() {
    assert_eq!(check_freshness(clock(1_000, 1_000), 3_000), Ok(0));
    assert_eq!(check_freshness(clock(1_000, 2_500), 3_000), Ok(1_500));
    assert_eq!(check_freshness(clock(1_000, 4_000), 3_000), Ok(3_000));
}

#[test]
fn a_late_decision_is_vetoed_with_both_numbers() {
    let veto = check_freshness(clock(1_000, 4_001), 3_000).unwrap_err();
    assert_eq!(veto, StalenessVeto::Stale { age_ms: 3_001, max_ms: 3_000 });
    assert_eq!(veto.as_str(), "decision_stale");
}

#[test]
fn a_backwards_clock_fails_closed_rather_than_reading_as_fresh() {
    let veto = check_freshness(clock(2_000, 1_000), 3_000).unwrap_err();
    assert_eq!(veto, StalenessVeto::Backwards { decided_at_ms: 2_000, resolved_at_ms: 1_000 });
    assert_eq!(veto.as_str(), "decision_clock_backwards");
    assert_eq!(clock(2_000, 1_000).age_ms(), None);
}

#[test]
fn the_champion_limit_is_the_horizon_the_model_itself_uses() {
    assert_eq!(CHAMPION_MAX_DECISION_AGE_MS, 3_000);
    assert!(check_freshness(clock(0, CHAMPION_MAX_DECISION_AGE_MS as i64 + 1), CHAMPION_MAX_DECISION_AGE_MS).is_err());
}

#[test]
fn a_gap_past_the_i64_range_saturates_and_is_stale() {
    assert_eq!(clock(i64::MIN, i64::MAX).age_ms(), Some(i64::MAX as u64));
    assert_eq!(
        check_freshness(clock(i64::MIN, i64::MAX), 3_000),
        Err(StalenessVeto::Stale { age_ms: i64::MAX as u64, max_ms: 3_000 })
    );
}

#[test]
fn a_wider_limit_never_turns_a_fresh_decision_stale() {
    let c = clock(0, 2_000);
    assert!(check_freshness(c, 2_000).is_ok());
    assert!(check_freshness(c, 5_000).is_ok());
    assert!(check_freshness(c, 1_999).is_err());
}
