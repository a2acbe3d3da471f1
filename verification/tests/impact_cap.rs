use pump_quant_app::impact_cap::{own_impact_veto, ImpactVeto};
use pump_quant_app::own_impact_bps;

#[test]
fn a_leg_within_the_limit_reports_its_impact() {
    let bp = own_impact_veto(Some(100_000_000_000), 1_000_000_000, 100).expect("at the limit");
    assert_eq!(bp, 100);
}

#[test]
fn a_leg_past_the_limit_is_vetoed_with_both_numbers() {
    let veto = own_impact_veto(Some(100_000_000_000), 2_000_000_000, 100).unwrap_err();
    assert_eq!(veto, ImpactVeto::TooLarge { impact_bps: 200, max_bps: 100 });
    assert_eq!(veto.as_str(), "own_impact_too_large");
}

#[test]
fn an_unpriced_book_fails_closed_and_is_not_zero_impact() {
    let veto = own_impact_veto(None, 1_000_000_000, 1_000).unwrap_err();
    assert_eq!(veto, ImpactVeto::DepthUnknown);
    assert_eq!(veto.as_str(), "own_impact_unpriced");
    assert_eq!(own_impact_veto(Some(0), 1_000_000_000, 1_000).unwrap_err(), ImpactVeto::DepthUnknown);
    assert_eq!(own_impact_veto(None, 0, 1_000), Ok(0));
}

#[test]
fn the_veto_agrees_with_the_fill_model_it_prices_against() {
    let (depth, notional) = (30_000_000_000u64, 750_000_000u64);
    let veto_bp = own_impact_veto(Some(depth), notional, u64::MAX).expect("under limit");
    assert_eq!(veto_bp, own_impact_bps(depth, notional).unwrap());
}

#[test]
fn a_larger_clip_into_the_same_book_never_moves_less() {
    let depth = 30_000_000_000u64;
    let small = own_impact_bps(depth, 300_000_000).unwrap();
    let large = own_impact_bps(depth, 600_000_000).unwrap();
    assert_eq!(small, 100);
    assert_eq!(large, 200);
    assert!(small <= large);
}
