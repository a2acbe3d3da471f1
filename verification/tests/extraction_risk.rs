use pump_quant_app::extraction_risk::{ExtractionRiskLedger, EXTRACTION_LEDGER_CAP, LPI_COVARIATE_HALF_LIFE_SECS};

fn mint(tag: u8) -> [u8; 32] {
    let mut b = [0u8; 32];
    b[0] = tag;
    b
}

#[test]
fn untracked_mint_reads_zero() {
    let led = ExtractionRiskLedger::new();
    assert_eq!(led.manip_history_fp(&mint(1), 0), 0);
    assert_eq!(led.mints_tracked(), 0);
}

#[test]
fn accumulation_sums_within_a_half_life() {
    let mut led = ExtractionRiskLedger::new();
    led.observe(mint(1), 3_000, 0);
    led.observe(mint(1), 2_000, 0);
    assert_eq!(led.manip_history_fp(&mint(1), 0), 5_000);
    assert_eq!(led.mints_tracked(), 1);
}

#[test]
fn accumulation_clamps_at_ceiling() {
    let mut led = ExtractionRiskLedger::new();
    led.observe(mint(1), 8_000, 0);
    led.observe(mint(1), 8_000, 0);
    assert_eq!(led.manip_history_fp(&mint(1), 0), 10_000);
}

#[test]
fn covariate_decays_over_half_lives() {
    let mut led = ExtractionRiskLedger::new();
    led.observe(mint(1), 8_000, 0);
    let hl = LPI_COVARIATE_HALF_LIFE_SECS;
    assert_eq!(led.manip_history_fp(&mint(1), hl), 4_000);
    assert_eq!(led.manip_history_fp(&mint(1), 2 * hl), 2_000);
}

#[test]
fn observe_decays_prior_before_adding() {
    let mut led = ExtractionRiskLedger::new();
    led.observe(mint(1), 8_000, 0);
    let hl = LPI_COVARIATE_HALF_LIFE_SECS;
    led.observe(mint(1), 1_000, hl);
    assert_eq!(led.manip_history_fp(&mint(1), hl), 5_000);
}

#[test]
fn zero_contribution_never_creates_risk() {
    let mut led = ExtractionRiskLedger::new();
    led.observe(mint(1), 0, 0);
    assert_eq!(led.manip_history_fp(&mint(1), 0), 0);
}

#[test]
fn ledger_is_capacity_bounded() {
    let mut led = ExtractionRiskLedger::new();
    for i in 0..(EXTRACTION_LEDGER_CAP + 50) {
        let mut b = [0u8; 32];
        b[..8].copy_from_slice(&(i as u64).to_le_bytes());
        led.observe(b, 1_000, i as u64);
    }
    assert!(led.mints_tracked() <= EXTRACTION_LEDGER_CAP);
}

#[test]
fn the_least_recently_updated_mint_is_evicted_first() {
    let mut led = ExtractionRiskLedger::new();
    for i in 0..EXTRACTION_LEDGER_CAP {
        let mut b = [0u8; 32];
        b[..8].copy_from_slice(&(i as u64).to_le_bytes());
        led.observe(b, 1_000, i as u64 + 1);
    }
    let mut oldest = [0u8; 32];
    oldest[..8].copy_from_slice(&0u64.to_le_bytes());
    assert_eq!(led.manip_history_fp(&oldest, 1), 1_000);
    let mut fresh = [0u8; 32];
    fresh[31] = 1;
    led.observe(fresh, 500, 9_999);
    assert_eq!(led.mints_tracked(), EXTRACTION_LEDGER_CAP);
    assert_eq!(led.manip_history_fp(&oldest, 1), 0);
    assert_eq!(led.manip_history_fp(&fresh, 9_999), 500);
}

#[test]
fn a_backwards_read_clock_counts_as_no_decay() {
    let mut led = ExtractionRiskLedger::new();
    led.observe(mint(2), 6_000, 10_000);
    assert_eq!(led.manip_history_fp(&mint(2), 0), 6_000);
}
