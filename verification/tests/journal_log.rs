use pump_quant_app::journal_log::{Decision, DecisionJournal, FNV_OFFSET_BASIS, FNV_PRIME, RECENT_CAP};

fn fnv1a(bytes: &[u8]) -> u64 {
    let mut h = FNV_OFFSET_BASIS;
    for &b in bytes {
        h ^= u64::from(b);
        h = h.wrapping_mul(FNV_PRIME);
    }
    h
}

fn framed(bytes: &[u8]) -> Vec<u8> {
    let mut v = (bytes.len() as u64).to_le_bytes().to_vec();
    v.extend_from_slice(bytes);
    v
}

fn encoding(d: &Decision) -> Vec<u8> {
    let mut v = Vec::new();
    match *d {
        Decision::Promoted { mint, lane, rank } => {
            v.push(1);
            v.extend(framed(&mint));
            v.push(lane);
            v.extend_from_slice(&rank.to_le_bytes());
        }
        Decision::Admitted { mint, size_lamports } => {
            v.push(2);
            v.extend(framed(&mint));
            v.extend_from_slice(&size_lamports.to_le_bytes());
        }
        Decision::Rejected { mint, reason } => {
            v.push(3);
            v.extend(framed(&mint));
            v.push(reason);
        }
        Decision::Filled { mint, net_pnl_lamports, reason } => {
            v.push(4);
            v.extend(framed(&mint));
            v.extend(framed(&net_pnl_lamports.to_le_bytes()));
            v.push(reason);
        }
        Decision::Reweighted { lane, before_bp, after_bp } => {
            v.push(5);
            v.push(lane);
            v.extend_from_slice(&u64::from(before_bp).to_le_bytes());
            v.extend_from_slice(&u64::from(after_bp).to_le_bytes());
        }
    }
    v
}

fn sample() -> Vec<Decision> {
    let m = [3u8; 32];
    vec![
        Decision::Promoted { mint: m, lane: 2, rank: 7 },
        Decision::Admitted { mint: m, size_lamports: 50_000_000 },
        Decision::Rejected { mint: [4u8; 32], reason: 3 },
        Decision::Filled { mint: m, net_pnl_lamports: -1_234_567, reason: 9 },
        Decision::Reweighted { lane: 1, before_bp: 10_000, after_bp: 9_500 },
    ]
}

#[test]
fn an_empty_journal_digests_to_the_offset_basis() {
    let j = DecisionJournal::new();
    assert_eq!(j.digest(), FNV_OFFSET_BASIS);
    assert_eq!(j.len(), 0);
    assert!(j.is_empty());
    assert!(j.recent().is_empty());
    assert_eq!(DecisionJournal::default().digest(), FNV_OFFSET_BASIS);
}

#[test]
fn the_rolling_digest_equals_the_one_shot_hash_of_the_stream() {
    let mut j = DecisionJournal::new();
    j.seed(0xdead_beef);
    let mut stream = 0xdead_beefu64.to_le_bytes().to_vec();
    for d in sample() {
        j.record(d);
        stream.extend(encoding(&d));
    }
    assert_eq!(j.digest(), fnv1a(&stream));
    assert_eq!(j.len(), 5);
    assert_eq!(j.recent(), sample());
}

#[test]
fn identical_decisions_give_identical_digests_and_one_divergence_flips_it() {
    let mut a = DecisionJournal::new();
    let mut b = DecisionJournal::new();
    for d in sample() {
        a.record(d);
        b.record(d);
    }
    assert_eq!(a.digest(), b.digest());
    b.record(Decision::Rejected { mint: [0u8; 32], reason: 1 });
    assert_ne!(a.digest(), b.digest());
}

#[test]
fn a_different_seed_gives_a_different_digest() {
    let mut a = DecisionJournal::new();
    let mut b = DecisionJournal::new();
    a.seed(1);
    b.seed(2);
    for d in sample() {
        a.record(d);
        b.record(d);
    }
    assert_ne!(a.digest(), b.digest());
}

#[test]
fn retention_is_bounded_and_keeps_the_newest() {
    let mut j = DecisionJournal::new();
    let total = RECENT_CAP + 10;
    for i in 0..total {
        j.record(Decision::Reweighted { lane: 0, before_bp: i as u32, after_bp: 0 });
    }
    let recent = j.recent();
    assert_eq!(recent.len(), RECENT_CAP);
    assert_eq!(j.len(), total as u64);
    assert_eq!(recent[0], Decision::Reweighted { lane: 0, before_bp: 10, after_bp: 0 });
    assert_eq!(recent[RECENT_CAP - 1], Decision::Reweighted { lane: 0, before_bp: (total - 1) as u32, after_bp: 0 });
}
