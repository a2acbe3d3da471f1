use pump_quant_app::enrichment::{tally, EnrichmentGap, EnrichmentTally, EnrichmentTrade};

fn trade(t: i64, who: u8, tokens: i128, sol: u64, slot: Option<u64>) -> EnrichmentTrade {
    EnrichmentTrade { recv_unix_ms: t, trader: [who; 32], tokens_raw: tokens, sol_lamports: sol, slot }
}

/// The strictly positive balances, in wallet order.
fn held(s: &EnrichmentTally) -> Vec<i128> {
    s.wallets.iter().map(|w| w.val.balance).filter(|b| *b > 0).collect()
}

#[test]
fn tally_counts_match_hand_computation() {
    let trades = vec![
        trade(100, 1, 60, 600_000_000, Some(7)),
        trade(101, 2, 30, 300_000_000, Some(7)),
        trade(102, 3, 10, 100_000_000, Some(9)),
    ];
    let s = tally(&trades, 102).expect("three trades is history");
    assert_eq!(s.events, 3);
    assert_eq!(s.holders_at_t, 3);
    assert_eq!(held(&s), vec![60, 30, 10]);
    assert_eq!(s.bundle_slots, 1, "only slot 7 held two wallets");
    assert_eq!(s.bundle_wallets, 2);
    assert_eq!(s.n_buys, 3);
    assert_eq!(s.n_sells, 0);
    assert_eq!(s.volume_lamports, 1_000_000_000);
    assert_eq!(s.slots.len(), 2);
    assert_eq!(s.round_trip_wallets, 0);
}

#[test]
fn tally_window_is_inclusive_at_the_clock() {
    let trades = vec![
        trade(100, 1, 10, 1_000, None),
        trade(200, 2, 10, 1_000, None),
        trade(201, 3, 999, 999_999, None),
    ];
    let s = tally(&trades, 200).unwrap();
    assert_eq!(s.n_buys, 2, "the 201 print must not be visible");
    assert_eq!(s.holders_at_t, 2);
    assert_eq!(held(&s), vec![10, 10]);
    assert_eq!(s.volume_lamports, 2_000);
    assert!(s.slots.is_empty());
}

#[test]
fn tally_round_trips_count_every_wallet_that_traded() {
    let trades = vec![
        trade(10, 1, 100, 5_000, Some(1)),
        trade(11, 1, -100, 6_000, Some(1)),
        trade(12, 2, 100, 5_000, None),
    ];
    let s = tally(&trades, 12).unwrap();
    assert_eq!(s.round_trip_wallets, 1);
    assert_eq!(s.holders_at_t, 1, "wallet 1 sold out, so it does not hold");
    assert_eq!(s.wallets.len(), 2);
    assert_eq!(held(&s), vec![100]);
    assert_eq!(s.bundle_slots, 0, "one wallet alone in slot 1 is no bundle");
    assert_eq!(s.n_sells, 1);

    let pure_wash = vec![trade(10, 1, 100, 5_000, Some(1)), trade(11, 1, -100, 6_000, Some(1))];
    let s = tally(&pure_wash, 11).unwrap();
    assert_eq!(s.round_trip_wallets, 1);
    assert_eq!(s.wallets.len(), 1);
    assert_eq!(s.holders_at_t, 0);
}

#[test]
fn tally_net_short_wallet_is_not_a_holder_but_is_listed() {
    let trades = vec![trade(10, 1, 100, 5_000, None), trade(11, 2, -50, 9_000, None)];
    let s = tally(&trades, 11).unwrap();
    assert_eq!(s.holders_at_t, 1);
    assert_eq!(s.wallets.len(), 2);
    assert_eq!(s.wallets[1].key, [2u8; 32]);
    assert_eq!(s.wallets[1].val.balance, -50);
    assert_eq!(s.wallets[1].val.round_trip, -1);
    assert_eq!(s.round_trip_wallets, 0, "1 buy / 1 sell is not balanced");
}

#[test]
fn tally_single_trade_is_not_a_distribution() {
    let trades = vec![trade(10, 1, 100, 5_000, None)];
    assert_eq!(tally(&trades, 10), Err(EnrichmentGap::InsufficientHistory));
    assert_eq!(tally(&[], 10), Err(EnrichmentGap::InsufficientHistory));
    let trades = vec![trade(10, 1, 100, 5_000, None), trade(99, 2, 100, 5_000, None)];
    assert_eq!(tally(&trades, 10), Err(EnrichmentGap::InsufficientHistory));
}

#[test]
fn tally_wallets_ascend_and_slots_list_distinct_wallets() {
    let trades = vec![
        trade(1, 9, 5, 1, Some(3)),
        trade(2, 4, 5, 1, Some(3)),
        trade(3, 9, 5, 1, Some(3)),
        trade(4, 6, 0, 1, Some(3)),
    ];
    let s = tally(&trades, 4).unwrap();
    let keys: Vec<u8> = s.wallets.iter().map(|w| w.key[0]).collect();
    assert_eq!(keys, vec![4, 6, 9]);
    assert_eq!(s.wallets[2].val.balance, 10);
    assert_eq!(s.wallets[2].val.round_trip, 2);
    assert_eq!(s.wallets[1].val.round_trip, -1, "a zero token leg counts as a sell");
    assert_eq!(s.n_sells, 1);
    assert_eq!(s.slots.len(), 1);
    assert_eq!(s.slots[0].wallets.len(), 3);
    assert_eq!(s.bundle_slots, 1);
    assert_eq!(s.bundle_wallets, 3);
}
