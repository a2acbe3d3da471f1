use pump_quant_app::flow_feed::{flow_event_from_market_trade, FlowSide};

const MINT: [u8; 32] = [17u8; 32];

#[test]
fn prints_that_cannot_honestly_contribute_are_refused() {
    let t = Some(1_700_000_000_000i64);
    // No receive time: the windows are ms-keyed.
    assert!(flow_event_from_market_trade(&MINT, 1, None, 1, 1, [7u8; 32], 0, None).is_none());
    // Unknown trader: the sentinel would collapse every unknown wallet into one entity.
    assert!(flow_event_from_market_trade(&MINT, 1, t, 400_000_000, 1, [0u8; 32], 0, None).is_none());
    // Not a swap.
    assert!(flow_event_from_market_trade(&MINT, 1, t, 0, 1, [7u8; 32], 0, None).is_none());
    assert!(flow_event_from_market_trade(&MINT, 1, t, 400_000_000, 0, [7u8; 32], 0, None).is_none());
}

#[test]
fn a_buy_event_carries_a_negative_sol_leg() {
    let t0 = 1_700_000_000_000i64;
    let ev = flow_event_from_market_trade(&MINT, 100, Some(t0), 400_000_000, 2_000_000, [42u8; 32], 0, None)
        .expect("a complete print");
    assert_eq!(ev.side, FlowSide::Buy);
    assert_eq!(ev.sol_lamports, -400_000_000, "the tape records buys negative");
    assert_eq!(ev.mint, MINT);
    assert_eq!(ev.trader, [42u8; 32]);
    assert_eq!(ev.slot, 100);
    assert_eq!(ev.recv_unix_ms, t0);
    assert_eq!(ev.fee_lamports, 0);
    assert_eq!(ev.cu_consumed, None);
}

#[test]
fn a_sell_event_carries_a_positive_sol_leg() {
    let t0 = 1_700_000_000_000i64;
    let sell = flow_event_from_market_trade(&MINT, 101, Some(t0), 250_000_000, -1_000_000, [9u8; 32], 5_000, Some(70_000))
        .expect("complete");
    assert_eq!(sell.side, FlowSide::Sell);
    assert_eq!(sell.sol_lamports, 250_000_000);
    assert_eq!(sell.fee_lamports, 5_000);
    assert_eq!(sell.cu_consumed, Some(70_000));
}

#[test]
fn a_huge_quote_saturates_at_i64_max() {
    let t = Some(5i64);
    let buy = flow_event_from_market_trade(&MINT, 1, t, u64::MAX, 1, [1u8; 32], 0, None).unwrap();
    assert_eq!(buy.sol_lamports, -i64::MAX);
    let sell = flow_event_from_market_trade(&MINT, 1, t, u64::MAX, -1, [1u8; 32], 0, None).unwrap();
    assert_eq!(sell.sol_lamports, i64::MAX);
}

#[test]
fn a_single_nonzero_byte_makes_the_trader_known() {
    let mut w = [0u8; 32];
    w[31] = 1;
    assert!(flow_event_from_market_trade(&MINT, 1, Some(0), 1, 1, w, 0, None).is_some());
}
