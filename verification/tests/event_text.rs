use pump_quant_app::event::{AppEvent, CreatorActionKind};
use pump_quant_app::event_text::{parse_events, LineFault};

const HEX: &str = "0101010101010101010101010101010101010101010101010101010101010101";

#[test]
fn a_replay_file_parses_into_events_in_order() {
    let text = format!(
        "# a replay\n\ntick\ntrade {HEX} 1000000000 500000 30200000000 600000 3 12\nsocial {HEX} 7000 # a call\nwallet {HEX} 1 2500\nconfirm {HEX} 30200000000 200000000\ncreator_buy {HEX} 10 20 99\n"
    );
    let evs = parse_events(&text).expect("well-formed");
    let m = [1u8; 32];
    assert_eq!(
        evs,
        vec![
            AppEvent::Tick,
            AppEvent::MarketTrade {
                mint: m,
                price_fp: 1_000_000_000,
                quote_lamports: 500_000,
                liquidity_lamports: 30_200_000_000,
                signed_base: 600_000,
                buyer_entity: 3,
                age_slots: 12,
            },
            AppEvent::SocialCall { mint: m, source_quality_bp: 7_000 },
            AppEvent::WalletAction { mint: m, followable: true, size_lamports: 2_500 },
            AppEvent::OnchainConfirm { mint: m, virtual_sol_lamports: 30_200_000_000, real_sol_lamports: 200_000_000 },
            AppEvent::CreatorAction { mint: m, kind: CreatorActionKind::Buy { tokens: 10, quote_lamports: 20 }, slot: 99 },
        ]
    );
}

#[test]
fn negative_unsigned_fields_read_as_zero_and_signed_ones_keep_their_sign() {
    let text = format!("trade {HEX} -5 -1 -1 -42 -7\n");
    let err = parse_events(&text).unwrap_err();
    assert_eq!(err.fault, LineFault::UnknownOrMalformed);
    let text = format!("trade {HEX} -5 -1 -1 -42 -7 4294967301\n");
    let evs = parse_events(&text).expect("well-formed");
    assert_eq!(
        evs[0],
        AppEvent::MarketTrade {
            mint: [1u8; 32],
            price_fp: -5,
            quote_lamports: 0,
            liquidity_lamports: 0,
            signed_base: -42,
            buyer_entity: 0,
            age_slots: 5,
        }
    );
}

#[test]
fn the_first_bad_line_is_reported_with_its_number() {
    let text = format!("tick\n\nmigrate {HEX} 12x\nbogus\n");
    let err = parse_events(&text).unwrap_err();
    assert_eq!(err.line, 3);
    assert_eq!(err.fault, LineFault::BadInteger);
    assert_eq!(err.keyword, "migrate".chars().collect::<Vec<char>>());
    let err = parse_events("tick\nbogus 1 2\n").unwrap_err();
    assert_eq!((err.line, err.fault), (2, LineFault::UnknownOrMalformed));
    let err = parse_events("narr abc 1 2\n").unwrap_err();
    assert_eq!(err.fault, LineFault::BadMint);
    let text = format!("trade {HEX} 1.5 1 1 1 1 1\n");
    assert_eq!(parse_events(&text).unwrap_err().fault, LineFault::BadPriceFp);
}

#[test]
fn integers_follow_the_i64_grammar() {
    let ok = |v: &str| parse_events(&format!("migrate {HEX} {v}\n"));
    assert_eq!(ok("+7").unwrap(), vec![AppEvent::Migration { mint: [1u8; 32], slot: 7 }]);
    assert_eq!(ok("9223372036854775807").unwrap(), vec![AppEvent::Migration { mint: [1u8; 32], slot: i64::MAX as u64 }]);
    assert_eq!(ok("9223372036854775808").unwrap_err().fault, LineFault::BadInteger);
    assert_eq!(ok("-").unwrap_err().fault, LineFault::BadInteger);
    assert_eq!(ok("+").unwrap_err().fault, LineFault::BadInteger);
    assert_eq!(ok("-9223372036854775808").unwrap(), vec![AppEvent::Migration { mint: [1u8; 32], slot: 0 }]);
}

#[test]
fn tick_ignores_trailing_fields_and_blank_or_comment_lines_are_skipped() {
    assert_eq!(parse_events("tick extra fields\n   \n# only a comment\n\ttick\r\n").unwrap(), vec![AppEvent::Tick, AppEvent::Tick]);
    assert_eq!(parse_events("").unwrap(), vec![]);
    assert_eq!(parse_events("tick\u{a0}\n").unwrap(), vec![AppEvent::Tick]);
}

#[test]
fn mints_accept_either_case_and_decode_high_digit_first() {
    let text = format!("social ABcdef{}0f 1\n", "0".repeat(56));
    let evs = parse_events(&text).unwrap();
    let mut m = [0u8; 32];
    m[0] = 0xab;
    m[1] = 0xcd;
    m[2] = 0xef;
    m[31] = 0x0f;
    assert_eq!(evs, vec![AppEvent::SocialCall { mint: m, source_quality_bp: 1 }]);
}
