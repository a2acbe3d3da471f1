use pump_quant_app::live_status::LiveStatus;
use pump_quant_app::render::hex32;

fn status() -> LiveStatus {
    let mut reject_counts = [0u64; 32];
    reject_counts[1] = 4;
    reject_counts[3] = 2;
    LiveStatus {
        info_time_tick: 26,
        promoted: 9,
        admitted: 3,
        rejected: 6,
        reject_counts,
        open_positions: 1,
        net_realized_lamports: -1_234_567,
        universe_filtered: 2,
        probes_budgeted: 0,
        probe_spend_lamports: 0,
        journal_digest: 0xabc,
        live_outbound_successes: 0,
        live_outbound_failures: 0,
        live_sell_successes: 0,
        live_sell_failures: 0,
        buy_confirmed_count: 0,
        buy_failed_count: 0,
        sell_confirmed_count: 0,
        sell_failed_count: 0,
        pending_buy_count: 0,
        pending_sell_count: 7,
    }
}

#[test]
fn writer_emits_expected_keys_deterministically() {
    let st = status();
    let a = st.to_canonical_json();
    let b = st.to_canonical_json();
    assert_eq!(a, b, "same state -> identical status snapshot");
    for key in [
        "\"schema\":\"live_status/2\"",
        "\"info_time_tick\":",
        "\"promoted\":",
        "\"admitted\":",
        "\"rejected\":",
        "\"reject_counts\":",
        "\"open_positions\":",
        "\"net_realized_lamports\":",
        "\"universe_filtered\":",
        "\"probes_budgeted\":",
        "\"probe_spend_lamports\":",
        "\"journal_digest\":\"0x",
    ] {
        assert!(a.contains(key), "missing key {key} in {a}");
    }
    let sum: u64 = st.reject_counts.iter().sum();
    assert_eq!(sum, st.rejected, "histogram sum {} != rejected {}", sum, st.rejected);
}

#[test]
fn the_canonical_json_matches_the_reference_rendering() {
    let st = status();
    let rc: Vec<String> = st.reject_counts.iter().map(|c| c.to_string()).collect();
    let expected = format!(
        "{{\"schema\":\"{}\",\"info_time_tick\":{},\"promoted\":{},\"admitted\":{},\"rejected\":{},\"reject_counts\":[{}],\"open_positions\":{},\"net_realized_lamports\":{},\"universe_filtered\":{},\"probes_budgeted\":{},\"probe_spend_lamports\":{},\"journal_digest\":\"{:#018x}\",\"live_outbound_successes\":{},\"live_outbound_failures\":{},\"live_sell_successes\":{},\"live_sell_failures\":{},\"buy_confirmed_count\":{},\"buy_failed_count\":{},\"sell_confirmed_count\":{},\"sell_failed_count\":{},\"pending_buy_count\":{},\"pending_sell_count\":{}}}",
        LiveStatus::SCHEMA,
        st.info_time_tick,
        st.promoted,
        st.admitted,
        st.rejected,
        rc.join(","),
        st.open_positions,
        st.net_realized_lamports,
        st.universe_filtered,
        st.probes_budgeted,
        st.probe_spend_lamports,
        st.journal_digest,
        st.live_outbound_successes,
        st.live_outbound_failures,
        st.live_sell_successes,
        st.live_sell_failures,
        st.buy_confirmed_count,
        st.buy_failed_count,
        st.sell_confirmed_count,
        st.sell_failed_count,
        st.pending_buy_count,
        st.pending_sell_count,
    );
    assert_eq!(st.to_canonical_json(), expected);
}

#[test]
fn extreme_values_render_exactly() {
    let mut st = status();
    st.net_realized_lamports = i128::MIN;
    st.journal_digest = u64::MAX;
    st.info_time_tick = u64::MAX;
    let json = st.to_canonical_json();
    assert!(json.contains(&format!("\"net_realized_lamports\":{}", i128::MIN)));
    assert!(json.contains("\"journal_digest\":\"0xffffffffffffffff\""));
    assert!(json.contains(&format!("\"info_time_tick\":{}", u64::MAX)));
}

#[test]
fn hex32_is_lowercase_and_zero_padded() {
    let mut b = [0u8; 32];
    b[0] = 0x0a;
    b[31] = 0xff;
    let h = hex32(&b);
    assert_eq!(h.len(), 64);
    assert!(h.starts_with("0a00"));
    assert!(h.ends_with("00ff"));
    let reference: String = b.iter().map(|x| format!("{x:02x}")).collect();
    assert_eq!(h, reference);
}
