//! The canonical live-status artifact: a fixed set of scalar fields, every one a
//! deterministic function of the event stream (the timestamp is the logical tick,
//! never a clock), rendered as JSON with a fixed key order so two runs over the
//! same tape produce byte-identical text.

use vstd::prelude::*;
use vstd::string::StringExecFns;

use crate::admission::{histogram_sum, RejectLedger};
use crate::render::{dec_digits, dec_signed, hex_digits, push_hex_padded, push_i128_decimal, push_u64_decimal};

verus! {

/// One open position at session end (report plane only).
#[derive(Clone, Debug, PartialEq, Eq)]
pub struct OpenPositionSnapshot {
    /// The mint of the open position.
    pub mint: [u8; 32],
    /// Entry tick (logical).
    pub entry_tick: u64,
    /// Entry price (fixed-point, 1e18 scale).
    pub entry_price_fp: u64,
    /// Latest tick at snapshot time.
    pub current_tick: u64,
    /// Mark price at snapshot time (fixed-point, 1e18 scale).
    pub mark_price_fp: u64,
    /// Unrealized PnL in lamports.
    pub unrealized_pnl_lamports: i128,
    /// Remaining fraction in bps (10 000 = full).
    pub remaining_bps: u32,
}

/// A bounded, deterministic snapshot of the running engine.
#[derive(Clone, Copy, Debug, PartialEq, Eq)]
pub struct LiveStatus {
    /// The engine's logical tick.
    pub info_time_tick: u64,
    /// Candidates promoted for entry so far.
    pub promoted: u64,
    /// Positions admitted so far.
    pub admitted: u64,
    /// Candidates rejected so far.
    pub rejected: u64,
    /// Per-code reject histogram (index = reject code, 0 unused).
    pub reject_counts: [u64; 32],
    /// Currently-open positions.
    pub open_positions: u64,
    /// Running realized net-SOL, lamports.
    pub net_realized_lamports: i128,
    /// Mature-but-inactive candidates removed by the universe screen.
    pub universe_filtered: u64,
    /// Paid-information probes budget-accounted so far.
    pub probes_budgeted: u64,
    /// Lifetime probe research spend, lamports.
    pub probe_spend_lamports: u64,
    /// Decision-journal digest at this tick.
    pub journal_digest: u64,
    /// Live buy transactions accepted by the sink.
    pub live_outbound_successes: u64,
    /// Live buy transactions that failed at the sink.
    pub live_outbound_failures: u64,
    /// Live sell transactions accepted by the sink.
    pub live_sell_successes: u64,
    /// Live sell transactions that failed at the sink.
    pub live_sell_failures: u64,
    /// Buy transactions confirmed on-chain.
    pub buy_confirmed_count: u64,
    /// Buy transactions that failed on-chain.
    pub buy_failed_count: u64,
    /// Sell transactions confirmed on-chain.
    pub sell_confirmed_count: u64,
    /// Sell transactions that failed on-chain.
    pub sell_failed_count: u64,
    /// Buy transactions awaiting confirmation.
    pub pending_buy_count: u64,
    /// Sell transactions awaiting confirmation.
    pub pending_sell_count: u64,
}

/// The comma-separated decimal renderings of `c`.
pub open spec fn counts_joined(c: Seq<u64>) -> Seq<char>
    decreases c.len(),
{
    if c.len() == 0 {
        Seq::empty()
    } else if c.len() == 1 {
        dec_digits(c[0] as nat)
    } else {
        counts_joined(c.drop_last()) + seq![','] + dec_digits(c.last() as nat)
    }
}

/// A JSON array of the counts.
pub open spec fn counts_json(c: Seq<u64>) -> Seq<char> {
    seq!['['] + counts_joined(c) + seq![']']
}

/// The canonical JSON of a status: fixed key order, decimal integers, the digest
/// as `0x` and sixteen lowercase hexadecimal digits.
pub open spec fn canonical_json(st: LiveStatus) -> Seq<char> {
    "{\"schema\":\""@
        + "live_status/2"@
        + "\",\"info_time_tick\":"@
        + dec_digits(st.info_time_tick as nat)
        + ",\"promoted\":"@
        + dec_digits(st.promoted as nat)
        + ",\"admitted\":"@
        + dec_digits(st.admitted as nat)
        + ",\"rejected\":"@
        + dec_digits(st.rejected as nat)
        + ",\"reject_counts\":"@
        + counts_json(st.reject_counts@)
        + ",\"open_positions\":"@
        + dec_digits(st.open_positions as nat)
        + ",\"net_realized_lamports\":"@
        + dec_signed(st.net_realized_lamports as int)
        + ",\"universe_filtered\":"@
        + dec_digits(st.universe_filtered as nat)
        + ",\"probes_budgeted\":"@
        + dec_digits(st.probes_budgeted as nat)
        + ",\"probe_spend_lamports\":"@
        + dec_digits(st.probe_spend_lamports as nat)
        + ",\"journal_digest\":\"0x"@
        + hex_digits(st.journal_digest as nat, 16)
        + "\",\"live_outbound_successes\":"@
        + dec_digits(st.live_outbound_successes as nat)
        + ",\"live_outbound_failures\":"@
        + dec_digits(st.live_outbound_failures as nat)
        + ",\"live_sell_successes\":"@
        + dec_digits(st.live_sell_successes as nat)
        + ",\"live_sell_failures\":"@
        + dec_digits(st.live_sell_failures as nat)
        + ",\"buy_confirmed_count\":"@
        + dec_digits(st.buy_confirmed_count as nat)
        + ",\"buy_failed_count\":"@
        + dec_digits(st.buy_failed_count as nat)
        + ",\"sell_confirmed_count\":"@
        + dec_digits(st.sell_confirmed_count as nat)
        + ",\"sell_failed_count\":"@
        + dec_digits(st.sell_failed_count as nat)
        + ",\"pending_buy_count\":"@
        + dec_digits(st.pending_buy_count as nat)
        + ",\"pending_sell_count\":"@
        + dec_digits(st.pending_sell_count as nat)
        + "}"@
}

impl LiveStatus {
    /// This snapshot with its refusal count and histogram taken from `ledger`,
    /// so the histogram sums to the refusal count.
    pub fn with_rejects(self, ledger: &RejectLedger) -> (r: LiveStatus)
        requires
            ledger.wf(),
        ensures
            r == (LiveStatus { rejected: ledger.rejected, reject_counts: ledger.reject_counts, ..self }),
            histogram_sum(r.reject_counts@) == r.rejected,
    {
        LiveStatus { rejected: ledger.rejected, reject_counts: ledger.reject_counts, ..self }
    }

    /// The status schema tag.
    pub const SCHEMA: &'static str = "live_status/2";

    fn push_reject_counts(&self, s: &mut String)
        ensures
            final(s)@ == old(s)@ + counts_json(self.reject_counts@),
    {
        proof {
            reveal_strlit("[");
            reveal_strlit(",");
            reveal_strlit("]");
        }
        let ghost start = s@;
        s.append("[");
        let mut i: usize = 0;
        while i < 32
            invariant
                i <= 32,
                s@ == start + seq!['['] + counts_joined(self.reject_counts@.subrange(0, i as int)),
            decreases 32 - i,
        {
            let ghost before = s@;
            proof {
                reveal_strlit(",");
            }
            if i > 0 {
                s.append(",");
            }
            push_u64_decimal(s, self.reject_counts[i]);
            proof {
                let c = self.reject_counts@.subrange(0, i + 1);
                assert(c.drop_last() =~= self.reject_counts@.subrange(0, i as int));
                assert(c.last() == self.reject_counts@[i as int]);
                assert(c[0] == self.reject_counts@[0]);
                if i > 0 {
                    assert(s@ =~= before + seq![','] + dec_digits(self.reject_counts@[i as int] as nat));
                } else {
                    assert(s@ =~= before + dec_digits(self.reject_counts@[0] as nat));
                }
                if i == 0 {
                    assert(counts_joined(self.reject_counts@.subrange(0, 0)) =~= Seq::<char>::empty());
                }
                assert(s@ =~= start + seq!['['] + counts_joined(c));
            }
            i += 1;
        }
        s.append("]");
        proof {
            assert(self.reject_counts@.subrange(0, 32) =~= self.reject_counts@);
            assert(s@ =~= start + counts_json(self.reject_counts@));
        }
    }

    /// Serialize to canonical JSON (see `canonical_json`).
    pub fn to_canonical_json(&self) -> (r: String)
        ensures
            r@ == canonical_json(*self),
    {
        let mut s = String::new();
        s.append("{\"schema\":\"");
        s.append("live_status/2");
        s.append("\",\"info_time_tick\":");
        push_u64_decimal(&mut s, self.info_time_tick);
        s.append(",\"promoted\":");
        push_u64_decimal(&mut s, self.promoted);
        s.append(",\"admitted\":");
        push_u64_decimal(&mut s, self.admitted);
        s.append(",\"rejected\":");
        push_u64_decimal(&mut s, self.rejected);
        s.append(",\"reject_counts\":");
        self.push_reject_counts(&mut s);
        s.append(",\"open_positions\":");
        push_u64_decimal(&mut s, self.open_positions);
        s.append(",\"net_realized_lamports\":");
        push_i128_decimal(&mut s, self.net_realized_lamports);
        s.append(",\"universe_filtered\":");
        push_u64_decimal(&mut s, self.universe_filtered);
        s.append(",\"probes_budgeted\":");
        push_u64_decimal(&mut s, self.probes_budgeted);
        s.append(",\"probe_spend_lamports\":");
        push_u64_decimal(&mut s, self.probe_spend_lamports);
        s.append(",\"journal_digest\":\"0x");
        push_hex_padded(&mut s, self.journal_digest, 16);
        s.append("\",\"live_outbound_successes\":");
        push_u64_decimal(&mut s, self.live_outbound_successes);
        s.append(",\"live_outbound_failures\":");
        push_u64_decimal(&mut s, self.live_outbound_failures);
        s.append(",\"live_sell_successes\":");
        push_u64_decimal(&mut s, self.live_sell_successes);
        s.append(",\"live_sell_failures\":");
        push_u64_decimal(&mut s, self.live_sell_failures);
        s.append(",\"buy_confirmed_count\":");
        push_u64_decimal(&mut s, self.buy_confirmed_count);
        s.append(",\"buy_failed_count\":");
        push_u64_decimal(&mut s, self.buy_failed_count);
        s.append(",\"sell_confirmed_count\":");
        push_u64_decimal(&mut s, self.sell_confirmed_count);
        s.append(",\"sell_failed_count\":");
        push_u64_decimal(&mut s, self.sell_failed_count);
        s.append(",\"pending_buy_count\":");
        push_u64_decimal(&mut s, self.pending_buy_count);
        s.append(",\"pending_sell_count\":");
        push_u64_decimal(&mut s, self.pending_sell_count);
        s.append("}");
        proof {
            assert(s@ =~= canonical_json(*self));
        }
        s
    }
}

} // verus!
