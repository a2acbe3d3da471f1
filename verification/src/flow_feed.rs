//! The flow reducer's feed: one live print turned into the reducer's flow event,
//! or refused when it cannot honestly contribute.
//!
//! The sign follows the tape: the SOL leg is negative for a buy (SOL leaves the
//! trader) and positive for a sell, so a reducer whose net flow is the negated
//! sum of the SOL legs reads a buy as inflow.

use vstd::prelude::*;

verus! {

/// Which side of the book a flow event hit.
#[derive(Clone, Copy, Debug, PartialEq, Eq, Structural)]
pub enum FlowSide {
    /// The trader bought the token.
    Buy,
    /// The trader sold the token.
    Sell,
}

/// One print as the flow reducer consumes it.
#[derive(Clone, Copy, Debug, PartialEq, Eq)]
pub struct FlowEvent {
    /// The market.
    pub mint: [u8; 32],
    /// The trader's wallet.
    pub trader: [u8; 32],
    /// Buy or sell.
    pub side: FlowSide,
    /// The slot the print landed in.
    pub slot: u64,
    /// The producer's receive time, milliseconds.
    pub recv_unix_ms: i64,
    /// The SOL leg in the tape's convention: negative for a buy, positive for a sell.
    pub sol_lamports: i64,
    /// The fee paid, lamports.
    pub fee_lamports: u64,
    /// Compute units consumed, when known.
    pub cu_consumed: Option<u64>,
}

/// The unknown-trader sentinel.
pub open spec fn is_unknown_trader(w: [u8; 32]) -> bool {
    forall|i: int| 0 <= i < 32 ==> #[trigger] w[i] == 0u8
}

/// The quote leg read as an `i64`, saturating.
pub open spec fn quote_i64(quote_lamports: u64) -> i64 {
    if quote_lamports > i64::MAX { i64::MAX } else { quote_lamports as i64 }
}

/// The flow event a print yields: refused without a receive time, for the
/// unknown-trader sentinel, or when either leg is zero (not a swap).
pub open spec fn spec_flow_event(
    mint: [u8; 32],
    slot: u64,
    recv_unix_ms: Option<i64>,
    quote_lamports: u64,
    signed_base: i64,
    trader: [u8; 32],
    fee_lamports: u64,
    cu_consumed: Option<u64>,
) -> Option<FlowEvent> {
    match recv_unix_ms {
        None => None,
        Some(t) => if is_unknown_trader(trader) || quote_lamports == 0 || signed_base == 0 {
            None
        } else {
            let q = quote_i64(quote_lamports);
            Some(FlowEvent {
                mint,
                trader,
                side: if signed_base > 0 { FlowSide::Buy } else { FlowSide::Sell },
                slot,
                recv_unix_ms: t,
                sol_lamports: if signed_base > 0 { (-q) as i64 } else { q },
                fee_lamports,
                cu_consumed,
            })
        },
    }
}

/// Build the reducer's view of one live print, or `None` when the print cannot
/// honestly contribute.
pub fn flow_event_from_market_trade(
    mint: &[u8; 32],
    slot: u64,
    recv_unix_ms: Option<i64>,
    quote_lamports: u64,
    signed_base: i64,
    trader: [u8; 32],
    fee_lamports: u64,
    cu_consumed: Option<u64>,
) -> (r: Option<FlowEvent>)
    ensures
        r == spec_flow_event(*mint, slot, recv_unix_ms, quote_lamports, signed_base, trader, fee_lamports, cu_consumed),
{
    let t = match recv_unix_ms {
        Some(t) => t,
        None => return None,
    };
    let mut unknown = true;
    let mut i: usize = 0;
    while i < 32
        invariant
            i <= 32,
            unknown == (forall|j: int| 0 <= j < i ==> #[trigger] trader[j] == 0u8),
        decreases 32 - i,
    {
        if trader[i] != 0 {
            unknown = false;
        }
        i += 1;
    }
    if unknown || quote_lamports == 0 || signed_base == 0 {
        return None;
    }
    let is_buy = signed_base > 0;
    let quote: i64 = if quote_lamports > 0x7fff_ffff_ffff_ffff { 0x7fff_ffff_ffff_ffff } else { quote_lamports as i64 };
    Some(FlowEvent {
        mint: *mint,
        trader,
        side: if is_buy { FlowSide::Buy } else { FlowSide::Sell },
        slot,
        recv_unix_ms: t,
        sol_lamports: if is_buy { -quote } else { quote },
        fee_lamports,
        cu_consumed,
    })
}

/// The sign convention: every admitted print stores a buy with a strictly
/// negative SOL leg and a sell with a strictly positive one, and the leg's
/// magnitude is the quote (saturated at `i64::MAX`).
pub proof fn lemma_buy_is_stored_negative(
    mint: [u8; 32],
    slot: u64,
    recv_unix_ms: Option<i64>,
    quote_lamports: u64,
    signed_base: i64,
    trader: [u8; 32],
    fee_lamports: u64,
    cu_consumed: Option<u64>,
)
    ensures
        spec_flow_event(mint, slot, recv_unix_ms, quote_lamports, signed_base, trader, fee_lamports, cu_consumed) matches Some(
            e,
        ) ==> {
            &&& (e.side == FlowSide::Buy <==> signed_base > 0)
            &&& (e.side == FlowSide::Buy <==> e.sol_lamports < 0)
            &&& (e.side == FlowSide::Sell <==> e.sol_lamports > 0)
            &&& (if e.sol_lamports < 0 { -e.sol_lamports } else { e.sol_lamports as int }) == quote_i64(quote_lamports)
        },
{
}

/// A print is admitted exactly when it has a receive time, a known trader and
/// two nonzero legs.
pub proof fn lemma_admitted_iff_complete(
    mint: [u8; 32],
    slot: u64,
    recv_unix_ms: Option<i64>,
    quote_lamports: u64,
    signed_base: i64,
    trader: [u8; 32],
    fee_lamports: u64,
    cu_consumed: Option<u64>,
)
    ensures
        spec_flow_event(mint, slot, recv_unix_ms, quote_lamports, signed_base, trader, fee_lamports, cu_consumed) is Some
            <==> (recv_unix_ms is Some && !is_unknown_trader(trader) && quote_lamports != 0 && signed_base != 0),
{
}

} // verus!
