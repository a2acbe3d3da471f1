//! The deterministic input stream the engine consumes.
//!
//! Events carry integer/fixed-point payloads only. Wall-clock never appears; time
//! is the explicit `tick` logical clock advanced by [`AppEvent::Tick`]. The same
//! event sequence always yields the same decisions.

use vstd::prelude::*;

verus! {

/// A market's 32-byte identity.
pub type Mint = [u8; 32];

/// The lane an observation belongs to; the four lanes are unioned, not
/// intersected.
#[derive(Clone, Copy, Debug, PartialEq, Eq, Hash, Structural)]
pub enum LaneKind {
    /// On-chain numeric microstructure (flow, liquidity, velocity).
    Numeric,
    /// Narrative / attention-velocity signal (virality, meta emergence).
    Narrative,
    /// Social-source chatter (calls, mentions), corroboration-tier only.
    Social,
    /// Smart-money / wallet-graph activity.
    Wallet,
}

impl LaneKind {
    /// Whether the lane's evidence, on its own, may authorise capital. Only the
    /// on-chain numeric lane qualifies; the others are corroboration that can
    /// raise a candidate's rank but never trigger entry alone.
    pub fn is_self_authorizing(self) -> (r: bool)
        ensures
            r == (self == LaneKind::Numeric),
    {
        match self {
            LaneKind::Numeric => true,
            _ => false,
        }
    }
}

/// The specific creator-attributed action carried by an `AppEvent::CreatorAction`
/// (the carrying event supplies the slot). Creator measures only ever reduce size
/// within an admitted band; they never authorise or veto.
#[derive(Clone, Copy, Debug, PartialEq, Eq)]
pub enum CreatorActionKind {
    /// Create/initialize: the creator's starting allocation and the token supply.
    Init {
        /// Creator's initial token allocation (base units); may be zero.
        initial_tokens: u64,
        /// Total token supply (base units).
        total_supply: u64,
    },
    /// A creator buy (accumulation).
    Buy {
        /// Tokens acquired (base units).
        tokens: u64,
        /// Quote lamports spent.
        quote_lamports: u64,
    },
    /// A creator sell (distribution / potential extraction).
    Sell {
        /// Tokens sold (base units).
        tokens: u64,
        /// Quote lamports realized.
        quote_lamports: u64,
    },
    /// A buy by a creator-linked (funded/clustered) wallet.
    LinkedBuy {
        /// The linked cluster id.
        cluster: u64,
        /// Tokens acquired (base units).
        tokens: u64,
    },
}

/// One unit of input to the engine. Every mint-bearing event names the market it
/// concerns.
#[derive(Clone, Copy, Debug, PartialEq, Eq)]
pub enum AppEvent {
    /// A decoded on-chain swap on a market; the only self-authorizing evidence.
    MarketTrade {
        /// The market this trade hit.
        mint: Mint,
        /// Reserve-derived execution price of this print, fixed-point (1e9 scale).
        price_fp: i128,
        /// Quote (lamport) volume of this print.
        quote_lamports: u64,
        /// Pool quote-reserve depth after the trade, in lamports.
        liquidity_lamports: u64,
        /// Signed base volume of this print (positive = buy, negative = sell).
        signed_base: i64,
        /// A stable per-entity id so distinct buyers can be counted.
        buyer_entity: u64,
        /// Market age at this trade, in slots.
        age_slots: u32,
    },
    /// A narrative attention sample: fresh mentions against already-active ones.
    NarrativeSample {
        /// The market the narrative concerns.
        mint: Mint,
        /// Mentions already active in the prior window.
        prior_active: u64,
        /// New mentions this window.
        new_mentions: u64,
    },
    /// A social-source call for a market from a scored source; corroboration only.
    SocialCall {
        /// The market called.
        mint: Mint,
        /// Source quality, bps (0..=10_000).
        source_quality_bp: u32,
    },
    /// A smart-money wallet action on a market.
    WalletAction {
        /// The market acted on.
        mint: Mint,
        /// Caller-supplied classification, consumed at corroboration tier only.
        followable: bool,
        /// Size of the action, lamports.
        size_lamports: u64,
    },
    /// An on-chain confirmation that a market is real and sellable: one decode of
    /// the bonding-curve account, both SOL-side reserves from the same snapshot.
    OnchainConfirm {
        /// The confirmed market.
        mint: Mint,
        /// The virtual (price) reserve, lamports.
        virtual_sol_lamports: u64,
        /// The escrowed SOL a seller can actually receive, lamports.
        real_sol_lamports: u64,
    },
    /// An on-chain-led category assignment (0 = unclassified).
    TokenMetadata {
        /// The market this metadata describes.
        mint: Mint,
        /// Resolved category id (0 = unclassified).
        category_id: u64,
        /// Taxonomy version the id was assigned under.
        taxonomy_version: u32,
        /// Creator/deployer entity id.
        creator: u64,
        /// Slot at which the metadata was observed.
        slot: u64,
    },
    /// A creator-attributed on-chain action for a market.
    CreatorAction {
        /// The market acted on.
        mint: Mint,
        /// The specific creator action.
        kind: CreatorActionKind,
        /// Slot of the action.
        slot: u64,
    },
    /// The market migrated from its bonding curve to a pool (graduation).
    Migration {
        /// The graduated market.
        mint: Mint,
        /// Slot of the migration.
        slot: u64,
    },
    /// Auxiliary on-chain facts about a market outside the trade stream.
    MarketAuxiliary {
        /// The market this auxiliary data describes.
        mint: Mint,
        /// Token standard: 1 = legacy SPL, 2 = token-2022.
        token_standard: u8,
        /// Symbol string length (character count).
        symbol_len: u8,
    },
    /// The caller's day-of-week and hour-of-day (UTC); the engine never reads a
    /// clock itself.
    TimeSignal {
        /// Day of week: 1 = Mon .. 7 = Sun.
        dow: u8,
        /// Hour of day in UTC: 0-23.
        hour_utc: u8,
    },
    /// Our own buy transaction landed on-chain.
    OurBuyConfirmed {
        /// The mint that was bought.
        mint: Mint,
        /// The on-chain transaction signature.
        signature: [u8; 64],
        /// Slot of the confirmation.
        slot: u64,
    },
    /// Our own buy transaction failed on-chain.
    OurBuyFailed {
        /// The mint that failed to buy.
        mint: Mint,
        /// The failed transaction signature.
        signature: [u8; 64],
        /// Compact error classification.
        err_code: u8,
        /// Slot of the failure.
        slot: u64,
    },
    /// Our own sell transaction landed on-chain.
    OurSellConfirmed {
        /// The mint that was sold.
        mint: Mint,
        /// The on-chain transaction signature.
        signature: [u8; 64],
        /// Slot of the confirmation.
        slot: u64,
    },
    /// Our own sell transaction failed on-chain; tokens remain in the wallet.
    OurSellFailed {
        /// The mint that failed to sell.
        mint: Mint,
        /// The failed transaction signature.
        signature: [u8; 64],
        /// Compact error classification.
        err_code: u8,
        /// Slot of the failure.
        slot: u64,
    },
    /// Advance the logical clock by one tick.
    Tick,
}

impl AppEvent {
    /// The market this event concerns, if any (`Tick` concerns none).
    pub fn mint(&self) -> (r: Option<Mint>)
        ensures
            r == spec_event_mint(*self),
    {
        match self {
            AppEvent::MarketTrade { mint, .. }
            | AppEvent::NarrativeSample { mint, .. }
            | AppEvent::SocialCall { mint, .. }
            | AppEvent::WalletAction { mint, .. }
            | AppEvent::OnchainConfirm { mint, .. }
            | AppEvent::TokenMetadata { mint, .. }
            | AppEvent::CreatorAction { mint, .. }
            | AppEvent::Migration { mint, .. }
            | AppEvent::MarketAuxiliary { mint, .. }
            | AppEvent::OurBuyConfirmed { mint, .. }
            | AppEvent::OurBuyFailed { mint, .. }
            | AppEvent::OurSellConfirmed { mint, .. }
            | AppEvent::OurSellFailed { mint, .. } => Some(*mint),
            AppEvent::TimeSignal { .. } | AppEvent::Tick => None,
        }
    }
}

/// The market an event concerns, if any.
pub open spec fn spec_event_mint(e: AppEvent) -> Option<Mint> {
    match e {
        AppEvent::MarketTrade { mint, .. } => Some(mint),
        AppEvent::NarrativeSample { mint, .. } => Some(mint),
        AppEvent::SocialCall { mint, .. } => Some(mint),
        AppEvent::WalletAction { mint, .. } => Some(mint),
        AppEvent::OnchainConfirm { mint, .. } => Some(mint),
        AppEvent::TokenMetadata { mint, .. } => Some(mint),
        AppEvent::CreatorAction { mint, .. } => Some(mint),
        AppEvent::Migration { mint, .. } => Some(mint),
        AppEvent::MarketAuxiliary { mint, .. } => Some(mint),
        AppEvent::OurBuyConfirmed { mint, .. } => Some(mint),
        AppEvent::OurBuyFailed { mint, .. } => Some(mint),
        AppEvent::OurSellConfirmed { mint, .. } => Some(mint),
        AppEvent::OurSellFailed { mint, .. } => Some(mint),
        AppEvent::TimeSignal { .. } => None,
        AppEvent::Tick => None,
    }
}

/// All four lanes, in canonical order.
pub fn all_lanes() -> (r: [LaneKind; 4])
    ensures
        r@ == seq![LaneKind::Numeric, LaneKind::Narrative, LaneKind::Social, LaneKind::Wallet],
{
    [LaneKind::Numeric, LaneKind::Narrative, LaneKind::Social, LaneKind::Wallet]
}

} // verus!
