//! Integer decision planes of a paper/replay memecoin scalping engine: curve
//! arithmetic, expected-move estimation, freshness and impact vetoes, the decision
//! journal, holder accounting and distribution shape, discovery lanes, the entry
//! decision with its vetoes and sizing chain, exit booking, social intake, the
//! engine's event step and the report-plane ledgers. Every module is
//! deterministic and integer-only.

mod curve;
pub mod keyed;
pub mod table;
pub mod expected_move;

pub use curve::{
    curve_progress_bps, own_impact_bps, spec_curve_progress_bps, spec_own_impact_bps,
    GRADUATION_VSOL_LAMPORTS, LAUNCH_VSOL_LAMPORTS,
};
pub mod freshness;
pub mod impact_cap;
pub mod holder_flow;
pub mod holder_concentration;
pub mod journal_log;
pub mod extraction_risk;
pub mod hazard_scaffold;
pub mod event;
pub mod event_text;
pub mod render;
pub mod live_status;
pub mod measured_state;
pub mod market_context;
pub mod enrichment;
pub mod flow_feed;
pub mod gate;
pub mod admission;
pub mod engine_core;
pub mod booking;
pub mod social_intake;
pub mod engine;
pub mod lane;
