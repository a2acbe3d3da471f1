//! The engine's event step over the planes this library holds: one event in,
//! the next state and the actions that the planes held elsewhere must perform
//! out. Decoded swaps feed the numeric lane, the continuous holder ledger and
//! (on the holder-sample cadence) the concentration trajectory; attention,
//! social and wallet events feed their lanes; on-chain confirmations are kept
//! with the tick they were seen at; migrations advance the chain-slot cursor;
//! a `Tick` advances the logical clock and asks for an evaluation pass.

use vstd::prelude::*;

use crate::event::AppEvent;
use crate::holder_concentration::{
    internal_concentration_of, spec_internal, ConcentrationTrajectoryPlane, InternalUnknown, InternalVerdict,
};
use crate::holder_flow::{HolderFlow, HolderFold};
use crate::lane::{
    narrative_observed, sat_add_u64, social_observed, NarrativeLane, NarrativeObs, NumericLane, SocialLane, SocialObs, WalletLane,
    WalletObs, LANE_TRACK_CAP,
};
use crate::measured_state::MeasuredState;
use crate::table::{lemma_prepare_then_set, prior_or, upserted, EvictionWeight, KeyTable};

verus! {

/// An on-chain confirmation as the engine keeps it: the sellable (payout)
/// depth it proved and the tick it was seen at.
#[derive(Clone, Copy, Debug, PartialEq, Eq)]
pub struct Confirmation {
    /// Sellable depth, lamports.
    pub depth: u64,
    /// The logical tick of the confirmation.
    pub at_tick: u64,
}

impl EvictionWeight for Confirmation {
    open spec fn spec_weight(&self) -> u64 {
        self.depth
    }

    fn weight(&self) -> (w: u64) {
        self.depth
    }
}

/// Work for the planes this library does not hold.
#[derive(Clone, Copy, Debug, PartialEq, Eq)]
pub enum EngineAction {
    /// Hand the event on (market context, flow and wallet screens, bar
    /// structure, VPIN, held positions, category and creator ledgers).
    Forward(AppEvent),
    /// A holder-count sample for the growth estimator, at information time.
    HolderSample { mint: [u8; 32], count: u64, info_time_ns: u64 },
    /// Run the evaluation pass at the new tick.
    Evaluate { now: u64 },
}

/// The engine state the step folds events into.
pub struct EngineCore {
    /// The logical tick.
    pub now: u64,
    /// Information time per tick, nanoseconds.
    pub tick_ns: u64,
    /// Bound on kept confirmations.
    pub confirmed_cap: usize,
    /// The on-chain numeric lane.
    pub numeric: NumericLane,
    /// The narrative attention lane.
    pub narrative: NarrativeLane,
    /// The social lane.
    pub social: SocialLane,
    /// The wallet lane.
    pub wallet: WalletLane,
    /// The continuous holder ledger.
    pub holders: HolderFlow,
    /// The concentration trajectory plane.
    pub trajectory: ConcentrationTrajectoryPlane,
    /// Chain-slot cursor and meta intervals.
    pub measured: MeasuredState,
    /// Kept confirmations, weakest depth evicted first.
    pub confirmed: KeyTable<Confirmation>,
}

/// `a x b`, saturating at `u64::MAX`.
pub open spec fn sat_mul_u64(a: u64, b: u64) -> u64 {
    if a * b > u64::MAX { u64::MAX } else { (a * b) as u64 }
}

/// The internal verdict the holder ledger gives for `mint`.
pub open spec fn internal_of(flow: HolderFlow, mint: [u8; 32]) -> InternalVerdict {
    match flow.ledger(mint) {
        None => InternalVerdict::Unknown(InternalUnknown::Untracked),
        Some(l) => spec_internal(l.basis, l.entities),
    }
}

impl EngineCore {
    /// Every plane is well formed and the confirmations stay within their bound.
    pub open spec fn wf(&self) -> bool {
        &&& self.numeric.wf()
        &&& self.narrative.wf()
        &&& self.social.wf()
        &&& self.wallet.wf()
        &&& self.holders.wf()
        &&& self.trajectory.wf()
        &&& self.measured.wf()
        &&& self.confirmed.wf()
        &&& self.confirmed_cap >= 1
        &&& self.confirmed.entries().len() <= self.confirmed_cap
    }

    /// A fresh engine state at tick 0.
    pub fn new(tick_ns: u64, confirmed_cap: usize) -> (r: Self)
        ensures
            r.wf(),
            r.now == 0,
            r.tick_ns == tick_ns,
            r.confirmed_cap == (if confirmed_cap >= 1 { confirmed_cap } else { 1 }),
            r.confirmed.entries().len() == 0,
            r.numeric.evidence().entries().len() == 0,
            r.holders.tracked_count() == 0,
            r.trajectory.tracked_count() == 0,
            r.measured.slot_cursor() == 0,
    {
        EngineCore {
            now: 0,
            tick_ns,
            confirmed_cap: if confirmed_cap >= 1 { confirmed_cap } else { 1 },
            numeric: NumericLane::new(),
            narrative: NarrativeLane::new(),
            social: SocialLane::new(),
            wallet: WalletLane::new(),
            holders: HolderFlow::new(),
            trajectory: ConcentrationTrajectoryPlane::new(),
            measured: MeasuredState::new(),
            confirmed: KeyTable::new(),
        }
    }

    /// Everything but the named planes is unchanged.
    pub open spec fn same_config(a: EngineCore, b: EngineCore) -> bool {
        a.tick_ns == b.tick_ns && a.confirmed_cap == b.confirmed_cap
    }

    /// The step's effect on the state and the actions it asks for.
    pub open spec fn step_transition(old: EngineCore, new: EngineCore, ev: AppEvent, actions: Seq<EngineAction>) -> bool {
        &&& Self::same_config(old, new)
        &&& match ev {
            AppEvent::MarketTrade {
                mint,
                price_fp,
                quote_lamports,
                liquidity_lamports,
                signed_base,
                buyer_entity,
                age_slots,
            } => {
                let ns = sat_mul_u64(old.now, old.tick_ns);
                &&& new.now == old.now
                &&& NumericLane::observe_transition(
                    old.numeric,
                    new.numeric,
                    mint,
                    price_fp,
                    quote_lamports,
                    liquidity_lamports,
                    signed_base,
                    buyer_entity,
                    age_slots,
                    old.now,
                )
                &&& exists|f: HolderFold| {
                    &&& #[trigger] HolderFlow::swap_transition(
                        old.holders,
                        new.holders,
                        mint,
                        buyer_entity,
                        signed_base,
                        old.now,
                        ns,
                        Some(age_slots as u64),
                        f,
                    )
                    &&& match f.sample {
                        Some(count) => {
                            &&& ConcentrationTrajectoryPlane::observe_transition(
                                old.trajectory,
                                new.trajectory,
                                mint,
                                internal_of(new.holders, mint),
                                old.now,
                                ns,
                            )
                            &&& actions == seq![
                                EngineAction::HolderSample { mint, count, info_time_ns: ns },
                                EngineAction::Forward(ev),
                            ]
                        },
                        None => new.trajectory == old.trajectory && actions == seq![EngineAction::Forward(ev)],
                    }
                }
                &&& new.narrative == old.narrative && new.social == old.social && new.wallet == old.wallet
                &&& new.measured == old.measured && new.confirmed == old.confirmed
            },
            AppEvent::NarrativeSample { mint, prior_active, new_mentions } => {
                &&& upserted(
                    old.narrative.evidence(),
                    new.narrative.evidence(),
                    mint,
                    narrative_observed(
                        prior_or(
                            old.narrative.evidence(),
                            mint,
                            NarrativeObs { prior_active: 0, new_mentions: 0, samples: 0, last_tick: 0 },
                        ),
                        prior_active,
                        new_mentions,
                        old.now,
                    ),
                    LANE_TRACK_CAP as nat,
                )
                &&& new.now == old.now && new.numeric == old.numeric && new.social == old.social
                &&& new.wallet == old.wallet && new.holders == old.holders && new.trajectory == old.trajectory
                &&& new.measured == old.measured && new.confirmed == old.confirmed
                &&& actions == Seq::<EngineAction>::empty()
            },
            AppEvent::SocialCall { mint, source_quality_bp } => {
                &&& upserted(
                    old.social.evidence(),
                    new.social.evidence(),
                    mint,
                    social_observed(
                        prior_or(old.social.evidence(), mint, SocialObs { quality: 0, last: old.now, alpha: false }),
                        source_quality_bp,
                        old.now,
                        false,
                    ),
                    LANE_TRACK_CAP as nat,
                )
                &&& new.now == old.now && new.numeric == old.numeric && new.narrative == old.narrative
                &&& new.wallet == old.wallet && new.holders == old.holders && new.trajectory == old.trajectory
                &&& new.measured == old.measured && new.confirmed == old.confirmed
                &&& actions == Seq::<EngineAction>::empty()
            },
            AppEvent::WalletAction { mint, followable, size_lamports } => {
                &&& (!followable ==> new.wallet.evidence() == old.wallet.evidence())
                &&& (followable ==> upserted(
                    old.wallet.evidence(),
                    new.wallet.evidence(),
                    mint,
                    ({
                        let prior = prior_or(old.wallet.evidence(), mint, WalletObs { size: 0, last: old.now });
                        WalletObs { size: sat_add_u64(prior.size, size_lamports), last: old.now }
                    }),
                    LANE_TRACK_CAP as nat,
                ))
                &&& new.now == old.now && new.numeric == old.numeric && new.narrative == old.narrative
                &&& new.social == old.social && new.holders == old.holders && new.trajectory == old.trajectory
                &&& new.measured == old.measured && new.confirmed == old.confirmed
                &&& actions == Seq::<EngineAction>::empty()
            },
            AppEvent::OnchainConfirm { mint, virtual_sol_lamports, real_sol_lamports } => {
                &&& upserted(
                    old.confirmed,
                    new.confirmed,
                    mint,
                    Confirmation { depth: real_sol_lamports, at_tick: old.now },
                    old.confirmed_cap as nat,
                )
                &&& new.now == old.now && new.numeric == old.numeric && new.narrative == old.narrative
                &&& new.social == old.social && new.wallet == old.wallet && new.holders == old.holders
                &&& new.trajectory == old.trajectory && new.measured == old.measured
                &&& actions == Seq::<EngineAction>::empty()
            },
            AppEvent::Migration { mint, slot } => {
                &&& new.measured.slot_cursor() == (if slot > old.measured.slot_cursor() { slot } else { old.measured.slot_cursor() })
                &&& forall|c: u64| #[trigger] new.measured.last_totals(c) == old.measured.last_totals(c)
                &&& new.now == old.now && new.numeric == old.numeric && new.narrative == old.narrative
                &&& new.social == old.social && new.wallet == old.wallet && new.holders == old.holders
                &&& new.trajectory == old.trajectory && new.confirmed == old.confirmed
                &&& actions == seq![EngineAction::Forward(ev)]
            },
            AppEvent::Tick => {
                &&& new.now == (if old.now == u64::MAX { u64::MAX } else { (old.now + 1) as u64 })
                &&& new.numeric == old.numeric && new.narrative == old.narrative && new.social == old.social
                &&& new.wallet == old.wallet && new.holders == old.holders && new.trajectory == old.trajectory
                &&& new.measured == old.measured && new.confirmed == old.confirmed
                &&& actions == seq![EngineAction::Evaluate { now: new.now }]
            },
            _ => {
                &&& new.now == old.now && new.numeric == old.numeric && new.narrative == old.narrative
                &&& new.social == old.social && new.wallet == old.wallet && new.holders == old.holders
                &&& new.trajectory == old.trajectory && new.measured == old.measured
                &&& new.confirmed == old.confirmed
                &&& actions == seq![EngineAction::Forward(ev)]
            },
        }
    }

    /// Fold one event into the state and return the work the planes held
    /// elsewhere must do for it.
    pub fn step(&mut self, ev: &AppEvent) -> (actions: Vec<EngineAction>)
        requires
            old(self).wf(),
        ensures
            final(self).wf(),
            Self::step_transition(*old(self), *final(self), *ev, actions@),
    {
        let mut actions: Vec<EngineAction> = Vec::new();
        match *ev {
            AppEvent::MarketTrade {
                mint,
                price_fp,
                quote_lamports,
                liquidity_lamports,
                signed_base,
                buyer_entity,
                age_slots,
            } => {
                let now = self.now;
                self.numeric.observe(
                    mint,
                    price_fp,
                    quote_lamports,
                    liquidity_lamports,
                    signed_base,
                    buyer_entity,
                    age_slots,
                    now,
                );
                let ns: u64 = match now.checked_mul(self.tick_ns) {
                    Some(v) => v,
                    None => u64::MAX,
                };
                let fold = self.holders.observe_swap_aged(&mint, buyer_entity, signed_base, now, ns, Some(age_slots as u64));
                assert(ns == sat_mul_u64(now, self.tick_ns));
                match fold.sample {
                    Some(count) => {
                        actions.push(EngineAction::HolderSample { mint, count, info_time_ns: ns });
                        let internal = internal_concentration_of(&self.holders, &mint);
                        self.trajectory.observe(&mint, internal, now, ns);
                        actions.push(EngineAction::Forward(*ev));
                        assert(actions@ =~= seq![
                            EngineAction::HolderSample { mint, count, info_time_ns: ns },
                            EngineAction::Forward(*ev),
                        ]);
                    },
                    None => {
                        actions.push(EngineAction::Forward(*ev));
                        assert(actions@ =~= seq![EngineAction::Forward(*ev)]);
                    },
                }
                assert(HolderFlow::swap_transition(
                    old(self).holders,
                    self.holders,
                    mint,
                    buyer_entity,
                    signed_base,
                    now,
                    ns,
                    Some(age_slots as u64),
                    fold,
                ));
            },
            AppEvent::NarrativeSample { mint, prior_active, new_mentions } => {
                let now = self.now;
                self.narrative.observe(mint, prior_active, new_mentions, now);
            },
            AppEvent::SocialCall { mint, source_quality_bp } => {
                let now = self.now;
                self.social.observe(mint, source_quality_bp, now);
            },
            AppEvent::WalletAction { mint, followable, size_lamports } => {
                let now = self.now;
                self.wallet.observe(mint, followable, size_lamports, now);
            },
            AppEvent::OnchainConfirm { mint, virtual_sol_lamports, real_sol_lamports } => {
                let c = Confirmation { depth: real_sol_lamports, at_tick: self.now };
                let ghost o = self.confirmed;
                let p = self.confirmed.prepare(&mint, self.confirmed_cap, c);
                let ghost mid = self.confirmed;
                self.confirmed.set_val(p, c);
                proof {
                    lemma_prepare_then_set(o, mid, self.confirmed, mint, c, c, self.confirmed_cap as nat);
                }
            },
            AppEvent::Migration { mint, slot } => {
                self.measured.observe_slot(slot);
                actions.push(EngineAction::Forward(*ev));
                assert(actions@ =~= seq![EngineAction::Forward(*ev)]);
            },
            AppEvent::Tick => {
                self.now = if self.now == u64::MAX { u64::MAX } else { self.now + 1 };
                actions.push(EngineAction::Evaluate { now: self.now });
                assert(actions@ =~= seq![EngineAction::Evaluate { now: self.now }]);
            },
            _ => {
                actions.push(EngineAction::Forward(*ev));
                assert(actions@ =~= seq![EngineAction::Forward(*ev)]);
            },
        }
        actions
    }
}

} // verus!
