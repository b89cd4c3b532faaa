//! Matching and self-trade policies for harness engines.

use vstd::prelude::*;
use crate::matching::{MatchingPolicy, MatchingPolicyError};
use crate::self_trade::{SelfTradePolicy, SelfTradePolicyError};
use crate::types::{Order, Side};

verus! {

/// What [`CrossingMatchingPolicy`] decides: a priced incoming order crosses a priced
/// resting order of the other side when a buy reaches up to it or a sell down to it; an
/// unpriced (market) incoming order matches any priced resting order; a resting order
/// without a price has no defined market price.
pub open spec fn crossing_decision(incoming: Order, resting: Order) -> Result<bool, MatchingPolicyError> {
    match (incoming.price, resting.price) {
        (Some(ip), Some(rp)) => match (incoming.side, resting.side) {
            (Side::Buy, Side::Sell) => Ok(ip >= rp),
            (Side::Sell, Side::Buy) => Ok(ip <= rp),
            _ => Err(MatchingPolicyError::IncompatibleSides),
        },
        (None, Some(_)) => Ok(true),
        _ => Err(MatchingPolicyError::UndefinedMarketPrice),
    }
}

/// Matching when prices cross (incl. market aggressor vs limit resting).
#[derive(Debug, Clone, Copy, Default)]
pub struct CrossingMatchingPolicy;

impl MatchingPolicy for CrossingMatchingPolicy {
    open spec fn refuses(&self, incoming: Order, resting: Order) -> bool {
        crossing_decision(incoming, resting) == Ok::<bool, MatchingPolicyError>(false)
    }

    open spec fn errs(&self, incoming: Order, resting: Order, e: MatchingPolicyError) -> bool {
        crossing_decision(incoming, resting) == Err::<bool, MatchingPolicyError>(e)
    }

    fn can_match(&self, incoming: &Order, resting: &Order) -> (r: Result<bool, MatchingPolicyError>)
        ensures
            r == crossing_decision(*incoming, *resting),
    {
        let (in_price, rest_price) = match (incoming.price, resting.price) {
            (Some(ip), Some(rp)) => (ip, rp),
            (None, Some(_)) => return Ok(true),
            _ => return Err(MatchingPolicyError::UndefinedMarketPrice),
        };
        let crosses = match (incoming.side, resting.side) {
            (Side::Buy, Side::Sell) => in_price >= rest_price,
            (Side::Sell, Side::Buy) => in_price <= rest_price,
            _ => return Err(MatchingPolicyError::IncompatibleSides),
        };
        Ok(crosses)
    }
}

/// Self-trade policy that never reports a violation.
#[derive(Debug, Clone, Copy, Default)]
pub struct AllowSelfTradePolicy;

impl SelfTradePolicy for AllowSelfTradePolicy {
    open spec fn errs(&self, incoming: Order, resting: Order, e: SelfTradePolicyError) -> bool {
        false
    }

    open spec fn flags(&self, incoming: Order, resting: Order) -> bool {
        false
    }

    fn violates(&self, _incoming: &Order, _resting: &Order) -> (r: Result<bool, SelfTradePolicyError>)
        ensures
            r == Ok::<bool, SelfTradePolicyError>(false),
    {
        Ok(false)
    }
}

/// Self-trade policy that reports a violation when both orders belong to one participant.
#[derive(Debug, Clone, Copy, Default)]
pub struct RejectSelfTradePolicy;

impl SelfTradePolicy for RejectSelfTradePolicy {
    open spec fn errs(&self, incoming: Order, resting: Order, e: SelfTradePolicyError) -> bool {
        false
    }

    open spec fn flags(&self, incoming: Order, resting: Order) -> bool {
        incoming.participant_id == resting.participant_id
    }

    fn violates(&self, incoming: &Order, resting: &Order) -> (r: Result<bool, SelfTradePolicyError>)
        ensures
            r == Ok::<bool, SelfTradePolicyError>(incoming.participant_id == resting.participant_id),
    {
        Ok(incoming.participant_id == resting.participant_id)
    }
}

/// Law: for priced orders of opposite sides, [`CrossingMatchingPolicy`] lets them match
/// exactly when the prices cross: an incoming sell at or below the resting bid, an
/// incoming buy at or above the resting ask.
pub proof fn law_crossing_prices(incoming: Order, resting: Order)
    requires
        incoming.price is Some,
        resting.price is Some,
        incoming.side != resting.side,
    ensures
        incoming.side == Side::Sell ==> crossing_decision(incoming, resting) == Ok::<bool, MatchingPolicyError>(
            incoming.price->Some_0 <= resting.price->Some_0,
        ),
        incoming.side == Side::Buy ==> crossing_decision(incoming, resting) == Ok::<bool, MatchingPolicyError>(
            incoming.price->Some_0 >= resting.price->Some_0,
        ),
{
}

/// Law: [`CrossingMatchingPolicy`] lets an unpriced (market) incoming order match any
/// priced resting order, and never matches against a resting order without a price.
pub proof fn law_crossing_market(incoming: Order, resting: Order)
    ensures
        incoming.price is None && resting.price is Some ==> crossing_decision(incoming, resting)
            == Ok::<bool, MatchingPolicyError>(true),
        resting.price is None ==> crossing_decision(incoming, resting) is Err,
{
}

} // verus!
