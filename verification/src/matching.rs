//! Matching policies: whether an incoming order may trade with a resting one.

use vstd::prelude::*;
use vstd::string::*;
use crate::text::{owned, push_signed_decimal, signed_decimal};
use crate::types::{Order, Price, Side};

verus! {

/// Matching policy error
#[derive(Debug)]
pub enum MatchingPolicyError {
    /// Incompatible sides
    IncompatibleSides,
    /// Price does not cross
    PriceDoesNotCross {
        /// Incoming price
        incoming_price: Option<Price>,
        /// Resting price
        resting_price: Price,
    },
    /// Undefined market price (market vs empty book)
    UndefinedMarketPrice,
    /// Invalid order type combination
    InvalidOrderTypeCombination,
    /// Unexpected error
    UnexpectedError(String),
}

/// `Some(v)` / `None` as text.
pub open spec fn option_text(p: Option<Price>) -> Seq<char> {
    match p {
        Some(v) => "Some("@ + signed_decimal(v as int) + ")"@,
        None => "None"@,
    }
}

impl MatchingPolicyError {
    /// The human-readable message of this error.
    pub open spec fn message(&self) -> Seq<char> {
        match self {
            MatchingPolicyError::IncompatibleSides => "incompatible sides"@,
            MatchingPolicyError::PriceDoesNotCross { incoming_price, resting_price } =>
                "price does not cross: incoming: "@ + option_text(*incoming_price) + " vs resting: "@
                    + signed_decimal(*resting_price as int),
            MatchingPolicyError::UndefinedMarketPrice => "undefined market price"@,
            MatchingPolicyError::InvalidOrderTypeCombination => "invalid order type combination"@,
            MatchingPolicyError::UnexpectedError(s) => "unexpected error: "@ + s@,
        }
    }

    /// Renders the error message.
    pub fn to_string(&self) -> (r: String)
        ensures
            r@ == self.message(),
    {
        match self {
            MatchingPolicyError::IncompatibleSides => owned("incompatible sides"),
            MatchingPolicyError::PriceDoesNotCross { incoming_price, resting_price } => {
                let mut r = owned("price does not cross: incoming: ");
                match incoming_price {
                    Some(v) => {
                        r.append("Some(");
                        push_signed_decimal(&mut r, *v);
                        r.append(")");
                    },
                    None => r.append("None"),
                }
                r.append(" vs resting: ");
                push_signed_decimal(&mut r, *resting_price);
                r
            },
            MatchingPolicyError::UndefinedMarketPrice => owned("undefined market price"),
            MatchingPolicyError::InvalidOrderTypeCombination => owned("invalid order type combination"),
            MatchingPolicyError::UnexpectedError(s) => {
                let mut r = owned("unexpected error: ");
                r.append(s.as_str());
                r
            },
        }
    }
}

/// Matching policy trait
pub trait MatchingPolicy {
    /// Whether the policy may refuse to match `incoming` against `resting`; a policy that
    /// states no rule may refuse any pair.
    open spec fn refuses(&self, incoming: Order, resting: Order) -> bool {
        true
    }

    /// Whether the policy may answer `e` for `incoming` against `resting`; a policy that
    /// states no rule may answer any error.
    open spec fn errs(&self, incoming: Order, resting: Order, e: MatchingPolicyError) -> bool {
        true
    }

    /// Check if an order can match with a resting order
    fn can_match(&self, incoming: &Order, resting: &Order) -> (r: Result<bool, MatchingPolicyError>)
        ensures
            r == Ok::<bool, MatchingPolicyError>(false) ==> self.refuses(*incoming, *resting),
            r matches Err(e) ==> self.errs(*incoming, *resting, e),
    ;
}

/// What [`PriceCrossMatchingPolicy`] decides: sides must differ, the resting order must
/// carry a price, and the incoming limit must reach it (a buy at or above, a sell at
/// or below); an incoming market order (no price) matches any resting limit order.
pub open spec fn price_cross_decision(incoming: Order, resting: Order) -> Result<bool, MatchingPolicyError> {
    if incoming.side == resting.side {
        Err(MatchingPolicyError::IncompatibleSides)
    } else {
        match resting.price {
            None => Err(
                MatchingPolicyError::PriceDoesNotCross {
                    incoming_price: incoming.price,
                    resting_price: 0,
                },
            ),
            Some(rp) => match incoming.price {
                None => Ok(true),
                Some(ip) => Ok(
                    match incoming.side {
                        Side::Buy => ip >= rp,
                        Side::Sell => ip <= rp,
                    },
                ),
            },
        }
    }
}

/// Matching policy that allows a match when sides are opposite and price crosses.
#[derive(Debug, Clone, Default)]
pub struct PriceCrossMatchingPolicy;

impl MatchingPolicy for PriceCrossMatchingPolicy {
    open spec fn refuses(&self, incoming: Order, resting: Order) -> bool {
        price_cross_decision(incoming, resting) == Ok::<bool, MatchingPolicyError>(false)
    }

    open spec fn errs(&self, incoming: Order, resting: Order, e: MatchingPolicyError) -> bool {
        price_cross_decision(incoming, resting) == Err::<bool, MatchingPolicyError>(e)
    }

    fn can_match(&self, incoming: &Order, resting: &Order) -> (r: Result<bool, MatchingPolicyError>)
        ensures
            r == price_cross_decision(*incoming, *resting),
    {
        if incoming.side == resting.side {
            return Err(MatchingPolicyError::IncompatibleSides);
        }
        let resting_price = match resting.price {
            Some(p) => p,
            None => {
                return Err(
                    MatchingPolicyError::PriceDoesNotCross {
                        incoming_price: incoming.price,
                        resting_price: 0,
                    },
                );
            },
        };
        let crosses = match (incoming.side, incoming.price) {
            (Side::Buy, Some(p)) => p >= resting_price,
            (Side::Sell, Some(p)) => p <= resting_price,
            (_, None) => true,
        };
        Ok(crosses)
    }
}

/// Law: [`PriceCrossMatchingPolicy`] matches orders of opposite sides when the resting
/// order has a price and the incoming one reaches it (a buy at or above, a sell at or
/// below) or has no price (a market order); orders of the same side are an error.
pub proof fn law_price_cross(incoming: Order, resting: Order)
    ensures
        incoming.side == resting.side ==> price_cross_decision(incoming, resting)
            == Err::<bool, MatchingPolicyError>(MatchingPolicyError::IncompatibleSides),
        incoming.side == Side::Buy && resting.side == Side::Sell && resting.price is Some ==> price_cross_decision(
            incoming,
            resting,
        ) == Ok::<bool, MatchingPolicyError>(match incoming.price {
            Some(ip) => ip >= resting.price->Some_0,
            None => true,
        }),
        incoming.side == Side::Sell && resting.side == Side::Buy && resting.price is Some ==> price_cross_decision(
            incoming,
            resting,
        ) == Ok::<bool, MatchingPolicyError>(match incoming.price {
            Some(ip) => ip <= resting.price->Some_0,
            None => true,
        }),
{
}

} // verus!
