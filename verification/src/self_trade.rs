//! Self-trade prevention policies.

use vstd::prelude::*;
use vstd::string::*;
use crate::text::{owned, push_decimal, decimal};
use crate::types::{Order, OrderId, ParticipantId};

verus! {

/// Self trade prevention policy error
#[derive(Debug)]
pub enum SelfTradePolicyError {
    /// Same participant
    SameParticipant {
        /// Participant ID
        participant_id: ParticipantId,
        /// Aggressor order ID
        aggressor: OrderId,
        /// Resting order ID
        resting: OrderId,
    },
    /// Policy misconfigured
    PolicyMisconfigured(String),
    /// Unexpected error
    UnexpectedError(String),
}

impl SelfTradePolicyError {
    /// The human-readable message of this error.
    pub open spec fn message(&self) -> Seq<char> {
        match self {
            SelfTradePolicyError::SameParticipant { participant_id, aggressor, resting } =>
                "same participant: "@ + decimal(*participant_id as nat) + ", aggressor: "@
                    + decimal(*aggressor as nat) + ", resting: "@ + decimal(*resting as nat),
            SelfTradePolicyError::PolicyMisconfigured(s) => "policy misconfigured: "@ + s@,
            SelfTradePolicyError::UnexpectedError(s) => "unexpected error: "@ + s@,
        }
    }

    /// Renders the error message.
    pub fn to_string(&self) -> (r: String)
        ensures
            r@ == self.message(),
    {
        match self {
            SelfTradePolicyError::SameParticipant { participant_id, aggressor, resting } => {
                let mut r = owned("same participant: ");
                push_decimal(&mut r, *participant_id);
                r.append(", aggressor: ");
                push_decimal(&mut r, *aggressor);
                r.append(", resting: ");
                push_decimal(&mut r, *resting);
                r
            },
            SelfTradePolicyError::PolicyMisconfigured(s) => {
                let mut r = owned("policy misconfigured: ");
                r.append(s.as_str());
                r
            },
            SelfTradePolicyError::UnexpectedError(s) => {
                let mut r = owned("unexpected error: ");
                r.append(s.as_str());
                r
            },
        }
    }
}

/// Self trade prevention trait
pub trait SelfTradePolicy {
    /// Whether the policy may call a match of these two orders a self trade (a policy
    /// that does not say may call any match one).
    open spec fn flags(&self, incoming: Order, resting: Order) -> bool {
        true
    }

    /// Whether the policy may answer `e` for these two orders; a policy that does not say
    /// may answer any error.
    open spec fn errs(&self, incoming: Order, resting: Order, e: SelfTradePolicyError) -> bool {
        true
    }

    /// Check if a match between the two orders would be a self trade
    fn violates(&self, incoming: &Order, resting: &Order) -> (r: Result<bool, SelfTradePolicyError>)
        ensures
            r == Ok::<bool, SelfTradePolicyError>(true) ==> self.flags(*incoming, *resting),
            r matches Err(e) ==> self.errs(*incoming, *resting, e),
    ;
}

/// Self trade policy that never reports a violation (allow all).
#[derive(Debug, Clone, Default)]
pub struct AllowAllSelfTradePolicy;

impl SelfTradePolicy for AllowAllSelfTradePolicy {
    open spec fn errs(&self, incoming: Order, resting: Order, e: SelfTradePolicyError) -> bool {
        false
    }

    open spec fn flags(&self, incoming: Order, resting: Order) -> bool {
        false
    }

    fn violates(&self, _incoming: &Order, _resting: &Order) -> (r: Result<bool, SelfTradePolicyError>)
        ensures
            r == Ok::<bool, SelfTradePolicyError>(false),
    {
        Ok(false)
    }
}

} // verus!
