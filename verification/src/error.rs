//! Top-level error type and the rejection reasons the engine reports.

use vstd::prelude::*;
use vstd::string::*;
use vstd::std_specs::convert::FromSpecImpl;
use crate::events::EventSinkError;
use crate::matching::MatchingPolicyError;
use crate::self_trade::SelfTradePolicyError;
use crate::sequence::SequenceGeneratorError;
use crate::store::OrderStoreError;
use crate::text::{owned, push_decimal, decimal};
use crate::types::OrderId;

verus! {

#[verifier::external_type_specification]
#[verifier::external_body]
pub struct ExIoError(std::io::Error);

/// Result type
pub type Result<T> = core::result::Result<T, Error>;

/// Rejection Error
#[derive(Debug, Clone, Copy, PartialEq, Eq, Structural)]
pub enum RejectionError {
    /// Invalid price
    InvalidPrice,
    /// Invalid quantity
    InvalidQuantity,
    /// Self trade
    SelfTrade,
    /// Order not found
    OrderNotFound(OrderId),
    /// Stale sequence
    StaleSequence,
    /// Participant mismatch
    ParticipantMismatch,
    /// Invariant violation
    PriceBookInvariantViolation,
    /// Insufficient liquidity
    InsufficientLiquidity,
    /// Symbol already exists
    SymbolDuplicate,
    /// Symbol not found
    SymbolNotFound,
    /// Order book already exists
    OrderBookDuplicate,
    /// Order book not found
    OrderBookNotFound,
    /// Order already exists
    OrderDuplicate,
    /// Invalid order id
    OrderIdInvalid,
    /// Invalid order type
    OrderTypeInvalid,
    /// Invalid order parameter (e.g. stop/limit combination)
    OrderParameterInvalid,
    /// Invalid order quantity
    OrderQuantityInvalid,
}

impl RejectionError {
    /// The human-readable message of this rejection.
    pub open spec fn message(&self) -> Seq<char> {
        match self {
            RejectionError::InvalidPrice => "invalid price"@,
            RejectionError::InvalidQuantity => "invalid quantity"@,
            RejectionError::SelfTrade => "self trade"@,
            RejectionError::OrderNotFound(id) => "order not found: "@ + decimal(*id as nat),
            RejectionError::StaleSequence => "stale sequence"@,
            RejectionError::ParticipantMismatch => "participant mismatch"@,
            RejectionError::PriceBookInvariantViolation => "invariant violation"@,
            RejectionError::InsufficientLiquidity => "insufficient liquidity"@,
            RejectionError::SymbolDuplicate => "symbol already exists"@,
            RejectionError::SymbolNotFound => "symbol not found"@,
            RejectionError::OrderBookDuplicate => "order book already exists"@,
            RejectionError::OrderBookNotFound => "order book not found"@,
            RejectionError::OrderDuplicate => "order already exists"@,
            RejectionError::OrderIdInvalid => "invalid order id"@,
            RejectionError::OrderTypeInvalid => "invalid order type"@,
            RejectionError::OrderParameterInvalid => "invalid order parameter"@,
            RejectionError::OrderQuantityInvalid => "invalid order quantity"@,
        }
    }

    /// Renders the rejection message.
    pub fn to_string(&self) -> (r: String)
        ensures
            r@ == self.message(),
    {
        match self {
            RejectionError::InvalidPrice => owned("invalid price"),
            RejectionError::InvalidQuantity => owned("invalid quantity"),
            RejectionError::SelfTrade => owned("self trade"),
            RejectionError::OrderNotFound(id) => {
                let mut r = owned("order not found: ");
                push_decimal(&mut r, *id);
                r
            },
            RejectionError::StaleSequence => owned("stale sequence"),
            RejectionError::ParticipantMismatch => owned("participant mismatch"),
            RejectionError::PriceBookInvariantViolation => owned("invariant violation"),
            RejectionError::InsufficientLiquidity => owned("insufficient liquidity"),
            RejectionError::SymbolDuplicate => owned("symbol already exists"),
            RejectionError::SymbolNotFound => owned("symbol not found"),
            RejectionError::OrderBookDuplicate => owned("order book already exists"),
            RejectionError::OrderBookNotFound => owned("order book not found"),
            RejectionError::OrderDuplicate => owned("order already exists"),
            RejectionError::OrderIdInvalid => owned("invalid order id"),
            RejectionError::OrderTypeInvalid => owned("invalid order type"),
            RejectionError::OrderParameterInvalid => owned("invalid order parameter"),
            RejectionError::OrderQuantityInvalid => owned("invalid order quantity"),
        }
    }
}

/// Feed (ITCH) decoding and reading errors.
#[derive(Debug)]
pub enum FeedError {
    /// A frame or payload was shorter than its format requires.
    Parse {
        /// Bytes required.
        required: usize,
        /// Bytes available.
        got: usize,
    },
    /// Unknown ITCH message type byte.
    InvalidMessageType(u8),
    /// Buy/sell indicator that is neither `B` nor `S`.
    InvalidBuySell(u8),
    /// Reading the underlying stream failed.
    Io(std::io::Error),
}

impl FeedError {
    /// The human-readable message of this error (an I/O failure is reported without
    /// the operating system's detail).
    pub open spec fn message(&self) -> Seq<char> {
        match self {
            FeedError::Parse { required, got } => "parse error: required "@ + decimal(*required as nat)
                + " bytes, got "@ + decimal(*got as nat),
            FeedError::InvalidMessageType(b) => "invalid message type: "@ + decimal(*b as nat),
            FeedError::InvalidBuySell(b) => "invalid buy/sell indicator: "@ + decimal(*b as nat),
            FeedError::Io(_) => "io error"@,
        }
    }

    /// Renders the error message.
    pub fn to_string(&self) -> (r: String)
        ensures
            r@ == self.message(),
    {
        match self {
            FeedError::Parse { required, got } => {
                let mut r = owned("parse error: required ");
                push_decimal(&mut r, *required as u64);
                r.append(" bytes, got ");
                push_decimal(&mut r, *got as u64);
                r
            },
            FeedError::InvalidMessageType(b) => {
                let mut r = owned("invalid message type: ");
                push_decimal(&mut r, *b as u64);
                r
            },
            FeedError::InvalidBuySell(b) => {
                let mut r = owned("invalid buy/sell indicator: ");
                push_decimal(&mut r, *b as u64);
                r
            },
            FeedError::Io(_) => owned("io error"),
        }
    }
}

/// Error enum
#[derive(Debug)]
pub enum Error {
    /// Sequence generator error
    Sequence(SequenceGeneratorError),
    /// Order store error
    OrderStore(OrderStoreError),
    /// Matching policy error
    MatchingPolicy(MatchingPolicyError),
    /// Self trade policy error
    SelfTradePolicy(SelfTradePolicyError),
    /// Event sink error
    EventSink(EventSinkError),
    /// Rejection error
    Rejection(RejectionError),
    /// Feed decoding error
    Feed(FeedError),
}

impl Error {
    /// The human-readable message of this error.
    pub open spec fn message(&self) -> Seq<char> {
        match self {
            Error::Sequence(e) => "sequence: "@ + e.message(),
            Error::OrderStore(e) => "order store: "@ + e.message(),
            Error::MatchingPolicy(e) => "matching policy: "@ + e.message(),
            Error::SelfTradePolicy(e) => "self trade policy: "@ + e.message(),
            Error::EventSink(e) => "event sink: "@ + e.message(),
            Error::Rejection(e) => "rejection: "@ + e.message(),
            Error::Feed(e) => "feed: "@ + e.message(),
        }
    }

    /// Renders the error message.
    pub fn to_string(&self) -> (r: String)
        ensures
            r@ == self.message(),
    {
        let (mut r, inner) = match self {
            Error::Sequence(e) => (owned("sequence: "), e.to_string()),
            Error::OrderStore(e) => (owned("order store: "), e.to_string()),
            Error::MatchingPolicy(e) => (owned("matching policy: "), e.to_string()),
            Error::SelfTradePolicy(e) => (owned("self trade policy: "), e.to_string()),
            Error::EventSink(e) => (owned("event sink: "), e.to_string()),
            Error::Rejection(e) => (owned("rejection: "), e.to_string()),
            Error::Feed(e) => (owned("feed: "), e.to_string()),
        };
        r.append(inner.as_str());
        r
    }
}

impl From<SequenceGeneratorError> for Error {
    fn from(e: SequenceGeneratorError) -> (r: Self) {
        Error::Sequence(e)
    }
}

impl FromSpecImpl<SequenceGeneratorError> for Error {
    open spec fn obeys_from_spec() -> bool {
        true
    }

    open spec fn from_spec(e: SequenceGeneratorError) -> Self {
        Error::Sequence(e)
    }
}

impl From<OrderStoreError> for Error {
    fn from(e: OrderStoreError) -> (r: Self) {
        Error::OrderStore(e)
    }
}

impl FromSpecImpl<OrderStoreError> for Error {
    open spec fn obeys_from_spec() -> bool {
        true
    }

    open spec fn from_spec(e: OrderStoreError) -> Self {
        Error::OrderStore(e)
    }
}

impl From<MatchingPolicyError> for Error {
    fn from(e: MatchingPolicyError) -> (r: Self) {
        Error::MatchingPolicy(e)
    }
}

impl FromSpecImpl<MatchingPolicyError> for Error {
    open spec fn obeys_from_spec() -> bool {
        true
    }

    open spec fn from_spec(e: MatchingPolicyError) -> Self {
        Error::MatchingPolicy(e)
    }
}

impl From<SelfTradePolicyError> for Error {
    fn from(e: SelfTradePolicyError) -> (r: Self) {
        Error::SelfTradePolicy(e)
    }
}

impl FromSpecImpl<SelfTradePolicyError> for Error {
    open spec fn obeys_from_spec() -> bool {
        true
    }

    open spec fn from_spec(e: SelfTradePolicyError) -> Self {
        Error::SelfTradePolicy(e)
    }
}

impl From<EventSinkError> for Error {
    fn from(e: EventSinkError) -> (r: Self) {
        Error::EventSink(e)
    }
}

impl FromSpecImpl<EventSinkError> for Error {
    open spec fn obeys_from_spec() -> bool {
        true
    }

    open spec fn from_spec(e: EventSinkError) -> Self {
        Error::EventSink(e)
    }
}

impl From<RejectionError> for Error {
    fn from(e: RejectionError) -> (r: Self) {
        Error::Rejection(e)
    }
}

impl FromSpecImpl<RejectionError> for Error {
    open spec fn obeys_from_spec() -> bool {
        true
    }

    open spec fn from_spec(e: RejectionError) -> Self {
        Error::Rejection(e)
    }
}

impl From<FeedError> for Error {
    fn from(e: FeedError) -> (r: Self) {
        Error::Feed(e)
    }
}

impl FromSpecImpl<FeedError> for Error {
    open spec fn obeys_from_spec() -> bool {
        true
    }

    open spec fn from_spec(e: FeedError) -> Self {
        Error::Feed(e)
    }
}

} // verus!
