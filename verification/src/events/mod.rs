//! Events emitted by the engine and the sinks that receive them.

pub mod bytes_channel;

pub use bytes_channel::BytesChannelEventSink;

use vstd::prelude::*;
use vstd::string::*;
use crate::error::RejectionError;
use crate::text::owned;
use crate::types::{OrderId, Trade};

verus! {

/// Event
#[derive(Debug, Clone, Copy)]
pub enum Event {
    /// Order accepted
    Accepted(OrderId),
    /// Order rejected
    Rejected(RejectionError),
    /// Order canceled
    Canceled(OrderId),
    /// Trade
    Trade(Trade),
}

/// Event sink error
#[derive(Debug)]
pub enum EventSinkError {
    /// Disconnected
    Disconnected,
    /// Backpressure
    Backpressure,
    /// Serialization failed
    SerializationFailed(String),
    /// Unexpected error
    UnexpectedError(String),
}

impl EventSinkError {
    /// The human-readable message of this error.
    pub open spec fn message(&self) -> Seq<char> {
        match self {
            EventSinkError::Disconnected => "disconnected"@,
            EventSinkError::Backpressure => "backpressure"@,
            EventSinkError::SerializationFailed(s) => "serialization failed: "@ + s@,
            EventSinkError::UnexpectedError(s) => "unexpected error: "@ + s@,
        }
    }

    /// Renders the error message.
    pub fn to_string(&self) -> (r: String)
        ensures
            r@ == self.message(),
    {
        match self {
            EventSinkError::Disconnected => owned("disconnected"),
            EventSinkError::Backpressure => owned("backpressure"),
            EventSinkError::SerializationFailed(s) => {
                let mut r = owned("serialization failed: ");
                r.append(s.as_str());
                r
            },
            EventSinkError::UnexpectedError(s) => {
                let mut r = owned("unexpected error: ");
                r.append(s.as_str());
                r
            },
        }
    }
}

/// Event sink trait. Whether an emit succeeds depends on the sink (a full channel,
/// a disconnected consumer), so nothing is promised of the result here.
pub trait EventSink {
    /// Whether every emit of this sink succeeds (a sink that does not say so may fail).
    open spec fn never_fails(&self) -> bool {
        false
    }

    /// Emit an event
    fn emit(&self, event: Event) -> (r: Result<(), EventSinkError>)
        ensures
            self.never_fails() ==> r is Ok,
    ;
}

/// Event sink that discards all events (e.g. for ingestion tests).
#[derive(Debug, Clone, Default)]
pub struct NoOpEventSink;

impl EventSink for NoOpEventSink {
    open spec fn never_fails(&self) -> bool {
        true
    }

    fn emit(&self, _event: Event) -> (r: Result<(), EventSinkError>)
        ensures
            r is Ok,
    {
        Ok(())
    }
}

} // verus!
