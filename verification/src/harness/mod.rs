//! Ready-made components for tests and benchmarks: crossing and self-trade policies, an
//! in-memory price book and order store, and a collecting event sink.

mod memory;
mod policy;
mod sink;

pub use memory::{InMemoryOrderStore, InMemoryPriceBook, priority_of};
pub use sink::{AnyEvents, CollectingEventSink};
pub use policy::{
    AllowSelfTradePolicy, CrossingMatchingPolicy, RejectSelfTradePolicy, crossing_decision,
};
