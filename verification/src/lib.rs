//! Order matching engine: a price-time priority limit/market book with verified
//! matching, order storage, ITCH decoding and a line wire protocol.

pub mod store;
pub mod text;
pub mod book;
pub mod engine;
pub mod error;
pub mod distributed_wire;
pub mod events;
pub mod gateway;
pub mod harness;
pub mod itch;
pub mod matching;
pub mod parallel;
pub mod pool;
pub mod self_trade;
pub mod sequence;
pub mod types;
pub mod workload;
