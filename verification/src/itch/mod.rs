//! ITCH 5.0 protocol decoder.
//!
//! This module parses ITCH wire format and produces [`crate::engine::OrderCommand`]s,
//! which are applied via [`crate::engine::OrderMatchingService`].

pub mod wire;
pub mod messages;
pub mod stream;
pub mod buf;

pub use buf::{BufferedReader, Prepared};
pub use messages::{AddOrder, ItchMsgType, message_len};
pub use stream::{decode_book_message, process_itch_bytes, scan_decode_book_messages};
pub use wire::{BuySell, Oid, StockLocate, Timestamp, WirePrice, WireQty};
