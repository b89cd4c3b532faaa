//! ITCH 5.0 message types and the fixed-layout payloads that affect the book.

use vstd::prelude::*;
use crate::error::FeedError;
use super::wire::{
    BuySell, Oid, StockLocate, Timestamp, WirePrice, WireQty, buy_sell_of, read_locate, read_oid,
    read_price, read_qty, read_timestamp, short, timestamp_at, u16_at, u32_at, u64_at,
};

verus! {

/// ITCH 5.0 message kinds, each named on the wire by one ASCII byte.
#[derive(Debug, Clone, Copy, PartialEq, Eq, Structural)]
pub enum ItchMsgType {
    /// System event (`S`)
    Sysevent,
    /// Stock directory (`R`)
    StockDirectory,
    /// Stock trading action (`H`)
    TradingAction,
    /// Reg SHO short sale price test restriction (`Y`)
    RegShoRestrict,
    /// Market participant position (`L`)
    MpidPosition,
    /// MWCB decline level (`V`)
    MwcbDecline,
    /// MWCB status (`W`)
    MwcbStatus,
    /// IPO quoting period update (`K`)
    IpoQuoteUpdate,
    /// Add order (no MPID attribution) (`A`)
    AddOrder,
    /// Add order with MPID attribution (`F`)
    AddOrderMpid,
    /// Order executed (`E`)
    ExecuteOrder,
    /// Order executed with price (`C`)
    ExecuteOrderWithPrice,
    /// Order cancel (partial) (`X`)
    ReduceOrder,
    /// Order delete (`D`)
    DeleteOrder,
    /// Order replace (`U`)
    ReplaceOrder,
    /// Trade (non-cross) (`P`)
    Trade,
    /// Cross trade (`Q`)
    CrossTrade,
    /// Broken trade (`B`)
    BrokenTrade,
    /// Net order imbalance indicator (`I`)
    NetOrderImbalance,
    /// Retail price improvement indicator (`N`)
    RetailPriceImprovement,
    /// LULD auction collar (`J`)
    ProcessLuldAuctionCollarMessage,
}

/// The wire byte of each message kind.
pub open spec fn msg_code(t: ItchMsgType) -> u8 {
    match t {
        ItchMsgType::Sysevent => 83u8,
        ItchMsgType::StockDirectory => 82u8,
        ItchMsgType::TradingAction => 72u8,
        ItchMsgType::RegShoRestrict => 89u8,
        ItchMsgType::MpidPosition => 76u8,
        ItchMsgType::MwcbDecline => 86u8,
        ItchMsgType::MwcbStatus => 87u8,
        ItchMsgType::IpoQuoteUpdate => 75u8,
        ItchMsgType::AddOrder => 65u8,
        ItchMsgType::AddOrderMpid => 70u8,
        ItchMsgType::ExecuteOrder => 69u8,
        ItchMsgType::ExecuteOrderWithPrice => 67u8,
        ItchMsgType::ReduceOrder => 88u8,
        ItchMsgType::DeleteOrder => 68u8,
        ItchMsgType::ReplaceOrder => 85u8,
        ItchMsgType::Trade => 80u8,
        ItchMsgType::CrossTrade => 81u8,
        ItchMsgType::BrokenTrade => 66u8,
        ItchMsgType::NetOrderImbalance => 73u8,
        ItchMsgType::RetailPriceImprovement => 78u8,
        ItchMsgType::ProcessLuldAuctionCollarMessage => 74u8,
    }
}

/// The message kind a wire byte names, if any.
pub open spec fn msg_type_of(b: u8) -> Option<ItchMsgType> {
    if b == 83u8 {
        Some(ItchMsgType::Sysevent)
    } else if b == 82u8 {
        Some(ItchMsgType::StockDirectory)
    } else if b == 72u8 {
        Some(ItchMsgType::TradingAction)
    } else if b == 89u8 {
        Some(ItchMsgType::RegShoRestrict)
    } else if b == 76u8 {
        Some(ItchMsgType::MpidPosition)
    } else if b == 86u8 {
        Some(ItchMsgType::MwcbDecline)
    } else if b == 87u8 {
        Some(ItchMsgType::MwcbStatus)
    } else if b == 75u8 {
        Some(ItchMsgType::IpoQuoteUpdate)
    } else if b == 65u8 {
        Some(ItchMsgType::AddOrder)
    } else if b == 70u8 {
        Some(ItchMsgType::AddOrderMpid)
    } else if b == 69u8 {
        Some(ItchMsgType::ExecuteOrder)
    } else if b == 67u8 {
        Some(ItchMsgType::ExecuteOrderWithPrice)
    } else if b == 88u8 {
        Some(ItchMsgType::ReduceOrder)
    } else if b == 68u8 {
        Some(ItchMsgType::DeleteOrder)
    } else if b == 85u8 {
        Some(ItchMsgType::ReplaceOrder)
    } else if b == 80u8 {
        Some(ItchMsgType::Trade)
    } else if b == 81u8 {
        Some(ItchMsgType::CrossTrade)
    } else if b == 66u8 {
        Some(ItchMsgType::BrokenTrade)
    } else if b == 73u8 {
        Some(ItchMsgType::NetOrderImbalance)
    } else if b == 78u8 {
        Some(ItchMsgType::RetailPriceImprovement)
    } else if b == 74u8 {
        Some(ItchMsgType::ProcessLuldAuctionCollarMessage)
    } else {
        None
    }
}

/// The fixed payload length (after the type byte) of each message kind.
pub open spec fn msg_len(t: ItchMsgType) -> u8 {
    match t {
        ItchMsgType::Sysevent => 12u8,
        ItchMsgType::StockDirectory => 39u8,
        ItchMsgType::TradingAction => 25u8,
        ItchMsgType::RegShoRestrict => 20u8,
        ItchMsgType::MpidPosition => 26u8,
        ItchMsgType::MwcbDecline => 35u8,
        ItchMsgType::MwcbStatus => 12u8,
        ItchMsgType::IpoQuoteUpdate => 28u8,
        ItchMsgType::AddOrder => 36u8,
        ItchMsgType::AddOrderMpid => 40u8,
        ItchMsgType::ExecuteOrder => 31u8,
        ItchMsgType::ExecuteOrderWithPrice => 36u8,
        ItchMsgType::ReduceOrder => 23u8,
        ItchMsgType::DeleteOrder => 19u8,
        ItchMsgType::ReplaceOrder => 35u8,
        ItchMsgType::Trade => 44u8,
        ItchMsgType::CrossTrade => 40u8,
        ItchMsgType::BrokenTrade => 19u8,
        ItchMsgType::NetOrderImbalance => 50u8,
        ItchMsgType::RetailPriceImprovement => 20u8,
        ItchMsgType::ProcessLuldAuctionCollarMessage => 35u8,
    }
}

impl ItchMsgType {
    /// Decodes the type byte; an unknown byte is an [`FeedError::InvalidMessageType`].
    pub fn try_from(b: u8) -> (r: Result<ItchMsgType, FeedError>)
        ensures
            r == match msg_type_of(b) {
                Some(t) => Ok::<ItchMsgType, FeedError>(t),
                None => Err::<ItchMsgType, FeedError>(FeedError::InvalidMessageType(b)),
            },
    {
        match b {
            83u8 => Ok(ItchMsgType::Sysevent),
            82u8 => Ok(ItchMsgType::StockDirectory),
            72u8 => Ok(ItchMsgType::TradingAction),
            89u8 => Ok(ItchMsgType::RegShoRestrict),
            76u8 => Ok(ItchMsgType::MpidPosition),
            86u8 => Ok(ItchMsgType::MwcbDecline),
            87u8 => Ok(ItchMsgType::MwcbStatus),
            75u8 => Ok(ItchMsgType::IpoQuoteUpdate),
            65u8 => Ok(ItchMsgType::AddOrder),
            70u8 => Ok(ItchMsgType::AddOrderMpid),
            69u8 => Ok(ItchMsgType::ExecuteOrder),
            67u8 => Ok(ItchMsgType::ExecuteOrderWithPrice),
            88u8 => Ok(ItchMsgType::ReduceOrder),
            68u8 => Ok(ItchMsgType::DeleteOrder),
            85u8 => Ok(ItchMsgType::ReplaceOrder),
            80u8 => Ok(ItchMsgType::Trade),
            81u8 => Ok(ItchMsgType::CrossTrade),
            66u8 => Ok(ItchMsgType::BrokenTrade),
            73u8 => Ok(ItchMsgType::NetOrderImbalance),
            78u8 => Ok(ItchMsgType::RetailPriceImprovement),
            74u8 => Ok(ItchMsgType::ProcessLuldAuctionCollarMessage),
            _ => Err(FeedError::InvalidMessageType(b)),
        }
    }

    /// The wire byte of this message kind.
    pub fn byte(self) -> (r: u8)
        ensures
            r == msg_code(self),
    {
        match self {
            ItchMsgType::Sysevent => 83u8,
            ItchMsgType::StockDirectory => 82u8,
            ItchMsgType::TradingAction => 72u8,
            ItchMsgType::RegShoRestrict => 89u8,
            ItchMsgType::MpidPosition => 76u8,
            ItchMsgType::MwcbDecline => 86u8,
            ItchMsgType::MwcbStatus => 87u8,
            ItchMsgType::IpoQuoteUpdate => 75u8,
            ItchMsgType::AddOrder => 65u8,
            ItchMsgType::AddOrderMpid => 70u8,
            ItchMsgType::ExecuteOrder => 69u8,
            ItchMsgType::ExecuteOrderWithPrice => 67u8,
            ItchMsgType::ReduceOrder => 88u8,
            ItchMsgType::DeleteOrder => 68u8,
            ItchMsgType::ReplaceOrder => 85u8,
            ItchMsgType::Trade => 80u8,
            ItchMsgType::CrossTrade => 81u8,
            ItchMsgType::BrokenTrade => 66u8,
            ItchMsgType::NetOrderImbalance => 73u8,
            ItchMsgType::RetailPriceImprovement => 78u8,
            ItchMsgType::ProcessLuldAuctionCollarMessage => 74u8,
        }
    }
}

/// Decoding the wire byte of a message kind gives that kind back, every kind has a
/// non-empty payload, and a byte decodes to a kind exactly when it is that kind's byte.
pub proof fn lemma_msg_type_roundtrip(t: ItchMsgType, b: u8)
    ensures
        msg_type_of(msg_code(t)) == Some(t),
        msg_len(t) > 0,
        msg_type_of(b) matches Some(u) ==> msg_code(u) == b,
{
}

/// Fixed payload length (after the type byte) for the message kind.
pub fn message_len(t: ItchMsgType) -> (r: u8)
    ensures
        r == msg_len(t),
{
    match t {
        ItchMsgType::Sysevent => 12u8,
        ItchMsgType::StockDirectory => 39u8,
        ItchMsgType::TradingAction => 25u8,
        ItchMsgType::RegShoRestrict => 20u8,
        ItchMsgType::MpidPosition => 26u8,
        ItchMsgType::MwcbDecline => 35u8,
        ItchMsgType::MwcbStatus => 12u8,
        ItchMsgType::IpoQuoteUpdate => 28u8,
        ItchMsgType::AddOrder => 36u8,
        ItchMsgType::AddOrderMpid => 40u8,
        ItchMsgType::ExecuteOrder => 31u8,
        ItchMsgType::ExecuteOrderWithPrice => 36u8,
        ItchMsgType::ReduceOrder => 23u8,
        ItchMsgType::DeleteOrder => 19u8,
        ItchMsgType::ReplaceOrder => 35u8,
        ItchMsgType::Trade => 44u8,
        ItchMsgType::CrossTrade => 40u8,
        ItchMsgType::BrokenTrade => 19u8,
        ItchMsgType::NetOrderImbalance => 50u8,
        ItchMsgType::RetailPriceImprovement => 20u8,
        ItchMsgType::ProcessLuldAuctionCollarMessage => 35u8,
    }
}

/// Fixed-length ITCH payload: a length check, then a decode of the fixed layout.
pub trait ItchFixedPayload: Sized {
    /// Bytes the payload needs.
    const MIN_LEN: usize;

    /// The bytes the payload needs, as contracts read it.
    spec fn min_len() -> usize;

    /// [`Self::MIN_LEN`] is [`Self::min_len`].
    proof fn lemma_min_len()
        ensures
            Self::MIN_LEN == Self::min_len(),
    ;

    /// What a payload of at least [`Self::min_len`] bytes decodes to.
    spec fn decoded(bytes: Seq<u8>) -> Result<Self, FeedError>;

    /// Decodes a payload whose length has been checked.
    fn decode_body(bytes: &[u8]) -> (r: Result<Self, FeedError>)
        requires
            bytes@.len() >= Self::min_len(),
        ensures
            r == Self::decoded(bytes@),
    ;
}

/// Fails with a parse error when `bytes` is shorter than `required`.
fn require_len(bytes: &[u8], required: usize) -> (r: Result<(), FeedError>)
    ensures
        bytes@.len() >= required ==> r is Ok,
        bytes@.len() < required ==> r == Err::<(), FeedError>(short(required as int, bytes@.len() as int)),
{
    if bytes.len() < required {
        return Err(FeedError::Parse { required, got: bytes.len() });
    }
    Ok(())
}

/// What a fixed payload parses to: the length check, then the decode.
pub open spec fn parsed_fixed<T: ItchFixedPayload>(bytes: Seq<u8>) -> Result<T, FeedError> {
    if bytes.len() < T::min_len() {
        Err(short(T::min_len() as int, bytes.len() as int))
    } else {
        T::decoded(bytes)
    }
}

fn parse_fixed<T: ItchFixedPayload>(bytes: &[u8]) -> (r: Result<T, FeedError>)
    ensures
        r == parsed_fixed::<T>(bytes@),
{
    proof {
        T::lemma_min_len();
    }
    require_len(bytes, T::MIN_LEN)?;
    T::decode_body(bytes)
}

/// Add order (`A`): a new resting order.
#[derive(Debug, Clone, Copy)]
pub struct AddOrder {
    /// Nanoseconds since midnight.
    pub timestamp: Timestamp,
    /// Order reference number.
    pub oid: Oid,
    /// Limit price.
    pub price: WirePrice,
    /// Shares.
    pub qty: WireQty,
    /// Book the order belongs to.
    pub stock_locate: StockLocate,
    /// Side.
    pub buy: BuySell,
}

impl ItchFixedPayload for AddOrder {
    const MIN_LEN: usize = 36;

    open spec fn min_len() -> usize {
        36
    }

    proof fn lemma_min_len() {
    }

    open spec fn decoded(bytes: Seq<u8>) -> Result<AddOrder, FeedError> {
        match buy_sell_of(bytes[19]) {
            Err(()) => Err(FeedError::InvalidBuySell(bytes[19])),
            Ok(buy) => Ok(
                AddOrder {
                    stock_locate: StockLocate(u16_at(bytes, 1)),
                    timestamp: Timestamp(timestamp_at(bytes, 5)),
                    oid: Oid(u64_at(bytes, 11)),
                    buy,
                    qty: WireQty(u32_at(bytes, 20)),
                    price: WirePrice(u32_at(bytes, 32)),
                },
            ),
        }
    }

    fn decode_body(bytes: &[u8]) -> (r: Result<AddOrder, FeedError>) {
        let buy = match BuySell::try_from(bytes[19]) {
            Ok(b) => b,
            Err(()) => {
                return Err(FeedError::InvalidBuySell(bytes[19]));
            },
        };
        Ok(
            AddOrder {
                stock_locate: read_locate(bytes, 1)?,
                timestamp: read_timestamp(bytes, 5)?,
                oid: read_oid(bytes, 11)?,
                buy,
                qty: read_qty(bytes, 20)?,
                price: read_price(bytes, 32)?,
            },
        )
    }
}

impl AddOrder {
    /// Parses an add-order payload (at least 36 bytes).
    pub fn parse(bytes: &[u8]) -> (r: Result<AddOrder, FeedError>)
        ensures
            r == parsed_fixed::<AddOrder>(bytes@),
    {
        parse_fixed(bytes)
    }
}

/// What an add-order-with-MPID payload parses to (the attribution itself is skipped).
pub open spec fn add_order_mpid_parsed(bytes: Seq<u8>) -> Result<AddOrderMpid, FeedError> {
    if bytes.len() < 40 {
        Err(short(40, bytes.len() as int))
    } else {
        match parsed_fixed::<AddOrder>(bytes) {
            Ok(m) => Ok(AddOrderMpid { add_msg: m }),
            Err(e) => Err(e),
        }
    }
}

/// Add order with MPID attribution (`F`).
#[derive(Debug, Clone, Copy)]
pub struct AddOrderMpid {
    /// The add-order fields.
    pub add_msg: AddOrder,
}

impl AddOrderMpid {
    /// Parses an add-order-with-MPID payload (at least 40 bytes).
    pub fn parse(bytes: &[u8]) -> (r: Result<AddOrderMpid, FeedError>)
        ensures
            r == add_order_mpid_parsed(bytes@),
    {
        require_len(bytes, 40)?;
        Ok(AddOrderMpid { add_msg: AddOrder::parse(bytes)? })
    }
}

/// Order executed (`E`).
#[derive(Debug, Clone, Copy)]
pub struct ExecuteOrder {
    /// Order reference number.
    pub oid: Oid,
    /// Nanoseconds since midnight.
    pub timestamp: Timestamp,
    /// Executed shares.
    pub qty: WireQty,
    /// Book the order belongs to.
    pub stock_locate: StockLocate,
}

impl ItchFixedPayload for ExecuteOrder {
    const MIN_LEN: usize = 31;

    open spec fn min_len() -> usize {
        31
    }

    proof fn lemma_min_len() {
    }

    open spec fn decoded(bytes: Seq<u8>) -> Result<ExecuteOrder, FeedError> {
        Ok(
            ExecuteOrder {
                stock_locate: StockLocate(u16_at(bytes, 1)),
                timestamp: Timestamp(timestamp_at(bytes, 5)),
                oid: Oid(u64_at(bytes, 11)),
                qty: WireQty(u32_at(bytes, 19)),
            },
        )
    }

    fn decode_body(bytes: &[u8]) -> (r: Result<ExecuteOrder, FeedError>) {
        Ok(
            ExecuteOrder {
                stock_locate: read_locate(bytes, 1)?,
                timestamp: read_timestamp(bytes, 5)?,
                oid: read_oid(bytes, 11)?,
                qty: read_qty(bytes, 19)?,
            },
        )
    }
}

impl ExecuteOrder {
    /// Parses an order-executed payload (at least 31 bytes).
    pub fn parse(bytes: &[u8]) -> (r: Result<ExecuteOrder, FeedError>)
        ensures
            r == parsed_fixed::<ExecuteOrder>(bytes@),
    {
        parse_fixed(bytes)
    }
}

/// What an executed-with-price payload parses to (the price itself is skipped).
pub open spec fn execute_with_price_parsed(bytes: Seq<u8>) -> Result<ExecuteOrderWithPrice, FeedError> {
    if bytes.len() < 36 {
        Err(short(36, bytes.len() as int))
    } else {
        match parsed_fixed::<ExecuteOrder>(bytes) {
            Ok(m) => Ok(ExecuteOrderWithPrice { execution: m }),
            Err(e) => Err(e),
        }
    }
}

/// Order executed with price (`C`).
#[derive(Debug, Clone, Copy)]
pub struct ExecuteOrderWithPrice {
    /// The execution fields.
    pub execution: ExecuteOrder,
}

impl ExecuteOrderWithPrice {
    /// Parses an order-executed-with-price payload (at least 36 bytes).
    pub fn parse(bytes: &[u8]) -> (r: Result<ExecuteOrderWithPrice, FeedError>)
        ensures
            r == execute_with_price_parsed(bytes@),
    {
        require_len(bytes, 36)?;
        Ok(ExecuteOrderWithPrice { execution: ExecuteOrder::parse(bytes)? })
    }
}

/// Order cancel, partial (`X`).
#[derive(Debug, Clone, Copy)]
pub struct ReduceOrder {
    /// Order reference number.
    pub oid: Oid,
    /// Nanoseconds since midnight.
    pub timestamp: Timestamp,
    /// Canceled shares.
    pub qty: WireQty,
}

impl ItchFixedPayload for ReduceOrder {
    const MIN_LEN: usize = 23;

    open spec fn min_len() -> usize {
        23
    }

    proof fn lemma_min_len() {
    }

    open spec fn decoded(bytes: Seq<u8>) -> Result<ReduceOrder, FeedError> {
        Ok(
            ReduceOrder {
                timestamp: Timestamp(timestamp_at(bytes, 5)),
                oid: Oid(u64_at(bytes, 11)),
                qty: WireQty(u32_at(bytes, 19)),
            },
        )
    }

    fn decode_body(bytes: &[u8]) -> (r: Result<ReduceOrder, FeedError>) {
        Ok(
            ReduceOrder {
                timestamp: read_timestamp(bytes, 5)?,
                oid: read_oid(bytes, 11)?,
                qty: read_qty(bytes, 19)?,
            },
        )
    }
}

impl ReduceOrder {
    /// Parses an order-cancel payload (at least 23 bytes).
    pub fn parse(bytes: &[u8]) -> (r: Result<ReduceOrder, FeedError>)
        ensures
            r == parsed_fixed::<ReduceOrder>(bytes@),
    {
        parse_fixed(bytes)
    }
}

/// Order delete (`D`).
#[derive(Debug, Clone, Copy)]
pub struct DeleteOrder {
    /// Order reference number.
    pub oid: Oid,
    /// Nanoseconds since midnight.
    pub timestamp: Timestamp,
}

impl ItchFixedPayload for DeleteOrder {
    const MIN_LEN: usize = 19;

    open spec fn min_len() -> usize {
        19
    }

    proof fn lemma_min_len() {
    }

    open spec fn decoded(bytes: Seq<u8>) -> Result<DeleteOrder, FeedError> {
        Ok(DeleteOrder { timestamp: Timestamp(timestamp_at(bytes, 5)), oid: Oid(u64_at(bytes, 11)) })
    }

    fn decode_body(bytes: &[u8]) -> (r: Result<DeleteOrder, FeedError>) {
        Ok(DeleteOrder { timestamp: read_timestamp(bytes, 5)?, oid: read_oid(bytes, 11)? })
    }
}

impl DeleteOrder {
    /// Parses an order-delete payload (at least 19 bytes).
    pub fn parse(bytes: &[u8]) -> (r: Result<DeleteOrder, FeedError>)
        ensures
            r == parsed_fixed::<DeleteOrder>(bytes@),
    {
        parse_fixed(bytes)
    }
}

/// Order replace (`U`).
#[derive(Debug, Clone, Copy)]
pub struct ReplaceOrder {
    /// Reference number of the order being replaced.
    pub oid: Oid,
    /// New order reference number.
    pub new_order_id: Oid,
    /// New shares.
    pub new_qty: WireQty,
    /// New price.
    pub new_price: WirePrice,
}

impl ItchFixedPayload for ReplaceOrder {
    const MIN_LEN: usize = 35;

    open spec fn min_len() -> usize {
        35
    }

    proof fn lemma_min_len() {
    }

    open spec fn decoded(bytes: Seq<u8>) -> Result<ReplaceOrder, FeedError> {
        Ok(
            ReplaceOrder {
                oid: Oid(u64_at(bytes, 11)),
                new_order_id: Oid(u64_at(bytes, 19)),
                new_qty: WireQty(u32_at(bytes, 27)),
                new_price: WirePrice(u32_at(bytes, 31)),
            },
        )
    }

    fn decode_body(bytes: &[u8]) -> (r: Result<ReplaceOrder, FeedError>) {
        Ok(
            ReplaceOrder {
                oid: read_oid(bytes, 11)?,
                new_order_id: read_oid(bytes, 19)?,
                new_qty: read_qty(bytes, 27)?,
                new_price: read_price(bytes, 31)?,
            },
        )
    }
}

impl ReplaceOrder {
    /// Parses an order-replace payload (at least 35 bytes).
    pub fn parse(bytes: &[u8]) -> (r: Result<ReplaceOrder, FeedError>)
        ensures
            r == parsed_fixed::<ReplaceOrder>(bytes@),
    {
        parse_fixed(bytes)
    }
}

} // verus!
