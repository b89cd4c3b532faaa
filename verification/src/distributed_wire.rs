//! Line protocol for the distributed gateway: a typed command representation and a
//! compact text encoding (`ADD id participant instrument side price quantity`,
//! `MARKET id participant instrument side quantity`, `CANCELID id instrument`, and
//! `BATCH cmd|cmd|...`).

pub mod lexer;
pub mod roundtrip;

use vstd::prelude::*;
use vstd::string::*;
use crate::engine::{AddOrderCommand, CancelByOrderIdCommand};
use crate::text::{decimal, owned, push_decimal, push_signed_decimal, signed_decimal};
use crate::types::{OrderType, Side, TimeInForce};
use self::lexer::{
    all_digits, chars_of, digits_up_to, digits_value, is_word, pieces, split_pieces, split_words,
    trim, trimmed, views, words,
};

verus! {

/// Maximum commands accepted in one batch frame.
pub const MAX_BATCH_COMMANDS: usize = 1024;

/// Protocol-level command used on the gateway/client boundary.
#[derive(Debug, Clone, Copy, PartialEq, Eq, Structural)]
pub enum WireCommand {
    /// Limit add command.
    Add {
        /// Order identifier.
        id: u64,
        /// Participant identifier.
        participant_id: u64,
        /// Destination instrument identifier.
        instrument_id: u32,
        /// Order side.
        side: Side,
        /// Limit price.
        price: i64,
        /// Order quantity.
        quantity: i64,
    },
    /// Market order command.
    Market {
        /// Order identifier.
        id: u64,
        /// Participant identifier.
        participant_id: u64,
        /// Destination instrument identifier.
        instrument_id: u32,
        /// Order side.
        side: Side,
        /// Order quantity.
        quantity: i64,
    },
    /// Cancel by order ID.
    CancelById {
        /// Order identifier to cancel.
        order_id: u64,
        /// Destination instrument identifier.
        instrument_id: u32,
    },
}

/// Parsed frame: either a single command or a command batch.
#[derive(Debug, Clone, PartialEq)]
pub struct WireFrame {
    /// Commands in this frame. Never empty.
    pub commands: Vec<WireCommand>,
}

/// Parse/validation errors returned by wire decoding.
#[derive(Debug, Clone, Copy, PartialEq, Eq, Structural)]
pub enum WireParseError {
    /// Empty frame.
    Empty,
    /// Unknown command shape.
    Unknown,
    /// Invalid numeric token.
    InvalidNumber,
    /// Invalid side token.
    InvalidSide,
    /// Invalid batch shape.
    InvalidBatch,
    /// Batch exceeds configured limit.
    BatchTooLarge,
    /// Instrument ID is invalid.
    InvalidInstrument,
}

impl WireParseError {
    /// The error's name on the wire.
    pub open spec fn message(&self) -> Seq<char> {
        match self {
            WireParseError::Empty => "empty"@,
            WireParseError::Unknown => "unknown"@,
            WireParseError::InvalidNumber => "invalid_number"@,
            WireParseError::InvalidSide => "invalid_side"@,
            WireParseError::InvalidBatch => "invalid_batch"@,
            WireParseError::BatchTooLarge => "batch_too_large"@,
            WireParseError::InvalidInstrument => "invalid_instrument"@,
        }
    }

    /// Renders the error's name.
    pub fn to_string(&self) -> (r: String)
        ensures
            r@ == self.message(),
    {
        match self {
            WireParseError::Empty => owned("empty"),
            WireParseError::Unknown => owned("unknown"),
            WireParseError::InvalidNumber => owned("invalid_number"),
            WireParseError::InvalidSide => owned("invalid_side"),
            WireParseError::InvalidBatch => owned("invalid_batch"),
            WireParseError::BatchTooLarge => owned("batch_too_large"),
            WireParseError::InvalidInstrument => owned("invalid_instrument"),
        }
    }
}

/// Failure to encode or decode a binary wire payload.
#[derive(Debug, Clone, Copy, PartialEq, Eq)]
pub enum RkyvWireError {
    /// Frame-level validation failed before serialization.
    Parse(WireParseError),
    /// Binary serialization or deserialization failed.
    Rkyv(&'static str),
}

impl From<WireParseError> for RkyvWireError {
    fn from(value: WireParseError) -> (r: Self) {
        RkyvWireError::Parse(value)
    }
}

impl vstd::std_specs::convert::FromSpecImpl<WireParseError> for RkyvWireError {
    open spec fn obeys_from_spec() -> bool {
        true
    }

    open spec fn from_spec(value: WireParseError) -> Self {
        RkyvWireError::Parse(value)
    }
}

/// Why a frame of `n` commands cannot be sent: none at all, or more than a batch holds.
pub open spec fn frame_len_error(n: nat) -> Option<WireParseError> {
    if n == 0 {
        Some(WireParseError::InvalidBatch)
    } else if n > MAX_BATCH_COMMANDS {
        Some(WireParseError::BatchTooLarge)
    } else {
        None
    }
}

/// Checks that a frame of `n` commands can be sent.
pub fn validate_frame_len(n: usize) -> (r: Result<(), WireParseError>)
    ensures
        match frame_len_error(n as nat) {
            Some(e) => r == Err::<(), WireParseError>(e),
            None => r is Ok,
        },
{
    if n == 0 {
        return Err(WireParseError::InvalidBatch);
    }
    if n > MAX_BATCH_COMMANDS {
        return Err(WireParseError::BatchTooLarge);
    }
    Ok(())
}

/// Converts wire command into internal add/cancel command + instrument route key.
#[derive(Debug, Clone, Copy)]
pub enum RoutedCommand {
    /// Routed add.
    Add {
        /// Destination instrument identifier.
        instrument_id: u32,
        /// Engine add command payload.
        add: AddOrderCommand,
    },
    /// Routed cancel.
    CancelById {
        /// Destination instrument identifier.
        instrument_id: u32,
        /// Engine cancel command payload.
        cancel: CancelByOrderIdCommand,
    },
}

/// The engine command a wire command stands for, with its instrument.
pub open spec fn routed(c: WireCommand) -> RoutedCommand {
    match c {
        WireCommand::Add { id, participant_id, instrument_id, side, price, quantity } => RoutedCommand::Add {
            instrument_id,
            add: AddOrderCommand {
                id,
                participant_id,
                symbol_id: instrument_id,
                side,
                order_type: OrderType::Limit,
                price: Some(price),
                quantity,
                time_in_force: TimeInForce::Gtc,
                stop_price: None,
                max_visible_quantity: None,
                slippage: None,
                trailing_distance: None,
                trailing_step: None,
            },
        },
        WireCommand::Market { id, participant_id, instrument_id, side, quantity } => RoutedCommand::Add {
            instrument_id,
            add: AddOrderCommand {
                id,
                participant_id,
                symbol_id: instrument_id,
                side,
                order_type: OrderType::Market,
                price: None,
                quantity,
                time_in_force: TimeInForce::Ioc,
                stop_price: None,
                max_visible_quantity: None,
                slippage: None,
                trailing_distance: None,
                trailing_step: None,
            },
        },
        WireCommand::CancelById { order_id, instrument_id } => RoutedCommand::CancelById {
            instrument_id,
            cancel: CancelByOrderIdCommand { order_id },
        },
    }
}

impl WireCommand {
    /// Convert protocol command into internal routed command.
    pub fn into_routed(self) -> (r: RoutedCommand)
        ensures
            r == routed(self),
    {
        match self {
            WireCommand::Add { id, participant_id, instrument_id, side, price, quantity } => RoutedCommand::Add {
                instrument_id,
                add: AddOrderCommand {
                    id,
                    participant_id,
                    symbol_id: instrument_id,
                    side,
                    order_type: OrderType::Limit,
                    price: Some(price),
                    quantity,
                    time_in_force: TimeInForce::Gtc,
                    stop_price: None,
                    max_visible_quantity: None,
                    slippage: None,
                    trailing_distance: None,
                    trailing_step: None,
                },
            },
            WireCommand::Market { id, participant_id, instrument_id, side, quantity } => RoutedCommand::Add {
                instrument_id,
                add: AddOrderCommand {
                    id,
                    participant_id,
                    symbol_id: instrument_id,
                    side,
                    order_type: OrderType::Market,
                    price: None,
                    quantity,
                    time_in_force: TimeInForce::Ioc,
                    stop_price: None,
                    max_visible_quantity: None,
                    slippage: None,
                    trailing_distance: None,
                    trailing_step: None,
                },
            },
            WireCommand::CancelById { order_id, instrument_id } => RoutedCommand::CancelById {
                instrument_id,
                cancel: CancelByOrderIdCommand { order_id },
            },
        }
    }
}

/// The side a token names: `B`/`BUY` or `S`/`SELL`.
pub open spec fn side_of(tok: Seq<char>) -> Result<Side, WireParseError> {
    if tok == "B"@ || tok == "BUY"@ {
        Ok(Side::Buy)
    } else if tok == "S"@ || tok == "SELL"@ {
        Ok(Side::Sell)
    } else {
        Err(WireParseError::InvalidSide)
    }
}

/// An unsigned decimal token (an optional `+`, then digits) worth at most `max`.
pub open spec fn unsigned_of(tok: Seq<char>, max: nat) -> Result<nat, WireParseError> {
    let body = if tok.len() > 0 && tok[0] == '+' {
        tok.drop_first()
    } else {
        tok
    };
    if body.len() == 0 || !all_digits(body) || digits_value(body) > max {
        Err(WireParseError::InvalidNumber)
    } else {
        Ok(digits_value(body))
    }
}

/// A signed decimal token (an optional `+` or `-`, then digits) within `i64`.
pub open spec fn signed_of(tok: Seq<char>) -> Result<int, WireParseError> {
    if tok.len() > 0 && tok[0] == '-' {
        let body = tok.drop_first();
        if body.len() == 0 || !all_digits(body) || digits_value(body) > 0x8000_0000_0000_0000 {
            Err(WireParseError::InvalidNumber)
        } else {
            Ok(-(digits_value(body) as int))
        }
    } else {
        match unsigned_of(tok, i64::MAX as nat) {
            Ok(v) => Ok(v as int),
            Err(e) => Err(e),
        }
    }
}

/// The instrument must not be zero.
pub open spec fn instrument_ok(instrument_id: nat) -> bool {
    instrument_id != 0
}

/// The command an `ADD` line's words stand for.
pub open spec fn add_of(t: Seq<Seq<char>>) -> Result<WireCommand, WireParseError> {
    match unsigned_of(t[1], u64::MAX as nat) {
        Err(e) => Err(e),
        Ok(id) => match unsigned_of(t[2], u64::MAX as nat) {
            Err(e) => Err(e),
            Ok(pid) => match unsigned_of(t[3], u32::MAX as nat) {
                Err(e) => Err(e),
                Ok(inst) => match side_of(t[4]) {
                    Err(e) => Err(e),
                    Ok(side) => match signed_of(t[5]) {
                        Err(e) => Err(e),
                        Ok(price) => match signed_of(t[6]) {
                            Err(e) => Err(e),
                            Ok(quantity) => if !instrument_ok(inst) {
                                Err(WireParseError::InvalidInstrument)
                            } else {
                                Ok(
                                    WireCommand::Add {
                                        id: id as u64,
                                        participant_id: pid as u64,
                                        instrument_id: inst as u32,
                                        side,
                                        price: price as i64,
                                        quantity: quantity as i64,
                                    },
                                )
                            },
                        },
                    },
                },
            },
        },
    }
}

/// The command a `MARKET` line's words stand for.
pub open spec fn market_of(t: Seq<Seq<char>>) -> Result<WireCommand, WireParseError> {
    match unsigned_of(t[1], u64::MAX as nat) {
        Err(e) => Err(e),
        Ok(id) => match unsigned_of(t[2], u64::MAX as nat) {
            Err(e) => Err(e),
            Ok(pid) => match unsigned_of(t[3], u32::MAX as nat) {
                Err(e) => Err(e),
                Ok(inst) => match side_of(t[4]) {
                    Err(e) => Err(e),
                    Ok(side) => match signed_of(t[5]) {
                        Err(e) => Err(e),
                        Ok(quantity) => if !instrument_ok(inst) {
                            Err(WireParseError::InvalidInstrument)
                        } else {
                            Ok(
                                WireCommand::Market {
                                    id: id as u64,
                                    participant_id: pid as u64,
                                    instrument_id: inst as u32,
                                    side,
                                    quantity: quantity as i64,
                                },
                            )
                        },
                    },
                },
            },
        },
    }
}

/// The command a `CANCELID` line's words stand for.
pub open spec fn cancel_of(t: Seq<Seq<char>>) -> Result<WireCommand, WireParseError> {
    match unsigned_of(t[1], u64::MAX as nat) {
        Err(e) => Err(e),
        Ok(order_id) => match unsigned_of(t[2], u32::MAX as nat) {
            Err(e) => Err(e),
            Ok(inst) => if !instrument_ok(inst) {
                Err(WireParseError::InvalidInstrument)
            } else {
                Ok(WireCommand::CancelById { order_id: order_id as u64, instrument_id: inst as u32 })
            },
        },
    }
}

/// The command a line of words stands for.
pub open spec fn command_of(t: Seq<Seq<char>>) -> Result<WireCommand, WireParseError> {
    if t.len() == 0 {
        Err(WireParseError::Empty)
    } else if t[0] == "ADD"@ && t.len() == 7 {
        add_of(t)
    } else if t[0] == "MARKET"@ && t.len() == 6 {
        market_of(t)
    } else if t[0] == "CANCELID"@ && t.len() == 3 {
        cancel_of(t)
    } else {
        Err(WireParseError::Unknown)
    }
}

/// The commands of the batch pieces from `k` on, or the first piece's error.
pub open spec fn commands_from(ps: Seq<Seq<char>>, k: int) -> Result<Seq<WireCommand>, WireParseError>
    decreases ps.len() - k,
{
    if k < 0 || k >= ps.len() {
        Ok(Seq::empty())
    } else {
        match command_of(words(trimmed(ps[k]))) {
            Err(e) => Err(e),
            Ok(c) => match commands_from(ps, k + 1) {
                Ok(rest) => Ok(seq![c] + rest),
                Err(e) => Err(e),
            },
        }
    }
}

/// What the body of a `BATCH` line parses to.
pub open spec fn batch_of(rest: Seq<char>) -> Result<Seq<WireCommand>, WireParseError> {
    let ps = pieces(rest);
    if exists|k: int| 0 <= k < ps.len() && #[trigger] trimmed(ps[k]).len() == 0 {
        Err(WireParseError::InvalidBatch)
    } else if ps.len() > MAX_BATCH_COMMANDS {
        Err(WireParseError::BatchTooLarge)
    } else {
        commands_from(ps, 0)
    }
}

/// What a protocol line parses to: the commands of the frame, or the error.
pub open spec fn frame_of(line: Seq<char>) -> Result<Seq<WireCommand>, WireParseError> {
    let t = trimmed(line);
    if t.len() == 0 {
        Err(WireParseError::Empty)
    } else if t.len() >= 6 && t.subrange(0, 6) == "BATCH "@ {
        batch_of(t.subrange(6, t.len() as int))
    } else {
        match command_of(words(t)) {
            Ok(c) => Ok(seq![c]),
            Err(e) => Err(e),
        }
    }
}

fn parse_side(tok: &Vec<char>) -> (r: Result<Side, WireParseError>)
    ensures
        r == side_of(tok@),
{
    if is_word(tok, "B") || is_word(tok, "BUY") {
        Ok(Side::Buy)
    } else if is_word(tok, "S") || is_word(tok, "SELL") {
        Ok(Side::Sell)
    } else {
        Err(WireParseError::InvalidSide)
    }
}

fn parse_unsigned(tok: &Vec<char>, max: u64) -> (r: Result<u64, WireParseError>)
    ensures
        match unsigned_of(tok@, max as nat) {
            Ok(v) => r == Ok::<u64, WireParseError>(v as u64),
            Err(e) => r == Err::<u64, WireParseError>(e),
        },
{
    let a: usize = if tok.len() > 0 && tok[0] == '+' {
        1
    } else {
        0
    };
    proof {
        let body = if tok@.len() > 0 && tok@[0] == '+' {
            tok@.drop_first()
        } else {
            tok@
        };
        assert(tok@.subrange(a as int, tok@.len() as int) =~= body);
    }
    match digits_up_to(tok, a, max) {
        Some(v) => Ok(v),
        None => Err(WireParseError::InvalidNumber),
    }
}

fn parse_signed(tok: &Vec<char>) -> (r: Result<i64, WireParseError>)
    ensures
        match signed_of(tok@) {
            Ok(v) => r == Ok::<i64, WireParseError>(v as i64),
            Err(e) => r == Err::<i64, WireParseError>(e),
        },
{
    if tok.len() > 0 && tok[0] == '-' {
        proof {
            assert(tok@.subrange(1, tok@.len() as int) =~= tok@.drop_first());
        }
        match digits_up_to(tok, 1, 0x8000_0000_0000_0000u64) {
            Some(v) => {
                if v == 0x8000_0000_0000_0000u64 {
                    Ok(i64::MIN)
                } else {
                    Ok(-(v as i64))
                }
            },
            None => Err(WireParseError::InvalidNumber),
        }
    } else {
        match parse_unsigned(tok, i64::MAX as u64) {
            Ok(v) => Ok(v as i64),
            Err(e) => Err(e),
        }
    }
}

fn parse_single(line: &Vec<char>) -> (r: Result<WireCommand, WireParseError>)
    ensures
        r == command_of(words(line@)),
{
    let parts = split_words(line);
    proof {
        assert(parts@.len() == words(line@).len());
        assert(forall|k: int| 0 <= k < parts@.len() ==> parts@[k]@ == #[trigger] words(line@)[k]);
    }
    if parts.len() == 0 {
        return Err(WireParseError::Empty);
    }
    let t = &parts;
    if is_word(&t[0], "ADD") && t.len() == 7 {
        let id = parse_unsigned(&t[1], u64::MAX)?;
        let participant_id = parse_unsigned(&t[2], u64::MAX)?;
        let instrument_id = parse_unsigned(&t[3], u32::MAX as u64)?;
        let side = parse_side(&t[4])?;
        let price = parse_signed(&t[5])?;
        let quantity = parse_signed(&t[6])?;
        if instrument_id == 0 {
            return Err(WireParseError::InvalidInstrument);
        }
        Ok(WireCommand::Add { id, participant_id, instrument_id: instrument_id as u32, side, price, quantity })
    } else if is_word(&t[0], "MARKET") && t.len() == 6 {
        let id = parse_unsigned(&t[1], u64::MAX)?;
        let participant_id = parse_unsigned(&t[2], u64::MAX)?;
        let instrument_id = parse_unsigned(&t[3], u32::MAX as u64)?;
        let side = parse_side(&t[4])?;
        let quantity = parse_signed(&t[5])?;
        if instrument_id == 0 {
            return Err(WireParseError::InvalidInstrument);
        }
        Ok(WireCommand::Market { id, participant_id, instrument_id: instrument_id as u32, side, quantity })
    } else if is_word(&t[0], "CANCELID") && t.len() == 3 {
        let order_id = parse_unsigned(&t[1], u64::MAX)?;
        let instrument_id = parse_unsigned(&t[2], u32::MAX as u64)?;
        if instrument_id == 0 {
            return Err(WireParseError::InvalidInstrument);
        }
        Ok(WireCommand::CancelById { order_id, instrument_id: instrument_id as u32 })
    } else {
        Err(WireParseError::Unknown)
    }
}

/// `done` in front of the commands of `r`, or the error of `r`.
pub open spec fn prefixed(done: Seq<WireCommand>, r: Result<Seq<WireCommand>, WireParseError>) -> Result<Seq<WireCommand>, WireParseError> {
    match r {
        Ok(rest) => Ok(done + rest),
        Err(e) => Err(e),
    }
}

fn parse_batch_frame(rest: &Vec<char>) -> (r: Result<WireFrame, WireParseError>)
    ensures
        match batch_of(rest@) {
            Ok(cs) => r matches Ok(f) && f.commands@ == cs,
            Err(e) => r == Err::<WireFrame, WireParseError>(e),
        },
{
    let raw = split_pieces(rest);
    let ghost ps = pieces(rest@);
    proof {
        assert(raw@.len() == ps.len());
        assert(forall|k: int| 0 <= k < raw@.len() ==> raw@[k]@ == #[trigger] ps[k]);
    }
    let mut k: usize = 0;
    while k < raw.len()
        invariant
            k <= raw@.len(),
            raw@.len() == ps.len(),
            ps == pieces(rest@),
            forall|j: int| 0 <= j < raw@.len() ==> raw@[j]@ == #[trigger] ps[j],
            forall|j: int| 0 <= j < k ==> #[trigger] trimmed(ps[j]).len() > 0,
        decreases raw@.len() - k,
    {
        let tr = trim(&raw[k]);
        if tr.len() == 0 {
            proof {
                assert(trimmed(ps[k as int]).len() == 0);
            }
            return Err(WireParseError::InvalidBatch);
        }
        k = k + 1;
    }
    proof {
        assert(!exists|j: int| 0 <= j < ps.len() && #[trigger] trimmed(ps[j]).len() == 0);
    }
    if raw.len() > MAX_BATCH_COMMANDS {
        return Err(WireParseError::BatchTooLarge);
    }
    let mut commands: Vec<WireCommand> = Vec::new();
    let mut k: usize = 0;
    while k < raw.len()
        invariant
            k <= raw@.len(),
            raw@.len() == ps.len(),
            forall|j: int| 0 <= j < raw@.len() ==> raw@[j]@ == #[trigger] ps[j],
            commands_from(ps, 0) == prefixed(commands@, commands_from(ps, k as int)),
            ps == pieces(rest@),
            ps.len() <= MAX_BATCH_COMMANDS,
            !exists|j: int| 0 <= j < ps.len() && #[trigger] trimmed(ps[j]).len() == 0,
        decreases raw@.len() - k,
    {
        let tr = trim(&raw[k]);
        let c = parse_single(&tr)?;
        let ghost before = commands@;
        commands.push(c);
        proof {
            assert(before + (seq![c] + match commands_from(ps, k + 1) { Ok(rest) => rest, Err(_) => Seq::empty() }) =~= commands@ + match commands_from(ps, k + 1) { Ok(rest) => rest, Err(_) => Seq::empty() });
        }
        k = k + 1;
    }
    proof {
        assert(commands@ + Seq::<WireCommand>::empty() =~= commands@);
    }
    Ok(WireFrame { commands })
}

/// Parse one protocol line into a frame.
pub fn parse_frame(line: &str) -> (r: Result<WireFrame, WireParseError>)
    ensures
        match frame_of(line@) {
            Ok(cs) => r matches Ok(f) && f.commands@ == cs,
            Err(e) => r == Err::<WireFrame, WireParseError>(e),
        },
{
    let chars = chars_of(line);
    let t = trim(&chars);
    if t.len() == 0 {
        return Err(WireParseError::Empty);
    }
    if t.len() >= 6 {
        let head = lexer::copy_range(&t, 0, 6);
        if is_word(&head, "BATCH ") {
            let rest = lexer::copy_range(&t, 6, t.len());
            return parse_batch_frame(&rest);
        }
    }
    let c = parse_single(&t)?;
    let mut commands: Vec<WireCommand> = Vec::new();
    commands.push(c);
    proof {
        assert(commands@ =~= seq![c]);
    }
    Ok(WireFrame { commands })
}

/// The text of a side.
pub open spec fn side_text(side: Side) -> Seq<char> {
    match side {
        Side::Buy => "B"@,
        Side::Sell => "S"@,
    }
}

/// The text of one command.
pub open spec fn command_text(c: WireCommand) -> Seq<char> {
    match c {
        WireCommand::Add { id, participant_id, instrument_id, side, price, quantity } => "ADD "@
            + decimal(id as nat) + " "@ + decimal(participant_id as nat) + " "@ + decimal(
            instrument_id as nat,
        ) + " "@ + side_text(side) + " "@ + signed_decimal(price as int) + " "@ + signed_decimal(
            quantity as int,
        ),
        WireCommand::Market { id, participant_id, instrument_id, side, quantity } => "MARKET "@
            + decimal(id as nat) + " "@ + decimal(participant_id as nat) + " "@ + decimal(
            instrument_id as nat,
        ) + " "@ + side_text(side) + " "@ + signed_decimal(quantity as int),
        WireCommand::CancelById { order_id, instrument_id } => "CANCELID "@ + decimal(
            order_id as nat,
        ) + " "@ + decimal(instrument_id as nat),
    }
}

/// The texts of `cs` joined by `|`.
pub open spec fn joined(cs: Seq<WireCommand>) -> Seq<char>
    decreases cs.len(),
{
    if cs.len() == 0 {
        Seq::empty()
    } else if cs.len() == 1 {
        command_text(cs[0])
    } else {
        joined(cs.drop_last()) + "|"@ + command_text(cs.last())
    }
}

/// The line a frame of commands `cs` is sent as, or why it cannot be sent.
pub open spec fn frame_text(cs: Seq<WireCommand>) -> Result<Seq<char>, WireParseError> {
    if cs.len() == 0 {
        Err(WireParseError::InvalidBatch)
    } else if cs.len() > MAX_BATCH_COMMANDS {
        Err(WireParseError::BatchTooLarge)
    } else if cs.len() == 1 {
        Ok(command_text(cs[0]) + "\n"@)
    } else {
        Ok("BATCH "@ + joined(cs) + "\n"@)
    }
}

fn push_side(s: &mut String, side: Side)
    ensures
        final(s)@ == old(s)@ + side_text(side),
{
    match side {
        Side::Buy => s.append("B"),
        Side::Sell => s.append("S"),
    }
}

fn encode_single(s: &mut String, cmd: &WireCommand)
    ensures
        final(s)@ == old(s)@ + command_text(*cmd),
{
    match cmd {
        WireCommand::Add { id, participant_id, instrument_id, side, price, quantity } => {
            s.append("ADD ");
            push_decimal(s, *id);
            s.append(" ");
            push_decimal(s, *participant_id);
            s.append(" ");
            push_decimal(s, *instrument_id as u64);
            s.append(" ");
            push_side(s, *side);
            s.append(" ");
            push_signed_decimal(s, *price);
            s.append(" ");
            push_signed_decimal(s, *quantity);
            proof {
                assert(final(s)@ =~= old(s)@ + command_text(*cmd));
            }
        },
        WireCommand::Market { id, participant_id, instrument_id, side, quantity } => {
            s.append("MARKET ");
            push_decimal(s, *id);
            s.append(" ");
            push_decimal(s, *participant_id);
            s.append(" ");
            push_decimal(s, *instrument_id as u64);
            s.append(" ");
            push_side(s, *side);
            s.append(" ");
            push_signed_decimal(s, *quantity);
            proof {
                assert(final(s)@ =~= old(s)@ + command_text(*cmd));
            }
        },
        WireCommand::CancelById { order_id, instrument_id } => {
            s.append("CANCELID ");
            push_decimal(s, *order_id);
            s.append(" ");
            push_decimal(s, *instrument_id as u64);
            proof {
                assert(final(s)@ =~= old(s)@ + command_text(*cmd));
            }
        },
    }
}

/// Encode a frame for transport.
pub fn encode_frame(frame: &WireFrame) -> (r: Result<String, WireParseError>)
    ensures
        match frame_text(frame.commands@) {
            Ok(text) => r matches Ok(line) && line@ == text,
            Err(e) => r == Err::<String, WireParseError>(e),
        },
{
    let cs = &frame.commands;
    if cs.len() == 0 {
        return Err(WireParseError::InvalidBatch);
    }
    if cs.len() > MAX_BATCH_COMMANDS {
        return Err(WireParseError::BatchTooLarge);
    }
    if cs.len() == 1 {
        let mut line = String::new();
        encode_single(&mut line, &cs[0]);
        line.append("\n");
        proof {
            assert(line@ =~= command_text(cs@[0]) + "\n"@);
        }
        return Ok(line);
    }
    let mut line = owned("BATCH ");
    encode_single(&mut line, &cs[0]);
    let mut k: usize = 1;
    proof {
        assert(cs@.subrange(0, 1).len() == 1);
        assert(joined(cs@.subrange(0, 1)) == command_text(cs@[0]));
    }
    while k < cs.len()
        invariant
            1 <= k <= cs@.len(),
            line@ == "BATCH "@ + joined(cs@.subrange(0, k as int)),
        decreases cs@.len() - k,
    {
        line.append("|");
        encode_single(&mut line, &cs[k]);
        proof {
            let next = cs@.subrange(0, k + 1);
            assert(next.drop_last() =~= cs@.subrange(0, k as int));
            assert(next.last() == cs@[k as int]);
            assert(line@ =~= "BATCH "@ + joined(next));
        }
        k = k + 1;
    }
    line.append("\n");
    proof {
        assert(cs@.subrange(0, cs@.len() as int) =~= cs@);
    }
    Ok(line)
}

/// Law: a wire `ADD` routes to its instrument as a good-till-cancel limit order at its
/// own price, id, participant, side and quantity (so that what it does not fill rests),
/// and a wire `MARKET` as an immediate-or-cancel market order without a price.
pub proof fn law_wire_orders_route(c: WireCommand)
    ensures
        c matches WireCommand::Add { id, participant_id, instrument_id, side, price, quantity } ==> (
        routed(c) matches RoutedCommand::Add { instrument_id: i, add } && {
            &&& i == instrument_id
            &&& add.id == id && add.participant_id == participant_id && add.symbol_id == instrument_id
            &&& add.side == side && add.quantity == quantity
            &&& add.order_type == OrderType::Limit && add.price == Some(price)
            &&& add.time_in_force == TimeInForce::Gtc
        }),
        c matches WireCommand::Market { id, participant_id, instrument_id, side, quantity } ==> (
        routed(c) matches RoutedCommand::Add { instrument_id: i, add } && {
            &&& i == instrument_id
            &&& add.id == id && add.participant_id == participant_id && add.side == side
            &&& add.quantity == quantity
            &&& add.order_type == OrderType::Market && add.price is None
            &&& add.time_in_force == TimeInForce::Ioc
        }),
        c matches WireCommand::CancelById { order_id, instrument_id } ==> (
        routed(c) matches RoutedCommand::CancelById { instrument_id: i, cancel } && i == instrument_id
            && cancel.order_id == order_id),
{
}

} // verus!
