//! Process ITCH frames into order commands and apply them via the engine.

use vstd::prelude::*;
use crate::engine::{
    AddOrderCommand, CancelByOrderIdCommand, ExecuteOrderCommand, OrderCommand,
    OrderMatchingService, ReduceOrderCommand, ReplaceOrderByNewIdCommand,
};
use crate::error::{Error, FeedError, Result};
use crate::types::{OrderType, ParticipantId, Side, TimeInForce};
use super::messages::{
    AddOrder as ItchAddOrder, AddOrderMpid, DeleteOrder, ExecuteOrder, ExecuteOrderWithPrice,
    ItchMsgType, ReduceOrder, ReplaceOrder, add_order_mpid_parsed, execute_with_price_parsed,
    message_len, msg_len, msg_type_of, parsed_fixed,
};
use super::buf::BufferedReader;
use super::wire::{BuySell, short, u16_at};

verus! {

/// Result of decoding one ITCH book message (optional command or parse error).
pub type DecodeResult = core::result::Result<Option<OrderCommand>, FeedError>;

/// Parsed ITCH frame header: message kind and total byte length (2-byte len + type + payload).
pub type ItchFrameHeader = (ItchMsgType, usize);

/// The participant id that feed orders are attributed to.
pub const ITCH_PARTICIPANT: ParticipantId = 0;

/// The message kinds that change the book.
pub open spec fn book_affecting(t: ItchMsgType) -> bool {
    matches!(
        t,
        ItchMsgType::AddOrder | ItchMsgType::AddOrderMpid | ItchMsgType::ExecuteOrder
            | ItchMsgType::ExecuteOrderWithPrice | ItchMsgType::ReduceOrder
            | ItchMsgType::DeleteOrder | ItchMsgType::ReplaceOrder
    )
}

fn is_book_affecting(t: ItchMsgType) -> (r: bool)
    ensures
        r == book_affecting(t),
{
    match t {
        ItchMsgType::AddOrder | ItchMsgType::AddOrderMpid | ItchMsgType::ExecuteOrder
        | ItchMsgType::ExecuteOrderWithPrice | ItchMsgType::ReduceOrder
        | ItchMsgType::DeleteOrder | ItchMsgType::ReplaceOrder => true,
        _ => false,
    }
}

/// What the frame header at the start of `data` reads as: the kind and the frame's total
/// length, when the declared length is the kind's fixed length.
pub open spec fn header_of(data: Seq<u8>) -> core::result::Result<ItchFrameHeader, FeedError> {
    if data.len() < 3 {
        Err(short(3, data.len() as int))
    } else {
        match msg_type_of(data[2]) {
            None => Err(FeedError::InvalidMessageType(data[2])),
            Some(t) => if u16_at(data, 0) != msg_len(t) {
                Err(FeedError::Parse { required: msg_len(t) as usize, got: u16_at(data, 0) as usize })
            } else {
                Ok((t, (3 + msg_len(t)) as usize))
            },
        }
    }
}

/// Read the 2-byte length + 1-byte message type and validate the length against the
/// kind's fixed size.
pub fn read_itch_header(data: &[u8]) -> (r: core::result::Result<ItchFrameHeader, FeedError>)
    ensures
        r == header_of(data@),
{
    if data.len() < 3 {
        return Err(FeedError::Parse { required: 3, got: data.len() });
    }
    let wire_len = match super::wire::read_u16_be(data, 0) {
        Ok(v) => v,
        Err(e) => {
            return Err(e);
        },
    };
    let msg_type = ItchMsgType::try_from(data[2])?;
    let payload_len = message_len(msg_type);
    if wire_len != payload_len as u16 {
        return Err(FeedError::Parse { required: payload_len as usize, got: wire_len as usize });
    }
    Ok((msg_type, 3 + payload_len as usize))
}

/// The engine command for a decoded add order.
pub open spec fn add_command(m: ItchAddOrder) -> OrderCommand {
    OrderCommand::Add(
        AddOrderCommand {
            id: m.oid.0,
            participant_id: ITCH_PARTICIPANT,
            symbol_id: m.stock_locate.0 as u32,
            side: if m.buy == BuySell::Buy {
                Side::Buy
            } else {
                Side::Sell
            },
            order_type: OrderType::Limit,
            price: Some(m.price.0 as i64),
            quantity: m.qty.0 as i64,
            time_in_force: TimeInForce::Gtc,
            stop_price: None,
            max_visible_quantity: None,
            slippage: None,
            trailing_distance: None,
            trailing_step: None,
        },
    )
}

/// The engine command for a decoded execution.
pub open spec fn execute_command(m: ExecuteOrder) -> OrderCommand {
    OrderCommand::Execute(ExecuteOrderCommand { order_id: m.oid.0, quantity: m.qty.0 as i64 })
}

/// What a payload of kind `t` decodes to: the engine command of a book-affecting kind,
/// nothing for any other kind.
pub open spec fn decoded_command(t: ItchMsgType, payload: Seq<u8>) -> DecodeResult {
    match t {
        ItchMsgType::AddOrder => match parsed_fixed::<ItchAddOrder>(payload) {
            Ok(m) => Ok(Some(add_command(m))),
            Err(e) => Err(e),
        },
        ItchMsgType::AddOrderMpid => match add_order_mpid_parsed(payload) {
            Ok(m) => Ok(Some(add_command(m.add_msg))),
            Err(e) => Err(e),
        },
        ItchMsgType::ExecuteOrder => match parsed_fixed::<ExecuteOrder>(payload) {
            Ok(m) => Ok(Some(execute_command(m))),
            Err(e) => Err(e),
        },
        ItchMsgType::ExecuteOrderWithPrice => match execute_with_price_parsed(payload) {
            Ok(m) => Ok(Some(execute_command(m.execution))),
            Err(e) => Err(e),
        },
        ItchMsgType::ReduceOrder => match parsed_fixed::<ReduceOrder>(payload) {
            Ok(m) => Ok(
                Some(OrderCommand::Reduce(ReduceOrderCommand { order_id: m.oid.0, quantity: m.qty.0 as i64 })),
            ),
            Err(e) => Err(e),
        },
        ItchMsgType::DeleteOrder => match parsed_fixed::<DeleteOrder>(payload) {
            Ok(m) => Ok(Some(OrderCommand::CancelByOrderId(CancelByOrderIdCommand { order_id: m.oid.0 }))),
            Err(e) => Err(e),
        },
        ItchMsgType::ReplaceOrder => match parsed_fixed::<ReplaceOrder>(payload) {
            Ok(m) => Ok(
                Some(
                    OrderCommand::ReplaceByNewId(
                        ReplaceOrderByNewIdCommand {
                            old_order_id: m.oid.0,
                            new_order_id: m.new_order_id.0,
                            new_price: m.new_price.0 as i64,
                            new_quantity: m.new_qty.0 as i64,
                            symbol_id: None,
                            side: None,
                        },
                    ),
                ),
            ),
            Err(e) => Err(e),
        },
        _ => Ok(None),
    }
}

fn add_order_command(m: &ItchAddOrder) -> (r: OrderCommand)
    ensures
        r == add_command(*m),
{
    OrderCommand::Add(
        AddOrderCommand {
            id: m.oid.0,
            participant_id: ITCH_PARTICIPANT,
            symbol_id: m.stock_locate.0 as u32,
            side: match m.buy {
                BuySell::Buy => Side::Buy,
                BuySell::Sell => Side::Sell,
            },
            order_type: OrderType::Limit,
            price: Some(m.price.0 as i64),
            quantity: m.qty.0 as i64,
            time_in_force: TimeInForce::Gtc,
            stop_price: None,
            max_visible_quantity: None,
            slippage: None,
            trailing_distance: None,
            trailing_step: None,
        },
    )
}

/// Decode one book-affecting ITCH message into an [`OrderCommand`].
/// Returns `Ok(None)` for non–book-affecting or skipped messages.
pub fn decode_book_message(msg_type: ItchMsgType, payload: &[u8]) -> (r: DecodeResult)
    ensures
        r == decoded_command(msg_type, payload@),
{
    let cmd = match msg_type {
        ItchMsgType::AddOrder => {
            let m = ItchAddOrder::parse(payload)?;
            Some(add_order_command(&m))
        },
        ItchMsgType::AddOrderMpid => {
            let m = AddOrderMpid::parse(payload)?;
            Some(add_order_command(&m.add_msg))
        },
        ItchMsgType::ExecuteOrder => {
            let m = ExecuteOrder::parse(payload)?;
            Some(OrderCommand::Execute(ExecuteOrderCommand { order_id: m.oid.0, quantity: m.qty.0 as i64 }))
        },
        ItchMsgType::ExecuteOrderWithPrice => {
            let m = ExecuteOrderWithPrice::parse(payload)?;
            Some(
                OrderCommand::Execute(
                    ExecuteOrderCommand { order_id: m.execution.oid.0, quantity: m.execution.qty.0 as i64 },
                ),
            )
        },
        ItchMsgType::ReduceOrder => {
            let m = ReduceOrder::parse(payload)?;
            Some(OrderCommand::Reduce(ReduceOrderCommand { order_id: m.oid.0, quantity: m.qty.0 as i64 }))
        },
        ItchMsgType::DeleteOrder => {
            let m = DeleteOrder::parse(payload)?;
            Some(OrderCommand::CancelByOrderId(CancelByOrderIdCommand { order_id: m.oid.0 }))
        },
        ItchMsgType::ReplaceOrder => {
            let m = ReplaceOrder::parse(payload)?;
            Some(
                OrderCommand::ReplaceByNewId(
                    ReplaceOrderByNewIdCommand {
                        old_order_id: m.oid.0,
                        new_order_id: m.new_order_id.0,
                        new_price: m.new_price.0 as i64,
                        new_quantity: m.new_qty.0 as i64,
                        symbol_id: None,
                        side: None,
                    },
                ),
            )
        },
        _ => None,
    };
    Ok(cmd)
}

/// The frames of `data`, read one after another until the data ends or a frame fails to
/// parse: the number of book-affecting frames, or the first error.
pub open spec fn scanned(data: Seq<u8>) -> core::result::Result<nat, FeedError>
    decreases data.len(),
{
    if data.len() == 0 {
        Ok(0)
    } else {
        match header_of(data) {
            Err(e) => Err(e),
            Ok((t, total)) => if data.len() < total {
                Err(short(total as int, data.len() as int))
            } else if total == 0 {
                Ok(0)
            } else {
                let rest = scanned(data.subrange(total as int, data.len() as int));
                if book_affecting(t) {
                    match decoded_command(t, data.subrange(3, total as int)) {
                        Err(e) => Err(e),
                        Ok(_) => match rest {
                            Ok(n) => Ok(n + 1),
                            Err(e) => Err(e),
                        },
                    }
                } else {
                    rest
                }
            },
        }
    }
}

/// Every command decoded from the frames of `data` (up to the first frame that fails to
/// parse) is one the service admits.
pub open spec fn feed_admitted<E: OrderMatchingService>(data: Seq<u8>) -> bool
    decreases data.len(),
{
    if data.len() == 0 {
        true
    } else {
        match header_of(data) {
            Err(_) => true,
            Ok((t, total)) => if data.len() < total || total == 0 {
                true
            } else {
                &&& (decoded_command(t, data.subrange(3, total as int)) matches Ok(Some(c)) ==> E::admits(c))
                &&& feed_admitted::<E>(data.subrange(total as int, data.len() as int))
            },
        }
    }
}

/// `count` more than the count in `r`, or the error of `r`.
pub open spec fn counted_after(count: nat, r: core::result::Result<nat, FeedError>) -> core::result::Result<nat, FeedError> {
    match r {
        Ok(n) => Ok(count + n),
        Err(e) => Err(e),
    }
}

/// A frame header reads a total length of at least three bytes.
proof fn lemma_header_total(data: Seq<u8>)
    ensures
        header_of(data) matches Ok((t, total)) ==> total == 3 + msg_len(t) && total > 3,
{
    if let Ok((t, total)) = header_of(data) {
        super::messages::lemma_msg_type_roundtrip(t, 0);
    }
}

/// The count of a successful scan is at most the number of bytes scanned.
pub proof fn lemma_scanned_bound(data: Seq<u8>)
    ensures
        scanned(data) matches Ok(n) ==> n <= data.len(),
    decreases data.len(),
{
    lemma_header_total(data);
    if data.len() > 0 {
        if let Ok((t, total)) = header_of(data) {
            if data.len() >= total && total > 0 {
                lemma_scanned_bound(data.subrange(total as int, data.len() as int));
            }
        }
    }
}

/// Walk ITCH packets and fully decode every book-affecting payload (no engine).
pub fn scan_decode_book_messages(data: &[u8]) -> (r: core::result::Result<u64, FeedError>)
    ensures
        match scanned(data@) {
            Ok(n) => r == Ok::<u64, FeedError>(n as u64),
            Err(e) => r == Err::<u64, FeedError>(e),
        },
{
    let mut i: usize = 0;
    let mut book_count: u64 = 0;
    proof {
        assert(data@.subrange(0, data@.len() as int) =~= data@);
    }
    while i < data.len()
        invariant
            i <= data@.len(),
            book_count <= i,
            scanned(data@) == counted_after(book_count as nat, scanned(data@.subrange(i as int, data@.len() as int))),
        decreases data@.len() - i,
    {
        let rest = &data[i..data.len()];
        proof {
            lemma_header_total(rest@);
        }
        let (msg_type, total) = read_itch_header(rest)?;
        if rest.len() < total {
            return Err(FeedError::Parse { required: total, got: rest.len() });
        }
        let payload = &rest[3..total];
        if is_book_affecting(msg_type) {
            book_count = book_count + 1;
            decode_book_message(msg_type, payload)?;
        }
        proof {
            assert(rest@.subrange(total as int, rest@.len() as int) =~= data@.subrange(i + total, data@.len() as int));
        }
        i = i + total;
    }
    proof {
        assert(data@.subrange(i as int, data@.len() as int) =~= Seq::<u8>::empty());
    }
    Ok(book_count)
}

/// A frame count after one more frame: one more, wrapping to zero after `u64::MAX` as
/// an unchecked `u64` addition does.
pub open spec fn counted_once(n: u64) -> u64 {
    if n == u64::MAX {
        0
    } else {
        (n + 1) as u64
    }
}

/// Applies one frame's payload: a book-affecting kind is counted, decoded, and its
/// command (if any) handed to the engine.
pub fn apply_itch_payload<E: OrderMatchingService>(
    msg_type: ItchMsgType,
    payload: &[u8],
    engine: &mut E,
    npkts: &mut u64,
) -> (r: Result<()>)
    requires
        old(engine).inv(),
        decoded_command(msg_type, payload@) matches Ok(Some(c)) ==> E::admits(c),
    ensures
        final(engine).inv(),
        *final(npkts) == if book_affecting(msg_type) { counted_once(*old(npkts)) } else { *old(npkts) },
        !book_affecting(msg_type) ==> r is Ok && *final(engine) == *old(engine),
        book_affecting(msg_type) ==> match decoded_command(msg_type, payload@) {
            Err(e) => r == Err::<(), Error>(Error::Feed(e)) && *final(engine) == *old(engine),
            Ok(None) => r is Ok && *final(engine) == *old(engine),
            Ok(Some(c)) => final(engine).applied(old(engine), c, r),
        },
{
    if is_book_affecting(msg_type) {
        *npkts = if *npkts == u64::MAX { 0 } else { *npkts + 1 };
        let decoded = decode_book_message(msg_type, payload);
        match decoded {
            Ok(Some(cmd)) => {
                return engine.process(cmd);
            },
            Ok(None) => {},
            Err(e) => {
                return Err(Error::Feed(e));
            },
        }
    }
    Ok(())
}

/// The engine's answer inside a frame step's answer.
pub open spec fn step_answer(r: Result<FrameStep>) -> Result<()> {
    match r {
        Ok(_) => Ok(()),
        Err(e) => Err(e),
    }
}

/// What one step over the pending bytes of a stream did.
#[derive(Debug, Clone, Copy, PartialEq, Eq, Structural)]
pub enum FrameStep {
    /// Fewer than three bytes are pending: a frame header is needed first.
    NeedHeader,
    /// The frame at the front needs this many bytes in all, more than are pending.
    NeedFrame(usize),
    /// The frame at the front was applied and consumed.
    Applied,
}

/// Handles the frame at the front of a stream's buffer: a whole pending frame is applied
/// to the engine (see [`apply_itch_payload`]) and, when that succeeds, consumed; with too
/// few bytes pending nothing changes and the step says what is missing. The reader
/// fills the buffer and calls again.
pub fn step_itch_frame<R, E: OrderMatchingService>(
    buf: &mut BufferedReader<R>,
    engine: &mut E,
    npkts: &mut u64,
) -> (r: Result<FrameStep>)
    requires
        old(buf).wf(),
        old(engine).inv(),
        feed_admitted::<E>(old(buf).pending()),
    ensures
        final(buf).wf(),
        final(engine).inv(),
        final(buf).capacity() == old(buf).capacity(),
        final(buf).source() == old(buf).source(),
        old(buf).pending().len() < 3 ==> r == Ok::<FrameStep, Error>(FrameStep::NeedHeader)
            && *final(buf) == *old(buf) && *final(engine) == *old(engine) && *final(npkts) == *old(npkts),
        old(buf).pending().len() >= 3 ==> match header_of(old(buf).pending()) {
            Err(e) => r == Err::<FrameStep, Error>(Error::Feed(e)) && *final(buf) == *old(buf)
                && *final(engine) == *old(engine) && *final(npkts) == *old(npkts),
            Ok((t, total)) => if old(buf).pending().len() < total {
                r == Ok::<FrameStep, Error>(FrameStep::NeedFrame(total)) && *final(buf) == *old(buf)
                    && *final(engine) == *old(engine) && *final(npkts) == *old(npkts)
            } else {
                let payload = old(buf).pending().subrange(3, total as int);
                &&& *final(npkts) == if book_affecting(t) { counted_once(*old(npkts)) } else { *old(npkts) }
                &&& r is Ok ==> r == Ok::<FrameStep, Error>(FrameStep::Applied) && final(buf).pending()
                    == old(buf).pending().subrange(total as int, old(buf).pending().len() as int)
                &&& r is Err ==> final(buf).pending() == old(buf).pending()
                &&& !book_affecting(t) ==> r is Ok && *final(engine) == *old(engine)
                &&& book_affecting(t) ==> match decoded_command(t, payload) {
                    Err(e) => r == Err::<FrameStep, Error>(Error::Feed(e)) && *final(engine) == *old(engine),
                    Ok(None) => r is Ok && *final(engine) == *old(engine),
                    Ok(Some(c)) => final(engine).applied(old(engine), c, step_answer(r)),
                }
            },
        },
{
    if !buf.available_n(3) {
        return Ok(FrameStep::NeedHeader);
    }
    let front = buf.get(0);
    proof {
        assert(front@ =~= buf.pending());
    }
    let header = read_itch_header(front);
    let (msg_type, total) = match header {
        Ok(h) => h,
        Err(e) => {
            return Err(Error::Feed(e));
        },
    };
    proof {
        lemma_header_total(buf.pending());
    }
    if !buf.available_n(total) {
        return Ok(FrameStep::NeedFrame(total));
    }
    let frame = buf.get(0);
    let payload = &frame[3..total];
    proof {
        assert(frame@ =~= buf.pending());
        assert(payload@ =~= buf.pending().subrange(3, total as int));
        assert(feed_admitted::<E>(buf.pending()));
    }
    let ghost e_before = *engine;
    let answer = apply_itch_payload(msg_type, payload, engine, npkts);
    proof {
        if let Ok(Some(c)) = decoded_command(msg_type, payload@) {
            if book_affecting(msg_type) {
                assert(engine.applied(&e_before, c, answer));
            }
        }
    }
    match answer {
        Ok(u) => {
            proof {
                assert(u == ());
                assert(answer == Ok::<(), Error>(u));
            }
        },
        Err(e) => {
            proof {
                assert(step_answer(Err::<FrameStep, Error>(e)) == answer);
            }
            return Err(e);
        },
    }
    buf.advance(total);
    proof {
        assert(answer == Ok::<(), Error>(()));
        assert(step_answer(Ok::<FrameStep, Error>(FrameStep::Applied)) == answer);
    }
    Ok(FrameStep::Applied)
}

/// Feeding the frames of `data` to an engine, from `e0` with `count` book frames already
/// counted, ends with the engine at `e1` and the answer `r`: the frames are read in turn;
/// a book-affecting one is counted and its command handed to the engine; the first frame
/// that fails to read or decode, or the first command the engine answers with an error,
/// ends the feed with that error; at the end of the data the answer is the count.
#[verifier::opaque]
pub open spec fn fed<E: OrderMatchingService>(e0: E, e1: E, data: Seq<u8>, count: nat, r: Result<u64>) -> bool
    decreases data.len(),
{
    if data.len() == 0 {
        e1 == e0 && r == Ok::<u64, Error>(count as u64)
    } else {
        match header_of(data) {
            Err(e) => e1 == e0 && r == Err::<u64, Error>(Error::Feed(e)),
            Ok((t, total)) => if data.len() < total {
                e1 == e0 && r == Err::<u64, Error>(Error::Feed(short(total as int, data.len() as int)))
            } else if total == 0 {
                e1 == e0 && r == Ok::<u64, Error>(count as u64)
            } else {
                let rest = data.subrange(total as int, data.len() as int);
                if !book_affecting(t) {
                    fed(e0, e1, rest, count, r)
                } else {
                    match decoded_command(t, data.subrange(3, total as int)) {
                        Err(e) => e1 == e0 && r == Err::<u64, Error>(Error::Feed(e)),
                        Ok(None) => fed(e0, e1, rest, count + 1, r),
                        Ok(Some(c)) => exists|mid: E, answer: Result<()>|
                            #[trigger] mid.applied(&e0, c, answer) && match answer {
                                Ok(()) => fed(mid, e1, rest, count + 1, r),
                                Err(x) => e1 == mid && r == Err::<u64, Error>(x),
                            },
                    }
                }
            },
        }
    }
}

/// A feed stops where the data ends, where a frame fails to read or decode, and where
/// the engine refuses a command.
proof fn lemma_fed_stops<E: OrderMatchingService>(e0: E, e1: E, data: Seq<u8>, count: nat, x: Error)
    ensures
        data.len() == 0 ==> fed(e0, e0, data, count, Ok::<u64, Error>(count as u64)),
        data.len() > 0 ==> match header_of(data) {
            Err(e) => fed(e0, e0, data, count, Err::<u64, Error>(Error::Feed(e))),
            Ok((t, total)) => {
                &&& data.len() < total ==> fed(e0, e0, data, count,
                    Err::<u64, Error>(Error::Feed(short(total as int, data.len() as int))))
                &&& data.len() >= total && total > 0 && book_affecting(t) ==> match decoded_command(t, data.subrange(3, total as int)) {
                    Err(e) => fed(e0, e0, data, count, Err::<u64, Error>(Error::Feed(e))),
                    Ok(None) => true,
                    Ok(Some(c)) => e1.applied(&e0, c, Err::<(), Error>(x)) ==> fed(e0, e1, data, count, Err::<u64, Error>(x)),
                }
            },
        },
{
    reveal(fed);
}

/// Once the frame at the front of `data` has been handled, taking the engine from `e0`
/// to `mid`, feeding the rest from `mid` is feeding all of `data` from `e0`.
proof fn lemma_fed_frame<E: OrderMatchingService>(e0: E, mid: E, data: Seq<u8>, count: nat, next: nat, t: ItchMsgType, total: usize)
    requires
        next == if book_affecting(t) { count + 1 } else { count },
        data.len() > 0,
        header_of(data) == Ok::<ItchFrameHeader, FeedError>((t, total)),
        0 < total <= data.len(),
        !book_affecting(t) ==> mid == e0,
        book_affecting(t) ==> match decoded_command(t, data.subrange(3, total as int)) {
            Err(_) => false,
            Ok(None) => mid == e0,
            Ok(Some(c)) => mid.applied(&e0, c, Ok::<(), Error>(())),
        },
    ensures
        forall|e_end: E, r_end: Result<u64>|
            #[trigger] fed(mid, e_end, data.subrange(total as int, data.len() as int), next, r_end)
                ==> fed(e0, e_end, data, count, r_end),
{
    reveal(fed);
    let rest = data.subrange(total as int, data.len() as int);
    assert forall|e_end: E, r_end: Result<u64>| #[trigger] fed(mid, e_end, rest, next, r_end)
        implies fed(e0, e_end, data, count, r_end) by {
        if book_affecting(t) {
            if let Ok(Some(c)) = decoded_command(t, data.subrange(3, total as int)) {
                assert(mid.applied(&e0, c, Ok::<(), Error>(())));
            }
        }
    }
}

/// Process a contiguous byte slice of ITCH packets (each: u16 length BE, u8 type, payload).
/// Returns the number of book-affecting messages processed.
pub fn process_itch_bytes<E: OrderMatchingService>(data: &[u8], engine: &mut E) -> (r: Result<u64>)
    requires
        old(engine).inv(),
        feed_admitted::<E>(data@),
    ensures
        final(engine).inv(),
        fed(*old(engine), *final(engine), data@, 0, r),
        r matches Ok(n) ==> scanned(data@) == Ok::<nat, FeedError>(n as nat),
        scanned(data@) is Err ==> r is Err,
{
    let mut i: usize = 0;
    let mut npkts: u64 = 0;
    let ghost start = *engine;
    proof {
        assert(data@.subrange(0, data@.len() as int) =~= data@);
    }
    while i < data.len()
        invariant
            i <= data@.len(),
            npkts <= i,
            engine.inv(),
            start == *old(engine),
            scanned(data@) == counted_after(npkts as nat, scanned(data@.subrange(i as int, data@.len() as int))),
            feed_admitted::<E>(data@.subrange(i as int, data@.len() as int)),
            forall|e_end: E, r_end: Result<u64>|
                #[trigger] fed(*engine, e_end, data@.subrange(i as int, data@.len() as int), npkts as nat, r_end)
                    ==> fed(start, e_end, data@, 0, r_end),
        decreases data@.len() - i,
    {
        let rest = &data[i..data.len()];
        let ghost e_before = *engine;
        proof {
            lemma_header_total(rest@);
            assert(rest@ == data@.subrange(i as int, data@.len() as int));
        }
        let (msg_type, total) = match read_itch_header(rest) {
            Ok(h) => h,
            Err(e) => {
                proof {
                    lemma_fed_stops(e_before, e_before, rest@, npkts as nat, Error::Feed(e));
                }
                return Err(Error::Feed(e));
            },
        };
        if rest.len() < total {
            proof {
                lemma_fed_stops(e_before, e_before, rest@, npkts as nat, Error::Feed(FeedError::Parse { required: total, got: rest.len() }));
            }
            return Err(Error::Feed(FeedError::Parse { required: total, got: rest.len() }));
        }
        let payload = &rest[3..total];
        let ghost before = npkts;
        proof {
            assert(rest@.subrange(total as int, rest@.len() as int) =~= data@.subrange(i + total, data@.len() as int));
            assert(rest@.subrange(3, total as int) == payload@);
        }
        let applied = apply_itch_payload(msg_type, payload, engine, &mut npkts);
        match applied {
            Ok(u) => {
                proof {
                    assert(u == ());
                    assert(applied == Ok::<(), Error>(u));
                }
            },
            Err(x) => {
                proof {
                    lemma_fed_stops(e_before, *engine, rest@, before as nat, x);
                }
                return Err(x);
            },
        }
        proof {
            lemma_fed_frame(e_before, *engine, rest@, before as nat, npkts as nat, msg_type, total);
        }
        i = i + total;
    }
    proof {
        assert(data@.subrange(i as int, data@.len() as int) =~= Seq::<u8>::empty());
        lemma_fed_stops(*engine, *engine, data@.subrange(i as int, data@.len() as int), npkts as nat, Error::Feed(FeedError::InvalidMessageType(0)));
    }
    Ok(npkts)
}

/// Law: an ITCH replace (`U`) payload of 35 bytes decodes to a replace under a new id
/// whose old id is the big-endian number at bytes 11..19 (the original order reference),
/// whose new id is the one at bytes 19..27, whose quantity is the one at 27..31 and whose
/// price is the one at 31..35, keeping symbol and side.
pub proof fn law_replace_decodes_references(payload: Seq<u8>)
    requires
        payload.len() == 35,
    ensures
        decoded_command(ItchMsgType::ReplaceOrder, payload) matches Ok(Some(OrderCommand::ReplaceByNewId(c))) && {
            &&& c.old_order_id as nat == super::wire::be_value(payload.subrange(11, 19))
            &&& c.new_order_id as nat == super::wire::be_value(payload.subrange(19, 27))
            &&& c.new_quantity as nat == super::wire::be_value(payload.subrange(27, 31))
            &&& c.new_price as nat == super::wire::be_value(payload.subrange(31, 35))
            &&& c.symbol_id is None
            &&& c.side is None
        },
{
    super::wire::lemma_be_value_bound(payload.subrange(11, 19));
    super::wire::lemma_be_value_bound(payload.subrange(19, 27));
    super::wire::lemma_be_value_bound(payload.subrange(27, 31));
    super::wire::lemma_be_value_bound(payload.subrange(31, 35));
    reveal_with_fuel(super::wire::pow256, 9);
}

/// Law: the other book messages decode by their documented byte positions: an add
/// (`A`, 36 bytes) with side byte `B` or `S` at 19 is a good-till-cancel limit order of
/// the feed's participant whose id is the big-endian number at 11..19, whose book is the
/// one at 1..3, whose quantity is the one at 20..24 and whose price is the one at 32..36,
/// buying exactly when the side byte is `B`; an execution (`E`, 31 bytes) and a reduction
/// (`X`, 23 bytes) name the order at 11..19 and the quantity at 19..23; a delete (`D`,
/// 19 bytes) cancels the order at 11..19.
pub proof fn law_book_messages_decode(payload: Seq<u8>)
    ensures
        payload.len() == 36 && (payload[19] == 66u8 || payload[19] == 83u8) ==> (decoded_command(
            ItchMsgType::AddOrder,
            payload,
        ) matches Ok(Some(OrderCommand::Add(c))) && {
            &&& c.id as nat == super::wire::be_value(payload.subrange(11, 19))
            &&& c.symbol_id as nat == super::wire::be_value(payload.subrange(1, 3))
            &&& c.quantity == super::wire::be_value(payload.subrange(20, 24))
            &&& c.price matches Some(p) && p == super::wire::be_value(payload.subrange(32, 36))
            &&& (c.side == Side::Buy <==> payload[19] == 66u8)
            &&& c.order_type == OrderType::Limit
            &&& c.time_in_force == TimeInForce::Gtc
            &&& c.participant_id == ITCH_PARTICIPANT
        }),
        payload.len() == 31 ==> (decoded_command(ItchMsgType::ExecuteOrder, payload) matches Ok(
            Some(OrderCommand::Execute(c)),
        ) && c.order_id as nat == super::wire::be_value(payload.subrange(11, 19)) && c.quantity
            == super::wire::be_value(payload.subrange(19, 23))),
        payload.len() == 23 ==> (decoded_command(ItchMsgType::ReduceOrder, payload) matches Ok(
            Some(OrderCommand::Reduce(c)),
        ) && c.order_id as nat == super::wire::be_value(payload.subrange(11, 19)) && c.quantity
            == super::wire::be_value(payload.subrange(19, 23))),
        payload.len() == 19 ==> (decoded_command(ItchMsgType::DeleteOrder, payload) matches Ok(
            Some(OrderCommand::CancelByOrderId(c)),
        ) && c.order_id as nat == super::wire::be_value(payload.subrange(11, 19))),
{
    super::wire::lemma_be_value_bound(payload.subrange(1, 3));
    super::wire::lemma_be_value_bound(payload.subrange(11, 19));
    super::wire::lemma_be_value_bound(payload.subrange(19, 23));
    super::wire::lemma_be_value_bound(payload.subrange(20, 24));
    super::wire::lemma_be_value_bound(payload.subrange(32, 36));
    reveal_with_fuel(super::wire::pow256, 9);
}

/// Law: an MPID add (`F`) decodes to the command of the plain add (`A`) made of its
/// first 36 bytes, and an execution with price (`C`) to the command of the plain
/// execution (`E`) made of its first 31 bytes: the attribution and the price add nothing
/// to what the engine is told.
pub proof fn law_attributed_messages_decode_as_plain(payload: Seq<u8>)
    ensures
        payload.len() >= 40 ==> decoded_command(ItchMsgType::AddOrderMpid, payload) == decoded_command(
            ItchMsgType::AddOrder,
            payload.subrange(0, 36),
        ),
        payload.len() >= 36 ==> decoded_command(ItchMsgType::ExecuteOrderWithPrice, payload)
            == decoded_command(ItchMsgType::ExecuteOrder, payload.subrange(0, 31)),
{
    if payload.len() >= 36 {
        let a = payload.subrange(0, 36);
        assert(a.subrange(1, 3) =~= payload.subrange(1, 3));
        assert(a.subrange(5, 11) =~= payload.subrange(5, 11));
        assert(a.subrange(11, 19) =~= payload.subrange(11, 19));
        assert(a.subrange(20, 24) =~= payload.subrange(20, 24));
        assert(a.subrange(32, 36) =~= payload.subrange(32, 36));
        assert(a[19] == payload[19]);
        let e = payload.subrange(0, 31);
        assert(e.subrange(1, 3) =~= payload.subrange(1, 3));
        assert(e.subrange(5, 11) =~= payload.subrange(5, 11));
        assert(e.subrange(11, 19) =~= payload.subrange(11, 19));
        assert(e.subrange(19, 23) =~= payload.subrange(19, 23));
    }
}

} // verus!
