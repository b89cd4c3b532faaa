//! Serialize-to-bytes + bounded-channel event sink.

use std::sync::Arc;
use crossbeam_channel::{Sender, TrySendError};
use vstd::prelude::*;
use crate::error::RejectionError;
use crate::types::{OrderId, Trade};
use crate::events::{Event, EventSink, EventSinkError};

verus! {

#[verifier::external_type_specification]
#[verifier::external_body]
#[verifier::reject_recursive_types(T)]
pub struct ExSender<T>(Sender<T>);

/// Why a channel refused a message.
#[derive(Debug, Clone, Copy, PartialEq, Eq, Structural)]
pub enum ChannelRefusal {
    /// The bounded channel is full.
    Full,
    /// Every receiver is gone.
    Disconnected,
}

/// Hands `bytes` to the channel with `crossbeam_channel::Sender::try_send`, which never
/// blocks: it fails when the channel is full or has no receiver left. Which of the three
/// outcomes occurs depends on the channel's state at the time (other threads fill and
/// drain it), so nothing is stated of the result.
#[verifier::external_body]
fn try_send_bytes(tx: &Sender<Vec<u8>>, bytes: Vec<u8>) -> (r: Result<(), ChannelRefusal>) {
    match tx.try_send(bytes) {
        Ok(()) => Ok(()),
        Err(TrySendError::Full(_)) => Err(ChannelRefusal::Full),
        Err(TrySendError::Disconnected(_)) => Err(ChannelRefusal::Disconnected),
    }
}

/// The sink's answer for a channel's answer: a full channel is backpressure, a channel
/// without receivers is disconnected.
pub open spec fn refusal_answer(r: Result<(), ChannelRefusal>) -> Result<(), EventSinkError> {
    match r {
        Ok(()) => Ok(()),
        Err(ChannelRefusal::Full) => Err(EventSinkError::Backpressure),
        Err(ChannelRefusal::Disconnected) => Err(EventSinkError::Disconnected),
    }
}

/// Maps the channel's answer to the sink's answer.
pub fn sink_answer(r: Result<(), ChannelRefusal>) -> (a: Result<(), EventSinkError>)
    ensures
        a == refusal_answer(r),
{
    match r {
        Ok(()) => Ok(()),
        Err(ChannelRefusal::Full) => Err(EventSinkError::Backpressure),
        Err(ChannelRefusal::Disconnected) => Err(EventSinkError::Disconnected),
    }
}

/// Serialize-to-bytes + bounded-channel sink: each event is encoded and offered to the
/// channel without blocking.
#[derive(Debug)]
pub struct BytesChannelEventSink {
    tx: Sender<Vec<u8>>,
    codec: Arc<EventCodec>,
}

impl BytesChannelEventSink {
    /// Create a sink that tries to send serialized event bytes to `tx`.
    pub fn new(tx: Sender<Vec<u8>>) -> (r: Self)
        ensures
            r.sender() == tx,
    {
        Self { tx, codec: Arc::new(EventCodec) }
    }

    /// The channel the sink sends to.
    pub closed spec fn sender(&self) -> Sender<Vec<u8>> {
        self.tx
    }
}

impl EventSink for BytesChannelEventSink {
    fn emit(&self, event: Event) -> (r: Result<(), EventSinkError>)
        ensures
            r is Ok || r == Err::<(), EventSinkError>(EventSinkError::Backpressure) || r == Err::<
                (),
                EventSinkError,
            >(EventSinkError::Disconnected),
    {
        let bytes = match self.codec.encode(&event) {
            Ok(b) => b,
            Err(s) => {
                return Err(EventSinkError::SerializationFailed(s));
            },
        };
        sink_answer(try_send_bytes(&self.tx, bytes))
    }
}

/// Byte `k` (least significant first) of `v`.
pub open spec fn shifted(v: nat, k: nat) -> nat
    decreases k,
{
    if k == 0 {
        v
    } else {
        shifted(v, (k - 1) as nat) / 256
    }
}

/// The `n` little-endian bytes of `v`.
pub open spec fn le_bytes(v: nat, n: nat) -> Seq<u8> {
    Seq::new(n, |k: int| (shifted(v, k as nat) % 256) as u8)
}

/// The stable code of each rejection in the byte encoding.
pub open spec fn rejection_code_of(r: RejectionError) -> u8 {
    match r {
        RejectionError::InvalidPrice => 1u8,
        RejectionError::InvalidQuantity => 2u8,
        RejectionError::SelfTrade => 3u8,
        RejectionError::OrderNotFound(_) => 4u8,
        RejectionError::StaleSequence => 5u8,
        RejectionError::ParticipantMismatch => 6u8,
        RejectionError::PriceBookInvariantViolation => 7u8,
        RejectionError::InsufficientLiquidity => 8u8,
        RejectionError::SymbolDuplicate => 9u8,
        RejectionError::SymbolNotFound => 10u8,
        RejectionError::OrderBookDuplicate => 11u8,
        RejectionError::OrderBookNotFound => 12u8,
        RejectionError::OrderDuplicate => 13u8,
        RejectionError::OrderIdInvalid => 14u8,
        RejectionError::OrderTypeInvalid => 15u8,
        RejectionError::OrderParameterInvalid => 16u8,
        RejectionError::OrderQuantityInvalid => 17u8,
    }
}

/// The byte encoding of an event (little-endian): `Accepted` is tag 1 and the order id,
/// `Canceled` tag 2 and the order id, `Rejected` tag 3 and the rejection code, `Trade` tag
/// 4, aggressor, resting, price, quantity and sequence (signed fields in two's complement).
pub open spec fn event_bytes(e: Event) -> Seq<u8> {
    match e {
        Event::Accepted(oid) => seq![1u8] + le_bytes(oid as nat, 8),
        Event::Canceled(oid) => seq![2u8] + le_bytes(oid as nat, 8),
        Event::Rejected(rej) => seq![3u8, rejection_code_of(rej)],
        Event::Trade(t) => seq![4u8] + le_bytes(t.aggressor as nat, 8) + le_bytes(t.resting as nat, 8)
            + le_bytes((t.price as u64) as nat, 8) + le_bytes((t.quantity as u64) as nat, 8)
            + le_bytes(t.sequence as nat, 8),
    }
}

/// Stable mapping of rejections to one byte.
fn rejection_code(r: RejectionError) -> (c: u8)
    ensures
        c == rejection_code_of(r),
{
    match r {
            RejectionError::InvalidPrice => 1u8,
            RejectionError::InvalidQuantity => 2u8,
            RejectionError::SelfTrade => 3u8,
            RejectionError::OrderNotFound(_) => 4u8,
            RejectionError::StaleSequence => 5u8,
            RejectionError::ParticipantMismatch => 6u8,
            RejectionError::PriceBookInvariantViolation => 7u8,
            RejectionError::InsufficientLiquidity => 8u8,
            RejectionError::SymbolDuplicate => 9u8,
            RejectionError::SymbolNotFound => 10u8,
            RejectionError::OrderBookDuplicate => 11u8,
            RejectionError::OrderBookNotFound => 12u8,
            RejectionError::OrderDuplicate => 13u8,
            RejectionError::OrderIdInvalid => 14u8,
            RejectionError::OrderTypeInvalid => 15u8,
            RejectionError::OrderParameterInvalid => 16u8,
            RejectionError::OrderQuantityInvalid => 17u8,
    }
}

fn put_u64(buf: &mut Vec<u8>, v: u64)
    ensures
        final(buf)@ == old(buf)@ + le_bytes(v as nat, 8),
{
    let ghost start = buf@;
    let mut x: u64 = v;
    let mut i: usize = 0;
    while i < 8
        invariant
            i <= 8,
            x == shifted(v as nat, i as nat),
            buf@ == start + le_bytes(v as nat, i as nat),
        decreases 8 - i,
    {
        buf.push((x % 256) as u8);
        proof {
            assert(buf@ =~= start + le_bytes(v as nat, (i + 1) as nat));
        }
        x = x / 256;
        i = i + 1;
    }
}

fn put_i64(buf: &mut Vec<u8>, v: i64)
    ensures
        final(buf)@ == old(buf)@ + le_bytes((v as u64) as nat, 8),
{
    put_u64(buf, v as u64);
}

/// Simple stable binary encoding for events (see [`event_bytes`]).
#[derive(Debug)]
pub struct EventCodec;

impl EventCodec {
    /// Encodes an event; the encoding never fails.
    pub fn encode(&self, event: &Event) -> (r: Result<Vec<u8>, String>)
        ensures
            r matches Ok(b) && b@ == event_bytes(*event),
    {
        let mut out: Vec<u8> = Vec::new();
        match event {
            Event::Accepted(oid) => {
                out.push(1);
                put_u64(&mut out, *oid);
            },
            Event::Canceled(oid) => {
                out.push(2);
                put_u64(&mut out, *oid);
            },
            Event::Rejected(rej) => {
                out.push(3);
                out.push(rejection_code(*rej));
                proof {
                    assert(out@ =~= seq![3u8, rejection_code_of(*rej)]);
                }
            },
            Event::Trade(t) => {
                out.push(4);
                put_u64(&mut out, t.aggressor);
                put_u64(&mut out, t.resting);
                put_i64(&mut out, t.price);
                put_i64(&mut out, t.quantity);
                put_u64(&mut out, t.sequence);
            },
        }
        proof {
            assert(out@ =~= event_bytes(*event));
        }
        Ok(out)
    }
}

/// The number that little-endian bytes `s` spell.
pub open spec fn le_value(s: Seq<u8>) -> nat
    decreases s.len(),
{
    if s.len() == 0 {
        0
    } else {
        s[0] as nat + 256 * le_value(s.drop_first())
    }
}

/// `256^n`.
pub open spec fn pow256_le(n: nat) -> nat
    decreases n,
{
    if n == 0 {
        1
    } else {
        256 * pow256_le((n - 1) as nat)
    }
}

proof fn lemma_shifted_step(v: nat, k: nat)
    ensures
        shifted(v / 256, k) == shifted(v, k + 1),
    decreases k,
{
    if k > 0 {
        lemma_shifted_step(v, (k - 1) as nat);
        assert(shifted(v, k + 1) == shifted(v, k) / 256);
    } else {
        assert(shifted(v, 0) == v);
        assert(shifted(v, 1) == shifted(v, 0) / 256);
    }
}

/// Reading the `n` little-endian bytes of `v` gives `v` back, when it fits.
pub proof fn lemma_le_roundtrip(v: nat, n: nat)
    requires
        v < pow256_le(n),
    ensures
        le_value(le_bytes(v, n)) == v,
    decreases n,
{
    if n == 0 {
    } else {
        let b = le_bytes(v, n);
        let rest = le_bytes(v / 256, (n - 1) as nat);
        assert forall|k: int| 0 <= k < rest.len() implies #[trigger] b.drop_first()[k] == rest[k] by {
            lemma_shifted_step(v, k as nat);
        }
        assert(b.drop_first() =~= rest);
        lemma_le_roundtrip(v / 256, (n - 1) as nat);
    }
}

/// Law: an encoded trade is 41 bytes, tagged 4, and a reader of its little-endian
/// fields gets the aggressor from bytes 1..9, the resting order from 9..17, the price
/// and quantity (as two's-complement `u64`) from 17..25 and 25..33, and the sequence
/// from 33..41; an encoded acceptance or cancel carries its order id in 1..9.
pub proof fn law_trade_bytes_read_back(t: Trade, id: OrderId)
    ensures
        event_bytes(Event::Trade(t)).len() == 41,
        event_bytes(Event::Trade(t))[0] == 4u8,
        le_value(event_bytes(Event::Trade(t)).subrange(1, 9)) == t.aggressor,
        le_value(event_bytes(Event::Trade(t)).subrange(9, 17)) == t.resting,
        le_value(event_bytes(Event::Trade(t)).subrange(17, 25)) == t.price as u64,
        le_value(event_bytes(Event::Trade(t)).subrange(25, 33)) == t.quantity as u64,
        le_value(event_bytes(Event::Trade(t)).subrange(33, 41)) == t.sequence,
        le_value(event_bytes(Event::Accepted(id)).subrange(1, 9)) == id,
        le_value(event_bytes(Event::Canceled(id)).subrange(1, 9)) == id,
{
    reveal_with_fuel(pow256_le, 9);
    let b = event_bytes(Event::Trade(t));
    lemma_le_roundtrip(t.aggressor as nat, 8);
    lemma_le_roundtrip(t.resting as nat, 8);
    lemma_le_roundtrip(t.sequence as nat, 8);
    lemma_le_roundtrip((t.price as u64) as nat, 8);
    lemma_le_roundtrip((t.quantity as u64) as nat, 8);
    assert(b.subrange(17, 25) =~= le_bytes((t.price as u64) as nat, 8));
    assert(b.subrange(25, 33) =~= le_bytes((t.quantity as u64) as nat, 8));
    lemma_le_roundtrip(id as nat, 8);
    assert(b.subrange(1, 9) =~= le_bytes(t.aggressor as nat, 8));
    assert(b.subrange(9, 17) =~= le_bytes(t.resting as nat, 8));
    assert(b.subrange(33, 41) =~= le_bytes(t.sequence as nat, 8));
    assert(event_bytes(Event::Accepted(id)).subrange(1, 9) =~= le_bytes(id as nat, 8));
    assert(event_bytes(Event::Canceled(id)).subrange(1, 9) =~= le_bytes(id as nat, 8));
}

} // verus!
