//! ITCH 5.0 wire types and big-endian read helpers.

use vstd::prelude::*;
use crate::error::FeedError;

verus! {

/// Nanosecond timestamp (6 bytes on wire, big-endian).
#[derive(Debug, Clone, Copy, PartialEq, Eq, Structural, Default)]
pub struct Timestamp(pub u64);

/// Order id on wire (8 bytes).
#[derive(Debug, Clone, Copy, PartialEq, Eq, Structural, Default)]
pub struct Oid(pub u64);

/// Price on wire (4 bytes, unsigned).
#[derive(Debug, Clone, Copy, PartialEq, Eq, Structural, Default)]
pub struct WirePrice(pub u32);

/// Quantity on wire (4 bytes).
#[derive(Debug, Clone, Copy, PartialEq, Eq, Structural, Default)]
pub struct WireQty(pub u32);

/// Stock locate / book identifier (2 bytes on wire).
#[derive(Debug, Clone, Copy, PartialEq, Eq, Structural, Default)]
pub struct StockLocate(pub u16);

/// Buy or Sell on wire (ASCII 'B' / 'S').
#[derive(Debug, Clone, Copy, PartialEq, Eq, Structural)]
pub enum BuySell {
    /// `B`
    Buy,
    /// `S`
    Sell,
}

/// The wire byte of each side.
pub open spec fn buy_sell_code(s: BuySell) -> u8 {
    match s {
        BuySell::Buy => 66u8,
        BuySell::Sell => 83u8,
    }
}

/// The side a wire byte names, if any.
pub open spec fn buy_sell_of(b: u8) -> core::result::Result<BuySell, ()> {
    if b == 66u8 {
        Ok(BuySell::Buy)
    } else if b == 83u8 {
        Ok(BuySell::Sell)
    } else {
        Err(())
    }
}

impl BuySell {
    /// Decodes the wire byte: `B` is a buy, `S` a sell, anything else is refused.
    pub fn try_from(b: u8) -> (r: core::result::Result<BuySell, ()>)
        ensures
            r == buy_sell_of(b),
    {
        if b == 66u8 {
            Ok(BuySell::Buy)
        } else if b == 83u8 {
            Ok(BuySell::Sell)
        } else {
            Err(())
        }
    }

    /// The wire byte of this side.
    pub fn byte(self) -> (r: u8)
        ensures
            r == buy_sell_code(self),
    {
        match self {
            BuySell::Buy => 66u8,
            BuySell::Sell => 83u8,
        }
    }
}

/// Decoding the wire byte of a side gives that side back, and a byte decodes to a side
/// exactly when it is that side's wire byte.
pub proof fn lemma_buy_sell_roundtrip(s: BuySell, b: u8)
    ensures
        buy_sell_of(buy_sell_code(s)) == Ok::<BuySell, ()>(s),
        buy_sell_of(b) matches Ok(t) ==> buy_sell_code(t) == b,
{
}

/// The unsigned number that `s` spells in big-endian byte order.
pub open spec fn be_value(s: Seq<u8>) -> nat
    decreases s.len(),
{
    if s.len() == 0 {
        0
    } else {
        be_value(s.drop_last()) * 256 + (s.last() as nat)
    }
}

/// `256` to the power `n`.
pub open spec fn pow256(n: nat) -> nat
    decreases n,
{
    if n == 0 {
        1
    } else {
        256 * pow256((n - 1) as nat)
    }
}

/// The big-endian number in the `n` bytes of `bytes` from `start`.
pub open spec fn be_at(bytes: Seq<u8>, start: int, n: int) -> nat {
    be_value(bytes.subrange(start, start + n))
}

/// The error for a buffer of `got` bytes where `required` are needed.
pub open spec fn short(required: int, got: int) -> FeedError {
    FeedError::Parse { required: required as usize, got: got as usize }
}

/// A big-endian number of `n` bytes is below `256^n`.
pub proof fn lemma_be_value_bound(s: Seq<u8>)
    ensures
        be_value(s) < pow256(s.len()),
    decreases s.len(),
{
    if s.len() > 0 {
        lemma_be_value_bound(s.drop_last());
        let a = be_value(s.drop_last());
        let p = pow256((s.len() - 1) as nat);
        let b = s.last() as int;
        assert(a * 256 + b < 256 * p) by (nonlinear_arith)
            requires
                a < p,
                0 <= b < 256,
        ;
    }
}

proof fn lemma_pow256_small(n: nat)
    requires
        n <= 8,
    ensures
        pow256(n) <= 0x1_0000_0000_0000_0000,
        n == 2 ==> pow256(n) == 0x1_0000,
        n == 4 ==> pow256(n) == 0x1_0000_0000,
        n == 6 ==> pow256(n) == 0x1_0000_0000_0000,
{
    reveal_with_fuel(pow256, 9);
}

/// Reads `n <= 8` bytes at `offset` as a big-endian number.
fn read_be(bytes: &[u8], offset: usize, n: usize) -> (v: u64)
    requires
        n <= 8,
        offset + n <= bytes@.len(),
    ensures
        v == be_at(bytes@, offset as int, n as int),
        v < pow256(n as nat),
{
    let mut v: u64 = 0;
    let mut i: usize = 0;
    let len = bytes.len();
    while i < n
        invariant
            len == bytes@.len(),
            n <= 8,
            offset + n <= bytes@.len(),
            i <= n,
            v == be_at(bytes@, offset as int, i as int),
        decreases n - i,
    {
        let ghost s = bytes@.subrange(offset as int, offset + i + 1);
        proof {
            assert(s.drop_last() =~= bytes@.subrange(offset as int, offset + i));
            lemma_be_value_bound(s);
            lemma_pow256_small((i + 1) as nat);
            assert(s.len() == i + 1);
        }
        assert(offset + i < bytes@.len());
        let b = bytes[offset + i];
        v = v * 256 + b as u64;
        i = i + 1;
    }
    proof {
        lemma_be_value_bound(bytes@.subrange(offset as int, offset + n));
    }
    v
}

/// The big-endian `u16` at `start`.
pub open spec fn u16_at(bytes: Seq<u8>, start: int) -> u16 {
    be_at(bytes, start, 2) as u16
}

/// The big-endian `u32` at `start`.
pub open spec fn u32_at(bytes: Seq<u8>, start: int) -> u32 {
    be_at(bytes, start, 4) as u32
}

/// The big-endian `u64` at `start`.
pub open spec fn u64_at(bytes: Seq<u8>, start: int) -> u64 {
    be_at(bytes, start, 8) as u64
}

/// The 6-byte big-endian timestamp at `start`.
pub open spec fn timestamp_at(bytes: Seq<u8>, start: int) -> u64 {
    be_at(bytes, start, 6) as u64
}

/// Read big-endian u16 at offset.
pub fn read_u16_be(bytes: &[u8], offset: usize) -> (r: Result<u16, FeedError>)
    requires
        offset + 2 <= usize::MAX,
    ensures
        offset + 2 <= bytes@.len() ==> r == Ok::<u16, FeedError>(u16_at(bytes@, offset as int)),
        offset + 2 > bytes@.len() ==> r == Err::<u16, FeedError>(short(offset + 2, bytes@.len() as int)),
{
    let end = offset + 2;
    if bytes.len() < end {
        return Err(FeedError::Parse { required: end, got: bytes.len() });
    }
    let v = read_be(bytes, offset, 2);
    proof {
        lemma_pow256_small(2);
    }
    Ok(v as u16)
}

/// Read big-endian u32 at offset.
pub fn read_u32_be(bytes: &[u8], offset: usize) -> (r: Result<u32, FeedError>)
    requires
        offset + 4 <= usize::MAX,
    ensures
        offset + 4 <= bytes@.len() ==> r == Ok::<u32, FeedError>(u32_at(bytes@, offset as int)),
        offset + 4 > bytes@.len() ==> r == Err::<u32, FeedError>(short(offset + 4, bytes@.len() as int)),
{
    let end = offset + 4;
    if bytes.len() < end {
        return Err(FeedError::Parse { required: end, got: bytes.len() });
    }
    let v = read_be(bytes, offset, 4);
    proof {
        lemma_pow256_small(4);
    }
    Ok(v as u32)
}

/// Read big-endian u64 at offset.
pub fn read_u64_be(bytes: &[u8], offset: usize) -> (r: Result<u64, FeedError>)
    requires
        offset + 8 <= usize::MAX,
    ensures
        offset + 8 <= bytes@.len() ==> r == Ok::<u64, FeedError>(u64_at(bytes@, offset as int)),
        offset + 8 > bytes@.len() ==> r == Err::<u64, FeedError>(short(offset + 8, bytes@.len() as int)),
{
    let end = offset + 8;
    if bytes.len() < end {
        return Err(FeedError::Parse { required: end, got: bytes.len() });
    }
    Ok(read_be(bytes, offset, 8))
}

/// Read 6-byte big-endian timestamp at offset.
pub fn read_timestamp(bytes: &[u8], offset: usize) -> (r: Result<Timestamp, FeedError>)
    requires
        offset + 6 <= usize::MAX,
    ensures
        offset + 6 <= bytes@.len() ==> r == Ok::<Timestamp, FeedError>(Timestamp(timestamp_at(bytes@, offset as int))),
        offset + 6 > bytes@.len() ==> r == Err::<Timestamp, FeedError>(short(offset + 6, bytes@.len() as int)),
{
    let end = offset + 6;
    if bytes.len() < end {
        return Err(FeedError::Parse { required: end, got: bytes.len() });
    }
    Ok(Timestamp(read_be(bytes, offset, 6)))
}

/// Read 8-byte order id at offset.
pub fn read_oid(bytes: &[u8], offset: usize) -> (r: Result<Oid, FeedError>)
    requires
        offset + 8 <= usize::MAX,
    ensures
        offset + 8 <= bytes@.len() ==> r == Ok::<Oid, FeedError>(Oid(u64_at(bytes@, offset as int))),
        offset + 8 > bytes@.len() ==> r == Err::<Oid, FeedError>(short(offset + 8, bytes@.len() as int)),
{
    match read_u64_be(bytes, offset) {
        Ok(v) => Ok(Oid(v)),
        Err(e) => Err(e),
    }
}

/// Read 4-byte price at offset.
pub fn read_price(bytes: &[u8], offset: usize) -> (r: Result<WirePrice, FeedError>)
    requires
        offset + 4 <= usize::MAX,
    ensures
        offset + 4 <= bytes@.len() ==> r == Ok::<WirePrice, FeedError>(WirePrice(u32_at(bytes@, offset as int))),
        offset + 4 > bytes@.len() ==> r == Err::<WirePrice, FeedError>(short(offset + 4, bytes@.len() as int)),
{
    match read_u32_be(bytes, offset) {
        Ok(v) => Ok(WirePrice(v)),
        Err(e) => Err(e),
    }
}

/// Read 4-byte quantity at offset.
pub fn read_qty(bytes: &[u8], offset: usize) -> (r: Result<WireQty, FeedError>)
    requires
        offset + 4 <= usize::MAX,
    ensures
        offset + 4 <= bytes@.len() ==> r == Ok::<WireQty, FeedError>(WireQty(u32_at(bytes@, offset as int))),
        offset + 4 > bytes@.len() ==> r == Err::<WireQty, FeedError>(short(offset + 4, bytes@.len() as int)),
{
    match read_u32_be(bytes, offset) {
        Ok(v) => Ok(WireQty(v)),
        Err(e) => Err(e),
    }
}

/// Read 2-byte stock locate at offset.
pub fn read_locate(bytes: &[u8], offset: usize) -> (r: Result<StockLocate, FeedError>)
    requires
        offset + 2 <= usize::MAX,
    ensures
        offset + 2 <= bytes@.len() ==> r == Ok::<StockLocate, FeedError>(StockLocate(u16_at(bytes@, offset as int))),
        offset + 2 > bytes@.len() ==> r == Err::<StockLocate, FeedError>(short(offset + 2, bytes@.len() as int)),
{
    match read_u16_be(bytes, offset) {
        Ok(v) => Ok(StockLocate(v)),
        Err(e) => Err(e),
    }
}

} // verus!
