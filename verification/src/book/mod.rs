//! Resting book of order ids per price level (the canonical payloads live in the store).

pub mod levels;
pub mod queues;
pub mod service;

use vstd::prelude::*;
use crate::types::{OrderId, Price, Sequence, Side};

verus! {

/// The side an aggressor on `side` trades against.
pub open spec fn opposite(side: Side) -> Side {
    match side {
        Side::Buy => Side::Sell,
        Side::Sell => Side::Buy,
    }
}

/// Whether `a` is at least as good as `b` for a resting order on `side`
/// (higher bids and lower asks are better).
pub open spec fn at_least_as_good(side: Side, a: Price, b: Price) -> bool {
    match side {
        Side::Buy => a >= b,
        Side::Sell => a <= b,
    }
}

/// Some resting order lies on `side`.
pub open spec fn has_side(locs: Map<OrderId, (Price, Side)>, side: Side) -> bool {
    exists|id: OrderId| #[trigger] locs.contains_key(id) && locs[id].1 == side
}

/// `p` is the best price among the resting orders on `side`.
pub open spec fn is_best(locs: Map<OrderId, (Price, Side)>, side: Side, p: Price) -> bool {
    &&& exists|id: OrderId| #[trigger] locs.contains_key(id) && locs[id] == (p, side)
    &&& forall|id: OrderId|
        #[trigger] locs.contains_key(id) && locs[id].1 == side ==> at_least_as_good(
            side,
            p,
            locs[id].0,
        )
}

/// `r` is the best price on `side`, or `None` when that side is empty.
pub open spec fn best_matches(
    locs: Map<OrderId, (Price, Side)>,
    side: Side,
    r: Option<Price>,
) -> bool {
    match r {
        Some(p) => is_best(locs, side, p),
        None => !has_side(locs, side),
    }
}

/// Price book trait: resting order ids grouped by side and price.
pub trait PriceBook {
    /// Where each resting order rests: its price and side.
    open spec fn locations(&self) -> Map<OrderId, (Price, Side)> {
        Map::empty()
    }

    /// The internal structures agree with `locations` (every resting id is queued
    /// exactly once, at its location).
    open spec fn consistent(&self) -> bool {
        false
    }

    /// A measure of the book's contents that every successful pop decreases.
    open spec fn size(&self) -> nat {
        0
    }

    /// Whether the book can rest an order at this price.
    open spec fn supports(price: Price) -> bool {
        false
    }

    /// Whether the book takes each level's orders out in the order of
    /// [`Self::level_queue`] (a book that does not say keeps no stated order).
    open spec fn fifo(&self) -> bool {
        false
    }

    /// The ids queued at `price` on `side`, head first.
    open spec fn level_queue(&self, side: Side, price: Price) -> Seq<OrderId> {
        Seq::empty()
    }

    /// Get the best bid price
    fn best_bid(&self) -> (r: Option<Price>)
        ensures
            self.consistent() ==> best_matches(self.locations(), Side::Buy, r),
    ;

    /// Get the best ask price
    fn best_ask(&self) -> (r: Option<Price>)
        ensures
            self.consistent() ==> best_matches(self.locations(), Side::Sell, r),
    ;

    /// Push an order id at `price` on `side`; `time_priority` orders it within its level
    /// for books that do not keep arrival order.
    fn push(&mut self, price: &Price, order_id: OrderId, side: Side, time_priority: Sequence)
        ensures
            old(self).consistent() && !old(self).locations().contains_key(order_id)
                && Self::supports(*price) ==> final(self).consistent() && final(self).locations()
                == old(self).locations().insert(order_id, (*price, side)),
            final(self).fifo() == old(self).fifo(),
            old(self).fifo() && old(self).consistent() && !old(self).locations().contains_key(order_id)
                && Self::supports(*price) ==> final(self).level_queue(side, *price) == old(self).level_queue(
                side,
                *price,
            ).push(order_id) && (forall|s: Side, q: Price|
                    Self::supports(q) && (s, q) != (side, *price) ==> #[trigger] final(self).level_queue(s, q)
                    == old(self).level_queue(s, q)),
    ;

    /// Put an order id back at `price` on `side` ahead of the ids queued there, so that
    /// an order taken out for matching and put back keeps its time priority. A book that
    /// orders each level by `time_priority` rather than by arrival queues it as
    /// [`Self::push`] does.
    fn push_front(&mut self, price: &Price, order_id: OrderId, side: Side, time_priority: Sequence)
        ensures
            old(self).consistent() && !old(self).locations().contains_key(order_id)
                && Self::supports(*price) ==> final(self).consistent() && final(self).locations()
                == old(self).locations().insert(order_id, (*price, side)),
            final(self).fifo() == old(self).fifo(),
            old(self).fifo() && old(self).consistent() && !old(self).locations().contains_key(order_id)
                && Self::supports(*price) ==> final(self).level_queue(side, *price) == seq![order_id]
                + old(self).level_queue(side, *price) && (forall|s: Side, q: Price|
                    Self::supports(q) && (s, q) != (side, *price) ==> #[trigger] final(self).level_queue(s, q)
                    == old(self).level_queue(s, q)),
    ;

    /// Pop the best resting order **on the opposite side** to `side` (the aggressor side):
    /// an incoming buy consumes asks (lowest ask first), an incoming sell consumes bids
    /// (highest bid first).
    fn pop_best(&mut self, side: Side) -> (r: Option<OrderId>)
        ensures
            r is Some ==> final(self).size() < old(self).size(),
            old(self).consistent() ==> final(self).consistent() && match r {
                Some(id) => {
                    &&& old(self).locations().contains_key(id)
                    &&& old(self).locations()[id].1 == opposite(side)
                    &&& is_best(old(self).locations(), opposite(side), old(self).locations()[id].0)
                    &&& final(self).locations() == old(self).locations().remove(id)
                },
                None => !has_side(old(self).locations(), opposite(side))
                    && final(self).locations() == old(self).locations(),
            },
            final(self).fifo() == old(self).fifo(),
            old(self).fifo() && old(self).consistent() ==> match r {
                Some(id) => {
                    let p = old(self).locations()[id].0;
                    &&& old(self).level_queue(opposite(side), p).len() > 0
                    &&& old(self).level_queue(opposite(side), p)[0] == id
                    &&& final(self).level_queue(opposite(side), p) == old(self).level_queue(opposite(side), p).drop_first()
                    &&& (forall|s: Side, q: Price|
                    Self::supports(q) && (s, q) != (opposite(side), p) ==> #[trigger] final(self).level_queue(s, q)
                    == old(self).level_queue(s, q))
                },
                None => forall|s: Side, q: Price|
                    Self::supports(q) ==> #[trigger] final(self).level_queue(s, q) == old(self).level_queue(s, q),
            },
    ;

    /// Remove an order from the price book; `true` when it was resting.
    fn remove(&mut self, order_id: &OrderId) -> (r: bool)
        ensures
            old(self).consistent() ==> final(self).consistent()
                && r == old(self).locations().contains_key(*order_id)
                && final(self).locations() == old(self).locations().remove(*order_id),
            final(self).fifo() == old(self).fifo(),
    ;
}

/// Law of every book, over the locations its methods are specified on: removing an order
/// that was just pushed leaves the book's locations as they were.
pub proof fn law_remove_undoes_push(before: Map<OrderId, (Price, Side)>, order_id: OrderId, price: Price, side: Side)
    requires
        !before.contains_key(order_id),
    ensures
        before.insert(order_id, (price, side)).contains_key(order_id),
        before.insert(order_id, (price, side)).remove(order_id) == before,
{
    assert(before.insert(order_id, (price, side)).remove(order_id) =~= before);
}

} // verus!
