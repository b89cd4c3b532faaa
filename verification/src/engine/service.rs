//! Order matching engine implementation.
//!
//! Single-writer authority: the `OrderStore` is truth, the `PriceBook` is derived from it,
//! and the `EventSink` is append-only. The engine keeps a ghost record of every event it
//! hands to the sink, so that its contracts can say what was reported.

use vstd::prelude::*;
use super::models::{
    AddOrderCommand, CancelByOrderIdCommand, CancelOrderCommand, ExecuteOrderCommand,
    OrderCommand, ReduceOrderCommand, ReplaceOrderByNewIdCommand, ReplaceOrderCommand,
};
use super::OrderMatchingService;
use crate::book::{PriceBook, at_least_as_good, has_side, is_best, opposite};
use crate::error::{Error, RejectionError, Result};
use crate::events::{Event, EventSink, EventSinkError};
use crate::matching::{MatchingPolicy, MatchingPolicyError, PriceCrossMatchingPolicy, price_cross_decision};
use crate::self_trade::SelfTradePolicy;
use crate::sequence::{SequenceGenerator, SequenceGeneratorError};
use crate::store::{OrderStore, OrderStoreError};
use crate::types::{Order, OrderId, OrderType, ParticipantId, Price, Sequence, Side, TimeInForce, Trade};

verus! {

/// Sum of the quantities of the trades in `s`.
pub open spec fn trade_sum(s: Seq<Event>) -> int
    decreases s.len(),
{
    if s.len() == 0 {
        0
    } else {
        trade_sum(s.drop_last()) + match s.last() {
            Event::Trade(t) => t.quantity as int,
            _ => 0,
        }
    }
}

/// Every event of `s` is a trade with `aggressor` as aggressor and a non-negative quantity.
pub open spec fn trades_by(s: Seq<Event>, aggressor: OrderId) -> bool {
    forall|i: int|
        0 <= i < s.len() ==> (#[trigger] s[i] matches Event::Trade(t) && t.aggressor == aggressor
            && t.quantity >= 0)
}

/// Every trade of `s` has a positive quantity.
pub open spec fn positive_trades(s: Seq<Event>) -> bool {
    forall|i: int| 0 <= i < s.len() ==> (#[trigger] s[i] matches Event::Trade(t) ==> t.quantity > 0)
}

/// The price of a trade event (0 for any other event).
pub open spec fn trade_price(e: Event) -> Price {
    match e {
        Event::Trade(t) => t.price,
        _ => 0,
    }
}

/// The trades of `s` sweep the resting `side` from its best price outward: each trade's
/// price is at least as good, for that side, as every later one.
pub open spec fn price_ordered(s: Seq<Event>, side: Side) -> bool {
    forall|i: int, j: int|
        0 <= i < j < s.len() ==> at_least_as_good(side, trade_price(#[trigger] s[i]), trade_price(#[trigger] s[j]))
}

/// Each trade of `s` is at the price at which the order it hit rested in `orders`.
pub open spec fn at_resting_prices(s: Seq<Event>, orders: Map<OrderId, Order>) -> bool {
    forall|k: int|
        0 <= k < s.len() ==> (#[trigger] s[k] matches Event::Trade(tr) ==> orders.contains_key(tr.resting)
            && orders[tr.resting].price == Some(tr.price))
}

/// A trade event took its quantity off the order it hit (unless that order has id `id`):
/// an order filled in part is in `after` with the quantity moved from leaves to executed,
/// an order filled in full is gone. Other events change nothing.
pub open spec fn fill_applied(e: Event, before: Map<OrderId, Order>, after: Map<OrderId, Order>, id: OrderId) -> bool {
    match e {
        Event::Trade(tr) => tr.resting != id ==> {
            let o = before[tr.resting];
            if o.leaves_quantity > tr.quantity {
                &&& after.contains_key(tr.resting)
                &&& after[tr.resting] == Order {
                    executed_quantity: (o.executed_quantity + tr.quantity) as i64,
                    leaves_quantity: (o.leaves_quantity - tr.quantity) as i64,
                    ..o
                }
            } else {
                !after.contains_key(tr.resting)
            }
        },
        _ => true,
    }
}

/// Each trade of `s` is as large as it can be: the smaller of what the aggressor (of
/// quantity `q`) had left before it and the leaves of the order it hit in `orders`.
pub open spec fn fills_sized(s: Seq<Event>, q: i64, orders: Map<OrderId, Order>) -> bool {
    forall|k: int|
        0 <= k < s.len() ==> (#[trigger] s[k] matches Event::Trade(tr) ==> tr.quantity == if q - trade_sum(s.take(k))
            <= orders[tr.resting].leaves_quantity {
            q - trade_sum(s.take(k))
        } else {
            orders[tr.resting].leaves_quantity as int
        })
}

/// A trade as large as it can be keeps [`fills_sized`] over the trades before it.
proof fn lemma_fills_sized_push(s: Seq<Event>, tr: Trade, q: i64, orders: Map<OrderId, Order>)
    requires
        fills_sized(s, q, orders),
        tr.quantity == if q - trade_sum(s) <= orders[tr.resting].leaves_quantity {
            q - trade_sum(s)
        } else {
            orders[tr.resting].leaves_quantity as int
        },
    ensures
        fills_sized(s.push(Event::Trade(tr)), q, orders),
{
    let s2 = s.push(Event::Trade(tr));
    assert(s2.take(s.len() as int) =~= s);
    assert forall|k: int| 0 <= k < s2.len() implies (#[trigger] s2[k] matches Event::Trade(t)
        ==> t.quantity == if q - trade_sum(s2.take(k)) <= orders[t.resting].leaves_quantity {
        q - trade_sum(s2.take(k))
    } else {
        orders[t.resting].leaves_quantity as int
    }) by {
        if k < s.len() {
            assert(s2[k] == s[k]);
            assert(s2.take(k) =~= s.take(k));
        }
    }
}

/// Every trade of `s` took its quantity off the order it hit (see [`fill_applied`]).
pub open spec fn fills_applied(s: Seq<Event>, before: Map<OrderId, Order>, after: Map<OrderId, Order>, id: OrderId) -> bool {
    forall|k: int| 0 <= k < s.len() ==> fill_applied(#[trigger] s[k], before, after, id)
}

/// Each trade of `s` hit an order of `orders` on `side`.
pub open spec fn hit_side(s: Seq<Event>, orders: Map<OrderId, Order>, side: Side) -> bool {
    forall|k: int|
        0 <= k < s.len() ==> (#[trigger] s[k] matches Event::Trade(tr) ==> orders.contains_key(tr.resting)
            && orders[tr.resting].side == side)
}

/// `p` is at least as good, for `side`, as every resting order on `side` in `locs`.
pub open spec fn bounds_side(locs: Map<OrderId, (Price, Side)>, side: Side, p: Price) -> bool {
    forall|id: OrderId| #[trigger] locs.contains_key(id) && locs[id].1 == side ==> at_least_as_good(side, p, locs[id].0)
}

/// `r` reports rejection `e` (or the failure of the sink while reporting it).
pub open spec fn rejected_with(r: Result<()>, e: RejectionError) -> bool {
    match r {
        Err(Error::Rejection(x)) => x == e,
        Err(Error::EventSink(_)) => true,
        _ => false,
    }
}

/// `r` is a success, or the failure of the sink while reporting the last event.
pub open spec fn ok_or_sink_failed(r: Result<()>) -> bool {
    match r {
        Ok(()) => true,
        Err(Error::EventSink(_)) => true,
        _ => false,
    }
}

/// The price is consistent with the order type: a limit order has a price and a market
/// order has none; any other type is invalid.
pub open spec fn price_fits(order_type: OrderType, price: Option<Price>) -> bool {
    (order_type == OrderType::Limit && price is Some) || (order_type == OrderType::Market
        && price is None)
}

/// Returns `Ok(())` iff price is consistent with order type (Limit => Some(price), Market => None).
pub fn validate_order_price(order_type: OrderType, price: Option<Price>) -> (r: core::result::Result<(), RejectionError>)
    ensures
        r is Ok <==> price_fits(order_type, price),
        r matches Err(e) ==> e == RejectionError::InvalidPrice,
{
    match (order_type, price) {
        (OrderType::Limit, Some(_)) | (OrderType::Market, None) => Ok(()),
        _ => Err(RejectionError::InvalidPrice),
    }
}

/// What [`validate_order_ownership`] returns: the participant must own the order and the
/// sequence must be the order's current one.
pub open spec fn ownership_check(order: Order, participant_id: ParticipantId, sequence: Sequence) -> core::result::Result<(), RejectionError> {
    if participant_id != order.participant_id {
        Err(RejectionError::ParticipantMismatch)
    } else if sequence != order.sequence {
        Err(RejectionError::StaleSequence)
    } else {
        Ok(())
    }
}

/// Returns `Ok(())` iff participant and sequence match the stored order (for cancel/replace).
pub fn validate_order_ownership(order: &Order, participant_id: ParticipantId, sequence: Sequence) -> (r: core::result::Result<(), RejectionError>)
    ensures
        r == ownership_check(*order, participant_id, sequence),
{
    if participant_id != order.participant_id {
        return Err(RejectionError::ParticipantMismatch);
    }
    if sequence != order.sequence {
        return Err(RejectionError::StaleSequence);
    }
    Ok(())
}

/// The checks a replace makes of the stored order: ownership, then the new price
/// against the order's type.
pub open spec fn replace_check(order: Order, cmd: ReplaceOrderCommand) -> core::result::Result<(), RejectionError> {
    match ownership_check(order, cmd.participant_id, cmd.sequence) {
        Err(e) => Err(e),
        Ok(()) => if price_fits(order.order_type, cmd.new_price) {
            Ok(())
        } else {
            Err(RejectionError::InvalidPrice)
        },
    }
}

/// Every resting id is a stored order with that price and side and positive leaves, at
/// a price the book supports; every stored order with a price rests in the book.
pub open spec fn book_matches_store<PB: PriceBook>(
    locs: Map<OrderId, (Price, Side)>,
    orders: Map<OrderId, Order>,
) -> bool {
    &&& forall|id: OrderId| #[trigger]
        locs.contains_key(id) ==> {
            &&& orders.contains_key(id)
            &&& orders[id].price == Some(locs[id].0)
            &&& orders[id].side == locs[id].1
            &&& orders[id].leaves_quantity > 0
            &&& PB::supports(locs[id].0)
        }
    &&& forall|id: OrderId| #[trigger]
        orders.contains_key(id) && orders[id].price is Some ==> locs.contains_key(id)
}

/// Every stored order is keyed by its own id, can be held by the store, and has
/// positive leaves with `executed + leaves` within `i64`.
pub open spec fn store_bounded<OS: OrderStore>(orders: Map<OrderId, Order>) -> bool {
    forall|id: OrderId| #[trigger]
        orders.contains_key(id) ==> {
            &&& orders[id].id == id
            &&& OS::admits(id)
            &&& 0 < orders[id].leaves_quantity
            &&& orders[id].executed_quantity + orders[id].leaves_quantity <= i64::MAX
        }
}

/// `quantity` lowered by `by`, held at `i64::MIN` where it would fall below it.
pub open spec fn lowered(quantity: i64, by: i64) -> i64 {
    if quantity - by < i64::MIN {
        i64::MIN
    } else {
        (quantity - by) as i64
    }
}

/// An order that fits [`store_bounded`] at its own id.
pub open spec fn order_bounded<OS: OrderStore>(o: Order) -> bool {
    &&& OS::admits(o.id)
    &&& 0 < o.leaves_quantity
    &&& o.executed_quantity + o.leaves_quantity <= i64::MAX
}

proof fn lemma_bms_remove<PB: PriceBook>(
    locs: Map<OrderId, (Price, Side)>,
    orders: Map<OrderId, Order>,
    id: OrderId,
)
    requires
        book_matches_store::<PB>(locs, orders),
    ensures
        book_matches_store::<PB>(locs.remove(id), orders.remove(id)),
{
}

proof fn lemma_bms_insert<PB: PriceBook>(
    locs: Map<OrderId, (Price, Side)>,
    orders: Map<OrderId, Order>,
    o: Order,
)
    requires
        book_matches_store::<PB>(locs, orders),
        !locs.contains_key(o.id),
        o.price is Some,
        o.leaves_quantity > 0,
        PB::supports(o.price->Some_0),
    ensures
        book_matches_store::<PB>(
            locs.insert(o.id, (o.price->Some_0, o.side)),
            orders.insert(o.id, o),
        ),
{
}

proof fn lemma_bms_insert_unpriced<PB: PriceBook>(
    locs: Map<OrderId, (Price, Side)>,
    orders: Map<OrderId, Order>,
    o: Order,
)
    requires
        book_matches_store::<PB>(locs, orders),
        !locs.contains_key(o.id),
        o.price is None,
    ensures
        book_matches_store::<PB>(locs, orders.insert(o.id, o)),
{
}

/// A book that matches a store is determined by it.
proof fn lemma_bms_unique<PB: PriceBook>(
    l1: Map<OrderId, (Price, Side)>,
    l2: Map<OrderId, (Price, Side)>,
    orders: Map<OrderId, Order>,
)
    requires
        book_matches_store::<PB>(l1, orders),
        book_matches_store::<PB>(l2, orders),
    ensures
        l1 == l2,
{
    assert forall|id: OrderId| #[trigger] l1.contains_key(id) implies l2.contains_key(id) && l2[id] == l1[id] by {
        assert(orders.contains_key(id));
    }
    assert forall|id: OrderId| #[trigger] l2.contains_key(id) implies l1.contains_key(id) by {
        assert(orders.contains_key(id));
    }
    assert(l1 =~= l2);
}

proof fn lemma_bounded_insert<OS: OrderStore>(orders: Map<OrderId, Order>, o: Order)
    requires
        store_bounded::<OS>(orders),
        order_bounded::<OS>(o),
    ensures
        store_bounded::<OS>(orders.insert(o.id, o)),
{
}

proof fn lemma_bounded_remove<OS: OrderStore>(orders: Map<OrderId, Order>, id: OrderId)
    requires
        store_bounded::<OS>(orders),
    ensures
        store_bounded::<OS>(orders.remove(id)),
{
}

proof fn lemma_trade_sum_push(s: Seq<Event>, e: Event)
    ensures
        trade_sum(s.push(e)) == trade_sum(s) + match e {
            Event::Trade(t) => t.quantity as int,
            _ => 0,
        },
{
    assert(s.push(e).drop_last() =~= s);
}

/// `o` under sequence `s`.
pub open spec fn with_sequence(o: Order, s: Sequence) -> Order {
    Order { sequence: s, ..o }
}

/// `b` is `a` with only its quantity and leaves changed.
pub open spec fn same_but_quantity(a: Order, b: Order) -> bool {
    b == Order { quantity: b.quantity, leaves_quantity: b.leaves_quantity, ..a }
}

/// The resting order an event traded against, if it is a trade.
pub open spec fn trade_resting(e: Event) -> Option<OrderId> {
    match e {
        Event::Trade(t) => Some(t.resting),
        _ => None,
    }
}

/// Some trade of `t` was against the resting order `id`.
pub open spec fn traded_against(t: Seq<Event>, id: OrderId) -> bool {
    exists|k: int| 0 <= k < t.len() && trade_resting(#[trigger] t[k]) == Some(id)
}

/// `after` holds the same orders as `before` except at `id` and at the resting orders
/// that `t` traded against.
pub open spec fn unchanged_but(before: Map<OrderId, Order>, after: Map<OrderId, Order>, id: OrderId, t: Seq<Event>) -> bool {
    forall|x: OrderId|
        x != id && !traded_against(t, x) ==> #[trigger] after.get(x) == before.get(x)
}

/// `after` holds the same orders as `before` except at the resting orders that `t`
/// traded against.
pub open spec fn untouched(before: Map<OrderId, Order>, after: Map<OrderId, Order>, t: Seq<Event>) -> bool {
    forall|x: OrderId| !traded_against(t, x) ==> #[trigger] after.get(x) == before.get(x)
}

/// Carries `untouched` over a step that changes only entries it trades against and only
/// adds trades.
proof fn lemma_untouched_step(
    before: Map<OrderId, Order>,
    pre: Map<OrderId, Order>,
    post: Map<OrderId, Order>,
    t: Seq<Event>,
    t2: Seq<Event>,
)
    requires
        untouched(before, pre, t),
        t2.len() >= t.len(),
        forall|k: int| 0 <= k < t.len() ==> t2[k] == t[k],
        forall|x: OrderId| !traded_against(t2, x) ==> #[trigger] post.get(x) == pre.get(x),
    ensures
        untouched(before, post, t2),
{
    assert forall|x: OrderId| !traded_against(t2, x) implies #[trigger] post.get(x) == before.get(x) by {
        if traded_against(t, x) {
            let k = choose|k: int| 0 <= k < t.len() && trade_resting(#[trigger] t[k]) == Some(x);
            assert(t2[k] == t[k]);
        }
        assert(pre.get(x) == before.get(x));
    }
}

/// The results after which a matching pass leaves untouched every order it did not
/// trade against: all but the failures of the sequencer and of the policies, which
/// strike while a popped resting order is out of the store.
pub open spec fn keeps_untraded(r: Result<()>) -> bool {
    !(r matches Err(Error::Sequence(_))) && !(r matches Err(Error::SelfTradePolicy(_)))
        && !(r matches Err(Error::MatchingPolicy(_)))
}

/// Carries `unchanged_but` over a step that changes only traded or `id` entries and only
/// adds trades.
proof fn lemma_unchanged_step(
    before: Map<OrderId, Order>,
    pre: Map<OrderId, Order>,
    post: Map<OrderId, Order>,
    id: OrderId,
    t: Seq<Event>,
    t2: Seq<Event>,
)
    requires
        unchanged_but(before, pre, id, t),
        t2.len() >= t.len(),
        forall|k: int| 0 <= k < t.len() ==> t2[k] == t[k],
        forall|x: OrderId| x != id && !traded_against(t2, x) ==> #[trigger] post.get(x) == pre.get(x),
    ensures
        unchanged_but(before, post, id, t2),
{
    assert forall|x: OrderId| x != id && !traded_against(t2, x) implies #[trigger] post.get(x) == before.get(x) by {
        if traded_against(t, x) {
            let k = choose|k: int| 0 <= k < t.len() && trade_resting(#[trigger] t[k]) == Some(x);
            assert(t2[k] == t[k]);
        }
        assert(pre.get(x) == before.get(x));
    }
}

/// Every order resting in `a` rests at the same place in `b`.
pub open spec fn within(a: Map<OrderId, (Price, Side)>, b: Map<OrderId, (Price, Side)>) -> bool {
    forall|id: OrderId| #[trigger] a.contains_key(id) ==> b.contains_key(id) && b[id] == a[id]
}

/// No resting bid is at or above a resting ask.
pub open spec fn uncrossed(locs: Map<OrderId, (Price, Side)>) -> bool {
    forall|b: OrderId, a: OrderId|
        #[trigger] locs.contains_key(b) && #[trigger] locs.contains_key(a) && locs[b].1 == Side::Buy
            && locs[a].1 == Side::Sell ==> locs[b].0 < locs[a].0
}

/// `a` is `b` with some ids taken off its head.
pub open spec fn trimmed_from(a: Seq<OrderId>, b: Seq<OrderId>) -> bool {
    exists|k: int| 0 <= k <= b.len() && a == #[trigger] b.skip(k)
}

/// Every queue of the book `now` on `side` is the queue of `start` with ids taken off its
/// head: orders leave a level only from its head, and none is queued again behind others.
pub open spec fn heads_taken<PB: PriceBook>(start: PB, now: PB, side: Side) -> bool {
    forall|q: Price| PB::supports(q) ==> trimmed_from(#[trigger] now.level_queue(side, q), start.level_queue(side, q))
}

/// Taking the head id off one queue keeps [`heads_taken`].
proof fn lemma_heads_pop<PB: PriceBook>(start: PB, pre: PB, post: PB, side: Side, p: Price)
    requires
        heads_taken(start, pre, side),
        PB::supports(p),
        pre.level_queue(side, p).len() > 0,
        post.level_queue(side, p) == pre.level_queue(side, p).drop_first(),
        forall|s: Side, q: Price|
            PB::supports(q) && (s, q) != (side, p) ==> #[trigger] post.level_queue(s, q) == pre.level_queue(s, q),
    ensures
        heads_taken(start, post, side),
{
    assert forall|q: Price| PB::supports(q) implies trimmed_from(#[trigger] post.level_queue(side, q), start.level_queue(side, q)) by {
        let b = start.level_queue(side, q);
        assert(trimmed_from(pre.level_queue(side, q), b));
        if q == p {
            let k = choose|k: int| 0 <= k <= b.len() && pre.level_queue(side, q) == #[trigger] b.skip(k);
            assert(post.level_queue(side, q) =~= b.skip(k + 1));
        } else {
            assert(post.level_queue(side, q) == pre.level_queue(side, q));
        }
    }
}

/// Putting the popped head id back at the head of its queue keeps [`heads_taken`].
proof fn lemma_put_back_heads<PB: PriceBook>(start: PB, pre: PB, popped: PB, post: PB, side: Side, p: Price, id: OrderId)
    requires
        heads_taken(start, pre, side),
        PB::supports(p),
        pre.level_queue(side, p).len() > 0,
        pre.level_queue(side, p)[0] == id,
        popped.level_queue(side, p) == pre.level_queue(side, p).drop_first(),
        forall|s: Side, q: Price|
            PB::supports(q) && (s, q) != (side, p) ==> #[trigger] popped.level_queue(s, q) == pre.level_queue(s, q),
        post.level_queue(side, p) == seq![id] + popped.level_queue(side, p),
        forall|s: Side, q: Price|
            PB::supports(q) && (s, q) != (side, p) ==> #[trigger] post.level_queue(s, q) == popped.level_queue(s, q),
    ensures
        heads_taken(start, post, side),
{
    assert(post.level_queue(side, p) =~= pre.level_queue(side, p));
    assert forall|q: Price| PB::supports(q) implies #[trigger] post.level_queue(side, q) == pre.level_queue(side, q) by {
        if q != p {
            assert(post.level_queue(side, q) == popped.level_queue(side, q));
        }
    }
    lemma_heads_same(start, pre, post, side);
}

/// Queues that are all as they were keep [`heads_taken`].
proof fn lemma_heads_same<PB: PriceBook>(start: PB, pre: PB, post: PB, side: Side)
    requires
        heads_taken(start, pre, side),
        forall|q: Price| PB::supports(q) ==> #[trigger] post.level_queue(side, q) == pre.level_queue(side, q),
    ensures
        heads_taken(start, post, side),
{
    assert forall|q: Price| PB::supports(q) implies trimmed_from(#[trigger] post.level_queue(side, q), start.level_queue(side, q)) by {
        assert(post.level_queue(side, q) == pre.level_queue(side, q));
        assert(trimmed_from(pre.level_queue(side, q), start.level_queue(side, q)));
    }
}

/// Every book's queues are trimmed from themselves.
proof fn lemma_heads_start<PB: PriceBook>(start: PB, side: Side)
    ensures
        heads_taken(start, start, side),
{
    assert forall|q: Price| PB::supports(q) implies trimmed_from(#[trigger] start.level_queue(side, q), start.level_queue(side, q)) by {
        assert(start.level_queue(side, q) =~= start.level_queue(side, q).skip(0));
    }
}

/// `gs` are the generator's states around the trades `t`: each trade's sequence is what
/// one draw handed out, taking the generator from one state to the next.
pub open spec fn draws_chain<SG: SequenceGenerator>(gs: Seq<SG>, t: Seq<Event>) -> bool {
    &&& gs.len() == t.len() + 1
    &&& forall|k: int|
        0 <= k < t.len() ==> (#[trigger] t[k] matches Event::Trade(tr) ==> gs[k + 1].drew(
            &gs[k],
            Ok::<Sequence, SequenceGeneratorError>(tr.sequence),
        ))
}

/// Extends a [`draws_chain`] by one draw and its trade.
proof fn lemma_draws_chain_push<SG: SequenceGenerator>(gs: Seq<SG>, t: Seq<Event>, g: SG, tr: Trade)
    requires
        draws_chain(gs, t),
        g.drew(&gs.last(), Ok::<Sequence, SequenceGeneratorError>(tr.sequence)),
    ensures
        draws_chain(gs.push(g), t.push(Event::Trade(tr))),
{
    let gs2 = gs.push(g);
    let t2 = t.push(Event::Trade(tr));
    assert forall|k: int| 0 <= k < t2.len() implies (#[trigger] t2[k] matches Event::Trade(x) ==> gs2[k + 1].drew(
        &gs2[k],
        Ok::<Sequence, SequenceGeneratorError>(x.sequence),
    )) by {
        if k < t.len() {
            assert(t2[k] == t[k]);
            assert(gs2[k] == gs[k] && gs2[k + 1] == gs[k + 1]);
        }
    }
}

/// What one matching pass reports: `t` are the trades (in order) and `tail` is the final
/// report, if any; `incoming` is the aggressor before and `left` after the pass, which
/// took the store from `orders_before` to `orders_after`.
pub open spec fn matching_report(
    t: Seq<Event>,
    tail: Seq<Event>,
    incoming: Order,
    left: Order,
    r: Result<()>,
    orders_before: Map<OrderId, Order>,
    orders_after: Map<OrderId, Order>,
) -> bool {
    &&& trades_by(t, incoming.id)
    &&& at_resting_prices(t, orders_before)
    &&& fills_applied(t, orders_before, orders_after, incoming.id)
    &&& fills_sized(t, incoming.quantity, orders_before)
    &&& same_but_quantity(incoming, left)
    &&& left.leaves_quantity == left.quantity
    &&& keeps_untraded(r) ==> unchanged_but(orders_before, orders_after, incoming.id, t)
    &&& !(r matches Err(Error::Sequence(_))) ==> trade_sum(t) + left.quantity == incoming.quantity
    &&& r matches Err(Error::Sequence(_)) ==> trade_sum(t) + left.quantity <= incoming.quantity
    &&& tail.len() <= 1
    &&& r is Ok ==> {
        ||| left.quantity == 0 && tail.len() == 0
        ||| {
            &&& left.quantity > 0
            &&& incoming.time_in_force == TimeInForce::Gtc
            &&& tail == seq![Event::Accepted(incoming.id)]
            &&& orders_after.contains_key(incoming.id)
            &&& orders_after[incoming.id] == left
        }
    }
    &&& r matches Err(Error::Rejection(RejectionError::InsufficientLiquidity)) ==> left.quantity > 0
        && incoming.time_in_force != TimeInForce::Gtc
    &&& r matches Err(Error::Rejection(x)) ==> tail == seq![Event::Rejected(x)] && (x
        == RejectionError::InsufficientLiquidity || x == RejectionError::SelfTrade || x
        == RejectionError::PriceBookInvariantViolation)
    &&& tail.len() == 1 && tail[0] == Event::Rejected(RejectionError::InsufficientLiquidity) ==> left.quantity > 0
        && incoming.time_in_force != TimeInForce::Gtc
}

/// The order an add command creates, with sequence `sequence`.
pub open spec fn order_from_add(cmd: AddOrderCommand, sequence: Sequence) -> Order {
    Order {
        symbol_id: cmd.symbol_id,
        id: cmd.id,
        participant_id: cmd.participant_id,
        side: cmd.side,
        order_type: cmd.order_type,
        price: cmd.price,
        quantity: cmd.quantity,
        time_in_force: cmd.time_in_force,
        stop_price: cmd.stop_price,
        max_visible_quantity: cmd.max_visible_quantity,
        slippage: cmd.slippage,
        trailing_distance: cmd.trailing_distance,
        trailing_step: cmd.trailing_step,
        executed_quantity: 0,
        leaves_quantity: cmd.quantity,
        sequence,
    }
}

/// The order that replaces `old` in place: same id and attributes, new price and
/// quantity, nothing executed, sequence `sequence`.
pub open spec fn order_replacing(old: Order, cmd: ReplaceOrderCommand, sequence: Sequence) -> Order {
    Order {
        price: cmd.new_price,
        quantity: cmd.new_quantity,
        executed_quantity: 0,
        leaves_quantity: cmd.new_quantity,
        sequence,
        ..old
    }
}

/// The order that replaces `old` under a new id: a good-till-cancel limit order of the
/// same participant, on the command's symbol and side when given (else the old ones),
/// with every optional attribute cleared.
pub open spec fn order_replacing_by_new_id(
    old: Order,
    cmd: ReplaceOrderByNewIdCommand,
    sequence: Sequence,
) -> Order {
    Order {
        symbol_id: match cmd.symbol_id {
            Some(s) => s,
            None => old.symbol_id,
        },
        id: cmd.new_order_id,
        participant_id: old.participant_id,
        side: match cmd.side {
            Some(s) => s,
            None => old.side,
        },
        order_type: OrderType::Limit,
        price: Some(cmd.new_price),
        quantity: cmd.new_quantity,
        time_in_force: TimeInForce::Gtc,
        stop_price: None,
        max_visible_quantity: None,
        slippage: None,
        trailing_distance: None,
        trailing_step: None,
        executed_quantity: 0,
        leaves_quantity: cmd.new_quantity,
        sequence,
    }
}

/// Every price that `cmd` may rest is supported by the book type.
pub open spec fn prices_supported<PB: PriceBook>(cmd: OrderCommand) -> bool {
    match cmd {
        OrderCommand::Add(c) => c.price matches Some(p) ==> PB::supports(p),
        OrderCommand::Replace(c) => c.new_price matches Some(p) ==> PB::supports(p),
        OrderCommand::ReplaceByNewId(c) => PB::supports(c.new_price),
        _ => true,
    }
}

/// Order matching engine
///
/// Applies add/cancel/replace commands against store, book, and event sink.
pub struct OrderMatchingEngine<SG, PB, OS, MP, STP, ES> where
    SG: SequenceGenerator,
    PB: PriceBook,
    OS: OrderStore,
    MP: MatchingPolicy,
    STP: SelfTradePolicy,
    ES: EventSink,
 {
    sequence_generator: SG,
    price_book: PB,
    order_store: OS,
    matching_policy: MP,
    self_trade_policy: STP,
    event_sink: ES,
    emitted: Ghost<Seq<Event>>,
}

impl<SG, PB, OS, MP, STP, ES> OrderMatchingEngine<SG, PB, OS, MP, STP, ES> where
    SG: SequenceGenerator,
    PB: PriceBook,
    OS: OrderStore,
    MP: MatchingPolicy,
    STP: SelfTradePolicy,
    ES: EventSink,
 {
    /// The sequence generator.
    pub closed spec fn sequencer(&self) -> SG {
        self.sequence_generator
    }

    /// The price book.
    pub closed spec fn book(&self) -> PB {
        self.price_book
    }

    /// The order store.
    pub closed spec fn store(&self) -> OS {
        self.order_store
    }

    /// The matching policy.
    pub closed spec fn matching(&self) -> MP {
        self.matching_policy
    }

    /// The self-trade policy.
    pub closed spec fn self_trade(&self) -> STP {
        self.self_trade_policy
    }

    /// The event sink.
    pub closed spec fn sink(&self) -> ES {
        self.event_sink
    }

    /// Every event handed to the sink so far, oldest first.
    pub closed spec fn events(&self) -> Seq<Event> {
        self.emitted@
    }

    /// All components are those of `other` (the event record aside).
    pub open spec fn same_state(&self, other: &Self) -> bool {
        &&& self.sequencer() == other.sequencer()
        &&& self.book() == other.book()
        &&& self.store() == other.store()
        &&& self.matching() == other.matching()
        &&& self.self_trade() == other.self_trade()
        &&& self.sink() == other.sink()
    }

    /// The policies and the sink are those of `other`.
    pub open spec fn same_policies(&self, other: &Self) -> bool {
        &&& self.matching() == other.matching()
        &&& self.self_trade() == other.self_trade()
        &&& self.sink() == other.sink()
    }

    /// The book is derived from the store: it is internally consistent, every resting id is
    /// a stored order with that price and side and positive leaves, and every stored order
    /// with a price rests in the book.
    pub open spec fn wf(&self) -> bool {
        &&& self.book().consistent()
        &&& book_matches_store::<PB>(self.book().locations(), self.store().orders())
    }

    /// Every stored order is keyed by its own id, can be held by the store, and has
    /// positive leaves with `executed + leaves` within `i64`.
    pub open spec fn bounded(&self) -> bool {
        store_bounded::<OS>(self.store().orders())
    }

    /// Builds a new engine with the given sequence generator, price book, order store, and policies.
    pub fn new(
        sequence_generator: SG,
        price_book: PB,
        order_store: OS,
        matching_policy: MP,
        self_trade_policy: STP,
        event_sink: ES,
    ) -> (r: Self)
        ensures
            r.sequencer() == sequence_generator,
            r.book() == price_book,
            r.store() == order_store,
            r.matching() == matching_policy,
            r.self_trade() == self_trade_policy,
            r.sink() == event_sink,
            r.events() == Seq::<Event>::empty(),
    {
        Self {
            sequence_generator,
            price_book,
            order_store,
            matching_policy,
            self_trade_policy,
            event_sink,
            emitted: Ghost(Seq::empty()),
        }
    }

    /// Nothing on the other side of `locs` takes `left`: that side is empty, or its best
    /// resting order, held in the store, is one the matching policy may refuse `left`
    /// against.
    pub open spec fn nothing_takes(&self, locs: Map<OrderId, (Price, Side)>, left: Order) -> bool {
        ||| !has_side(locs, opposite(left.side))
        ||| exists|id: OrderId|
            #[trigger] locs.contains_key(id) && locs[id].1 == opposite(left.side) && is_best(
                locs,
                opposite(left.side),
                locs[id].0,
            ) && self.store().orders().contains_key(id) && self.matching().refuses(
                left,
                self.store().orders()[id],
            )
    }

    /// Every order resting in this book rested at the same place in `before`, except
    /// `left` itself, which rests only where nothing on the other side takes it.
    pub open spec fn book_grew_from(&self, before: Map<OrderId, (Price, Side)>, left: Order) -> bool {
        forall|id: OrderId| #[trigger]
            self.book().locations().contains_key(id) ==> {
                ||| before.contains_key(id) && before[id] == self.book().locations()[id]
                ||| id == left.id && self.book().locations()[id] == (left.price->Some_0, left.side)
                    && self.nothing_takes(self.book().locations().remove(id), left)
            }
    }

    /// Best bid price (for tests and introspection).
    pub fn best_bid(&self) -> (r: Option<Price>)
        ensures
            self.book().consistent() ==> crate::book::best_matches(
                self.book().locations(),
                Side::Buy,
                r,
            ),
    {
        self.price_book.best_bid()
    }

    /// Best ask price (for tests and introspection).
    pub fn best_ask(&self) -> (r: Option<Price>)
        ensures
            self.book().consistent() ==> crate::book::best_matches(
                self.book().locations(),
                Side::Sell,
                r,
            ),
    {
        self.price_book.best_ask()
    }

    /// Runs the matching loop then commits any remainder (IOC/FOK/AON reject the unfilled
    /// part; GTC rests it in store and book).
    #[verifier::rlimit(40)]
    fn match_and_commit_incoming(&mut self, incoming: &mut Order) -> (r: Result<()>)
        requires
            old(self).bounded(),
            old(incoming).quantity > 0,
            old(incoming).leaves_quantity == old(incoming).quantity,
            old(incoming).executed_quantity == 0,
            OS::admits(old(incoming).id),
        ensures
            old(self).sink_kept(r),
            final(self).bounded(),
            old(self).wf() && (old(incoming).price matches Some(p) ==> PB::supports(p)) ==> final(self).wf(),
            old(self).wf() && (old(incoming).price matches Some(p) ==> PB::supports(p)) ==> final(self).book_grew_from(
                old(self).book().locations(),
                *final(incoming),
            ),
            final(self).same_policies(old(self)),
            same_but_quantity(*old(incoming), *final(incoming)),
            final(incoming).leaves_quantity == final(incoming).quantity,
            0 <= final(incoming).quantity <= old(incoming).quantity,
            old(self).wf() ==> (r matches Err(Error::OrderStore(e)) ==> e == OrderStoreError::AlreadyExists(old(incoming).id)
                && old(self).store().orders().contains_key(old(incoming).id)),
            r == Err::<(), Error>(Error::Rejection(RejectionError::SelfTrade)) ==> exists|i: Order, o: Order|
                #[trigger] old(self).self_trade().flags(i, o) && i.id == old(incoming).id,
            r matches Err(Error::MatchingPolicy(e)) ==> exists|i: Order, o: Order|
                #[trigger] old(self).matching().errs(i, o, e) && i.id == old(incoming).id,
            r matches Err(Error::SelfTradePolicy(e)) ==> exists|i: Order, o: Order|
                #[trigger] old(self).self_trade().errs(i, o, e) && i.id == old(incoming).id,
            r matches Err(Error::Sequence(e)) ==> exists|g: SG| #[trigger] final(self).sequencer().drew(&g, Err(e)),
            old(self).wf() ==> r != Err::<(), Error>(Error::Rejection(RejectionError::PriceBookInvariantViolation)),
            final(self).book().fifo() == old(self).book().fifo(),
            old(self).wf() && old(self).book().fifo() && (old(incoming).price matches Some(p) ==> PB::supports(p))
                ==> heads_taken(old(self).book(), final(self).book(), opposite(old(incoming).side)),
            old(self).wf() && r == Err::<(), Error>(Error::Rejection(RejectionError::InsufficientLiquidity))
                ==> final(self).nothing_takes(final(self).book().locations(), *final(incoming)),
            exists|t: Seq<Event>, tail: Seq<Event>|
                #[trigger] matching_report(t, tail, *old(incoming), *final(incoming), r, old(self).store().orders(), final(self).store().orders())
                && (exists|gs: Seq<SG>| #[trigger] draws_chain(gs, t) && gs[0] == old(self).sequencer()
                    && (!(r matches Err(Error::Sequence(_))) ==> gs.last() == final(self).sequencer()))
                && final(self).events() == old(self).events() + t + tail
                && (old(self).wf() ==> positive_trades(t) && price_ordered(t, opposite(old(incoming).side))
                && hit_side(t, old(self).store().orders(), opposite(old(incoming).side))),
    {
        let ghost start = *self;
        let ghost first = *incoming;
        let ghost good = start.wf() && (first.price matches Some(p) ==> PB::supports(p));
        let ghost mut trades: Seq<Event> = Seq::empty();
        let ghost mut gs: Seq<SG> = seq![start.sequencer()];
        proof {
            lemma_heads_start(start.book(), opposite(first.side));
        }
        while incoming.quantity > 0
            invariant
                start == *old(self),
                first == *old(incoming),
                self.bounded(),
                start.wf() ==> self.wf(),
                good == (start.wf() && (first.price matches Some(p) ==> PB::supports(p))),
                self.same_policies(&start),
                same_but_quantity(first, *incoming),
                incoming.leaves_quantity == incoming.quantity,
                0 <= incoming.quantity <= first.quantity,
                first.executed_quantity == 0,
                OS::admits(first.id),
                self.events() == start.events() + trades,
                trades_by(trades, first.id),
                start.wf() ==> positive_trades(trades),
                trade_sum(trades) + incoming.quantity == first.quantity,
                untouched(start.store().orders(), self.store().orders(), trades),
                start.wf() ==> price_ordered(trades, opposite(first.side)),
                start.wf() && trades.len() > 0 ==> bounds_side(self.book().locations(), opposite(first.side), trade_price(trades.last())),
                at_resting_prices(trades, start.store().orders()),
                fills_applied(trades, start.store().orders(), self.store().orders(), first.id),
                fills_sized(trades, first.quantity, start.store().orders()),
                start.wf() ==> hit_side(trades, start.store().orders(), opposite(first.side)),
                start.wf() ==> within(self.book().locations(), start.book().locations()),
                incoming.quantity > 0 ==> forall|x: OrderId| traded_against(trades, x) ==> !#[trigger] self.store().orders().contains_key(x),
                forall|x: OrderId| #[trigger] self.store().orders().contains_key(x) ==> start.store().orders().contains_key(x),
                self.book().fifo() == start.book().fifo(),
                start.wf() && start.book().fifo() ==> heads_taken(start.book(), self.book(), opposite(first.side)),
                draws_chain(gs, trades),
                gs[0] == start.sequencer(),
                gs.last() == self.sequencer(),
            ensures
                start == *old(self),
                first == *old(incoming),
                self.bounded(),
                start.wf() ==> self.wf(),
                self.same_policies(&start),
                same_but_quantity(first, *incoming),
                incoming.leaves_quantity == incoming.quantity,
                0 <= incoming.quantity <= first.quantity,
                self.events() == start.events() + trades,
                trades_by(trades, first.id),
                start.wf() ==> positive_trades(trades),
                trade_sum(trades) + incoming.quantity == first.quantity,
                untouched(start.store().orders(), self.store().orders(), trades),
                start.wf() ==> price_ordered(trades, opposite(first.side)),
                at_resting_prices(trades, start.store().orders()),
                fills_applied(trades, start.store().orders(), self.store().orders(), first.id),
                fills_sized(trades, first.quantity, start.store().orders()),
                start.wf() ==> hit_side(trades, start.store().orders(), opposite(first.side)),
                start.wf() ==> within(self.book().locations(), start.book().locations()),
                start.wf() && incoming.quantity > 0 ==> self.nothing_takes(self.book().locations(), *incoming),
                forall|x: OrderId| #[trigger] self.store().orders().contains_key(x) ==> start.store().orders().contains_key(x),
                self.book().fifo() == start.book().fifo(),
                start.wf() && start.book().fifo() ==> heads_taken(start.book(), self.book(), opposite(first.side)),
                draws_chain(gs, trades),
                gs[0] == start.sequencer(),
                gs.last() == self.sequencer(),
            decreases incoming.quantity, self.book().size(),
        {
            let ghost pre = *self;
            let resting_id = match self.price_book.pop_best(incoming.side) {
                Some(id) => id,
                None => break,
            };
            let ghost popped = *self;
            proof {
                if start.wf() && start.book().fifo() {
                    lemma_heads_pop(start.book(), pre.book(), popped.book(), opposite(first.side), pre.book().locations()[resting_id].0);
                }
            }
            let mut resting = match self.order_store.remove(&resting_id) {
                Ok(o) => o,
                Err(e) => {
                    proof {
                        if start.wf() {
                            assert(pre.book().locations().contains_key(resting_id));
                        }
                        lemma_bounded_remove::<OS>(pre.store().orders(), resting_id);
                        if start.wf() {
                            lemma_bms_remove::<PB>(pre.book().locations(), pre.store().orders(), resting_id);
                            assert(pre.store().orders().remove(resting_id) =~= pre.store().orders());
                        }
                        assert(self.same_policies(&start));
                        assert(matching_report(trades, Seq::empty(), first, *incoming, Err(Error::OrderStore(e)), start.store().orders(), self.store().orders()));
                        assert(self.events() == start.events() + trades + Seq::<Event>::empty());
                    }
                    return Err(Error::OrderStore(e));
                },
            };
            proof {
                lemma_bounded_remove::<OS>(pre.store().orders(), resting_id);
                if start.wf() {
                    lemma_bms_remove::<PB>(pre.book().locations(), pre.store().orders(), resting_id);
                }
            }
            let ghost removed = *self;
            let resting_price = match resting.price {
                Some(p) => p,
                None => {
                    proof {
                        if start.wf() {
                            assert(pre.book().locations().contains_key(resting_id));
                            assert(pre.store().orders()[resting_id].price is Some);
                        }
                    }
                    match self.order_store.insert(&resting) {
                        Ok(()) => {},
                        Err(e) => {
                            proof {
                                assert(matching_report(trades, Seq::empty(), first, *incoming, Err(Error::OrderStore(e)), start.store().orders(), self.store().orders()));
                                assert(self.events() == start.events() + trades + Seq::<Event>::empty());
                            }
                            return Err(Error::OrderStore(e));
                        },
                    }
                    proof {
                        lemma_bounded_insert::<OS>(removed.store().orders(), resting);
                        if start.wf() {
                            lemma_bms_insert_unpriced::<PB>(removed.book().locations(), removed.store().orders(), resting);
                        }
                        assert(self.store().orders() =~= pre.store().orders());
                    }
                    let r = self.emit_rejection(RejectionError::PriceBookInvariantViolation);
                    proof {
                        let tail = seq![Event::Rejected(RejectionError::PriceBookInvariantViolation)];
                        assert(self.events() == start.events() + trades + tail);
                        assert(matching_report(trades, tail, first, *incoming, r, start.store().orders(), self.store().orders()));
                    }
                    return r;
                },
            };
            match self.self_trade_policy.violates(incoming, &resting) {
                Ok(false) => {},
                Ok(true) => {
                    match self.order_store.insert(&resting) {
                        Ok(()) => {},
                        Err(e) => {
                            proof {
                                assert(matching_report(trades, Seq::empty(), first, *incoming, Err(Error::OrderStore(e)), start.store().orders(), self.store().orders()));
                                assert(self.events() == start.events() + trades + Seq::<Event>::empty());
                            }
                            return Err(Error::OrderStore(e));
                        },
                    }
                    self.price_book.push_front(&resting_price, resting.id, resting.side, resting.sequence);
                    proof {
                        if start.wf() && start.book().fifo() {
                            lemma_put_back_heads(start.book(), pre.book(), popped.book(), self.book(), opposite(first.side), resting_price, resting_id);
                        }
                        lemma_bounded_insert::<OS>(removed.store().orders(), resting);
                        if start.wf() {
                            lemma_bms_insert::<PB>(removed.book().locations(), removed.store().orders(), resting);
                        }
                        assert(self.store().orders() =~= pre.store().orders());
                    }
                    let r = self.emit_rejection(RejectionError::SelfTrade);
                    proof {
                        assert(start.self_trade().flags(*incoming, resting));
                        let tail = seq![Event::Rejected(RejectionError::SelfTrade)];
                        assert(self.events() == start.events() + trades + tail);
                        assert(matching_report(trades, tail, first, *incoming, r, start.store().orders(), self.store().orders()));
                    }
                    return r;
                },
                Err(e) => {
                    proof {
                        assert(start.self_trade().errs(*incoming, resting, e));
                        assert(matching_report(trades, Seq::empty(), first, *incoming, Err(Error::SelfTradePolicy(e)), start.store().orders(), self.store().orders()));
                        assert(self.events() == start.events() + trades + Seq::<Event>::empty());
                    }
                    return Err(Error::SelfTradePolicy(e));
                },
            }
            match self.matching_policy.can_match(incoming, &resting) {
                Ok(true) => {},
                Ok(false) => {
                    match self.order_store.insert(&resting) {
                        Ok(()) => {},
                        Err(e) => {
                            proof {
                                assert(matching_report(trades, Seq::empty(), first, *incoming, Err(Error::OrderStore(e)), start.store().orders(), self.store().orders()));
                                assert(self.events() == start.events() + trades + Seq::<Event>::empty());
                            }
                            return Err(Error::OrderStore(e));
                        },
                    }
                    self.price_book.push_front(&resting_price, resting.id, resting.side, resting.sequence);
                    proof {
                        if start.wf() && start.book().fifo() {
                            lemma_put_back_heads(start.book(), pre.book(), popped.book(), self.book(), opposite(first.side), resting_price, resting_id);
                        }
                        lemma_bounded_insert::<OS>(removed.store().orders(), resting);
                        if start.wf() {
                            lemma_bms_insert::<PB>(removed.book().locations(), removed.store().orders(), resting);
                        }
                        assert(self.store().orders() =~= pre.store().orders());
                    }
                    break;
                },
                Err(e) => {
                    proof {
                        assert(start.matching().errs(*incoming, resting, e));
                        assert(matching_report(trades, Seq::empty(), first, *incoming, Err(Error::MatchingPolicy(e)), start.store().orders(), self.store().orders()));
                        assert(self.events() == start.events() + trades + Seq::<Event>::empty());
                    }
                    return Err(Error::MatchingPolicy(e));
                },
            }
            let traded_qty = if incoming.quantity <= resting.leaves_quantity {
                incoming.quantity
            } else {
                resting.leaves_quantity
            };
            incoming.quantity = incoming.quantity - traded_qty;
            incoming.leaves_quantity = incoming.quantity;
            let remaining_qty = resting.leaves_quantity - traded_qty;
            if remaining_qty > 0 {
                resting.executed_quantity = resting.executed_quantity + traded_qty;
                resting.leaves_quantity = remaining_qty;
                match self.order_store.insert(&resting) {
                    Ok(()) => {},
                    Err(e) => {
                        proof {
                            assert(matching_report(trades, Seq::empty(), first, *incoming, Err(Error::OrderStore(e)), start.store().orders(), self.store().orders()));
                            assert(self.events() == start.events() + trades + Seq::<Event>::empty());
                        }
                        return Err(Error::OrderStore(e));
                    },
                }
                self.price_book.push_front(&resting_price, resting.id, resting.side, resting.sequence);
                proof {
                    if start.wf() && start.book().fifo() {
                        lemma_put_back_heads(start.book(), pre.book(), popped.book(), self.book(), opposite(first.side), resting_price, resting_id);
                    }
                    lemma_bounded_insert::<OS>(removed.store().orders(), resting);
                    if start.wf() {
                        lemma_bms_insert::<PB>(removed.book().locations(), removed.store().orders(), resting);
                    }
                }
            }
            let ghost before_draw = *self;
            let sequence = match self.sequence_generator.next() {
                Ok(s) => s,
                Err(e) => {
                    proof {
                        assert(self.sequencer().drew(&before_draw.sequencer(), Err(e)));
                        assert(matching_report(trades, Seq::empty(), first, *incoming, Err(Error::Sequence(e)), start.store().orders(), self.store().orders()));
                        assert(self.events() == start.events() + trades + Seq::<Event>::empty());
                    }
                    return Err(Error::Sequence(e));
                },
            };
            let trade = Trade {
                aggressor: incoming.id,
                resting: resting.id,
                price: resting_price,
                quantity: traded_qty,
                sequence,
            };
            let emitted = self.emit_event(Event::Trade(trade));
            proof {
                if start.wf() {
                    assert(resting.leaves_quantity > 0 || remaining_qty > 0);
                    assert(traded_qty > 0);
                }
                lemma_trade_sum_push(trades, Event::Trade(trade));
                lemma_draws_chain_push(gs, trades, self.sequencer(), trade);
                gs = gs.push(self.sequencer());
                let old_trades = trades;
                trades = trades.push(Event::Trade(trade));
                assert(self.events() == start.events() + trades);
                assert(trade_resting(trades[old_trades.len() as int]) == Some(resting_id));
                assert forall|x: OrderId| !traded_against(trades, x) implies #[trigger] self.store().orders().get(x)
                    == pre.store().orders().get(x) by {
                    if x == resting_id {
                        assert(trade_resting(trades[old_trades.len() as int]) == Some(x));
                    }
                }
                lemma_untouched_step(start.store().orders(), pre.store().orders(), self.store().orders(), old_trades, trades);
                assert(!traded_against(old_trades, resting_id));
                assert(pre.store().orders().get(resting_id) == start.store().orders().get(resting_id));
                assert forall|k: int| 0 <= k < trades.len() implies (#[trigger] trades[k] matches Event::Trade(tr)
                    ==> start.store().orders().contains_key(tr.resting) && start.store().orders()[tr.resting].price == Some(tr.price)) by {
                    if k < old_trades.len() {
                        assert(trades[k] == old_trades[k]);
                    }
                }
                lemma_fills_sized_push(old_trades, trade, first.quantity, start.store().orders());
                if start.wf() {
                    assert forall|k: int| 0 <= k < trades.len() implies (#[trigger] trades[k] matches Event::Trade(tr)
                        ==> start.store().orders().contains_key(tr.resting) && start.store().orders()[tr.resting].side
                        == opposite(first.side)) by {
                        if k < old_trades.len() {
                            assert(trades[k] == old_trades[k]);
                        }
                    }
                }
            }
            match emitted {
                Ok(()) => {},
                Err(e) => {
                    proof {
                        assert(matching_report(trades, Seq::empty(), first, *incoming, Err(Error::EventSink(e)), start.store().orders(), self.store().orders()));
                        assert(self.events() == start.events() + trades + Seq::<Event>::empty());
                    }
                    return Err(Error::EventSink(e));
                },
            }
        }
        if incoming.quantity > 0 {
            match incoming.time_in_force {
                TimeInForce::Ioc | TimeInForce::Fok | TimeInForce::Aon => {
                    let r = self.emit_rejection(RejectionError::InsufficientLiquidity);
                    proof {
                        let tail = seq![Event::Rejected(RejectionError::InsufficientLiquidity)];
                        assert(self.events() == start.events() + trades + tail);
                        assert(matching_report(trades, tail, first, *incoming, r, start.store().orders(), self.store().orders()));
                    }
                    return r;
                },
                TimeInForce::Gtc => {
                    let ghost before = *self;
                    match self.order_store.insert(incoming) {
                        Ok(()) => {},
                        Err(e) => {
                            proof {
                                assert(matching_report(trades, Seq::empty(), first, *incoming, Err(Error::OrderStore(e)), start.store().orders(), self.store().orders()));
                                assert(self.events() == start.events() + trades + Seq::<Event>::empty());
                            }
                            return Err(Error::OrderStore(e));
                        },
                    }
                    proof {
                        lemma_bounded_insert::<OS>(before.store().orders(), *incoming);
                        assert forall|x: OrderId| x != first.id && !traded_against(trades, x) implies #[trigger] self.store().orders().get(x)
                            == before.store().orders().get(x) by {}
                        assert(unchanged_but(start.store().orders(), before.store().orders(), first.id, trades));
                        lemma_unchanged_step(start.store().orders(), before.store().orders(), self.store().orders(), first.id, trades, trades);
                    }
                    if let Some(price) = incoming.price {
                        self.price_book.push(&price, incoming.id, incoming.side, incoming.sequence);
                        proof {
                            if good && start.book().fifo() {
                                assert(!before.book().locations().contains_key(incoming.id));
                                assert forall|q: Price| PB::supports(q) implies #[trigger] self.book().level_queue(opposite(first.side), q)
                                    == before.book().level_queue(opposite(first.side), q) by {
                                    assert((opposite(first.side), q) != (incoming.side, price));
                                }
                                lemma_heads_same(start.book(), before.book(), self.book(), opposite(first.side));
                            }
                            if good {
                                lemma_bms_insert::<PB>(before.book().locations(), before.store().orders(), *incoming);
                            }
                        }
                    } else {
                        proof {
                            if good {
                                lemma_bms_insert_unpriced::<PB>(before.book().locations(), before.store().orders(), *incoming);
                            }
                        }
                    }
                    let accepted = self.emit_event(Event::Accepted(incoming.id));
                    let r = match accepted {
                        Ok(()) => Ok(()),
                        Err(e) => Err(Error::EventSink(e)),
                    };
                    proof {
                        let tail = seq![Event::Accepted(first.id)];
                        assert(self.events() == start.events() + trades + tail);
                        assert(matching_report(trades, tail, first, *incoming, r, start.store().orders(), self.store().orders()));
                        if good {
                            let locs = before.book().locations();
                            let opp = opposite(incoming.side);
                            assert(!locs.contains_key(first.id));
                            if has_side(locs, opp) {
                                let w = choose|id: OrderId|
                                    #[trigger] locs.contains_key(id) && locs[id].1 == opp && is_best(locs, opp, locs[id].0)
                                        && before.store().orders().contains_key(id) && before.matching().refuses(
                                        *incoming,
                                        before.store().orders()[id],
                                    );
                                assert(w != first.id);
                                assert(self.store().orders()[w] == before.store().orders()[w]);
                            }
                            assert(self.nothing_takes(locs, *incoming));
                            if incoming.price is Some {
                                assert(self.book().locations().remove(first.id) =~= locs);
                            } else {
                                assert(self.book().locations() == locs);
                            }
                            assert forall|id: OrderId| #[trigger] self.book().locations().contains_key(id) implies {
                                ||| start.book().locations().contains_key(id) && start.book().locations()[id]
                                    == self.book().locations()[id]
                                ||| id == incoming.id && self.book().locations()[id] == (incoming.price->Some_0, incoming.side)
                                    && self.nothing_takes(self.book().locations().remove(id), *incoming)
                            } by {
                                if id != first.id {
                                    assert(locs.contains_key(id));
                                }
                            }
                        }
                    }
                    return r;
                },
            }
        }
        proof {
            assert(matching_report(trades, Seq::empty(), first, *incoming, Ok(()), start.store().orders(), self.store().orders()));
            assert(self.events() == start.events() + trades + Seq::<Event>::empty());
        }
        Ok(())
    }

    /// Step `i` of a batch: `states[i + 1]` is what processing `cmds[i]` made of
    /// `states[i]`, which returned `last` if it is the final step and `Ok` otherwise.
    pub open spec fn batch_step(states: Seq<Self>, cmds: Seq<OrderCommand>, i: int, last: Result<()>) -> bool {
        states[i + 1].processed(&states[i], cmds[i], if i == states.len() - 2 { last } else { Ok(()) })
    }

    /// Applies [`OrderCommand`]s in order via [`OrderMatchingService::process`].
    ///
    /// On the first error, processing stops and the error is returned; prior commands remain
    /// committed.
    pub fn process_batch(&mut self, cmds: Vec<OrderCommand>) -> (r: Result<()>)
        requires
            old(self).bounded(),
            forall|i: int| 0 <= i < cmds.len() ==> #[trigger] <Self as OrderMatchingService>::admits(cmds[i]),
        ensures
            final(self).bounded(),
            old(self).wf() && (forall|i: int| 0 <= i < cmds.len() ==> #[trigger] prices_supported::<PB>(cmds[i]))
                ==> final(self).wf(),
            final(self).same_policies(old(self)),
            exists|states: Seq<Self>|
                {
                    &&& 1 <= states.len() <= cmds.len() + 1
                    &&& states[0] == *old(self)
                    &&& states.last() == *final(self)
                    &&& forall|i: int| 0 <= i < states.len() - 1 ==> #[trigger] Self::batch_step(states, cmds@, i, r)
                    &&& r is Ok ==> states.len() == cmds.len() + 1
                    &&& r is Err ==> states.len() >= 2
                },
            cmds.len() == 0 ==> r is Ok && *final(self) == *old(self),
    {
        let ghost start = *self;
        let ghost mut states: Seq<Self> = seq![*self];
        let mut i: usize = 0;
        while i < cmds.len()
            invariant
                start == *old(self),
                i <= cmds.len(),
                self.bounded(),
                forall|j: int| 0 <= j < cmds.len() ==> #[trigger] <Self as OrderMatchingService>::admits(cmds[j]),
                start.wf() && (forall|j: int| 0 <= j < cmds.len() ==> #[trigger] prices_supported::<PB>(cmds[j]))
                    ==> self.wf(),
                self.same_policies(&start),
                i == 0 ==> *self == start,
                states.len() == i + 1,
                states[0] == start,
                states.last() == *self,
                forall|j: int| 0 <= j < i ==> #[trigger] Self::batch_step(states, cmds@, j, Ok(())),
            decreases cmds.len() - i,
        {
            let cmd = cmds[i];
            let ghost before = *self;
            let res = OrderMatchingService::process(self, cmd);
            proof {
                let next = states.push(*self);
                assert forall|j: int| 0 <= j < i implies #[trigger] Self::batch_step(next, cmds@, j, res) by {
                    assert(Self::batch_step(states, cmds@, j, Ok(())));
                    assert(next[j] == states[j]);
                    assert(next[j + 1] == states[j + 1]);
                }
                assert(Self::batch_step(next, cmds@, i as int, res));
                states = next;
            }
            match res {
                Ok(u) => {
                    proof {
                        assert(res === Ok(u));
                        assert forall|j: int| 0 <= j < i + 1 implies #[trigger] Self::batch_step(states, cmds@, j, Ok(())) by {
                            assert(Self::batch_step(states, cmds@, j, res));
                        }
                    }
                },
                Err(e) => {
                    return Err(e);
                },
            }
            i = i + 1;
        }
        Ok(())
    }

    /// `self` is `before` after the rejection `e` was reported and nothing else changed.
    pub open spec fn rejected_from(&self, before: &Self, e: RejectionError, r: Result<()>) -> bool {
        &&& rejected_with(r, e)
        &&& self.events() == before.events().push(Event::Rejected(e))
        &&& self.same_state(before)
    }

    /// `self` is `before` after the stored order `id` was taken out of store and book: in a
    /// consistent engine a priced order is reported canceled, an unpriced one (which cannot
    /// be in the book) as a book invariant violation.
    pub open spec fn removed_from(&self, before: &Self, id: OrderId, r: Result<()>) -> bool {
        &&& self.store().orders() == before.store().orders().remove(id)
        &&& before.wf() && before.bounded() ==> {
            &&& self.book().locations() == before.book().locations().remove(id)
            &&& before.store().orders()[id].price is Some ==> ok_or_sink_failed(r)
                && self.events() == before.events().push(Event::Canceled(id))
            &&& before.store().orders()[id].price is None ==> rejected_with(
                r,
                RejectionError::PriceBookInvariantViolation,
            ) && self.events() == before.events().push(
                Event::Rejected(RejectionError::PriceBookInvariantViolation),
            )
        }
    }

    /// What a replace reports once the old order `id` is out of store and book: the
    /// cancel, then the failure of the sink or of the sequencer (store as `removed`), or
    /// the matching pass of `fresh` under the sequence `s` drawn.
    pub open spec fn reentered_from(&self, before: &Self, id: OrderId, fresh: Order, r: Result<()>) -> bool {
        let removed = before.store().orders().remove(id);
        let unbooked = before.book().locations().remove(id);
        let canceled = before.events().push(Event::Canceled(id));
        &&& r matches Err(Error::OrderStore(e)) ==> e == OrderStoreError::AlreadyExists(fresh.id)
            && removed.contains_key(fresh.id)
        &&& r == Err::<(), Error>(Error::Rejection(RejectionError::SelfTrade)) ==> exists|i: Order, o: Order|
            #[trigger] before.self_trade().flags(i, o) && i.id == fresh.id
        &&& r matches Err(Error::MatchingPolicy(e)) ==> exists|i: Order, o: Order|
            #[trigger] before.matching().errs(i, o, e) && i.id == fresh.id
        &&& r matches Err(Error::SelfTradePolicy(e)) ==> exists|i: Order, o: Order|
            #[trigger] before.self_trade().errs(i, o, e) && i.id == fresh.id
        &&& r matches Err(Error::Sequence(e)) ==> exists|g: SG| #[trigger] self.sequencer().drew(&g, Err(e))
        &&& r != Err::<(), Error>(Error::Rejection(RejectionError::PriceBookInvariantViolation))
        &&& {
        ||| r matches Err(Error::EventSink(_)) && self.events() == canceled
            && self.store().orders() == removed && self.book().locations() == unbooked
        ||| r matches Err(Error::Sequence(e)) && self.sequencer().drew(&before.sequencer(), Err(e))
            && self.events() == canceled
            && self.store().orders() == removed && self.book().locations() == unbooked
        ||| exists|s: Sequence, left: Order, t: Seq<Event>, tail: Seq<Event>|
            #[trigger] matching_report(t, tail, with_sequence(fresh, s), left, r, removed, self.store().orders())
                && (exists|g: SG| #[trigger] g.drew(&before.sequencer(), Ok(s)))
                && (r == Err::<(), Error>(Error::Rejection(RejectionError::InsufficientLiquidity))
                    ==> self.nothing_takes(self.book().locations(), left))
                && self.events() == canceled + t + tail && positive_trades(t)
                && price_ordered(t, opposite(fresh.side)) && hit_side(t, removed, opposite(fresh.side))
                && ((fresh.price matches Some(p) ==> PB::supports(p)) ==> self.book_grew_from(unbooked, left))
        }
    }

    /// What an add reports and leaves: a non-positive quantity or a price that does not
    /// fit the order type is rejected; otherwise a sequence is drawn (its failure changes
    /// nothing but the result) and the new order runs through matching.
    pub open spec fn added(&self, before: &Self, cmd: AddOrderCommand, r: Result<()>) -> bool {
        &&& cmd.quantity <= 0 ==> self.rejected_from(before, RejectionError::InvalidQuantity, r)
        &&& cmd.quantity > 0 && !price_fits(cmd.order_type, cmd.price) ==> self.rejected_from(
            before,
            RejectionError::InvalidPrice,
            r,
        )
        &&& cmd.quantity > 0 && price_fits(cmd.order_type, cmd.price) ==> {
            &&& before.wf() ==> (r matches Err(Error::OrderStore(e)) ==> e == OrderStoreError::AlreadyExists(cmd.id)
                && before.store().orders().contains_key(cmd.id))
            &&& r == Err::<(), Error>(Error::Rejection(RejectionError::SelfTrade)) ==> exists|i: Order, o: Order|
                #[trigger] before.self_trade().flags(i, o) && i.id == cmd.id
            &&& r matches Err(Error::MatchingPolicy(e)) ==> exists|i: Order, o: Order|
                #[trigger] before.matching().errs(i, o, e) && i.id == cmd.id
            &&& r matches Err(Error::SelfTradePolicy(e)) ==> exists|i: Order, o: Order|
                #[trigger] before.self_trade().errs(i, o, e) && i.id == cmd.id
            &&& r matches Err(Error::Sequence(e)) ==> exists|g: SG| #[trigger] self.sequencer().drew(&g, Err(e))
            &&& before.wf() ==> r != Err::<(), Error>(Error::Rejection(RejectionError::PriceBookInvariantViolation))
            &&& before.wf() && before.book().fifo() && prices_supported::<PB>(OrderCommand::Add(cmd))
                ==> heads_taken(before.book(), self.book(), opposite(cmd.side))
            &&& {
            ||| r matches Err(Error::Sequence(e)) && self.sequencer().drew(&before.sequencer(), Err(e))
                && self.events() == before.events()
                && self.store() == before.store() && self.book() == before.book()
            ||| exists|seq: Sequence, left: Order, t: Seq<Event>, tail: Seq<Event>|
                #[trigger] matching_report(t, tail, order_from_add(cmd, seq), left, r, before.store().orders(), self.store().orders())
                && (exists|g: SG| #[trigger] g.drew(&before.sequencer(), Ok(seq)))
                && (exists|gs: Seq<SG>| #[trigger] draws_chain(gs, t) && gs[0].drew(&before.sequencer(), Ok(seq))
                    && (!(r matches Err(Error::Sequence(_))) ==> gs.last() == self.sequencer()))
                && (before.wf() && r == Err::<(), Error>(Error::Rejection(RejectionError::InsufficientLiquidity))
                    ==> self.nothing_takes(self.book().locations(), left))
                && self.events() == before.events() + t + tail
                && (before.wf() ==> positive_trades(t) && price_ordered(t, opposite(cmd.side))
                && hit_side(t, before.store().orders(), opposite(cmd.side)))
                && (before.wf() && prices_supported::<PB>(OrderCommand::Add(cmd)) ==> self.book_grew_from(before.book().locations(), left))
            }
        }
    }

    /// What a cancel reports and leaves: an unknown id or a failed ownership check is
    /// rejected; otherwise the order is removed and reported canceled.
    pub open spec fn canceled(&self, before: &Self, cmd: CancelOrderCommand, r: Result<()>) -> bool {
        &&& self.sequencer() == before.sequencer()
        &&& !before.store().orders().contains_key(cmd.order_id) ==> self.rejected_from(
            before,
            RejectionError::OrderNotFound(cmd.order_id),
            r,
        )
        &&& before.store().orders().contains_key(cmd.order_id) ==> match ownership_check(
            before.store().orders()[cmd.order_id],
            cmd.participant_id,
            cmd.sequence,
        ) {
            Err(e) => self.rejected_from(before, e, r),
            Ok(()) => self.removed_from(before, cmd.order_id, r),
        }
    }

    /// What a replace in place reports and leaves: the checks in order (quantity, id,
    /// ownership, price), then the old order is canceled and the new one, with an
    /// end-of-queue sequence, runs through matching.
    pub open spec fn replaced(&self, before: &Self, cmd: ReplaceOrderCommand, r: Result<()>) -> bool {
        &&& cmd.new_quantity <= 0 ==> self.rejected_from(before, RejectionError::InvalidQuantity, r)
        &&& cmd.new_quantity > 0 && !before.store().orders().contains_key(cmd.order_id)
            ==> self.rejected_from(before, RejectionError::OrderNotFound(cmd.order_id), r)
        &&& cmd.new_quantity > 0 && before.store().orders().contains_key(cmd.order_id) ==> {
            let o = before.store().orders()[cmd.order_id];
            match replace_check(o, cmd) {
                Err(e) => self.rejected_from(before, e, r),
                Ok(()) => before.wf() ==> {
                    &&& o.price is None ==> self.removed_from(before, cmd.order_id, r)
                    &&& o.price is Some ==> self.reentered_from(
                        before,
                        cmd.order_id,
                        order_replacing(o, cmd, o.sequence),
                        r,
                    )
                },
            }
        }
    }

    /// What a cancel by id reports and leaves: an unknown id is rejected; otherwise the
    /// order is removed and reported canceled.
    pub open spec fn canceled_by_id(&self, before: &Self, cmd: CancelByOrderIdCommand, r: Result<()>) -> bool {
        &&& self.sequencer() == before.sequencer()
        &&& !before.store().orders().contains_key(cmd.order_id) ==> self.rejected_from(
            before,
            RejectionError::OrderNotFound(cmd.order_id),
            r,
        )
        &&& before.store().orders().contains_key(cmd.order_id) ==> self.removed_from(before, cmd.order_id, r)
    }

    /// What a reduce reports and leaves: reducing by the leaves or more cancels the order;
    /// less lowers its quantity and its leaves in place by the reduced amount, so that
    /// `quantity == executed_quantity + leaves_quantity` still holds (an unpriced order
    /// cannot be, and is rejected).
    pub open spec fn reduced(&self, before: &Self, cmd: ReduceOrderCommand, r: Result<()>) -> bool {
        &&& self.sequencer() == before.sequencer()
        &&& cmd.quantity <= 0 ==> self.rejected_from(before, RejectionError::InvalidQuantity, r)
        &&& cmd.quantity > 0 && !before.store().orders().contains_key(cmd.order_id)
            ==> self.rejected_from(before, RejectionError::OrderNotFound(cmd.order_id), r)
        &&& cmd.quantity > 0 && before.store().orders().contains_key(cmd.order_id) ==> {
            let o = before.store().orders()[cmd.order_id];
            &&& cmd.quantity >= o.leaves_quantity ==> self.removed_from(before, cmd.order_id, r)
            &&& cmd.quantity < o.leaves_quantity && o.price is None ==> self.rejected_from(
                before,
                RejectionError::OrderParameterInvalid,
                r,
            )
            &&& cmd.quantity < o.leaves_quantity && o.price is Some ==> {
                &&& r is Ok
                &&& self.events() == before.events()
                &&& self.store().orders() == before.store().orders().insert(
                    cmd.order_id,
                    Order {
                        quantity: lowered(o.quantity, cmd.quantity),
                        leaves_quantity: (o.leaves_quantity - cmd.quantity) as i64,
                        ..o
                    },
                )
                &&& before.wf() ==> self.book().locations() == before.book().locations()
            }
        }
    }

    /// What an execute reports and leaves: executing the leaves or more removes the order
    /// silently; less moves the quantity from leaves to executed in place (an unpriced
    /// order cannot be, and is rejected).
    pub open spec fn executed(&self, before: &Self, cmd: ExecuteOrderCommand, r: Result<()>) -> bool {
        &&& self.sequencer() == before.sequencer()
        &&& cmd.quantity <= 0 ==> self.rejected_from(before, RejectionError::InvalidQuantity, r)
        &&& cmd.quantity > 0 && !before.store().orders().contains_key(cmd.order_id)
            ==> self.rejected_from(before, RejectionError::OrderNotFound(cmd.order_id), r)
        &&& cmd.quantity > 0 && before.store().orders().contains_key(cmd.order_id) ==> {
            let o = before.store().orders()[cmd.order_id];
            &&& cmd.quantity >= o.leaves_quantity ==> {
                &&& r is Ok
                &&& self.events() == before.events()
                &&& self.store().orders() == before.store().orders().remove(cmd.order_id)
                &&& before.wf() ==> self.book().locations() == before.book().locations().remove(cmd.order_id)
            }
            &&& cmd.quantity < o.leaves_quantity && o.price is None ==> self.rejected_from(
                before,
                RejectionError::OrderParameterInvalid,
                r,
            )
            &&& cmd.quantity < o.leaves_quantity && o.price is Some ==> {
                &&& r is Ok
                &&& self.events() == before.events()
                &&& self.store().orders() == before.store().orders().insert(
                    cmd.order_id,
                    Order {
                        executed_quantity: (o.executed_quantity + cmd.quantity) as i64,
                        leaves_quantity: (o.leaves_quantity - cmd.quantity) as i64,
                        ..o
                    },
                )
                &&& before.wf() ==> self.book().locations() == before.book().locations()
            }
        }
    }

    /// What a replace under a new id reports and leaves: the quantity and id checks, then
    /// the old order is canceled and a good-till-cancel limit order under the new id runs
    /// through matching.
    pub open spec fn replaced_by_new_id(&self, before: &Self, cmd: ReplaceOrderByNewIdCommand, r: Result<()>) -> bool {
        &&& cmd.new_quantity <= 0 ==> self.rejected_from(before, RejectionError::InvalidQuantity, r)
        &&& cmd.new_quantity > 0 && !before.store().orders().contains_key(cmd.old_order_id)
            ==> self.rejected_from(before, RejectionError::OrderNotFound(cmd.old_order_id), r)
        &&& cmd.new_quantity > 0 && before.store().orders().contains_key(cmd.old_order_id) && before.wf() ==> {
            let o = before.store().orders()[cmd.old_order_id];
            &&& o.price is None ==> self.removed_from(before, cmd.old_order_id, r)
            &&& o.price is Some ==> self.reentered_from(
                before,
                cmd.old_order_id,
                order_replacing_by_new_id(o, cmd, 0),
                r,
            )
        }
    }

    /// With a sink that never fails, `r` is no sink failure.
    pub open spec fn sink_kept(&self, r: Result<()>) -> bool {
        self.sink().never_fails() ==> !(r matches Err(Error::EventSink(_)))
    }

    /// What processing `cmd` reports and leaves: that of the command's own operation
    /// (and no sink failure from a sink that never fails).
    pub open spec fn processed(&self, before: &Self, cmd: OrderCommand, r: Result<()>) -> bool {
        &&& before.sink_kept(r)
        &&& match cmd {
            OrderCommand::Add(c) => self.added(before, c, r),
            OrderCommand::Cancel(c) => self.canceled(before, c, r),
            OrderCommand::Replace(c) => self.replaced(before, c, r),
            OrderCommand::CancelByOrderId(c) => self.canceled_by_id(before, c, r),
            OrderCommand::Reduce(c) => self.reduced(before, c, r),
            OrderCommand::Execute(c) => self.executed(before, c, r),
            OrderCommand::ReplaceByNewId(c) => self.replaced_by_new_id(before, c, r),
        }
    }

    /// Law: an add that trades nothing and rests the whole order, followed by a cancel of
    /// that order by id, leaves the store and the book as they were; a priced order is
    /// reported canceled.
    pub proof fn law_cancel_undoes_resting_add(
        e0: Self,
        e1: Self,
        e2: Self,
        cmd: AddOrderCommand,
        r1: Result<()>,
        r2: Result<()>,
    )
        requires
            e0.wf(),
            e0.bounded(),
            e1.wf(),
            e1.bounded(),
            !e0.store().orders().contains_key(cmd.id),
            e1.added(&e0, cmd, r1),
            r1 is Ok,
            e1.events() == e0.events().push(Event::Accepted(cmd.id)),
            e2.canceled_by_id(&e1, CancelByOrderIdCommand { order_id: cmd.id }, r2),
        ensures
            e2.store().orders() == e0.store().orders(),
            e2.book().locations() == e0.book().locations(),
            cmd.price is Some ==> ok_or_sink_failed(r2) && e2.events() == e1.events().push(
                Event::Canceled(cmd.id),
            ),
    {
        let (seq, left, t, tail) = choose|seq: Sequence, left: Order, t: Seq<Event>, tail: Seq<Event>|
            #[trigger] matching_report(t, tail, order_from_add(cmd, seq), left, r1, e0.store().orders(), e1.store().orders())
            && e1.events() == e0.events() + t + tail
            && (e0.wf() ==> positive_trades(t) && price_ordered(t, opposite(cmd.side)));
        let incoming = order_from_add(cmd, seq);
        assert(t + tail == seq![Event::Accepted(cmd.id)]) by {
            assert(e0.events() + t + tail == e0.events() + (t + tail));
            assert((t + tail) =~= e1.events().subrange(e0.events().len() as int, e1.events().len() as int));
        }
        if t.len() > 0 {
            assert((t + tail)[0] == t[0]);
            assert(t[0] matches Event::Trade(_));
        }
        assert(t.len() == 0);
        let orders0 = e0.store().orders();
        let orders1 = e1.store().orders();
        assert(orders1.contains_key(cmd.id) && orders1[cmd.id] == left);
        let expected = orders0.insert(cmd.id, left);
        assert forall|x: OrderId| #[trigger] orders1.contains_key(x) == expected.contains_key(x) && (
        orders1.contains_key(x) ==> orders1[x] == expected[x]) by {
            if x != cmd.id {
                assert(!traded_against(t, x));
                assert(orders1.get(x) == orders0.get(x));
            }
        }
        assert(orders1 =~= expected);
        assert(e2.store().orders() =~= orders0);
        lemma_bms_remove::<PB>(e1.book().locations(), orders1, cmd.id);
        lemma_bms_unique::<PB>(e1.book().locations().remove(cmd.id), e0.book().locations(), orders0);
    }

    /// Removes a stored order from store and book and reports the cancel; a stored order
    /// that is not in the book is reported as a book invariant violation.
    fn remove_and_report(&mut self, order_id: OrderId) -> (r: Result<()>)
        requires
            old(self).store().orders().contains_key(order_id),
        ensures
            old(self).sink_kept(r),
            old(self).bounded() ==> final(self).bounded(),
            old(self).wf() && old(self).bounded() ==> final(self).wf(),
            final(self).same_policies(old(self)),
            final(self).sequencer() == old(self).sequencer(),
            final(self).removed_from(old(self), order_id, r),
            old(self).bounded() && r is Ok ==> final(self).events() == old(self).events().push(Event::Canceled(order_id)),
    {
        let ghost start = *self;
        let order = match self.order_store.remove(&order_id) {
            Ok(o) => o,
            Err(e) => {
                return Err(Error::OrderStore(e));
            },
        };
        let in_book = self.price_book.remove(&order.id);
        proof {
            if start.bounded() {
                lemma_bounded_remove::<OS>(start.store().orders(), order_id);
            }
            if start.wf() && start.bounded() {
                lemma_bms_remove::<PB>(start.book().locations(), start.store().orders(), order_id);
                if order.price is None {
                    assert(!start.book().locations().contains_key(order_id));
                    assert(start.book().locations().remove(order_id) =~= start.book().locations());
                }
            }
        }
        if !in_book {
            return self.emit_rejection(RejectionError::PriceBookInvariantViolation);
        }
        match self.emit_event(Event::Canceled(order.id)) {
            Ok(()) => Ok(()),
            Err(e) => Err(Error::EventSink(e)),
        }
    }

    /// Hands `event` to the sink and records it.
    fn emit_event(&mut self, event: Event) -> (r: core::result::Result<(), EventSinkError>)
        ensures
            old(self).sink().never_fails() ==> r is Ok,
            final(self).events() == old(self).events().push(event),
            final(self).same_state(old(self)),
    {
        proof {
            self.emitted@ = self.emitted@.push(event);
        }
        self.event_sink.emit(event)
    }

    /// Emits a rejection event then returns `Err`, so callers need not emit separately.
    fn emit_rejection(&mut self, rejection_error: RejectionError) -> (r: Result<()>)
        ensures
            old(self).sink_kept(r),
            final(self).rejected_from(old(self), rejection_error, r),
    {
        match self.emit_event(Event::Rejected(rejection_error)) {
            Ok(()) => Err(Error::Rejection(rejection_error)),
            Err(e) => Err(Error::EventSink(e)),
        }
    }

    /// Takes the order `id` out (as a cancel), draws an end-of-queue sequence and runs
    /// the order `build` makes of it through matching.
    fn reenter(&mut self, id: OrderId, fresh: Order) -> (r: Result<()>)
        requires
            old(self).bounded(),
            old(self).store().orders().contains_key(id),
            fresh.quantity > 0,
            fresh.leaves_quantity == fresh.quantity,
            fresh.executed_quantity == 0,
            OS::admits(fresh.id),
        ensures
            old(self).sink_kept(r),
            final(self).bounded(),
            old(self).wf() && (fresh.price matches Some(p) ==> PB::supports(p)) ==> final(self).wf(),
            final(self).same_policies(old(self)),
            old(self).wf() ==> {
                &&& old(self).store().orders()[id].price is None ==> final(self).removed_from(old(self), id, r)
                &&& old(self).store().orders()[id].price is Some ==> final(self).reentered_from(old(self), id, fresh, r)
            },
    {
        let ghost start = *self;
        let removed = self.remove_and_report(id);
        match removed {
            Ok(()) => {},
            Err(e) => {
                return Err(e);
            },
        }
        let ghost after_cancel = *self;
        let sequence = match self.sequence_generator.next_at_end_of_queue() {
            Ok(s) => s,
            Err(e) => {
                proof {
                    assert(self.sequencer().drew(&after_cancel.sequencer(), Err(e)));
                }
                return Err(Error::Sequence(e));
            },
        };
        let mut incoming = Order { sequence, ..fresh };
        let ghost first = incoming;
        let ghost drawn = *self;
        let r = self.match_and_commit_incoming(&mut incoming);
        proof {
            assert(drawn.sequencer().drew(&start.sequencer(), Ok(sequence)));
            let (t, tail) = choose|t: Seq<Event>, tail: Seq<Event>|
                #[trigger] matching_report(t, tail, first, incoming, r, after_cancel.store().orders(), self.store().orders())
                && self.events() == after_cancel.events() + t + tail
                && (after_cancel.wf() ==> positive_trades(t) && price_ordered(t, opposite(first.side))
                && hit_side(t, after_cancel.store().orders(), opposite(first.side)));
            if r == Err::<(), Error>(Error::Rejection(RejectionError::SelfTrade)) {
                let (i, o) = choose|i: Order, o: Order| #[trigger] drawn.self_trade().flags(i, o) && i.id == first.id;
                assert(start.self_trade().flags(i, o));
            }
            if let Err(Error::MatchingPolicy(e)) = &r {
                let (i, o) = choose|i: Order, o: Order| #[trigger] drawn.matching().errs(i, o, *e) && i.id == first.id;
                assert(start.matching().errs(i, o, *e));
            }
            if let Err(Error::SelfTradePolicy(e)) = &r {
                let (i, o) = choose|i: Order, o: Order| #[trigger] drawn.self_trade().errs(i, o, *e) && i.id == first.id;
                assert(start.self_trade().errs(i, o, *e));
            }
            if start.wf() {
                assert(matching_report(t, tail, with_sequence(fresh, sequence), incoming, r, start.store().orders().remove(id), self.store().orders()));
                assert(self.reentered_from(&start, id, fresh, r));
            }
        }
        r
    }

    /// Puts a stored order back with new quantities: out of store and book, then in again
    /// at the end of its level.
    fn rest_again(&mut self, order: &Order, price: Price) -> (r: Result<()>)
        requires
            old(self).bounded(),
            old(self).store().orders().contains_key(order.id),
            old(self).store().orders()[order.id].price == order.price,
            old(self).store().orders()[order.id].side == order.side,
            order.price == Some(price),
            order.leaves_quantity > 0,
            order.executed_quantity + order.leaves_quantity <= i64::MAX,
        ensures
            old(self).sink_kept(r),
            r is Ok,
            final(self).bounded(),
            old(self).wf() ==> final(self).wf() && final(self).book().locations() == old(
                self,
            ).book().locations(),
            final(self).store().orders() == old(self).store().orders().insert(order.id, *order),
            final(self).events() == old(self).events(),
            final(self).same_policies(old(self)),
            final(self).sequencer() == old(self).sequencer(),
    {
        let ghost start = *self;
        match self.order_store.remove(&order.id) {
            Ok(_) => {},
            Err(e) => {
                return Err(Error::OrderStore(e));
            },
        }
        self.price_book.remove(&order.id);
        let ghost removed = *self;
        proof {
            lemma_bounded_remove::<OS>(start.store().orders(), order.id);
            if start.wf() {
                lemma_bms_remove::<PB>(start.book().locations(), start.store().orders(), order.id);
            }
        }
        match self.order_store.insert(order) {
            Ok(()) => {},
            Err(e) => {
                return Err(Error::OrderStore(e));
            },
        }
        self.price_book.push(&price, order.id, order.side, order.sequence);
        proof {
            lemma_bounded_insert::<OS>(removed.store().orders(), *order);
            assert(start.store().orders().remove(order.id).insert(order.id, *order) =~= start.store().orders().insert(order.id, *order));
            if start.wf() {
                lemma_bms_insert::<PB>(removed.book().locations(), removed.store().orders(), *order);
                assert(start.book().locations().remove(order.id).insert(order.id, (price, order.side)) =~= start.book().locations());
            }
        }
        Ok(())
    }
}

impl<SG, PB, OS, STP, ES> OrderMatchingEngine<SG, PB, OS, PriceCrossMatchingPolicy, STP, ES> where
    SG: SequenceGenerator,
    PB: PriceBook,
    OS: OrderStore,
    STP: SelfTradePolicy,
    ES: EventSink,
 {
    /// A book that grew from an uncrossed one by at most the order `left`, resting where
    /// the price-cross policy refused the best order on the other side, is uncrossed.
    proof fn lemma_grew_uncrossed(e1: Self, base: Map<OrderId, (Price, Side)>, left: Order)
        requires
            uncrossed(base),
            e1.wf(),
            e1.book_grew_from(base, left),
        ensures
            uncrossed(e1.book().locations()),
    {
        let l1 = e1.book().locations();
        let orders = e1.store().orders();
        assert forall|b: OrderId, a: OrderId|
            #[trigger] l1.contains_key(b) && #[trigger] l1.contains_key(a) && l1[b].1 == Side::Buy
                && l1[a].1 == Side::Sell implies l1[b].0 < l1[a].0 by {
            let kept_b = base.contains_key(b) && base[b] == l1[b];
            let kept_a = base.contains_key(a) && base[a] == l1[a];
            if kept_b && kept_a {
                assert(base.contains_key(b) && base.contains_key(a));
            } else if !kept_b {
                let rest = l1.remove(b);
                assert(rest.contains_key(a) && rest[a].1 == Side::Sell);
                assert(has_side(rest, Side::Sell));
                let w = choose|id: OrderId|
                    #[trigger] rest.contains_key(id) && rest[id].1 == opposite(left.side) && is_best(
                        rest,
                        opposite(left.side),
                        rest[id].0,
                    ) && orders.contains_key(id) && e1.matching().refuses(left, orders[id]);
                assert(l1.contains_key(w));
                assert(price_cross_decision(left, orders[w]) == Ok::<bool, MatchingPolicyError>(false));
            } else {
                let rest = l1.remove(a);
                assert(rest.contains_key(b) && rest[b].1 == Side::Buy);
                assert(has_side(rest, Side::Buy));
                let w = choose|id: OrderId|
                    #[trigger] rest.contains_key(id) && rest[id].1 == opposite(left.side) && is_best(
                        rest,
                        opposite(left.side),
                        rest[id].0,
                    ) && orders.contains_key(id) && e1.matching().refuses(left, orders[id]);
                assert(l1.contains_key(w));
                assert(price_cross_decision(left, orders[w]) == Ok::<bool, MatchingPolicyError>(false));
            }
        }
    }

    /// Law: a replace under a new id that trades nothing (it reports the old order
    /// canceled and the new one accepted, and succeeds) leaves the old order out of the
    /// store and the new one in it under the new id, at the new price, with quantity and
    /// leaves both the command's new quantity and nothing executed.
    pub proof fn law_replace_by_new_id_rests_new_order(
        e0: Self,
        e1: Self,
        cmd: ReplaceOrderByNewIdCommand,
        r: Result<()>,
    )
        requires
            e0.wf(),
            e0.bounded(),
            e1.replaced_by_new_id(&e0, cmd, r),
            r is Ok,
            cmd.new_quantity > 0,
            cmd.old_order_id != cmd.new_order_id,
            e0.store().orders().contains_key(cmd.old_order_id),
            e0.store().orders()[cmd.old_order_id].price is Some,
            e1.events() == e0.events().push(Event::Canceled(cmd.old_order_id)).push(Event::Accepted(cmd.new_order_id)),
        ensures
            !e1.store().orders().contains_key(cmd.old_order_id),
            e1.store().orders().contains_key(cmd.new_order_id),
            e1.store().orders()[cmd.new_order_id].quantity == cmd.new_quantity,
            e1.store().orders()[cmd.new_order_id].leaves_quantity == cmd.new_quantity,
            e1.store().orders()[cmd.new_order_id].executed_quantity == 0,
            e1.store().orders()[cmd.new_order_id].price == Some(cmd.new_price),
            e1.store().orders()[cmd.new_order_id].participant_id == e0.store().orders()[cmd.old_order_id].participant_id,
            e1.store().orders()[cmd.new_order_id].side == match cmd.side {
                Some(side) => side,
                None => e0.store().orders()[cmd.old_order_id].side,
            },
            e1.store().orders()[cmd.new_order_id].symbol_id == match cmd.symbol_id {
                Some(symbol) => symbol,
                None => e0.store().orders()[cmd.old_order_id].symbol_id,
            },
            e1.store().orders()[cmd.new_order_id].order_type == OrderType::Limit,
            e1.store().orders()[cmd.new_order_id].time_in_force == TimeInForce::Gtc,
    {
        let o = e0.store().orders()[cmd.old_order_id];
        let fresh = order_replacing_by_new_id(o, cmd, 0);
        let removed = e0.store().orders().remove(cmd.old_order_id);
        let canceled = e0.events().push(Event::Canceled(cmd.old_order_id));
        assert(e1.reentered_from(&e0, cmd.old_order_id, fresh, r));
        let (s, left, t, tail) = choose|s: Sequence, left: Order, t: Seq<Event>, tail: Seq<Event>|
            #[trigger] matching_report(t, tail, with_sequence(fresh, s), left, r, removed, e1.store().orders())
                && e1.events() == canceled + t + tail;
        assert(canceled + t + tail == canceled.push(Event::Accepted(cmd.new_order_id)));
        assert(t + tail =~= seq![Event::Accepted(cmd.new_order_id)]) by {
            assert((canceled + t + tail).subrange(canceled.len() as int, (canceled + t + tail).len() as int) =~= t + tail);
            assert(canceled.push(Event::Accepted(cmd.new_order_id)).subrange(canceled.len() as int, canceled.len() + 1 as int)
                =~= seq![Event::Accepted(cmd.new_order_id)]);
        }
        if t.len() > 0 {
            assert((t + tail)[0] == t[0]);
            assert(t[0] is Trade);
        }
        assert(t =~= Seq::<Event>::empty());
        assert(tail =~= seq![Event::Accepted(cmd.new_order_id)]);
        assert(trade_sum(t) == 0);
        assert(!traded_against(t, cmd.old_order_id));
        assert(e1.store().orders().get(cmd.old_order_id) == removed.get(cmd.old_order_id));
    }

    /// Law: with the price-cross matching policy, every command keeps the book uncrossed
    /// (no resting bid at or above a resting ask), whatever it reports: cancels, reductions
    /// and executions only take orders out, and an order comes to rest only below every
    /// ask (a bid) or above every bid (an ask).
    pub proof fn law_book_stays_uncrossed(e0: Self, e1: Self, cmd: OrderCommand, r: Result<()>)
        requires
            e0.wf(),
            e0.bounded(),
            e1.wf(),
            prices_supported::<PB>(cmd),
            uncrossed(e0.book().locations()),
            e1.processed(&e0, cmd, r),
        ensures
            uncrossed(e1.book().locations()),
    {
        let l0 = e0.book().locations();
        let l1 = e1.book().locations();
        let orders0 = e0.store().orders();
        match cmd {
            OrderCommand::Add(c) => {
                if c.quantity > 0 && price_fits(c.order_type, c.price) && !(r matches Err(Error::Sequence(_))
                    && e1.book() == e0.book()) {
                    let (seq, left, t, tail) = choose|seq: Sequence, left: Order, t: Seq<Event>, tail: Seq<Event>|
                        #[trigger] matching_report(t, tail, order_from_add(c, seq), left, r, orders0, e1.store().orders())
                        && e1.events() == e0.events() + t + tail
                        && (e0.wf() ==> positive_trades(t) && price_ordered(t, opposite(c.side))
                        && hit_side(t, orders0, opposite(c.side)))
                        && (e0.wf() && prices_supported::<PB>(OrderCommand::Add(c)) ==> e1.book_grew_from(l0, left));
                    Self::lemma_grew_uncrossed(e1, l0, left);
                }
            },
            OrderCommand::Replace(c) => {
                if c.new_quantity > 0 && orders0.contains_key(c.order_id) && replace_check(orders0[c.order_id], c) is Ok
                    && orders0[c.order_id].price is Some {
                    let unbooked = l0.remove(c.order_id);
                    assert(within(unbooked, l0));
                    if !(l1 == unbooked) {
                        let fresh = order_replacing(orders0[c.order_id], c, orders0[c.order_id].sequence);
                        let (s, left, t, tail) = choose|s: Sequence, left: Order, t: Seq<Event>, tail: Seq<Event>|
                            #[trigger] matching_report(t, tail, with_sequence(fresh, s), left, r, orders0.remove(c.order_id), e1.store().orders())
                                && e1.events() == e0.events().push(Event::Canceled(c.order_id)) + t + tail && positive_trades(t)
                                && price_ordered(t, opposite(fresh.side)) && hit_side(t, orders0.remove(c.order_id), opposite(fresh.side))
                                && ((fresh.price matches Some(p) ==> PB::supports(p)) ==> e1.book_grew_from(unbooked, left));
                        Self::lemma_grew_uncrossed(e1, unbooked, left);
                    }
                }
            },
            OrderCommand::ReplaceByNewId(c) => {
                if c.new_quantity > 0 && orders0.contains_key(c.old_order_id) && orders0[c.old_order_id].price is Some {
                    let unbooked = l0.remove(c.old_order_id);
                    assert(within(unbooked, l0));
                    if !(l1 == unbooked) {
                        let fresh = order_replacing_by_new_id(orders0[c.old_order_id], c, 0);
                        let (s, left, t, tail) = choose|s: Sequence, left: Order, t: Seq<Event>, tail: Seq<Event>|
                            #[trigger] matching_report(t, tail, with_sequence(fresh, s), left, r, orders0.remove(c.old_order_id), e1.store().orders())
                                && e1.events() == e0.events().push(Event::Canceled(c.old_order_id)) + t + tail && positive_trades(t)
                                && price_ordered(t, opposite(fresh.side)) && hit_side(t, orders0.remove(c.old_order_id), opposite(fresh.side))
                                && ((fresh.price matches Some(p) ==> PB::supports(p)) ==> e1.book_grew_from(unbooked, left));
                        Self::lemma_grew_uncrossed(e1, unbooked, left);
                    }
                }
            },
            _ => {},
        }
    }
}

impl<SG, PB, OS, MP, STP, ES> OrderMatchingService for OrderMatchingEngine<SG, PB, OS, MP, STP, ES> where
    SG: SequenceGenerator,
    PB: PriceBook,
    OS: OrderStore,
    MP: MatchingPolicy,
    STP: SelfTradePolicy,
    ES: EventSink,
 {
    open spec fn inv(&self) -> bool {
        self.bounded()
    }

    open spec fn applied(&self, before: &Self, cmd: OrderCommand, r: Result<()>) -> bool {
        self.processed(before, cmd, r)
    }

    open spec fn admits(cmd: OrderCommand) -> bool {
        match cmd {
            OrderCommand::Add(c) => OS::admits(c.id),
            OrderCommand::ReplaceByNewId(c) => OS::admits(c.new_order_id),
            _ => true,
        }
    }

    fn process(&mut self, cmd: OrderCommand) -> (r: Result<()>)
        ensures
            old(self).wf() && prices_supported::<PB>(cmd) ==> final(self).wf(),
            final(self).same_policies(old(self)),
            final(self).processed(old(self), cmd, r),
    {
        match cmd {
            OrderCommand::Add(c) => self.add(c),
            OrderCommand::Cancel(c) => self.cancel(c),
            OrderCommand::Replace(c) => self.replace(c),
            OrderCommand::CancelByOrderId(c) => self.cancel_by_order_id(c),
            OrderCommand::Reduce(c) => self.reduce(c),
            OrderCommand::Execute(c) => self.execute(c),
            OrderCommand::ReplaceByNewId(c) => self.replace_by_new_id(c),
        }
    }

    fn add(&mut self, cmd: AddOrderCommand) -> (r: Result<()>)
        ensures
            old(self).sink_kept(r),
            final(self).bounded(),
            old(self).wf() && prices_supported::<PB>(OrderCommand::Add(cmd)) ==> final(self).wf(),
            final(self).same_policies(old(self)),
            final(self).added(old(self), cmd, r),
    {
        if cmd.quantity <= 0 {
            return self.emit_rejection(RejectionError::InvalidQuantity);
        }
        match validate_order_price(cmd.order_type, cmd.price) {
            Ok(()) => {},
            Err(e) => {
                return self.emit_rejection(e);
            },
        }
        let ghost start = *self;
        let sequence = match self.sequence_generator.next() {
            Ok(s) => s,
            Err(e) => {
                proof {
                    assert(self.sequencer().drew(&start.sequencer(), Err(e)));
                    lemma_heads_start(start.book(), opposite(cmd.side));
                }
                return Err(Error::Sequence(e));
            },
        };
        let mut incoming = Order {
            symbol_id: cmd.symbol_id,
            id: cmd.id,
            participant_id: cmd.participant_id,
            side: cmd.side,
            order_type: cmd.order_type,
            price: cmd.price,
            quantity: cmd.quantity,
            time_in_force: cmd.time_in_force,
            stop_price: cmd.stop_price,
            max_visible_quantity: cmd.max_visible_quantity,
            slippage: cmd.slippage,
            trailing_distance: cmd.trailing_distance,
            trailing_step: cmd.trailing_step,
            executed_quantity: 0,
            leaves_quantity: cmd.quantity,
            sequence,
        };
        let ghost first = incoming;
        let ghost drawn = *self;
        let r = self.match_and_commit_incoming(&mut incoming);
        proof {
            assert(drawn.sequencer().drew(&start.sequencer(), Ok(sequence)));
            assert(first == order_from_add(cmd, sequence));
            let (t, tail) = choose|t: Seq<Event>, tail: Seq<Event>|
                #[trigger] matching_report(t, tail, first, incoming, r, start.store().orders(), self.store().orders())
                && (exists|gs: Seq<SG>| #[trigger] draws_chain(gs, t) && gs[0] == drawn.sequencer()
                    && (!(r matches Err(Error::Sequence(_))) ==> gs.last() == self.sequencer()))
                && self.events() == start.events() + t + tail
                && (start.wf() ==> positive_trades(t) && price_ordered(t, opposite(first.side))
                && hit_side(t, start.store().orders(), opposite(first.side)));
            assert(matching_report(t, tail, order_from_add(cmd, sequence), incoming, r, start.store().orders(), self.store().orders()));
            if r == Err::<(), Error>(Error::Rejection(RejectionError::SelfTrade)) {
                let (i, o) = choose|i: Order, o: Order| #[trigger] drawn.self_trade().flags(i, o) && i.id == first.id;
                assert(start.self_trade().flags(i, o));
            }
            if let Err(Error::MatchingPolicy(e)) = &r {
                let (i, o) = choose|i: Order, o: Order| #[trigger] drawn.matching().errs(i, o, *e) && i.id == first.id;
                assert(start.matching().errs(i, o, *e));
            }
            if let Err(Error::SelfTradePolicy(e)) = &r {
                let (i, o) = choose|i: Order, o: Order| #[trigger] drawn.self_trade().errs(i, o, *e) && i.id == first.id;
                assert(start.self_trade().errs(i, o, *e));
            }
        }
        r
    }

    fn cancel(&mut self, cmd: CancelOrderCommand) -> (r: Result<()>)
        ensures
            old(self).sink_kept(r),
            old(self).bounded() ==> final(self).bounded(),
            old(self).wf() && old(self).bounded() ==> final(self).wf(),
            final(self).same_policies(old(self)),
            final(self).canceled(old(self), cmd, r),
    {
        let order = match self.order_store.get(&cmd.order_id) {
            Some(o) => o,
            None => {
                return self.emit_rejection(RejectionError::OrderNotFound(cmd.order_id));
            },
        };
        match validate_order_ownership(&order, cmd.participant_id, cmd.sequence) {
            Ok(()) => {},
            Err(e) => {
                return self.emit_rejection(e);
            },
        }
        self.remove_and_report(cmd.order_id)
    }

    fn replace(&mut self, cmd: ReplaceOrderCommand) -> (r: Result<()>)
        ensures
            old(self).sink_kept(r),
            final(self).bounded(),
            old(self).wf() && prices_supported::<PB>(OrderCommand::Replace(cmd)) ==> final(self).wf(),
            final(self).same_policies(old(self)),
            final(self).replaced(old(self), cmd, r),
    {
        if cmd.new_quantity <= 0 {
            return self.emit_rejection(RejectionError::InvalidQuantity);
        }
        let order = match self.order_store.get(&cmd.order_id) {
            Some(o) => o,
            None => {
                return self.emit_rejection(RejectionError::OrderNotFound(cmd.order_id));
            },
        };
        match validate_order_ownership(&order, cmd.participant_id, cmd.sequence) {
            Ok(()) => {},
            Err(e) => {
                return self.emit_rejection(e);
            },
        }
        match validate_order_price(order.order_type, cmd.new_price) {
            Ok(()) => {},
            Err(e) => {
                return self.emit_rejection(e);
            },
        }
        let fresh = Order {
            price: cmd.new_price,
            quantity: cmd.new_quantity,
            executed_quantity: 0,
            leaves_quantity: cmd.new_quantity,
            ..order
        };
        proof {
            assert(fresh == order_replacing(order, cmd, order.sequence));
        }
        self.reenter(cmd.order_id, fresh)
    }

    fn cancel_by_order_id(&mut self, cmd: CancelByOrderIdCommand) -> (r: Result<()>)
        ensures
            old(self).sink_kept(r),
            old(self).bounded() ==> final(self).bounded(),
            old(self).wf() && old(self).bounded() ==> final(self).wf(),
            final(self).same_policies(old(self)),
            final(self).canceled_by_id(old(self), cmd, r),
    {
        if self.order_store.get(&cmd.order_id).is_none() {
            return self.emit_rejection(RejectionError::OrderNotFound(cmd.order_id));
        }
        self.remove_and_report(cmd.order_id)
    }

    fn reduce(&mut self, cmd: ReduceOrderCommand) -> (r: Result<()>)
        ensures
            old(self).sink_kept(r),
            final(self).bounded(),
            old(self).wf() ==> final(self).wf(),
            final(self).same_policies(old(self)),
            final(self).reduced(old(self), cmd, r),
    {
        if cmd.quantity <= 0 {
            return self.emit_rejection(RejectionError::InvalidQuantity);
        }
        let order = match self.order_store.get(&cmd.order_id) {
            Some(o) => o,
            None => {
                return self.emit_rejection(RejectionError::OrderNotFound(cmd.order_id));
            },
        };
        if cmd.quantity >= order.leaves_quantity {
            return self.cancel_by_order_id(CancelByOrderIdCommand { order_id: cmd.order_id });
        }
        let price = match order.price {
            Some(p) => p,
            None => {
                return self.emit_rejection(RejectionError::OrderParameterInvalid);
            },
        };
        let quantity = if order.quantity >= i64::MIN + cmd.quantity {
            order.quantity - cmd.quantity
        } else {
            i64::MIN
        };
        let reduced = Order { quantity, leaves_quantity: order.leaves_quantity - cmd.quantity, ..order };
        self.rest_again(&reduced, price)
    }

    fn execute(&mut self, cmd: ExecuteOrderCommand) -> (r: Result<()>)
        ensures
            old(self).sink_kept(r),
            final(self).bounded(),
            old(self).wf() ==> final(self).wf(),
            final(self).same_policies(old(self)),
            final(self).executed(old(self), cmd, r),
    {
        if cmd.quantity <= 0 {
            return self.emit_rejection(RejectionError::InvalidQuantity);
        }
        let order = match self.order_store.get(&cmd.order_id) {
            Some(o) => o,
            None => {
                return self.emit_rejection(RejectionError::OrderNotFound(cmd.order_id));
            },
        };
        let ghost start = *self;
        let leaves = order.leaves_quantity - cmd.quantity;
        if leaves <= 0 {
            let removed = self.order_store.remove(&order.id);
            self.price_book.remove(&order.id);
            proof {
                lemma_bounded_remove::<OS>(start.store().orders(), order.id);
                if start.wf() {
                    lemma_bms_remove::<PB>(start.book().locations(), start.store().orders(), order.id);
                }
            }
            return match removed {
                Ok(_) => Ok(()),
                Err(e) => Err(Error::OrderStore(e)),
            };
        }
        let price = match order.price {
            Some(p) => p,
            None => {
                return self.emit_rejection(RejectionError::OrderParameterInvalid);
            },
        };
        let filled = Order {
            executed_quantity: order.executed_quantity + cmd.quantity,
            leaves_quantity: leaves,
            ..order
        };
        self.rest_again(&filled, price)
    }

    fn replace_by_new_id(&mut self, cmd: ReplaceOrderByNewIdCommand) -> (r: Result<()>)
        ensures
            old(self).sink_kept(r),
            final(self).bounded(),
            old(self).wf() && PB::supports(cmd.new_price) ==> final(self).wf(),
            final(self).same_policies(old(self)),
            final(self).replaced_by_new_id(old(self), cmd, r),
    {
        if cmd.new_quantity <= 0 {
            return self.emit_rejection(RejectionError::InvalidQuantity);
        }
        let old_order = match self.order_store.get(&cmd.old_order_id) {
            Some(o) => o,
            None => {
                return self.emit_rejection(RejectionError::OrderNotFound(cmd.old_order_id));
            },
        };
        let symbol_id = match cmd.symbol_id {
            Some(s) => s,
            None => old_order.symbol_id,
        };
        let side = match cmd.side {
            Some(s) => s,
            None => old_order.side,
        };
        let fresh = Order {
            symbol_id,
            id: cmd.new_order_id,
            participant_id: old_order.participant_id,
            side,
            order_type: OrderType::Limit,
            price: Some(cmd.new_price),
            quantity: cmd.new_quantity,
            time_in_force: TimeInForce::Gtc,
            executed_quantity: 0,
            leaves_quantity: cmd.new_quantity,
            ..Order::default()
        };
        proof {
            assert(fresh == order_replacing_by_new_id(old_order, cmd, 0));
        }
        self.reenter(cmd.old_order_id, fresh)
    }
}

} // verus!
