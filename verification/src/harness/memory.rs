//! In-memory price book and order store for harness engines.

use std::collections::HashMap;
use vstd::prelude::*;
use crate::book::{at_least_as_good, opposite, PriceBook};
use crate::book::service::BTreeOrderBook;
use crate::store::{OrderStore, OrderStoreError};
use crate::types::{Order, OrderId, Price, Quantity, Sequence, Side};

verus! {

broadcast use vstd::std_specs::hash::group_hash_axioms;

/// In-memory order store keyed by order id.
#[derive(Debug)]
pub struct InMemoryOrderStore {
    map: HashMap<OrderId, Order>,
}

impl InMemoryOrderStore {
    /// Creates an empty store.
    pub fn new() -> (r: Self)
        ensures
            r.orders() == Map::<OrderId, Order>::empty(),
    {
        Self { map: HashMap::new() }
    }
}

impl OrderStore for InMemoryOrderStore {
    closed spec fn orders(&self) -> Map<OrderId, Order> {
        self.map@
    }

    open spec fn admits(order_id: OrderId) -> bool {
        true
    }

    fn insert(&mut self, order: &Order) -> (r: Result<(), OrderStoreError>) {
        if self.map.contains_key(&order.id) {
            return Err(OrderStoreError::AlreadyExists(order.id));
        }
        self.map.insert(order.id, *order);
        Ok(())
    }

    fn remove(&mut self, order_id: &OrderId) -> (r: Result<Order, OrderStoreError>) {
        match self.map.remove(order_id) {
            Some(o) => Ok(o),
            None => Err(OrderStoreError::NotFound(*order_id)),
        }
    }

    fn get(&self, order_id: &OrderId) -> (r: Option<Order>) {
        match self.map.get(order_id) {
            Some(o) => Some(*o),
            None => None,
        }
    }
}


/// The time priority recorded for `id`, or `u64::MAX` when none is recorded.
pub open spec fn priority_of(priorities: Map<OrderId, Sequence>, id: OrderId) -> Sequence {
    if priorities.contains_key(id) {
        priorities[id]
    } else {
        u64::MAX
    }
}

/// Sum of resolved quantities, where an id that resolves to `None` adds nothing.
pub open spec fn resolved_sum(qs: Seq<Option<Quantity>>) -> int
    decreases qs.len(),
{
    if qs.len() == 0 {
        0
    } else {
        resolved_sum(qs.drop_last()) + match qs.last() {
            Some(q) => q as int,
            None => 0int,
        }
    }
}

/// Entry by entry, `qs` is a reply that `resolve` may give for the first `qs.len()` ids.
pub open spec fn possible_replies<F: Fn(OrderId) -> Option<Quantity>>(
    resolve: F,
    ids: Seq<OrderId>,
    qs: Seq<Option<Quantity>>,
) -> bool {
    &&& qs.len() <= ids.len()
    &&& forall|i: int| 0 <= i < qs.len() ==> call_ensures(resolve, (ids[i],), #[trigger] qs[i])
}

/// Every partial sum of possible replies for `ids` fits a quantity.
pub open spec fn sums_fit<F: Fn(OrderId) -> Option<Quantity>>(resolve: F, ids: Seq<OrderId>) -> bool {
    forall|qs: Seq<Option<Quantity>>|
        #[trigger] possible_replies(resolve, ids, qs) ==> i64::MIN <= resolved_sum(qs) <= i64::MAX
}

/// Sums the replies of `resolve` for `ids`, in order.
fn resolve_sum<F>(ids: &Vec<OrderId>, resolve: &F) -> (r: (Quantity, Ghost<Seq<Option<Quantity>>>))
    where
        F: Fn(OrderId) -> Option<Quantity>,
    requires
        forall|id: OrderId| call_requires(*resolve, (id,)),
        sums_fit(*resolve, ids@),
    ensures
        r.1@.len() == ids@.len(),
        possible_replies(*resolve, ids@, r.1@),
        r.0 == resolved_sum(r.1@),
{
    let mut sum: Quantity = 0;
    let ghost mut qs: Seq<Option<Quantity>> = Seq::empty();
    let mut i: usize = 0;
    while i < ids.len()
        invariant
            i <= ids@.len(),
            qs.len() == i,
            forall|id: OrderId| call_requires(*resolve, (id,)),
            sums_fit(*resolve, ids@),
            possible_replies(*resolve, ids@, qs),
            sum == resolved_sum(qs),
        decreases ids@.len() - i,
    {
        let q = resolve(ids[i]);
        proof {
            let next = qs.push(q);
            assert(next.drop_last() == qs);
            assert(possible_replies(*resolve, ids@, next));
            qs = next;
        }
        match q {
            Some(v) => {
                sum = sum + v;
            },
            None => {},
        }
        i += 1;
    }
    (sum, Ghost(qs))
}

/// In-memory price book: sorted price levels per side; within the best level the order
/// with the smallest time priority (the first such in arrival order) is matched first.
#[derive(Debug)]
pub struct InMemoryPriceBook {
    levels: BTreeOrderBook,
    priority: HashMap<OrderId, Sequence>,
}

impl InMemoryPriceBook {
    /// The order ids queued at `price` on `side`, in arrival order.
    pub closed spec fn queue(&self, side: Side, price: Price) -> Seq<OrderId> {
        self.levels.queue(side, price)
    }

    /// The time priority each pushed order was given.
    pub closed spec fn time_priorities(&self) -> Map<OrderId, Sequence> {
        self.priority@
    }

    /// `p` is the best price with a non-empty queue on `side`.
    pub open spec fn best_queue(&self, side: Side, p: Price) -> bool {
        &&& self.queue(side, p).len() > 0
        &&& forall|q: Price| #[trigger] self.queue(side, q).len() > 0 ==> at_least_as_good(side, p, q)
    }

    /// Every queue on `side` is empty.
    pub open spec fn side_empty(&self, side: Side) -> bool {
        forall|q: Price| #[trigger] self.queue(side, q).len() == 0
    }

    /// Best and empty queues of this book are those of its levels.
    proof fn lemma_levels_best(&self, side: Side)
        ensures
            forall|p: Price| #[trigger] self.best_queue(side, p) <==> self.levels.best_queue(side, p),
            self.side_empty(side) <==> self.levels.side_empty(side),
    {
        let q = |s: Side, x: Price| self.levels.queue(s, x);
        assert forall|p: Price| #[trigger] self.best_queue(side, p) <==> self.levels.best_queue(side, p) by {
            if self.levels.best_queue(side, p) {
                assert forall|x: Price| #[trigger] self.queue(side, x).len() > 0 implies at_least_as_good(side, p, x) by {
                    assert(q(side, x).len() > 0);
                }
            }
            if self.best_queue(side, p) {
                assert(q(side, p).len() > 0);
                assert forall|x: Price| #[trigger] q(side, x).len() > 0 implies at_least_as_good(side, p, x) by {
                    assert(self.queue(side, x).len() > 0);
                }
            }
        }
        if self.levels.side_empty(side) {
            assert forall|x: Price| #[trigger] self.queue(side, x).len() == 0 by {
                assert(q(side, x).len() == 0);
            }
        }
        if self.side_empty(side) {
            assert forall|x: Price| #[trigger] q(side, x).len() == 0 by {
                assert(self.queue(side, x).len() == 0);
            }
        }
    }

    /// Creates an empty book.
    pub fn new() -> (r: Self)
        ensures
            r.consistent(),
            r.locations() == Map::<OrderId, (Price, Side)>::empty(),
            r.time_priorities() == Map::<OrderId, Sequence>::empty(),
            r.side_empty(Side::Buy),
            r.side_empty(Side::Sell),
    {
        let r = Self { levels: BTreeOrderBook::new(), priority: HashMap::new() };
        proof {
            r.lemma_levels_best(Side::Buy);
            r.lemma_levels_best(Side::Sell);
        }
        r
    }

    /// Every id queued on `side`, lowest price level first, each level in arrival order.
    pub closed spec fn side_ids(&self, side: Side) -> Seq<OrderId> {
        self.levels.side_ids(side)
    }

    /// Sum of the quantities that `resolve` (usually a lookup in the order store) gives
    /// for the ids queued in the book; ids it resolves to `None` count for nothing.
    pub fn total_depth<F>(&self, resolve: F) -> (r: Quantity)
        where
            F: Fn(OrderId) -> Option<Quantity>,
        requires
            forall|id: OrderId| call_requires(resolve, (id,)),
            sums_fit(resolve, self.side_ids(Side::Buy)),
            sums_fit(resolve, self.side_ids(Side::Sell)),
            forall|qb: Seq<Option<Quantity>>, qa: Seq<Option<Quantity>>|
                qb.len() == self.side_ids(Side::Buy).len() && qa.len() == self.side_ids(Side::Sell).len()
                    && #[trigger] possible_replies(resolve, self.side_ids(Side::Buy), qb)
                    && #[trigger] possible_replies(resolve, self.side_ids(Side::Sell), qa)
                    ==> i64::MIN <= resolved_sum(qb) + resolved_sum(qa) <= i64::MAX,
        ensures
            exists|qb: Seq<Option<Quantity>>, qa: Seq<Option<Quantity>>|
                {
                    &&& qb.len() == self.side_ids(Side::Buy).len()
                    &&& qa.len() == self.side_ids(Side::Sell).len()
                    &&& #[trigger] possible_replies(resolve, self.side_ids(Side::Buy), qb)
                    &&& #[trigger] possible_replies(resolve, self.side_ids(Side::Sell), qa)
                    &&& r == resolved_sum(qb) + resolved_sum(qa)
                },
    {
        let bid_ids = self.levels.ids_on(Side::Buy);
        let ask_ids = self.levels.ids_on(Side::Sell);
        let (bid_qty, Ghost(qb)) = resolve_sum(&bid_ids, &resolve);
        let (ask_qty, Ghost(qa)) = resolve_sum(&ask_ids, &resolve);
        bid_qty + ask_qty
    }

    fn priority_in(priority: &HashMap<OrderId, Sequence>, id: OrderId) -> (r: Sequence)
        ensures
            r == priority_of(priority@, id),
    {
        match priority.get(&id) {
            Some(s) => *s,
            None => u64::MAX,
        }
    }
}

impl PriceBook for InMemoryPriceBook {
    closed spec fn locations(&self) -> Map<OrderId, (Price, Side)> {
        self.levels.locations()
    }

    closed spec fn consistent(&self) -> bool {
        &&& self.levels.consistent()
        &&& forall|id: OrderId| #[trigger]
            self.levels.locations().contains_key(id) ==> self.priority@.contains_key(id)
    }

    open spec fn supports(price: Price) -> bool {
        true
    }

    closed spec fn size(&self) -> nat {
        self.levels.size()
    }

    fn best_bid(&self) -> (r: Option<Price>)
        ensures
            match r {
                Some(p) => self.best_queue(Side::Buy, p),
                None => self.side_empty(Side::Buy),
            },
    {
        proof {
            self.lemma_levels_best(Side::Buy);
        }
        self.levels.best_bid()
    }

    fn best_ask(&self) -> (r: Option<Price>)
        ensures
            match r {
                Some(p) => self.best_queue(Side::Sell, p),
                None => self.side_empty(Side::Sell),
            },
    {
        proof {
            self.lemma_levels_best(Side::Sell);
        }
        self.levels.best_ask()
    }

    /// Queues the order as [`Self::push`] does: this book orders each level by time
    /// priority, so the order's own priority puts it back ahead of later arrivals.
    fn push_front(&mut self, price: &Price, order_id: OrderId, side: Side, time_priority: Sequence)
        ensures
            final(self).locations() == old(self).locations().insert(order_id, (*price, side)),
            final(self).time_priorities() == old(self).time_priorities().insert(order_id, time_priority),
    {
        self.push(price, order_id, side, time_priority)
    }

    fn push(&mut self, price: &Price, order_id: OrderId, side: Side, time_priority: Sequence)
        ensures
            final(self).locations() == old(self).locations().insert(order_id, (*price, side)),
            final(self).time_priorities() == old(self).time_priorities().insert(order_id, time_priority),
            final(self).queue(side, *price) == old(self).queue(side, *price).push(order_id),
            forall|s: Side, q: Price|
                (s, q) != (side, *price) ==> #[trigger] final(self).queue(s, q) == old(self).queue(
                    s,
                    q,
                ),
    {
        self.priority.insert(order_id, time_priority);
        self.levels.push(price, order_id, side, time_priority);
    }

    fn pop_best(&mut self, side: Side) -> (r: Option<OrderId>)
        ensures
            r is None <==> old(self).side_empty(opposite(side)),
            r is None ==> final(self).locations() == old(self).locations() && final(self).time_priorities()
                == old(self).time_priorities() && forall|s: Side, q: Price|
                #[trigger] final(self).queue(s, q) == old(self).queue(s, q),
            r matches Some(id) ==> exists|p: Price, k: int|
                {
                    &&& old(self).best_queue(opposite(side), p)
                    &&& 0 <= k < old(self).queue(opposite(side), p).len()
                    &&& #[trigger] old(self).queue(opposite(side), p)[k] == id
                    &&& forall|j: int|
                        0 <= j < old(self).queue(opposite(side), p).len() ==> priority_of(
                            old(self).time_priorities(),
                            id,
                        ) <= priority_of(old(self).time_priorities(), old(self).queue(opposite(side), p)[j])
                    &&& forall|j: int|
                        0 <= j < k ==> priority_of(old(self).time_priorities(), id) < priority_of(
                            old(self).time_priorities(),
                            old(self).queue(opposite(side), p)[j],
                        )
                    &&& final(self).queue(opposite(side), p) == old(self).queue(opposite(side), p).remove(k)
                    &&& forall|s: Side, q: Price|
                        (s, q) != (opposite(side), p) ==> #[trigger] final(self).queue(s, q)
                            == old(self).queue(s, q)
                },
            r matches Some(id) ==> final(self).locations() == old(self).locations().remove(id)
                && final(self).time_priorities() == old(self).time_priorities().remove(id),
    {
        let ghost pre = *self;
        let opp = match side {
            Side::Buy => Side::Sell,
            Side::Sell => Side::Buy,
        };
        proof {
            pre.lemma_levels_best(opp);
        }
        let (p, best, id) = match self.levels.best_level(opp) {
            None => {
                return None;
            },
            Some((p, ids)) => {
                let ghost pri = self.priority@;
                let mut best: usize = 0;
                let mut best_seq = Self::priority_in(&self.priority, ids[0]);
                let mut i: usize = 1;
                while i < ids.len()
                    invariant
                        1 <= i <= ids.len(),
                        best < i,
                        pri == self.priority@,
                        best_seq == priority_of(pri, ids@[best as int]),
                        forall|j: int| 0 <= j < i ==> best_seq <= priority_of(pri, #[trigger] ids@[j]),
                        forall|j: int| 0 <= j < best ==> best_seq < priority_of(pri, #[trigger] ids@[j]),
                    decreases ids.len() - i,
                {
                    let s = Self::priority_in(&self.priority, ids[i]);
                    if s < best_seq {
                        best = i;
                        best_seq = s;
                    }
                    i += 1;
                }
                (p, best, ids[best])
            },
        };
        proof {
            assert(pre.levels.queue(opp, p)[best as int] == id);
        }
        self.levels.take(opp, p, id);
        self.priority.remove(&id);
        proof {
            let q0 = pre.levels.queue(opp, p);
            let k = choose|k: int|
                {
                    &&& 0 <= k < q0.len()
                    &&& #[trigger] q0[k] == id
                    &&& (forall|j: int| 0 <= j < k ==> q0[j] != id)
                    &&& self.levels.queue(opp, p) == q0.remove(k)
                };
            if k < best {
                assert(priority_of(pre.priority@, id) < priority_of(pre.priority@, q0[k]));
            }
            if best < k {
                assert(q0[best as int] == id);
            }
            assert(k == best);
            assert(pre.queue(opp, p)[k] == id);
            assert(pre.queue(opp, p).len() > 0);
            assert(!pre.side_empty(opp));
            assert(pre.best_queue(opp, p));
            assert forall|s: Side, q: Price| (s, q) != (opp, p) implies #[trigger] self.queue(s, q)
                == pre.queue(s, q) by {}
            if pre.consistent() {
                assert forall|id2: OrderId| #[trigger] self.levels.locations().contains_key(id2)
                    implies self.priority@.contains_key(id2) by {
                    assert(pre.levels.locations().contains_key(id2));
                }
            }
        }
        Some(id)
    }

    fn remove(&mut self, order_id: &OrderId) -> (r: bool)
        ensures
            final(self).locations() == old(self).locations().remove(*order_id),
            final(self).time_priorities() == old(self).time_priorities().remove(*order_id),
    {
        let ghost pre = *self;
        let r = self.levels.remove(order_id);
        self.priority.remove(order_id);
        proof {
            if pre.consistent() {
                assert forall|id2: OrderId| #[trigger] self.levels.locations().contains_key(id2)
                    implies self.priority@.contains_key(id2) by {
                    assert(pre.levels.locations().contains_key(id2));
                }
            }
        }
        r
    }
}

impl Default for InMemoryOrderStore {
    /// Same as [`InMemoryOrderStore::new`].
    fn default() -> (r: Self)
        ensures
            r.orders() == Map::<OrderId, Order>::empty(),
    {
        Self::new()
    }
}

impl Default for InMemoryPriceBook {
    /// Same as [`InMemoryPriceBook::new`].
    fn default() -> (r: Self)
        ensures
            r.consistent(),
            r.locations() == Map::<OrderId, (Price, Side)>::empty(),
            r.time_priorities() == Map::<OrderId, Sequence>::empty(),
            r.side_empty(Side::Buy),
            r.side_empty(Side::Sell),
    {
        Self::new()
    }
}

} // verus!
