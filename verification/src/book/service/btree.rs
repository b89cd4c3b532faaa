//! Sorted-level price book: one list of price levels per side (best bid = highest
//! level, best ask = lowest level), a FIFO queue of ids per level, and an index from
//! order id to its location for removal by id.

use std::collections::HashMap;
use vstd::prelude::*;
use crate::book::{at_least_as_good, best_matches, opposite, PriceBook};
use crate::book::queues::{
    best_in, empty_in, lemma_best_located, lemma_match_push, lemma_match_push_front, lemma_match_same, lemma_match_take,
    queues_match,
};
use crate::book::levels::{LevelList, flat, sorted_levels, lemma_queue_at, lemma_queue_nonempty};
use crate::types::{OrderId, Price, Sequence, Side};

verus! {

broadcast use vstd::std_specs::hash::group_hash_axioms;

/// Price book with bids and asks kept as sorted price levels, FIFO within each level.
#[derive(Debug)]
pub struct BTreeOrderBook {
    bids: LevelList,
    asks: LevelList,
    /// order_id -> (price, side) for remove by id
    index: HashMap<OrderId, (Price, Side)>,
}

impl BTreeOrderBook {
    /// The price levels of `side`.
    pub closed spec fn side_levels(&self, side: Side) -> LevelList {
        match side {
            Side::Buy => self.bids,
            Side::Sell => self.asks,
        }
    }

    /// The FIFO queue of order ids resting at `price` on `side`.
    pub open spec fn queue(&self, side: Side, price: Price) -> Seq<OrderId> {
        self.side_levels(side).queue(price)
    }

    /// `p` is the best price with a non-empty queue on `side`.
    pub open spec fn best_queue(&self, side: Side, p: Price) -> bool {
        best_in(|s: Side, x: Price| self.queue(s, x), side, p)
    }

    /// Every queue on `side` is empty.
    pub open spec fn side_empty(&self, side: Side) -> bool {
        empty_in(|s: Side, x: Price| self.queue(s, x), side)
    }

    /// Creates an empty book.
    pub fn new() -> (r: Self)
        ensures
            r.consistent(),
            r.locations() == Map::<OrderId, (Price, Side)>::empty(),
            r.side_empty(Side::Buy),
            r.side_empty(Side::Sell),
    {
        let r = Self { bids: LevelList::new(), asks: LevelList::new(), index: HashMap::new() };
        assert(r.locations() =~= Map::<OrderId, (Price, Side)>::empty());
        r
    }

    /// Every id queued on `side`, lowest price level first, each level in arrival order.
    pub closed spec fn side_ids(&self, side: Side) -> Seq<OrderId> {
        flat(self.side_levels(side).levels())
    }

    /// The ids queued on `side` (see [`Self::side_ids`]).
    pub fn ids_on(&self, side: Side) -> (r: Vec<OrderId>)
        ensures
            r@ == self.side_ids(side),
    {
        match side {
            Side::Buy => self.bids.all_ids(),
            Side::Sell => self.asks.all_ids(),
        }
    }

    /// The best level on `side`: its price and its queue in arrival order, or `None`
    /// when the side is empty.
    pub fn best_level(&self, side: Side) -> (r: Option<(Price, &Vec<OrderId>)>)
        ensures
            match r {
                Some((p, ids)) => {
                    &&& self.best_queue(side, p)
                    &&& ids@ == self.queue(side, p)
                    &&& self.consistent() ==> best_matches(self.locations(), side, Some(p))
                },
                None => {
                    &&& self.side_empty(side)
                    &&& self.consistent() ==> best_matches(self.locations(), side, None)
                },
            },
    {
        proof {
            use_type_invariant(&self.bids);
            use_type_invariant(&self.asks);
            self.lemma_best(side);
        }
        let levels = match side {
            Side::Buy => &self.bids,
            Side::Sell => &self.asks,
        };
        let n = levels.len();
        if n == 0 {
            proof {
                if self.consistent() {
                    lemma_best_located(self.index@, |s: Side, x: Price| self.queue(s, x), side, None);
                }
            }
            return None;
        }
        let at = match side {
            Side::Buy => n - 1,
            Side::Sell => 0,
        };
        let p = levels.price_at(at);
        let ids = levels.orders_at(at);
        proof {
            lemma_queue_at(levels.levels(), at as int);
            if self.consistent() {
                lemma_best_located(self.index@, |s: Side, x: Price| self.queue(s, x), side, Some(p));
            }
        }
        Some((p, ids))
    }

    /// Takes `id` out of the queue at `price` on `side`, where it rests (its first
    /// occurrence there), and out of the index.
    pub fn take(&mut self, side: Side, price: Price, id: OrderId)
        requires
            old(self).queue(side, price).contains(id),
        ensures
            final(self).size() < old(self).size(),
            final(self).locations() == old(self).locations().remove(id),
            exists|k: int|
                {
                    &&& 0 <= k < old(self).queue(side, price).len()
                    &&& #[trigger] old(self).queue(side, price)[k] == id
                    &&& (forall|j: int| 0 <= j < k ==> old(self).queue(side, price)[j] != id)
                    &&& final(self).queue(side, price) == old(self).queue(side, price).remove(k)
                },
            forall|s: Side, q: Price|
                (s, q) != (side, price) ==> #[trigger] final(self).queue(s, q) == old(self).queue(s, q),
            old(self).consistent() ==> final(self).consistent() && old(self).locations().contains_key(id)
                && old(self).locations()[id] == (price, side),
    {
        let ghost pre = *self;
        self.index.remove(&id);
        match side {
            Side::Buy => {
                self.bids.remove_id(price, id);
            },
            Side::Sell => {
                self.asks.remove_id(price, id);
            },
        }
        proof {
            assert forall|s: Side, q: Price| (s, q) != (side, price) implies #[trigger] self.queue(s, q)
                == pre.queue(s, q) by {
                if s == side {
                    assert(q != price);
                }
            }
            if pre.consistent() {
                let k = choose|k: int|
                    {
                        &&& 0 <= k < pre.queue(side, price).len()
                        &&& #[trigger] pre.queue(side, price)[k] == id
                        &&& (forall|j: int| 0 <= j < k ==> pre.queue(side, price)[j] != id)
                        &&& self.queue(side, price) == pre.queue(side, price).remove(k)
                    };
                lemma_match_take(
                    pre.index@,
                    self.index@,
                    |s: Side, x: Price| pre.queue(s, x),
                    |s: Side, x: Price| self.queue(s, x),
                    side,
                    price,
                    k,
                );
            }
        }
    }

    /// The best level on a side is its last (bids) or first (asks) level.
    proof fn lemma_best(&self, side: Side)
        requires
            self.bids.inv(),
            self.asks.inv(),
        ensures
            self.side_levels(side).levels().len() > 0 ==> self.best_queue(
                side,
                self.side_levels(side).levels()[match side {
                    Side::Buy => self.side_levels(side).levels().len() - 1,
                    Side::Sell => 0,
                }].price,
            ),
            self.side_levels(side).levels().len() == 0 ==> self.side_empty(side),
    {
        let s = self.side_levels(side).levels();
        if s.len() > 0 {
            let t = match side {
                Side::Buy => s.len() - 1,
                Side::Sell => 0,
            };
            lemma_queue_at(s, t);
            assert forall|q: Price| #[trigger] self.queue(side, q).len() > 0 implies at_least_as_good(
                side,
                s[t].price,
                q,
            ) by {
                lemma_queue_nonempty(s, q);
                let j = choose|j: int| 0 <= j < s.len() && #[trigger] s[j].price == q;
                if j != t {
                    assert(s[j].price < s[t].price || s[t].price < s[j].price);
                }
            }
        } else {
            assert forall|q: Price| #[trigger] self.queue(side, q).len() == 0 by {
                lemma_queue_nonempty(s, q);
            }
        }
    }
}

impl PriceBook for BTreeOrderBook {
    closed spec fn locations(&self) -> Map<OrderId, (Price, Side)> {
        self.index@
    }

    closed spec fn consistent(&self) -> bool {
        queues_match(self.index@, |s: Side, x: Price| self.queue(s, x))
    }

    open spec fn supports(price: Price) -> bool {
        true
    }

    open spec fn fifo(&self) -> bool {
        true
    }

    open spec fn level_queue(&self, side: Side, price: Price) -> Seq<OrderId> {
        self.queue(side, price)
    }

    closed spec fn size(&self) -> nat {
        self.bids.size() + self.asks.size()
    }

    fn best_bid(&self) -> (r: Option<Price>)
        ensures
            match r {
                Some(p) => self.best_queue(Side::Buy, p),
                None => self.side_empty(Side::Buy),
            },
    {
        proof {
            use_type_invariant(&self.bids);
            use_type_invariant(&self.asks);
            self.lemma_best(Side::Buy);
        }
        let n = self.bids.len();
        let r = if n == 0 {
            None
        } else {
            Some(self.bids.price_at(n - 1))
        };
        proof {
            if self.consistent() {
                lemma_best_located(self.index@, |s: Side, x: Price| self.queue(s, x), Side::Buy, r);
            }
        }
        r
    }

    fn best_ask(&self) -> (r: Option<Price>)
        ensures
            match r {
                Some(p) => self.best_queue(Side::Sell, p),
                None => self.side_empty(Side::Sell),
            },
    {
        proof {
            use_type_invariant(&self.bids);
            use_type_invariant(&self.asks);
            self.lemma_best(Side::Sell);
        }
        let r = if self.asks.len() == 0 {
            None
        } else {
            Some(self.asks.price_at(0))
        };
        proof {
            if self.consistent() {
                lemma_best_located(self.index@, |s: Side, x: Price| self.queue(s, x), Side::Sell, r);
            }
        }
        r
    }

    fn push(&mut self, price: &Price, order_id: OrderId, side: Side, _time_priority: Sequence)
        ensures
            final(self).locations() == old(self).locations().insert(order_id, (*price, side)),
            final(self).queue(side, *price) == old(self).queue(side, *price).push(order_id),
            forall|s: Side, q: Price|
                (s, q) != (side, *price) ==> #[trigger] final(self).queue(s, q) == old(self).queue(
                    s,
                    q,
                ),
    {
        let ghost pre = *self;
        self.index.insert(order_id, (*price, side));
        match side {
            Side::Buy => self.bids.push(*price, order_id),
            Side::Sell => self.asks.push(*price, order_id),
        }
        proof {
            if pre.consistent() && !pre.locations().contains_key(order_id) {
                lemma_match_push(
                    pre.index@,
                    self.index@,
                    |s: Side, x: Price| pre.queue(s, x),
                    |s: Side, x: Price| self.queue(s, x),
                    side,
                    *price,
                    order_id,
                );
            }
        }
    }

    fn push_front(&mut self, price: &Price, order_id: OrderId, side: Side, _time_priority: Sequence)
        ensures
            final(self).locations() == old(self).locations().insert(order_id, (*price, side)),
            final(self).queue(side, *price) == seq![order_id] + old(self).queue(side, *price),
            forall|s: Side, q: Price|
                (s, q) != (side, *price) ==> #[trigger] final(self).queue(s, q) == old(self).queue(
                    s,
                    q,
                ),
    {
        let ghost pre = *self;
        self.index.insert(order_id, (*price, side));
        match side {
            Side::Buy => self.bids.push_front(*price, order_id),
            Side::Sell => self.asks.push_front(*price, order_id),
        }
        proof {
            if pre.consistent() && !pre.locations().contains_key(order_id) {
                lemma_match_push_front(
                    pre.index@,
                    self.index@,
                    |s: Side, x: Price| pre.queue(s, x),
                    |s: Side, x: Price| self.queue(s, x),
                    side,
                    *price,
                    order_id,
                );
            }
        }
    }

    fn pop_best(&mut self, side: Side) -> (r: Option<OrderId>)
        ensures
            r is None <==> old(self).side_empty(opposite(side)),
            r is None ==> final(self).locations() == old(self).locations() && forall|s: Side, q: Price|
                #[trigger] final(self).queue(s, q) == old(self).queue(s, q),
            r matches Some(id) ==> exists|p: Price|
                {
                    &&& old(self).best_queue(opposite(side), p)
                    &&& id == old(self).queue(opposite(side), p)[0]
                    &&& #[trigger] final(self).queue(opposite(side), p) == old(self).queue(
                        opposite(side),
                        p,
                    ).drop_first()
                    &&& forall|s: Side, q: Price|
                        (s, q) != (opposite(side), p) ==> #[trigger] final(self).queue(s, q)
                            == old(self).queue(s, q)
                },
            r matches Some(id) ==> final(self).locations() == old(self).locations().remove(id),
    {
        let ghost pre = *self;
        proof {
            use_type_invariant(&self.bids);
            use_type_invariant(&self.asks);
            self.lemma_best(opposite(side));
        }
        let opp = match side {
            Side::Buy => Side::Sell,
            Side::Sell => Side::Buy,
        };
        let (id, p) = match side {
            Side::Buy => {
                if self.asks.len() == 0 {
                    return None;
                }
                let p = self.asks.price_at(0);
                proof {
                    lemma_queue_at(self.asks.levels(), 0);
                }
                let id = self.asks.pop_front_at(0);
                proof {
                    assert(self.asks.size() + 1 == pre.asks.size());
                    assert(self.bids == pre.bids);
                }
                (id, p)
            },
            Side::Sell => {
                let n = self.bids.len();
                if n == 0 {
                    return None;
                }
                let p = self.bids.price_at(n - 1);
                proof {
                    lemma_queue_at(self.bids.levels(), n - 1);
                }
                let id = self.bids.pop_front_at(n - 1);
                proof {
                    assert(self.bids.size() + 1 == pre.bids.size());
                    assert(self.asks == pre.asks);
                }
                (id, p)
            },
        };
        self.index.remove(&id);
        proof {
            assert(self.bids.size() + self.asks.size() < pre.bids.size() + pre.asks.size());
            assert(self.size() < pre.size());
            assert(pre.best_queue(opp, p));
            assert(self.queue(opp, p) == pre.queue(opp, p).drop_first());
            assert forall|s: Side, q: Price| (s, q) != (opp, p) implies #[trigger] self.queue(s, q)
                == pre.queue(s, q) by {
                if s == opp {
                    assert(q != p);
                }
            }
            if pre.consistent() {
                assert(pre.queue(opp, p).drop_first() =~= pre.queue(opp, p).remove(0));
                lemma_match_take(
                    pre.index@,
                    self.index@,
                    |s: Side, x: Price| pre.queue(s, x),
                    |s: Side, x: Price| self.queue(s, x),
                    opp,
                    p,
                    0,
                );
                lemma_best_located(pre.index@, |s: Side, x: Price| pre.queue(s, x), opp, Some(p));
            }
        }
        Some(id)
    }

    fn remove(&mut self, order_id: &OrderId) -> (r: bool)
        ensures
            final(self).locations() == old(self).locations().remove(*order_id),
            r == (old(self).locations().contains_key(*order_id) && old(self).queue(
                old(self).locations()[*order_id].1,
                old(self).locations()[*order_id].0,
            ).contains(*order_id)),
            !r ==> forall|s: Side, q: Price| #[trigger] final(self).queue(s, q) == old(self).queue(s, q),
            r ==> exists|k: int|
                {
                    &&& 0 <= k < old(self).queue(old(self).locations()[*order_id].1, old(self).locations()[*order_id].0).len()
                    &&& #[trigger] old(self).queue(old(self).locations()[*order_id].1, old(self).locations()[*order_id].0)[k] == *order_id
                    &&& (forall|j: int| 0 <= j < k ==> old(self).queue(old(self).locations()[*order_id].1, old(self).locations()[*order_id].0)[j] != *order_id)
                    &&& final(self).queue(old(self).locations()[*order_id].1, old(self).locations()[*order_id].0) == old(self).queue(old(self).locations()[*order_id].1, old(self).locations()[*order_id].0).remove(k)
                    &&& forall|s: Side, q: Price|
                        (s, q) != (old(self).locations()[*order_id].1, old(self).locations()[*order_id].0) ==> #[trigger] final(self).queue(s, q) == old(self).queue(s, q)
                },
    {
        let ghost pre = *self;
        let r = match self.index.remove(order_id) {
            None => false,
            Some((price, side)) => match side {
                Side::Buy => self.bids.remove_id(price, *order_id),
                Side::Sell => self.asks.remove_id(price, *order_id),
            },
        };
        proof {
            if pre.consistent() {
                if pre.locations().contains_key(*order_id) {
                    let (p, s0) = pre.locations()[*order_id];
                    assert(pre.queue(s0, p).contains(*order_id));
                    let k = choose|k: int|
                        {
                            &&& 0 <= k < pre.queue(s0, p).len()
                            &&& #[trigger] pre.queue(s0, p)[k] == *order_id
                            &&& (forall|j: int| 0 <= j < k ==> pre.queue(s0, p)[j] != *order_id)
                            &&& self.queue(s0, p) == pre.queue(s0, p).remove(k)
                            &&& forall|s: Side, q: Price|
                                (s, q) != (s0, p) ==> #[trigger] self.queue(s, q) == pre.queue(s, q)
                        };
                    lemma_match_take(
                        pre.index@,
                        self.index@,
                        |s: Side, x: Price| pre.queue(s, x),
                        |s: Side, x: Price| self.queue(s, x),
                        s0,
                        p,
                        k,
                    );
                    assert(self.consistent());
                } else {
                    assert(self.locations() =~= pre.locations());
                    lemma_match_same(
                        pre.index@,
                        self.index@,
                        |s: Side, x: Price| pre.queue(s, x),
                        |s: Side, x: Price| self.queue(s, x),
                    );
                }
            }
        }
        r
    }
}

impl Default for BTreeOrderBook {
    /// Same as [`BTreeOrderBook::new`].
    fn default() -> (r: Self)
        ensures
            r.consistent(),
            r.locations() == Map::<OrderId, (Price, Side)>::empty(),
            r.side_empty(Side::Buy),
            r.side_empty(Side::Sell),
    {
        Self::new()
    }
}

} // verus!
