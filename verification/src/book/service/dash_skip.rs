//! Price book over concurrent maps: per side, a skip map of the prices that have a level
//! (for best-price queries) and a dash map from each such price to its FIFO queue of
//! order ids, plus an index from order id to its location for removal by id. The book
//! itself stays single-writer (`&mut self`).

use std::collections::HashMap;
use crossbeam_skiplist::SkipMap;
use dashmap::DashMap;
use vstd::prelude::*;
use crate::book::{at_least_as_good, opposite, PriceBook};
use crate::book::queues::{
    best_in, empty_in, lemma_best_located, lemma_match_push, lemma_match_push_front, lemma_match_same, lemma_match_take,
    queues_match,
};
use super::level_maps::{
    dash_insert, dash_new, dash_queues, dash_remove, skip_back, skip_front, skip_insert, skip_new,
    skip_prices, skip_remove,
};
use crate::types::{OrderId, Price, Sequence, Side};

verus! {

broadcast use vstd::std_specs::hash::group_hash_axioms;

/// Number of ids queued at the prices of `order`.
pub open spec fn queued_count(queues: Map<Price, Seq<OrderId>>, order: Seq<Price>) -> nat
    decreases order.len(),
{
    if order.len() == 0 {
        0
    } else {
        queued_count(queues, order.drop_last()) + queues[order.last()].len()
    }
}

proof fn lemma_count_same(a: Map<Price, Seq<OrderId>>, b: Map<Price, Seq<OrderId>>, order: Seq<Price>)
    requires
        forall|i: int| 0 <= i < order.len() ==> a[#[trigger] order[i]].len() == b[order[i]].len(),
    ensures
        queued_count(a, order) == queued_count(b, order),
    decreases order.len(),
{
    if order.len() > 0 {
        let rest = order.drop_last();
        assert forall|i: int| 0 <= i < rest.len() implies a[#[trigger] rest[i]].len() == b[rest[i]].len() by {
            assert(rest[i] == order[i]);
        }
        lemma_count_same(a, b, rest);
        assert(order.last() == order[order.len() - 1]);
    }
}

proof fn lemma_count_update(queues: Map<Price, Seq<OrderId>>, order: Seq<Price>, p: Price, s: Seq<OrderId>)
    requires
        order.no_duplicates(),
        order.contains(p),
    ensures
        queued_count(queues.insert(p, s), order) + queues[p].len() == queued_count(queues, order) + s.len(),
    decreases order.len(),
{
    let rest = order.drop_last();
    if order.last() == p {
        assert forall|i: int| 0 <= i < rest.len() implies queues.insert(p, s)[#[trigger] rest[i]].len()
            == queues[rest[i]].len() by {
            assert(rest[i] == order[i]);
            assert(order[i] != order[order.len() - 1]);
        }
        lemma_count_same(queues.insert(p, s), queues, rest);
    } else {
        let j = choose|j: int| 0 <= j < order.len() && order[j] == p;
        assert(j != order.len() - 1);
        assert(rest[j] == p);
        lemma_count_update(queues, rest, p, s);
    }
}

proof fn lemma_count_remove(queues: Map<Price, Seq<OrderId>>, order: Seq<Price>, j: int)
    requires
        order.no_duplicates(),
        0 <= j < order.len(),
    ensures
        queued_count(queues.remove(order[j]), order.remove(j)) + queues[order[j]].len() == queued_count(
            queues,
            order,
        ),
    decreases order.len(),
{
    let p = order[j];
    let rest = order.drop_last();
    if j == order.len() - 1 {
        assert(order.remove(j) =~= rest);
        assert forall|i: int| 0 <= i < rest.len() implies queues.remove(p)[#[trigger] rest[i]].len()
            == queues[rest[i]].len() by {
            assert(rest[i] == order[i]);
            assert(order[i] != order[j]);
        }
        lemma_count_same(queues.remove(p), queues, rest);
    } else {
        let shorter = order.remove(j);
        assert(shorter.drop_last() =~= rest.remove(j));
        assert(shorter.last() == order.last());
        assert(order.last() != p);
        assert(rest[j] == p);
        lemma_count_remove(queues, rest, j);
    }
}

/// The maps of one side: the prices that have a level, and each level's FIFO queue.
struct Levels {
    prices: SkipMap<Price, ()>,
    levels: DashMap<Price, Vec<OrderId>>,
    /// The prices that have a level, each once (what the side's size is counted over).
    order: Ghost<Seq<Price>>,
}

impl Levels {
    spec fn queues(&self) -> Map<Price, Seq<OrderId>> {
        dash_queues(self.levels)
    }

    /// The queue at `p` (empty when `p` has no level).
    spec fn queue(&self, p: Price) -> Seq<OrderId> {
        if self.queues().contains_key(p) {
            self.queues()[p]
        } else {
            Seq::empty()
        }
    }

    /// The skip map holds exactly the prices of the levels, no level is empty, and
    /// `order` lists those prices once each.
    spec fn wf(&self) -> bool {
        &&& skip_prices(self.prices) == self.queues().dom()
        &&& forall|p: Price| #[trigger] self.queues().contains_key(p) ==> self.queues()[p].len() > 0
        &&& self.order@.no_duplicates()
        &&& forall|i: int| 0 <= i < self.order@.len() ==> self.queues().contains_key(#[trigger] self.order@[i])
        &&& forall|p: Price| #[trigger] self.queues().contains_key(p) ==> self.order@.contains(p)
    }

    spec fn size(&self) -> nat {
        queued_count(self.queues(), self.order@)
    }

    fn new() -> (r: Self)
        ensures
            r.wf(),
            forall|p: Price| #[trigger] r.queue(p) == Seq::<OrderId>::empty(),
    {
        Levels { prices: skip_new(), levels: dash_new(), order: Ghost(Seq::empty()) }
    }

    fn push(&mut self, price: Price, order_id: OrderId)
        requires
            old(self).wf(),
        ensures
            final(self).wf(),
            final(self).queue(price) == old(self).queue(price).push(order_id),
            forall|q: Price| q != price ==> #[trigger] final(self).queue(q) == old(self).queue(q),
    {
        let ghost pre = *self;
        match dash_remove(&mut self.levels, price) {
            Some(level) => {
                let mut level = level;
                level.push(order_id);
                dash_insert(&mut self.levels, price, level);
                proof {
                    assert(self.queues() =~= pre.queues().insert(price, level@));
                    assert(self.order@.contains(price));
                }
            },
            None => {
                let mut level: Vec<OrderId> = Vec::new();
                level.push(order_id);
                dash_insert(&mut self.levels, price, level);
                skip_insert(&mut self.prices, price);
                proof {
                    assert(self.queues() =~= pre.queues().insert(price, level@));
                    assert(!pre.order@.contains(price));
                    self.order@ = pre.order@.push(price);
                    assert(self.order@[pre.order@.len() as int] == price);
                    assert forall|i: int| 0 <= i < self.order@.len() implies self.queues().contains_key(#[trigger] self.order@[i]) by {
                        if i < pre.order@.len() {
                            assert(self.order@[i] == pre.order@[i]);
                        }
                    }
                    assert forall|p: Price| #[trigger] self.queues().contains_key(p) implies self.order@.contains(p) by {
                        if p != price {
                            let i = choose|i: int| 0 <= i < pre.order@.len() && pre.order@[i] == p;
                            assert(self.order@[i] == p);
                        }
                    }
                    assert(skip_prices(self.prices) =~= self.queues().dom());
                }
            },
        }
    }

    /// Puts `order_id` at the head of the level at `price`, creating the level when needed.
    fn push_front(&mut self, price: Price, order_id: OrderId)
        requires
            old(self).wf(),
        ensures
            final(self).wf(),
            final(self).queue(price) == seq![order_id] + old(self).queue(price),
            forall|q: Price| q != price ==> #[trigger] final(self).queue(q) == old(self).queue(q),
    {
        let ghost pre = *self;
        match dash_remove(&mut self.levels, price) {
            Some(level) => {
                let mut level = level;
                level.insert(0, order_id);
                dash_insert(&mut self.levels, price, level);
                proof {
                    assert(level@ =~= seq![order_id] + pre.queue(price));
                    assert(self.queues() =~= pre.queues().insert(price, level@));
                    assert(self.order@.contains(price));
                }
            },
            None => {
                let mut level: Vec<OrderId> = Vec::new();
                level.push(order_id);
                dash_insert(&mut self.levels, price, level);
                skip_insert(&mut self.prices, price);
                proof {
                    assert(self.queues() =~= pre.queues().insert(price, level@));
                    assert(!pre.order@.contains(price));
                    self.order@ = pre.order@.push(price);
                    assert(self.order@[pre.order@.len() as int] == price);
                    assert forall|i: int| 0 <= i < self.order@.len() implies self.queues().contains_key(#[trigger] self.order@[i]) by {
                        if i < pre.order@.len() {
                            assert(self.order@[i] == pre.order@[i]);
                        }
                    }
                    assert forall|p: Price| #[trigger] self.queues().contains_key(p) implies self.order@.contains(p) by {
                        if p != price {
                            let i = choose|i: int| 0 <= i < pre.order@.len() && pre.order@[i] == p;
                            assert(self.order@[i] == p);
                        }
                    }
                    assert(skip_prices(self.prices) =~= self.queues().dom());
                }
            },
        }
    }

    /// Takes the first id of the level at `price`; an emptied level is dropped.
    fn pop_level(&mut self, price: Price) -> (id: OrderId)
        requires
            old(self).wf(),
            old(self).queues().contains_key(price),
        ensures
            final(self).wf(),
            id == old(self).queue(price)[0],
            final(self).queue(price) == old(self).queue(price).drop_first(),
            forall|q: Price| q != price ==> #[trigger] final(self).queue(q) == old(self).queue(q),
            final(self).size() < old(self).size(),
    {
        let ghost pre = *self;
        let mut level = match dash_remove(&mut self.levels, price) {
            Some(level) => level,
            None => {
                proof {
                    assert(false);
                }
                Vec::new()
            },
        };
        let ghost full = level@;
        let id = level.remove(0);
        proof {
            assert(level@ =~= full.drop_first());
        }
        if level.len() == 0 {
            skip_remove(&mut self.prices, price);
            proof {
                let j = pre.order@.index_of(price);
                lemma_count_remove(pre.queues(), pre.order@, j);
                self.order@ = pre.order@.remove(j);
                assert(self.queues() =~= pre.queues().remove(price));
                assert forall|i: int| 0 <= i < self.order@.len() implies self.queues().contains_key(#[trigger] self.order@[i]) by {
                    if i < j {
                        assert(self.order@[i] == pre.order@[i]);
                        assert(pre.order@[i] != pre.order@[j]);
                    } else {
                        assert(self.order@[i] == pre.order@[i + 1]);
                        assert(pre.order@[i + 1] != pre.order@[j]);
                    }
                }
                assert forall|p: Price| #[trigger] self.queues().contains_key(p) implies self.order@.contains(p) by {
                    let i = choose|i: int| 0 <= i < pre.order@.len() && pre.order@[i] == p;
                    assert(i != j);
                    if i < j {
                        assert(self.order@[i] == p);
                    } else {
                        assert(self.order@[i - 1] == p);
                    }
                }
                assert(skip_prices(self.prices) =~= self.queues().dom());
                assert(self.queue(price) =~= full.drop_first());
            }
        } else {
            dash_insert(&mut self.levels, price, level);
            proof {
                assert(self.queues() =~= pre.queues().insert(price, level@));
                lemma_count_update(pre.queues(), pre.order@, price, level@);
            }
        }
        id
    }

    /// Highest price with a level.
    fn best_buy(&self) -> (r: Option<Price>)
        requires
            self.wf(),
        ensures
            match r {
                Some(p) => self.queue(p).len() > 0 && forall|q: Price| #[trigger] self.queue(q).len() > 0 ==> q <= p,
                None => forall|q: Price| #[trigger] self.queue(q).len() == 0,
            },
    {
        let r = skip_back(&self.prices);
        proof {
            match r {
                Some(p) => {
                    assert forall|q: Price| #[trigger] self.queue(q).len() > 0 implies q <= p by {
                        assert(skip_prices(self.prices).contains(q));
                    }
                },
                None => {
                    assert forall|q: Price| #[trigger] self.queue(q).len() == 0 by {
                        assert(!skip_prices(self.prices).contains(q));
                    }
                },
            }
        }
        r
    }

    /// Lowest price with a level.
    fn best_sell(&self) -> (r: Option<Price>)
        requires
            self.wf(),
        ensures
            match r {
                Some(p) => self.queue(p).len() > 0 && forall|q: Price| #[trigger] self.queue(q).len() > 0 ==> p <= q,
                None => forall|q: Price| #[trigger] self.queue(q).len() == 0,
            },
    {
        let r = skip_front(&self.prices);
        proof {
            match r {
                Some(p) => {
                    assert forall|q: Price| #[trigger] self.queue(q).len() > 0 implies p <= q by {
                        assert(skip_prices(self.prices).contains(q));
                    }
                },
                None => {
                    assert forall|q: Price| #[trigger] self.queue(q).len() == 0 by {
                        assert(!skip_prices(self.prices).contains(q));
                    }
                },
            }
        }
        r
    }
    /// Takes the first id at the highest price.
    fn pop_best_buy(&mut self) -> (r: Option<OrderId>)
        requires
            old(self).wf(),
        ensures
            final(self).wf(),
            r is None ==> *final(self) == *old(self) && forall|q: Price| #[trigger] old(self).queue(q).len() == 0,
            r matches Some(id) ==> exists|p: Price|
                {
                    &&& #[trigger] old(self).queue(p).len() > 0
                    &&& (forall|q: Price| #[trigger] old(self).queue(q).len() > 0 ==> at_least_as_good(Side::Buy, p, q))
                    &&& id == old(self).queue(p)[0]
                    &&& final(self).queue(p) == old(self).queue(p).drop_first()
                    &&& forall|q: Price| q != p ==> #[trigger] final(self).queue(q) == old(self).queue(q)
                },
            r is Some ==> final(self).size() < old(self).size(),
    {
        let price = match self.best_buy() {
            Some(p) => p,
            None => {
                return None;
            },
        };
        Some(self.pop_level(price))
    }

    /// Takes the first id at the lowest price.
    fn pop_best_sell(&mut self) -> (r: Option<OrderId>)
        requires
            old(self).wf(),
        ensures
            final(self).wf(),
            r is None ==> *final(self) == *old(self) && forall|q: Price| #[trigger] old(self).queue(q).len() == 0,
            r matches Some(id) ==> exists|p: Price|
                {
                    &&& #[trigger] old(self).queue(p).len() > 0
                    &&& (forall|q: Price| #[trigger] old(self).queue(q).len() > 0 ==> at_least_as_good(Side::Sell, p, q))
                    &&& id == old(self).queue(p)[0]
                    &&& final(self).queue(p) == old(self).queue(p).drop_first()
                    &&& forall|q: Price| q != p ==> #[trigger] final(self).queue(q) == old(self).queue(q)
                },
            r is Some ==> final(self).size() < old(self).size(),
    {
        let price = match self.best_sell() {
            Some(p) => p,
            None => {
                return None;
            },
        };
        Some(self.pop_level(price))
    }

    /// Removes the first occurrence of `order_id` from the level at `price`; `false`
    /// when it is not queued there.
    fn remove_order(&mut self, price: Price, order_id: OrderId) -> (r: bool)
        requires
            old(self).wf(),
        ensures
            final(self).wf(),
            r == old(self).queue(price).contains(order_id),
            !r ==> forall|q: Price| #[trigger] final(self).queue(q) == old(self).queue(q),
            r ==> exists|k: int|
                {
                    &&& 0 <= k < old(self).queue(price).len()
                    &&& #[trigger] old(self).queue(price)[k] == order_id
                    &&& (forall|j: int| 0 <= j < k ==> old(self).queue(price)[j] != order_id)
                    &&& final(self).queue(price) == old(self).queue(price).remove(k)
                },
            forall|q: Price| q != price ==> #[trigger] final(self).queue(q) == old(self).queue(q),
    {
        let ghost pre = *self;
        let mut level = match dash_remove(&mut self.levels, price) {
            Some(level) => level,
            None => {
                proof {
                    assert(self.queues() =~= pre.queues());
                }
                return false;
            },
        };
        let ghost full = level@;
        let mut i: usize = 0;
        while i < level.len() && level[i] != order_id
            invariant
                i <= level@.len(),
                level@ == full,
                forall|j: int| 0 <= j < i ==> level@[j] != order_id,
            decreases level@.len() - i,
        {
            i += 1;
        }
        if i == level.len() {
            dash_insert(&mut self.levels, price, level);
            proof {
                assert(self.queues() =~= pre.queues());
                assert(!full.contains(order_id));
            }
            return false;
        }
        level.remove(i);
        proof {
            assert(full[i as int] == order_id);
            assert(pre.queue(price)[i as int] == order_id);
            assert(level@ =~= full.remove(i as int));
        }
        if level.len() == 0 {
            skip_remove(&mut self.prices, price);
            proof {
                let j = pre.order@.index_of(price);
                self.order@ = pre.order@.remove(j);
                assert(self.queues() =~= pre.queues().remove(price));
                assert forall|x: int| 0 <= x < self.order@.len() implies self.queues().contains_key(#[trigger] self.order@[x]) by {
                    if x < j {
                        assert(self.order@[x] == pre.order@[x]);
                        assert(pre.order@[x] != pre.order@[j]);
                    } else {
                        assert(self.order@[x] == pre.order@[x + 1]);
                        assert(pre.order@[x + 1] != pre.order@[j]);
                    }
                }
                assert forall|p: Price| #[trigger] self.queues().contains_key(p) implies self.order@.contains(p) by {
                    let x = choose|x: int| 0 <= x < pre.order@.len() && pre.order@[x] == p;
                    assert(x != j);
                    if x < j {
                        assert(self.order@[x] == p);
                    } else {
                        assert(self.order@[x - 1] == p);
                    }
                }
                assert(skip_prices(self.prices) =~= self.queues().dom());
                assert(self.queue(price) =~= full.remove(i as int));
            }
        } else {
            dash_insert(&mut self.levels, price, level);
            proof {
                assert(self.queues() =~= pre.queues().insert(price, level@));
            }
        }
        true
    }
}

/// One side of the book. Its maps are taken out while a method works on them, so that
/// the side is never seen with maps out of step.
struct BookSide {
    maps: Option<Levels>,
}

impl BookSide {
    /// Maps that are in place are in step.
    #[verifier::type_invariant]
    spec fn maps_wf(&self) -> bool {
        self.maps matches Some(l) ==> l.wf()
    }

    /// The maps are in place (always, outside this side's own methods).
    spec fn live(&self) -> bool {
        self.maps is Some
    }

    spec fn queue(&self, p: Price) -> Seq<OrderId> {
        match self.maps {
            Some(l) => l.queue(p),
            None => Seq::empty(),
        }
    }

    spec fn size(&self) -> nat {
        match self.maps {
            Some(l) => l.size(),
            None => 0,
        }
    }

    fn new() -> (r: Self)
        ensures
            r.live(),
            forall|p: Price| #[trigger] r.queue(p) == Seq::<OrderId>::empty(),
    {
        BookSide { maps: Some(Levels::new()) }
    }

    fn take_maps(&mut self) -> (r: Option<Levels>)
        ensures
            r == old(self).maps,
            r matches Some(l) ==> l.wf(),
            !final(self).live(),
    {
        proof {
            use_type_invariant(&*self);
        }
        let mut taken: Option<Levels> = None;
        std::mem::swap(&mut taken, &mut self.maps);
        taken
    }

    fn push(&mut self, price: Price, order_id: OrderId)
        ensures
            final(self).live() == old(self).live(),
            old(self).live() ==> final(self).queue(price) == old(self).queue(price).push(order_id),
            forall|q: Price| q != price ==> #[trigger] final(self).queue(q) == old(self).queue(q),
    {
        if let Some(mut l) = self.take_maps() {
            l.push(price, order_id);
            self.maps = Some(l);
        }
    }

    fn push_front(&mut self, price: Price, order_id: OrderId)
        ensures
            final(self).live() == old(self).live(),
            old(self).live() ==> final(self).queue(price) == seq![order_id] + old(self).queue(price),
            forall|q: Price| q != price ==> #[trigger] final(self).queue(q) == old(self).queue(q),
    {
        if let Some(mut l) = self.take_maps() {
            l.push_front(price, order_id);
            self.maps = Some(l);
        }
    }

    /// Takes the first id at the best price of this side, which rests orders on `side`.
    fn pop_best_for(&mut self, side: Side) -> (r: Option<OrderId>)
        ensures
            final(self).live() == old(self).live(),
            r is None ==> forall|q: Price| #[trigger] old(self).queue(q).len() == 0 && final(self).queue(q) == old(self).queue(q),
            r matches Some(id) ==> exists|p: Price|
                {
                    &&& #[trigger] old(self).queue(p).len() > 0
                    &&& (forall|q: Price| #[trigger] old(self).queue(q).len() > 0 ==> at_least_as_good(side, p, q))
                    &&& id == old(self).queue(p)[0]
                    &&& final(self).queue(p) == old(self).queue(p).drop_first()
                    &&& forall|q: Price| q != p ==> #[trigger] final(self).queue(q) == old(self).queue(q)
                },
            r is Some ==> final(self).size() < old(self).size(),
    {
        let ghost pre = *self;
        match self.take_maps() {
            Some(mut l) => {
                let ghost l0 = l;
                let r = match side {
                    Side::Buy => l.pop_best_buy(),
                    Side::Sell => l.pop_best_sell(),
                };
                self.maps = Some(l);
                proof {
                    if let Some(id) = r {
                        let p = choose|p: Price|
                            {
                                &&& #[trigger] l0.queue(p).len() > 0
                                &&& (forall|q: Price| #[trigger] l0.queue(q).len() > 0 ==> at_least_as_good(side, p, q))
                                &&& id == l0.queue(p)[0]
                                &&& l.queue(p) == l0.queue(p).drop_first()
                                &&& forall|q: Price| q != p ==> #[trigger] l.queue(q) == l0.queue(q)
                            };
                        assert(pre.queue(p).len() > 0);
                        assert forall|q: Price| #[trigger] pre.queue(q).len() > 0 implies at_least_as_good(side, p, q) by {
                            assert(l0.queue(q).len() > 0);
                        }
                        assert forall|q: Price| q != p implies #[trigger] self.queue(q) == pre.queue(q) by {
                            assert(l.queue(q) == l0.queue(q));
                        }
                    }
                }
                r
            },
            None => None,
        }
    }

    fn remove_order(&mut self, price: Price, order_id: OrderId) -> (r: bool)
        ensures
            final(self).live() == old(self).live(),
            r == old(self).queue(price).contains(order_id),
            !r ==> forall|q: Price| #[trigger] final(self).queue(q) == old(self).queue(q),
            r ==> exists|k: int|
                {
                    &&& 0 <= k < old(self).queue(price).len()
                    &&& #[trigger] old(self).queue(price)[k] == order_id
                    &&& (forall|j: int| 0 <= j < k ==> old(self).queue(price)[j] != order_id)
                    &&& final(self).queue(price) == old(self).queue(price).remove(k)
                },
            forall|q: Price| q != price ==> #[trigger] final(self).queue(q) == old(self).queue(q),
    {
        match self.take_maps() {
            Some(mut l) => {
                let r = l.remove_order(price, order_id);
                self.maps = Some(l);
                r
            },
            None => false,
        }
    }

    fn best_buy(&self) -> (r: Option<Price>)
        ensures
            match r {
                Some(p) => self.queue(p).len() > 0 && forall|q: Price| #[trigger] self.queue(q).len() > 0 ==> q <= p,
                None => forall|q: Price| #[trigger] self.queue(q).len() == 0,
            },
    {
        proof {
            use_type_invariant(self);
        }
        match &self.maps {
            Some(l) => l.best_buy(),
            None => None,
        }
    }

    fn best_sell(&self) -> (r: Option<Price>)
        ensures
            match r {
                Some(p) => self.queue(p).len() > 0 && forall|q: Price| #[trigger] self.queue(q).len() > 0 ==> p <= q,
                None => forall|q: Price| #[trigger] self.queue(q).len() == 0,
            },
    {
        proof {
            use_type_invariant(self);
        }
        match &self.maps {
            Some(l) => l.best_sell(),
            None => None,
        }
    }
}

/// Price book over concurrent maps: a skip map for best-price queries and a dash map of
/// per-level FIFO queues on each side.
pub struct DashSkipOrderBook {
    bids: BookSide,
    asks: BookSide,
    index: HashMap<OrderId, (Price, Side)>,
}

impl DashSkipOrderBook {
    /// Both sides have their maps in place (every method keeps this).
    pub closed spec fn ready(&self) -> bool {
        self.bids.live() && self.asks.live()
    }

    /// The FIFO queue of order ids resting at `price` on `side`.
    pub closed spec fn queue(&self, side: Side, price: Price) -> Seq<OrderId> {
        match side {
            Side::Buy => self.bids.queue(price),
            Side::Sell => self.asks.queue(price),
        }
    }

    /// `p` is the best price with a non-empty queue on `side`.
    pub open spec fn best_queue(&self, side: Side, p: Price) -> bool {
        best_in(|s: Side, x: Price| self.queue(s, x), side, p)
    }

    /// Every queue on `side` is empty.
    pub open spec fn side_empty(&self, side: Side) -> bool {
        empty_in(|s: Side, x: Price| self.queue(s, x), side)
    }

    /// Empty book.
    pub fn new() -> (r: Self)
        ensures
            r.ready(),
            r.consistent(),
            r.locations() == Map::<OrderId, (Price, Side)>::empty(),
            r.side_empty(Side::Buy),
            r.side_empty(Side::Sell),
    {
        let r = DashSkipOrderBook { bids: BookSide::new(), asks: BookSide::new(), index: HashMap::new() };
        assert(r.locations() =~= Map::<OrderId, (Price, Side)>::empty());
        r
    }
}

impl Default for DashSkipOrderBook {
    fn default() -> (r: Self)
        ensures
            r.ready(),
            r.consistent(),
            r.locations() == Map::<OrderId, (Price, Side)>::empty(),
    {
        Self::new()
    }
}

impl PriceBook for DashSkipOrderBook {
    closed spec fn locations(&self) -> Map<OrderId, (Price, Side)> {
        self.index@
    }

    closed spec fn consistent(&self) -> bool {
        &&& self.bids.live()
        &&& self.asks.live()
        &&& queues_match(self.index@, |s: Side, x: Price| self.queue(s, x))
    }

    open spec fn supports(price: Price) -> bool {
        true
    }

    open spec fn fifo(&self) -> bool {
        self.ready()
    }

    open spec fn level_queue(&self, side: Side, price: Price) -> Seq<OrderId> {
        self.queue(side, price)
    }

    closed spec fn size(&self) -> nat {
        self.bids.size() + self.asks.size()
    }

    fn best_bid(&self) -> (r: Option<Price>)
        ensures
            match r {
                Some(p) => self.best_queue(Side::Buy, p),
                None => self.side_empty(Side::Buy),
            },
    {
        let r = self.bids.best_buy();
        proof {
            let q = |s: Side, x: Price| self.queue(s, x);
            if self.consistent() {
                lemma_best_located(self.index@, q, Side::Buy, r);
            }
        }
        r
    }

    fn best_ask(&self) -> (r: Option<Price>)
        ensures
            match r {
                Some(p) => self.best_queue(Side::Sell, p),
                None => self.side_empty(Side::Sell),
            },
    {
        let r = self.asks.best_sell();
        proof {
            let q = |s: Side, x: Price| self.queue(s, x);
            if self.consistent() {
                lemma_best_located(self.index@, q, Side::Sell, r);
            }
        }
        r
    }

    fn push(&mut self, price: &Price, order_id: OrderId, side: Side, _time_priority: Sequence)
        ensures
            final(self).ready() == old(self).ready(),
            final(self).locations() == old(self).locations().insert(order_id, (*price, side)),
            old(self).ready() ==> final(self).queue(side, *price) == old(self).queue(side, *price).push(order_id),
            forall|s: Side, q: Price|
                (s, q) != (side, *price) ==> #[trigger] final(self).queue(s, q) == old(self).queue(s, q),
    {
        let ghost pre = *self;
        self.index.insert(order_id, (*price, side));
        match side {
            Side::Buy => self.bids.push(*price, order_id),
            Side::Sell => self.asks.push(*price, order_id),
        }
        proof {
            assert forall|s: Side, q: Price| (s, q) != (side, *price) implies #[trigger] self.queue(s, q)
                == pre.queue(s, q) by {
                if s == side {
                    assert(q != *price);
                }
            }
            if pre.consistent() && !pre.locations().contains_key(order_id) {
                lemma_match_push(
                    pre.index@,
                    self.index@,
                    |s: Side, x: Price| pre.queue(s, x),
                    |s: Side, x: Price| self.queue(s, x),
                    side,
                    *price,
                    order_id,
                );
            }
        }
    }

    fn push_front(&mut self, price: &Price, order_id: OrderId, side: Side, _time_priority: Sequence)
        ensures
            final(self).ready() == old(self).ready(),
            final(self).locations() == old(self).locations().insert(order_id, (*price, side)),
            old(self).ready() ==> final(self).queue(side, *price) == seq![order_id] + old(self).queue(side, *price),
            forall|s: Side, q: Price|
                (s, q) != (side, *price) ==> #[trigger] final(self).queue(s, q) == old(self).queue(s, q),
    {
        let ghost pre = *self;
        self.index.insert(order_id, (*price, side));
        match side {
            Side::Buy => self.bids.push_front(*price, order_id),
            Side::Sell => self.asks.push_front(*price, order_id),
        }
        proof {
            assert forall|s: Side, q: Price| (s, q) != (side, *price) implies #[trigger] self.queue(s, q)
                == pre.queue(s, q) by {
                if s == side {
                    assert(q != *price);
                }
            }
            if pre.consistent() && !pre.locations().contains_key(order_id) {
                lemma_match_push_front(
                    pre.index@,
                    self.index@,
                    |s: Side, x: Price| pre.queue(s, x),
                    |s: Side, x: Price| self.queue(s, x),
                    side,
                    *price,
                    order_id,
                );
            }
        }
    }

    fn pop_best(&mut self, aggressor_side: Side) -> (r: Option<OrderId>)
        ensures
            final(self).ready() == old(self).ready(),
            r is None <==> old(self).side_empty(opposite(aggressor_side)),
            r is None ==> final(self).locations() == old(self).locations() && forall|s: Side, q: Price|
                #[trigger] final(self).queue(s, q) == old(self).queue(s, q),
            r matches Some(id) ==> exists|p: Price|
                {
                    &&& old(self).best_queue(opposite(aggressor_side), p)
                    &&& id == old(self).queue(opposite(aggressor_side), p)[0]
                    &&& #[trigger] final(self).queue(opposite(aggressor_side), p) == old(self).queue(
                        opposite(aggressor_side),
                        p,
                    ).drop_first()
                    &&& forall|s: Side, q: Price|
                        (s, q) != (opposite(aggressor_side), p) ==> #[trigger] final(self).queue(s, q)
                            == old(self).queue(s, q)
                },
            r matches Some(id) ==> final(self).locations() == old(self).locations().remove(id),
    {
        let ghost pre = *self;
        let opp = match aggressor_side {
            Side::Buy => Side::Sell,
            Side::Sell => Side::Buy,
        };
        let popped = match aggressor_side {
            Side::Buy => self.asks.pop_best_for(Side::Sell),
            Side::Sell => self.bids.pop_best_for(Side::Buy),
        };
        let ghost side_pre = if opp == Side::Buy { pre.bids } else { pre.asks };
        let ghost side_post = if opp == Side::Buy { self.bids } else { self.asks };
        let order_id = match popped {
            Some(id) => id,
            None => {
                proof {
                    assert forall|s: Side, q: Price| #[trigger] self.queue(s, q) == pre.queue(s, q) by {}
                    assert forall|x: Price| #[trigger] pre.queue(opp, x).len() == 0 by {
                        assert(side_pre.queue(x).len() == 0);
                    }
                    assert(pre.side_empty(opp));
                    if pre.consistent() {
                        let qa = |s: Side, x: Price| pre.queue(s, x);
                        lemma_match_same(pre.index@, self.index@, qa, |s: Side, x: Price| self.queue(s, x));
                        lemma_best_located(pre.index@, qa, opp, None);
                    }
                }
                return None;
            },
        };
        self.index.remove(&order_id);
        proof {
            let p = choose|p: Price|
                {
                    &&& #[trigger] side_pre.queue(p).len() > 0
                    &&& (forall|q: Price| #[trigger] side_pre.queue(q).len() > 0 ==> at_least_as_good(opp, p, q))
                    &&& order_id == side_pre.queue(p)[0]
                    &&& side_post.queue(p) == side_pre.queue(p).drop_first()
                    &&& forall|q: Price| q != p ==> #[trigger] side_post.queue(q) == side_pre.queue(q)
                };
            assert(pre.queue(opp, p) == side_pre.queue(p));
            assert forall|x: Price| #[trigger] pre.queue(opp, x).len() > 0 implies at_least_as_good(opp, p, x) by {
                assert(side_pre.queue(x).len() > 0);
            }
            assert forall|s: Side, q: Price| (s, q) != (opp, p) implies #[trigger] self.queue(s, q)
                == pre.queue(s, q) by {
                if s == opp {
                    assert(side_post.queue(q) == side_pre.queue(q));
                }
            }
            assert(self.queue(opp, p) == pre.queue(opp, p).drop_first());
            assert(pre.best_queue(opp, p));
            assert(!pre.side_empty(opp));
            assert(self.size() < pre.size());
            if pre.consistent() {
                assert(pre.queue(opp, p).drop_first() =~= pre.queue(opp, p).remove(0));
                lemma_match_take(
                    pre.index@,
                    self.index@,
                    |s: Side, x: Price| pre.queue(s, x),
                    |s: Side, x: Price| self.queue(s, x),
                    opp,
                    p,
                    0,
                );
                lemma_best_located(pre.index@, |s: Side, x: Price| pre.queue(s, x), opp, Some(p));
            }
        }
        Some(order_id)
    }

    fn remove(&mut self, order_id: &OrderId) -> (r: bool)
        ensures
            final(self).ready() == old(self).ready(),
            final(self).locations() == old(self).locations().remove(*order_id),
    {
        let ghost pre = *self;
        let (price, side) = match self.index.remove(order_id) {
            Some(loc) => loc,
            None => {
                proof {
                    assert(self.index@ =~= pre.index@);
                    assert(self.locations() =~= pre.locations().remove(*order_id));
                    if pre.consistent() {
                        lemma_match_same(
                            pre.index@,
                            self.index@,
                            |s: Side, x: Price| pre.queue(s, x),
                            |s: Side, x: Price| self.queue(s, x),
                        );
                    }
                }
                return false;
            },
        };
        let r = match side {
            Side::Buy => self.bids.remove_order(price, *order_id),
            Side::Sell => self.asks.remove_order(price, *order_id),
        };
        proof {
            assert forall|s: Side, q: Price| (s, q) != (side, price) implies #[trigger] self.queue(s, q)
                == pre.queue(s, q) by {
                if s == side {
                    assert(q != price);
                }
            }
            if pre.consistent() {
                assert(pre.queue(side, price).contains(*order_id));
                let k = choose|k: int|
                    {
                        &&& 0 <= k < pre.queue(side, price).len()
                        &&& #[trigger] pre.queue(side, price)[k] == *order_id
                        &&& (forall|j: int| 0 <= j < k ==> pre.queue(side, price)[j] != *order_id)
                        &&& self.queue(side, price) == pre.queue(side, price).remove(k)
                    };
                lemma_match_take(
                    pre.index@,
                    self.index@,
                    |s: Side, x: Price| pre.queue(s, x),
                    |s: Side, x: Price| self.queue(s, x),
                    side,
                    price,
                    k,
                );
            }
        }
        r
    }
}

} // verus!
