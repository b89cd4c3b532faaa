//! Price book over one list of signed price keys: a bid at price `p` rests under key `p`,
//! an ask under key `-p`, so the best bid is the highest positive key and the best ask the
//! negative key closest to zero. Prices must be positive for the two sides to stay apart.

use std::collections::HashMap;
use vstd::prelude::*;
use crate::book::{at_least_as_good, best_matches, has_side, is_best, opposite, PriceBook};
use crate::book::levels::{LevelList, has_level, lemma_queue_at, lemma_queue_nonempty};
use crate::types::{OrderId, Price, Sequence, Side};

verus! {

broadcast use vstd::std_specs::hash::group_hash_axioms;

/// The key an order at `price` on `side` rests under (`i64::MIN` stays itself).
pub open spec fn signed_key(price: Price, side: Side) -> Price {
    match side {
        Side::Buy => price,
        Side::Sell => if price == i64::MIN {
            i64::MIN
        } else {
            (-price) as Price
        },
    }
}

/// The price and side a key stands for.
pub open spec fn located(k: Price) -> (Price, Side) {
    if k > 0 {
        (k, Side::Buy)
    } else {
        ((-k) as Price, Side::Sell)
    }
}

fn negate(k: Price) -> (r: Price)
    ensures
        k != i64::MIN ==> r == -k,
        k == i64::MIN ==> r == i64::MIN,
{
    if k == i64::MIN {
        i64::MIN
    } else {
        -k
    }
}

/// Price book keyed by signed price (bid positive, ask negative), FIFO within each key.
#[derive(Debug)]
pub struct PoolLevelOrderBook {
    levels: LevelList,
    index: HashMap<OrderId, Price>,
}

impl PoolLevelOrderBook {
    /// The key each resting order rests under.
    pub closed spec fn keys(&self) -> Map<OrderId, Price> {
        self.index@
    }

    /// The FIFO queue of order ids under key `k`.
    pub closed spec fn key_queue(&self, k: Price) -> Seq<OrderId> {
        self.levels.queue(k)
    }

    /// Creates an empty book.
    pub fn new() -> (r: Self)
        ensures
            r.consistent(),
            r.locations() == Map::<OrderId, (Price, Side)>::empty(),
    {
        let r = Self { levels: LevelList::new(), index: HashMap::new() };
        assert(r.locations() =~= Map::<OrderId, (Price, Side)>::empty());
        r
    }

    /// In a consistent book, the resting orders on `side` are those whose keys have that
    /// side's sign, at the price the key stands for.
    proof fn lemma_side_keys(&self, side: Side, id: OrderId)
        requires
            self.consistent(),
            self.levels.inv(),
            self.locations().contains_key(id),
            self.locations()[id].1 == side,
        ensures
            self.levels.queue(self.index@[id]).len() > 0,
            has_level(self.levels.levels(), self.index@[id]),
            side == Side::Buy ==> self.index@[id] > 0 && self.locations()[id].0 == self.index@[id],
            side == Side::Sell ==> self.index@[id] < 0 && self.locations()[id].0 == -self.index@[id],
    {
        let k = self.index@[id];
        assert(self.levels.queue(k).contains(id));
        lemma_queue_nonempty(self.levels.levels(), k);
    }
}

impl PriceBook for PoolLevelOrderBook {
    closed spec fn locations(&self) -> Map<OrderId, (Price, Side)> {
        self.index@.map_values(|k: Price| located(k))
    }

    closed spec fn consistent(&self) -> bool {
        &&& forall|id: OrderId| #[trigger]
            self.index@.contains_key(id) ==> self.index@[id] != 0 && self.index@[id] != i64::MIN
                && self.levels.queue(self.index@[id]).contains(id)
        &&& forall|k: Price, j: int|
            0 <= j < self.levels.queue(k).len() ==> self.index@.contains_key(#[trigger] self.levels.queue(k)[j])
                && self.index@[self.levels.queue(k)[j]] == k
        &&& forall|k: Price| #[trigger] self.levels.queue(k).no_duplicates()
    }

    open spec fn supports(price: Price) -> bool {
        price > 0
    }

    open spec fn fifo(&self) -> bool {
        true
    }

    open spec fn level_queue(&self, side: Side, price: Price) -> Seq<OrderId> {
        self.key_queue(signed_key(price, side))
    }

    closed spec fn size(&self) -> nat {
        self.levels.size()
    }

    fn best_bid(&self) -> (r: Option<Price>) {
        proof {
            use_type_invariant(&self.levels);
        }
        let n = self.levels.len();
        let r = if n > 0 && self.levels.price_at(n - 1) > 0 {
            Some(self.levels.price_at(n - 1))
        } else {
            None
        };
        proof {
            if self.consistent() {
                let s = self.levels.levels();
                let locs = self.locations();
                match r {
                    Some(p) => {
                        lemma_queue_at(s, n - 1);
                        let id = self.levels.queue(p)[0];
                        assert(self.index@.contains_key(id));
                        assert(locs.contains_key(id) && locs[id] == (p, Side::Buy));
                        assert forall|id2: OrderId| #[trigger] locs.contains_key(id2) && locs[id2].1
                            == Side::Buy implies at_least_as_good(Side::Buy, p, locs[id2].0) by {
                            self.lemma_side_keys(Side::Buy, id2);
                            let i = choose|i: int| 0 <= i < s.len() && #[trigger] s[i].price == self.index@[id2];
                            if i != n - 1 {
                                assert(s[i].price < s[n - 1].price);
                            }
                        }
                    },
                    None => {
                        if has_side(locs, Side::Buy) {
                            let id2 = choose|id2: OrderId| #[trigger] locs.contains_key(id2)
                                && locs[id2].1 == Side::Buy;
                            self.lemma_side_keys(Side::Buy, id2);
                            let i = choose|i: int| 0 <= i < s.len() && #[trigger] s[i].price == self.index@[id2];
                            if i != n - 1 {
                                assert(s[i].price < s[n - 1].price);
                            }
                        }
                    },
                }
            }
        }
        r
    }

    fn best_ask(&self) -> (r: Option<Price>) {
        proof {
            use_type_invariant(&self.levels);
        }
        let (_, i) = self.levels.find(0);
        let r = if i > 0 {
            Some(negate(self.levels.price_at(i - 1)))
        } else {
            None
        };
        proof {
            if self.consistent() {
                let s = self.levels.levels();
                let locs = self.locations();
                if i > 0 {
                    lemma_queue_at(s, i - 1);
                    let k = s[i - 1].price;
                    let id = self.levels.queue(k)[0];
                    assert(self.index@.contains_key(id));
                    assert(k != i64::MIN);
                    assert(locs.contains_key(id) && locs[id] == ((-k) as Price, Side::Sell));
                }
                match r {
                    Some(p) => {
                        assert forall|id2: OrderId| #[trigger] locs.contains_key(id2) && locs[id2].1
                            == Side::Sell implies at_least_as_good(Side::Sell, p, locs[id2].0) by {
                            self.lemma_side_keys(Side::Sell, id2);
                            let j = choose|j: int| 0 <= j < s.len() && #[trigger] s[j].price == self.index@[id2];
                            if j > i - 1 {
                                assert(s[i - 1].price < s[j].price);
                                assert(j < i || s[j].price >= 0);
                            } else if j < i - 1 {
                                assert(s[j].price < s[i - 1].price);
                            }
                        }
                    },
                    None => {
                        if has_side(locs, Side::Sell) {
                            let id2 = choose|id2: OrderId| #[trigger] locs.contains_key(id2)
                                && locs[id2].1 == Side::Sell;
                            self.lemma_side_keys(Side::Sell, id2);
                            let j = choose|j: int| 0 <= j < s.len() && #[trigger] s[j].price == self.index@[id2];
                            assert(s[j].price >= 0);
                        }
                    },
                }
            }
        }
        r
    }

    fn push(&mut self, price: &Price, order_id: OrderId, side: Side, _time_priority: Sequence)
        ensures
            final(self).key_queue(signed_key(*price, side)) == old(self).key_queue(signed_key(*price, side)).push(
                order_id,
            ),
            forall|k: Price| k != signed_key(*price, side) ==> #[trigger] final(self).key_queue(k) == old(self).key_queue(k),
    {
        let ghost pre = *self;
        let sp = match side {
            Side::Buy => *price,
            Side::Sell => negate(*price),
        };
        self.levels.push(sp, order_id);
        self.index.insert(order_id, sp);
        proof {
            if pre.consistent() && !pre.locations().contains_key(order_id) && Self::supports(*price) {
                assert(!pre.index@.contains_key(order_id));
                lemma_push_consistent(pre, *self, sp, order_id);
                assert(located(sp) == (*price, side));
                assert(self.locations() =~= pre.locations().insert(order_id, (*price, side)));
            }
        }
    }

    fn push_front(&mut self, price: &Price, order_id: OrderId, side: Side, _time_priority: Sequence)
        ensures
            final(self).key_queue(signed_key(*price, side)) == seq![order_id] + old(self).key_queue(
                signed_key(*price, side),
            ),
            forall|k: Price| k != signed_key(*price, side) ==> #[trigger] final(self).key_queue(k) == old(self).key_queue(k),
    {
        let ghost pre = *self;
        let sp = match side {
            Side::Buy => *price,
            Side::Sell => negate(*price),
        };
        self.levels.push_front(sp, order_id);
        self.index.insert(order_id, sp);
        proof {
            if pre.consistent() && !pre.locations().contains_key(order_id) && Self::supports(*price) {
                assert(!pre.index@.contains_key(order_id));
                lemma_push_front_consistent(pre, *self, sp, order_id);
                assert(located(sp) == (*price, side));
                assert(self.locations() =~= pre.locations().insert(order_id, (*price, side)));
            }
        }
    }

    fn pop_best(&mut self, side: Side) -> (r: Option<OrderId>)
        ensures
            r is None ==> forall|k: Price| #[trigger] final(self).key_queue(k) == old(self).key_queue(k),
            r matches Some(id) ==> exists|k: Price|
                {
                    &&& old(self).key_queue(k).len() > 0
                    &&& id == old(self).key_queue(k)[0]
                    &&& #[trigger] final(self).key_queue(k) == old(self).key_queue(k).drop_first()
                    &&& forall|q: Price| q != k ==> #[trigger] final(self).key_queue(q) == old(self).key_queue(q)
                },
    {
        let ghost pre = *self;
        proof {
            use_type_invariant(&self.levels);
        }
        let n = self.levels.len();
        let at = match side {
            Side::Buy => {
                let (_, i) = self.levels.find(0);
                if i == 0 {
                    None
                } else {
                    Some(i - 1)
                }
            },
            Side::Sell => if n > 0 && self.levels.price_at(n - 1) >= 0 {
                Some(n - 1)
            } else {
                None
            },
        };
        match at {
            None => {
                proof {
                    if pre.consistent() {
                        let s = pre.levels.levels();
                        let locs = pre.locations();
                        if has_side(locs, opposite(side)) {
                            let id2 = choose|id2: OrderId| #[trigger] locs.contains_key(id2)
                                && locs[id2].1 == opposite(side);
                            pre.lemma_side_keys(opposite(side), id2);
                            let j = choose|j: int| 0 <= j < s.len() && #[trigger] s[j].price == pre.index@[id2];
                            if side == Side::Sell && j != n - 1 {
                                assert(s[j].price < s[n - 1].price);
                            }
                        }
                    }
                }
                None
            },
            Some(at) => {
                let k = self.levels.price_at(at);
                proof {
                    lemma_queue_at(self.levels.levels(), at as int);
                }
                let id = self.levels.pop_front_at(at);
                self.index.remove(&id);
                proof {
                    assert(pre.key_queue(k).len() > 0);
                    assert(self.key_queue(k) == pre.key_queue(k).drop_first());
                    if pre.consistent() {
                        lemma_pop_consistent(pre, *self, k, id);
                        let s = pre.levels.levels();
                        let locs = pre.locations();
                        let opp = opposite(side);
                        assert(self.locations() =~= locs.remove(id));
                        assert(k != 0 && k != i64::MIN);
                        assert(locs.contains_key(id) && locs[id] == located(k));
                        assert(located(k).1 == opp);
                        assert forall|id2: OrderId| #[trigger] locs.contains_key(id2) && locs[id2].1
                            == opp implies at_least_as_good(opp, located(k).0, locs[id2].0) by {
                            pre.lemma_side_keys(opp, id2);
                            let j = choose|j: int| 0 <= j < s.len() && #[trigger] s[j].price == pre.index@[id2];
                            if j < at {
                                assert(s[j].price < s[at as int].price);
                            } else if j > at {
                                assert(s[at as int].price < s[j].price);
                            }
                        }
                        assert(is_best(locs, opp, locs[id].0));
                    }
                }
                Some(id)
            },
        }
    }

    fn remove(&mut self, order_id: &OrderId) -> (r: bool) {
        let ghost pre = *self;
        let r = match self.index.remove(order_id) {
            None => false,
            Some(sp) => self.levels.remove_id(sp, *order_id),
        };
        proof {
            if pre.consistent() {
                if pre.index@.contains_key(*order_id) {
                    let k = pre.index@[*order_id];
                    assert(pre.levels.queue(k).contains(*order_id));
                    let j = choose|j: int|
                        0 <= j < pre.levels.queue(k).len() && pre.levels.queue(k)[j] == *order_id && (forall|
                            i: int,
                        | 0 <= i < j ==> pre.levels.queue(k)[i] != *order_id) && #[trigger] self.levels.queue(
                            k,
                        ) == pre.levels.queue(k).remove(j);
                    lemma_remove_consistent(pre, *self, k, j, *order_id);
                } else {
                    assert(self.index@ =~= pre.index@);
                    lemma_same_consistent(pre, *self);
                }
                assert(self.locations() =~= pre.locations().remove(*order_id));
            }
        }
        r
    }
}

proof fn lemma_same_consistent(pre: PoolLevelOrderBook, post: PoolLevelOrderBook)
    requires
        pre.consistent(),
        post.index@ == pre.index@,
        forall|k: Price| #[trigger] post.levels.queue(k) == pre.levels.queue(k),
    ensures
        post.consistent(),
{
    assert forall|k: Price| #[trigger] post.levels.queue(k).no_duplicates() by {
        assert(pre.levels.queue(k).no_duplicates());
    }
    assert forall|k: Price, j: int| 0 <= j < post.levels.queue(k).len() implies post.index@.contains_key(
        #[trigger] post.levels.queue(k)[j],
    ) && post.index@[post.levels.queue(k)[j]] == k by {
        assert(pre.index@.contains_key(pre.levels.queue(k)[j]));
    }
}

proof fn lemma_push_front_consistent(pre: PoolLevelOrderBook, post: PoolLevelOrderBook, key: Price, id: OrderId)
    requires
        pre.consistent(),
        !pre.index@.contains_key(id),
        key != 0,
        key != i64::MIN,
        post.index@ == pre.index@.insert(id, key),
        post.levels.queue(key) == seq![id] + pre.levels.queue(key),
        forall|q: Price| q != key ==> #[trigger] post.levels.queue(q) == pre.levels.queue(q),
    ensures
        post.consistent(),
{
    let pl = pre.index@;
    let ql = post.index@;
    assert forall|id2: OrderId| #[trigger] ql.contains_key(id2) implies ql[id2] != 0 && ql[id2] != i64::MIN
        && post.levels.queue(ql[id2]).contains(id2) by {
        if id2 == id {
            assert(post.levels.queue(key)[0] == id);
        } else {
            assert(pre.levels.queue(pl[id2]).contains(id2));
            let j = choose|j: int| 0 <= j < pre.levels.queue(pl[id2]).len() && pre.levels.queue(pl[id2])[j] == id2;
            if pl[id2] == key {
                assert(post.levels.queue(key)[j + 1] == id2);
            } else {
                assert(post.levels.queue(pl[id2])[j] == id2);
            }
        }
    }
    assert forall|k: Price, j: int| 0 <= j < post.levels.queue(k).len() implies ql.contains_key(
        #[trigger] post.levels.queue(k)[j],
    ) && ql[post.levels.queue(k)[j]] == k by {
        if k == key {
            if j > 0 {
                assert(post.levels.queue(k)[j] == pre.levels.queue(k)[j - 1]);
                assert(pl.contains_key(pre.levels.queue(k)[j - 1]));
            }
        } else {
            assert(post.levels.queue(k)[j] == pre.levels.queue(k)[j]);
            assert(pl.contains_key(pre.levels.queue(k)[j]));
        }
    }
    assert forall|k: Price| #[trigger] post.levels.queue(k).no_duplicates() by {
        assert(pre.levels.queue(k).no_duplicates());
        if k == key {
            let q0 = pre.levels.queue(k);
            assert forall|a: int, b: int| 0 <= a < b < q0.len() + 1 implies post.levels.queue(k)[a]
                != post.levels.queue(k)[b] by {
                if a == 0 {
                    assert(post.levels.queue(k)[b] == q0[b - 1]);
                    assert(pl.contains_key(q0[b - 1]));
                } else {
                    assert(post.levels.queue(k)[a] == q0[a - 1]);
                    assert(post.levels.queue(k)[b] == q0[b - 1]);
                }
            }
        }
    }
}

proof fn lemma_push_consistent(pre: PoolLevelOrderBook, post: PoolLevelOrderBook, key: Price, id: OrderId)
    requires
        pre.consistent(),
        !pre.index@.contains_key(id),
        key != 0,
        key != i64::MIN,
        post.index@ == pre.index@.insert(id, key),
        post.levels.queue(key) == pre.levels.queue(key).push(id),
        forall|q: Price| q != key ==> #[trigger] post.levels.queue(q) == pre.levels.queue(q),
    ensures
        post.consistent(),
{
    let pl = pre.index@;
    let ql = post.index@;
    assert forall|id2: OrderId| #[trigger] ql.contains_key(id2) implies ql[id2] != 0 && ql[id2] != i64::MIN
        && post.levels.queue(ql[id2]).contains(id2) by {
        if id2 == id {
            assert(post.levels.queue(key)[pre.levels.queue(key).len() as int] == id);
        } else {
            assert(pre.levels.queue(pl[id2]).contains(id2));
            let j = choose|j: int| 0 <= j < pre.levels.queue(pl[id2]).len() && pre.levels.queue(pl[id2])[j] == id2;
            assert(post.levels.queue(pl[id2])[j] == id2);
        }
    }
    assert forall|k: Price, j: int| 0 <= j < post.levels.queue(k).len() implies ql.contains_key(
        #[trigger] post.levels.queue(k)[j],
    ) && ql[post.levels.queue(k)[j]] == k by {
        if k == key && j == pre.levels.queue(k).len() {
        } else {
            assert(post.levels.queue(k)[j] == pre.levels.queue(k)[j]);
            assert(pl.contains_key(pre.levels.queue(k)[j]));
        }
    }
    assert forall|k: Price| #[trigger] post.levels.queue(k).no_duplicates() by {
        assert(pre.levels.queue(k).no_duplicates());
        if k == key {
            let q0 = pre.levels.queue(k);
            assert forall|a: int, b: int| 0 <= a < b < q0.len() + 1 implies post.levels.queue(k)[a]
                != post.levels.queue(k)[b] by {
                if b == q0.len() {
                    assert(pl.contains_key(q0[a]));
                }
            }
        }
    }
}

proof fn lemma_pop_consistent(pre: PoolLevelOrderBook, post: PoolLevelOrderBook, key: Price, id: OrderId)
    requires
        pre.consistent(),
        pre.levels.queue(key).len() > 0,
        id == pre.levels.queue(key)[0],
        post.levels.queue(key) == pre.levels.queue(key).drop_first(),
        forall|q: Price| q != key ==> #[trigger] post.levels.queue(q) == pre.levels.queue(q),
        post.index@ == pre.index@.remove(id),
    ensures
        post.consistent(),
        pre.index@.contains_key(id),
        pre.index@[id] == key,
{
    let pl = pre.index@;
    let ql = post.index@;
    let q0 = pre.levels.queue(key);
    assert(q0.no_duplicates());
    assert(pl.contains_key(q0[0]));
    assert forall|id2: OrderId| #[trigger] ql.contains_key(id2) implies ql[id2] != 0 && ql[id2] != i64::MIN
        && post.levels.queue(ql[id2]).contains(id2) by {
        assert(pre.levels.queue(pl[id2]).contains(id2));
        let j = choose|j: int| 0 <= j < pre.levels.queue(pl[id2]).len() && pre.levels.queue(pl[id2])[j] == id2;
        if pl[id2] == key {
            assert(j != 0);
            assert(post.levels.queue(key)[j - 1] == id2);
        }
    }
    assert forall|k: Price, j: int| 0 <= j < post.levels.queue(k).len() implies ql.contains_key(
        #[trigger] post.levels.queue(k)[j],
    ) && ql[post.levels.queue(k)[j]] == k by {
        if k == key {
            assert(post.levels.queue(k)[j] == q0[j + 1]);
            assert(q0[j + 1] != q0[0]);
            assert(pl.contains_key(q0[j + 1]));
        } else {
            assert(pl.contains_key(pre.levels.queue(k)[j]));
            assert(pre.levels.queue(k)[j] != id);
        }
    }
    assert forall|k: Price| #[trigger] post.levels.queue(k).no_duplicates() by {
        assert(pre.levels.queue(k).no_duplicates());
        if k == key {
            assert forall|a: int, b: int| 0 <= a < b < post.levels.queue(k).len() implies post.levels.queue(k)[a]
                != post.levels.queue(k)[b] by {
                assert(post.levels.queue(k)[a] == q0[a + 1]);
                assert(post.levels.queue(k)[b] == q0[b + 1]);
            }
        }
    }
}

proof fn lemma_remove_consistent(
    pre: PoolLevelOrderBook,
    post: PoolLevelOrderBook,
    key: Price,
    at: int,
    id: OrderId,
)
    requires
        pre.consistent(),
        pre.index@.contains_key(id),
        pre.index@[id] == key,
        0 <= at < pre.levels.queue(key).len(),
        pre.levels.queue(key)[at] == id,
        post.levels.queue(key) == pre.levels.queue(key).remove(at),
        forall|q: Price| q != key ==> #[trigger] post.levels.queue(q) == pre.levels.queue(q),
        post.index@ == pre.index@.remove(id),
    ensures
        post.consistent(),
{
    let pl = pre.index@;
    let ql = post.index@;
    let q0 = pre.levels.queue(key);
    assert(q0.no_duplicates());
    assert forall|id2: OrderId| #[trigger] ql.contains_key(id2) implies ql[id2] != 0 && ql[id2] != i64::MIN
        && post.levels.queue(ql[id2]).contains(id2) by {
        assert(pre.levels.queue(pl[id2]).contains(id2));
        let j = choose|j: int| 0 <= j < pre.levels.queue(pl[id2]).len() && pre.levels.queue(pl[id2])[j] == id2;
        if pl[id2] == key {
            assert(j != at);
            if j < at {
                assert(post.levels.queue(key)[j] == id2);
            } else {
                assert(post.levels.queue(key)[j - 1] == id2);
            }
        }
    }
    assert forall|k: Price, j: int| 0 <= j < post.levels.queue(k).len() implies ql.contains_key(
        #[trigger] post.levels.queue(k)[j],
    ) && ql[post.levels.queue(k)[j]] == k by {
        if k == key {
            if j < at {
                assert(post.levels.queue(k)[j] == q0[j]);
                assert(pl.contains_key(q0[j]));
            } else {
                assert(post.levels.queue(k)[j] == q0[j + 1]);
                assert(pl.contains_key(q0[j + 1]));
            }
        } else {
            assert(pl.contains_key(pre.levels.queue(k)[j]));
            assert(pre.levels.queue(k)[j] != id);
        }
    }
    assert forall|k: Price| #[trigger] post.levels.queue(k).no_duplicates() by {
        assert(pre.levels.queue(k).no_duplicates());
        if k == key {
            assert forall|a: int, b: int| 0 <= a < b < post.levels.queue(k).len() implies post.levels.queue(k)[a]
                != post.levels.queue(k)[b] by {
                let a2 = if a < at { a } else { a + 1 };
                let b2 = if b < at { b } else { b + 1 };
                assert(post.levels.queue(k)[a] == q0[a2]);
                assert(post.levels.queue(k)[b] == q0[b2]);
            }
        }
    }
}

impl Default for PoolLevelOrderBook {
    /// Same as [`PoolLevelOrderBook::new`].
    fn default() -> (r: Self)
        ensures
            r.consistent(),
            r.locations() == Map::<OrderId, (Price, Side)>::empty(),
    {
        Self::new()
    }
}

} // verus!
