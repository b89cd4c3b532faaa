//! Sorted price levels: the shared representation of one side of a book. Each level
//! holds a FIFO queue of order ids; levels are kept in strictly increasing price order
//! and never empty.

use vstd::prelude::*;
use crate::types::{OrderId, Price};

verus! {

/// One price level: FIFO list of order ids.
#[derive(Debug)]
pub struct Level {
    /// The level's price key.
    pub price: Price,
    /// Order ids in arrival order.
    pub orders: Vec<OrderId>,
}

/// Levels in strictly increasing price order, none of them empty.
pub open spec fn sorted_levels(s: Seq<Level>) -> bool {
    &&& forall|i: int, j: int| 0 <= i < j < s.len() ==> #[trigger] s[i].price < #[trigger] s[j].price
    &&& forall|i: int| 0 <= i < s.len() ==> #[trigger] s[i].orders@.len() > 0
}

/// Some level has price `p`.
pub open spec fn has_level(s: Seq<Level>, p: Price) -> bool {
    exists|i: int| 0 <= i < s.len() && #[trigger] s[i].price == p
}

/// The queue of order ids resting at price `p` (empty when there is no such level).
pub open spec fn queue_at(s: Seq<Level>, p: Price) -> Seq<OrderId> {
    if has_level(s, p) {
        s[choose|i: int| 0 <= i < s.len() && #[trigger] s[i].price == p].orders@
    } else {
        Seq::empty()
    }
}

/// In sorted levels, the queue at a level's price is that level's queue.
pub proof fn lemma_queue_at(s: Seq<Level>, i: int)
    requires
        sorted_levels(s),
        0 <= i < s.len(),
    ensures
        queue_at(s, s[i].price) == s[i].orders@,
{
    assert(0 <= i < s.len() && s[i].price == s[i].price);
    let j = choose|j: int| 0 <= j < s.len() && #[trigger] s[j].price == s[i].price;
    if j < i {
        assert(s[j].price < s[i].price);
    } else if i < j {
        assert(s[i].price < s[j].price);
    }
}

/// Without a level at `p`, the queue at `p` is empty.
pub proof fn lemma_queue_absent(s: Seq<Level>, p: Price)
    requires
        forall|i: int| 0 <= i < s.len() ==> #[trigger] s[i].price != p,
    ensures
        queue_at(s, p) == Seq::<OrderId>::empty(),
{
}

/// A queue is non-empty exactly when the level exists.
pub proof fn lemma_queue_nonempty(s: Seq<Level>, p: Price)
    requires
        sorted_levels(s),
    ensures
        queue_at(s, p).len() > 0 <==> has_level(s, p),
{
    if has_level(s, p) {
        let i = choose|i: int| 0 <= i < s.len() && #[trigger] s[i].price == p;
        lemma_queue_at(s, i);
    }
}

/// Replacing a level by one with the same price changes only that price's queue.
pub proof fn lemma_queue_update(a: Seq<Level>, i: int, x: Level)
    requires
        sorted_levels(a),
        0 <= i < a.len(),
        x.price == a[i].price,
        sorted_levels(a.update(i, x)),
    ensures
        queue_at(a.update(i, x), x.price) == x.orders@,
        forall|q: Price| q != x.price ==> #[trigger] queue_at(a.update(i, x), q) == queue_at(a, q),
{
    let b = a.update(i, x);
    lemma_queue_at(b, i);
    assert forall|q: Price| q != x.price implies #[trigger] queue_at(b, q) == queue_at(a, q) by {
        if has_level(a, q) {
            let j = choose|j: int| 0 <= j < a.len() && #[trigger] a[j].price == q;
            lemma_queue_at(a, j);
            lemma_queue_at(b, j);
        } else if has_level(b, q) {
            let j = choose|j: int| 0 <= j < b.len() && #[trigger] b[j].price == q;
            assert(a[j].price == q);
        }
    }
}

/// Inserting a level at a fresh price changes only that price's queue.
pub proof fn lemma_queue_insert(a: Seq<Level>, i: int, x: Level)
    requires
        sorted_levels(a),
        0 <= i <= a.len(),
        !has_level(a, x.price),
        sorted_levels(a.insert(i, x)),
    ensures
        queue_at(a.insert(i, x), x.price) == x.orders@,
        queue_at(a, x.price) == Seq::<OrderId>::empty(),
        forall|q: Price| q != x.price ==> #[trigger] queue_at(a.insert(i, x), q) == queue_at(a, q),
{
    let b = a.insert(i, x);
    assert(b[i] == x);
    lemma_queue_at(b, i);
    assert forall|q: Price| q != x.price implies #[trigger] queue_at(b, q) == queue_at(a, q) by {
        if has_level(a, q) {
            let j = choose|j: int| 0 <= j < a.len() && #[trigger] a[j].price == q;
            lemma_queue_at(a, j);
            if j < i {
                assert(b[j] == a[j]);
                lemma_queue_at(b, j);
            } else {
                assert(b[j + 1] == a[j]);
                lemma_queue_at(b, j + 1);
            }
        } else if has_level(b, q) {
            let j = choose|j: int| 0 <= j < b.len() && #[trigger] b[j].price == q;
            if j < i {
                assert(a[j].price == q);
            } else {
                assert(a[j - 1].price == q);
            }
        }
    }
}

/// Removing a level empties that price's queue and keeps every other queue.
pub proof fn lemma_queue_remove(a: Seq<Level>, i: int)
    requires
        sorted_levels(a),
        0 <= i < a.len(),
        sorted_levels(a.remove(i)),
    ensures
        queue_at(a.remove(i), a[i].price) == Seq::<OrderId>::empty(),
        forall|q: Price| q != a[i].price ==> #[trigger] queue_at(a.remove(i), q) == queue_at(a, q),
{
    let b = a.remove(i);
    let p = a[i].price;
    if has_level(b, p) {
        let j = choose|j: int| 0 <= j < b.len() && #[trigger] b[j].price == p;
        if j < i {
            assert(a[j].price == p);
            assert(a[j].price < a[i].price);
        } else {
            assert(a[j + 1].price == p);
            assert(a[i].price < a[j + 1].price);
        }
    }
    assert forall|q: Price| q != p implies #[trigger] queue_at(b, q) == queue_at(a, q) by {
        if has_level(a, q) {
            let j = choose|j: int| 0 <= j < a.len() && #[trigger] a[j].price == q;
            lemma_queue_at(a, j);
            if j < i {
                assert(b[j] == a[j]);
                lemma_queue_at(b, j);
            } else {
                assert(j != i);
                assert(b[j - 1] == a[j]);
                lemma_queue_at(b, j - 1);
            }
        } else if has_level(b, q) {
            let j = choose|j: int| 0 <= j < b.len() && #[trigger] b[j].price == q;
            if j < i {
                assert(a[j].price == q);
            } else {
                assert(a[j + 1].price == q);
            }
        }
    }
}

/// Number of order ids queued over all levels.
pub open spec fn total(s: Seq<Level>) -> nat
    decreases s.len(),
{
    if s.len() == 0 {
        0
    } else {
        total(s.drop_last()) + s.last().orders@.len()
    }
}

/// All order ids queued in `s`, level by level, each level in arrival order.
pub open spec fn flat(s: Seq<Level>) -> Seq<OrderId>
    decreases s.len(),
{
    if s.len() == 0 {
        Seq::empty()
    } else {
        flat(s.drop_last()) + s.last().orders@
    }
}

proof fn lemma_total_update(s: Seq<Level>, i: int, x: Level)
    requires
        0 <= i < s.len(),
    ensures
        total(s.update(i, x)) == total(s) - s[i].orders@.len() + x.orders@.len(),
    decreases s.len(),
{
    if i == s.len() - 1 {
        assert(s.update(i, x).drop_last() =~= s.drop_last());
    } else {
        assert(s.update(i, x).drop_last() =~= s.drop_last().update(i, x));
        lemma_total_update(s.drop_last(), i, x);
    }
}

proof fn lemma_total_remove(s: Seq<Level>, i: int)
    requires
        0 <= i < s.len(),
    ensures
        total(s.remove(i)) == total(s) - s[i].orders@.len(),
    decreases s.len(),
{
    if i == s.len() - 1 {
        assert(s.remove(i) =~= s.drop_last());
    } else {
        assert(s.remove(i).drop_last() =~= s.drop_last().remove(i));
        lemma_total_remove(s.drop_last(), i);
    }
}

proof fn lemma_total_insert(s: Seq<Level>, i: int, x: Level)
    requires
        0 <= i <= s.len(),
    ensures
        total(s.insert(i, x)) == total(s) + x.orders@.len(),
    decreases s.len(),
{
    if i == s.len() {
        assert(s.insert(i, x).drop_last() =~= s);
    } else {
        assert(s.insert(i, x).drop_last() =~= s.drop_last().insert(i, x));
        lemma_total_insert(s.drop_last(), i, x);
    }
}

/// Finds the level at `price`: `(true, i)` when `levels[i]` has that price, otherwise
/// `(false, i)` with `i` the position where such a level would be inserted.
pub fn find_level(levels: &Vec<Level>, price: Price) -> (r: (bool, usize))
    requires
        sorted_levels(levels@),
    ensures
        r.1 <= levels@.len(),
        r.0 ==> r.1 < levels@.len() && levels@[r.1 as int].price == price,
        !r.0 ==> (forall|i: int| 0 <= i < r.1 ==> #[trigger] levels@[i].price < price) && (forall|
            i: int,
        |
            r.1 <= i < levels@.len() ==> #[trigger] levels@[i].price > price),
{
    let mut i: usize = 0;
    while i < levels.len()
        invariant
            i <= levels@.len(),
            sorted_levels(levels@),
            forall|j: int| 0 <= j < i ==> #[trigger] levels@[j].price < price,
        decreases levels@.len() - i,
    {
        if levels[i].price == price {
            return (true, i);
        }
        if levels[i].price > price {
            assert forall|j: int| i <= j < levels@.len() implies #[trigger] levels@[j].price
                > price by {
                if j > i {
                    assert(levels@[i as int].price < levels@[j].price);
                }
            }
            return (false, i);
        }
        i += 1;
    }
    (false, i)
}

/// Appends `id` to the queue at `price`, creating the level when needed.
pub fn level_push(levels: &mut Vec<Level>, price: Price, id: OrderId)
    requires
        sorted_levels(old(levels)@),
    ensures
        sorted_levels(final(levels)@),
        queue_at(final(levels)@, price) == queue_at(old(levels)@, price).push(id),
        forall|q: Price| q != price ==> #[trigger] queue_at(final(levels)@, q) == queue_at(
            old(levels)@,
            q,
        ),
        total(final(levels)@) == total(old(levels)@) + 1,
{
    let ghost a = levels@;
    let (found, i) = find_level(levels, price);
    if found {
        levels[i].orders.push(id);
        proof {
            let b = levels@;
            assert(b == a.update(i as int, b[i as int]));
            lemma_queue_at(a, i as int);
            lemma_queue_update(a, i as int, b[i as int]);
            lemma_total_update(a, i as int, b[i as int]);
        }
    } else {
        let mut v: Vec<OrderId> = Vec::new();
        v.push(id);
        levels.insert(i, Level { price, orders: v });
        proof {
            let b = levels@;
            assert(b == a.insert(i as int, b[i as int]));
            assert(sorted_levels(b)) by {
                assert forall|x: int, y: int| 0 <= x < y < b.len() implies #[trigger] b[x].price
                    < #[trigger] b[y].price by {
                    if y < i {
                        assert(a[x].price < a[y].price);
                    } else if x < i && y == i {
                    } else if x < i {
                        assert(b[y] == a[y - 1]);
                    } else if x == i {
                        assert(b[y] == a[y - 1]);
                    } else {
                        assert(a[x - 1].price < a[y - 1].price);
                    }
                }
                assert forall|x: int| 0 <= x < b.len() implies #[trigger] b[x].orders@.len()
                    > 0 by {
                    if x < i {
                        assert(b[x] == a[x]);
                    } else if x > i {
                        assert(b[x] == a[x - 1]);
                    }
                }
            }
            lemma_queue_insert(a, i as int, b[i as int]);
            lemma_total_insert(a, i as int, b[i as int]);
            assert(queue_at(b, price) =~= Seq::<OrderId>::empty().push(id));
        }
    }
}

/// Puts `id` at the head of the queue at `price`, creating the level when needed.
pub fn level_push_front(levels: &mut Vec<Level>, price: Price, id: OrderId)
    requires
        sorted_levels(old(levels)@),
    ensures
        sorted_levels(final(levels)@),
        queue_at(final(levels)@, price) == seq![id] + queue_at(old(levels)@, price),
        forall|q: Price| q != price ==> #[trigger] queue_at(final(levels)@, q) == queue_at(
            old(levels)@,
            q,
        ),
        total(final(levels)@) == total(old(levels)@) + 1,
{
    let ghost a = levels@;
    let (found, i) = find_level(levels, price);
    if found {
        levels[i].orders.insert(0, id);
        proof {
            let b = levels@;
            assert(b == a.update(i as int, b[i as int]));
            lemma_queue_at(a, i as int);
            lemma_queue_update(a, i as int, b[i as int]);
            lemma_total_update(a, i as int, b[i as int]);
            assert(b[i as int].orders@ =~= seq![id] + a[i as int].orders@);
        }
    } else {
        let mut v: Vec<OrderId> = Vec::new();
        v.push(id);
        levels.insert(i, Level { price, orders: v });
        proof {
            let b = levels@;
            assert(b == a.insert(i as int, b[i as int]));
            assert(sorted_levels(b)) by {
                assert forall|x: int, y: int| 0 <= x < y < b.len() implies #[trigger] b[x].price
                    < #[trigger] b[y].price by {
                    if y < i {
                        assert(a[x].price < a[y].price);
                    } else if x < i && y == i {
                    } else if x < i {
                        assert(b[y] == a[y - 1]);
                    } else if x == i {
                        assert(b[y] == a[y - 1]);
                    } else {
                        assert(a[x - 1].price < a[y - 1].price);
                    }
                }
                assert forall|x: int| 0 <= x < b.len() implies #[trigger] b[x].orders@.len()
                    > 0 by {
                    if x < i {
                        assert(b[x] == a[x]);
                    } else if x > i {
                        assert(b[x] == a[x - 1]);
                    }
                }
            }
            lemma_queue_insert(a, i as int, b[i as int]);
            lemma_total_insert(a, i as int, b[i as int]);
            assert(queue_at(b, price) =~= seq![id] + Seq::<OrderId>::empty());
        }
    }
}

/// Takes the first id of the queue at level `at`, dropping the level once empty.
pub fn level_pop_front(levels: &mut Vec<Level>, at: usize) -> (id: OrderId)
    requires
        sorted_levels(old(levels)@),
        at < old(levels)@.len(),
    ensures
        sorted_levels(final(levels)@),
        id == old(levels)@[at as int].orders@[0],
        queue_at(final(levels)@, old(levels)@[at as int].price) == old(levels)@[at as int].orders@.drop_first(),
        forall|q: Price| q != old(levels)@[at as int].price ==> #[trigger] queue_at(
            final(levels)@,
            q,
        ) == queue_at(old(levels)@, q),
        total(final(levels)@) + 1 == total(old(levels)@),
{
    let ghost a = levels@;
    let id = levels[at].orders.remove(0);
    if levels[at].orders.len() == 0 {
        proof {
            assert(levels@ == a.update(at as int, levels@[at as int]));
        }
        let ghost mid = levels@;
        levels.remove(at);
        proof {
            assert(levels@ == a.remove(at as int)) by {
                assert(levels@ =~= mid.remove(at as int));
                assert(mid.remove(at as int) =~= a.remove(at as int));
            }
            lemma_queue_remove(a, at as int);
            lemma_total_remove(a, at as int);
            assert(a[at as int].orders@.drop_first() =~= Seq::<OrderId>::empty());
        }
    } else {
        proof {
            let b = levels@;
            assert(b == a.update(at as int, b[at as int]));
            lemma_queue_update(a, at as int, b[at as int]);
            lemma_total_update(a, at as int, b[at as int]);
            assert(b[at as int].orders@ =~= a[at as int].orders@.drop_first());
        }
    }
    id
}

/// Removes the first occurrence of `id` from the queue at `price`; `false` (and no change)
/// when there is no level at `price` or `id` is not queued there.
pub fn level_remove_id(levels: &mut Vec<Level>, price: Price, id: OrderId) -> (r: bool)
    requires
        sorted_levels(old(levels)@),
    ensures
        sorted_levels(final(levels)@),
        r == queue_at(old(levels)@, price).contains(id),
        !r ==> final(levels)@ == old(levels)@,
        r ==> exists|k: int|
            0 <= k < queue_at(old(levels)@, price).len() && queue_at(old(levels)@, price)[k] == id
                && (forall|j: int| 0 <= j < k ==> queue_at(old(levels)@, price)[j] != id)
                && #[trigger] queue_at(final(levels)@, price) == queue_at(old(levels)@, price).remove(k),
        forall|q: Price| q != price ==> #[trigger] queue_at(final(levels)@, q) == queue_at(
            old(levels)@,
            q,
        ),
        r ==> total(final(levels)@) + 1 == total(old(levels)@),
{
    let ghost a = levels@;
    let (found, i) = find_level(levels, price);
    if !found {
        proof {
            lemma_queue_absent(a, price);
        }
        return false;
    }
    proof {
        lemma_queue_at(a, i as int);
    }
    let n = levels[i].orders.len();
    let mut k: usize = 0;
    while k < n
        invariant
            levels@ == a,
            i < a.len(),
            n == a[i as int].orders@.len(),
            k <= n,
            forall|j: int| 0 <= j < k ==> a[i as int].orders@[j] != id,
        ensures
            k == n || (k < n && a[i as int].orders@[k as int] == id),
        decreases n - k,
    {
        if levels[i].orders[k] == id {
            break;
        }
        k += 1;
    }
    if k == n {
        assert(!a[i as int].orders@.contains(id));
        return false;
    }
    assert(a[i as int].orders@[k as int] == id);
    levels[i].orders.remove(k);
    if levels[i].orders.len() == 0 {
        proof {
            assert(levels@ == a.update(i as int, levels@[i as int]));
        }
        let ghost mid = levels@;
        levels.remove(i);
        proof {
            assert(levels@ == a.remove(i as int)) by {
                assert(levels@ =~= mid.remove(i as int));
                assert(mid.remove(i as int) =~= a.remove(i as int));
            }
            lemma_queue_remove(a, i as int);
            lemma_total_remove(a, i as int);
            assert(a[i as int].orders@.remove(k as int) =~= Seq::<OrderId>::empty());
        }
    } else {
        proof {
            let b = levels@;
            assert(b == a.update(i as int, b[i as int]));
            lemma_queue_update(a, i as int, b[i as int]);
            lemma_total_update(a, i as int, b[i as int]);
        }
    }
    true
}

/// A side of a book: price levels that always stay sorted and non-empty.
#[derive(Debug)]
pub struct LevelList {
    levels: Vec<Level>,
}

impl LevelList {
    /// The levels are sorted and non-empty (always holds).
    #[verifier::type_invariant]
    pub open spec fn inv(&self) -> bool {
        sorted_levels(self.levels())
    }

    /// The levels, lowest price first.
    pub closed spec fn levels(&self) -> Seq<Level> {
        self.levels@
    }

    /// The queue at price `p`.
    pub open spec fn queue(&self, p: Price) -> Seq<OrderId> {
        queue_at(self.levels(), p)
    }

    /// Number of ids queued on this side.
    pub open spec fn size(&self) -> nat {
        total(self.levels())
    }

    /// An empty side.
    pub fn new() -> (r: Self)
        ensures
            r.levels() == Seq::<Level>::empty(),
    {
        LevelList { levels: Vec::new() }
    }

    /// Number of levels.
    pub fn len(&self) -> (r: usize)
        ensures
            r == self.levels().len(),
    {
        self.levels.len()
    }

    /// Price of level `i`.
    pub fn price_at(&self, i: usize) -> (r: Price)
        requires
            i < self.levels().len(),
        ensures
            r == self.levels()[i as int].price,
    {
        self.levels[i].price
    }

    /// The queue of level `i`, in arrival order.
    pub fn orders_at(&self, i: usize) -> (r: &Vec<OrderId>)
        requires
            i < self.levels().len(),
        ensures
            r@ == self.levels()[i as int].orders@,
    {
        &self.levels[i].orders
    }

    /// Every queued id, lowest price level first, each level in arrival order.
    pub fn all_ids(&self) -> (r: Vec<OrderId>)
        ensures
            r@ == flat(self.levels()),
    {
        let mut r: Vec<OrderId> = Vec::new();
        let mut i: usize = 0;
        while i < self.levels.len()
            invariant
                i <= self.levels@.len(),
                r@ == flat(self.levels@.take(i as int)),
            decreases self.levels@.len() - i,
        {
            let orders = &self.levels[i].orders;
            let mut j: usize = 0;
            while j < orders.len()
                invariant
                    j <= orders@.len(),
                    orders@ == self.levels@[i as int].orders@,
                    i < self.levels@.len(),
                    r@ == flat(self.levels@.take(i as int)) + orders@.take(j as int),
                decreases orders@.len() - j,
            {
                r.push(orders[j]);
                j += 1;
                proof {
                    assert(orders@.take(j as int) == orders@.take(j - 1).push(orders@[j - 1]));
                }
            }
            proof {
                let t = self.levels@.take(i + 1);
                assert(t.drop_last() == self.levels@.take(i as int));
                assert(orders@.take(j as int) == orders@);
            }
            i += 1;
        }
        proof {
            assert(self.levels@.take(i as int) == self.levels@);
        }
        r
    }

    /// Finds the level at `price` (see [`find_level`]).
    pub fn find(&self, price: Price) -> (r: (bool, usize))
        ensures
            r.1 <= self.levels().len(),
            r.0 ==> r.1 < self.levels().len() && self.levels()[r.1 as int].price == price,
            !r.0 ==> (forall|i: int| 0 <= i < r.1 ==> #[trigger] self.levels()[i].price < price) && (
            forall|i: int| r.1 <= i < self.levels().len() ==> #[trigger] self.levels()[i].price > price),
    {
        proof {
            use_type_invariant(self);
        }
        find_level(&self.levels, price)
    }

    /// Appends `id` at `price`.
    pub fn push(&mut self, price: Price, id: OrderId)
        ensures
            final(self).queue(price) == old(self).queue(price).push(id),
            forall|q: Price| q != price ==> #[trigger] final(self).queue(q) == old(self).queue(q),
            final(self).size() == old(self).size() + 1,
    {
        proof {
            use_type_invariant(&*self);
        }
        let mut levels = Vec::new();
        std::mem::swap(&mut levels, &mut self.levels);
        level_push(&mut levels, price, id);
        self.levels = levels;
    }

    /// Puts `id` at the head of the queue at `price`.
    pub fn push_front(&mut self, price: Price, id: OrderId)
        ensures
            final(self).queue(price) == seq![id] + old(self).queue(price),
            forall|q: Price| q != price ==> #[trigger] final(self).queue(q) == old(self).queue(q),
            final(self).size() == old(self).size() + 1,
    {
        proof {
            use_type_invariant(&*self);
        }
        let mut levels = Vec::new();
        std::mem::swap(&mut levels, &mut self.levels);
        level_push_front(&mut levels, price, id);
        self.levels = levels;
    }

    /// Takes the first id queued at level `at`.
    pub fn pop_front_at(&mut self, at: usize) -> (id: OrderId)
        requires
            at < old(self).levels().len(),
        ensures
            id == old(self).levels()[at as int].orders@[0],
            final(self).queue(old(self).levels()[at as int].price) == old(self).levels()[at as int].orders@.drop_first(),
            forall|q: Price| q != old(self).levels()[at as int].price ==> #[trigger] final(self).queue(q) == old(self).queue(q),
            final(self).size() + 1 == old(self).size(),
    {
        proof {
            use_type_invariant(&*self);
        }
        let mut levels = Vec::new();
        std::mem::swap(&mut levels, &mut self.levels);
        let id = level_pop_front(&mut levels, at);
        self.levels = levels;
        id
    }

    /// Removes the first occurrence of `id` at `price` (see [`level_remove_id`]).
    pub fn remove_id(&mut self, price: Price, id: OrderId) -> (r: bool)
        ensures
            r == old(self).queue(price).contains(id),
            !r ==> final(self).levels() == old(self).levels(),
            r ==> exists|k: int|
                0 <= k < old(self).queue(price).len() && old(self).queue(price)[k] == id && (forall|
                    j: int,
                | 0 <= j < k ==> old(self).queue(price)[j] != id) && #[trigger] final(self).queue(
                    price,
                ) == old(self).queue(price).remove(k),
            forall|q: Price| q != price ==> #[trigger] final(self).queue(q) == old(self).queue(q),
            r ==> final(self).size() + 1 == old(self).size(),
    {
        proof {
            use_type_invariant(&*self);
        }
        let mut levels = Vec::new();
        std::mem::swap(&mut levels, &mut self.levels);
        let r = level_remove_id(&mut levels, price, id);
        self.levels = levels;
        r
    }
}

} // verus!
