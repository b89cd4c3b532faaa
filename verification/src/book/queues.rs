//! Queues of resting order ids per side and price, and how a book's queues agree with
//! the locations it reports. Books whose queues live in different structures state
//! their consistency through [`queues_match`] and share these lemmas.

use vstd::prelude::*;
use crate::book::{at_least_as_good, best_matches, has_side, is_best};
use crate::types::{OrderId, Price, Side};

verus! {

/// The queues `q` agree with `locs`: every located id is queued at its location, every
/// queued id is located where it is queued, and no queue holds an id twice.
pub open spec fn queues_match(
    locs: Map<OrderId, (Price, Side)>,
    q: spec_fn(Side, Price) -> Seq<OrderId>,
) -> bool {
    &&& forall|id: OrderId| #[trigger] locs.contains_key(id) ==> q(locs[id].1, locs[id].0).contains(id)
    &&& forall|s: Side, p: Price, k: int|
        0 <= k < q(s, p).len() ==> locs.contains_key(#[trigger] q(s, p)[k]) && locs[q(s, p)[k]] == (
        p,
        s,
    )
    &&& forall|s: Side, p: Price| #[trigger] q(s, p).no_duplicates()
}

/// `p` is the best price with a non-empty queue on `side`.
pub open spec fn best_in(q: spec_fn(Side, Price) -> Seq<OrderId>, side: Side, p: Price) -> bool {
    &&& q(side, p).len() > 0
    &&& forall|x: Price| #[trigger] q(side, x).len() > 0 ==> at_least_as_good(side, p, x)
}

/// Every queue on `side` is empty.
pub open spec fn empty_in(q: spec_fn(Side, Price) -> Seq<OrderId>, side: Side) -> bool {
    forall|x: Price| #[trigger] q(side, x).len() == 0
}

/// With matching queues, the best queue's price is the best located price.
pub proof fn lemma_best_located(
    locs: Map<OrderId, (Price, Side)>,
    q: spec_fn(Side, Price) -> Seq<OrderId>,
    side: Side,
    r: Option<Price>,
)
    requires
        queues_match(locs, q),
        match r {
            Some(p) => best_in(q, side, p),
            None => empty_in(q, side),
        },
    ensures
        best_matches(locs, side, r),
{
    match r {
        Some(p) => {
            let id = q(side, p)[0];
            assert(locs.contains_key(id) && locs[id] == (p, side));
            assert forall|id2: OrderId| #[trigger] locs.contains_key(id2) && locs[id2].1
                == side implies at_least_as_good(side, p, locs[id2].0) by {
                assert(q(locs[id2].1, locs[id2].0).contains(id2));
                assert(q(side, locs[id2].0).len() > 0);
            }
        },
        None => {
            if has_side(locs, side) {
                let id2 = choose|id2: OrderId| #[trigger] locs.contains_key(id2) && locs[id2].1 == side;
                assert(q(locs[id2].1, locs[id2].0).contains(id2));
                assert(q(side, locs[id2].0).len() == 0);
            }
        },
    }
}

/// Putting a new id at the head of the queue at its location keeps the queues matching.
pub proof fn lemma_match_push_front(
    pl: Map<OrderId, (Price, Side)>,
    ql: Map<OrderId, (Price, Side)>,
    qa: spec_fn(Side, Price) -> Seq<OrderId>,
    qb: spec_fn(Side, Price) -> Seq<OrderId>,
    side: Side,
    price: Price,
    id: OrderId,
)
    requires
        queues_match(pl, qa),
        !pl.contains_key(id),
        ql == pl.insert(id, (price, side)),
        qb(side, price) == seq![id] + qa(side, price),
        forall|s: Side, x: Price| (s, x) != (side, price) ==> #[trigger] qb(s, x) == qa(s, x),
    ensures
        queues_match(ql, qb),
{
    assert forall|id2: OrderId| #[trigger] ql.contains_key(id2) implies qb(ql[id2].1, ql[id2].0).contains(id2) by {
        if id2 == id {
            assert(qb(side, price)[0] == id);
        } else {
            assert(qa(pl[id2].1, pl[id2].0).contains(id2));
            let j = choose|j: int| 0 <= j < qa(pl[id2].1, pl[id2].0).len() && #[trigger] qa(pl[id2].1, pl[id2].0)[j] == id2;
            if (pl[id2].1, pl[id2].0) == (side, price) {
                assert(qb(side, price)[j + 1] == id2);
            } else {
                assert(qb(pl[id2].1, pl[id2].0)[j] == id2);
            }
        }
    }
    assert forall|s: Side, p: Price, k: int| 0 <= k < qb(s, p).len() implies ql.contains_key(#[trigger] qb(s, p)[k])
        && ql[qb(s, p)[k]] == (p, s) by {
        if (s, p) == (side, price) {
            if k > 0 {
                assert(qb(s, p)[k] == qa(s, p)[k - 1]);
                assert(pl.contains_key(qa(s, p)[k - 1]));
            }
        } else {
            assert(qb(s, p)[k] == qa(s, p)[k]);
            assert(pl.contains_key(qa(s, p)[k]));
        }
    }
    assert forall|s: Side, p: Price| #[trigger] qb(s, p).no_duplicates() by {
        assert(qa(s, p).no_duplicates());
        if (s, p) == (side, price) {
            let q0 = qa(s, p);
            assert forall|a: int, b: int| 0 <= a < b < q0.len() + 1 implies #[trigger] qb(s, p)[a] != #[trigger] qb(s, p)[b] by {
                if a == 0 {
                    assert(qb(s, p)[b] == q0[b - 1]);
                    assert(pl.contains_key(q0[b - 1]));
                } else {
                    assert(qb(s, p)[a] == q0[a - 1]);
                    assert(qb(s, p)[b] == q0[b - 1]);
                }
            }
        }
    }
}

/// Pushing a new id onto the queue at its location keeps the queues matching.
pub proof fn lemma_match_push(
    pl: Map<OrderId, (Price, Side)>,
    ql: Map<OrderId, (Price, Side)>,
    qa: spec_fn(Side, Price) -> Seq<OrderId>,
    qb: spec_fn(Side, Price) -> Seq<OrderId>,
    side: Side,
    price: Price,
    id: OrderId,
)
    requires
        queues_match(pl, qa),
        !pl.contains_key(id),
        ql == pl.insert(id, (price, side)),
        qb(side, price) == qa(side, price).push(id),
        forall|s: Side, x: Price| (s, x) != (side, price) ==> #[trigger] qb(s, x) == qa(s, x),
    ensures
        queues_match(ql, qb),
{
    assert forall|id2: OrderId| #[trigger] ql.contains_key(id2) implies qb(ql[id2].1, ql[id2].0).contains(id2) by {
        if id2 == id {
            assert(qb(side, price)[qa(side, price).len() as int] == id);
        } else {
            assert(qa(pl[id2].1, pl[id2].0).contains(id2));
            let j = choose|j: int| 0 <= j < qa(pl[id2].1, pl[id2].0).len() && #[trigger] qa(pl[id2].1, pl[id2].0)[j] == id2;
            assert(qb(pl[id2].1, pl[id2].0)[j] == id2);
        }
    }
    assert forall|s: Side, p: Price, k: int| 0 <= k < qb(s, p).len() implies ql.contains_key(#[trigger] qb(s, p)[k])
        && ql[qb(s, p)[k]] == (p, s) by {
        if (s, p) == (side, price) && k == qa(s, p).len() {
        } else {
            assert(qb(s, p)[k] == qa(s, p)[k]);
            assert(pl.contains_key(qa(s, p)[k]));
        }
    }
    assert forall|s: Side, p: Price| #[trigger] qb(s, p).no_duplicates() by {
        assert(qa(s, p).no_duplicates());
        if (s, p) == (side, price) {
            let q0 = qa(s, p);
            assert forall|a: int, b: int| 0 <= a < b < q0.len() + 1 implies #[trigger] qb(s, p)[a] != #[trigger] qb(s, p)[b] by {
                if b == q0.len() {
                    assert(pl.contains_key(q0[a]));
                }
            }
        }
    }
}

/// Taking the id at position `k` out of a queue (and out of the locations) keeps the
/// queues matching; the id was located there.
pub proof fn lemma_match_take(
    pl: Map<OrderId, (Price, Side)>,
    ql: Map<OrderId, (Price, Side)>,
    qa: spec_fn(Side, Price) -> Seq<OrderId>,
    qb: spec_fn(Side, Price) -> Seq<OrderId>,
    s0: Side,
    p: Price,
    k: int,
)
    requires
        queues_match(pl, qa),
        0 <= k < qa(s0, p).len(),
        qb(s0, p) == qa(s0, p).remove(k),
        forall|s: Side, x: Price| (s, x) != (s0, p) ==> #[trigger] qb(s, x) == qa(s, x),
        ql == pl.remove(qa(s0, p)[k]),
    ensures
        queues_match(ql, qb),
        pl.contains_key(qa(s0, p)[k]),
        pl[qa(s0, p)[k]] == (p, s0),
{
    let q0 = qa(s0, p);
    let id = q0[k];
    assert(q0.no_duplicates());
    assert(pl.contains_key(q0[k]));
    assert forall|id2: OrderId| #[trigger] ql.contains_key(id2) implies qb(ql[id2].1, ql[id2].0).contains(id2) by {
        assert(qa(pl[id2].1, pl[id2].0).contains(id2));
        let j = choose|j: int| 0 <= j < qa(pl[id2].1, pl[id2].0).len() && #[trigger] qa(pl[id2].1, pl[id2].0)[j] == id2;
        if (pl[id2].1, pl[id2].0) == (s0, p) {
            assert(j != k);
            if j < k {
                assert(qb(s0, p)[j] == id2);
            } else {
                assert(qb(s0, p)[j - 1] == id2);
            }
        }
    }
    assert forall|s: Side, x: Price, j: int| 0 <= j < qb(s, x).len() implies ql.contains_key(#[trigger] qb(s, x)[j])
        && ql[qb(s, x)[j]] == (x, s) by {
        if (s, x) == (s0, p) {
            if j < k {
                assert(qb(s, x)[j] == q0[j]);
                assert(pl.contains_key(q0[j]));
            } else {
                assert(qb(s, x)[j] == q0[j + 1]);
                assert(pl.contains_key(q0[j + 1]));
            }
        } else {
            assert(pl.contains_key(qa(s, x)[j]));
            assert(qa(s, x)[j] != id);
        }
    }
    assert forall|s: Side, x: Price| #[trigger] qb(s, x).no_duplicates() by {
        assert(qa(s, x).no_duplicates());
        if (s, x) == (s0, p) {
            assert forall|a: int, b: int| 0 <= a < b < qb(s, x).len() implies #[trigger] qb(s, x)[a] != #[trigger] qb(s, x)[b] by {
                let a2 = if a < k { a } else { a + 1 };
                let b2 = if b < k { b } else { b + 1 };
                assert(qb(s, x)[a] == q0[a2]);
                assert(qb(s, x)[b] == q0[b2]);
            }
        }
    }
}

/// Unchanged queues and locations stay matching.
pub proof fn lemma_match_same(
    pl: Map<OrderId, (Price, Side)>,
    ql: Map<OrderId, (Price, Side)>,
    qa: spec_fn(Side, Price) -> Seq<OrderId>,
    qb: spec_fn(Side, Price) -> Seq<OrderId>,
)
    requires
        queues_match(pl, qa),
        ql == pl,
        forall|s: Side, x: Price| #[trigger] qb(s, x) == qa(s, x),
    ensures
        queues_match(ql, qb),
{
    assert forall|s: Side, p: Price| #[trigger] qb(s, p).no_duplicates() by {
        assert(qa(s, p).no_duplicates());
    }
    assert forall|s: Side, p: Price, k: int| 0 <= k < qb(s, p).len() implies ql.contains_key(#[trigger] qb(s, p)[k])
        && ql[qb(s, p)[k]] == (p, s) by {
        assert(pl.contains_key(qa(s, p)[k]));
    }
    assert forall|id: OrderId| #[trigger] ql.contains_key(id) implies qb(ql[id].1, ql[id].0).contains(id) by {
        assert(qa(pl[id].1, pl[id].0).contains(id));
    }
}

} // verus!
