//! The concurrent maps behind [`super::DashSkipOrderBook`]: a `crossbeam_skiplist::SkipMap`
//! of the prices that have a level and a `dashmap::DashMap` from price to its queue. Verus
//! sees neither inside, so what they hold is named here, and each method the book calls
//! has a wrapper whose contract states, over those names, what the crates' sources show.

use crossbeam_skiplist::SkipMap;
use dashmap::DashMap;
use vstd::prelude::*;
use crate::types::{OrderId, Price};

verus! {

/// `crossbeam_skiplist::SkipMap`, an ordered map; opaque to Verus.
#[verifier::external_type_specification]
#[verifier::external_body]
#[verifier::reject_recursive_types(K)]
#[verifier::reject_recursive_types(V)]
pub struct ExSkipMap<K, V>(SkipMap<K, V>);

/// `dashmap::DashMap`, a sharded hash map; opaque to Verus.
#[verifier::external_type_specification]
#[verifier::external_body]
#[verifier::reject_recursive_types(K)]
#[verifier::reject_recursive_types(V)]
#[verifier::reject_recursive_types(S)]
pub struct ExDashMap<K, V, S>(DashMap<K, V, S>);

/// The keys a skip map of prices holds.
pub uninterp spec fn skip_prices(m: SkipMap<Price, ()>) -> Set<Price>;

/// The queue a dash map of levels holds at each price.
pub uninterp spec fn dash_queues(m: DashMap<Price, Vec<OrderId>>) -> Map<Price, Seq<OrderId>>;

/// `SkipMap::new`: an empty map.
#[verifier::external_body]
pub(crate) fn skip_new() -> (r: SkipMap<Price, ()>)
    ensures
        skip_prices(r) == Set::<Price>::empty(),
{
    SkipMap::new()
}

/// `SkipMap::insert`: the key is in the map afterwards (an entry it had is replaced).
#[verifier::external_body]
pub(crate) fn skip_insert(m: &mut SkipMap<Price, ()>, price: Price)
    ensures
        skip_prices(*final(m)) == skip_prices(*old(m)).insert(price),
{
    m.insert(price, ());
}

/// `SkipMap::remove`: the key is not in the map afterwards.
#[verifier::external_body]
pub(crate) fn skip_remove(m: &mut SkipMap<Price, ()>, price: Price)
    ensures
        skip_prices(*final(m)) == skip_prices(*old(m)).remove(price),
{
    m.remove(&price);
}

/// `SkipMap::front`: the smallest key, `None` for an empty map.
#[verifier::external_body]
pub(crate) fn skip_front(m: &SkipMap<Price, ()>) -> (r: Option<Price>)
    ensures
        match r {
            Some(p) => skip_prices(*m).contains(p) && forall|q: Price| #[trigger] skip_prices(*m).contains(q) ==> p <= q,
            None => skip_prices(*m) == Set::<Price>::empty(),
        },
{
    m.front().map(|e| *e.key())
}

/// `SkipMap::back`: the largest key, `None` for an empty map.
#[verifier::external_body]
pub(crate) fn skip_back(m: &SkipMap<Price, ()>) -> (r: Option<Price>)
    ensures
        match r {
            Some(p) => skip_prices(*m).contains(p) && forall|q: Price| #[trigger] skip_prices(*m).contains(q) ==> q <= p,
            None => skip_prices(*m) == Set::<Price>::empty(),
        },
{
    m.back().map(|e| *e.key())
}

/// `DashMap::new`: an empty map.
#[verifier::external_body]
pub(crate) fn dash_new() -> (r: DashMap<Price, Vec<OrderId>>)
    ensures
        dash_queues(r).dom() == Set::<Price>::empty(),
{
    DashMap::new()
}

/// `DashMap::insert`: `price` maps to `queue` afterwards; the queue it mapped to before,
/// if any, is handed back.
#[verifier::external_body]
pub(crate) fn dash_insert(m: &mut DashMap<Price, Vec<OrderId>>, price: Price, queue: Vec<OrderId>) -> (r: Option<Vec<OrderId>>)
    ensures
        dash_queues(*final(m)) == dash_queues(*old(m)).insert(price, queue@),
        match r {
            Some(q) => dash_queues(*old(m)).contains_key(price) && q@ == dash_queues(*old(m))[price],
            None => !dash_queues(*old(m)).contains_key(price),
        },
{
    m.insert(price, queue)
}

/// `DashMap::remove`: `price` is not in the map afterwards; the queue it mapped to, if
/// any, is handed back.
#[verifier::external_body]
pub(crate) fn dash_remove(m: &mut DashMap<Price, Vec<OrderId>>, price: Price) -> (r: Option<Vec<OrderId>>)
    ensures
        dash_queues(*final(m)) == dash_queues(*old(m)).remove(price),
        match r {
            Some(q) => dash_queues(*old(m)).contains_key(price) && q@ == dash_queues(*old(m))[price],
            None => !dash_queues(*old(m)).contains_key(price),
        },
{
    m.remove(&price).map(|entry| entry.1)
}

} // verus!
