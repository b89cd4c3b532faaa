//! HashMap-based order store (simple, good for tests and baseline).

use std::collections::HashMap;
use vstd::prelude::*;
use crate::store::{OrderStore, OrderStoreError};
use crate::types::{Order, OrderId};

verus! {

broadcast use vstd::std_specs::hash::group_hash_axioms;

/// Order store backed by a `HashMap<OrderId, Order>`.
#[derive(Debug)]
pub struct HashMapOrderStore {
    map: HashMap<OrderId, Order>,
}

impl HashMapOrderStore {
    /// Creates an empty store.
    pub fn new() -> (r: Self)
        ensures
            r.orders() == Map::<OrderId, Order>::empty(),
    {
        Self { map: HashMap::new() }
    }
}

impl OrderStore for HashMapOrderStore {
    closed spec fn orders(&self) -> Map<OrderId, Order> {
        self.map@
    }

    open spec fn admits(order_id: OrderId) -> bool {
        true
    }

    fn insert(&mut self, order: &Order) -> (r: Result<(), OrderStoreError>) {
        if self.map.contains_key(&order.id) {
            return Err(OrderStoreError::AlreadyExists(order.id));
        }
        self.map.insert(order.id, *order);
        Ok(())
    }

    fn remove(&mut self, order_id: &OrderId) -> (r: Result<Order, OrderStoreError>) {
        match self.map.remove(order_id) {
            Some(o) => Ok(o),
            None => Err(OrderStoreError::NotFound(*order_id)),
        }
    }

    fn get(&self, order_id: &OrderId) -> (r: Option<Order>) {
        match self.map.get(order_id) {
            Some(o) => Some(*o),
            None => None,
        }
    }
}

impl Default for HashMapOrderStore {
    /// Same as [`HashMapOrderStore::new`].
    fn default() -> (r: Self)
        ensures
            r.orders() == Map::<OrderId, Order>::empty(),
    {
        Self::new()
    }
}

} // verus!
