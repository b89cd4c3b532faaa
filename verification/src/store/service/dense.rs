//! Dense order store indexed by OrderId (O(1) lookup; itch-style).

use vstd::prelude::*;
use crate::store::{OrderStore, OrderStoreError};
use crate::types::{Order, OrderId};

verus! {

/// Order store backed by a `Vec<Option<Order>>` indexed by OrderId.
#[derive(Debug)]
pub struct DenseOrderStore {
    data: Vec<Option<Order>>,
}

impl Default for DenseOrderStore {
    fn default() -> (r: Self)
        ensures
            r.orders() == Map::<OrderId, Order>::empty(),
            r.slots() == 0,
    {
        Self::new()
    }
}

impl DenseOrderStore {
    /// Number of slots currently allocated (ids below it are directly addressable).
    pub closed spec fn slots(&self) -> nat {
        self.data@.len()
    }

    /// Creates an empty store.
    pub fn new() -> (r: Self)
        ensures
            r.orders() == Map::<OrderId, Order>::empty(),
            r.slots() == 0,
    {
        let r = Self { data: Vec::new() };
        assert(r.orders() =~= Map::<OrderId, Order>::empty());
        r
    }

    /// Ensures capacity for at least `order_id + 1` slots (so index `order_id` is valid).
    pub fn reserve(&mut self, order_id: OrderId)
        requires
            (order_id as int) < usize::MAX,
        ensures
            final(self).orders() == old(self).orders(),
            final(self).slots() as int == if old(self).slots() > order_id {
                old(self).slots() as int
            } else {
                order_id + 1
            },
    {
        let idx = order_id as usize;
        let ghost before = self.orders();
        while self.data.len() <= idx
            invariant
                self.orders() == before,
                self.data@.len() <= idx + 1 || self.data@.len() == old(self).data@.len(),
                self.data@.len() >= old(self).data@.len(),
                forall|i: int| 0 <= i < old(self).data@.len() ==> self.data@[i] == old(self).data@[i],
                forall|i: int| old(self).data@.len() <= i < self.data@.len() ==> self.data@[i] is None,
            decreases idx + 1 - self.data@.len(),
        {
            self.data.push(None);
            assert(self.orders() =~= before);
        }
    }
}

impl OrderStore for DenseOrderStore {
    closed spec fn orders(&self) -> Map<OrderId, Order> {
        Map::new(
            |id: OrderId| (id as int) < self.data@.len() && self.data@[id as int] is Some,
            |id: OrderId| self.data@[id as int]->Some_0,
        )
    }

    open spec fn admits(order_id: OrderId) -> bool {
        (order_id as int) < usize::MAX
    }

    fn insert(&mut self, order: &Order) -> (r: Result<(), OrderStoreError>) {
        self.reserve(order.id);
        let idx = order.id as usize;
        if self.data[idx].is_some() {
            return Err(OrderStoreError::AlreadyExists(order.id));
        }
        let ghost before = self.orders();
        self.data.set(idx, Some(*order));
        assert(self.orders() =~= before.insert(order.id, *order));
        Ok(())
    }

    fn remove(&mut self, order_id: &OrderId) -> (r: Result<Order, OrderStoreError>) {
        let n = self.data.len();
        if *order_id >= n as u64 {
            return Err(OrderStoreError::NotFound(*order_id));
        }
        let idx = *order_id as usize;
        match self.data[idx] {
            Some(o) => {
                let ghost before = self.orders();
                self.data.set(idx, None);
                assert(self.orders() =~= before.remove(*order_id));
                Ok(o)
            },
            None => Err(OrderStoreError::NotFound(*order_id)),
        }
    }

    fn get(&self, order_id: &OrderId) -> (r: Option<Order>) {
        let n = self.data.len();
        if *order_id >= n as u64 {
            return None;
        }
        self.data[*order_id as usize]
    }
}

} // verus!
