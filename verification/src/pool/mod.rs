//! Pool of reusable order shells.

use vstd::prelude::*;
use crate::types::{Order, default_order};

verus! {

/// Reuses `Order` allocations between logical lifetimes (fill/cancel/custom adapters).
#[derive(Debug)]
pub struct OrderPool {
    free: Vec<Order>,
}

impl OrderPool {
    /// Every pooled shell is a default order.
    pub closed spec fn wf(&self) -> bool {
        forall|i: int| 0 <= i < self.free@.len() ==> #[trigger] self.free@[i] == default_order()
    }

    /// Number of shells waiting in the pool.
    pub closed spec fn pooled(&self) -> nat {
        self.free@.len()
    }

    /// An empty pool.
    pub fn new() -> (r: Self)
        ensures
            r.wf(),
            r.pooled() == 0,
    {
        OrderPool { free: Vec::new() }
    }

    /// Returns a cleared shell from the pool or [`Order::default`].
    pub fn take(&mut self) -> (r: Order)
        requires
            old(self).wf(),
        ensures
            final(self).wf(),
            r == default_order(),
            old(self).pooled() > 0 ==> final(self).pooled() == old(self).pooled() - 1,
            old(self).pooled() == 0 ==> final(self).pooled() == 0,
    {
        match self.free.pop() {
            Some(o) => o,
            None => Order::default(),
        }
    }

    /// Returns a used shell to the pool (replaced with a default instance for reuse).
    pub fn recycle(&mut self, _finished: Order)
        requires
            old(self).wf(),
        ensures
            final(self).wf(),
            final(self).pooled() == old(self).pooled() + 1,
    {
        self.free.push(Order::default());
    }

    /// Clears pooled entries (e.g. after a bounded test batch).
    pub fn clear(&mut self)
        ensures
            final(self).wf(),
            final(self).pooled() == 0,
    {
        self.free.clear();
    }
}

impl Default for OrderPool {
    /// An empty pool.
    fn default() -> (r: Self)
        ensures
            r.wf(),
            r.pooled() == 0,
    {
        OrderPool::new()
    }
}

} // verus!
