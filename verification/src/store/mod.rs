//! Order storage: the authoritative copy of every resting order.

pub mod service;

use vstd::prelude::*;
use vstd::string::*;
use crate::text::{owned, push_decimal, decimal};
use crate::types::{Order, OrderId, ParticipantId};

verus! {

/// Order store error
#[derive(Debug)]
pub enum OrderStoreError {
    /// Order already exists
    AlreadyExists(OrderId),
    /// Order not found
    NotFound(OrderId),
    /// Participant mismatch
    ParticipantMismatch {
        /// Order ID
        order_id: OrderId,
        /// Expected participant ID
        expected: ParticipantId,
        /// Actual participant ID
        actual: ParticipantId,
    },
    /// Corrupted state (invariant violation, should never happen)
    CorruptedState(String),
    /// Unexpected error
    UnexpectedError(String),
}

impl OrderStoreError {
    /// The human-readable message of this error.
    pub open spec fn message(&self) -> Seq<char> {
        match self {
            OrderStoreError::AlreadyExists(id) => "order already exists: "@ + decimal(*id as nat),
            OrderStoreError::NotFound(id) => "order not found: "@ + decimal(*id as nat),
            OrderStoreError::ParticipantMismatch { order_id, expected, actual } =>
                "participant mismatch: "@ + decimal(*order_id as nat) + ", expected: "@
                    + decimal(*expected as nat) + ", vs actual: "@ + decimal(*actual as nat),
            OrderStoreError::CorruptedState(s) => "corrupted state: "@ + s@,
            OrderStoreError::UnexpectedError(s) => "unexpected error: "@ + s@,
        }
    }

    /// Renders the error message.
    pub fn to_string(&self) -> (r: String)
        ensures
            r@ == self.message(),
    {
        match self {
            OrderStoreError::AlreadyExists(id) => {
                let mut r = owned("order already exists: ");
                push_decimal(&mut r, *id);
                r
            },
            OrderStoreError::NotFound(id) => {
                let mut r = owned("order not found: ");
                push_decimal(&mut r, *id);
                r
            },
            OrderStoreError::ParticipantMismatch { order_id, expected, actual } => {
                let mut r = owned("participant mismatch: ");
                push_decimal(&mut r, *order_id);
                r.append(", expected: ");
                push_decimal(&mut r, *expected);
                r.append(", vs actual: ");
                push_decimal(&mut r, *actual);
                r
            },
            OrderStoreError::CorruptedState(s) => {
                let mut r = owned("corrupted state: ");
                r.append(s.as_str());
                r
            },
            OrderStoreError::UnexpectedError(s) => {
                let mut r = owned("unexpected error: ");
                r.append(s.as_str());
                r
            },
        }
    }
}

/// Order store trait: a map from order id to the canonical order payload.
pub trait OrderStore {
    /// The orders held, by id.
    open spec fn orders(&self) -> Map<OrderId, Order> {
        Map::empty()
    }

    /// Whether the store can hold an order with this id at all (a store that does not
    /// say holds every id).
    open spec fn admits(order_id: OrderId) -> bool {
        true
    }

    /// Insert an order into the store; an order with the same id must not be present.
    fn insert(&mut self, order: &Order) -> (r: Result<(), OrderStoreError>)
        requires
            Self::admits(order.id),
        ensures
            match r {
                Ok(()) => !old(self).orders().contains_key(order.id) && final(self).orders()
                    == old(self).orders().insert(order.id, *order),
                Err(e) => old(self).orders().contains_key(order.id) && e
                    == OrderStoreError::AlreadyExists(order.id) && final(self).orders()
                    == old(self).orders(),
            },
    ;

    /// Remove an order from the store, handing it back.
    fn remove(&mut self, order_id: &OrderId) -> (r: Result<Order, OrderStoreError>)
        ensures
            match r {
                Ok(o) => old(self).orders().contains_key(*order_id) && o == old(self).orders()[*order_id] && final(self).orders() == old(self).orders().remove(
                    *order_id,
                ),
                Err(e) => !old(self).orders().contains_key(*order_id) && e
                    == OrderStoreError::NotFound(*order_id) && final(self).orders() == old(self).orders(),
            },
    ;

    /// Get a copy of an order from the store.
    fn get(&self, order_id: &OrderId) -> (r: Option<Order>)
        ensures
            r == (if self.orders().contains_key(*order_id) {
                Some(self.orders()[*order_id])
            } else {
                None
            }),
    ;
}

/// Laws of every store, over the model its methods are specified on: a stored order is
/// read back as stored, and removing it hands it back and leaves the other orders as they
/// were before it was inserted.
pub proof fn law_insert_get_remove(before: Map<OrderId, Order>, order: Order)
    requires
        !before.contains_key(order.id),
    ensures
        before.insert(order.id, order).contains_key(order.id),
        before.insert(order.id, order)[order.id] == order,
        before.insert(order.id, order).remove(order.id) == before,
{
    assert(before.insert(order.id, order).remove(order.id) =~= before);
}

} // verus!
