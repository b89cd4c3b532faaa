//! The engine interface: commands and the service that applies them.

mod models;
mod service;
pub mod builder;

pub use builder::{EngineBuilder, Missing, Present, builder};
pub use models::{
    AddOrderCommand, CancelByOrderIdCommand, CancelOrderCommand, ExecuteOrderCommand,
    OrderCommand, ReduceOrderCommand, ReplaceOrderByNewIdCommand, ReplaceOrderCommand,
};
pub use service::{
    OrderMatchingEngine, book_matches_store, ok_or_sink_failed, order_bounded, store_bounded, ownership_check, positive_trades, price_fits,
    rejected_with, trade_sum, trades_by, validate_order_ownership, validate_order_price,
};

use vstd::prelude::*;
use crate::error::Result;

verus! {

/// Order matching service trait (the engine interface). Protocols (e.g. ITCH) produce
/// [`OrderCommand`] and call [`Self::process`].
pub trait OrderMatchingService {
    /// The service's own invariant, which every command keeps.
    open spec fn inv(&self) -> bool {
        true
    }

    /// Whether the service can hold what `cmd` creates (a service without a limit on
    /// order ids admits every command).
    open spec fn admits(cmd: OrderCommand) -> bool {
        true
    }

    /// What the service does for `cmd`: it goes from `before` to `self` and answers `r`
    /// (a service that says nothing of its steps holds this of every step).
    open spec fn applied(&self, before: &Self, cmd: OrderCommand, r: Result<()>) -> bool {
        true
    }

    /// Process an order matching command.
    fn process(&mut self, cmd: OrderCommand) -> (r: Result<()>)
        requires
            old(self).inv(),
            Self::admits(cmd),
        ensures
            final(self).inv(),
            final(self).applied(old(self), cmd, r),
    {
        match cmd {
            OrderCommand::Add(c) => self.add(c),
            OrderCommand::Cancel(c) => self.cancel(c),
            OrderCommand::Replace(c) => self.replace(c),
            OrderCommand::CancelByOrderId(c) => self.cancel_by_order_id(c),
            OrderCommand::Reduce(c) => self.reduce(c),
            OrderCommand::Execute(c) => self.execute(c),
            OrderCommand::ReplaceByNewId(c) => self.replace_by_new_id(c),
        }
    }

    /// Add an order.
    fn add(&mut self, cmd: AddOrderCommand) -> (r: Result<()>)
        requires
            old(self).inv(),
            Self::admits(OrderCommand::Add(cmd)),
        ensures
            final(self).inv(),
            final(self).applied(old(self), OrderCommand::Add(cmd), r),
    ;

    /// Cancel an order (participant and sequence must match).
    fn cancel(&mut self, cmd: CancelOrderCommand) -> (r: Result<()>)
        requires
            old(self).inv(),
            Self::admits(OrderCommand::Cancel(cmd)),
        ensures
            final(self).inv(),
            final(self).applied(old(self), OrderCommand::Cancel(cmd), r),
    ;

    /// Replace an order in place (same id, new price/quantity).
    fn replace(&mut self, cmd: ReplaceOrderCommand) -> (r: Result<()>)
        requires
            old(self).inv(),
            Self::admits(OrderCommand::Replace(cmd)),
        ensures
            final(self).inv(),
            final(self).applied(old(self), OrderCommand::Replace(cmd), r),
    ;

    /// Cancel by order id only (e.g. protocol feed; no ownership check).
    fn cancel_by_order_id(&mut self, cmd: CancelByOrderIdCommand) -> (r: Result<()>)
        requires
            old(self).inv(),
            Self::admits(OrderCommand::CancelByOrderId(cmd)),
        ensures
            final(self).inv(),
            final(self).applied(old(self), OrderCommand::CancelByOrderId(cmd), r),
    ;

    /// Reduce (partial cancel) an order by quantity.
    fn reduce(&mut self, cmd: ReduceOrderCommand) -> (r: Result<()>)
        requires
            old(self).inv(),
            Self::admits(OrderCommand::Reduce(cmd)),
        ensures
            final(self).inv(),
            final(self).applied(old(self), OrderCommand::Reduce(cmd), r),
    ;

    /// Execute (fill) a quantity of an order.
    fn execute(&mut self, cmd: ExecuteOrderCommand) -> (r: Result<()>)
        requires
            old(self).inv(),
            Self::admits(OrderCommand::Execute(cmd)),
        ensures
            final(self).inv(),
            final(self).applied(old(self), OrderCommand::Execute(cmd), r),
    ;

    /// Replace an order with a new id (remove old, add new).
    fn replace_by_new_id(&mut self, cmd: ReplaceOrderByNewIdCommand) -> (r: Result<()>)
        requires
            old(self).inv(),
            Self::admits(OrderCommand::ReplaceByNewId(cmd)),
        ensures
            final(self).inv(),
            final(self).applied(old(self), OrderCommand::ReplaceByNewId(cmd), r),
    ;
}

} // verus!
