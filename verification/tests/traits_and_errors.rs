//! Trait defaults, error messages and plain types.

use omer::book::PriceBook;
use omer::engine::{
    AddOrderCommand, CancelByOrderIdCommand, CancelOrderCommand, ExecuteOrderCommand, OrderCommand,
    OrderMatchingService, ReduceOrderCommand, ReplaceOrderByNewIdCommand, ReplaceOrderCommand,
};
use omer::error::{Error, RejectionError, Result};
use omer::events::{Event, EventSinkError};
use omer::matching::{MatchingPolicy, MatchingPolicyError};
use omer::self_trade::SelfTradePolicyError;
use omer::sequence::{SequenceGenerator, SequenceGeneratorError};
use omer::store::OrderStoreError;
use omer::types::{Order, OrderId, OrderType, Price, Sequence, Side, Symbol, TimeInForce, Trade};

struct RecordingMatching {
    op: &'static str,
}

impl OrderMatchingService for RecordingMatching {
    fn add(&mut self, _cmd: AddOrderCommand) -> Result<()> {
        self.op = "add";
        Ok(())
    }

    fn cancel(&mut self, _cmd: CancelOrderCommand) -> Result<()> {
        self.op = "cancel";
        Ok(())
    }

    fn replace(&mut self, _cmd: ReplaceOrderCommand) -> Result<()> {
        self.op = "replace";
        Ok(())
    }

    fn cancel_by_order_id(&mut self, _cmd: CancelByOrderIdCommand) -> Result<()> {
        self.op = "cancel_by_order_id";
        Ok(())
    }

    fn reduce(&mut self, _cmd: ReduceOrderCommand) -> Result<()> {
        self.op = "reduce";
        Ok(())
    }

    fn execute(&mut self, _cmd: ExecuteOrderCommand) -> Result<()> {
        self.op = "execute";
        Ok(())
    }

    fn replace_by_new_id(&mut self, _cmd: ReplaceOrderByNewIdCommand) -> Result<()> {
        self.op = "replace_by_new_id";
        Ok(())
    }
}

fn sample_add_cmd() -> AddOrderCommand {
    AddOrderCommand {
        id: 1,
        participant_id: 10,
        symbol_id: 1,
        side: Side::Buy,
        order_type: OrderType::Limit,
        price: Some(100),
        quantity: 10,
        time_in_force: TimeInForce::Gtc,
        stop_price: None,
        max_visible_quantity: None,
        slippage: None,
        trailing_distance: None,
        trailing_step: None,
    }
}

#[test]
fn order_matching_service_process_dispatches_add_cancel_replace() {
    let mut s = RecordingMatching { op: "" };
    s.process(OrderCommand::Add(sample_add_cmd())).unwrap();
    assert_eq!(s.op, "add");

    let mut s = RecordingMatching { op: "" };
    s.process(OrderCommand::Cancel(CancelOrderCommand { order_id: 1, participant_id: 10, sequence: 1 }))
        .unwrap();
    assert_eq!(s.op, "cancel");

    let mut s = RecordingMatching { op: "" };
    s.process(OrderCommand::Replace(ReplaceOrderCommand {
        order_id: 1,
        participant_id: 10,
        new_price: Some(99),
        new_quantity: 5,
        sequence: 2,
    }))
    .unwrap();
    assert_eq!(s.op, "replace");
}

#[test]
fn process_dispatches_feed_commands() {
    let mut s = RecordingMatching { op: "" };
    s.process(OrderCommand::CancelByOrderId(CancelByOrderIdCommand { order_id: 1 })).unwrap();
    assert_eq!(s.op, "cancel_by_order_id");
    s.process(OrderCommand::Reduce(ReduceOrderCommand { order_id: 1, quantity: 1 })).unwrap();
    assert_eq!(s.op, "reduce");
    s.process(OrderCommand::Execute(ExecuteOrderCommand { order_id: 1, quantity: 1 })).unwrap();
    assert_eq!(s.op, "execute");
    s.process(OrderCommand::ReplaceByNewId(ReplaceOrderByNewIdCommand {
        old_order_id: 1,
        new_order_id: 2,
        new_price: 5,
        new_quantity: 1,
        symbol_id: None,
        side: None,
    }))
    .unwrap();
    assert_eq!(s.op, "replace_by_new_id");
}

struct CountingSeq(u64);

impl SequenceGenerator for CountingSeq {
    fn next(&mut self) -> std::result::Result<Sequence, SequenceGeneratorError> {
        self.0 = self.0.checked_add(1).ok_or(SequenceGeneratorError::Overflow)?;
        Ok(self.0)
    }
}

#[test]
fn sequence_next_at_end_of_queue_defaults_to_next() {
    let mut g = CountingSeq(0);
    let a = g.next_at_end_of_queue().unwrap();
    let b = g.next_at_end_of_queue().unwrap();
    assert_eq!(a, 1);
    assert_eq!(b, 2);
}

#[test]
fn matching_policy_error_display() {
    let e = MatchingPolicyError::IncompatibleSides;
    assert!(e.to_string().contains("incompatible"));
    let e = MatchingPolicyError::PriceDoesNotCross { incoming_price: Some(10), resting_price: 20 };
    assert!(e.to_string().contains("cross"));
    assert!(MatchingPolicyError::UndefinedMarketPrice.to_string().contains("market"));
    assert!(MatchingPolicyError::InvalidOrderTypeCombination.to_string().contains("order type"));
    assert!(MatchingPolicyError::UnexpectedError("x".into()).to_string().contains("unexpected"));
}

#[test]
fn sequence_generator_error_display() {
    assert!(SequenceGeneratorError::Overflow.to_string().contains("overflow"));
    assert!(SequenceGeneratorError::CorruptedState("a".into()).to_string().contains("Corrupted"));
    assert!(SequenceGeneratorError::UnexpectedError("u".into()).to_string().contains("unexpected"));
}

#[test]
fn order_store_error_display() {
    assert!(OrderStoreError::AlreadyExists(1).to_string().contains("exists"));
    assert!(OrderStoreError::NotFound(2).to_string().contains("not found"));
    let e = OrderStoreError::ParticipantMismatch { order_id: 1, expected: 2, actual: 3 };
    assert!(e.to_string().contains("participant"));
    assert!(OrderStoreError::CorruptedState("c".into()).to_string().contains("corrupted"));
    assert!(OrderStoreError::UnexpectedError("z".into()).to_string().contains("unexpected"));
}

#[test]
fn self_trade_policy_error_display() {
    let e = SelfTradePolicyError::SameParticipant { participant_id: 1, aggressor: 2, resting: 3 };
    assert!(e.to_string().contains("participant"));
    assert!(SelfTradePolicyError::PolicyMisconfigured("m".into()).to_string().contains("misconfigured"));
    assert!(SelfTradePolicyError::UnexpectedError("e".into()).to_string().contains("unexpected"));
}

#[test]
fn event_sink_error_display() {
    assert!(EventSinkError::Disconnected.to_string().contains("disconnected"));
    assert!(EventSinkError::Backpressure.to_string().contains("backpressure"));
    assert!(EventSinkError::SerializationFailed("s".into()).to_string().contains("serialization"));
    assert!(EventSinkError::UnexpectedError("t".into()).to_string().contains("unexpected"));
}

#[test]
fn rejection_error_display_samples() {
    assert!(RejectionError::InvalidPrice.to_string().contains("price"));
    assert!(RejectionError::OrderNotFound(9).to_string().contains("9"));
    assert!(RejectionError::SymbolDuplicate.to_string().contains("symbol"));
}

#[test]
fn top_level_error_from_sources() {
    let e: Error = MatchingPolicyError::IncompatibleSides.into();
    assert!(e.to_string().contains("matching"));
    let e: Error = SequenceGeneratorError::Overflow.into();
    assert!(e.to_string().contains("sequence"));
    let e: Error = OrderStoreError::NotFound(1).into();
    assert!(e.to_string().contains("order store"));
    let e: Error = SelfTradePolicyError::UnexpectedError("".into()).into();
    assert!(e.to_string().contains("self trade"));
    let e: Error = EventSinkError::Backpressure.into();
    assert!(e.to_string().contains("event"));
    let e: Error = RejectionError::StaleSequence.into();
    assert!(e.to_string().contains("rejection"));
}

#[test]
fn exact_error_messages() {
    assert_eq!(RejectionError::OrderNotFound(1234).to_string(), "order not found: 1234");
    assert_eq!(
        MatchingPolicyError::PriceDoesNotCross { incoming_price: Some(-10), resting_price: 20 }.to_string(),
        "price does not cross: incoming: Some(-10) vs resting: 20"
    );
    let e: Error = OrderStoreError::NotFound(7).into();
    assert_eq!(e.to_string(), "order store: order not found: 7");
}

#[test]
fn types_symbol_roundtrip_partial_eq() {
    let s = Symbol { id: 1, name: *b"TEST    " };
    assert_eq!(s, s);
    assert_eq!(Side::Buy, Side::Buy);
    assert_ne!(Side::Buy, Side::Sell);
}

#[test]
fn event_variants_clone() {
    let t = Trade { aggressor: 1, resting: 2, price: 10, quantity: 1, sequence: 1 };
    let e = Event::Trade(t.clone());
    assert!(matches!(e.clone(), Event::Trade(_)));
    assert!(matches!(Event::Rejected(RejectionError::SelfTrade), Event::Rejected(_)));
}

struct FixedBook(Option<Price>);

impl PriceBook for FixedBook {
    fn best_bid(&self) -> Option<Price> {
        self.0
    }

    fn best_ask(&self) -> Option<Price> {
        None
    }

    fn push(&mut self, _price: &Price, _order_id: OrderId, _side: Side, _time_priority: Sequence) {}

    fn push_front(&mut self, _price: &Price, _order_id: OrderId, _side: Side, _time_priority: Sequence) {}

    fn pop_best(&mut self, _side: Side) -> Option<OrderId> {
        None
    }

    fn remove(&mut self, _order_id: &OrderId) -> bool {
        false
    }
}

struct AlwaysMatch;

impl MatchingPolicy for AlwaysMatch {
    fn can_match(&self, _incoming: &Order, _resting: &Order) -> std::result::Result<bool, MatchingPolicyError> {
        Ok(true)
    }
}

#[test]
fn mockall_traits_instantiate() {
    let book = FixedBook(Some(1i64));
    assert_eq!(book.best_bid(), Some(1));

    let pol = AlwaysMatch;
    let o = Order {
        symbol_id: 1,
        id: 1,
        participant_id: 1,
        side: Side::Buy,
        order_type: OrderType::Limit,
        price: Some(10),
        quantity: 1,
        time_in_force: TimeInForce::Gtc,
        stop_price: None,
        max_visible_quantity: None,
        slippage: None,
        trailing_distance: None,
        trailing_step: None,
        executed_quantity: 0,
        leaves_quantity: 1,
        sequence: 1,
    };
    assert!(pol.can_match(&o, &o).unwrap());
}
