//! Engine paths driven by scripted components: every error source of add, cancel and
//! replace.

use std::cell::RefCell;

use omer::book::PriceBook;
use omer::engine::{
    AddOrderCommand, CancelOrderCommand, OrderMatchingEngine, OrderMatchingService,
    ReplaceOrderCommand,
};
use omer::error::{Error, RejectionError};
use omer::events::{Event, EventSink, EventSinkError};
use omer::matching::{MatchingPolicy, MatchingPolicyError};
use omer::self_trade::{SelfTradePolicy, SelfTradePolicyError};
use omer::sequence::{SequenceGenerator, SequenceGeneratorError};
use omer::store::{OrderStore, OrderStoreError};
use omer::types::{Order, OrderId, OrderType, Price, Sequence, Side, TimeInForce};

type SeqResult = Result<Sequence, SequenceGeneratorError>;

/// Sequence generator whose answers are scripted; an unscripted call fails the test.
#[derive(Default)]
struct ScriptSeq {
    next: Option<Box<dyn FnMut() -> SeqResult>>,
    end: Option<Box<dyn FnMut() -> SeqResult>>,
}

impl SequenceGenerator for ScriptSeq {
    fn next(&mut self) -> SeqResult {
        (self.next.as_mut().expect("unexpected call: next"))()
    }

    fn next_at_end_of_queue(&mut self) -> SeqResult {
        (self.end.as_mut().expect("unexpected call: next_at_end_of_queue"))()
    }
}

#[derive(Default)]
struct ScriptBook {
    pop_best: Option<Box<dyn FnMut(Side) -> Option<OrderId>>>,
    push: Option<Box<dyn FnMut(Price, OrderId, Side, Sequence)>>,
    remove: Option<Box<dyn FnMut(OrderId) -> bool>>,
}

impl PriceBook for ScriptBook {
    fn best_bid(&self) -> Option<Price> {
        panic!("unexpected call: best_bid")
    }

    fn best_ask(&self) -> Option<Price> {
        panic!("unexpected call: best_ask")
    }

    fn push(&mut self, price: &Price, order_id: OrderId, side: Side, time_priority: Sequence) {
        (self.push.as_mut().expect("unexpected call: push"))(*price, order_id, side, time_priority)
    }

    fn push_front(&mut self, price: &Price, order_id: OrderId, side: Side, time_priority: Sequence) {
        (self.push.as_mut().expect("unexpected call: push_front"))(*price, order_id, side, time_priority)
    }

    fn pop_best(&mut self, side: Side) -> Option<OrderId> {
        (self.pop_best.as_mut().expect("unexpected call: pop_best"))(side)
    }

    fn remove(&mut self, order_id: &OrderId) -> bool {
        (self.remove.as_mut().expect("unexpected call: remove"))(*order_id)
    }
}

#[derive(Default)]
struct ScriptStore {
    insert: Option<Box<dyn FnMut(&Order) -> Result<(), OrderStoreError>>>,
    remove: Option<Box<dyn FnMut(OrderId) -> Result<Order, OrderStoreError>>>,
    get: Option<Box<dyn Fn(OrderId) -> Option<Order>>>,
}

impl OrderStore for ScriptStore {
    fn insert(&mut self, order: &Order) -> Result<(), OrderStoreError> {
        (self.insert.as_mut().expect("unexpected call: insert"))(order)
    }

    fn remove(&mut self, order_id: &OrderId) -> Result<Order, OrderStoreError> {
        (self.remove.as_mut().expect("unexpected call: remove"))(*order_id)
    }

    fn get(&self, order_id: &OrderId) -> Option<Order> {
        (self.get.as_ref().expect("unexpected call: get"))(*order_id)
    }
}

#[derive(Default)]
struct ScriptMatching {
    can_match: Option<Box<dyn Fn() -> Result<bool, MatchingPolicyError>>>,
}

impl MatchingPolicy for ScriptMatching {
    fn can_match(&self, _incoming: &Order, _resting: &Order) -> Result<bool, MatchingPolicyError> {
        (self.can_match.as_ref().expect("unexpected call: can_match"))()
    }
}

#[derive(Default)]
struct ScriptSelfTrade {
    violates: Option<Box<dyn Fn() -> Result<bool, SelfTradePolicyError>>>,
}

impl SelfTradePolicy for ScriptSelfTrade {
    fn violates(&self, _incoming: &Order, _resting: &Order) -> Result<bool, SelfTradePolicyError> {
        (self.violates.as_ref().expect("unexpected call: violates"))()
    }
}

#[derive(Default)]
struct ScriptSink {
    emit: Option<Box<dyn Fn(Event) -> Result<(), EventSinkError>>>,
}

impl EventSink for ScriptSink {
    fn emit(&self, event: Event) -> Result<(), EventSinkError> {
        (self.emit.as_ref().expect("unexpected call: emit"))(event)
    }
}

type ScriptEngine =
    OrderMatchingEngine<ScriptSeq, ScriptBook, ScriptStore, ScriptMatching, ScriptSelfTrade, ScriptSink>;

fn engine(
    seq: ScriptSeq,
    book: ScriptBook,
    store: ScriptStore,
    matching: ScriptMatching,
    self_trade: ScriptSelfTrade,
    sink: ScriptSink,
) -> ScriptEngine {
    OrderMatchingEngine::new(seq, book, store, matching, self_trade, sink)
}

fn add_cmd(id: OrderId, participant_id: u64, order_type: OrderType, price: Option<Price>, quantity: i64) -> AddOrderCommand {
    AddOrderCommand {
        id,
        participant_id,
        symbol_id: 0,
        side: Side::Buy,
        order_type,
        price,
        quantity,
        time_in_force: TimeInForce::Gtc,
        stop_price: None,
        max_visible_quantity: None,
        slippage: None,
        trailing_distance: None,
        trailing_step: None,
    }
}

fn stored(id: OrderId, side: Side, order_type: OrderType, price: Option<Price>) -> Order {
    Order {
        id,
        participant_id: 100,
        side,
        order_type,
        price,
        quantity: 10,
        time_in_force: TimeInForce::Gtc,
        sequence: 0,
        leaves_quantity: 10,
        executed_quantity: 0,
        ..Order::default()
    }
}

fn resting_sell() -> Order {
    stored(1, Side::Sell, OrderType::Limit, Some(50))
}

fn stored_buy_get() -> Option<Box<dyn Fn(OrderId) -> Option<Order>>> {
    Some(Box::new(|id| Some(stored(id, Side::Buy, OrderType::Limit, Some(50)))))
}

fn stored_buy_remove() -> Option<Box<dyn FnMut(OrderId) -> Result<Order, OrderStoreError>>> {
    Some(Box::new(|_| Ok(stored(1, Side::Buy, OrderType::Limit, Some(50)))))
}

fn sink_ok() -> ScriptSink {
    ScriptSink { emit: Some(Box::new(|_| Ok(()))) }
}

#[test]
fn emit_rejection_when_sink_fails() {
    let sink = ScriptSink { emit: Some(Box::new(|_| Err(EventSinkError::Disconnected))) };
    let mut e = engine(
        ScriptSeq::default(),
        ScriptBook::default(),
        ScriptStore::default(),
        ScriptMatching::default(),
        ScriptSelfTrade::default(),
        sink,
    );
    let res = e.add(add_cmd(1, 100, OrderType::Limit, Some(50), 0));
    assert!(res.is_err());
    assert!(matches!(res.unwrap_err(), Error::EventSink(_)));
}

#[test]
fn add_sequence_error() {
    let seq = ScriptSeq { next: Some(Box::new(|| Err(SequenceGeneratorError::Overflow))), end: None };
    let mut e = engine(
        seq,
        ScriptBook::default(),
        ScriptStore::default(),
        ScriptMatching::default(),
        ScriptSelfTrade::default(),
        ScriptSink::default(),
    );
    let res = e.add(add_cmd(1, 100, OrderType::Limit, Some(50), 10));
    assert!(res.is_err());
    assert!(matches!(res.unwrap_err(), Error::Sequence(_)));
}

#[test]
fn add_market_order_with_price_rejected() {
    let mut e = engine(
        ScriptSeq::default(),
        ScriptBook::default(),
        ScriptStore::default(),
        ScriptMatching::default(),
        ScriptSelfTrade::default(),
        sink_ok(),
    );
    let res = e.add(add_cmd(1, 100, OrderType::Market, Some(50), 10));
    assert!(res.is_err());
    assert!(matches!(res.unwrap_err(), Error::Rejection(RejectionError::InvalidPrice)));
}

#[test]
fn add_resting_order_with_none_price_invariant_violation() {
    let seq = ScriptSeq { next: Some(Box::new(|| Ok(0))), end: None };
    let book = ScriptBook { pop_best: Some(Box::new(|_| Some(1))), ..ScriptBook::default() };
    let store = ScriptStore {
        remove: Some(Box::new(|_| Ok(stored(1, Side::Sell, OrderType::Limit, None)))),
        insert: Some(Box::new(|_| Ok(()))),
        get: None,
    };
    let self_trade = ScriptSelfTrade { violates: Some(Box::new(|| Ok(false))) };
    let mut e = engine(seq, book, store, ScriptMatching::default(), self_trade, sink_ok());
    let res = e.add(add_cmd(2, 101, OrderType::Limit, Some(50), 10));
    assert!(res.is_err());
    assert!(matches!(res.unwrap_err(), Error::Rejection(RejectionError::PriceBookInvariantViolation)));
}

#[test]
fn add_self_trade_policy_returns_err() {
    let seq = ScriptSeq { next: Some(Box::new(|| Ok(0))), end: None };
    let book = ScriptBook { pop_best: Some(Box::new(|_| Some(1))), ..ScriptBook::default() };
    let store = ScriptStore { remove: Some(Box::new(|_| Ok(resting_sell()))), ..ScriptStore::default() };
    let self_trade = ScriptSelfTrade {
        violates: Some(Box::new(|| Err(SelfTradePolicyError::PolicyMisconfigured("x".into())))),
    };
    let mut e = engine(seq, book, store, ScriptMatching::default(), self_trade, ScriptSink::default());
    let res = e.add(add_cmd(2, 101, OrderType::Limit, Some(50), 10));
    assert!(res.is_err());
    assert!(matches!(res.unwrap_err(), Error::SelfTradePolicy(_)));
}

#[test]
fn add_matching_policy_returns_err() {
    let seq = ScriptSeq { next: Some(Box::new(|| Ok(0))), end: None };
    let book = ScriptBook { pop_best: Some(Box::new(|_| Some(1))), ..ScriptBook::default() };
    let store = ScriptStore { remove: Some(Box::new(|_| Ok(resting_sell()))), ..ScriptStore::default() };
    let matching = ScriptMatching { can_match: Some(Box::new(|| Err(MatchingPolicyError::IncompatibleSides))) };
    let self_trade = ScriptSelfTrade { violates: Some(Box::new(|| Ok(false))) };
    let mut e = engine(seq, book, store, matching, self_trade, ScriptSink::default());
    let res = e.add(add_cmd(2, 101, OrderType::Limit, Some(50), 10));
    assert!(res.is_err());
    assert!(matches!(res.unwrap_err(), Error::MatchingPolicy(_)));
}

#[test]
fn add_order_store_remove_err() {
    let seq = ScriptSeq { next: Some(Box::new(|| Ok(0))), end: None };
    let book = ScriptBook { pop_best: Some(Box::new(|_| Some(1))), ..ScriptBook::default() };
    let store = ScriptStore {
        remove: Some(Box::new(|_| Err(OrderStoreError::NotFound(1)))),
        ..ScriptStore::default()
    };
    let matching = ScriptMatching { can_match: Some(Box::new(|| Ok(true))) };
    let self_trade = ScriptSelfTrade { violates: Some(Box::new(|| Ok(false))) };
    let mut e = engine(seq, book, store, matching, self_trade, ScriptSink::default());
    let res = e.add(add_cmd(2, 101, OrderType::Limit, Some(50), 5));
    assert!(res.is_err());
    assert!(matches!(res.unwrap_err(), Error::OrderStore(_)));
}

#[test]
fn add_partial_fill_store_insert_err() {
    let seq = ScriptSeq { next: Some(Box::new(|| Ok(0))), end: None };
    let pops = RefCell::new(0u32);
    let book = ScriptBook {
        pop_best: Some(Box::new(move |_| {
            let mut c = pops.borrow_mut();
            *c += 1;
            if *c == 1 {
                Some(1)
            } else {
                None
            }
        })),
        ..ScriptBook::default()
    };
    let store = ScriptStore {
        remove: Some(Box::new(|_| Ok(resting_sell()))),
        insert: Some(Box::new(|_| Err(OrderStoreError::AlreadyExists(1)))),
        get: None,
    };
    let matching = ScriptMatching { can_match: Some(Box::new(|| Ok(true))) };
    let self_trade = ScriptSelfTrade { violates: Some(Box::new(|| Ok(false))) };
    let mut e = engine(seq, book, store, matching, self_trade, sink_ok());
    let res = e.add(add_cmd(2, 101, OrderType::Limit, Some(50), 15));
    assert!(res.is_err());
}

#[test]
fn add_gtc_remainder_emit_accepted_err() {
    let seq = ScriptSeq { next: Some(Box::new(|| Ok(0))), end: None };
    let book = ScriptBook {
        pop_best: Some(Box::new(|_| None)),
        push: Some(Box::new(|_, _, _, _| {})),
        remove: None,
    };
    let store = ScriptStore { insert: Some(Box::new(|_| Ok(()))), ..ScriptStore::default() };
    let sink = ScriptSink {
        emit: Some(Box::new(|e| match e {
            Event::Accepted(_) => Err(EventSinkError::Disconnected),
            _ => Ok(()),
        })),
    };
    let mut e = engine(seq, book, store, ScriptMatching::default(), ScriptSelfTrade::default(), sink);
    let res = e.add(add_cmd(1, 100, OrderType::Limit, Some(50), 10));
    assert!(res.is_err());
    assert!(matches!(res.unwrap_err(), Error::EventSink(_)));
}

fn cancel_cmd() -> CancelOrderCommand {
    CancelOrderCommand { order_id: 1, participant_id: 100, sequence: 0 }
}

#[test]
fn cancel_store_remove_err() {
    let store = ScriptStore {
        get: stored_buy_get(),
        remove: Some(Box::new(|_| Err(OrderStoreError::NotFound(1)))),
        insert: None,
    };
    let mut e = engine(
        ScriptSeq::default(),
        ScriptBook::default(),
        store,
        ScriptMatching::default(),
        ScriptSelfTrade::default(),
        ScriptSink::default(),
    );
    let res = e.cancel(cancel_cmd());
    assert!(res.is_err());
    assert!(matches!(res.unwrap_err(), Error::OrderStore(_)));
}

#[test]
fn cancel_emit_canceled_err() {
    let book = ScriptBook { remove: Some(Box::new(|_| true)), ..ScriptBook::default() };
    let store = ScriptStore { get: stored_buy_get(), remove: stored_buy_remove(), insert: None };
    let sink = ScriptSink {
        emit: Some(Box::new(|e| match e {
            Event::Canceled(_) => Err(EventSinkError::Disconnected),
            _ => Ok(()),
        })),
    };
    let mut e = engine(ScriptSeq::default(), book, store, ScriptMatching::default(), ScriptSelfTrade::default(), sink);
    let res = e.cancel(cancel_cmd());
    assert!(res.is_err());
    assert!(matches!(res.unwrap_err(), Error::EventSink(_)));
}

#[test]
fn cancel_book_remove_none_invariant_violation() {
    let book = ScriptBook { remove: Some(Box::new(|_| false)), ..ScriptBook::default() };
    let store = ScriptStore { get: stored_buy_get(), remove: stored_buy_remove(), insert: None };
    let mut e = engine(ScriptSeq::default(), book, store, ScriptMatching::default(), ScriptSelfTrade::default(), sink_ok());
    let res = e.cancel(cancel_cmd());
    assert!(res.is_err());
    assert!(matches!(res.unwrap_err(), Error::Rejection(RejectionError::PriceBookInvariantViolation)));
}

fn replace_cmd(new_price: Option<Price>) -> ReplaceOrderCommand {
    ReplaceOrderCommand { order_id: 1, participant_id: 100, new_price, new_quantity: 5, sequence: 0 }
}

#[test]
fn replace_store_remove_err() {
    let store = ScriptStore {
        get: stored_buy_get(),
        remove: Some(Box::new(|_| Err(OrderStoreError::NotFound(1)))),
        insert: None,
    };
    let mut e = engine(
        ScriptSeq::default(),
        ScriptBook::default(),
        store,
        ScriptMatching::default(),
        ScriptSelfTrade::default(),
        ScriptSink::default(),
    );
    let res = e.replace(replace_cmd(Some(50)));
    assert!(res.is_err());
    assert!(matches!(res.unwrap_err(), Error::OrderStore(_)));
}

#[test]
fn replace_emit_canceled_err() {
    let book = ScriptBook { remove: Some(Box::new(|_| true)), ..ScriptBook::default() };
    let store = ScriptStore { get: stored_buy_get(), remove: stored_buy_remove(), insert: None };
    let sink = ScriptSink {
        emit: Some(Box::new(|e| match e {
            Event::Canceled(_) => Err(EventSinkError::Disconnected),
            _ => Ok(()),
        })),
    };
    let mut e = engine(ScriptSeq::default(), book, store, ScriptMatching::default(), ScriptSelfTrade::default(), sink);
    let res = e.replace(replace_cmd(Some(49)));
    assert!(res.is_err());
    assert!(matches!(res.unwrap_err(), Error::EventSink(_)));
}

#[test]
fn replace_book_remove_none_invariant_violation() {
    let book = ScriptBook { remove: Some(Box::new(|_| false)), ..ScriptBook::default() };
    let store = ScriptStore { get: stored_buy_get(), remove: stored_buy_remove(), insert: None };
    let mut e = engine(ScriptSeq::default(), book, store, ScriptMatching::default(), ScriptSelfTrade::default(), sink_ok());
    let res = e.replace(replace_cmd(Some(49)));
    assert!(res.is_err());
    assert!(matches!(res.unwrap_err(), Error::Rejection(RejectionError::PriceBookInvariantViolation)));
}

#[test]
fn replace_sequence_err() {
    let seq = ScriptSeq { next: None, end: Some(Box::new(|| Err(SequenceGeneratorError::Overflow))) };
    let book = ScriptBook { remove: Some(Box::new(|_| true)), ..ScriptBook::default() };
    let store = ScriptStore { get: stored_buy_get(), remove: stored_buy_remove(), insert: Some(Box::new(|_| Ok(()))) };
    let mut e = engine(seq, book, store, ScriptMatching::default(), ScriptSelfTrade::default(), sink_ok());
    let res = e.replace(replace_cmd(Some(50)));
    assert!(res.is_err());
    assert!(matches!(res.unwrap_err(), Error::Sequence(_)));
}

#[test]
fn replace_store_insert_err() {
    let seq = ScriptSeq { next: None, end: Some(Box::new(|| Ok(1))) };
    let book = ScriptBook {
        pop_best: Some(Box::new(|_| None)),
        remove: Some(Box::new(|_| true)),
        push: None,
    };
    let store = ScriptStore {
        get: stored_buy_get(),
        remove: stored_buy_remove(),
        insert: Some(Box::new(|_| Err(OrderStoreError::AlreadyExists(1)))),
    };
    let mut e = engine(seq, book, store, ScriptMatching::default(), ScriptSelfTrade::default(), sink_ok());
    let res = e.replace(replace_cmd(Some(50)));
    assert!(res.is_err());
    assert!(matches!(res.unwrap_err(), Error::OrderStore(_)));
}

#[test]
fn replace_new_price_none_skip_push() {
    let seq = ScriptSeq { next: None, end: Some(Box::new(|| Ok(1))) };
    let book = ScriptBook {
        pop_best: Some(Box::new(|_| None)),
        remove: Some(Box::new(|_| true)),
        push: None,
    };
    let store = ScriptStore {
        get: Some(Box::new(|id| Some(stored(id, Side::Sell, OrderType::Market, None)))),
        remove: Some(Box::new(|_| Ok(stored(1, Side::Sell, OrderType::Market, None)))),
        insert: Some(Box::new(|_| Ok(()))),
    };
    let mut e = engine(seq, book, store, ScriptMatching::default(), ScriptSelfTrade::default(), sink_ok());
    let res = e.replace(replace_cmd(None));
    assert!(res.is_ok());
}

#[test]
fn replace_emit_accepted_err() {
    let seq = ScriptSeq { next: None, end: Some(Box::new(|| Ok(1))) };
    let book = ScriptBook {
        pop_best: Some(Box::new(|_| None)),
        remove: Some(Box::new(|_| true)),
        push: Some(Box::new(|_, _, _, _| {})),
    };
    let store = ScriptStore { get: stored_buy_get(), remove: stored_buy_remove(), insert: Some(Box::new(|_| Ok(()))) };
    let sink = ScriptSink {
        emit: Some(Box::new(|e| match e {
            Event::Accepted(_) => Err(EventSinkError::Disconnected),
            _ => Ok(()),
        })),
    };
    let mut e = engine(seq, book, store, ScriptMatching::default(), ScriptSelfTrade::default(), sink);
    let res = e.replace(replace_cmd(Some(50)));
    assert!(res.is_err());
    assert!(matches!(res.unwrap_err(), Error::EventSink(_)));
}
