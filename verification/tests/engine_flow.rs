//! End-to-end engine behaviour with the real book, store and policies.

use std::cell::RefCell;
use std::rc::Rc;

use omer::book::service::{BTreeOrderBook, PoolLevelOrderBook};
use omer::engine::builder::builder;
use omer::engine::{
    AddOrderCommand, CancelByOrderIdCommand, CancelOrderCommand, ExecuteOrderCommand, OrderCommand,
    OrderMatchingEngine, OrderMatchingService, ReduceOrderCommand, ReplaceOrderByNewIdCommand,
    ReplaceOrderCommand,
};
use omer::error::{Error, RejectionError};
use omer::events::{Event, EventSink, EventSinkError};
use omer::matching::{MatchingPolicy, PriceCrossMatchingPolicy};
use omer::self_trade::AllowAllSelfTradePolicy;
use omer::sequence::CounterSequenceGenerator;
use omer::store::service::HashMapOrderStore;
use omer::types::{Order, OrderType, Price, Side, TimeInForce};

#[derive(Clone, Default)]
struct Recorder(Rc<RefCell<Vec<Event>>>);

impl EventSink for Recorder {
    fn emit(&self, event: Event) -> Result<(), EventSinkError> {
        self.0.borrow_mut().push(event);
        Ok(())
    }
}

type Engine = OrderMatchingEngine<
    CounterSequenceGenerator,
    BTreeOrderBook,
    HashMapOrderStore,
    PriceCrossMatchingPolicy,
    AllowAllSelfTradePolicy,
    Recorder,
>;

fn engine() -> (Engine, Recorder) {
    let rec = Recorder::default();
    let e = builder()
        .with_sequence_generator(CounterSequenceGenerator::new())
        .with_price_book(BTreeOrderBook::new())
        .with_order_store(HashMapOrderStore::new())
        .with_matching_policy(PriceCrossMatchingPolicy)
        .with_self_trade_policy(AllowAllSelfTradePolicy)
        .with_event_sink(rec.clone())
        .build();
    (e, rec)
}

fn limit(id: u64, participant_id: u64, side: Side, price: Price, quantity: i64, tif: TimeInForce) -> AddOrderCommand {
    AddOrderCommand {
        id,
        participant_id,
        symbol_id: 1,
        side,
        order_type: OrderType::Limit,
        price: Some(price),
        quantity,
        time_in_force: tif,
        stop_price: None,
        max_visible_quantity: None,
        slippage: None,
        trailing_distance: None,
        trailing_step: None,
    }
}

fn trades(events: &[Event]) -> Vec<(u64, u64, Price, i64)> {
    events
        .iter()
        .filter_map(|e| match e {
            Event::Trade(t) => Some((t.aggressor, t.resting, t.price, t.quantity)),
            _ => None,
        })
        .collect()
}

#[test]
fn crossing_buy_trades_at_resting_price_in_time_order() {
    let (mut e, rec) = engine();
    e.add(limit(1, 10, Side::Sell, 101, 5, TimeInForce::Gtc)).unwrap();
    e.add(limit(2, 11, Side::Sell, 100, 3, TimeInForce::Gtc)).unwrap();
    e.add(limit(3, 12, Side::Sell, 100, 4, TimeInForce::Gtc)).unwrap();
    assert_eq!(e.best_ask(), Some(100));
    e.add(limit(4, 13, Side::Buy, 101, 10, TimeInForce::Gtc)).unwrap();
    assert_eq!(trades(&rec.0.borrow()), vec![(4, 2, 100, 3), (4, 3, 100, 4), (4, 1, 101, 3)]);
    assert_eq!(e.best_ask(), Some(101));
    assert!(e.best_bid().is_none());
}

#[test]
fn ioc_remainder_is_rejected_and_gtc_rests() {
    let (mut e, rec) = engine();
    e.add(limit(1, 10, Side::Sell, 100, 2, TimeInForce::Gtc)).unwrap();
    let r = e.add(limit(2, 11, Side::Buy, 100, 5, TimeInForce::Ioc));
    assert!(matches!(r, Err(Error::Rejection(RejectionError::InsufficientLiquidity))));
    assert!(e.best_bid().is_none());
    e.add(limit(3, 11, Side::Buy, 99, 5, TimeInForce::Gtc)).unwrap();
    assert_eq!(e.best_bid(), Some(99));
    assert!(matches!(rec.0.borrow().last(), Some(Event::Accepted(3))));
}

#[test]
fn cancel_checks_owner_and_sequence() {
    let (mut e, rec) = engine();
    e.add(limit(1, 10, Side::Buy, 100, 2, TimeInForce::Gtc)).unwrap();
    let r = e.cancel(CancelOrderCommand { order_id: 1, participant_id: 99, sequence: 0 });
    assert!(matches!(r, Err(Error::Rejection(RejectionError::ParticipantMismatch))));
    let r = e.cancel(CancelOrderCommand { order_id: 1, participant_id: 10, sequence: 7 });
    assert!(matches!(r, Err(Error::Rejection(RejectionError::StaleSequence))));
    e.cancel(CancelOrderCommand { order_id: 1, participant_id: 10, sequence: 0 }).unwrap();
    assert!(e.best_bid().is_none());
    assert!(matches!(rec.0.borrow().last(), Some(Event::Canceled(1))));
    let r = e.cancel(CancelOrderCommand { order_id: 1, participant_id: 10, sequence: 0 });
    assert!(matches!(r, Err(Error::Rejection(RejectionError::OrderNotFound(1)))));
}

#[test]
fn reduce_execute_and_replace_by_new_id() {
    let (mut e, rec) = engine();
    e.add(limit(1, 10, Side::Buy, 100, 10, TimeInForce::Gtc)).unwrap();
    e.reduce(ReduceOrderCommand { order_id: 1, quantity: 4 }).unwrap();
    e.execute(ExecuteOrderCommand { order_id: 1, quantity: 5 }).unwrap();
    assert_eq!(e.best_bid(), Some(100));
    e.execute(ExecuteOrderCommand { order_id: 1, quantity: 1 }).unwrap();
    assert!(e.best_bid().is_none());
    let r = e.reduce(ReduceOrderCommand { order_id: 1, quantity: 1 });
    assert!(matches!(r, Err(Error::Rejection(RejectionError::OrderNotFound(1)))));
    e.add(limit(2, 10, Side::Buy, 100, 10, TimeInForce::Gtc)).unwrap();
    e.replace_by_new_id(ReplaceOrderByNewIdCommand {
        old_order_id: 2,
        new_order_id: 3,
        new_price: 105,
        new_quantity: 2,
        symbol_id: None,
        side: None,
    })
    .unwrap();
    assert_eq!(e.best_bid(), Some(105));
    let evs = rec.0.borrow();
    assert!(matches!(evs[evs.len() - 2], Event::Canceled(2)));
    assert!(matches!(evs[evs.len() - 1], Event::Accepted(3)));
}

#[test]
fn reduce_by_whole_leaves_cancels() {
    let (mut e, rec) = engine();
    e.add(limit(1, 10, Side::Sell, 100, 3, TimeInForce::Gtc)).unwrap();
    e.reduce(ReduceOrderCommand { order_id: 1, quantity: 3 }).unwrap();
    assert!(e.best_ask().is_none());
    assert!(matches!(rec.0.borrow().last(), Some(Event::Canceled(1))));
}

#[test]
fn replace_moves_price_and_loses_priority() {
    let (mut e, rec) = engine();
    e.add(limit(1, 10, Side::Sell, 100, 3, TimeInForce::Gtc)).unwrap();
    e.add(limit(2, 11, Side::Sell, 100, 3, TimeInForce::Gtc)).unwrap();
    e.replace(ReplaceOrderCommand { order_id: 1, participant_id: 10, new_price: Some(100), new_quantity: 2, sequence: 0 })
        .unwrap();
    e.add(limit(3, 12, Side::Buy, 100, 4, TimeInForce::Gtc)).unwrap();
    assert_eq!(trades(&rec.0.borrow()), vec![(3, 2, 100, 3), (3, 1, 100, 1)]);
    let r = e.replace(ReplaceOrderCommand { order_id: 2, participant_id: 11, new_price: Some(1), new_quantity: 0, sequence: 1 });
    assert!(matches!(r, Err(Error::Rejection(RejectionError::InvalidQuantity))));
}

#[test]
fn process_batch_stops_at_first_error() {
    let (mut e, _rec) = engine();
    let cmds = vec![
        OrderCommand::Add(limit(1, 10, Side::Buy, 100, 1, TimeInForce::Gtc)),
        OrderCommand::CancelByOrderId(CancelByOrderIdCommand { order_id: 9 }),
        OrderCommand::Add(limit(2, 10, Side::Buy, 101, 1, TimeInForce::Gtc)),
    ];
    let r = e.process_batch(cmds);
    assert!(matches!(r, Err(Error::Rejection(RejectionError::OrderNotFound(9)))));
    assert_eq!(e.best_bid(), Some(100));
    assert!(e.process_batch(Vec::new()).is_ok());
}

#[test]
fn pool_level_book_engine_matches() {
    let mut e = OrderMatchingEngine::new(
        CounterSequenceGenerator::new(),
        PoolLevelOrderBook::new(),
        HashMapOrderStore::new(),
        PriceCrossMatchingPolicy,
        AllowAllSelfTradePolicy,
        omer::events::NoOpEventSink,
    );
    e.add(limit(1, 10, Side::Sell, 100, 5, TimeInForce::Gtc)).unwrap();
    e.add(limit(2, 11, Side::Buy, 100, 2, TimeInForce::Gtc)).unwrap();
    assert_eq!(e.best_ask(), Some(100));
    e.add(limit(3, 11, Side::Buy, 100, 3, TimeInForce::Gtc)).unwrap();
    assert!(e.best_ask().is_none());
    assert!(e.best_bid().is_none());
}

#[test]
fn market_order_trades_against_resting_limits() {
    let (mut e, rec) = engine();
    e.add(limit(1, 10, Side::Sell, 100, 2, TimeInForce::Gtc)).unwrap();
    e.add(limit(2, 11, Side::Sell, 103, 5, TimeInForce::Gtc)).unwrap();
    let mut market = limit(3, 12, Side::Buy, 0, 4, TimeInForce::Ioc);
    market.order_type = OrderType::Market;
    market.price = None;
    e.add(market).unwrap();
    assert_eq!(trades(&rec.0.borrow()), vec![(3, 1, 100, 2), (3, 2, 103, 2)]);
    assert_eq!(e.best_ask(), Some(103));
}

#[test]
fn price_cross_policy_lets_a_market_order_match_any_opposite_limit() {
    let mut buy = Order::default();
    buy.side = Side::Buy;
    buy.price = None;
    let mut sell = Order::default();
    sell.side = Side::Sell;
    sell.price = Some(250);
    assert!(matches!(PriceCrossMatchingPolicy.can_match(&buy, &sell), Ok(true)));
    buy.price = Some(249);
    assert!(matches!(PriceCrossMatchingPolicy.can_match(&buy, &sell), Ok(false)));
}

#[test]
fn partly_filled_resting_order_keeps_its_time_priority() {
    let (mut e, rec) = engine();
    e.add(limit(1, 10, Side::Sell, 100, 5, TimeInForce::Gtc)).unwrap();
    e.add(limit(2, 11, Side::Sell, 100, 5, TimeInForce::Gtc)).unwrap();
    e.add(limit(3, 12, Side::Buy, 100, 2, TimeInForce::Gtc)).unwrap();
    e.add(limit(4, 13, Side::Buy, 100, 4, TimeInForce::Gtc)).unwrap();
    assert_eq!(trades(&rec.0.borrow()), vec![(3, 1, 100, 2), (4, 1, 100, 3), (4, 2, 100, 1)]);
}

#[test]
fn pool_level_and_dash_skip_books_put_a_resting_order_back_in_front() {
    use_book_put_back::<PoolLevelOrderBook>();
    use_book_put_back::<omer::book::service::DashSkipOrderBook>();
    use_book_put_back::<BTreeOrderBook>();
}

fn use_book_put_back<B: omer::book::PriceBook + Default>() {
    let mut b = B::default();
    b.push(&100, 1, Side::Sell, 0);
    b.push(&100, 2, Side::Sell, 1);
    assert_eq!(b.pop_best(Side::Buy), Some(1));
    b.push_front(&100, 1, Side::Sell, 0);
    assert_eq!(b.pop_best(Side::Buy), Some(1));
    assert_eq!(b.pop_best(Side::Buy), Some(2));
}
