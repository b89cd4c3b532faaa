//! The harness book and sink, and laws of the engine on concrete values.

use omer::book::PriceBook;
use omer::book::service::BTreeOrderBook;
use omer::engine::{
    AddOrderCommand, CancelByOrderIdCommand, OrderCommand, OrderMatchingEngine, OrderMatchingService,
};
use omer::events::{Event, EventSink};
use omer::harness::{CollectingEventSink, InMemoryOrderStore, InMemoryPriceBook};
use omer::matching::PriceCrossMatchingPolicy;
use omer::self_trade::AllowAllSelfTradePolicy;
use omer::sequence::CounterSequenceGenerator;
use omer::types::{OrderType, Price, Side, TimeInForce};

fn limit(id: u64, side: Side, price: Price, quantity: i64) -> AddOrderCommand {
    AddOrderCommand {
        id,
        participant_id: 7,
        symbol_id: 1,
        side,
        order_type: OrderType::Limit,
        price: Some(price),
        quantity,
        time_in_force: TimeInForce::Gtc,
        stop_price: None,
        max_visible_quantity: None,
        slippage: None,
        trailing_distance: None,
        trailing_step: None,
    }
}

#[test]
fn in_memory_book_pops_smallest_time_priority_at_best_price() {
    let mut book = InMemoryPriceBook::new();
    book.push(&101, 1, Side::Sell, 1);
    book.push(&100, 2, Side::Sell, 9);
    book.push(&100, 3, Side::Sell, 4);
    book.push(&100, 4, Side::Sell, 4);
    book.push(&99, 5, Side::Buy, 2);
    assert_eq!(book.best_ask(), Some(100));
    assert_eq!(book.best_bid(), Some(99));
    // Within the best ask level, the smallest time priority goes first, the earlier of
    // two equal ones first.
    assert_eq!(book.pop_best(Side::Buy), Some(3));
    assert_eq!(book.pop_best(Side::Buy), Some(4));
    assert_eq!(book.pop_best(Side::Buy), Some(2));
    assert_eq!(book.pop_best(Side::Buy), Some(1));
    assert_eq!(book.pop_best(Side::Buy), None);
    assert_eq!(book.pop_best(Side::Sell), Some(5));
    assert_eq!(book.pop_best(Side::Sell), None);
}

#[test]
fn in_memory_book_remove_and_best_prices() {
    let mut book = InMemoryPriceBook::new();
    assert!(book.best_bid().is_none());
    book.push(&50, 1, Side::Buy, 1);
    book.push(&52, 2, Side::Buy, 2);
    assert_eq!(book.best_bid(), Some(52));
    assert!(book.remove(&2));
    assert!(!book.remove(&2));
    assert_eq!(book.best_bid(), Some(50));
    assert!(book.remove(&1));
    assert!(book.best_bid().is_none());
}

#[test]
fn in_memory_book_total_depth_sums_resolved_quantities() {
    let mut book = InMemoryPriceBook::new();
    book.push(&50, 1, Side::Buy, 1);
    book.push(&50, 2, Side::Buy, 2);
    book.push(&60, 3, Side::Sell, 3);
    book.push(&61, 4, Side::Sell, 4);
    let depth = book.total_depth(|id| if id == 4 { None } else { Some(id as i64 * 10) });
    assert_eq!(depth, 10 + 20 + 30);
    assert_eq!(InMemoryPriceBook::new().total_depth(|_| Some(5)), 0);
}

#[test]
fn collecting_sink_shares_its_buffer_between_clones() {
    let sink = CollectingEventSink::new();
    let other = sink.clone();
    assert!(sink.emit(Event::Accepted(1)).is_ok());
    assert!(other.emit(Event::Canceled(1)).is_ok());
    let seen = sink.events();
    assert_eq!(seen.len(), 2);
    assert!(matches!(seen[0], Event::Accepted(1)));
    assert!(matches!(seen[1], Event::Canceled(1)));
    other.clear();
    assert!(sink.events().is_empty());
}

#[test]
fn engine_on_harness_components_rests_and_matches() {
    let sink = CollectingEventSink::new();
    let mut e = OrderMatchingEngine::new(
        CounterSequenceGenerator::new(),
        InMemoryPriceBook::new(),
        InMemoryOrderStore::new(),
        PriceCrossMatchingPolicy,
        AllowAllSelfTradePolicy,
        sink.clone(),
    );
    e.process(OrderCommand::Add(limit(1, Side::Sell, 100, 5))).unwrap();
    e.process(OrderCommand::Add(limit(2, Side::Buy, 100, 2))).unwrap();
    assert_eq!(e.best_ask(), Some(100));
    let evs = sink.events();
    assert!(matches!(evs[0], Event::Accepted(1)));
    assert!(matches!(evs[1], Event::Trade(t) if t.aggressor == 2 && t.resting == 1 && t.quantity == 2));
}

#[test]
fn cancel_undoes_a_resting_add() {
    let sink = CollectingEventSink::new();
    let mut e = OrderMatchingEngine::new(
        CounterSequenceGenerator::new(),
        BTreeOrderBook::new(),
        InMemoryOrderStore::new(),
        PriceCrossMatchingPolicy,
        AllowAllSelfTradePolicy,
        sink.clone(),
    );
    e.add(limit(1, Side::Buy, 98, 3)).unwrap();
    e.add(limit(5, Side::Sell, 105, 3)).unwrap();
    let (bid, ask) = (e.best_bid(), e.best_ask());
    e.add(limit(2, Side::Buy, 100, 4)).unwrap();
    assert_eq!(e.best_bid(), Some(100));
    e.cancel_by_order_id(CancelByOrderIdCommand { order_id: 2 }).unwrap();
    assert_eq!((e.best_bid(), e.best_ask()), (bid, ask));
    let evs = sink.events();
    assert!(matches!(evs[evs.len() - 2], Event::Accepted(2)));
    assert!(matches!(evs[evs.len() - 1], Event::Canceled(2)));
    // The order is gone from the store too: a second cancel finds nothing.
    assert!(e.cancel_by_order_id(CancelByOrderIdCommand { order_id: 2 }).is_err());
}

#[test]
fn add_leaves_the_book_uncrossed() {
    let sink = CollectingEventSink::new();
    let mut e = OrderMatchingEngine::new(
        CounterSequenceGenerator::new(),
        BTreeOrderBook::new(),
        InMemoryOrderStore::new(),
        PriceCrossMatchingPolicy,
        AllowAllSelfTradePolicy,
        sink.clone(),
    );
    e.add(limit(1, Side::Sell, 101, 2)).unwrap();
    e.add(limit(2, Side::Sell, 103, 2)).unwrap();
    e.add(limit(3, Side::Buy, 102, 5)).unwrap();
    // The buy takes what crosses (101) and rests below the next ask.
    assert_eq!(e.best_bid(), Some(102));
    assert_eq!(e.best_ask(), Some(103));
    e.add(limit(4, Side::Sell, 100, 1)).unwrap();
    assert_eq!(e.best_bid(), Some(102));
    assert!(e.best_bid().unwrap() < e.best_ask().unwrap());
}

#[test]
fn replace_into_the_spread_trades_instead_of_crossing() {
    let sink = CollectingEventSink::new();
    let mut e = OrderMatchingEngine::new(
        CounterSequenceGenerator::new(),
        BTreeOrderBook::new(),
        InMemoryOrderStore::new(),
        PriceCrossMatchingPolicy,
        AllowAllSelfTradePolicy,
        sink.clone(),
    );
    e.add(limit(1, Side::Buy, 99, 2)).unwrap();
    e.add(limit(2, Side::Sell, 101, 1)).unwrap();
    e.add(limit(3, Side::Sell, 104, 1)).unwrap();
    e.replace(omer::engine::ReplaceOrderCommand {
        order_id: 1,
        participant_id: 7,
        new_price: Some(102),
        new_quantity: 2,
        sequence: 0,
    })
    .unwrap();
    assert_eq!(e.best_ask(), Some(104));
    assert_eq!(e.best_bid(), Some(102));
    let evs = sink.events();
    assert!(matches!(evs[evs.len() - 2], Event::Trade(t) if t.resting == 2 && t.price == 101 && t.quantity == 1));
    assert!(matches!(evs[evs.len() - 1], Event::Accepted(1)));
}

#[test]
fn crossing_add_trades_with_the_next_sequence_and_partly_fills_the_resting_order() {
    let sink = CollectingEventSink::new();
    let mut e = OrderMatchingEngine::new(
        CounterSequenceGenerator::new(),
        BTreeOrderBook::new(),
        omer::store::service::HashMapOrderStore::new(),
        PriceCrossMatchingPolicy,
        AllowAllSelfTradePolicy,
        sink.clone(),
    );
    e.add(limit(1, Side::Sell, 50, 10)).unwrap();
    e.add(limit(2, Side::Buy, 55, 4)).unwrap();
    let evs = sink.events();
    assert_eq!(evs.len(), 2);
    assert!(matches!(evs[0], Event::Accepted(1)));
    assert!(matches!(evs[1], Event::Trade(t)
        if t.aggressor == 2 && t.resting == 1 && t.price == 50 && t.quantity == 4 && t.sequence == 2));
    assert_eq!(e.best_ask(), Some(50));
    assert!(e.best_bid().is_none());
    e.add(limit(3, Side::Buy, 50, 6)).unwrap();
    assert!(e.best_ask().is_none());
}
