//! The same price-book scenario run against each book implementation.

use omer::book::service::{BTreeOrderBook, DashSkipOrderBook, PoolLevelOrderBook};
use omer::harness::InMemoryPriceBook;
use omer::book::PriceBook;
use omer::types::{OrderId, Price, Side};

fn push(book: &mut impl PriceBook, price: Price, id: OrderId, side: Side) {
    book.push(&price, id, side, id);
}

/// The scenario: empty sides, best prices, FIFO within a level, removal by id.
/// `pop_best` takes the aggressor's side, so bids are popped by an incoming sell.
fn run_price_book_tests<B: PriceBook + Default>() {
    let book = B::default();
    assert!(book.best_bid().is_none());
    assert!(book.best_ask().is_none());

    let mut book = B::default();
    push(&mut book, 100, 1, Side::Buy);
    push(&mut book, 101, 2, Side::Buy);
    assert_eq!(book.best_bid(), Some(101));
    assert!(book.best_ask().is_none());
    push(&mut book, 200, 3, Side::Sell);
    assert_eq!(book.best_ask(), Some(200));

    let mut book = B::default();
    push(&mut book, 100, 1, Side::Buy);
    push(&mut book, 100, 2, Side::Buy);
    assert_eq!(book.pop_best(Side::Sell).unwrap(), 1);
    assert_eq!(book.pop_best(Side::Sell).unwrap(), 2);
    assert!(book.pop_best(Side::Sell).is_none());

    let mut book = B::default();
    push(&mut book, 100, 1, Side::Buy);
    push(&mut book, 100, 2, Side::Buy);
    assert!(book.remove(&1));
    assert_eq!(book.pop_best(Side::Sell).unwrap(), 2);
}

#[test]
fn btree_order_book() {
    run_price_book_tests::<BTreeOrderBook>();
}

#[test]
fn pool_level_order_book() {
    run_price_book_tests::<PoolLevelOrderBook>();
}

#[test]
fn dash_skip_order_book() {
    run_price_book_tests::<DashSkipOrderBook>();
}

#[test]
fn in_memory_price_book_scenario() {
    run_price_book_tests::<InMemoryPriceBook>();
}

fn best_ask_is_lowest_and_pops_first<B: PriceBook + Default>() {
    let mut book = B::default();
    push(&mut book, 205, 1, Side::Sell);
    push(&mut book, 201, 2, Side::Sell);
    push(&mut book, 203, 3, Side::Sell);
    push(&mut book, 99, 4, Side::Buy);
    assert_eq!(book.best_ask(), Some(201));
    assert_eq!(book.best_bid(), Some(99));
    assert_eq!(book.pop_best(Side::Buy), Some(2));
    assert_eq!(book.pop_best(Side::Buy), Some(3));
    assert_eq!(book.best_ask(), Some(205));
    assert!(!book.remove(&2));
    assert!(book.remove(&1));
    assert!(book.best_ask().is_none());
    assert_eq!(book.pop_best(Side::Buy), None);
    assert_eq!(book.pop_best(Side::Sell), Some(4));
    assert!(book.best_bid().is_none());
}

#[test]
fn btree_asks_lowest_first() {
    best_ask_is_lowest_and_pops_first::<BTreeOrderBook>();
}

#[test]
fn pool_level_asks_lowest_first() {
    best_ask_is_lowest_and_pops_first::<PoolLevelOrderBook>();
}

#[test]
fn dash_skip_asks_lowest_first() {
    best_ask_is_lowest_and_pops_first::<DashSkipOrderBook>();
}

#[test]
fn dash_skip_remove_then_push_goes_to_back_of_level() {
    let mut book = DashSkipOrderBook::new();
    push(&mut book, 100, 1, Side::Buy);
    push(&mut book, 100, 2, Side::Buy);
    assert!(book.remove(&1));
    assert!(!book.remove(&1));
    push(&mut book, 100, 1, Side::Buy);
    assert_eq!(book.pop_best(Side::Sell), Some(2));
    assert_eq!(book.pop_best(Side::Sell), Some(1));
    assert!(book.best_bid().is_none());
}

#[test]
fn remove_then_push_goes_to_back_of_level() {
    let mut book = BTreeOrderBook::new();
    push(&mut book, 100, 1, Side::Buy);
    push(&mut book, 100, 2, Side::Buy);
    assert!(book.remove(&1));
    push(&mut book, 100, 1, Side::Buy);
    assert_eq!(book.pop_best(Side::Sell), Some(2));
    assert_eq!(book.pop_best(Side::Sell), Some(1));
}
