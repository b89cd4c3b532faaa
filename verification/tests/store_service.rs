//! The same order-store scenario run against each store implementation.

use omer::store::service::{DenseOrderStore, HashMapOrderStore};
use omer::store::{OrderStore, OrderStoreError};
use omer::types::{Order, OrderId, OrderType, ParticipantId, Side, TimeInForce};

fn sample_order(id: OrderId, participant_id: ParticipantId) -> Order {
    Order {
        symbol_id: 0,
        id,
        participant_id,
        side: Side::Buy,
        order_type: OrderType::Limit,
        price: Some(100),
        quantity: 10,
        time_in_force: TimeInForce::Gtc,
        stop_price: None,
        max_visible_quantity: None,
        slippage: None,
        trailing_distance: None,
        trailing_step: None,
        executed_quantity: 0,
        leaves_quantity: 10,
        sequence: 1,
    }
}

fn run_order_store_tests<S: OrderStore + Default>() {
    let mut store = S::default();
    let order = sample_order(1, 100);
    store.insert(&order).unwrap();
    assert!(store.get(&1).is_some());
    assert_eq!(store.get(&1).unwrap().quantity, 10);
    let removed = store.remove(&1).unwrap();
    assert_eq!(removed.id, 1);
    assert!(store.get(&1).is_none());

    let mut store2 = S::default();
    let order2 = sample_order(1, 100);
    store2.insert(&order2).unwrap();
    let e = store2.insert(&order2).unwrap_err();
    assert!(matches!(e, OrderStoreError::AlreadyExists(1)));

    let mut store3 = S::default();
    let e = store3.remove(&999).unwrap_err();
    assert!(matches!(e, OrderStoreError::NotFound(999)));
}

#[test]
fn hash_map_order_store() {
    run_order_store_tests::<HashMapOrderStore>();
}

#[test]
fn dense_order_store() {
    run_order_store_tests::<DenseOrderStore>();
}

#[test]
fn dense_order_store_reserve() {
    let mut store = DenseOrderStore::new();
    store.reserve(1000);
    let order = sample_order(1000, 0);
    store.insert(&order).unwrap();
    assert_eq!(store.get(&1000).unwrap().id, 1000);
}

#[test]
fn in_memory_order_store_behaves_like_a_map() {
    run_order_store_tests::<omer::harness::InMemoryOrderStore>();
}

#[test]
fn dense_store_reinsert_after_remove() {
    let mut store = DenseOrderStore::new();
    store.insert(&sample_order(3, 7)).unwrap();
    assert_eq!(store.remove(&3).unwrap().participant_id, 7);
    assert!(store.get(&3).is_none());
    store.insert(&sample_order(3, 8)).unwrap();
    assert_eq!(store.get(&3).unwrap().participant_id, 8);
}
