//! Order pool and the ready-made policies.

use omer::harness::{AllowSelfTradePolicy, CrossingMatchingPolicy, RejectSelfTradePolicy};
use omer::matching::{MatchingPolicy, MatchingPolicyError, PriceCrossMatchingPolicy};
use omer::pool::OrderPool;
use omer::self_trade::{AllowAllSelfTradePolicy, SelfTradePolicy};
use omer::types::{Order, OrderType, Side, TimeInForce};

fn dummy_order(id: u64, participant_id: u64) -> Order {
    Order {
        symbol_id: 1,
        id,
        participant_id,
        side: Side::Buy,
        order_type: OrderType::Limit,
        price: Some(100),
        quantity: 10,
        time_in_force: TimeInForce::Gtc,
        stop_price: None,
        max_visible_quantity: None,
        slippage: None,
        trailing_distance: None,
        trailing_step: None,
        executed_quantity: 0,
        leaves_quantity: 10,
        sequence: 1,
    }
}

#[test]
fn take_recycle_roundtrip() {
    let mut p = OrderPool::default();
    let mut o = p.take();
    o.id = 42;
    o.side = Side::Sell;
    o.order_type = OrderType::Limit;
    o.price = Some(100);
    o.quantity = 1;
    o.leaves_quantity = 1;
    o.time_in_force = TimeInForce::Gtc;
    p.recycle(o);
    let o2 = p.take();
    assert_eq!(o2.id, 0);
    assert_eq!(o2.side, Side::Buy);
}

#[test]
fn allow_all_never_violates() {
    let pol = AllowAllSelfTradePolicy;
    let a = dummy_order(1, 99);
    let b = dummy_order(2, 99);
    assert!(!pol.violates(&a, &b).unwrap());
}

#[test]
fn harness_self_trade_policies() {
    let a = dummy_order(1, 99);
    let b = dummy_order(2, 99);
    let c = dummy_order(3, 7);
    assert!(!AllowSelfTradePolicy.violates(&a, &b).unwrap());
    assert!(RejectSelfTradePolicy.violates(&a, &b).unwrap());
    assert!(!RejectSelfTradePolicy.violates(&a, &c).unwrap());
}

#[test]
fn crossing_policy_decisions() {
    let mut buy = dummy_order(1, 1);
    let mut sell = dummy_order(2, 2);
    sell.side = Side::Sell;
    sell.price = Some(101);
    assert!(!CrossingMatchingPolicy.can_match(&buy, &sell).unwrap());
    sell.price = Some(100);
    assert!(CrossingMatchingPolicy.can_match(&buy, &sell).unwrap());
    buy.price = None;
    assert!(CrossingMatchingPolicy.can_match(&buy, &sell).unwrap());
    sell.price = None;
    assert!(matches!(CrossingMatchingPolicy.can_match(&buy, &sell), Err(MatchingPolicyError::UndefinedMarketPrice)));
    let other_buy = dummy_order(3, 3);
    let buy2 = dummy_order(4, 4);
    assert!(matches!(CrossingMatchingPolicy.can_match(&buy2, &other_buy), Err(MatchingPolicyError::IncompatibleSides)));
}

#[test]
fn price_cross_policy_decisions() {
    let buy = dummy_order(1, 1);
    let mut sell = dummy_order(2, 2);
    sell.side = Side::Sell;
    sell.price = Some(99);
    assert!(PriceCrossMatchingPolicy.can_match(&buy, &sell).unwrap());
    assert!(PriceCrossMatchingPolicy.can_match(&sell, &buy).unwrap());
    sell.price = Some(101);
    assert!(!PriceCrossMatchingPolicy.can_match(&buy, &sell).unwrap());
    assert!(!PriceCrossMatchingPolicy.can_match(&sell, &buy).unwrap());
    assert!(matches!(PriceCrossMatchingPolicy.can_match(&buy, &buy), Err(MatchingPolicyError::IncompatibleSides)));
}

#[test]
fn pool_clear_and_empty_take() {
    let mut p = OrderPool::new();
    p.recycle(dummy_order(5, 5));
    p.clear();
    let o = p.take();
    assert_eq!(o.id, 0);
    assert_eq!(o.price, None);
}
