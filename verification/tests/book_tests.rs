use drift_dlob::dlob::DLOB;
use drift_dlob::order::{
    Direction, MarketType, NodeKind, OraclePriceData, Order, OrderStatus, OrderType, Side,
    SortDirection, User,
};
use drift_dlob::order_list::Orderlist;

fn key(b: u8) -> [u8; 32] {
    let mut k = [0u8; 32];
    k[0] = b;
    k
}

fn fixed_bid(id: u32, price: u64) -> Order {
    let mut o = Order::default();
    o.order_id = id;
    o.price = price;
    o.direction = Direction::Long;
    o
}

fn fixed_ask(id: u32, price: u64) -> Order {
    let mut o = Order::default();
    o.order_id = id;
    o.price = price;
    o.direction = Direction::Short;
    o
}

fn node(id: u32, price: u64, user: u8) -> drift_dlob::order::OrderNode {
    drift_dlob::order::OrderNode {
        order: fixed_bid(id, price),
        user_account: key(user),
        kind: NodeKind::RestingLimit,
    }
}

fn oracle(price: i64) -> OraclePriceData {
    OraclePriceData { price, confidence: 0 }
}

/// Single fixed bid: inserted at slot 10, it is served back at slot 10
/// with effective price 100.
#[test]
fn single_fixed_bid() {
    let mut dlob = DLOB::new();
    let o = fixed_bid(1, 100);
    dlob.insert_order(&o, key(1), 10);
    let bids = dlob.get_resting_limit_bids(10, MarketType::Perp, 0, oracle(0));
    assert_eq!(bids.len(), 1);
    assert_eq!(bids[0].get_price(oracle(0), 10), 100);
}

/// Promotion: an auctioning bid is absent at slot 14 and served at 16.
#[test]
fn promotion_across_slots() {
    let mut dlob = DLOB::new();
    let mut o = fixed_bid(1, 100);
    o.auction_start_slot = 10;
    o.auction_duration = 5;
    dlob.insert_order(&o, key(1), 10);
    let bids_14 = dlob.get_resting_limit_bids(14, MarketType::Perp, 0, oracle(0));
    assert!(bids_14.is_empty());
    let bids_16 = dlob.get_resting_limit_bids(16, MarketType::Perp, 0, oracle(0));
    assert_eq!(bids_16.len(), 1);
    assert_eq!(bids_16[0].order.order_id, 1);
}

/// Floating merge: with the oracle at 98, an offset +3 bid (effective
/// 101) comes before a fixed bid at 100.
#[test]
fn floating_merge() {
    let mut dlob = DLOB::new();
    let fixed = fixed_bid(1, 100);
    let mut floating = fixed_bid(2, 0);
    floating.oracle_price_offset = 3;
    dlob.insert_order(&fixed, key(1), 5);
    dlob.insert_order(&floating, key(2), 5);
    let bids = dlob.get_resting_limit_bids(5, MarketType::Perp, 0, oracle(98));
    assert_eq!(bids.len(), 2);
    assert_eq!(bids[0].order.order_id, 2);
    assert_eq!(bids[0].get_price(oracle(98), 5), 101);
    assert_eq!(bids[1].order.order_id, 1);
    assert_eq!(bids[1].get_price(oracle(98), 5), 100);
}

/// Rebuild determinism: two rebuilds from one snapshot give identical
/// lane contents.
#[test]
fn rebuild_deterministic() {
    let mut users = Vec::new();
    for u in 0..3u8 {
        let orders = vec![
            fixed_bid(2 * u as u32 + 1, 100 + u as u64),
            fixed_ask(2 * u as u32 + 2, 200 + u as u64),
        ];
        users.push((key(u + 1), User::new(orders)));
    }
    let mut d1 = DLOB::new();
    let mut d2 = DLOB::new();
    d1.build_from_usermap(&users, 7);
    d2.build_from_usermap(&users, 7);
    assert_eq!(d1.size(), d2.size());
    let b1 = d1.get_best_orders(MarketType::Perp, Side::Bid, NodeKind::RestingLimit, 0);
    let b2 = d2.get_best_orders(MarketType::Perp, Side::Bid, NodeKind::RestingLimit, 0);
    let sig1: Vec<(u32, [u8; 32])> =
        b1.iter().map(|n| (n.order.order_id, n.user_account)).collect();
    let sig2: Vec<(u32, [u8; 32])> =
        b2.iter().map(|n| (n.order.order_id, n.user_account)).collect();
    assert_eq!(sig1, sig2);
    let a1 = d1.get_best_orders(MarketType::Perp, Side::Ask, NodeKind::RestingLimit, 0);
    let a2 = d2.get_best_orders(MarketType::Perp, Side::Ask, NodeKind::RestingLimit, 0);
    assert_eq!(a1.len(), a2.len());
    for (x, y) in a1.iter().zip(a2.iter()) {
        assert_eq!(x.order.order_id, y.order.order_id);
        assert_eq!(x.user_account, y.user_account);
    }
}

/// Init skip: of a user's two orders, the `Init` one is never booked.
#[test]
fn init_skip() {
    let mut dlob = DLOB::new();
    let mut dead = fixed_bid(1, 50);
    dead.status = OrderStatus::Init;
    let live = fixed_bid(2, 60);
    let user = User::new(vec![dead, live]);
    dlob.update_user(key(1), &user, 5);
    let (perp, spot) = dlob.size();
    assert_eq!(perp + spot, 1);
}

/// An `Init` order handed straight to `insert_order` is not booked
/// either.
#[test]
fn init_never_inserted() {
    let mut dlob = DLOB::new();
    let mut o = fixed_bid(1, 50);
    o.status = OrderStatus::Init;
    dlob.insert_order(&o, key(1), 5);
    let (perp, spot) = dlob.size();
    assert_eq!(perp + spot, 0);
}

/// Lane size is inserts minus successful pops.
#[test]
fn size_tracks_inserts_and_pops() {
    let mut list = Orderlist::new(SortDirection::Descending, SortDirection::Ascending);
    list.insert_bid(node(1, 100, 1));
    list.insert_bid(node(2, 90, 2));
    list.insert_bid(node(3, 110, 3));
    assert_eq!(list.size(), 3);
    let first = list.get_best_bid().expect("three live bids");
    assert_eq!(first.order.order_id, 3);
    assert_eq!(list.size(), 2);
    assert!(list.get_best_bid().is_some());
    assert!(list.get_best_bid().is_some());
    assert_eq!(list.size(), 0);
}

/// Consecutive pops from a fixed-price bid heap come out with
/// non-increasing prices.
#[test]
fn consecutive_pops_ordered() {
    let mut list = Orderlist::new(SortDirection::Descending, SortDirection::Ascending);
    list.insert_bid(node(1, 100, 1));
    list.insert_bid(node(2, 130, 2));
    list.insert_bid(node(3, 110, 3));
    let p1 = list.get_best_bid().unwrap().order.price;
    let p2 = list.get_best_bid().unwrap().order.price;
    let p3 = list.get_best_bid().unwrap().order.price;
    assert!(p1 >= p2 && p2 >= p3);
    assert_eq!((p1, p2, p3), (130, 110, 100));
}

/// Empty lane: a pop returns `None` and removes nothing.
#[test]
fn empty_lane_pop() {
    let mut list = Orderlist::new(SortDirection::Descending, SortDirection::Ascending);
    assert!(list.get_best_bid().is_none());
    assert!(list.get_best_ask().is_none());
    assert_eq!(list.size(), 0);
}

/// A heap entry whose signature was overwritten by a re-insert is handed
/// out as the newer node; the shadowing entry is then skipped as stale.
#[test]
fn stale_entries_skipped() {
    let mut list = Orderlist::new(SortDirection::Descending, SortDirection::Ascending);
    let old_node = node(1, 100, 1);
    let mut new_node = node(1, 80, 1);
    new_node.order.slot = 9;
    list.insert_bid(old_node);
    list.insert_bid(new_node);
    assert_eq!(list.size(), 2);
    let first = list.get_best_bid().expect("one live signature");
    assert_eq!(first.order.slot, 9, "the index hands out the newer node");
    assert!(list.get_best_bid().is_none(), "the shadowed entry is stale");
    assert_eq!(list.size(), 0);
}

/// A slot moving backward leaves the high-water mark alone.
#[test]
fn slot_backward_no_effect() {
    let mut dlob = DLOB::new();
    dlob.update_resting_limit_orders(10);
    assert_eq!(dlob.max_slot_for_resting_limit_orders, 10);
    dlob.update_resting_limit_orders(5);
    assert_eq!(dlob.max_slot_for_resting_limit_orders, 10);
    dlob.update_resting_limit_orders(10);
    assert_eq!(dlob.max_slot_for_resting_limit_orders, 10);
}

/// Promoting twice at one slot is promoting once.
#[test]
fn promotion_idempotent() {
    let mut a = DLOB::new();
    let mut b = DLOB::new();
    let mut o = fixed_bid(1, 100);
    o.auction_start_slot = 1;
    o.auction_duration = 2;
    a.insert_order(&o, key(1), 1);
    b.insert_order(&o, key(1), 1);
    a.update_resting_limit_orders(9);
    b.update_resting_limit_orders(9);
    b.update_resting_limit_orders(9);
    assert_eq!(a.size(), b.size());
    let pa = a.peek_best_orders(MarketType::Perp, Side::Bid, NodeKind::RestingLimit, 0);
    let pb = b.peek_best_orders(MarketType::Perp, Side::Bid, NodeKind::RestingLimit, 0);
    assert_eq!(pa.len(), 1);
    assert_eq!(pa.len(), pb.len());
    assert_eq!(pa[0].order.order_id, pb[0].order.order_id);
}

/// Promotion is monotone: whatever rests at the larger slot has left the
/// taking lane after the second call.
#[test]
fn promotion_monotone() {
    let mut dlob = DLOB::new();
    let mut o = fixed_bid(1, 100);
    o.auction_start_slot = 10;
    o.auction_duration = 5;
    dlob.insert_order(&o, key(1), 10);
    dlob.update_resting_limit_orders(12);
    let taking = dlob.peek_best_orders(MarketType::Perp, Side::Bid, NodeKind::TakingLimit, 0);
    assert_eq!(taking.len(), 1);
    dlob.update_resting_limit_orders(16);
    let taking = dlob.peek_best_orders(MarketType::Perp, Side::Bid, NodeKind::TakingLimit, 0);
    assert!(taking.is_empty());
    let resting = dlob.peek_best_orders(MarketType::Perp, Side::Bid, NodeKind::RestingLimit, 0);
    assert_eq!(resting.len(), 1);
}

/// The non-destructive read hands out what a drain would, and leaves the
/// lane in place.
#[test]
fn peek_is_non_destructive() {
    let mut dlob = DLOB::new();
    dlob.insert_order(&fixed_bid(1, 100), key(1), 5);
    dlob.insert_order(&fixed_bid(2, 120), key(2), 5);
    let p1 = dlob.peek_best_orders(MarketType::Perp, Side::Bid, NodeKind::RestingLimit, 0);
    let p2 = dlob.peek_best_orders(MarketType::Perp, Side::Bid, NodeKind::RestingLimit, 0);
    assert_eq!(p1.len(), 2);
    assert_eq!(p1[0].order.order_id, p2[0].order.order_id);
    let drained = dlob.get_best_orders(MarketType::Perp, Side::Bid, NodeKind::RestingLimit, 0);
    assert_eq!(drained.len(), 2);
    assert_eq!(drained[0].order.order_id, p1[0].order.order_id);
    let after = dlob.peek_best_orders(MarketType::Perp, Side::Bid, NodeKind::RestingLimit, 0);
    assert!(after.is_empty(), "the drain consumed the lane");
}

/// Order lookup scans every lane of every market.
#[test]
fn get_order_lookup() {
    let mut dlob = DLOB::new();
    let mut spot = fixed_ask(7, 55);
    spot.market_type = MarketType::Spot;
    spot.market_index = 3;
    dlob.insert_order(&spot, key(9), 5);
    let found = dlob.get_order(7, key(9)).expect("booked order");
    assert_eq!(found.price, 55);
    assert!(dlob.get_order(8, key(9)).is_none());
    assert!(dlob.get_order(7, key(1)).is_none());
}

/// Clearing resets the book to an uninitialized empty state.
#[test]
fn clear_resets() {
    let mut dlob = DLOB::new();
    dlob.insert_order(&fixed_bid(1, 100), key(1), 5);
    dlob.update_resting_limit_orders(8);
    dlob.clear();
    assert_eq!(dlob.size(), (0, 0));
    assert!(!dlob.initialized);
    assert_eq!(dlob.max_slot_for_resting_limit_orders, 0);
}

/// Ask books come out ascending by effective price.
#[test]
fn asks_ascending() {
    let mut dlob = DLOB::new();
    dlob.insert_order(&fixed_ask(1, 120), key(1), 5);
    dlob.insert_order(&fixed_ask(2, 105), key(2), 5);
    let mut floating = fixed_ask(3, 0);
    floating.oracle_price_offset = 4;
    dlob.insert_order(&floating, key(3), 5);
    let asks = dlob.get_resting_limit_asks(5, MarketType::Perp, 0, oracle(98));
    assert_eq!(asks.len(), 3);
    assert_eq!(asks[0].order.order_id, 3);
    assert_eq!(asks[1].order.order_id, 2);
    assert_eq!(asks[2].order.order_id, 1);
}

/// Trigger orders get their market created but no heap entry.
#[test]
fn trigger_orders_not_booked() {
    let mut dlob = DLOB::new();
    let mut o = fixed_bid(1, 100);
    o.order_type = OrderType::TriggerLimit;
    dlob.insert_order(&o, key(1), 5);
    let (perp, spot) = dlob.size();
    assert_eq!(perp + spot, 0);
}
