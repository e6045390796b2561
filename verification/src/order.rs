//! The order data model: the fields the book reads, classification of an
//! order into a book lane, and effective-price evaluation.

use vstd::prelude::*;

verus! {

/// Which of the two exchanges an order belongs to.
#[derive(Clone, Copy, Debug, PartialEq, Eq, Structural)]
pub enum MarketType {
    Perp,
    Spot,
}

/// On-chain lifecycle status of an order.  `Init` orders are unplaced slots
/// in a user's order array and never enter the book.
#[derive(Clone, Copy, Debug, PartialEq, Eq, Structural)]
pub enum OrderStatus {
    Init,
    Open,
    Filled,
    Canceled,
}

/// The price discipline of an order.
#[derive(Clone, Copy, Debug, PartialEq, Eq, Structural)]
pub enum OrderType {
    Market,
    Limit,
    TriggerMarket,
    TriggerLimit,
    Oracle,
}

/// Taker direction: `Long` bids, `Short` asks.
#[derive(Clone, Copy, Debug, PartialEq, Eq, Structural)]
pub enum Direction {
    Long,
    Short,
}

/// Condition attached to a trigger order.
#[derive(Clone, Copy, Debug, PartialEq, Eq, Structural)]
pub enum TriggerCondition {
    Above,
    Below,
}

/// The fields of an on-chain order that the book reads for classification
/// and price evaluation.
#[derive(Clone, Copy, Debug, PartialEq, Eq, Structural)]
pub struct Order {
    pub order_id: u32,
    pub market_type: MarketType,
    pub market_index: u16,
    pub status: OrderStatus,
    pub order_type: OrderType,
    pub direction: Direction,
    pub slot: u64,
    pub auction_start_slot: u64,
    pub auction_duration: u8,
    pub price: u64,
    pub oracle_price_offset: i32,
    pub trigger_price: u64,
    pub trigger_condition: TriggerCondition,
}

impl Default for Order {
    /// An `Open` fixed-price limit order with every numeric field zero.
    fn default() -> (r: Order)
        ensures
            r == default_order(),
    {
        Order {
            order_id: 0,
            market_type: MarketType::Perp,
            market_index: 0,
            status: OrderStatus::Open,
            order_type: OrderType::Limit,
            direction: Direction::Long,
            slot: 0,
            auction_start_slot: 0,
            auction_duration: 0,
            price: 0,
            oracle_price_offset: 0,
            trigger_price: 0,
            trigger_condition: TriggerCondition::Above,
        }
    }
}

pub open spec fn default_order() -> Order {
    Order {
        order_id: 0,
        market_type: MarketType::Perp,
        market_index: 0,
        status: OrderStatus::Open,
        order_type: OrderType::Limit,
        direction: Direction::Long,
        slot: 0,
        auction_start_slot: 0,
        auction_duration: 0,
        price: 0,
        oracle_price_offset: 0,
        trigger_price: 0,
        trigger_condition: TriggerCondition::Above,
    }
}

/// An external price feed sample for a market, used to evaluate
/// oracle-relative (floating) limit prices at query time.
#[derive(Clone, Copy, Debug, PartialEq, Eq, Structural)]
pub struct OraclePriceData {
    pub price: i64,
    pub confidence: u64,
}

/// A user account as the book sees it: the owner's order array.
#[derive(Clone, Debug, PartialEq)]
pub struct User {
    pub orders: Vec<Order>,
}

impl View for User {
    type V = Seq<Order>;

    open spec fn view(&self) -> Seq<Order> {
        self.orders@
    }
}

impl User {
    pub fn new(orders: Vec<Order>) -> (r: User)
        ensures
            r@ == orders@,
    {
        User { orders }
    }
}

/// The five per-market book lanes.
#[derive(Clone, Copy, Debug, PartialEq, Eq, Structural)]
pub enum NodeKind {
    TakingLimit,
    RestingLimit,
    FloatingLimit,
    Market,
    Trigger,
}

/// Which heap of a lane an order belongs to.  `Above` and `Below` are the
/// trigger conditions; orders classified to them never enter the bid/ask
/// heaps.
#[derive(Clone, Copy, Debug, PartialEq, Eq, Structural)]
pub enum Side {
    Bid,
    Ask,
    Above,
    Below,
}

/// Sort direction of one heap of a lane.
#[derive(Clone, Copy, Debug, PartialEq, Eq, Structural)]
pub enum SortDirection {
    Ascending,
    Descending,
}

/// A booked order: the order value, the owning user's account key, and the
/// lane it was classified into at insertion time.
#[derive(Clone, Copy, Debug, PartialEq)]
pub struct OrderNode {
    pub order: Order,
    pub user_account: [u8; 32],
    pub kind: NodeKind,
}

/// An order is floating when its price is oracle-relative.
pub open spec fn is_floating(order: Order) -> bool {
    order.oracle_price_offset != 0
}

/// The sole criterion that keeps a limit order out of the taking lane: it
/// must be `Open`, a plain limit, and past its auction window.
pub open spec fn is_resting_limit_order_spec(order: Order, slot: u64) -> bool {
    &&& order.status == OrderStatus::Open
    &&& order.order_type == OrderType::Limit
    &&& order.auction_start_slot + order.auction_duration < slot
}

pub fn is_resting_limit_order(order: &Order, slot: u64) -> (r: bool)
    ensures
        r == is_resting_limit_order_spec(*order, slot),
{
    if order.status != OrderStatus::Open {
        return false;
    }
    if order.order_type != OrderType::Limit {
        return false;
    }
    let auction_end: u128 = order.auction_start_slot as u128 + order.auction_duration as u128;
    auction_end < slot as u128
}

/// Which heap receives an order: bids for longs, asks for shorts, and the
/// trigger condition for conditional orders.
pub open spec fn classify_side_spec(order: Order) -> Side {
    if order.order_type == OrderType::TriggerMarket || order.order_type == OrderType::TriggerLimit {
        if order.trigger_condition == TriggerCondition::Above {
            Side::Above
        } else {
            Side::Below
        }
    } else if order.direction == Direction::Long {
        Side::Bid
    } else {
        Side::Ask
    }
}

/// Which lane receives an order inserted at `slot`.
pub open spec fn classify_kind_spec(order: Order, slot: u64) -> NodeKind {
    if order.order_type == OrderType::TriggerMarket || order.order_type == OrderType::TriggerLimit {
        NodeKind::Trigger
    } else if order.order_type == OrderType::Market || order.order_type == OrderType::Oracle {
        NodeKind::Market
    } else if !is_resting_limit_order_spec(order, slot) {
        NodeKind::TakingLimit
    } else if is_floating(order) {
        NodeKind::FloatingLimit
    } else {
        NodeKind::RestingLimit
    }
}

/// Classification is the sole authority for which lane an order enters.  It
/// is deterministic in `(order, slot)`.
pub fn get_node_subtype_and_type(order: &Order, slot: u64) -> (r: (Side, NodeKind))
    ensures
        r.0 == classify_side_spec(*order),
        r.1 == classify_kind_spec(*order, slot),
{
    let side: Side = if order.order_type == OrderType::TriggerMarket || order.order_type
        == OrderType::TriggerLimit {
        if order.trigger_condition == TriggerCondition::Above {
            Side::Above
        } else {
            Side::Below
        }
    } else if order.direction == Direction::Long {
        Side::Bid
    } else {
        Side::Ask
    };
    let kind: NodeKind = if order.order_type == OrderType::TriggerMarket || order.order_type
        == OrderType::TriggerLimit {
        NodeKind::Trigger
    } else if order.order_type == OrderType::Market || order.order_type == OrderType::Oracle {
        NodeKind::Market
    } else if !is_resting_limit_order(order, slot) {
        NodeKind::TakingLimit
    } else if order.oracle_price_offset != 0 {
        NodeKind::FloatingLimit
    } else {
        NodeKind::RestingLimit
    };
    (side, kind)
}

pub fn create_node(kind: NodeKind, order: Order, user_account: [u8; 32]) -> (r: OrderNode)
    ensures
        r == (OrderNode { order, user_account, kind }),
{
    OrderNode { order, user_account, kind }
}

/// The key a lane orders its heaps by: the fixed price for fixed-price
/// orders, the raw oracle offset for floating ones.  Within one oracle
/// sample, offset order and effective-price order agree.
pub open spec fn sort_value_spec(order: Order) -> int {
    if is_floating(order) {
        order.oracle_price_offset as int
    } else {
        order.price as int
    }
}

pub fn sort_value(order: &Order) -> (r: i128)
    ensures
        r as int == sort_value_spec(*order),
{
    if order.oracle_price_offset != 0 {
        order.oracle_price_offset as i128
    } else {
        order.price as i128
    }
}

/// Effective price of an order under an oracle sample: the fixed price for
/// fixed-price orders, `oracle.price + offset` (floored at zero) for
/// floating ones.
pub open spec fn effective_price_spec(order: Order, oracle: OraclePriceData) -> u64 {
    if is_floating(order) {
        let p = oracle.price + order.oracle_price_offset;
        if p < 0 {
            0u64
        } else {
            p as u64
        }
    } else {
        order.price
    }
}

impl OrderNode {
    /// Price the node for ranking under an oracle sample.  The slot argument
    /// is accepted for interface stability; resting and floating prices do
    /// not depend on it.
    pub fn get_price(&self, oracle_price_data: OraclePriceData, _slot: u64) -> (r: u64)
        ensures
            r == effective_price_spec(self.order, oracle_price_data),
    {
        if self.order.oracle_price_offset != 0 {
            let p: i128 = oracle_price_data.price as i128 + self.order.oracle_price_offset as i128;
            if p < 0 {
                0
            } else {
                p as u64
            }
        } else {
            self.order.price
        }
    }

    pub fn get_order(&self) -> (r: &Order)
        ensures
            *r == self.order,
    {
        &self.order
    }

    pub fn get_user_account(&self) -> (r: &[u8; 32])
        ensures
            *r == self.user_account,
    {
        &self.user_account
    }
}

/// Byte-wise equality of two account keys.
pub fn keys_eq(a: &[u8; 32], b: &[u8; 32]) -> (r: bool)
    ensures
        r == (a@ == b@),
{
    let mut i: usize = 0;
    while i < 32
        invariant
            0 <= i <= 32,
            forall|j: int| 0 <= j < i ==> a@[j] == b@[j],
        decreases 32 - i,
    {
        if a[i] != b[i] {
            return false;
        }
        i += 1;
    }
    proof {
        assert(a@ =~= b@);
    }
    true
}

} // verus!
