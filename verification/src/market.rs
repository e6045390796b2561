//! A market: five order-list lanes, routed by node kind.  The exchange maps
//! market indexes to markets, one mapping per market type.

use vstd::prelude::*;
use crate::order::{
    is_resting_limit_order, is_resting_limit_order_spec, MarketType, NodeKind, OrderNode, Side,
    SortDirection,
};
use crate::order_list::{
    drain_spec, find_sig, lane_sorted, min_usize, ol_empty, ol_insert_ask, ol_insert_bid, ol_wf,
    sat_add_usize, Orderlist, OrderlistV,
};

verus! {

/// The mathematical value of a market: its five lanes.
#[verifier::ext_equal]
pub ghost struct MarketV {
    pub taking: OrderlistV,
    pub resting: OrderlistV,
    pub floating: OrderlistV,
    pub market: OrderlistV,
    pub trigger: OrderlistV,
}

pub open spec fn market_empty() -> MarketV {
    MarketV {
        taking: ol_empty(SortDirection::Descending, SortDirection::Ascending),
        resting: ol_empty(SortDirection::Descending, SortDirection::Ascending),
        floating: ol_empty(SortDirection::Descending, SortDirection::Ascending),
        market: ol_empty(SortDirection::Descending, SortDirection::Ascending),
        trigger: ol_empty(SortDirection::Descending, SortDirection::Ascending),
    }
}

/// Every lane well formed, bids descending and asks ascending.
pub open spec fn market_wf(m: MarketV) -> bool {
    &&& ol_wf(m.taking) && m.taking.bid_dir == SortDirection::Descending && m.taking.ask_dir
        == SortDirection::Ascending
    &&& ol_wf(m.resting) && m.resting.bid_dir == SortDirection::Descending && m.resting.ask_dir
        == SortDirection::Ascending
    &&& ol_wf(m.floating) && m.floating.bid_dir == SortDirection::Descending && m.floating.ask_dir
        == SortDirection::Ascending
    &&& ol_wf(m.market) && m.market.bid_dir == SortDirection::Descending && m.market.ask_dir
        == SortDirection::Ascending
    &&& ol_wf(m.trigger) && m.trigger.bid_dir == SortDirection::Descending && m.trigger.ask_dir
        == SortDirection::Ascending
}

/// The lane a node kind routes to, both for insertion and for reading.
pub open spec fn market_lane(m: MarketV, kind: NodeKind) -> OrderlistV {
    match kind {
        NodeKind::TakingLimit => m.taking,
        NodeKind::RestingLimit => m.resting,
        NodeKind::FloatingLimit => m.floating,
        NodeKind::Market => m.market,
        NodeKind::Trigger => m.trigger,
    }
}

pub open spec fn market_with_lane(m: MarketV, kind: NodeKind, l: OrderlistV) -> MarketV {
    match kind {
        NodeKind::TakingLimit => MarketV { taking: l, ..m },
        NodeKind::RestingLimit => MarketV { resting: l, ..m },
        NodeKind::FloatingLimit => MarketV { floating: l, ..m },
        NodeKind::Market => MarketV { market: l, ..m },
        NodeKind::Trigger => MarketV { trigger: l, ..m },
    }
}

/// Insert a node into the lane of its kind, on the heap of its side.  A
/// side outside bid/ask leaves the market unchanged.
pub open spec fn market_insert(m: MarketV, kind: NodeKind, side: Side, n: OrderNode) -> MarketV {
    match side {
        Side::Bid => market_with_lane(m, kind, ol_insert_bid(market_lane(m, kind), n)),
        Side::Ask => market_with_lane(m, kind, ol_insert_ask(market_lane(m, kind), n)),
        Side::Above => m,
        Side::Below => m,
    }
}

/// Drain one heap of one lane: the nodes handed out and the market left.
pub open spec fn market_drain(m: MarketV, kind: NodeKind, side: Side) -> (Seq<OrderNode>, MarketV) {
    let l = market_lane(m, kind);
    if side == Side::Bid {
        let o = drain_spec(l.bids, l.sigs);
        (
            o.drained,
            market_with_lane(m, kind, OrderlistV { bids: Seq::empty(), sigs: o.sigs, ..l }),
        )
    } else {
        let o = drain_spec(l.asks, l.sigs);
        (
            o.drained,
            market_with_lane(m, kind, OrderlistV { asks: Seq::empty(), sigs: o.sigs, ..l }),
        )
    }
}

/// First hit of a signature across the five lanes, in routing order.
pub open spec fn market_find_node(m: MarketV, k: (u32, Seq<u8>)) -> Option<OrderNode> {
    if find_sig(m.taking.sigs, k) >= 0 {
        Some(m.taking.sigs[find_sig(m.taking.sigs, k)].node)
    } else if find_sig(m.resting.sigs, k) >= 0 {
        Some(m.resting.sigs[find_sig(m.resting.sigs, k)].node)
    } else if find_sig(m.floating.sigs, k) >= 0 {
        Some(m.floating.sigs[find_sig(m.floating.sigs, k)].node)
    } else if find_sig(m.market.sigs, k) >= 0 {
        Some(m.market.sigs[find_sig(m.market.sigs, k)].node)
    } else if find_sig(m.trigger.sigs, k) >= 0 {
        Some(m.trigger.sigs[find_sig(m.trigger.sigs, k)].node)
    } else {
        None
    }
}

/// Promote the bid side of the taking lane: orders resting at `slot` move
/// into the resting lane in heap order, the rest stay, in order.
pub open spec fn promote_bids(
    bids: Seq<OrderNode>,
    resting: OrderlistV,
    slot: u64,
) -> (Seq<OrderNode>, OrderlistV)
    decreases bids.len(),
{
    if bids.len() == 0 {
        (Seq::empty(), resting)
    } else if is_resting_limit_order_spec(bids[0].order, slot) {
        promote_bids(bids.drop_first(), ol_insert_bid(resting, bids[0]), slot)
    } else {
        let r = promote_bids(bids.drop_first(), resting, slot);
        (seq![bids[0]].add(r.0), r.1)
    }
}

pub open spec fn promote_asks(
    asks: Seq<OrderNode>,
    resting: OrderlistV,
    slot: u64,
) -> (Seq<OrderNode>, OrderlistV)
    decreases asks.len(),
{
    if asks.len() == 0 {
        (Seq::empty(), resting)
    } else if is_resting_limit_order_spec(asks[0].order, slot) {
        promote_asks(asks.drop_first(), ol_insert_ask(resting, asks[0]), slot)
    } else {
        let r = promote_asks(asks.drop_first(), resting, slot);
        (seq![asks[0]].add(r.0), r.1)
    }
}

/// Slot-driven promotion of one market: both sides of the taking lane are
/// re-examined; orders now resting move into the resting lane, the
/// remainder is retained.  The taking lane's signature index keeps the
/// moved orders' entries; the resting lane registers them anew.
pub open spec fn market_promote(m: MarketV, slot: u64) -> MarketV {
    let b = promote_bids(m.taking.bids, m.resting, slot);
    let a = promote_asks(m.taking.asks, b.1, slot);
    MarketV {
        taking: OrderlistV { bids: b.0, asks: a.0, ..m.taking },
        resting: a.1,
        ..m
    }
}

/// A market's five lanes, keyed by node kind.
#[derive(Clone, Debug)]
pub struct Market {
    pub taking_limit_orders: Orderlist,
    pub resting_limit_orders: Orderlist,
    pub floating_limit_orders: Orderlist,
    pub market_orders: Orderlist,
    pub trigger_orders: Orderlist,
}

impl View for Market {
    type V = MarketV;

    open spec fn view(&self) -> MarketV {
        MarketV {
            taking: self.taking_limit_orders@,
            resting: self.resting_limit_orders@,
            floating: self.floating_limit_orders@,
            market: self.market_orders@,
            trigger: self.trigger_orders@,
        }
    }
}

impl Market {
    pub open spec fn well_formed(&self) -> bool {
        market_wf(self@)
    }

    pub fn new() -> (r: Market)
        ensures
            r@ == market_empty(),
            r.well_formed(),
    {
        let r = Market {
            taking_limit_orders: Orderlist::new(
                SortDirection::Descending,
                SortDirection::Ascending,
            ),
            resting_limit_orders: Orderlist::new(
                SortDirection::Descending,
                SortDirection::Ascending,
            ),
            floating_limit_orders: Orderlist::new(
                SortDirection::Descending,
                SortDirection::Ascending,
            ),
            market_orders: Orderlist::new(SortDirection::Descending, SortDirection::Ascending),
            trigger_orders: Orderlist::new(SortDirection::Descending, SortDirection::Ascending),
        };
        proof {
            assert(r@ =~~= market_empty());
        }
        r
    }

    /// Route a freshly classified node into its lane.
    pub fn insert_node(&mut self, kind: NodeKind, side: Side, node: OrderNode)
        requires
            old(self).well_formed(),
        ensures
            final(self).well_formed(),
            final(self)@ == market_insert(old(self)@, kind, side, node),
    {
        proof {
            crate::order_list::lemma_ol_insert_bid_wf(market_lane(self@, kind), node);
            crate::order_list::lemma_ol_insert_ask_wf(market_lane(self@, kind), node);
        }
        match side {
            Side::Bid => {
                match kind {
                    NodeKind::TakingLimit => self.taking_limit_orders.insert_bid(node),
                    NodeKind::RestingLimit => self.resting_limit_orders.insert_bid(node),
                    NodeKind::FloatingLimit => self.floating_limit_orders.insert_bid(node),
                    NodeKind::Market => self.market_orders.insert_bid(node),
                    NodeKind::Trigger => self.trigger_orders.insert_bid(node),
                }
            },
            Side::Ask => {
                match kind {
                    NodeKind::TakingLimit => self.taking_limit_orders.insert_ask(node),
                    NodeKind::RestingLimit => self.resting_limit_orders.insert_ask(node),
                    NodeKind::FloatingLimit => self.floating_limit_orders.insert_ask(node),
                    NodeKind::Market => self.market_orders.insert_ask(node),
                    NodeKind::Trigger => self.trigger_orders.insert_ask(node),
                }
            },
            Side::Above => {
            },
            Side::Below => {
            },
        }
        proof {
            assert(self@ =~~= market_insert(old(self)@, kind, side, node));
        }
    }

    /// Drain one heap of one lane, best-first and destructively.
    pub fn drain_lane(&mut self, kind: NodeKind, side: Side) -> (r: Vec<OrderNode>)
        requires
            old(self).well_formed(),
            side == Side::Bid || side == Side::Ask,
        ensures
            final(self).well_formed(),
            r@ == market_drain(old(self)@, kind, side).0,
            final(self)@ == market_drain(old(self)@, kind, side).1,
    {
        let r = if matches!(side, Side::Bid) {
            match kind {
                NodeKind::TakingLimit => self.taking_limit_orders.drain_bids(),
                NodeKind::RestingLimit => self.resting_limit_orders.drain_bids(),
                NodeKind::FloatingLimit => self.floating_limit_orders.drain_bids(),
                NodeKind::Market => self.market_orders.drain_bids(),
                NodeKind::Trigger => self.trigger_orders.drain_bids(),
            }
        } else {
            match kind {
                NodeKind::TakingLimit => self.taking_limit_orders.drain_asks(),
                NodeKind::RestingLimit => self.resting_limit_orders.drain_asks(),
                NodeKind::FloatingLimit => self.floating_limit_orders.drain_asks(),
                NodeKind::Market => self.market_orders.drain_asks(),
                NodeKind::Trigger => self.trigger_orders.drain_asks(),
            }
        };
        proof {
            assert(self@ =~~= market_drain(old(self)@, kind, side).1);
        }
        r
    }

    /// Read one heap of one lane best-first without consuming it: the
    /// same nodes a drain would hand out, but nothing is mutated.
    pub fn peek_lane(&self, kind: NodeKind, side: Side) -> (r: Vec<OrderNode>)
        requires
            self.well_formed(),
            side == Side::Bid || side == Side::Ask,
        ensures
            r@ == market_drain(self@, kind, side).0,
    {
        let lane: &Orderlist = match kind {
            NodeKind::TakingLimit => &self.taking_limit_orders,
            NodeKind::RestingLimit => &self.resting_limit_orders,
            NodeKind::FloatingLimit => &self.floating_limit_orders,
            NodeKind::Market => &self.market_orders,
            NodeKind::Trigger => &self.trigger_orders,
        };
        let sigs = crate::order_list::copy_sigs(&lane.order_sigs);
        if matches!(side, Side::Bid) {
            let heap = crate::order_list::copy_nodes(&lane.bids);
            let mut tmp = Orderlist {
                bids: heap,
                asks: Vec::new(),
                order_sigs: sigs,
                bid_sort_direction: SortDirection::Descending,
                ask_sort_direction: SortDirection::Ascending,
            };
            tmp.drain_bids()
        } else {
            let heap = crate::order_list::copy_nodes(&lane.asks);
            let mut tmp = Orderlist {
                bids: Vec::new(),
                asks: heap,
                order_sigs: sigs,
                bid_sort_direction: SortDirection::Descending,
                ask_sort_direction: SortDirection::Ascending,
            };
            tmp.drain_asks()
        }
    }

    /// Look a signature up across the five lanes, in routing order.
    pub fn get_node(&self, order_id: u32, user_account: &[u8; 32]) -> (r: Option<OrderNode>)
        ensures
            r == market_find_node(self@, (order_id, user_account@)),
    {
        if let Some(n) = self.taking_limit_orders.get_node(order_id, user_account) {
            return Some(n);
        }
        if let Some(n) = self.resting_limit_orders.get_node(order_id, user_account) {
            return Some(n);
        }
        if let Some(n) = self.floating_limit_orders.get_node(order_id, user_account) {
            return Some(n);
        }
        if let Some(n) = self.market_orders.get_node(order_id, user_account) {
            return Some(n);
        }
        if let Some(n) = self.trigger_orders.get_node(order_id, user_account) {
            return Some(n);
        }
        None
    }

    /// Heap entries held across all lanes, stale ones included.
    pub fn size(&self) -> (r: usize)
        ensures
            r == market_size_spec(self@),
    {
        let mut total: usize = self.taking_limit_orders.size();
        total = sat_add_usize(total, self.resting_limit_orders.size());
        total = sat_add_usize(total, self.floating_limit_orders.size());
        total = sat_add_usize(total, self.market_orders.size());
        total = sat_add_usize(total, self.trigger_orders.size());
        total
    }

    /// Move every taking-lane order that now rests into the resting lane;
    /// retain the remainder.  Both sides are processed, bids first.
    pub fn update_resting_limit_orders(&mut self, slot: u64)
        requires
            old(self).well_formed(),
        ensures
            final(self).well_formed(),
            final(self)@ == market_promote(old(self)@, slot),
    {
        let ghost m0 = self@;
        let ghost orig_bids = self.taking_limit_orders.bids@;
        let ghost full_b = promote_bids(orig_bids, m0.resting, slot);
        let mut new_bids: Vec<OrderNode> = Vec::new();
        let mut i: usize = 0;
        proof {
            assert(orig_bids.skip(0) =~= orig_bids);
            assert(Seq::<OrderNode>::empty().add(full_b.0) =~= full_b.0);
        }
        while i < self.taking_limit_orders.bids.len()
            invariant
                market_wf(self@),
                0 <= i <= self.taking_limit_orders.bids@.len(),
                self.taking_limit_orders.bids@ == orig_bids,
                self@.taking == m0.taking,
                self@.floating == m0.floating,
                self@.market == m0.market,
                self@.trigger == m0.trigger,
                full_b == promote_bids(orig_bids, m0.resting, slot),
                lane_sorted(SortDirection::Descending, new_bids@),
                forall|p: int, q: int|
                    0 <= p < new_bids@.len() && i <= q < orig_bids.len() ==> crate::order_list::comes_before(
                        SortDirection::Descending,
                        new_bids@[p],
                        orig_bids[q],
                    ),
                full_b.0 == new_bids@.add(
                    promote_bids(orig_bids.skip(i as int), self@.resting, slot).0,
                ),
                full_b.1 == promote_bids(orig_bids.skip(i as int), self@.resting, slot).1,
            decreases self.taking_limit_orders.bids@.len() - i,
        {
            let node = self.taking_limit_orders.bids[i];
            let ghost rest = orig_bids.skip(i as int);
            proof {
                assert(rest[0] == orig_bids[i as int]);
                assert(rest.drop_first() =~= orig_bids.skip(i as int + 1));
            }
            if is_resting_limit_order(&node.order, slot) {
                proof {
                    crate::order_list::lemma_ol_insert_bid_wf(self@.resting, node);
                }
                self.resting_limit_orders.insert_bid(node);
            } else {
                let ghost prev_new = new_bids@;
                new_bids.push(node);
                proof {
                    let x2 = promote_bids(orig_bids.skip(i as int + 1), self@.resting, slot);
                    assert(promote_bids(rest, self@.resting, slot).0 =~= seq![node].add(x2.0));
                    assert(prev_new.add(seq![node].add(x2.0)) =~= new_bids@.add(x2.0));
                }
            }
            i += 1;
        }
        proof {
            assert(orig_bids.skip(i as int) =~= Seq::<OrderNode>::empty());
            assert(new_bids@.add(Seq::<OrderNode>::empty()) =~= new_bids@);
        }
        self.taking_limit_orders.bids = new_bids;

        let ghost m1 = self@;
        let ghost orig_asks = self.taking_limit_orders.asks@;
        let ghost full_a = promote_asks(orig_asks, m1.resting, slot);
        let mut new_asks: Vec<OrderNode> = Vec::new();
        let mut j: usize = 0;
        proof {
            assert(orig_asks.skip(0) =~= orig_asks);
            assert(Seq::<OrderNode>::empty().add(full_a.0) =~= full_a.0);
        }
        while j < self.taking_limit_orders.asks.len()
            invariant
                market_wf(self@),
                0 <= j <= self.taking_limit_orders.asks@.len(),
                self.taking_limit_orders.asks@ == orig_asks,
                self@.taking == m1.taking,
                self@.floating == m1.floating,
                self@.market == m1.market,
                self@.trigger == m1.trigger,
                full_a == promote_asks(orig_asks, m1.resting, slot),
                lane_sorted(SortDirection::Ascending, new_asks@),
                forall|p: int, q: int|
                    0 <= p < new_asks@.len() && j <= q < orig_asks.len() ==> crate::order_list::comes_before(
                        SortDirection::Ascending,
                        new_asks@[p],
                        orig_asks[q],
                    ),
                full_a.0 == new_asks@.add(
                    promote_asks(orig_asks.skip(j as int), self@.resting, slot).0,
                ),
                full_a.1 == promote_asks(orig_asks.skip(j as int), self@.resting, slot).1,
            decreases self.taking_limit_orders.asks@.len() - j,
        {
            let node = self.taking_limit_orders.asks[j];
            let ghost rest = orig_asks.skip(j as int);
            proof {
                assert(rest[0] == orig_asks[j as int]);
                assert(rest.drop_first() =~= orig_asks.skip(j as int + 1));
            }
            if is_resting_limit_order(&node.order, slot) {
                proof {
                    crate::order_list::lemma_ol_insert_ask_wf(self@.resting, node);
                }
                self.resting_limit_orders.insert_ask(node);
            } else {
                let ghost prev_new = new_asks@;
                new_asks.push(node);
                proof {
                    let x2 = promote_asks(orig_asks.skip(j as int + 1), self@.resting, slot);
                    assert(promote_asks(rest, self@.resting, slot).0 =~= seq![node].add(x2.0));
                    assert(prev_new.add(seq![node].add(x2.0)) =~= new_asks@.add(x2.0));
                }
            }
            j += 1;
        }
        proof {
            assert(orig_asks.skip(j as int) =~= Seq::<OrderNode>::empty());
            assert(new_asks@.add(Seq::<OrderNode>::empty()) =~= new_asks@);
        }
        self.taking_limit_orders.asks = new_asks;
        proof {
            assert(self@ =~~= market_promote(m0, slot));
        }
    }
}

pub open spec fn market_size_spec(m: MarketV) -> int {
    let t = min_usize(m.taking.bids.len() + m.taking.asks.len() as int);
    let t1 = min_usize(t + min_usize(m.resting.bids.len() + m.resting.asks.len() as int));
    let t2 = min_usize(t1 + min_usize(m.floating.bids.len() + m.floating.asks.len() as int));
    let t3 = min_usize(t2 + min_usize(m.market.bids.len() + m.market.asks.len() as int));
    min_usize(t3 + min_usize(m.trigger.bids.len() + m.trigger.asks.len() as int))
}

/// The mathematical value of the exchange: two market maps.
#[verifier::ext_equal]
pub ghost struct ExchangeV {
    pub perp: Seq<(u16, MarketV)>,
    pub spot: Seq<(u16, MarketV)>,
}

pub open spec fn markets_view(v: Seq<(u16, Market)>) -> Seq<(u16, MarketV)> {
    v.map_values(|p: (u16, Market)| (p.0, p.1@))
}

/// Index of the market with the given market index, or -1.
pub open spec fn find_market(s: Seq<(u16, MarketV)>, idx: u16) -> int
    decreases s.len(),
{
    if s.len() == 0 {
        -1
    } else if s[0].0 == idx {
        0
    } else {
        let r = find_market(s.drop_first(), idx);
        if r < 0 {
            -1
        } else {
            r + 1
        }
    }
}

pub proof fn lemma_find_market_props(s: Seq<(u16, MarketV)>, idx: u16)
    ensures
        -1 <= find_market(s, idx) < s.len(),
        find_market(s, idx) >= 0 ==> s[find_market(s, idx)].0 == idx,
        find_market(s, idx) == -1 ==> forall|j: int| 0 <= j < s.len() ==> s[j].0 != idx,
    decreases s.len(),
{
    if s.len() > 0 && s[0].0 != idx {
        lemma_find_market_props(s.drop_first(), idx);
        assert(forall|j: int| 1 <= j < s.len() ==> s[j] == s.drop_first()[j - 1]);
    }
}

pub proof fn lemma_find_market_at(s: Seq<(u16, MarketV)>, idx: u16, i: int)
    requires
        0 <= i <= s.len(),
        forall|j: int| 0 <= j < i ==> s[j].0 != idx,
        i < s.len() ==> s[i].0 == idx,
    ensures
        i < s.len() ==> find_market(s, idx) == i,
        i == s.len() ==> find_market(s, idx) == -1,
    decreases s.len(),
{
    if s.len() > 0 && s[0].0 == idx {
    } else if s.len() > 0 {
        assert(forall|j: int| 1 <= j < s.len() ==> s[j] == s.drop_first()[j - 1]);
        lemma_find_market_at(s.drop_first(), idx, i - 1);
    }
}

pub open spec fn markets_distinct(s: Seq<(u16, MarketV)>) -> bool {
    forall|i: int, j: int| 0 <= i < j < s.len() ==> s[i].0 != s[j].0
}

pub open spec fn markets_wf(s: Seq<(u16, MarketV)>) -> bool {
    &&& markets_distinct(s)
    &&& forall|i: int| 0 <= i < s.len() ==> market_wf(#[trigger] s[i].1)
}

pub open spec fn ex_wf(e: ExchangeV) -> bool {
    markets_wf(e.perp) && markets_wf(e.spot)
}

pub open spec fn ex_empty() -> ExchangeV {
    ExchangeV { perp: Seq::empty(), spot: Seq::empty() }
}

pub open spec fn ex_map(e: ExchangeV, mt: MarketType) -> Seq<(u16, MarketV)> {
    match mt {
        MarketType::Perp => e.perp,
        MarketType::Spot => e.spot,
    }
}

pub open spec fn ex_with_map(e: ExchangeV, mt: MarketType, s: Seq<(u16, MarketV)>) -> ExchangeV {
    match mt {
        MarketType::Perp => ExchangeV { perp: s, ..e },
        MarketType::Spot => ExchangeV { spot: s, ..e },
    }
}

/// Create the market if absent; an existing one is untouched.
pub open spec fn add_market_spec(s: Seq<(u16, MarketV)>, idx: u16) -> Seq<(u16, MarketV)> {
    if find_market(s, idx) >= 0 {
        s
    } else {
        s.push((idx, market_empty()))
    }
}

pub open spec fn ex_add_market(e: ExchangeV, mt: MarketType, idx: u16) -> ExchangeV {
    ex_with_map(e, mt, add_market_spec(ex_map(e, mt), idx))
}

/// Route a node into the lane of its kind in its market, creating the
/// market first if need be.
pub open spec fn ex_insert(
    e: ExchangeV,
    mt: MarketType,
    idx: u16,
    kind: NodeKind,
    side: Side,
    n: OrderNode,
) -> ExchangeV {
    let s = add_market_spec(ex_map(e, mt), idx);
    let i = find_market(s, idx);
    ex_with_map(e, mt, s.update(i, (idx, market_insert(s[i].1, kind, side, n))))
}

/// Drain one heap of one lane of one market; a missing market yields
/// nothing and changes nothing.
pub open spec fn ex_drain(
    e: ExchangeV,
    mt: MarketType,
    idx: u16,
    kind: NodeKind,
    side: Side,
) -> (Seq<OrderNode>, ExchangeV) {
    let s = ex_map(e, mt);
    let i = find_market(s, idx);
    if i < 0 {
        (Seq::empty(), e)
    } else {
        let d = market_drain(s[i].1, kind, side);
        (d.0, ex_with_map(e, mt, s.update(i, (idx, d.1))))
    }
}

/// Promote every market of one map.
pub open spec fn markets_promote(s: Seq<(u16, MarketV)>, slot: u64) -> Seq<(u16, MarketV)> {
    s.map_values(|p: (u16, MarketV)| (p.0, market_promote(p.1, slot)))
}

/// First signature hit scanning a map's markets in insertion order.
pub open spec fn markets_find_node(s: Seq<(u16, MarketV)>, k: (u32, Seq<u8>)) -> Option<OrderNode>
    decreases s.len(),
{
    if s.len() == 0 {
        None
    } else {
        match market_find_node(s[0].1, k) {
            Some(n) => Some(n),
            None => markets_find_node(s.drop_first(), k),
        }
    }
}

/// First signature hit over the whole exchange: perpetual markets first.
pub open spec fn ex_find_node(e: ExchangeV, k: (u32, Seq<u8>)) -> Option<OrderNode> {
    match markets_find_node(e.perp, k) {
        Some(n) => Some(n),
        None => markets_find_node(e.spot, k),
    }
}

/// Sum of market sizes, every step clamped into `usize`.
pub open spec fn markets_size(s: Seq<(u16, MarketV)>) -> int
    decreases s.len(),
{
    if s.len() == 0 {
        0
    } else {
        min_usize(markets_size(s.drop_last()) + market_size_spec(s.last().1))
    }
}

/// Two mappings from market index to market, one per market type.
/// Markets are created lazily on first insert.
#[derive(Clone, Debug)]
pub struct Exchange {
    pub perp: Vec<(u16, Market)>,
    pub spot: Vec<(u16, Market)>,
}

impl View for Exchange {
    type V = ExchangeV;

    open spec fn view(&self) -> ExchangeV {
        ExchangeV { perp: markets_view(self.perp@), spot: markets_view(self.spot@) }
    }
}

/// Position of a market index inside one map.
fn vec_find_market(v: &Vec<(u16, Market)>, index: u16) -> (r: Option<usize>)
    ensures
        match r {
            Some(i) => 0 <= i < v@.len() && find_market(markets_view(v@), index) == i as int,
            None => find_market(markets_view(v@), index) == -1,
        },
{
    let ghost s = markets_view(v@);
    let mut i: usize = 0;
    while i < v.len()
        invariant
            0 <= i <= v@.len(),
            s == markets_view(v@),
            forall|j: int| 0 <= j < i ==> s[j].0 != index,
        decreases v@.len() - i,
    {
        if v[i].0 == index {
            proof {
                lemma_find_market_at(s, index, i as int);
            }
            return Some(i);
        }
        i += 1;
    }
    proof {
        lemma_find_market_at(s, index, i as int);
    }
    None
}

impl Exchange {
    pub open spec fn well_formed(&self) -> bool {
        ex_wf(self@)
    }

    pub fn new() -> (r: Exchange)
        ensures
            r@ == ex_empty(),
            r.well_formed(),
    {
        let r = Exchange { perp: Vec::new(), spot: Vec::new() };
        proof {
            assert(r@ =~~= ex_empty());
        }
        r
    }

    pub fn clear(&mut self)
        ensures
            final(self)@ == ex_empty(),
            final(self).well_formed(),
    {
        self.perp.clear();
        self.spot.clear();
        proof {
            assert(self@ =~~= ex_empty());
        }
    }

    /// Create the market for `(market_type, index)` if it is absent.
    pub fn add_market_idempotent(&mut self, market_type: MarketType, index: u16)
        requires
            old(self).well_formed(),
        ensures
            final(self).well_formed(),
            final(self)@ == ex_add_market(old(self)@, market_type, index),
    {
        proof {
            lemma_find_market_props(ex_map(self@, market_type), index);
        }
        match market_type {
            MarketType::Perp => {
                if vec_find_market(&self.perp, index).is_none() {
                    self.perp.push((index, Market::new()));
                    proof {
                        assert(markets_view(self.perp@) =~= markets_view(
                            old(self).perp@,
                        ).push((index, market_empty())));
                    }
                }
            },
            MarketType::Spot => {
                if vec_find_market(&self.spot, index).is_none() {
                    self.spot.push((index, Market::new()));
                    proof {
                        assert(markets_view(self.spot@) =~= markets_view(
                            old(self).spot@,
                        ).push((index, market_empty())));
                    }
                }
            },
        }
        proof {
            assert(self@ =~~= ex_add_market(old(self)@, market_type, index));
        }
    }

    /// Route a node into its lane, creating the market on first use.
    pub fn insert_node(
        &mut self,
        market_type: MarketType,
        index: u16,
        kind: NodeKind,
        side: Side,
        node: OrderNode,
    )
        requires
            old(self).well_formed(),
        ensures
            final(self).well_formed(),
            final(self)@ == ex_insert(old(self)@, market_type, index, kind, side, node),
    {
        self.add_market_idempotent(market_type, index);
        let ghost s = ex_map(self@, market_type);
        proof {
            lemma_find_market_props(s, index);
            if find_market(ex_map(old(self)@, market_type), index) < 0 {
                lemma_find_market_props(ex_map(old(self)@, market_type), index);
                lemma_find_market_at(
                    ex_map(old(self)@, market_type),
                    index,
                    ex_map(old(self)@, market_type).len() as int,
                );
                assert(s.last().0 == index);
                lemma_find_market_at(s, index, s.len() - 1);
            }
        }
        match market_type {
            MarketType::Perp => {
                let i = match vec_find_market(&self.perp, index) {
                    Some(i) => i,
                    None => {
                        proof {
                            assert(false);
                        }
                        0
                    },
                };
                let ghost before = self.perp@;
                let mut pair = self.perp.remove(i);
                pair.1.insert_node(kind, side, node);
                self.perp.insert(i, pair);
                proof {
                    assert(self.perp@ =~= before.update(i as int, self.perp@[i as int]));
                    assert(markets_view(self.perp@) =~= s.update(
                        i as int,
                        (index, market_insert(s[i as int].1, kind, side, node)),
                    ));
                }
            },
            MarketType::Spot => {
                let i = match vec_find_market(&self.spot, index) {
                    Some(i) => i,
                    None => {
                        proof {
                            assert(false);
                        }
                        0
                    },
                };
                let ghost before = self.spot@;
                let mut pair = self.spot.remove(i);
                pair.1.insert_node(kind, side, node);
                self.spot.insert(i, pair);
                proof {
                    assert(self.spot@ =~= before.update(i as int, self.spot@[i as int]));
                    assert(markets_view(self.spot@) =~= s.update(
                        i as int,
                        (index, market_insert(s[i as int].1, kind, side, node)),
                    ));
                }
            },
        }
        proof {
            assert(self@ =~~= ex_insert(old(self)@, market_type, index, kind, side, node));
        }
    }

    /// Drain one heap of one lane of one market, best-first.  A missing
    /// market yields an empty drain.
    pub fn drain_lane(
        &mut self,
        market_type: MarketType,
        index: u16,
        kind: NodeKind,
        side: Side,
    ) -> (r: Vec<OrderNode>)
        requires
            old(self).well_formed(),
            side == Side::Bid || side == Side::Ask,
        ensures
            final(self).well_formed(),
            r@ == ex_drain(old(self)@, market_type, index, kind, side).0,
            final(self)@ == ex_drain(old(self)@, market_type, index, kind, side).1,
    {
        let ghost s = ex_map(self@, market_type);
        proof {
            lemma_find_market_props(s, index);
        }
        let found = match market_type {
            MarketType::Perp => vec_find_market(&self.perp, index),
            MarketType::Spot => vec_find_market(&self.spot, index),
        };
        match found {
            None => {
                proof {
                    assert(self@ =~~= ex_drain(old(self)@, market_type, index, kind, side).1);
                }
                Vec::new()
            },
            Some(i) => {
                match market_type {
                    MarketType::Perp => {
                        let ghost before = self.perp@;
                        let mut pair = self.perp.remove(i);
                        let r = pair.1.drain_lane(kind, side);
                        self.perp.insert(i, pair);
                        proof {
                            assert(markets_view(self.perp@) =~= s.update(
                                i as int,
                                (index, market_drain(s[i as int].1, kind, side).1),
                            ));
                            assert(s[i as int].0 == index);
                            assert(self@ =~~= ex_drain(
                                old(self)@,
                                market_type,
                                index,
                                kind,
                                side,
                            ).1);
                        }
                        r
                    },
                    MarketType::Spot => {
                        let ghost before = self.spot@;
                        let mut pair = self.spot.remove(i);
                        let r = pair.1.drain_lane(kind, side);
                        self.spot.insert(i, pair);
                        proof {
                            assert(markets_view(self.spot@) =~= s.update(
                                i as int,
                                (index, market_drain(s[i as int].1, kind, side).1),
                            ));
                            assert(s[i as int].0 == index);
                            assert(self@ =~~= ex_drain(
                                old(self)@,
                                market_type,
                                index,
                                kind,
                                side,
                            ).1);
                        }
                        r
                    },
                }
            },
        }
    }

    /// Read one heap of one lane of one market best-first, without
    /// consuming it.  A missing market yields nothing.
    pub fn peek_lane(
        &self,
        market_type: MarketType,
        index: u16,
        kind: NodeKind,
        side: Side,
    ) -> (r: Vec<OrderNode>)
        requires
            self.well_formed(),
            side == Side::Bid || side == Side::Ask,
        ensures
            r@ == ex_drain(self@, market_type, index, kind, side).0,
    {
        let ghost s = ex_map(self@, market_type);
        proof {
            lemma_find_market_props(s, index);
        }
        let found = match market_type {
            MarketType::Perp => vec_find_market(&self.perp, index),
            MarketType::Spot => vec_find_market(&self.spot, index),
        };
        match found {
            None => Vec::new(),
            Some(i) => {
                proof {
                    assert(market_wf(s[i as int].1));
                }
                match market_type {
                    MarketType::Perp => self.perp[i].1.peek_lane(kind, side),
                    MarketType::Spot => self.spot[i].1.peek_lane(kind, side),
                }
            },
        }
    }

    /// Promote every market of one map at `slot`.
    pub fn update_resting_limit_orders_for_market_type(&mut self, market_type: MarketType, slot: u64)
        requires
            old(self).well_formed(),
        ensures
            final(self).well_formed(),
            final(self)@ == ex_with_map(
                old(self)@,
                market_type,
                markets_promote(ex_map(old(self)@, market_type), slot),
            ),
    {
        let ghost s0 = ex_map(self@, market_type);
        let ghost goal = markets_promote(s0, slot);
        let mut i: usize = 0;
        match market_type {
            MarketType::Perp => {
                while i < self.perp.len()
                    invariant
                        0 <= i <= self.perp@.len(),
                        self.perp@.len() == s0.len(),
                        markets_view(self.spot@) == old(self)@.spot,
                        markets_wf(markets_view(self.spot@)),
                        markets_wf(markets_view(self.perp@)),
                        goal == markets_promote(s0, slot),
                        forall|j: int|
                            0 <= j < i ==> markets_view(self.perp@)[j] == goal[j],
                        forall|j: int|
                            i <= j < s0.len() ==> markets_view(self.perp@)[j] == s0[j],
                    decreases self.perp@.len() - i,
                {
                    let ghost before = self.perp@;
                    let mut pair = self.perp.remove(i);
                    pair.1.update_resting_limit_orders(slot);
                    self.perp.insert(i, pair);
                    proof {
                        assert(self.perp@ =~= before.update(i as int, self.perp@[i as int]));
                        assert(markets_view(self.perp@) =~= markets_view(before).update(
                            i as int,
                            (s0[i as int].0, market_promote(s0[i as int].1, slot)),
                        ));
                    }
                    i += 1;
                }
                proof {
                    assert(markets_view(self.perp@) =~= goal);
                    assert(self@ =~~= ex_with_map(old(self)@, market_type, goal));
                }
            },
            MarketType::Spot => {
                while i < self.spot.len()
                    invariant
                        0 <= i <= self.spot@.len(),
                        self.spot@.len() == s0.len(),
                        markets_view(self.perp@) == old(self)@.perp,
                        markets_wf(markets_view(self.perp@)),
                        markets_wf(markets_view(self.spot@)),
                        goal == markets_promote(s0, slot),
                        forall|j: int|
                            0 <= j < i ==> markets_view(self.spot@)[j] == goal[j],
                        forall|j: int|
                            i <= j < s0.len() ==> markets_view(self.spot@)[j] == s0[j],
                    decreases self.spot@.len() - i,
                {
                    let ghost before = self.spot@;
                    let mut pair = self.spot.remove(i);
                    pair.1.update_resting_limit_orders(slot);
                    self.spot.insert(i, pair);
                    proof {
                        assert(self.spot@ =~= before.update(i as int, self.spot@[i as int]));
                        assert(markets_view(self.spot@) =~= markets_view(before).update(
                            i as int,
                            (s0[i as int].0, market_promote(s0[i as int].1, slot)),
                        ));
                    }
                    i += 1;
                }
                proof {
                    assert(markets_view(self.spot@) =~= goal);
                    assert(self@ =~~= ex_with_map(old(self)@, market_type, goal));
                }
            },
        }
    }

    /// Look a signature up across every lane of every market.
    pub fn get_node(&self, order_id: u32, user_account: &[u8; 32]) -> (r: Option<OrderNode>)
        ensures
            r == ex_find_node(self@, (order_id, user_account@)),
    {
        let ghost k = (order_id, user_account@);
        let mut i: usize = 0;
        proof {
            assert(self@.perp.skip(0) =~= self@.perp);
        }
        while i < self.perp.len()
            invariant
                0 <= i <= self.perp@.len(),
                markets_find_node(self@.perp.skip(i as int), k) == markets_find_node(self@.perp, k),
                k == (order_id, user_account@),
            decreases self.perp@.len() - i,
        {
            let ghost rest = self@.perp.skip(i as int);
            proof {
                assert(rest[0] == self@.perp[i as int]);
                assert(rest.drop_first() =~= self@.perp.skip(i as int + 1));
            }
            let r = self.perp[i].1.get_node(order_id, user_account);
            if let Some(n) = r {
                return Some(n);
            }
            i += 1;
        }
        proof {
            assert(self@.perp.skip(i as int) =~= Seq::<(u16, MarketV)>::empty());
        }
        let mut j: usize = 0;
        proof {
            assert(self@.spot.skip(0) =~= self@.spot);
        }
        while j < self.spot.len()
            invariant
                0 <= j <= self.spot@.len(),
                markets_find_node(self@.perp, k) is None,
                markets_find_node(self@.spot.skip(j as int), k) == markets_find_node(self@.spot, k),
                k == (order_id, user_account@),
            decreases self.spot@.len() - j,
        {
            let ghost rest = self@.spot.skip(j as int);
            proof {
                assert(rest[0] == self@.spot[j as int]);
                assert(rest.drop_first() =~= self@.spot.skip(j as int + 1));
            }
            let r = self.spot[j].1.get_node(order_id, user_account);
            if let Some(n) = r {
                return Some(n);
            }
            j += 1;
        }
        proof {
            assert(self@.spot.skip(j as int) =~= Seq::<(u16, MarketV)>::empty());
        }
        None
    }

    /// Heap entries held across all perpetual markets.
    pub fn perp_size(&self) -> (r: usize)
        ensures
            r == markets_size(self@.perp),
    {
        let mut total: usize = 0;
        let mut i: usize = 0;
        while i < self.perp.len()
            invariant
                0 <= i <= self.perp@.len(),
                total == markets_size(self@.perp.take(i as int)),
            decreases self.perp@.len() - i,
        {
            let ghost pre = self@.perp.take(i as int);
            let m = self.perp[i].1.size();
            total = sat_add_usize(total, m);
            proof {
                assert(self@.perp.take(i as int + 1).drop_last() =~= pre);
                assert(self@.perp.take(i as int + 1).last() == self@.perp[i as int]);
            }
            i += 1;
        }
        proof {
            assert(self@.perp.take(i as int) =~= self@.perp);
        }
        total
    }

    /// Heap entries held across all spot markets.
    pub fn spot_size(&self) -> (r: usize)
        ensures
            r == markets_size(self@.spot),
    {
        let mut total: usize = 0;
        let mut i: usize = 0;
        while i < self.spot.len()
            invariant
                0 <= i <= self.spot@.len(),
                total == markets_size(self@.spot.take(i as int)),
            decreases self.spot@.len() - i,
        {
            let ghost pre = self@.spot.take(i as int);
            let m = self.spot[i].1.size();
            total = sat_add_usize(total, m);
            proof {
                assert(self@.spot.take(i as int + 1).drop_last() =~= pre);
                assert(self@.spot.take(i as int + 1).last() == self@.spot[i as int]);
            }
            i += 1;
        }
        proof {
            assert(self@.spot.take(i as int) =~= self@.spot);
        }
        total
    }

    /// The market indexes of one map, in creation order.
    pub fn market_indexes(&self, market_type: MarketType) -> (r: Vec<u16>)
        ensures
            r@ == ex_map(self@, market_type).map_values(|p: (u16, MarketV)| p.0),
    {
        let ghost s = ex_map(self@, market_type);
        let mut out: Vec<u16> = Vec::new();
        let mut i: usize = 0;
        match market_type {
            MarketType::Perp => {
                while i < self.perp.len()
                    invariant
                        0 <= i <= self.perp@.len(),
                        s == ex_map(self@, MarketType::Perp),
                        out@ == s.take(i as int).map_values(|p: (u16, MarketV)| p.0),
                    decreases self.perp@.len() - i,
                {
                    out.push(self.perp[i].0);
                    proof {
                        assert(out@ =~= s.take(i as int + 1).map_values(
                            |p: (u16, MarketV)| p.0,
                        ));
                    }
                    i += 1;
                }
                proof {
                    assert(s.take(i as int) =~= s);
                }
            },
            MarketType::Spot => {
                while i < self.spot.len()
                    invariant
                        0 <= i <= self.spot@.len(),
                        s == ex_map(self@, MarketType::Spot),
                        out@ == s.take(i as int).map_values(|p: (u16, MarketV)| p.0),
                    decreases self.spot@.len() - i,
                {
                    out.push(self.spot[i].0);
                    proof {
                        assert(out@ =~= s.take(i as int + 1).map_values(
                            |p: (u16, MarketV)| p.0,
                        ));
                    }
                    i += 1;
                }
                proof {
                    assert(s.take(i as int) =~= s);
                }
            },
        }
        out
    }
}

} // verus!
