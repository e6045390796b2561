//! The book API: build and update from user-account snapshots, promote
//! taking limit orders as the slot advances, and serve merged best-first
//! views of the resting and floating lanes.

use vstd::prelude::*;
use crate::order::{
    classify_kind_spec, classify_side_spec, effective_price_spec, get_node_subtype_and_type,
    create_node, MarketType, NodeKind, Order, OrderNode, OraclePriceData, OrderStatus, Side, User,
};
use crate::market::{
    ex_add_market, ex_drain, ex_empty, ex_find_node, ex_insert, ex_map, ex_wf, ex_with_map,
    markets_promote, markets_size, Exchange, ExchangeV,
};

verus! {

/// The mathematical value of the book.
#[verifier::ext_equal]
pub ghost struct DlobV {
    pub exchange: ExchangeV,
    pub initialized: bool,
    pub max_slot: u64,
}

pub open spec fn dlob_wf(d: DlobV) -> bool {
    ex_wf(d.exchange)
}

pub open spec fn dlob_new_spec() -> DlobV {
    DlobV { exchange: ex_empty(), initialized: true, max_slot: 0 }
}

pub open spec fn dlob_clear_spec() -> DlobV {
    DlobV { exchange: ex_empty(), initialized: false, max_slot: 0 }
}

/// Insert one order at `slot`: classification picks side and lane; `Init`
/// orders are never inserted; a side outside bid/ask creates the market
/// but books nothing.
pub open spec fn insert_order_spec(d: DlobV, order: Order, user_account: [u8; 32], slot: u64,) -> DlobV {
    if order.status == OrderStatus::Init {
        d
    } else {
        let side = classify_side_spec(order);
        let kind = classify_kind_spec(order, slot);
        let node = OrderNode { order, user_account, kind };
        DlobV {
            exchange: ex_insert(
                d.exchange,
                order.market_type,
                order.market_index,
                kind,
                side,
                node,
            ),
            ..d
        }
    }
}

/// Re-insert a user's orders in array order, skipping `Init` slots.
pub open spec fn update_user_rec(d: DlobV, key: [u8; 32], orders: Seq<Order>, slot: u64) -> DlobV
    decreases orders.len(),
{
    if orders.len() == 0 {
        d
    } else {
        update_user_rec(insert_order_spec(d, orders[0], key, slot), key, orders.drop_first(), slot)
    }
}

pub open spec fn build_rec(d: DlobV, users: Seq<([u8; 32], User)>, slot: u64) -> DlobV
    decreases users.len(),
{
    if users.len() == 0 {
        d
    } else {
        build_rec(
            update_user_rec(d, users[0].0, users[0].1.orders@, slot),
            users.drop_first(),
            slot,
        )
    }
}

/// A full rebuild: clear, insert every user's non-`Init` orders in map
/// order, then mark the book initialized.  The result is a function of
/// the snapshot and the slot alone.
pub open spec fn build_spec(users: Seq<([u8; 32], User)>, slot: u64) -> DlobV {
    DlobV { initialized: true, ..build_rec(dlob_clear_spec(), users, slot) }
}

/// Slot-driven promotion: nothing happens unless `slot` exceeds the high
/// water mark; then every market's taking lane is re-examined and the
/// mark is raised to `slot`.
pub open spec fn promote_spec(d: DlobV, slot: u64) -> DlobV {
    if slot <= d.max_slot {
        d
    } else {
        let e1 = ex_with_map(
            d.exchange,
            MarketType::Perp,
            markets_promote(d.exchange.perp, slot),
        );
        let e2 = ex_with_map(e1, MarketType::Spot, markets_promote(e1.spot, slot));
        DlobV { exchange: e2, max_slot: slot, ..d }
    }
}

/// Drain one lane side of one market, best-first and destructively.
pub open spec fn get_best_orders_spec(
    d: DlobV,
    market_type: MarketType,
    side: Side,
    kind: NodeKind,
    index: u16,
) -> (Seq<OrderNode>, DlobV) {
    let r = ex_drain(d.exchange, market_type, index, kind, side);
    (r.0, DlobV { exchange: r.1, ..d })
}

/// Merged-book order under an oracle sample: by effective price (ascending
/// for asks, descending for bids), ties by slot then order id.
pub open spec fn merge_before(
    ascending: bool,
    oracle: OraclePriceData,
    a: OrderNode,
    b: OrderNode,
) -> bool {
    let pa = effective_price_spec(a.order, oracle);
    let pb = effective_price_spec(b.order, oracle);
    if pa != pb {
        if ascending {
            pa < pb
        } else {
            pa > pb
        }
    } else if a.order.slot != b.order.slot {
        a.order.slot < b.order.slot
    } else {
        a.order.order_id <= b.order.order_id
    }
}

pub open spec fn merge_sorted(ascending: bool, oracle: OraclePriceData, s: Seq<OrderNode>) -> bool {
    forall|i: int, j: int| 0 <= i < j < s.len() ==> merge_before(ascending, oracle, s[i], s[j])
}

pub open spec fn merge_insert_index(
    ascending: bool,
    oracle: OraclePriceData,
    s: Seq<OrderNode>,
    n: OrderNode,
) -> int
    decreases s.len(),
{
    if s.len() == 0 {
        0
    } else if !merge_before(ascending, oracle, s[0], n) {
        0
    } else {
        1 + merge_insert_index(ascending, oracle, s.drop_first(), n)
    }
}

pub open spec fn merge_insert(
    ascending: bool,
    oracle: OraclePriceData,
    s: Seq<OrderNode>,
    n: OrderNode,
) -> Seq<OrderNode> {
    s.insert(merge_insert_index(ascending, oracle, s, n), n)
}

/// Stable insertion sort of a node sequence under the merged-book order.
pub open spec fn merge_sort_spec(
    ascending: bool,
    oracle: OraclePriceData,
    s: Seq<OrderNode>,
) -> Seq<OrderNode>
    decreases s.len(),
{
    if s.len() == 0 {
        Seq::empty()
    } else {
        merge_insert(ascending, oracle, merge_sort_spec(ascending, oracle, s.drop_last()), s.last())
    }
}

/// A merged resting view: promote at `slot`, drain the resting and the
/// floating lanes of the chosen side, and sort the concatenation by
/// effective price under `oracle`.
pub open spec fn resting_limit_orders_spec(
    d: DlobV,
    slot: u64,
    market_type: MarketType,
    index: u16,
    oracle: OraclePriceData,
    side: Side,
    ascending: bool,
) -> (Seq<OrderNode>, DlobV) {
    let d1 = promote_spec(d, slot);
    let r1 = get_best_orders_spec(d1, market_type, side, NodeKind::RestingLimit, index);
    let r2 = get_best_orders_spec(r1.1, market_type, side, NodeKind::FloatingLimit, index);
    (merge_sort_spec(ascending, oracle, r1.0.add(r2.0)), r2.1)
}

pub proof fn lemma_merge_insert_index_props(
    ascending: bool,
    oracle: OraclePriceData,
    s: Seq<OrderNode>,
    n: OrderNode,
)
    ensures
        0 <= merge_insert_index(ascending, oracle, s, n) <= s.len(),
        forall|j: int|
            0 <= j < merge_insert_index(ascending, oracle, s, n) ==> merge_before(
                ascending,
                oracle,
                s[j],
                n,
            ),
        merge_insert_index(ascending, oracle, s, n) < s.len() ==> !merge_before(
            ascending,
            oracle,
            s[merge_insert_index(ascending, oracle, s, n)],
            n,
        ),
    decreases s.len(),
{
    if s.len() > 0 && merge_before(ascending, oracle, s[0], n) {
        lemma_merge_insert_index_props(ascending, oracle, s.drop_first(), n);
        assert(forall|j: int| 1 <= j < s.len() ==> s[j] == s.drop_first()[j - 1]);
    }
}

pub proof fn lemma_merge_insert_index_at(
    ascending: bool,
    oracle: OraclePriceData,
    s: Seq<OrderNode>,
    n: OrderNode,
    i: int,
)
    requires
        0 <= i <= s.len(),
        forall|j: int| 0 <= j < i ==> merge_before(ascending, oracle, s[j], n),
        i < s.len() ==> !merge_before(ascending, oracle, s[i], n),
    ensures
        merge_insert_index(ascending, oracle, s, n) == i,
    decreases s.len(),
{
    if s.len() > 0 && merge_before(ascending, oracle, s[0], n) {
        assert(forall|j: int| 1 <= j < s.len() ==> s[j] == s.drop_first()[j - 1]);
        lemma_merge_insert_index_at(ascending, oracle, s.drop_first(), n, i - 1);
    }
}

/// Inserting at the computed position keeps a merge-sorted sequence
/// sorted.
pub proof fn lemma_merge_insert_preserves(
    ascending: bool,
    oracle: OraclePriceData,
    s: Seq<OrderNode>,
    n: OrderNode,
)
    requires
        merge_sorted(ascending, oracle, s),
    ensures
        merge_sorted(ascending, oracle, merge_insert(ascending, oracle, s, n)),
{
    lemma_merge_insert_index_props(ascending, oracle, s, n);
    let i = merge_insert_index(ascending, oracle, s, n);
    let t = s.insert(i, n);
    assert forall|p: int, q: int| 0 <= p < q < t.len() implies merge_before(
        ascending,
        oracle,
        t[p],
        t[q],
    ) by {
        if p < i && q == i {
            assert(t[p] == s[p] && t[q] == n);
        } else if p == i && q > i {
            assert(t[p] == n && t[q] == s[q - 1]);
            if i < s.len() {
                assert(!merge_before(ascending, oracle, s[i], n));
                assert(merge_before(ascending, oracle, s[i], s[q - 1]) || i == q - 1);
            }
        } else if p < i && q > i {
            assert(t[p] == s[p] && t[q] == s[q - 1]);
        } else if p > i && q > i {
            assert(t[p] == s[p - 1] && t[q] == s[q - 1]);
        } else {
            assert(t[p] == s[p] && t[q] == s[q]);
        }
    }
}

/// The sort's result is sorted under the merged-book order.
pub proof fn lemma_merge_sort_sorted(ascending: bool, oracle: OraclePriceData, s: Seq<OrderNode>)
    ensures
        merge_sorted(ascending, oracle, merge_sort_spec(ascending, oracle, s)),
    decreases s.len(),
{
    if s.len() > 0 {
        lemma_merge_sort_sorted(ascending, oracle, s.drop_last());
        lemma_merge_insert_preserves(
            ascending,
            oracle,
            merge_sort_spec(ascending, oracle, s.drop_last()),
            s.last(),
        );
    }
}

/// The merged-book ordering test, executable.
fn merge_before_exec(
    ascending: bool,
    oracle: OraclePriceData,
    slot: u64,
    a: &OrderNode,
    b: &OrderNode,
) -> (r: bool)
    ensures
        r == merge_before(ascending, oracle, *a, *b),
{
    let pa = a.get_price(oracle, slot);
    let pb = b.get_price(oracle, slot);
    if pa != pb {
        if ascending {
            pa < pb
        } else {
            pa > pb
        }
    } else if a.order.slot != b.order.slot {
        a.order.slot < b.order.slot
    } else {
        a.order.order_id <= b.order.order_id
    }
}

/// Insertion sort under the merged-book order; stable, so equal keys keep
/// their input order.
fn merge_sort_nodes(
    ascending: bool,
    oracle: OraclePriceData,
    slot: u64,
    input: Vec<OrderNode>,
) -> (r: Vec<OrderNode>)
    ensures
        r@ == merge_sort_spec(ascending, oracle, input@),
        merge_sorted(ascending, oracle, r@),
{
    let mut out: Vec<OrderNode> = Vec::new();
    let mut i: usize = 0;
    proof {
        assert(input@.take(0) =~= Seq::<OrderNode>::empty());
    }
    while i < input.len()
        invariant
            0 <= i <= input@.len(),
            out@ == merge_sort_spec(ascending, oracle, input@.take(i as int)),
            merge_sorted(ascending, oracle, out@),
        decreases input@.len() - i,
    {
        let node = input[i];
        let mut j: usize = 0;
        while j < out.len() && merge_before_exec(ascending, oracle, slot, &out[j], &node)
            invariant
                0 <= j <= out@.len(),
                forall|p: int| 0 <= p < j ==> merge_before(ascending, oracle, out@[p], node),
            decreases out@.len() - j,
        {
            j += 1;
        }
        proof {
            lemma_merge_insert_index_at(ascending, oracle, out@, node, j as int);
            lemma_merge_insert_preserves(ascending, oracle, out@, node);
        }
        out.insert(j, node);
        proof {
            assert(input@.take(i as int + 1).drop_last() =~= input@.take(i as int));
            assert(input@.take(i as int + 1).last() == input@[i as int]);
        }
        i += 1;
    }
    proof {
        assert(input@.take(i as int) =~= input@);
    }
    out
}

/// The book: two maps of markets, a high-water mark for promotions, and
/// an initialization flag.
#[derive(Clone)]
pub struct DLOB {
    pub exchange: Exchange,
    pub initialized: bool,
    pub max_slot_for_resting_limit_orders: u64,
}

impl View for DLOB {
    type V = DlobV;

    open spec fn view(&self) -> DlobV {
        DlobV {
            exchange: self.exchange@,
            initialized: self.initialized,
            max_slot: self.max_slot_for_resting_limit_orders,
        }
    }
}

impl DLOB {
    pub open spec fn well_formed(&self) -> bool {
        dlob_wf(self@)
    }

    pub fn new() -> (r: DLOB)
        ensures
            r@ == dlob_new_spec(),
            r.well_formed(),
    {
        let r = DLOB {
            exchange: Exchange::new(),
            initialized: true,
            max_slot_for_resting_limit_orders: 0,
        };
        proof {
            assert(r@ =~~= dlob_new_spec());
        }
        r
    }

    /// Reset all state: no markets, uninitialized, high-water mark zero.
    pub fn clear(&mut self)
        ensures
            final(self)@ == dlob_clear_spec(),
            final(self).well_formed(),
    {
        self.exchange.clear();
        self.initialized = false;
        self.max_slot_for_resting_limit_orders = 0;
        proof {
            assert(self@ =~~= dlob_clear_spec());
        }
    }

    /// Classify and book one order.  `Init` orders are never inserted;
    /// trigger orders get their market created but no heap entry.
    pub fn insert_order(&mut self, order: &Order, user_account: [u8; 32], slot: u64)
        requires
            old(self).well_formed(),
        ensures
            final(self).well_formed(),
            final(self)@ == insert_order_spec(old(self)@, *order, user_account, slot),
    {
        if matches!(order.status, OrderStatus::Init) {
            return;
        }
        let (side, kind) = get_node_subtype_and_type(order, slot);
        let node = create_node(kind, *order, user_account);
        self.exchange.insert_node(order.market_type, order.market_index, kind, side, node);
        proof {
            assert(self@ =~~= insert_order_spec(old(self)@, *order, user_account, slot));
        }
    }

    /// Re-insert all of a user's non-`Init` orders.  Earlier entries for
    /// the same signatures are shadowed in the index, not removed from
    /// the heaps: a stale heap entry with a live signature is handed out
    /// as the newer node on a later pop.
    pub fn update_user(&mut self, user_key: [u8; 32], user: &User, slot: u64)
        requires
            old(self).well_formed(),
        ensures
            final(self).well_formed(),
            final(self)@ == update_user_rec(old(self)@, user_key, user.orders@, slot),
    {
        let ghost orig = self@;
        let ghost orders = user.orders@;
        let mut i: usize = 0;
        proof {
            assert(orders.skip(0) =~= orders);
        }
        while i < user.orders.len()
            invariant
                self.well_formed(),
                0 <= i <= orders.len(),
                orders == user.orders@,
                update_user_rec(self@, user_key, orders.skip(i as int), slot) == update_user_rec(
                    orig,
                    user_key,
                    orders,
                    slot,
                ),
            decreases orders.len() - i,
        {
            let ghost rest = orders.skip(i as int);
            proof {
                assert(rest[0] == orders[i as int]);
                assert(rest.drop_first() =~= orders.skip(i as int + 1));
            }
            let order = user.orders[i];
            if !matches!(order.status, OrderStatus::Init) {
                self.insert_order(&order, user_key, slot);
            }
            i += 1;
        }
        proof {
            assert(orders.skip(i as int) =~= Seq::<Order>::empty());
        }
    }

    /// Rebuild the whole book from a user-map snapshot: clear, then insert
    /// every user's orders at `slot`, then mark initialized.  The result
    /// is a function of `(usermap, slot)` alone.
    pub fn build_from_usermap(&mut self, usermap: &Vec<([u8; 32], User)>, slot: u64)
        ensures
            final(self).well_formed(),
            final(self)@ == build_spec(usermap@, slot),
    {
        self.clear();
        let ghost users = usermap@;
        let ghost base = self@;
        let mut i: usize = 0;
        proof {
            assert(users.skip(0) =~= users);
        }
        while i < usermap.len()
            invariant
                self.well_formed(),
                0 <= i <= users.len(),
                users == usermap@,
                build_rec(self@, users.skip(i as int), slot) == build_rec(
                    dlob_clear_spec(),
                    users,
                    slot,
                ),
            decreases users.len() - i,
        {
            let ghost rest = users.skip(i as int);
            proof {
                assert(rest[0] == users[i as int]);
                assert(rest.drop_first() =~= users.skip(i as int + 1));
            }
            self.update_user(usermap[i].0, &usermap[i].1, slot);
            i += 1;
        }
        self.initialized = true;
        proof {
            assert(users.skip(i as int) =~= Seq::<([u8; 32], User)>::empty());
            assert(self@ =~~= build_spec(users, slot));
        }
    }

    /// Heap entries held, perpetual and spot, stale ones included.
    pub fn size(&self) -> (r: (usize, usize))
        ensures
            r.0 == markets_size(self@.exchange.perp),
            r.1 == markets_size(self@.exchange.spot),
    {
        (self.exchange.perp_size(), self.exchange.spot_size())
    }

    /// Look one order up by signature, scanning every lane of every
    /// market; perpetual markets first, lanes in routing order.
    pub fn get_order(&self, order_id: u32, user_account: [u8; 32]) -> (r: Option<Order>)
        ensures
            r == match ex_find_node(self@.exchange, (order_id, user_account@)) {
                Some(n) => Some(n.order),
                None => None::<Order>,
            },
    {
        match self.exchange.get_node(order_id, &user_account) {
            Some(n) => Some(n.order),
            None => None,
        }
    }

    /// Raise the high-water mark and promote every taking lane, or do
    /// nothing when `slot` is not past the mark.  The mark never moves
    /// backward.
    pub fn update_resting_limit_orders(&mut self, slot: u64)
        requires
            old(self).well_formed(),
        ensures
            final(self).well_formed(),
            final(self)@ == promote_spec(old(self)@, slot),
            final(self)@.max_slot >= old(self)@.max_slot,
            slot <= old(self)@.max_slot ==> final(self)@ == old(self)@,
    {
        if slot <= self.max_slot_for_resting_limit_orders {
            return;
        }
        self.max_slot_for_resting_limit_orders = slot;
        self.exchange.update_resting_limit_orders_for_market_type(MarketType::Perp, slot);
        self.exchange.update_resting_limit_orders_for_market_type(MarketType::Spot, slot);
        proof {
            assert(self@ =~~= promote_spec(old(self)@, slot));
        }
    }

    /// Drain one lane side of one market into a best-first vector.  This
    /// consumes the lane; `peek_best_orders` is the non-destructive
    /// variant.
    pub fn get_best_orders(
        &mut self,
        market_type: MarketType,
        sub_type: Side,
        node_type: NodeKind,
        market_index: u16,
    ) -> (r: Vec<OrderNode>)
        requires
            old(self).well_formed(),
            sub_type == Side::Bid || sub_type == Side::Ask,
        ensures
            final(self).well_formed(),
            r@ == get_best_orders_spec(old(self)@, market_type, sub_type, node_type, market_index).0,
            final(self)@ == get_best_orders_spec(
                old(self)@,
                market_type,
                sub_type,
                node_type,
                market_index,
            ).1,
    {
        let r = self.exchange.drain_lane(market_type, market_index, node_type, sub_type);
        proof {
            assert(self@ =~~= get_best_orders_spec(
                old(self)@,
                market_type,
                sub_type,
                node_type,
                market_index,
            ).1);
        }
        r
    }

    /// Read one lane side best-first without consuming it: the same nodes
    /// `get_best_orders` would hand out, with the book left untouched.
    pub fn peek_best_orders(
        &self,
        market_type: MarketType,
        sub_type: Side,
        node_type: NodeKind,
        market_index: u16,
    ) -> (r: Vec<OrderNode>)
        requires
            self.well_formed(),
            sub_type == Side::Bid || sub_type == Side::Ask,
        ensures
            r@ == get_best_orders_spec(self@, market_type, sub_type, node_type, market_index).0,
    {
        self.exchange.peek_lane(market_type, market_index, node_type, sub_type)
    }

    /// The merged resting bid book: promote at `slot`, drain resting and
    /// floating bids, and hand them out by descending effective price
    /// under `oracle`, ties by slot then order id.
    pub fn get_resting_limit_bids(
        &mut self,
        slot: u64,
        market_type: MarketType,
        market_index: u16,
        oracle_price_data: OraclePriceData,
    ) -> (r: Vec<OrderNode>)
        requires
            old(self).well_formed(),
        ensures
            final(self).well_formed(),
            ({
                let o = resting_limit_orders_spec(
                    old(self)@,
                    slot,
                    market_type,
                    market_index,
                    oracle_price_data,
                    Side::Bid,
                    false,
                );
                r@ == o.0 && final(self)@ == o.1
            }),
            merge_sorted(false, oracle_price_data, r@),
    {
        self.update_resting_limit_orders(slot);
        let mut resting = self.get_best_orders(
            market_type,
            Side::Bid,
            NodeKind::RestingLimit,
            market_index,
        );
        let mut floating = self.get_best_orders(
            market_type,
            Side::Bid,
            NodeKind::FloatingLimit,
            market_index,
        );
        let ghost r1 = resting@;
        let ghost r2 = floating@;
        resting.append(&mut floating);
        proof {
            assert(resting@ =~= r1.add(r2));
            lemma_merge_sort_sorted(false, oracle_price_data, resting@);
        }
        merge_sort_nodes(false, oracle_price_data, slot, resting)
    }

    /// The merged resting ask book; the mirror image of
    /// `get_resting_limit_bids`, ascending by effective price.
    pub fn get_resting_limit_asks(
        &mut self,
        slot: u64,
        market_type: MarketType,
        market_index: u16,
        oracle_price_data: OraclePriceData,
    ) -> (r: Vec<OrderNode>)
        requires
            old(self).well_formed(),
        ensures
            final(self).well_formed(),
            ({
                let o = resting_limit_orders_spec(
                    old(self)@,
                    slot,
                    market_type,
                    market_index,
                    oracle_price_data,
                    Side::Ask,
                    true,
                );
                r@ == o.0 && final(self)@ == o.1
            }),
            merge_sorted(true, oracle_price_data, r@),
    {
        self.update_resting_limit_orders(slot);
        let mut resting = self.get_best_orders(
            market_type,
            Side::Ask,
            NodeKind::RestingLimit,
            market_index,
        );
        let mut floating = self.get_best_orders(
            market_type,
            Side::Ask,
            NodeKind::FloatingLimit,
            market_index,
        );
        let ghost r1 = resting@;
        let ghost r2 = floating@;
        resting.append(&mut floating);
        proof {
            assert(resting@ =~= r1.add(r2));
            lemma_merge_sort_sorted(true, oracle_price_data, resting@);
        }
        merge_sort_nodes(true, oracle_price_data, slot, resting)
    }

    /// The market indexes known to one side of the exchange.
    pub fn market_indexes(&self, market_type: MarketType) -> (r: Vec<u16>)
        ensures
            r@ == ex_map(self@.exchange, market_type).map_values(|p: (u16, crate::market::MarketV)| p.0),
    {
        self.exchange.market_indexes(market_type)
    }
}

impl Default for DLOB {
    fn default() -> (r: DLOB)
        ensures
            r@ == dlob_new_spec(),
            r.well_formed(),
    {
        DLOB::new()
    }
}

} // verus!
