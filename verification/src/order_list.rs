//! A per-(market, lane) order list: a bid heap and an ask heap kept
//! best-first, plus a signature index that enables logical deletion.
//!
//! The heaps are realised as sorted vectors (best at the front, ties kept in
//! insertion order).  Removing an order's signature from the index deletes
//! it logically; the heap entry is discarded lazily when it reaches the
//! front during a best-order pop.

use vstd::prelude::*;
use crate::order::{keys_eq, sort_value, sort_value_spec, OrderNode, SortDirection};

verus! {

/// One entry of the signature index: the signature (order id and owning
/// account) and the node registered under it.
#[derive(Clone, Copy, Debug)]
pub struct SigEntry {
    pub order_id: u32,
    pub user_account: [u8; 32],
    pub node: OrderNode,
}

/// The signature of a node, as contracts speak of it.
pub open spec fn sig_key_of(n: OrderNode) -> (u32, Seq<u8>) {
    (n.order.order_id, n.user_account@)
}

pub open spec fn entry_key(e: SigEntry) -> (u32, Seq<u8>) {
    (e.order_id, e.user_account@)
}

/// An index entry always carries the signature of its own node.
pub open spec fn entry_matches(e: SigEntry) -> bool {
    entry_key(e) == sig_key_of(e.node)
}

pub open spec fn sig_entry_of(n: OrderNode) -> SigEntry {
    SigEntry { order_id: n.order.order_id, user_account: n.user_account, node: n }
}

/// Index of the first entry with key `k`, or -1.
pub open spec fn find_sig(s: Seq<SigEntry>, k: (u32, Seq<u8>)) -> int
    decreases s.len(),
{
    if s.len() == 0 {
        -1
    } else if entry_key(s[0]) == k {
        0
    } else {
        let r = find_sig(s.drop_first(), k);
        if r < 0 {
            -1
        } else {
            r + 1
        }
    }
}

/// Register a node under its signature, overwriting an existing entry.
pub open spec fn sig_upsert_spec(s: Seq<SigEntry>, e: SigEntry) -> Seq<SigEntry> {
    let i = find_sig(s, entry_key(e));
    if i >= 0 {
        s.update(i, e)
    } else {
        s.push(e)
    }
}

/// No signature is held twice.
pub open spec fn sig_distinct(s: Seq<SigEntry>) -> bool {
    forall|i: int, j: int| 0 <= i < j < s.len() ==> entry_key(s[i]) != entry_key(s[j])
}

/// Every index entry carries its own node's signature.
pub open spec fn sig_matches_all(s: Seq<SigEntry>) -> bool {
    forall|i: int| 0 <= i < s.len() ==> entry_matches(s[i])
}

pub proof fn lemma_sig_remove_wf(s: Seq<SigEntry>, i: int)
    requires
        0 <= i < s.len(),
        sig_distinct(s),
        sig_matches_all(s),
    ensures
        sig_distinct(s.remove(i)),
        sig_matches_all(s.remove(i)),
{
    let t = s.remove(i);
    assert forall|p: int, q: int| 0 <= p < q < t.len() implies entry_key(t[p]) != entry_key(
        t[q],
    ) by {
        let p0 = if p < i { p } else { p + 1 };
        let q0 = if q < i { q } else { q + 1 };
        assert(t[p] == s[p0] && t[q] == s[q0]);
    }
    assert forall|p: int| 0 <= p < t.len() implies entry_matches(t[p]) by {
        let p0 = if p < i { p } else { p + 1 };
        assert(t[p] == s[p0]);
    }
}

pub proof fn lemma_find_sig_props(s: Seq<SigEntry>, k: (u32, Seq<u8>))
    ensures
        -1 <= find_sig(s, k) < s.len(),
        find_sig(s, k) >= 0 ==> entry_key(s[find_sig(s, k)]) == k,
        find_sig(s, k) >= 0 ==> forall|j: int| 0 <= j < find_sig(s, k) ==> entry_key(s[j]) != k,
        find_sig(s, k) == -1 ==> forall|j: int| 0 <= j < s.len() ==> entry_key(s[j]) != k,
    decreases s.len(),
{
    if s.len() > 0 && entry_key(s[0]) != k {
        lemma_find_sig_props(s.drop_first(), k);
        assert(forall|j: int| 1 <= j < s.len() ==> s[j] == s.drop_first()[j - 1]);
    }
}

/// The first match is determined by the prefix of non-matches before it.
pub proof fn lemma_find_sig_at(s: Seq<SigEntry>, k: (u32, Seq<u8>), i: int)
    requires
        0 <= i <= s.len(),
        forall|j: int| 0 <= j < i ==> entry_key(s[j]) != k,
        i < s.len() ==> entry_key(s[i]) == k,
    ensures
        i < s.len() ==> find_sig(s, k) == i,
        i == s.len() ==> find_sig(s, k) == -1,
    decreases s.len(),
{
    if s.len() > 0 && entry_key(s[0]) != k {
        assert(forall|j: int| 1 <= j < s.len() ==> s[j] == s.drop_first()[j - 1]);
        lemma_find_sig_at(s.drop_first(), k, i - 1);
    }
}

/// Non-strict heap order of a lane: `a` may stand no later than `b`.
pub open spec fn comes_before(dir: SortDirection, a: OrderNode, b: OrderNode) -> bool {
    match dir {
        SortDirection::Descending => sort_value_spec(a.order) >= sort_value_spec(b.order),
        SortDirection::Ascending => sort_value_spec(a.order) <= sort_value_spec(b.order),
    }
}

pub open spec fn lane_sorted(dir: SortDirection, s: Seq<OrderNode>) -> bool {
    forall|i: int, j: int| 0 <= i < j < s.len() ==> comes_before(dir, s[i], s[j])
}

/// Where a new node lands: after every entry that may stand before it,
/// before the first that may not (ties keep the older entry first).
pub open spec fn insert_index(dir: SortDirection, s: Seq<OrderNode>, n: OrderNode) -> int
    decreases s.len(),
{
    if s.len() == 0 {
        0
    } else if !comes_before(dir, s[0], n) {
        0
    } else {
        1 + insert_index(dir, s.drop_first(), n)
    }
}

pub open spec fn insert_sorted_spec(dir: SortDirection, s: Seq<OrderNode>, n: OrderNode) -> Seq<
    OrderNode,
> {
    s.insert(insert_index(dir, s, n), n)
}

pub proof fn lemma_insert_index_props(dir: SortDirection, s: Seq<OrderNode>, n: OrderNode)
    ensures
        0 <= insert_index(dir, s, n) <= s.len(),
        forall|j: int| 0 <= j < insert_index(dir, s, n) ==> comes_before(dir, s[j], n),
        insert_index(dir, s, n) < s.len() ==> !comes_before(dir, s[insert_index(dir, s, n)], n),
    decreases s.len(),
{
    if s.len() > 0 && comes_before(dir, s[0], n) {
        lemma_insert_index_props(dir, s.drop_first(), n);
        assert(forall|j: int| 1 <= j < s.len() ==> s[j] == s.drop_first()[j - 1]);
    }
}

pub proof fn lemma_insert_index_at(dir: SortDirection, s: Seq<OrderNode>, n: OrderNode, i: int)
    requires
        0 <= i <= s.len(),
        forall|j: int| 0 <= j < i ==> comes_before(dir, s[j], n),
        i < s.len() ==> !comes_before(dir, s[i], n),
    ensures
        insert_index(dir, s, n) == i,
    decreases s.len(),
{
    if s.len() > 0 && comes_before(dir, s[0], n) {
        assert(forall|j: int| 1 <= j < s.len() ==> s[j] == s.drop_first()[j - 1]);
        lemma_insert_index_at(dir, s.drop_first(), n, i - 1);
    }
}

/// The tail of a sorted lane is sorted.
pub proof fn lemma_lane_sorted_drop_first(dir: SortDirection, s: Seq<OrderNode>)
    requires
        s.len() > 0,
        lane_sorted(dir, s),
    ensures
        lane_sorted(dir, s.drop_first()),
{
    let t = s.drop_first();
    assert forall|p: int, q: int| 0 <= p < q < t.len() implies comes_before(dir, t[p], t[q]) by {
        assert(t[p] == s[p + 1] && t[q] == s[q + 1]);
    }
}

/// Overwriting or adding an index entry keeps the index well formed.
pub proof fn lemma_sig_upsert_wf(s: Seq<SigEntry>, e: SigEntry)
    requires
        sig_distinct(s),
        sig_matches_all(s),
        entry_matches(e),
    ensures
        sig_distinct(sig_upsert_spec(s, e)),
        sig_matches_all(sig_upsert_spec(s, e)),
{
    lemma_find_sig_props(s, entry_key(e));
    let i = find_sig(s, entry_key(e));
    let t = sig_upsert_spec(s, e);
    if i >= 0 {
        assert(entry_key(s[i]) == entry_key(e));
        assert forall|p: int, q: int| 0 <= p < q < t.len() implies entry_key(t[p]) != entry_key(
            t[q],
        ) by {
            assert(t[p] == if p == i {
                e
            } else {
                s[p]
            });
            assert(t[q] == if q == i {
                e
            } else {
                s[q]
            });
        }
    } else {
        assert forall|p: int, q: int| 0 <= p < q < t.len() implies entry_key(t[p]) != entry_key(
            t[q],
        ) by {
            if q < s.len() {
                assert(t[p] == s[p] && t[q] == s[q]);
            } else {
                assert(t[p] == s[p] && t[q] == e);
            }
        }
    }
}

/// Sorted insertion keeps the lane sorted.
pub proof fn lemma_insert_sorted_preserves(dir: SortDirection, s: Seq<OrderNode>, n: OrderNode)
    requires
        lane_sorted(dir, s),
    ensures
        lane_sorted(dir, insert_sorted_spec(dir, s, n)),
{
    lemma_insert_index_props(dir, s, n);
    let i = insert_index(dir, s, n);
    let t = s.insert(i, n);
    assert forall|p: int, q: int| 0 <= p < q < t.len() implies comes_before(dir, t[p], t[q]) by {
        if p < i && q == i {
            assert(t[p] == s[p] && t[q] == n);
        } else if p == i && q > i {
            assert(t[p] == n && t[q] == s[q - 1]);
            if i < s.len() {
                assert(!comes_before(dir, s[i], n));
                assert(comes_before(dir, s[i], s[q - 1]) || i == q - 1);
            }
        } else if p < i && q > i {
            assert(t[p] == s[p] && t[q] == s[q - 1]);
        } else if p > i && q > i {
            assert(t[p] == s[p - 1] && t[q] == s[q - 1]);
        } else {
            assert(t[p] == s[p] && t[q] == s[q]);
        }
    }
}

/// The outcome of one best-order pop: the node handed back, and the heap
/// and signature index left behind.
pub ghost struct PopOutcome {
    pub popped: Option<OrderNode>,
    pub heap: Seq<OrderNode>,
    pub sigs: Seq<SigEntry>,
}

/// Pop heap entries front-first until one is still registered; hand back
/// the registered node and unregister it.  Entries whose signature is gone
/// are discarded silently.
pub open spec fn get_best_spec(heap: Seq<OrderNode>, sigs: Seq<SigEntry>) -> PopOutcome
    decreases heap.len(),
{
    if heap.len() == 0 {
        PopOutcome { popped: None, heap, sigs }
    } else {
        let i = find_sig(sigs, sig_key_of(heap[0]));
        if i >= 0 {
            PopOutcome {
                popped: Some(sigs[i].node),
                heap: heap.drop_first(),
                sigs: sigs.remove(i),
            }
        } else {
            get_best_spec(heap.drop_first(), sigs)
        }
    }
}

/// The mathematical value of an order list.
#[verifier::ext_equal]
pub ghost struct OrderlistV {
    pub bids: Seq<OrderNode>,
    pub asks: Seq<OrderNode>,
    pub sigs: Seq<SigEntry>,
    pub bid_dir: SortDirection,
    pub ask_dir: SortDirection,
}

/// Both heaps sorted, no signature held twice, every index entry carrying
/// its own node's signature.
pub open spec fn ol_wf(l: OrderlistV) -> bool {
    &&& lane_sorted(l.bid_dir, l.bids)
    &&& lane_sorted(l.ask_dir, l.asks)
    &&& sig_distinct(l.sigs)
    &&& sig_matches_all(l.sigs)
}

pub open spec fn ol_empty(bid_dir: SortDirection, ask_dir: SortDirection) -> OrderlistV {
    OrderlistV {
        bids: Seq::empty(),
        asks: Seq::empty(),
        sigs: Seq::empty(),
        bid_dir,
        ask_dir,
    }
}

pub open spec fn ol_insert_bid(l: OrderlistV, n: OrderNode) -> OrderlistV {
    OrderlistV {
        bids: insert_sorted_spec(l.bid_dir, l.bids, n),
        sigs: sig_upsert_spec(l.sigs, sig_entry_of(n)),
        ..l
    }
}

pub open spec fn ol_insert_ask(l: OrderlistV, n: OrderNode) -> OrderlistV {
    OrderlistV {
        asks: insert_sorted_spec(l.ask_dir, l.asks, n),
        sigs: sig_upsert_spec(l.sigs, sig_entry_of(n)),
        ..l
    }
}

pub open spec fn ol_pop_bid(l: OrderlistV) -> (Option<OrderNode>, OrderlistV) {
    let o = get_best_spec(l.bids, l.sigs);
    (o.popped, OrderlistV { bids: o.heap, sigs: o.sigs, ..l })
}

pub open spec fn ol_pop_ask(l: OrderlistV) -> (Option<OrderNode>, OrderlistV) {
    let o = get_best_spec(l.asks, l.sigs);
    (o.popped, OrderlistV { asks: o.heap, sigs: o.sigs, ..l })
}

pub proof fn lemma_ol_insert_bid_wf(l: OrderlistV, n: OrderNode)
    requires
        ol_wf(l),
    ensures
        ol_wf(ol_insert_bid(l, n)),
{
    lemma_insert_sorted_preserves(l.bid_dir, l.bids, n);
    lemma_sig_upsert_wf(l.sigs, sig_entry_of(n));
}

pub proof fn lemma_ol_insert_ask_wf(l: OrderlistV, n: OrderNode)
    requires
        ol_wf(l),
    ensures
        ol_wf(ol_insert_ask(l, n)),
{
    lemma_insert_sorted_preserves(l.ask_dir, l.asks, n);
    lemma_sig_upsert_wf(l.sigs, sig_entry_of(n));
}

/// The result of draining one heap of a lane: the nodes handed out
/// best-first and the signature index left behind.
pub ghost struct DrainOutcome {
    pub drained: Seq<OrderNode>,
    pub sigs: Seq<SigEntry>,
}

/// Drain a heap by repeated best-order pops: stale entries vanish, live
/// ones come out in heap order and leave the index.
pub open spec fn drain_spec(heap: Seq<OrderNode>, sigs: Seq<SigEntry>) -> DrainOutcome
    decreases heap.len(),
{
    if heap.len() == 0 {
        DrainOutcome { drained: Seq::empty(), sigs }
    } else {
        let i = find_sig(sigs, sig_key_of(heap[0]));
        if i >= 0 {
            let rest = drain_spec(heap.drop_first(), sigs.remove(i));
            DrainOutcome { drained: seq![sigs[i].node].add(rest.drained), sigs: rest.sigs }
        } else {
            drain_spec(heap.drop_first(), sigs)
        }
    }
}

/// One best-order pop advances a drain by exactly its first element.
pub proof fn lemma_drain_step(heap: Seq<OrderNode>, sigs: Seq<SigEntry>)
    ensures
        ({
            let o = get_best_spec(heap, sigs);
            match o.popped {
                Some(n) => drain_spec(heap, sigs) == (DrainOutcome {
                    drained: seq![n].add(drain_spec(o.heap, o.sigs).drained),
                    sigs: drain_spec(o.heap, o.sigs).sigs,
                }),
                None => drain_spec(heap, sigs) == (DrainOutcome {
                    drained: Seq::<OrderNode>::empty(),
                    sigs,
                }) && o.heap.len() == 0 && o.sigs == sigs,
            }
        }),
    decreases heap.len(),
{
    if heap.len() > 0 {
        let i = find_sig(sigs, sig_key_of(heap[0]));
        if i < 0 {
            lemma_drain_step(heap.drop_first(), sigs);
        }
    }
}

/// A best-order pop consumes at least one heap entry.
pub proof fn lemma_get_best_shrinks(heap: Seq<OrderNode>, sigs: Seq<SigEntry>)
    ensures
        heap.len() > 0 ==> get_best_spec(heap, sigs).heap.len() < heap.len(),
    decreases heap.len(),
{
    if heap.len() > 0 {
        let i = find_sig(sigs, sig_key_of(heap[0]));
        if i < 0 {
            lemma_get_best_shrinks(heap.drop_first(), sigs);
        }
    }
}

/// One bid heap and one ask heap plus the signature index shared by both.
#[derive(Clone, Debug)]
pub struct Orderlist {
    pub bids: Vec<OrderNode>,
    pub asks: Vec<OrderNode>,
    pub order_sigs: Vec<SigEntry>,
    pub bid_sort_direction: SortDirection,
    pub ask_sort_direction: SortDirection,
}

impl View for Orderlist {
    type V = OrderlistV;

    open spec fn view(&self) -> OrderlistV {
        OrderlistV {
            bids: self.bids@,
            asks: self.asks@,
            sigs: self.order_sigs@,
            bid_dir: self.bid_sort_direction,
            ask_dir: self.ask_sort_direction,
        }
    }
}

impl Orderlist {
    pub open spec fn bid_dir(&self) -> SortDirection {
        self.bid_sort_direction
    }

    pub open spec fn ask_dir(&self) -> SortDirection {
        self.ask_sort_direction
    }

    /// Both heaps are sorted, the signature index holds no key twice, and
    /// each index entry carries its own node's signature.
    pub open spec fn well_formed(&self) -> bool {
        &&& lane_sorted(self.bid_sort_direction, self.bids@)
        &&& lane_sorted(self.ask_sort_direction, self.asks@)
        &&& sig_distinct(self.order_sigs@)
        &&& sig_matches_all(self.order_sigs@)
    }

    pub fn new(bid_sort_direction: SortDirection, ask_sort_direction: SortDirection) -> (r:
        Orderlist)
        ensures
            r.well_formed(),
            r.bids@ =~= Seq::<OrderNode>::empty(),
            r.asks@ =~= Seq::<OrderNode>::empty(),
            r.order_sigs@ =~= Seq::<SigEntry>::empty(),
            r.bid_dir() == bid_sort_direction,
            r.ask_dir() == ask_sort_direction,
    {
        Orderlist {
            bids: Vec::new(),
            asks: Vec::new(),
            order_sigs: Vec::new(),
            bid_sort_direction,
            ask_sort_direction,
        }
    }

    /// Position of the signature `(order_id, user_account)` in the index.
    fn find_sig_index(&self, order_id: u32, user_account: &[u8; 32]) -> (r: Option<usize>)
        ensures
            match r {
                Some(i) => 0 <= i < self.order_sigs@.len() && find_sig(
                    self.order_sigs@,
                    (order_id, user_account@),
                ) == i as int,
                None => find_sig(self.order_sigs@, (order_id, user_account@)) == -1,
            },
    {
        let ghost k = (order_id, user_account@);
        let mut i: usize = 0;
        while i < self.order_sigs.len()
            invariant
                0 <= i <= self.order_sigs@.len(),
                forall|j: int| 0 <= j < i ==> entry_key(self.order_sigs@[j]) != k,
                k == (order_id, user_account@),
            decreases self.order_sigs@.len() - i,
        {
            let hit = self.order_sigs[i].order_id == order_id && keys_eq(
                &self.order_sigs[i].user_account,
                user_account,
            );
            if hit {
                proof {
                    lemma_find_sig_at(self.order_sigs@, k, i as int);
                }
                return Some(i);
            }
            i += 1;
        }
        proof {
            lemma_find_sig_at(self.order_sigs@, k, i as int);
        }
        None
    }

    /// Register `node` under its signature, overwriting any earlier entry.
    fn register_sig(&mut self, node: OrderNode)
        requires
            old(self).well_formed(),
        ensures
            final(self).well_formed(),
            final(self).order_sigs@ == sig_upsert_spec(old(self).order_sigs@, sig_entry_of(node)),
            final(self).bids@ == old(self).bids@,
            final(self).asks@ == old(self).asks@,
            final(self).bid_dir() == old(self).bid_dir(),
            final(self).ask_dir() == old(self).ask_dir(),
    {
        let e = SigEntry {
            order_id: node.order.order_id,
            user_account: node.user_account,
            node,
        };
        proof {
            lemma_find_sig_props(self.order_sigs@, entry_key(e));
        }
        match self.find_sig_index(node.order.order_id, &node.user_account) {
            Some(i) => {
                self.order_sigs.set(i, e);
            },
            None => {
                self.order_sigs.push(e);
            },
        }
    }

    /// Insert a bid; its signature is registered and the bid heap keeps its
    /// order, the new entry standing after every equal-priced older one.
    pub fn insert_bid(&mut self, node: OrderNode)
        requires
            old(self).well_formed(),
        ensures
            final(self).well_formed(),
            final(self).bids@ == insert_sorted_spec(old(self).bid_dir(), old(self).bids@, node),
            final(self).asks@ == old(self).asks@,
            final(self).order_sigs@ == sig_upsert_spec(old(self).order_sigs@, sig_entry_of(node)),
            final(self).bid_dir() == old(self).bid_dir(),
            final(self).ask_dir() == old(self).ask_dir(),
            final(self).bids@.len() == old(self).bids@.len() + 1,
            final(self)@ == ol_insert_bid(old(self)@, node),
    {
        self.register_sig(node);
        let dir = self.bid_sort_direction;
        let mut i: usize = 0;
        while i < self.bids.len() && cmp_nodes(dir, &self.bids[i], &node)
            invariant
                0 <= i <= self.bids@.len(),
                forall|j: int| 0 <= j < i ==> comes_before(dir, self.bids@[j], node),
            decreases self.bids@.len() - i,
        {
            i += 1;
        }
        proof {
            lemma_insert_index_at(dir, self.bids@, node, i as int);
            lemma_insert_sorted_preserves(dir, self.bids@, node);
        }
        self.bids.insert(i, node);
    }

    /// Insert an ask; the mirror image of `insert_bid`.
    pub fn insert_ask(&mut self, node: OrderNode)
        requires
            old(self).well_formed(),
        ensures
            final(self).well_formed(),
            final(self).asks@ == insert_sorted_spec(old(self).ask_dir(), old(self).asks@, node),
            final(self).bids@ == old(self).bids@,
            final(self).order_sigs@ == sig_upsert_spec(old(self).order_sigs@, sig_entry_of(node)),
            final(self).bid_dir() == old(self).bid_dir(),
            final(self).ask_dir() == old(self).ask_dir(),
            final(self).asks@.len() == old(self).asks@.len() + 1,
            final(self)@ == ol_insert_ask(old(self)@, node),
    {
        self.register_sig(node);
        let dir = self.ask_sort_direction;
        let mut i: usize = 0;
        while i < self.asks.len() && cmp_nodes(dir, &self.asks[i], &node)
            invariant
                0 <= i <= self.asks@.len(),
                forall|j: int| 0 <= j < i ==> comes_before(dir, self.asks@[j], node),
            decreases self.asks@.len() - i,
        {
            i += 1;
        }
        proof {
            lemma_insert_index_at(dir, self.asks@, node, i as int);
            lemma_insert_sorted_preserves(dir, self.asks@, node);
        }
        self.asks.insert(i, node);
    }

    /// Pop the best still-registered bid; stale heap entries (signature
    /// removed) are discarded on the way.  `None` on an empty bid heap.
    #[verifier::loop_isolation(false)]
    pub fn get_best_bid(&mut self) -> (r: Option<OrderNode>)
        requires
            old(self).well_formed(),
        ensures
            final(self).well_formed(),
            ({
                let o = get_best_spec(old(self).bids@, old(self).order_sigs@);
                r == o.popped && final(self).bids@ == o.heap && final(self).order_sigs@ == o.sigs
            }),
            final(self).asks@ == old(self).asks@,
            final(self).bid_dir() == old(self).bid_dir(),
            final(self).ask_dir() == old(self).ask_dir(),
            (r, final(self)@) == ol_pop_bid(old(self)@),
    {
        let ghost entry_asks = self.asks@;
        let ghost entry_bdir = self.bid_dir();
        let ghost entry_adir = self.ask_dir();
        let ghost orig = get_best_spec(self.bids@, self.order_sigs@);
        loop
            invariant
                self.well_formed(),
                self.asks@ == entry_asks,
                self.bid_dir() == entry_bdir,
                self.ask_dir() == entry_adir,
                get_best_spec(self.bids@, self.order_sigs@) == orig,
            decreases self.bids@.len(),
        {
            if self.bids.len() == 0 {
                return None;
            }
            let ghost prev_bids = self.bids@;
            let ghost prev_sigs = self.order_sigs@;
            let node = self.bids.remove(0);
            proof {
                assert(self.bids@ =~= prev_bids.drop_first());
                lemma_lane_sorted_drop_first(self.bid_dir(), prev_bids);
            }
            match self.find_sig_index(node.order.order_id, &node.user_account) {
                Some(i) => {
                    let e = self.order_sigs[i];
                    self.order_sigs.remove(i);
                    proof {
                        lemma_sig_remove_wf(prev_sigs, i as int);
                        assert(get_best_spec(prev_bids, prev_sigs) == (PopOutcome {
                            popped: Some(e.node),
                            heap: prev_bids.drop_first(),
                            sigs: prev_sigs.remove(i as int),
                        }));
                    }
                    return Some(e.node);
                },
                None => {
                    proof {
                        assert(get_best_spec(prev_bids, prev_sigs) == get_best_spec(
                            self.bids@,
                            self.order_sigs@,
                        ));
                    }
                },
            }
        }
    }

    /// Pop the best still-registered ask; the mirror image of
    /// `get_best_bid`.
    #[verifier::loop_isolation(false)]
    pub fn get_best_ask(&mut self) -> (r: Option<OrderNode>)
        requires
            old(self).well_formed(),
        ensures
            final(self).well_formed(),
            ({
                let o = get_best_spec(old(self).asks@, old(self).order_sigs@);
                r == o.popped && final(self).asks@ == o.heap && final(self).order_sigs@ == o.sigs
            }),
            final(self).bids@ == old(self).bids@,
            final(self).bid_dir() == old(self).bid_dir(),
            final(self).ask_dir() == old(self).ask_dir(),
            (r, final(self)@) == ol_pop_ask(old(self)@),
    {
        let ghost entry_bids = self.bids@;
        let ghost entry_bdir = self.bid_dir();
        let ghost entry_adir = self.ask_dir();
        let ghost orig = get_best_spec(self.asks@, self.order_sigs@);
        loop
            invariant
                self.well_formed(),
                self.bids@ == entry_bids,
                self.bid_dir() == entry_bdir,
                self.ask_dir() == entry_adir,
                get_best_spec(self.asks@, self.order_sigs@) == orig,
            decreases self.asks@.len(),
        {
            if self.asks.len() == 0 {
                return None;
            }
            let ghost prev_asks = self.asks@;
            let ghost prev_sigs = self.order_sigs@;
            let node = self.asks.remove(0);
            proof {
                assert(self.asks@ =~= prev_asks.drop_first());
                lemma_lane_sorted_drop_first(self.ask_dir(), prev_asks);
            }
            match self.find_sig_index(node.order.order_id, &node.user_account) {
                Some(i) => {
                    let e = self.order_sigs[i];
                    self.order_sigs.remove(i);
                    proof {
                        lemma_sig_remove_wf(prev_sigs, i as int);
                        assert(get_best_spec(prev_asks, prev_sigs) == (PopOutcome {
                            popped: Some(e.node),
                            heap: prev_asks.drop_first(),
                            sigs: prev_sigs.remove(i as int),
                        }));
                    }
                    return Some(e.node);
                },
                None => {
                    proof {
                        assert(get_best_spec(prev_asks, prev_sigs) == get_best_spec(
                            self.asks@,
                            self.order_sigs@,
                        ));
                    }
                },
            }
        }
    }

    /// Drain the bid heap by repeated best-order pops: live nodes come out
    /// best-first and leave the index; stale entries vanish silently.
    #[verifier::loop_isolation(false)]
    pub fn drain_bids(&mut self) -> (r: Vec<OrderNode>)
        requires
            old(self).well_formed(),
        ensures
            final(self).well_formed(),
            r@ == drain_spec(old(self)@.bids, old(self)@.sigs).drained,
            final(self)@ == (OrderlistV {
                bids: Seq::empty(),
                sigs: drain_spec(old(self)@.bids, old(self)@.sigs).sigs,
                ..old(self)@
            }),
    {
        let ghost entry = self@;
        let ghost orig = drain_spec(entry.bids, entry.sigs);
        let mut out: Vec<OrderNode> = Vec::new();
        loop
            invariant
                self.well_formed(),
                self@.asks == entry.asks,
                self@.bid_dir == entry.bid_dir,
                self@.ask_dir == entry.ask_dir,
                out@.add(drain_spec(self@.bids, self@.sigs).drained) == orig.drained,
                drain_spec(self@.bids, self@.sigs).sigs == orig.sigs,
            decreases self@.bids.len(),
        {
            let ghost prev = self@;
            proof {
                lemma_drain_step(prev.bids, prev.sigs);
                lemma_get_best_shrinks(prev.bids, prev.sigs);
            }
            match self.get_best_bid() {
                Some(n) => {
                    out.push(n);
                    proof {
                        assert(out@.add(drain_spec(self@.bids, self@.sigs).drained)
                            =~= orig.drained);
                    }
                },
                None => {
                    proof {
                        assert(out@.add(drain_spec(self@.bids, self@.sigs).drained)
                            =~= out@);
                        assert(self@ =~= (OrderlistV {
                            bids: Seq::empty(),
                            sigs: drain_spec(entry.bids, entry.sigs).sigs,
                            ..entry
                        }));
                    }
                    return out;
                },
            }
        }
    }

    /// Drain the ask heap; the mirror image of `drain_bids`.
    #[verifier::loop_isolation(false)]
    pub fn drain_asks(&mut self) -> (r: Vec<OrderNode>)
        requires
            old(self).well_formed(),
        ensures
            final(self).well_formed(),
            r@ == drain_spec(old(self)@.asks, old(self)@.sigs).drained,
            final(self)@ == (OrderlistV {
                asks: Seq::empty(),
                sigs: drain_spec(old(self)@.asks, old(self)@.sigs).sigs,
                ..old(self)@
            }),
    {
        let ghost entry = self@;
        let ghost orig = drain_spec(entry.asks, entry.sigs);
        let mut out: Vec<OrderNode> = Vec::new();
        loop
            invariant
                self.well_formed(),
                self@.bids == entry.bids,
                self@.bid_dir == entry.bid_dir,
                self@.ask_dir == entry.ask_dir,
                out@.add(drain_spec(self@.asks, self@.sigs).drained) == orig.drained,
                drain_spec(self@.asks, self@.sigs).sigs == orig.sigs,
            decreases self@.asks.len(),
        {
            let ghost prev = self@;
            proof {
                lemma_drain_step(prev.asks, prev.sigs);
                lemma_get_best_shrinks(prev.asks, prev.sigs);
            }
            match self.get_best_ask() {
                Some(n) => {
                    out.push(n);
                    proof {
                        assert(out@.add(drain_spec(self@.asks, self@.sigs).drained)
                            =~= orig.drained);
                    }
                },
                None => {
                    proof {
                        assert(out@.add(drain_spec(self@.asks, self@.sigs).drained)
                            =~= out@);
                        assert(self@ =~= (OrderlistV {
                            asks: Seq::empty(),
                            sigs: drain_spec(entry.asks, entry.sigs).sigs,
                            ..entry
                        }));
                    }
                    return out;
                },
            }
        }
    }

    /// Look a node up by its signature, without mutation.
    pub fn get_node(&self, order_id: u32, user_account: &[u8; 32]) -> (r: Option<OrderNode>)
        ensures
            ({
                let i = find_sig(self.order_sigs@, (order_id, user_account@));
                r == if i >= 0 {
                    Some(self.order_sigs@[i].node)
                } else {
                    None::<OrderNode>
                }
            }),
    {
        match self.find_sig_index(order_id, user_account) {
            Some(i) => Some(self.order_sigs[i].node),
            None => None,
        }
    }

    pub fn bids_empty(&self) -> (r: bool)
        ensures
            r == (self.bids@.len() == 0),
    {
        self.bids.len() == 0
    }

    pub fn asks_empty(&self) -> (r: bool)
        ensures
            r == (self.asks@.len() == 0),
    {
        self.asks.len() == 0
    }

    /// Heap entries held, both sides, stale ones included.
    pub fn size(&self) -> (r: usize)
        ensures
            r == min_usize(self.bids@.len() + self.asks@.len() as int),
    {
        sat_add_usize(self.bids.len(), self.asks.len())
    }
}

/// A sum clamped into `usize`.
pub open spec fn min_usize(v: int) -> int {
    if v <= usize::MAX as int {
        v
    } else {
        usize::MAX as int
    }
}

pub fn sat_add_usize(a: usize, b: usize) -> (r: usize)
    ensures
        r == min_usize(a + b),
{
    if a <= usize::MAX - b {
        a + b
    } else {
        usize::MAX
    }
}

/// An element-wise copy of a node vector.
pub fn copy_nodes(v: &Vec<OrderNode>) -> (r: Vec<OrderNode>)
    ensures
        r@ == v@,
{
    let mut out: Vec<OrderNode> = Vec::new();
    let mut i: usize = 0;
    while i < v.len()
        invariant
            0 <= i <= v@.len(),
            out@ == v@.take(i as int),
        decreases v@.len() - i,
    {
        out.push(v[i]);
        proof {
            assert(out@ =~= v@.take(i as int + 1));
        }
        i += 1;
    }
    proof {
        assert(v@.take(i as int) =~= v@);
    }
    out
}

/// An element-wise copy of a signature index.
pub fn copy_sigs(v: &Vec<SigEntry>) -> (r: Vec<SigEntry>)
    ensures
        r@ == v@,
{
    let mut out: Vec<SigEntry> = Vec::new();
    let mut i: usize = 0;
    while i < v.len()
        invariant
            0 <= i <= v@.len(),
            out@ == v@.take(i as int),
        decreases v@.len() - i,
    {
        out.push(v[i]);
        proof {
            assert(out@ =~= v@.take(i as int + 1));
        }
        i += 1;
    }
    proof {
        assert(v@.take(i as int) =~= v@);
    }
    out
}

/// Non-strict ordering test used by sorted insertion.
pub fn cmp_nodes(dir: SortDirection, a: &OrderNode, b: &OrderNode) -> (r: bool)
    ensures
        r == comes_before(dir, *a, *b),
{
    let va = sort_value(&a.order);
    let vb = sort_value(&b.order);
    match dir {
        SortDirection::Descending => va >= vb,
        SortDirection::Ascending => va <= vb,
    }
}

} // verus!
