//! The book's laws: statements that hold of every input, proved once over
//! the specification functions the executable contracts are written in.

use vstd::prelude::*;
use crate::order::{
    is_resting_limit_order_spec, sort_value_spec, OrderNode, OrderStatus,
    SortDirection,
};
use crate::order_list::{
    comes_before, entry_key, find_sig, get_best_spec, insert_index, insert_sorted_spec,
    lane_sorted, lemma_find_sig_props, lemma_insert_index_props, ol_insert_ask, ol_insert_bid,
    sig_key_of, OrderlistV, PopOutcome, SigEntry,
};
use crate::market::{
    market_promote, promote_asks, promote_bids, MarketV,
};
use crate::dlob::{build_spec, promote_spec, DlobV};

verus! {

// ---------------------------------------------------------------------
// Lane size under inserts and pops.
// ---------------------------------------------------------------------

/// Where a pop lands: the index of the first live heap entry, with the
/// heap and index it leaves behind.
pub proof fn lemma_get_best_char(heap: Seq<OrderNode>, sigs: Seq<SigEntry>) -> (k: int)
    ensures
        ({
            let o = get_best_spec(heap, sigs);
            match o.popped {
                Some(n) => {
                    &&& 0 <= k < heap.len()
                    &&& find_sig(sigs, sig_key_of(heap[k])) >= 0
                    &&& forall|j: int|
                        0 <= j < k ==> find_sig(sigs, sig_key_of(#[trigger] heap[j])) == -1
                    &&& n == sigs[find_sig(sigs, sig_key_of(heap[k]))].node
                    &&& o.heap == heap.skip(k + 1)
                    &&& o.sigs == sigs.remove(find_sig(sigs, sig_key_of(heap[k])))
                },
                None => {
                    &&& forall|j: int|
                        0 <= j < heap.len() ==> find_sig(sigs, sig_key_of(#[trigger] heap[j]))
                            == -1
                    &&& o.heap.len() == 0
                    &&& o.sigs == sigs
                },
            }
        }),
    decreases heap.len(),
{
    if heap.len() == 0 {
        0
    } else {
        let i = find_sig(sigs, sig_key_of(heap[0]));
        if i >= 0 {
            assert(heap.drop_first() =~= heap.skip(1));
            0
        } else {
            let k0 = lemma_get_best_char(heap.drop_first(), sigs);
            assert(forall|j: int| 1 <= j < heap.len() ==> heap[j] == heap.drop_first()[j - 1]);
            if get_best_spec(heap, sigs).popped is Some {
                assert(heap.drop_first().skip(k0 + 1) =~= heap.skip(k0 + 2));
                k0 + 1
            } else {
                0
            }
        }
    }
}

/// On a lane without stale entries, a pop hands a node out exactly when
/// the heap is non-empty, and removes exactly one entry: so the heap size
/// is the number of inserts minus the number of successful pops.
pub proof fn lemma_pop_on_live_lane(heap: Seq<OrderNode>, sigs: Seq<SigEntry>)
    requires
        forall|j: int|
            0 <= j < heap.len() ==> find_sig(sigs, sig_key_of(#[trigger] heap[j])) >= 0,
    ensures
        ({
            let o = get_best_spec(heap, sigs);
            &&& (o.popped is Some <==> heap.len() > 0)
            &&& (heap.len() > 0 ==> o.heap.len() == heap.len() - 1)
            &&& (heap.len() == 0 ==> o.heap == heap && o.sigs == sigs)
        }),
{
    if heap.len() > 0 {
        let k = lemma_get_best_char(heap, sigs);
        if get_best_spec(heap, sigs).popped is Some {
            assert(heap.skip(k + 1).len() == heap.len() - k - 1);
            assert(k == 0) by {
                if k > 0 {
                    assert(find_sig(sigs, sig_key_of(heap[0])) == -1);
                }
            }
        } else {
            assert(find_sig(sigs, sig_key_of(heap[0])) == -1);
        }
    }
}

/// An insert grows a lane's heap by exactly one entry.
pub proof fn lemma_insert_grows_lane(l: OrderlistV, n: OrderNode)
    ensures
        ol_insert_bid(l, n).bids.len() == l.bids.len() + 1,
        ol_insert_ask(l, n).asks.len() == l.asks.len() + 1,
{
    lemma_insert_index_props(l.bid_dir, l.bids, n);
    lemma_insert_index_props(l.ask_dir, l.asks, n);
}


// ---------------------------------------------------------------------
// The size law over whole traces: inserts minus successful pops.
// ---------------------------------------------------------------------

/// One operation of a lane trace.
pub ghost enum LaneOp {
    InsertBid(OrderNode),
    InsertAsk(OrderNode),
    PopBid,
    PopAsk,
}

pub open spec fn lane_step(l: OrderlistV, op: LaneOp) -> OrderlistV {
    match op {
        LaneOp::InsertBid(n) => ol_insert_bid(l, n),
        LaneOp::InsertAsk(n) => ol_insert_ask(l, n),
        LaneOp::PopBid => crate::order_list::ol_pop_bid(l).1,
        LaneOp::PopAsk => crate::order_list::ol_pop_ask(l).1,
    }
}

/// The lane a trace of operations leaves behind.
pub open spec fn lane_run(l: OrderlistV, ops: Seq<LaneOp>) -> OrderlistV
    decreases ops.len(),
{
    if ops.len() == 0 {
        l
    } else {
        lane_run(lane_step(l, ops[0]), ops.drop_first())
    }
}

pub open spec fn insert_count(ops: Seq<LaneOp>) -> int
    decreases ops.len(),
{
    if ops.len() == 0 {
        0
    } else {
        (match ops[0] {
            LaneOp::InsertBid(_) => 1int,
            LaneOp::InsertAsk(_) => 1int,
            LaneOp::PopBid => 0int,
            LaneOp::PopAsk => 0int,
        }) + insert_count(ops.drop_first())
    }
}

/// How many pops of the trace hand a node out, run from `l`.
pub open spec fn pop_success_count(l: OrderlistV, ops: Seq<LaneOp>) -> int
    decreases ops.len(),
{
    if ops.len() == 0 {
        0
    } else {
        (match ops[0] {
            LaneOp::PopBid => if crate::order_list::ol_pop_bid(l).0 is Some {
                1int
            } else {
                0int
            },
            LaneOp::PopAsk => if crate::order_list::ol_pop_ask(l).0 is Some {
                1int
            } else {
                0int
            },
            LaneOp::InsertBid(_) => 0int,
            LaneOp::InsertAsk(_) => 0int,
        }) + pop_success_count(lane_step(l, ops[0]), ops.drop_first())
    }
}

pub open spec fn heap_size(l: OrderlistV) -> int {
    l.bids.len() + l.asks.len() as int
}

pub open spec fn key_in_lane(l: OrderlistV, k: (u32, Seq<u8>)) -> bool {
    ||| exists|i: int| 0 <= i < l.bids.len() && sig_key_of(#[trigger] l.bids[i]) == k
    ||| exists|i: int| 0 <= i < l.asks.len() && sig_key_of(#[trigger] l.asks[i]) == k
}

/// Every insert of the trace brings a signature the lane does not hold at
/// that moment: no signature is ever overwritten, so no entry goes stale.
pub open spec fn ops_fresh(l: OrderlistV, ops: Seq<LaneOp>) -> bool
    decreases ops.len(),
{
    if ops.len() == 0 {
        true
    } else {
        (match ops[0] {
            LaneOp::InsertBid(n) => !key_in_lane(l, sig_key_of(n)),
            LaneOp::InsertAsk(n) => !key_in_lane(l, sig_key_of(n)),
            LaneOp::PopBid => true,
            LaneOp::PopAsk => true,
        }) && ops_fresh(lane_step(l, ops[0]), ops.drop_first())
    }
}

/// No two heap entries share a signature, and every heap entry's
/// signature is registered: the lane holds no stale entry.
pub open spec fn lane_live(l: OrderlistV) -> bool {
    &&& forall|i: int, j: int|
        0 <= i < j < l.bids.len() ==> sig_key_of(#[trigger] l.bids[i]) != sig_key_of(
            #[trigger] l.bids[j],
        )
    &&& forall|i: int, j: int|
        0 <= i < j < l.asks.len() ==> sig_key_of(#[trigger] l.asks[i]) != sig_key_of(
            #[trigger] l.asks[j],
        )
    &&& forall|i: int, j: int|
        0 <= i < l.bids.len() && 0 <= j < l.asks.len() ==> sig_key_of(#[trigger] l.bids[i])
            != sig_key_of(#[trigger] l.asks[j])
    &&& forall|i: int|
        0 <= i < l.bids.len() ==> find_sig(l.sigs, sig_key_of(#[trigger] l.bids[i])) >= 0
    &&& forall|i: int|
        0 <= i < l.asks.len() ==> find_sig(l.sigs, sig_key_of(#[trigger] l.asks[i])) >= 0
}

pub proof fn lemma_find_sig_same_keys(s: Seq<SigEntry>, t: Seq<SigEntry>, k: (u32, Seq<u8>))
    requires
        s.len() == t.len(),
        forall|j: int| 0 <= j < s.len() ==> entry_key(#[trigger] s[j]) == entry_key(t[j]),
    ensures
        find_sig(s, k) == find_sig(t, k),
    decreases s.len(),
{
    if s.len() > 0 {
        assert(entry_key(s[0]) == entry_key(t[0]));
        assert(forall|j: int|
            0 <= j < s.drop_first().len() ==> entry_key(#[trigger] s.drop_first()[j])
                == entry_key(t.drop_first()[j]));
        lemma_find_sig_same_keys(s.drop_first(), t.drop_first(), k);
    }
}

pub proof fn lemma_find_sig_push(s: Seq<SigEntry>, e: SigEntry, k: (u32, Seq<u8>))
    ensures
        find_sig(s.push(e), k) == if find_sig(s, k) >= 0 {
            find_sig(s, k)
        } else if entry_key(e) == k {
            s.len() as int
        } else {
            -1
        },
    decreases s.len(),
{
    if s.len() == 0 {
        assert(s.push(e)[0] == e);
        assert(s.push(e).drop_first() =~= Seq::<SigEntry>::empty());
        assert(find_sig(Seq::<SigEntry>::empty(), k) == -1);
        assert(find_sig(s, k) == -1);
    } else {
        assert(s.push(e)[0] == s[0]);
        assert(s.push(e).drop_first() =~= s.drop_first().push(e));
        lemma_find_sig_push(s.drop_first(), e, k);
    }
}

/// Registering a signature keeps every registered signature registered,
/// and registers the new one.
pub proof fn lemma_find_sig_upsert(s: Seq<SigEntry>, e: SigEntry, k: (u32, Seq<u8>))
    ensures
        find_sig(crate::order_list::sig_upsert_spec(s, e), k) >= 0 <==> (find_sig(s, k) >= 0
            || entry_key(e) == k),
{
    lemma_find_sig_props(s, entry_key(e));
    lemma_find_sig_props(s, k);
    let i = find_sig(s, entry_key(e));
    if i >= 0 {
        let t = s.update(i, e);
        assert(forall|j: int| 0 <= j < s.len() ==> entry_key(#[trigger] t[j]) == entry_key(s[j]));
        lemma_find_sig_same_keys(t, s, k);
    } else {
        lemma_find_sig_push(s, e, k);
    }
}

/// Dropping one registration leaves every other signature registered.
pub proof fn lemma_find_sig_remove(s: Seq<SigEntry>, f: int, k: (u32, Seq<u8>))
    requires
        0 <= f < s.len(),
        find_sig(s, k) >= 0,
        entry_key(s[f]) != k,
    ensures
        find_sig(s.remove(f), k) >= 0,
    decreases s.len(),
{
    lemma_find_sig_props(s, k);
    let t = s.remove(f);
    if f == 0 {
        assert(t =~= s.drop_first());
        if entry_key(s[0]) == k {
        } else {
            lemma_find_sig_props(s.drop_first(), k);
            assert(forall|j: int| 1 <= j < s.len() ==> s[j] == s.drop_first()[j - 1]);
            let w = find_sig(s, k);
            assert(entry_key(s.drop_first()[w - 1]) == k);
            if find_sig(s.drop_first(), k) < 0 {
                assert(false);
            }
        }
    } else if entry_key(s[0]) == k {
        assert(entry_key(t[0]) == k);
        lemma_find_sig_props(t, k);
        if find_sig(t, k) < 0 {
            assert(entry_key(t[0]) != k);
        }
    } else {
        assert(t[0] == s[0]);
        assert(t.drop_first() =~= s.drop_first().remove(f - 1));
        lemma_find_sig_remove(s.drop_first(), f - 1, k);
        lemma_find_sig_props(t.drop_first(), k);
        lemma_find_sig_props(t, k);
        if find_sig(t, k) < 0 {
            let w = find_sig(t.drop_first(), k);
            assert(entry_key(t.drop_first()[w]) == k);
            assert(forall|j: int| 1 <= j < t.len() ==> t[j] == t.drop_first()[j - 1]);
            assert(false);
        }
    }
}

/// A fresh insert grows the lane by one and keeps it free of stale
/// entries.
pub proof fn lemma_lane_live_insert_bid(l: OrderlistV, n: OrderNode)
    requires
        lane_live(l),
        !key_in_lane(l, sig_key_of(n)),
    ensures
        lane_live(ol_insert_bid(l, n)),
        heap_size(ol_insert_bid(l, n)) == heap_size(l) + 1,
{
    lemma_insert_index_props(l.bid_dir, l.bids, n);
    let idx = insert_index(l.bid_dir, l.bids, n);
    let t = insert_sorted_spec(l.bid_dir, l.bids, n);
    let l2 = ol_insert_bid(l, n);
    assert(forall|i: int|
        0 <= i < t.len() ==> #[trigger] t[i] == if i < idx {
            l.bids[i]
        } else if i == idx {
            n
        } else {
            l.bids[i - 1]
        });
    assert forall|i: int| 0 <= i < t.len() implies find_sig(
        l2.sigs,
        sig_key_of(#[trigger] t[i]),
    ) >= 0 by {
        lemma_find_sig_upsert(l.sigs, crate::order_list::sig_entry_of(n), sig_key_of(t[i]));
    }
    assert forall|j: int| 0 <= j < l.asks.len() implies find_sig(
        l2.sigs,
        sig_key_of(#[trigger] l.asks[j]),
    ) >= 0 by {
        lemma_find_sig_upsert(l.sigs, crate::order_list::sig_entry_of(n), sig_key_of(l.asks[j]));
    }
}

pub proof fn lemma_lane_live_insert_ask(l: OrderlistV, n: OrderNode)
    requires
        lane_live(l),
        !key_in_lane(l, sig_key_of(n)),
    ensures
        lane_live(ol_insert_ask(l, n)),
        heap_size(ol_insert_ask(l, n)) == heap_size(l) + 1,
{
    lemma_insert_index_props(l.ask_dir, l.asks, n);
    let idx = insert_index(l.ask_dir, l.asks, n);
    let t = insert_sorted_spec(l.ask_dir, l.asks, n);
    let l2 = ol_insert_ask(l, n);
    assert(forall|i: int|
        0 <= i < t.len() ==> #[trigger] t[i] == if i < idx {
            l.asks[i]
        } else if i == idx {
            n
        } else {
            l.asks[i - 1]
        });
    assert forall|i: int| 0 <= i < t.len() implies find_sig(
        l2.sigs,
        sig_key_of(#[trigger] t[i]),
    ) >= 0 by {
        lemma_find_sig_upsert(l.sigs, crate::order_list::sig_entry_of(n), sig_key_of(t[i]));
    }
    assert forall|j: int| 0 <= j < l.bids.len() implies find_sig(
        l2.sigs,
        sig_key_of(#[trigger] l.bids[j]),
    ) >= 0 by {
        lemma_find_sig_upsert(l.sigs, crate::order_list::sig_entry_of(n), sig_key_of(l.bids[j]));
    }
}

/// On a lane without stale entries a pop removes exactly one heap entry,
/// or nothing from an empty heap, and leaves the lane stale-free.
pub proof fn lemma_lane_live_pop_bid(l: OrderlistV)
    requires
        lane_live(l),
    ensures
        lane_live(crate::order_list::ol_pop_bid(l).1),
        heap_size(crate::order_list::ol_pop_bid(l).1) == heap_size(l) - (
        if crate::order_list::ol_pop_bid(l).0 is Some {
            1int
        } else {
            0int
        }),
        crate::order_list::ol_pop_bid(l).0 is Some <==> l.bids.len() > 0,
{
    lemma_pop_on_live_lane(l.bids, l.sigs);
    let o = get_best_spec(l.bids, l.sigs);
    let l2 = crate::order_list::ol_pop_bid(l).1;
    if l.bids.len() > 0 {
        let k = lemma_get_best_char(l.bids, l.sigs);
        assert(k == 0) by {
            if k > 0 {
                assert(find_sig(l.sigs, sig_key_of(l.bids[0])) == -1);
            }
        }
        let f = find_sig(l.sigs, sig_key_of(l.bids[0]));
        lemma_find_sig_props(l.sigs, sig_key_of(l.bids[0]));
        assert(o.heap =~= l.bids.skip(1));
        assert(forall|i: int| 0 <= i < o.heap.len() ==> #[trigger] o.heap[i] == l.bids[i + 1]);
        assert forall|i: int| 0 <= i < o.heap.len() implies find_sig(
            o.sigs,
            sig_key_of(#[trigger] o.heap[i]),
        ) >= 0 by {
            assert(sig_key_of(o.heap[i]) != sig_key_of(l.bids[0]));
            lemma_find_sig_remove(l.sigs, f, sig_key_of(o.heap[i]));
        }
        assert forall|j: int| 0 <= j < l.asks.len() implies find_sig(
            o.sigs,
            sig_key_of(#[trigger] l.asks[j]),
        ) >= 0 by {
            assert(sig_key_of(l.asks[j]) != sig_key_of(l.bids[0]));
            lemma_find_sig_remove(l.sigs, f, sig_key_of(l.asks[j]));
        }
    }
}

pub proof fn lemma_lane_live_pop_ask(l: OrderlistV)
    requires
        lane_live(l),
    ensures
        lane_live(crate::order_list::ol_pop_ask(l).1),
        heap_size(crate::order_list::ol_pop_ask(l).1) == heap_size(l) - (
        if crate::order_list::ol_pop_ask(l).0 is Some {
            1int
        } else {
            0int
        }),
        crate::order_list::ol_pop_ask(l).0 is Some <==> l.asks.len() > 0,
{
    lemma_pop_on_live_lane(l.asks, l.sigs);
    let o = get_best_spec(l.asks, l.sigs);
    let l2 = crate::order_list::ol_pop_ask(l).1;
    if l.asks.len() > 0 {
        let k = lemma_get_best_char(l.asks, l.sigs);
        assert(k == 0) by {
            if k > 0 {
                assert(find_sig(l.sigs, sig_key_of(l.asks[0])) == -1);
            }
        }
        let f = find_sig(l.sigs, sig_key_of(l.asks[0]));
        lemma_find_sig_props(l.sigs, sig_key_of(l.asks[0]));
        assert(o.heap =~= l.asks.skip(1));
        assert(forall|i: int| 0 <= i < o.heap.len() ==> #[trigger] o.heap[i] == l.asks[i + 1]);
        assert forall|i: int| 0 <= i < o.heap.len() implies find_sig(
            o.sigs,
            sig_key_of(#[trigger] o.heap[i]),
        ) >= 0 by {
            assert(sig_key_of(o.heap[i]) != sig_key_of(l.asks[0]));
            lemma_find_sig_remove(l.sigs, f, sig_key_of(o.heap[i]));
        }
        assert forall|j: int| 0 <= j < l.bids.len() implies find_sig(
            o.sigs,
            sig_key_of(#[trigger] l.bids[j]),
        ) >= 0 by {
            assert(sig_key_of(l.bids[j]) != sig_key_of(l.asks[0]));
            lemma_find_sig_remove(l.sigs, f, sig_key_of(l.bids[j]));
        }
    }
}

/// The size law over whole traces: run any sequence of inserts and pops
/// on a lane with no stale entries, with every inserted signature fresh
/// at its moment; the heap size then equals the starting size plus the
/// number of inserts minus the number of pops that handed a node out.
pub proof fn lemma_lane_size_counts(l: OrderlistV, ops: Seq<LaneOp>)
    requires
        lane_live(l),
        ops_fresh(l, ops),
    ensures
        lane_live(lane_run(l, ops)),
        heap_size(lane_run(l, ops)) == heap_size(l) + insert_count(ops) - pop_success_count(
            l,
            ops,
        ),
    decreases ops.len(),
{
    if ops.len() > 0 {
        match ops[0] {
            LaneOp::InsertBid(n) => {
                lemma_lane_live_insert_bid(l, n);
            },
            LaneOp::InsertAsk(n) => {
                lemma_lane_live_insert_ask(l, n);
            },
            LaneOp::PopBid => {
                lemma_lane_live_pop_bid(l);
            },
            LaneOp::PopAsk => {
                lemma_lane_live_pop_ask(l);
            },
        }
        lemma_lane_size_counts(lane_step(l, ops[0]), ops.drop_first());
    }
}

// ---------------------------------------------------------------------
// Consecutive pops come out best-first.
// ---------------------------------------------------------------------

/// Every index entry that shares a heap entry's signature holds that very
/// node: no heap entry has been shadowed by a re-insert.
pub open spec fn lane_unshadowed(heap: Seq<OrderNode>, sigs: Seq<SigEntry>) -> bool {
    forall|i: int, j: int|
        0 <= i < heap.len() && 0 <= j < sigs.len() && entry_key(#[trigger] sigs[j]) == sig_key_of(
            #[trigger] heap[i],
        ) ==> sigs[j].node == heap[i]
}

/// Two consecutive pops from a sorted, unshadowed bid heap hand out
/// non-increasing sort keys; on a heap of fixed-price orders, prices.
pub proof fn lemma_consecutive_pops_ordered(heap: Seq<OrderNode>, sigs: Seq<SigEntry>)
    requires
        lane_sorted(SortDirection::Descending, heap),
        lane_unshadowed(heap, sigs),
        get_best_spec(heap, sigs).popped is Some,
        get_best_spec(
            get_best_spec(heap, sigs).heap,
            get_best_spec(heap, sigs).sigs,
        ).popped is Some,
    ensures
        ({
            let n1 = get_best_spec(heap, sigs).popped->Some_0;
            let n2 = get_best_spec(
                get_best_spec(heap, sigs).heap,
                get_best_spec(heap, sigs).sigs,
            ).popped->Some_0;
            &&& sort_value_spec(n1.order) >= sort_value_spec(n2.order)
            &&& !crate::order::is_floating(n1.order) && !crate::order::is_floating(n2.order)
                ==> n1.order.price >= n2.order.price
        }),
{
    let o1 = get_best_spec(heap, sigs);
    let k1 = lemma_get_best_char(heap, sigs);
    lemma_find_sig_props(sigs, sig_key_of(heap[k1]));
    assert(o1.popped->Some_0 == heap[k1]);
    let o2 = get_best_spec(o1.heap, o1.sigs);
    let k2 = lemma_get_best_char(o1.heap, o1.sigs);
    let f2 = find_sig(o1.sigs, sig_key_of(o1.heap[k2]));
    lemma_find_sig_props(o1.sigs, sig_key_of(o1.heap[k2]));
    let f1 = find_sig(sigs, sig_key_of(heap[k1]));
    assert(o1.heap[k2] == heap[k1 + 1 + k2]);
    assert(o1.sigs[f2] == if f2 < f1 {
        sigs[f2]
    } else {
        sigs[f2 + 1]
    });
    assert(o2.popped->Some_0 == o1.heap[k2]);
    assert(comes_before(SortDirection::Descending, heap[k1], heap[k1 + 1 + k2]));
}

// ---------------------------------------------------------------------
// Init orders never enter a lane.
// ---------------------------------------------------------------------

pub open spec fn lane_no_init(l: OrderlistV) -> bool {
    &&& forall|i: int|
        0 <= i < l.bids.len() ==> (#[trigger] l.bids[i]).order.status != OrderStatus::Init
    &&& forall|i: int|
        0 <= i < l.asks.len() ==> (#[trigger] l.asks[i]).order.status != OrderStatus::Init
}

pub open spec fn market_no_init(m: MarketV) -> bool {
    &&& lane_no_init(m.taking)
    &&& lane_no_init(m.resting)
    &&& lane_no_init(m.floating)
    &&& lane_no_init(m.market)
    &&& lane_no_init(m.trigger)
}

pub open spec fn markets_no_init(s: Seq<(u16, MarketV)>) -> bool {
    forall|i: int| 0 <= i < s.len() ==> market_no_init((#[trigger] s[i]).1)
}

/// No node with `Init` status stands in any lane of the book.
pub open spec fn no_init(d: DlobV) -> bool {
    markets_no_init(d.exchange.perp) && markets_no_init(d.exchange.spot)
}

pub proof fn lemma_insert_sorted_no_init(dir: SortDirection, s: Seq<OrderNode>, n: OrderNode)
    requires
        forall|i: int| 0 <= i < s.len() ==> (#[trigger] s[i]).order.status != OrderStatus::Init,
        n.order.status != OrderStatus::Init,
    ensures
        forall|i: int|
            0 <= i < insert_sorted_spec(dir, s, n).len() ==> (#[trigger] insert_sorted_spec(
                dir,
                s,
                n,
            )[i]).order.status != OrderStatus::Init,
{
    lemma_insert_index_props(dir, s, n);
    let t = insert_sorted_spec(dir, s, n);
    let idx = insert_index(dir, s, n);
    assert forall|i: int| 0 <= i < t.len() implies (#[trigger] t[i]).order.status
        != OrderStatus::Init by {
        if i < idx {
            assert(t[i] == s[i]);
        } else if i == idx {
            assert(t[i] == n);
        } else {
            assert(t[i] == s[i - 1]);
        }
    }
}

pub proof fn lemma_lane_insert_no_init(l: OrderlistV, n: OrderNode)
    requires
        lane_no_init(l),
        n.order.status != OrderStatus::Init,
    ensures
        lane_no_init(ol_insert_bid(l, n)),
        lane_no_init(ol_insert_ask(l, n)),
{
    lemma_insert_sorted_no_init(l.bid_dir, l.bids, n);
    lemma_insert_sorted_no_init(l.ask_dir, l.asks, n);
}

pub proof fn lemma_market_insert_no_init(
    m: MarketV,
    kind: crate::order::NodeKind,
    side: crate::order::Side,
    n: OrderNode,
)
    requires
        market_no_init(m),
        n.order.status != OrderStatus::Init,
    ensures
        market_no_init(crate::market::market_insert(m, kind, side, n)),
{
    lemma_lane_insert_no_init(crate::market::market_lane(m, kind), n);
}

/// One insert keeps the book free of `Init` nodes: the classification
/// path never books an `Init` order.
pub proof fn lemma_insert_order_no_init(
    d: DlobV,
    order: crate::order::Order,
    user_account: [u8; 32],
    slot: u64,
)
    requires
        no_init(d),
    ensures
        no_init(crate::dlob::insert_order_spec(d, order, user_account, slot)),
{
    if order.status != OrderStatus::Init {
        let kind = crate::order::classify_kind_spec(order, slot);
        let side = crate::order::classify_side_spec(order);
        let node = OrderNode { order, user_account, kind };
        let mt = order.market_type;
        let s0 = crate::market::ex_map(d.exchange, mt);
        let s1 = crate::market::add_market_spec(s0, order.market_index);
        assert(markets_no_init(s1)) by {
            if crate::market::find_market(s0, order.market_index) < 0 {
                assert(forall|i: int| 0 <= i < s0.len() ==> s1[i] == s0[i]);
                assert(market_no_init(crate::market::market_empty()));
            }
        }
        crate::market::lemma_find_market_props(s0, order.market_index);
        if crate::market::find_market(s0, order.market_index) < 0 {
            crate::market::lemma_find_market_at(s0, order.market_index, s0.len() as int);
            assert(s1.last().0 == order.market_index);
            crate::market::lemma_find_market_at(s1, order.market_index, s1.len() - 1);
        }
        let i = crate::market::find_market(s1, order.market_index);
        crate::market::lemma_find_market_props(s1, order.market_index);
        assert(0 <= i < s1.len());
        assert(market_no_init(s1[i].1));
        let s2 = s1.update(i, (order.market_index, crate::market::market_insert(s1[i].1, kind, side, node)));
        assert(markets_no_init(s2)) by {
            lemma_market_insert_no_init(s1[i].1, kind, side, node);
            assert(forall|j: int| 0 <= j < s2.len() && j != i ==> s2[j] == s1[j]);
        }
    }
}

/// Re-inserting a user's orders keeps the book free of `Init` nodes.
pub proof fn lemma_update_user_no_init(
    d: DlobV,
    key: [u8; 32],
    orders: Seq<crate::order::Order>,
    slot: u64,
)
    requires
        no_init(d),
    ensures
        no_init(crate::dlob::update_user_rec(d, key, orders, slot)),
    decreases orders.len(),
{
    if orders.len() > 0 {
        lemma_insert_order_no_init(d, orders[0], key, slot);
        lemma_update_user_no_init(
            crate::dlob::insert_order_spec(d, orders[0], key, slot),
            key,
            orders.drop_first(),
            slot,
        );
    }
}

/// A full rebuild yields a book with no `Init` node in any lane.
pub proof fn lemma_build_no_init(users: Seq<([u8; 32], crate::order::User)>, slot: u64)
    ensures
        no_init(build_spec(users, slot)),
{
    lemma_build_rec_no_init(crate::dlob::dlob_clear_spec(), users, slot);
}

pub proof fn lemma_build_rec_no_init(
    d: DlobV,
    users: Seq<([u8; 32], crate::order::User)>,
    slot: u64,
)
    requires
        no_init(d),
    ensures
        no_init(crate::dlob::build_rec(d, users, slot)),
    decreases users.len(),
{
    if users.len() > 0 {
        lemma_update_user_no_init(d, users[0].0, users[0].1.orders@, slot);
        lemma_build_rec_no_init(
            crate::dlob::update_user_rec(d, users[0].0, users[0].1.orders@, slot),
            users.drop_first(),
            slot,
        );
    }
}

// ---------------------------------------------------------------------
// Promotion: monotone across slots, idempotent at one slot.
// ---------------------------------------------------------------------

/// Nothing retained in a taking lane at `slot` is resting at `slot`, and
/// whatever is resting at `slot` has moved into the resting lane.
pub proof fn lemma_promote_bids_shape(bids: Seq<OrderNode>, resting: OrderlistV, slot: u64)
    ensures
        ({
            let r = promote_bids(bids, resting, slot);
            &&& forall|i: int|
                0 <= i < r.0.len() ==> !is_resting_limit_order_spec(
                    (#[trigger] r.0[i]).order,
                    slot,
                )
            &&& forall|i: int|
                0 <= i < bids.len() && is_resting_limit_order_spec(
                    (#[trigger] bids[i]).order,
                    slot,
                ) ==> r.1.bids.contains(bids[i])
            &&& forall|x: OrderNode| resting.bids.contains(x) ==> r.1.bids.contains(x)
        }),
    decreases bids.len(),
{
    if bids.len() > 0 {
        if is_resting_limit_order_spec(bids[0].order, slot) {
            lemma_promote_bids_shape(bids.drop_first(), ol_insert_bid(resting, bids[0]), slot);
            lemma_insert_sorted_contains(resting.bid_dir, resting.bids, bids[0]);
            assert(forall|j: int|
                1 <= j < bids.len() ==> bids[j] == bids.drop_first()[j - 1]);
            assert(ol_insert_bid(resting, bids[0]).bids.contains(bids[0]));
        } else {
            lemma_promote_bids_shape(bids.drop_first(), resting, slot);
            let r = promote_bids(bids, resting, slot);
            let rr = promote_bids(bids.drop_first(), resting, slot);
            assert(forall|j: int|
                1 <= j < bids.len() ==> bids[j] == bids.drop_first()[j - 1]);
            assert(forall|i: int| 0 <= i < rr.0.len() ==> r.0[i + 1] == rr.0[i]);
            assert(r.0[0] == bids[0]);
        }
    }
}

pub proof fn lemma_promote_asks_shape(asks: Seq<OrderNode>, resting: OrderlistV, slot: u64)
    ensures
        ({
            let r = promote_asks(asks, resting, slot);
            &&& forall|i: int|
                0 <= i < r.0.len() ==> !is_resting_limit_order_spec(
                    (#[trigger] r.0[i]).order,
                    slot,
                )
            &&& forall|i: int|
                0 <= i < asks.len() && is_resting_limit_order_spec(
                    (#[trigger] asks[i]).order,
                    slot,
                ) ==> r.1.asks.contains(asks[i])
            &&& forall|x: OrderNode| resting.asks.contains(x) ==> r.1.asks.contains(x)
        }),
    decreases asks.len(),
{
    if asks.len() > 0 {
        if is_resting_limit_order_spec(asks[0].order, slot) {
            lemma_promote_asks_shape(asks.drop_first(), ol_insert_ask(resting, asks[0]), slot);
            lemma_insert_sorted_contains(resting.ask_dir, resting.asks, asks[0]);
            assert(forall|j: int|
                1 <= j < asks.len() ==> asks[j] == asks.drop_first()[j - 1]);
            assert(ol_insert_ask(resting, asks[0]).asks.contains(asks[0]));
        } else {
            lemma_promote_asks_shape(asks.drop_first(), resting, slot);
            let r = promote_asks(asks, resting, slot);
            let rr = promote_asks(asks.drop_first(), resting, slot);
            assert(forall|j: int|
                1 <= j < asks.len() ==> asks[j] == asks.drop_first()[j - 1]);
            assert(forall|i: int| 0 <= i < rr.0.len() ==> r.0[i + 1] == rr.0[i]);
            assert(r.0[0] == asks[0]);
        }
    }
}

/// Promoting the ask side never touches the resting lane's bid heap.
pub proof fn lemma_promote_asks_keeps_bids(asks: Seq<OrderNode>, resting: OrderlistV, slot: u64)
    ensures
        promote_asks(asks, resting, slot).1.bids == resting.bids,
    decreases asks.len(),
{
    if asks.len() > 0 {
        if is_resting_limit_order_spec(asks[0].order, slot) {
            lemma_promote_asks_keeps_bids(asks.drop_first(), ol_insert_ask(resting, asks[0]), slot);
        } else {
            lemma_promote_asks_keeps_bids(asks.drop_first(), resting, slot);
        }
    }
}

/// A sorted insert holds the old entries and the new one.
pub proof fn lemma_insert_sorted_contains(dir: SortDirection, s: Seq<OrderNode>, n: OrderNode)
    ensures
        insert_sorted_spec(dir, s, n).contains(n),
        forall|x: OrderNode| s.contains(x) ==> insert_sorted_spec(dir, s, n).contains(x),
{
    lemma_insert_index_props(dir, s, n);
    let idx = insert_index(dir, s, n);
    let t = s.insert(idx, n);
    assert(t[idx] == n);
    assert forall|x: OrderNode| s.contains(x) implies t.contains(x) by {
        let i = choose|i: int| 0 <= i < s.len() && s[i] == x;
        if i < idx {
            assert(t[i] == x);
        } else {
            assert(t[i + 1] == x);
        }
    }
}

/// Resting eligibility is monotone in the slot.
pub proof fn lemma_is_resting_monotone(o: crate::order::Order, s1: u64, s2: u64)
    requires
        s1 <= s2,
        is_resting_limit_order_spec(o, s1),
    ensures
        is_resting_limit_order_spec(o, s2),
{
}

/// No taking-lane node of the book is resting at the high-water mark.
pub open spec fn taking_consistent(d: DlobV) -> bool {
    &&& forall|i: int|
        0 <= i < d.exchange.perp.len() ==> market_taking_consistent(
            (#[trigger] d.exchange.perp[i]).1,
            d.max_slot,
        )
    &&& forall|i: int|
        0 <= i < d.exchange.spot.len() ==> market_taking_consistent(
            (#[trigger] d.exchange.spot[i]).1,
            d.max_slot,
        )
}

pub open spec fn market_taking_consistent(m: MarketV, slot: u64) -> bool {
    &&& forall|i: int|
        0 <= i < m.taking.bids.len() ==> !is_resting_limit_order_spec(
            (#[trigger] m.taking.bids[i]).order,
            slot,
        )
    &&& forall|i: int|
        0 <= i < m.taking.asks.len() ==> !is_resting_limit_order_spec(
            (#[trigger] m.taking.asks[i]).order,
            slot,
        )
}

/// Promotion leaves no order in a taking lane that is resting at the new
/// high-water mark.
pub proof fn lemma_promote_consistent(d: DlobV, slot: u64)
    requires
        taking_consistent(d),
    ensures
        taking_consistent(promote_spec(d, slot)),
        promote_spec(d, slot).max_slot == if slot <= d.max_slot {
            d.max_slot
        } else {
            slot
        },
{
    if slot > d.max_slot {
        let d2 = promote_spec(d, slot);
        assert forall|i: int| 0 <= i < d2.exchange.perp.len() implies market_taking_consistent(
            (#[trigger] d2.exchange.perp[i]).1,
            slot,
        ) by {
            let m = d.exchange.perp[i].1;
            assert(d2.exchange.perp[i].1 == market_promote(m, slot));
            lemma_promote_bids_shape(m.taking.bids, m.resting, slot);
            lemma_promote_asks_shape(m.taking.asks, promote_bids(m.taking.bids, m.resting, slot).1, slot);
        }
        assert forall|i: int| 0 <= i < d2.exchange.spot.len() implies market_taking_consistent(
            (#[trigger] d2.exchange.spot[i]).1,
            slot,
        ) by {
            let m = d.exchange.spot[i].1;
            assert(d2.exchange.spot[i].1 == market_promote(m, slot));
            lemma_promote_bids_shape(m.taking.bids, m.resting, slot);
            lemma_promote_asks_shape(m.taking.asks, promote_bids(m.taking.bids, m.resting, slot).1, slot);
        }
    }
}

/// What one market's promotion at `s2` achieves: every taking-lane
/// order resting at `s2` stands in the resting lane afterwards, and no
/// retained taking-lane order rests at `s2`.
pub open spec fn market_promotion_done(m1: MarketV, m2: MarketV, s2: u64) -> bool {
    &&& forall|j: int|
        0 <= j < m1.taking.bids.len() && is_resting_limit_order_spec(
            (#[trigger] m1.taking.bids[j]).order,
            s2,
        ) ==> m2.resting.bids.contains(m1.taking.bids[j])
    &&& forall|j: int|
        0 <= j < m1.taking.asks.len() && is_resting_limit_order_spec(
            (#[trigger] m1.taking.asks[j]).order,
            s2,
        ) ==> m2.resting.asks.contains(m1.taking.asks[j])
    &&& forall|j: int|
        0 <= j < m2.taking.bids.len() ==> !is_resting_limit_order_spec(
            (#[trigger] m2.taking.bids[j]).order,
            s2,
        )
    &&& forall|j: int|
        0 <= j < m2.taking.asks.len() ==> !is_resting_limit_order_spec(
            (#[trigger] m2.taking.asks[j]).order,
            s2,
        )
}

pub proof fn lemma_market_promote_moves(m: MarketV, s2: u64)
    ensures
        market_promotion_done(m, market_promote(m, s2), s2),
{
    let rb = promote_bids(m.taking.bids, m.resting, s2);
    lemma_promote_bids_shape(m.taking.bids, m.resting, s2);
    lemma_promote_asks_shape(m.taking.asks, rb.1, s2);
    lemma_promote_asks_keeps_bids(m.taking.asks, rb.1, s2);
}

/// Promotion across two slots `s1 <= s2`: in every market, every
/// taking-lane order of the intermediate book that rests at `s2` now
/// stands in its market's resting lane, and none remains taking.
pub proof fn lemma_promotion_monotone(d: DlobV, s1: u64, s2: u64)
    requires
        taking_consistent(d),
        s1 <= s2,
    ensures
        ({
            let d1 = promote_spec(d, s1);
            let d2 = promote_spec(d1, s2);
            &&& d2.exchange.perp.len() == d1.exchange.perp.len()
            &&& d2.exchange.spot.len() == d1.exchange.spot.len()
            &&& forall|i: int|
                0 <= i < d1.exchange.perp.len() ==> market_promotion_done(
                    (#[trigger] d1.exchange.perp[i]).1,
                    d2.exchange.perp[i].1,
                    s2,
                )
            &&& forall|i: int|
                0 <= i < d1.exchange.spot.len() ==> market_promotion_done(
                    (#[trigger] d1.exchange.spot[i]).1,
                    d2.exchange.spot[i].1,
                    s2,
                )
        }),
{
    let d1 = promote_spec(d, s1);
    let d2 = promote_spec(d1, s2);
    lemma_promote_consistent(d, s1);
    lemma_promote_consistent(d1, s2);
    if s2 <= d1.max_slot {
        assert(d2 == d1);
        assert forall|i: int| 0 <= i < d1.exchange.perp.len() implies market_promotion_done(
            (#[trigger] d1.exchange.perp[i]).1,
            d2.exchange.perp[i].1,
            s2,
        ) by {
            lemma_market_no_resting_taking(d1.exchange.perp[i].1, s2, d1.max_slot);
        }
        assert forall|i: int| 0 <= i < d1.exchange.spot.len() implies market_promotion_done(
            (#[trigger] d1.exchange.spot[i]).1,
            d2.exchange.spot[i].1,
            s2,
        ) by {
            lemma_market_no_resting_taking(d1.exchange.spot[i].1, s2, d1.max_slot);
        }
    } else {
        assert forall|i: int| 0 <= i < d1.exchange.perp.len() implies market_promotion_done(
            (#[trigger] d1.exchange.perp[i]).1,
            d2.exchange.perp[i].1,
            s2,
        ) by {
            assert(d2.exchange.perp[i].1 == market_promote(d1.exchange.perp[i].1, s2));
            lemma_market_promote_moves(d1.exchange.perp[i].1, s2);
        }
        assert forall|i: int| 0 <= i < d1.exchange.spot.len() implies market_promotion_done(
            (#[trigger] d1.exchange.spot[i]).1,
            d2.exchange.spot[i].1,
            s2,
        ) by {
            assert(d2.exchange.spot[i].1 == market_promote(d1.exchange.spot[i].1, s2));
            lemma_market_promote_moves(d1.exchange.spot[i].1, s2);
        }
    }
}

/// In a market consistent at `mark`, no taking-lane order rests at any
/// slot up to `mark`: promotion is already done for such slots.
pub proof fn lemma_market_no_resting_taking(m: MarketV, s2: u64, mark: u64)
    requires
        s2 <= mark,
        market_taking_consistent(m, mark),
    ensures
        market_promotion_done(m, m, s2),
{
    assert forall|j: int|
        0 <= j < m.taking.bids.len() implies !is_resting_limit_order_spec(
        (#[trigger] m.taking.bids[j]).order,
        s2,
    ) by {
        if is_resting_limit_order_spec(m.taking.bids[j].order, s2) {
            lemma_is_resting_monotone(m.taking.bids[j].order, s2, mark);
        }
    }
    assert forall|j: int|
        0 <= j < m.taking.asks.len() implies !is_resting_limit_order_spec(
        (#[trigger] m.taking.asks[j]).order,
        s2,
    ) by {
        if is_resting_limit_order_spec(m.taking.asks[j].order, s2) {
            lemma_is_resting_monotone(m.taking.asks[j].order, s2, mark);
        }
    }
}

/// Promoting twice at one slot is promoting once.
pub proof fn lemma_promote_idempotent(d: DlobV, slot: u64)
    ensures
        promote_spec(promote_spec(d, slot), slot) == promote_spec(d, slot),
{
}

/// A slot at or below the high-water mark changes nothing, and the mark
/// never moves backward.
pub proof fn lemma_promote_no_backward(d: DlobV, slot: u64)
    ensures
        slot <= d.max_slot ==> promote_spec(d, slot) == d,
        promote_spec(d, slot).max_slot >= d.max_slot,
{
}


// ---------------------------------------------------------------------
// The merged book is a permutation of the drained lanes.
// ---------------------------------------------------------------------

/// A merge insertion adds exactly its node to the sequence's multiset.
pub proof fn lemma_merge_insert_multiset(
    ascending: bool,
    oracle: crate::order::OraclePriceData,
    s: Seq<OrderNode>,
    n: OrderNode,
)
    ensures
        crate::dlob::merge_insert(ascending, oracle, s, n).to_multiset() =~= s.to_multiset().insert(
            n,
        ),
{
    broadcast use vstd::seq_lib::group_to_multiset_ensures;

    crate::dlob::lemma_merge_insert_index_props(ascending, oracle, s, n);
    let i = crate::dlob::merge_insert_index(ascending, oracle, s, n);
    let t = s.insert(i, n);
    assert(t.remove(i) =~= s);
    assert(t[i] == n);
    assert(t.contains(n));
    assert(t.remove(i).to_multiset() =~= t.to_multiset().remove(t[i]));
    assert(t.to_multiset() =~= s.to_multiset().insert(n)) by {
        assert(s.to_multiset() =~= t.to_multiset().remove(n));
        assert(t.to_multiset().count(n) > 0);
    }
}

/// The merged-book sort is a permutation: no node appears or vanishes.
pub proof fn lemma_merge_sort_multiset(
    ascending: bool,
    oracle: crate::order::OraclePriceData,
    s: Seq<OrderNode>,
)
    ensures
        crate::dlob::merge_sort_spec(ascending, oracle, s).to_multiset() =~= s.to_multiset(),
    decreases s.len(),
{
    broadcast use vstd::seq_lib::group_to_multiset_ensures;

    if s.len() > 0 {
        lemma_merge_sort_multiset(ascending, oracle, s.drop_last());
        lemma_merge_insert_multiset(
            ascending,
            oracle,
            crate::dlob::merge_sort_spec(ascending, oracle, s.drop_last()),
            s.last(),
        );
        assert(s =~= s.drop_last().push(s.last()));
        assert(s.drop_last().push(s.last()).to_multiset() =~= s.drop_last().to_multiset().insert(
            s.last(),
        ));
    }
}

// ---------------------------------------------------------------------
// Rebuild determinism, empty-lane pops, stale skips.
// ---------------------------------------------------------------------

/// Two rebuilds from one snapshot at one slot give equal books, whatever
/// the books held before.
pub proof fn lemma_build_deterministic(
    d1: DlobV,
    d2: DlobV,
    users: Seq<([u8; 32], crate::order::User)>,
    slot: u64,
)
    requires
        d1 == build_spec(users, slot),
        d2 == build_spec(users, slot),
    ensures
        d1 == d2,
{
}

/// A pop from an empty heap hands out nothing and changes nothing.
pub proof fn lemma_pop_empty_lane(sigs: Seq<SigEntry>)
    ensures
        get_best_spec(Seq::empty(), sigs) == (PopOutcome {
            popped: None::<OrderNode>,
            heap: Seq::empty(),
            sigs,
        }),
{
}

/// A heap entry whose signature is gone is skipped transparently: the pop
/// behaves as if the entry were not there.
pub proof fn lemma_pop_skips_stale(heap: Seq<OrderNode>, sigs: Seq<SigEntry>)
    requires
        heap.len() > 0,
        find_sig(sigs, sig_key_of(heap[0])) == -1,
    ensures
        get_best_spec(heap, sigs) == get_best_spec(heap.drop_first(), sigs),
{
}

} // verus!
