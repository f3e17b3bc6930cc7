//! A price-time priority order book for one instrument.
//!
//! Resting orders live in a slot pool. Each side maps a price to a level, and
//! each level threads its orders into a doubly-linked FIFO chain whose links
//! are slot indices. An index from order id to slot finds an order in
//! constant time.
//!
//! The contracts speak of the book through two views: [`OrderBook::orders`],
//! the resting orders by id, and [`OrderBook::queue`], the ids waiting at one
//! price on one side, oldest first.

use vstd::prelude::*;
use vstd::set_lib::*;
use vstd::std_specs::iter::IteratorSpec;
use std::collections::HashMap;
use crate::common::types::{ClientId, OrderId, Price, Priority, Qty, Side, TickerId};
use crate::common::mem_pool::{MemPool, PoolPtr};
use crate::common::sums::{lemma_sum_insert, lemma_sum_remove, lemma_sum_same, sum_over};

verus! {

broadcast use vstd::std_specs::hash::group_hash_axioms;

/// The number of orders that one book can hold.
pub const ORDER_POOL_CAPACITY: usize = 65536;

/// A resting order. The two links thread it into its level's chain: they
/// are slot indices of the book's pool, `None` at either end of the chain.
#[derive(Clone, Copy, Debug)]
pub struct Order {
    pub order_id: OrderId,
    pub client_id: ClientId,
    pub ticker_id: TickerId,
    pub side: Side,
    pub price: Price,
    pub qty: Qty,
    pub priority: Priority,
    pub prev_idx: Option<usize>,
    pub next_idx: Option<usize>,
}

/// What an order says, without the links that place it in its chain.
pub struct OrderData {
    pub order_id: OrderId,
    pub client_id: ClientId,
    pub ticker_id: TickerId,
    pub side: Side,
    pub price: Price,
    pub qty: Qty,
    pub priority: Priority,
}

impl View for Order {
    type V = OrderData;

    open spec fn view(&self) -> OrderData {
        OrderData {
            order_id: self.order_id,
            client_id: self.client_id,
            ticker_id: self.ticker_id,
            side: self.side,
            price: self.price,
            qty: self.qty,
            priority: self.priority,
        }
    }
}

impl Default for Order {
    fn default() -> (r: Order)
        ensures
            r.order_id == 0,
            r.qty == 0,
    {
        Order {
            order_id: 0,
            client_id: 0,
            ticker_id: 0,
            side: Side::Buy,
            price: 0,
            qty: 0,
            priority: 0,
            prev_idx: None,
            next_idx: None,
        }
    }
}

/// All resting orders at one price on one side.
#[derive(Clone, Copy, Debug)]
pub struct PriceLevel {
    price: Price,
    total_qty: u64,
    head_idx: Option<usize>,
    tail_idx: Option<usize>,
    order_count: usize,
}

impl PriceLevel {
    /// The price of this level.
    pub closed spec fn spec_price(&self) -> Price {
        self.price
    }

    /// The sum of the remaining quantities of the orders at this level.
    pub closed spec fn spec_total_qty(&self) -> u64 {
        self.total_qty
    }

    /// The number of orders at this level.
    pub closed spec fn spec_order_count(&self) -> usize {
        self.order_count
    }

    /// Returns the price of this level.
    pub fn price(&self) -> (r: Price)
        ensures
            r == self.spec_price(),
    {
        self.price
    }

    /// Returns the total quantity at this level. It is wider than a single
    /// order's quantity, so that a full book cannot overflow it.
    pub fn total_qty(&self) -> (r: u64)
        ensures
            r == self.spec_total_qty(),
    {
        self.total_qty
    }

    /// Returns the number of orders at this level.
    pub fn order_count(&self) -> (r: usize)
        ensures
            r == self.spec_order_count(),
    {
        self.order_count
    }

    /// Returns true if the level has no orders.
    pub fn is_empty(&self) -> (r: bool)
        ensures
            r == (self.spec_order_count() == 0),
    {
        self.order_count == 0
    }
}

/// The sum of the quantities of the orders in the slots that `chain` lists.
pub open spec fn chain_qty(slots: Seq<Order>, chain: Seq<int>) -> int
    decreases chain.len(),
{
    if chain.len() == 0 {
        0
    } else {
        chain_qty(slots, chain.drop_last()) + slots[chain.last()].qty
    }
}

/// The sum of the quantities of the orders that `ids` names in `orders`.
pub open spec fn queue_qty(orders: Map<OrderId, OrderData>, ids: Seq<OrderId>) -> int
    decreases ids.len(),
{
    if ids.len() == 0 {
        0
    } else {
        queue_qty(orders, ids.drop_last()) + orders[ids.last()].qty
    }
}

/// One level and its chain agree: the chain is a proper doubly-linked list of
/// orders of this side and price, oldest first, and the level's aggregates
/// are those of the chain.
spec fn chain_ok(slots: Seq<Order>, chain: Seq<int>, lvl: PriceLevel, side: Side, price: Price) -> bool {
    &&& chain.len() > 0
    &&& lvl.order_count == chain.len()
    &&& lvl.price == price
    &&& lvl.head_idx == Some(chain[0] as usize)
    &&& lvl.tail_idx == Some(chain.last() as usize)
    &&& lvl.total_qty == chain_qty(slots, chain)
    &&& slots[chain[0]].prev_idx is None
    &&& slots[chain.last()].next_idx is None
    &&& forall|i: int|
        0 <= i < chain.len() ==> {
            &&& 0 <= #[trigger] chain[i] < slots.len()
            &&& slots[chain[i]].side == side
            &&& slots[chain[i]].price == price
        }
    &&& forall|i: int, j: int|
        0 <= i && j == i + 1 && j < chain.len() ==> {
            &&& slots[#[trigger] chain[i]].next_idx == Some(chain[j] as usize)
            &&& slots[#[trigger] chain[j]].prev_idx == Some(chain[i] as usize)
        }
    &&& forall|i: int, j: int|
        0 <= i < j < chain.len() ==> slots[#[trigger] chain[i]].priority < slots[#[trigger] chain[j]].priority
}

spec fn in_chain(chains: Map<Price, Seq<int>>, price: Price, slot: int) -> bool {
    chains.contains_key(price) && chains[price].contains(slot)
}

/// One side of the book: a level exists exactly where a chain does, and each
/// level agrees with its chain.
spec fn side_ok(
    slots: Seq<Order>,
    levels: Map<Price, PriceLevel>,
    chains: Map<Price, Seq<int>>,
    side: Side,
) -> bool {
    &&& forall|p: Price| levels.contains_key(p) <==> #[trigger] chains.contains_key(p)
    &&& forall|p: Price| #[trigger]
        chains.contains_key(p) ==> chain_ok(slots, chains[p], levels[p], side, p)
}

proof fn lemma_chain_qty_same(a: Seq<Order>, b: Seq<Order>, chain: Seq<int>)
    requires
        forall|i: int| 0 <= i < chain.len() ==> a[#[trigger] chain[i]].qty == b[chain[i]].qty,
    ensures
        chain_qty(a, chain) == chain_qty(b, chain),
    decreases chain.len(),
{
    if chain.len() > 0 {
        let rest = chain.drop_last();
        assert forall|i: int| 0 <= i < rest.len() implies a[#[trigger] rest[i]].qty
            == b[rest[i]].qty by {
            assert(rest[i] == chain[i]);
        }
        lemma_chain_qty_same(a, b, rest);
        assert(chain.last() == chain[chain.len() - 1]);
    }
}

proof fn lemma_chain_qty_push(slots: Seq<Order>, chain: Seq<int>, slot: int)
    ensures
        chain_qty(slots, chain.push(slot)) == chain_qty(slots, chain) + slots[slot].qty,
{
    assert(chain.push(slot).drop_last() =~= chain);
}

proof fn lemma_chain_qty_remove(slots: Seq<Order>, chain: Seq<int>, k: int)
    requires
        0 <= k < chain.len(),
    ensures
        chain_qty(slots, chain.remove(k)) == chain_qty(slots, chain) - slots[chain[k]].qty,
    decreases chain.len(),
{
    if k == chain.len() - 1 {
        assert(chain.remove(k) =~= chain.drop_last());
    } else {
        let rest = chain.drop_last();
        lemma_chain_qty_remove(slots, rest, k);
        assert(chain.remove(k).drop_last() =~= rest.remove(k));
        assert(chain.remove(k).last() == chain.last());
    }
}

proof fn lemma_chain_qty_bound(slots: Seq<Order>, chain: Seq<int>)
    ensures
        0 <= chain_qty(slots, chain) <= chain.len() * 0xFFFF_FFFF,
    decreases chain.len(),
{
    if chain.len() > 0 {
        lemma_chain_qty_bound(slots, chain.drop_last());
    }
}

proof fn lemma_chain_distinct(slots: Seq<Order>, chain: Seq<int>, lvl: PriceLevel, side: Side, price: Price)
    requires
        chain_ok(slots, chain, lvl, side, price),
    ensures
        chain.no_duplicates(),
{
    assert forall|i: int, j: int| 0 <= i < chain.len() && 0 <= j < chain.len() && i != j implies chain[i]
        != chain[j] by {
        if i < j {
            assert(slots[chain[i]].priority < slots[chain[j]].priority);
        } else {
            assert(slots[chain[j]].priority < slots[chain[i]].priority);
        }
    }
}

/// The parts of a book that its invariant relates, as plain values.
ghost struct BookState {
    ticker: TickerId,
    next_priority: Priority,
    slots: Seq<Order>,
    alloc: Set<int>,
    ids: Map<OrderId, usize>,
    bid_levels: Map<Price, PriceLevel>,
    ask_levels: Map<Price, PriceLevel>,
    bid_chains: Map<Price, Seq<int>>,
    ask_chains: Map<Price, Seq<int>>,
}

impl BookState {
    spec fn levels_of(self, side: Side) -> Map<Price, PriceLevel> {
        match side {
            Side::Buy => self.bid_levels,
            Side::Sell => self.ask_levels,
        }
    }

    spec fn chains_of(self, side: Side) -> Map<Price, Seq<int>> {
        match side {
            Side::Buy => self.bid_chains,
            Side::Sell => self.ask_chains,
        }
    }

    /// Every id in the index names an allocated slot that holds that id.
    spec fn ids_ok(self) -> bool {
        forall|id: OrderId| #[trigger]
            self.ids.contains_key(id) ==> {
                &&& self.alloc.contains(self.ids[id] as int)
                &&& self.slots[self.ids[id] as int].order_id == id
            }
    }

    /// Every allocated slot is indexed under the id it holds, belongs to this
    /// book, is older than the next priority, and stands in the chain of its
    /// own side and price.
    spec fn slots_ok(self) -> bool {
        forall|s: int| #[trigger]
            self.alloc.contains(s) ==> {
                &&& 0 <= s < self.slots.len()
                &&& self.ids.contains_key(self.slots[s].order_id)
                &&& self.ids[self.slots[s].order_id] == s
                &&& self.slots[s].ticker_id == self.ticker
                &&& self.slots[s].priority < self.next_priority
                &&& in_chain(self.chains_of(self.slots[s].side), self.slots[s].price, s)
            }
    }

    /// Every slot in a chain is allocated.
    spec fn chains_allocated(self) -> bool {
        forall|side: Side, p: Price, i: int|
            self.chains_of(side).contains_key(p) && 0 <= i < self.chains_of(side)[p].len()
                ==> self.alloc.contains(#[trigger] self.chains_of(side)[p][i])
    }

    /// The ids of the resting orders of one side.
    spec fn ids_on(self, side: Side) -> Set<OrderId> {
        Set::new(
            |id: OrderId| self.ids.contains_key(id) && self.slots[self.ids[id] as int].side == side,
        )
    }

    spec fn qty_of(self) -> spec_fn(OrderId) -> int {
        |id: OrderId| self.slots[self.ids[id] as int].qty as int
    }

    spec fn level_qty(self, side: Side) -> spec_fn(Price) -> int {
        |p: Price| self.levels_of(side)[p].total_qty as int
    }

    spec fn level_count(self, side: Side) -> spec_fn(Price) -> int {
        |p: Price| self.levels_of(side)[p].order_count as int
    }

    /// The levels of a side account for its orders: their totals add up to
    /// the orders' quantities, and their counts to the number of orders.
    #[verifier::opaque]
    spec fn totals_ok(self, side: Side) -> bool {
        &&& self.levels_of(side).dom().finite()
        &&& self.ids.dom().finite()
        &&& sum_over(self.levels_of(side).dom(), self.level_qty(side)) == sum_over(
            self.ids_on(side),
            self.qty_of(),
        )
        &&& sum_over(self.levels_of(side).dom(), self.level_count(side)) == self.ids_on(side).len()
    }

    spec fn partial_ok(self) -> bool {
        &&& self.next_priority >= 1
        &&& self.ids_ok()
        &&& self.slots_ok()
        &&& self.chains_allocated()
        &&& side_ok(self.slots, self.bid_levels, self.bid_chains, Side::Buy)
        &&& side_ok(self.slots, self.ask_levels, self.ask_chains, Side::Sell)
    }

    spec fn ok(self) -> bool {
        &&& self.partial_ok()
        &&& self.totals_ok(Side::Buy)
        &&& self.totals_ok(Side::Sell)
    }

    spec fn orders(self) -> Map<OrderId, OrderData> {
        Map::new(|id: OrderId| self.ids.contains_key(id), |id: OrderId| self.slots[self.ids[id] as int]@)
    }

    spec fn queue(self, side: Side, price: Price) -> Seq<OrderId> {
        if self.chains_of(side).contains_key(price) {
            Seq::new(
                self.chains_of(side)[price].len(),
                |i: int| self.slots[self.chains_of(side)[price][i]].order_id,
            )
        } else {
            Seq::empty()
        }
    }
}

proof fn lemma_side_ok_of(st: BookState, side: Side)
    requires
        st.partial_ok(),
    ensures
        side_ok(st.slots, st.levels_of(side), st.chains_of(side), side),
{
}

/// A chain stays well-formed where none of its slots changed.
proof fn lemma_chain_frame(
    a: Seq<Order>,
    b: Seq<Order>,
    chain: Seq<int>,
    lvl: PriceLevel,
    side: Side,
    price: Price,
)
    requires
        chain_ok(a, chain, lvl, side, price),
        a.len() == b.len(),
        forall|i: int| 0 <= i < chain.len() ==> b[#[trigger] chain[i]] == a[chain[i]],
    ensures
        chain_ok(b, chain, lvl, side, price),
{
    lemma_chain_qty_same(a, b, chain);
    assert(chain.last() == chain[chain.len() - 1]);
    assert(b[chain[0]] == a[chain[0]]);
    assert(b[chain[chain.len() - 1]] == a[chain[chain.len() - 1]]);
    assert forall|i: int| 0 <= i < chain.len() implies {
        &&& 0 <= #[trigger] chain[i] < b.len()
        &&& b[chain[i]].side == side
        &&& b[chain[i]].price == price
    } by {
        assert(b[chain[i]] == a[chain[i]]);
    }
    assert forall|i: int, j: int| 0 <= i && j == i + 1 && j < chain.len() implies {
        &&& b[#[trigger] chain[i]].next_idx == Some(chain[j] as usize)
        &&& b[#[trigger] chain[j]].prev_idx == Some(chain[i] as usize)
    } by {
        assert(b[chain[i]] == a[chain[i]]);
        assert(b[chain[j]] == a[chain[j]]);
    }
    assert forall|i: int, j: int| 0 <= i < j < chain.len() implies b[#[trigger] chain[i]].priority
        < b[#[trigger] chain[j]].priority by {
        assert(b[chain[i]] == a[chain[i]]);
        assert(b[chain[j]] == a[chain[j]]);
    }
}

/// What `add_order` does to the parts of a book, for an id that is new and a
/// slot that was free.
spec fn added(
    pre: BookState,
    post: BookState,
    order: Order,
    slot: int,
) -> bool {
    let side = order.side;
    let price = order.price;
    let chains = pre.chains_of(side);
    let levels = pre.levels_of(side);
    &&& !pre.ids.contains_key(order.order_id)
    &&& !pre.alloc.contains(slot)
    &&& 0 <= slot < pre.slots.len()
    &&& pre.slots.len() <= usize::MAX
    &&& post.ticker == pre.ticker
    &&& order.ticker_id == pre.ticker
    &&& order.priority == pre.next_priority
    &&& post.next_priority == pre.next_priority + 1
    &&& order.next_idx is None
    &&& post.alloc == pre.alloc.insert(slot)
    &&& post.ids == pre.ids.insert(order.order_id, slot as usize)
    &&& post.levels_of(side.flipped()) == pre.levels_of(side.flipped())
    &&& post.chains_of(side.flipped()) == pre.chains_of(side.flipped())
    &&& if chains.contains_key(price) {
        let chain = chains[price];
        let tail = chain.last();
        let lvl = levels[price];
        &&& order.prev_idx == Some(tail as usize)
        &&& post.slots == pre.slots.update(
            tail,
            Order { next_idx: Some(slot as usize), ..pre.slots[tail] },
        ).update(slot, order)
        &&& post.chains_of(side) == chains.insert(price, chain.push(slot))
        &&& post.levels_of(side) == levels.insert(
            price,
            PriceLevel {
                price,
                total_qty: (lvl.total_qty + order.qty) as u64,
                head_idx: lvl.head_idx,
                tail_idx: Some(slot as usize),
                order_count: (lvl.order_count + 1) as usize,
            },
        )
    } else {
        &&& order.prev_idx is None
        &&& post.slots == pre.slots.update(slot, order)
        &&& post.chains_of(side) == chains.insert(price, seq![slot])
        &&& post.levels_of(side) == levels.insert(
            price,
            PriceLevel {
                price,
                total_qty: order.qty as u64,
                head_idx: Some(slot as usize),
                tail_idx: Some(slot as usize),
                order_count: 1,
            },
        )
    }
}

#[verifier::rlimit(40)]
proof fn lemma_added_target(pre: BookState, post: BookState, order: Order, slot: int)
    requires
        pre.partial_ok(),
        added(pre, post, order, slot),
        pre.chains_of(order.side).contains_key(order.price) ==> {
            &&& pre.levels_of(order.side)[order.price].total_qty + order.qty <= u64::MAX
            &&& pre.levels_of(order.side)[order.price].order_count + 1 <= usize::MAX
        },
    ensures
        chain_ok(
            post.slots,
            post.chains_of(order.side)[order.price],
            post.levels_of(order.side)[order.price],
            order.side,
            order.price,
        ),
{
    let side = order.side;
    let price = order.price;
    lemma_side_ok_of(pre, side);
    let chains = pre.chains_of(side);
    let nc = post.chains_of(side)[price];
    let nl = post.levels_of(side)[price];
    if chains.contains_key(price) {
        let chain = chains[price];
        let lvl = pre.levels_of(side)[price];
        let tail = chain.last();
        let n = chain.len() as int;
        assert(chain_ok(pre.slots, chain, lvl, side, price));
        assert(nc == chain.push(slot));
        assert(chain[n - 1] == tail);
        assert(pre.alloc.contains(chain[n - 1]));
        assert forall|i: int| 0 <= i < n implies #[trigger] chain[i] != slot by {
            assert(pre.alloc.contains(chain[i]));
        }
        assert forall|i: int| 0 <= i < n - 1 implies #[trigger] chain[i] != tail by {
            assert(pre.slots[chain[i]].priority < pre.slots[chain[n - 1]].priority);
        }
        assert forall|i: int| 0 <= i < n - 1 implies post.slots[#[trigger] chain[i]]
            == pre.slots[chain[i]] by {}
        assert(post.slots[tail] == Order { next_idx: Some(slot as usize), ..pre.slots[tail] });
        assert(post.slots[slot] == order);
        assert forall|i: int| 0 <= i < n implies post.slots[#[trigger] chain[i]].qty
            == pre.slots[chain[i]].qty by {
            if i < n - 1 {
                assert(post.slots[chain[i]] == pre.slots[chain[i]]);
            }
        }
        lemma_chain_qty_same(pre.slots, post.slots, chain);
        lemma_chain_qty_push(post.slots, chain, slot);
        assert(nc[0] == chain[0]);
        assert(nc.last() == slot);
        assert forall|i: int| 0 <= i < nc.len() implies {
            &&& 0 <= #[trigger] nc[i] < post.slots.len()
            &&& post.slots[nc[i]].side == side
            &&& post.slots[nc[i]].price == price
        } by {
            if i < n {
                assert(nc[i] == chain[i]);
                if i < n - 1 {
                    assert(post.slots[chain[i]] == pre.slots[chain[i]]);
                }
            }
        }
        assert forall|i: int, j: int| 0 <= i && j == i + 1 && j < nc.len() implies {
            &&& post.slots[#[trigger] nc[i]].next_idx == Some(nc[j] as usize)
            &&& post.slots[#[trigger] nc[j]].prev_idx == Some(nc[i] as usize)
        } by {
            assert(nc[i] == chain[i]);
            if j < n {
                assert(nc[j] == chain[j]);
                assert(pre.slots[chain[i]].next_idx == Some(chain[j] as usize));
                assert(pre.slots[chain[j]].prev_idx == Some(chain[i] as usize));
                assert(post.slots[chain[i]] == pre.slots[chain[i]]);
                if j < n - 1 {
                    assert(post.slots[chain[j]] == pre.slots[chain[j]]);
                }
            }
        }
        assert forall|i: int, j: int| 0 <= i < j < nc.len() implies post.slots[#[trigger] nc[i]].priority
            < post.slots[#[trigger] nc[j]].priority by {
            assert(nc[i] == chain[i]);
            assert(pre.alloc.contains(chain[i]));
            if i < n - 1 {
                assert(post.slots[chain[i]] == pre.slots[chain[i]]);
            }
            if j < n {
                assert(nc[j] == chain[j]);
                assert(pre.slots[chain[i]].priority < pre.slots[chain[j]].priority);
                if j < n - 1 {
                    assert(post.slots[chain[j]] == pre.slots[chain[j]]);
                }
            }
        }
    } else {
        assert(nc == seq![slot]);
        assert(nc.drop_last() =~= Seq::<int>::empty());
        assert(chain_qty(post.slots, nc.drop_last()) == 0);
        assert(nc.last() == slot);
        assert(nc[0] == slot);
    }
}

/// Which slots `add_order` writes: the new one and, in its links only, the
/// old tail of the target chain.
proof fn lemma_added_frame(pre: BookState, post: BookState, order: Order, slot: int)
    requires
        pre.partial_ok(),
        added(pre, post, order, slot),
    ensures
        post.slots.len() == pre.slots.len(),
        post.slots[slot] == order,
        forall|s: int|
            0 <= s < pre.slots.len() && s != slot ==> {
                &&& (#[trigger] post.slots[s])@ == pre.slots[s]@
                &&& post.slots[s].side == pre.slots[s].side
            },
        forall|s: int| #[trigger]
            pre.alloc.contains(s) && !(pre.slots[s].side == order.side && pre.slots[s].price
                == order.price) ==> post.slots[s] == pre.slots[s],
{
    let side = order.side;
    let price = order.price;
    lemma_side_ok_of(pre, side);
    let chains = pre.chains_of(side);
    if chains.contains_key(price) {
        let chain = chains[price];
        assert(chain_ok(pre.slots, chain, pre.levels_of(side)[price], side, price));
        assert(chain[chain.len() - 1] == chain.last());
        assert(pre.alloc.contains(chain[chain.len() - 1]));
    }
}

#[verifier::rlimit(40)]
proof fn lemma_added_sides(pre: BookState, post: BookState, order: Order, slot: int, s: Side)
    requires
        pre.partial_ok(),
        added(pre, post, order, slot),
        pre.chains_of(order.side).contains_key(order.price) ==> {
            &&& pre.levels_of(order.side)[order.price].total_qty + order.qty <= u64::MAX
            &&& pre.levels_of(order.side)[order.price].order_count + 1 <= usize::MAX
        },
    ensures
        side_ok(post.slots, post.levels_of(s), post.chains_of(s), s),
{
    let side = order.side;
    let price = order.price;
    lemma_side_ok_of(pre, s);
    lemma_added_target(pre, post, order, slot);
    lemma_added_frame(pre, post, order, slot);
    assert forall|p: Price| post.levels_of(s).contains_key(p) <==> #[trigger] post.chains_of(
        s,
    ).contains_key(p) by {
        assert(pre.levels_of(s).contains_key(p) <==> pre.chains_of(s).contains_key(p));
    }
    assert forall|p: Price| #[trigger] post.chains_of(s).contains_key(p) implies chain_ok(
        post.slots,
        post.chains_of(s)[p],
        post.levels_of(s)[p],
        s,
        p,
    ) by {
        if s != side || p != price {
            let c = pre.chains_of(s)[p];
            assert(pre.chains_of(s).contains_key(p));
            assert(post.chains_of(s)[p] == c);
            assert(post.levels_of(s)[p] == pre.levels_of(s)[p]);
            assert(chain_ok(pre.slots, c, pre.levels_of(s)[p], s, p));
            assert forall|i: int| 0 <= i < c.len() implies post.slots[#[trigger] c[i]]
                == pre.slots[c[i]] by {
                assert(pre.alloc.contains(c[i]));
                assert(pre.slots[c[i]].side == s && pre.slots[c[i]].price == p);
            }
            lemma_chain_frame(pre.slots, post.slots, c, pre.levels_of(s)[p], s, p);
        }
    }
}

#[verifier::rlimit(40)]
proof fn lemma_added_index(pre: BookState, post: BookState, order: Order, slot: int)
    requires
        pre.partial_ok(),
        added(pre, post, order, slot),
    ensures
        post.ids_ok(),
        post.chains_allocated(),
{
    let side = order.side;
    let price = order.price;
    lemma_added_frame(pre, post, order, slot);
    let chains = pre.chains_of(side);
    assert forall|id: OrderId| #[trigger] post.ids.contains_key(id) implies {
        &&& post.alloc.contains(post.ids[id] as int)
        &&& post.slots[post.ids[id] as int].order_id == id
    } by {
        if id != order.order_id {
            assert(pre.ids.contains_key(id));
            assert(pre.alloc.contains(pre.ids[id] as int));
            assert(post.slots[pre.ids[id] as int]@ == pre.slots[pre.ids[id] as int]@);
        }
    }
    assert forall|s: Side, p: Price, i: int|
        post.chains_of(s).contains_key(p) && 0 <= i < post.chains_of(s)[p].len()
            implies post.alloc.contains(#[trigger] post.chains_of(s)[p][i]) by {
        if s == side && p == price {
            if chains.contains_key(price) && i < chains[price].len() {
                assert(post.chains_of(s)[p][i] == chains[price][i]);
                assert(pre.alloc.contains(pre.chains_of(s)[p][i]));
            }
        } else {
            assert(pre.chains_of(s).contains_key(p));
            assert(post.chains_of(s)[p] == pre.chains_of(s)[p]);
            assert(pre.alloc.contains(pre.chains_of(s)[p][i]));
        }
    }
}

#[verifier::rlimit(40)]
proof fn lemma_added_slots(pre: BookState, post: BookState, order: Order, slot: int)
    requires
        pre.partial_ok(),
        added(pre, post, order, slot),
    ensures
        post.slots_ok(),
{
    let side = order.side;
    let price = order.price;
    lemma_added_frame(pre, post, order, slot);
    assert forall|s: int| #[trigger] post.alloc.contains(s) implies {
        &&& 0 <= s < post.slots.len()
        &&& post.ids.contains_key(post.slots[s].order_id)
        &&& post.ids[post.slots[s].order_id] == s
        &&& post.slots[s].ticker_id == post.ticker
        &&& post.slots[s].priority < post.next_priority
        &&& in_chain(post.chains_of(post.slots[s].side), post.slots[s].price, s)
    } by {
        if s == slot {
            let nc = post.chains_of(side)[price];
            assert(nc[nc.len() - 1] == slot);
        } else {
            assert(pre.alloc.contains(s));
            let o = pre.slots[s];
            assert(post.slots[s]@ == o@);
            assert(pre.ids.contains_key(o.order_id));
            assert(o.order_id != order.order_id);
            assert(in_chain(pre.chains_of(o.side), o.price, s));
            let c = pre.chains_of(o.side)[o.price];
            let k = choose|k: int| 0 <= k < c.len() && c[k] == s;
            if o.side == side && o.price == price {
                assert(post.chains_of(side)[price] == c.push(slot));
                assert(c.push(slot)[k] == s);
            } else {
                assert(post.chains_of(o.side)[o.price] == c);
            }
        }
    }
}

#[verifier::rlimit(40)]
proof fn lemma_added_views(pre: BookState, post: BookState, order: Order, slot: int)
    requires
        pre.partial_ok(),
        added(pre, post, order, slot),
    ensures
        post.orders() == pre.orders().insert(order.order_id, order@),
        post.queue(order.side, order.price) == pre.queue(order.side, order.price).push(
            order.order_id,
        ),
        forall|s: Side, p: Price|
            (s != order.side || p != order.price) ==> post.queue(s, p) == pre.queue(s, p),
{
    let side = order.side;
    let price = order.price;
    lemma_added_frame(pre, post, order, slot);
    let chains = pre.chains_of(side);
    assert(post.orders() =~= pre.orders().insert(order.order_id, order@)) by {
        assert forall|id: OrderId| pre.ids.contains_key(id) implies #[trigger] post.orders()[id]
            == pre.orders()[id] by {
            assert(pre.alloc.contains(pre.ids[id] as int));
            assert(post.slots[pre.ids[id] as int]@ == pre.slots[pre.ids[id] as int]@);
        }
    }
    assert(post.queue(side, price) =~= pre.queue(side, price).push(order.order_id)) by {
        if chains.contains_key(price) {
            let chain = chains[price];
            assert forall|i: int| 0 <= i < chain.len() implies post.slots[#[trigger] chain[i]].order_id
                == pre.slots[chain[i]].order_id by {
                assert(pre.alloc.contains(chain[i]));
                assert(post.slots[chain[i]]@ == pre.slots[chain[i]]@);
            }
        }
    }
    assert forall|s: Side, p: Price| (s != side || p != price) implies post.queue(s, p)
        == pre.queue(s, p) by {
        if pre.chains_of(s).contains_key(p) {
            let c = pre.chains_of(s)[p];
            assert(post.chains_of(s)[p] == c);
            assert forall|i: int| 0 <= i < c.len() implies post.slots[#[trigger] c[i]].order_id
                == pre.slots[c[i]].order_id by {
                assert(pre.alloc.contains(c[i]));
                assert(post.slots[c[i]]@ == pre.slots[c[i]]@);
            }
            assert(post.queue(s, p) =~= pre.queue(s, p));
        } else {
            assert(!post.chains_of(s).contains_key(p));
        }
    }
}

proof fn lemma_ids_on_finite(st: BookState, side: Side)
    requires
        st.ids.dom().finite(),
    ensures
        st.ids_on(side).finite(),
        st.ids_on(side).len() <= st.ids.dom().len(),
{
    assert(st.ids_on(side).subset_of(st.ids.dom()));
    vstd::set_lib::lemma_len_subset(st.ids_on(side), st.ids.dom());
}

/// A sum over levels after one level changed, appeared or disappeared.
proof fn lemma_level_sum_step(
    before: Map<Price, PriceLevel>,
    after: Map<Price, PriceLevel>,
    f: spec_fn(Price) -> int,
    g: spec_fn(Price) -> int,
    price: Price,
)
    requires
        before.dom().finite(),
        after.dom().remove(price) == before.dom().remove(price),
        forall|p: Price| p != price && before.dom().contains(p) ==> #[trigger] f(p) == g(p),
    ensures
        after.dom().finite(),
        sum_over(after.dom(), g) - (if after.dom().contains(price) {
            g(price)
        } else {
            0
        }) == sum_over(before.dom(), f) - (if before.dom().contains(price) {
            f(price)
        } else {
            0
        }),
{
    let rest = before.dom().remove(price);
    if after.dom().contains(price) {
        assert(after.dom() =~= rest.insert(price));
        lemma_sum_remove(after.dom(), g, price);
    } else {
        assert(after.dom() =~= rest);
    }
    if before.dom().contains(price) {
        lemma_sum_remove(before.dom(), f, price);
    } else {
        assert(before.dom() =~= rest);
    }
    lemma_sum_same(rest, f, g);
}

#[verifier::rlimit(40)]
proof fn lemma_added_totals(pre: BookState, post: BookState, order: Order, slot: int, s: Side)
    requires
        pre.ok(),
        added(pre, post, order, slot),
        pre.chains_of(order.side).contains_key(order.price) ==> {
            &&& pre.levels_of(order.side)[order.price].total_qty + order.qty <= u64::MAX
            &&& pre.levels_of(order.side)[order.price].order_count + 1 <= usize::MAX
        },
    ensures
        post.totals_ok(s),
{
    let side = order.side;
    let price = order.price;
    let id = order.order_id;
    reveal(BookState::totals_ok);
    lemma_added_frame(pre, post, order, slot);
    lemma_side_ok_of(pre, side);
    lemma_ids_on_finite(pre, s);
    lemma_ids_on_finite(post, s);
    if s == side {
        assert(post.levels_of(s).dom().remove(price) =~= pre.levels_of(s).dom().remove(price));
    }
    assert(pre.levels_of(side).contains_key(price) <==> pre.chains_of(side).contains_key(price));
    // Orders: the ids of the side, and what each id weighs.
    assert forall|x: OrderId| pre.ids.contains_key(x) implies post.slots[pre.ids[x] as int].side
        == pre.slots[pre.ids[x] as int].side && #[trigger] (post.qty_of())(x) == (pre.qty_of())(
        x,
    ) by {
        assert(pre.alloc.contains(pre.ids[x] as int));
        assert(post.slots[pre.ids[x] as int]@ == pre.slots[pre.ids[x] as int]@);
    }
    if s == side {
        assert(post.ids_on(s) =~= pre.ids_on(s).insert(id));
        lemma_sum_insert(pre.ids_on(s), post.qty_of(), id);
        lemma_sum_same(pre.ids_on(s), post.qty_of(), pre.qty_of());
        assert((post.qty_of())(id) == order.qty);
        lemma_level_sum_step(
            pre.levels_of(s),
            post.levels_of(s),
            pre.level_qty(s),
            post.level_qty(s),
            price,
        );
        lemma_level_sum_step(
            pre.levels_of(s),
            post.levels_of(s),
            pre.level_count(s),
            post.level_count(s),
            price,
        );
    } else {
        assert(post.ids_on(s) =~= pre.ids_on(s));
        lemma_sum_same(pre.ids_on(s), post.qty_of(), pre.qty_of());
        assert(post.levels_of(s) == pre.levels_of(s));
        lemma_sum_same(pre.levels_of(s).dom(), post.level_qty(s), pre.level_qty(s));
        lemma_sum_same(pre.levels_of(s).dom(), post.level_count(s), pre.level_count(s));
    }
}

/// `add_order` keeps the invariant, and changes the views as its contract
/// says.
proof fn lemma_added(pre: BookState, post: BookState, order: Order, slot: int)
    requires
        pre.ok(),
        added(pre, post, order, slot),
        pre.chains_of(order.side).contains_key(order.price) ==> {
            &&& pre.levels_of(order.side)[order.price].total_qty + order.qty <= u64::MAX
            &&& pre.levels_of(order.side)[order.price].order_count + 1 <= usize::MAX
        },
    ensures
        post.ok(),
        post.orders() == pre.orders().insert(order.order_id, order@),
        post.queue(order.side, order.price) == pre.queue(order.side, order.price).push(
            order.order_id,
        ),
        forall|s: Side, p: Price|
            (s != order.side || p != order.price) ==> post.queue(s, p) == pre.queue(s, p),
{
    lemma_added_sides(pre, post, order, slot, Side::Buy);
    lemma_added_sides(pre, post, order, slot, Side::Sell);
    lemma_added_index(pre, post, order, slot);
    lemma_added_slots(pre, post, order, slot);
    lemma_added_views(pre, post, order, slot);
    lemma_added_totals(pre, post, order, slot, Side::Buy);
    lemma_added_totals(pre, post, order, slot, Side::Sell);
}

/// The slots after `cancel_order` unlinked the order `o`: its neighbours
/// point at each other, and nothing else is written.
spec fn unlinked(slots: Seq<Order>, o: Order) -> Seq<Order> {
    let first = match o.prev_idx {
        Some(p) => slots.update(p as int, Order { next_idx: o.next_idx, ..slots[p as int] }),
        None => slots,
    };
    match o.next_idx {
        Some(n) => first.update(n as int, Order { prev_idx: o.prev_idx, ..first[n as int] }),
        None => first,
    }
}

/// What `cancel_order` does to the parts of a book, for the order in `slot`,
/// which stands at position `k` of its chain.
spec fn removed(pre: BookState, post: BookState, slot: int, k: int) -> bool {
    let o = pre.slots[slot];
    let side = o.side;
    let price = o.price;
    let chains = pre.chains_of(side);
    let levels = pre.levels_of(side);
    let chain = chains[price];
    let lvl = levels[price];
    &&& pre.alloc.contains(slot)
    &&& chains.contains_key(price)
    &&& 0 <= k < chain.len()
    &&& chain[k] == slot
    &&& post.ticker == pre.ticker
    &&& post.next_priority == pre.next_priority
    &&& post.alloc == pre.alloc.remove(slot)
    &&& post.ids == pre.ids.remove(o.order_id)
    &&& post.slots == unlinked(pre.slots, o)
    &&& post.levels_of(side.flipped()) == pre.levels_of(side.flipped())
    &&& post.chains_of(side.flipped()) == pre.chains_of(side.flipped())
    &&& if chain.len() == 1 {
        &&& post.chains_of(side) == chains.remove(price)
        &&& post.levels_of(side) == levels.remove(price)
    } else {
        &&& post.chains_of(side) == chains.insert(price, chain.remove(k))
        &&& post.levels_of(side) == levels.insert(
            price,
            PriceLevel {
                price: lvl.price,
                total_qty: (lvl.total_qty - o.qty) as u64,
                head_idx: if o.prev_idx is None {
                    o.next_idx
                } else {
                    lvl.head_idx
                },
                tail_idx: if o.next_idx is None {
                    o.prev_idx
                } else {
                    lvl.tail_idx
                },
                order_count: (lvl.order_count - 1) as usize,
            },
        )
    }
}

/// Where the order at position `k` of a chain points, and that the slots of
/// a chain are pairwise distinct.
proof fn lemma_chain_links(
    slots: Seq<Order>,
    chain: Seq<int>,
    lvl: PriceLevel,
    side: Side,
    price: Price,
    k: int,
)
    requires
        chain_ok(slots, chain, lvl, side, price),
        0 <= k < chain.len(),
        slots.len() <= usize::MAX,
    ensures
        chain.no_duplicates(),
        slots[chain[k]].prev_idx == (if k == 0 {
            None
        } else {
            Some(chain[k - 1] as usize)
        }),
        slots[chain[k]].next_idx == (if k == chain.len() - 1 {
            None
        } else {
            Some(chain[k + 1] as usize)
        }),
        k > 0 ==> 0 <= chain[k - 1] < slots.len() && chain[k - 1] != chain[k],
        k < chain.len() - 1 ==> 0 <= chain[k + 1] < slots.len() && chain[k + 1] != chain[k],
        k > 0 && k < chain.len() - 1 ==> chain[k - 1] != chain[k + 1],
        slots[chain[k]].qty <= chain_qty(slots, chain),
{
    lemma_chain_distinct(slots, chain, lvl, side, price);
    assert(chain.last() == chain[chain.len() - 1]);
    if k > 0 {
        let i = k - 1;
        assert(slots[chain[i]].next_idx == Some(chain[k] as usize));
        assert(slots[chain[k]].prev_idx == Some(chain[i] as usize));
        assert(0 <= chain[i] < slots.len());
    }
    if k < chain.len() - 1 {
        let j = k + 1;
        assert(slots[chain[k]].next_idx == Some(chain[j] as usize));
        assert(0 <= chain[j] < slots.len());
    }
    lemma_chain_qty_remove(slots, chain, k);
    lemma_chain_qty_bound(slots, chain.remove(k));
}

/// Which slots `cancel_order` writes: the two neighbours in the chain, in
/// their links only.
#[verifier::rlimit(40)]
proof fn lemma_removed_frame(pre: BookState, post: BookState, slot: int, k: int)
    requires
        pre.partial_ok(),
        removed(pre, post, slot, k),
        pre.slots.len() <= usize::MAX,
    ensures
        post.slots.len() == pre.slots.len(),
        forall|s: int|
            0 <= s < pre.slots.len() ==> {
                &&& (#[trigger] post.slots[s])@ == pre.slots[s]@
                &&& post.slots[s].side == pre.slots[s].side
            },
        forall|s: int| #[trigger]
            pre.alloc.contains(s) && !(pre.slots[s].side == pre.slots[slot].side
                && pre.slots[s].price == pre.slots[slot].price) ==> post.slots[s] == pre.slots[s],
        ({
            let o = pre.slots[slot];
            let chain = pre.chains_of(o.side)[o.price];
            &&& forall|i: int|
                0 <= i < chain.len() && i != k - 1 && i != k + 1 ==> post.slots[#[trigger] chain[i]]
                    == pre.slots[chain[i]]
            &&& k > 0 ==> post.slots[chain[k - 1]] == Order {
                next_idx: o.next_idx,
                ..pre.slots[chain[k - 1]]
            }
            &&& k < chain.len() - 1 ==> post.slots[chain[k + 1]] == Order {
                prev_idx: o.prev_idx,
                ..pre.slots[chain[k + 1]]
            }
        }),
{
    let o = pre.slots[slot];
    let side = o.side;
    let price = o.price;
    lemma_side_ok_of(pre, side);
    let chain = pre.chains_of(side)[price];
    let lvl = pre.levels_of(side)[price];
    assert(chain_ok(pre.slots, chain, lvl, side, price));
    lemma_chain_links(pre.slots, chain, lvl, side, price, k);
    if k > 0 {
        assert(pre.alloc.contains(chain[k - 1]));
        assert(pre.slots[chain[k - 1]].side == side && pre.slots[chain[k - 1]].price == price);
    }
    if k < chain.len() - 1 {
        assert(pre.alloc.contains(chain[k + 1]));
        assert(pre.slots[chain[k + 1]].side == side && pre.slots[chain[k + 1]].price == price);
    }
    assert forall|i: int| 0 <= i < chain.len() && i != k - 1 && i != k + 1 implies post.slots[#[trigger] chain[i]]
        == pre.slots[chain[i]] by {
        if k > 0 && i != k - 1 {
            assert(chain[i] != chain[k - 1]);
        }
        if k < chain.len() - 1 && i != k + 1 {
            assert(chain[i] != chain[k + 1]);
        }
    }
}

/// The level that is left when the order at position `k` leaves a chain of
/// more than one order.
spec fn level_without(lvl: PriceLevel, o: Order) -> PriceLevel {
    PriceLevel {
        price: lvl.price,
        total_qty: (lvl.total_qty - o.qty) as u64,
        head_idx: if o.prev_idx is None {
            o.next_idx
        } else {
            lvl.head_idx
        },
        tail_idx: if o.next_idx is None {
            o.prev_idx
        } else {
            lvl.tail_idx
        },
        order_count: (lvl.order_count - 1) as usize,
    }
}

/// How the slots of a chain look after the order at position `k` was
/// unlinked: its two neighbours changed in one link each, nothing else did.
spec fn chain_unlinked(a: Seq<Order>, b: Seq<Order>, chain: Seq<int>, k: int) -> bool {
    let o = a[chain[k]];
    &&& a.len() == b.len()
    &&& a.len() <= usize::MAX
    &&& 0 <= k < chain.len()
    &&& forall|i: int|
        0 <= i < chain.len() && i != k - 1 && i != k + 1 ==> b[#[trigger] chain[i]] == a[chain[i]]
    &&& k > 0 ==> b[chain[k - 1]] == Order { next_idx: o.next_idx, ..a[chain[k - 1]] }
    &&& k < chain.len() - 1 ==> b[chain[k + 1]] == Order { prev_idx: o.prev_idx, ..a[chain[k + 1]] }
}

proof fn lemma_unlinked_data(a: Seq<Order>, b: Seq<Order>, chain: Seq<int>, k: int)
    requires
        chain_unlinked(a, b, chain, k),
    ensures
        forall|i: int|
            0 <= i < chain.len() ==> {
                &&& (#[trigger] b[chain[i]])@ == a[chain[i]]@
                &&& b[chain[i]].side == a[chain[i]].side
                &&& (i != k - 1 ==> b[chain[i]].next_idx == a[chain[i]].next_idx)
                &&& (i != k + 1 ==> b[chain[i]].prev_idx == a[chain[i]].prev_idx)
            },
{
    assert forall|i: int| 0 <= i < chain.len() implies {
        &&& (#[trigger] b[chain[i]])@ == a[chain[i]]@
        &&& b[chain[i]].side == a[chain[i]].side
        &&& (i != k - 1 ==> b[chain[i]].next_idx == a[chain[i]].next_idx)
        &&& (i != k + 1 ==> b[chain[i]].prev_idx == a[chain[i]].prev_idx)
    } by {
        if i != k - 1 && i != k + 1 {
            assert(b[chain[i]] == a[chain[i]]);
        }
    }
}

#[verifier::rlimit(40)]
proof fn lemma_unlinked_ends(
    a: Seq<Order>,
    b: Seq<Order>,
    chain: Seq<int>,
    lvl: PriceLevel,
    side: Side,
    price: Price,
    k: int,
)
    requires
        chain_ok(a, chain, lvl, side, price),
        chain.len() > 1,
        chain_unlinked(a, b, chain, k),
    ensures
        ({
            let nc = chain.remove(k);
            let nl = level_without(lvl, a[chain[k]]);
            &&& nc.len() == chain.len() - 1
            &&& nl.order_count == nc.len()
            &&& nl.price == price
            &&& nl.head_idx == Some(nc[0] as usize)
            &&& nl.tail_idx == Some(nc.last() as usize)
            &&& nl.total_qty == chain_qty(b, nc)
            &&& b[nc[0]].prev_idx is None
            &&& b[nc.last()].next_idx is None
        }),
{
    let n = chain.len() as int;
    let nc = chain.remove(k);
    let o = a[chain[k]];
    lemma_chain_links(a, chain, lvl, side, price, k);
    lemma_unlinked_data(a, b, chain, k);
    assert(chain.last() == chain[n - 1]);
    assert(nc.last() == nc[n - 2]);
    assert forall|i: int| 0 <= i < nc.len() implies b[#[trigger] nc[i]].qty == a[nc[i]].qty by {
        let src = if i < k { i } else { i + 1 };
        assert(nc[i] == chain[src]);
        assert(b[chain[src]]@ == a[chain[src]]@);
    }
    lemma_chain_qty_same(a, b, nc);
    lemma_chain_qty_remove(a, chain, k);
    lemma_chain_qty_bound(a, nc);
    if k == 0 {
        assert(nc[0] == chain[1]);
        assert(b[chain[1]].prev_idx == o.prev_idx);
    } else {
        assert(nc[0] == chain[0]);
        assert(b[chain[0]].prev_idx == a[chain[0]].prev_idx);
    }
    if k == n - 1 {
        assert(nc[n - 2] == chain[n - 2]);
        assert(b[chain[n - 2]].next_idx == o.next_idx);
    } else {
        assert(nc[n - 2] == chain[n - 1]);
        assert(b[chain[n - 1]].next_idx == a[chain[n - 1]].next_idx);
    }
}

#[verifier::rlimit(40)]
proof fn lemma_unlinked_links(
    a: Seq<Order>,
    b: Seq<Order>,
    chain: Seq<int>,
    lvl: PriceLevel,
    side: Side,
    price: Price,
    k: int,
)
    requires
        chain_ok(a, chain, lvl, side, price),
        chain.len() > 1,
        chain_unlinked(a, b, chain, k),
    ensures
        ({
            let nc = chain.remove(k);
            &&& forall|i: int|
                0 <= i < nc.len() ==> {
                    &&& 0 <= #[trigger] nc[i] < b.len()
                    &&& b[nc[i]].side == side
                    &&& b[nc[i]].price == price
                }
            &&& forall|i: int, j: int|
                0 <= i && j == i + 1 && j < nc.len() ==> {
                    &&& b[#[trigger] nc[i]].next_idx == Some(nc[j] as usize)
                    &&& b[#[trigger] nc[j]].prev_idx == Some(nc[i] as usize)
                }
            &&& forall|i: int, j: int|
                0 <= i < j < nc.len() ==> b[#[trigger] nc[i]].priority < b[#[trigger] nc[j]].priority
        }),
{
    let n = chain.len() as int;
    let nc = chain.remove(k);
    let o = a[chain[k]];
    lemma_chain_links(a, chain, lvl, side, price, k);
    lemma_unlinked_data(a, b, chain, k);
    assert forall|i: int| 0 <= i < nc.len() implies {
        &&& 0 <= #[trigger] nc[i] < b.len()
        &&& b[nc[i]].side == side
        &&& b[nc[i]].price == price
    } by {
        let src = if i < k { i } else { i + 1 };
        assert(nc[i] == chain[src]);
        assert(b[chain[src]]@ == a[chain[src]]@);
    }
    assert forall|i: int, j: int| 0 <= i && j == i + 1 && j < nc.len() implies {
        &&& b[#[trigger] nc[i]].next_idx == Some(nc[j] as usize)
        &&& b[#[trigger] nc[j]].prev_idx == Some(nc[i] as usize)
    } by {
        let si = if i < k { i } else { i + 1 };
        let sj = if j < k { j } else { j + 1 };
        assert(nc[i] == chain[si]);
        assert(nc[j] == chain[sj]);
        if sj == si + 1 {
            assert(a[chain[si]].next_idx == Some(chain[sj] as usize));
            assert(a[chain[sj]].prev_idx == Some(chain[si] as usize));
            assert(b[chain[si]].next_idx == a[chain[si]].next_idx);
            assert(b[chain[sj]].prev_idx == a[chain[sj]].prev_idx);
        } else {
            assert(si == k - 1 && sj == k + 1);
        }
    }
    assert forall|i: int, j: int| 0 <= i < j < nc.len() implies b[#[trigger] nc[i]].priority
        < b[#[trigger] nc[j]].priority by {
        let si = if i < k { i } else { i + 1 };
        let sj = if j < k { j } else { j + 1 };
        assert(nc[i] == chain[si]);
        assert(nc[j] == chain[sj]);
        assert(a[chain[si]].priority < a[chain[sj]].priority);
        assert(b[chain[si]]@ == a[chain[si]]@);
        assert(b[chain[sj]]@ == a[chain[sj]]@);
    }
}

proof fn lemma_removed_target(pre: BookState, post: BookState, slot: int, k: int)
    requires
        pre.partial_ok(),
        removed(pre, post, slot, k),
        pre.slots.len() <= usize::MAX,
        pre.chains_of(pre.slots[slot].side)[pre.slots[slot].price].len() > 1,
    ensures
        chain_ok(
            post.slots,
            post.chains_of(pre.slots[slot].side)[pre.slots[slot].price],
            post.levels_of(pre.slots[slot].side)[pre.slots[slot].price],
            pre.slots[slot].side,
            pre.slots[slot].price,
        ),
{
    let o = pre.slots[slot];
    let side = o.side;
    let price = o.price;
    lemma_side_ok_of(pre, side);
    let chain = pre.chains_of(side)[price];
    let lvl = pre.levels_of(side)[price];
    assert(chain_ok(pre.slots, chain, lvl, side, price));
    lemma_removed_frame(pre, post, slot, k);
    assert(chain_unlinked(pre.slots, post.slots, chain, k));
    assert(post.chains_of(side)[price] == chain.remove(k));
    assert(post.levels_of(side)[price] == level_without(lvl, o));
    lemma_unlinked_ends(pre.slots, post.slots, chain, lvl, side, price, k);
    lemma_unlinked_links(pre.slots, post.slots, chain, lvl, side, price, k);
}

#[verifier::rlimit(40)]
proof fn lemma_removed_sides(pre: BookState, post: BookState, slot: int, k: int, s: Side)
    requires
        pre.partial_ok(),
        removed(pre, post, slot, k),
        pre.slots.len() <= usize::MAX,
    ensures
        side_ok(post.slots, post.levels_of(s), post.chains_of(s), s),
{
    let o = pre.slots[slot];
    let side = o.side;
    let price = o.price;
    lemma_side_ok_of(pre, s);
    lemma_side_ok_of(pre, side);
    lemma_removed_frame(pre, post, slot, k);
    if pre.chains_of(side)[price].len() > 1 {
        lemma_removed_target(pre, post, slot, k);
    }
    assert forall|p: Price| post.levels_of(s).contains_key(p) <==> #[trigger] post.chains_of(
        s,
    ).contains_key(p) by {
        assert(pre.levels_of(s).contains_key(p) <==> pre.chains_of(s).contains_key(p));
    }
    assert forall|p: Price| #[trigger] post.chains_of(s).contains_key(p) implies chain_ok(
        post.slots,
        post.chains_of(s)[p],
        post.levels_of(s)[p],
        s,
        p,
    ) by {
        if s != side || p != price {
            let c = pre.chains_of(s)[p];
            assert(pre.chains_of(s).contains_key(p));
            assert(post.chains_of(s)[p] == c);
            assert(post.levels_of(s)[p] == pre.levels_of(s)[p]);
            assert(chain_ok(pre.slots, c, pre.levels_of(s)[p], s, p));
            assert forall|i: int| 0 <= i < c.len() implies post.slots[#[trigger] c[i]]
                == pre.slots[c[i]] by {
                assert(pre.alloc.contains(c[i]));
                assert(pre.slots[c[i]].side == s && pre.slots[c[i]].price == p);
            }
            lemma_chain_frame(pre.slots, post.slots, c, pre.levels_of(s)[p], s, p);
        }
    }
}

#[verifier::rlimit(40)]
proof fn lemma_removed_index(pre: BookState, post: BookState, slot: int, k: int)
    requires
        pre.partial_ok(),
        removed(pre, post, slot, k),
        pre.slots.len() <= usize::MAX,
    ensures
        post.ids_ok(),
        post.chains_allocated(),
{
    let o = pre.slots[slot];
    let side = o.side;
    let price = o.price;
    lemma_side_ok_of(pre, side);
    lemma_removed_frame(pre, post, slot, k);
    let chain = pre.chains_of(side)[price];
    assert(chain_ok(pre.slots, chain, pre.levels_of(side)[price], side, price));
    lemma_chain_links(pre.slots, chain, pre.levels_of(side)[price], side, price, k);
    assert forall|id: OrderId| #[trigger] post.ids.contains_key(id) implies {
        &&& post.alloc.contains(post.ids[id] as int)
        &&& post.slots[post.ids[id] as int].order_id == id
    } by {
        assert(pre.ids.contains_key(id));
        assert(pre.alloc.contains(pre.ids[id] as int));
        assert(post.slots[pre.ids[id] as int]@ == pre.slots[pre.ids[id] as int]@);
    }
    assert forall|s: Side, p: Price, i: int|
        post.chains_of(s).contains_key(p) && 0 <= i < post.chains_of(s)[p].len()
            implies post.alloc.contains(#[trigger] post.chains_of(s)[p][i]) by {
        if s == side && p == price {
            let src = if i < k { i } else { i + 1 };
            assert(post.chains_of(s)[p][i] == chain[src]);
            assert(pre.alloc.contains(pre.chains_of(s)[p][src]));
            assert(chain[src] != chain[k]);
        } else {
            assert(pre.chains_of(s).contains_key(p));
            assert(post.chains_of(s)[p] == pre.chains_of(s)[p]);
            let x = pre.chains_of(s)[p][i];
            assert(pre.alloc.contains(x));
            lemma_side_ok_of(pre, s);
            assert(chain_ok(pre.slots, pre.chains_of(s)[p], pre.levels_of(s)[p], s, p));
            assert(pre.slots[x].side == s && pre.slots[x].price == p);
        }
    }
}

#[verifier::rlimit(40)]
proof fn lemma_removed_slots(pre: BookState, post: BookState, slot: int, k: int)
    requires
        pre.partial_ok(),
        removed(pre, post, slot, k),
        pre.slots.len() <= usize::MAX,
    ensures
        post.slots_ok(),
{
    let o = pre.slots[slot];
    let side = o.side;
    let price = o.price;
    lemma_removed_frame(pre, post, slot, k);
    let chain = pre.chains_of(side)[price];
    assert forall|s: int| #[trigger] post.alloc.contains(s) implies {
        &&& 0 <= s < post.slots.len()
        &&& post.ids.contains_key(post.slots[s].order_id)
        &&& post.ids[post.slots[s].order_id] == s
        &&& post.slots[s].ticker_id == post.ticker
        &&& post.slots[s].priority < post.next_priority
        &&& in_chain(post.chains_of(post.slots[s].side), post.slots[s].price, s)
    } by {
        assert(pre.alloc.contains(s));
        assert(s != slot);
        let x = pre.slots[s];
        assert(post.slots[s]@ == x@);
        assert(pre.ids.contains_key(x.order_id));
        assert(pre.ids[x.order_id] == s);
        assert(pre.ids[o.order_id] == slot);
        assert(x.order_id != o.order_id);
        assert(in_chain(pre.chains_of(x.side), x.price, s));
        let c = pre.chains_of(x.side)[x.price];
        let i = choose|i: int| 0 <= i < c.len() && c[i] == s;
        if x.side == side && x.price == price {
            assert(i != k);
            let dst = if i < k { i } else { i - 1 };
            assert(chain.remove(k)[dst] == s);
            assert(chain.len() > 1);
        } else {
            assert(post.chains_of(x.side)[x.price] == c);
        }
    }
}

#[verifier::rlimit(40)]
proof fn lemma_removed_views(pre: BookState, post: BookState, slot: int, k: int)
    requires
        pre.partial_ok(),
        removed(pre, post, slot, k),
        pre.slots.len() <= usize::MAX,
    ensures
        post.orders() == pre.orders().remove(pre.slots[slot].order_id),
        pre.queue(pre.slots[slot].side, pre.slots[slot].price).len() > k,
        pre.queue(pre.slots[slot].side, pre.slots[slot].price)[k] == pre.slots[slot].order_id,
        post.queue(pre.slots[slot].side, pre.slots[slot].price) == pre.queue(
            pre.slots[slot].side,
            pre.slots[slot].price,
        ).remove(k),
        forall|s: Side, p: Price|
            (s != pre.slots[slot].side || p != pre.slots[slot].price) ==> post.queue(s, p)
                == pre.queue(s, p),
{
    let o = pre.slots[slot];
    let side = o.side;
    let price = o.price;
    lemma_removed_frame(pre, post, slot, k);
    let chain = pre.chains_of(side)[price];
    assert(post.orders() =~= pre.orders().remove(o.order_id)) by {
        assert forall|id: OrderId| post.ids.contains_key(id) implies #[trigger] post.orders()[id]
            == pre.orders()[id] by {
            assert(pre.ids.contains_key(id));
            assert(pre.alloc.contains(pre.ids[id] as int));
            assert(post.slots[pre.ids[id] as int]@ == pre.slots[pre.ids[id] as int]@);
        }
    }
    assert(post.queue(side, price) =~= pre.queue(side, price).remove(k)) by {
        assert forall|i: int| 0 <= i < chain.len() implies post.slots[#[trigger] chain[i]].order_id
            == pre.slots[chain[i]].order_id by {
            assert(pre.alloc.contains(chain[i]));
            assert(post.slots[chain[i]]@ == pre.slots[chain[i]]@);
        }
        if chain.len() == 1 {
            assert(!post.chains_of(side).contains_key(price));
        }
    }
    assert forall|s: Side, p: Price| (s != side || p != price) implies post.queue(s, p)
        == pre.queue(s, p) by {
        if pre.chains_of(s).contains_key(p) {
            let c = pre.chains_of(s)[p];
            assert(post.chains_of(s)[p] == c);
            assert forall|i: int| 0 <= i < c.len() implies post.slots[#[trigger] c[i]].order_id
                == pre.slots[c[i]].order_id by {
                assert(pre.alloc.contains(c[i]));
                assert(post.slots[c[i]]@ == pre.slots[c[i]]@);
            }
            assert(post.queue(s, p) =~= pre.queue(s, p));
        } else {
            assert(!post.chains_of(s).contains_key(p));
        }
    }
}

#[verifier::rlimit(40)]
proof fn lemma_removed_totals(pre: BookState, post: BookState, slot: int, k: int, s: Side)
    requires
        pre.ok(),
        removed(pre, post, slot, k),
        pre.slots.len() <= usize::MAX,
    ensures
        post.totals_ok(s),
{
    let o = pre.slots[slot];
    let side = o.side;
    let price = o.price;
    let id = o.order_id;
    reveal(BookState::totals_ok);
    lemma_removed_frame(pre, post, slot, k);
    lemma_side_ok_of(pre, side);
    lemma_ids_on_finite(pre, s);
    lemma_ids_on_finite(post, s);
    if s == side {
        assert(post.levels_of(s).dom().remove(price) =~= pre.levels_of(s).dom().remove(price));
    }
    let chain = pre.chains_of(side)[price];
    let lvl = pre.levels_of(side)[price];
    assert(chain_ok(pre.slots, chain, lvl, side, price));
    lemma_chain_links(pre.slots, chain, lvl, side, price, k);
    assert(pre.alloc.contains(slot));
    assert(pre.ids.contains_key(id) && pre.ids[id] == slot);
    assert forall|x: OrderId| post.ids.contains_key(x) implies post.slots[pre.ids[x] as int].side
        == pre.slots[pre.ids[x] as int].side && #[trigger] (post.qty_of())(x) == (pre.qty_of())(
        x,
    ) by {
        assert(pre.ids.contains_key(x));
        assert(pre.alloc.contains(pre.ids[x] as int));
        assert(post.slots[pre.ids[x] as int]@ == pre.slots[pre.ids[x] as int]@);
    }
    if s == side {
        assert(post.ids_on(s) =~= pre.ids_on(s).remove(id));
        assert(pre.ids_on(s).contains(id));
        lemma_sum_remove(pre.ids_on(s), pre.qty_of(), id);
        lemma_sum_same(post.ids_on(s), post.qty_of(), pre.qty_of());
        lemma_level_sum_step(
            pre.levels_of(s),
            post.levels_of(s),
            pre.level_qty(s),
            post.level_qty(s),
            price,
        );
        lemma_level_sum_step(
            pre.levels_of(s),
            post.levels_of(s),
            pre.level_count(s),
            post.level_count(s),
            price,
        );
        if chain.len() == 1 {
            assert(chain.drop_last().len() == 0);
            assert(chain_qty(pre.slots, chain.drop_last()) == 0);
            assert(chain.last() == chain[0]);
            assert(chain[0] == slot);
            assert(chain_qty(pre.slots, chain) == o.qty);
        }
    } else {
        assert(post.ids_on(s) =~= pre.ids_on(s));
        lemma_sum_same(pre.ids_on(s), post.qty_of(), pre.qty_of());
        assert(post.levels_of(s) == pre.levels_of(s));
        lemma_sum_same(pre.levels_of(s).dom(), post.level_qty(s), pre.level_qty(s));
        lemma_sum_same(pre.levels_of(s).dom(), post.level_count(s), pre.level_count(s));
    }
}

/// `cancel_order` keeps the invariant, and changes the views as its contract
/// says.
proof fn lemma_removed(pre: BookState, post: BookState, slot: int, k: int)
    requires
        pre.ok(),
        removed(pre, post, slot, k),
        pre.slots.len() <= usize::MAX,
    ensures
        post.ok(),
        post.orders() == pre.orders().remove(pre.slots[slot].order_id),
        pre.queue(pre.slots[slot].side, pre.slots[slot].price).len() > k,
        pre.queue(pre.slots[slot].side, pre.slots[slot].price)[k] == pre.slots[slot].order_id,
        post.queue(pre.slots[slot].side, pre.slots[slot].price) == pre.queue(
            pre.slots[slot].side,
            pre.slots[slot].price,
        ).remove(k),
        forall|s: Side, p: Price|
            (s != pre.slots[slot].side || p != pre.slots[slot].price) ==> post.queue(s, p)
                == pre.queue(s, p),
{
    lemma_removed_sides(pre, post, slot, k, Side::Buy);
    lemma_removed_sides(pre, post, slot, k, Side::Sell);
    lemma_removed_index(pre, post, slot, k);
    lemma_removed_slots(pre, post, slot, k);
    lemma_removed_views(pre, post, slot, k);
    lemma_removed_totals(pre, post, slot, k, Side::Buy);
    lemma_removed_totals(pre, post, slot, k, Side::Sell);
}

/// The quantities along the first `n` slots of a chain add up to the
/// quantities of the first `n` ids of its queue.
proof fn lemma_queue_qty(st: BookState, side: Side, price: Price, n: int)
    requires
        st.partial_ok(),
        st.chains_of(side).contains_key(price),
        0 <= n <= st.chains_of(side)[price].len(),
    ensures
        chain_qty(st.slots, st.chains_of(side)[price].take(n)) == queue_qty(
            st.orders(),
            st.queue(side, price).take(n),
        ),
    decreases n,
{
    let chain = st.chains_of(side)[price];
    let q = st.queue(side, price);
    if n > 0 {
        lemma_queue_qty(st, side, price, n - 1);
        assert(chain.take(n).drop_last() =~= chain.take(n - 1));
        assert(q.take(n).drop_last() =~= q.take(n - 1));
        assert(chain.take(n).last() == chain[n - 1]);
        assert(q.take(n).last() == q[n - 1]);
        assert(st.alloc.contains(chain[n - 1]));
    }
}

/// A price-time priority order book.
pub struct OrderBook {
    ticker_id: TickerId,
    bid_levels: HashMap<Price, PriceLevel>,
    ask_levels: HashMap<Price, PriceLevel>,
    order_map: HashMap<OrderId, usize>,
    order_pool: MemPool<Order, 65536>,
    next_priority: Priority,
    bid_chains: Ghost<Map<Price, Seq<int>>>,
    ask_chains: Ghost<Map<Price, Seq<int>>>,
}

impl OrderBook {
    spec fn state(&self) -> BookState {
        BookState {
            ticker: self.ticker_id,
            next_priority: self.next_priority,
            slots: self.order_pool.slots(),
            alloc: self.order_pool.allocated(),
            ids: self.order_map@,
            bid_levels: self.bid_levels@,
            ask_levels: self.ask_levels@,
            bid_chains: self.bid_chains@,
            ask_chains: self.ask_chains@,
        }
    }

    /// The instrument of this book.
    pub closed spec fn ticker(&self) -> TickerId {
        self.ticker_id
    }

    /// The priority that the next accepted order receives.
    pub closed spec fn next_priority_value(&self) -> Priority {
        self.next_priority
    }

    /// The resting orders, by order id.
    pub closed spec fn orders(&self) -> Map<OrderId, OrderData> {
        self.state().orders()
    }

    /// The ids of the orders resting at `price` on `side`, oldest first; empty
    /// where the side has no level at that price.
    pub closed spec fn queue(&self, side: Side, price: Price) -> Seq<OrderId> {
        self.state().queue(side, price)
    }

    /// The prices at which `side` has a level.
    pub closed spec fn level_prices(&self, side: Side) -> Set<Price> {
        self.state().levels_of(side).dom()
    }

    /// The level at `price` on `side`; meaningful where the side has one.
    pub closed spec fn level(&self, side: Side, price: Price) -> PriceLevel {
        self.state().levels_of(side)[price]
    }

    /// The representation invariant of the book.
    pub closed spec fn wf(&self) -> bool {
        &&& self.order_pool.wf()
        &&& self.state().ok()
    }

    /// Creates an empty book for `ticker_id`. Priorities start at 1.
    pub fn new(ticker_id: TickerId) -> (book: OrderBook)
        ensures
            book.wf(),
            book.ticker() == ticker_id,
            book.orders() == Map::<OrderId, OrderData>::empty(),
            book.next_priority_value() == 1,
            forall|side: Side| book.level_prices(side) == Set::<Price>::empty(),
            forall|side: Side, price: Price| book.queue(side, price) == Seq::<OrderId>::empty(),
    {
        let book = OrderBook {
            ticker_id,
            bid_levels: HashMap::new(),
            ask_levels: HashMap::new(),
            order_map: HashMap::new(),
            order_pool: MemPool::new(),
            next_priority: 1,
            bid_chains: Ghost(Map::empty()),
            ask_chains: Ghost(Map::empty()),
        };
        proof {
            let st = book.state();
            reveal(BookState::totals_ok);
            assert forall|side: Side| st.totals_ok(side) by {
                assert(st.levels_of(side).dom() =~= Set::<Price>::empty());
                assert(st.ids_on(side) =~= Set::<OrderId>::empty());
            }
            assert(book.orders() =~= Map::<OrderId, OrderData>::empty());
            assert forall|side: Side| book.level_prices(side) == Set::<Price>::empty() by {
                assert(book.level_prices(side) =~= Set::<Price>::empty());
            }
        }
        book
    }

    /// Returns the instrument of this book.
    pub fn ticker_id(&self) -> (r: TickerId)
        ensures
            r == self.ticker(),
    {
        self.ticker_id
    }

    /// The resting orders and the allocated slots are in one-to-one
    /// correspondence.
    proof fn lemma_order_count(&self)
        requires
            self.wf(),
        ensures
            self.orders().dom().finite(),
            self.order_pool.allocated().finite(),
            self.orders().len() == self.order_pool.allocated().len(),
            self.orders().len() + self.order_pool.free_len() == ORDER_POOL_CAPACITY,
    {
        let st = self.state();
        let ids = st.ids.dom();
        let f = |id: OrderId| st.ids[id] as int;
        assert(self.orders().dom() =~= ids);
        self.order_pool.lemma_accounting();
        assert(ids.map(f) =~= st.alloc) by {
            assert forall|s: int| st.alloc.contains(s) implies ids.map(f).contains(s) by {
                let id = st.slots[s].order_id;
                assert(ids.contains(id) && f(id) == s);
            }
            assert forall|s: int| ids.map(f).contains(s) implies st.alloc.contains(s) by {
                let id = choose|id: OrderId| ids.contains(id) && f(id) == s;
                assert(st.ids.contains_key(id));
            }
        }
        assert(vstd::relations::injective_on(f, ids)) by {
            assert forall|a: OrderId, b: OrderId|
                ids.contains(a) && ids.contains(b) && #[trigger] f(a) == #[trigger] f(b) implies a
                == b by {
                assert(st.ids.contains_key(a) && st.ids.contains_key(b));
            }
        }
        lemma_map_size(ids, st.alloc, f);
    }

    /// Returns the number of resting orders.
    pub fn order_count(&self) -> (r: usize)
        requires
            self.wf(),
        ensures
            r == self.orders().len(),
            self.orders().dom().finite(),
    {
        assert(self.orders().dom() =~= self.order_map@.dom());
        self.order_map.len()
    }

    /// Returns the number of price levels on the bid side.
    pub fn bid_level_count(&self) -> (r: usize)
        requires
            self.wf(),
        ensures
            r == self.level_prices(Side::Buy).len(),
            self.level_prices(Side::Buy).finite(),
    {
        self.bid_levels.len()
    }

    /// Returns the number of price levels on the ask side.
    pub fn ask_level_count(&self) -> (r: usize)
        requires
            self.wf(),
        ensures
            r == self.level_prices(Side::Sell).len(),
            self.level_prices(Side::Sell).finite(),
    {
        self.ask_levels.len()
    }

    /// Adds a resting order at the tail of its level, creating the level if
    /// the side has none at that price. The order gets the book's next
    /// priority.
    ///
    /// Returns `None`, and leaves the book as it is, when an order with this
    /// id rests in the book or when the book is full.
    #[verifier::rlimit(40)]
    pub fn add_order(
        &mut self,
        client_id: ClientId,
        order_id: OrderId,
        side: Side,
        price: Price,
        qty: Qty,
    ) -> (r: Option<PoolPtr<Order>>)
        requires
            old(self).wf(),
            old(self).next_priority_value() < u64::MAX,
        ensures
            final(self).wf(),
            final(self).ticker() == old(self).ticker(),
            r is Some <==> !old(self).orders().contains_key(order_id) && old(self).orders().len()
                < ORDER_POOL_CAPACITY,
            r is None ==> *final(self) == *old(self),
            r is Some ==> {
                &&& final(self).orders() == old(self).orders().insert(
                    order_id,
                    OrderData {
                        order_id,
                        client_id,
                        ticker_id: old(self).ticker(),
                        side,
                        price,
                        qty,
                        priority: old(self).next_priority_value(),
                    },
                )
                &&& final(self).queue(side, price) == old(self).queue(side, price).push(order_id)
                &&& forall|s: Side, p: Price|
                    (s != side || p != price) ==> final(self).queue(s, p) == old(self).queue(s, p)
                &&& final(self).next_priority_value() == old(self).next_priority_value() + 1
            },
    {
        proof {
            self.lemma_order_count();
            assert(self.orders().dom() =~= self.order_map@.dom());
        }
        if self.order_map.contains_key(&order_id) {
            return None;
        }
        if self.order_pool.available() == 0 {
            return None;
        }
        let ghost pre = self.state();
        let ptr = match self.order_pool.allocate() {
            Some(ptr) => ptr,
            None => { return None; },
        };
        let new_idx = ptr.index();
        let priority = self.next_priority;
        self.next_priority = priority + 1;
        let existing: Option<PriceLevel> = match side {
            Side::Buy => match self.bid_levels.get(&price) {
                Some(lvl) => Some(*lvl),
                None => None,
            },
            Side::Sell => match self.ask_levels.get(&price) {
                Some(lvl) => Some(*lvl),
                None => None,
            },
        };
        proof {
            lemma_side_ok_of(pre, side);
            self.order_pool.lemma_wf_facts();
            assert(existing is Some <==> pre.chains_of(side).contains_key(price));
        }
        let mut prev: Option<usize> = None;
        let level = match existing {
            None => PriceLevel {
                price,
                total_qty: qty as u64,
                head_idx: Some(new_idx),
                tail_idx: Some(new_idx),
                order_count: 1,
            },
            Some(lvl) => {
                proof {
                    let chain = pre.chains_of(side)[price];
                    assert(chain_ok(pre.slots, chain, lvl, side, price));
                    lemma_chain_qty_bound(pre.slots, chain);
                    lemma_chain_distinct(pre.slots, chain, lvl, side, price);
                    chain.unique_seq_to_set();
                    assert(chain.to_set().subset_of(pre.alloc)) by {
                        assert forall|s: int| chain.to_set().contains(s) implies pre.alloc.contains(
                            s,
                        ) by {
                            let k = choose|k: int| 0 <= k < chain.len() && chain[k] == s;
                            assert(pre.alloc.contains(chain[k]));
                        }
                    }
                    lemma_len_subset(chain.to_set(), pre.alloc);
                    assert(chain.len() <= 65536);
                    assert(chain.len() * 0xFFFF_FFFF <= 65536 * 0xFFFF_FFFF) by (nonlinear_arith)
                        requires
                            chain.len() <= 65536,
                    ;
                    assert(chain[chain.len() - 1] == chain.last());
                    assert(pre.alloc.contains(chain[chain.len() - 1]));
                }
                prev = lvl.tail_idx;
                match lvl.tail_idx {
                    Some(tail) => {
                        let node = self.order_pool.get_by_index_unchecked(tail);
                        node.next_idx = Some(new_idx);
                    },
                    None => {},
                }
                PriceLevel {
                    price: lvl.price,
                    total_qty: lvl.total_qty + qty as u64,
                    head_idx: lvl.head_idx,
                    tail_idx: Some(new_idx),
                    order_count: lvl.order_count + 1,
                }
            },
        };
        let order = Order {
            order_id,
            client_id,
            ticker_id: self.ticker_id,
            side,
            price,
            qty,
            priority,
            prev_idx: prev,
            next_idx: None,
        };
        *self.order_pool.get_mut(&ptr) = order;
        match side {
            Side::Buy => {
                self.bid_levels.insert(price, level);
                proof {
                    let chain = if pre.bid_chains.contains_key(price) {
                        pre.bid_chains[price]
                    } else {
                        Seq::<int>::empty()
                    };
                    self.bid_chains@ = pre.bid_chains.insert(price, chain.push(new_idx as int));
                }
            },
            Side::Sell => {
                self.ask_levels.insert(price, level);
                proof {
                    let chain = if pre.ask_chains.contains_key(price) {
                        pre.ask_chains[price]
                    } else {
                        Seq::<int>::empty()
                    };
                    self.ask_chains@ = pre.ask_chains.insert(price, chain.push(new_idx as int));
                }
            },
        }
        self.order_map.insert(order_id, new_idx);
        proof {
            let post = self.state();
            assert(post.alloc =~= pre.alloc.insert(new_idx as int));
            assert(Seq::<int>::empty().push(new_idx as int) =~= seq![new_idx as int]);
            assert(added(pre, post, order, new_idx as int));
            lemma_added(pre, post, order, new_idx as int);
        }
        Some(ptr)
    }

    /// Removes the order with this id from the book and returns it. Its
    /// neighbours in the chain are joined, the level's aggregates are reduced,
    /// a level left empty is erased, and the slot goes back to the pool.
    ///
    /// Returns `None`, and leaves the book as it is, when no order with this
    /// id rests in the book.
    #[verifier::rlimit(40)]
    pub fn cancel_order(&mut self, order_id: OrderId) -> (r: Option<Order>)
        requires
            old(self).wf(),
        ensures
            final(self).wf(),
            final(self).ticker() == old(self).ticker(),
            final(self).next_priority_value() == old(self).next_priority_value(),
            r is Some <==> old(self).orders().contains_key(order_id),
            r is None ==> *final(self) == *old(self),
            r matches Some(o) ==> {
                let before = old(self).queue(o.side, o.price);
                &&& o@ == old(self).orders()[order_id]
                &&& final(self).orders() == old(self).orders().remove(order_id)
                &&& before.contains(order_id)
                &&& final(self).queue(o.side, o.price) == before.remove(before.index_of(order_id))
                &&& forall|s: Side, p: Price|
                    (s != o.side || p != o.price) ==> final(self).queue(s, p) == old(self).queue(
                        s,
                        p,
                    )
            },
    {
        proof {
            assert(self.orders().dom() =~= self.order_map@.dom());
            self.order_pool.lemma_wf_facts();
        }
        let idx = match self.order_map.get(&order_id) {
            Some(idx) => *idx,
            None => { return None; },
        };
        let ghost pre = self.state();
        proof {
            assert(pre.ids.contains_key(order_id));
            assert(pre.alloc.contains(idx as int));
        }
        let order: Order = *self.order_pool.peek(idx);
        let found: Option<PriceLevel> = match order.side {
            Side::Buy => match self.bid_levels.get(&order.price) {
                Some(lvl) => Some(*lvl),
                None => None,
            },
            Side::Sell => match self.ask_levels.get(&order.price) {
                Some(lvl) => Some(*lvl),
                None => None,
            },
        };
        let ghost chain = pre.chains_of(order.side)[order.price];
        let ghost k = chain.index_of(idx as int);
        proof {
            lemma_side_ok_of(pre, order.side);
            assert(in_chain(pre.chains_of(order.side), order.price, idx as int));
            assert(found is Some);
            assert(chain_ok(pre.slots, chain, found->0, order.side, order.price));
            lemma_chain_links(pre.slots, chain, found->0, order.side, order.price, k);
        }
        let lvl = match found {
            Some(lvl) => lvl,
            None => { return None; },
        };
        let mut head = lvl.head_idx;
        let mut tail = lvl.tail_idx;
        match order.prev_idx {
            Some(prev) => {
                let node = self.order_pool.get_by_index_unchecked(prev);
                node.next_idx = order.next_idx;
            },
            None => {
                head = order.next_idx;
            },
        }
        match order.next_idx {
            Some(next) => {
                let node = self.order_pool.get_by_index_unchecked(next);
                node.prev_idx = order.prev_idx;
            },
            None => {
                tail = order.prev_idx;
            },
        }
        let count = lvl.order_count - 1;
        let total = lvl.total_qty - order.qty as u64;
        match order.side {
            Side::Buy => {
                if count == 0 {
                    self.bid_levels.remove(&order.price);
                    proof {
                        self.bid_chains@ = pre.bid_chains.remove(order.price);
                    }
                } else {
                    self.bid_levels.insert(
                        order.price,
                        PriceLevel {
                            price: lvl.price,
                            total_qty: total,
                            head_idx: head,
                            tail_idx: tail,
                            order_count: count,
                        },
                    );
                    proof {
                        self.bid_chains@ = pre.bid_chains.insert(order.price, chain.remove(k));
                    }
                }
            },
            Side::Sell => {
                if count == 0 {
                    self.ask_levels.remove(&order.price);
                    proof {
                        self.ask_chains@ = pre.ask_chains.remove(order.price);
                    }
                } else {
                    self.ask_levels.insert(
                        order.price,
                        PriceLevel {
                            price: lvl.price,
                            total_qty: total,
                            head_idx: head,
                            tail_idx: tail,
                            order_count: count,
                        },
                    );
                    proof {
                        self.ask_chains@ = pre.ask_chains.insert(order.price, chain.remove(k));
                    }
                }
            },
        }
        self.order_map.remove(&order_id);
        self.order_pool.deallocate_by_index(idx);
        proof {
            let post = self.state();
            assert(post.alloc =~= pre.alloc.remove(idx as int));
            assert(post.slots =~= unlinked(pre.slots, order));
            assert(removed(pre, post, idx as int, k));
            lemma_removed(pre, post, idx as int, k);
            let before = pre.queue(order.side, order.price);
            assert(before[k] == order_id);
            assert(before.index_of(order_id) == k) by {
                let j = before.index_of(order_id);
                assert(0 <= j < before.len() && before[j] == order_id);
                assert(pre.alloc.contains(chain[j]));
                assert(pre.ids[pre.slots[chain[j]].order_id] == chain[j]);
            }
        }
        Some(order)
    }

    /// Returns the order with this id, or `None` when no such order rests in
    /// the book.
    pub fn get_order(&self, order_id: OrderId) -> (r: Option<&Order>)
        requires
            self.wf(),
        ensures
            r is Some <==> self.orders().contains_key(order_id),
            r matches Some(o) ==> o@ == self.orders()[order_id],
    {
        proof {
            assert(self.orders().dom() =~= self.order_map@.dom());
            self.order_pool.lemma_wf_facts();
        }
        match self.order_map.get(&order_id) {
            Some(idx) => {
                assert(self.state().alloc.contains(*idx as int));
                Some(self.order_pool.peek(*idx))
            },
            None => None,
        }
    }

    /// Returns the best bid: the highest price with a level on the buy side,
    /// or `None` when the side is empty.
    pub fn best_bid(&self) -> (r: Option<Price>)
        requires
            self.wf(),
        ensures
            r is None <==> self.level_prices(Side::Buy) == Set::<Price>::empty(),
            r matches Some(best) ==> {
                &&& self.level_prices(Side::Buy).contains(best)
                &&& forall|p: Price| self.level_prices(Side::Buy).contains(p) ==> p <= best
            },
    {
        let mut best: Option<Price> = None;
        let ghost prices = self.bid_levels.keys().remaining().unref();
        let ghost seen: int = 0;
        for price in it: self.bid_levels.keys()
            invariant
                it.seq().unref() == prices,
                prices.to_set() == self.bid_levels@.dom(),
                seen == it.index(),
                (best is None) <==> seen == 0,
                best matches Some(b) ==> self.bid_levels@.contains_key(b) && forall|j: int|
                    0 <= j < seen ==> prices[j] <= b,
        {
            assert(prices[seen] == *price);
            assert(prices.to_set().contains(*price));
            match best {
                None => {
                    best = Some(*price);
                },
                Some(b) => {
                    if *price > b {
                        best = Some(*price);
                    }
                },
            }
            proof {
                seen = seen + 1;
            }
        }
        proof {
            assert(seen == prices.len());
            assert forall|p: Price| self.bid_levels@.contains_key(p) implies (best matches Some(b)
                && p <= b) by {
                assert(prices.to_set().contains(p));
                let j = choose|j: int| 0 <= j < prices.len() && prices[j] == p;
            }
            if best is None {
                assert(self.level_prices(Side::Buy) =~= Set::<Price>::empty());
            }
        }
        best
    }

    /// Returns the best ask: the lowest price with a level on the sell side,
    /// or `None` when the side is empty.
    pub fn best_ask(&self) -> (r: Option<Price>)
        requires
            self.wf(),
        ensures
            r is None <==> self.level_prices(Side::Sell) == Set::<Price>::empty(),
            r matches Some(best) ==> {
                &&& self.level_prices(Side::Sell).contains(best)
                &&& forall|p: Price| self.level_prices(Side::Sell).contains(p) ==> best <= p
            },
    {
        let mut best: Option<Price> = None;
        let ghost prices = self.ask_levels.keys().remaining().unref();
        let ghost seen: int = 0;
        for price in it: self.ask_levels.keys()
            invariant
                it.seq().unref() == prices,
                prices.to_set() == self.ask_levels@.dom(),
                seen == it.index(),
                (best is None) <==> seen == 0,
                best matches Some(b) ==> self.ask_levels@.contains_key(b) && forall|j: int|
                    0 <= j < seen ==> b <= prices[j],
        {
            assert(prices[seen] == *price);
            assert(prices.to_set().contains(*price));
            match best {
                None => {
                    best = Some(*price);
                },
                Some(b) => {
                    if *price < b {
                        best = Some(*price);
                    }
                },
            }
            proof {
                seen = seen + 1;
            }
        }
        proof {
            assert(seen == prices.len());
            assert forall|p: Price| self.ask_levels@.contains_key(p) implies (best matches Some(b)
                && b <= p) by {
                assert(prices.to_set().contains(p));
                let j = choose|j: int| 0 <= j < prices.len() && prices[j] == p;
            }
            if best is None {
                assert(self.level_prices(Side::Sell) =~= Set::<Price>::empty());
            }
        }
        best
    }

    /// A level exists exactly where orders wait, and its aggregates are those
    /// of its queue: the count is the queue's length and the total is the sum
    /// of the queued orders' quantities.
    pub proof fn lemma_level_accounting(&self, side: Side, price: Price)
        requires
            self.wf(),
        ensures
            self.level_prices(side).contains(price) <==> self.queue(side, price).len() > 0,
            self.level_prices(side).contains(price) ==> {
                &&& self.level(side, price).spec_price() == price
                &&& self.level(side, price).spec_order_count() == self.queue(side, price).len()
                &&& self.level(side, price).spec_total_qty() == queue_qty(
                    self.orders(),
                    self.queue(side, price),
                )
            },
    {
        let st = self.state();
        lemma_side_ok_of(st, side);
        assert(st.levels_of(side).contains_key(price) <==> st.chains_of(side).contains_key(price));
        if st.chains_of(side).contains_key(price) {
            let chain = st.chains_of(side)[price];
            assert(chain_ok(st.slots, chain, st.levels_of(side)[price], side, price));
            lemma_queue_qty(st, side, price, chain.len() as int);
            assert(self.queue(side, price).take(chain.len() as int) =~= self.queue(side, price));
            assert(chain.take(chain.len() as int) =~= chain);
        }
    }

    /// The ids of the resting orders of one side.
    pub open spec fn ids_on(&self, side: Side) -> Set<OrderId> {
        Set::new(|id: OrderId| self.orders().contains_key(id) && self.orders()[id].side == side)
    }

    /// Book accounting: on each side, the totals of the levels add up to the
    /// quantities of the side's resting orders, and the counts of the
    /// levels add up to the number of the side's resting orders.
    pub proof fn lemma_book_accounting(&self, side: Side)
        requires
            self.wf(),
        ensures
            self.level_prices(side).finite(),
            self.ids_on(side).finite(),
            sum_over(
                self.level_prices(side),
                |p: Price| self.level(side, p).spec_total_qty() as int,
            ) == sum_over(self.ids_on(side), |id: OrderId| self.orders()[id].qty as int),
            sum_over(
                self.level_prices(side),
                |p: Price| self.level(side, p).spec_order_count() as int,
            ) == self.ids_on(side).len(),
    {
        let st = self.state();
        reveal(BookState::totals_ok);
        assert(st.totals_ok(side));
        lemma_ids_on_finite(st, side);
        assert(self.ids_on(side) =~= st.ids_on(side));
        lemma_sum_same(
            st.levels_of(side).dom(),
            |p: Price| self.level(side, p).spec_total_qty() as int,
            st.level_qty(side),
        );
        lemma_sum_same(
            st.levels_of(side).dom(),
            |p: Price| self.level(side, p).spec_order_count() as int,
            st.level_count(side),
        );
        lemma_sum_same(
            st.ids_on(side),
            |id: OrderId| self.orders()[id].qty as int,
            st.qty_of(),
        );
    }

    /// The number of resting orders is the sum of the order counts of all
    /// levels of both sides.
    pub proof fn lemma_order_count_is_level_counts(&self)
        requires
            self.wf(),
        ensures
            self.level_prices(Side::Buy).finite(),
            self.level_prices(Side::Sell).finite(),
            self.orders().dom().finite(),
            self.orders().len() == sum_over(
                self.level_prices(Side::Buy),
                |p: Price| self.level(Side::Buy, p).spec_order_count() as int,
            ) + sum_over(
                self.level_prices(Side::Sell),
                |p: Price| self.level(Side::Sell, p).spec_order_count() as int,
            ),
    {
        self.lemma_book_accounting(Side::Buy);
        self.lemma_book_accounting(Side::Sell);
        self.lemma_order_count();
        let buys = self.ids_on(Side::Buy);
        let sells = self.ids_on(Side::Sell);
        assert(buys.disjoint(sells));
        assert(buys + sells =~= self.orders().dom());
        vstd::set_lib::lemma_set_disjoint_lens(buys, sells);
    }

    /// Every id in a queue names a resting order of that side and price, and
    /// no id stands twice in a queue.
    pub proof fn lemma_queue_members(&self, side: Side, price: Price)
        requires
            self.wf(),
        ensures
            self.queue(side, price).no_duplicates(),
            forall|i: int|
                0 <= i < self.queue(side, price).len() ==> {
                    let id = #[trigger] self.queue(side, price)[i];
                    &&& self.orders().contains_key(id)
                    &&& self.orders()[id].order_id == id
                    &&& self.orders()[id].side == side
                    &&& self.orders()[id].price == price
                },
    {
        let st = self.state();
        lemma_side_ok_of(st, side);
        if st.chains_of(side).contains_key(price) {
            let chain = st.chains_of(side)[price];
            let q = self.queue(side, price);
            assert(chain_ok(st.slots, chain, st.levels_of(side)[price], side, price));
            assert forall|i: int| 0 <= i < q.len() implies {
                let id = #[trigger] q[i];
                &&& self.orders().contains_key(id)
                &&& self.orders()[id].order_id == id
                &&& self.orders()[id].side == side
                &&& self.orders()[id].price == price
            } by {
                assert(st.alloc.contains(chain[i]));
            }
            assert forall|i: int, j: int| 0 <= i < q.len() && 0 <= j < q.len() && i != j implies q[i]
                != q[j] by {
                assert(st.alloc.contains(chain[i]));
                assert(st.alloc.contains(chain[j]));
                lemma_chain_distinct(st.slots, chain, st.levels_of(side)[price], side, price);
                assert(chain[i] != chain[j]);
            }
        }
    }

    /// Every resting order belongs to this book's instrument, is older than
    /// the next priority, and waits in the queue of its own side and price.
    pub proof fn lemma_order_placed(&self, order_id: OrderId)
        requires
            self.wf(),
            self.orders().contains_key(order_id),
        ensures
            self.orders()[order_id].order_id == order_id,
            self.orders()[order_id].ticker_id == self.ticker(),
            self.orders()[order_id].priority < self.next_priority_value(),
            self.queue(self.orders()[order_id].side, self.orders()[order_id].price).contains(
                order_id,
            ),
    {
        let st = self.state();
        let slot = st.ids[order_id] as int;
        assert(st.alloc.contains(slot));
        let o = st.slots[slot];
        assert(in_chain(st.chains_of(o.side), o.price, slot));
        let chain = st.chains_of(o.side)[o.price];
        let k = choose|k: int| 0 <= k < chain.len() && chain[k] == slot;
        assert(self.queue(o.side, o.price)[k] == order_id);
    }

    /// Time priority: within one queue, an order that stands before another
    /// has the smaller priority, so the head is the oldest order.
    pub proof fn lemma_fifo_priority(&self, side: Side, price: Price, i: int, j: int)
        requires
            self.wf(),
            0 <= i < j < self.queue(side, price).len(),
        ensures
            self.orders()[self.queue(side, price)[i]].priority < self.orders()[self.queue(
                side,
                price,
            )[j]].priority,
    {
        let st = self.state();
        lemma_side_ok_of(st, side);
        let chain = st.chains_of(side)[price];
        assert(chain_ok(st.slots, chain, st.levels_of(side)[price], side, price));
        assert(st.alloc.contains(chain[i]));
        assert(st.alloc.contains(chain[j]));
        assert(st.slots[chain[i]].priority < st.slots[chain[j]].priority);
    }

    /// Matches an incoming order against the book. Crossing is not part of
    /// this book: nothing trades and the book is left as it is.
    pub fn match_order(&mut self, _side: Side, _price: Price, _qty: Qty) -> (fills: Vec<
        (OrderId, Qty, Price),
    >)
        ensures
            fills@.len() == 0,
            *final(self) == *old(self),
    {
        Vec::new()
    }
}

} // verus!
