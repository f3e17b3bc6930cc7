//! The client's view of the market: the best bid and offer of each
//! instrument, kept up to date from market-data deltas.
//!
//! Only the top of the book is tracked. A cancel or trade that empties the
//! best level leaves its price in place with quantity zero: the next level
//! is not known here.

use vstd::prelude::*;
use std::collections::hash_map::Entry;
use std::collections::HashMap;
use crate::common::types::{Price, Qty, TickerId, INVALID_PRICE};
use crate::exchange::protocol::{MarketUpdate, MarketUpdateType, MARKET_UPDATE_SIZE};
use vstd::slice::slice_subrange;

verus! {

broadcast use vstd::std_specs::hash::group_hash_axioms;

/// Half of `sum`, rounded toward zero.
pub open spec fn half_toward_zero(sum: int) -> int {
    if sum >= 0 {
        sum / 2
    } else {
        -((-sum) / 2)
    }
}

/// `a - b`, or zero where `b` exceeds `a`.
pub open spec fn minus_or_zero(a: Qty, b: Qty) -> Qty {
    if a >= b {
        (a - b) as Qty
    } else {
        0
    }
}

/// Best bid and offer of one instrument.
#[derive(Debug, Clone, Copy, PartialEq, Eq, Structural)]
pub struct BBO {
    pub bid_price: Price,
    pub bid_qty: Qty,
    pub ask_price: Price,
    pub ask_qty: Qty,
}

impl Default for BBO {
    fn default() -> (r: BBO)
        ensures
            r == (BBO { bid_price: 0, bid_qty: 0, ask_price: 0, ask_qty: 0 }),
    {
        BBO { bid_price: 0, bid_qty: 0, ask_price: 0, ask_qty: 0 }
    }
}

impl BBO {
    /// The empty view: no price on either side.
    pub open spec fn empty() -> BBO {
        BBO { bid_price: INVALID_PRICE, bid_qty: 0, ask_price: INVALID_PRICE, ask_qty: 0 }
    }

    /// Whether a bid is present: a real price with a positive quantity.
    pub open spec fn bid_present(self) -> bool {
        self.bid_price != INVALID_PRICE && self.bid_qty > 0
    }

    /// Whether an offer is present: a real price with a positive quantity.
    pub open spec fn ask_present(self) -> bool {
        self.ask_price != INVALID_PRICE && self.ask_qty > 0
    }

    /// Whether both sides are present.
    pub open spec fn both_present(self) -> bool {
        self.bid_present() && self.ask_present()
    }

    /// This view after an `Add`, `Modify` or `Snapshot` of `qty` at `price`
    /// on the side `side`: a better price, or any price where the side had
    /// none, replaces price and quantity; the same price replaces the
    /// quantity; a worse price changes nothing.
    pub open spec fn after_quote(self, side: i8, price: Price, qty: Qty) -> BBO {
        if side == 1 {
            if price > self.bid_price || self.bid_price == INVALID_PRICE {
                BBO { bid_price: price, bid_qty: qty, ..self }
            } else if price == self.bid_price {
                BBO { bid_qty: qty, ..self }
            } else {
                self
            }
        } else if side == -1 {
            if price < self.ask_price || self.ask_price == INVALID_PRICE {
                BBO { ask_price: price, ask_qty: qty, ..self }
            } else if price == self.ask_price {
                BBO { ask_qty: qty, ..self }
            } else {
                self
            }
        } else {
            self
        }
    }

    /// This view after a `Cancel` of `qty` at `price` on the side `side`: at
    /// the best price the quantity shrinks by `qty`, to zero at least, and
    /// to zero for a cancel of unknown size; the price stays.
    pub open spec fn after_cancel(self, side: i8, price: Price, qty: Qty) -> BBO {
        if side == 1 && price == self.bid_price {
            BBO {
                bid_qty: if qty == 0 {
                    0
                } else {
                    minus_or_zero(self.bid_qty, qty)
                },
                ..self
            }
        } else if side == -1 && price == self.ask_price {
            BBO {
                ask_qty: if qty == 0 {
                    0
                } else {
                    minus_or_zero(self.ask_qty, qty)
                },
                ..self
            }
        } else {
            self
        }
    }

    /// This view after a `Trade` of `qty` at `price` by an aggressor on the
    /// side `side`: a buy at the best offer shrinks the offer, a sell at the
    /// best bid shrinks the bid, to zero at least.
    pub open spec fn after_trade(self, side: i8, price: Price, qty: Qty) -> BBO {
        if side == 1 && price == self.ask_price {
            BBO { ask_qty: minus_or_zero(self.ask_qty, qty), ..self }
        } else if side == -1 && price == self.bid_price {
            BBO { bid_qty: minus_or_zero(self.bid_qty, qty), ..self }
        } else {
            self
        }
    }

    /// This view after the delta `update`; unchanged for a delta of unknown
    /// kind.
    pub open spec fn after_update(self, update: MarketUpdate) -> BBO {
        match update.kind() {
            Some(MarketUpdateType::Add) | Some(MarketUpdateType::Modify) | Some(
                MarketUpdateType::Snapshot,
            ) => self.after_quote(update.side, update.price, update.qty),
            Some(MarketUpdateType::Cancel) => self.after_cancel(
                update.side,
                update.price,
                update.qty,
            ),
            Some(MarketUpdateType::Trade) => self.after_trade(
                update.side,
                update.price,
                update.qty,
            ),
            Some(MarketUpdateType::Clear) => BBO::empty(),
            None => self,
        }
    }

    /// Creates an empty view.
    pub fn new() -> (r: BBO)
        ensures
            r == BBO::empty(),
    {
        BBO { bid_price: INVALID_PRICE, bid_qty: 0, ask_price: INVALID_PRICE, ask_qty: 0 }
    }

    /// Returns true if a bid is present.
    pub fn has_bid(&self) -> (r: bool)
        ensures
            r == self.bid_present(),
    {
        self.bid_price != INVALID_PRICE && self.bid_qty > 0
    }

    /// Returns true if an offer is present.
    pub fn has_ask(&self) -> (r: bool)
        ensures
            r == self.ask_present(),
    {
        self.ask_price != INVALID_PRICE && self.ask_qty > 0
    }

    /// Returns true if both sides are present.
    pub fn is_valid(&self) -> (r: bool)
        ensures
            r == self.both_present(),
    {
        self.has_bid() && self.has_ask()
    }

    /// Returns the spread, offer minus bid, if both sides are present.
    pub fn spread(&self) -> (r: Option<Price>)
        requires
            self.both_present() ==> i64::MIN <= self.ask_price - self.bid_price <= i64::MAX,
        ensures
            r is Some <==> self.both_present(),
            r matches Some(s) ==> s == self.ask_price - self.bid_price,
    {
        if self.is_valid() {
            Some(self.ask_price - self.bid_price)
        } else {
            None
        }
    }

    /// Returns the mid price, half the sum of bid and offer rounded toward
    /// zero, if both sides are present.
    pub fn mid_price(&self) -> (r: Option<Price>)
        ensures
            r is Some <==> self.both_present(),
            r matches Some(m) ==> m == half_toward_zero(self.bid_price + self.ask_price),
    {
        if self.is_valid() {
            let sum: i128 = self.bid_price as i128 + self.ask_price as i128;
            let mid: i128 = sum / 2;
            Some(mid as i64)
        } else {
            None
        }
    }

    /// Applies one market-data delta to this view.
    pub fn apply_update(&mut self, update: &MarketUpdate)
        ensures
            *final(self) == old(self).after_update(*update),
    {
        let side = update.side;
        let price = update.price;
        let qty = update.qty;
        match update.update_type() {
            Some(MarketUpdateType::Add) | Some(MarketUpdateType::Modify) | Some(
                MarketUpdateType::Snapshot,
            ) => {
                if side == 1 {
                    if price > self.bid_price || self.bid_price == INVALID_PRICE {
                        self.bid_price = price;
                        self.bid_qty = qty;
                    } else if price == self.bid_price {
                        self.bid_qty = qty;
                    }
                } else if side == -1 {
                    if price < self.ask_price || self.ask_price == INVALID_PRICE {
                        self.ask_price = price;
                        self.ask_qty = qty;
                    } else if price == self.ask_price {
                        self.ask_qty = qty;
                    }
                }
            },
            Some(MarketUpdateType::Cancel) => {
                if side == 1 && price == self.bid_price {
                    if qty == 0 || qty >= self.bid_qty {
                        self.bid_qty = 0;
                    } else {
                        self.bid_qty = self.bid_qty - qty;
                    }
                } else if side == -1 && price == self.ask_price {
                    if qty == 0 || qty >= self.ask_qty {
                        self.ask_qty = 0;
                    } else {
                        self.ask_qty = self.ask_qty - qty;
                    }
                }
            },
            Some(MarketUpdateType::Trade) => {
                if side == 1 && price == self.ask_price {
                    self.ask_qty = self.ask_qty.saturating_sub(qty);
                } else if side == -1 && price == self.bid_price {
                    self.bid_qty = self.bid_qty.saturating_sub(qty);
                }
            },
            Some(MarketUpdateType::Clear) => {
                *self = BBO::new();
            },
            None => {},
        }
    }
}

/// The view of an instrument in a map of views: its entry, or the empty view
/// where it has none.
pub open spec fn bbo_of(views: Map<TickerId, BBO>, ticker_id: TickerId) -> BBO {
    if views.contains_key(ticker_id) {
        views[ticker_id]
    } else {
        BBO::empty()
    }
}

/// A map of views after one delta: a delta of known kind updates the view of
/// its instrument, creating it if need be; a delta of unknown kind changes
/// nothing.
pub open spec fn views_after(views: Map<TickerId, BBO>, update: MarketUpdate) -> Map<
    TickerId,
    BBO,
> {
    if update.kind() is Some {
        views.insert(update.ticker_id, bbo_of(views, update.ticker_id).after_update(update))
    } else {
        views
    }
}

/// Decodes one datagram of the market-data feed: the first 34 bytes hold the
/// delta, anything shorter is dropped.
pub fn decode_datagram(data: &[u8]) -> (r: Option<MarketUpdate>)
    ensures
        r is Some <==> data@.len() >= MARKET_UPDATE_SIZE,
        r matches Some(u) ==> Some(u) == MarketUpdate::decode(
            data@.subrange(0, MARKET_UPDATE_SIZE as int),
        ),
{
    if data.len() >= MARKET_UPDATE_SIZE {
        MarketUpdate::from_bytes(slice_subrange(data, 0, MARKET_UPDATE_SIZE))
    } else {
        None
    }
}

/// Keeps the best bid and offer of every instrument seen on the feed.
pub struct MarketDataReceiver {
    bbo: HashMap<TickerId, BBO>,
}

impl MarketDataReceiver {
    /// The tracked views, by instrument.
    pub closed spec fn views(&self) -> Map<TickerId, BBO> {
        self.bbo@
    }

    /// Creates a receiver that tracks no instrument yet.
    pub fn new() -> (r: MarketDataReceiver)
        ensures
            r.views() == Map::<TickerId, BBO>::empty(),
    {
        MarketDataReceiver { bbo: HashMap::new() }
    }

    /// Decodes the datagram `data`, if it is long enough to hold a delta.
    pub fn poll(&self, data: &[u8]) -> (r: Option<MarketUpdate>)
        ensures
            r is Some <==> data@.len() >= MARKET_UPDATE_SIZE,
            r matches Some(u) ==> Some(u) == MarketUpdate::decode(
                data@.subrange(0, MARKET_UPDATE_SIZE as int),
            ),
    {
        decode_datagram(data)
    }

    /// Processes one delta and returns the view of its instrument after it,
    /// for whoever is to be told; `None`, and no change, for a delta of
    /// unknown kind.
    pub fn process_update(&mut self, update: &MarketUpdate) -> (r: Option<BBO>)
        ensures
            final(self).views() == views_after(old(self).views(), *update),
            r is Some <==> update.kind() is Some,
            r matches Some(view) ==> view == final(self).views()[update.ticker_id],
    {
        if update.update_type().is_none() {
            return None;
        }
        let ticker_id = update.ticker_id;
        let mut view = match self.bbo.get(&ticker_id) {
            Some(view) => *view,
            None => BBO::new(),
        };
        view.apply_update(update);
        self.bbo.insert(ticker_id, view);
        Some(view)
    }

    /// Decodes and processes one datagram; returns whether it held a delta.
    pub fn poll_and_process(&mut self, data: &[u8]) -> (r: bool)
        ensures
            r <==> data@.len() >= MARKET_UPDATE_SIZE,
            !r ==> final(self).views() == old(self).views(),
            r ==> final(self).views() == views_after(
                old(self).views(),
                MarketUpdate::decode(data@.subrange(0, MARKET_UPDATE_SIZE as int))->0,
            ),
    {
        match decode_datagram(data) {
            Some(update) => {
                let _ = self.process_update(&update);
                true
            },
            None => false,
        }
    }

    /// Returns the view of an instrument, if it is tracked.
    pub fn get_bbo(&self, ticker_id: TickerId) -> (r: Option<&BBO>)
        ensures
            r is Some <==> self.views().contains_key(ticker_id),
            r matches Some(view) ==> *view == self.views()[ticker_id],
    {
        self.bbo.get(&ticker_id)
    }

    /// Returns the view of an instrument for writing, if it is tracked.
    pub fn get_bbo_mut(&mut self, ticker_id: TickerId) -> (r: Option<&mut BBO>)
        ensures
            r is Some <==> old(self).views().contains_key(ticker_id),
            match r {
                Some(view) => {
                    &&& *view == old(self).views()[ticker_id]
                    &&& final(self).views() == old(self).views().insert(ticker_id, *final(view))
                },
                None => final(self).views() == old(self).views(),
            },
    {
        match self.bbo.entry(ticker_id) {
            Entry::Occupied(occupied) => Some(occupied.into_mut()),
            Entry::Vacant(_) => {
                proof {
                    assert(old(self).views().remove(ticker_id) =~= old(self).views());
                }
                None
            },
        }
    }

    /// Returns the number of tracked instruments.
    pub fn ticker_count(&self) -> (r: usize)
        ensures
            r == self.views().dom().len(),
    {
        self.bbo.len()
    }

    /// Starts tracking the given instruments with empty views; instruments
    /// that are tracked keep their views.
    pub fn reserve_tickers(&mut self, tickers: &[TickerId])
        ensures
            forall|t: TickerId|
                final(self).views().contains_key(t) <==> (old(self).views().contains_key(t)
                    || tickers@.contains(t)),
            forall|t: TickerId| #[trigger]
                final(self).views().contains_key(t) ==> final(self).views()[t] == bbo_of(
                    old(self).views(),
                    t,
                ),
    {
        let mut i: usize = 0;
        while i < tickers.len()
            invariant
                i <= tickers.len(),
                forall|t: TickerId|
                    self.views().contains_key(t) <==> (old(self).views().contains_key(t)
                        || tickers@.take(i as int).contains(t)),
                forall|t: TickerId| #[trigger]
                    self.views().contains_key(t) ==> self.views()[t] == bbo_of(
                        old(self).views(),
                        t,
                    ),
            decreases tickers.len() - i,
        {
            let ticker_id = tickers[i];
            let ghost prev = self.views();
            if !self.bbo.contains_key(&ticker_id) {
                self.bbo.insert(ticker_id, BBO::new());
            }
            proof {
                let before = tickers@.take(i as int);
                let after = tickers@.take(i + 1);
                assert(after =~= before.push(ticker_id));
                assert(after[i as int] == ticker_id);
                assert forall|t: TickerId| after.contains(t) <==> (before.contains(t) || t
                    == ticker_id) by {
                    if before.contains(t) {
                        let j = choose|j: int| 0 <= j < before.len() && before[j] == t;
                        assert(after[j] == t);
                    }
                    if after.contains(t) {
                        let j = choose|j: int| 0 <= j < after.len() && after[j] == t;
                        if j < i {
                            assert(before[j] == t);
                        }
                    }
                }
                assert forall|t: TickerId|
                    self.views().contains_key(t) <==> (old(self).views().contains_key(t)
                        || after.contains(t)) by {
                    assert(self.views().contains_key(t) <==> (prev.contains_key(t) || t
                        == ticker_id));
                    assert(prev.contains_key(t) <==> (old(self).views().contains_key(t)
                        || before.contains(t)));
                    assert(after.contains(t) <==> (before.contains(t) || t == ticker_id));
                }
            }
            i = i + 1;
        }
        assert(tickers@.take(i as int) =~= tickers@);
    }
}

} // verus!
