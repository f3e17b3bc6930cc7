//! What a strategy asks of the trade engine, and the integer decisions that
//! the strategies share.

use vstd::prelude::*;
use crate::common::types::{Price, Qty, Side, TickerId};

verus! {

/// A request to send one order.
#[derive(Debug, Clone, Copy, PartialEq, Eq, Structural)]
pub struct OrderRequest {
    pub ticker_id: TickerId,
    pub side: Side,
    pub price: Price,
    pub qty: Qty,
}

impl OrderRequest {
    /// Creates a request.
    pub fn new(ticker_id: TickerId, side: Side, price: Price, qty: Qty) -> (r: OrderRequest)
        ensures
            r == (OrderRequest { ticker_id, side, price, qty }),
    {
        OrderRequest { ticker_id, side, price, qty }
    }

    /// Creates a request to buy.
    pub fn buy(ticker_id: TickerId, price: Price, qty: Qty) -> (r: OrderRequest)
        ensures
            r == (OrderRequest { ticker_id, side: Side::Buy, price, qty }),
    {
        OrderRequest { ticker_id, side: Side::Buy, price, qty }
    }

    /// Creates a request to sell.
    pub fn sell(ticker_id: TickerId, price: Price, qty: Qty) -> (r: OrderRequest)
        ensures
            r == (OrderRequest { ticker_id, side: Side::Sell, price, qty }),
    {
        OrderRequest { ticker_id, side: Side::Sell, price, qty }
    }
}

/// A two-sided quote; either side may be absent.
#[derive(Debug, Clone, Copy, PartialEq, Eq, Structural)]
pub struct QuotePair {
    pub bid: Option<OrderRequest>,
    pub ask: Option<OrderRequest>,
}

impl QuotePair {
    /// Creates a quote with both sides.
    pub fn new(bid: OrderRequest, ask: OrderRequest) -> (r: QuotePair)
        ensures
            r == (QuotePair { bid: Some(bid), ask: Some(ask) }),
    {
        QuotePair { bid: Some(bid), ask: Some(ask) }
    }
}

/// What a strategy decided.
#[derive(Debug, Clone, Copy, PartialEq, Eq, Structural)]
pub enum StrategyAction {
    /// Do nothing.
    Idle,
    /// Quote both sides.
    Quote(QuotePair),
    /// Take liquidity with one order.
    Take(OrderRequest),
    /// Cancel all orders of an instrument.
    CancelAll(TickerId),
}

/// The distance between two prices.
pub open spec fn price_distance(a: Price, b: Price) -> int {
    if a >= b {
        a - b
    } else {
        b - a
    }
}

/// Whether a market maker that last quoted `last_bid` and `last_ask`
/// requotes at `new_bid` and `new_ask`: always when it has no earlier quote
/// (either last price is zero), else when either side moved by the
/// threshold or more.
pub open spec fn requote_due(
    last_bid: Price,
    last_ask: Price,
    new_bid: Price,
    new_ask: Price,
    threshold: Price,
) -> bool {
    last_bid == 0 || last_ask == 0 || price_distance(new_bid, last_bid) >= threshold
        || price_distance(new_ask, last_ask) >= threshold
}

/// Decides whether a market maker requotes.
pub fn should_update_quotes(
    last_bid: Price,
    last_ask: Price,
    new_bid: Price,
    new_ask: Price,
    threshold: Price,
) -> (r: bool)
    ensures
        r == requote_due(last_bid, last_ask, new_bid, new_ask, threshold),
{
    if last_bid == 0 || last_ask == 0 {
        return true;
    }
    let bid_move: i128 = new_bid as i128 - last_bid as i128;
    let ask_move: i128 = new_ask as i128 - last_ask as i128;
    let bid_dist: i128 = if bid_move >= 0 { bid_move } else { -bid_move };
    let ask_dist: i128 = if ask_move >= 0 { ask_move } else { -ask_move };
    bid_dist >= threshold as i128 || ask_dist >= threshold as i128
}

/// Builds the quote of a market maker: a side with quantity zero is left
/// out.
pub fn build_quote_pair(
    ticker_id: TickerId,
    bid_price: Price,
    bid_qty: Qty,
    ask_price: Price,
    ask_qty: Qty,
) -> (r: QuotePair)
    ensures
        r.bid == (if bid_qty > 0 {
            Some(OrderRequest { ticker_id, side: Side::Buy, price: bid_price, qty: bid_qty })
        } else {
            None
        }),
        r.ask == (if ask_qty > 0 {
            Some(OrderRequest { ticker_id, side: Side::Sell, price: ask_price, qty: ask_qty })
        } else {
            None
        }),
{
    let bid = if bid_qty > 0 {
        Some(OrderRequest::buy(ticker_id, bid_price, bid_qty))
    } else {
        None
    };
    let ask = if ask_qty > 0 {
        Some(OrderRequest::sell(ticker_id, ask_price, ask_qty))
    } else {
        None
    };
    QuotePair { bid, ask }
}

/// Decides whether a taker may send at `now_ns`: always before its first
/// order (`last_order_ns` is zero), else once the interval has passed since
/// the last order.
pub fn can_send_order(last_order_ns: u64, interval_ns: u64, now_ns: u64) -> (r: bool)
    ensures
        r == (last_order_ns == 0 || now_ns >= last_order_ns + interval_ns),
{
    if last_order_ns == 0 {
        return true;
    }
    now_ns as u128 >= last_order_ns as u128 + interval_ns as u128
}

/// The waiting interval of a taker after a fill: half the current interval,
/// but not less than the base interval.
pub fn interval_after_fill(interval_ns: u64, base_ns: u64) -> (r: u64)
    ensures
        r == (if interval_ns / 2 >= base_ns {
            interval_ns / 2
        } else {
            base_ns
        }),
{
    let halved = interval_ns / 2;
    if halved >= base_ns {
        halved
    } else {
        base_ns
    }
}

/// Whether a taker with position `position` may still grow it toward
/// `side`: a limit of zero means no limit; otherwise a buy is barred at the
/// limit or above, a sell at minus the limit or below.
pub fn within_position_limit(position: i64, max_position: i64, side: Side) -> (r: bool)
    ensures
        r == !(max_position > 0 && match side {
            Side::Buy => position >= max_position,
            Side::Sell => position <= -max_position,
        }),
{
    if max_position <= 0 {
        return true;
    }
    match side {
        Side::Buy => position < max_position,
        Side::Sell => position > -max_position,
    }
}

} // verus!
