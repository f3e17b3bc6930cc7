//! Pre-trade risk: limits per instrument and the checks that gate an order.
//!
//! The checks compare unbounded integers, so they have an answer for every
//! position and every limit.

use vstd::prelude::*;
use std::collections::HashMap;
use crate::common::types::{Price, Qty, Side, TickerId};
use crate::trading::position::{abs, Position};

verus! {

broadcast use vstd::std_specs::hash::group_hash_axioms;

/// The verdict of a risk check.
#[derive(Debug, Clone, Copy, PartialEq, Eq, Structural)]
pub enum RiskCheckResult {
    /// The order passes.
    Allowed,
    /// The order is larger than one order may be.
    OrderTooLarge,
    /// The position could grow beyond its limit.
    PositionTooLarge,
    /// The loss is beyond its limit.
    LossTooLarge,
    /// Too many orders are open.
    OpenOrdersTooMany,
}

impl RiskCheckResult {
    /// Returns true if the verdict is `Allowed`.
    pub fn is_allowed(&self) -> (r: bool)
        ensures
            r == (*self == RiskCheckResult::Allowed),
    {
        match self {
            RiskCheckResult::Allowed => true,
            _ => false,
        }
    }
}

/// The limits of one instrument.
#[derive(Debug, Clone, Copy, PartialEq, Eq, Structural)]
pub struct RiskLimits {
    /// Largest quantity of a single order.
    pub max_order_qty: Qty,
    /// Largest absolute position, open orders included.
    pub max_position: i64,
    /// Largest loss, realised plus unrealised.
    pub max_loss: i64,
    /// Number of open orders at which no further order is allowed.
    pub max_open_orders: u32,
}

impl Default for RiskLimits {
    fn default() -> (r: RiskLimits)
        ensures
            r == RiskLimits::standard(),
    {
        RiskLimits { max_order_qty: 1000, max_position: 10000, max_loss: 100000, max_open_orders: 100 }
    }
}

impl RiskLimits {
    /// The limits used where nothing else is configured.
    pub open spec fn standard() -> RiskLimits {
        RiskLimits { max_order_qty: 1000, max_position: 10000, max_loss: 100000, max_open_orders: 100 }
    }

    /// Whether `self` allows no more than `other` in order size, position
    /// and loss.
    pub open spec fn at_most(self, other: RiskLimits) -> bool {
        &&& self.max_order_qty <= other.max_order_qty
        &&& self.max_position <= other.max_position
        &&& self.max_loss <= other.max_loss
    }

    /// Creates limits with the given values.
    pub fn new(max_order_qty: Qty, max_position: i64, max_loss: i64, max_open_orders: u32) -> (r:
        RiskLimits)
        ensures
            r == (RiskLimits { max_order_qty, max_position, max_loss, max_open_orders }),
    {
        RiskLimits { max_order_qty, max_position, max_loss, max_open_orders }
    }
}

/// The position that an order of `qty` on `side` could lead to: the long
/// exposure plus `qty` for a buy, the short exposure minus `qty` for a sell.
pub open spec fn projected_position(position: Position, side: Side, qty: Qty) -> int {
    match side {
        Side::Buy => position.long_exposure() + qty,
        Side::Sell => position.short_exposure() - qty,
    }
}

/// The verdict on an order, in the fixed order of the checks: size, then
/// projected position, then loss.
pub open spec fn order_verdict(limits: RiskLimits, position: Position, side: Side, qty: Qty) ->
    RiskCheckResult {
    if qty > limits.max_order_qty {
        RiskCheckResult::OrderTooLarge
    } else if abs(projected_position(position, side, qty)) > limits.max_position {
        RiskCheckResult::PositionTooLarge
    } else if position.pnl() < -limits.max_loss {
        RiskCheckResult::LossTooLarge
    } else {
        RiskCheckResult::Allowed
    }
}

/// The verdict on the number of open orders.
pub open spec fn open_orders_verdict(limits: RiskLimits, open_orders: u32) -> RiskCheckResult {
    if open_orders >= limits.max_open_orders {
        RiskCheckResult::OpenOrdersTooMany
    } else {
        RiskCheckResult::Allowed
    }
}

/// The verdict on a position as it stands: position, then loss.
pub open spec fn position_verdict(limits: RiskLimits, position: Position) -> RiskCheckResult {
    if abs(position.position as int) > limits.max_position {
        RiskCheckResult::PositionTooLarge
    } else if position.pnl() < -limits.max_loss {
        RiskCheckResult::LossTooLarge
    } else {
        RiskCheckResult::Allowed
    }
}

/// The verdict on an order with the open-order count checked first.
pub open spec fn full_verdict(
    limits: RiskLimits,
    position: Position,
    side: Side,
    qty: Qty,
    open_orders: u32,
) -> RiskCheckResult {
    if open_orders_verdict(limits, open_orders) != RiskCheckResult::Allowed {
        RiskCheckResult::OpenOrdersTooMany
    } else {
        order_verdict(limits, position, side, qty)
    }
}

/// Tightening limits never allows more: an order that passes under limits
/// passes under any limits that are at least as wide in order size,
/// position and loss. Put the other way, tightening can only turn `Allowed`
/// into a rejection.
pub proof fn lemma_risk_monotone(
    tight: RiskLimits,
    wide: RiskLimits,
    position: Position,
    side: Side,
    qty: Qty,
)
    requires
        tight.at_most(wide),
        order_verdict(tight, position, side, qty) == RiskCheckResult::Allowed,
    ensures
        order_verdict(wide, position, side, qty) == RiskCheckResult::Allowed,
{
}

/// The same for the check of a position as it stands.
pub proof fn lemma_position_check_monotone(tight: RiskLimits, wide: RiskLimits, position: Position)
    requires
        tight.at_most(wide),
        position_verdict(tight, position) == RiskCheckResult::Allowed,
    ensures
        position_verdict(wide, position) == RiskCheckResult::Allowed,
{
}

/// Risk limits per instrument, with default limits for the rest.
pub struct RiskManager {
    limits: HashMap<TickerId, RiskLimits>,
    default_limits: RiskLimits,
}

impl Default for RiskManager {
    fn default() -> (r: RiskManager)
        ensures
            r.configured() == Map::<TickerId, RiskLimits>::empty(),
            r.fallback() == RiskLimits::standard(),
    {
        RiskManager::new()
    }
}

impl RiskManager {
    /// The limits configured per instrument.
    pub closed spec fn configured(&self) -> Map<TickerId, RiskLimits> {
        self.limits@
    }

    /// The limits of instruments without limits of their own.
    pub closed spec fn fallback(&self) -> RiskLimits {
        self.default_limits
    }

    /// The limits that apply to an instrument.
    pub open spec fn limits_of(&self, ticker_id: TickerId) -> RiskLimits {
        if self.configured().contains_key(ticker_id) {
            self.configured()[ticker_id]
        } else {
            self.fallback()
        }
    }

    /// Creates a manager with the standard default limits.
    pub fn new() -> (r: RiskManager)
        ensures
            r.configured() == Map::<TickerId, RiskLimits>::empty(),
            r.fallback() == RiskLimits::standard(),
    {
        RiskManager { limits: HashMap::new(), default_limits: RiskLimits::default() }
    }

    /// Creates a manager with the given default limits.
    pub fn with_default_limits(default_limits: RiskLimits) -> (r: RiskManager)
        ensures
            r.configured() == Map::<TickerId, RiskLimits>::empty(),
            r.fallback() == default_limits,
    {
        RiskManager { limits: HashMap::new(), default_limits }
    }

    /// Returns the limits of instruments without limits of their own.
    pub fn default_limits(&self) -> (r: &RiskLimits)
        ensures
            *r == self.fallback(),
    {
        &self.default_limits
    }

    /// Returns the number of instruments with limits of their own.
    pub fn configured_count(&self) -> (r: usize)
        ensures
            r == self.configured().dom().len(),
    {
        self.limits.len()
    }

    /// Sets the limits of an instrument.
    pub fn set_limits(&mut self, ticker_id: TickerId, limits: RiskLimits)
        ensures
            final(self).configured() == old(self).configured().insert(ticker_id, limits),
            final(self).fallback() == old(self).fallback(),
    {
        self.limits.insert(ticker_id, limits);
    }

    /// Returns the limits that apply to an instrument.
    pub fn get_limits(&self, ticker_id: TickerId) -> (r: &RiskLimits)
        ensures
            *r == self.limits_of(ticker_id),
    {
        match self.limits.get(&ticker_id) {
            Some(limits) => limits,
            None => &self.default_limits,
        }
    }

    /// Removes the limits of an instrument, which then falls back to the
    /// default limits.
    pub fn remove_limits(&mut self, ticker_id: TickerId)
        ensures
            final(self).configured() == old(self).configured().remove(ticker_id),
            final(self).fallback() == old(self).fallback(),
    {
        self.limits.remove(&ticker_id);
    }

    /// Checks an order against the limits of the position's instrument:
    /// size, then projected position, then loss. The price plays no part.
    pub fn check_order(&self, position: &Position, side: Side, qty: Qty, _price: Price) -> (r:
        RiskCheckResult)
        ensures
            r == order_verdict(self.limits_of(position.ticker_id), *position, side, qty),
    {
        let limits = *self.get_limits(position.ticker_id);
        if qty > limits.max_order_qty {
            return RiskCheckResult::OrderTooLarge;
        }
        let projected: i128 = match side {
            Side::Buy => position.position as i128 + position.open_buy_qty as i128 + qty as i128,
            Side::Sell => position.position as i128 - position.open_sell_qty as i128 - qty as i128,
        };
        let projected_abs: i128 = if projected >= 0 { projected } else { -projected };
        if projected_abs > limits.max_position as i128 {
            return RiskCheckResult::PositionTooLarge;
        }
        let pnl: i128 = position.realized_pnl as i128 + position.unrealized_pnl as i128;
        if pnl < -(limits.max_loss as i128) {
            return RiskCheckResult::LossTooLarge;
        }
        RiskCheckResult::Allowed
    }

    /// Checks the number of open orders of an instrument: at the limit or
    /// above, no further order is allowed.
    pub fn check_open_orders(&self, ticker_id: TickerId, current_open_orders: u32) -> (r:
        RiskCheckResult)
        ensures
            r == open_orders_verdict(self.limits_of(ticker_id), current_open_orders),
    {
        let limits = self.get_limits(ticker_id);
        if current_open_orders >= limits.max_open_orders {
            return RiskCheckResult::OpenOrdersTooMany;
        }
        RiskCheckResult::Allowed
    }

    /// Checks a position as it stands: position, then loss.
    pub fn check_position(&self, position: &Position) -> (r: RiskCheckResult)
        ensures
            r == position_verdict(self.limits_of(position.ticker_id), *position),
    {
        let limits = *self.get_limits(position.ticker_id);
        let held: i128 = position.position as i128;
        let held_abs: i128 = if held >= 0 { held } else { -held };
        if held_abs > limits.max_position as i128 {
            return RiskCheckResult::PositionTooLarge;
        }
        let pnl: i128 = position.realized_pnl as i128 + position.unrealized_pnl as i128;
        if pnl < -(limits.max_loss as i128) {
            return RiskCheckResult::LossTooLarge;
        }
        RiskCheckResult::Allowed
    }

    /// Checks the number of open orders first, then the order itself.
    pub fn check_order_with_open_orders(
        &self,
        position: &Position,
        side: Side,
        qty: Qty,
        price: Price,
        current_open_orders: u32,
    ) -> (r: RiskCheckResult)
        ensures
            r == full_verdict(
                self.limits_of(position.ticker_id),
                *position,
                side,
                qty,
                current_open_orders,
            ),
    {
        let open_orders_result = self.check_open_orders(position.ticker_id, current_open_orders);
        if !open_orders_result.is_allowed() {
            return open_orders_result;
        }
        self.check_order(position, side, qty, price)
    }
}

} // verus!
