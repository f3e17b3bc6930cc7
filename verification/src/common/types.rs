//! Scalar identifiers, sentinels and the side of an order.

use vstd::prelude::*;

verus! {

/// Exchange-assigned or client-assigned order identifier.
pub type OrderId = u64;

/// Instrument identifier.
pub type TickerId = u32;

/// Client session identifier.
pub type ClientId = u32;

/// Fixed-point price in minor units.
pub type Price = i64;

/// Order quantity.
pub type Qty = u32;

/// Position of an order in its book's arrival order.
pub type Priority = u64;

/// The order id that no order carries.
pub const INVALID_ORDER_ID: OrderId = 0;

/// The ticker id that no instrument carries.
pub const INVALID_TICKER_ID: TickerId = 0xFFFF_FFFF;

/// The client id that no client carries.
pub const INVALID_CLIENT_ID: ClientId = 0xFFFF_FFFF;

/// The price that marks an absent price.
pub const INVALID_PRICE: Price = 0x7FFF_FFFF_FFFF_FFFF;

/// The quantity that marks an absent quantity.
pub const INVALID_QTY: Qty = 0xFFFF_FFFF;

/// The side of an order: a bid or an offer.
#[derive(Debug, Clone, Copy, PartialEq, Eq, Hash, Structural)]
pub enum Side {
    Buy,
    Sell,
}

impl Side {
    /// The sign of this side as a mathematical integer: `+1` for a buy, `-1`
    /// for a sell.
    pub open spec fn sign(self) -> int {
        match self {
            Side::Buy => 1,
            Side::Sell => -1,
        }
    }

    /// The other side.
    pub open spec fn flipped(self) -> Side {
        match self {
            Side::Buy => Side::Sell,
            Side::Sell => Side::Buy,
        }
    }

    /// The side that a wire byte stands for, if any: `+1` is a buy, `-1` a
    /// sell, and nothing else is a side.
    pub open spec fn of_wire(raw: i8) -> Option<Side> {
        if raw == 1 {
            Some(Side::Buy)
        } else if raw == -1 {
            Some(Side::Sell)
        } else {
            None
        }
    }

    /// Returns the opposite side.
    pub fn opposite(&self) -> (r: Side)
        ensures
            r == self.flipped(),
    {
        match self {
            Side::Buy => Side::Sell,
            Side::Sell => Side::Buy,
        }
    }

    /// Returns the side as a sign: `1` for a buy, `-1` for a sell.
    pub fn as_sign(&self) -> (r: i64)
        ensures
            r == self.sign(),
    {
        match self {
            Side::Buy => 1,
            Side::Sell => -1,
        }
    }

    /// Returns the byte that stands for this side on the wire.
    pub fn as_i8(&self) -> (r: i8)
        ensures
            r == self.sign(),
            Side::of_wire(r) == Some(*self),
    {
        match self {
            Side::Buy => 1,
            Side::Sell => -1,
        }
    }

    /// Reads a side from its wire byte; `None` for any byte but `+1` and `-1`.
    pub fn from_i8(raw: i8) -> (r: Option<Side>)
        ensures
            r == Side::of_wire(raw),
    {
        if raw == 1 {
            Some(Side::Buy)
        } else if raw == -1 {
            Some(Side::Sell)
        } else {
            None
        }
    }
}

/// Flipping a side twice gives the side back, and flipping negates the sign.
pub proof fn lemma_opposite_involution(s: Side)
    ensures
        s.flipped().flipped() == s,
        s.flipped().sign() == -s.sign(),
        s.flipped() != s,
{
}

} // verus!
