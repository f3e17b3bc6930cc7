//! Positions and profit and loss, per instrument.
//!
//! A fill moves the signed position, adds to the traded volume, and either
//! opens, adds to, reduces, closes or flips the position. Profit is realised
//! on the part of a fill that closes; the rest of the position is marked to
//! the last price.
//!
//! All formulas are stated over unbounded integers. A function that stores a
//! result asks, as its precondition, that the result fits the field.

use vstd::prelude::*;
use vstd::set_lib::*;
use vstd::std_specs::iter::IteratorSpec;
use std::collections::HashMap;
use crate::common::types::{Price, Qty, Side, TickerId};

verus! {

broadcast use vstd::std_specs::hash::group_hash_axioms;

/// The absolute value of an integer.
pub open spec fn abs(x: int) -> int {
    if x >= 0 {
        x
    } else {
        -x
    }
}

/// The quotient of `a` by a positive `b`, rounded toward zero.
pub open spec fn div_toward_zero(a: int, b: int) -> int {
    if a >= 0 {
        a / b
    } else {
        -((-a) / b)
    }
}

/// The quantity of a fill with the sign of its side.
pub open spec fn signed_qty(side: Side, qty: Qty) -> int {
    side.sign() * qty
}

/// Whether a fill of signed size `signed` reduces, closes or flips a
/// position of signed size `position`.
pub open spec fn reduces(position: int, signed: int) -> bool {
    (position > 0 && signed < 0) || (position < 0 && signed > 0)
}

/// The profit of marking a position to `last` that was opened at `avg`:
/// zero when flat, `(last - avg) * position` when long, and
/// `(avg - last) * -position` when short.
pub open spec fn unrealized_of(position: int, avg: int, last: int) -> int {
    if position == 0 {
        0
    } else if position > 0 {
        (last - avg) * position
    } else {
        (avg - last) * (-position)
    }
}

/// Position and profit and loss of one instrument.
#[derive(Debug, Clone, Copy, PartialEq, Eq, Structural)]
pub struct Position {
    pub ticker_id: TickerId,
    pub position: i64,
    pub open_buy_qty: Qty,
    pub open_sell_qty: Qty,
    pub volume_traded: u64,
    pub realized_pnl: i64,
    pub unrealized_pnl: i64,
    pub avg_open_price: Price,
    pub last_price: Price,
}

impl Default for Position {
    fn default() -> (r: Position)
        ensures
            r == Position::flat(0),
    {
        Position::new(0)
    }
}

impl Position {
    /// The flat position of an instrument: nothing held, nothing traded.
    pub open spec fn flat(ticker_id: TickerId) -> Position {
        Position {
            ticker_id,
            position: 0,
            open_buy_qty: 0,
            open_sell_qty: 0,
            volume_traded: 0,
            realized_pnl: 0,
            unrealized_pnl: 0,
            avg_open_price: 0,
            last_price: 0,
        }
    }

    /// The signed position after a fill.
    pub open spec fn filled_position(self, side: Side, qty: Qty) -> int {
        self.position + signed_qty(side, qty)
    }

    /// The traded volume after a fill.
    pub open spec fn filled_volume(self, qty: Qty) -> int {
        self.volume_traded + qty
    }

    /// The realised profit after a fill at `price`: a fill against the
    /// position realises, on the quantity it closes, the distance between
    /// `price` and the average open price.
    pub open spec fn filled_realized(self, side: Side, qty: Qty, price: Price) -> int {
        let signed = signed_qty(side, qty);
        if reduces(self.position as int, signed) {
            let closed = if abs(self.position as int) <= abs(signed) {
                abs(self.position as int)
            } else {
                abs(signed)
            };
            let per_unit = if self.position > 0 {
                price - self.avg_open_price
            } else {
                self.avg_open_price - price
            };
            self.realized_pnl + per_unit * closed
        } else {
            self.realized_pnl as int
        }
    }

    /// The average open price after a fill at `price`: the fill price when
    /// opening from flat or flipping, unchanged when reducing or closing,
    /// and the quantity-weighted average, rounded toward zero, when adding.
    pub open spec fn filled_avg(self, side: Side, qty: Qty, price: Price) -> int {
        let signed = signed_qty(side, qty);
        let after = self.position + signed;
        if self.position == 0 {
            price as int
        } else if reduces(self.position as int, signed) {
            if after != 0 && (after > 0) != (self.position > 0) {
                price as int
            } else {
                self.avg_open_price as int
            }
        } else {
            div_toward_zero(
                self.avg_open_price * abs(self.position as int) + price * abs(signed),
                abs(after),
            )
        }
    }

    /// The unrealised profit after a fill at `price`.
    pub open spec fn filled_unrealized(self, side: Side, qty: Qty, price: Price) -> int {
        unrealized_of(
            self.filled_position(side, qty),
            self.filled_avg(side, qty, price),
            price as int,
        )
    }

    /// Whether every result of a fill fits its field.
    pub open spec fn fill_fits(self, side: Side, qty: Qty, price: Price) -> bool {
        &&& i64::MIN <= self.filled_position(side, qty) <= i64::MAX
        &&& self.filled_volume(qty) <= u64::MAX
        &&& i64::MIN <= self.filled_realized(side, qty, price) <= i64::MAX
        &&& i64::MIN <= self.filled_avg(side, qty, price) <= i64::MAX
        &&& i64::MIN <= self.filled_unrealized(side, qty, price) <= i64::MAX
    }

    /// This position after a fill of `qty` at `price` on `side`.
    pub open spec fn after_fill(self, side: Side, qty: Qty, price: Price) -> Position {
        Position {
            position: self.filled_position(side, qty) as i64,
            volume_traded: self.filled_volume(qty) as u64,
            realized_pnl: self.filled_realized(side, qty, price) as i64,
            unrealized_pnl: self.filled_unrealized(side, qty, price) as i64,
            avg_open_price: self.filled_avg(side, qty, price) as i64,
            last_price: price,
            ..self
        }
    }

    /// The unrealised profit of this position marked to `price`.
    pub open spec fn marked_unrealized(self, price: Price) -> int {
        unrealized_of(self.position as int, self.avg_open_price as int, price as int)
    }

    /// This position marked to `price`.
    pub open spec fn after_mark(self, price: Price) -> Position {
        Position {
            last_price: price,
            unrealized_pnl: self.marked_unrealized(price) as i64,
            ..self
        }
    }

    /// This position after an order of `qty` on `side` was sent.
    pub open spec fn after_open_order(self, side: Side, qty: Qty) -> Position {
        match side {
            Side::Buy => Position { open_buy_qty: (self.open_buy_qty + qty) as Qty, ..self },
            Side::Sell => Position { open_sell_qty: (self.open_sell_qty + qty) as Qty, ..self },
        }
    }

    /// Whether the open quantity on `side` can grow by `qty`.
    pub open spec fn open_order_fits(self, side: Side, qty: Qty) -> bool {
        match side {
            Side::Buy => self.open_buy_qty + qty <= u32::MAX,
            Side::Sell => self.open_sell_qty + qty <= u32::MAX,
        }
    }

    /// This position after `qty` on `side` stopped being open: the open
    /// quantity shrinks by `qty`, to zero at least.
    pub open spec fn after_closed_order(self, side: Side, qty: Qty) -> Position {
        match side {
            Side::Buy => Position {
                open_buy_qty: if self.open_buy_qty >= qty {
                    (self.open_buy_qty - qty) as Qty
                } else {
                    0
                },
                ..self
            },
            Side::Sell => Position {
                open_sell_qty: if self.open_sell_qty >= qty {
                    (self.open_sell_qty - qty) as Qty
                } else {
                    0
                },
                ..self
            },
        }
    }

    /// Realised plus unrealised profit.
    pub open spec fn pnl(self) -> int {
        self.realized_pnl + self.unrealized_pnl
    }

    /// The position if every open buy fills.
    pub open spec fn long_exposure(self) -> int {
        self.position + self.open_buy_qty
    }

    /// The position if every open sell fills.
    pub open spec fn short_exposure(self) -> int {
        self.position - self.open_sell_qty
    }

    /// Creates the flat position of an instrument.
    pub fn new(ticker_id: TickerId) -> (r: Position)
        ensures
            r == Position::flat(ticker_id),
    {
        Position {
            ticker_id,
            position: 0,
            open_buy_qty: 0,
            open_sell_qty: 0,
            volume_traded: 0,
            realized_pnl: 0,
            unrealized_pnl: 0,
            avg_open_price: 0,
            last_price: 0,
        }
    }

    fn fill_parts(&self, side: Side, qty: Qty, price: Price) -> (r: (i128, i128, i128, i128))
        ensures
            r.0 == self.filled_position(side, qty),
            r.1 == self.filled_realized(side, qty, price),
            r.2 == self.filled_avg(side, qty, price),
            i64::MIN <= r.0 <= i64::MAX && i64::MIN <= r.2 <= i64::MAX ==> r.3
                == self.filled_unrealized(side, qty, price),
    {
        let signed: i128 = match side {
            Side::Buy => qty as i128,
            Side::Sell => -(qty as i128),
        };
        let old: i128 = self.position as i128;
        let after: i128 = old + signed;
        let avg: i128 = self.avg_open_price as i128;
        let px: i128 = price as i128;
        let old_abs: i128 = if old >= 0 { old } else { -old };
        let signed_abs: i128 = qty as i128;
        let after_abs: i128 = if after >= 0 { after } else { -after };
        let mut realized: i128 = self.realized_pnl as i128;
        let new_avg: i128;
        if old == 0 {
            new_avg = px;
        } else if (old > 0 && signed < 0) || (old < 0 && signed > 0) {
            let closed: i128 = if old_abs <= signed_abs { old_abs } else { signed_abs };
            let per_unit: i128 = if old > 0 { px - avg } else { avg - px };
            assert(-0x1_0000_0000_0000_0000 * 0x1_0000_0000 <= per_unit * closed
                <= 0x1_0000_0000_0000_0000 * 0x1_0000_0000) by (nonlinear_arith)
                requires
                    -0x1_0000_0000_0000_0000 <= per_unit <= 0x1_0000_0000_0000_0000,
                    0 <= closed <= 0x1_0000_0000,
            ;
            realized = realized + per_unit * closed;
            if after != 0 && (after > 0) != (old > 0) {
                new_avg = px;
            } else {
                new_avg = avg;
            }
        } else {
            assert(-0x8000_0000_0000_0000 * 0x8000_0000_0000_0000 <= avg * old_abs
                <= 0x8000_0000_0000_0000 * 0x8000_0000_0000_0000) by (nonlinear_arith)
                requires
                    -0x8000_0000_0000_0000 <= avg <= 0x8000_0000_0000_0000,
                    0 <= old_abs <= 0x8000_0000_0000_0000,
            ;
            assert(-0x8000_0000_0000_0000 * 0x1_0000_0000 <= px * signed_abs
                <= 0x8000_0000_0000_0000 * 0x1_0000_0000) by (nonlinear_arith)
                requires
                    -0x8000_0000_0000_0000 <= px <= 0x8000_0000_0000_0000,
                    0 <= signed_abs <= 0x1_0000_0000,
            ;
            let cost: i128 = avg * old_abs + px * signed_abs;
            new_avg = cost / after_abs;
        }
        let lo: i128 = -0x8000_0000_0000_0000;
        let hi: i128 = 0x7FFF_FFFF_FFFF_FFFF;
        let unrealized: i128 = if new_avg < lo || new_avg > hi || after < lo || after > hi {
            0
        } else if after == 0 {
            0
        } else if after > 0 {
            assert(-(0xFFFF_FFFF_FFFF_FFFF * 0x8000_0000_0000_0000) <= (px - new_avg) * after
                <= 0xFFFF_FFFF_FFFF_FFFF * 0x8000_0000_0000_0000) by (nonlinear_arith)
                requires
                    -0xFFFF_FFFF_FFFF_FFFF <= px - new_avg <= 0xFFFF_FFFF_FFFF_FFFF,
                    0 <= after <= 0x8000_0000_0000_0000,
            ;
            (px - new_avg) * after
        } else {
            assert(-(0xFFFF_FFFF_FFFF_FFFF * 0x8000_0000_0000_0000) <= (new_avg - px) * (-after)
                <= 0xFFFF_FFFF_FFFF_FFFF * 0x8000_0000_0000_0000) by (nonlinear_arith)
                requires
                    -0xFFFF_FFFF_FFFF_FFFF <= new_avg - px <= 0xFFFF_FFFF_FFFF_FFFF,
                    0 <= -after <= 0x8000_0000_0000_0000,
            ;
            (new_avg - px) * (-after)
        };
        (after, realized, new_avg, unrealized)
    }

    /// Returns whether a fill can be applied: whether every result fits its
    /// field.
    pub fn can_fill(&self, side: Side, qty: Qty, price: Price) -> (r: bool)
        ensures
            r == self.fill_fits(side, qty, price),
    {
        let (after, realized, avg, unrealized) = self.fill_parts(side, qty, price);
        let lo: i128 = -0x8000_0000_0000_0000;
        let hi: i128 = 0x7FFF_FFFF_FFFF_FFFF;
        self.volume_traded <= u64::MAX - qty as u64 && lo <= after && after <= hi && lo <= realized
            && realized <= hi && lo <= avg && avg <= hi && lo <= unrealized && unrealized <= hi
    }

    /// Applies a fill of `qty` at `price` on `side`.
    pub fn on_fill(&mut self, side: Side, qty: Qty, price: Price)
        requires
            old(self).fill_fits(side, qty, price),
        ensures
            *final(self) == old(self).after_fill(side, qty, price),
    {
        let (after, realized, avg, unrealized) = self.fill_parts(side, qty, price);
        self.volume_traded = self.volume_traded + qty as u64;
        self.last_price = price;
        self.position = after as i64;
        self.realized_pnl = realized as i64;
        self.avg_open_price = avg as i64;
        self.unrealized_pnl = unrealized as i64;
    }

    /// Records that an order of `qty` on `side` was sent.
    pub fn add_open_order(&mut self, side: Side, qty: Qty)
        requires
            old(self).open_order_fits(side, qty),
        ensures
            *final(self) == old(self).after_open_order(side, qty),
    {
        match side {
            Side::Buy => {
                self.open_buy_qty = self.open_buy_qty + qty;
            },
            Side::Sell => {
                self.open_sell_qty = self.open_sell_qty + qty;
            },
        }
    }

    /// Records that `qty` on `side` is no longer open, after a fill or a
    /// cancel. The open quantity never goes below zero.
    pub fn remove_open_order(&mut self, side: Side, qty: Qty)
        ensures
            *final(self) == old(self).after_closed_order(side, qty),
    {
        match side {
            Side::Buy => {
                self.open_buy_qty = self.open_buy_qty.saturating_sub(qty);
            },
            Side::Sell => {
                self.open_sell_qty = self.open_sell_qty.saturating_sub(qty);
            },
        }
    }

    /// Returns whether the position can be marked to `price`: whether the
    /// unrealised profit fits its field.
    pub fn can_mark(&self, price: Price) -> (r: bool)
        ensures
            r == (i64::MIN <= self.marked_unrealized(price) <= i64::MAX),
    {
        let u = self.mark_value(price);
        -0x8000_0000_0000_0000 <= u && u <= 0x7FFF_FFFF_FFFF_FFFF
    }

    fn mark_value(&self, price: Price) -> (r: i128)
        ensures
            r == self.marked_unrealized(price),
    {
        let pos: i128 = self.position as i128;
        let avg: i128 = self.avg_open_price as i128;
        let px: i128 = price as i128;
        if pos == 0 {
            0
        } else if pos > 0 {
            assert(-(0xFFFF_FFFF_FFFF_FFFF * 0x8000_0000_0000_0000) <= (px - avg) * pos
                <= 0xFFFF_FFFF_FFFF_FFFF * 0x8000_0000_0000_0000) by (nonlinear_arith)
                requires
                    -0xFFFF_FFFF_FFFF_FFFF <= px - avg <= 0xFFFF_FFFF_FFFF_FFFF,
                    0 <= pos <= 0x8000_0000_0000_0000,
            ;
            (px - avg) * pos
        } else {
            assert(-(0xFFFF_FFFF_FFFF_FFFF * 0x8000_0000_0000_0000) <= (avg - px) * (-pos)
                <= 0xFFFF_FFFF_FFFF_FFFF * 0x8000_0000_0000_0000) by (nonlinear_arith)
                requires
                    -0xFFFF_FFFF_FFFF_FFFF <= avg - px <= 0xFFFF_FFFF_FFFF_FFFF,
                    0 <= -pos <= 0x8000_0000_0000_0000,
            ;
            (avg - px) * (-pos)
        }
    }

    /// Marks the position to `price`.
    pub fn update_market_price(&mut self, price: Price)
        requires
            i64::MIN <= old(self).marked_unrealized(price) <= i64::MAX,
        ensures
            *final(self) == old(self).after_mark(price),
    {
        let u = self.mark_value(price);
        self.last_price = price;
        self.unrealized_pnl = u as i64;
    }

    /// Returns the signed position.
    pub fn net_position(&self) -> (r: i64)
        ensures
            r == self.position,
    {
        self.position
    }

    /// Returns realised plus unrealised profit.
    pub fn total_pnl(&self) -> (r: i64)
        requires
            i64::MIN <= self.pnl() <= i64::MAX,
        ensures
            r == self.pnl(),
    {
        self.realized_pnl + self.unrealized_pnl
    }

    /// Returns the position if every open buy fills.
    pub fn max_long_exposure(&self) -> (r: i64)
        requires
            self.long_exposure() <= i64::MAX,
        ensures
            r == self.long_exposure(),
    {
        self.position + self.open_buy_qty as i64
    }

    /// Returns the position if every open sell fills.
    pub fn max_short_exposure(&self) -> (r: i64)
        requires
            i64::MIN <= self.short_exposure(),
        ensures
            r == self.short_exposure(),
    {
        self.position - self.open_sell_qty as i64
    }
}

/// One fill: side, quantity and price.
pub struct Fill {
    pub side: Side,
    pub qty: Qty,
    pub price: Price,
}

/// A position after a sequence of fills, applied first to last.
pub open spec fn after_fills(start: Position, fills: Seq<Fill>) -> Position
    decreases fills.len(),
{
    if fills.len() == 0 {
        start
    } else {
        let f = fills.last();
        after_fills(start, fills.drop_last()).after_fill(f.side, f.qty, f.price)
    }
}

/// Whether each fill of a sequence fits the position that the fills before
/// it leave.
pub open spec fn fills_fit(start: Position, fills: Seq<Fill>) -> bool
    decreases fills.len(),
{
    if fills.len() == 0 {
        true
    } else {
        let f = fills.last();
        &&& fills_fit(start, fills.drop_last())
        &&& after_fills(start, fills.drop_last()).fill_fits(f.side, f.qty, f.price)
    }
}

/// The sum of the signed quantities of a sequence of fills.
pub open spec fn net_qty(fills: Seq<Fill>) -> int
    decreases fills.len(),
{
    if fills.len() == 0 {
        0
    } else {
        net_qty(fills.drop_last()) + signed_qty(fills.last().side, fills.last().qty)
    }
}

/// The sum of the quantities of a sequence of fills.
pub open spec fn gross_qty(fills: Seq<Fill>) -> int
    decreases fills.len(),
{
    if fills.len() == 0 {
        0
    } else {
        gross_qty(fills.drop_last()) + fills.last().qty
    }
}

/// After any sequence of fills, the position has moved by the sum of the
/// signed quantities and the traded volume has grown by the sum of the
/// quantities.
pub proof fn lemma_position_identity(start: Position, fills: Seq<Fill>)
    requires
        fills_fit(start, fills),
    ensures
        after_fills(start, fills).position == start.position + net_qty(fills),
        after_fills(start, fills).volume_traded == start.volume_traded + gross_qty(fills),
        after_fills(start, fills).ticker_id == start.ticker_id,
    decreases fills.len(),
{
    if fills.len() > 0 {
        lemma_position_identity(start, fills.drop_last());
    }
}

/// The sum of the profit of the positions filed under the keys below `n`.
pub open spec fn pnl_below(positions: Map<TickerId, Position>, n: nat) -> int
    decreases n,
{
    if n == 0 {
        0
    } else {
        let k = (n - 1) as TickerId;
        pnl_below(positions, (n - 1) as nat) + if positions.contains_key(k) {
            positions[k].pnl()
        } else {
            0
        }
    }
}

/// The sum of the profit of all positions of a map.
pub open spec fn pnl_sum(positions: Map<TickerId, Position>) -> int {
    pnl_below(positions, 0x1_0000_0000)
}

proof fn lemma_pnl_below_empty(positions: Map<TickerId, Position>, n: nat)
    requires
        forall|k: TickerId| !positions.contains_key(k),
        n <= 0x1_0000_0000,
    ensures
        pnl_below(positions, n) == 0,
    decreases n,
{
    if n > 0 {
        lemma_pnl_below_empty(positions, (n - 1) as nat);
    }
}

proof fn lemma_pnl_below_remove(positions: Map<TickerId, Position>, key: TickerId, n: nat)
    requires
        positions.contains_key(key),
        n <= 0x1_0000_0000,
    ensures
        pnl_below(positions, n) == pnl_below(positions.remove(key), n) + if key < n {
            positions[key].pnl()
        } else {
            0
        },
    decreases n,
{
    if n > 0 {
        lemma_pnl_below_remove(positions, key, (n - 1) as nat);
    }
}

/// The sum of the profit of a sequence of filed positions.
spec fn pnl_of_pairs(pairs: Seq<(TickerId, Position)>) -> int
    decreases pairs.len(),
{
    if pairs.len() == 0 {
        0
    } else {
        pnl_of_pairs(pairs.drop_last()) + pairs.last().1.pnl()
    }
}

proof fn lemma_pnl_of_pairs(positions: Map<TickerId, Position>, pairs: Seq<(TickerId, Position)>)
    requires
        pairs.no_duplicates(),
        pairs.to_set() == positions.kv_pairs(),
    ensures
        pnl_of_pairs(pairs) == pnl_sum(positions),
    decreases pairs.len(),
{
    if pairs.len() == 0 {
        assert forall|k: TickerId| !positions.contains_key(k) by {
            if positions.contains_key(k) {
                assert(positions.kv_pairs().contains((k, positions[k])));
                assert(pairs.to_set().contains((k, positions[k])));
            }
        }
        lemma_pnl_below_empty(positions, 0x1_0000_0000);
    } else {
        let last = pairs.last();
        let rest = pairs.drop_last();
        assert(pairs[pairs.len() - 1] == last);
        assert(pairs.to_set().contains(last));
        assert(positions.kv_pairs().contains(last));
        assert(positions.contains_key(last.0) && positions[last.0] == last.1);
        let smaller = positions.remove(last.0);
        assert(rest.no_duplicates());
        assert(rest.to_set() =~= smaller.kv_pairs()) by {
            assert forall|kv: (TickerId, Position)| rest.to_set().contains(kv)
                <==> smaller.kv_pairs().contains(kv) by {
                if rest.to_set().contains(kv) {
                    let i = choose|i: int| 0 <= i < rest.len() && rest[i] == kv;
                    assert(pairs[i] == kv);
                    assert(pairs.to_set().contains(kv));
                    assert(positions.kv_pairs().contains(kv));
                    if kv.0 == last.0 {
                        assert(kv == last);
                        assert(pairs[i] == pairs[pairs.len() - 1]);
                    }
                }
                if smaller.kv_pairs().contains(kv) {
                    assert(positions.kv_pairs().contains(kv));
                    assert(pairs.to_set().contains(kv));
                    let i = choose|i: int| 0 <= i < pairs.len() && pairs[i] == kv;
                    assert(i < pairs.len() - 1);
                    assert(rest[i] == kv);
                }
            }
        }
        lemma_pnl_of_pairs(smaller, rest);
        lemma_pnl_below_remove(positions, last.0, 0x1_0000_0000);
    }
}

proof fn lemma_pnl_of_pairs_bound(pairs: Seq<(TickerId, Position)>)
    ensures
        -pairs.len() * 0x1_0000_0000_0000_0000 <= pnl_of_pairs(pairs) <= pairs.len()
            * 0x1_0000_0000_0000_0000,
    decreases pairs.len(),
{
    if pairs.len() > 0 {
        lemma_pnl_of_pairs_bound(pairs.drop_last());
    }
}

proof fn lemma_pnl_of_pairs_take(pairs: Seq<(TickerId, Position)>, n: int)
    requires
        0 <= n < pairs.len(),
    ensures
        pnl_of_pairs(pairs.take(n + 1)) == pnl_of_pairs(pairs.take(n)) + pairs[n].1.pnl(),
{
    assert(pairs.take(n + 1).drop_last() =~= pairs.take(n));
    assert(pairs.take(n + 1).last() == pairs[n]);
}

/// A finite set of instrument ids has at most 2^32 members.
proof fn lemma_ticker_set_len(s: Set<TickerId>)
    requires
        s.finite(),
    ensures
        s.len() <= 0x1_0000_0000,
{
    let f = |k: TickerId| k as int;
    let image = s.map(f);
    assert(vstd::relations::injective_on(f, s));
    lemma_map_size(s, image, f);
    lemma_int_range(0, 0x1_0000_0000);
    assert(image.subset_of(set_int_range(0, 0x1_0000_0000)));
    lemma_len_subset(image, set_int_range(0, 0x1_0000_0000));
}

/// Whether a position is the position of some instrument of a map.
pub open spec fn is_filed(positions: Map<TickerId, Position>, position: Position) -> bool {
    exists|k: TickerId| #[trigger] positions.contains_key(k) && positions[k] == position
}

/// The positions of all instruments, with the sum of their profit as of the
/// last fill or price update that went through the keeper.
pub struct PositionKeeper {
    positions: HashMap<TickerId, Position>,
    total_pnl: i128,
}

impl Default for PositionKeeper {
    fn default() -> (r: PositionKeeper)
        ensures
            r.positions() == Map::<TickerId, Position>::empty(),
            r.cached_total() == 0,
    {
        PositionKeeper::new()
    }
}

impl PositionKeeper {
    /// The positions, by instrument.
    pub closed spec fn positions(&self) -> Map<TickerId, Position> {
        self.positions@
    }

    /// The cached sum of profit.
    pub closed spec fn cached_total(&self) -> int {
        self.total_pnl as int
    }

    /// The position of an instrument: its entry, or the flat position where
    /// it has none.
    pub open spec fn position_of(&self, ticker_id: TickerId) -> Position {
        if self.positions().contains_key(ticker_id) {
            self.positions()[ticker_id]
        } else {
            Position::flat(ticker_id)
        }
    }

    /// Creates a keeper without positions.
    pub fn new() -> (r: PositionKeeper)
        ensures
            r.positions() == Map::<TickerId, Position>::empty(),
            r.cached_total() == 0,
    {
        PositionKeeper { positions: HashMap::new(), total_pnl: 0 }
    }

    /// Returns the position of an instrument, if it has one.
    pub fn get_position(&self, ticker_id: TickerId) -> (r: Option<&Position>)
        ensures
            r is Some <==> self.positions().contains_key(ticker_id),
            r matches Some(p) ==> *p == self.positions()[ticker_id],
    {
        self.positions.get(&ticker_id)
    }

    /// Returns the position of an instrument for writing, creating the flat
    /// position if it has none. The cached sum is not refreshed by what the
    /// caller writes.
    pub fn get_position_mut(&mut self, ticker_id: TickerId) -> (r: &mut Position)
        ensures
            *r == old(self).position_of(ticker_id),
            final(self).positions() == old(self).positions().insert(ticker_id, *final(r)),
            final(self).cached_total() == old(self).cached_total(),
    {
        self.positions.entry(ticker_id).or_insert(Position::new(ticker_id))
    }

    /// Applies a fill to the position of an instrument, creating the
    /// position if need be, and refreshes the cached sum.
    pub fn on_fill(&mut self, ticker_id: TickerId, side: Side, qty: Qty, price: Price)
        requires
            old(self).position_of(ticker_id).fill_fits(side, qty, price),
        ensures
            final(self).positions() == old(self).positions().insert(
                ticker_id,
                old(self).position_of(ticker_id).after_fill(side, qty, price),
            ),
            final(self).cached_total() == pnl_sum(final(self).positions()),
    {
        let mut position = match self.positions.get(&ticker_id) {
            Some(p) => *p,
            None => Position::new(ticker_id),
        };
        position.on_fill(side, qty, price);
        self.positions.insert(ticker_id, position);
        self.recalculate_total_pnl();
    }

    /// Returns whether a price update can be applied to an instrument:
    /// whether it has no position or its position can be marked to `price`.
    pub fn can_mark(&self, ticker_id: TickerId, price: Price) -> (r: bool)
        ensures
            r == (self.positions().contains_key(ticker_id) ==> i64::MIN
                <= self.positions()[ticker_id].marked_unrealized(price) <= i64::MAX),
    {
        match self.positions.get(&ticker_id) {
            Some(p) => p.can_mark(price),
            None => true,
        }
    }

    /// Marks the position of an instrument to `price` and refreshes the
    /// cached sum. Does nothing for an instrument without a position.
    pub fn update_market_price(&mut self, ticker_id: TickerId, price: Price)
        requires
            old(self).positions().contains_key(ticker_id) ==> i64::MIN <= old(self).positions()[ticker_id].marked_unrealized(price) <= i64::MAX,
        ensures
            !old(self).positions().contains_key(ticker_id) ==> {
                &&& final(self).positions() == old(self).positions()
                &&& final(self).cached_total() == old(self).cached_total()
            },
            old(self).positions().contains_key(ticker_id) ==> {
                &&& final(self).positions() == old(self).positions().insert(
                    ticker_id,
                    old(self).positions()[ticker_id].after_mark(price),
                )
                &&& final(self).cached_total() == pnl_sum(final(self).positions())
            },
    {
        let found = match self.positions.get(&ticker_id) {
            Some(p) => Some(*p),
            None => None,
        };
        match found {
            Some(mut position) => {
                position.update_market_price(price);
                self.positions.insert(ticker_id, position);
                self.recalculate_total_pnl();
            },
            None => {},
        }
    }

    /// Returns the cached sum of profit over all positions.
    pub fn total_pnl(&self) -> (r: i64)
        requires
            i64::MIN <= self.cached_total() <= i64::MAX,
        ensures
            r == self.cached_total(),
    {
        self.total_pnl as i64
    }

    /// Returns the cached sum of profit over all positions, in a width that
    /// always holds it.
    pub fn total_pnl_wide(&self) -> (r: i128)
        ensures
            r == self.cached_total(),
    {
        self.total_pnl
    }

    /// Returns all positions, in no particular order: each position once,
    /// and nothing else.
    pub fn all_positions(&self) -> (r: Vec<Position>)
        ensures
            r@.len() == self.positions().dom().len(),
            forall|i: int| 0 <= i < r@.len() ==> is_filed(self.positions(), #[trigger] r@[i]),
            forall|k: TickerId| #[trigger]
                self.positions().contains_key(k) ==> r@.contains(self.positions()[k]),
    {
        let mut out: Vec<Position> = Vec::new();
        let ghost pairs = self.positions.iter().remaining().unref();
        let ghost n: int = 0;
        for kv in it: self.positions.iter()
            invariant
                it.seq().unref() == pairs,
                n == it.index(),
                pairs.to_set() == self.positions@.kv_pairs(),
                pairs.len() == self.positions@.dom().len(),
                out@.len() == n,
                forall|i: int| 0 <= i < n ==> out@[i] == pairs[i].1,
        {
            let (_key, position) = kv;
            out.push(*position);
            proof {
                n = n + 1;
            }
        }
        proof {
            assert(n == pairs.len());
            assert forall|i: int| 0 <= i < out@.len() implies is_filed(
                self.positions(),
                #[trigger] out@[i],
            ) by {
                assert(pairs.to_set().contains(pairs[i]));
                assert(self.positions@.kv_pairs().contains(pairs[i]));
                assert(self.positions().contains_key(pairs[i].0) && self.positions()[pairs[i].0]
                    == out@[i]);
            }
            assert forall|k: TickerId| #[trigger] self.positions().contains_key(k) implies out@.contains(
                self.positions()[k],
            ) by {
                let kv = (k, self.positions()[k]);
                assert(self.positions@.kv_pairs().contains(kv));
                assert(pairs.to_set().contains(kv));
                let i = choose|i: int| 0 <= i < pairs.len() && pairs[i] == kv;
                assert(out@[i] == self.positions()[k]);
            }
        }
        out
    }

    fn recalculate_total_pnl(&mut self)
        ensures
            final(self).positions() == old(self).positions(),
            final(self).cached_total() == pnl_sum(final(self).positions()),
    {
        let mut acc: i128 = 0;
        let ghost pairs = self.positions.iter().remaining().unref();
        let ghost n: int = 0;
        proof {
            lemma_ticker_set_len(self.positions@.dom());
        }
        for kv in it: self.positions.iter()
            invariant
                it.seq().unref() == pairs,
                n == it.index(),
                pairs.no_duplicates(),
                pairs.to_set() == self.positions@.kv_pairs(),
                pairs.len() == self.positions@.dom().len(),
                pairs.len() <= 0x1_0000_0000,
                acc == pnl_of_pairs(pairs.take(n)),
        {
            let (_key, position) = kv;
            proof {
                lemma_pnl_of_pairs_take(pairs, n);
                lemma_pnl_of_pairs_bound(pairs.take(n));
                assert(pairs.take(n).len() * 0x1_0000_0000_0000_0000 <= 0x1_0000_0000
                    * 0x1_0000_0000_0000_0000) by (nonlinear_arith)
                    requires
                        pairs.take(n).len() <= 0x1_0000_0000,
                ;
            }
            acc = acc + (position.realized_pnl as i128 + position.unrealized_pnl as i128);
            proof {
                n = n + 1;
            }
        }
        proof {
            assert(pairs.take(n) =~= pairs);
            lemma_pnl_of_pairs(self.positions@, pairs);
        }
        self.total_pnl = acc;
    }
}

} // verus!
