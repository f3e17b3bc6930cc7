//! The decisions of a trading client that runs one strategy on one
//! instrument without a trade engine: what a response from the exchange
//! does to the position, and which of a strategy's orders go out.

use vstd::prelude::*;
use crate::common::types::{Side, TickerId};
use crate::exchange::protocol::{ClientResponse, ClientResponseType};
use crate::trading::position::{Position, PositionKeeper};
use crate::trading::risk::{order_verdict, RiskCheckResult, RiskManager};
use crate::trading::strategies::{OrderRequest, StrategyAction};
use crate::trading::trade_engine::held;

verus! {

/// The side that a response names: a buy for `+1`, a sell for anything
/// else.
pub open spec fn response_side(response: ClientResponse) -> Side {
    if response.side == 1 {
        Side::Buy
    } else {
        Side::Sell
    }
}

/// Whether a response can be applied to the position of an instrument.
pub open spec fn response_applies(
    positions: Map<TickerId, Position>,
    ticker_id: TickerId,
    response: ClientResponse,
) -> bool {
    match response.kind() {
        Some(ClientResponseType::Filled) => held(positions, ticker_id).fill_fits(
            response_side(response),
            response.exec_qty,
            response.price,
        ),
        Some(ClientResponseType::Accepted) => held(positions, ticker_id).open_order_fits(
            response_side(response),
            response.leaves_qty,
        ),
        _ => true,
    }
}

/// The position of an instrument after a response.
///
/// * `Filled`: the executed quantity is filled at the response's price.
/// * `Accepted`: the remaining quantity becomes open.
/// * `Canceled`, `CancelRejected`: the remaining quantity stops being open.
/// * `InvalidRequest`, or an unknown kind: nothing changes.
pub open spec fn position_after_response(position: Position, response: ClientResponse) -> Position {
    let side = response_side(response);
    match response.kind() {
        Some(ClientResponseType::Filled) => position.after_fill(
            side,
            response.exec_qty,
            response.price,
        ),
        Some(ClientResponseType::Accepted) => position.after_open_order(side, response.leaves_qty),
        Some(ClientResponseType::Canceled) | Some(
            ClientResponseType::CancelRejected,
        ) => position.after_closed_order(side, response.leaves_qty),
        Some(ClientResponseType::InvalidRequest) | None => position,
    }
}

/// Whether a response touches the position at all.
pub open spec fn touches_position(response: ClientResponse) -> bool {
    response.kind() is Some && response.kind() != Some(ClientResponseType::InvalidRequest)
}

/// Returns whether a response can be applied to the position of an
/// instrument.
pub fn can_apply_response(keeper: &PositionKeeper, ticker_id: TickerId, response: &ClientResponse) -> (r:
    bool)
    ensures
        r == response_applies(keeper.positions(), ticker_id, *response),
{
    let position = match keeper.get_position(ticker_id) {
        Some(p) => *p,
        None => Position::new(ticker_id),
    };
    let side = if response.side == 1 {
        Side::Buy
    } else {
        Side::Sell
    };
    match response.response_type() {
        Some(ClientResponseType::Filled) => position.can_fill(side, response.exec_qty, response.price),
        Some(ClientResponseType::Accepted) => match side {
            Side::Buy => position.open_buy_qty <= u32::MAX - response.leaves_qty,
            Side::Sell => position.open_sell_qty <= u32::MAX - response.leaves_qty,
        },
        _ => true,
    }
}

/// Applies a response of the exchange to the position of the traded
/// instrument. Returns whether the response was a fill.
pub fn apply_response(keeper: &mut PositionKeeper, ticker_id: TickerId, response: &ClientResponse) -> (r:
    bool)
    requires
        response_applies(old(keeper).positions(), ticker_id, *response),
    ensures
        r == (response.kind() == Some(ClientResponseType::Filled)),
        touches_position(*response) ==> final(keeper).positions() == old(keeper).positions().insert(
            ticker_id,
            position_after_response(held(old(keeper).positions(), ticker_id), *response),
        ),
        !touches_position(*response) ==> final(keeper).positions() == old(keeper).positions(),
{
    let side = if response.side == 1 {
        Side::Buy
    } else {
        Side::Sell
    };
    match response.response_type() {
        Some(ClientResponseType::Filled) => {
            keeper.on_fill(ticker_id, side, response.exec_qty, response.price);
            true
        },
        Some(ClientResponseType::Accepted) => {
            let position = keeper.get_position_mut(ticker_id);
            position.add_open_order(side, response.leaves_qty);
            false
        },
        Some(ClientResponseType::Canceled) | Some(ClientResponseType::CancelRejected) => {
            let position = keeper.get_position_mut(ticker_id);
            position.remove_open_order(side, response.leaves_qty);
            false
        },
        _ => false,
    }
}

/// The order of a request if the limits of the position's instrument allow
/// it, as a sequence of one or none.
pub open spec fn allowed_order(risk: RiskManager, position: Position, request: OrderRequest) -> Seq<
    OrderRequest,
> {
    if order_verdict(risk.limits_of(position.ticker_id), position, request.side, request.qty)
        == RiskCheckResult::Allowed {
        seq![request]
    } else {
        Seq::empty()
    }
}

/// The orders of a strategy's action that go out: each order that the
/// limits allow for the position as it stands, the bid of a quote before
/// its ask.
pub open spec fn orders_allowed(risk: RiskManager, position: Position, action: StrategyAction) -> Seq<
    OrderRequest,
> {
    match action {
        StrategyAction::Quote(pair) => {
            let bid = match pair.bid {
                Some(request) => allowed_order(risk, position, request),
                None => Seq::empty(),
            };
            let ask = match pair.ask {
                Some(request) => allowed_order(risk, position, request),
                None => Seq::empty(),
            };
            bid + ask
        },
        StrategyAction::Take(request) => allowed_order(risk, position, request),
        StrategyAction::CancelAll(_) => Seq::empty(),
        StrategyAction::Idle => Seq::empty(),
    }
}

fn push_if_allowed(
    risk: &RiskManager,
    position: &Position,
    request: OrderRequest,
    out: &mut Vec<OrderRequest>,
)
    ensures
        final(out)@ == old(out)@ + allowed_order(*risk, *position, request),
{
    if risk.check_order(position, request.side, request.qty, request.price).is_allowed() {
        out.push(request);
        assert(out@ =~= old(out)@ + seq![request]);
    } else {
        assert(out@ =~= old(out)@ + Seq::<OrderRequest>::empty());
    }
}

/// Returns the orders of a strategy's action that are to be sent.
pub fn orders_to_send(risk: &RiskManager, position: &Position, action: &StrategyAction) -> (r: Vec<
    OrderRequest,
>)
    ensures
        r@ == orders_allowed(*risk, *position, *action),
{
    let mut out: Vec<OrderRequest> = Vec::new();
    match action {
        StrategyAction::Quote(pair) => {
            match pair.bid {
                Some(bid) => {
                    push_if_allowed(risk, position, bid, &mut out);
                },
                None => {},
            }
            match pair.ask {
                Some(ask) => {
                    push_if_allowed(risk, position, ask, &mut out);
                },
                None => {},
            }
        },
        StrategyAction::Take(order) => {
            push_if_allowed(risk, position, *order, &mut out);
        },
        StrategyAction::CancelAll(_) => {},
        StrategyAction::Idle => {},
    }
    out
}

} // verus!
