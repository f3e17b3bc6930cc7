//! The trade engine: the client's state machine.
//!
//! The engine keeps the market view, the positions, the orders in flight and
//! their counts, and statistics. It takes events (market-data deltas and
//! exchange responses) and order requests, and answers with what is to be
//! sent. It sends nothing itself and reads no clock: the caller routes the
//! orders and cancels that the engine returns, and passes the time in.
//!
//! Every transition is stated over [`EngineState`], the engine's state as
//! mathematical maps.

use vstd::prelude::*;
use vstd::std_specs::iter::IteratorSpec;
use std::collections::HashMap;
use crate::common::time::Nanos;
use crate::common::types::{ClientId, OrderId, Price, Qty, Side, TickerId};
use crate::exchange::protocol::{ClientResponse, ClientResponseType, MarketUpdate, MarketUpdateType};
use crate::trading::market_data::{bbo_of, BBO};
use crate::trading::position::{Position, PositionKeeper};
use crate::trading::risk::{full_verdict, RiskCheckResult, RiskManager};
use crate::trading::strategies::{OrderRequest, StrategyAction};

verus! {

broadcast use vstd::std_specs::hash::group_hash_axioms;

/// Settings of a trade engine.
#[derive(Debug, Clone)]
pub struct TradeEngineConfig {
    /// The client id of this session.
    pub client_id: ClientId,
    /// The instruments to trade.
    pub tickers: Vec<TickerId>,
    /// Whether orders are checked against the risk limits.
    pub enable_risk_checks: bool,
    /// The largest number of events that one cycle processes.
    pub max_events_per_cycle: usize,
}

impl Default for TradeEngineConfig {
    fn default() -> (r: TradeEngineConfig)
        ensures
            r.client_id == 1,
            r.tickers@ == Seq::<TickerId>::empty(),
            r.enable_risk_checks,
            r.max_events_per_cycle == 100,
    {
        TradeEngineConfig {
            client_id: 1,
            tickers: Vec::new(),
            enable_risk_checks: true,
            max_events_per_cycle: 100,
        }
    }
}

impl TradeEngineConfig {
    /// Creates the default settings for a client.
    pub fn new(client_id: ClientId) -> (r: TradeEngineConfig)
        ensures
            r.client_id == client_id,
            r.tickers@ == Seq::<TickerId>::empty(),
            r.enable_risk_checks,
            r.max_events_per_cycle == 100,
    {
        TradeEngineConfig {
            client_id,
            tickers: Vec::new(),
            enable_risk_checks: true,
            max_events_per_cycle: 100,
        }
    }

    /// Sets the instruments to trade.
    pub fn with_tickers(self, tickers: Vec<TickerId>) -> (r: TradeEngineConfig)
        ensures
            r.tickers == tickers,
            r.client_id == self.client_id,
            r.enable_risk_checks == self.enable_risk_checks,
            r.max_events_per_cycle == self.max_events_per_cycle,
    {
        TradeEngineConfig {
            client_id: self.client_id,
            tickers,
            enable_risk_checks: self.enable_risk_checks,
            max_events_per_cycle: self.max_events_per_cycle,
        }
    }

    /// Switches the risk checks on or off.
    pub fn with_risk_checks(self, enabled: bool) -> (r: TradeEngineConfig)
        ensures
            r.enable_risk_checks == enabled,
            r.client_id == self.client_id,
            r.tickers == self.tickers,
            r.max_events_per_cycle == self.max_events_per_cycle,
    {
        TradeEngineConfig {
            client_id: self.client_id,
            tickers: self.tickers,
            enable_risk_checks: enabled,
            max_events_per_cycle: self.max_events_per_cycle,
        }
    }

    /// Sets the largest number of events per cycle.
    pub fn with_max_events_per_cycle(self, max: usize) -> (r: TradeEngineConfig)
        ensures
            r.max_events_per_cycle == max,
            r.client_id == self.client_id,
            r.tickers == self.tickers,
            r.enable_risk_checks == self.enable_risk_checks,
    {
        TradeEngineConfig {
            client_id: self.client_id,
            tickers: self.tickers,
            enable_risk_checks: self.enable_risk_checks,
            max_events_per_cycle: max,
        }
    }
}

/// Counters of what the engine did.
#[derive(Debug, Clone, Copy, PartialEq, Eq, Structural)]
pub struct TradeEngineStats {
    pub market_updates_processed: u64,
    pub responses_processed: u64,
    pub orders_submitted: u64,
    pub orders_rejected_risk: u64,
    pub fills_received: u64,
    pub strategy_cycles: u64,
    pub total_cycles: u64,
}

impl Default for TradeEngineStats {
    fn default() -> (r: TradeEngineStats)
        ensures
            r == TradeEngineStats::zero(),
    {
        TradeEngineStats::new()
    }
}

impl TradeEngineStats {
    /// All counters at zero.
    pub open spec fn zero() -> TradeEngineStats {
        TradeEngineStats {
            market_updates_processed: 0,
            responses_processed: 0,
            orders_submitted: 0,
            orders_rejected_risk: 0,
            fills_received: 0,
            strategy_cycles: 0,
            total_cycles: 0,
        }
    }

    /// Creates counters at zero.
    pub fn new() -> (r: TradeEngineStats)
        ensures
            r == TradeEngineStats::zero(),
    {
        TradeEngineStats {
            market_updates_processed: 0,
            responses_processed: 0,
            orders_submitted: 0,
            orders_rejected_risk: 0,
            fills_received: 0,
            strategy_cycles: 0,
            total_cycles: 0,
        }
    }

    /// Sets all counters to zero.
    pub fn reset(&mut self)
        ensures
            *final(self) == TradeEngineStats::zero(),
    {
        *self = TradeEngineStats::new();
    }
}

/// An order in flight, as the engine tracks it.
#[derive(Debug, Clone, Copy, PartialEq, Eq, Structural)]
pub struct TrackedOrder {
    pub order_id: OrderId,
    pub ticker_id: TickerId,
    pub side: Side,
    pub price: Price,
    pub original_qty: Qty,
    pub leaves_qty: Qty,
    pub sent_time: Nanos,
}

/// The open-order count of an instrument: its entry, or zero.
pub open spec fn count_of(counts: Map<TickerId, u32>, ticker_id: TickerId) -> u32 {
    if counts.contains_key(ticker_id) {
        counts[ticker_id]
    } else {
        0
    }
}

/// The position of an instrument: its entry, or the flat position.
pub open spec fn held(positions: Map<TickerId, Position>, ticker_id: TickerId) -> Position {
    if positions.contains_key(ticker_id) {
        positions[ticker_id]
    } else {
        Position::flat(ticker_id)
    }
}

/// One less, but not below zero.
pub open spec fn one_less(n: u32) -> u32 {
    if n > 0 {
        (n - 1) as u32
    } else {
        0
    }
}

/// The state of a trade engine.
pub ghost struct EngineState {
    /// Best bid and offer, by instrument.
    pub views: Map<TickerId, BBO>,
    /// Orders in flight, by order id.
    pub pending: Map<OrderId, TrackedOrder>,
    /// Number of open orders, by instrument.
    pub open_counts: Map<TickerId, u32>,
    /// Positions, by instrument.
    pub positions: Map<TickerId, Position>,
    /// Counters.
    pub stats: TradeEngineStats,
    /// Whether the engine runs.
    pub running: bool,
}

impl EngineState {
    /// Whether a market-data delta can be applied: the counter has room,
    /// and a trade can mark the position of its instrument.
    pub open spec fn update_fits(self, update: MarketUpdate) -> bool {
        &&& self.stats.market_updates_processed < u64::MAX
        &&& (update.kind() == Some(MarketUpdateType::Trade) && self.positions.contains_key(
            update.ticker_id,
        )) ==> i64::MIN <= self.positions[update.ticker_id].marked_unrealized(update.price)
            <= i64::MAX
    }

    /// The state after a market-data delta: the view of the instrument is
    /// created if need be and updated; a trade also marks the instrument's
    /// position, if it has one, to the trade price.
    pub open spec fn after_update(self, update: MarketUpdate) -> EngineState {
        let t = update.ticker_id;
        EngineState {
            views: self.views.insert(t, bbo_of(self.views, t).after_update(update)),
            positions: if update.kind() == Some(MarketUpdateType::Trade)
                && self.positions.contains_key(t) {
                self.positions.insert(t, self.positions[t].after_mark(update.price))
            } else {
                self.positions
            },
            stats: TradeEngineStats {
                market_updates_processed: (self.stats.market_updates_processed + 1) as u64,
                ..self.stats
            },
            ..self
        }
    }

    /// Whether a response can be applied: the counters have room, and a
    /// fill of an order in flight fits the position of the instrument.
    pub open spec fn response_fits(self, response: ClientResponse) -> bool {
        &&& self.stats.responses_processed < u64::MAX
        &&& (response.kind() == Some(ClientResponseType::Filled) && self.pending.contains_key(
            response.client_order_id,
        )) ==> {
            &&& self.stats.fills_received < u64::MAX
            &&& held(self.positions, response.ticker_id).fill_fits(
                self.pending[response.client_order_id].side,
                response.exec_qty,
                response.price,
            )
        }
    }

    /// The state after the order `id` of instrument `t` left the engine's
    /// books with `qty` still open on `side`.
    pub open spec fn order_gone(self, id: OrderId, t: TickerId) -> EngineState {
        if self.pending.contains_key(id) {
            let order = self.pending[id];
            EngineState {
                pending: self.pending.remove(id),
                positions: self.positions.insert(
                    t,
                    held(self.positions, t).after_closed_order(order.side, order.leaves_qty),
                ),
                open_counts: self.open_counts.insert(t, one_less(count_of(self.open_counts, t))),
                ..self
            }
        } else {
            self
        }
    }

    /// The state after a fill reported by `response`.
    pub open spec fn order_filled(self, response: ClientResponse) -> EngineState {
        let id = response.client_order_id;
        let t = response.ticker_id;
        let in_flight = self.pending.contains_key(id);
        let positions = if in_flight {
            let side = self.pending[id].side;
            self.positions.insert(
                t,
                held(self.positions, t).after_fill(
                    side,
                    response.exec_qty,
                    response.price,
                ).after_closed_order(side, response.exec_qty),
            )
        } else {
            self.positions
        };
        let stats = if in_flight {
            TradeEngineStats {
                fills_received: (self.stats.fills_received + 1) as u64,
                ..self.stats
            }
        } else {
            self.stats
        };
        if response.leaves_qty == 0 {
            EngineState {
                positions,
                stats,
                pending: self.pending.remove(id),
                open_counts: self.open_counts.insert(t, one_less(count_of(self.open_counts, t))),
                ..self
            }
        } else {
            EngineState {
                positions,
                stats,
                pending: if in_flight {
                    self.pending.insert(
                        id,
                        TrackedOrder { leaves_qty: response.leaves_qty, ..self.pending[id] },
                    )
                } else {
                    self.pending
                },
                ..self
            }
        }
    }

    /// The state after an exchange response.
    ///
    /// * `Accepted`, or an unknown kind: nothing but the counter changes.
    /// * `Filled`: the fill of an order in flight goes to the position and reduces
    ///   its open quantity; with nothing left the order is erased and the
    ///   open-order count drops, else the remaining quantity is recorded.
    /// * `Canceled`, `CancelRejected`, `InvalidRequest`: an order in flight is
    ///   erased, its remaining quantity leaves the open quantity, and the
    ///   open-order count drops.
    pub open spec fn after_response(self, response: ClientResponse) -> EngineState {
        let counted = EngineState {
            stats: TradeEngineStats {
                responses_processed: (self.stats.responses_processed + 1) as u64,
                ..self.stats
            },
            ..self
        };
        match response.kind() {
            Some(ClientResponseType::Filled) => counted.order_filled(response),
            Some(ClientResponseType::Canceled) | Some(ClientResponseType::CancelRejected) | Some(
                ClientResponseType::InvalidRequest,
            ) => counted.order_gone(response.client_order_id, response.ticker_id),
            Some(ClientResponseType::Accepted) | None => counted,
        }
    }

    /// The id under which an order goes out: the one the router assigned,
    /// or, where nothing routes orders, the number of the submission.
    pub open spec fn order_id_for(self, assigned: Option<OrderId>) -> OrderId {
        match assigned {
            Some(id) => id,
            None => (self.stats.orders_submitted + 1) as OrderId,
        }
    }

    /// Whether an accepted order can be recorded.
    pub open spec fn submit_fits(self, ticker_id: TickerId, side: Side, qty: Qty) -> bool {
        &&& self.stats.orders_submitted < u64::MAX
        &&& count_of(self.open_counts, ticker_id) < u32::MAX
        &&& held(self.positions, ticker_id).open_order_fits(side, qty)
    }

    /// The state after an order passed the risk check and went out under
    /// `id`: it is in flight, counted as open, and its quantity is open on
    /// its side.
    pub open spec fn after_submit(
        self,
        id: OrderId,
        ticker_id: TickerId,
        side: Side,
        price: Price,
        qty: Qty,
        now: Nanos,
    ) -> EngineState {
        EngineState {
            pending: self.pending.insert(
                id,
                TrackedOrder {
                    order_id: id,
                    ticker_id,
                    side,
                    price,
                    original_qty: qty,
                    leaves_qty: qty,
                    sent_time: now,
                },
            ),
            open_counts: self.open_counts.insert(
                ticker_id,
                (count_of(self.open_counts, ticker_id) + 1) as u32,
            ),
            positions: self.positions.insert(
                ticker_id,
                held(self.positions, ticker_id).after_open_order(side, qty),
            ),
            stats: TradeEngineStats {
                orders_submitted: (self.stats.orders_submitted + 1) as u64,
                ..self.stats
            },
            ..self
        }
    }

    /// The state after an order failed the risk check.
    pub open spec fn after_rejection(self) -> EngineState {
        EngineState {
            stats: TradeEngineStats {
                orders_rejected_risk: (self.stats.orders_rejected_risk + 1) as u64,
                ..self.stats
            },
            ..self
        }
    }
}

/// The state and the number of responses applied when a cycle takes
/// responses from the front of `responses`: it stops at the end, at the cap,
/// or at the first response that cannot be applied.
pub open spec fn run_responses(state: EngineState, responses: Seq<ClientResponse>, cap: nat) -> (
    EngineState,
    nat,
)
    decreases responses.len(),
{
    if responses.len() == 0 || cap == 0 || !state.response_fits(responses[0]) {
        (state, 0)
    } else {
        let rest = run_responses(
            state.after_response(responses[0]),
            responses.drop_first(),
            (cap - 1) as nat,
        );
        (rest.0, (rest.1 + 1) as nat)
    }
}

/// The same for market-data deltas.
pub open spec fn run_updates(state: EngineState, updates: Seq<MarketUpdate>, cap: nat) -> (
    EngineState,
    nat,
)
    decreases updates.len(),
{
    if updates.len() == 0 || cap == 0 || !state.update_fits(updates[0]) {
        (state, 0)
    } else {
        let rest = run_updates(
            state.after_update(updates[0]),
            updates.drop_first(),
            (cap - 1) as nat,
        );
        (rest.0, (rest.1 + 1) as nat)
    }
}

/// The verdict of the risk check on an order in a given state: `Allowed`
/// when the checks are switched off, else the open-order count and then the
/// order against the limits of the instrument's position.
pub open spec fn verdict_in(
    risk: RiskManager,
    checks_on: bool,
    state: EngineState,
    ticker_id: TickerId,
    side: Side,
    qty: Qty,
) -> RiskCheckResult {
    if !checks_on {
        RiskCheckResult::Allowed
    } else {
        let position = held(state.positions, ticker_id);
        full_verdict(
            risk.limits_of(position.ticker_id),
            position,
            side,
            qty,
            count_of(state.open_counts, ticker_id),
        )
    }
}

/// Whether the outcome of submitting an order can be recorded in a given
/// state.
pub open spec fn order_fits_in(
    risk: RiskManager,
    checks_on: bool,
    state: EngineState,
    ticker_id: TickerId,
    side: Side,
    qty: Qty,
) -> bool {
    if verdict_in(risk, checks_on, state, ticker_id, side, qty) == RiskCheckResult::Allowed {
        state.submit_fits(ticker_id, side, qty)
    } else {
        state.stats.orders_rejected_risk < u64::MAX
    }
}

/// The state after submitting an order request, with what is reported of
/// it: the id and `Allowed` for an order that went out, no id and the
/// verdict for one that was refused.
pub open spec fn submitted_in(
    risk: RiskManager,
    checks_on: bool,
    state: EngineState,
    request: OrderRequest,
    assigned: Option<OrderId>,
    now: Nanos,
) -> (EngineState, (Option<OrderId>, RiskCheckResult)) {
    let verdict = verdict_in(risk, checks_on, state, request.ticker_id, request.side, request.qty);
    if verdict == RiskCheckResult::Allowed {
        let id = state.order_id_for(assigned);
        (
            state.after_submit(id, request.ticker_id, request.side, request.price, request.qty, now),
            (Some(id), RiskCheckResult::Allowed),
        )
    } else {
        (state.after_rejection(), (None, verdict))
    }
}

/// The id that the router gives the order after one that was reported as
/// `report`: the next id if that order went out, the same id if it was
/// refused.
pub open spec fn assigned_after(
    assigned: Option<OrderId>,
    report: (Option<OrderId>, RiskCheckResult),
) -> Option<OrderId> {
    match assigned {
        Some(id) => if report.0 is Some {
            Some((id + 1) as OrderId)
        } else {
            assigned
        },
        None => None,
    }
}

/// The state after the bid and then the ask of a quote were submitted,
/// with the reports of the sides that are present, bid first.
pub open spec fn quoted_in(
    risk: RiskManager,
    checks_on: bool,
    state: EngineState,
    bid: Option<OrderRequest>,
    ask: Option<OrderRequest>,
    assigned: Option<OrderId>,
    now: Nanos,
) -> (EngineState, Seq<(Option<OrderId>, RiskCheckResult)>) {
    let first = match bid {
        Some(request) => {
            let step = submitted_in(risk, checks_on, state, request, assigned, now);
            (step.0, seq![step.1], assigned_after(assigned, step.1))
        },
        None => (state, Seq::<(Option<OrderId>, RiskCheckResult)>::empty(), assigned),
    };
    match ask {
        Some(request) => {
            let step = submitted_in(risk, checks_on, first.0, request, first.2, now);
            (step.0, first.1.push(step.1))
        },
        None => (first.0, first.1),
    }
}

/// Whether both sides of a quote can be recorded, one after the other.
pub open spec fn quote_fits_in(
    risk: RiskManager,
    checks_on: bool,
    state: EngineState,
    bid: Option<OrderRequest>,
    ask: Option<OrderRequest>,
    assigned: Option<OrderId>,
    now: Nanos,
) -> bool {
    let after_bid = quoted_in(risk, checks_on, state, bid, None, assigned, now);
    &&& bid matches Some(request) ==> {
        &&& order_fits_in(risk, checks_on, state, request.ticker_id, request.side, request.qty)
        &&& assigned matches Some(id) ==> id < u64::MAX
    }
    &&& ask matches Some(request) ==> order_fits_in(
        risk,
        checks_on,
        after_bid.0,
        request.ticker_id,
        request.side,
        request.qty,
    )
}

/// Whether a strategy's action can be carried out.
pub open spec fn action_fits_in(
    risk: RiskManager,
    checks_on: bool,
    state: EngineState,
    action: StrategyAction,
    assigned: Option<OrderId>,
    now: Nanos,
) -> bool {
    &&& state.stats.strategy_cycles < u64::MAX
    &&& match action {
        StrategyAction::Idle => true,
        StrategyAction::CancelAll(_) => true,
        StrategyAction::Take(request) => order_fits_in(
            risk,
            checks_on,
            state,
            request.ticker_id,
            request.side,
            request.qty,
        ),
        StrategyAction::Quote(pair) => quote_fits_in(
            risk,
            checks_on,
            state,
            pair.bid,
            pair.ask,
            assigned,
            now,
        ),
    }
}

/// The state after a strategy's action, with the reports of the orders it
/// asked for: an idle action and a cancel-all change nothing but the
/// counter of strategy cycles; a take submits one order; a quote submits
/// the bid and then the ask.
pub open spec fn acted_in(
    risk: RiskManager,
    checks_on: bool,
    state: EngineState,
    action: StrategyAction,
    assigned: Option<OrderId>,
    now: Nanos,
) -> (EngineState, Seq<(Option<OrderId>, RiskCheckResult)>) {
    let done = match action {
        StrategyAction::Idle => (state, Seq::<(Option<OrderId>, RiskCheckResult)>::empty()),
        StrategyAction::CancelAll(_) => (
            state,
            Seq::<(Option<OrderId>, RiskCheckResult)>::empty(),
        ),
        StrategyAction::Take(request) => {
            let step = submitted_in(risk, checks_on, state, request, assigned, now);
            (step.0, seq![step.1])
        },
        StrategyAction::Quote(pair) => quoted_in(
            risk,
            checks_on,
            state,
            pair.bid,
            pair.ask,
            assigned,
            now,
        ),
    };
    (
        EngineState {
            stats: TradeEngineStats {
                strategy_cycles: (done.0.stats.strategy_cycles + 1) as u64,
                ..done.0.stats
            },
            ..done.0
        },
        done.1,
    )
}

/// The client-side orchestrator.
pub struct TradeEngine {
    config: TradeEngineConfig,
    risk_manager: RiskManager,
    position_keeper: PositionKeeper,
    bbo_state: HashMap<TickerId, BBO>,
    pending_orders: HashMap<OrderId, TrackedOrder>,
    open_order_count: HashMap<TickerId, u32>,
    stats: TradeEngineStats,
    running: bool,
}

impl TradeEngine {
    /// The state of the engine.
    pub closed spec fn state(&self) -> EngineState {
        EngineState {
            views: self.bbo_state@,
            pending: self.pending_orders@,
            open_counts: self.open_order_count@,
            positions: self.position_keeper.positions(),
            stats: self.stats,
            running: self.running,
        }
    }

    /// The risk manager of the engine.
    pub closed spec fn risk(&self) -> RiskManager {
        self.risk_manager
    }

    /// The settings of the engine.
    pub closed spec fn settings(&self) -> TradeEngineConfig {
        self.config
    }

    /// The verdict of the risk check on an order, as the engine stands.
    pub open spec fn verdict(&self, ticker_id: TickerId, side: Side, qty: Qty) -> RiskCheckResult {
        verdict_in(
            self.risk(),
            self.settings().enable_risk_checks,
            self.state(),
            ticker_id,
            side,
            qty,
        )
    }

    /// Whether the outcome of submitting an order can be recorded, as the
    /// engine stands.
    pub open spec fn order_fits(&self, ticker_id: TickerId, side: Side, qty: Qty) -> bool {
        order_fits_in(
            self.risk(),
            self.settings().enable_risk_checks,
            self.state(),
            ticker_id,
            side,
            qty,
        )
    }

    /// Whether a strategy's action can be carried out, as the engine
    /// stands.
    pub open spec fn action_fits(
        &self,
        action: StrategyAction,
        assigned: Option<OrderId>,
        now: Nanos,
    ) -> bool {
        action_fits_in(
            self.risk(),
            self.settings().enable_risk_checks,
            self.state(),
            action,
            assigned,
            now,
        )
    }

    /// Creates an engine that is not running, with an empty view and an
    /// open-order count of zero for each configured instrument.
    pub fn new(config: TradeEngineConfig) -> (engine: TradeEngine)
        ensures
            engine.settings() == config,
            !engine.state().running,
            engine.state().stats == TradeEngineStats::zero(),
            engine.state().pending == Map::<OrderId, TrackedOrder>::empty(),
            engine.state().positions == Map::<TickerId, Position>::empty(),
            forall|t: TickerId|
                engine.state().views.contains_key(t) <==> config.tickers@.contains(t),
            forall|t: TickerId|
                engine.state().open_counts.contains_key(t) <==> config.tickers@.contains(t),
            forall|t: TickerId| #[trigger]
                config.tickers@.contains(t) ==> engine.state().views[t] == BBO::empty()
                    && engine.state().open_counts[t] == 0,
    {
        let mut engine = TradeEngine {
            config,
            risk_manager: RiskManager::new(),
            position_keeper: PositionKeeper::new(),
            bbo_state: HashMap::new(),
            pending_orders: HashMap::new(),
            open_order_count: HashMap::new(),
            stats: TradeEngineStats::new(),
            running: false,
        };
        engine.seed_tickers();
        engine
    }

    fn seed_tickers(&mut self)
        requires
            old(self).bbo_state@ == Map::<TickerId, BBO>::empty(),
            old(self).open_order_count@ == Map::<TickerId, u32>::empty(),
        ensures
            final(self).config == old(self).config,
            final(self).risk_manager == old(self).risk_manager,
            final(self).position_keeper == old(self).position_keeper,
            final(self).pending_orders == old(self).pending_orders,
            final(self).stats == old(self).stats,
            final(self).running == old(self).running,
            forall|t: TickerId|
                final(self).bbo_state@.contains_key(t) <==> old(self).config.tickers@.contains(t),
            forall|t: TickerId|
                final(self).open_order_count@.contains_key(t) <==> old(self).config.tickers@.contains(t),
            forall|t: TickerId| #[trigger]
                old(self).config.tickers@.contains(t) ==> final(self).bbo_state@[t]
                    == BBO::empty() && final(self).open_order_count@[t] == 0,
    {
        let mut i: usize = 0;
        while i < self.config.tickers.len()
            invariant
                i <= self.config.tickers.len(),
                self.config == old(self).config,
                self.risk_manager == old(self).risk_manager,
                self.position_keeper == old(self).position_keeper,
                self.pending_orders == old(self).pending_orders,
                self.stats == old(self).stats,
                self.running == old(self).running,
                forall|t: TickerId|
                    self.bbo_state@.contains_key(t) <==> self.config.tickers@.take(
                        i as int,
                    ).contains(t),
                forall|t: TickerId|
                    self.open_order_count@.contains_key(t) <==> self.config.tickers@.take(
                        i as int,
                    ).contains(t),
                forall|t: TickerId| #[trigger]
                    self.bbo_state@.contains_key(t) ==> self.bbo_state@[t] == BBO::empty()
                        && self.open_order_count@[t] == 0,
            decreases self.config.tickers.len() - i,
        {
            let ticker_id = self.config.tickers[i];
            let ghost views = self.bbo_state@;
            let ghost counts = self.open_order_count@;
            self.bbo_state.insert(ticker_id, BBO::new());
            self.open_order_count.insert(ticker_id, 0);
            proof {
                let before = self.config.tickers@.take(i as int);
                let after = self.config.tickers@.take(i + 1);
                assert(after =~= before.push(ticker_id));
                assert(after[i as int] == ticker_id);
                assert forall|t: TickerId| after.contains(t) <==> (before.contains(t) || t
                    == ticker_id) by {
                    if before.contains(t) {
                        let j = choose|j: int| 0 <= j < before.len() && before[j] == t;
                        assert(after[j] == t);
                    }
                    if after.contains(t) {
                        let j = choose|j: int| 0 <= j < after.len() && after[j] == t;
                        if j < i {
                            assert(before[j] == t);
                        }
                    }
                }
                assert forall|t: TickerId|
                    self.bbo_state@.contains_key(t) <==> after.contains(t) by {
                    assert(views.contains_key(t) <==> before.contains(t));
                }
                assert forall|t: TickerId|
                    self.open_order_count@.contains_key(t) <==> after.contains(t) by {
                    assert(counts.contains_key(t) <==> before.contains(t));
                }
            }
            i = i + 1;
        }
        proof {
            assert(self.config.tickers@.take(i as int) =~= self.config.tickers@);
            assert forall|t: TickerId| #[trigger]
                old(self).config.tickers@.contains(t) implies self.bbo_state@[t] == BBO::empty()
                && self.open_order_count@[t] == 0 by {
                assert(self.bbo_state@.contains_key(t));
            }
        }
    }

    /// Creates an engine with the default settings for a client.
    pub fn with_defaults(client_id: ClientId) -> (engine: TradeEngine)
        ensures
            engine.settings().client_id == client_id,
            engine.settings().enable_risk_checks,
            engine.settings().max_events_per_cycle == 100,
            !engine.state().running,
            engine.state().stats == TradeEngineStats::zero(),
            engine.state().pending == Map::<OrderId, TrackedOrder>::empty(),
            engine.state().positions == Map::<TickerId, Position>::empty(),
            engine.state().views == Map::<TickerId, BBO>::empty(),
            engine.state().open_counts == Map::<TickerId, u32>::empty(),
    {
        let engine = TradeEngine::new(TradeEngineConfig::new(client_id));
        proof {
            assert forall|t: TickerId| !engine.state().views.contains_key(t) by {
                if engine.settings().tickers@.contains(t) {
                    let j = choose|j: int|
                        0 <= j < engine.settings().tickers@.len() && engine.settings().tickers@[j]
                            == t;
                }
            }
            assert forall|t: TickerId| !engine.state().open_counts.contains_key(t) by {
                if engine.settings().tickers@.contains(t) {
                    let j = choose|j: int|
                        0 <= j < engine.settings().tickers@.len() && engine.settings().tickers@[j]
                            == t;
                }
            }
            assert(engine.state().views =~= Map::<TickerId, BBO>::empty());
            assert(engine.state().open_counts =~= Map::<TickerId, u32>::empty());
        }
        engine
    }

    /// Returns the risk manager.
    pub fn risk_manager(&self) -> (r: &RiskManager)
        ensures
            *r == self.risk(),
    {
        &self.risk_manager
    }

    /// Returns the risk manager for writing. Nothing else changes.
    pub fn risk_manager_mut(&mut self) -> (r: &mut RiskManager)
        ensures
            *r == old(self).risk(),
            final(self).risk() == *final(r),
            final(self).state() == old(self).state(),
            final(self).settings() == old(self).settings(),
    {
        &mut self.risk_manager
    }

    /// Returns the position keeper.
    pub fn position_keeper(&self) -> (r: &PositionKeeper)
        ensures
            r.positions() == self.state().positions,
    {
        &self.position_keeper
    }

    /// Returns the position keeper for writing. The positions of the state
    /// are those of the keeper after the caller's writes.
    pub fn position_keeper_mut(&mut self) -> (r: &mut PositionKeeper)
        ensures
            r.positions() == old(self).state().positions,
            final(self).state() == (EngineState {
                positions: final(r).positions(),
                ..old(self).state()
            }),
            final(self).risk() == old(self).risk(),
            final(self).settings() == old(self).settings(),
    {
        &mut self.position_keeper
    }

    /// Returns the counters.
    pub fn stats(&self) -> (r: &TradeEngineStats)
        ensures
            *r == self.state().stats,
    {
        &self.stats
    }

    /// Returns the settings.
    pub fn config(&self) -> (r: &TradeEngineConfig)
        ensures
            *r == self.settings(),
    {
        &self.config
    }

    /// Returns whether the engine runs.
    pub fn is_running(&self) -> (r: bool)
        ensures
            r == self.state().running,
    {
        self.running
    }

    /// Starts the engine.
    pub fn start(&mut self)
        ensures
            final(self).state() == (EngineState { running: true, ..old(self).state() }),
            final(self).risk() == old(self).risk(),
            final(self).settings() == old(self).settings(),
    {
        self.running = true;
    }

    /// Stops the engine.
    pub fn stop(&mut self)
        ensures
            final(self).state() == (EngineState { running: false, ..old(self).state() }),
            final(self).risk() == old(self).risk(),
            final(self).settings() == old(self).settings(),
    {
        self.running = false;
    }

    /// Returns whether a market-data delta can be applied.
    pub fn can_apply_update(&self, update: &MarketUpdate) -> (r: bool)
        ensures
            r == self.state().update_fits(*update),
    {
        if self.stats.market_updates_processed == u64::MAX {
            return false;
        }
        match update.update_type() {
            Some(MarketUpdateType::Trade) => self.position_keeper.can_mark(
                update.ticker_id,
                update.price,
            ),
            _ => true,
        }
    }

    /// Processes a market-data delta and returns its instrument, whose view
    /// the caller may now read.
    pub fn on_market_update(&mut self, update: &MarketUpdate) -> (r: Option<TickerId>)
        requires
            old(self).state().update_fits(*update),
        ensures
            r == Some(update.ticker_id),
            final(self).state() == old(self).state().after_update(*update),
            final(self).risk() == old(self).risk(),
            final(self).settings() == old(self).settings(),
    {
        let ticker_id = update.ticker_id;
        let mut view = match self.bbo_state.get(&ticker_id) {
            Some(view) => *view,
            None => BBO::new(),
        };
        view.apply_update(update);
        self.bbo_state.insert(ticker_id, view);
        match update.update_type() {
            Some(MarketUpdateType::Trade) => {
                self.position_keeper.update_market_price(ticker_id, update.price);
            },
            _ => {},
        }
        self.stats.market_updates_processed = self.stats.market_updates_processed + 1;
        Some(ticker_id)
    }

    /// Replaces the view of an instrument, for data from another source,
    /// and marks the instrument's position, if it has one, to the mid price
    /// of a view with both sides present.
    pub fn update_bbo(&mut self, ticker_id: TickerId, bbo: BBO)
        requires
            (bbo.both_present() && old(self).state().positions.contains_key(ticker_id)) ==> {
                let mid = crate::trading::market_data::half_toward_zero(
                    bbo.bid_price + bbo.ask_price,
                ) as i64;
                i64::MIN <= old(self).state().positions[ticker_id].marked_unrealized(mid)
                    <= i64::MAX
            },
        ensures
            final(self).state().views == old(self).state().views.insert(ticker_id, bbo),
            final(self).state().positions == (if bbo.both_present() && old(self).state().positions.contains_key(ticker_id) {
                old(self).state().positions.insert(
                    ticker_id,
                    old(self).state().positions[ticker_id].after_mark(
                        crate::trading::market_data::half_toward_zero(
                            bbo.bid_price + bbo.ask_price,
                        ) as i64,
                    ),
                )
            } else {
                old(self).state().positions
            }),
            final(self).state().pending == old(self).state().pending,
            final(self).state().open_counts == old(self).state().open_counts,
            final(self).state().stats == old(self).state().stats,
            final(self).state().running == old(self).state().running,
            final(self).risk() == old(self).risk(),
            final(self).settings() == old(self).settings(),
    {
        self.bbo_state.insert(ticker_id, bbo);
        match bbo.mid_price() {
            Some(mid) => {
                self.position_keeper.update_market_price(ticker_id, mid);
            },
            None => {},
        }
    }

    /// Returns the view of an instrument, if it has one.
    pub fn get_bbo(&self, ticker_id: TickerId) -> (r: Option<&BBO>)
        ensures
            r is Some <==> self.state().views.contains_key(ticker_id),
            r matches Some(view) ==> *view == self.state().views[ticker_id],
    {
        self.bbo_state.get(&ticker_id)
    }

    /// Returns whether a response can be applied.
    pub fn can_apply_response(&self, response: &ClientResponse) -> (r: bool)
        ensures
            r == self.state().response_fits(*response),
    {
        if self.stats.responses_processed == u64::MAX {
            return false;
        }
        match response.response_type() {
            Some(ClientResponseType::Filled) => {
                match self.pending_orders.get(&response.client_order_id) {
                    Some(order) => {
                        let position = match self.position_keeper.get_position(
                            response.ticker_id,
                        ) {
                            Some(p) => *p,
                            None => Position::new(response.ticker_id),
                        };
                        self.stats.fills_received < u64::MAX && position.can_fill(
                            order.side,
                            response.exec_qty,
                            response.price,
                        )
                    },
                    None => true,
                }
            },
            _ => true,
        }
    }

    fn drop_open_count(&mut self, ticker_id: TickerId)
        ensures
            final(self).open_order_count@ == old(self).open_order_count@.insert(
                ticker_id,
                one_less(count_of(old(self).open_order_count@, ticker_id)),
            ),
            final(self).config == old(self).config,
            final(self).risk_manager == old(self).risk_manager,
            final(self).position_keeper == old(self).position_keeper,
            final(self).bbo_state == old(self).bbo_state,
            final(self).pending_orders == old(self).pending_orders,
            final(self).stats == old(self).stats,
            final(self).running == old(self).running,
    {
        let count = match self.open_order_count.get(&ticker_id) {
            Some(count) => *count,
            None => 0,
        };
        self.open_order_count.insert(ticker_id, count.saturating_sub(1));
    }

    fn forget_order(&mut self, order_id: OrderId, ticker_id: TickerId)
        ensures
            final(self).state() == old(self).state().order_gone(order_id, ticker_id),
            final(self).risk() == old(self).risk(),
            final(self).settings() == old(self).settings(),
    {
        match self.pending_orders.remove(&order_id) {
            Some(order) => {
                let position = self.position_keeper.get_position_mut(ticker_id);
                position.remove_open_order(order.side, order.leaves_qty);
                self.drop_open_count(ticker_id);
            },
            None => {
                assert(self.pending_orders@ =~= old(self).pending_orders@);
            },
        }
    }

    /// Processes an exchange response.
    pub fn on_response(&mut self, response: &ClientResponse)
        requires
            old(self).state().response_fits(*response),
        ensures
            final(self).state() == old(self).state().after_response(*response),
            final(self).risk() == old(self).risk(),
            final(self).settings() == old(self).settings(),
    {
        let client_order_id = response.client_order_id;
        let ticker_id = response.ticker_id;
        let exec_qty = response.exec_qty;
        let price = response.price;
        let leaves_qty = response.leaves_qty;

        self.stats.responses_processed = self.stats.responses_processed + 1;

        match response.response_type() {
            Some(ClientResponseType::Accepted) => {},
            Some(ClientResponseType::Filled) => {
                let in_flight = match self.pending_orders.get(&client_order_id) {
                    Some(order) => Some(*order),
                    None => None,
                };
                match in_flight {
                    Some(order) => {
                        let side = order.side;
                        self.position_keeper.on_fill(ticker_id, side, exec_qty, price);
                        let position = self.position_keeper.get_position_mut(ticker_id);
                        position.remove_open_order(side, exec_qty);
                        self.stats.fills_received = self.stats.fills_received + 1;
                    },
                    None => {},
                }
                if leaves_qty == 0 {
                    self.pending_orders.remove(&client_order_id);
                    self.drop_open_count(ticker_id);
                } else {
                    match in_flight {
                        Some(order) => {
                            self.pending_orders.insert(
                                client_order_id,
                                TrackedOrder {
                                    order_id: order.order_id,
                                    ticker_id: order.ticker_id,
                                    side: order.side,
                                    price: order.price,
                                    original_qty: order.original_qty,
                                    leaves_qty,
                                    sent_time: order.sent_time,
                                },
                            );
                        },
                        None => {},
                    }
                }
                proof {
                    let counted = EngineState {
                        stats: TradeEngineStats {
                            responses_processed: (old(self).state().stats.responses_processed
                                + 1) as u64,
                            ..old(self).state().stats
                        },
                        ..old(self).state()
                    };
                    assert(self.state().positions =~= counted.order_filled(*response).positions);
                    assert(self.state().pending =~= counted.order_filled(*response).pending);
                    assert(self.state().open_counts =~= counted.order_filled(
                        *response,
                    ).open_counts);
                }
            },
            Some(ClientResponseType::Canceled) | Some(ClientResponseType::CancelRejected) | Some(
                ClientResponseType::InvalidRequest,
            ) => {
                self.forget_order(client_order_id, ticker_id);
            },
            None => {},
        }
    }

    /// Returns the verdict of the risk check on an order.
    pub fn check_order_risk(&self, ticker_id: TickerId, side: Side, price: Price, qty: Qty) -> (r:
        RiskCheckResult)
        ensures
            r == self.verdict(ticker_id, side, qty),
    {
        if !self.config.enable_risk_checks {
            return RiskCheckResult::Allowed;
        }
        let position = match self.position_keeper.get_position(ticker_id) {
            Some(p) => *p,
            None => Position::new(ticker_id),
        };
        let open_orders = match self.open_order_count.get(&ticker_id) {
            Some(count) => *count,
            None => 0,
        };
        self.risk_manager.check_order_with_open_orders(&position, side, qty, price, open_orders)
    }

    /// Returns whether the outcome of submitting an order can be recorded.
    pub fn can_submit(&self, ticker_id: TickerId, side: Side, price: Price, qty: Qty) -> (r: bool)
        ensures
            r == self.order_fits(ticker_id, side, qty),
    {
        if self.check_order_risk(ticker_id, side, price, qty).is_allowed() {
            let position = match self.position_keeper.get_position(ticker_id) {
                Some(p) => *p,
                None => Position::new(ticker_id),
            };
            let open_orders = match self.open_order_count.get(&ticker_id) {
                Some(count) => *count,
                None => 0,
            };
            let room = match side {
                Side::Buy => position.open_buy_qty <= u32::MAX - qty,
                Side::Sell => position.open_sell_qty <= u32::MAX - qty,
            };
            self.stats.orders_submitted < u64::MAX && open_orders < u32::MAX && room
        } else {
            self.stats.orders_rejected_risk < u64::MAX
        }
    }

    /// Submits an order, subject to the risk limits.
    ///
    /// An order that the limits refuse is counted and comes back with the
    /// reason: nothing is to be sent. An order that the limits allow is
    /// recorded as in flight, and its order id is returned: `assigned` where
    /// the caller names the id, else one more than the count of orders
    /// submitted so far. The caller sends the order under that id.
    pub fn submit_order(
        &mut self,
        ticker_id: TickerId,
        side: Side,
        price: Price,
        qty: Qty,
        assigned: Option<OrderId>,
        now: Nanos,
    ) -> (r: Result<OrderId, RiskCheckResult>)
        requires
            old(self).order_fits(ticker_id, side, qty),
        ensures
            final(self).risk() == old(self).risk(),
            final(self).settings() == old(self).settings(),
            match r {
                Ok(id) => {
                    &&& old(self).verdict(ticker_id, side, qty) == RiskCheckResult::Allowed
                    &&& id == old(self).state().order_id_for(assigned)
                    &&& final(self).state() == old(self).state().after_submit(
                        id,
                        ticker_id,
                        side,
                        price,
                        qty,
                        now,
                    )
                },
                Err(verdict) => {
                    &&& verdict == old(self).verdict(ticker_id, side, qty)
                    &&& verdict != RiskCheckResult::Allowed
                    &&& final(self).state() == old(self).state().after_rejection()
                },
            },
    {
        let risk_result = self.check_order_risk(ticker_id, side, price, qty);
        if !risk_result.is_allowed() {
            self.stats.orders_rejected_risk = self.stats.orders_rejected_risk + 1;
            return Err(risk_result);
        }
        let order_id = match assigned {
            Some(id) => id,
            None => self.stats.orders_submitted + 1,
        };
        let in_flight = TrackedOrder {
            order_id,
            ticker_id,
            side,
            price,
            original_qty: qty,
            leaves_qty: qty,
            sent_time: now,
        };
        self.pending_orders.insert(order_id, in_flight);
        let count = match self.open_order_count.get(&ticker_id) {
            Some(count) => *count,
            None => 0,
        };
        self.open_order_count.insert(ticker_id, count + 1);
        let position = self.position_keeper.get_position_mut(ticker_id);
        position.add_open_order(side, qty);
        self.stats.orders_submitted = self.stats.orders_submitted + 1;
        Ok(order_id)
    }

    /// Asks for the cancel of an order: returns the order id and its
    /// instrument for the caller to send, or `None` if the order is not in
    /// flight. The state changes only when the exchange answers.
    pub fn cancel_order(&self, order_id: OrderId) -> (r: Option<(OrderId, TickerId)>)
        ensures
            r is Some <==> self.state().pending.contains_key(order_id),
            r matches Some(cancel) ==> cancel == (
                order_id,
                self.state().pending[order_id].ticker_id,
            ),
    {
        match self.pending_orders.get(&order_id) {
            Some(order) => Some((order_id, order.ticker_id)),
            None => None,
        }
    }

    /// Asks for the cancel of all orders of an instrument: returns their
    /// ids, each once, in no particular order, for the caller to send.
    pub fn cancel_all_orders(&self, ticker_id: TickerId) -> (r: Vec<OrderId>)
        ensures
            r@.no_duplicates(),
            forall|id: OrderId|
                r@.contains(id) <==> (self.state().pending.contains_key(id)
                    && self.state().pending[id].ticker_id == ticker_id),
    {
        let mut out: Vec<OrderId> = Vec::new();
        let ghost pairs = self.pending_orders.iter().remaining().unref();
        let ghost n: int = 0;
        for kv in it: self.pending_orders.iter()
            invariant
                it.seq().unref() == pairs,
                n == it.index(),
                pairs.no_duplicates(),
                pairs.to_set() == self.pending_orders@.kv_pairs(),
                out@.no_duplicates(),
                forall|id: OrderId|
                    out@.contains(id) <==> exists|j: int|
                        0 <= j < n && (#[trigger] pairs[j]).0 == id && pairs[j].1.ticker_id
                            == ticker_id,
        {
            let (id, order) = kv;
            let ghost before = out@;
            proof {
                assert(pairs[n] == (*id, *order));
                assert(pairs.to_set().contains(pairs[n]));
                assert(self.pending_orders@.kv_pairs().contains(pairs[n]));
            }
            if order.ticker_id == ticker_id {
                proof {
                    if before.contains(*id) {
                        let j = choose|j: int|
                            0 <= j < n && (#[trigger] pairs[j]).0 == *id && pairs[j].1.ticker_id
                                == ticker_id;
                        assert(pairs.to_set().contains(pairs[j]));
                        assert(self.pending_orders@.kv_pairs().contains(pairs[j]));
                        assert(pairs[j] == pairs[n]);
                    }
                }
                out.push(*id);
                proof {
                    assert(out@ =~= before.push(*id));
                    assert(out@[before.len() as int] == *id);
                }
            }
            proof {
                assert forall|x: OrderId|
                    out@.contains(x) <==> exists|j: int|
                        0 <= j < n + 1 && (#[trigger] pairs[j]).0 == x && pairs[j].1.ticker_id
                            == ticker_id by {
                    if out@.contains(x) {
                        let k = choose|k: int| 0 <= k < out@.len() && out@[k] == x;
                        if k < before.len() {
                            assert(before[k] == x);
                            assert(before.contains(x));
                            let j = choose|j: int|
                                0 <= j < n && (#[trigger] pairs[j]).0 == x
                                    && pairs[j].1.ticker_id == ticker_id;
                            assert(0 <= j < n + 1 && pairs[j].0 == x);
                        } else {
                            assert(pairs[n].0 == x);
                        }
                    }
                    if exists|j: int|
                        0 <= j < n + 1 && (#[trigger] pairs[j]).0 == x && pairs[j].1.ticker_id
                            == ticker_id {
                        let j = choose|j: int|
                            0 <= j < n + 1 && (#[trigger] pairs[j]).0 == x && pairs[j].1.ticker_id
                                == ticker_id;
                        if j < n {
                            assert(before.contains(x));
                            let k = choose|k: int| 0 <= k < before.len() && before[k] == x;
                            assert(out@[k] == x);
                        } else {
                            assert(out@[before.len() as int] == x);
                        }
                    }
                }
                n = n + 1;
            }
        }
        proof {
            assert(n == pairs.len());
            assert forall|id: OrderId|
                out@.contains(id) <==> (self.state().pending.contains_key(id)
                    && self.state().pending[id].ticker_id == ticker_id) by {
                if out@.contains(id) {
                    let j = choose|j: int|
                        0 <= j < n && (#[trigger] pairs[j]).0 == id && pairs[j].1.ticker_id
                            == ticker_id;
                    assert(pairs.to_set().contains(pairs[j]));
                    assert(self.pending_orders@.kv_pairs().contains(pairs[j]));
                }
                if self.state().pending.contains_key(id) && self.state().pending[id].ticker_id
                    == ticker_id {
                    let kv = (id, self.pending_orders@[id]);
                    assert(self.pending_orders@.kv_pairs().contains(kv));
                    assert(pairs.to_set().contains(kv));
                    let j = choose|j: int| 0 <= j < pairs.len() && pairs[j] == kv;
                    assert(pairs[j].0 == id);
                }
            }
        }
        out
    }

    /// Returns an order in flight.
    pub fn get_pending_order(&self, order_id: OrderId) -> (r: Option<&TrackedOrder>)
        ensures
            r is Some <==> self.state().pending.contains_key(order_id),
            r matches Some(order) ==> *order == self.state().pending[order_id],
    {
        self.pending_orders.get(&order_id)
    }

    /// Returns the open-order count of an instrument.
    pub fn pending_order_count(&self, ticker_id: TickerId) -> (r: u32)
        ensures
            r == count_of(self.state().open_counts, ticker_id),
    {
        match self.open_order_count.get(&ticker_id) {
            Some(count) => *count,
            None => 0,
        }
    }

    /// Returns the number of orders in flight.
    pub fn total_pending_orders(&self) -> (r: usize)
        ensures
            r == self.state().pending.dom().len(),
    {
        self.pending_orders.len()
    }

    fn submit_reported(
        &mut self,
        request: &OrderRequest,
        assigned: Option<OrderId>,
        now: Nanos,
    ) -> (r: (Option<OrderId>, RiskCheckResult))
        requires
            old(self).order_fits(request.ticker_id, request.side, request.qty),
        ensures
            final(self).risk() == old(self).risk(),
            final(self).settings() == old(self).settings(),
            (final(self).state(), r) == submitted_in(
                old(self).risk(),
                old(self).settings().enable_risk_checks,
                old(self).state(),
                *request,
                assigned,
                now,
            ),
    {
        match self.submit_order(
            request.ticker_id,
            request.side,
            request.price,
            request.qty,
            assigned,
            now,
        ) {
            Ok(id) => (Some(id), RiskCheckResult::Allowed),
            Err(verdict) => (None, verdict),
        }
    }

    /// Carries out what a strategy decided. Orders are submitted as by
    /// [`TradeEngine::submit_order`], the bid of a quote before its ask;
    /// `assigned` is the id that the router gives the next order, and the
    /// one after it goes to the second order of a quote whose first went
    /// out.
    ///
    /// Returns one report per order asked for, with the id of an order that
    /// went out or the verdict that refused it, and the ids whose cancel a
    /// cancel-all asks for. The caller sends both.
    pub fn process_strategy_action(
        &mut self,
        action: StrategyAction,
        assigned: Option<OrderId>,
        now: Nanos,
    ) -> (r: (Vec<(Option<OrderId>, RiskCheckResult)>, Vec<OrderId>))
        requires
            old(self).action_fits(action, assigned, now),
        ensures
            final(self).risk() == old(self).risk(),
            final(self).settings() == old(self).settings(),
            (final(self).state(), r.0@) == acted_in(
                old(self).risk(),
                old(self).settings().enable_risk_checks,
                old(self).state(),
                action,
                assigned,
                now,
            ),
            r.1@.no_duplicates(),
            forall|id: OrderId|
                r.1@.contains(id) <==> (action matches StrategyAction::CancelAll(t) && old(self).state().pending.contains_key(id) && old(self).state().pending[id].ticker_id == t),
    {
        let mut results: Vec<(Option<OrderId>, RiskCheckResult)> = Vec::new();
        let mut cancels: Vec<OrderId> = Vec::new();
        match action {
            StrategyAction::Idle => {},
            StrategyAction::Quote(pair) => {
                let mut next = assigned;
                match pair.bid {
                    Some(bid) => {
                        let report = self.submit_reported(&bid, next, now);
                        next = match next {
                            Some(id) => if report.0.is_some() {
                                Some(id + 1)
                            } else {
                                next
                            },
                            None => None,
                        };
                        results.push(report);
                    },
                    None => {},
                }
                match pair.ask {
                    Some(ask) => {
                        let report = self.submit_reported(&ask, next, now);
                        results.push(report);
                    },
                    None => {},
                }
            },
            StrategyAction::Take(order) => {
                let report = self.submit_reported(&order, assigned, now);
                results.push(report);
            },
            StrategyAction::CancelAll(ticker_id) => {
                cancels = self.cancel_all_orders(ticker_id);
            },
        }
        self.stats.strategy_cycles = self.stats.strategy_cycles + 1;
        proof {
            let want = acted_in(
                old(self).risk(),
                old(self).settings().enable_risk_checks,
                old(self).state(),
                action,
                assigned,
                now,
            );
            assert(results@ =~= want.1);
            assert(self.state() == want.0);
        }
        (results, cancels)
    }

    /// Submits one order request; see [`TradeEngine::submit_order`].
    pub fn process_order_request(
        &mut self,
        request: &OrderRequest,
        assigned: Option<OrderId>,
        now: Nanos,
    ) -> (r: Result<OrderId, RiskCheckResult>)
        requires
            old(self).order_fits(request.ticker_id, request.side, request.qty),
        ensures
            final(self).risk() == old(self).risk(),
            final(self).settings() == old(self).settings(),
            match r {
                Ok(id) => {
                    &&& old(self).verdict(request.ticker_id, request.side, request.qty)
                        == RiskCheckResult::Allowed
                    &&& id == old(self).state().order_id_for(assigned)
                    &&& final(self).state() == old(self).state().after_submit(
                        id,
                        request.ticker_id,
                        request.side,
                        request.price,
                        request.qty,
                        now,
                    )
                },
                Err(verdict) => {
                    &&& verdict == old(self).verdict(
                        request.ticker_id,
                        request.side,
                        request.qty,
                    )
                    &&& verdict != RiskCheckResult::Allowed
                    &&& final(self).state() == old(self).state().after_rejection()
                },
            },
    {
        self.submit_order(
            request.ticker_id,
            request.side,
            request.price,
            request.qty,
            assigned,
            now,
        )
    }

    /// Returns the position of an instrument, if it has one.
    pub fn get_position(&self, ticker_id: TickerId) -> (r: Option<&Position>)
        ensures
            r is Some <==> self.state().positions.contains_key(ticker_id),
            r matches Some(p) ==> *p == self.state().positions[ticker_id],
    {
        self.position_keeper.get_position(ticker_id)
    }

    /// Runs one cycle: responses first, then market-data deltas, at most
    /// `max_events_per_cycle` events in all. Each kind is taken from the
    /// front for as long as the next event can be applied. Returns the
    /// number of events processed. A stopped engine does nothing.
    pub fn run_cycle(&mut self, responses: &[ClientResponse], market_updates: &[MarketUpdate]) -> (r:
        usize)
        requires
            old(self).state().running ==> old(self).state().stats.total_cycles < u64::MAX,
        ensures
            final(self).risk() == old(self).risk(),
            final(self).settings() == old(self).settings(),
            !old(self).state().running ==> r == 0 && final(self).state() == old(self).state(),
            old(self).state().running ==> {
                let cap = old(self).settings().max_events_per_cycle as nat;
                let first = run_responses(old(self).state(), responses@, cap);
                let second = run_updates(first.0, market_updates@, (cap - first.1) as nat);
                &&& first.1 <= cap
                &&& r == first.1 + second.1
                &&& final(self).state() == (EngineState {
                    stats: TradeEngineStats {
                        total_cycles: (second.0.stats.total_cycles + 1) as u64,
                        ..second.0.stats
                    },
                    ..second.0
                })
            },
    {
        if !self.running {
            return 0;
        }
        let max_events = self.config.max_events_per_cycle;
        let mut done: usize = 0;
        let mut blocked = false;
        let ghost start = self.state();
        proof {
            assert(responses@.skip(0) =~= responses@);
        }
        while !blocked && done < responses.len() && done < max_events
            invariant
                done <= responses.len(),
                done <= max_events,
                max_events == self.settings().max_events_per_cycle,
                self.risk() == old(self).risk(),
                self.settings() == old(self).settings(),
                self.state().stats.total_cycles == start.stats.total_cycles,
                blocked ==> done < responses.len() && done < max_events
                    && !self.state().response_fits(responses@[done as int]),
                run_responses(start, responses@, max_events as nat) == ({
                    let rest = run_responses(
                        self.state(),
                        responses@.skip(done as int),
                        (max_events - done) as nat,
                    );
                    (rest.0, (rest.1 + done) as nat)
                }),
            decreases responses.len() - done + (if blocked { 0int } else { 1int }),
        {
            let response = &responses[done];
            proof {
                assert(responses@.skip(done as int)[0] == *response);
                assert(responses@.skip(done as int).drop_first() =~= responses@.skip(done + 1));
            }
            if !self.can_apply_response(response) {
                blocked = true;
            } else {
                self.on_response(response);
                done = done + 1;
            }
        }
        let ghost middle = self.state();
        let first_count = done;
        proof {
            let rest = run_responses(
                middle,
                responses@.skip(done as int),
                (max_events - done) as nat,
            );
            assert(rest == (middle, 0nat)) by {
                if blocked {
                    assert(responses@.skip(done as int)[0] == responses@[done as int]);
                } else if done >= responses.len() {
                    assert(responses@.skip(done as int).len() == 0);
                }
            }
            assert(market_updates@.skip(0) =~= market_updates@);
        }
        let remaining = max_events - done;
        let mut taken: usize = 0;
        let mut stuck = false;
        while !stuck && taken < market_updates.len() && taken < remaining
            invariant
                taken <= market_updates.len(),
                taken <= remaining,
                remaining == max_events - first_count,
                self.risk() == old(self).risk(),
                self.settings() == old(self).settings(),
                self.state().stats.total_cycles == start.stats.total_cycles,
                stuck ==> taken < market_updates.len() && taken < remaining
                    && !self.state().update_fits(market_updates@[taken as int]),
                run_updates(middle, market_updates@, remaining as nat) == ({
                    let rest = run_updates(
                        self.state(),
                        market_updates@.skip(taken as int),
                        (remaining - taken) as nat,
                    );
                    (rest.0, (rest.1 + taken) as nat)
                }),
            decreases market_updates.len() - taken + (if stuck { 0int } else { 1int }),
        {
            let update = &market_updates[taken];
            proof {
                assert(market_updates@.skip(taken as int)[0] == *update);
                assert(market_updates@.skip(taken as int).drop_first() =~= market_updates@.skip(
                    taken + 1,
                ));
            }
            if !self.can_apply_update(update) {
                stuck = true;
            } else {
                let _ = self.on_market_update(update);
                taken = taken + 1;
            }
        }
        proof {
            let rest = run_updates(
                self.state(),
                market_updates@.skip(taken as int),
                (remaining - taken) as nat,
            );
            assert(rest == (self.state(), 0nat)) by {
                if stuck {
                    assert(market_updates@.skip(taken as int)[0] == market_updates@[taken as int]);
                } else if taken >= market_updates.len() {
                    assert(market_updates@.skip(taken as int).len() == 0);
                }
            }
        }
        self.stats.total_cycles = self.stats.total_cycles + 1;
        first_count + taken
    }

    /// Forgets views, orders in flight, open-order counts and counters, and
    /// seeds the configured instruments again. Positions, limits and the
    /// running flag stay.
    pub fn reset(&mut self)
        ensures
            final(self).settings() == old(self).settings(),
            final(self).risk() == old(self).risk(),
            final(self).state().running == old(self).state().running,
            final(self).state().positions == old(self).state().positions,
            final(self).state().stats == TradeEngineStats::zero(),
            final(self).state().pending == Map::<OrderId, TrackedOrder>::empty(),
            forall|t: TickerId|
                final(self).state().views.contains_key(t) <==> old(self).settings().tickers@.contains(t),
            forall|t: TickerId|
                final(self).state().open_counts.contains_key(t) <==> old(self).settings().tickers@.contains(t),
            forall|t: TickerId| #[trigger]
                old(self).settings().tickers@.contains(t) ==> final(self).state().views[t]
                    == BBO::empty() && final(self).state().open_counts[t] == 0,
    {
        self.bbo_state.clear();
        self.pending_orders.clear();
        self.open_order_count.clear();
        self.stats.reset();
        self.seed_tickers();
    }
}

} // verus!
