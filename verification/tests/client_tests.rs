use trading_stack::common::time::{nanos_between, LatencyStats, Nanos};
use trading_stack::common::logging::LogLevel;
use trading_stack::common::types::{Side, INVALID_PRICE};
use trading_stack::exchange::market_data::{MarketDataPublisher, MarketDataPublisherConfig};
use trading_stack::exchange::protocol::{
    ClientResponse, ClientResponseType, MarketUpdate, MarketUpdateType,
};
use trading_stack::trading::market_data::{decode_datagram, MarketDataReceiver, BBO};
use trading_stack::trading::risk::RiskCheckResult;
use trading_stack::trading::strategies::{
    build_quote_pair, can_send_order, interval_after_fill, should_update_quotes,
    within_position_limit, OrderRequest, QuotePair, StrategyAction,
};
use trading_stack::trading::trade_engine::{TradeEngine, TradeEngineConfig};

fn update(kind: MarketUpdateType, side: i8, price: i64, qty: u32) -> MarketUpdate {
    MarketUpdate::new(kind, 1, 0, side, price, qty, 0)
}

fn bbo(bid_price: i64, bid_qty: u32, ask_price: i64, ask_qty: u32) -> BBO {
    BBO { bid_price, bid_qty, ask_price, ask_qty }
}

#[test]
fn quotes_replace_improve_or_refresh_the_top() {
    let mut view = BBO::new();
    view.apply_update(&update(MarketUpdateType::Add, 1, 100, 10));
    assert_eq!(view, bbo(100, 10, INVALID_PRICE, 0));
    view.apply_update(&update(MarketUpdateType::Modify, 1, 101, 5));
    assert_eq!(view, bbo(101, 5, INVALID_PRICE, 0));
    view.apply_update(&update(MarketUpdateType::Snapshot, 1, 101, 7));
    assert_eq!(view, bbo(101, 7, INVALID_PRICE, 0));
    view.apply_update(&update(MarketUpdateType::Add, 1, 99, 50));
    assert_eq!(view, bbo(101, 7, INVALID_PRICE, 0));
    view.apply_update(&update(MarketUpdateType::Add, -1, 110, 3));
    view.apply_update(&update(MarketUpdateType::Add, -1, 108, 4));
    view.apply_update(&update(MarketUpdateType::Add, -1, 109, 9));
    assert_eq!(view, bbo(101, 7, 108, 4));
    // A side byte that names no side changes nothing.
    view.apply_update(&update(MarketUpdateType::Add, 0, 500, 1));
    assert_eq!(view, bbo(101, 7, 108, 4));
}

#[test]
fn cancels_shrink_the_top_and_keep_its_price() {
    let mut view = bbo(100, 10, 110, 10);
    view.apply_update(&update(MarketUpdateType::Cancel, 1, 100, 4));
    assert_eq!(view, bbo(100, 6, 110, 10));
    view.apply_update(&update(MarketUpdateType::Cancel, 1, 99, 4));
    assert_eq!(view, bbo(100, 6, 110, 10));
    view.apply_update(&update(MarketUpdateType::Cancel, 1, 100, 60));
    assert_eq!(view, bbo(100, 0, 110, 10));
    assert!(!view.has_bid());
    // A cancel of unknown size empties the level.
    view.apply_update(&update(MarketUpdateType::Cancel, -1, 110, 0));
    assert_eq!(view, bbo(100, 0, 110, 0));
}

#[test]
fn trades_shrink_the_side_they_hit() {
    let mut view = bbo(100, 10, 110, 10);
    view.apply_update(&update(MarketUpdateType::Trade, 1, 110, 3));
    assert_eq!(view, bbo(100, 10, 110, 7));
    view.apply_update(&update(MarketUpdateType::Trade, -1, 100, 30));
    assert_eq!(view, bbo(100, 0, 110, 7));
    // A trade away from the top changes nothing.
    view.apply_update(&update(MarketUpdateType::Trade, 1, 100, 1));
    view.apply_update(&update(MarketUpdateType::Trade, -1, 110, 1));
    assert_eq!(view, bbo(100, 0, 110, 7));
    view.apply_update(&update(MarketUpdateType::Clear, 0, 0, 0));
    assert_eq!(view, BBO::new());
}

#[test]
fn unknown_update_kind_changes_nothing() {
    let mut view = bbo(100, 10, 110, 10);
    let mut odd = update(MarketUpdateType::Add, 1, 500, 1);
    odd.msg_type = 9;
    view.apply_update(&odd);
    assert_eq!(view, bbo(100, 10, 110, 10));
}

#[test]
fn mid_price_rounds_toward_zero_and_never_overflows() {
    assert_eq!(bbo(99, 1, 102, 1).mid_price(), Some(100));
    assert_eq!(bbo(-99, 1, -102, 1).mid_price(), Some(-100));
    assert_eq!(bbo(i64::MAX - 1, 1, i64::MAX - 1, 1).mid_price(), Some(i64::MAX - 1));
    assert_eq!(bbo(i64::MIN, 1, i64::MIN, 1).mid_price(), Some(i64::MIN));
    assert_eq!(bbo(100, 0, 102, 1).mid_price(), None);
    assert_eq!(bbo(100, 1, 102, 1).spread(), Some(2));
    assert_eq!(bbo(100, 1, INVALID_PRICE, 1).spread(), None);
}

#[test]
fn receiver_tracks_each_instrument() {
    let mut receiver = MarketDataReceiver::new();
    receiver.reserve_tickers(&[5, 6, 5]);
    assert_eq!(receiver.ticker_count(), 2);
    assert_eq!(receiver.get_bbo(5), Some(&BBO::new()));
    let after = receiver.process_update(&update(MarketUpdateType::Add, 1, 100, 10));
    assert_eq!(after, Some(bbo(100, 10, INVALID_PRICE, 0)));
    assert_eq!(receiver.ticker_count(), 3);
    let mut odd = update(MarketUpdateType::Add, 1, 500, 1);
    odd.msg_type = 0;
    odd.ticker_id = 77;
    assert_eq!(receiver.process_update(&odd), None);
    assert!(receiver.get_bbo(77).is_none());
    // Reserving keeps what is known.
    receiver.reserve_tickers(&[1]);
    assert_eq!(receiver.get_bbo(1), Some(&bbo(100, 10, INVALID_PRICE, 0)));
}

#[test]
fn datagrams_hold_one_update_in_their_first_bytes() {
    let sent = update(MarketUpdateType::Trade, -1, 100, 3);
    let mut bytes = sent.as_bytes();
    assert_eq!(decode_datagram(&bytes), Some(sent));
    assert_eq!(decode_datagram(&bytes[..33]), None);
    bytes.extend([1, 2, 3]);
    assert_eq!(decode_datagram(&bytes), Some(sent));
    let mut receiver = MarketDataReceiver::new();
    assert_eq!(receiver.poll(&bytes), Some(sent));
    assert!(!receiver.poll_and_process(&[0u8; 5]));
    assert!(receiver.poll_and_process(&bytes));
    assert_eq!(receiver.ticker_count(), 1);
}

fn config(interval: usize, snapshots: bool) -> MarketDataPublisherConfig {
    MarketDataPublisherConfig {
        multicast_addr: "239.255.0.1".to_string(),
        port: 5001,
        interface: "0.0.0.0".to_string(),
        ttl: 1,
        enable_snapshots: snapshots,
        snapshot_interval: interval,
    }
}

#[test]
fn snapshots_follow_every_nth_update() {
    let mut publisher = MarketDataPublisher::new(config(2, true));
    let bid = MarketUpdate::new(MarketUpdateType::Add, 1, 1, 1, 100, 10, 1);
    let ask = MarketUpdate::new(MarketUpdateType::Add, 1, 2, -1, 110, 20, 2);
    assert_eq!(publisher.publish(&bid), vec![bid]);
    let sent = publisher.publish(&ask);
    assert_eq!(
        sent,
        vec![
            ask,
            MarketUpdate::new(MarketUpdateType::Snapshot, 1, 0, 1, 100, 10, 2),
            MarketUpdate::new(MarketUpdateType::Snapshot, 1, 0, -1, 110, 20, 2),
        ]
    );
    assert_eq!(publisher.sequence(), 2);
    assert_eq!(publisher.total_updates_sent(), 2);
    assert_eq!(publisher.total_bytes_sent(), 68);
    assert_eq!(publisher.get_ticker_state(1), Some((100, 10, 110, 20)));
    // A new interval starts.
    assert_eq!(publisher.publish(&bid).len(), 1);
    assert_eq!(publisher.publish(&bid).len(), 3);
}

#[test]
fn snapshots_skip_absent_sides_and_can_be_switched_off() {
    let mut publisher = MarketDataPublisher::new(config(1, true));
    let bid = MarketUpdate::new(MarketUpdateType::Add, 4, 1, 1, 100, 10, 1);
    assert_eq!(
        publisher.publish(&bid),
        vec![bid, MarketUpdate::new(MarketUpdateType::Snapshot, 4, 0, 1, 100, 10, 1)]
    );
    let cancel = MarketUpdate::new(MarketUpdateType::Cancel, 4, 1, 1, 100, 10, 1);
    assert_eq!(publisher.publish(&cancel), vec![cancel]);
    assert_eq!(publisher.get_ticker_state(4), Some((100, 0, INVALID_PRICE, 0)));
    assert!(publisher.publish_ticker_snapshot(4).is_empty());
    assert!(publisher.publish_ticker_snapshot(9).is_empty());

    let mut silent = MarketDataPublisher::new(config(1, false));
    assert_eq!(silent.publish(&bid), vec![bid]);
    assert_eq!(silent.ticker_count(), 0);
    let mut never = MarketDataPublisher::new(config(0, true));
    assert_eq!(never.publish(&bid), vec![bid]);
    assert_eq!(never.publish(&bid), vec![bid]);
    assert_eq!(never.publish_snapshot().len(), 1);
}

#[test]
fn clear_is_numbered_and_forgets_the_instrument() {
    let mut publisher = MarketDataPublisher::new(config(100, true));
    publisher.register_ticker(3);
    assert_eq!(publisher.get_ticker_state(3), Some((INVALID_PRICE, 0, INVALID_PRICE, 0)));
    publisher.publish(&MarketUpdate::new(MarketUpdateType::Add, 3, 1, 1, 100, 10, 1));
    publisher.register_ticker(3);
    assert_eq!(publisher.get_ticker_state(3), Some((100, 10, INVALID_PRICE, 0)));
    let clear = publisher.publish_clear(3);
    assert_eq!(clear, MarketUpdate::new(MarketUpdateType::Clear, 3, 0, 0, 0, 0, 1));
    assert_eq!(publisher.sequence(), 2);
    assert_eq!(publisher.total_bytes_sent(), 68);
    assert!(publisher.get_ticker_state(3).is_none());
    assert!(publisher.can_publish());
    assert_eq!(publisher.multicast_addr(), "239.255.0.1");
    assert_eq!(publisher.port(), 5001);
    assert_eq!(publisher.config().ttl, 1);
}

fn filled(order_id: u64, ticker: u32, price: i64, exec: u32, leaves: u32) -> ClientResponse {
    ClientResponse::new(ClientResponseType::Filled, 1, ticker, order_id, 0, 1, price, exec, leaves)
}

#[test]
fn engine_books_fills_against_the_order_it_knows() {
    let mut engine = TradeEngine::new(TradeEngineConfig::new(1).with_risk_checks(false));
    let id = engine.submit_order(1, Side::Sell, 100, 10, Some(70), Nanos::new(9)).unwrap();
    assert_eq!(id, 70);
    assert_eq!(engine.get_pending_order(70).unwrap().sent_time, Nanos::new(9));
    assert_eq!(engine.get_position(1).unwrap().open_sell_qty, 10);

    // The response says buy, the order was a sell: the order decides.
    assert!(engine.can_apply_response(&filled(70, 1, 100, 4, 6)));
    engine.on_response(&filled(70, 1, 100, 4, 6));
    let position = *engine.get_position(1).unwrap();
    assert_eq!(position.position, -4);
    assert_eq!(position.open_sell_qty, 6);
    assert_eq!(engine.get_pending_order(70).unwrap().leaves_qty, 6);
    assert_eq!(engine.pending_order_count(1), 1);
    assert_eq!(engine.stats().fills_received, 1);

    // A fill of an order that is not in flight moves nothing but the counters.
    engine.on_response(&filled(71, 1, 100, 4, 6));
    assert_eq!(engine.get_position(1).unwrap().position, -4);
    assert_eq!(engine.stats().fills_received, 1);
    assert_eq!(engine.stats().responses_processed, 2);

    engine.on_response(&filled(70, 1, 100, 6, 0));
    assert!(engine.get_pending_order(70).is_none());
    assert_eq!(engine.pending_order_count(1), 0);
    assert_eq!(engine.get_position(1).unwrap().position, -10);
    assert_eq!(engine.get_position(1).unwrap().open_sell_qty, 0);
    assert_eq!(engine.total_pending_orders(), 0);
}

#[test]
fn engine_forgets_orders_on_rejection() {
    for kind in [
        ClientResponseType::Canceled,
        ClientResponseType::CancelRejected,
        ClientResponseType::InvalidRequest,
    ] {
        let mut engine = TradeEngine::new(TradeEngineConfig::new(1).with_risk_checks(false));
        let id = engine.submit_order(2, Side::Buy, 100, 10, None, Nanos::new(0)).unwrap();
        assert_eq!(id, 1);
        let response = ClientResponse::new(kind, 1, 2, id, 0, 1, 100, 0, 0);
        engine.on_response(&response);
        assert!(engine.get_pending_order(id).is_none());
        assert_eq!(engine.pending_order_count(2), 0);
        assert_eq!(engine.get_position(2).unwrap().open_buy_qty, 0);
        // A second one finds nothing.
        engine.on_response(&response);
        assert_eq!(engine.pending_order_count(2), 0);
        assert_eq!(engine.stats().responses_processed, 2);
    }
}

#[test]
fn engine_cycle_takes_responses_first_and_stops_at_the_cap() {
    let config = TradeEngineConfig::new(1).with_risk_checks(false).with_max_events_per_cycle(3);
    let mut engine = TradeEngine::new(config);
    let accepted = ClientResponse::new(ClientResponseType::Accepted, 1, 1, 1, 0, 1, 1, 0, 1);
    let add = MarketUpdate::new(MarketUpdateType::Add, 1, 1, 1, 100, 10, 1);
    assert_eq!(engine.run_cycle(&[accepted; 2], &[add; 5]), 0);
    engine.start();
    assert_eq!(engine.run_cycle(&[accepted; 2], &[add; 5]), 3);
    assert_eq!(engine.stats().responses_processed, 2);
    assert_eq!(engine.stats().market_updates_processed, 1);
    assert_eq!(engine.stats().total_cycles, 1);
    assert_eq!(engine.run_cycle(&[accepted; 7], &[add; 5]), 3);
    assert_eq!(engine.stats().responses_processed, 5);
    assert_eq!(engine.stats().market_updates_processed, 1);
    engine.stop();
    assert!(!engine.is_running());
}

#[test]
fn engine_reports_each_side_of_a_quote() {
    let mut engine = TradeEngine::with_defaults(1);
    let pair = QuotePair {
        bid: Some(OrderRequest::buy(1, 99, 5000)),
        ask: Some(OrderRequest::sell(1, 101, 10)),
    };
    let (reports, cancels) =
        engine.process_strategy_action(StrategyAction::Quote(pair), Some(40), Nanos::new(1));
    // The bid is larger than one order may be; the ask goes out under the
    // id that was not used.
    assert_eq!(
        reports,
        vec![(None, RiskCheckResult::OrderTooLarge), (Some(40), RiskCheckResult::Allowed)]
    );
    assert!(cancels.is_empty());
    assert_eq!(engine.stats().orders_rejected_risk, 1);
    assert_eq!(engine.stats().orders_submitted, 1);
    assert_eq!(engine.stats().strategy_cycles, 1);

    let both = QuotePair::new(OrderRequest::buy(1, 99, 5), OrderRequest::sell(1, 101, 5));
    let (reports, _) =
        engine.process_strategy_action(StrategyAction::Quote(both), Some(41), Nanos::new(1));
    assert_eq!(
        reports,
        vec![(Some(41), RiskCheckResult::Allowed), (Some(42), RiskCheckResult::Allowed)]
    );
    let (reports, mut cancels) =
        engine.process_strategy_action(StrategyAction::CancelAll(1), None, Nanos::new(1));
    cancels.sort();
    assert!(reports.is_empty());
    assert_eq!(cancels, vec![40, 41, 42]);
    assert_eq!(engine.cancel_order(41), Some((41, 1)));
    assert_eq!(engine.cancel_order(99), None);
}

#[test]
fn engine_counts_open_orders_against_the_limit() {
    let mut engine = TradeEngine::with_defaults(1);
    engine
        .risk_manager_mut()
        .set_limits(1, trading_stack::trading::risk::RiskLimits::new(10, 100, 100, 2));
    assert!(engine.can_submit(1, Side::Buy, 1, 5));
    assert!(engine.submit_order(1, Side::Buy, 1, 5, None, Nanos::new(0)).is_ok());
    assert!(engine.submit_order(1, Side::Buy, 1, 5, None, Nanos::new(0)).is_ok());
    assert_eq!(
        engine.submit_order(1, Side::Buy, 1, 5, None, Nanos::new(0)),
        Err(RiskCheckResult::OpenOrdersTooMany)
    );
    assert_eq!(engine.check_order_risk(2, Side::Buy, 1, 5), RiskCheckResult::Allowed);
    assert_eq!(engine.risk_manager().get_limits(1).max_open_orders, 2);
    assert_eq!(engine.position_keeper().get_position(1).unwrap().open_buy_qty, 10);
    assert_eq!(engine.config().client_id, 1);
}

#[test]
fn trade_update_marks_the_position() {
    let mut engine = TradeEngine::new(TradeEngineConfig::new(1).with_risk_checks(false));
    engine.submit_order(1, Side::Buy, 100, 10, None, Nanos::new(0)).unwrap();
    engine.on_response(&filled(1, 1, 100, 10, 0));
    let trade = MarketUpdate::new(MarketUpdateType::Trade, 1, 0, -1, 107, 1, 0);
    assert!(engine.can_apply_update(&trade));
    assert_eq!(engine.on_market_update(&trade), Some(1));
    assert_eq!(engine.get_position(1).unwrap().unrealized_pnl, 70);
    assert_eq!(engine.get_position(1).unwrap().last_price, 107);
    // An update of unknown kind still opens the view of its instrument.
    let mut odd = trade;
    odd.msg_type = 0;
    odd.ticker_id = 8;
    assert_eq!(engine.on_market_update(&odd), Some(8));
    assert_eq!(engine.get_bbo(8), Some(&BBO::new()));
    engine.position_keeper_mut().on_fill(1, Side::Sell, 10, 107);
    assert_eq!(engine.get_position(1).unwrap().position, 0);
}

#[test]
fn strategy_decisions_on_integers() {
    assert!(should_update_quotes(0, 0, 100, 102, 5));
    assert!(should_update_quotes(100, 0, 100, 102, 5));
    assert!(!should_update_quotes(100, 102, 104, 106, 5));
    assert!(should_update_quotes(100, 102, 105, 102, 5));
    assert!(should_update_quotes(100, 102, 100, 97, 5));
    assert!(should_update_quotes(i64::MIN, i64::MAX, i64::MAX, i64::MIN, i64::MAX));

    let pair = build_quote_pair(3, 99, 0, 101, 7);
    assert_eq!(pair.bid, None);
    assert_eq!(pair.ask, Some(OrderRequest::new(3, Side::Sell, 101, 7)));

    assert!(can_send_order(0, 1000, 1));
    assert!(!can_send_order(10, 1000, 1009));
    assert!(can_send_order(10, 1000, 1010));
    assert!(!can_send_order(u64::MAX, u64::MAX, u64::MAX));

    assert_eq!(interval_after_fill(1000, 100), 500);
    assert_eq!(interval_after_fill(150, 100), 100);

    assert!(within_position_limit(i64::MAX, 0, Side::Buy));
    assert!(!within_position_limit(50, 50, Side::Buy));
    assert!(within_position_limit(50, 50, Side::Sell));
    assert!(!within_position_limit(-50, 50, Side::Sell));
    assert!(within_position_limit(-49, 50, Side::Sell));
}

#[test]
fn time_and_levels() {
    assert_eq!(nanos_between(Nanos::new(5), Nanos::new(12)), 7);
    assert_eq!(nanos_between(Nanos::new(12), Nanos::new(5)), 0);
    assert_eq!(Nanos::new(5).elapsed_at(Nanos::new(6)), 1);
    assert_eq!((Nanos::new(u64::MAX - 1) + 5).as_u64(), u64::MAX);
    let mut stats = LatencyStats::new();
    stats.record(u64::MAX);
    stats.record(7);
    assert_eq!(stats.sum(), u64::MAX);
    assert_eq!((stats.count(), stats.min(), stats.max()), (2, 7, u64::MAX));
    assert!(LogLevel::Warn.passes(LogLevel::Info));
    assert!(LogLevel::Warn.passes(LogLevel::Warn));
    assert!(!LogLevel::Debug.passes(LogLevel::Info));
    assert_eq!(LogLevel::Error.as_u8(), 3);
}
