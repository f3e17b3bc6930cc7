use trading_stack::common::types::Side;
use trading_stack::exchange::market_data::{
    MarketDataPublisher, MarketDataPublisherConfig, TickerState,
};
use trading_stack::exchange::protocol::{MarketUpdate, MarketUpdateType, MARKET_UPDATE_SIZE};

fn create_test_config() -> MarketDataPublisherConfig {
    MarketDataPublisherConfig {
        multicast_addr: "239.255.0.1".to_string(),
        port: 5001,
        interface: "0.0.0.0".to_string(),
        ttl: 1,
        enable_snapshots: true,
        snapshot_interval: 100,
    }
}

#[test]
fn market_data_test_config_default() {
    let config = MarketDataPublisherConfig::default();
    assert_eq!(config.multicast_addr, "239.255.0.1");
    assert_eq!(config.port, 5000);
    assert_eq!(config.interface, "0.0.0.0");
    assert_eq!(config.ttl, 1);
    assert!(config.enable_snapshots);
    assert_eq!(config.snapshot_interval, 1000);
}

#[test]
fn test_market_update_serialization() {
    // Test that MarketUpdate can be serialized correctly
    let update = MarketUpdate::new(
        MarketUpdateType::Add,
        1,     // ticker_id
        12345, // order_id
        1,     // side (Buy)
        10050, // price
        100,   // qty
        99999, // priority
    );

    let bytes = update.as_bytes();
    assert_eq!(bytes.len(), MARKET_UPDATE_SIZE);

    // Deserialize and verify
    // Copy fields to local variables to avoid unaligned reference issues with packed structs
    let parsed = MarketUpdate::from_bytes(&bytes).unwrap();
    let msg_type = parsed.msg_type;
    let ticker_id = parsed.ticker_id;
    let order_id = parsed.order_id;
    let side = parsed.side;
    let price = parsed.price;
    let qty = parsed.qty;
    let priority = parsed.priority;

    assert_eq!(msg_type, MarketUpdateType::Add.as_u8());
    assert_eq!(ticker_id, 1);
    assert_eq!(order_id, 12345);
    assert_eq!(side, 1);
    assert_eq!(price, 10050);
    assert_eq!(qty, 100);
    assert_eq!(priority, 99999);
}

#[test]
fn test_ticker_state_default() {
    let state = TickerState::default();
    assert_eq!(state.bid_price, 0);
    assert_eq!(state.bid_qty, 0);
    assert_eq!(state.ask_price, 0);
    assert_eq!(state.ask_qty, 0);
    assert_eq!(state.last_seq, 0);
}

#[test]
fn test_ticker_state_update_bid() {
    let mut state = TickerState::default();

    // Simulate bid update
    state.bid_price = 10050;
    state.bid_qty = 100;

    assert_eq!(state.bid_price, 10050);
    assert_eq!(state.bid_qty, 100);
}

#[test]
fn test_ticker_state_update_ask() {
    let mut state = TickerState::default();

    // Simulate ask update
    state.ask_price = 10060;
    state.ask_qty = 200;

    assert_eq!(state.ask_price, 10060);
    assert_eq!(state.ask_qty, 200);
}

#[test]
fn test_ticker_state_cancel_reduces_qty() {
    let mut state = TickerState::default();
    state.bid_price = 10050;
    state.bid_qty = 100;

    // Simulate partial cancel
    state.bid_qty = state.bid_qty.saturating_sub(30);
    assert_eq!(state.bid_qty, 70);

    // Simulate full cancel
    state.bid_qty = state.bid_qty.saturating_sub(100);
    assert_eq!(state.bid_qty, 0);
}

#[test]
fn test_market_update_types() {
    // Test all update types can be created
    let types = [
        MarketUpdateType::Add,
        MarketUpdateType::Modify,
        MarketUpdateType::Cancel,
        MarketUpdateType::Trade,
        MarketUpdateType::Snapshot,
        MarketUpdateType::Clear,
    ];

    for (i, update_type) in types.iter().enumerate() {
        let update = MarketUpdate::new(
            *update_type,
            1,
            (i + 1) as u64,
            1,
            10000,
            100,
            i as u64,
        );

        assert_eq!(update.update_type(), Some(*update_type));
    }
}

#[test]
fn test_publisher_config_clone() {
    let config = MarketDataPublisherConfig::default();
    let cloned = config.clone();

    assert_eq!(cloned.multicast_addr, config.multicast_addr);
    assert_eq!(cloned.port, config.port);
    assert_eq!(cloned.interface, config.interface);
    assert_eq!(cloned.ttl, config.ttl);
    assert_eq!(cloned.enable_snapshots, config.enable_snapshots);
    assert_eq!(cloned.snapshot_interval, config.snapshot_interval);
}

#[test]
fn test_publisher_creation() {
    let config = create_test_config();
    let publisher = MarketDataPublisher::new(config);
    assert_eq!(publisher.sequence(), 0);
}

#[test]
fn test_publisher_with_defaults() {
    let publisher = MarketDataPublisher::with_defaults();
    assert_eq!(publisher.sequence(), 0);
}

#[test]
fn test_publisher_register_ticker() {
    let config = create_test_config();
    let mut publisher = MarketDataPublisher::new(config);

    assert_eq!(publisher.ticker_count(), 0);

    publisher.register_ticker(1);
    assert_eq!(publisher.ticker_count(), 1);

    publisher.register_ticker(2);
    assert_eq!(publisher.ticker_count(), 2);

    // Registering same ticker again should be idempotent
    publisher.register_ticker(1);
    assert_eq!(publisher.ticker_count(), 2);
}

#[test]
fn test_publisher_initial_state() {
    let config = create_test_config();
    let publisher = MarketDataPublisher::new(config.clone());

    assert_eq!(publisher.sequence(), 0);
    assert_eq!(publisher.total_updates_sent(), 0);
    assert_eq!(publisher.total_bytes_sent(), 0);
    assert_eq!(publisher.ticker_count(), 0);
    assert_eq!(publisher.multicast_addr(), "239.255.0.1");
    assert_eq!(publisher.port(), 5001);
}

#[test]
fn test_publisher_publish_updates_stats() {
    let config = create_test_config();
    let mut publisher = MarketDataPublisher::new(config);

    let update = MarketUpdate::new(
        MarketUpdateType::Add,
        1,
        1,
        Side::Buy.as_i8(),
        10050,
        100,
        1,
    );

    let sent = publisher.publish(&update);
    assert_eq!(sent.len(), 1);

    assert_eq!(publisher.sequence(), 1);
    assert_eq!(publisher.total_updates_sent(), 1);
    assert!(publisher.total_bytes_sent() > 0);
    assert_eq!(publisher.ticker_count(), 1);
}

#[test]
fn test_publisher_publish_batch() {
    let config = create_test_config();
    let mut publisher = MarketDataPublisher::new(config);

    let updates: Vec<MarketUpdate> = (0..5).map(|i| {
        MarketUpdate::new(
            MarketUpdateType::Add,
            1,
            i as u64,
            Side::Buy.as_i8(),
            10050 + i as i64,
            100,
            i as u64,
        )
    }).collect();

    let sent = publisher.publish_batch(&updates);
    assert_eq!(sent.len(), 5);

    assert_eq!(publisher.sequence(), 5);
    assert_eq!(publisher.total_updates_sent(), 5);
}

#[test]
fn test_publisher_ticker_state_tracking() {
    let config = create_test_config();
    let mut publisher = MarketDataPublisher::new(config);

    // Publish a bid update
    let bid_update = MarketUpdate::new(
        MarketUpdateType::Add,
        1,
        1,
        Side::Buy.as_i8(),
        10050,
        100,
        1,
    );
    publisher.publish(&bid_update);

    // Publish an ask update
    let ask_update = MarketUpdate::new(
        MarketUpdateType::Add,
        1,
        2,
        Side::Sell.as_i8(),
        10060,
        200,
        2,
    );
    publisher.publish(&ask_update);

    // Check state
    let state = publisher.get_ticker_state(1).unwrap();
    assert_eq!(state.0, 10050); // bid_price
    assert_eq!(state.1, 100);   // bid_qty
    assert_eq!(state.2, 10060); // ask_price
    assert_eq!(state.3, 200);   // ask_qty
}

#[test]
fn test_publisher_snapshot_interval() {
    let mut config = create_test_config();
    config.snapshot_interval = 3; // Trigger snapshot after 3 updates

    let mut publisher = MarketDataPublisher::new(config);

    // Publish updates
    for i in 0..4 {
        let update = MarketUpdate::new(
            MarketUpdateType::Add,
            1,
            i as u64,
            Side::Buy.as_i8(),
            10050,
            100,
            i as u64,
        );
        publisher.publish(&update);
    }

    // Snapshot should have been triggered, resetting counter
    // Total sent should be > 4 due to snapshot messages
    assert!(publisher.total_updates_sent() >= 4);
}

#[test]
fn test_publisher_clear() {
    let config = create_test_config();
    let mut publisher = MarketDataPublisher::new(config);

    // Add a ticker
    publisher.register_ticker(1);
    assert_eq!(publisher.ticker_count(), 1);

    // Clear it
    let cleared = publisher.publish_clear(1);
    assert_eq!(cleared.update_type(), Some(MarketUpdateType::Clear));

    // Ticker state should be removed
    assert!(publisher.get_ticker_state(1).is_none());
}
