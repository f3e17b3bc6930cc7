use trading_stack::common::time::Nanos;
use trading_stack::common::types::Side;
use trading_stack::trading::order_gateway::PendingOrder;

#[test]
fn test_pending_order_creation() {
    let pending = PendingOrder {
        order_id: 1,
        ticker_id: 100,
        side: Side::Buy,
        price: 10050,
        qty: 100,
        sent_time: Nanos::new(1000000),
    };

    assert_eq!(pending.order_id, 1);
    assert_eq!(pending.ticker_id, 100);
    assert_eq!(pending.side, Side::Buy);
    assert_eq!(pending.price, 10050);
    assert_eq!(pending.qty, 100);
}
