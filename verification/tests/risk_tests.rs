use trading_stack::common::types::{Qty, Side, TickerId};
use trading_stack::trading::position::Position;
use trading_stack::trading::risk::{RiskCheckResult, RiskLimits, RiskManager};

fn create_position_with_state(
    ticker_id: TickerId,
    position: i64,
    open_buy_qty: Qty,
    open_sell_qty: Qty,
    realized_pnl: i64,
    unrealized_pnl: i64,
) -> Position {
    Position {
        ticker_id,
        position,
        open_buy_qty,
        open_sell_qty,
        volume_traded: 0,
        realized_pnl,
        unrealized_pnl,
        avg_open_price: 0,
        last_price: 0,
    }
}

// ==================== RiskCheckResult Tests ====================

#[test]
fn test_risk_check_result_is_allowed() {
    assert!(RiskCheckResult::Allowed.is_allowed());
    assert!(!RiskCheckResult::OrderTooLarge.is_allowed());
    assert!(!RiskCheckResult::PositionTooLarge.is_allowed());
    assert!(!RiskCheckResult::LossTooLarge.is_allowed());
    assert!(!RiskCheckResult::OpenOrdersTooMany.is_allowed());
}

// ==================== RiskLimits Tests ====================

#[test]
fn test_risk_limits_default() {
    let limits = RiskLimits::default();
    assert_eq!(limits.max_order_qty, 1000);
    assert_eq!(limits.max_position, 10000);
    assert_eq!(limits.max_loss, 100000);
    assert_eq!(limits.max_open_orders, 100);
}

#[test]
fn test_risk_limits_new() {
    let limits = RiskLimits::new(500, 5000, 50000, 50);
    assert_eq!(limits.max_order_qty, 500);
    assert_eq!(limits.max_position, 5000);
    assert_eq!(limits.max_loss, 50000);
    assert_eq!(limits.max_open_orders, 50);
}

// ==================== RiskManager Construction Tests ====================

#[test]
fn test_risk_manager_new() {
    let rm = RiskManager::new();
    assert_eq!(rm.default_limits().max_order_qty, 1000);
    assert!(rm.configured_count() == 0);
}

#[test]
fn test_risk_manager_with_default_limits() {
    let custom_limits = RiskLimits::new(2000, 20000, 200000, 200);
    let rm = RiskManager::with_default_limits(custom_limits);
    assert_eq!(rm.default_limits().max_order_qty, 2000);
    assert_eq!(rm.default_limits().max_position, 20000);
}

#[test]
fn test_risk_manager_set_and_get_limits() {
    let mut rm = RiskManager::new();
    let custom_limits = RiskLimits::new(500, 5000, 50000, 50);

    rm.set_limits(1, custom_limits);

    let limits = rm.get_limits(1);
    assert_eq!(limits.max_order_qty, 500);

    // Ticker without specific limits should return default
    let default_limits = rm.get_limits(2);
    assert_eq!(default_limits.max_order_qty, 1000);
}

#[test]
fn test_risk_manager_remove_limits() {
    let mut rm = RiskManager::new();
    let custom_limits = RiskLimits::new(500, 5000, 50000, 50);

    rm.set_limits(1, custom_limits);
    assert_eq!(rm.get_limits(1).max_order_qty, 500);

    rm.remove_limits(1);
    assert_eq!(rm.get_limits(1).max_order_qty, 1000); // Back to default
}

// ==================== Order Size Check Tests ====================

#[test]
fn test_check_order_allowed() {
    let rm = RiskManager::new();
    let position = create_position_with_state(1, 0, 0, 0, 0, 0);

    let result = rm.check_order(&position, Side::Buy, 100, 5000);
    assert_eq!(result, RiskCheckResult::Allowed);
}

#[test]
fn test_check_order_too_large() {
    let rm = RiskManager::new();
    let position = create_position_with_state(1, 0, 0, 0, 0, 0);

    // Default max_order_qty is 1000
    let result = rm.check_order(&position, Side::Buy, 1001, 5000);
    assert_eq!(result, RiskCheckResult::OrderTooLarge);
}

#[test]
fn test_check_order_at_max_qty_allowed() {
    let rm = RiskManager::new();
    let position = create_position_with_state(1, 0, 0, 0, 0, 0);

    // Exactly at limit should be allowed
    let result = rm.check_order(&position, Side::Buy, 1000, 5000);
    assert_eq!(result, RiskCheckResult::Allowed);
}

// ==================== Position Limit Check Tests ====================

#[test]
fn test_check_order_position_too_large_buy() {
    let rm = RiskManager::new();
    // Current position: 9500, no pending orders
    let position = create_position_with_state(1, 9500, 0, 0, 0, 0);

    // Buying 600 would result in position of 10100, exceeding 10000 limit
    let result = rm.check_order(&position, Side::Buy, 600, 5000);
    assert_eq!(result, RiskCheckResult::PositionTooLarge);

    // Buying 500 would result in position of 10000, exactly at limit
    let result = rm.check_order(&position, Side::Buy, 500, 5000);
    assert_eq!(result, RiskCheckResult::Allowed);
}

#[test]
fn test_check_order_position_too_large_sell_short() {
    let rm = RiskManager::new();
    // Current position: -9500 (short)
    let position = create_position_with_state(1, -9500, 0, 0, 0, 0);

    // Selling 600 would result in position of -10100, exceeding limit
    let result = rm.check_order(&position, Side::Sell, 600, 5000);
    assert_eq!(result, RiskCheckResult::PositionTooLarge);

    // Selling 500 would result in position of -10000, exactly at limit
    let result = rm.check_order(&position, Side::Sell, 500, 5000);
    assert_eq!(result, RiskCheckResult::Allowed);
}

#[test]
fn test_check_order_includes_pending_orders_buy() {
    let rm = RiskManager::new();
    // Current position: 9000, pending buy: 500
    // Max long exposure = 9000 + 500 = 9500
    let position = create_position_with_state(1, 9000, 500, 0, 0, 0);

    // New buy of 600 would make exposure 9500 + 600 = 10100, exceeding limit
    let result = rm.check_order(&position, Side::Buy, 600, 5000);
    assert_eq!(result, RiskCheckResult::PositionTooLarge);

    // New buy of 500 would make exposure 9500 + 500 = 10000, at limit
    let result = rm.check_order(&position, Side::Buy, 500, 5000);
    assert_eq!(result, RiskCheckResult::Allowed);
}

#[test]
fn test_check_order_includes_pending_orders_sell() {
    let rm = RiskManager::new();
    // Current position: -9000, pending sell: 500
    // Max short exposure = -9000 - 500 = -9500
    let position = create_position_with_state(1, -9000, 0, 500, 0, 0);

    // New sell of 600 would make exposure -9500 - 600 = -10100, exceeding limit
    let result = rm.check_order(&position, Side::Sell, 600, 5000);
    assert_eq!(result, RiskCheckResult::PositionTooLarge);

    // New sell of 500 would make exposure -9500 - 500 = -10000, at limit
    let result = rm.check_order(&position, Side::Sell, 500, 5000);
    assert_eq!(result, RiskCheckResult::Allowed);
}

#[test]
fn test_check_order_loss_too_large() {
    let rm = RiskManager::new();
    // Position with loss exceeding limit (-$1001 loss = -100100 cents)
    let position = create_position_with_state(1, 100, 0, 0, -50000, -50100);

    let result = rm.check_order(&position, Side::Buy, 100, 5000);
    assert_eq!(result, RiskCheckResult::LossTooLarge);
}

#[test]
fn test_check_order_loss_at_limit_allowed() {
    let rm = RiskManager::new();
    // Position with loss exactly at limit (-$1000 loss = -100000 cents)
    let position = create_position_with_state(1, 100, 0, 0, -50000, -50000);

    let result = rm.check_order(&position, Side::Buy, 100, 5000);
    assert_eq!(result, RiskCheckResult::Allowed);
}

#[test]
fn test_check_order_profit_always_allowed() {
    let rm = RiskManager::new();
    // Position with profit
    let position = create_position_with_state(1, 100, 0, 0, 50000, 25000);

    let result = rm.check_order(&position, Side::Buy, 100, 5000);
    assert_eq!(result, RiskCheckResult::Allowed);
}

// ==================== Open Orders Check Tests ====================

#[test]
fn test_check_open_orders_allowed() {
    let rm = RiskManager::new();

    let result = rm.check_open_orders(1, 50);
    assert_eq!(result, RiskCheckResult::Allowed);
}

#[test]
fn test_check_open_orders_at_limit() {
    let rm = RiskManager::new();

    // At limit (100) should reject new order
    let result = rm.check_open_orders(1, 100);
    assert_eq!(result, RiskCheckResult::OpenOrdersTooMany);
}

#[test]
fn test_check_open_orders_over_limit() {
    let rm = RiskManager::new();

    let result = rm.check_open_orders(1, 150);
    assert_eq!(result, RiskCheckResult::OpenOrdersTooMany);
}

#[test]
fn test_check_open_orders_just_under_limit() {
    let rm = RiskManager::new();

    let result = rm.check_open_orders(1, 99);
    assert_eq!(result, RiskCheckResult::Allowed);
}

// ==================== Position Check Tests ====================

#[test]
fn test_check_position_allowed() {
    let rm = RiskManager::new();
    let position = create_position_with_state(1, 5000, 0, 0, 0, 0);

    let result = rm.check_position(&position);
    assert_eq!(result, RiskCheckResult::Allowed);
}

#[test]
fn test_check_position_too_large_long() {
    let rm = RiskManager::new();
    let position = create_position_with_state(1, 10001, 0, 0, 0, 0);

    let result = rm.check_position(&position);
    assert_eq!(result, RiskCheckResult::PositionTooLarge);
}

#[test]
fn test_check_position_too_large_short() {
    let rm = RiskManager::new();
    let position = create_position_with_state(1, -10001, 0, 0, 0, 0);

    let result = rm.check_position(&position);
    assert_eq!(result, RiskCheckResult::PositionTooLarge);
}

#[test]
fn test_check_position_at_limit_allowed() {
    let rm = RiskManager::new();
    let position = create_position_with_state(1, 10000, 0, 0, 0, 0);

    let result = rm.check_position(&position);
    assert_eq!(result, RiskCheckResult::Allowed);
}

#[test]
fn test_check_position_loss_too_large() {
    let rm = RiskManager::new();
    let position = create_position_with_state(1, 100, 0, 0, -100001, 0);

    let result = rm.check_position(&position);
    assert_eq!(result, RiskCheckResult::LossTooLarge);
}

// ==================== Combined Check Tests ====================

#[test]
fn test_check_order_with_open_orders_all_pass() {
    let rm = RiskManager::new();
    let position = create_position_with_state(1, 0, 0, 0, 0, 0);

    let result = rm.check_order_with_open_orders(&position, Side::Buy, 100, 5000, 50);
    assert_eq!(result, RiskCheckResult::Allowed);
}

#[test]
fn test_check_order_with_open_orders_rejects_open_orders_first() {
    let rm = RiskManager::new();
    let position = create_position_with_state(1, 0, 0, 0, 0, 0);

    // Even though order is valid, too many open orders
    let result = rm.check_order_with_open_orders(&position, Side::Buy, 100, 5000, 100);
    assert_eq!(result, RiskCheckResult::OpenOrdersTooMany);
}

#[test]
fn test_check_order_with_open_orders_checks_order_after_open_orders() {
    let rm = RiskManager::new();
    let position = create_position_with_state(1, 0, 0, 0, 0, 0);

    // Open orders OK, but order too large
    let result = rm.check_order_with_open_orders(&position, Side::Buy, 1001, 5000, 50);
    assert_eq!(result, RiskCheckResult::OrderTooLarge);
}

// ==================== Per-Ticker Limits Tests ====================

#[test]
fn test_per_ticker_limits() {
    let mut rm = RiskManager::new();

    // Set stricter limits for ticker 1
    rm.set_limits(1, RiskLimits::new(100, 1000, 10000, 10));

    // Ticker 1 should use strict limits
    let position1 = create_position_with_state(1, 0, 0, 0, 0, 0);
    let result = rm.check_order(&position1, Side::Buy, 101, 5000);
    assert_eq!(result, RiskCheckResult::OrderTooLarge);

    // Ticker 2 should use default limits
    let position2 = create_position_with_state(2, 0, 0, 0, 0, 0);
    let result = rm.check_order(&position2, Side::Buy, 101, 5000);
    assert_eq!(result, RiskCheckResult::Allowed);
}

#[test]
fn test_multiple_tickers_different_limits() {
    let mut rm = RiskManager::new();

    rm.set_limits(1, RiskLimits::new(100, 1000, 10000, 10));
    rm.set_limits(2, RiskLimits::new(500, 5000, 50000, 50));

    // Ticker 1: max_order_qty = 100
    let position1 = create_position_with_state(1, 0, 0, 0, 0, 0);
    assert_eq!(
        rm.check_order(&position1, Side::Buy, 100, 5000),
        RiskCheckResult::Allowed
    );
    assert_eq!(
        rm.check_order(&position1, Side::Buy, 101, 5000),
        RiskCheckResult::OrderTooLarge
    );

    // Ticker 2: max_order_qty = 500
    let position2 = create_position_with_state(2, 0, 0, 0, 0, 0);
    assert_eq!(
        rm.check_order(&position2, Side::Buy, 500, 5000),
        RiskCheckResult::Allowed
    );
    assert_eq!(
        rm.check_order(&position2, Side::Buy, 501, 5000),
        RiskCheckResult::OrderTooLarge
    );
}

// ==================== Edge Case Tests ====================

#[test]
fn test_check_order_zero_qty() {
    let rm = RiskManager::new();
    let position = create_position_with_state(1, 0, 0, 0, 0, 0);

    let result = rm.check_order(&position, Side::Buy, 0, 5000);
    assert_eq!(result, RiskCheckResult::Allowed);
}

#[test]
fn test_check_position_zero_position() {
    let rm = RiskManager::new();
    let position = create_position_with_state(1, 0, 0, 0, 0, 0);

    let result = rm.check_position(&position);
    assert_eq!(result, RiskCheckResult::Allowed);
}

#[test]
fn test_priority_order_too_large_before_position() {
    // When order is too large, that should be returned even if position would also be too large
    let rm = RiskManager::new();
    let position = create_position_with_state(1, 9999, 0, 0, 0, 0);

    // Order is too large (> 1000) AND would exceed position limit
    let result = rm.check_order(&position, Side::Buy, 2000, 5000);
    assert_eq!(result, RiskCheckResult::OrderTooLarge);
}

#[test]
fn test_priority_position_before_loss() {
    // Position check comes before loss check in check_order
    let mut rm = RiskManager::new();
    rm.set_limits(1, RiskLimits::new(10000, 100, 100000, 100));

    // Position would be too large, and loss is too large
    let position = create_position_with_state(1, 99, 0, 0, -200000, 0);

    let result = rm.check_order(&position, Side::Buy, 100, 5000);
    assert_eq!(result, RiskCheckResult::PositionTooLarge);
}

#[test]
fn risk_test_default_impl() {
    let rm = RiskManager::default();
    assert_eq!(rm.default_limits().max_order_qty, 1000);
}
