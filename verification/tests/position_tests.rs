use trading_stack::common::types::Side;
use trading_stack::trading::position::{Position, PositionKeeper};

#[test]
fn test_position_new() {
    let pos = Position::new(1);
    assert_eq!(pos.ticker_id, 1);
    assert_eq!(pos.position, 0);
    assert_eq!(pos.open_buy_qty, 0);
    assert_eq!(pos.open_sell_qty, 0);
    assert_eq!(pos.volume_traded, 0);
    assert_eq!(pos.realized_pnl, 0);
    assert_eq!(pos.unrealized_pnl, 0);
}

#[test]
fn test_buy_fill_opens_long() {
    let mut pos = Position::new(1);
    pos.on_fill(Side::Buy, 100, 5000); // Buy 100 @ $50.00

    assert_eq!(pos.position, 100);
    assert_eq!(pos.avg_open_price, 5000);
    assert_eq!(pos.volume_traded, 100);
    assert_eq!(pos.realized_pnl, 0);
}

#[test]
fn test_sell_fill_opens_short() {
    let mut pos = Position::new(1);
    pos.on_fill(Side::Sell, 100, 5000); // Sell 100 @ $50.00

    assert_eq!(pos.position, -100);
    assert_eq!(pos.avg_open_price, 5000);
    assert_eq!(pos.volume_traded, 100);
    assert_eq!(pos.realized_pnl, 0);
}

#[test]
fn test_partial_close_long_with_profit() {
    let mut pos = Position::new(1);
    pos.on_fill(Side::Buy, 100, 5000); // Buy 100 @ $50.00
    pos.on_fill(Side::Sell, 50, 5500); // Sell 50 @ $55.00

    assert_eq!(pos.position, 50);
    assert_eq!(pos.avg_open_price, 5000); // Average stays same
    assert_eq!(pos.volume_traded, 150);
    // Profit = (55.00 - 50.00) * 50 = $250 = 25000 cents
    assert_eq!(pos.realized_pnl, 25000);
}

#[test]
fn test_partial_close_long_with_loss() {
    let mut pos = Position::new(1);
    pos.on_fill(Side::Buy, 100, 5000); // Buy 100 @ $50.00
    pos.on_fill(Side::Sell, 50, 4500); // Sell 50 @ $45.00

    assert_eq!(pos.position, 50);
    // Loss = (45.00 - 50.00) * 50 = -$250 = -25000 cents
    assert_eq!(pos.realized_pnl, -25000);
}

#[test]
fn test_partial_close_short_with_profit() {
    let mut pos = Position::new(1);
    pos.on_fill(Side::Sell, 100, 5000); // Sell short 100 @ $50.00
    pos.on_fill(Side::Buy, 50, 4500); // Buy to cover 50 @ $45.00

    assert_eq!(pos.position, -50);
    // Profit = (50.00 - 45.00) * 50 = $250 = 25000 cents
    assert_eq!(pos.realized_pnl, 25000);
}

#[test]
fn test_partial_close_short_with_loss() {
    let mut pos = Position::new(1);
    pos.on_fill(Side::Sell, 100, 5000); // Sell short 100 @ $50.00
    pos.on_fill(Side::Buy, 50, 5500); // Buy to cover 50 @ $55.00

    assert_eq!(pos.position, -50);
    // Loss = (50.00 - 55.00) * 50 = -$250 = -25000 cents
    assert_eq!(pos.realized_pnl, -25000);
}

#[test]
fn test_full_close_long() {
    let mut pos = Position::new(1);
    pos.on_fill(Side::Buy, 100, 5000);
    pos.on_fill(Side::Sell, 100, 5200);

    assert_eq!(pos.position, 0);
    assert_eq!(pos.realized_pnl, 20000); // $200 profit
    assert_eq!(pos.unrealized_pnl, 0);
}

#[test]
fn test_add_to_long_position() {
    let mut pos = Position::new(1);
    pos.on_fill(Side::Buy, 100, 5000); // Buy 100 @ $50.00
    pos.on_fill(Side::Buy, 100, 6000); // Buy 100 @ $60.00

    assert_eq!(pos.position, 200);
    // Weighted average: (100*5000 + 100*6000) / 200 = 5500
    assert_eq!(pos.avg_open_price, 5500);
    assert_eq!(pos.volume_traded, 200);
    assert_eq!(pos.realized_pnl, 0);
}

#[test]
fn test_add_to_short_position() {
    let mut pos = Position::new(1);
    pos.on_fill(Side::Sell, 100, 5000); // Sell 100 @ $50.00
    pos.on_fill(Side::Sell, 100, 4000); // Sell 100 @ $40.00

    assert_eq!(pos.position, -200);
    // Weighted average: (100*5000 + 100*4000) / 200 = 4500
    assert_eq!(pos.avg_open_price, 4500);
}

#[test]
fn test_unrealized_pnl_long() {
    let mut pos = Position::new(1);
    pos.on_fill(Side::Buy, 100, 5000); // Buy 100 @ $50.00

    pos.update_market_price(5500); // Price rises to $55.00
    assert_eq!(pos.unrealized_pnl, 50000); // $500 unrealized profit

    pos.update_market_price(4500); // Price drops to $45.00
    assert_eq!(pos.unrealized_pnl, -50000); // $500 unrealized loss
}

#[test]
fn test_unrealized_pnl_short() {
    let mut pos = Position::new(1);
    pos.on_fill(Side::Sell, 100, 5000); // Sell 100 @ $50.00

    pos.update_market_price(4500); // Price drops to $45.00
    assert_eq!(pos.unrealized_pnl, 50000); // $500 unrealized profit

    pos.update_market_price(5500); // Price rises to $55.00
    assert_eq!(pos.unrealized_pnl, -50000); // $500 unrealized loss
}

#[test]
fn test_total_pnl() {
    let mut pos = Position::new(1);
    pos.on_fill(Side::Buy, 100, 5000); // Buy 100 @ $50.00
    pos.on_fill(Side::Sell, 50, 5500); // Sell 50 @ $55.00 (realize $250)
    pos.update_market_price(5200); // Remaining 50 @ $52.00

    // Realized: 25000 cents ($250)
    // Unrealized: (5200 - 5000) * 50 = 10000 cents ($100)
    assert_eq!(pos.realized_pnl, 25000);
    assert_eq!(pos.unrealized_pnl, 10000);
    assert_eq!(pos.total_pnl(), 35000);
}

#[test]
fn test_open_order_tracking() {
    let mut pos = Position::new(1);
    pos.position = 100;

    pos.add_open_order(Side::Buy, 50);
    pos.add_open_order(Side::Sell, 30);

    assert_eq!(pos.open_buy_qty, 50);
    assert_eq!(pos.open_sell_qty, 30);
    assert_eq!(pos.max_long_exposure(), 150); // 100 + 50
    assert_eq!(pos.max_short_exposure(), 70); // 100 - 30

    pos.remove_open_order(Side::Buy, 20);
    pos.remove_open_order(Side::Sell, 10);

    assert_eq!(pos.open_buy_qty, 30);
    assert_eq!(pos.open_sell_qty, 20);
}

#[test]
fn test_open_order_saturating_sub() {
    let mut pos = Position::new(1);
    pos.add_open_order(Side::Buy, 10);
    pos.remove_open_order(Side::Buy, 100); // Remove more than exists

    assert_eq!(pos.open_buy_qty, 0); // Should not underflow
}

#[test]
fn test_net_position() {
    let mut pos = Position::new(1);
    assert_eq!(pos.net_position(), 0);

    pos.on_fill(Side::Buy, 100, 5000);
    assert_eq!(pos.net_position(), 100);

    pos.on_fill(Side::Sell, 150, 5000);
    assert_eq!(pos.net_position(), -50);
}

#[test]
fn test_position_keeper_new() {
    let keeper = PositionKeeper::new();
    assert_eq!(keeper.total_pnl(), 0);
    assert_eq!(keeper.all_positions().len(), 0);
}

#[test]
fn test_position_keeper_get_position() {
    let mut keeper = PositionKeeper::new();

    // Get non-existent position
    assert!(keeper.get_position(1).is_none());

    // Get or create position
    let pos = keeper.get_position_mut(1);
    pos.on_fill(Side::Buy, 100, 5000);

    // Now it should exist
    let pos = keeper.get_position(1).unwrap();
    assert_eq!(pos.position, 100);
}

#[test]
fn test_position_keeper_on_fill() {
    let mut keeper = PositionKeeper::new();

    keeper.on_fill(1, Side::Buy, 100, 5000);
    keeper.on_fill(2, Side::Sell, 50, 3000);

    let pos1 = keeper.get_position(1).unwrap();
    assert_eq!(pos1.position, 100);

    let pos2 = keeper.get_position(2).unwrap();
    assert_eq!(pos2.position, -50);
}

#[test]
fn test_position_keeper_total_pnl() {
    let mut keeper = PositionKeeper::new();

    // Ticker 1: Buy, then price goes up
    keeper.on_fill(1, Side::Buy, 100, 5000);
    keeper.update_market_price(1, 5500);

    // Ticker 2: Sell short, then price goes down
    keeper.on_fill(2, Side::Sell, 100, 4000);
    keeper.update_market_price(2, 3500);

    // Unrealized P&L ticker 1: (5500 - 5000) * 100 = 50000
    // Unrealized P&L ticker 2: (4000 - 3500) * 100 = 50000
    assert_eq!(keeper.total_pnl(), 100000);
}

#[test]
fn test_position_keeper_all_positions() {
    let mut keeper = PositionKeeper::new();

    keeper.on_fill(1, Side::Buy, 100, 5000);
    keeper.on_fill(2, Side::Sell, 50, 3000);
    keeper.on_fill(3, Side::Buy, 200, 4000);

    let positions: Vec<_> = keeper.all_positions();
    assert_eq!(positions.len(), 3);
}

#[test]
fn test_position_flip_long_to_short() {
    let mut pos = Position::new(1);
    pos.on_fill(Side::Buy, 100, 5000); // Long 100 @ $50
    pos.on_fill(Side::Sell, 150, 5500); // Sell 150 @ $55 (close 100, open short 50)

    assert_eq!(pos.position, -50);
    // Realized from closing long: (5500 - 5000) * 100 = 50000
    assert_eq!(pos.realized_pnl, 50000);
    // New short position at $55
    assert_eq!(pos.avg_open_price, 5500);
}

#[test]
fn test_position_flip_short_to_long() {
    let mut pos = Position::new(1);
    pos.on_fill(Side::Sell, 100, 5000); // Short 100 @ $50
    pos.on_fill(Side::Buy, 150, 4500); // Buy 150 @ $45 (cover 100, open long 50)

    assert_eq!(pos.position, 50);
    // Realized from covering short: (5000 - 4500) * 100 = 50000
    assert_eq!(pos.realized_pnl, 50000);
    // New long position at $45
    assert_eq!(pos.avg_open_price, 4500);
}

#[test]
fn test_volume_accumulation() {
    let mut pos = Position::new(1);
    pos.on_fill(Side::Buy, 100, 5000);
    pos.on_fill(Side::Buy, 50, 5100);
    pos.on_fill(Side::Sell, 75, 5200);

    assert_eq!(pos.volume_traded, 225);
}
