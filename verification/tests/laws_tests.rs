use trading_stack::common::lf_queue::LFQueue;
use trading_stack::common::mem_pool::MemPool;
use trading_stack::common::types::Side;
use trading_stack::exchange::order_book::OrderBook;
use trading_stack::trading::position::Position;
use trading_stack::trading::risk::{RiskCheckResult, RiskLimits, RiskManager};

#[test]
fn ring_pops_in_push_order_across_wraparound() {
    let mut ring: LFQueue<u32, 4> = LFQueue::new();
    let mut next_in = 0u32;
    let mut next_out = 0u32;
    // Pushes and pops interleaved so that the slots wrap many times.
    for round in 0..50u32 {
        for _ in 0..(round % 4 + 1) {
            if ring.push(next_in).is_ok() {
                next_in += 1;
            }
        }
        for _ in 0..(round % 3 + 1) {
            if let Some(x) = ring.pop() {
                assert_eq!(x, next_out);
                next_out += 1;
            }
        }
        assert_eq!(ring.len() as u32, next_in - next_out);
    }
    while let Some(x) = ring.pop() {
        assert_eq!(x, next_out);
        next_out += 1;
    }
    assert_eq!(next_in, next_out);
    assert!(next_in > 50);
}

#[test]
fn ring_push_fails_exactly_when_full_and_pop_exactly_when_empty() {
    let mut ring: LFQueue<u8, 2> = LFQueue::new();
    assert_eq!(ring.pop(), None);
    assert_eq!(ring.push(1), Ok(()));
    assert!(!ring.is_full());
    assert_eq!(ring.push(2), Ok(()));
    assert!(ring.is_full());
    assert_eq!(ring.push(3), Err(3));
    assert_eq!(ring.len(), 2);
    assert_eq!(ring.pop(), Some(1));
    assert_eq!(ring.push(4), Ok(()));
    assert_eq!(ring.pop(), Some(2));
    assert_eq!(ring.pop(), Some(4));
    assert_eq!(ring.pop(), None);
    assert!(ring.is_empty());
}

#[test]
fn pool_hands_out_distinct_slots_highest_first() {
    let mut pool: MemPool<u32, 8> = MemPool::new();
    let mut handles = Vec::new();
    while let Some(handle) = pool.allocate() {
        handles.push(handle);
    }
    let indices: Vec<usize> = handles.iter().map(|h| h.index()).collect();
    assert_eq!(indices, vec![7, 6, 5, 4, 3, 2, 1, 0]);
    assert_eq!(pool.available(), 0);
    for handle in handles {
        pool.deallocate(handle);
    }
    assert_eq!(pool.available(), pool.capacity());
}

#[test]
fn pool_keeps_values_in_released_slots() {
    let mut pool: MemPool<u32, 2> = MemPool::new();
    let handle = pool.allocate().unwrap();
    let index = handle.index();
    *pool.get_mut(&handle) = 99;
    pool.deallocate(handle);
    assert_eq!(*pool.peek(index), 99);
    assert!(pool.get_by_index(2).is_none());
    let again = pool.allocate().unwrap();
    assert_eq!(again.index(), index);
    assert_eq!(*pool.get(&again), 99);
    pool.deallocate_by_index(index);
    assert_eq!(pool.available(), 2);
}

#[test]
fn boxed_pool_behaves_like_a_pool() {
    let mut pool: Box<MemPool<u64, 4>> = MemPool::new_boxed();
    assert_eq!(pool.capacity(), 4);
    assert_eq!(pool.available(), 4);
    let handle = pool.allocate().unwrap();
    assert_eq!(handle.index(), 3);
    assert_eq!(pool.available(), 3);
}

#[test]
fn book_counts_follow_adds_and_cancels() {
    let mut book = OrderBook::new(1);
    let mut live = 0usize;
    for id in 1..=200u64 {
        let side = if id % 2 == 0 { Side::Buy } else { Side::Sell };
        let price = 1000 + (id % 5) as i64 * if id % 2 == 0 { -1 } else { 1 };
        assert!(book.add_order(1, id, side, price, id as u32).is_some());
        live += 1;
        if id % 3 == 0 {
            assert!(book.cancel_order(id / 3).is_some());
            live -= 1;
        }
        assert_eq!(book.order_count(), live);
    }
    for id in 1..=200u64 {
        book.cancel_order(id);
    }
    assert_eq!(book.order_count(), 0);
    assert_eq!(book.bid_level_count(), 0);
    assert_eq!(book.ask_level_count(), 0);
}

#[test]
fn earlier_order_at_a_level_has_the_smaller_priority() {
    let mut book = OrderBook::new(1);
    book.add_order(1, 50, Side::Buy, 100, 1);
    book.add_order(1, 40, Side::Sell, 200, 1);
    book.add_order(1, 30, Side::Buy, 100, 1);
    let a = *book.get_order(50).unwrap();
    let b = *book.get_order(30).unwrap();
    assert!(a.priority < b.priority);
    // The earlier order is the head of the chain, the later one its tail.
    assert_eq!(a.prev_idx, None);
    assert!(a.next_idx.is_some());
    assert!(b.prev_idx.is_some());
    assert_eq!(b.next_idx, None);
}

#[test]
fn position_is_the_sum_of_signed_fills() {
    let fills: [(Side, u32, i64); 6] = [
        (Side::Buy, 10, 100),
        (Side::Sell, 25, 110),
        (Side::Sell, 5, 90),
        (Side::Buy, 40, 95),
        (Side::Buy, 0, 95),
        (Side::Sell, 20, 120),
    ];
    let mut position = Position::new(3);
    let mut net = 0i64;
    let mut gross = 0u64;
    for (side, qty, price) in fills {
        assert!(position.can_fill(side, qty, price));
        position.on_fill(side, qty, price);
        net += side.as_sign() * qty as i64;
        gross += qty as u64;
        assert_eq!(position.position, net);
        assert_eq!(position.volume_traded, gross);
        assert_eq!(position.last_price, price);
    }
    assert_eq!(position.net_position(), 0);
}

#[test]
fn fills_that_do_not_fit_are_told_apart() {
    let mut position = Position::new(1);
    position.position = i64::MAX;
    position.avg_open_price = 1;
    assert!(!position.can_fill(Side::Buy, 1, 1));
    assert!(position.can_fill(Side::Sell, 1, 1));
    let mut spent = Position::new(1);
    spent.volume_traded = u64::MAX;
    assert!(!spent.can_fill(Side::Buy, 1, 1));
    assert!(spent.can_fill(Side::Buy, 0, 1));
    let mut wide = Position::new(1);
    wide.position = 1 << 40;
    wide.avg_open_price = 0;
    assert!(!wide.can_mark(i64::MAX));
    assert!(wide.can_mark(1 << 20));
}

#[test]
fn weighted_average_rounds_toward_zero() {
    let mut long = Position::new(1);
    long.on_fill(Side::Buy, 1, 10);
    long.on_fill(Side::Buy, 2, 11);
    // (10 + 22) / 3 = 10.67
    assert_eq!(long.avg_open_price, 10);
    let mut short = Position::new(1);
    short.on_fill(Side::Sell, 1, -10);
    short.on_fill(Side::Sell, 2, -11);
    // (-10 - 22) / 3 = -10.67
    assert_eq!(short.avg_open_price, -10);
    assert_eq!(short.position, -3);
}

#[test]
fn tightening_limits_never_allows_more() {
    let wide = RiskLimits::new(100, 1000, 500, 10);
    let tight = [
        RiskLimits::new(99, 1000, 500, 10),
        RiskLimits::new(100, 999, 500, 10),
        RiskLimits::new(100, 1000, 499, 10),
        RiskLimits::new(10, 10, 10, 10),
    ];
    let mut position = Position::new(1);
    for held in [-1000i64, -950, -1, 0, 1, 900, 1000] {
        for pnl in [-501i64, -500, -499, 0, 10] {
            position.position = held;
            position.realized_pnl = pnl;
            for qty in [0u32, 1, 99, 100, 101] {
                for side in [Side::Buy, Side::Sell] {
                    let mut wide_rm = RiskManager::with_default_limits(wide);
                    wide_rm.remove_limits(1);
                    let loose = wide_rm.check_order(&position, side, qty, 0);
                    for limits in tight {
                        let rm = RiskManager::with_default_limits(limits);
                        if rm.check_order(&position, side, qty, 0).is_allowed() {
                            assert_eq!(loose, RiskCheckResult::Allowed);
                        }
                    }
                }
            }
        }
    }
}

#[test]
fn risk_checks_have_an_answer_at_the_extremes() {
    let rm = RiskManager::with_default_limits(RiskLimits::new(u32::MAX, i64::MAX, i64::MIN, 1));
    let mut position = Position::new(1);
    position.position = i64::MIN;
    position.open_sell_qty = u32::MAX;
    position.realized_pnl = i64::MIN;
    position.unrealized_pnl = i64::MIN;
    assert_eq!(
        rm.check_order(&position, Side::Sell, u32::MAX, 0),
        RiskCheckResult::PositionTooLarge
    );
    assert_eq!(rm.check_position(&position), RiskCheckResult::PositionTooLarge);
    position.position = 0;
    position.open_sell_qty = 0;
    // The loss limit of i64::MIN allows no loss below 2^63.
    assert_eq!(rm.check_order(&position, Side::Buy, 1, 0), RiskCheckResult::LossTooLarge);
    assert_eq!(rm.check_open_orders(1, 0), RiskCheckResult::Allowed);
    assert_eq!(rm.check_open_orders(1, 1), RiskCheckResult::OpenOrdersTooMany);
}
