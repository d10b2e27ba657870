use nexus::book::{MidPrice, OrderBook, OrderBookDelta, OrderBookDeltas, PriceLevel, Side};
use nexus::buffer::tick_buffer::{TradeFlowStats, Vpin};
use nexus::emulator::OrderEmulator;

const UNIT: i64 = 1_000_000_000;

fn trade(timestamp_ns: u64, price: i64, size: i64, side: u8) -> TradeFlowStats {
    TradeFlowStats {
        timestamp_ns,
        price_int: price * UNIT,
        size_int: size * UNIT,
        side,
        cum_buy_volume: 100,
        cum_sell_volume: 50,
        vpin: Vpin { num: 0, den: 1 },
        bucket_index: 0,
    }
}

#[test]
fn test_order_book_new() {
    let book = OrderBook::new();
    assert_eq!(book.best_bid(), None);
    assert_eq!(book.best_ask(), None);
    assert_eq!(book.mid_price(), None);
}

#[test]
fn test_order_book_spread() {
    let mut book = OrderBook::new();
    book.add_limit_order(99 * UNIT, UNIT, 1);
    book.add_limit_order(101 * UNIT, UNIT, 2);
    assert_eq!(book.spread(), Some(2 * UNIT as i128));
    assert_eq!(book.mid_price(), Some(MidPrice { units: 100 * UNIT, half: false }));
}

#[test]
fn test_order_book_remove_size() {
    let mut book = OrderBook::new();
    book.add_limit_order(100 * UNIT, 5 * UNIT, 1);
    assert_eq!(book.bids.get(&(100 * UNIT)), Some(&(5 * UNIT)));
    book.remove_size(100 * UNIT, 3 * UNIT, 1);
    assert_eq!(book.bids.get(&(100 * UNIT)), Some(&(2 * UNIT)));
    book.remove_size(100 * UNIT, 2 * UNIT, 1);
    assert!(book.bids.get(&(100 * UNIT)).is_none());
}

#[test]
fn test_order_emulator_submit_and_position() {
    let mut emulator = OrderEmulator::new();
    let id1 = emulator.submit_limit(100 * UNIT, UNIT, Side::Buy, 1000);
    let id2 = emulator.submit_limit(100 * UNIT, UNIT, Side::Buy, 1001);
    let id3 = emulator.submit_limit(100 * UNIT, UNIT, Side::Sell, 1002);
    assert_eq!(id1, 1);
    assert_eq!(id2, 2);
    assert_eq!(id3, 3);
    assert_eq!(emulator.num_pending(), 3);
    assert_eq!(emulator.queue_position(id1), Some(0));
    assert_eq!(emulator.queue_position(id2), Some(1));
    assert_eq!(emulator.queue_position(id3), Some(0));
}

#[test]
fn test_order_emulator_separate_bid_ask_queues() {
    let mut emulator = OrderEmulator::new();
    let bid_id = emulator.submit_limit(100 * UNIT, UNIT, Side::Buy, 1000);
    let ask_id = emulator.submit_limit(100 * UNIT, UNIT, Side::Sell, 1001);
    assert_eq!(emulator.queue_position(bid_id), Some(0));
    assert_eq!(emulator.queue_position(ask_id), Some(0));
}

#[test]
fn test_order_emulator_filled_log() {
    let mut emulator = OrderEmulator::new();
    emulator.submit_limit(100 * UNIT, UNIT, Side::Buy, 1000);
    emulator.submit_limit(90 * UNIT, UNIT, Side::Buy, 1001);
    let fills = emulator.process_fills(100 * UNIT, 2000);
    assert_eq!(emulator.filled_log().len(), fills.len());
    assert_eq!(emulator.num_filled(), fills.len());
    assert!(fills.iter().all(|f| f.order_id == 1 && f.is_maker));
}

#[test]
fn cancelled_order_is_gone() {
    let mut emulator = OrderEmulator::new();
    let id = emulator.submit_limit(100 * UNIT, UNIT, Side::Buy, 1000);
    assert!(emulator.cancel_order(id));
    assert!(!emulator.cancel_order(id));
    assert_eq!(emulator.num_pending(), 0);
    assert_eq!(emulator.queue_position(id), None);
}

#[test]
fn market_order_of_no_size_has_no_number() {
    let mut emulator = OrderEmulator::new();
    assert_eq!(emulator.submit_market(0, Side::Buy, 1), 0);
    assert_eq!(emulator.submit_market(UNIT, Side::Buy, 1), 1);
    assert_eq!(emulator.num_pending(), 0);
}

#[test]
fn market_order_is_filled_at_the_next_price() {
    let mut emulator = OrderEmulator::new();
    let limit = emulator.submit_limit(90 * UNIT, UNIT, Side::Buy, 1);
    let market = emulator.submit_market(2 * UNIT, Side::Buy, 2);
    let fills = emulator.process_fills(100 * UNIT, 3);
    assert_eq!(fills.len(), 1);
    assert_eq!(fills[0].order_id, market);
    assert_eq!(fills[0].fill_price, 100 * UNIT);
    assert_eq!(fills[0].fill_size, 2 * UNIT);
    assert_eq!(fills[0].remaining_size, 0);
    assert!(!fills[0].is_maker);
    assert!(emulator.process_fills(100 * UNIT, 4).is_empty());
    assert_eq!(emulator.queue_position(limit), Some(0));
}

#[test]
fn test_update_from_trade_removes_liquidity() {
    let mut book = OrderBook::new();
    book.add_limit_order(99 * UNIT, 5 * UNIT, 1);
    book.add_limit_order(101 * UNIT, 5 * UNIT, 2);
    book.update_from_trade(&trade(1000, 99, 2, 1));
    assert_eq!(book.bids.get(&(99 * UNIT)), Some(&(3 * UNIT)));
    book.update_from_trade(&trade(2000, 101, 3, 2));
    assert_eq!(book.asks.get(&(101 * UNIT)), Some(&(2 * UNIT)));
}

#[test]
fn test_walk_book_queue_depth() {
    let mut book = OrderBook::new();
    book.add_limit_order(100 * UNIT, 5 * UNIT, 1);
    book.add_limit_order(100 * UNIT, 5 * UNIT, 1);
    book.add_limit_order(101 * UNIT, 3 * UNIT, 2);
    let fills = book.walk_book(10 * UNIT, Side::Buy);
    assert!(!fills.is_empty());
    for fill in &fills {
        assert!(fill.queue_depth >= 1, "queue_depth should be >= 1");
    }
}

#[test]
fn walk_takes_best_levels_first() {
    let mut book = OrderBook::new();
    book.add_limit_order(102 * UNIT, 4 * UNIT, 2);
    book.add_limit_order(101 * UNIT, 3 * UNIT, 2);
    let fills = book.walk_book(5 * UNIT, Side::Buy);
    assert_eq!(fills.len(), 2);
    assert_eq!((fills[0].price(), fills[0].size_filled), (101 * UNIT, 3 * UNIT));
    assert_eq!((fills[1].price(), fills[1].size_filled), (102 * UNIT, 2 * UNIT));
    assert_eq!(fills[1].remaining_at_level, 2 * UNIT);
}

#[test]
fn test_validate_price_increment() {
    let tick = UNIT / 100;
    assert!(OrderBook::validate_price_increment(100 * UNIT, tick, 0));
    assert!(OrderBook::validate_price_increment(100 * UNIT + tick, tick, 0));
    assert!(!OrderBook::validate_price_increment(100 * UNIT + tick / 2, tick, 0));
    assert!(!OrderBook::validate_price_increment(100 * UNIT - tick, tick, 100 * UNIT));
}

#[test]
fn test_order_book_deltas_apply() {
    let mut book = OrderBook::new();
    book.add_limit_order(100 * UNIT, 5 * UNIT, 1);
    let mut deltas = OrderBookDeltas::new(1000);
    deltas.add_bid(100 * UNIT, 2 * UNIT);
    deltas.apply_to(&mut book);
    assert_eq!(book.bids.get(&(100 * UNIT)), Some(&(7 * UNIT)));
}

#[test]
fn test_order_book_delta_remove() {
    let mut book = OrderBook::new();
    book.add_limit_order(100 * UNIT, 5 * UNIT, 1);
    let mut deltas = OrderBookDeltas::new(1000);
    deltas.deltas.push(OrderBookDelta::new(100 * UNIT, -2 * UNIT, Side::Buy));
    deltas.apply_to(&mut book);
    assert_eq!(book.bids.get(&(100 * UNIT)), Some(&(3 * UNIT)));
}

#[test]
fn sides_read_back() {
    for side in [Side::Buy, Side::Sell] {
        assert_eq!(Side::from_u8(side.as_u8()), Some(side));
        assert_eq!(side.opposite().opposite(), side);
    }
    assert_eq!(Side::from_u8(9), None);
    assert_eq!(PriceLevel::new(5, 6), PriceLevel::new(5, 6));
}

#[test]
fn a_price_may_lie_half_a_unit_above() {
    let mut book = OrderBook::new();
    book.add_limit_order(-8, 1, 1);
    book.add_limit_order(3, 1, 2);
    assert_eq!(book.mid_price(), Some(MidPrice { units: -3, half: true }));
}

#[test]
fn sizes_below_zero_are_counted_as_they_are() {
    let mut book = OrderBook::new();
    book.add_limit_order(100, 5, 2);
    book.add_limit_order(100, -7, 2);
    assert_eq!(book.asks.get(&100), Some(&-2));
    book.add_limit_order(101, 4, 2);
    assert!(book.can_walk(1, Side::Buy));
    let fills = book.walk_book(1, Side::Buy);
    assert_eq!(fills.len(), 2);
    assert_eq!(fills[0].size_filled, -2);
    assert_eq!(fills[1].size_filled, 3);
    book.remove_size(101, -6, 2);
    assert_eq!(book.asks.get(&101), Some(&10));
}

#[test]
fn what_is_left_of_an_order_has_to_fit() {
    let mut book = OrderBook::new();
    book.add_limit_order(100, 5, 1);
    book.add_limit_order(99, i64::MAX, 1);
    assert!(book.can_walk(i64::MAX, Side::Sell));
    book.add_limit_order(101, -1, 1);
    assert!(!book.can_walk(i64::MAX, Side::Sell));
    assert!(book.can_walk(i64::MAX - 1, Side::Sell));
}
