use orderbook_engine::{Applied, BookError, Command, Level, Orderbook, OrderbookSnapshot};

fn level(price: u64, size: u128, orders: usize) -> Level {
    Level { price, size, orders }
}

#[test]
fn new_book_is_empty() {
    let book = Orderbook::new(159);
    let snapshot = book.get_snapshot(10);
    assert_eq!(
        snapshot,
        OrderbookSnapshot {
            market_id: 159,
            sequence: 0,
            timestamp: 0,
            bids: vec![],
            asks: vec![],
            spread: 0,
        }
    );
}

#[test]
fn place_then_cancel_restores_book() {
    let mut book = Orderbook::new(1);
    let before = book.get_snapshot(5);
    assert_eq!(book.add_order(1, true, 100, 5, 0), Ok(()));
    let placed = book.get_snapshot(5);
    assert_eq!(placed.bids, vec![level(100, 5, 1)]);
    assert_eq!(book.cancel_order(1), Ok(true));
    let after = book.get_snapshot(5);
    assert_eq!(after.bids, before.bids);
    assert_eq!(after.asks, before.asks);
    assert_eq!(after.spread, before.spread);
    assert!(after.bids.iter().all(|entry| entry.price != 100));
    assert_eq!(after.sequence, 2);
}

#[test]
fn snapshot_lists_bids_descending_and_asks_ascending() {
    let mut book = Orderbook::new(1);
    assert_eq!(book.add_order(1, true, 99, 3, 10), Ok(()));
    assert_eq!(book.add_order(2, true, 100, 2, 11), Ok(()));
    assert_eq!(book.add_order(3, false, 101, 4, 12), Ok(()));
    let snapshot = book.get_snapshot(5);
    assert_eq!(snapshot.bids, vec![level(100, 2, 1), level(99, 3, 1)]);
    assert_eq!(snapshot.asks, vec![level(101, 4, 1)]);
    assert_eq!(snapshot.spread, 1);
    assert_eq!(snapshot.sequence, 3);
    assert_eq!(snapshot.timestamp, 12);
    assert_eq!(snapshot.market_id, 1);
}

#[test]
fn snapshot_takes_exactly_the_best_levels() {
    let mut bids = Orderbook::new(1);
    let mut asks = Orderbook::new(2);
    let prices: Vec<u64> = vec![104, 100, 109, 101, 107, 103, 108, 102, 106, 105];
    for (i, price) in prices.iter().enumerate() {
        assert_eq!(bids.add_order(i as u64, true, *price, 1 + i as u64, 0), Ok(()));
        assert_eq!(asks.add_order(i as u64, false, *price, 1 + i as u64, 0), Ok(()));
    }
    let snapshot = bids.get_snapshot(3);
    assert_eq!(snapshot.bids, vec![level(109, 3, 1), level(108, 7, 1), level(107, 5, 1)]);
    assert_eq!(snapshot.asks, vec![]);
    let snapshot = asks.get_snapshot(3);
    assert_eq!(snapshot.asks, vec![level(100, 2, 1), level(101, 4, 1), level(102, 8, 1)]);
    assert_eq!(snapshot.bids, vec![]);
    assert_eq!(asks.get_snapshot(10).asks.len(), 10);
    assert_eq!(asks.get_snapshot(25).asks.len(), 10);
    assert_eq!(asks.get_snapshot(1).asks, vec![level(100, 2, 1)]);
}

#[test]
fn cancel_of_unknown_order_is_not_found_and_changes_nothing() {
    let mut book = Orderbook::new(1);
    assert_eq!(book.add_order(1, true, 100, 5, 7), Ok(()));
    let before = book.get_snapshot(5);
    assert_eq!(book.cancel_order(2), Ok(false));
    assert_eq!(book.get_snapshot(5), before);
    let mut empty = Orderbook::new(3);
    assert_eq!(empty.cancel_order(1), Ok(false));
    assert_eq!(empty.get_snapshot(5).sequence, 0);
}

#[test]
fn sequence_advances_once_per_applied_mutation() {
    let mut book = Orderbook::new(1);
    assert_eq!(book.get_snapshot(0).sequence, 0);
    assert_eq!(book.add_order(1, true, 100, 5, 0), Ok(()));
    assert_eq!(book.get_snapshot(0).sequence, 1);
    assert_eq!(book.add_order(2, false, 101, 5, 0), Ok(()));
    assert_eq!(book.get_snapshot(0).sequence, 2);
    assert_eq!(book.cancel_order(1), Ok(true));
    assert_eq!(book.get_snapshot(0).sequence, 3);
    assert_eq!(book.cancel_order(1), Ok(false));
    assert_eq!(book.get_snapshot(0).sequence, 3);
    assert_eq!(book.add_order(2, false, 101, 5, 0), Err(BookError::DuplicateOrder));
    assert_eq!(book.get_snapshot(0).sequence, 3);
}

#[test]
fn modify_counts_two_steps_when_it_replaces_and_one_when_it_places() {
    let mut book = Orderbook::new(1);
    assert_eq!(book.add_order(1, true, 100, 5, 0), Ok(()));
    assert_eq!(book.modify_order(1, true, 101, 6, 1), Ok(true));
    assert_eq!(book.get_snapshot(0).sequence, 3);
    assert_eq!(book.modify_order(2, true, 101, 6, 2), Ok(false));
    assert_eq!(book.get_snapshot(0).sequence, 4);
}

#[test]
fn modify_moves_the_order_to_its_new_terms() {
    let mut book = Orderbook::new(1);
    assert_eq!(book.add_order(1, true, 100, 5, 1), Ok(()));
    assert_eq!(book.add_order(2, true, 100, 4, 2), Ok(()));
    assert_eq!(book.modify_order(1, false, 105, 2, 3), Ok(true));
    let snapshot = book.get_snapshot(5);
    assert_eq!(snapshot.bids, vec![level(100, 4, 1)]);
    assert_eq!(snapshot.asks, vec![level(105, 2, 1)]);
    assert_eq!(snapshot.timestamp, 3);
    assert_eq!(book.cancel_order(1), Ok(true));
    assert_eq!(book.get_snapshot(5).asks, vec![]);
}

#[test]
fn modify_of_unknown_order_places_it() {
    let mut book = Orderbook::new(1);
    assert_eq!(book.modify_order(8, true, 100, 5, 4), Ok(false));
    let snapshot = book.get_snapshot(5);
    assert_eq!(snapshot.bids, vec![level(100, 5, 1)]);
    assert_eq!(snapshot.sequence, 1);
    assert_eq!(snapshot.timestamp, 4);
}

#[test]
fn duplicate_place_is_rejected_and_changes_nothing() {
    let mut book = Orderbook::new(1);
    assert_eq!(book.add_order(1, true, 100, 5, 1), Ok(()));
    let before = book.get_snapshot(5);
    assert_eq!(book.add_order(1, true, 100, 9, 2), Err(BookError::DuplicateOrder));
    assert_eq!(book.add_order(1, false, 120, 9, 3), Err(BookError::DuplicateOrder));
    assert_eq!(book.get_snapshot(5), before);
    assert_eq!(book.cancel_order(1), Ok(true));
    assert_eq!(book.get_snapshot(5).bids, vec![]);
    assert_eq!(book.get_snapshot(5).asks, vec![]);
}

#[test]
fn level_aggregates_the_orders_at_its_price() {
    let mut book = Orderbook::new(1);
    assert_eq!(book.add_order(1, true, 100, 5, 0), Ok(()));
    assert_eq!(book.add_order(2, true, 100, 7, 0), Ok(()));
    assert_eq!(book.add_order(3, true, 100, 11, 0), Ok(()));
    assert_eq!(book.add_order(4, false, 100, 1, 0), Ok(()));
    let snapshot = book.get_snapshot(5);
    assert_eq!(snapshot.bids, vec![level(100, 23, 3)]);
    assert_eq!(snapshot.asks, vec![level(100, 1, 1)]);
    assert_eq!(book.cancel_order(2), Ok(true));
    assert_eq!(book.get_snapshot(5).bids, vec![level(100, 16, 2)]);
}

#[test]
fn level_lives_exactly_while_an_order_rests_there() {
    let mut book = Orderbook::new(1);
    assert_eq!(book.add_order(1, false, 100, 5, 0), Ok(()));
    assert_eq!(book.add_order(2, false, 100, 7, 0), Ok(()));
    assert_eq!(book.cancel_order(1), Ok(true));
    assert_eq!(book.get_snapshot(5).asks, vec![level(100, 7, 1)]);
    assert_eq!(book.cancel_order(2), Ok(true));
    assert_eq!(book.get_snapshot(5).asks, vec![]);
    assert_eq!(book.cancel_order(1), Ok(false));
    assert_eq!(book.cancel_order(2), Ok(false));
    assert_eq!(book.add_order(1, true, 90, 1, 0), Ok(()));
    assert_eq!(book.get_snapshot(5).bids, vec![level(90, 1, 1)]);
    assert_eq!(book.get_snapshot(5).asks, vec![]);
}

#[test]
fn cancel_finds_the_order_on_its_own_side_and_price() {
    let mut book = Orderbook::new(1);
    assert_eq!(book.add_order(1, true, 100, 5, 0), Ok(()));
    assert_eq!(book.add_order(2, false, 100, 6, 0), Ok(()));
    assert_eq!(book.add_order(3, true, 101, 7, 0), Ok(()));
    assert_eq!(book.cancel_order(2), Ok(true));
    let snapshot = book.get_snapshot(5);
    assert_eq!(snapshot.bids, vec![level(101, 7, 1), level(100, 5, 1)]);
    assert_eq!(snapshot.asks, vec![]);
}

#[test]
fn spread_is_zero_when_a_side_is_empty() {
    let mut book = Orderbook::new(1);
    assert_eq!(book.get_snapshot(5).spread, 0);
    assert_eq!(book.add_order(1, true, 100, 5, 0), Ok(()));
    assert_eq!(book.get_snapshot(5).spread, 0);
    assert_eq!(book.add_order(2, false, 103, 5, 0), Ok(()));
    assert_eq!(book.get_snapshot(5).spread, 3);
    assert_eq!(book.cancel_order(1), Ok(true));
    assert_eq!(book.get_snapshot(5).spread, 0);
}

#[test]
fn spread_is_between_the_best_prices_of_the_book() {
    let mut book = Orderbook::new(1);
    assert_eq!(book.add_order(1, true, 98, 5, 0), Ok(()));
    assert_eq!(book.add_order(2, true, 95, 5, 0), Ok(()));
    assert_eq!(book.add_order(3, false, 110, 5, 0), Ok(()));
    assert_eq!(book.add_order(4, false, 104, 5, 0), Ok(()));
    assert_eq!(book.get_snapshot(1).spread, 6);
    assert_eq!(book.get_snapshot(2).spread, 6);
    let none = book.get_snapshot(0);
    assert_eq!(none.bids, vec![]);
    assert_eq!(none.asks, vec![]);
    assert_eq!(none.spread, 6);
}

#[test]
fn spread_of_a_crossed_book_is_negative() {
    let mut book = Orderbook::new(1);
    assert_eq!(book.add_order(1, true, 105, 5, 0), Ok(()));
    assert_eq!(book.add_order(2, false, 100, 5, 0), Ok(()));
    assert_eq!(book.get_snapshot(5).spread, -5);
    let mut wide = Orderbook::new(2);
    assert_eq!(wide.add_order(1, true, u64::MAX, 1, 0), Ok(()));
    assert_eq!(wide.add_order(2, false, 0, 1, 0), Ok(()));
    assert_eq!(wide.get_snapshot(5).spread, -(u64::MAX as i128));
}

#[test]
fn extreme_prices_keep_their_order() {
    let mut book = Orderbook::new(1);
    assert_eq!(book.add_order(1, true, 0, 1, 0), Ok(()));
    assert_eq!(book.add_order(2, true, u64::MAX, 2, 0), Ok(()));
    assert_eq!(book.add_order(3, false, u64::MAX, 3, 0), Ok(()));
    assert_eq!(book.add_order(4, false, 0, 4, 0), Ok(()));
    let snapshot = book.get_snapshot(5);
    assert_eq!(snapshot.bids, vec![level(u64::MAX, 2, 1), level(0, 1, 1)]);
    assert_eq!(snapshot.asks, vec![level(0, 4, 1), level(u64::MAX, 3, 1)]);
}

#[test]
fn timestamp_follows_the_last_place() {
    let mut book = Orderbook::new(1);
    assert_eq!(book.add_order(1, true, 100, 5, 1234567890), Ok(()));
    assert_eq!(book.get_snapshot(1).timestamp, 1234567890);
    assert_eq!(book.add_order(2, true, 100, 5, -4), Ok(()));
    assert_eq!(book.get_snapshot(1).timestamp, -4);
    assert_eq!(book.cancel_order(2), Ok(true));
    assert_eq!(book.get_snapshot(1).timestamp, -4);
}

#[test]
fn places_and_cancels_in_any_order_leave_no_level() {
    let count: u64 = 64;
    let mut book = Orderbook::new(1);
    assert_eq!(book.add_order(1000, true, 99, 1, 0), Ok(()));
    let before = book.get_snapshot(10);
    let mut placed: Vec<u64> = (0..count).collect();
    placed.reverse();
    for id in placed.iter() {
        assert_eq!(book.add_order(*id, true, 100, 2, 0), Ok(()));
    }
    assert_eq!(book.get_snapshot(1).bids, vec![level(100, 2 * count as u128, count as usize)]);
    let cancelled: Vec<u64> = (0..count).map(|i| (i * 37 + 11) % count).collect();
    for id in cancelled.iter() {
        assert_eq!(book.cancel_order(*id), Ok(true));
    }
    let after = book.get_snapshot(10);
    assert_eq!(after.bids, before.bids);
    assert_eq!(after.asks, before.asks);
    assert_eq!(after.sequence, before.sequence + 2 * count);
    for id in 0..count {
        assert_eq!(book.cancel_order(id), Ok(false));
    }
    for id in 0..count {
        assert_eq!(book.add_order(id, false, 200, 1, 0), Ok(()));
    }
    assert_eq!(book.get_snapshot(10).asks, vec![level(200, count as u128, count as usize)]);
}

#[test]
fn apply_runs_each_kind_of_command() {
    let mut book = Orderbook::new(1);
    let place = Command::Place { order_id: 1, is_buy: true, price: 100, size: 5, timestamp: 3 };
    assert_eq!(book.apply(place), Ok(Applied::Placed));
    assert_eq!(book.apply(place), Err(BookError::DuplicateOrder));
    let modify = Command::Modify { order_id: 1, is_buy: true, price: 100, size: 8, timestamp: 4 };
    assert_eq!(book.apply(modify), Ok(Applied::Modified { replaced: true }));
    assert_eq!(book.get_snapshot(1).bids, vec![level(100, 8, 1)]);
    assert_eq!(book.apply(Command::Cancel { order_id: 1 }), Ok(Applied::Cancelled));
    assert_eq!(book.apply(Command::Cancel { order_id: 1 }), Ok(Applied::NotFound));
    assert_eq!(book.apply(modify), Ok(Applied::Modified { replaced: false }));
    assert_eq!(book.get_snapshot(1).sequence, 5);
}
