use orderbook_engine::{Order, PriceLevel};

fn order(order_id: u64, price: u64, size: u64) -> Order {
    Order { order_id, price, size, timestamp: 0 }
}

#[test]
fn new_level_is_empty() {
    let level = PriceLevel::new(100);
    assert_eq!(level.price(), 100);
    assert_eq!(level.total_size(), 0);
    assert_eq!(level.order_count(), 0);
    assert!(level.is_empty());
}

#[test]
fn add_raises_aggregate_by_size() {
    let mut level = PriceLevel::new(100);
    level.add_order(order(1, 100, 5));
    assert_eq!(level.total_size(), 5);
    assert_eq!(level.order_count(), 1);
    level.add_order(order(2, 100, 7));
    assert_eq!(level.total_size(), 12);
    assert_eq!(level.order_count(), 2);
    assert!(!level.is_empty());
    assert_eq!(level.price(), 100);
}

#[test]
fn remove_returns_order_and_lowers_aggregate() {
    let mut level = PriceLevel::new(100);
    level.add_order(order(1, 100, 5));
    level.add_order(order(2, 100, 7));
    let removed = level.remove_order(1);
    assert_eq!(removed, Some(order(1, 100, 5)));
    assert_eq!(level.total_size(), 7);
    assert_eq!(level.order_count(), 1);
    let removed = level.remove_order(2);
    assert_eq!(removed, Some(order(2, 100, 7)));
    assert_eq!(level.total_size(), 0);
    assert!(level.is_empty());
}

#[test]
fn remove_of_absent_id_is_none_and_changes_nothing() {
    let mut level = PriceLevel::new(100);
    level.add_order(order(1, 100, 5));
    assert_eq!(level.remove_order(9), None);
    assert_eq!(level.total_size(), 5);
    assert_eq!(level.order_count(), 1);
    assert_eq!(level.remove_order(1), Some(order(1, 100, 5)));
    assert_eq!(level.remove_order(1), None);
    assert_eq!(level.total_size(), 0);
}

#[test]
fn add_under_resident_id_replaces_the_order() {
    let mut level = PriceLevel::new(100);
    level.add_order(order(1, 100, 5));
    level.add_order(order(2, 100, 3));
    level.add_order(order(1, 100, 9));
    assert_eq!(level.order_count(), 2);
    assert_eq!(level.total_size(), 12);
    assert_eq!(level.remove_order(1), Some(order(1, 100, 9)));
    assert_eq!(level.total_size(), 3);
}

#[test]
fn aggregate_is_exact_beyond_u64() {
    let mut level = PriceLevel::new(1);
    level.add_order(order(1, 1, u64::MAX));
    level.add_order(order(2, 1, u64::MAX));
    level.add_order(order(3, 1, 1));
    assert_eq!(level.total_size(), 2 * (u64::MAX as u128) + 1);
    level.remove_order(1);
    assert_eq!(level.total_size(), (u64::MAX as u128) + 1);
}

#[test]
fn aggregate_equals_sum_of_resident_sizes() {
    let mut level = PriceLevel::new(250);
    let sizes: Vec<u64> = vec![4, 0, 19, 7, 1_000_000, 3];
    let mut expected: u128 = 0;
    for (i, size) in sizes.iter().enumerate() {
        level.add_order(order(i as u64, 250, *size));
        expected += *size as u128;
        assert_eq!(level.total_size(), expected);
    }
    for (i, size) in sizes.iter().enumerate() {
        if i % 2 == 0 {
            level.remove_order(i as u64);
            expected -= *size as u128;
            assert_eq!(level.total_size(), expected);
        }
    }
    assert_eq!(level.total_size(), 0 + 7 + 3);
    assert_eq!(level.order_count(), 3);
}

#[test]
fn level_keeps_orders_of_any_price() {
    let mut level = PriceLevel::new(100);
    level.add_order(order(1, 101, 5));
    assert_eq!(level.price(), 100);
    assert_eq!(level.remove_order(1), Some(order(1, 101, 5)));
}
