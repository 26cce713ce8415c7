use vstd::prelude::*;

verus! {

/// One resting limit order.
///
/// `price` is in ticks and `size` is the remaining quantity in lots.
#[derive(Clone, Copy, Debug, PartialEq, Eq)]
pub struct Order {
    pub order_id: u64,
    pub price: u64,
    pub size: u64,
    pub timestamp: i64,
}

/// The key under which a price is filed in the ordered map of one side.
///
/// Asks are keyed by the price itself. Bids are keyed by the price's
/// distance from `u64::MAX`, so that ascending-key iteration visits the
/// highest bid first.
pub open spec fn side_key_of(is_buy: bool, price: u64) -> u64 {
    if is_buy {
        (u64::MAX - price) as u64
    } else {
        price
    }
}

/// Whether price `a` comes strictly before price `b` on the given side:
/// higher first for bids, lower first for asks.
pub open spec fn better_price(is_buy: bool, a: u64, b: u64) -> bool {
    if is_buy {
        a > b
    } else {
        a < b
    }
}

/// Computes the side-map key of a price.
pub fn side_key(is_buy: bool, price: u64) -> (key: u64)
    ensures
        key == side_key_of(is_buy, price),
        side_key_of(is_buy, key) == price,
{
    if is_buy {
        u64::MAX - price
    } else {
        price
    }
}

/// The key transform is its own inverse, and it turns "better price" into
/// "smaller key" on both sides.
pub proof fn lemma_side_key_order(is_buy: bool, a: u64, b: u64)
    ensures
        side_key_of(is_buy, side_key_of(is_buy, a)) == a,
        better_price(is_buy, a, b) <==> side_key_of(is_buy, a) < side_key_of(is_buy, b),
        side_key_of(is_buy, a) == side_key_of(is_buy, b) <==> a == b,
{
}

} // verus!
