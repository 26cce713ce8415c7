use crate::keys::lemma_keys_ascend;
use crate::level::PriceLevel;
use crate::model::BookState;
use crate::order::{better_price, side_key, side_key_of};
use std::collections::BTreeMap;
use vstd::prelude::*;
use vstd::std_specs::iter::IteratorSpec;

verus! {

/// One price level as a depth view reports it.
#[derive(Clone, Copy, Debug, PartialEq, Eq)]
pub struct Level {
    pub price: u64,
    pub size: u128,
    pub orders: usize,
}

/// A depth view of one book: the best levels of each side, best first, the
/// spread, and the sequence and timestamp the view was taken at.
#[derive(Clone, Debug, PartialEq, Eq)]
pub struct OrderbookSnapshot {
    pub market_id: u16,
    pub sequence: u64,
    pub timestamp: i64,
    pub bids: Vec<Level>,
    pub asks: Vec<Level>,
    pub spread: i128,
}

/// The entry reports a level that exists on the side, with that level's
/// aggregate size and order count.
pub open spec fn describes_level(state: BookState, is_buy: bool, entry: Level) -> bool {
    &&& state.has_level(is_buy, entry.price)
    &&& entry.size == state.level_size(is_buy, entry.price)
    &&& entry.orders == state.level_count(is_buy, entry.price)
}

/// Whether some entry of the list is at the price.
pub open spec fn lists_price(entries: Seq<Level>, price: u64) -> bool {
    exists|i: int| 0 <= i < entries.len() && (#[trigger] entries[i]).price == price
}

/// `entries` is the depth view of one side: at most `depth` entries, each
/// describing a level of the side, strictly best first, and leaving a level
/// out only when the list is full and every listed price comes before it.
pub open spec fn is_depth_view(
    state: BookState,
    is_buy: bool,
    depth: usize,
    entries: Seq<Level>,
) -> bool {
    &&& entries.len() <= depth
    &&& forall|i: int|
        0 <= i < entries.len() ==> describes_level(state, is_buy, #[trigger] entries[i])
    &&& forall|i: int, j: int|
        0 <= i < j < entries.len() ==> better_price(
            is_buy,
            (#[trigger] entries[i]).price,
            (#[trigger] entries[j]).price,
        )
    &&& forall|price: u64| #[trigger]
        state.has_level(is_buy, price) && !lists_price(entries, price) ==> {
            &&& entries.len() == depth
            &&& forall|i: int|
                0 <= i < entries.len() ==> better_price(
                    is_buy,
                    (#[trigger] entries[i]).price,
                    price,
                )
        }
}

/// `snapshot` is the depth view of `state` at `depth`.
pub open spec fn is_snapshot(state: BookState, depth: usize, snapshot: OrderbookSnapshot) -> bool {
    &&& snapshot.market_id == state.market_id
    &&& snapshot.sequence == state.sequence
    &&& snapshot.timestamp == state.last_update
    &&& is_depth_view(state, true, depth, snapshot.bids@)
    &&& is_depth_view(state, false, depth, snapshot.asks@)
    &&& snapshot.spread == state.spread()
}

/// Two prices of one side are the same, or one of them comes before the
/// other, and never both.
proof fn lemma_price_order(is_buy: bool, a: u64, b: u64)
    ensures
        a == b || better_price(is_buy, a, b) || better_price(is_buy, b, a),
        !(better_price(is_buy, a, b) && better_price(is_buy, b, a)),
        !better_price(is_buy, a, a),
{
}

/// Two depth views of one side list the same prices, place by place, as far
/// as both reach.
proof fn lemma_depth_view_prices(
    state: BookState,
    is_buy: bool,
    depth: usize,
    a: Seq<Level>,
    b: Seq<Level>,
    upto: int,
)
    requires
        is_depth_view(state, is_buy, depth, a),
        is_depth_view(state, is_buy, depth, b),
        0 <= upto <= a.len(),
        upto <= b.len(),
    ensures
        forall|i: int| 0 <= i < upto ==> (#[trigger] a[i]).price == b[i].price,
    decreases upto,
{
    if upto > 0 {
        let i = upto - 1;
        lemma_depth_view_prices(state, is_buy, depth, a, b, i);
        lemma_price_order(is_buy, a[i].price, b[i].price);
        if better_price(is_buy, a[i].price, b[i].price) {
            lemma_no_earlier_price(state, is_buy, depth, a, b, i);
        }
        if better_price(is_buy, b[i].price, a[i].price) {
            lemma_no_earlier_price(state, is_buy, depth, b, a, i);
        }
    }
}

/// Where two depth views of one side agree on the prices before place `i`,
/// the price of the first at `i` does not come before that of the second.
proof fn lemma_no_earlier_price(
    state: BookState,
    is_buy: bool,
    depth: usize,
    a: Seq<Level>,
    b: Seq<Level>,
    i: int,
)
    requires
        is_depth_view(state, is_buy, depth, a),
        is_depth_view(state, is_buy, depth, b),
        0 <= i < a.len(),
        i < b.len(),
        forall|k: int| 0 <= k < i ==> (#[trigger] a[k]).price == b[k].price,
    ensures
        !better_price(is_buy, a[i].price, b[i].price),
{
    let price = a[i].price;
    if better_price(is_buy, price, b[i].price) {
        assert(describes_level(state, is_buy, a[i]));
        assert(state.has_level(is_buy, price));
        if lists_price(b, price) {
            let k = choose|k: int| 0 <= k < b.len() && (#[trigger] b[k]).price == price;
            if k < i {
                assert(a[k].price == b[k].price);
                assert(better_price(is_buy, a[k].price, a[i].price));
            } else if k > i {
                assert(better_price(is_buy, b[i].price, b[k].price));
            }
            assert(false);
        } else {
            assert(better_price(is_buy, b[i].price, price));
            assert(false);
        }
    }
}

/// A depth view that agrees with a longer one on all its prices is full.
proof fn lemma_no_shorter_view(
    state: BookState,
    is_buy: bool,
    depth: usize,
    a: Seq<Level>,
    b: Seq<Level>,
)
    requires
        is_depth_view(state, is_buy, depth, a),
        is_depth_view(state, is_buy, depth, b),
    ensures
        a.len() >= b.len(),
{
    if a.len() < b.len() {
        let last = a.len() as int;
        let price = b[last].price;
        lemma_depth_view_prices(state, is_buy, depth, a, b, last);
        assert(describes_level(state, is_buy, b[last]));
        assert(state.has_level(is_buy, price));
        if lists_price(a, price) {
            let k = choose|k: int| 0 <= k < a.len() && (#[trigger] a[k]).price == price;
            assert(a[k].price == b[k].price);
            assert(better_price(is_buy, b[k].price, b[last].price));
            assert(false);
        }
        assert(a.len() == depth);
    }
}

/// A side has one depth view only: the predicate fixes the list, entry by
/// entry.
pub proof fn lemma_depth_view_unique(
    state: BookState,
    is_buy: bool,
    depth: usize,
    a: Seq<Level>,
    b: Seq<Level>,
)
    requires
        is_depth_view(state, is_buy, depth, a),
        is_depth_view(state, is_buy, depth, b),
    ensures
        a == b,
{
    lemma_no_shorter_view(state, is_buy, depth, a, b);
    lemma_no_shorter_view(state, is_buy, depth, b, a);
    lemma_depth_view_prices(state, is_buy, depth, a, b, a.len() as int);
    assert forall|i: int| 0 <= i < a.len() implies a[i] == b[i] by {
        assert(describes_level(state, is_buy, a[i]));
        assert(describes_level(state, is_buy, b[i]));
    }
    assert(a =~= b);
}

/// The entry reports the level filed under the key of its price.
pub open spec fn reports(levels: Map<u64, PriceLevel>, is_buy: bool, entry: Level) -> bool {
    let key = side_key_of(is_buy, entry.price);
    &&& levels.contains_key(key)
    &&& entry.price == levels[key].spec_price()
    &&& entry.size == levels[key].spec_total_size()
    &&& entry.orders == levels[key].orders().dom().len()
}

/// Whether some entry of the list is filed under the key.
pub open spec fn lists_key(entries: Seq<Level>, is_buy: bool, key: u64) -> bool {
    exists|i: int|
        0 <= i < entries.len() && side_key_of(is_buy, (#[trigger] entries[i]).price) == key
}

/// `entries` reports the levels under the `depth` smallest keys of a side
/// map, in ascending key order.
pub open spec fn is_side_prefix(
    levels: Map<u64, PriceLevel>,
    is_buy: bool,
    depth: usize,
    entries: Seq<Level>,
) -> bool {
    &&& entries.len() <= depth
    &&& forall|i: int| 0 <= i < entries.len() ==> reports(levels, is_buy, #[trigger] entries[i])
    &&& forall|i: int, j: int|
        0 <= i < j < entries.len() ==> side_key_of(is_buy, (#[trigger] entries[i]).price)
            < side_key_of(is_buy, (#[trigger] entries[j]).price)
    &&& forall|key: u64| #[trigger]
        levels.contains_key(key) && !lists_key(entries, is_buy, key) ==> {
            &&& entries.len() == depth
            &&& forall|i: int|
                0 <= i < entries.len() ==> side_key_of(is_buy, (#[trigger] entries[i]).price)
                    < key
        }
}

/// Every level of the side map is filed under the key of its price.
pub open spec fn keyed_by_price(levels: Map<u64, PriceLevel>, is_buy: bool) -> bool {
    forall|key: u64| #[trigger]
        levels.contains_key(key) ==> side_key_of(is_buy, levels[key].spec_price()) == key
}

/// Takes the next item of an iterator: the head of what remained, which
/// then remains no longer.
fn next_item<I: Iterator>(iter: &mut I) -> (item: Option<I::Item>)
    requires
        <I as IteratorSpec>::obeys_prophetic_iter_laws(old(iter)),
    ensures
        <I as IteratorSpec>::obeys_prophetic_iter_laws(final(iter)),
        <I as IteratorSpec>::remaining(old(iter)).len() > 0 ==> <I as IteratorSpec>::remaining(
            final(iter),
        ) == <I as IteratorSpec>::remaining(old(iter)).drop_first() && item == Some(
            <I as IteratorSpec>::remaining(old(iter))[0],
        ),
        <I as IteratorSpec>::remaining(old(iter)).len() == 0 ==> <I as IteratorSpec>::remaining(
            final(iter),
        ) == <I as IteratorSpec>::remaining(old(iter)) && item is None,
{
    iter.next()
}

/// Reads the first `depth` levels of a side map in key order.
pub(crate) fn collect_levels(levels: &BTreeMap<u64, PriceLevel>, is_buy: bool, depth: usize) -> (out:
    Vec<Level>)
    requires
        keyed_by_price(levels@, is_buy),
    ensures
        is_side_prefix(levels@, is_buy, depth, out@),
{
    let mut out: Vec<Level> = Vec::new();
    let mut keys = levels.keys();
    let ghost start = keys;
    proof {
        lemma_keys_ascend(start.remaining());
        assert forall|key: u64| #[trigger] levels@.contains_key(key) implies exists|j: int|
            0 <= j < start.remaining().len() && *start.remaining()[j] == key by {
            assert(start.remaining().unref().to_set().contains(key));
            let j = choose|j: int|
                0 <= j < start.remaining().unref().len() && start.remaining().unref()[j] == key;
            assert(*start.remaining()[j] == key);
        }
        assert forall|j: int| 0 <= j < start.remaining().len() implies levels@.contains_key(
            *#[trigger] start.remaining()[j],
        ) by {
            assert(start.remaining().unref()[j] == *start.remaining()[j]);
            assert(start.remaining().unref().to_set().contains(*start.remaining()[j]));
        }
        assert(keys.remaining() =~= start.remaining().skip(0));
    }
    let mut done = false;
    while !done && out.len() < depth
        invariant
            keyed_by_price(levels@, is_buy),
            out.len() <= depth,
            out.len() <= start.remaining().len(),
            keys.remaining() == start.remaining().skip(out.len() as int),
            done ==> out.len() == start.remaining().len(),
            forall|i: int, j: int|
                0 <= i < j < start.remaining().len() ==> *start.remaining()[i]
                    < *start.remaining()[j],
            forall|key: u64| #[trigger]
                levels@.contains_key(key) ==> exists|j: int|
                    0 <= j < start.remaining().len() && *start.remaining()[j] == key,
            forall|j: int|
                0 <= j < start.remaining().len() ==> levels@.contains_key(
                    *#[trigger] start.remaining()[j],
                ),
            forall|i: int|
                0 <= i < out.len() ==> reports(levels@, is_buy, #[trigger] out@[i]) && side_key_of(
                    is_buy,
                    out@[i].price,
                ) == *start.remaining()[i],
        decreases depth - out.len() + if done { 0int } else { 1int },
    {
        let ghost taken = out.len() as int;
        match next_item(&mut keys) {
            Some(key) => {
                proof {
                    assert(*key == *start.remaining()[taken]);
                    assert(keys.remaining() =~= start.remaining().skip(taken + 1));
                }
                match levels.get(key) {
                    Some(level) => {
                        let entry = Level {
                            price: level.price(),
                            size: level.total_size(),
                            orders: level.order_count(),
                        };
                        out.push(entry);
                    },
                    None => {
                        done = true;
                        proof {
                            assert(false);
                        }
                    },
                }
            },
            None => {
                done = true;
            },
        }
    }
    proof {
        assert forall|key: u64| #[trigger]
            levels@.contains_key(key) && !lists_key(out@, is_buy, key) implies out.len() == depth
            && forall|i: int|
            0 <= i < out.len() ==> side_key_of(is_buy, (#[trigger] out@[i]).price) < key by {
            let j = choose|j: int|
                0 <= j < start.remaining().len() && *start.remaining()[j] == key;
            if j < out.len() {
                assert(side_key_of(is_buy, out@[j].price) == key);
            }
        }
    }
    out
}

/// The price filed under the smallest key of a side map: the best price of
/// the side, or `None` when the side has no level.
pub(crate) fn first_price(levels: &BTreeMap<u64, PriceLevel>, is_buy: bool) -> (best: Option<u64>)
    ensures
        match best {
            Some(price) => {
                &&& levels@.contains_key(side_key_of(is_buy, price))
                &&& forall|key: u64| #[trigger]
                    levels@.contains_key(key) ==> side_key_of(is_buy, price) <= key
            },
            None => forall|key: u64| !#[trigger] levels@.contains_key(key),
        },
{
    let mut keys = levels.keys();
    let ghost start = keys;
    proof {
        lemma_keys_ascend(start.remaining());
    }
    match next_item(&mut keys) {
        Some(key) => {
            proof {
                assert(start.remaining().unref()[0] == *key);
                assert(start.remaining().unref().to_set().contains(*key));
                assert forall|other: u64| #[trigger] levels@.contains_key(other) implies *key
                    <= other by {
                    assert(start.remaining().unref().to_set().contains(other));
                    let j = choose|j: int|
                        0 <= j < start.remaining().unref().len() && start.remaining().unref()[j]
                            == other;
                    assert(*start.remaining()[j] == other);
                }
            }
            Some(side_key(is_buy, *key))
        },
        None => {
            proof {
                assert(levels@.dom().len() == 0);
                assert(levels@.dom().finite());
                assert(levels@.dom() =~= Set::<u64>::empty());
            }
            None
        },
    }
}

} // verus!
