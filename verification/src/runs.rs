//! Runs of commands on the model of one book, and what holds of them
//! whatever the order in which the commands arrive.

use crate::model::{Applied, BookState, Command, RestingOrder};
use vstd::prelude::*;

verus! {

/// The sequence number never goes back, and it advances by exactly one for
/// each place or cancel that is applied: by one for a place, by one for a
/// cancel that found its order, by two for a modify that replaced an order
/// (its cancel and its place) and by one for a modify that placed a new
/// one. A command that is refused, or a cancel that finds nothing, leaves
/// the whole state as it was.
pub proof fn lemma_sequence_advances(state: BookState, command: Command)
    ensures
        state.apply(command).sequence >= state.sequence,
        state.apply(command).market_id == state.market_id,
        match state.outcome(command) {
            Ok(Applied::Placed) => state.apply(command).sequence == state.sequence + 1,
            Ok(Applied::Cancelled) => state.apply(command).sequence == state.sequence + 1,
            Ok(Applied::Modified { replaced }) => state.apply(command).sequence == state.sequence
                + if replaced {
                2nat
            } else {
                1nat
            },
            Ok(Applied::NotFound) => state.apply(command) == state,
            Err(_) => state.apply(command) == state,
        },
        state.wf() ==> state.apply(command).wf(),
{
}

/// Levels, their aggregates and their order counts are functions of the
/// resting orders alone: two states with the same orders have the same
/// levels.
pub proof fn lemma_levels_follow_orders(a: BookState, b: BookState)
    requires
        a.orders == b.orders,
    ensures
        forall|side: bool, level: u64| a.has_level(side, level) == b.has_level(side, level),
        forall|side: bool, level: u64| a.level_sizes(side, level) == b.level_sizes(side, level),
        forall|side: bool, level: u64| a.level_size(side, level) == b.level_size(side, level),
        forall|side: bool, level: u64| a.level_count(side, level) == b.level_count(side, level),
{
    assert forall|side: bool, level: u64| a.has_level(side, level) == b.has_level(
        side,
        level,
    ) by {
        if a.has_level(side, level) {
            let id = choose|id: u64| a.rests_at(id, side, level);
            assert(b.rests_at(id, side, level));
        }
        if b.has_level(side, level) {
            let id = choose|id: u64| b.rests_at(id, side, level);
            assert(a.rests_at(id, side, level));
        }
    }
    assert forall|side: bool, level: u64| a.level_sizes(side, level) == b.level_sizes(
        side,
        level,
    ) by {
        assert(a.level_sizes(side, level) =~= b.level_sizes(side, level));
    }
}

/// Placing an order under a fresh id and then cancelling that id gives back
/// the orders that were there before, and so every level, aggregate and
/// order count derived from them; the sequence has advanced by two.
pub proof fn lemma_place_then_cancel(
    state: BookState,
    order_id: u64,
    is_buy: bool,
    price: u64,
    size: u64,
    timestamp: i64,
)
    requires
        !state.orders.contains_key(order_id),
        state.sequence + 2 <= u64::MAX,
    ensures
        ({
            let placed = state.apply(
                Command::Place { order_id, is_buy, price, size, timestamp },
            );
            let cancelled = placed.apply(Command::Cancel { order_id });
            &&& placed.rests_at(order_id, is_buy, price)
            &&& cancelled.orders == state.orders
            &&& cancelled.sequence == state.sequence + 2
            &&& forall|side: bool, level: u64|
                cancelled.has_level(side, level) == state.has_level(side, level)
            &&& forall|side: bool, level: u64|
                cancelled.level_sizes(side, level) == state.level_sizes(side, level)
        }),
{
    let placed = state.apply(Command::Place { order_id, is_buy, price, size, timestamp });
    let cancelled = placed.apply(Command::Cancel { order_id });
    assert(cancelled.orders =~= state.orders);
    lemma_levels_follow_orders(cancelled, state);
}

/// The state after placing, one after the other, an order of the same
/// terms under each of the ids.
pub open spec fn place_each(
    state: BookState,
    ids: Seq<u64>,
    is_buy: bool,
    price: u64,
    size: u64,
    timestamp: i64,
) -> BookState
    decreases ids.len(),
{
    if ids.len() == 0 {
        state
    } else {
        place_each(state, ids.drop_last(), is_buy, price, size, timestamp).apply(
            Command::Place { order_id: ids.last(), is_buy, price, size, timestamp },
        )
    }
}

/// The state after cancelling the ids one after the other.
pub open spec fn cancel_each(state: BookState, ids: Seq<u64>) -> BookState
    decreases ids.len(),
{
    if ids.len() == 0 {
        state
    } else {
        cancel_each(state, ids.drop_last()).apply(Command::Cancel { order_id: ids.last() })
    }
}

/// An id is among `ids` exactly when it is the last of them or among the
/// ones before; with no id twice, the last is not among the ones before.
proof fn lemma_last_id(ids: Seq<u64>)
    requires
        ids.len() > 0,
    ensures
        forall|id: u64| #[trigger]
            ids.contains(id) <==> ids.drop_last().contains(id) || id == ids.last(),
        ids.no_duplicates() ==> ids.drop_last().no_duplicates() && !ids.drop_last().contains(
            ids.last(),
        ),
{
    let front = ids.drop_last();
    let last = ids.last();
    assert forall|id: u64| ids.contains(id) <==> front.contains(id) || id == last by {
        if ids.contains(id) {
            let i = choose|i: int| 0 <= i < ids.len() && ids[i] == id;
            if i < front.len() {
                assert(front[i] == id);
            }
        }
        if front.contains(id) {
            let i = choose|i: int| 0 <= i < front.len() && front[i] == id;
            assert(ids[i] == id);
        }
        if id == last {
            assert(ids[ids.len() - 1] == id);
        }
    }
    if ids.no_duplicates() && front.contains(last) {
        let i = choose|i: int| 0 <= i < front.len() && front[i] == last;
        assert(ids[i] == ids[ids.len() - 1]);
    }
}

/// Placing under distinct fresh ids adds exactly those orders and takes one
/// sequence step each.
pub proof fn lemma_place_each(
    state: BookState,
    ids: Seq<u64>,
    is_buy: bool,
    price: u64,
    size: u64,
    timestamp: i64,
)
    requires
        ids.no_duplicates(),
        forall|i: int| 0 <= i < ids.len() ==> !state.orders.contains_key(ids[i]),
        state.sequence + ids.len() <= u64::MAX,
    ensures
        ({
            let after = place_each(state, ids, is_buy, price, size, timestamp);
            &&& after.sequence == state.sequence + ids.len()
            &&& forall|id: u64| #[trigger]
                after.orders.contains_key(id) <==> state.orders.contains_key(id) || ids.contains(
                    id,
                )
            &&& forall|id: u64| #[trigger]
                state.orders.contains_key(id) ==> after.orders[id] == state.orders[id]
            &&& forall|id: u64| #[trigger]
                ids.contains(id) ==> after.orders[id] == (RestingOrder {
                    is_buy,
                    price,
                    size,
                    timestamp,
                })
        }),
    decreases ids.len(),
{
    let after = place_each(state, ids, is_buy, price, size, timestamp);
    let resting = RestingOrder { is_buy, price, size, timestamp };
    if ids.len() == 0 {
        assert forall|id: u64| !ids.contains(id) by {
            if ids.contains(id) {
                let i = choose|i: int| 0 <= i < ids.len() && ids[i] == id;
            }
        }
    } else {
        let front = ids.drop_last();
        let last = ids.last();
        lemma_last_id(ids);
        assert forall|i: int| 0 <= i < front.len() implies !state.orders.contains_key(
            front[i],
        ) by {
            assert(front[i] == ids[i]);
        }
        lemma_place_each(state, front, is_buy, price, size, timestamp);
        let middle = place_each(state, front, is_buy, price, size, timestamp);
        assert(!state.orders.contains_key(ids[ids.len() - 1]));
        assert(!middle.orders.contains_key(last));
        assert(middle.place_result(last) is Ok);
        assert(after == middle.place(last, is_buy, price, size, timestamp));
        assert forall|id: u64| #[trigger]
            after.orders.contains_key(id) <==> state.orders.contains_key(id) || ids.contains(
                id,
            ) by {
            assert(after.orders.contains_key(id) <==> middle.orders.contains_key(id) || id
                == last);
            assert(ids.contains(id) <==> front.contains(id) || id == last);
        }
        assert forall|id: u64| #[trigger] state.orders.contains_key(id) implies after.orders[id]
            == state.orders[id] by {
            assert(id != last);
            assert(middle.orders[id] == state.orders[id]);
        }
        assert forall|id: u64| #[trigger] ids.contains(id) implies after.orders[id]
            == resting by {
            if id != last {
                assert(front.contains(id));
                assert(middle.orders[id] == resting);
            }
        }
    }
}

/// Cancelling distinct resting ids removes exactly those orders and takes
/// one sequence step each.
pub proof fn lemma_cancel_each(state: BookState, ids: Seq<u64>)
    requires
        ids.no_duplicates(),
        forall|i: int| 0 <= i < ids.len() ==> state.orders.contains_key(ids[i]),
        state.sequence + ids.len() <= u64::MAX,
    ensures
        ({
            let after = cancel_each(state, ids);
            &&& after.sequence == state.sequence + ids.len()
            &&& forall|id: u64| #[trigger]
                after.orders.contains_key(id) <==> state.orders.contains_key(id) && !ids.contains(
                    id,
                )
            &&& forall|id: u64| #[trigger]
                after.orders.contains_key(id) ==> after.orders[id] == state.orders[id]
        }),
    decreases ids.len(),
{
    let after = cancel_each(state, ids);
    if ids.len() == 0 {
        assert forall|id: u64| !ids.contains(id) by {
            if ids.contains(id) {
                let i = choose|i: int| 0 <= i < ids.len() && ids[i] == id;
            }
        }
    } else {
        let front = ids.drop_last();
        let last = ids.last();
        lemma_last_id(ids);
        assert forall|i: int| 0 <= i < front.len() implies state.orders.contains_key(
            front[i],
        ) by {
            assert(front[i] == ids[i]);
        }
        lemma_cancel_each(state, front);
        let middle = cancel_each(state, front);
        assert(state.orders.contains_key(ids[ids.len() - 1]));
        assert(middle.orders.contains_key(last));
        assert(middle.cancel_result(last) matches Ok(true));
        assert(after == middle.cancel(last));
        assert forall|id: u64| #[trigger]
            after.orders.contains_key(id) <==> state.orders.contains_key(id) && !ids.contains(
                id,
            ) by {
            assert(after.orders.contains_key(id) <==> middle.orders.contains_key(id) && id
                != last);
            assert(ids.contains(id) <==> front.contains(id) || id == last);
        }
        assert forall|id: u64| after.orders.contains_key(id) implies after.orders[id]
            == state.orders[id] by {
            assert(middle.orders.contains_key(id));
        }
    }
}

/// Placing orders under distinct fresh ids at one price and then cancelling
/// the same ids leaves the book's orders as they were, in whatever order
/// the places arrive and in whatever order the cancels arrive: the level
/// that the places built is gone again unless it was there before, and no
/// placed id is left in the book.
pub proof fn lemma_place_each_then_cancel_each(
    state: BookState,
    placed: Seq<u64>,
    cancelled: Seq<u64>,
    is_buy: bool,
    price: u64,
    size: u64,
    timestamp: i64,
)
    requires
        placed.no_duplicates(),
        cancelled.no_duplicates(),
        forall|i: int| 0 <= i < placed.len() ==> !state.orders.contains_key(placed[i]),
        forall|id: u64| placed.contains(id) <==> cancelled.contains(id),
        state.sequence + placed.len() + cancelled.len() <= u64::MAX,
    ensures
        ({
            let after = cancel_each(
                place_each(state, placed, is_buy, price, size, timestamp),
                cancelled,
            );
            &&& after.orders == state.orders
            &&& after.sequence == state.sequence + placed.len() + cancelled.len()
            &&& after.has_level(is_buy, price) == state.has_level(is_buy, price)
            &&& forall|id: u64| placed.contains(id) ==> !after.orders.contains_key(id)
        }),
{
    let middle = place_each(state, placed, is_buy, price, size, timestamp);
    lemma_place_each(state, placed, is_buy, price, size, timestamp);
    assert forall|i: int| 0 <= i < cancelled.len() implies middle.orders.contains_key(
        cancelled[i],
    ) by {
        assert(cancelled.contains(cancelled[i]));
    }
    lemma_cancel_each(middle, cancelled);
    let after = cancel_each(middle, cancelled);
    assert forall|id: u64| placed.contains(id) implies !state.orders.contains_key(id) by {
        let i = choose|i: int| 0 <= i < placed.len() && placed[i] == id;
    }
    assert(after.orders =~= state.orders);
    lemma_levels_follow_orders(after, state);
}

} // verus!
