use crate::dash::{
    location_entries, location_map_get, location_map_insert, location_map_new,
    location_map_remove,
};
use crate::level::PriceLevel;
use crate::model::{Applied, BookError, BookState, Command, RestingOrder};
use crate::order::{better_price, lemma_side_key_order, side_key, side_key_of, Order};
use crate::sizes::{order_total, sizes_of};
use crate::snapshot::{
    collect_levels, first_price, is_depth_view, is_side_prefix, is_snapshot, lists_key,
    lists_price, Level, OrderbookSnapshot,
};
use dashmap::DashMap;
use std::collections::BTreeMap;
use vstd::prelude::*;

verus! {

/// The resting orders of one market.
///
/// Each side is an ordered map from the side key of a price to the level at
/// that price; a level exists exactly while an order rests at its price.
/// The reverse index maps each resting order id to the side and price of
/// its level.
#[derive(Debug)]
pub struct Orderbook {
    market_id: u16,
    bids: BTreeMap<u64, PriceLevel>,
    asks: BTreeMap<u64, PriceLevel>,
    order_locations: DashMap<u64, (bool, u64)>,
    sequence: u64,
    last_update: i64,
}

/// Every level of a side is sound, is filed under the key of its price,
/// holds at least one order, and holds only orders of its price that the
/// index places at this level.
pub open spec fn side_wf(
    levels: Map<u64, PriceLevel>,
    is_buy: bool,
    index: Map<u64, (bool, u64)>,
) -> bool {
    &&& forall|key: u64| #[trigger]
        levels.contains_key(key) ==> {
            &&& levels[key].wf()
            &&& side_key_of(is_buy, levels[key].spec_price()) == key
            &&& exists|id: u64| levels[key].orders().contains_key(id)
        }
    &&& forall|key: u64, id: u64|
        levels.contains_key(key) && #[trigger] levels[key].orders().contains_key(id) ==> {
            &&& index.contains_key(id)
            &&& index[id] == (is_buy, levels[key].spec_price())
            &&& levels[key].orders()[id].price == levels[key].spec_price()
        }
}

/// The order filed under `id` at the level that the location names.
pub open spec fn order_at(
    bids: Map<u64, PriceLevel>,
    asks: Map<u64, PriceLevel>,
    location: (bool, u64),
    id: u64,
) -> Order {
    let levels = if location.0 {
        bids
    } else {
        asks
    };
    levels[side_key_of(location.0, location.1)].orders()[id]
}

/// Whether the level that the location names exists and holds `id`.
pub open spec fn located(
    bids: Map<u64, PriceLevel>,
    asks: Map<u64, PriceLevel>,
    location: (bool, u64),
    id: u64,
) -> bool {
    let levels = if location.0 {
        bids
    } else {
        asks
    };
    let key = side_key_of(location.0, location.1);
    levels.contains_key(key) && levels[key].orders().contains_key(id)
}

impl Orderbook {
    /// The levels of the bid side, by side key.
    pub closed spec fn bid_levels(&self) -> Map<u64, PriceLevel> {
        self.bids@
    }

    /// The levels of the ask side, by side key.
    pub closed spec fn ask_levels(&self) -> Map<u64, PriceLevel> {
        self.asks@
    }

    /// The reverse index: order id to side and price.
    pub closed spec fn index(&self) -> Map<u64, (bool, u64)> {
        location_entries(self.order_locations)
    }

    /// The market this book belongs to.
    pub closed spec fn spec_market_id(&self) -> u16 {
        self.market_id
    }

    /// The number of mutations applied so far.
    pub closed spec fn spec_sequence(&self) -> u64 {
        self.sequence
    }

    /// The timestamp of the last applied place.
    pub closed spec fn spec_last_update(&self) -> i64 {
        self.last_update
    }

    /// The book's invariant. Both sides are sound, and the reverse index
    /// has an entry for an order id exactly when the order rests in the one
    /// level that the entry names.
    pub open spec fn wf(&self) -> bool {
        &&& self.index().dom().finite()
        &&& side_wf(self.bid_levels(), true, self.index())
        &&& side_wf(self.ask_levels(), false, self.index())
        &&& forall|id: u64| #[trigger]
            self.index().contains_key(id) ==> located(
                self.bid_levels(),
                self.ask_levels(),
                self.index()[id],
                id,
            )
    }

    /// The resting order that the book holds under `id`.
    pub open spec fn resting(&self, id: u64) -> RestingOrder {
        let location = self.index()[id];
        let order = order_at(self.bid_levels(), self.ask_levels(), location, id);
        RestingOrder {
            is_buy: location.0,
            price: location.1,
            size: order.size,
            timestamp: order.timestamp,
        }
    }

    /// The observable state of the book.
    pub open spec fn view(&self) -> BookState {
        BookState {
            market_id: self.spec_market_id(),
            orders: Map::new(|id: u64| self.index().contains_key(id), |id: u64| self.resting(id)),
            sequence: self.spec_sequence() as nat,
            last_update: self.spec_last_update(),
        }
    }

    /// An empty book for the market.
    pub fn new(market_id: u16) -> (book: Self)
        ensures
            book.wf(),
            book@ == BookState::empty(market_id),
    {
        let book = Orderbook {
            market_id,
            bids: BTreeMap::new(),
            asks: BTreeMap::new(),
            order_locations: location_map_new(),
            sequence: 0,
            last_update: 0,
        };
        proof {
            assert(book@.orders =~= Map::<u64, RestingOrder>::empty());
        }
        book
    }

    /// Places a new resting order.
    ///
    /// The order joins the level at its price on its side, which is created
    /// if absent; the reverse index gains its entry, the sequence advances
    /// by one and the last-update timestamp becomes `timestamp`.
    ///
    /// An id that already rests in the book is rejected as a duplicate, and
    /// a book whose sequence counter is at its maximum accepts no mutation;
    /// a rejected place changes nothing.
    pub fn add_order(
        &mut self,
        order_id: u64,
        is_buy: bool,
        price: u64,
        size: u64,
        timestamp: i64,
    ) -> (result: Result<(), BookError>)
        requires
            old(self).wf(),
        ensures
            final(self).wf(),
            result == old(self)@.place_result(order_id),
            result is Ok ==> final(self)@ == old(self)@.place(
                order_id,
                is_buy,
                price,
                size,
                timestamp,
            ),
            result is Ok ==> final(self)@.sequence == old(self)@.sequence + 1,
            result is Ok ==> final(self).index() == old(self).index().insert(
                order_id,
                (is_buy, price),
            ),
            result is Err ==> *final(self) == *old(self),
    {
        if location_map_get(&self.order_locations, order_id).is_some() {
            return Err(BookError::DuplicateOrder);
        }
        if self.sequence == u64::MAX {
            return Err(BookError::SequenceExhausted);
        }
        let order = Order { order_id, price, size, timestamp };
        let ghost before = *self;
        if is_buy {
            side_add(&mut self.bids, true, order);
        } else {
            side_add(&mut self.asks, false, order);
        }
        location_map_insert(&mut self.order_locations, order_id, (is_buy, price));
        self.sequence = self.sequence + 1;
        self.last_update = timestamp;
        proof {
            let goal = before@.place(order_id, is_buy, price, size, timestamp);
            let key = side_key_of(is_buy, price);
            let touched = if is_buy {
                self.bid_levels()
            } else {
                self.ask_levels()
            };
            let untouched = if is_buy {
                self.ask_levels()
            } else {
                self.bid_levels()
            };
            assert(touched[key].orders().contains_key(order_id));
            assert(side_wf(touched, is_buy, self.index())) by {
                assert forall|k: u64| #[trigger] touched.contains_key(k) implies exists|id: u64|
                    touched[k].orders().contains_key(id) by {
                    if k == key {
                        assert(touched[k].orders().contains_key(order_id));
                    }
                }
            }
            assert(side_wf(untouched, !is_buy, self.index()));
            assert forall|id: u64| #[trigger] self.index().contains_key(id) implies located(
                self.bid_levels(),
                self.ask_levels(),
                self.index()[id],
                id,
            ) && self.resting(id) == goal.orders[id] by {
                if id != order_id {
                    assert(before.index().contains_key(id));
                    assert(located(
                        before.bid_levels(),
                        before.ask_levels(),
                        before.index()[id],
                        id,
                    ));
                }
            }
            assert(self@.orders =~= goal.orders);
        }
        Ok(())
    }

    /// Cancels a resting order.
    ///
    /// The order leaves its level, the level leaves its side if that
    /// emptied it, the reverse index loses the entry and the sequence
    /// advances by one. An id that does not rest in the book is a benign
    /// not-found: the call returns `Ok(false)` and changes nothing.
    pub fn cancel_order(&mut self, order_id: u64) -> (result: Result<bool, BookError>)
        requires
            old(self).wf(),
        ensures
            final(self).wf(),
            result == old(self)@.cancel_result(order_id),
            result matches Ok(true) ==> final(self)@ == old(self)@.cancel(order_id),
            result matches Ok(true) ==> final(self)@.sequence == old(self)@.sequence + 1,
            result matches Ok(true) ==> final(self).index() == old(self).index().remove(order_id),
            !(result matches Ok(true)) ==> *final(self) == *old(self),
    {
        match location_map_get(&self.order_locations, order_id) {
            None => Ok(false),
            Some(location) => {
                if self.sequence == u64::MAX {
                    return Err(BookError::SequenceExhausted);
                }
                let ghost before = *self;
                proof {
                    assert(before.index().contains_key(order_id));
                    assert(located(
                        before.bid_levels(),
                        before.ask_levels(),
                        before.index()[order_id],
                        order_id,
                    ));
                }
                location_map_remove(&mut self.order_locations, order_id);
                if location.0 {
                    side_remove(&mut self.bids, true, location.1, order_id);
                } else {
                    side_remove(&mut self.asks, false, location.1, order_id);
                }
                self.sequence = self.sequence + 1;
                proof {
                    let goal = before@.cancel(order_id);
                    let key = side_key_of(location.0, location.1);
                    let touched = if location.0 {
                        self.bid_levels()
                    } else {
                        self.ask_levels()
                    };
                    let touched_before = if location.0 {
                        before.bid_levels()
                    } else {
                        before.ask_levels()
                    };
                    let untouched = if location.0 {
                        self.ask_levels()
                    } else {
                        self.bid_levels()
                    };
                    let emptied = touched_before[key].orders().remove(order_id);
                    assert forall|id: u64|
                        id != order_id && touched_before[key].orders().contains_key(
                            id,
                        ) implies touched.contains_key(key) by {
                        assert(emptied.contains_key(id));
                    }
                    if touched.contains_key(key) {
                        assert(exists|id: u64| emptied.contains_key(id)) by {
                            if forall|id: u64| !emptied.contains_key(id) {
                                assert(emptied =~= Map::<u64, Order>::empty());
                            }
                        }
                        let witness = choose|id: u64| emptied.contains_key(id);
                        assert(touched[key].orders().contains_key(witness));
                    }
                    assert(side_wf(touched, location.0, self.index()));
                    assert(side_wf(untouched, !location.0, self.index()));
                    assert forall|id: u64| #[trigger]
                        self.index().contains_key(id) implies located(
                        self.bid_levels(),
                        self.ask_levels(),
                        self.index()[id],
                        id,
                    ) && self.resting(id) == goal.orders[id] by {
                        assert(before.index().contains_key(id));
                        assert(located(
                            before.bid_levels(),
                            before.ask_levels(),
                            before.index()[id],
                            id,
                        ));
                    }
                    assert(self@.orders =~= goal.orders);
                }
                Ok(true)
            },
        }
    }

    /// Replaces the order resting under `order_id`, or places it when the
    /// id rests nowhere: a cancel, where the order rests, followed by a
    /// place under the same id.
    ///
    /// The two steps are one mutation of the book: the exclusive borrow
    /// spans both, so no reader sees the order absent in between, and
    /// either both steps apply or neither does. The sequence advances by
    /// two when an order was replaced (a cancel and a place) and by one
    /// when the id was new. Returns whether an order was replaced.
    pub fn modify_order(
        &mut self,
        order_id: u64,
        is_buy: bool,
        price: u64,
        size: u64,
        timestamp: i64,
    ) -> (result: Result<bool, BookError>)
        requires
            old(self).wf(),
        ensures
            final(self).wf(),
            result == old(self)@.modify_result(order_id),
            result is Ok ==> final(self)@ == old(self)@.modify(
                order_id,
                is_buy,
                price,
                size,
                timestamp,
            ),
            result is Ok ==> final(self)@.sequence == old(self)@.sequence + old(
                self,
            )@.modify_steps(order_id),
            result is Err ==> *final(self) == *old(self),
    {
        let resting = location_map_get(&self.order_locations, order_id).is_some();
        let steps: u64 = if resting {
            2
        } else {
            1
        };
        if self.sequence > u64::MAX - steps {
            return Err(BookError::SequenceExhausted);
        }
        if resting {
            let _ = self.cancel_order(order_id);
        }
        let _ = self.add_order(order_id, is_buy, price, size, timestamp);
        Ok(resting)
    }

    /// Applies one validated command: a place, a cancel or a modify.
    pub fn apply(&mut self, command: Command) -> (result: Result<Applied, BookError>)
        requires
            old(self).wf(),
        ensures
            final(self).wf(),
            result == old(self)@.outcome(command),
            final(self)@ == old(self)@.apply(command),
            result is Err ==> *final(self) == *old(self),
    {
        match command {
            Command::Place { order_id, is_buy, price, size, timestamp } => {
                match self.add_order(order_id, is_buy, price, size, timestamp) {
                    Ok(_) => Ok(Applied::Placed),
                    Err(error) => Err(error),
                }
            },
            Command::Cancel { order_id } => {
                match self.cancel_order(order_id) {
                    Ok(found) => Ok(
                        if found {
                            Applied::Cancelled
                        } else {
                            Applied::NotFound
                        },
                    ),
                    Err(error) => Err(error),
                }
            },
            Command::Modify { order_id, is_buy, price, size, timestamp } => {
                match self.modify_order(order_id, is_buy, price, size, timestamp) {
                    Ok(replaced) => Ok(Applied::Modified { replaced }),
                    Err(error) => Err(error),
                }
            },
        }
    }

    /// The depth view of the book: the best `depth` levels of each side,
    /// best first, each with its price, aggregate size and order count; the
    /// spread between the best ask and the best bid of the book, zero when
    /// a side is empty; and the current sequence and last-update timestamp.
    ///
    /// The view is taken under a shared borrow of the whole book, so every
    /// figure in it belongs to one and the same state.
    pub fn get_snapshot(&self, depth: usize) -> (snapshot: OrderbookSnapshot)
        requires
            self.wf(),
        ensures
            is_snapshot(self@, depth, snapshot),
    {
        let bids = collect_levels(&self.bids, true, depth);
        let asks = collect_levels(&self.asks, false, depth);
        let best_bid = first_price(&self.bids, true);
        let best_ask = first_price(&self.asks, false);
        let spread: i128 = match (best_bid, best_ask) {
            (Some(bid), Some(ask)) => ask as i128 - bid as i128,
            _ => 0,
        };
        proof {
            self.lemma_depth_view(true, depth, bids@);
            self.lemma_depth_view(false, depth, asks@);
            self.lemma_best_price(true, best_bid);
            self.lemma_best_price(false, best_ask);
        }
        OrderbookSnapshot {
            market_id: self.market_id,
            sequence: self.sequence,
            timestamp: self.last_update,
            bids,
            asks,
            spread,
        }
    }

    /// The levels of one side, by side key.
    pub open spec fn side_levels(&self, is_buy: bool) -> Map<u64, PriceLevel> {
        if is_buy {
            self.bid_levels()
        } else {
            self.ask_levels()
        }
    }

    /// The aggregate that a level stores is the sum of the sizes of the
    /// orders that rest at its price on its side, and the level holds
    /// exactly those orders.
    pub proof fn lemma_level_agrees(&self, is_buy: bool, key: u64)
        requires
            self.wf(),
            self.side_levels(is_buy).contains_key(key),
        ensures
            self.side_levels(is_buy)[key].spec_total_size() == order_total(
                self.side_levels(is_buy)[key].orders(),
            ),
            self@.has_level(is_buy, self.side_levels(is_buy)[key].spec_price()),
            self@.level_size(is_buy, self.side_levels(is_buy)[key].spec_price())
                == self.side_levels(is_buy)[key].spec_total_size(),
            self@.level_count(is_buy, self.side_levels(is_buy)[key].spec_price())
                == self.side_levels(is_buy)[key].orders().dom().len(),
    {
        let level = self.side_levels(is_buy)[key];
        let price = level.spec_price();
        assert forall|id: u64| self@.rests_at(id, is_buy, price) implies level.orders().contains_key(
            id,
        ) by {
            assert(self.index().contains_key(id));
            assert(located(self.bid_levels(), self.ask_levels(), self.index()[id], id));
        }
        assert forall|id: u64| level.orders().contains_key(id) implies self@.rests_at(
            id,
            is_buy,
            price,
        ) && self@.orders[id].size == level.orders()[id].size by {
            assert(self.side_levels(is_buy)[key].orders().contains_key(id));
        }
        assert(self@.level_sizes(is_buy, price) =~= sizes_of(level.orders()));
        assert(sizes_of(level.orders()).dom() =~= level.orders().dom());
        let witness = choose|id: u64| level.orders().contains_key(id);
        assert(self@.rests_at(witness, is_buy, price));
    }

    /// A side has a level at a price exactly when its map has an entry
    /// under the key of that price.
    pub proof fn lemma_has_level(&self, is_buy: bool, price: u64)
        requires
            self.wf(),
        ensures
            self@.has_level(is_buy, price) <==> self.side_levels(is_buy).contains_key(
                side_key_of(is_buy, price),
            ),
    {
        let key = side_key_of(is_buy, price);
        if self@.has_level(is_buy, price) {
            let id = choose|id: u64| self@.rests_at(id, is_buy, price);
            assert(self.index().contains_key(id));
            assert(located(self.bid_levels(), self.ask_levels(), self.index()[id], id));
        }
        if self.side_levels(is_buy).contains_key(key) {
            self.lemma_level_agrees(is_buy, key);
            lemma_side_key_order(is_buy, self.side_levels(is_buy)[key].spec_price(), price);
        }
    }

    /// The observable state of a sound book is sound: finitely many orders.
    pub proof fn lemma_view_wf(&self)
        requires
            self.wf(),
        ensures
            self@.wf(),
            self@.orders.dom() == self.index().dom(),
    {
        assert(self@.orders.dom() =~= self.index().dom());
    }

    /// An order id has an entry in the reverse index exactly when the order
    /// rests in the book, and then it rests in one level of one side only:
    /// the one that the entry names.
    pub proof fn lemma_index_agrees(&self, order_id: u64)
        requires
            self.wf(),
        ensures
            self.index().contains_key(order_id) <==> self@.orders.contains_key(order_id),
            self.index().contains_key(order_id) <==> exists|is_buy: bool, key: u64|
                self.side_levels(is_buy).contains_key(key) && #[trigger] self.side_levels(
                    is_buy,
                )[key].orders().contains_key(order_id),
            forall|is_buy: bool, key: u64|
                self.side_levels(is_buy).contains_key(key) && #[trigger] self.side_levels(
                    is_buy,
                )[key].orders().contains_key(order_id) ==> self.index()[order_id].0 == is_buy
                    && side_key_of(is_buy, self.index()[order_id].1) == key,
    {
        if self.index().contains_key(order_id) {
            let location = self.index()[order_id];
            assert(located(self.bid_levels(), self.ask_levels(), location, order_id));
            assert(self.side_levels(location.0)[side_key_of(
                location.0,
                location.1,
            )].orders().contains_key(order_id));
        }
    }

    /// A prefix of a side map in key order is the depth view of that side.
    proof fn lemma_depth_view(&self, is_buy: bool, depth: usize, entries: Seq<Level>)
        requires
            self.wf(),
            is_side_prefix(self.side_levels(is_buy), is_buy, depth, entries),
        ensures
            is_depth_view(self@, is_buy, depth, entries),
    {
        let levels = self.side_levels(is_buy);
        assert forall|i: int| 0 <= i < entries.len() implies crate::snapshot::describes_level(
            self@,
            is_buy,
            #[trigger] entries[i],
        ) by {
            assert(crate::snapshot::reports(levels, is_buy, entries[i]));
            self.lemma_level_agrees(is_buy, side_key_of(is_buy, entries[i].price));
        }
        assert forall|price: u64| #[trigger]
            self@.has_level(is_buy, price) && !lists_price(entries, price) implies entries.len()
            == depth && forall|i: int|
            0 <= i < entries.len() ==> better_price(is_buy, (#[trigger] entries[i]).price, price) by {
            self.lemma_has_level(is_buy, price);
            let key = side_key_of(is_buy, price);
            if lists_key(entries, is_buy, key) {
                let i = choose|i: int|
                    0 <= i < entries.len() && side_key_of(is_buy, (#[trigger] entries[i]).price)
                        == key;
                lemma_side_key_order(is_buy, entries[i].price, price);
                assert(false);
            }
            assert(levels.contains_key(key));
        }
    }

    /// The price under the smallest key of a side map is the best price of
    /// the side, and a side map without keys is an empty side.
    proof fn lemma_best_price(&self, is_buy: bool, first: Option<u64>)
        requires
            self.wf(),
            match first {
                Some(price) => {
                    &&& self.side_levels(is_buy).contains_key(side_key_of(is_buy, price))
                    &&& forall|key: u64| #[trigger]
                        self.side_levels(is_buy).contains_key(key) ==> side_key_of(is_buy, price)
                            <= key
                },
                None => forall|key: u64| !#[trigger] self.side_levels(is_buy).contains_key(key),
            },
        ensures
            self@.best_price(is_buy) == first,
    {
        assert forall|price: u64| #[trigger] self@.has_level(is_buy, price) implies first is Some
            && !better_price(is_buy, price, first->0) by {
            self.lemma_has_level(is_buy, price);
        }
        if let Some(price) = first {
            self.lemma_has_level(is_buy, price);
            assert(self@.is_best(is_buy, price));
            let chosen = choose|chosen: u64| self@.is_best(is_buy, chosen);
            assert(self@.has_level(is_buy, chosen));
            lemma_side_key_order(is_buy, chosen, price);
        }
    }
}

/// Files `order` at the level of its price on one side, creating the level
/// if the side has none there.
fn side_add(levels: &mut BTreeMap<u64, PriceLevel>, is_buy: bool, order: Order)
    requires
        forall|key: u64| #[trigger]
            old(levels)@.contains_key(key) ==> old(levels)@[key].wf() && side_key_of(
                is_buy,
                old(levels)@[key].spec_price(),
            ) == key,
    ensures
        final(levels)@.dom() == old(levels)@.dom().insert(side_key_of(is_buy, order.price)),
        forall|key: u64|
            key != side_key_of(is_buy, order.price) && #[trigger] old(levels)@.contains_key(key)
                ==> final(levels)@[key] == old(levels)@[key],
        final(levels)@[side_key_of(is_buy, order.price)].wf(),
        final(levels)@[side_key_of(is_buy, order.price)].spec_price() == order.price,
        final(levels)@[side_key_of(is_buy, order.price)].orders() == (if old(levels)@.contains_key(
            side_key_of(is_buy, order.price),
        ) {
            old(levels)@[side_key_of(is_buy, order.price)].orders()
        } else {
            Map::empty()
        }).insert(order.order_id, order),
{
    let key = side_key(is_buy, order.price);
    let mut level = match levels.remove(&key) {
        Some(level) => level,
        None => PriceLevel::new(order.price),
    };
    proof {
        crate::order::lemma_side_key_order(is_buy, level.spec_price(), order.price);
    }
    level.add_order(order);
    levels.insert(key, level);
    assert(final(levels)@.dom() =~= old(levels)@.dom().insert(key));
}

/// Takes the order out of the level at `price` on one side, and the level
/// out of the side if that emptied it.
fn side_remove(levels: &mut BTreeMap<u64, PriceLevel>, is_buy: bool, price: u64, order_id: u64)
    requires
        old(levels)@.contains_key(side_key_of(is_buy, price)),
        old(levels)@[side_key_of(is_buy, price)].wf(),
    ensures
        forall|key: u64|
            key != side_key_of(is_buy, price) ==> (#[trigger] final(levels)@.contains_key(key)
                <==> old(levels)@.contains_key(key)),
        forall|key: u64|
            key != side_key_of(is_buy, price) && #[trigger] old(levels)@.contains_key(key)
                ==> final(levels)@[key] == old(levels)@[key],
        final(levels)@.contains_key(side_key_of(is_buy, price)) <==> old(levels)@[side_key_of(
            is_buy,
            price,
        )].orders().remove(order_id) != (Map::<u64, Order>::empty()),
        final(levels)@.contains_key(side_key_of(is_buy, price)) ==> {
            &&& final(levels)@[side_key_of(is_buy, price)].wf()
            &&& final(levels)@[side_key_of(is_buy, price)].spec_price() == old(
                levels,
            )@[side_key_of(is_buy, price)].spec_price()
            &&& final(levels)@[side_key_of(is_buy, price)].orders() == old(levels)@[side_key_of(
                is_buy,
                price,
            )].orders().remove(order_id)
        },
{
    let key = side_key(is_buy, price);
    match levels.remove(&key) {
        Some(level) => {
            let mut level = level;
            level.remove_order(order_id);
            if !level.is_empty() {
                levels.insert(key, level);
            }
        },
        None => {},
    }
}

} // verus!
