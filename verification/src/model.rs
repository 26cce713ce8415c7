//! The mathematical model of one book: a finite map from order id to
//! resting order, a sequence number and a timestamp. Price levels, their
//! aggregates and the best prices are functions of that map.

use crate::order::better_price;
use crate::sizes::total_size;
use vstd::prelude::*;

verus! {

/// A resting order as the book sees it: its terms and the side it rests on.
pub struct RestingOrder {
    pub is_buy: bool,
    pub price: u64,
    pub size: u64,
    pub timestamp: i64,
}

/// Why a book refused a mutation.
#[derive(Clone, Copy, Debug, PartialEq, Eq)]
pub enum BookError {
    /// The order id already rests in the book.
    DuplicateOrder,
    /// The sequence counter has no room left for the mutation.
    SequenceExhausted,
}

/// One validated command to a book.
#[derive(Clone, Copy, Debug, PartialEq, Eq)]
pub enum Command {
    Place { order_id: u64, is_buy: bool, price: u64, size: u64, timestamp: i64 },
    Cancel { order_id: u64 },
    Modify { order_id: u64, is_buy: bool, price: u64, size: u64, timestamp: i64 },
}

/// What an accepted command did to its book.
#[derive(Clone, Copy, Debug, PartialEq, Eq)]
pub enum Applied {
    /// A place put a new order into the book.
    Placed,
    /// A cancel took a resting order out of the book.
    Cancelled,
    /// A cancel named an order that does not rest in the book; nothing
    /// changed.
    NotFound,
    /// A modify put its order into the book, in place of the one that
    /// rested under the id if `replaced` is set.
    Modified { replaced: bool },
}

/// The observable state of one book.
pub struct BookState {
    pub market_id: u16,
    pub orders: Map<u64, RestingOrder>,
    pub sequence: nat,
    pub last_update: i64,
}

impl BookState {
    /// The book of a market before any command.
    pub open spec fn empty(market_id: u16) -> BookState {
        BookState { market_id, orders: Map::empty(), sequence: 0, last_update: 0 }
    }

    /// Finitely many orders, and a sequence number that a `u64` can hold.
    pub open spec fn wf(self) -> bool {
        &&& self.orders.dom().finite()
        &&& self.sequence <= u64::MAX
    }

    /// The state after an applied place.
    pub open spec fn place(
        self,
        order_id: u64,
        is_buy: bool,
        price: u64,
        size: u64,
        timestamp: i64,
    ) -> BookState {
        BookState {
            market_id: self.market_id,
            orders: self.orders.insert(order_id, RestingOrder { is_buy, price, size, timestamp }),
            sequence: self.sequence + 1,
            last_update: timestamp,
        }
    }

    /// The state after an applied cancel.
    pub open spec fn cancel(self, order_id: u64) -> BookState {
        BookState {
            market_id: self.market_id,
            orders: self.orders.remove(order_id),
            sequence: self.sequence + 1,
            last_update: self.last_update,
        }
    }

    /// The state after an applied modify: a cancel, where the order rests,
    /// followed by a place under the same id.
    pub open spec fn modify(
        self,
        order_id: u64,
        is_buy: bool,
        price: u64,
        size: u64,
        timestamp: i64,
    ) -> BookState {
        if self.orders.contains_key(order_id) {
            self.cancel(order_id).place(order_id, is_buy, price, size, timestamp)
        } else {
            self.place(order_id, is_buy, price, size, timestamp)
        }
    }

    /// What a place of `order_id` returns in this state.
    pub open spec fn place_result(self, order_id: u64) -> Result<(), BookError> {
        if self.orders.contains_key(order_id) {
            Err(BookError::DuplicateOrder)
        } else if self.sequence + 1 > u64::MAX {
            Err(BookError::SequenceExhausted)
        } else {
            Ok(())
        }
    }

    /// What a cancel of `order_id` returns in this state: `Ok(false)` is
    /// the benign not-found.
    pub open spec fn cancel_result(self, order_id: u64) -> Result<bool, BookError> {
        if !self.orders.contains_key(order_id) {
            Ok(false)
        } else if self.sequence + 1 > u64::MAX {
            Err(BookError::SequenceExhausted)
        } else {
            Ok(true)
        }
    }

    /// The number of sequence steps a modify of `order_id` takes: two when
    /// the order rests (a cancel and a place), one when it does not.
    pub open spec fn modify_steps(self, order_id: u64) -> nat {
        if self.orders.contains_key(order_id) {
            2
        } else {
            1
        }
    }

    /// What a modify of `order_id` returns in this state: `Ok(true)` when a
    /// resting order was replaced, `Ok(false)` when the id was new.
    pub open spec fn modify_result(self, order_id: u64) -> Result<bool, BookError> {
        if self.sequence + self.modify_steps(order_id) > u64::MAX {
            Err(BookError::SequenceExhausted)
        } else {
            Ok(self.orders.contains_key(order_id))
        }
    }

    /// What the command returns in this state.
    pub open spec fn outcome(self, command: Command) -> Result<Applied, BookError> {
        match command {
            Command::Place { order_id, .. } => match self.place_result(order_id) {
                Ok(_) => Ok(Applied::Placed),
                Err(error) => Err(error),
            },
            Command::Cancel { order_id } => match self.cancel_result(order_id) {
                Ok(found) => Ok(
                    if found {
                        Applied::Cancelled
                    } else {
                        Applied::NotFound
                    },
                ),
                Err(error) => Err(error),
            },
            Command::Modify { order_id, .. } => match self.modify_result(order_id) {
                Ok(replaced) => Ok(Applied::Modified { replaced }),
                Err(error) => Err(error),
            },
        }
    }

    /// The state that the command leaves: the state after its transition
    /// when the command is accepted and finds its order, this state
    /// otherwise.
    pub open spec fn apply(self, command: Command) -> BookState {
        match command {
            Command::Place { order_id, is_buy, price, size, timestamp } => {
                if self.place_result(order_id) is Ok {
                    self.place(order_id, is_buy, price, size, timestamp)
                } else {
                    self
                }
            },
            Command::Cancel { order_id } => {
                if self.cancel_result(order_id) matches Ok(true) {
                    self.cancel(order_id)
                } else {
                    self
                }
            },
            Command::Modify { order_id, is_buy, price, size, timestamp } => {
                if self.modify_result(order_id) is Ok {
                    self.modify(order_id, is_buy, price, size, timestamp)
                } else {
                    self
                }
            },
        }
    }

    /// Whether the order with this id rests on the side at the price.
    pub open spec fn rests_at(self, order_id: u64, is_buy: bool, price: u64) -> bool {
        &&& self.orders.contains_key(order_id)
        &&& self.orders[order_id].is_buy == is_buy
        &&& self.orders[order_id].price == price
    }

    /// Whether the side has a level at the price, that is, at least one
    /// order resting there.
    pub open spec fn has_level(self, is_buy: bool, price: u64) -> bool {
        exists|order_id: u64| self.rests_at(order_id, is_buy, price)
    }

    /// The sizes of the orders of one level, by order id.
    pub open spec fn level_sizes(self, is_buy: bool, price: u64) -> Map<u64, u64> {
        Map::new(
            |order_id: u64| self.rests_at(order_id, is_buy, price),
            |order_id: u64| self.orders[order_id].size,
        )
    }

    /// The aggregate size of one level.
    pub open spec fn level_size(self, is_buy: bool, price: u64) -> nat {
        total_size(self.level_sizes(is_buy, price))
    }

    /// The number of orders of one level.
    pub open spec fn level_count(self, is_buy: bool, price: u64) -> nat {
        self.level_sizes(is_buy, price).dom().len()
    }

    /// Whether `price` is the best price of the side: it has a level, and
    /// no level of the side comes before it.
    pub open spec fn is_best(self, is_buy: bool, price: u64) -> bool {
        &&& self.has_level(is_buy, price)
        &&& forall|other: u64| #[trigger]
            self.has_level(is_buy, other) ==> !better_price(is_buy, other, price)
    }

    /// Whether the side holds no order at all.
    pub open spec fn side_is_empty(self, is_buy: bool) -> bool {
        forall|price: u64| !#[trigger] self.has_level(is_buy, price)
    }

    /// The best price of the side, or `None` when the side holds no order.
    pub open spec fn best_price(self, is_buy: bool) -> Option<u64> {
        if self.side_is_empty(is_buy) {
            None
        } else {
            Some(choose|price: u64| self.is_best(is_buy, price))
        }
    }

    /// The best ask price minus the best bid price, or zero when a side
    /// holds no order. It is negative when the best bid lies above the best
    /// ask: the book stores orders and never matches them.
    pub open spec fn spread(self) -> int {
        match (self.best_price(true), self.best_price(false)) {
            (Some(bid), Some(ask)) => ask - bid,
            _ => 0,
        }
    }
}

} // verus!
