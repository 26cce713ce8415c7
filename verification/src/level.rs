use crate::dash::{level_entries, level_map_insert, level_map_len, level_map_new, level_map_remove};
use crate::order::Order;
use crate::sizes::{
    lemma_order_total_fits, lemma_order_total_insert, lemma_order_total_remove, order_total,
};
use dashmap::DashMap;
use vstd::prelude::*;

verus! {

/// All the orders that rest at one price on one side, with their summed
/// size.
///
/// The aggregate is kept by exact integer addition and subtraction inside
/// the same `&mut` scope that changes the membership, so it equals the sum
/// of the resident sizes whenever the level can be observed.
#[derive(Debug)]
pub struct PriceLevel {
    price: u64,
    orders: DashMap<u64, Order>,
    total_size: u128,
}

impl PriceLevel {
    /// The price of the level.
    pub closed spec fn spec_price(&self) -> u64 {
        self.price
    }

    /// The resident orders, by order id.
    pub closed spec fn orders(&self) -> Map<u64, Order> {
        level_entries(self.orders)
    }

    /// The aggregate as it is stored.
    pub closed spec fn spec_total_size(&self) -> u128 {
        self.total_size
    }

    /// The level's invariant: finitely many orders, each filed under its
    /// own id, and a stored aggregate equal to the sum of their sizes.
    pub open spec fn wf(&self) -> bool {
        &&& self.orders().dom().finite()
        &&& self.spec_total_size() == order_total(self.orders())
        &&& forall|id: u64|
            self.orders().contains_key(id) ==> (#[trigger] self.orders()[id]).order_id == id
    }

    /// An empty level at `price`.
    pub fn new(price: u64) -> (level: Self)
        ensures
            level.wf(),
            level.spec_price() == price,
            level.orders() == (Map::<u64, Order>::empty()),
            level.spec_total_size() == 0,
    {
        let level = PriceLevel { price, orders: level_map_new(), total_size: 0 };
        proof {
            assert(crate::sizes::sizes_of(level.orders()).dom() =~= Set::<u64>::empty());
        }
        level
    }

    /// Files `order` under its id and adds its size to the aggregate.
    ///
    /// An order already resident under the same id is replaced: its size
    /// leaves the aggregate and the new size enters it.
    pub fn add_order(&mut self, order: Order)
        requires
            old(self).wf(),
        ensures
            final(self).wf(),
            final(self).spec_price() == old(self).spec_price(),
            final(self).orders() == old(self).orders().insert(order.order_id, order),
            final(self).spec_total_size() == old(self).spec_total_size() - (if old(
                self,
            ).orders().contains_key(order.order_id) {
                old(self).orders()[order.order_id].size
            } else {
                0
            }) + order.size,
    {
        let ghost before = self.orders();
        let ghost rest = before.remove(order.order_id);
        let previous = level_map_insert(&mut self.orders, order.order_id, order);
        proof {
            assert(rest.insert(order.order_id, order) =~= before.insert(order.order_id, order));
            lemma_order_total_insert(rest, order.order_id, order);
            lemma_order_total_fits(rest);
            if before.contains_key(order.order_id) {
                lemma_order_total_remove(before, order.order_id);
            } else {
                assert(rest =~= before);
            }
        }
        match previous {
            Some(replaced) => {
                self.total_size = self.total_size - replaced.size as u128 + order.size as u128;
            },
            None => {
                self.total_size = self.total_size + order.size as u128;
            },
        }
    }

    /// Takes the order with this id out of the level and returns it, with
    /// its size subtracted from the aggregate. Returns `None`, and changes
    /// nothing, when no such order rests here.
    pub fn remove_order(&mut self, order_id: u64) -> (removed: Option<Order>)
        requires
            old(self).wf(),
        ensures
            final(self).wf(),
            final(self).spec_price() == old(self).spec_price(),
            final(self).orders() == old(self).orders().remove(order_id),
            removed == if old(self).orders().contains_key(order_id) {
                Some(old(self).orders()[order_id])
            } else {
                None
            },
            removed matches Some(order) ==> final(self).spec_total_size() + order.size == old(
                self,
            ).spec_total_size(),
            removed is None ==> final(self).spec_total_size() == old(self).spec_total_size(),
    {
        let ghost before = self.orders();
        let removed = level_map_remove(&mut self.orders, order_id);
        match removed {
            Some(order) => {
                proof {
                    lemma_order_total_remove(before, order_id);
                }
                self.total_size = self.total_size - order.size as u128;
            },
            None => {
                proof {
                    assert(before.remove(order_id) =~= before);
                }
            },
        }
        removed
    }

    /// The price of the level.
    #[verifier::when_used_as_spec(spec_price)]
    pub fn price(&self) -> (price: u64)
        ensures
            price == self.spec_price(),
    {
        self.price
    }

    /// The summed size of the resident orders.
    #[verifier::when_used_as_spec(spec_total_size)]
    pub fn total_size(&self) -> (total: u128)
        ensures
            total == self.spec_total_size(),
            self.wf() ==> total == order_total(self.orders()),
    {
        self.total_size
    }

    /// The number of resident orders.
    pub fn order_count(&self) -> (count: usize)
        ensures
            count == self.orders().dom().len(),
    {
        level_map_len(&self.orders)
    }

    /// Whether no order rests at this level.
    pub fn is_empty(&self) -> (empty: bool)
        requires
            self.wf(),
        ensures
            empty == (self.orders() == (Map::<u64, Order>::empty())),
    {
        let count = level_map_len(&self.orders);
        proof {
            if count == 0 {
                assert(self.orders().dom() =~= Set::<u64>::empty());
                assert(self.orders() =~= Map::<u64, Order>::empty());
            }
        }
        count == 0
    }
}

} // verus!
