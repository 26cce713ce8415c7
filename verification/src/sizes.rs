use crate::order::Order;
use vstd::prelude::*;

verus! {

/// The number of distinct `u64` values.
pub open spec fn id_space() -> nat {
    0x1_0000_0000_0000_0000
}

/// The sum of the sizes in a finite map from order id to size.
pub open spec fn total_size(sizes: Map<u64, u64>) -> nat
    decreases sizes.dom().len(),
    when sizes.dom().finite()
{
    if sizes.dom().len() == 0 {
        0
    } else {
        let id = sizes.dom().choose();
        sizes[id] as nat + total_size(sizes.remove(id))
    }
}

/// The sum does not depend on which entry is taken out first.
pub proof fn lemma_total_size_remove(sizes: Map<u64, u64>, id: u64)
    requires
        sizes.dom().finite(),
        sizes.contains_key(id),
    ensures
        total_size(sizes) == sizes[id] + total_size(sizes.remove(id)),
    decreases sizes.dom().len(),
{
    let first = sizes.dom().choose();
    if first != id {
        lemma_total_size_remove(sizes.remove(first), id);
        lemma_total_size_remove(sizes.remove(id), first);
        assert(sizes.remove(first).remove(id) =~= sizes.remove(id).remove(first));
    }
}

/// A finite set of ids has at most as many members as there are `u64` values.
pub proof fn lemma_id_set_len(ids: Set<u64>)
    requires
        ids.finite(),
    ensures
        ids.len() <= id_space(),
{
    let as_int = |id: u64| id as int;
    let image = ids.map(as_int);
    let all = vstd::set_lib::set_int_range(0, id_space() as int);
    assert(vstd::relations::injective_on(as_int, ids));
    vstd::set_lib::lemma_map_size(ids, image, as_int);
    vstd::set_lib::lemma_int_range(0, id_space() as int);
    assert(image.subset_of(all)) by {
        assert forall|i: int| image.contains(i) implies all.contains(i) by {
            let id = choose|id: u64| ids.contains(id) && as_int(id) == i;
            assert(0 <= i < id_space());
        }
    }
    vstd::set_lib::lemma_len_subset(image, all);
}

/// The sum of `n` sizes is at most `n` times the largest `u64`.
pub proof fn lemma_total_size_bound(sizes: Map<u64, u64>)
    requires
        sizes.dom().finite(),
    ensures
        total_size(sizes) <= sizes.dom().len() * u64::MAX,
    decreases sizes.dom().len(),
{
    if sizes.dom().len() != 0 {
        let id = sizes.dom().choose();
        lemma_total_size_bound(sizes.remove(id));
        assert((sizes.dom().len() - 1) * u64::MAX + u64::MAX == sizes.dom().len() * u64::MAX)
            by (nonlinear_arith);
    }
}

/// The sum of the sizes under distinct `u64` ids always fits in a `u128`,
/// with room for one more size when at least one id is still free.
pub proof fn lemma_total_size_fits(sizes: Map<u64, u64>)
    requires
        sizes.dom().finite(),
    ensures
        total_size(sizes) <= id_space() * u64::MAX,
        id_space() * u64::MAX < u128::MAX,
        (exists|id: u64| !sizes.contains_key(id)) ==> total_size(sizes) + u64::MAX <= id_space()
            * u64::MAX,
{
    lemma_total_size_bound(sizes);
    lemma_id_set_len(sizes.dom());
    let n = sizes.dom().len();
    assert(n * u64::MAX <= id_space() * u64::MAX) by (nonlinear_arith)
        requires
            n <= id_space(),
    ;
    assert(id_space() * u64::MAX < u128::MAX) by (nonlinear_arith);
    if exists|id: u64| !sizes.contains_key(id) {
        let free = choose|id: u64| !sizes.contains_key(id);
        lemma_id_set_len(sizes.dom().insert(free));
        assert(n + 1 <= id_space());
        assert(n * u64::MAX + u64::MAX <= id_space() * u64::MAX) by (nonlinear_arith)
            requires
                n + 1 <= id_space(),
        ;
    }
}

/// The sizes of a set of orders, by order id.
pub open spec fn sizes_of(orders: Map<u64, Order>) -> Map<u64, u64> {
    Map::new(|id: u64| orders.contains_key(id), |id: u64| orders[id].size)
}

/// The summed size of a finite set of orders.
pub open spec fn order_total(orders: Map<u64, Order>) -> nat {
    total_size(sizes_of(orders))
}

/// Taking one order out lowers the summed size by that order's size.
pub proof fn lemma_order_total_remove(orders: Map<u64, Order>, id: u64)
    requires
        orders.dom().finite(),
        orders.contains_key(id),
    ensures
        order_total(orders) == orders[id].size + order_total(orders.remove(id)),
{
    assert(sizes_of(orders).dom() =~= orders.dom());
    lemma_total_size_remove(sizes_of(orders), id);
    assert(sizes_of(orders).remove(id) =~= sizes_of(orders.remove(id)));
}

/// Putting an order in under a fresh id raises the summed size by its size.
pub proof fn lemma_order_total_insert(orders: Map<u64, Order>, id: u64, order: Order)
    requires
        orders.dom().finite(),
        !orders.contains_key(id),
    ensures
        order_total(orders.insert(id, order)) == order_total(orders) + order.size,
{
    lemma_order_total_remove(orders.insert(id, order), id);
    assert(orders.insert(id, order).remove(id) =~= orders);
}

/// The summed size of orders under distinct ids fits in a `u128`, with room
/// for one more order while some id is unused.
pub proof fn lemma_order_total_fits(orders: Map<u64, Order>)
    requires
        orders.dom().finite(),
    ensures
        order_total(orders) <= u128::MAX,
        (exists|id: u64| !orders.contains_key(id)) ==> order_total(orders) + u64::MAX <= u128::MAX,
{
    assert(sizes_of(orders).dom() =~= orders.dom());
    lemma_total_size_fits(sizes_of(orders));
    if exists|id: u64| !orders.contains_key(id) {
        let free = choose|id: u64| !orders.contains_key(id);
        assert(!sizes_of(orders).contains_key(free));
    }
}

} // verus!
