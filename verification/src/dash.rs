//! The `dashmap` collections that the book is built on, and what is taken
//! on trust about them.
//!
//! A `DashMap` is opaque to the verifier. Each use of it gets a name for
//! the entries it holds, and each method called on it gets a wrapper whose
//! contract is stated over that name and is believed, not proved. The
//! wrappers that change a map take it by `&mut`, so that no other handle
//! can observe or change it during the call.

use crate::book::Orderbook;
use crate::order::Order;
use crate::snapshot::{is_snapshot, OrderbookSnapshot};
use dashmap::DashMap;
use vstd::prelude::*;

verus! {

/// `dashmap::DashMap`, made known to the verifier as an opaque type.
#[verifier::external_type_specification]
#[verifier::external_body]
#[verifier::reject_recursive_types(K)]
#[verifier::reject_recursive_types(V)]
#[verifier::reject_recursive_types(S)]
pub struct ExDashMap<K, V, S>(dashmap::DashMap<K, V, S>);

/// The entries of the order map of one price level: order id to order.
pub uninterp spec fn level_entries(map: DashMap<u64, Order>) -> Map<u64, Order>;

/// `DashMap::new`: the map it returns has no entries.
#[verifier::external_body]
pub(crate) fn level_map_new() -> (created: DashMap<u64, Order>)
    ensures
        level_entries(created) == (Map::<u64, Order>::empty()),
{
    DashMap::new()
}

/// `DashMap::insert`: stores the order under the id, replacing the entry
/// that was there, and returns the replaced order if there was one.
#[verifier::external_body]
pub(crate) fn level_map_insert(map: &mut DashMap<u64, Order>, id: u64, order: Order) -> (previous:
    Option<Order>)
    ensures
        level_entries(*final(map)) == level_entries(*old(map)).insert(id, order),
        previous == if level_entries(*old(map)).contains_key(id) {
            Some(level_entries(*old(map))[id])
        } else {
            None
        },
{
    map.insert(id, order)
}

/// `DashMap::remove`: takes the entry under the id out of the map and
/// returns its order; leaves the map as it was and returns `None` when the
/// id has no entry.
#[verifier::external_body]
pub(crate) fn level_map_remove(map: &mut DashMap<u64, Order>, id: u64) -> (removed: Option<Order>)
    ensures
        level_entries(*final(map)) == level_entries(*old(map)).remove(id),
        removed == if level_entries(*old(map)).contains_key(id) {
            Some(level_entries(*old(map))[id])
        } else {
            None
        },
{
    map.remove(&id).map(|entry| entry.1)
}

/// `DashMap::len`: the number of entries.
#[verifier::external_body]
pub(crate) fn level_map_len(map: &DashMap<u64, Order>) -> (len: usize)
    ensures
        len == level_entries(*map).dom().len(),
{
    map.len()
}

/// The entries of the reverse index of one book: order id to the side
/// (`true` for bids) and the price of the level that holds the order.
pub uninterp spec fn location_entries(map: DashMap<u64, (bool, u64)>) -> Map<u64, (bool, u64)>;

/// `DashMap::new`: the map it returns has no entries.
#[verifier::external_body]
pub(crate) fn location_map_new() -> (created: DashMap<u64, (bool, u64)>)
    ensures
        location_entries(created) == (Map::<u64, (bool, u64)>::empty()),
{
    DashMap::new()
}

/// `DashMap::insert`: stores the location under the id, replacing the
/// entry that was there.
#[verifier::external_body]
pub(crate) fn location_map_insert(
    map: &mut DashMap<u64, (bool, u64)>,
    id: u64,
    location: (bool, u64),
)
    ensures
        location_entries(*final(map)) == location_entries(*old(map)).insert(id, location),
{
    map.insert(id, location);
}

/// `DashMap::remove`: takes the entry under the id out of the map; leaves
/// the map as it was when the id has no entry.
#[verifier::external_body]
pub(crate) fn location_map_remove(map: &mut DashMap<u64, (bool, u64)>, id: u64)
    ensures
        location_entries(*final(map)) == location_entries(*old(map)).remove(id),
{
    map.remove(&id);
}

/// `DashMap::get`: the location stored under the id, or `None` when the id
/// has no entry.
#[verifier::external_body]
pub(crate) fn location_map_get(map: &DashMap<u64, (bool, u64)>, id: u64) -> (found: Option<
    (bool, u64),
>)
    ensures
        found == if location_entries(*map).contains_key(id) {
            Some(location_entries(*map)[id])
        } else {
            None
        },
{
    map.get(&id).map(|entry| *entry.value())
}

/// The entries of the registry of one engine: market id to book.
pub uninterp spec fn registry_entries(map: DashMap<u16, Orderbook>) -> Map<u16, Orderbook>;

/// `DashMap::new`: the map it returns has no entries.
#[verifier::external_body]
pub(crate) fn registry_new() -> (created: DashMap<u16, Orderbook>)
    ensures
        registry_entries(created) == (Map::<u16, Orderbook>::empty()),
{
    DashMap::new()
}

/// `DashMap::insert`: stores the book under the market id, replacing the
/// entry that was there.
#[verifier::external_body]
pub(crate) fn registry_insert(map: &mut DashMap<u16, Orderbook>, market_id: u16, book: Orderbook)
    ensures
        registry_entries(*final(map)) == registry_entries(*old(map)).insert(market_id, book),
{
    map.insert(market_id, book);
}

/// `DashMap::remove`: takes the entry under the market id out of the map
/// and returns its book; leaves the map as it was and returns `None` when
/// the id has no entry.
#[verifier::external_body]
pub(crate) fn registry_remove(map: &mut DashMap<u16, Orderbook>, market_id: u16) -> (removed:
    Option<Orderbook>)
    ensures
        registry_entries(*final(map)) == registry_entries(*old(map)).remove(market_id),
        removed == if registry_entries(*old(map)).contains_key(market_id) {
            Some(registry_entries(*old(map))[market_id])
        } else {
            None
        },
{
    map.remove(&market_id).map(|entry| entry.1)
}

/// `DashMap::contains_key`: whether the market id has an entry.
#[verifier::external_body]
pub(crate) fn registry_contains(map: &DashMap<u16, Orderbook>, market_id: u16) -> (present: bool)
    ensures
        present == registry_entries(*map).contains_key(market_id),
{
    map.contains_key(&market_id)
}

/// `DashMap::view`: runs the closure on the entry under the market id and
/// returns what it gave, or returns `None` when the id has no entry. The
/// closure is one call of `Orderbook::get_snapshot` on the stored book, so
/// what comes back is the depth view of that book.
#[verifier::external_body]
pub(crate) fn registry_snapshot(map: &DashMap<u16, Orderbook>, market_id: u16, depth: usize) -> (found:
    Option<OrderbookSnapshot>)
    requires
        registry_entries(*map).contains_key(market_id) ==> registry_entries(*map)[market_id].wf(),
    ensures
        found is Some <==> registry_entries(*map).contains_key(market_id),
        found matches Some(snapshot) ==> is_snapshot(
            registry_entries(*map)[market_id]@,
            depth,
            snapshot,
        ),
{
    map.view(&market_id, |_, book| book.get_snapshot(depth))
}

} // verus!
