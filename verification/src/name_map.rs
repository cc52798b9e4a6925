//! The entries of the directory of bus names in the order of their arrival,
//! kept in `indexmap::IndexMap`.
//!
//! Verus does not look inside an `IndexMap`. What this file says about one
//! is taken from the documentation of `indexmap` and is believed, not
//! proved. A key is a bus name as the pair of its variant and its text.

use crate::bus_name_item::BusNameItem;
use indexmap::IndexMap;
use vstd::prelude::*;

verus! {

/// `indexmap::IndexMap`, made known to Verus as a type of which nothing is
/// seen but what the functions below say.
#[verifier::external_type_specification]
#[verifier::external_body]
#[verifier::reject_recursive_types(K)]
#[verifier::reject_recursive_types(V)]
#[verifier::reject_recursive_types(S)]
pub struct ExIndexMap<K, V, S>(IndexMap<K, V, S>);

/// The entries a map holds, each with its key, in the order in which the
/// map hands them out.
pub uninterp spec fn map_entries(map: IndexMap<(bool, String), BusNameItem>) -> Seq<
    ((bool, Seq<char>), BusNameItem),
>;

/// `IndexMap::new`: a map that holds nothing.
#[verifier::external_body]
pub(crate) fn empty_map() -> (map: IndexMap<(bool, String), BusNameItem>)
    ensures
        map_entries(map) == Seq::<((bool, Seq<char>), BusNameItem)>::empty(),
{
    IndexMap::new()
}

/// `IndexMap::len`: how many entries the map holds.
#[verifier::external_body]
pub(crate) fn map_len(map: &IndexMap<(bool, String), BusNameItem>) -> (n: usize)
    ensures
        n == map_entries(*map).len(),
{
    map.len()
}

/// `IndexMap::get_index_of`: the position of the entry with this key, and
/// `None` where no entry has it.
#[verifier::external_body]
pub(crate) fn map_position(map: &IndexMap<(bool, String), BusNameItem>, key: &(bool, String)) -> (at:
    Option<usize>)
    ensures
        at matches Some(i) ==> i < map_entries(*map).len() && map_entries(*map)[i as int].0 == (
            key.0,
            key.1@,
        ),
        at is None ==> forall|i: int|
            0 <= i < map_entries(*map).len() ==> (#[trigger] map_entries(*map)[i]).0 != (
                key.0,
                key.1@,
            ),
{
    map.get_index_of(key)
}

/// `IndexMap::get_index`: the item at a position, `None` past the end.
#[verifier::external_body]
pub(crate) fn map_get(map: &IndexMap<(bool, String), BusNameItem>, position: usize) -> (item: Option<
    &BusNameItem,
>)
    ensures
        position < map_entries(*map).len() ==> item.is_some() && *item.unwrap() == map_entries(
            *map,
        )[position as int].1,
        position >= map_entries(*map).len() ==> item.is_none(),
{
    match map.get_index(position) {
        Some((_, item)) => Some(item),
        None => None,
    }
}

/// `IndexMap::get_index_mut`: the item at a position, to be changed in its
/// place; `None` past the end. Nothing else in the map changes.
#[verifier::external_body]
pub(crate) fn map_get_mut(map: &mut IndexMap<(bool, String), BusNameItem>, position: usize) -> (item:
    Option<&mut BusNameItem>)
    ensures
        position >= map_entries(*old(map)).len() ==> item.is_none() && map_entries(*final(map))
            == map_entries(*old(map)),
        position < map_entries(*old(map)).len() ==> item.is_some() && *item.unwrap() == map_entries(
            *old(map),
        )[position as int].1 && map_entries(*final(map)) == map_entries(*old(map)).update(
            position as int,
            (map_entries(*old(map))[position as int].0, *final(item.unwrap())),
        ),
{
    match map.get_index_mut(position) {
        Some((_, item)) => Some(item),
        None => None,
    }
}

/// `IndexMap::insert_full`: where an entry has the key, its item is
/// replaced in its place and handed back with the position; where none has
/// it, the key and the item become the last entry.
#[verifier::external_body]
pub(crate) fn map_insert(
    map: &mut IndexMap<(bool, String), BusNameItem>,
    key: (bool, String),
    item: BusNameItem,
) -> (r: (usize, Option<BusNameItem>))
    ensures
        r.1 matches Some(replaced) ==> r.0 < map_entries(*old(map)).len() && map_entries(
            *old(map),
        )[r.0 as int] == ((key.0, key.1@), replaced) && map_entries(*final(map)) == map_entries(
            *old(map),
        ).update(r.0 as int, ((key.0, key.1@), item)),
        r.1 is None ==> r.0 == map_entries(*old(map)).len() && map_entries(*final(map))
            == map_entries(*old(map)).push(((key.0, key.1@), item)) && forall|i: int|
            0 <= i < map_entries(*old(map)).len() ==> (#[trigger] map_entries(*old(map))[i]).0 != (
                key.0,
                key.1@,
            ),
{
    map.insert_full(key, item)
}

/// `IndexMap::shift_remove_full`: the entry with this key leaves the map
/// and is handed back with the position it had; the entries behind it move
/// up by one. Without such an entry the map stays as it was.
#[verifier::external_body]
pub(crate) fn map_shift_remove(
    map: &mut IndexMap<(bool, String), BusNameItem>,
    key: &(bool, String),
) -> (r: Option<(usize, BusNameItem)>)
    ensures
        r matches Some(removed) ==> removed.0 < map_entries(*old(map)).len() && map_entries(
            *old(map),
        )[removed.0 as int] == ((key.0, key.1@), removed.1) && map_entries(*final(map))
            == map_entries(*old(map)).remove(removed.0 as int),
        r is None ==> map_entries(*final(map)) == map_entries(*old(map)) && forall|i: int|
            0 <= i < map_entries(*old(map)).len() ==> (#[trigger] map_entries(*old(map))[i]).0 != (
                key.0,
                key.1@,
            ),
{
    match map.shift_remove_full(key) {
        Some((position, _, item)) => Some((position, item)),
        None => None,
    }
}

} // verus!
