//! The receipt indices of the messages that a filter lets through, in
//! their order, kept in `indexmap::IndexSet` so that the place of a message
//! among them is found at once.
//!
//! Verus does not look inside an `IndexSet`. What this file says about one
//! is taken from the documentation of `indexmap` and is believed, not
//! proved.

use indexmap::IndexSet;
use vstd::prelude::*;

verus! {

/// The receipt indices a set holds, in the order in which the set hands
/// them out.
pub uninterp spec fn position_seq(set: IndexSet<u32>) -> Seq<u32>;

/// `IndexSet::new`: a set that holds nothing.
#[verifier::external_body]
pub(crate) fn empty_positions() -> (set: IndexSet<u32>)
    ensures
        position_seq(set) == Seq::<u32>::empty(),
{
    IndexSet::new()
}

/// `IndexSet::len`: how many indices the set holds.
#[verifier::external_body]
pub(crate) fn positions_len(set: &IndexSet<u32>) -> (n: usize)
    ensures
        n == position_seq(*set).len(),
{
    set.len()
}

/// `IndexSet::get_index`: the index at a place, `None` past the end.
#[verifier::external_body]
pub(crate) fn positions_get(set: &IndexSet<u32>, place: usize) -> (index: Option<u32>)
    ensures
        place < position_seq(*set).len() ==> index == Some(position_seq(*set)[place as int]),
        place >= position_seq(*set).len() ==> index is None,
{
    match set.get_index(place) {
        Some(index) => Some(*index),
        None => None,
    }
}

/// `IndexSet::get_index_of`: the place of an index in the set, `None`
/// where the set lacks it.
#[verifier::external_body]
pub(crate) fn positions_find(set: &IndexSet<u32>, index: u32) -> (place: Option<usize>)
    ensures
        place matches Some(p) ==> p < position_seq(*set).len() && position_seq(*set)[p as int]
            == index,
        place is None ==> !position_seq(*set).contains(index),
{
    set.get_index_of(&index)
}

/// `IndexSet::insert`: an index that the set lacks goes to the end and the
/// call returns `true`; one that it holds leaves the set as it was and the
/// call returns `false`.
#[verifier::external_body]
pub(crate) fn positions_insert(set: &mut IndexSet<u32>, index: u32) -> (added: bool)
    ensures
        added == !position_seq(*old(set)).contains(index),
        added ==> position_seq(*final(set)) == position_seq(*old(set)).push(index),
        !added ==> position_seq(*final(set)) == position_seq(*old(set)),
{
    set.insert(index)
}

} // verus!
