//! Sets of well-known names in insertion order, kept in `indexmap::IndexSet`.
//!
//! Verus does not look inside an `IndexSet`. What this file says about one is
//! taken from the documentation of `indexmap` and is believed, not proved.

use indexmap::IndexSet;
use vstd::prelude::*;

verus! {

/// `indexmap::IndexSet`, made known to Verus as a type of which nothing is
/// seen but what the functions below say.
#[verifier::external_type_specification]
#[verifier::external_body]
#[verifier::reject_recursive_types(T)]
#[verifier::reject_recursive_types(S)]
pub struct ExIndexSet<T, S>(IndexSet<T, S>);

/// The names a set holds, in the order in which the set hands them out.
pub uninterp spec fn wk_name_seq(set: IndexSet<String>) -> Seq<Seq<char>>;

/// `IndexSet::new`: a set that holds nothing.
#[verifier::external_body]
pub(crate) fn empty_set() -> (set: IndexSet<String>)
    ensures
        wk_name_seq(set) == Seq::<Seq<char>>::empty(),
{
    IndexSet::new()
}

/// `IndexSet::len`: how many names the set holds.
#[verifier::external_body]
pub(crate) fn set_len(set: &IndexSet<String>) -> (n: usize)
    ensures
        n == wk_name_seq(*set).len(),
{
    set.len()
}

/// `IndexSet::get_index`: the name at a position, `None` past the end.
#[verifier::external_body]
pub(crate) fn set_get(set: &IndexSet<String>, position: usize) -> (name: Option<&String>)
    ensures
        position < wk_name_seq(*set).len() ==> name.is_some() && name.unwrap()@ == wk_name_seq(
            *set,
        )[position as int],
        position >= wk_name_seq(*set).len() ==> name.is_none(),
{
    set.get_index(position)
}

/// `IndexSet::contains`: whether a name with this text is in the set.
#[verifier::external_body]
pub(crate) fn set_contains(set: &IndexSet<String>, name: &String) -> (found: bool)
    ensures
        found == wk_name_seq(*set).contains(name@),
{
    set.contains(name)
}

/// `IndexSet::insert`: a name that the set lacks goes to the end and the
/// call returns `true`; one that it holds leaves the set as it was and the
/// call returns `false`.
#[verifier::external_body]
pub(crate) fn set_insert(set: &mut IndexSet<String>, name: String) -> (added: bool)
    ensures
        added == !wk_name_seq(*old(set)).contains(name@),
        added ==> wk_name_seq(*final(set)) == wk_name_seq(*old(set)).push(name@),
        !added ==> wk_name_seq(*final(set)) == wk_name_seq(*old(set)),
{
    set.insert(name)
}

/// `IndexSet::swap_remove`: a name that the set holds is replaced by the
/// last name, which leaves the end, and the call returns `true`; without the
/// name the set stays as it was and the call returns `false`.
#[verifier::external_body]
pub(crate) fn set_swap_remove(set: &mut IndexSet<String>, name: &String) -> (removed: bool)
    ensures
        removed == wk_name_seq(*old(set)).contains(name@),
        removed ==> exists|i: int|
            0 <= i < wk_name_seq(*old(set)).len() && wk_name_seq(*old(set))[i] == name@
                && wk_name_seq(*final(set)) == wk_name_seq(*old(set)).update(
                i,
                wk_name_seq(*old(set)).last(),
            ).drop_last(),
        !removed ==> wk_name_seq(*final(set)) == wk_name_seq(*old(set)),
{
    set.swap_remove(name)
}

/// `IndexSet::clone`: a set with the same names in the same order.
#[verifier::external_body]
pub(crate) fn set_clone(set: &IndexSet<String>) -> (copy: IndexSet<String>)
    ensures
        wk_name_seq(copy) == wk_name_seq(*set),
{
    set.clone()
}

} // verus!
