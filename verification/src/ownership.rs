//! Who holds a well-known name: what the directory answers as of a receipt
//! index, and what stays true of the answers while the directory changes.

use crate::bus_name_item::BusNameItemView;
use crate::directory::{
    after_call_destination, after_message, after_method_return, after_name_owner_changed,
    after_ordinary_reply, dbus_interface, gives_way, lemma_without_entry,
    after_name_resolved, after_owner_change, directory_wf, has_name, lemma_position,
    lemma_with_wk_name, lemma_without_wk_name,
    position_of, with_bus_name, with_wk_name, without_entry, without_wk_name,
};
use crate::message::MessageView;
use crate::message_type::MessageType;
use crate::name_args::{
    decoded_bus_name, decoded_owner_change, decoded_unique_name, NameOwnerChangedView,
};
use crate::snapshot_log::{
    as_of, claim, has_index_between, lemma_as_of_unchanged, lemma_as_of, lemma_claim, lemma_release, lemma_with_name,
    lemma_without_name, SnapshotView,
};
use vstd::prelude::*;

verus! {

/// The entry at `at` holds `wk_name` as of `n`.
pub open spec fn holds(dir: Seq<BusNameItemView>, at: int, wk_name: Seq<char>, n: int) -> bool {
    as_of(dir[at].log, n).contains(wk_name)
}

/// As of every receipt index, every well-known name is held by at most one
/// entry.
pub open spec fn unique_owners(dir: Seq<BusNameItemView>) -> bool {
    forall|n: int, wk_name: Seq<char>, i: int, j: int|
        0 <= i < dir.len() && 0 <= j < dir.len() && #[trigger] holds(dir, i, wk_name, n)
            && #[trigger] holds(dir, j, wk_name, n) ==> i == j
}

/// The history of the entry for `name`; empty where there is no entry.
pub open spec fn log_of(dir: Seq<BusNameItemView>, name: (bool, Seq<char>)) -> Seq<SnapshotView> {
    if has_name(dir, name) {
        dir[position_of(dir, name)].log
    } else {
        Seq::empty()
    }
}

/// The names that the entry for `name` holds as of `n`; none where there
/// is no entry.
pub open spec fn names_of(dir: Seq<BusNameItemView>, name: (bool, Seq<char>), n: int) -> Seq<
    Seq<char>,
> {
    as_of(log_of(dir, name), n)
}

/// A snapshot stored at `index` in `log` is what a lookup as of `n` finds:
/// `n` is not before `index`, and no later snapshot lies at or before `n`.
pub open spec fn in_window(log: Seq<SnapshotView>, index: int, n: int) -> bool {
    index <= n && !has_index_between(log, index, n)
}

/// No entry but the one for `name` holds `wk_name` as of an index at which
/// a claim by `name` at `index` would show.
pub open spec fn unclaimed_elsewhere(
    dir: Seq<BusNameItemView>,
    name: (bool, Seq<char>),
    wk_name: Seq<char>,
    index: int,
) -> bool {
    forall|j: int, n: int|
        0 <= j < dir.len() && dir[j].name != name && in_window(log_of(dir, name), index, n)
            ==> !#[trigger] holds(dir, j, wk_name, n)
}

/// An entry without snapshots holds nothing.
pub proof fn lemma_empty_log_holds_nothing(n: int)
    ensures
        as_of(Seq::<SnapshotView>::empty(), n) == Seq::<Seq<char>>::empty(),
{
    lemma_as_of(Seq::<SnapshotView>::empty(), n);
}

/// What a claim does to the answers of the directory. The entry for `name`
/// holds `wk_name` as of every index from `index` up to its next snapshot,
/// beside what it held before; as of any other index it holds what it held
/// before. Every other entry holds what it held before.
pub proof fn lemma_with_wk_name_holds(
    dir: Seq<BusNameItemView>,
    name: (bool, Seq<char>),
    wk_name: Seq<char>,
    index: int,
    n: int,
)
    requires
        directory_wf(dir),
    ensures
        in_window(log_of(dir, name), index, n) ==> names_of(
            with_wk_name(dir, name, wk_name, index),
            name,
            n,
        ).contains(wk_name),
        !in_window(log_of(dir, name), index, n) ==> names_of(
            with_wk_name(dir, name, wk_name, index),
            name,
            n,
        ) == names_of(dir, name, n),
        forall|x: Seq<char>|
            names_of(dir, name, n).contains(x) ==> #[trigger] names_of(
                with_wk_name(dir, name, wk_name, index),
                name,
                n,
            ).contains(x),
        forall|other: (bool, Seq<char>)|
            other != name ==> #[trigger] log_of(with_wk_name(dir, name, wk_name, index), other)
                == log_of(dir, other),
{
    let out = with_wk_name(dir, name, wk_name, index);
    lemma_with_wk_name(dir, name, wk_name, index);
    let before = log_of(dir, name);
    if has_name(dir, name) {
        assert(dir[position_of(dir, name)].wf());
    }
    lemma_claim(before, index, wk_name, n);
    lemma_as_of(before, n);
    lemma_with_name(as_of(before, n), wk_name);
    assert(log_of(out, name) == claim(before, index, wk_name));
    assert forall|other: (bool, Seq<char>)| other != name implies #[trigger] log_of(out, other)
        == log_of(dir, other) by {
        if has_name(dir, other) {
            let i = position_of(dir, other);
            assert(out[i] == dir[i]);
            lemma_position(out, other, i);
        }
    }
}

/// What a release does to the answers of the directory. The entry for
/// `name` does not hold `wk_name` as of any index from `index` up to its
/// next snapshot, and holds what else it held; as of any other index it
/// holds what it held before. Every other entry holds what it held before.
pub proof fn lemma_without_wk_name_holds(
    dir: Seq<BusNameItemView>,
    name: (bool, Seq<char>),
    wk_name: Seq<char>,
    index: int,
    n: int,
)
    requires
        directory_wf(dir),
    ensures
        in_window(log_of(dir, name), index, n) ==> !names_of(
            without_wk_name(dir, name, wk_name, index),
            name,
            n,
        ).contains(wk_name),
        !in_window(log_of(dir, name), index, n) ==> names_of(
            without_wk_name(dir, name, wk_name, index),
            name,
            n,
        ) == names_of(dir, name, n),
        forall|x: Seq<char>| #[trigger]
            names_of(without_wk_name(dir, name, wk_name, index), name, n).contains(x) ==> names_of(
                dir,
                name,
                n,
            ).contains(x),
        forall|other: (bool, Seq<char>)|
            other != name ==> #[trigger] log_of(without_wk_name(dir, name, wk_name, index), other)
                == log_of(dir, other),
{
    let out = without_wk_name(dir, name, wk_name, index);
    lemma_without_wk_name(dir, name, wk_name, index);
    lemma_empty_log_holds_nothing(n);
    if has_name(dir, name) {
        let at = position_of(dir, name);
        let before = dir[at].log;
        assert(dir[at].wf());
        lemma_release(before, index, wk_name, n);
        lemma_as_of(before, n);
        lemma_without_name(as_of(before, n), wk_name);
        assert(out[at].name == name);
        lemma_position(out, name, at);
    }
    assert forall|other: (bool, Seq<char>)| other != name implies #[trigger] log_of(out, other)
        == log_of(dir, other) by {
        if has_name(dir, other) {
            let i = position_of(dir, other);
            assert(out[i] == dir[i]);
            lemma_position(out, other, i);
        }
    }
}

/// Asking for an entry keeps owners unique: a new entry holds nothing.
pub proof fn lemma_with_bus_name_unique(dir: Seq<BusNameItemView>, name: (bool, Seq<char>))
    requires
        unique_owners(dir),
    ensures
        unique_owners(with_bus_name(dir, name)),
{
    let out = with_bus_name(dir, name);
    assert forall|n: int, wk_name: Seq<char>, i: int, j: int|
        0 <= i < out.len() && 0 <= j < out.len() && #[trigger] holds(out, i, wk_name, n)
            && #[trigger] holds(out, j, wk_name, n) implies i == j by {
        lemma_empty_log_holds_nothing(n);
        if i < dir.len() && j < dir.len() {
            assert(holds(dir, i, wk_name, n) && holds(dir, j, wk_name, n));
        }
    }
}

/// Taking an entry out keeps owners unique.
pub proof fn lemma_without_entry_unique(dir: Seq<BusNameItemView>, name: (bool, Seq<char>))
    requires
        unique_owners(dir),
    ensures
        unique_owners(without_entry(dir, name)),
{
    let out = without_entry(dir, name);
    if has_name(dir, name) {
        let at = position_of(dir, name);
        assert forall|n: int, wk_name: Seq<char>, i: int, j: int|
            0 <= i < out.len() && 0 <= j < out.len() && #[trigger] holds(out, i, wk_name, n)
                && #[trigger] holds(out, j, wk_name, n) implies i == j by {
            let oi = if i < at { i } else { i + 1 };
            let oj = if j < at { j } else { j + 1 };
            assert(out[i] == dir[oi] && out[j] == dir[oj]);
            assert(holds(dir, oi, wk_name, n) && holds(dir, oj, wk_name, n));
        }
    }
}

/// A release keeps owners unique: nobody comes to hold a name by it.
pub proof fn lemma_without_wk_name_unique(
    dir: Seq<BusNameItemView>,
    name: (bool, Seq<char>),
    wk_name: Seq<char>,
    index: int,
)
    requires
        directory_wf(dir),
        unique_owners(dir),
    ensures
        unique_owners(without_wk_name(dir, name, wk_name, index)),
{
    let out = without_wk_name(dir, name, wk_name, index);
    if has_name(dir, name) {
        let at = position_of(dir, name);
        assert forall|n: int, x: Seq<char>, i: int, j: int|
            0 <= i < out.len() && 0 <= j < out.len() && #[trigger] holds(out, i, x, n)
                && #[trigger] holds(out, j, x, n) implies i == j by {
            lemma_without_wk_name_holds(dir, name, wk_name, index, n);
            lemma_without_wk_name(dir, name, wk_name, index);
            assert(out[at].name == name);
            lemma_position(out, name, at);
            assert(names_of(out, name, n) == as_of(out[at].log, n));
            assert(names_of(dir, name, n) == as_of(dir[at].log, n));
            assert(holds(dir, i, x, n)) by {
                if i != at {
                    assert(out[i] == dir[i]);
                }
            }
            assert(holds(dir, j, x, n)) by {
                if j != at {
                    assert(out[j] == dir[j]);
                }
            }
        }
    }
}

/// A claim keeps owners unique where no other entry holds the name as of
/// an index at which the claim shows.
pub proof fn lemma_with_wk_name_unique(
    dir: Seq<BusNameItemView>,
    name: (bool, Seq<char>),
    wk_name: Seq<char>,
    index: int,
)
    requires
        directory_wf(dir),
        unique_owners(dir),
        unclaimed_elsewhere(dir, name, wk_name, index),
    ensures
        unique_owners(with_wk_name(dir, name, wk_name, index)),
{
    let out = with_wk_name(dir, name, wk_name, index);
    lemma_with_wk_name(dir, name, wk_name, index);
    let at = position_of(out, name);
    assert(0 <= at < out.len() && out[at].name == name);
    assert forall|n: int, x: Seq<char>, i: int, j: int|
        0 <= i < out.len() && 0 <= j < out.len() && #[trigger] holds(out, i, x, n)
            && #[trigger] holds(out, j, x, n) implies i == j by {
        lemma_with_wk_name_holds(dir, name, wk_name, index, n);
        lemma_empty_log_holds_nothing(n);
        assert(names_of(out, name, n) == as_of(out[at].log, n));
        if i != j {
            // one of the two is another entry, unchanged by the claim
            let other = if i != at { i } else { j };
            let this = if i != at { j } else { i };
            assert(other < dir.len() && out[other] == dir[other]);
            assert(holds(dir, other, x, n));
            assert(out[other].name != name) by {
                if other < at {
                    assert(out[other].name != out[at].name);
                } else {
                    assert(out[at].name != out[other].name);
                }
            }
            if this != at {
                assert(out[this] == dir[this]);
                assert(holds(dir, this, x, n));
            } else {
                // the claiming entry holds `x` as of `n`: it did before, or
                // `x` is the name claimed and `n` lies in the window
                let before = log_of(dir, name);
                if has_name(dir, name) {
                    assert(dir[at].wf());
                    assert(before == dir[at].log);
                }
                lemma_claim(before, index, wk_name, n);
                lemma_as_of(before, n);
                lemma_with_name(as_of(before, n), wk_name);
                if as_of(before, n).contains(x) {
                    assert(has_name(dir, name));
                    assert(holds(dir, at, x, n));
                } else {
                    assert(x == wk_name && in_window(before, index, n));
                    assert(!holds(dir, other, wk_name, n));
                }
            }
        }
    }
}

/// A claim breaks the uniqueness of owners where another entry holds the
/// name as of an index at which the claim shows.
pub proof fn lemma_with_wk_name_conflict(
    dir: Seq<BusNameItemView>,
    name: (bool, Seq<char>),
    wk_name: Seq<char>,
    index: int,
)
    requires
        directory_wf(dir),
        !unclaimed_elsewhere(dir, name, wk_name, index),
    ensures
        !unique_owners(with_wk_name(dir, name, wk_name, index)),
{
    let out = with_wk_name(dir, name, wk_name, index);
    lemma_with_wk_name(dir, name, wk_name, index);
    let (j, n) = choose|j: int, n: int|
        0 <= j < dir.len() && dir[j].name != name && in_window(log_of(dir, name), index, n)
            && #[trigger] holds(dir, j, wk_name, n);
    let at = position_of(out, name);
    assert(0 <= at < out.len() && out[at].name == name);
    lemma_with_wk_name_holds(dir, name, wk_name, index, n);
    assert(names_of(out, name, n) == as_of(out[at].log, n));
    assert(holds(out, at, wk_name, n));
    assert(out[j] == dir[j]);
    assert(holds(out, j, wk_name, n));
    assert(at != j);
}

/// What the answer of the bus daemon to `GetNameOwner` makes of the
/// directory: the owner holds the well-known name as of the index of the
/// call and as of every later index up to its next snapshot, however late
/// the answer came.
pub proof fn lemma_resolved_name_is_held_from_the_call_on(
    dir: Seq<BusNameItemView>,
    wk_name: Seq<char>,
    owner: Seq<char>,
    call_index: int,
    n: int,
)
    requires
        directory_wf(dir),
        in_window(log_of(dir, (true, owner)), call_index, n),
    ensures
        names_of(
            after_name_resolved(dir, (false, wk_name), owner, call_index).names,
            (true, owner),
            n,
        ).contains(wk_name),
        names_of(
            after_name_resolved(dir, (false, wk_name), owner, call_index).names,
            (true, owner),
            call_index,
        ).contains(wk_name),
{
    lemma_with_wk_name_holds(dir, (true, owner), wk_name, call_index, n);
    lemma_with_wk_name_holds(dir, (true, owner), wk_name, call_index, call_index);
    assert(!has_index_between(log_of(dir, (true, owner)), call_index, call_index));
}

/// What a `NameOwnerChanged` signal with both owners makes of the
/// directory. As of an index before the signal both hold what they held.
/// From the index of the signal on, up to the next snapshot of each, the
/// old owner does not hold the name and the new owner does.
pub proof fn lemma_owner_change_transfers(
    dir: Seq<BusNameItemView>,
    wk_name: Seq<char>,
    old_owner: Seq<char>,
    new_owner: Seq<char>,
    index: int,
    n: int,
)
    requires
        directory_wf(dir),
        old_owner != new_owner,
    ensures
        ({
            let change = NameOwnerChangedView {
                name: (false, wk_name),
                old_owner: Some(old_owner),
                new_owner: Some(new_owner),
            };
            let out = after_owner_change(dir, change, index).names;
            &&& after_owner_change(dir, change, index).result is Ok
            &&& n < index ==> names_of(out, (true, old_owner), n) == names_of(
                dir,
                (true, old_owner),
                n,
            ) && names_of(out, (true, new_owner), n) == names_of(dir, (true, new_owner), n)
            &&& in_window(log_of(dir, (true, old_owner)), index, n) ==> !names_of(
                out,
                (true, old_owner),
                n,
            ).contains(wk_name)
            &&& in_window(log_of(dir, (true, new_owner)), index, n) ==> names_of(
                out,
                (true, new_owner),
                n,
            ).contains(wk_name)
        }),
{
    let a = (true, old_owner);
    let b = (true, new_owner);
    let released = without_wk_name(dir, a, wk_name, index);
    lemma_without_wk_name(dir, a, wk_name, index);
    lemma_without_wk_name_holds(dir, a, wk_name, index, n);
    lemma_with_wk_name_holds(released, b, wk_name, index, n);
    assert(log_of(released, b) == log_of(dir, b));
    let out = with_wk_name(released, b, wk_name, index);
    assert(log_of(out, a) == log_of(released, a));
}

/// As of `n`, every well-known name is held by at most one entry.
pub open spec fn unique_owners_at(dir: Seq<BusNameItemView>, n: int) -> bool {
    forall|wk_name: Seq<char>, i: int, j: int|
        0 <= i < dir.len() && 0 <= j < dir.len() && #[trigger] holds(dir, i, wk_name, n)
            && #[trigger] holds(dir, j, wk_name, n) ==> i == j
}

/// No snapshot of the directory was taken after `index`.
pub open spec fn newest(dir: Seq<BusNameItemView>, index: int) -> bool {
    forall|i: int, k: int|
        0 <= i < dir.len() && 0 <= k < dir[i].log.len() ==> (#[trigger] dir[i].log[k]).index
            <= index
}

/// Owners are unique where they are unique as of every index.
pub proof fn lemma_unique_owners_at_every_index(dir: Seq<BusNameItemView>)
    ensures
        unique_owners(dir) <==> forall|n: int| #[trigger] unique_owners_at(dir, n),
{
    if forall|n: int| #[trigger] unique_owners_at(dir, n) {
        assert forall|n: int, wk_name: Seq<char>, i: int, j: int|
            0 <= i < dir.len() && 0 <= j < dir.len() && #[trigger] holds(dir, i, wk_name, n)
                && #[trigger] holds(dir, j, wk_name, n) implies i == j by {
            assert(unique_owners_at(dir, n));
        }
    }
}

/// A name that goes from its old owner to a new one, by a signal newer
/// than every snapshot, keeps owners unique where no third entry held the
/// name: the old owner lets go before the new owner takes hold.
pub proof fn lemma_owner_change_keeps_unique(
    dir: Seq<BusNameItemView>,
    wk_name: Seq<char>,
    old_owner: Seq<char>,
    new_owner: Seq<char>,
    index: int,
)
    requires
        directory_wf(dir),
        unique_owners(dir),
        newest(dir, index),
        forall|j: int|
            0 <= j < dir.len() && dir[j].name != (true, old_owner) && dir[j].name != (
                true,
                new_owner,
            ) ==> !#[trigger] holds(dir, j, wk_name, index),
    ensures
        unique_owners(
            after_owner_change(
                dir,
                (NameOwnerChangedView {
                    name: (false, wk_name),
                    old_owner: Some(old_owner),
                    new_owner: Some(new_owner),
                }),
                index,
            ).names,
        ),
{
    let a = (true, old_owner);
    let b = (true, new_owner);
    let released = without_wk_name(dir, a, wk_name, index);
    lemma_without_wk_name(dir, a, wk_name, index);
    lemma_without_wk_name_unique(dir, a, wk_name, index);
    assert forall|j: int, n: int|
        0 <= j < released.len() && released[j].name != b && in_window(
            log_of(released, b),
            index,
            n,
        ) implies !#[trigger] holds(released, j, wk_name, n) by {
        lemma_without_wk_name_holds(dir, a, wk_name, index, n);
        assert(dir[j].wf());
        if has_name(dir, a) && j == position_of(dir, a) {
            // the old owner let go, and has no later snapshot
            let log = dir[j].log;
            assert(log_of(dir, a) == log);
            if has_index_between(log, index, n) {
                let k = choose|k: int| 0 <= k < log.len() && index < (#[trigger] log[k]).index <= n;
                assert(dir[j].log[k].index <= index);
            }
            assert(released[j].name == a);
            lemma_position(released, a, j);
            assert(names_of(released, a, n) == as_of(released[j].log, n));
        } else {
            // a third entry is as it was, and holds what it held at `index`
            assert(released[j] == dir[j]);
            let log = dir[j].log;
            if has_index_between(log, index, n) {
                let k = choose|k: int| 0 <= k < log.len() && index < (#[trigger] log[k]).index <= n;
                assert(dir[j].log[k].index <= index);
            }
            lemma_as_of_unchanged(log, index, n);
            if has_name(dir, a) {
                let at = position_of(dir, a);
                if j < at {
                    assert(dir[j].name != dir[at].name);
                } else {
                    assert(dir[at].name != dir[j].name);
                }
            }
            assert(dir[j].name != a) by {
                if dir[j].name == a {
                    lemma_position(dir, a, j);
                }
            }
            assert(!holds(dir, j, wk_name, index));
        }
    }
    lemma_with_wk_name_unique(released, b, wk_name, index);
}

/// A claim at or before `bound` leaves no snapshot after `bound`.
pub proof fn lemma_with_wk_name_newest(
    dir: Seq<BusNameItemView>,
    name: (bool, Seq<char>),
    wk_name: Seq<char>,
    index: int,
    bound: int,
)
    requires
        directory_wf(dir),
        newest(dir, bound),
        index <= bound,
    ensures
        newest(with_wk_name(dir, name, wk_name, index), bound),
{
    let out = with_wk_name(dir, name, wk_name, index);
    lemma_with_wk_name(dir, name, wk_name, index);
    let at = position_of(out, name);
    let before = log_of(dir, name);
    if has_name(dir, name) {
        assert(dir[at].wf());
    }
    let names = crate::snapshot_log::with_name(as_of(before, index), wk_name);
    crate::snapshot_log::lemma_store(before, index, names);
    assert(out[at].log == crate::snapshot_log::store(before, index, names));
    assert forall|i: int, k: int| 0 <= i < out.len() && 0 <= k < out[i].log.len() implies (
    #[trigger] out[i].log[k]).index <= bound by {
        if i == at {
            let idx = out[at].log[k].index;
            assert(crate::snapshot_log::has_index(out[at].log, idx));
            assert(crate::snapshot_log::history(out[at].log).dom().contains(idx));
            if idx != index {
                assert(crate::snapshot_log::has_index(before, idx));
                let j = choose|j: int| 0 <= j < before.len() && (#[trigger] before[j]).index == idx;
                assert(dir[at].log[j].index <= bound);
            }
        } else {
            assert(out[i] == dir[i]);
            assert(dir[i].log[k].index <= bound);
        }
    }
}

/// A release at or before `bound` leaves no snapshot after `bound`.
pub proof fn lemma_without_wk_name_newest(
    dir: Seq<BusNameItemView>,
    name: (bool, Seq<char>),
    wk_name: Seq<char>,
    index: int,
    bound: int,
)
    requires
        directory_wf(dir),
        newest(dir, bound),
        index <= bound,
    ensures
        newest(without_wk_name(dir, name, wk_name, index), bound),
{
    let out = without_wk_name(dir, name, wk_name, index);
    if has_name(dir, name) {
        let at = position_of(dir, name);
        let before = dir[at].log;
        assert(dir[at].wf());
        let names = crate::snapshot_log::without_name(as_of(before, index), wk_name);
        crate::snapshot_log::lemma_store(before, index, names);
        assert forall|i: int, k: int| 0 <= i < out.len() && 0 <= k < out[i].log.len() implies (
        #[trigger] out[i].log[k]).index <= bound by {
            if i == at {
                let idx = out[at].log[k].index;
                assert(crate::snapshot_log::has_index(out[at].log, idx));
                assert(crate::snapshot_log::history(out[at].log).dom().contains(idx));
                if idx != index {
                    assert(crate::snapshot_log::has_index(before, idx));
                    let j = choose|j: int|
                        0 <= j < before.len() && (#[trigger] before[j]).index == idx;
                    assert(dir[at].log[j].index <= bound);
                }
            } else {
                assert(out[i] == dir[i]);
                assert(dir[i].log[k].index <= bound);
            }
        }
    }
}

/// Asking for an entry, or taking one out, leaves no snapshot after
/// `bound`.
pub proof fn lemma_entries_newest(dir: Seq<BusNameItemView>, name: (bool, Seq<char>), bound: int)
    requires
        newest(dir, bound),
    ensures
        newest(with_bus_name(dir, name), bound),
        newest(without_entry(dir, name), bound),
{
    let more = with_bus_name(dir, name);
    assert forall|i: int, k: int| 0 <= i < more.len() && 0 <= k < more[i].log.len() implies (
    #[trigger] more[i].log[k]).index <= bound by {
        if i < dir.len() {
            assert(more[i] == dir[i]);
            assert(dir[i].log[k].index <= bound);
        }
    }
    let fewer = without_entry(dir, name);
    if has_name(dir, name) {
        let at = position_of(dir, name);
        assert forall|i: int, k: int| 0 <= i < fewer.len() && 0 <= k < fewer[i].log.len() implies (
        #[trigger] fewer[i].log[k]).index <= bound by {
            let from = if i < at { i } else { i + 1 };
            assert(fewer[i] == dir[from]);
            assert(dir[from].log[k].index <= bound);
        }
    }
}

/// A message leaves no snapshot after its own receipt index: ownership is
/// dated at the message or, dated back, at the call that it answers, and
/// never ahead.
pub proof fn lemma_message_dates_nothing_ahead(
    dir: Seq<BusNameItemView>,
    message: MessageView,
    call: Option<MessageView>,
    bound: int,
)
    requires
        directory_wf(dir),
        newest(dir, bound),
        message.index() <= bound,
        call matches Some(c) ==> c.index() <= bound,
    ensures
        newest(after_message(dir, message, call).names, bound),
{
    let n = message.index();
    match message.header().message_type {
        MessageType::MethodCall => {
            if let Some(sender) = message.header().sender {
                lemma_entries_newest(dir, (true, sender), bound);
                let first = with_bus_name(dir, (true, sender));
                if let Some(destination) = message.header().destination_or_fallback() {
                    lemma_entries_newest(first, destination, bound);
                }
            }
        },
        MessageType::Signal => {
            if message.header().names_member(dbus_interface(), "NameOwnerChanged"@) {
                lemma_owner_change_dates_nothing_ahead(dir, message, bound);
            } else {
                let first = match message.header().sender {
                    Some(sender) => with_bus_name(dir, (true, sender)),
                    None => dir,
                };
                if let Some(sender) = message.header().sender {
                    lemma_entries_newest(dir, (true, sender), bound);
                }
                if let Some(destination) = message.header().destination_or_fallback() {
                    lemma_entries_newest(first, destination, bound);
                }
            }
        },
        _ => {
            if let Some(c) = call {
                lemma_reply_dates_nothing_ahead(dir, message, c, bound);
            }
        },
    }
}

/// A `NameOwnerChanged` signal leaves no snapshot after its own receipt
/// index.
pub proof fn lemma_owner_change_dates_nothing_ahead(
    dir: Seq<BusNameItemView>,
    message: MessageView,
    bound: int,
)
    requires
        directory_wf(dir),
        newest(dir, bound),
        message.index() <= bound,
    ensures
        newest(after_name_owner_changed(dir, message).names, bound),
{
    let n = message.index();
    let decoded = decoded_owner_change(
        message.event.body(),
        message.header().signature,
        message.event.endian_sig(),
    );
    if let Some(change) = decoded {
        if !(change.old_owner is None && change.new_owner is None) && !change.name.0 {
            let released = match change.old_owner {
                Some(owner) => without_wk_name(dir, (true, owner), change.name.1, n),
                None => dir,
            };
            if let Some(owner) = change.old_owner {
                lemma_without_wk_name(dir, (true, owner), change.name.1, n);
                lemma_without_wk_name_newest(dir, (true, owner), change.name.1, n, bound);
            }
            if let Some(owner) = change.new_owner {
                lemma_with_wk_name_newest(released, (true, owner), change.name.1, n, bound);
            }
        }
    }
}

/// A reply leaves no snapshot after its own receipt index.
pub proof fn lemma_reply_dates_nothing_ahead(
    dir: Seq<BusNameItemView>,
    reply: MessageView,
    call: MessageView,
    bound: int,
)
    requires
        directory_wf(dir),
        newest(dir, bound),
        reply.index() <= bound,
        call.index() <= bound,
    ensures
        newest(after_method_return(dir, reply, Some(call)).names, bound),
{
    let n = reply.index();
    let c = call.index();
    if call.header().names_member(dbus_interface(), "GetNameOwner"@) {
        if !(reply.header().message_type is Error) {
            let name = decoded_bus_name(
                call.event.body(),
                call.header().signature,
                call.event.endian_sig(),
            );
            let owner = decoded_unique_name(
                reply.event.body(),
                reply.header().signature,
                reply.event.endian_sig(),
            );
            if let Some(asked) = name {
                if let Some(given) = owner {
                    if !asked.0 {
                        lemma_with_wk_name_newest(dir, (true, given), asked.1, c, bound);
                    }
                }
            }
        }
    } else {
        let first = after_call_destination(dir, call, reply);
        if let Some(destination) = call.header().destination_or_fallback() {
            if gives_way(dir, destination) {
                lemma_entries_newest(dir, destination, bound);
                lemma_without_entry(dir, destination);
                let removed = without_entry(dir, destination);
                if let Some(sender) = reply.header().sender {
                    lemma_with_wk_name(removed, (true, sender), destination.1, n);
                    lemma_with_wk_name_newest(removed, (true, sender), destination.1, n, bound);
                    let claimed = with_wk_name(removed, (true, sender), destination.1, n);
                    lemma_with_wk_name(claimed, (true, sender), destination.1, c);
                    lemma_with_wk_name_newest(claimed, (true, sender), destination.1, c, bound);
                }
            }
        }
        if first.result is Ok {
            lemma_call_destination_keeps_wf(dir, call, reply);
            if let Some(destination) = reply.header().destination_or_fallback() {
                if !destination.0 {
                    if let Some(sender) = call.header().sender {
                        lemma_with_wk_name_newest(
                            first.names,
                            (true, sender),
                            destination.1,
                            n,
                            bound,
                        );
                    }
                }
            }
        }
    }
}

/// The first half of an ordinary reply keeps the directory well formed.
pub proof fn lemma_call_destination_keeps_wf(
    dir: Seq<BusNameItemView>,
    call: MessageView,
    reply: MessageView,
)
    requires
        directory_wf(dir),
    ensures
        directory_wf(after_call_destination(dir, call, reply).names),
{
    if let Some(destination) = call.header().destination_or_fallback() {
        if gives_way(dir, destination) {
            lemma_without_entry(dir, destination);
            let removed = without_entry(dir, destination);
            if let Some(sender) = reply.header().sender {
                lemma_with_wk_name(removed, (true, sender), destination.1, reply.index());
                let claimed = with_wk_name(removed, (true, sender), destination.1, reply.index());
                lemma_with_wk_name(claimed, (true, sender), destination.1, call.index());
            }
        }
    }
}

/// The answer of the bus daemon that `owner` holds `name` as of `index`
/// meets no claim of another entry.
pub open spec fn resolution_agrees(
    dir: Seq<BusNameItemView>,
    name: (bool, Seq<char>),
    owner: Seq<char>,
    index: int,
) -> bool {
    name.0 || unclaimed_elsewhere(dir, (true, owner), name.1, index)
}

/// The word of the bus daemon that a name went to a new owner at `index`
/// meets no claim of another entry, once the old owner has let go.
pub open spec fn owner_change_agrees(
    dir: Seq<BusNameItemView>,
    change: NameOwnerChangedView,
    index: int,
) -> bool {
    match change.new_owner {
        Some(owner) => change.name.0 || unclaimed_elsewhere(
            match change.old_owner {
                Some(old_owner) => without_wk_name(dir, (true, old_owner), change.name.1, index),
                None => dir,
            },
            (true, owner),
            change.name.1,
            index,
        ),
        None => true,
    }
}

/// What an ordinary reply shows of who holds which name meets no claim of
/// another entry: not as of the reply, and not as of the call.
pub open spec fn reply_agrees(dir: Seq<BusNameItemView>, call: MessageView, reply: MessageView) -> bool {
    if after_ordinary_reply(dir, call, reply).result is Err {
        true
    } else {
        let destination = call.header().destination_or_fallback().unwrap();
        let first = after_call_destination(dir, call, reply).names;
        let back = reply.header().destination_or_fallback().unwrap();
        &&& gives_way(dir, destination) ==> {
            let removed = without_entry(dir, destination);
            let owner = (true, reply.header().sender.unwrap());
            &&& unclaimed_elsewhere(removed, owner, destination.1, reply.index())
            &&& unclaimed_elsewhere(
                with_wk_name(removed, owner, destination.1, reply.index()),
                owner,
                destination.1,
                call.index(),
            )
        }
        &&& !back.0 ==> unclaimed_elsewhere(
            first,
            (true, call.header().sender.unwrap()),
            back.1,
            reply.index(),
        )
    }
}

/// What a message says of who holds which name meets no claim of another
/// entry, as of any index at which it shows.
pub open spec fn claims_agree(
    dir: Seq<BusNameItemView>,
    message: MessageView,
    call: Option<MessageView>,
) -> bool {
    match message.header().message_type {
        MessageType::MethodCall => true,
        MessageType::Signal => if message.header().names_member(
            dbus_interface(),
            "NameOwnerChanged"@,
        ) {
            match decoded_owner_change(
                message.event.body(),
                message.header().signature,
                message.event.endian_sig(),
            ) {
                Some(change) => change.old_owner is None && change.new_owner is None
                    || owner_change_agrees(dir, change, message.index()),
                None => true,
            }
        } else {
            true
        },
        _ => match call {
            None => true,
            Some(call) => if call.header().names_member(dbus_interface(), "GetNameOwner"@) {
                if message.header().message_type is Error {
                    true
                } else {
                    match (
                        decoded_bus_name(
                            call.event.body(),
                            call.header().signature,
                            call.event.endian_sig(),
                        ),
                        decoded_unique_name(
                            message.event.body(),
                            message.header().signature,
                            message.event.endian_sig(),
                        ),
                    ) {
                        (Some(name), Some(owner)) => resolution_agrees(
                            dir,
                            name,
                            owner,
                            call.index(),
                        ),
                        _ => true,
                    }
                }
            } else {
                reply_agrees(dir, call, message)
            },
        },
    }
}

/// A change of owner that agrees with the directory keeps owners unique.
pub proof fn lemma_owner_change_agrees(
    dir: Seq<BusNameItemView>,
    change: NameOwnerChangedView,
    index: int,
)
    requires
        directory_wf(dir),
        unique_owners(dir),
        owner_change_agrees(dir, change, index),
    ensures
        unique_owners(after_owner_change(dir, change, index).names),
{
    if !(change.old_owner is None && change.new_owner is None) && !change.name.0 {
        let released = match change.old_owner {
            Some(old_owner) => without_wk_name(dir, (true, old_owner), change.name.1, index),
            None => dir,
        };
        if let Some(old_owner) = change.old_owner {
            lemma_without_wk_name(dir, (true, old_owner), change.name.1, index);
            lemma_without_wk_name_unique(dir, (true, old_owner), change.name.1, index);
        }
        if let Some(owner) = change.new_owner {
            lemma_with_wk_name_unique(released, (true, owner), change.name.1, index);
        }
    }
}

/// An ordinary reply that agrees with the directory keeps owners unique.
pub proof fn lemma_reply_agrees(dir: Seq<BusNameItemView>, call: MessageView, reply: MessageView)
    requires
        directory_wf(dir),
        unique_owners(dir),
        reply_agrees(dir, call, reply),
    ensures
        unique_owners(after_ordinary_reply(dir, call, reply).names),
{
    if after_ordinary_reply(dir, call, reply).result is Ok {
        let destination = call.header().destination_or_fallback().unwrap();
        let first = after_call_destination(dir, call, reply).names;
        let back = reply.header().destination_or_fallback().unwrap();
        lemma_call_destination_keeps_wf(dir, call, reply);
        if gives_way(dir, destination) {
            let removed = without_entry(dir, destination);
            let owner = (true, reply.header().sender.unwrap());
            lemma_without_entry(dir, destination);
            lemma_without_entry_unique(dir, destination);
            lemma_with_wk_name(removed, owner, destination.1, reply.index());
            lemma_with_wk_name_unique(removed, owner, destination.1, reply.index());
            let claimed = with_wk_name(removed, owner, destination.1, reply.index());
            lemma_with_wk_name_unique(claimed, owner, destination.1, call.index());
        }
        if !back.0 {
            lemma_with_wk_name_unique(
                first,
                (true, call.header().sender.unwrap()),
                back.1,
                reply.index(),
            );
        }
    }
}

/// Owners stay unique under every message whose claims agree with the
/// directory: as of every receipt index every well-known name is still
/// held by at most one entry.
pub proof fn lemma_message_keeps_owners_unique(
    dir: Seq<BusNameItemView>,
    message: MessageView,
    call: Option<MessageView>,
)
    requires
        directory_wf(dir),
        unique_owners(dir),
        claims_agree(dir, message, call),
    ensures
        unique_owners(after_message(dir, message, call).names),
{
    match message.header().message_type {
        MessageType::MethodCall => {
            if let Some(sender) = message.header().sender {
                if let Some(destination) = message.header().destination_or_fallback() {
                    lemma_with_bus_name_unique(dir, (true, sender));
                    lemma_with_bus_name_unique(with_bus_name(dir, (true, sender)), destination);
                }
            }
        },
        MessageType::Signal => {
            if message.header().names_member(dbus_interface(), "NameOwnerChanged"@) {
                let decoded = decoded_owner_change(
                    message.event.body(),
                    message.header().signature,
                    message.event.endian_sig(),
                );
                if let Some(change) = decoded {
                    if !(change.old_owner is None && change.new_owner is None) {
                        lemma_owner_change_agrees(dir, change, message.index());
                    }
                }
            } else {
                let first = match message.header().sender {
                    Some(sender) => with_bus_name(dir, (true, sender)),
                    None => dir,
                };
                if let Some(sender) = message.header().sender {
                    lemma_with_bus_name_unique(dir, (true, sender));
                }
                if let Some(destination) = message.header().destination_or_fallback() {
                    lemma_with_bus_name_unique(first, destination);
                }
            }
        },
        _ => {
            if let Some(c) = call {
                if c.header().names_member(dbus_interface(), "GetNameOwner"@) {
                    if !(message.header().message_type is Error) {
                        let name = decoded_bus_name(
                            c.event.body(),
                            c.header().signature,
                            c.event.endian_sig(),
                        );
                        let owner = decoded_unique_name(
                            message.event.body(),
                            message.header().signature,
                            message.event.endian_sig(),
                        );
                        if let Some(asked) = name {
                            if let Some(given) = owner {
                                if !asked.0 {
                                    lemma_with_wk_name_unique(
                                        dir,
                                        (true, given),
                                        asked.1,
                                        c.index(),
                                    );
                                }
                            }
                        }
                    }
                } else {
                    lemma_reply_agrees(dir, c, message);
                }
            }
        },
    }
}

/// A claim does not mend owners that are not unique: what was held is
/// still held after it.
pub proof fn lemma_with_wk_name_keeps_conflict(
    dir: Seq<BusNameItemView>,
    name: (bool, Seq<char>),
    wk_name: Seq<char>,
    index: int,
)
    requires
        directory_wf(dir),
        !unique_owners(dir),
    ensures
        !unique_owners(with_wk_name(dir, name, wk_name, index)),
{
    let out = with_wk_name(dir, name, wk_name, index);
    let (n, x, i, j) = choose|n: int, x: Seq<char>, i: int, j: int|
        0 <= i < dir.len() && 0 <= j < dir.len() && #[trigger] holds(dir, i, x, n)
            && #[trigger] holds(dir, j, x, n) && i != j;
    lemma_with_wk_name(dir, name, wk_name, index);
    lemma_with_wk_name_holds(dir, name, wk_name, index, n);
    let at = position_of(out, name);
    assert(names_of(out, name, n) == as_of(out[at].log, n));
    assert(holds(out, i, x, n)) by {
        if has_name(dir, name) && i == position_of(dir, name) {
            assert(names_of(dir, name, n).contains(x));
            assert(names_of(out, name, n).contains(x));
        } else {
            assert(out[i] == dir[i]);
        }
    }
    assert(holds(out, j, x, n)) by {
        if has_name(dir, name) && j == position_of(dir, name) {
            assert(names_of(dir, name, n).contains(x));
            assert(names_of(out, name, n).contains(x));
        } else {
            assert(out[j] == dir[j]);
        }
    }
}

/// A message whose claims do not agree with the directory leaves a
/// well-known name with two holders as of some receipt index.
pub proof fn lemma_message_that_disagrees_breaks_uniqueness(
    dir: Seq<BusNameItemView>,
    message: MessageView,
    call: Option<MessageView>,
)
    requires
        directory_wf(dir),
        !claims_agree(dir, message, call),
    ensures
        !unique_owners(after_message(dir, message, call).names),
{
    if message.header().message_type is Signal {
        let change = decoded_owner_change(
            message.event.body(),
            message.header().signature,
            message.event.endian_sig(),
        ).unwrap();
        let index = message.index();
        let owner = (true, change.new_owner.unwrap());
        let released = match change.old_owner {
            Some(old_owner) => without_wk_name(dir, (true, old_owner), change.name.1, index),
            None => dir,
        };
        if let Some(old_owner) = change.old_owner {
            lemma_without_wk_name(dir, (true, old_owner), change.name.1, index);
        }
        lemma_with_wk_name_conflict(released, owner, change.name.1, index);
    } else {
        let c = call.unwrap();
        if c.header().names_member(dbus_interface(), "GetNameOwner"@) {
            let name = decoded_bus_name(
                c.event.body(),
                c.header().signature,
                c.event.endian_sig(),
            ).unwrap();
            let owner = decoded_unique_name(
                message.event.body(),
                message.header().signature,
                message.event.endian_sig(),
            ).unwrap();
            lemma_with_wk_name_conflict(dir, (true, owner), name.1, c.index());
        } else {
            let destination = c.header().destination_or_fallback().unwrap();
            let first = after_call_destination(dir, c, message).names;
            let back = message.header().destination_or_fallback().unwrap();
            lemma_call_destination_keeps_wf(dir, c, message);
            if gives_way(dir, destination) {
                let removed = without_entry(dir, destination);
                let owner = (true, message.header().sender.unwrap());
                let claimed = with_wk_name(removed, owner, destination.1, message.index());
                lemma_without_entry(dir, destination);
                lemma_with_wk_name(removed, owner, destination.1, message.index());
                if !unclaimed_elsewhere(removed, owner, destination.1, message.index()) {
                    lemma_with_wk_name_conflict(removed, owner, destination.1, message.index());
                    lemma_with_wk_name_keeps_conflict(claimed, owner, destination.1, c.index());
                } else if !unclaimed_elsewhere(claimed, owner, destination.1, c.index()) {
                    lemma_with_wk_name_conflict(claimed, owner, destination.1, c.index());
                }
            }
            if !back.0 {
                let holder = (true, c.header().sender.unwrap());
                if !unique_owners(first) {
                    lemma_with_wk_name_keeps_conflict(first, holder, back.1, message.index());
                } else {
                    lemma_with_wk_name_conflict(first, holder, back.1, message.index());
                }
            }
        }
    }
}

/// What a `NameOwnerChanged` signal does where the name goes from the one
/// entry that holds it to another, and the signal is newer than every
/// snapshot. From the signal on the new owner holds the name, and nobody
/// else; before the signal every entry holds what it held; owners stay
/// unique, so that at no index both the old and the new owner hold it.
pub proof fn lemma_name_owner_changed_moves_the_name(
    dir: Seq<BusNameItemView>,
    message: MessageView,
    wk_name: Seq<char>,
    old_owner: Seq<char>,
    new_owner: Seq<char>,
)
    requires
        directory_wf(dir),
        unique_owners(dir),
        newest(dir, message.index() - 1),
        old_owner != new_owner,
        decoded_owner_change(
            message.event.body(),
            message.header().signature,
            message.event.endian_sig(),
        ) == Some(
            NameOwnerChangedView {
                name: (false, wk_name),
                old_owner: Some(old_owner),
                new_owner: Some(new_owner),
            },
        ),
        names_of(dir, (true, old_owner), message.index() - 1).contains(wk_name),
    ensures
        after_name_owner_changed(dir, message).result is Ok,
        unique_owners(after_name_owner_changed(dir, message).names),
        has_name(after_name_owner_changed(dir, message).names, (true, new_owner)),
        forall|n: int, j: int|
            message.index() <= n && 0 <= j < after_name_owner_changed(dir, message).names.len() ==> (
            #[trigger] holds(after_name_owner_changed(dir, message).names, j, wk_name, n)
                <==> after_name_owner_changed(dir, message).names[j].name == (true, new_owner)),
        forall|n: int, name: (bool, Seq<char>)|
            n < message.index() ==> #[trigger] names_of(
                after_name_owner_changed(dir, message).names,
                name,
                n,
            ) == names_of(dir, name, n),
{
    let index = message.index();
    let a = (true, old_owner);
    let b = (true, new_owner);
    let out = after_name_owner_changed(dir, message).names;
    let released = without_wk_name(dir, a, wk_name, index);
    lemma_empty_log_holds_nothing(index - 1);
    assert(has_name(dir, a));
    let pa = position_of(dir, a);
    assert(holds(dir, pa, wk_name, index - 1));
    // no snapshot is dated after the one before the signal
    assert forall|i: int, k: int| 0 <= i < dir.len() && 0 <= k < dir[i].log.len() implies (
    #[trigger] dir[i].log[k]).index <= index by {
        assert(dir[i].log[k].index <= index - 1);
    }
    // so what an entry holds later is what it holds just before the signal
    assert forall|j: int, n: int| 0 <= j < dir.len() && index - 1 <= n implies #[trigger] as_of(
        dir[j].log,
        n,
    ) == as_of(dir[j].log, index - 1) by {
        let log = dir[j].log;
        assert(dir[j].wf());
        if has_index_between(log, index - 1, n) {
            let k = choose|k: int| 0 <= k < log.len() && index - 1 < (#[trigger] log[k]).index <= n;
            assert(dir[j].log[k].index <= index - 1);
        }
        lemma_as_of_unchanged(log, index - 1, n);
    }
    assert forall|j: int|
        0 <= j < dir.len() && dir[j].name != a && dir[j].name != b implies !#[trigger] holds(
        dir,
        j,
        wk_name,
        index,
    ) by {
        assert(as_of(dir[j].log, index) == as_of(dir[j].log, index - 1));
        if holds(dir, j, wk_name, index) {
            assert(holds(dir, j, wk_name, index - 1));
            assert(j == pa);
        }
    }
    lemma_owner_change_keeps_unique(dir, wk_name, old_owner, new_owner, index);
    lemma_without_wk_name(dir, a, wk_name, index);
    lemma_with_wk_name(released, b, wk_name, index);
    let pb = position_of(out, b);
    assert(0 <= pb < out.len() && out[pb].name == b);
    assert forall|n: int, j: int| index <= n && 0 <= j < out.len() implies (#[trigger] holds(
        out,
        j,
        wk_name,
        n,
    ) <==> out[j].name == b) by {
        lemma_owner_change_transfers(dir, wk_name, old_owner, new_owner, index, n);
        let log = log_of(dir, b);
        if has_index_between(log, index, n) {
            let k = choose|k: int| 0 <= k < log.len() && index < (#[trigger] log[k]).index <= n;
            let at = position_of(dir, b);
            assert(dir[at].log[k].index <= index - 1);
        }
        assert(names_of(out, b, n) == as_of(out[pb].log, n));
        assert(holds(out, pb, wk_name, n));
        if out[j].name == b {
            lemma_position(out, b, j);
        }
    }
    assert forall|n: int, name: (bool, Seq<char>)| n < index implies #[trigger] names_of(
        out,
        name,
        n,
    ) == names_of(dir, name, n) by {
        lemma_owner_change_transfers(dir, wk_name, old_owner, new_owner, index, n);
        lemma_without_wk_name_holds(dir, a, wk_name, index, n);
        lemma_with_wk_name_holds(released, b, wk_name, index, n);
        if name != a && name != b {
            assert(log_of(released, name) == log_of(dir, name));
            assert(log_of(out, name) == log_of(released, name));
        }
    }
}

} // verus!
