//! The mathematics of a history of snapshots: which well-known names a
//! connection held, noted at some receipt indices and looked up at any.

use vstd::prelude::*;

verus! {

/// One entry of a history: the complete set of well-known names held as of
/// `index`, in the order in which the set hands them out.
pub struct SnapshotView {
    pub index: int,
    pub names: Seq<Seq<char>>,
}

/// The entries stand by strictly increasing index, so no index occurs twice.
pub open spec fn increasing(log: Seq<SnapshotView>) -> bool {
    forall|i: int, j: int|
        0 <= i < j < log.len() ==> (#[trigger] log[i]).index < (#[trigger] log[j]).index
}

/// No snapshot of the history holds a name twice.
pub open spec fn duplicate_free(log: Seq<SnapshotView>) -> bool {
    forall|i: int| 0 <= i < log.len() ==> (#[trigger] log[i]).names.no_duplicates()
}

/// A history whose indices increase and whose snapshots are sets.
pub open spec fn well_formed(log: Seq<SnapshotView>) -> bool {
    increasing(log) && duplicate_free(log)
}

/// Whether the history holds a snapshot taken at exactly `index`.
pub open spec fn has_index(log: Seq<SnapshotView>, index: int) -> bool {
    exists|i: int| 0 <= i < log.len() && (#[trigger] log[i]).index == index
}

/// The history as a map from receipt index to the snapshot taken there.
pub open spec fn history(log: Seq<SnapshotView>) -> Map<int, Seq<Seq<char>>> {
    Map::new(
        |k: int| has_index(log, k),
        |k: int| log[choose|i: int| 0 <= i < log.len() && (#[trigger] log[i]).index == k].names,
    )
}

/// `k` is the greatest index at or before `n` at which `h` has a snapshot.
pub open spec fn latest_at(h: Map<int, Seq<Seq<char>>>, n: int, k: int) -> bool {
    &&& h.dom().contains(k)
    &&& k <= n
    &&& forall|j: int| #[trigger] h.dom().contains(j) && j <= n ==> j <= k
}

/// The names held as of `n`: the most recent snapshot at or before `n`, and
/// no names where there is none.
pub open spec fn names_as_of(h: Map<int, Seq<Seq<char>>>, n: int) -> Seq<Seq<char>> {
    if exists|k: int| latest_at(h, n, k) {
        h[choose|k: int| latest_at(h, n, k)]
    } else {
        Seq::empty()
    }
}

/// The names that a history gives as of `n`.
pub open spec fn as_of(log: Seq<SnapshotView>, n: int) -> Seq<Seq<char>> {
    names_as_of(history(log), n)
}

/// The names of the last snapshot, and no names in an empty history.
pub open spec fn last_names(log: Seq<SnapshotView>) -> Seq<Seq<char>> {
    if log.len() == 0 {
        Seq::empty()
    } else {
        log.last().names
    }
}

/// `names` with `name` at its end, unless it is there already.
pub open spec fn with_name(names: Seq<Seq<char>>, name: Seq<char>) -> Seq<Seq<char>> {
    if names.contains(name) {
        names
    } else {
        names.push(name)
    }
}

/// `names` without `name`: the last name takes its place.
pub open spec fn without_name(names: Seq<Seq<char>>, name: Seq<char>) -> Seq<Seq<char>> {
    if names.contains(name) {
        names.update(names.index_of(name), names.last()).drop_last()
    } else {
        names
    }
}

/// The names of `more` that `names` lacks, added to it in their order.
pub open spec fn with_names(names: Seq<Seq<char>>, more: Seq<Seq<char>>) -> Seq<Seq<char>>
    decreases more.len(),
{
    if more.len() == 0 {
        names
    } else {
        with_name(with_names(names, more.drop_last()), more.last())
    }
}

/// Every name that some snapshot holds, each once, in the order of first
/// appearance.
pub open spec fn all_names(log: Seq<SnapshotView>) -> Seq<Seq<char>>
    decreases log.len(),
{
    if log.len() == 0 {
        Seq::empty()
    } else {
        with_names(all_names(log.drop_last()), log.last().names)
    }
}

/// How many snapshots were taken before `index`.
pub open spec fn rank(log: Seq<SnapshotView>, index: int) -> int
    decreases log.len(),
{
    if log.len() == 0 {
        0
    } else {
        rank(log.drop_last(), index) + if log.last().index < index {
            1int
        } else {
            0int
        }
    }
}

/// The history with `names` as its snapshot at `index`: in place of the one
/// taken there, or as a new entry at its place in the order.
pub open spec fn store(log: Seq<SnapshotView>, index: int, names: Seq<Seq<char>>) -> Seq<
    SnapshotView,
> {
    let at = rank(log, index);
    let entry = SnapshotView { index, names };
    if at < log.len() && log[at].index == index {
        log.update(at, entry)
    } else {
        log.insert(at, entry)
    }
}

/// The history after `name` was claimed at `index`: the snapshot as of
/// `index` with the name added, stored at `index`.
pub open spec fn claim(log: Seq<SnapshotView>, index: int, name: Seq<char>) -> Seq<SnapshotView> {
    store(log, index, with_name(as_of(log, index), name))
}

/// The history after `name` was released at `index`: the snapshot as of
/// `index` without the name, stored at `index`.
pub open spec fn release(log: Seq<SnapshotView>, index: int, name: Seq<char>) -> Seq<
    SnapshotView,
> {
    store(log, index, without_name(as_of(log, index), name))
}

/// Some snapshot was taken after `from` and at or before `to`.
pub open spec fn has_index_between(log: Seq<SnapshotView>, from: int, to: int) -> bool {
    exists|i: int| 0 <= i < log.len() && from < (#[trigger] log[i]).index <= to
}

pub proof fn lemma_history_at(log: Seq<SnapshotView>, i: int)
    requires
        increasing(log),
        0 <= i < log.len(),
    ensures
        has_index(log, log[i].index),
        history(log).dom().contains(log[i].index),
        history(log)[log[i].index] == log[i].names,
{
    let k = log[i].index;
    assert(has_index(log, k));
    let c = choose|c: int| 0 <= c < log.len() && (#[trigger] log[c]).index == k;
    assert(c == i) by {
        if c < i {
            assert(log[c].index < log[i].index);
        } else if i < c {
            assert(log[i].index < log[c].index);
        }
    }
}

/// With a greatest index at or before `n`, the names as of `n` are those of
/// the snapshot taken there.
pub proof fn lemma_names_as_of(h: Map<int, Seq<Seq<char>>>, n: int, k: int)
    requires
        latest_at(h, n, k),
    ensures
        names_as_of(h, n) == h[k],
{
    let c = choose|c: int| latest_at(h, n, c);
    assert(latest_at(h, n, c));
    assert(c <= k && k <= c);
}

/// Before the first snapshot nothing is held.
pub proof fn lemma_names_as_of_nothing(h: Map<int, Seq<Seq<char>>>, n: int)
    requires
        forall|j: int| #[trigger] h.dom().contains(j) ==> j > n,
    ensures
        names_as_of(h, n) == Seq::<Seq<char>>::empty(),
{
    if exists|k: int| latest_at(h, n, k) {
        let c = choose|c: int| latest_at(h, n, c);
        assert(h.dom().contains(c));
    }
}

/// In an increasing history the snapshots before `index` are exactly the
/// first `rank` ones.
pub proof fn lemma_rank(log: Seq<SnapshotView>, index: int)
    requires
        increasing(log),
    ensures
        0 <= rank(log, index) <= log.len(),
        forall|i: int| 0 <= i < rank(log, index) ==> (#[trigger] log[i]).index < index,
        forall|i: int| rank(log, index) <= i < log.len() ==> (#[trigger] log[i]).index >= index,
    decreases log.len(),
{
    if log.len() > 0 {
        let init = log.drop_last();
        assert(increasing(init)) by {
            assert forall|i: int, j: int| 0 <= i < j < init.len() implies (#[trigger] init[i]).index
                < (#[trigger] init[j]).index by {
                assert(init[i] == log[i] && init[j] == log[j]);
            }
        }
        lemma_rank(init, index);
        let r = rank(init, index);
        assert forall|i: int| 0 <= i < init.len() implies init[i] == log[i] by {}
        if log.last().index < index {
            assert forall|i: int| 0 <= i < log.len() implies (#[trigger] log[i]).index < index by {
                if i < log.len() - 1 {
                    assert(log[i].index < log[log.len() - 1].index);
                }
            }
            assert(r == init.len()) by {
                if r < init.len() {
                    assert(init[r].index >= index);
                    assert(log[r].index < index);
                }
            }
        } else {
            assert forall|i: int| r <= i < log.len() implies (#[trigger] log[i]).index >= index by {
                if i < init.len() {
                    assert(init[i].index >= index);
                }
            }
            assert forall|i: int| 0 <= i < r implies (#[trigger] log[i]).index < index by {
                assert(init[i].index < index);
            }
        }
    }
}

/// The one place that parts an increasing history at `index` is its rank.
pub proof fn lemma_rank_is(log: Seq<SnapshotView>, index: int, at: int)
    requires
        increasing(log),
        0 <= at <= log.len(),
        forall|i: int| 0 <= i < at ==> (#[trigger] log[i]).index < index,
        forall|i: int| at <= i < log.len() ==> (#[trigger] log[i]).index >= index,
    ensures
        rank(log, index) == at,
{
    lemma_rank(log, index);
    let r = rank(log, index);
    if r < at {
        assert(log[r].index < index);
        assert(log[r].index >= index);
    } else if at < r {
        assert(log[at].index < index);
        assert(log[at].index >= index);
    }
}

/// Storing a snapshot keeps the history increasing and changes what the
/// history maps `index` to, and nothing else.
pub proof fn lemma_store(log: Seq<SnapshotView>, index: int, names: Seq<Seq<char>>)
    requires
        increasing(log),
    ensures
        increasing(store(log, index, names)),
        history(store(log, index, names)) == history(log).insert(index, names),
        duplicate_free(log) && names.no_duplicates() ==> duplicate_free(store(log, index, names)),
{
    lemma_rank(log, index);
    let at = rank(log, index);
    let entry = SnapshotView { index, names };
    let out = store(log, index, names);
    let replaced = at < log.len() && log[at].index == index;
    // where each entry of the old history went, and where each new one came from
    assert forall|i: int| 0 <= i < out.len() implies (#[trigger] out[i]) == (if i < at {
        log[i]
    } else if i == at {
        entry
    } else if replaced {
        log[i]
    } else {
        log[i - 1]
    }) by {}
    assert(increasing(out)) by {
        assert forall|i: int, j: int| 0 <= i < j < out.len() implies (#[trigger] out[i]).index < (
        #[trigger] out[j]).index by {
            let oi = if i < at || replaced { i } else { i - 1 };
            let oj = if j < at || replaced { j } else { j - 1 };
            if i != at && j != at {
                assert(log[oi].index < log[oj].index);
            } else if i == at {
                assert(log[oj].index >= index);
                if replaced {
                    assert(log[at].index < log[oj].index);
                } else if log[oj].index == index {
                    assert(at < log.len());
                    if oj > at {
                        assert(log[at].index < log[oj].index);
                        assert(log[at].index >= index);
                    }
                }
            } else {
                assert(log[oi].index < index);
            }
        }
    }
    let h = history(log).insert(index, names);
    let g = history(out);
    assert forall|k: int| g.dom().contains(k) <==> h.dom().contains(k) by {
        if g.dom().contains(k) {
            let i = choose|i: int| 0 <= i < out.len() && (#[trigger] out[i]).index == k;
            if i != at {
                let oi = if i < at || replaced { i } else { i - 1 };
                assert(log[oi].index == k);
                assert(has_index(log, k));
            }
        }
        if h.dom().contains(k) {
            if k == index {
                assert(out[at].index == k);
                assert(has_index(out, k));
            } else {
                let oi = choose|i: int| 0 <= i < log.len() && (#[trigger] log[i]).index == k;
                let i = if oi < at || replaced { oi } else { oi + 1 };
                assert(out[i].index == k);
                assert(has_index(out, k));
            }
        }
    }
    assert forall|k: int| g.dom().contains(k) implies g[k] == h[k] by {
        let i = choose|i: int| 0 <= i < out.len() && (#[trigger] out[i]).index == k;
        lemma_history_at(out, i);
        if i != at {
            let oi = if i < at || replaced { i } else { i - 1 };
            assert(log[oi] == out[i]);
            lemma_history_at(log, oi);
        }
    }
    assert(g =~= h);
    if duplicate_free(log) && names.no_duplicates() {
        assert forall|i: int| 0 <= i < out.len() implies (#[trigger] out[i]).names.no_duplicates() by {
            if i != at {
                let oi = if i < at || replaced { i } else { i - 1 };
                assert(log[oi] == out[i]);
            }
        }
    }
}

/// The names as of `n` are those of the last snapshot taken at or before
/// `n`, which is the one before the rank of `n + 1`.
pub proof fn lemma_as_of(log: Seq<SnapshotView>, n: int)
    requires
        increasing(log),
    ensures
        0 <= rank(log, n + 1) <= log.len(),
        rank(log, n + 1) > 0 ==> latest_at(history(log), n, log[rank(log, n + 1) - 1].index)
            && as_of(log, n) == log[rank(log, n + 1) - 1].names,
        rank(log, n + 1) == 0 ==> as_of(log, n) == Seq::<Seq<char>>::empty() && forall|j: int| #[trigger]
            history(log).dom().contains(j) ==> j > n,
        duplicate_free(log) ==> as_of(log, n).no_duplicates(),
{
    lemma_rank(log, n + 1);
    let p = rank(log, n + 1);
    let h = history(log);
    if p > 0 {
        let k = log[p - 1].index;
        lemma_history_at(log, p - 1);
        assert forall|j: int| #[trigger] h.dom().contains(j) && j <= n implies j <= k by {
            let i = choose|i: int| 0 <= i < log.len() && (#[trigger] log[i]).index == j;
            if i >= p {
                assert(log[i].index >= n + 1);
            } else if i < p - 1 {
                assert(log[i].index < log[p - 1].index);
            }
        }
        lemma_names_as_of(h, n, k);
    } else {
        assert forall|j: int| #[trigger] h.dom().contains(j) implies j > n by {
            let i = choose|i: int| 0 <= i < log.len() && (#[trigger] log[i]).index == j;
            assert(log[i].index >= n + 1);
        }
        lemma_names_as_of_nothing(h, n);
    }
}

/// Where no snapshot was taken after `from` and at or before `to`, the names
/// as of both are the same.
pub proof fn lemma_as_of_unchanged(log: Seq<SnapshotView>, from: int, to: int)
    requires
        increasing(log),
        from <= to,
        !has_index_between(log, from, to),
    ensures
        as_of(log, to) == as_of(log, from),
{
    lemma_rank(log, from + 1);
    let p = rank(log, from + 1);
    assert forall|i: int| p <= i < log.len() implies (#[trigger] log[i]).index >= to + 1 by {
        assert(log[i].index >= from + 1);
    }
    lemma_rank_is(log, to + 1, p);
    lemma_as_of(log, from);
    lemma_as_of(log, to);
}

/// What storing a snapshot at `index` does to a lookup: as of an `n` from
/// `index` up to the next snapshot the stored names are held; as of any
/// other `n` what was held before.
pub proof fn lemma_as_of_store(log: Seq<SnapshotView>, index: int, names: Seq<Seq<char>>, n: int)
    requires
        increasing(log),
    ensures
        as_of(store(log, index, names), n) == if n < index || has_index_between(log, index, n) {
            as_of(log, n)
        } else {
            names
        },
{
    lemma_store(log, index, names);
    let h = history(log);
    let g = history(store(log, index, names));
    lemma_as_of(log, n);
    let p = rank(log, n + 1);
    if n < index {
        if p > 0 {
            let k = log[p - 1].index;
            assert(latest_at(g, n, k));
            lemma_names_as_of(g, n, k);
        } else {
            assert forall|j: int| #[trigger] g.dom().contains(j) implies j > n by {
                if j != index {
                    assert(h.dom().contains(j));
                }
            }
            lemma_names_as_of_nothing(g, n);
        }
    } else if has_index_between(log, index, n) {
        let i = choose|i: int| 0 <= i < log.len() && index < (#[trigger] log[i]).index <= n;
        lemma_rank(log, n + 1);
        assert(p > i) by {
            if p <= i {
                assert(log[i].index >= n + 1);
            }
        }
        let k = log[p - 1].index;
        assert(k > index) by {
            if i < p - 1 {
                assert(log[i].index < log[p - 1].index);
            }
        }
        assert(latest_at(g, n, k));
        lemma_names_as_of(g, n, k);
    } else {
        assert forall|j: int| #[trigger] g.dom().contains(j) && j <= n implies j <= index by {
            if j > index {
                let i = choose|i: int| 0 <= i < log.len() && (#[trigger] log[i]).index == j;
                assert(index < log[i].index <= n);
            }
        }
        assert(latest_at(g, n, index));
        lemma_names_as_of(g, n, index);
    }
}

/// Adding a name keeps a set a set, and adds that name and no other.
pub proof fn lemma_with_name(names: Seq<Seq<char>>, name: Seq<char>)
    requires
        names.no_duplicates(),
    ensures
        with_name(names, name).no_duplicates(),
        forall|x: Seq<char>| #[trigger]
            with_name(names, name).contains(x) <==> names.contains(x) || x == name,
{
    let out = with_name(names, name);
    if !names.contains(name) {
        assert forall|i: int, j: int| 0 <= i < out.len() && 0 <= j < out.len() && i != j implies out[i]
            != out[j] by {
            if i == names.len() {
                assert(names[j] == out[j]);
            } else if j == names.len() {
                assert(names[i] == out[i]);
            }
        }
        assert(out[names.len() as int] == name);
        assert forall|x: Seq<char>| #[trigger] out.contains(x) <==> names.contains(x) || x == name by {
            if out.contains(x) {
                let i = choose|i: int| 0 <= i < out.len() && out[i] == x;
                if i < names.len() {
                    assert(names[i] == x);
                }
            }
            if names.contains(x) {
                let i = choose|i: int| 0 <= i < names.len() && names[i] == x;
                assert(out[i] == x);
            }
        }
    }
}

/// Taking a name out keeps a set a set, and takes out that name and no
/// other.
pub proof fn lemma_without_name(names: Seq<Seq<char>>, name: Seq<char>)
    requires
        names.no_duplicates(),
    ensures
        without_name(names, name).no_duplicates(),
        forall|x: Seq<char>| #[trigger]
            without_name(names, name).contains(x) <==> names.contains(x) && x != name,
{
    let out = without_name(names, name);
    if names.contains(name) {
        let at = names.index_of(name);
        let last = names.len() - 1;
        assert(0 <= at <= last && names[at] == name);
        assert forall|i: int| 0 <= i < out.len() implies #[trigger] out[i] == (if i == at {
            names[last]
        } else {
            names[i]
        }) by {}
        assert forall|x: Seq<char>| #[trigger] out.contains(x) <==> names.contains(x) && x != name by {
            if out.contains(x) {
                let i = choose|i: int| 0 <= i < out.len() && out[i] == x;
                if i == at {
                    assert(names[last] == x);
                } else {
                    assert(names[i] == x);
                }
            }
            if names.contains(x) && x != name {
                let i = choose|i: int| 0 <= i < names.len() && names[i] == x;
                if i == last {
                    assert(out[at] == x);
                } else {
                    assert(out[i] == x);
                }
            }
        }
    } else {
        assert forall|x: Seq<char>| #[trigger] out.contains(x) <==> names.contains(x) && x != name by {}
    }
}

/// Adding several names keeps a set a set, and adds those names and no
/// others.
pub proof fn lemma_with_names(names: Seq<Seq<char>>, more: Seq<Seq<char>>)
    requires
        names.no_duplicates(),
    ensures
        with_names(names, more).no_duplicates(),
        forall|x: Seq<char>| #[trigger]
            with_names(names, more).contains(x) <==> names.contains(x) || more.contains(x),
    decreases more.len(),
{
    if more.len() > 0 {
        let init = more.drop_last();
        lemma_with_names(names, init);
        let mid = with_names(names, init);
        lemma_with_name(mid, more.last());
        let out = with_names(names, more);
        assert forall|x: Seq<char>| #[trigger] out.contains(x) <==> names.contains(x) || more.contains(
            x,
        ) by {
            assert(out.contains(x) <==> mid.contains(x) || x == more.last());
            assert(mid.contains(x) <==> names.contains(x) || init.contains(x));
            if init.contains(x) {
                let i = choose|i: int| 0 <= i < init.len() && init[i] == x;
                assert(more[i] == x);
            }
            if more.contains(x) {
                let i = choose|i: int| 0 <= i < more.len() && more[i] == x;
                if i < init.len() {
                    assert(init[i] == x);
                } else {
                    assert(x == more.last());
                }
            }
            assert(more[more.len() - 1] == more.last());
        }
    }
}

/// The names of all snapshots together are a set, and hold exactly what some
/// snapshot holds.
pub proof fn lemma_all_names(log: Seq<SnapshotView>)
    ensures
        all_names(log).no_duplicates(),
        forall|x: Seq<char>| #[trigger]
            all_names(log).contains(x) <==> exists|i: int|
                0 <= i < log.len() && (#[trigger] log[i]).names.contains(x),
    decreases log.len(),
{
    if log.len() > 0 {
        let init = log.drop_last();
        lemma_all_names(init);
        lemma_with_names(all_names(init), log.last().names);
        let out = all_names(log);
        assert forall|x: Seq<char>| #[trigger] out.contains(x) <==> exists|i: int|
            0 <= i < log.len() && (#[trigger] log[i]).names.contains(x) by {
            assert(out.contains(x) <==> all_names(init).contains(x) || log.last().names.contains(x));
            if all_names(init).contains(x) {
                let i = choose|i: int| 0 <= i < init.len() && (#[trigger] init[i]).names.contains(x);
                assert(log[i].names.contains(x));
            }
            if log.last().names.contains(x) {
                assert(log[log.len() - 1].names.contains(x));
            }
            if exists|i: int| 0 <= i < log.len() && (#[trigger] log[i]).names.contains(x) {
                let i = choose|i: int| 0 <= i < log.len() && (#[trigger] log[i]).names.contains(x);
                if i < init.len() {
                    assert(init[i].names.contains(x));
                }
            }
        }
    } else {
        assert forall|x: Seq<char>| #[trigger] all_names(log).contains(x) <==> exists|i: int|
            0 <= i < log.len() && (#[trigger] log[i]).names.contains(x) by {}
    }
}

/// Claiming a name keeps a history well formed. As of an `n` from `index` up
/// to the next snapshot the name is then held beside what was held before;
/// as of any other `n` nothing changes.
pub proof fn lemma_claim(log: Seq<SnapshotView>, index: int, name: Seq<char>, n: int)
    requires
        well_formed(log),
    ensures
        well_formed(claim(log, index, name)),
        as_of(claim(log, index, name), n) == if n < index || has_index_between(log, index, n) {
            as_of(log, n)
        } else {
            with_name(as_of(log, n), name)
        },
{
    lemma_as_of(log, index);
    lemma_with_name(as_of(log, index), name);
    lemma_store(log, index, with_name(as_of(log, index), name));
    lemma_as_of_store(log, index, with_name(as_of(log, index), name), n);
    if !(n < index || has_index_between(log, index, n)) {
        lemma_as_of_unchanged(log, index, n);
    }
}

/// Releasing a name keeps a history well formed. As of an `n` from `index`
/// up to the next snapshot the name is then not held, and what else was held
/// still is; as of any other `n` nothing changes.
pub proof fn lemma_release(log: Seq<SnapshotView>, index: int, name: Seq<char>, n: int)
    requires
        well_formed(log),
    ensures
        well_formed(release(log, index, name)),
        as_of(release(log, index, name), n) == if n < index || has_index_between(log, index, n) {
            as_of(log, n)
        } else {
            without_name(as_of(log, n), name)
        },
{
    lemma_as_of(log, index);
    lemma_without_name(as_of(log, index), name);
    lemma_store(log, index, without_name(as_of(log, index), name));
    lemma_as_of_store(log, index, without_name(as_of(log, index), name), n);
    if !(n < index || has_index_between(log, index, n)) {
        lemma_as_of_unchanged(log, index, n);
    }
}

} // verus!
