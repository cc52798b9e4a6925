//! One entry of the directory of bus names: a name, and the history of the
//! well-known names that the connection behind it held.

use crate::bus_name::BusName;
use crate::message::ReceiveIndex;
use crate::snapshot_log::{
    all_names, as_of, claim, has_index, increasing, last_names, lemma_as_of,
    lemma_rank, lemma_rank_is, lemma_store, lemma_with_name, lemma_without_name, rank, release,
    store, well_formed, with_names, SnapshotView,
};
use crate::wk_name_set::{
    empty_set, set_clone, set_get, set_insert, set_len, set_swap_remove, wk_name_seq,
};
use indexmap::IndexSet;
use vstd::prelude::*;

verus! {

/// The point at which to look up well-known names.
#[derive(Debug, Clone, Copy, PartialEq, Eq)]
pub enum LookupPoint {
    /// Every name held at any index.
    All,
    /// The names held as of the given index.
    Index(ReceiveIndex),
    /// The names of the last snapshot.
    Last,
}

impl From<ReceiveIndex> for LookupPoint {
    fn from(receive_index: ReceiveIndex) -> (r: Self) {
        LookupPoint::Index(receive_index)
    }
}

impl vstd::std_specs::convert::FromSpecImpl<ReceiveIndex> for LookupPoint {
    open spec fn obeys_from_spec() -> bool {
        true
    }

    open spec fn from_spec(receive_index: ReceiveIndex) -> Self {
        LookupPoint::Index(receive_index)
    }
}

/// The set of well-known names held as of one receipt index.
#[derive(Debug)]
struct Snapshot {
    index: ReceiveIndex,
    wk_names: IndexSet<String>,
}

impl View for Snapshot {
    type V = SnapshotView;

    closed spec fn view(&self) -> SnapshotView {
        SnapshotView { index: self.index.0 as int, names: wk_name_seq(self.wk_names) }
    }
}

/// A bus name with the history of the well-known names held under it.
#[derive(Debug)]
pub struct BusNameItem {
    name: BusName,
    /// By strictly increasing index.
    wk_name_log: Vec<Snapshot>,
}

/// What a [`BusNameItem`] stands for: its name, and its snapshots by
/// increasing index.
pub struct BusNameItemView {
    pub name: (bool, Seq<char>),
    pub log: Seq<SnapshotView>,
}

impl BusNameItemView {
    /// The names that a lookup gives.
    pub open spec fn wk_names(self, lookup_point: LookupPoint) -> Seq<Seq<char>> {
        match lookup_point {
            LookupPoint::All => all_names(self.log),
            LookupPoint::Index(receive_index) => as_of(self.log, receive_index.0 as int),
            LookupPoint::Last => last_names(self.log),
        }
    }

    /// Indices increase along the history, and no snapshot holds a name
    /// twice.
    pub open spec fn wf(self) -> bool {
        well_formed(self.log)
    }
}

impl View for BusNameItem {
    type V = BusNameItemView;

    closed spec fn view(&self) -> BusNameItemView {
        BusNameItemView {
            name: self.name@,
            log: self.wk_name_log@.map_values(|snapshot: Snapshot| snapshot@),
        }
    }
}

impl BusNameItem {
    /// The history is well formed, and each index fits a receipt index.
    pub open spec fn wf(&self) -> bool {
        &&& self@.wf()
        &&& forall|i: int|
            0 <= i < self@.log.len() ==> 0 <= (#[trigger] self@.log[i]).index <= u32::MAX
    }

    /// An entry for `name` with an empty history.
    pub fn new(name: BusName) -> (item: Self)
        ensures
            item.wf(),
            item@.name == name@,
            item@.log == Seq::<SnapshotView>::empty(),
    {
        let item = BusNameItem { name, wk_name_log: Vec::new() };
        assert(item@.log =~= Seq::<SnapshotView>::empty());
        item
    }

    pub fn name(&self) -> (name: &BusName)
        ensures
            name@ == self@.name,
    {
        &self.name
    }

    /// How many snapshots were taken before `index`, found by halving the
    /// part of the history in which the answer lies.
    fn count_before(&self, index: u32) -> (at: usize)
        requires
            self.wf(),
        ensures
            at == rank(self@.log, index as int),
            at <= self.wk_name_log.len(),
    {
        let mut low: usize = 0;
        let mut high: usize = self.wk_name_log.len();
        while low < high
            invariant
                low <= high <= self.wk_name_log.len(),
                self.wf(),
                self@.log.len() == self.wk_name_log.len(),
                forall|i: int| 0 <= i < low ==> (#[trigger] self@.log[i]).index < index,
                forall|i: int| high <= i < self@.log.len() ==> (#[trigger] self@.log[i]).index >= index,
            decreases high - low,
        {
            let middle = low + (high - low) / 2;
            assert(self@.log[middle as int] == self.wk_name_log[middle as int]@);
            if self.wk_name_log[middle].index.0 < index {
                proof {
                    assert forall|i: int| 0 <= i < middle + 1 implies (#[trigger] self@.log[i]).index
                        < index by {
                        if i < middle {
                            assert(self@.log[i].index < self@.log[middle as int].index);
                        }
                    }
                }
                low = middle + 1;
            } else {
                proof {
                    assert forall|i: int| middle <= i < self@.log.len() implies (
                    #[trigger] self@.log[i]).index >= index by {
                        if middle < i {
                            assert(self@.log[middle as int].index < self@.log[i].index);
                        }
                    }
                }
                high = middle;
            }
        }
        proof {
            lemma_rank_is(self@.log, index as int, low as int);
        }
        low
    }

    /// The well-known names at the given lookup point.
    pub fn wk_names(&self, lookup_point: LookupPoint) -> (names: IndexSet<String>)
        requires
            self.wf(),
        ensures
            wk_name_seq(names) == self@.wk_names(lookup_point),
            wk_name_seq(names).no_duplicates(),
    {
        match lookup_point {
            LookupPoint::All => self.all_wk_names(),
            LookupPoint::Index(receive_index) => {
                proof {
                    lemma_as_of(self@.log, receive_index.0 as int);
                }
                if receive_index.0 == u32::MAX {
                    // every snapshot was taken at or before the last index
                    proof {
                        lemma_rank_is(
                            self@.log,
                            receive_index.0 as int + 1,
                            self@.log.len() as int,
                        );
                    }
                    self.last_wk_names()
                } else {
                    let at = self.count_before(receive_index.0 + 1);
                    if at == 0 {
                        empty_set()
                    } else {
                        assert(self@.log[at - 1] == self.wk_name_log[at - 1]@);
                        set_clone(&self.wk_name_log[at - 1].wk_names)
                    }
                }
            },
            LookupPoint::Last => self.last_wk_names(),
        }
    }

    /// The names of the last snapshot.
    fn last_wk_names(&self) -> (names: IndexSet<String>)
        requires
            self.wf(),
        ensures
            wk_name_seq(names) == last_names(self@.log),
            wk_name_seq(names).no_duplicates(),
    {
        let len = self.wk_name_log.len();
        if len == 0 {
            empty_set()
        } else {
            assert(self@.log[len - 1] == self.wk_name_log[len - 1]@);
            set_clone(&self.wk_name_log[len - 1].wk_names)
        }
    }

    /// Every name of every snapshot, each once.
    fn all_wk_names(&self) -> (names: IndexSet<String>)
        requires
            self.wf(),
        ensures
            wk_name_seq(names) == all_names(self@.log),
            wk_name_seq(names).no_duplicates(),
    {
        let mut names = empty_set();
        let mut i: usize = 0;
        assert(self@.log.subrange(0, 0) =~= Seq::<SnapshotView>::empty());
        while i < self.wk_name_log.len()
            invariant
                i <= self.wk_name_log.len(),
                self@.log.len() == self.wk_name_log.len(),
                wk_name_seq(names) == all_names(self@.log.subrange(0, i as int)),
                wk_name_seq(names).no_duplicates(),
            decreases self.wk_name_log.len() - i,
        {
            let ghost before = wk_name_seq(names);
            let ghost more = self@.log[i as int].names;
            assert(self@.log[i as int] == self.wk_name_log[i as int]@);
            let snapshot = &self.wk_name_log[i].wk_names;
            let count = set_len(snapshot);
            let mut j: usize = 0;
            assert(more.subrange(0, 0) =~= Seq::<Seq<char>>::empty());
            while j < count
                invariant
                    j <= count,
                    count == more.len(),
                    more == wk_name_seq(*snapshot),
                    wk_name_seq(names) == with_names(before, more.subrange(0, j as int)),
                    wk_name_seq(names).no_duplicates(),
                decreases count - j,
            {
                let name = set_get(snapshot, j);
                proof {
                    lemma_with_name(wk_name_seq(names), more[j as int]);
                    assert(more.subrange(0, j as int + 1).drop_last() =~= more.subrange(0, j as int));
                }
                match name {
                    Some(name) => {
                        set_insert(&mut names, name.clone());
                    },
                    None => {},
                }
                j += 1;
            }
            proof {
                assert(more.subrange(0, count as int) =~= more);
                assert(self@.log.subrange(0, i as int + 1).drop_last() =~= self@.log.subrange(
                    0,
                    i as int,
                ));
            }
            i += 1;
        }
        assert(self@.log.subrange(0, i as int) =~= self@.log);
        names
    }

    /// Puts `wk_names` down as the snapshot at `receive_index`, in place of
    /// one taken there before.
    fn store(&mut self, receive_index: ReceiveIndex, wk_names: IndexSet<String>)
        requires
            old(self).wf(),
            wk_name_seq(wk_names).no_duplicates(),
        ensures
            final(self).wf(),
            final(self)@.name == old(self)@.name,
            final(self)@.log == store(old(self)@.log, receive_index.0 as int, wk_name_seq(wk_names)),
    {
        let at = self.count_before(receive_index.0);
        let ghost before = self@.log;
        let ghost entry = SnapshotView { index: receive_index.0 as int, names: wk_name_seq(wk_names) };
        proof {
            lemma_store(before, receive_index.0 as int, wk_name_seq(wk_names));
        }
        if at < self.wk_name_log.len() && self.wk_name_log[at].index.0 == receive_index.0 {
            assert(before[at as int] == self.wk_name_log[at as int]@);
            self.wk_name_log[at].wk_names = wk_names;
            assert(self@.log =~= before.update(at as int, entry));
        } else {
            proof {
                if at < self.wk_name_log.len() {
                    assert(before[at as int] == self.wk_name_log[at as int]@);
                }
            }
            self.wk_name_log.insert(at, Snapshot { index: receive_index, wk_names });
            assert(self@.log =~= before.insert(at as int, entry));
        }
        proof {
            let after = self@.log;
            assert forall|i: int| 0 <= i < after.len() implies 0 <= (#[trigger] after[i]).index
                <= u32::MAX by {
                let from = if i < at as int {
                    i
                } else if after.len() == before.len() {
                    i
                } else {
                    i - 1
                };
                if i != at as int {
                    assert(after[i] == before[from]);
                }
            }
        }
    }

    /// Whether a snapshot was taken at exactly `receive_index`.
    pub fn has_snapshot_at(&self, receive_index: ReceiveIndex) -> (found: bool)
        requires
            self.wf(),
        ensures
            found == has_index(self@.log, receive_index.0 as int),
    {
        let at = self.count_before(receive_index.0);
        proof {
            lemma_rank(self@.log, receive_index.0 as int);
        }
        if at < self.wk_name_log.len() {
            assert(self@.log[at as int] == self.wk_name_log[at as int]@);
            let found = self.wk_name_log[at].index.0 == receive_index.0;
            proof {
                if !found && has_index(self@.log, receive_index.0 as int) {
                    let i = choose|i: int|
                        0 <= i < self@.log.len() && (#[trigger] self@.log[i]).index
                            == receive_index.0 as int;
                    if i > at {
                        assert(self@.log[at as int].index < self@.log[i].index);
                    }
                }
            }
            found
        } else {
            false
        }
    }

    /// Adds a snapshot to the history. The history must not hold one for the
    /// same index yet.
    pub fn insert_wk_name_log(&mut self, receive_index: ReceiveIndex, wk_names: IndexSet<String>)
        requires
            old(self).wf(),
            wk_name_seq(wk_names).no_duplicates(),
            !has_index(old(self)@.log, receive_index.0 as int),
        ensures
            final(self).wf(),
            final(self)@.name == old(self)@.name,
            final(self)@.log == store(old(self)@.log, receive_index.0 as int, wk_name_seq(wk_names)),
    {
        self.store(receive_index, wk_names)
    }

    /// Notes that `wk_name` is held from `receive_index` on: the names as of
    /// that index, with this one added, become the snapshot at that index.
    pub fn claim_wk_name(&mut self, receive_index: ReceiveIndex, wk_name: &String)
        requires
            old(self).wf(),
        ensures
            final(self).wf(),
            final(self)@.name == old(self)@.name,
            final(self)@.log == claim(old(self)@.log, receive_index.0 as int, wk_name@),
    {
        let mut wk_names = self.wk_names(LookupPoint::Index(receive_index));
        proof {
            lemma_with_name(wk_name_seq(wk_names), wk_name@);
        }
        set_insert(&mut wk_names, wk_name.clone());
        self.store(receive_index, wk_names);
    }

    /// Notes that `wk_name` is no longer held from `receive_index` on: the
    /// names as of that index, without this one, become the snapshot at that
    /// index.
    pub fn release_wk_name(&mut self, receive_index: ReceiveIndex, wk_name: &String)
        requires
            old(self).wf(),
        ensures
            final(self).wf(),
            final(self)@.name == old(self)@.name,
            final(self)@.log == release(old(self)@.log, receive_index.0 as int, wk_name@),
    {
        let mut wk_names = self.wk_names(LookupPoint::Index(receive_index));
        let ghost before = wk_name_seq(wk_names);
        proof {
            lemma_without_name(before, wk_name@);
        }
        let removed = set_swap_remove(&mut wk_names, wk_name);
        proof {
            if removed {
                let i = choose|i: int|
                    0 <= i < before.len() && before[i] == wk_name@ && wk_name_seq(wk_names)
                        == before.update(i, before.last()).drop_last();
                let at = before.index_of(wk_name@);
                assert(before[at] == wk_name@);
                assert(i == at);
            }
        }
        self.store(receive_index, wk_names);
    }
}

} // verus!
