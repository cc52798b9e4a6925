//! The bus names that the messages shown use: a part of the directory, in
//! its order.

use crate::bus_name::{contains_name, holds_name, name_set, BusName};
use crate::bus_name_item::{BusNameItem, BusNameItemView, LookupPoint};
use crate::bus_name_list::BusNameList;
use crate::directory::{has_name, position_of};
use crate::message::ReceiveIndex;
use crate::projection::{in_use, lemma_names_in_use_before, names_in_use_before};
use crate::snapshot_log::all_names;
use crate::wk_name_set::{set_contains, set_get, set_len, wk_name_seq};
use vstd::prelude::*;

verus! {

/// The entries of the directory that are shown, by their positions in the
/// directory.
pub struct FilteredBusNameModel {
    shown: Vec<usize>,
}

impl View for FilteredBusNameModel {
    type V = Seq<usize>;

    closed spec fn view(&self) -> Seq<usize> {
        self.shown@
    }
}

/// Whether one of the names used is the name of the entry, or a well-known
/// name that the entry held at some time.
fn entry_in_use(item: &BusNameItem, used: &Vec<BusName>) -> (r: bool)
    requires
        item.wf(),
    ensures
        r == (holds_name(used@, item@.name) || exists|k: int|
            0 <= k < all_names(item@.log).len() && holds_name(
                used@,
                (false, #[trigger] all_names(item@.log)[k]),
            )),
{
    if contains_name(used, item.name()) {
        return true;
    }
    let wk_names = item.wk_names(LookupPoint::All);
    let count = set_len(&wk_names);
    let mut k: usize = 0;
    while k < count
        invariant
            k <= count,
            count == all_names(item@.log).len(),
            wk_name_seq(wk_names) == all_names(item@.log),
            forall|j: int|
                0 <= j < k ==> !holds_name(used@, (false, #[trigger] all_names(item@.log)[j])),
        decreases count - k,
    {
        match set_get(&wk_names, k) {
            Some(wk_name) => {
                if contains_name(used, &BusName::WellKnown(wk_name.clone())) {
                    return true;
                }
            },
            None => {},
        }
        k += 1;
    }
    false
}

impl FilteredBusNameModel {
    /// The positions are those of entries of `dir`, in increasing order.
    pub open spec fn fits(&self, dir: Seq<BusNameItemView>) -> bool {
        &&& forall|k: int| 0 <= k < self@.len() ==> (#[trigger] self@[k]) < dir.len()
        &&& forall|j: int, k: int|
            0 <= j < k < self@.len() ==> (#[trigger] self@[j]) < (#[trigger] self@[k])
    }

    /// A model that shows nothing.
    pub fn new() -> (model: Self)
        ensures
            model@ == Seq::<usize>::empty(),
    {
        FilteredBusNameModel { shown: Vec::new() }
    }

    /// How many entries are shown.
    pub fn n_items(&self) -> (n: usize)
        ensures
            n == self@.len(),
    {
        self.shown.len()
    }

    /// Shows the entries of the directory that are in use: those with one
    /// of the names used as their name or among the well-known names they
    /// held at some time.
    pub fn set_filter(&mut self, bus_name_list: &BusNameList, used: &Vec<BusName>)
        requires
            bus_name_list.wf(),
        ensures
            final(self)@ == names_in_use_before(
                bus_name_list@,
                name_set(used@),
                bus_name_list@.len() as int,
            ),
            final(self).fits(bus_name_list@),
    {
        let count = bus_name_list.n_items();
        let ghost dir = bus_name_list@;
        let ghost used_names = name_set(used@);
        let mut entries: Vec<usize> = Vec::new();
        let mut at: usize = 0;
        while at < count
            invariant
                at <= count,
                count == dir.len(),
                bus_name_list.wf(),
                dir == bus_name_list@,
                used_names == name_set(used@),
                entries@ == names_in_use_before(dir, used_names, at as int),
            decreases count - at,
        {
            match bus_name_list.item(at) {
                Some(item) => {
                    let shows = entry_in_use(item, used);
                    proof {
                        let entry = dir[at as int];
                        assert(item@ == entry);
                        if shows && !in_use(used_names, entry) {
                            if !holds_name(used@, entry.name) {
                                let k = choose|k: int|
                                    0 <= k < all_names(entry.log).len() && holds_name(
                                        used@,
                                        (false, #[trigger] all_names(entry.log)[k]),
                                    );
                                assert(used_names.contains((false, all_names(entry.log)[k])));
                            }
                        }
                        if in_use(used_names, entry) && !shows {
                            if !used_names.contains(entry.name) {
                                let k = choose|k: int|
                                    0 <= k < all_names(entry.log).len() && used_names.contains(
                                        (false, #[trigger] all_names(entry.log)[k]),
                                    );
                                assert(holds_name(used@, (false, all_names(entry.log)[k])));
                            }
                        }
                    }
                    if shows {
                        entries.push(at);
                    }
                },
                None => {},
            }
            at += 1;
        }
        proof {
            lemma_names_in_use_before(dir, used_names, count as int);
        }
        self.shown = entries;
    }

    /// Shows nothing.
    pub fn clear(&mut self)
        ensures
            final(self)@ == Seq::<usize>::empty(),
    {
        self.shown = Vec::new();
    }

    /// The position in the directory of the entry shown at `place`.
    pub fn position(&self, place: usize) -> (at: Option<usize>)
        ensures
            at is Some <==> place < self@.len(),
            at matches Some(at) ==> at == self@[place as int],
    {
        if place < self.shown.len() {
            Some(self.shown[place])
        } else {
            None
        }
    }

    /// The entry shown at `place`.
    pub fn item<'a>(&self, bus_name_list: &'a BusNameList, place: usize) -> (item: Option<
        &'a BusNameItem,
    >)
        requires
            bus_name_list.wf(),
            self.fits(bus_name_list@),
        ensures
            item is Some <==> place < self@.len(),
            item matches Some(item) ==> item@ == bus_name_list@[self@[place as int] as int]
                && item.wf(),
    {
        if place < self.shown.len() {
            bus_name_list.item(self.shown[place])
        } else {
            None
        }
    }

    /// The entries shown, in their order.
    pub fn iter<'a>(&self, bus_name_list: &'a BusNameList) -> (items: Vec<&'a BusNameItem>)
        requires
            bus_name_list.wf(),
            self.fits(bus_name_list@),
        ensures
            items@.len() == self@.len(),
            forall|k: int|
                0 <= k < items@.len() ==> (#[trigger] items@[k])@ == bus_name_list@[self@[k] as int]
                    && items@[k].wf(),
    {
        let mut items: Vec<&'a BusNameItem> = Vec::new();
        let mut place: usize = 0;
        while place < self.shown.len()
            invariant
                place <= self.shown.len(),
                bus_name_list.wf(),
                self.fits(bus_name_list@),
                items@.len() == place,
                forall|k: int|
                    0 <= k < items@.len() ==> (#[trigger] items@[k])@ == bus_name_list@[self@[k] as int]
                        && items@[k].wf(),
            decreases self.shown.len() - place,
        {
            assert(self@[place as int] < bus_name_list@.len());
            match bus_name_list.item(self.shown[place]) {
                Some(item) => {
                    items.push(item);
                },
                None => {},
            }
            place += 1;
        }
        items
    }

    /// The place among the entries shown of the entry for `bus_name`;
    /// `None` where the directory has no such entry or it is not shown.
    pub fn get_index_of(&self, bus_name_list: &BusNameList, bus_name: &BusName) -> (place: Option<
        usize,
    >)
        requires
            bus_name_list.wf(),
            self.fits(bus_name_list@),
        ensures
            place matches Some(p) ==> p < self@.len() && has_name(bus_name_list@, bus_name@)
                && self@[p as int] == position_of(bus_name_list@, bus_name@),
            place is None ==> !has_name(bus_name_list@, bus_name@) || !self@.contains(
                position_of(bus_name_list@, bus_name@) as usize,
            ),
    {
        let at = match bus_name_list.get_index_of(bus_name) {
            Some(at) => at,
            None => {
                return None;
            },
        };
        let mut place: usize = 0;
        while place < self.shown.len()
            invariant
                place <= self.shown.len(),
                has_name(bus_name_list@, bus_name@),
                at == position_of(bus_name_list@, bus_name@),
                forall|k: int| 0 <= k < place ==> (#[trigger] self@[k]) != at,
            decreases self.shown.len() - place,
        {
            if self.shown[place] == at {
                return Some(place);
            }
            place += 1;
        }
        None
    }

    /// The entry for `bus_name`, if it is shown.
    pub fn get<'a>(&self, bus_name_list: &'a BusNameList, bus_name: &BusName) -> (item: Option<
        &'a BusNameItem,
    >)
        requires
            bus_name_list.wf(),
            self.fits(bus_name_list@),
        ensures
            item is Some <==> has_name(bus_name_list@, bus_name@) && self@.contains(
                position_of(bus_name_list@, bus_name@) as usize,
            ),
            item matches Some(item) ==> item@ == bus_name_list@[position_of(
                bus_name_list@,
                bus_name@,
            )] && item.wf(),
    {
        match self.get_index_of(bus_name_list, bus_name) {
            Some(place) => {
                assert(self@[place as int] == position_of(bus_name_list@, bus_name@) as usize);
                bus_name_list.item(self.shown[place])
            },
            None => None,
        }
    }

    /// The place among the entries shown of the first entry that holds
    /// `wk_name` at the lookup point.
    pub fn get_index_of_wk_name(
        &self,
        bus_name_list: &BusNameList,
        wk_name: &String,
        lookup_point: LookupPoint,
    ) -> (place: Option<usize>)
        requires
            bus_name_list.wf(),
            self.fits(bus_name_list@),
        ensures
            place matches Some(p) ==> p < self@.len() && bus_name_list@[self@[p as int] as int].wk_names(
                lookup_point,
            ).contains(wk_name@),
            forall|k: int|
                0 <= k < self@.len() && (place matches Some(p) ==> k < p) ==> !bus_name_list@[(
                #[trigger] self@[k]) as int].wk_names(lookup_point).contains(wk_name@),
    {
        let mut place: usize = 0;
        while place < self.shown.len()
            invariant
                place <= self.shown.len(),
                bus_name_list.wf(),
                self.fits(bus_name_list@),
                forall|k: int|
                    0 <= k < place ==> !bus_name_list@[(#[trigger] self@[k]) as int].wk_names(
                        lookup_point,
                    ).contains(wk_name@),
            decreases self.shown.len() - place,
        {
            assert(self@[place as int] < bus_name_list@.len());
            match bus_name_list.item(self.shown[place]) {
                Some(item) => {
                    let wk_names = item.wk_names(lookup_point);
                    if set_contains(&wk_names, wk_name) {
                        return Some(place);
                    }
                },
                None => {},
            }
            place += 1;
        }
        None
    }
}

impl FilteredBusNameModel {
    /// The place among the entries shown at which `name` is drawn for a
    /// message received at `receive_index`: the place of its own entry, or,
    /// for a well-known name without one, the place of the first entry that
    /// held it as of that index.
    pub fn column_of(
        &self,
        bus_name_list: &BusNameList,
        name: &BusName,
        receive_index: ReceiveIndex,
    ) -> (place: Option<usize>)
        requires
            bus_name_list.wf(),
            self.fits(bus_name_list@),
        ensures
            place matches Some(p) ==> p < self@.len(),
            self.shows_own_entry(bus_name_list@, name@) ==> (place matches Some(p) && self@[p as int]
                == position_of(bus_name_list@, name@)),
            !self.shows_own_entry(bus_name_list@, name@) && name@.0 ==> place is None,
            !self.shows_own_entry(bus_name_list@, name@) && !name@.0 ==> (place matches Some(p)
                ==> bus_name_list@[self@[p as int] as int].wk_names(
                LookupPoint::Index(receive_index),
            ).contains(name@.1)) && forall|k: int|
                0 <= k < self@.len() && (place matches Some(p) ==> k < p) ==> !bus_name_list@[(
                #[trigger] self@[k]) as int].wk_names(LookupPoint::Index(receive_index)).contains(
                    name@.1,
                ),
    {
        match self.get_index_of(bus_name_list, name) {
            Some(place) => Some(place),
            None => match name {
                BusName::Unique(_) => None,
                BusName::WellKnown(wk_name) => self.get_index_of_wk_name(
                    bus_name_list,
                    wk_name,
                    LookupPoint::Index(receive_index),
                ),
            },
        }
    }

    /// Whether the directory has an entry for `name` and that entry is
    /// shown.
    pub open spec fn shows_own_entry(
        &self,
        dir: Seq<BusNameItemView>,
        name: (bool, Seq<char>),
    ) -> bool {
        has_name(dir, name) && self@.contains(position_of(dir, name) as usize)
    }
}

impl Default for FilteredBusNameModel {
    fn default() -> (model: Self)
        ensures
            model@ == Seq::<usize>::empty(),
    {
        FilteredBusNameModel::new()
    }
}

} // verus!
