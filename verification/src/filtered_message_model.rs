//! The filtered view of a stream: the messages that the filters in force
//! let through, and the bus names that those messages use.

use crate::bus_name::{contains_name, holds_name, name_set, names_once, BusName};
use crate::bus_name_item::LookupPoint;
use crate::directory::{has_name, ItemsChanged};
use crate::filtered_bus_name_model::FilteredBusNameModel;
use crate::message::{Message, ReceiveIndex};
use crate::message_list::{MessageList, Pushed};
use crate::message_tag::MessageTag;
use crate::ownership::lemma_empty_log_holds_nothing;
use crate::position_index::{
    empty_positions, position_seq, positions_find, positions_get, positions_insert, positions_len,
};
use crate::projection::{
    all_indices, involves, is_used, lemma_names_in_use_before, lemma_unfiltered_view_is_full,
    lemma_visible_alike, lemma_visible_before,
    names_in_use, no_filters, passes, used_set, uses, visible, visible_before,
    with_filtered_name, with_tag, without_filtered_name, without_tag, FiltersView,
};
use crate::stream::{lemma_pushed, lemma_quiet_push, pushed, MessageListView};
use crate::wk_name_set::set_contains;
use indexmap::IndexSet;
use vstd::prelude::*;

verus! {

/// Why a filter could not be added.
#[derive(Debug, Clone, Copy, PartialEq, Eq, Structural)]
pub enum FilterError {
    /// The model has no stream.
    NoMessageList,
    /// The directory of the stream has no entry for the name.
    UnknownBusName,
}

/// The filtered view of a stream.
pub struct FilteredMessageModel {
    message_list: Option<MessageList>,
    message_tag_filters: Vec<MessageTag>,
    bus_name_filters: Vec<BusName>,
    inner_index: IndexSet<u32>,
    /// The names that the messages shown name as sender or destination.
    used_bus_names: Vec<BusName>,
    filtered_bus_names: FilteredBusNameModel,
}

/// What a [`FilteredMessageModel`] stands for: the stream, the filters in
/// force, the receipt indices of the messages shown, and the positions in
/// the directory of the bus names shown.
pub struct FilteredMessageModelView {
    pub list: Option<MessageListView>,
    pub filters: FiltersView,
    pub visible: Seq<u32>,
    pub names: Seq<usize>,
}

/// The tags as a set.
pub open spec fn tag_set(tags: Seq<MessageTag>) -> Set<MessageTag> {
    Set::new(|tag: MessageTag| tags.contains(tag))
}

/// What an optional stream stands for.
pub open spec fn list_view(list: Option<MessageList>) -> Option<MessageListView> {
    match list {
        Some(list) => Some(list@),
        None => None,
    }
}

impl View for FilteredMessageModel {
    type V = FilteredMessageModelView;

    closed spec fn view(&self) -> FilteredMessageModelView {
        FilteredMessageModelView {
            list: list_view(self.message_list),
            filters: FiltersView {
                tags: tag_set(self.message_tag_filters@),
                names: name_set(self.bus_name_filters@),
            },
            visible: position_seq(self.inner_index),
            names: self.filtered_bus_names@,
        }
    }
}

/// The names that a message names as sender or destination, added to those
/// used before. Returns whether one was new.
fn note_names(used: &mut Vec<BusName>, message: &Message) -> (grew: bool)
    ensures
        forall|name: (bool, Seq<char>)| #[trigger]
            holds_name(final(used)@, name) <==> holds_name(old(used)@, name) || uses(
                message@,
                name,
            ),
        !grew ==> final(used)@ == old(used)@,
{
    let ghost before = used@;
    let mut grew = false;
    match message.sender() {
        Some(sender) => {
            let name = BusName::Unique(sender.clone());
            if !contains_name(used, &name) {
                used.push(name);
                grew = true;
            }
        },
        None => {},
    }
    let ghost middle = used@;
    match message.destination() {
        Some(name) => {
            if !contains_name(used, &name) {
                used.push(name);
                grew = true;
            }
        },
        None => {},
    }
    proof {
        let after = used@;
        assert forall|name: (bool, Seq<char>)| #[trigger]
            holds_name(after, name) <==> holds_name(before, name) || uses(message@, name) by {
            if holds_name(before, name) {
                let i = choose|i: int| 0 <= i < before.len() && (#[trigger] before[i])@ == name;
                assert(middle[i]@ == name);
                assert(after[i]@ == name);
            }
            if holds_name(after, name) && !holds_name(before, name) {
                let i = choose|i: int| 0 <= i < after.len() && (#[trigger] after[i])@ == name;
                if i < before.len() {
                    assert(before[i]@ == name);
                }
            }
            if uses(message@, name) {
                if name.0 && message@.header().sender == Some(name.1) {
                    assert(holds_name(middle, name)) by {
                        if !holds_name(before, name) {
                            assert(middle[middle.len() - 1]@ == name);
                        }
                    }
                    let i = choose|i: int| 0 <= i < middle.len() && (#[trigger] middle[i])@ == name;
                    assert(after[i]@ == name);
                } else {
                    if !holds_name(middle, name) {
                        assert(after[after.len() - 1]@ == name);
                    } else {
                        let i = choose|i: int|
                            0 <= i < middle.len() && (#[trigger] middle[i])@ == name;
                        assert(after[i]@ == name);
                    }
                }
            }
        }
    }
    grew
}

/// The names that the messages shown name as sender or as destination.
pub fn used_names(list: &MessageList, visible: &IndexSet<u32>) -> (used: Vec<BusName>)
    requires
        forall|k: int|
            0 <= k < position_seq(*visible).len() ==> (#[trigger] position_seq(*visible)[k])
                < list@.messages.len(),
    ensures
        name_set(used@) == used_set(list@, position_seq(*visible)),
{
    let mut used: Vec<BusName> = Vec::new();
    let count = positions_len(visible);
    let ghost shown = position_seq(*visible);
    let mut k: usize = 0;
    while k < count
        invariant
            k <= count,
            count == shown.len(),
            shown == position_seq(*visible),
            forall|j: int| 0 <= j < shown.len() ==> (#[trigger] shown[j]) < list@.messages.len(),
            forall|name: (bool, Seq<char>)| #[trigger]
                holds_name(used@, name) <==> exists|j: int|
                    0 <= j < k && uses(list@.messages[(#[trigger] shown[j]) as int], name),
        decreases count - k,
    {
        let ghost before = used@;
        let index = match positions_get(visible, k) {
            Some(index) => index,
            None => 0,
        };
        assert(index == shown[k as int]);
        match list.item(index as usize) {
            Some(message) => {
                note_names(&mut used, message);
            },
            None => {},
        }
        proof {
            let m = list@.messages[index as int];
            assert forall|name: (bool, Seq<char>)| #[trigger]
                holds_name(used@, name) <==> exists|j: int|
                    0 <= j < k + 1 && uses(list@.messages[(#[trigger] shown[j]) as int], name) by {
                if holds_name(before, name) {
                    let j = choose|j: int|
                        0 <= j < k && uses(list@.messages[(#[trigger] shown[j]) as int], name);
                    assert(0 <= j < k + 1 && uses(list@.messages[shown[j] as int], name));
                }
                if uses(m, name) {
                    assert(uses(list@.messages[shown[k as int] as int], name));
                }
                if exists|j: int|
                    0 <= j < k + 1 && uses(list@.messages[(#[trigger] shown[j]) as int], name) {
                    let j = choose|j: int|
                        0 <= j < k + 1 && uses(list@.messages[(#[trigger] shown[j]) as int], name);
                    if j < k {
                        assert(holds_name(before, name));
                    }
                }
            }
        }
        k += 1;
    }
    proof {
        assert forall|name: (bool, Seq<char>)|
            name_set(used@).contains(name) <==> used_set(list@, shown).contains(name) by {
            if holds_name(used@, name) {
                let j = choose|j: int|
                    0 <= j < k && uses(list@.messages[(#[trigger] shown[j]) as int], name);
                assert(is_used(list@, shown, name));
            }
            if is_used(list@, shown, name) {
                let j = choose|j: int|
                    0 <= j < shown.len() && uses(list@.messages[(#[trigger] shown[j]) as int], name);
                assert(0 <= j < k && uses(list@.messages[shown[j] as int], name));
            }
        }
        assert(name_set(used@) =~= used_set(list@, shown));
    }
    used
}

/// Whether the message involves the name.
fn message_involves(list: &MessageList, message: &Message, name: &BusName) -> (r: bool)
    requires
        list.wf(),
    ensures
        r == involves(list@.names, message@, name@),
{
    let sent = match message.sender() {
        Some(sender) => name.is_unique_named(sender),
        None => false,
    };
    if sent {
        return true;
    }
    proof {
        lemma_empty_log_holds_nothing(message@.index());
    }
    match message.destination() {
        Some(destination) => {
            if destination.same_as(name) {
                return true;
            }
            match &destination {
                BusName::Unique(_) => false,
                BusName::WellKnown(wk_name) => match list.bus_names().get(name) {
                    Some(item) => {
                        let wk_names = item.wk_names(LookupPoint::Index(message.index()));
                        set_contains(&wk_names, wk_name)
                    },
                    None => false,
                },
            }
        },
        None => false,
    }
}

/// Whether the filters let the message at `position` through.
#[verifier::loop_isolation(false)]
fn message_passes(
    list: &MessageList,
    tags: &Vec<MessageTag>,
    names: &Vec<BusName>,
    position: usize,
) -> (r: bool)
    requires
        list.wf(),
        position < list@.messages.len(),
    ensures
        r == passes(
            list@,
            (FiltersView { tags: tag_set(tags@), names: name_set(names@) }),
            position as int,
        ),
{
    let message = match list.item(position) {
        Some(message) => message,
        None => {
            return false;
        },
    };
    let ghost filters = FiltersView { tags: tag_set(tags@), names: name_set(names@) };
    let tag = message.message_tag();
    let mut i: usize = 0;
    while i < tags.len()
        invariant
            i <= tags.len(),
            forall|k: int| 0 <= k < i ==> (#[trigger] tags[k]) != tag,
        decreases tags.len() - i,
    {
        if tags[i] == tag {
            assert(tags@.contains(tag));
            return false;
        }
        i += 1;
    }
    assert(!filters.tags.contains(tag));
    let mut j: usize = 0;
    while j < names.len()
        invariant
            j <= names.len(),
            list.wf(),
            forall|k: int|
                0 <= k < j ==> !involves(list@.names, message@, (#[trigger] names[k])@),
        decreases names.len() - j,
    {
        if message_involves(list, message, &names[j]) {
            assert(holds_name(names@, names[j as int]@));
            assert(filters.names.contains(names[j as int]@));
            assert(involves(list@.names, list@.messages[position as int], names[j as int]@));
            return false;
        }
        j += 1;
    }
    assert forall|name: (bool, Seq<char>)| #[trigger] filters.names.contains(name) implies !involves(
        list@.names,
        message@,
        name,
    ) by {
        let k = choose|k: int| 0 <= k < names.len() && (#[trigger] names[k])@ == name;
    }
    true
}

impl FilteredMessageModel {
    /// The stream inside is well formed, and no filter is there twice.
    pub closed spec fn coherent(&self) -> bool {
        &&& self.message_list matches Some(list) ==> list.wf()
        &&& self.message_tag_filters@.no_duplicates()
        &&& names_once(self.bus_name_filters@)
        &&& self.message_list is None ==> self.bus_name_filters@.len() == 0
    }

    /// The names kept as used are those that the messages shown name.
    pub closed spec fn keeps_used_names(&self) -> bool {
        match self.message_list {
            Some(list) => name_set(self.used_bus_names@) == used_set(
                list@,
                position_seq(self.inner_index),
            ),
            None => true,
        }
    }

    /// What is shown is what the filters let through of the stream, and the
    /// bus names that those messages use; without a stream nothing is
    /// shown.
    pub open spec fn wf(&self) -> bool {
        &&& self.coherent()
        &&& self.keeps_used_names()
        &&& match self@.list {
            Some(list) => self@.visible == visible(list, self@.filters) && self@.names
                == names_in_use(list, self@.visible),
            None => self@.visible == Seq::<u32>::empty() && self@.names == Seq::<usize>::empty()
                && self@.filters.names == Set::<(bool, Seq<char>)>::empty(),
        }
    }

    /// A model without a stream and without filters.
    pub fn new() -> (model: Self)
        ensures
            model.wf(),
            model@.list is None,
            model@.filters == no_filters(),
    {
        let model = FilteredMessageModel {
            message_list: None,
            message_tag_filters: Vec::new(),
            bus_name_filters: Vec::new(),
            inner_index: empty_positions(),
            used_bus_names: Vec::new(),
            filtered_bus_names: FilteredBusNameModel::new(),
        };
        proof {
            assert(model@.filters.tags =~= Set::<MessageTag>::empty());
            assert(model@.filters.names =~= Set::<(bool, Seq<char>)>::empty());
        }
        model
    }

    /// Works out anew what is shown.
    fn recompute(&mut self)
        requires
            old(self).coherent(),
        ensures
            final(self).wf(),
            final(self)@.list == old(self)@.list,
            final(self)@.filters == old(self)@.filters,
    {
        let mut index = empty_positions();
        match &self.message_list {
            Some(list) => {
                let count = list.n_items();
                let ghost filters = self@.filters;
                let mut position: usize = 0;
                while position < count
                    invariant
                        position <= count,
                        count == list@.messages.len(),
                        count <= u32::MAX,
                        list.wf(),
                        filters == (FiltersView {
                            tags: tag_set(self.message_tag_filters@),
                            names: name_set(self.bus_name_filters@),
                        }),
                        position_seq(index) == visible_before(list@, filters, position as int),
                    decreases count - position,
                {
                    proof {
                        lemma_visible_before(list@, filters, position as int);
                    }
                    if message_passes(
                        list,
                        &self.message_tag_filters,
                        &self.bus_name_filters,
                        position,
                    ) {
                        let ghost before = position_seq(index);
                        proof {
                            if before.contains(position as u32) {
                                let k = choose|k: int|
                                    0 <= k < before.len() && before[k] == position as u32;
                                assert(before[k] < position);
                            }
                        }
                        positions_insert(&mut index, position as u32);
                    }
                    position += 1;
                }
                proof {
                    lemma_visible_before(list@, filters, count as int);
                }
                let used = used_names(list, &index);
                self.filtered_bus_names.set_filter(list.bus_names(), &used);
                self.used_bus_names = used;
            },
            None => {
                self.filtered_bus_names.clear();
                self.used_bus_names = Vec::new();
                assert(name_set(self.bus_name_filters@) =~= Set::<(bool, Seq<char>)>::empty());
            },
        }
        self.inner_index = index;
    }

    /// Sets the stream to show, and hands back the one shown before. This
    /// also resets the filters.
    pub fn set_message_list(&mut self, message_list: Option<MessageList>) -> (previous: Option<
        MessageList,
    >)
        requires
            old(self).wf(),
            message_list matches Some(list) ==> list.wf(),
        ensures
            final(self).wf(),
            final(self)@.list == list_view(message_list),
            final(self)@.filters == no_filters(),
            final(self)@.list matches Some(list) ==> final(self)@.visible == all_indices(
                list.messages.len() as int,
            ),
            list_view(previous) == old(self)@.list,
            previous matches Some(list) ==> list.wf(),
    {
        self.message_tag_filters = Vec::new();
        self.bus_name_filters = Vec::new();
        let mut message_list = message_list;
        std::mem::swap(&mut self.message_list, &mut message_list);
        proof {
            assert(tag_set(self.message_tag_filters@) =~= Set::<MessageTag>::empty());
            assert(name_set(self.bus_name_filters@) =~= Set::<(bool, Seq<char>)>::empty());
        }
        self.recompute();
        proof {
            self.lemma_unfiltered();
        }
        message_list
    }

    /// The stream shown.
    pub fn message_list(&self) -> (list: Option<&MessageList>)
        requires
            self.wf(),
        ensures
            list is Some <==> self@.list is Some,
            list matches Some(list) ==> list.wf() && Some(list@) == self@.list,
    {
        self.message_list.as_ref()
    }

    /// Appends a message to the stream shown, and brings what is shown up
    /// to date. Without a stream nothing happens.
    pub fn push(&mut self, message: Message) -> (r: Option<Pushed>)
        requires
            old(self).wf(),
            old(self)@.list matches Some(list) ==> list.messages.len() < u32::MAX,
        ensures
            final(self).wf(),
            final(self)@.filters == old(self)@.filters,
            r is Some <==> old(self)@.list is Some,
            old(self)@.list matches Some(list) ==> final(self)@.list == Some(
                pushed(list, message@.event).list,
            ) && (r matches Some(r) && r.position == list.messages.len() && r.name_changes@
                == pushed(list, message@.event).name_changes && r.result == pushed(
                list,
                message@.event,
            ).result),
            old(self)@.list is None ==> final(self)@.list is None,
    {
        let mut taken = None;
        std::mem::swap(&mut self.message_list, &mut taken);
        let mut list = match taken {
            Some(list) => list,
            None => {
                return None;
            },
        };
        let ghost before = list@;
        let ghost event = message@.event;
        let ghost filters = self@.filters;
        let ghost shown = position_seq(self.inner_index);
        let ghost used_before = self.used_bus_names@;
        let r = list.push(message);
        let position = r.position;
        // The messages before pass the filters as they did where no filter
        // asks the directory, or the directory is as it was.
        if self.bus_name_filters.len() != 0 && r.name_changes.len() != 0 {
            self.message_list = Some(list);
            self.recompute();
            return Some(r);
        }
        proof {
            lemma_pushed(before, event);
            lemma_visible_before(before, filters, before.messages.len() as int);
            if r.name_changes.len() == 0 {
                lemma_quiet_push(before, event);
                assert(list@.names == before.names);
            } else {
                assert(filters.names =~= Set::<(bool, Seq<char>)>::empty()) by {
                    assert forall|name: (bool, Seq<char>)| !filters.names.contains(name) by {
                        if holds_name(self.bus_name_filters@, name) {
                            let i = choose|i: int|
                                0 <= i < self.bus_name_filters@.len() && (
                                #[trigger] self.bus_name_filters@[i])@ == name;
                        }
                    }
                }
            }
            assert forall|i: int| 0 <= i < before.messages.len() implies passes(list@, filters, i)
                == passes(before, filters, i) by {
                let now = list@.messages[i];
                let then = before.messages[i];
                assert(now.event == then.event && now.message_tag == then.message_tag
                    && now.receive_index == then.receive_index);
            }
            lemma_visible_alike(list@, before, filters, before.messages.len() as int);
        }
        let mut names_changed = r.name_changes.len() != 0;
        if message_passes(&list, &self.message_tag_filters, &self.bus_name_filters, position) {
            proof {
                if shown.contains(position as u32) {
                    let k = choose|k: int| 0 <= k < shown.len() && shown[k] == position as u32;
                    assert(shown[k] < position);
                }
            }
            positions_insert(&mut self.inner_index, position as u32);
            match list.item(position) {
                Some(message) => {
                    if note_names(&mut self.used_bus_names, message) {
                        names_changed = true;
                    }
                },
                None => {},
            }
        }
        proof {
            let now_shown = position_seq(self.inner_index);
            let used = self.used_bus_names@;
            assert(now_shown == visible(list@, filters));
            assert forall|name: (bool, Seq<char>)|
                name_set(used).contains(name) <==> used_set(list@, now_shown).contains(name) by {
                assert(name_set(used_before).contains(name) == used_set(before, shown).contains(name));
                if is_used(before, shown, name) {
                    let k = choose|k: int|
                        0 <= k < shown.len() && uses(before.messages[(#[trigger] shown[k]) as int], name);
                    assert(now_shown[k] == shown[k]);
                    assert(list@.messages[shown[k] as int].event == before.messages[shown[k] as int].event);
                    assert(uses(list@.messages[now_shown[k] as int], name));
                }
                if is_used(list@, now_shown, name) {
                    let k = choose|k: int|
                        0 <= k < now_shown.len() && uses(
                            list@.messages[(#[trigger] now_shown[k]) as int],
                            name,
                        );
                    if k < shown.len() {
                        assert(now_shown[k] == shown[k]);
                        assert(list@.messages[shown[k] as int].event
                            == before.messages[shown[k] as int].event);
                        assert(uses(before.messages[shown[k] as int], name));
                    } else {
                        assert(now_shown[k] == position as u32);
                    }
                }
                if now_shown.len() > shown.len() && uses(list@.messages[position as int], name) {
                    assert(now_shown[shown.len() as int] == position as u32);
                    assert(uses(list@.messages[now_shown[shown.len() as int] as int], name));
                }
            }
            assert(name_set(used) =~= used_set(list@, now_shown));
        }
        if names_changed {
            self.filtered_bus_names.set_filter(list.bus_names(), &self.used_bus_names);
        } else {
            proof {
                assert(list@.names == before.names);
                assert(self.used_bus_names@ == used_before);
                assert(used_set(list@, position_seq(self.inner_index)) == used_set(before, shown));
            }
        }
        self.message_list = Some(list);
        Some(r)
    }

    /// How many messages are shown.
    pub fn n_items(&self) -> (n: usize)
        ensures
            n == self@.visible.len(),
    {
        positions_len(&self.inner_index)
    }

    /// The message shown at `place`.
    pub fn item(&self, place: usize) -> (message: Option<&Message>)
        requires
            self.wf(),
        ensures
            message is Some <==> place < self@.visible.len() && self@.list is Some,
            message matches Some(message) ==> message@ == self@.list.unwrap().messages[self@.visible[place as int] as int],
    {
        match &self.message_list {
            Some(list) => {
                proof {
                    lemma_visible_before(list@, self@.filters, list@.messages.len() as int);
                }
                match positions_get(&self.inner_index, place) {
                    Some(index) => list.item(index as usize),
                    None => None,
                }
            },
            None => None,
        }
    }

    /// The place among the messages shown of a message of the stream;
    /// `None` where it is not shown.
    pub fn get_index_of(&self, message: &Message) -> (place: Option<usize>)
        ensures
            place matches Some(p) ==> p < self@.visible.len() && message@.receive_index == Some(
                ReceiveIndex(self@.visible[p as int]),
            ),
            place is None ==> message@.receive_index is None || !self@.visible.contains(
                message@.index() as u32,
            ),
    {
        match message.receive_index_opt() {
            Some(index) => positions_find(&self.inner_index, index.0),
            None => None,
        }
    }

    /// The messages shown, in their order.
    pub fn iter(&self) -> (messages: Vec<&Message>)
        requires
            self.wf(),
        ensures
            self@.list is None ==> messages@.len() == 0,
            self@.list is Some ==> messages@.len() == self@.visible.len(),
            forall|k: int|
                0 <= k < messages@.len() ==> (#[trigger] messages@[k])@
                    == self@.list.unwrap().messages[self@.visible[k] as int],
    {
        let mut messages: Vec<&Message> = Vec::new();
        let count = self.n_items();
        let mut place: usize = 0;
        while place < count
            invariant
                place <= count,
                count == self@.visible.len(),
                self.wf(),
                self@.list is None ==> messages@.len() == 0,
                self@.list is Some ==> messages@.len() == place,
                forall|k: int|
                    0 <= k < messages@.len() ==> (#[trigger] messages@[k])@
                        == self@.list.unwrap().messages[self@.visible[k] as int],
            decreases count - place,
        {
            match self.item(place) {
                Some(message) => {
                    messages.push(message);
                },
                None => {},
            }
            place += 1;
        }
        messages
    }

    /// The bus names that the messages shown use.
    pub fn filtered_bus_names(&self) -> (names: &FilteredBusNameModel)
        requires
            self.wf(),
        ensures
            names@ == self@.names,
            self@.list matches Some(list) ==> names.fits(list.names),
    {
        match &self.message_list {
            Some(list) => {
                let count = list.bus_names().n_items();
                proof {
                    lemma_names_in_use_before(
                        list@.names,
                        used_set(list@, self@.visible),
                        count as int,
                    );
                }
            },
            None => {},
        }
        &self.filtered_bus_names
    }

    /// Whether any filter is in force.
    pub fn has_filter(&self) -> (r: bool)
        ensures
            r == (self@.filters != no_filters()),
    {
        let r = self.message_tag_filters.len() != 0 || self.bus_name_filters.len() != 0;
        proof {
            if self.message_tag_filters.len() != 0 {
                assert(self.message_tag_filters@.contains(self.message_tag_filters@[0]));
                assert(self@.filters.tags.contains(self.message_tag_filters@[0]));
            }
            if self.bus_name_filters.len() != 0 {
                assert(holds_name(self.bus_name_filters@, self.bus_name_filters@[0]@));
                assert(self@.filters.names.contains(self.bus_name_filters@[0]@));
            }
            if !r {
                assert(self@.filters.tags =~= Set::<MessageTag>::empty());
                assert(self@.filters.names =~= Set::<(bool, Seq<char>)>::empty());
            }
        }
        r
    }

    /// The change that observers are told after the filters changed: all
    /// that was shown left, and all that is shown now came.
    fn reset_change(before: usize, after: usize) -> (change: ItemsChanged)
        ensures
            change == (ItemsChanged { position: 0, removed: before, added: after }),
    {
        ItemsChanged { position: 0, removed: before, added: after }
    }

    /// Adds the filter that hides messages with the given tag.
    pub fn add_message_tag_filter(&mut self, message_tag: MessageTag) -> (change: ItemsChanged)
        requires
            old(self).wf(),
        ensures
            final(self).wf(),
            final(self)@.list == old(self)@.list,
            final(self)@.filters == with_tag(old(self)@.filters, message_tag),
            change == (ItemsChanged {
                position: 0,
                removed: old(self)@.visible.len() as usize,
                added: final(self)@.visible.len() as usize,
            }),
    {
        let before = self.n_items();
        let ghost old_tags = self.message_tag_filters@;
        let mut i: usize = 0;
        let mut found = false;
        while i < self.message_tag_filters.len()
            invariant
                i <= self.message_tag_filters.len(),
                self.message_tag_filters@ == old_tags,
                found ==> old_tags.contains(message_tag),
                !found ==> forall|k: int| 0 <= k < i ==> (#[trigger] old_tags[k]) != message_tag,
            decreases self.message_tag_filters.len() - i,
        {
            if self.message_tag_filters[i] == message_tag {
                found = true;
            }
            i += 1;
        }
        if !found {
            self.message_tag_filters.push(message_tag);
        }
        proof {
            let new_tags = self.message_tag_filters@;
            assert(tag_set(new_tags) =~= tag_set(old_tags).insert(message_tag)) by {
                assert forall|tag: MessageTag| tag_set(new_tags).contains(tag) <==> tag_set(
                    old_tags,
                ).insert(message_tag).contains(tag) by {
                    if old_tags.contains(tag) {
                        let k = choose|k: int| 0 <= k < old_tags.len() && old_tags[k] == tag;
                        assert(new_tags[k] == tag);
                    }
                    if new_tags.contains(tag) {
                        let k = choose|k: int| 0 <= k < new_tags.len() && new_tags[k] == tag;
                        if k < old_tags.len() {
                            assert(old_tags[k] == tag);
                        }
                    }
                    if !found {
                        assert(new_tags[new_tags.len() - 1] == message_tag);
                    }
                }
            }
        }
        self.recompute();
        Self::reset_change(before, self.n_items())
    }

    /// Removes the filter that hides messages with the given tag. Returns
    /// whether there was one.
    pub fn remove_message_tag_filter(&mut self, message_tag: MessageTag) -> (r: (
        bool,
        ItemsChanged,
    ))
        requires
            old(self).wf(),
        ensures
            final(self).wf(),
            final(self)@.list == old(self)@.list,
            final(self)@.filters == without_tag(old(self)@.filters, message_tag),
            r.0 == old(self)@.filters.tags.contains(message_tag),
            r.1 == (ItemsChanged {
                position: 0,
                removed: old(self)@.visible.len() as usize,
                added: final(self)@.visible.len() as usize,
            }),
    {
        let before = self.n_items();
        let ghost old_tags = self.message_tag_filters@;
        let mut i: usize = 0;
        let mut found: Option<usize> = None;
        while i < self.message_tag_filters.len() && found.is_none()
            invariant
                i <= self.message_tag_filters.len(),
                self.message_tag_filters@ == old_tags,
                found matches Some(at) ==> at < old_tags.len() && old_tags[at as int] == message_tag,
                found is None ==> forall|k: int|
                    0 <= k < i ==> (#[trigger] old_tags[k]) != message_tag,
            decreases self.message_tag_filters.len() - i + if found is None { 1int } else { 0int },
        {
            if self.message_tag_filters[i] == message_tag {
                found = Some(i);
            } else {
                i += 1;
            }
        }
        match found {
            Some(at) => {
                self.message_tag_filters.remove(at);
            },
            None => {},
        }
        proof {
            let new_tags = self.message_tag_filters@;
            assert(new_tags.no_duplicates()) by {
                match found {
                    Some(at) => {
                        assert forall|a: int, b: int|
                            0 <= a < new_tags.len() && 0 <= b < new_tags.len() && a
                                != b implies new_tags[a] != new_tags[b] by {
                            let oa = if a < at { a } else { a + 1 };
                            let ob = if b < at { b } else { b + 1 };
                            assert(new_tags[a] == old_tags[oa] && new_tags[b] == old_tags[ob]);
                        }
                    },
                    None => {},
                }
            }
            assert(tag_set(new_tags) =~= tag_set(old_tags).remove(message_tag)) by {
                assert forall|tag: MessageTag| tag_set(new_tags).contains(tag) <==> tag_set(
                    old_tags,
                ).remove(message_tag).contains(tag) by {
                    match found {
                        Some(at) => {
                            if new_tags.contains(tag) {
                                let k = choose|k: int| 0 <= k < new_tags.len() && new_tags[k] == tag;
                                let ok = if k < at { k } else { k + 1 };
                                assert(old_tags[ok] == tag);
                                assert(ok != at);
                            }
                            if old_tags.contains(tag) && tag != message_tag {
                                let ok = choose|k: int| 0 <= k < old_tags.len() && old_tags[k] == tag;
                                let k = if ok < at { ok } else { ok - 1 };
                                assert(new_tags[k] == tag);
                            }
                        },
                        None => {
                            if old_tags.contains(message_tag) {
                                let k = choose|k: int|
                                    0 <= k < old_tags.len() && old_tags[k] == message_tag;
                            }
                        },
                    }
                }
            }
        }
        self.recompute();
        (found.is_some(), Self::reset_change(before, self.n_items()))
    }

    /// Adds the filter that hides the messages that involve `name`: those
    /// that it sent, that go to it, or that go to a well-known name it held
    /// as of the message. Fails where the model has no stream, or the
    /// directory of the stream has no entry for the name; nothing changes
    /// then.
    pub fn add_bus_name_filter(&mut self, name: &BusName) -> (r: Result<ItemsChanged, FilterError>)
        requires
            old(self).wf(),
        ensures
            final(self).wf(),
            final(self)@.list == old(self)@.list,
            r == Err::<ItemsChanged, FilterError>(FilterError::NoMessageList) <==> old(
                self,
            )@.list is None,
            r == Err::<ItemsChanged, FilterError>(FilterError::UnknownBusName) <==> (old(
                self,
            )@.list matches Some(list) && !has_name(list.names, name@)),
            r is Err ==> final(self)@ == old(self)@,
            r matches Ok(change) ==> final(self)@.filters == with_filtered_name(
                old(self)@.filters,
                name@,
            ) && change == (ItemsChanged {
                position: 0,
                removed: old(self)@.visible.len() as usize,
                added: final(self)@.visible.len() as usize,
            }),
    {
        let known = match &self.message_list {
            Some(list) => list.bus_names().get_index_of(name).is_some(),
            None => {
                return Err(FilterError::NoMessageList);
            },
        };
        if !known {
            return Err(FilterError::UnknownBusName);
        }
        let before = self.n_items();
        let ghost old_names = self.bus_name_filters@;
        if !contains_name(&self.bus_name_filters, name) {
            self.bus_name_filters.push(name.clone());
        }
        proof {
            let new_names = self.bus_name_filters@;
            assert(name_set(new_names) =~= name_set(old_names).insert(name@)) by {
                assert forall|n: (bool, Seq<char>)| name_set(new_names).contains(n) <==> name_set(
                    old_names,
                ).insert(name@).contains(n) by {
                    if holds_name(old_names, n) {
                        let k = choose|k: int|
                            0 <= k < old_names.len() && (#[trigger] old_names[k])@ == n;
                        assert(new_names[k]@ == n);
                    }
                    if holds_name(new_names, n) {
                        let k = choose|k: int|
                            0 <= k < new_names.len() && (#[trigger] new_names[k])@ == n;
                        if k < old_names.len() {
                            assert(old_names[k]@ == n);
                        }
                    }
                    if !holds_name(old_names, name@) {
                        assert(new_names[new_names.len() - 1]@ == name@);
                    }
                }
            }
        }
        self.recompute();
        Ok(Self::reset_change(before, self.n_items()))
    }

    /// Removes the filter that hides the messages that involve `name`.
    /// Returns whether there was one.
    pub fn remove_bus_name_filter(&mut self, name: &BusName) -> (r: (bool, ItemsChanged))
        requires
            old(self).wf(),
        ensures
            final(self).wf(),
            final(self)@.list == old(self)@.list,
            final(self)@.filters == without_filtered_name(old(self)@.filters, name@),
            r.0 == old(self)@.filters.names.contains(name@),
            r.1 == (ItemsChanged {
                position: 0,
                removed: old(self)@.visible.len() as usize,
                added: final(self)@.visible.len() as usize,
            }),
    {
        let before = self.n_items();
        let ghost old_names = self.bus_name_filters@;
        let mut i: usize = 0;
        let mut found: Option<usize> = None;
        while i < self.bus_name_filters.len() && found.is_none()
            invariant
                i <= self.bus_name_filters.len(),
                self.bus_name_filters@ == old_names,
                found matches Some(at) ==> at < old_names.len() && old_names[at as int]@ == name@,
                found is None ==> forall|k: int|
                    0 <= k < i ==> (#[trigger] old_names[k])@ != name@,
            decreases self.bus_name_filters.len() - i + if found is None { 1int } else { 0int },
        {
            if self.bus_name_filters[i].same_as(name) {
                found = Some(i);
            } else {
                i += 1;
            }
        }
        match found {
            Some(at) => {
                self.bus_name_filters.remove(at);
            },
            None => {},
        }
        proof {
            let new_names = self.bus_name_filters@;
            assert(names_once(new_names)) by {
                match found {
                    Some(at) => {
                        assert forall|a: int, b: int| 0 <= a < b < new_names.len() implies (
                        #[trigger] new_names[a])@ != (#[trigger] new_names[b])@ by {
                            let oa = if a < at { a } else { a + 1 };
                            let ob = if b < at { b } else { b + 1 };
                            assert(new_names[a] == old_names[oa] && new_names[b] == old_names[ob]);
                        }
                    },
                    None => {},
                }
            }
            assert(name_set(new_names) =~= name_set(old_names).remove(name@)) by {
                assert forall|n: (bool, Seq<char>)| name_set(new_names).contains(n) <==> name_set(
                    old_names,
                ).remove(name@).contains(n) by {
                    match found {
                        Some(at) => {
                            if holds_name(new_names, n) {
                                let k = choose|k: int|
                                    0 <= k < new_names.len() && (#[trigger] new_names[k])@ == n;
                                let ok = if k < at { k } else { k + 1 };
                                assert(old_names[ok]@ == n);
                                if ok < at {
                                    assert(old_names[ok]@ != old_names[at as int]@);
                                } else {
                                    assert(old_names[at as int]@ != old_names[ok]@);
                                }
                            }
                            if holds_name(old_names, n) && n != name@ {
                                let ok = choose|k: int|
                                    0 <= k < old_names.len() && (#[trigger] old_names[k])@ == n;
                                let k = if ok < at { ok } else { ok - 1 };
                                assert(new_names[k]@ == n);
                            }
                        },
                        None => {
                            if holds_name(old_names, name@) {
                                let k = choose|k: int|
                                    0 <= k < old_names.len() && (#[trigger] old_names[k])@ == name@;
                            }
                        },
                    }
                }
            }
        }
        self.recompute();
        (found.is_some(), Self::reset_change(before, self.n_items()))
    }

    /// Removes every filter at once.
    pub fn clear_filters(&mut self) -> (change: ItemsChanged)
        requires
            old(self).wf(),
        ensures
            final(self).wf(),
            final(self)@.list == old(self)@.list,
            final(self)@.filters == no_filters(),
            final(self)@.list matches Some(list) ==> final(self)@.visible == all_indices(
                list.messages.len() as int,
            ),
            change == (ItemsChanged {
                position: 0,
                removed: old(self)@.visible.len() as usize,
                added: final(self)@.visible.len() as usize,
            }),
    {
        let before = self.n_items();
        self.message_tag_filters = Vec::new();
        self.bus_name_filters = Vec::new();
        proof {
            assert(tag_set(self.message_tag_filters@) =~= Set::<MessageTag>::empty());
            assert(name_set(self.bus_name_filters@) =~= Set::<(bool, Seq<char>)>::empty());
        }
        self.recompute();
        proof {
            self.lemma_unfiltered();
        }
        Self::reset_change(before, self.n_items())
    }

    /// Without filters every message of the stream is shown.
    proof fn lemma_unfiltered(&self)
        requires
            self.wf(),
            self@.filters == no_filters(),
        ensures
            self@.list matches Some(list) ==> self@.visible == all_indices(
                list.messages.len() as int,
            ),
    {
        match self.message_list {
            Some(list) => {
                lemma_unfiltered_view_is_full(list@, list@.messages.len() as int);
            },
            None => {},
        }
    }
}

impl Default for FilteredMessageModel {
    fn default() -> (model: Self)
        ensures
            model.wf(),
            model@.list is None,
            model@.filters == no_filters(),
    {
        FilteredMessageModel::new()
    }
}

} // verus!
