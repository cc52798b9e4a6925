//! The directory of bus names: every name seen on the bus, in the order of
//! arrival, each with the history of the well-known names held under it.

use crate::bus_name::BusName;
use crate::bus_name_item::{BusNameItem, BusNameItemView};
use crate::directory::{
    after_call_destination, after_get_name_owner, after_message, after_method_call,
    after_ordinary_reply, call_destination_error, return_destination_error,
    after_method_return, after_name_owner_changed, after_name_resolved, after_owner_change,
    after_return_destination, after_signal, directory_wf, fresh_entry, has_name, lemma_position,
    lemma_refused_message_changes_nothing,
    lemma_with_bus_name, lemma_with_wk_name, lemma_without_entry, lemma_without_wk_name,
    position_of, told, with_bus_name, with_bus_name_changes, with_wk_name,
    with_wk_name_changes, without_entry, without_entry_changes, without_wk_name,
    without_wk_name_changes, HandleError, ItemsChanged,
};
use crate::bus_name_item::LookupPoint;
use crate::message::{view_of, Message, ReceiveIndex};
use crate::ownership::{
    claims_agree, holds, lemma_message_keeps_owners_unique,
    lemma_message_that_disagrees_breaks_uniqueness, unique_owners, unique_owners_at,
};
use crate::snapshot_log::{as_of, lemma_with_name};
use crate::wk_name_set::{empty_set, set_get, set_insert, set_len, wk_name_seq};
use crate::message_type::MessageType;
use crate::name_args::{decode_bus_name, decode_owner_change, decode_unique_name, NameOwnerChanged};
use crate::name_map::{
    empty_map, map_entries, map_get, map_get_mut, map_insert, map_len, map_position,
    map_shift_remove,
};
use indexmap::IndexMap;
use vstd::prelude::*;

verus! {

/// The directory of bus names.
pub struct BusNameList {
    inner: IndexMap<(bool, String), BusNameItem>,
}

impl View for BusNameList {
    type V = Seq<BusNameItemView>;

    closed spec fn view(&self) -> Seq<BusNameItemView> {
        map_entries(self.inner).map_values(|entry: ((bool, Seq<char>), BusNameItem)| entry.1@)
    }
}

/// Adds the changes told, one or none, to those told before.
fn note(changes: &mut Vec<ItemsChanged>, change: Option<ItemsChanged>)
    ensures
        final(changes)@ == old(changes)@ + told(change),
{
    match change {
        Some(change) => {
            changes.push(change);
            assert(changes@ =~= old(changes)@ + seq![change]);
        },
        None => {
            assert(changes@ =~= old(changes)@ + Seq::<ItemsChanged>::empty());
        },
    }
}

/// Why the second half of an ordinary reply would be refused, if it would.
pub fn second_half_error(call: &Message, reply: &Message) -> (error: Option<HandleError>)
    ensures
        error == return_destination_error(call@, reply@),
{
    match reply.destination() {
        None => Some(HandleError::ReturnHasNoDestination),
        Some(destination) => if !destination.is_unique() && call.sender().is_none() {
            Some(HandleError::CallHasNoSender)
        } else {
            None
        },
    }
}

impl BusNameList {
    /// Every entry stands under the name of its item, and every item is
    /// well formed.
    pub closed spec fn coherent(&self) -> bool {
        forall|i: int|
            0 <= i < map_entries(self.inner).len() ==> {
                let entry = #[trigger] map_entries(self.inner)[i];
                entry.0 == entry.1@.name && entry.1.wf()
            }
    }

    /// The directory is coherent, its names are distinct and its histories
    /// are well formed.
    pub open spec fn wf(&self) -> bool {
        self.coherent() && directory_wf(self@)
    }

    proof fn lemma_views(&self)
        requires
            self.coherent(),
        ensures
            self@.len() == map_entries(self.inner).len(),
            forall|i: int|
                0 <= i < self@.len() ==> {
                    let entry = #[trigger] map_entries(self.inner)[i];
                    self@[i] == entry.1@ && self@[i].name == entry.0 && self@[i].wf()
                },
    {
    }

    /// A directory without entries.
    pub fn new() -> (list: Self)
        ensures
            list.wf(),
            list@ == Seq::<BusNameItemView>::empty(),
    {
        let list = BusNameList { inner: empty_map() };
        assert(list@ =~= Seq::<BusNameItemView>::empty());
        list
    }

    /// How many entries the directory has.
    pub fn n_items(&self) -> (n: usize)
        ensures
            n == self@.len(),
    {
        map_len(&self.inner)
    }

    /// The entry at `position`, `None` past the end.
    pub fn item(&self, position: usize) -> (item: Option<&BusNameItem>)
        requires
            self.wf(),
        ensures
            item is Some <==> position < self@.len(),
            item matches Some(item) ==> item@ == self@[position as int] && item.wf(),
    {
        proof {
            self.lemma_views();
        }
        map_get(&self.inner, position)
    }

    /// The position of the entry for `bus_name`.
    pub fn get_index_of(&self, bus_name: &BusName) -> (at: Option<usize>)
        requires
            self.wf(),
        ensures
            at is Some <==> has_name(self@, bus_name@),
            at matches Some(i) ==> i == position_of(self@, bus_name@) && i < self@.len(),
    {
        let key = bus_name.to_key();
        let at = map_position(&self.inner, &key);
        proof {
            self.lemma_views();
            match at {
                Some(i) => {
                    lemma_position(self@, bus_name@, i as int);
                },
                None => {
                    if has_name(self@, bus_name@) {
                        let i = position_of(self@, bus_name@);
                        assert(map_entries(self.inner)[i].0 == bus_name@);
                    }
                },
            }
        }
        at
    }

    /// Returns the `BusNameItem` with the given `bus_name` as item's name.
    pub fn get(&self, bus_name: &BusName) -> (item: Option<&BusNameItem>)
        requires
            self.wf(),
        ensures
            item is Some <==> has_name(self@, bus_name@),
            item matches Some(item) ==> item@ == self@[position_of(self@, bus_name@)] && item.wf(),
    {
        match self.get_index_of(bus_name) {
            Some(at) => self.item(at),
            None => None,
        }
    }

    /// Insert `bus_name` with empty `wk_names`, unless it has an entry.
    pub fn insert_bus_name(&mut self, bus_name: BusName) -> (change: Option<ItemsChanged>)
        requires
            old(self).wf(),
        ensures
            final(self).wf(),
            final(self)@ == with_bus_name(old(self)@, bus_name@),
            told(change) == with_bus_name_changes(old(self)@, bus_name@),
    {
        proof {
            lemma_with_bus_name(self@, bus_name@);
            self.lemma_views();
        }
        match self.get_index_of(&bus_name) {
            Some(_) => None,
            None => {
                let key = bus_name.to_key();
                let item = BusNameItem::new(bus_name);
                let ghost before = map_entries(self.inner);
                let (at, replaced) = map_insert(&mut self.inner, key, item);
                proof {
                    if replaced is Some {
                        assert(old(self)@[at as int].name == bus_name@);
                    }
                    let after = map_entries(self.inner);
                    assert(after == before.push(((bus_name@.0, bus_name@.1), item)));
                    assert(self@ =~= old(self)@.push(fresh_entry(bus_name@)));
                    assert forall|i: int| 0 <= i < after.len() implies {
                        let entry = #[trigger] after[i];
                        entry.0 == entry.1@.name && entry.1.wf()
                    } by {
                        if i < before.len() {
                            assert(after[i] == before[i]);
                        }
                    }
                }
                Some(ItemsChanged { position: at, removed: 0, added: 1 })
            },
        }
    }

    /// Insert `wk_name` to `bus_name`'s names as of `receive_index`, or
    /// create `bus_name`'s entry first.
    pub fn insert_wk_name(
        &mut self,
        bus_name: BusName,
        wk_name: String,
        receive_index: ReceiveIndex,
    ) -> (change: ItemsChanged)
        requires
            old(self).wf(),
        ensures
            final(self).wf(),
            final(self)@ == with_wk_name(
                old(self)@,
                bus_name@,
                wk_name@,
                receive_index.0 as int,
            ),
            seq![change] == with_wk_name_changes(old(self)@, bus_name@),
    {
        proof {
            lemma_with_wk_name(self@, bus_name@, wk_name@, receive_index.0 as int);
            self.lemma_views();
        }
        let ghost before = map_entries(self.inner);
        match self.get_index_of(&bus_name) {
            Some(at) => {
                match map_get_mut(&mut self.inner, at) {
                    Some(item) => {
                        item.claim_wk_name(receive_index, &wk_name);
                    },
                    None => {},
                }
                proof {
                    let after = map_entries(self.inner);
                    assert(after.len() == before.len());
                    assert forall|i: int| 0 <= i < after.len() implies {
                        let entry = #[trigger] after[i];
                        entry.0 == entry.1@.name && entry.1.wf()
                    } by {
                        if i != at as int {
                            assert(after[i] == before[i]);
                        }
                    }
                    assert(self@ =~= with_wk_name(
                        old(self)@,
                        bus_name@,
                        wk_name@,
                        receive_index.0 as int,
                    ));
                }
                ItemsChanged { position: at, removed: 1, added: 1 }
            },
            None => {
                let key = bus_name.to_key();
                let mut item = BusNameItem::new(bus_name);
                item.claim_wk_name(receive_index, &wk_name);
                let (at, replaced) = map_insert(&mut self.inner, key, item);
                proof {
                    if replaced is Some {
                        assert(old(self)@[at as int].name == bus_name@);
                    }
                    let after = map_entries(self.inner);
                    assert forall|i: int| 0 <= i < after.len() implies {
                        let entry = #[trigger] after[i];
                        entry.0 == entry.1@.name && entry.1.wf()
                    } by {
                        if i < before.len() {
                            assert(after[i] == before[i]);
                        }
                    }
                    assert(self@ =~= with_wk_name(
                        old(self)@,
                        bus_name@,
                        wk_name@,
                        receive_index.0 as int,
                    ));
                }
                ItemsChanged { position: at, removed: 0, added: 1 }
            },
        }
    }

    /// Remove `wk_name` from `bus_name`'s names as of `receive_index`, only
    /// if `bus_name` has an entry.
    pub fn remove_wk_name(
        &mut self,
        bus_name: BusName,
        wk_name: String,
        receive_index: ReceiveIndex,
    ) -> (change: Option<ItemsChanged>)
        requires
            old(self).wf(),
        ensures
            final(self).wf(),
            final(self)@ == without_wk_name(
                old(self)@,
                bus_name@,
                wk_name@,
                receive_index.0 as int,
            ),
            told(change) == without_wk_name_changes(old(self)@, bus_name@),
    {
        proof {
            lemma_without_wk_name(self@, bus_name@, wk_name@, receive_index.0 as int);
            self.lemma_views();
        }
        let ghost before = map_entries(self.inner);
        match self.get_index_of(&bus_name) {
            Some(at) => {
                match map_get_mut(&mut self.inner, at) {
                    Some(item) => {
                        item.release_wk_name(receive_index, &wk_name);
                    },
                    None => {},
                }
                proof {
                    let after = map_entries(self.inner);
                    assert(after.len() == before.len());
                    assert forall|i: int| 0 <= i < after.len() implies {
                        let entry = #[trigger] after[i];
                        entry.0 == entry.1@.name && entry.1.wf()
                    } by {
                        if i != at as int {
                            assert(after[i] == before[i]);
                        }
                    }
                    assert(self@ =~= without_wk_name(
                        old(self)@,
                        bus_name@,
                        wk_name@,
                        receive_index.0 as int,
                    ));
                }
                Some(ItemsChanged { position: at, removed: 1, added: 1 })
            },
            None => None,
        }
    }

    /// Takes the entry for `bus_name` out, if there is one; the entries
    /// behind it move up.
    pub fn remove_bus_name(&mut self, bus_name: &BusName) -> (change: Option<ItemsChanged>)
        requires
            old(self).wf(),
        ensures
            final(self).wf(),
            final(self)@ == without_entry(old(self)@, bus_name@),
            told(change) == without_entry_changes(old(self)@, bus_name@),
            change is Some <==> has_name(old(self)@, bus_name@),
    {
        proof {
            lemma_without_entry(self@, bus_name@);
            self.lemma_views();
        }
        let ghost before = map_entries(self.inner);
        let key = bus_name.to_key();
        match map_shift_remove(&mut self.inner, &key) {
            Some((at, _)) => {
                proof {
                    lemma_position(old(self)@, bus_name@, at as int);
                    let after = map_entries(self.inner);
                    assert forall|i: int| 0 <= i < after.len() implies {
                        let entry = #[trigger] after[i];
                        entry.0 == entry.1@.name && entry.1.wf()
                    } by {
                        if i < at as int {
                            assert(after[i] == before[i]);
                        } else {
                            assert(after[i] == before[i + 1]);
                        }
                    }
                    assert(self@ =~= old(self)@.remove(at as int));
                }
                Some(ItemsChanged { position: at, removed: 1, added: 0 })
            },
            None => {
                proof {
                    if has_name(old(self)@, bus_name@) {
                        let i = position_of(old(self)@, bus_name@);
                        assert(before[i].0 == bus_name@);
                    }
                }
                None
            },
        }
    }

    /// Takes a message in, given the call that it answers if it is a reply
    /// that has one. Says what observers of the directory are to be told,
    /// in that order, and whether the message could be taken in. A message
    /// that is refused changes nothing. Every well-known name keeps at most
    /// one holder as of every index exactly where what the message says of
    /// owners agrees with what the directory holds.
    pub fn handle_message(&mut self, message: &Message, call: Option<&Message>) -> (r: (
        Vec<ItemsChanged>,
        Result<(), HandleError>,
    ))
        requires
            old(self).wf(),
        ensures
            final(self).wf(),
            final(self)@ == after_message(old(self)@, message@, view_of(call)).names,
            r.0@ == after_message(old(self)@, message@, view_of(call)).changes,
            r.1 == after_message(old(self)@, message@, view_of(call)).result,
            r.1 is Err ==> final(self)@ == old(self)@ && r.0@.len() == 0,
            unique_owners(old(self)@) && claims_agree(old(self)@, message@, view_of(call))
                ==> unique_owners(final(self)@),
            !claims_agree(old(self)@, message@, view_of(call)) ==> !unique_owners(final(self)@),
    {
        proof {
            lemma_refused_message_changes_nothing(self@, message@, view_of(call));
            if !claims_agree(self@, message@, view_of(call)) {
                lemma_message_that_disagrees_breaks_uniqueness(self@, message@, view_of(call));
            } else if unique_owners(self@) {
                lemma_message_keeps_owners_unique(self@, message@, view_of(call));
            }
        }
        match message.message_type() {
            MessageType::MethodCall => self.handle_method_call_message(message),
            MessageType::MethodReturn | MessageType::Error => self.handle_method_return_message(
                message,
                call,
            ),
            MessageType::Signal => self.handle_signal_message(message),
        }
    }

    /// Takes a method call in: its sender and its destination get entries.
    /// A call that lacks one of the two is refused.
    pub fn handle_method_call_message(&mut self, message: &Message) -> (r: (
        Vec<ItemsChanged>,
        Result<(), HandleError>,
    ))
        requires
            old(self).wf(),
        ensures
            final(self).wf(),
            final(self)@ == after_method_call(old(self)@, message@).names,
            r.0@ == after_method_call(old(self)@, message@).changes,
            r.1 == after_method_call(old(self)@, message@).result,
    {
        let mut changes: Vec<ItemsChanged> = Vec::new();
        let sender = match message.sender() {
            Some(sender) => sender,
            None => {
                return (changes, Err(HandleError::CallHasNoSender));
            },
        };
        let destination = match message.destination() {
            Some(destination) => destination,
            None => {
                return (changes, Err(HandleError::CallHasNoDestination));
            },
        };
        let change = self.insert_bus_name(BusName::Unique(sender.clone()));
        note(&mut changes, change);
        assert(changes@ =~= told(change));
        let change = self.insert_bus_name(destination);
        note(&mut changes, change);
        (changes, Ok(()))
    }

    /// Takes a method return or an error in, given the call it answers. A
    /// reply without a call is taken in as it is: it changes nothing.
    pub fn handle_method_return_message(&mut self, message: &Message, call: Option<&Message>) -> (r:
        (Vec<ItemsChanged>, Result<(), HandleError>))
        requires
            old(self).wf(),
        ensures
            final(self).wf(),
            final(self)@ == after_method_return(
                old(self)@,
                message@,
                view_of(call),
            ).names,
            r.0@ == after_method_return(
                old(self)@,
                message@,
                view_of(call),
            ).changes,
            r.1 == after_method_return(old(self)@, message@, view_of(call)).result,
    {
        match call {
            Some(call) => if call.header().names_member("org.freedesktop.DBus", "GetNameOwner") {
                self.handle_get_name_owner_message(call, message)
            } else {
                self.handle_ordinary_reply(call, message)
            },
            None => (Vec::new(), Ok(())),
        }
    }

    /// Takes a reply in that answers any call but `GetNameOwner`: both
    /// halves of what it shows, or nothing where one of them is refused.
    pub fn handle_ordinary_reply(&mut self, call: &Message, reply: &Message) -> (r: (
        Vec<ItemsChanged>,
        Result<(), HandleError>,
    ))
        requires
            old(self).wf(),
        ensures
            final(self).wf(),
            final(self)@ == after_ordinary_reply(old(self)@, call@, reply@).names,
            r.0@ == after_ordinary_reply(old(self)@, call@, reply@).changes,
            r.1 == after_ordinary_reply(old(self)@, call@, reply@).result,
    {
        match self.first_half_error(call, reply) {
            Some(error) => {
                return (Vec::new(), Err(error));
            },
            None => {},
        }
        match second_half_error(call, reply) {
            Some(error) => {
                return (Vec::new(), Err(error));
            },
            None => {},
        }
        let (mut changes, _) = self.handle_call_destination(call, reply);
        let (more, _) = self.handle_return_destination(call, reply);
        let mut more = more;
        changes.append(&mut more);
        (changes, Ok(()))
    }

    /// Why the first half of an ordinary reply would be refused, if it
    /// would.
    pub fn first_half_error(&self, call: &Message, reply: &Message) -> (error: Option<HandleError>)
        requires
            self.wf(),
        ensures
            error == call_destination_error(self@, call@, reply@),
    {
        let destination = match call.destination() {
            Some(destination) => destination,
            None => {
                return Some(HandleError::CallHasNoDestination);
            },
        };
        if !destination.is_unique() && !Message::is_fallback_destination(&destination)
            && self.get_index_of(&destination).is_some() && reply.sender().is_none() {
            Some(HandleError::ReturnHasNoSender)
        } else {
            None
        }
    }

    /// The first half of an ordinary reply: the entry that the destination
    /// of the call had of its own gives way to the sender of the reply.
    pub fn handle_call_destination(&mut self, call: &Message, reply: &Message) -> (r: (
        Vec<ItemsChanged>,
        Result<(), HandleError>,
    ))
        requires
            old(self).wf(),
        ensures
            final(self).wf(),
            final(self)@ == after_call_destination(old(self)@, call@, reply@).names,
            r.0@ == after_call_destination(old(self)@, call@, reply@).changes,
            r.1 == after_call_destination(old(self)@, call@, reply@).result,
    {
        let mut changes: Vec<ItemsChanged> = Vec::new();
        match self.first_half_error(call, reply) {
            Some(error) => {
                return (changes, Err(error));
            },
            None => {},
        }
        let destination = match call.destination() {
            Some(destination) => destination,
            None => {
                return (changes, Ok(()));
            },
        };
        if Message::is_fallback_destination(&destination) {
            return (changes, Ok(()));
        }
        let (wk_name, sender) = match (&destination, reply.sender()) {
            (BusName::WellKnown(wk_name), Some(sender)) => (wk_name, sender),
            _ => {
                return (changes, Ok(()));
            },
        };
        let removed = self.remove_bus_name(&destination);
        if removed.is_none() {
            return (changes, Ok(()));
        }
        note(&mut changes, removed);
        assert(changes@ =~= told(removed));
        // The name had an entry of its own, which is gone now. The reply shows
        // which connection stands behind the name.
        let ghost removed_view = self@;
        let change = self.insert_wk_name(
            BusName::Unique(sender.clone()),
            wk_name.clone(),
            reply.index(),
        );
        changes.push(change);
        // Then go back in time to when the name was first used, the call, and
        // add the name there.
        let change = self.insert_wk_name(
            BusName::Unique(sender.clone()),
            wk_name.clone(),
            call.index(),
        );
        proof {
            lemma_with_wk_name(removed_view, (true, sender@), wk_name@, reply@.index());
        }
        changes.push(change);
        assert(changes@ =~= told(removed) + with_wk_name_changes(removed_view, (true, sender@))
            + seq![change]);
        (changes, Ok(()))
    }

    /// The second half of an ordinary reply: a well-known name that the
    /// reply goes to is held by the sender of the call.
    pub fn handle_return_destination(&mut self, call: &Message, reply: &Message) -> (r: (
        Vec<ItemsChanged>,
        Result<(), HandleError>,
    ))
        requires
            old(self).wf(),
        ensures
            final(self).wf(),
            final(self)@ == after_return_destination(old(self)@, call@, reply@).names,
            r.0@ == after_return_destination(old(self)@, call@, reply@).changes,
            r.1 == after_return_destination(old(self)@, call@, reply@).result,
    {
        let mut changes: Vec<ItemsChanged> = Vec::new();
        match second_half_error(call, reply) {
            Some(error) => {
                return (changes, Err(error));
            },
            None => {},
        }
        match (reply.destination(), call.sender()) {
            (Some(BusName::WellKnown(wk_name)), Some(sender)) => {
                let change = self.insert_wk_name(
                    BusName::Unique(sender.clone()),
                    wk_name,
                    reply.index(),
                );
                changes.push(change);
                assert(changes@ =~= seq![change]);
            },
            _ => {},
        }
        (changes, Ok(()))
    }

    /// Takes the reply to a `GetNameOwner` call in: reads the name asked
    /// for and the owner given from the two bodies.
    pub fn handle_get_name_owner_message(&mut self, call: &Message, reply: &Message) -> (r: (
        Vec<ItemsChanged>,
        Result<(), HandleError>,
    ))
        requires
            old(self).wf(),
        ensures
            final(self).wf(),
            final(self)@ == after_get_name_owner(old(self)@, call@, reply@).names,
            r.0@ == after_get_name_owner(old(self)@, call@, reply@).changes,
            r.1 == after_get_name_owner(old(self)@, call@, reply@).result,
    {
        if reply.message_type().is_error() {
            return (Vec::new(), Ok(()));
        }
        let name = match decode_bus_name(
            call.body(),
            call.header().signature.as_str(),
            call.event().endian_sig(),
        ) {
            Some(name) => name,
            None => {
                return (Vec::new(), Err(HandleError::InvalidCallBody));
            },
        };
        let owner = match decode_unique_name(
            reply.body(),
            reply.header().signature.as_str(),
            reply.event().endian_sig(),
        ) {
            Some(owner) => owner,
            None => {
                return (Vec::new(), Err(HandleError::InvalidReturnBody));
            },
        };
        self.resolve_name(name, owner, call.index())
    }

    /// Notes what the bus daemon answered: `name` is held by `owner` as of
    /// `receive_index`, the index of the call that asked. For a unique name
    /// there is nothing to note.
    pub fn resolve_name(&mut self, name: BusName, owner: String, receive_index: ReceiveIndex) -> (r:
        (Vec<ItemsChanged>, Result<(), HandleError>))
        requires
            old(self).wf(),
        ensures
            final(self).wf(),
            final(self)@ == after_name_resolved(
                old(self)@,
                name@,
                owner@,
                receive_index.0 as int,
            ).names,
            r.0@ == after_name_resolved(old(self)@, name@, owner@, receive_index.0 as int).changes,
            r.1 == after_name_resolved(old(self)@, name@, owner@, receive_index.0 as int).result,
    {
        let mut changes: Vec<ItemsChanged> = Vec::new();
        match name {
            BusName::Unique(_) => {},
            BusName::WellKnown(wk_name) => {
                let change = self.insert_wk_name(BusName::Unique(owner), wk_name, receive_index);
                changes.push(change);
                assert(changes@ =~= seq![change]);
            },
        }
        (changes, Ok(()))
    }

    /// Takes a signal in.
    pub fn handle_signal_message(&mut self, message: &Message) -> (r: (
        Vec<ItemsChanged>,
        Result<(), HandleError>,
    ))
        requires
            old(self).wf(),
        ensures
            final(self).wf(),
            final(self)@ == after_signal(old(self)@, message@).names,
            r.0@ == after_signal(old(self)@, message@).changes,
            r.1 == after_signal(old(self)@, message@).result,
    {
        if message.header().names_member("org.freedesktop.DBus", "NameOwnerChanged") {
            return self.handle_name_owner_changed_message(message);
        }
        let mut changes: Vec<ItemsChanged> = Vec::new();
        match message.sender() {
            Some(sender) => {
                let change = self.insert_bus_name(BusName::Unique(sender.clone()));
                note(&mut changes, change);
                assert(changes@ =~= told(change));
            },
            None => {},
        }
        match message.destination() {
            Some(destination) => {
                let change = self.insert_bus_name(destination);
                note(&mut changes, change);
            },
            None => {},
        }
        (changes, Ok(()))
    }

    /// Takes a `NameOwnerChanged` signal in: reads the name and the two
    /// owners from its body.
    pub fn handle_name_owner_changed_message(&mut self, message: &Message) -> (r: (
        Vec<ItemsChanged>,
        Result<(), HandleError>,
    ))
        requires
            old(self).wf(),
        ensures
            final(self).wf(),
            final(self)@ == after_name_owner_changed(old(self)@, message@).names,
            r.0@ == after_name_owner_changed(old(self)@, message@).changes,
            r.1 == after_name_owner_changed(old(self)@, message@).result,
    {
        match decode_owner_change(
            message.body(),
            message.header().signature.as_str(),
            message.event().endian_sig(),
        ) {
            Some(change) => self.change_owner(change, message.index()),
            None => (Vec::new(), Err(HandleError::InvalidSignalBody)),
        }
    }

    /// Notes what the bus daemon told: a well-known name left its old owner
    /// and went to its new one at `receive_index`. The old owner lets go
    /// before the new one takes hold.
    pub fn change_owner(&mut self, change: NameOwnerChanged, receive_index: ReceiveIndex) -> (r: (
        Vec<ItemsChanged>,
        Result<(), HandleError>,
    ))
        requires
            old(self).wf(),
        ensures
            final(self).wf(),
            final(self)@ == after_owner_change(old(self)@, change@, receive_index.0 as int).names,
            r.0@ == after_owner_change(old(self)@, change@, receive_index.0 as int).changes,
            r.1 == after_owner_change(old(self)@, change@, receive_index.0 as int).result,
    {
        let mut changes: Vec<ItemsChanged> = Vec::new();
        if change.old_owner.is_none() && change.new_owner.is_none() {
            return (changes, Err(HandleError::NoOwners));
        }
        let NameOwnerChanged { name, old_owner, new_owner } = change;
        let wk_name = match name {
            BusName::Unique(_) => {
                return (changes, Ok(()));
            },
            BusName::WellKnown(wk_name) => wk_name,
        };
        match old_owner {
            Some(owner) => {
                let change = self.remove_wk_name(
                    BusName::Unique(owner),
                    wk_name.clone(),
                    receive_index,
                );
                note(&mut changes, change);
                assert(changes@ =~= told(change));
            },
            None => {},
        }
        match new_owner {
            Some(owner) => {
                let change = self.insert_wk_name(BusName::Unique(owner), wk_name, receive_index);
                changes.push(change);
            },
            None => {},
        }
        (changes, Ok(()))
    }
}

impl BusNameList {
    /// Whether, as of `receive_index`, every well-known name is held by at
    /// most one entry.
    pub fn has_unique_owners_at(&self, receive_index: ReceiveIndex) -> (unique: bool)
        requires
            self.wf(),
        ensures
            unique == unique_owners_at(self@, receive_index.0 as int),
    {
        let ghost n = receive_index.0 as int;
        let ghost dir = self@;
        let mut seen = empty_set();
        let count = self.n_items();
        let mut at: usize = 0;
        while at < count
            invariant
                at <= count,
                count == dir.len(),
                dir == self@,
                self.wf(),
                n == receive_index.0 as int,
                wk_name_seq(seen).no_duplicates(),
                forall|x: Seq<char>| #[trigger]
                    wk_name_seq(seen).contains(x) <==> exists|i: int|
                        0 <= i < at && #[trigger] holds(dir, i, x, n),
                forall|x: Seq<char>, i: int, j: int|
                    0 <= i < at && 0 <= j < at && #[trigger] holds(dir, i, x, n) && #[trigger] holds(
                        dir,
                        j,
                        x,
                        n,
                    ) ==> i == j,
            decreases count - at,
        {
            let ghost seen_before = wk_name_seq(seen);
            let item = match self.item(at) {
                Some(item) => item,
                None => {
                    return true;
                },
            };
            let held = item.wk_names(LookupPoint::Index(receive_index));
            let ghost names = wk_name_seq(held);
            assert(names == as_of(dir[at as int].log, n));
            let held_count = set_len(&held);
            let mut k: usize = 0;
            while k < held_count
                invariant
                    k <= held_count,
                    held_count == names.len(),
                    names == wk_name_seq(held),
                    names == as_of(dir[at as int].log, n),
                    names.no_duplicates(),
                    0 <= at < dir.len(),
                    dir == self@,
                    n == receive_index.0 as int,
                    wk_name_seq(seen).no_duplicates(),
                    forall|x: Seq<char>| #[trigger]
                        wk_name_seq(seen).contains(x) <==> seen_before.contains(x) || exists|j: int|
                            0 <= j < k && names[j] == x,
                    forall|j: int| 0 <= j < k ==> !seen_before.contains(#[trigger] names[j]),
                    forall|x: Seq<char>| #[trigger]
                        seen_before.contains(x) <==> exists|i: int|
                            0 <= i < at && #[trigger] holds(dir, i, x, n),
                decreases held_count - k,
            {
                let ghost before = wk_name_seq(seen);
                let name = match set_get(&held, k) {
                    Some(name) => name,
                    None => {
                        return true;
                    },
                };
                let ghost x = names[k as int];
                proof {
                    lemma_with_name(before, x);
                }
                let added = set_insert(&mut seen, name.clone());
                if !added {
                    proof {
                        // another entry holds the name too
                        assert(before.contains(x));
                        if !seen_before.contains(x) {
                            let j = choose|j: int| 0 <= j < k && names[j] == x;
                            assert(names[j] == names[k as int]);
                        }
                        let i = choose|i: int| 0 <= i < at && #[trigger] holds(dir, i, x, n);
                        assert(names.contains(x));
                        assert(holds(dir, at as int, x, n));
                        assert(!unique_owners_at(dir, n));
                    }
                    return false;
                }
                proof {
                    let after = wk_name_seq(seen);
                    assert forall|y: Seq<char>| #[trigger]
                        after.contains(y) <==> seen_before.contains(y) || exists|j: int|
                            0 <= j < k + 1 && names[j] == y by {
                        assert(after.contains(y) <==> before.contains(y) || y == x);
                        if y == x {
                            assert(names[k as int] == y);
                        }
                    }
                }
                k += 1;
            }
            proof {
                let after = wk_name_seq(seen);
                assert forall|y: Seq<char>| #[trigger]
                    after.contains(y) <==> exists|i: int|
                        0 <= i < at + 1 && #[trigger] holds(dir, i, y, n) by {
                    if after.contains(y) && !seen_before.contains(y) {
                        let j = choose|j: int| 0 <= j < held_count && names[j] == y;
                        assert(names.contains(y));
                        assert(holds(dir, at as int, y, n));
                    }
                    if exists|i: int| 0 <= i < at + 1 && #[trigger] holds(dir, i, y, n) {
                        let i = choose|i: int| 0 <= i < at + 1 && #[trigger] holds(dir, i, y, n);
                        if i == at {
                            let j = choose|j: int| 0 <= j < names.len() && names[j] == y;
                            assert(0 <= j < held_count && names[j] == y);
                        }
                    }
                }
                assert forall|y: Seq<char>, i: int, j: int|
                    0 <= i < at + 1 && 0 <= j < at + 1 && #[trigger] holds(dir, i, y, n)
                        && #[trigger] holds(dir, j, y, n) implies i == j by {
                    if i != j {
                        let other = if i == at { j } else { i };
                        if i == at || j == at {
                            // held by the entry at `at`, so not seen before
                            let p = choose|p: int| 0 <= p < names.len() && names[p] == y;
                            assert(!seen_before.contains(names[p]));
                            assert(holds(dir, other, y, n));
                        }
                    }
                }
            }
            at += 1;
        }
        true
    }
}

impl Default for BusNameList {
    fn default() -> (list: Self)
        ensures
            list.wf(),
            list@ == Seq::<BusNameItemView>::empty(),
    {
        BusNameList::new()
    }
}

} // verus!
