//! The mathematics of the directory of bus names: what each kind of message
//! does to it.

use crate::bus_name_item::BusNameItemView;
use crate::message::{is_fallback_name, MessageView};
use crate::message_type::MessageType;
use crate::name_args::{
    decoded_bus_name, decoded_owner_change, decoded_unique_name, NameOwnerChangedView,
};
use crate::snapshot_log::{claim, lemma_claim, lemma_release, release, SnapshotView};
use vstd::prelude::*;

verus! {

/// A change of a list as its observers are told of it: at `position`,
/// `removed` entries left and `added` entries came.
#[derive(Debug, Clone, Copy, PartialEq, Eq, Structural)]
pub struct ItemsChanged {
    pub position: usize,
    pub removed: usize,
    pub added: usize,
}

/// Why the directory could not take a message in. A message that is
/// refused leaves the directory as it was.
#[derive(Debug, Clone, Copy, PartialEq, Eq, Structural)]
pub enum HandleError {
    /// A method call names no sender.
    CallHasNoSender,
    /// The message that a reply answers has no destination.
    CallHasNoDestination,
    /// A reply names no sender.
    ReturnHasNoSender,
    /// A reply has no destination.
    ReturnHasNoDestination,
    /// The body of a `GetNameOwner` call is not one bus name.
    InvalidCallBody,
    /// The body of a reply to `GetNameOwner` is not one unique name.
    InvalidReturnBody,
    /// The body of a `NameOwnerChanged` signal is not a name and two owners.
    InvalidSignalBody,
    /// A `NameOwnerChanged` signal names neither an old nor a new owner.
    NoOwners,
}

/// The directory after a message, what its observers were told on the way,
/// and whether the message was taken in.
pub struct Outcome {
    pub names: Seq<BusNameItemView>,
    pub changes: Seq<ItemsChanged>,
    pub result: Result<(), HandleError>,
}

/// The interface of the bus daemon.
pub open spec fn dbus_interface() -> Seq<char> {
    "org.freedesktop.DBus"@
}

/// No two entries have the same name.
pub open spec fn names_distinct(dir: Seq<BusNameItemView>) -> bool {
    forall|i: int, j: int|
        0 <= i < j < dir.len() ==> (#[trigger] dir[i]).name != (#[trigger] dir[j]).name
}

/// Names are distinct and every history is well formed.
pub open spec fn directory_wf(dir: Seq<BusNameItemView>) -> bool {
    &&& names_distinct(dir)
    &&& forall|i: int| 0 <= i < dir.len() ==> (#[trigger] dir[i]).wf()
}

/// Whether the directory has an entry for `name`.
pub open spec fn has_name(dir: Seq<BusNameItemView>, name: (bool, Seq<char>)) -> bool {
    exists|i: int| 0 <= i < dir.len() && (#[trigger] dir[i]).name == name
}

/// The position of the entry for `name`.
pub open spec fn position_of(dir: Seq<BusNameItemView>, name: (bool, Seq<char>)) -> int {
    choose|i: int| 0 <= i < dir.len() && (#[trigger] dir[i]).name == name
}

/// An entry for `name` that holds nothing yet.
pub open spec fn fresh_entry(name: (bool, Seq<char>)) -> BusNameItemView {
    BusNameItemView { name, log: Seq::empty() }
}

/// The directory with an entry for `name`: as it was where it has one, and
/// with an empty entry at its end where it has none.
pub open spec fn with_bus_name(dir: Seq<BusNameItemView>, name: (bool, Seq<char>)) -> Seq<
    BusNameItemView,
> {
    if has_name(dir, name) {
        dir
    } else {
        dir.push(fresh_entry(name))
    }
}

/// What observers are told when an entry for `name` is asked for.
pub open spec fn with_bus_name_changes(dir: Seq<BusNameItemView>, name: (bool, Seq<char>)) -> Seq<
    ItemsChanged,
> {
    if has_name(dir, name) {
        Seq::empty()
    } else {
        seq![ItemsChanged { position: dir.len() as usize, removed: 0, added: 1 }]
    }
}

/// The directory after the entry for `name` claimed `wk_name` at `index`;
/// where there is no such entry, one is made at the end first.
pub open spec fn with_wk_name(
    dir: Seq<BusNameItemView>,
    name: (bool, Seq<char>),
    wk_name: Seq<char>,
    index: int,
) -> Seq<BusNameItemView> {
    if has_name(dir, name) {
        let at = position_of(dir, name);
        dir.update(at, BusNameItemView { name, log: claim(dir[at].log, index, wk_name) })
    } else {
        dir.push(
            BusNameItemView { name, log: claim(Seq::<SnapshotView>::empty(), index, wk_name) },
        )
    }
}

/// What observers are told when the entry for `name` claims a name.
pub open spec fn with_wk_name_changes(dir: Seq<BusNameItemView>, name: (bool, Seq<char>)) -> Seq<
    ItemsChanged,
> {
    if has_name(dir, name) {
        seq![ItemsChanged { position: position_of(dir, name) as usize, removed: 1, added: 1 }]
    } else {
        seq![ItemsChanged { position: dir.len() as usize, removed: 0, added: 1 }]
    }
}

/// The directory after the entry for `name` released `wk_name` at `index`;
/// unchanged where there is no such entry.
pub open spec fn without_wk_name(
    dir: Seq<BusNameItemView>,
    name: (bool, Seq<char>),
    wk_name: Seq<char>,
    index: int,
) -> Seq<BusNameItemView> {
    if has_name(dir, name) {
        let at = position_of(dir, name);
        dir.update(at, BusNameItemView { name, log: release(dir[at].log, index, wk_name) })
    } else {
        dir
    }
}

/// What observers are told when the entry for `name` releases a name.
pub open spec fn without_wk_name_changes(dir: Seq<BusNameItemView>, name: (bool, Seq<char>)) -> Seq<
    ItemsChanged,
> {
    if has_name(dir, name) {
        seq![ItemsChanged { position: position_of(dir, name) as usize, removed: 1, added: 1 }]
    } else {
        Seq::empty()
    }
}

/// The directory without the entry for `name`.
pub open spec fn without_entry(dir: Seq<BusNameItemView>, name: (bool, Seq<char>)) -> Seq<
    BusNameItemView,
> {
    if has_name(dir, name) {
        dir.remove(position_of(dir, name))
    } else {
        dir
    }
}

/// What observers are told when the entry for `name` leaves.
pub open spec fn without_entry_changes(dir: Seq<BusNameItemView>, name: (bool, Seq<char>)) -> Seq<
    ItemsChanged,
> {
    if has_name(dir, name) {
        seq![ItemsChanged { position: position_of(dir, name) as usize, removed: 1, added: 0 }]
    } else {
        Seq::empty()
    }
}

/// The directory as it was, nothing told, and the result given.
pub open spec fn unchanged(dir: Seq<BusNameItemView>, result: Result<(), HandleError>) -> Outcome {
    Outcome { names: dir, changes: Seq::empty(), result }
}

/// After a method call its sender and its destination have entries. A call
/// that lacks one of the two is refused.
pub open spec fn after_method_call(dir: Seq<BusNameItemView>, message: MessageView) -> Outcome {
    match message.header().sender {
        None => unchanged(dir, Err(HandleError::CallHasNoSender)),
        Some(sender) => match message.header().destination_or_fallback() {
            None => unchanged(dir, Err(HandleError::CallHasNoDestination)),
            Some(destination) => {
                let with_sender = with_bus_name(dir, (true, sender));
                Outcome {
                    names: with_bus_name(with_sender, destination),
                    changes: with_bus_name_changes(dir, (true, sender)) + with_bus_name_changes(
                        with_sender,
                        destination,
                    ),
                    result: Ok(()),
                }
            },
        },
    }
}

/// After the bus daemon answered who owns `name`: a well-known name is
/// held by `owner` as of `index`; a unique name changes nothing.
pub open spec fn after_name_resolved(
    dir: Seq<BusNameItemView>,
    name: (bool, Seq<char>),
    owner: Seq<char>,
    index: int,
) -> Outcome {
    if name.0 {
        Outcome { names: dir, changes: Seq::empty(), result: Ok(()) }
    } else {
        Outcome {
            names: with_wk_name(dir, (true, owner), name.1, index),
            changes: with_wk_name_changes(dir, (true, owner)),
            result: Ok(()),
        }
    }
}

/// After the reply to a `GetNameOwner` call: the name that the call asked
/// for is held by the owner that the reply gives, as of the index of the
/// call. An error as reply changes nothing.
pub open spec fn after_get_name_owner(
    dir: Seq<BusNameItemView>,
    call: MessageView,
    reply: MessageView,
) -> Outcome {
    if reply.header().message_type is Error {
        Outcome { names: dir, changes: Seq::empty(), result: Ok(()) }
    } else {
        match decoded_bus_name(
            call.event.body(),
            call.header().signature,
            call.event.endian_sig(),
        ) {
            None => Outcome {
                names: dir,
                changes: Seq::empty(),
                result: Err(HandleError::InvalidCallBody),
            },
            Some(name) => match decoded_unique_name(
                reply.event.body(),
                reply.header().signature,
                reply.event.endian_sig(),
            ) {
                None => Outcome {
                    names: dir,
                    changes: Seq::empty(),
                    result: Err(HandleError::InvalidReturnBody),
                },
                Some(owner) => after_name_resolved(dir, name, owner, call.index()),
            },
        }
    }
}

/// Whether `destination` is a well-known name that still has an entry of
/// its own, which gives way once its owner shows.
pub open spec fn gives_way(dir: Seq<BusNameItemView>, destination: (bool, Seq<char>)) -> bool {
    !destination.0 && !is_fallback_name(destination) && has_name(dir, destination)
}

/// Why the first half of an ordinary reply is refused, if it is: the call
/// has no destination, or an entry is to give way and the reply names no
/// sender to take its place.
pub open spec fn call_destination_error(
    dir: Seq<BusNameItemView>,
    call: MessageView,
    reply: MessageView,
) -> Option<HandleError> {
    match call.header().destination_or_fallback() {
        None => Some(HandleError::CallHasNoDestination),
        Some(destination) => if gives_way(dir, destination) && reply.header().sender is None {
            Some(HandleError::ReturnHasNoSender)
        } else {
            None
        },
    }
}

/// Why the second half of an ordinary reply is refused, if it is: the
/// reply has no destination, or it goes to a well-known name and the call
/// names no sender to hold it.
pub open spec fn return_destination_error(call: MessageView, reply: MessageView) -> Option<
    HandleError,
> {
    match reply.header().destination_or_fallback() {
        None => Some(HandleError::ReturnHasNoDestination),
        Some(destination) => if !destination.0 && call.header().sender is None {
            Some(HandleError::CallHasNoSender)
        } else {
            None
        },
    }
}

/// The first half of what an ordinary reply does. Where the call went to a
/// well-known name that still has an entry of its own, the sender of the
/// reply turns out to be its owner: that entry leaves, and the sender holds
/// the name as of the reply and, dated back, as of the call.
pub open spec fn after_call_destination(
    dir: Seq<BusNameItemView>,
    call: MessageView,
    reply: MessageView,
) -> Outcome {
    match call_destination_error(dir, call, reply) {
        Some(error) => unchanged(dir, Err(error)),
        None => {
            let destination = call.header().destination_or_fallback().unwrap();
            if gives_way(dir, destination) {
                let removed = without_entry(dir, destination);
                let owner = (true, reply.header().sender.unwrap());
                let claimed = with_wk_name(removed, owner, destination.1, reply.index());
                Outcome {
                    names: with_wk_name(claimed, owner, destination.1, call.index()),
                    changes: without_entry_changes(dir, destination) + with_wk_name_changes(
                        removed,
                        owner,
                    ) + seq![
                        ItemsChanged {
                            position: position_of(claimed, owner) as usize,
                            removed: 1,
                            added: 1,
                        },
                    ],
                    result: Ok(()),
                }
            } else {
                unchanged(dir, Ok(()))
            }
        },
    }
}

/// The second half of what an ordinary reply does. Where the reply goes to
/// a well-known name, the sender of the call holds that name as of the
/// reply.
pub open spec fn after_return_destination(
    dir: Seq<BusNameItemView>,
    call: MessageView,
    reply: MessageView,
) -> Outcome {
    match return_destination_error(call, reply) {
        Some(error) => unchanged(dir, Err(error)),
        None => {
            let destination = reply.header().destination_or_fallback().unwrap();
            if destination.0 {
                unchanged(dir, Ok(()))
            } else {
                let owner = (true, call.header().sender.unwrap());
                Outcome {
                    names: with_wk_name(dir, owner, destination.1, reply.index()),
                    changes: with_wk_name_changes(dir, owner),
                    result: Ok(()),
                }
            }
        },
    }
}

/// After an ordinary reply: both halves, or nothing where one of them is
/// refused.
pub open spec fn after_ordinary_reply(
    dir: Seq<BusNameItemView>,
    call: MessageView,
    reply: MessageView,
) -> Outcome {
    match call_destination_error(dir, call, reply) {
        Some(error) => unchanged(dir, Err(error)),
        None => match return_destination_error(call, reply) {
            Some(error) => unchanged(dir, Err(error)),
            None => {
                let first = after_call_destination(dir, call, reply);
                let second = after_return_destination(first.names, call, reply);
                Outcome {
                    names: second.names,
                    changes: first.changes + second.changes,
                    result: Ok(()),
                }
            },
        },
    }
}

/// After a method return or an error, given the call it answers. A reply
/// whose call was never seen is no error: it stays without a partner, and
/// the directory learns nothing from it.
pub open spec fn after_method_return(
    dir: Seq<BusNameItemView>,
    reply: MessageView,
    call: Option<MessageView>,
) -> Outcome {
    match call {
        None => unchanged(dir, Ok(())),
        Some(call) => if call.header().names_member(dbus_interface(), "GetNameOwner"@) {
            after_get_name_owner(dir, call, reply)
        } else {
            after_ordinary_reply(dir, call, reply)
        },
    }
}

/// After the bus daemon told that `change.name` went from one owner to
/// another at `index`: the old owner releases a well-known name, then the
/// new owner claims it. Without both owners the signal is refused; a unique
/// name changes nothing.
pub open spec fn after_owner_change(
    dir: Seq<BusNameItemView>,
    change: NameOwnerChangedView,
    index: int,
) -> Outcome {
    if change.old_owner is None && change.new_owner is None {
        Outcome { names: dir, changes: Seq::empty(), result: Err(HandleError::NoOwners) }
    } else if change.name.0 {
        Outcome { names: dir, changes: Seq::empty(), result: Ok(()) }
    } else {
        let released = match change.old_owner {
            Some(owner) => without_wk_name(dir, (true, owner), change.name.1, index),
            None => dir,
        };
        let told = match change.old_owner {
            Some(owner) => without_wk_name_changes(dir, (true, owner)),
            None => Seq::empty(),
        };
        match change.new_owner {
            Some(owner) => Outcome {
                names: with_wk_name(released, (true, owner), change.name.1, index),
                changes: told + with_wk_name_changes(released, (true, owner)),
                result: Ok(()),
            },
            None => Outcome { names: released, changes: told, result: Ok(()) },
        }
    }
}

/// After a `NameOwnerChanged` signal.
pub open spec fn after_name_owner_changed(dir: Seq<BusNameItemView>, message: MessageView) -> Outcome {
    match decoded_owner_change(
        message.event.body(),
        message.header().signature,
        message.event.endian_sig(),
    ) {
        None => Outcome {
            names: dir,
            changes: Seq::empty(),
            result: Err(HandleError::InvalidSignalBody),
        },
        Some(change) => after_owner_change(dir, change, message.index()),
    }
}

/// After a signal: one of `NameOwnerChanged` moves a name; after any other
/// its sender and its destination have entries.
pub open spec fn after_signal(dir: Seq<BusNameItemView>, message: MessageView) -> Outcome {
    if message.header().names_member(dbus_interface(), "NameOwnerChanged"@) {
        after_name_owner_changed(dir, message)
    } else {
        let with_sender = match message.header().sender {
            Some(sender) => with_bus_name(dir, (true, sender)),
            None => dir,
        };
        let told = match message.header().sender {
            Some(sender) => with_bus_name_changes(dir, (true, sender)),
            None => Seq::empty(),
        };
        match message.header().destination_or_fallback() {
            Some(destination) => Outcome {
                names: with_bus_name(with_sender, destination),
                changes: told + with_bus_name_changes(with_sender, destination),
                result: Ok(()),
            },
            None => Outcome { names: with_sender, changes: told, result: Ok(()) },
        }
    }
}

/// After any message, given the call it answers if it is a reply that has
/// one.
pub open spec fn after_message(
    dir: Seq<BusNameItemView>,
    message: MessageView,
    call: Option<MessageView>,
) -> Outcome {
    match message.header().message_type {
        MessageType::MethodCall => after_method_call(dir, message),
        MessageType::MethodReturn | MessageType::Error => after_method_return(dir, message, call),
        MessageType::Signal => after_signal(dir, message),
    }
}

/// What an optional change stands for: the changes told, one or none.
pub open spec fn told(change: Option<ItemsChanged>) -> Seq<ItemsChanged> {
    match change {
        Some(change) => seq![change],
        None => Seq::empty(),
    }
}

/// An entry with the name shows that the directory has it, and where.
pub proof fn lemma_position(dir: Seq<BusNameItemView>, name: (bool, Seq<char>), at: int)
    requires
        names_distinct(dir),
        0 <= at < dir.len(),
        dir[at].name == name,
    ensures
        has_name(dir, name),
        position_of(dir, name) == at,
{
    let p = position_of(dir, name);
    if p < at {
        assert(dir[p].name != dir[at].name);
    } else if at < p {
        assert(dir[at].name != dir[p].name);
    }
}

/// A directory stays well formed when an entry is asked for.
pub proof fn lemma_with_bus_name(dir: Seq<BusNameItemView>, name: (bool, Seq<char>))
    requires
        directory_wf(dir),
    ensures
        directory_wf(with_bus_name(dir, name)),
        has_name(with_bus_name(dir, name), name),
        forall|other: (bool, Seq<char>)|
            has_name(dir, other) ==> #[trigger] has_name(with_bus_name(dir, name), other),
{
    let out = with_bus_name(dir, name);
    if !has_name(dir, name) {
        assert forall|i: int, j: int| 0 <= i < j < out.len() implies (#[trigger] out[i]).name != (
        #[trigger] out[j]).name by {
            if j == dir.len() {
                assert(dir[i].name != name);
            } else {
                assert(dir[i].name != dir[j].name);
            }
        }
        assert forall|i: int| 0 <= i < out.len() implies (#[trigger] out[i]).wf() by {
            if i < dir.len() {
                assert(dir[i].wf());
            }
        }
        assert(out[dir.len() as int].name == name);
    }
    assert forall|other: (bool, Seq<char>)| has_name(dir, other) implies #[trigger] has_name(
        out,
        other,
    ) by {
        let i = position_of(dir, other);
        assert(out[i].name == other);
    }
}

/// A directory stays well formed when an entry claims a name, and keeps
/// its names.
pub proof fn lemma_with_wk_name(
    dir: Seq<BusNameItemView>,
    name: (bool, Seq<char>),
    wk_name: Seq<char>,
    index: int,
)
    requires
        directory_wf(dir),
    ensures
        directory_wf(with_wk_name(dir, name, wk_name, index)),
        has_name(with_wk_name(dir, name, wk_name, index), name),
        forall|other: (bool, Seq<char>)|
            has_name(dir, other) <==> #[trigger] has_name(
                with_wk_name(dir, name, wk_name, index),
                other,
            ) && (other != name || has_name(dir, name)),
        has_name(dir, name) ==> position_of(with_wk_name(dir, name, wk_name, index), name)
            == position_of(dir, name),
        !has_name(dir, name) ==> position_of(with_wk_name(dir, name, wk_name, index), name)
            == dir.len(),
        with_wk_name(dir, name, wk_name, index).len() == dir.len() + if has_name(dir, name) {
            0int
        } else {
            1int
        },
{
    let out = with_wk_name(dir, name, wk_name, index);
    let at = if has_name(dir, name) {
        position_of(dir, name)
    } else {
        dir.len() as int
    };
    let before = if has_name(dir, name) {
        dir[at].log
    } else {
        Seq::<SnapshotView>::empty()
    };
    if has_name(dir, name) {
        assert(dir[at].wf());
    }
    lemma_claim(before, index, wk_name, 0);
    assert forall|i: int| 0 <= i < out.len() implies (#[trigger] out[i]).name == (if i < dir.len() {
        dir[i].name
    } else {
        name
    }) && out[i].wf() by {
        if i != at {
            assert(dir[i].wf());
        }
    }
    assert forall|i: int, j: int| 0 <= i < j < out.len() implies (#[trigger] out[i]).name != (
    #[trigger] out[j]).name by {
        if j == dir.len() {
            assert(dir[i].name != name);
        } else {
            assert(dir[i].name != dir[j].name);
        }
    }
    assert(out[at].name == name);
    lemma_position(out, name, at);
    assert forall|other: (bool, Seq<char>)|
        has_name(dir, other) <==> #[trigger] has_name(out, other) && (other != name || has_name(
            dir,
            name,
        )) by {
        if has_name(dir, other) {
            let i = position_of(dir, other);
            assert(out[i].name == other);
        }
        if has_name(out, other) && (other != name || has_name(dir, name)) {
            let i = position_of(out, other);
            if i < dir.len() {
                assert(dir[i].name == other);
            }
        }
    }
}

/// A directory stays well formed when an entry releases a name, and keeps
/// its names.
pub proof fn lemma_without_wk_name(
    dir: Seq<BusNameItemView>,
    name: (bool, Seq<char>),
    wk_name: Seq<char>,
    index: int,
)
    requires
        directory_wf(dir),
    ensures
        directory_wf(without_wk_name(dir, name, wk_name, index)),
        without_wk_name(dir, name, wk_name, index).len() == dir.len(),
        forall|other: (bool, Seq<char>)|
            has_name(dir, other) <==> #[trigger] has_name(
                without_wk_name(dir, name, wk_name, index),
                other,
            ),
{
    let out = without_wk_name(dir, name, wk_name, index);
    if has_name(dir, name) {
        let at = position_of(dir, name);
        assert(dir[at].wf());
        lemma_release(dir[at].log, index, wk_name, 0);
        assert forall|i: int| 0 <= i < out.len() implies (#[trigger] out[i]).name == dir[i].name
            && out[i].wf() by {
            if i != at {
                assert(dir[i].wf());
            }
        }
        assert forall|i: int, j: int| 0 <= i < j < out.len() implies (#[trigger] out[i]).name != (
        #[trigger] out[j]).name by {
            assert(dir[i].name != dir[j].name);
        }
        assert forall|other: (bool, Seq<char>)| has_name(dir, other) <==> #[trigger] has_name(
            out,
            other,
        ) by {
            if has_name(dir, other) {
                let i = position_of(dir, other);
                assert(out[i].name == other);
            }
            if has_name(out, other) {
                let i = position_of(out, other);
                assert(dir[i].name == other);
            }
        }
    }
}

/// A directory stays well formed when an entry leaves, and then lacks its
/// name.
pub proof fn lemma_without_entry(dir: Seq<BusNameItemView>, name: (bool, Seq<char>))
    requires
        directory_wf(dir),
    ensures
        directory_wf(without_entry(dir, name)),
        !has_name(without_entry(dir, name), name),
{
    let out = without_entry(dir, name);
    if has_name(dir, name) {
        let at = position_of(dir, name);
        assert forall|i: int| 0 <= i < out.len() implies (#[trigger] out[i]) == (if i < at {
            dir[i]
        } else {
            dir[i + 1]
        }) by {}
        assert forall|i: int, j: int| 0 <= i < j < out.len() implies (#[trigger] out[i]).name != (
        #[trigger] out[j]).name by {
            let oi = if i < at { i } else { i + 1 };
            let oj = if j < at { j } else { j + 1 };
            assert(dir[oi].name != dir[oj].name);
        }
        assert forall|i: int| 0 <= i < out.len() implies (#[trigger] out[i]).wf() by {
            let oi = if i < at { i } else { i + 1 };
            assert(dir[oi].wf());
        }
        if has_name(out, name) {
            let i = position_of(out, name);
            let oi = if i < at { i } else { i + 1 };
            if oi < at {
                assert(dir[oi].name != dir[at].name);
            } else {
                assert(dir[at].name != dir[oi].name);
            }
        }
    }
}

/// A message of which observers are told nothing leaves the directory as
/// it was.
pub proof fn lemma_nothing_told_nothing_changed(
    dir: Seq<BusNameItemView>,
    message: MessageView,
    call: Option<MessageView>,
)
    ensures
        after_message(dir, message, call).changes.len() == 0 ==> after_message(
            dir,
            message,
            call,
        ).names == dir,
{
}

/// Where a reply shows who owns a well-known name that had an entry of its
/// own, observers are told first that this entry left, and only then of
/// the owner: at no time do they see the name twice.
pub proof fn lemma_entry_leaves_before_owner_comes(
    dir: Seq<BusNameItemView>,
    call: MessageView,
    reply: MessageView,
)
    requires
        directory_wf(dir),
        after_call_destination(dir, call, reply).changes.len() > 0,
    ensures
        call.header().destination_or_fallback() is Some,
        ({
            let destination = call.header().destination_or_fallback().unwrap();
            let out = after_call_destination(dir, call, reply);
            &&& has_name(dir, destination)
            &&& out.changes[0] == (ItemsChanged {
                position: position_of(dir, destination) as usize,
                removed: 1,
                added: 0,
            })
            &&& !has_name(out.names, destination)
        }),
{
    let destination = call.header().destination_or_fallback().unwrap();
    lemma_without_entry(dir, destination);
    let removed = without_entry(dir, destination);
    let sender = reply.header().sender.unwrap();
    lemma_with_wk_name(removed, (true, sender), destination.1, reply.index());
    let claimed = with_wk_name(removed, (true, sender), destination.1, reply.index());
    lemma_with_wk_name(claimed, (true, sender), destination.1, call.index());
}

/// A message that is refused leaves the directory as it was, and observers
/// are told nothing.
pub proof fn lemma_refused_message_changes_nothing(
    dir: Seq<BusNameItemView>,
    message: MessageView,
    call: Option<MessageView>,
)
    ensures
        after_message(dir, message, call).result is Err ==> after_message(dir, message, call).names
            == dir && after_message(dir, message, call).changes.len() == 0,
{
}

/// A reply whose call was never seen is taken in without complaint, and
/// teaches the directory nothing.
pub proof fn lemma_orphan_reply_is_no_error(dir: Seq<BusNameItemView>, reply: MessageView)
    requires
        reply.header().message_type is MethodReturn || reply.header().message_type is Error,
    ensures
        after_message(dir, reply, None) == unchanged(dir, Ok(())),
{
}

} // verus!
