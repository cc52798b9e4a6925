//! The mathematics of the stream of messages: what appending a message does
//! to the messages before it and to the directory of bus names.

use crate::bus_name_item::BusNameItemView;
use crate::directory::{
    after_message, directory_wf, lemma_nothing_told_nothing_changed, HandleError, ItemsChanged,
};
use crate::message::{is_reply, EventView, MessageView, ReceiveIndex};
use crate::message_tag::{guess_tag_of, MessageTag};
use crate::ownership::{
    claims_agree, lemma_message_dates_nothing_ahead, lemma_message_keeps_owners_unique,
    lemma_message_that_disagrees_breaks_uniqueness, newest, unique_owners,
};
use vstd::prelude::*;

verus! {

/// What a stream stands for: its messages in the order of their arrival,
/// and the directory of the bus names seen in them.
pub struct MessageListView {
    pub messages: Seq<MessageView>,
    pub names: Seq<BusNameItemView>,
}

/// What appending a message gives: the stream after it, what observers of
/// the directory are to be told, and whether the directory took the message
/// in.
pub struct PushedView {
    pub list: MessageListView,
    pub name_changes: Seq<ItemsChanged>,
    pub result: Result<(), HandleError>,
}

/// The receipt index of the message at position `i`.
pub open spec fn place(i: int) -> ReceiveIndex {
    ReceiveIndex(i as u32)
}

/// `candidate` is a call that `reply` answers and that has no reply yet.
pub open spec fn answers(reply: MessageView, candidate: MessageView) -> bool {
    candidate.associated_message is None && reply.is_return_of(candidate)
}

/// The message at `at` is the most recent one that `reply` answers.
pub open spec fn nearest_call(messages: Seq<MessageView>, reply: MessageView, at: int) -> bool {
    &&& 0 <= at < messages.len()
    &&& answers(reply, messages[at])
    &&& forall|k: int| at < k < messages.len() ==> !answers(reply, #[trigger] messages[k])
}

/// The position of the call that a new message answers: for a reply the
/// most recent call without a reply that it answers, if there is one.
pub open spec fn matching_call(messages: Seq<MessageView>, message: MessageView) -> Option<int> {
    if is_reply(message) && exists|at: int| nearest_call(messages, message, at) {
        Some(choose|at: int| nearest_call(messages, message, at))
    } else {
        None
    }
}

/// The receipt index of a partner found at a position.
pub open spec fn partner(at: Option<int>) -> Option<ReceiveIndex> {
    match at {
        Some(at) => Some(place(at)),
        None => None,
    }
}

/// The message at `i` has no partner, or has one that names it back; of
/// the two the earlier is a call and the later a reply that answers it.
pub open spec fn paired(messages: Seq<MessageView>, i: int) -> bool {
    match messages[i].associated_message {
        None => true,
        Some(other) => {
            let j = other.0 as int;
            &&& 0 <= j < messages.len()
            &&& j != i
            &&& messages[j].associated_message == Some(place(i))
            &&& if j < i {
                is_reply(messages[i]) && messages[i].is_return_of(messages[j])
            } else {
                is_reply(messages[j]) && messages[j].is_return_of(messages[i])
            }
        },
    }
}

/// Every message bears its position as receipt index, partners name each
/// other, the directory is well formed, and no ownership is dated after the
/// last message.
pub open spec fn stream_wf(list: MessageListView) -> bool {
    &&& list.messages.len() <= u32::MAX
    &&& forall|i: int|
        0 <= i < list.messages.len() ==> (#[trigger] list.messages[i]).receive_index == Some(
            place(i),
        )
    &&& forall|i: int| 0 <= i < list.messages.len() ==> #[trigger] paired(list.messages, i)
    &&& directory_wf(list.names)
    &&& newest(list.names, list.messages.len() - 1)
}

/// The messages with the one at `at` noting `other` as its partner.
pub open spec fn with_partner(messages: Seq<MessageView>, at: int, other: ReceiveIndex) -> Seq<
    MessageView,
> {
    messages.update(at, MessageView { associated_message: Some(other), ..messages[at] })
}

/// The stream after the message of `event` arrived. The message gets the
/// next receipt index. A reply is paired with the call it answers. The
/// directory takes the message in, and last the message gets its tag.
pub open spec fn pushed(list: MessageListView, event: EventView) -> PushedView {
    let index = place(list.messages.len() as int);
    let placed = MessageView {
        event,
        message_tag: MessageTag::Unknown,
        receive_index: Some(index),
        associated_message: None,
    };
    let call_at = matching_call(list.messages, placed);
    let message = MessageView { associated_message: partner(call_at), ..placed };
    let messages = match call_at {
        Some(at) => with_partner(list.messages, at, index),
        None => list.messages,
    };
    let call = match call_at {
        Some(at) => Some(messages[at]),
        None => None,
    };
    let outcome = after_message(list.names, message, call);
    let tagged = MessageView { message_tag: guess_tag_of(message, call), ..message };
    PushedView {
        list: MessageListView { messages: messages.push(tagged), names: outcome.names },
        name_changes: outcome.changes,
        result: outcome.result,
    }
}

/// The events that the messages were made of.
pub open spec fn events_of(messages: Seq<MessageView>) -> Seq<EventView> {
    messages.map_values(|message: MessageView| message.event)
}

/// The stream without messages.
pub open spec fn empty_list() -> MessageListView {
    MessageListView { messages: Seq::empty(), names: Seq::empty() }
}

/// The stream that the events give when they arrive one after the other.
pub open spec fn replay(events: Seq<EventView>) -> MessageListView
    decreases events.len(),
{
    if events.len() == 0 {
        empty_list()
    } else {
        pushed(replay(events.drop_last()), events.last()).list
    }
}

/// A reply finds the one call that is the nearest it answers.
pub proof fn lemma_matching_call(messages: Seq<MessageView>, reply: MessageView, at: int)
    requires
        is_reply(reply),
        nearest_call(messages, reply, at),
    ensures
        matching_call(messages, reply) == Some(at),
{
    let c = choose|c: int| nearest_call(messages, reply, c);
    if c < at {
        assert(!answers(reply, messages[at]));
    } else if at < c {
        assert(!answers(reply, messages[c]));
    }
}

/// A message that answers none of the messages finds no call.
pub proof fn lemma_no_matching_call(messages: Seq<MessageView>, message: MessageView)
    requires
        !is_reply(message) || forall|k: int|
            0 <= k < messages.len() ==> !answers(message, #[trigger] messages[k]),
    ensures
        matching_call(messages, message) is None,
{
    if is_reply(message) && exists|at: int| nearest_call(messages, message, at) {
        let c = choose|c: int| nearest_call(messages, message, c);
        assert(!answers(message, messages[c]));
    }
}

/// What is found is a call without a reply that the message answers, and
/// the nearest such.
pub proof fn lemma_matching_call_found(messages: Seq<MessageView>, message: MessageView)
    ensures
        matching_call(messages, message) matches Some(at) ==> is_reply(message) && nearest_call(
            messages,
            message,
            at,
        ),
        matching_call(messages, message) is None && is_reply(message) ==> forall|k: int|
            0 <= k < messages.len() ==> !answers(message, #[trigger] messages[k]),
{
    if matching_call(messages, message) is None && is_reply(message) {
        assert forall|k: int| 0 <= k < messages.len() implies !answers(
            message,
            #[trigger] messages[k],
        ) by {
            if answers(message, messages[k]) {
                lemma_some_nearest(messages, message, k, messages.len() as int);
            }
        }
    }
}

/// Where the message answers the one at `k`, some message from `k` on,
/// before `end`, is the nearest it answers there.
proof fn lemma_some_nearest(messages: Seq<MessageView>, message: MessageView, k: int, end: int)
    requires
        0 <= k < end <= messages.len(),
        answers(message, messages[k]),
        forall|j: int| end <= j < messages.len() ==> !answers(message, #[trigger] messages[j]),
    ensures
        exists|at: int| nearest_call(messages, message, at),
    decreases end - k,
{
    if answers(message, messages[end - 1]) {
        assert(nearest_call(messages, message, end - 1));
    } else {
        lemma_some_nearest(messages, message, k, end - 1);
    }
}

/// Appending keeps a stream well formed, as far as the messages go: the
/// new message stands last with the next receipt index, the messages
/// before it keep all but, for the call that was answered, the partner.
pub proof fn lemma_pushed(list: MessageListView, event: EventView)
    requires
        stream_wf(list),
        list.messages.len() < u32::MAX,
    ensures
        pushed(list, event).list.messages.len() == list.messages.len() + 1,
        pushed(list, event).list.messages.last().event == event,
        pushed(list, event).list.messages.last().receive_index == Some(
            place(list.messages.len() as int),
        ),
        forall|i: int|
            0 <= i < list.messages.len() ==> (#[trigger] pushed(list, event).list.messages[i]).event
                == list.messages[i].event && pushed(list, event).list.messages[i].receive_index
                == Some(place(i)) && pushed(list, event).list.messages[i].message_tag
                == list.messages[i].message_tag,
        forall|i: int|
            0 <= i <= list.messages.len() ==> #[trigger] paired(pushed(list, event).list.messages, i),
        events_of(pushed(list, event).list.messages) == events_of(list.messages).push(event),
{
    let n = list.messages.len() as int;
    let index = place(n);
    let placed = MessageView {
        event,
        message_tag: MessageTag::Unknown,
        receive_index: Some(index),
        associated_message: None,
    };
    let call_at = matching_call(list.messages, placed);
    lemma_matching_call_found(list.messages, placed);
    let out = pushed(list, event).list.messages;
    assert forall|i: int| 0 <= i <= n implies #[trigger] paired(out, i) by {
        match call_at {
            Some(at) => {
                assert(list.messages[at].associated_message is None);
                if i == n {
                    assert(out[n].is_return_of(out[at]));
                } else if i == at {
                    assert(out[n].is_return_of(out[at]));
                } else {
                    assert(paired(list.messages, i));
                    if list.messages[i].associated_message is Some {
                        let j = list.messages[i].partner_index();
                        assert(j != at);
                        assert(out[j] == list.messages[j]);
                    }
                }
            },
            None => {
                if i < n {
                    assert(paired(list.messages, i));
                }
            },
        }
    }
    assert(events_of(out) =~= events_of(list.messages).push(event));
}

/// The message that the event at the end of a stream of `count` messages
/// makes, before it is paired and tagged.
pub open spec fn arrived(event: EventView, count: int) -> MessageView {
    MessageView {
        event,
        message_tag: MessageTag::Unknown,
        receive_index: Some(place(count)),
        associated_message: None,
    }
}

/// Receipt indices are the positions in the stream: they begin at zero,
/// leave no gap, and a message that came earlier has the smaller one.
pub proof fn lemma_receipt_indices_are_dense(list: MessageListView, i: int, j: int)
    requires
        stream_wf(list),
        0 <= i < j < list.messages.len(),
    ensures
        list.messages[i].index() == i,
        list.messages[j].index() == j,
        list.messages[i].index() < list.messages[j].index(),
{
}

/// Appending gives the new message the count of the messages before it as
/// receipt index, and leaves every earlier receipt index as it was.
pub proof fn lemma_push_assigns_next_index(list: MessageListView, event: EventView, i: int)
    requires
        stream_wf(list),
        list.messages.len() < u32::MAX,
        0 <= i < list.messages.len(),
    ensures
        pushed(list, event).list.messages.last().index() == list.messages.len(),
        pushed(list, event).list.messages[i].index() == list.messages[i].index(),
{
    lemma_pushed(list, event);
}

/// A reply is paired with the nearest call that it answers and that has
/// no reply yet, and that call with the reply; no other message changes
/// its partner.
pub proof fn lemma_reply_pairs_with_nearest_call(list: MessageListView, event: EventView, at: int)
    requires
        stream_wf(list),
        list.messages.len() < u32::MAX,
        is_reply(arrived(event, list.messages.len() as int)),
        nearest_call(list.messages, arrived(event, list.messages.len() as int), at),
    ensures
        pushed(list, event).list.messages.last().associated_message == Some(place(at)),
        pushed(list, event).list.messages[at].associated_message == Some(
            place(list.messages.len() as int),
        ),
        forall|i: int|
            0 <= i < list.messages.len() && i != at ==> (#[trigger] pushed(
                list,
                event,
            ).list.messages[i]).associated_message == list.messages[i].associated_message,
{
    lemma_matching_call(list.messages, arrived(event, list.messages.len() as int), at);
}

/// A message that answers no call without a reply stays without a partner,
/// and no message changes its partner.
pub proof fn lemma_orphan_stays_alone(list: MessageListView, event: EventView)
    requires
        stream_wf(list),
        list.messages.len() < u32::MAX,
        !is_reply(arrived(event, list.messages.len() as int)) || forall|k: int|
            0 <= k < list.messages.len() ==> !answers(
                arrived(event, list.messages.len() as int),
                #[trigger] list.messages[k],
            ),
    ensures
        pushed(list, event).list.messages.last().associated_message is None,
        forall|i: int|
            0 <= i < list.messages.len() ==> (#[trigger] pushed(
                list,
                event,
            ).list.messages[i]).associated_message == list.messages[i].associated_message,
{
    lemma_no_matching_call(list.messages, arrived(event, list.messages.len() as int));
}

/// Partners fit: of two messages that name each other the earlier is a
/// method call, and the later a reply to its serial, addressed to its
/// sender.
pub proof fn lemma_partners_match(list: MessageListView, i: int)
    requires
        stream_wf(list),
        0 <= i < list.messages.len(),
        list.messages[i].associated_message is Some,
        list.messages[i].partner_index() < i,
    ensures
        ({
            let reply = list.messages[i];
            let call = list.messages[reply.partner_index()];
            &&& call.associated_message == Some(place(i))
            &&& call.header().message_type is MethodCall
            &&& is_reply(reply)
            &&& reply.header().reply_serial == Some(call.header().serial)
            &&& call.header().sender matches Some(sender)
            &&& reply.header().destination == Some((true, sender))
        }),
{
    assert(paired(list.messages, i));
    let reply = list.messages[i];
    let call = list.messages[reply.partner_index()];
    assert(reply.is_return_of(call));
    if reply.header().destination is None {
        assert(reply.header().destination_or_fallback().unwrap().0 == false);
    }
}

/// A message of which observers of the directory are told nothing leaves
/// the directory as it was.
pub proof fn lemma_quiet_push(list: MessageListView, event: EventView)
    ensures
        pushed(list, event).name_changes.len() == 0 ==> pushed(list, event).list.names
            == list.names,
{
    let index = place(list.messages.len() as int);
    let found = matching_call(list.messages, arrived(event, list.messages.len() as int));
    let message = MessageView {
        associated_message: partner(found),
        ..arrived(event, list.messages.len() as int)
    };
    let call = match found {
        Some(at) => Some(with_partner(list.messages, at, index)[at]),
        None => None,
    };
    lemma_nothing_told_nothing_changed(list.names, message, call);
}

/// Appending dates no ownership after the new message.
pub proof fn lemma_push_dates_nothing_ahead(list: MessageListView, event: EventView)
    requires
        stream_wf(list),
        list.messages.len() < u32::MAX,
    ensures
        newest(pushed(list, event).list.names, list.messages.len() as int),
{
    let count = list.messages.len() as int;
    let index = place(count);
    let found = matching_call(list.messages, arrived(event, count));
    lemma_matching_call_found(list.messages, arrived(event, count));
    let message = MessageView { associated_message: partner(found), ..arrived(event, count) };
    let call = match found {
        Some(at) => Some(with_partner(list.messages, at, index)[at]),
        None => None,
    };
    assert forall|i: int, k: int|
        0 <= i < list.names.len() && 0 <= k < list.names[i].log.len() implies (
    #[trigger] list.names[i].log[k]).index <= count by {
        assert(list.names[i].log[k].index <= count - 1);
    }
    if let Some(at) = found {
        assert(list.messages[at].receive_index == Some(place(at)));
    }
    lemma_message_dates_nothing_ahead(list.names, message, call, count);
}

/// The message that the event makes at the end of the stream, with the
/// partner found for it, as the directory sees it.
pub open spec fn arriving(list: MessageListView, event: EventView) -> MessageView {
    let count = list.messages.len() as int;
    MessageView {
        associated_message: partner(matching_call(list.messages, arrived(event, count))),
        ..arrived(event, count)
    }
}

/// The call that the message of the event answers, as the directory sees
/// it: with the new message noted as its partner.
pub open spec fn answered(list: MessageListView, event: EventView) -> Option<MessageView> {
    let count = list.messages.len() as int;
    match matching_call(list.messages, arrived(event, count)) {
        Some(at) => Some(with_partner(list.messages, at, place(count))[at]),
        None => None,
    }
}

/// What appending makes of the directory is what the directory makes of
/// the message that arrives and the call it answers.
pub proof fn lemma_push_hands_on(list: MessageListView, event: EventView)
    ensures
        pushed(list, event).list.names == after_message(
            list.names,
            arriving(list, event),
            answered(list, event),
        ).names,
        pushed(list, event).name_changes == after_message(
            list.names,
            arriving(list, event),
            answered(list, event),
        ).changes,
        pushed(list, event).result == after_message(
            list.names,
            arriving(list, event),
            answered(list, event),
        ).result,
{
}

/// A reply that answers no call is appended without complaint and leaves
/// the directory as it was.
pub proof fn lemma_orphan_reply_is_appended(list: MessageListView, event: EventView)
    requires
        is_reply(arrived(event, list.messages.len() as int)),
        matching_call(list.messages, arrived(event, list.messages.len() as int)) is None,
    ensures
        pushed(list, event).result is Ok,
        pushed(list, event).list.names == list.names,
        pushed(list, event).name_changes.len() == 0,
{
}

/// Appending keeps every well-known name with at most one holder as of
/// every receipt index, where what the new message says of owners agrees
/// with what the directory holds; and only there.
pub proof fn lemma_push_keeps_owners_unique(list: MessageListView, event: EventView)
    requires
        stream_wf(list),
    ensures
        unique_owners(list.names) && claims_agree(
            list.names,
            arriving(list, event),
            answered(list, event),
        ) ==> unique_owners(pushed(list, event).list.names),
        !claims_agree(list.names, arriving(list, event), answered(list, event)) ==> !unique_owners(
            pushed(list, event).list.names,
        ),
{
    lemma_push_hands_on(list, event);
    if !claims_agree(list.names, arriving(list, event), answered(list, event)) {
        lemma_message_that_disagrees_breaks_uniqueness(
            list.names,
            arriving(list, event),
            answered(list, event),
        );
    } else if unique_owners(list.names) {
        lemma_message_keeps_owners_unique(list.names, arriving(list, event), answered(list, event));
    }
}

} // verus!
