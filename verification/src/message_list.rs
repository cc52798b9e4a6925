//! The stream of messages: every message in the order of its arrival, each
//! reply paired with its call, and the directory of the bus names seen.

use crate::bus_name_list::BusNameList;
use crate::directory::{lemma_refused_message_changes_nothing, HandleError, ItemsChanged};
use crate::message::{
    destination_display, sender_display, Event, EventView, Message, MessageView, ReceiveIndex,
};
use crate::message_tag::MessageTag;
use crate::stream::{
    answered, answers, arriving, empty_list, events_of, lemma_matching_call, lemma_no_matching_call,
    lemma_push_dates_nothing_ahead, lemma_push_hands_on, lemma_pushed,
    nearest_call, pushed, replay, stream_wf, with_partner, MessageListView,
};
use vstd::prelude::*;
use vstd::string::StringExecFns;

verus! {

/// What appending a message gave.
#[derive(Debug, PartialEq, Eq)]
pub struct Pushed {
    /// Where the message stands in the stream.
    pub position: usize,
    /// What observers of the directory are to be told, in this order.
    pub name_changes: Vec<ItemsChanged>,
    /// Whether the directory took the message in. The message is part of
    /// the stream either way.
    pub result: Result<(), HandleError>,
}

/// The stream of messages.
pub struct MessageList {
    inner: Vec<Message>,
    bus_names: BusNameList,
}

/// What appending the event at `k` of `events`, after those before it,
/// gave.
pub open spec fn outcome_of(outcome: Pushed, events: Seq<EventView>, k: int) -> bool {
    let step = pushed(replay(events.subrange(0, k)), events[k]);
    &&& outcome.position == k
    &&& outcome.name_changes@ == step.name_changes
    &&& outcome.result == step.result
}

impl View for MessageList {
    type V = MessageListView;

    closed spec fn view(&self) -> MessageListView {
        MessageListView {
            messages: self.inner@.map_values(|message: Message| message@),
            names: self.bus_names@,
        }
    }
}

impl MessageList {
    /// The directory inside the stream is coherent.
    pub closed spec fn coherent(&self) -> bool {
        self.bus_names.wf()
    }

    /// The stream is well formed, and is what its own events give when they
    /// are played again.
    pub open spec fn wf(&self) -> bool {
        &&& self.coherent()
        &&& stream_wf(self@)
        &&& self@ == replay(events_of(self@.messages))
    }

    /// A stream without messages.
    pub fn new() -> (list: Self)
        ensures
            list.wf(),
            list@ == empty_list(),
    {
        let list = MessageList { inner: Vec::new(), bus_names: BusNameList::new() };
        proof {
            assert(list@.messages =~= Seq::<MessageView>::empty());
            assert(events_of(list@.messages) =~= Seq::empty());
        }
        list
    }

    /// How many messages the stream has.
    pub fn n_items(&self) -> (n: usize)
        ensures
            n == self@.messages.len(),
    {
        self.inner.len()
    }

    /// The message at `position`, `None` past the end.
    pub fn item(&self, position: usize) -> (message: Option<&Message>)
        ensures
            message is Some <==> position < self@.messages.len(),
            message matches Some(message) ==> message@ == self@.messages[position as int],
    {
        if position < self.inner.len() {
            Some(&self.inner[position])
        } else {
            None
        }
    }

    /// The partner of a message of this stream: the call that a reply
    /// answers, or the reply that answers a call.
    pub fn associated_message(&self, message: &Message) -> (other: Option<&Message>)
        ensures
            other is Some <==> (message@.associated_message matches Some(index) && index.0
                < self@.messages.len()),
            other matches Some(other) ==> other@ == self@.messages[message@.partner_index()],
    {
        match message.associated_message() {
            Some(index) => self.item(index.0 as usize),
            None => None,
        }
    }

    /// The directory of the bus names seen in the messages.
    pub fn bus_names(&self) -> (names: &BusNameList)
        requires
            self.wf(),
        ensures
            names.wf(),
            names@ == self@.names,
    {
        &self.bus_names
    }

    /// Looks backward from the end for the most recent call without a reply
    /// that `reply` answers.
    fn find_call(&self, reply: &Message) -> (found: Option<usize>)
        ensures
            found matches Some(at) ==> nearest_call(self@.messages, reply@, at as int),
            found is None ==> forall|k: int|
                0 <= k < self@.messages.len() ==> !answers(reply@, #[trigger] self@.messages[k]),
    {
        let mut at = self.inner.len();
        while at > 0
            invariant
                at <= self.inner.len(),
                self@.messages.len() == self.inner.len(),
                forall|k: int|
                    at <= k < self@.messages.len() ==> !answers(reply@, #[trigger] self@.messages[k]),
            decreases at,
        {
            at -= 1;
            let candidate = &self.inner[at];
            assert(candidate@ == self@.messages[at as int]);
            if candidate.associated_message().is_none() && reply.is_return_of(candidate) {
                return Some(at);
            }
        }
        None
    }

    /// Appends a message. It gets the next receipt index, and a tag; a
    /// reply is paired with the most recent call without a reply that it
    /// answers; the directory of bus names takes the message in. What the
    /// message held of these before does not count. A reply that answers no
    /// call is no error. A message that the directory refuses is part of
    /// the stream all the same, and leaves the directory as it was.
    pub fn push(&mut self, message: Message) -> (r: Pushed)
        requires
            old(self).wf(),
            old(self)@.messages.len() < u32::MAX,
        ensures
            final(self).wf(),
            final(self)@ == pushed(old(self)@, message@.event).list,
            r.position == old(self)@.messages.len(),
            r.name_changes@ == pushed(old(self)@, message@.event).name_changes,
            r.result == pushed(old(self)@, message@.event).result,
            r.result is Err ==> final(self)@.names == old(self)@.names && r.name_changes@.len() == 0,
    {
        proof {
            lemma_push_hands_on(self@, message@.event);
            lemma_refused_message_changes_nothing(
                self@.names,
                arriving(self@, message@.event),
                answered(self@, message@.event),
            );
        }
        let position = self.inner.len();
        let index = ReceiveIndex(position as u32);
        let ghost before = self@;
        let ghost event = message@.event;
        let mut message = Message::from_event(message.into_event());
        message.set_receive_index(position as u32);
        let ghost placed = message@;
        proof {
            lemma_pushed(before, event);
            lemma_push_dates_nothing_ahead(before, event);
        }
        let call_at = if message.message_type().is_method_return() {
            self.find_call(&message)
        } else {
            None
        };
        proof {
            match call_at {
                Some(at) => {
                    lemma_matching_call(before.messages, placed, at as int);
                },
                None => {
                    lemma_no_matching_call(before.messages, placed);
                },
            }
        }
        match call_at {
            Some(at) => {
                message.set_associated_message(ReceiveIndex(at as u32));
                assert(self.inner[at as int]@ == before.messages[at as int]);
                self.inner[at].set_associated_message(index);
                assert(self@.messages =~= with_partner(
                    before.messages,
                    at as int,
                    index,
                ));
            },
            None => {},
        }
        let (name_changes, result) = match call_at {
            Some(at) => {
                assert(self.inner[at as int]@ == self@.messages[at as int]);
                self.bus_names.handle_message(&message, Some(&self.inner[at]))
            },
            None => self.bus_names.handle_message(&message, None),
        };
        let tag = match call_at {
            Some(at) => MessageTag::guess(&message, Some(&self.inner[at])),
            None => MessageTag::guess(&message, None),
        };
        message.set_message_tag(tag);
        self.inner.push(message);
        proof {
            assert(self@.messages =~= pushed(before, event).list.messages);
            assert(self@ == pushed(before, event).list);
            let events = events_of(self@.messages);
            assert(events.drop_last() =~= events_of(before.messages));
        }
        Pushed { position, name_changes, result }
    }

    /// The events of the messages, in their order. The stream can be rebuilt
    /// from them.
    pub fn to_events(&self) -> (events: Vec<Event>)
        ensures
            events@.map_values(|event: Event| event@) == events_of(self@.messages),
    {
        let mut events: Vec<Event> = Vec::new();
        let mut i: usize = 0;
        while i < self.inner.len()
            invariant
                i <= self.inner.len(),
                self@.messages.len() == self.inner.len(),
                events@.map_values(|event: Event| event@) == events_of(self@.messages).subrange(
                    0,
                    i as int,
                ),
            decreases self.inner.len() - i,
        {
            let ghost before = events@.map_values(|event: Event| event@);
            assert(self.inner[i as int]@ == self@.messages[i as int]);
            events.push(self.inner[i].to_event());
            assert(events@.map_values(|event: Event| event@) =~= before.push(
                self@.messages[i as int].event,
            ));
            assert(events@.map_values(|event: Event| event@) =~= events_of(self@.messages).subrange(
                0,
                i as int + 1,
            ));
            i += 1;
        }
        assert(events_of(self@.messages).subrange(0, i as int) =~= events_of(self@.messages));
        events
    }

    /// The stream that the events give when they arrive one after the
    /// other, with what each of them made of the directory.
    pub fn from_events(events: Vec<Event>) -> (r: (Self, Vec<Pushed>))
        requires
            events.len() <= u32::MAX,
        ensures
            r.0.wf(),
            r.0@ == replay(events@.map_values(|event: Event| event@)),
            r.1.len() == events.len(),
            forall|k: int|
                0 <= k < r.1.len() ==> outcome_of(
                    #[trigger] r.1[k],
                    events@.map_values(|event: Event| event@),
                    k,
                ),
    {
        let ghost all = events@.map_values(|event: Event| event@);
        let mut list = MessageList::new();
        let mut outcomes: Vec<Pushed> = Vec::new();
        let mut events = events;
        let count = events.len();
        // Take the events from the end and put them back in order.
        let mut reversed: Vec<Event> = Vec::new();
        while events.len() > 0
            invariant
                events.len() + reversed.len() == count,
                count == all.len(),
                forall|k: int|
                    0 <= k < events.len() ==> (#[trigger] events[k])@ == all[k],
                forall|k: int|
                    0 <= k < reversed.len() ==> (#[trigger] reversed[k])@ == all[count - 1 - k],
            decreases events.len(),
        {
            match events.pop() {
                Some(event) => {
                    reversed.push(event);
                },
                None => {},
            }
        }
        assert(all.subrange(0, 0) =~= Seq::empty());
        while reversed.len() > 0
            invariant
                reversed.len() + list@.messages.len() == count,
                count == all.len(),
                count <= u32::MAX,
                outcomes.len() == list@.messages.len(),
                forall|k: int| 0 <= k < outcomes.len() ==> outcome_of(#[trigger] outcomes[k], all, k),
                list.wf(),
                list@ == replay(all.subrange(0, list@.messages.len() as int)),
                forall|k: int|
                    0 <= k < reversed.len() ==> (#[trigger] reversed[k])@ == all[count - 1 - k],
            decreases reversed.len(),
        {
            let ghost done = list@.messages.len() as int;
            match reversed.pop() {
                Some(event) => {
                    assert(event@ == all[done]);
                    proof {
                        lemma_pushed(list@, event@);
                        assert(all.subrange(0, done + 1).drop_last() =~= all.subrange(0, done));
                    }
                    let outcome = list.push(Message::from_event(event));
                    assert(outcome_of(outcome, all, done));
                    outcomes.push(outcome);
                },
                None => {},
            }
        }
        assert(all.subrange(0, count as int) =~= all);
        (list, outcomes)
    }
}

impl MessageList {
    /// The stream rebuilt from its own events: the same messages with the
    /// same partners and tags, and the same directory.
    pub fn replayed(&self) -> (copy: Self)
        requires
            self.wf(),
        ensures
            copy.wf(),
            copy@ == self@,
    {
        let events = self.to_events();
        assert(events@.len() == events@.map_values(|event: Event| event@).len());
        let (copy, _) = MessageList::from_events(events);
        copy
    }

    /// A well-formed stream is what its own events give when they are
    /// played again, message for message.
    pub proof fn lemma_rebuilt_from_events(&self)
        requires
            self.wf(),
        ensures
            replay(events_of(self@.messages)) == self@,
    {
    }
}

/// The partner of the message at `i`, if it has one in the stream.
pub open spec fn partner_of(list: MessageListView, i: int) -> Option<MessageView> {
    match list.messages[i].associated_message {
        Some(index) => if index.0 < list.messages.len() {
            Some(list.messages[index.0 as int])
        } else {
            None
        },
        None => None,
    }
}

/// The two ends of the message at `i` as they are shown: sender and
/// destination.
pub open spec fn edge_of(list: MessageListView, i: int) -> (Seq<char>, Seq<char>) {
    (
        sender_display(list.messages[i], partner_of(list, i)),
        destination_display(list.messages[i], partner_of(list, i)),
    )
}

/// The pairs of ends of the messages before `end`, each once, in the order
/// of first appearance.
pub open spec fn edges_before(list: MessageListView, end: int) -> Seq<(Seq<char>, Seq<char>)>
    decreases end,
{
    if end <= 0 {
        Seq::empty()
    } else {
        let rest = edges_before(list, end - 1);
        if rest.contains(edge_of(list, end - 1)) {
            rest
        } else {
            rest.push(edge_of(list, end - 1))
        }
    }
}

/// One line of a graph description for each pair of ends.
pub open spec fn dot_lines(edges: Seq<(Seq<char>, Seq<char>)>) -> Seq<char>
    decreases edges.len(),
{
    if edges.len() == 0 {
        Seq::empty()
    } else {
        dot_lines(edges.drop_last()) + "\t\""@ + edges.last().0 + "\" -> \""@ + edges.last().1
            + "\";\n"@
    }
}

/// The description of a directed graph with one edge for each pair of
/// ends.
pub open spec fn dot_text(edges: Seq<(Seq<char>, Seq<char>)>) -> Seq<char> {
    "digraph bustle {\n"@ + dot_lines(edges) + "}\n"@
}

/// The texts of the pairs.
pub open spec fn edge_views(edges: Seq<(String, String)>) -> Seq<(Seq<char>, Seq<char>)> {
    edges.map_values(|edge: (String, String)| (edge.0@, edge.1@))
}

impl MessageList {
    /// Who talked to whom: the pairs of sender and destination as they are
    /// shown, each once, in the order of first appearance.
    pub fn dot_edges(&self) -> (edges: Vec<(String, String)>)
        ensures
            edge_views(edges@) == edges_before(self@, self@.messages.len() as int),
    {
        let mut edges: Vec<(String, String)> = Vec::new();
        let mut i: usize = 0;
        assert(edge_views(edges@) =~= Seq::empty());
        while i < self.inner.len()
            invariant
                i <= self.inner.len(),
                self@.messages.len() == self.inner.len(),
                edge_views(edges@) == edges_before(self@, i as int),
            decreases self.inner.len() - i,
        {
            let message = &self.inner[i];
            assert(message@ == self@.messages[i as int]);
            let associated = self.associated_message(message);
            let sender = message.sender_display(associated);
            let destination = message.destination_display(associated);
            let ghost edge = (sender@, destination@);
            assert(edge == edge_of(self@, i as int));
            let ghost before = edge_views(edges@);
            let mut k: usize = 0;
            let mut found = false;
            while k < edges.len() && !found
                invariant
                    k <= edges.len(),
                    before == edge_views(edges@),
                    edge == (sender@, destination@),
                    found ==> before.contains(edge),
                    !found ==> forall|j: int| 0 <= j < k ==> (#[trigger] before[j]) != edge,
                decreases edges.len() - k + if found { 0int } else { 1int },
            {
                assert(before[k as int] == (edges[k as int].0@, edges[k as int].1@));
                if edges[k].0 == sender && edges[k].1 == destination {
                    found = true;
                } else {
                    k += 1;
                }
            }
            if !found {
                edges.push((sender, destination));
                assert(edge_views(edges@) =~= before.push(edge));
            }
            i += 1;
        }
        edges
    }

    /// The stream as the description of a directed graph, with an edge from
    /// each sender to each destination it sent to.
    pub fn to_dot(&self) -> (text: String)
        ensures
            text@ == dot_text(edges_before(self@, self@.messages.len() as int)),
    {
        let edges = self.dot_edges();
        let mut text = "digraph bustle {\n".to_owned();
        let mut i: usize = 0;
        let ghost all = edge_views(edges@);
        assert(all.subrange(0, 0) =~= Seq::empty());
        while i < edges.len()
            invariant
                i <= edges.len(),
                all == edge_views(edges@),
                text@ == "digraph bustle {\n"@ + dot_lines(all.subrange(0, i as int)),
            decreases edges.len() - i,
        {
            let ghost start = text@;
            text.append("\t\"");
            text.append(edges[i].0.as_str());
            text.append("\" -> \"");
            text.append(edges[i].1.as_str());
            text.append("\";\n");
            proof {
                let upto = all.subrange(0, i as int + 1);
                assert(upto.drop_last() =~= all.subrange(0, i as int));
                assert(upto.last() == (edges[i as int].0@, edges[i as int].1@));
                assert(text@ =~= "digraph bustle {\n"@ + dot_lines(upto));
            }
            i += 1;
        }
        assert(all.subrange(0, i as int) =~= all);
        text.append("}\n");
        text
    }
}

impl Default for MessageList {
    fn default() -> (list: Self)
        ensures
            list.wf(),
            list@ == empty_list(),
    {
        MessageList::new()
    }
}

} // verus!
