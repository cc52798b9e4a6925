//! One captured message: its decoded header, its bytes, and what the stream
//! adds to it on arrival.

use crate::bus_name::BusName;
use crate::message_tag::MessageTag;
use crate::message_type::MessageType;
use crate::timestamp::Timestamp;
use vstd::prelude::*;
use vstd::slice::slice_subrange;

verus! {

/// The position of a message in the order in which the messages were
/// received: the clock by which ownership of names is dated.
#[derive(Debug, Clone, Copy, PartialEq, Eq, PartialOrd, Ord, Hash, Structural)]
pub struct ReceiveIndex(pub u32);

/// The decoded header of a message.
#[derive(Debug, PartialEq, Eq)]
pub struct Header {
    pub message_type: MessageType,
    /// The flag bits of the fixed header.
    pub flags: u8,
    pub serial: u32,
    pub reply_serial: Option<u32>,
    /// The unique name of the sending connection.
    pub sender: Option<String>,
    pub destination: Option<BusName>,
    pub path: Option<String>,
    pub interface: Option<String>,
    pub member: Option<String>,
    /// The signature of the body; empty where the header has none.
    pub signature: String,
}

/// A message as it was captured: the decoded header, the bytes of the whole
/// message, where in them the body begins, and the time of capture.
#[derive(Debug, PartialEq, Eq)]
pub struct Event {
    pub header: Header,
    /// The whole message as it went over the wire.
    pub data: Vec<u8>,
    /// Where the body begins in `data`.
    pub body_offset: usize,
    pub timestamp: Timestamp,
}

/// A message of the stream.
#[derive(Debug, PartialEq, Eq)]
pub struct Message {
    event: Event,
    message_tag: MessageTag,
    receive_index: Option<ReceiveIndex>,
    associated_message: Option<ReceiveIndex>,
}

/// What a [`Header`] stands for.
pub struct HeaderView {
    pub message_type: MessageType,
    pub flags: u8,
    pub serial: u32,
    pub reply_serial: Option<u32>,
    pub sender: Option<Seq<char>>,
    pub destination: Option<(bool, Seq<char>)>,
    pub path: Option<Seq<char>>,
    pub interface: Option<Seq<char>>,
    pub member: Option<Seq<char>>,
    pub signature: Seq<char>,
}

/// What an [`Event`] stands for.
pub struct EventView {
    pub header: HeaderView,
    pub data: Seq<u8>,
    pub body_offset: int,
    pub timestamp: Timestamp,
}

/// What a [`Message`] stands for.
pub struct MessageView {
    pub event: EventView,
    pub message_tag: MessageTag,
    pub receive_index: Option<ReceiveIndex>,
    pub associated_message: Option<ReceiveIndex>,
}

/// The text of an optional string.
pub open spec fn text_view(text: Option<String>) -> Option<Seq<char>> {
    match text {
        Some(text) => Some(text@),
        None => None,
    }
}

/// The value of an optional bus name.
pub open spec fn name_view(name: Option<BusName>) -> Option<(bool, Seq<char>)> {
    match name {
        Some(name) => Some(name@),
        None => None,
    }
}

/// Whether `name` is one of the names that stand in for a destination the
/// header lacks.
pub open spec fn is_fallback_name(name: (bool, Seq<char>)) -> bool {
    !name.0 && (name.1 == "method.call.destination"@ || name.1 == "method.return.destination"@
        || name.1 == "method.error.destination"@)
}

/// The name that stands in for the destination of a message of the given
/// kind; signals have none.
pub open spec fn fallback_destination(message_type: MessageType) -> Option<(bool, Seq<char>)> {
    match message_type {
        MessageType::MethodCall => Some((false, "method.call.destination"@)),
        MessageType::MethodReturn => Some((false, "method.return.destination"@)),
        MessageType::Error => Some((false, "method.error.destination"@)),
        MessageType::Signal => None,
    }
}

impl HeaderView {
    /// The destination of the header, or the stand-in for its kind.
    pub open spec fn destination_or_fallback(self) -> Option<(bool, Seq<char>)> {
        match self.destination {
            Some(name) => Some(name),
            None => fallback_destination(self.message_type),
        }
    }

    /// Whether this is the header of a reply to the call with header `call`:
    /// `call` is a method call, this header names its serial as the one
    /// replied to, and is addressed to the unique name that sent the call.
    pub open spec fn is_return_of(self, call: HeaderView) -> bool {
        &&& call.message_type is MethodCall
        &&& self.reply_serial == Some(call.serial)
        &&& call.sender matches Some(sender)
        &&& self.destination_or_fallback() == Some((true, sender))
    }

    /// Whether the header names this interface and this member.
    pub open spec fn names_member(self, interface: Seq<char>, member: Seq<char>) -> bool {
        self.interface == Some(interface) && self.member == Some(member)
    }
}

impl EventView {
    /// The bytes of the body: what follows the offset, and nothing where
    /// the offset lies past the end.
    pub open spec fn body(self) -> Seq<u8> {
        if 0 <= self.body_offset <= self.data.len() {
            self.data.subrange(self.body_offset, self.data.len() as int)
        } else {
            Seq::empty()
        }
    }

    /// The first byte of the message, which tells its byte order; zero in
    /// an empty message.
    pub open spec fn endian_sig(self) -> u8 {
        if self.data.len() > 0 {
            self.data[0]
        } else {
            0
        }
    }
}

impl View for Header {
    type V = HeaderView;

    open spec fn view(&self) -> HeaderView {
        HeaderView {
            message_type: self.message_type,
            flags: self.flags,
            serial: self.serial,
            reply_serial: self.reply_serial,
            sender: text_view(self.sender),
            destination: name_view(self.destination),
            path: text_view(self.path),
            interface: text_view(self.interface),
            member: text_view(self.member),
            signature: self.signature@,
        }
    }
}

impl View for Event {
    type V = EventView;

    open spec fn view(&self) -> EventView {
        EventView {
            header: self.header@,
            data: self.data@,
            body_offset: self.body_offset as int,
            timestamp: self.timestamp,
        }
    }
}

impl View for Message {
    type V = MessageView;

    closed spec fn view(&self) -> MessageView {
        MessageView {
            event: self.event@,
            message_tag: self.message_tag,
            receive_index: self.receive_index,
            associated_message: self.associated_message,
        }
    }
}

/// A copy of an optional string.
pub fn clone_text(text: &Option<String>) -> (copy: Option<String>)
    ensures
        text_view(copy) == text_view(*text),
{
    match text {
        Some(text) => Some(text.clone()),
        None => None,
    }
}

/// Whether `text` reads `literal`.
pub fn text_is(text: &str, literal: &str) -> (r: bool)
    ensures
        r == (text@ == literal@),
{
    let a = text.to_owned();
    let b = literal.to_owned();
    a == b
}

/// Whether an optional string is there and reads `literal`.
pub fn text_is_some(text: &Option<String>, literal: &str) -> (r: bool)
    ensures
        r == (text_view(*text) == Some(literal@)),
{
    match text {
        Some(text) => text_is(text.as_str(), literal),
        None => false,
    }
}

impl Clone for Header {
    fn clone(&self) -> (copy: Self)
        ensures
            copy@ == self@,
    {
        Header {
            message_type: self.message_type,
            flags: self.flags,
            serial: self.serial,
            reply_serial: self.reply_serial,
            sender: clone_text(&self.sender),
            destination: match &self.destination {
                Some(name) => Some(name.clone()),
                None => None,
            },
            path: clone_text(&self.path),
            interface: clone_text(&self.interface),
            member: clone_text(&self.member),
            signature: self.signature.clone(),
        }
    }
}

impl Header {
    /// The destination of the header, or the stand-in for its kind.
    pub fn destination_or_fallback(&self) -> (name: Option<BusName>)
        ensures
            name_view(name) == self@.destination_or_fallback(),
    {
        match &self.destination {
            Some(name) => Some(name.clone()),
            None => match self.message_type {
                MessageType::MethodCall => Some(BusName::well_known("method.call.destination")),
                MessageType::MethodReturn => Some(BusName::well_known("method.return.destination")),
                MessageType::Error => Some(BusName::well_known("method.error.destination")),
                MessageType::Signal => None,
            },
        }
    }

    /// Whether the header names this interface and this member.
    pub fn names_member(&self, interface: &str, member: &str) -> (r: bool)
        ensures
            r == self@.names_member(interface@, member@),
    {
        text_is_some(&self.interface, interface) && text_is_some(&self.member, member)
    }
}

impl Clone for Event {
    fn clone(&self) -> (copy: Self)
        ensures
            copy@ == self@,
    {
        Event {
            header: self.header.clone(),
            data: self.data.clone(),
            body_offset: self.body_offset,
            timestamp: self.timestamp,
        }
    }
}

impl Event {
    /// The bytes of the body.
    pub fn body(&self) -> (body: &[u8])
        ensures
            body@ == self@.body(),
    {
        let data = self.data.as_slice();
        if self.body_offset <= data.len() {
            slice_subrange(data, self.body_offset, data.len())
        } else {
            slice_subrange(data, 0, 0)
        }
    }

    /// The first byte of the message.
    pub fn endian_sig(&self) -> (sig: u8)
        ensures
            sig == self@.endian_sig(),
    {
        if self.data.len() > 0 {
            self.data[0]
        } else {
            0
        }
    }
}

/// The name of the bus daemon.
pub open spec fn bus_daemon() -> Seq<char> {
    "org.freedesktop.DBus"@
}

/// Whether the bus daemon sent the message or is to receive it.
pub open spec fn talks_to_bus_daemon(message: MessageView) -> bool {
    message.header().sender == Some(bus_daemon())
        || match message.header().destination_or_fallback() {
        Some(destination) => destination.1 == bus_daemon(),
        None => false,
    }
}

impl MessageView {
    /// The header of the message.
    pub open spec fn header(self) -> HeaderView {
        self.event.header
    }

    /// The place of the message in its stream as a number; zero while it has
    /// none.
    pub open spec fn index(self) -> int {
        match self.receive_index {
            Some(index) => index.0 as int,
            None => 0,
        }
    }

    /// The place of the partner of the message as a number; zero while it
    /// has none.
    pub open spec fn partner_index(self) -> int {
        match self.associated_message {
            Some(index) => index.0 as int,
            None => 0,
        }
    }

    /// Whether this is the reply to `call`.
    pub open spec fn is_return_of(self, call: MessageView) -> bool {
        self.header().is_return_of(call.header())
    }
}

impl Message {
    /// The message of a captured event. It has no place in a stream yet, no
    /// partner and no tag.
    pub fn from_event(event: Event) -> (message: Self)
        ensures
            message@.event == event@,
            message@.message_tag is Unknown,
            message@.receive_index is None,
            message@.associated_message is None,
    {
        Message {
            event,
            message_tag: MessageTag::Unknown,
            receive_index: None,
            associated_message: None,
        }
    }

    /// Gives the event that the message was made of back.
    pub fn into_event(self) -> (event: Event)
        ensures
            event@ == self@.event,
    {
        self.event
    }

    /// The event that the message was made of.
    pub fn to_event(&self) -> (event: Event)
        ensures
            event@ == self@.event,
    {
        self.event.clone()
    }

    pub fn message_type(&self) -> (r: MessageType)
        ensures
            r == self@.header().message_type,
    {
        self.event.header.message_type
    }

    pub fn timestamp(&self) -> (r: Timestamp)
        ensures
            r == self@.event.timestamp,
    {
        self.event.timestamp
    }

    pub fn message_tag(&self) -> (r: MessageTag)
        ensures
            r == self@.message_tag,
    {
        self.message_tag
    }

    pub fn set_message_tag(&mut self, message_tag: MessageTag)
        ensures
            final(self)@ == (MessageView { message_tag, ..old(self)@ }),
    {
        self.message_tag = message_tag;
    }

    /// The length of the whole message in bytes.
    pub fn len(&self) -> (r: usize)
        ensures
            r == self@.event.data.len(),
    {
        self.event.data.len()
    }

    /// The bytes of the body.
    pub fn body(&self) -> (body: &[u8])
        ensures
            body@ == self@.event.body(),
    {
        self.event.body()
    }

    pub fn header(&self) -> (header: &Header)
        ensures
            header@ == self@.header(),
    {
        &self.event.header
    }

    /// The event that the message was made of.
    pub fn event(&self) -> (event: &Event)
        ensures
            event@ == self@.event,
    {
        &self.event
    }

    /// Gives the message its place in the stream. It must not have one yet.
    pub fn set_receive_index(&mut self, raw_receive_index: u32)
        requires
            old(self)@.receive_index is None,
        ensures
            final(self)@ == (MessageView {
                receive_index: Some(ReceiveIndex(raw_receive_index)),
                ..old(self)@
            }),
    {
        self.receive_index = Some(ReceiveIndex(raw_receive_index));
    }

    /// The place of the message in its stream. It must have one.
    pub fn receive_index(&self) -> (r: ReceiveIndex)
        requires
            self@.receive_index is Some,
        ensures
            Some(r) == self@.receive_index,
    {
        match self.receive_index {
            Some(index) => index,
            None => ReceiveIndex(0),
        }
    }

    /// The place of the message in its stream; the first place while it has
    /// none.
    pub fn index(&self) -> (r: ReceiveIndex)
        ensures
            r.0 as int == self@.index(),
    {
        match self.receive_index {
            Some(index) => index,
            None => ReceiveIndex(0),
        }
    }

    /// The place of the message in its stream, if it has one.
    pub fn receive_index_opt(&self) -> (r: Option<ReceiveIndex>)
        ensures
            r == self@.receive_index,
    {
        self.receive_index
    }

    /// Notes the partner of the message: for a reply the call it answers,
    /// for a call its reply. It must not have one yet.
    pub fn set_associated_message(&mut self, partner: ReceiveIndex)
        requires
            old(self)@.associated_message is None,
        ensures
            final(self)@ == (MessageView { associated_message: Some(partner), ..old(self)@ }),
    {
        self.associated_message = Some(partner);
    }

    /// The place of the partner of the message in the stream, if it has one.
    pub fn associated_message(&self) -> (r: Option<ReceiveIndex>)
        ensures
            r == self@.associated_message,
    {
        self.associated_message
    }

    /// The unique name of the sender.
    pub fn sender(&self) -> (r: Option<&String>)
        ensures
            r is Some <==> self@.header().sender is Some,
            r matches Some(name) ==> Some(name@) == self@.header().sender,
    {
        match &self.event.header.sender {
            Some(name) => Some(name),
            None => None,
        }
    }

    /// The destination of the message. Where the header has none, a name
    /// made up for the kind of the message stands in; signals have none.
    pub fn destination(&self) -> (r: Option<BusName>)
        ensures
            name_view(r) == self@.header().destination_or_fallback(),
    {
        self.event.header.destination_or_fallback()
    }

    /// Whether the bus daemon sent the message or is to receive it.
    pub fn talks_to_bus_daemon(&self) -> (r: bool)
        ensures
            r == talks_to_bus_daemon(self@),
    {
        if text_is_some(&self.event.header.sender, "org.freedesktop.DBus") {
            return true;
        }
        match self.destination() {
            Some(destination) => text_is(destination.as_str(), "org.freedesktop.DBus"),
            None => false,
        }
    }

    /// Whether `name` is used as a fallback destination internally.
    pub fn is_fallback_destination(name: &BusName) -> (r: bool)
        ensures
            r == is_fallback_name(name@),
    {
        match name {
            BusName::Unique(_) => false,
            BusName::WellKnown(text) => text_is(text.as_str(), "method.call.destination")
                || text_is(text.as_str(), "method.return.destination") || text_is(
                text.as_str(),
                "method.error.destination",
            ),
        }
    }

    /// Whether this is the return or error message of `other`.
    pub fn is_return_of(&self, other: &Message) -> (r: bool)
        ensures
            r == self@.is_return_of(other@),
    {
        if !other.message_type().is_method_call() {
            return false;
        }
        let serial_matches = match self.event.header.reply_serial {
            Some(serial) => serial == other.event.header.serial,
            None => false,
        };
        if !serial_matches {
            return false;
        }
        match (self.destination(), &other.event.header.sender) {
            (Some(destination), Some(sender)) => destination.is_unique_named(sender),
            _ => false,
        }
    }

    /// The sender as shown: of a reply, the destination of its call.
    pub fn sender_display(&self, associated: Option<&Message>) -> (text: String)
        ensures
            text@ == sender_display(self@, view_of(associated)),
    {
        if self.message_type().is_method_return() {
            match associated {
                Some(call) => match call.destination() {
                    Some(name) => name.as_str().to_owned(),
                    None => "(no sender)".to_owned(),
                },
                None => "(no sender)".to_owned(),
            }
        } else {
            match &self.event.header.sender {
                Some(name) => name.clone(),
                None => "(no sender)".to_owned(),
            }
        }
    }

    /// The member as shown: of a reply, the member of its call.
    pub fn member_display(&self, associated: Option<&Message>) -> (text: String)
        ensures
            text@ == member_display(self@, view_of(associated)),
    {
        let shown = if self.message_type().is_method_return() {
            match associated {
                Some(call) => clone_text(&call.event.header.member),
                None => None,
            }
        } else {
            clone_text(&self.event.header.member)
        };
        match shown {
            Some(text) => text,
            None => "(no member)".to_owned(),
        }
    }

    /// The interface as shown: of a reply, the interface of its call.
    pub fn interface_display(&self, associated: Option<&Message>) -> (text: String)
        ensures
            text@ == interface_display(self@, view_of(associated)),
    {
        let shown = if self.message_type().is_method_return() {
            match associated {
                Some(call) => clone_text(&call.event.header.interface),
                None => None,
            }
        } else {
            clone_text(&self.event.header.interface)
        };
        match shown {
            Some(text) => text,
            None => "(no interface)".to_owned(),
        }
    }

    /// The destination as shown: of a reply, the sender of its call.
    pub fn destination_display(&self, associated: Option<&Message>) -> (text: String)
        ensures
            text@ == destination_display(self@, view_of(associated)),
    {
        if self.message_type().is_method_return() {
            match associated {
                Some(call) => match &call.event.header.sender {
                    Some(name) => name.clone(),
                    None => "(no destination)".to_owned(),
                },
                None => "(no destination)".to_owned(),
            }
        } else {
            match self.destination() {
                Some(name) => name.as_str().to_owned(),
                None => "(no destination)".to_owned(),
            }
        }
    }

    /// The object path as shown: of a reply, the path of its call.
    pub fn path_display(&self, associated: Option<&Message>) -> (text: String)
        ensures
            text@ == path_display(self@, view_of(associated)),
    {
        let shown = if self.message_type().is_method_return() {
            match associated {
                Some(call) => clone_text(&call.event.header.path),
                None => None,
            }
        } else {
            clone_text(&self.event.header.path)
        };
        match shown {
            Some(text) => text,
            None => "(no path)".to_owned(),
        }
    }

    /// The time it took to receive a response, or `None` if this is a
    /// signal, has no partner, or the reply was captured before its call.
    pub fn response_time(&self, associated: Option<&Message>) -> (r: Option<Timestamp>)
        ensures
            r is Some <==> response_nanos(self@, view_of(associated)) is Some,
            r matches Some(t) ==> t.wf() && Some(t.total_nanos()) == response_nanos(
                self@,
                view_of(associated),
            ),
    {
        match associated {
            None => None,
            Some(other) => match self.message_type() {
                MessageType::Signal => None,
                MessageType::MethodReturn | MessageType::Error => self.timestamp().checked_sub(
                    other.timestamp(),
                ),
                MessageType::MethodCall => other.timestamp().checked_sub(self.timestamp()),
            },
        }
    }
}

/// What an optional message stands for.
pub open spec fn view_of(message: Option<&Message>) -> Option<MessageView> {
    match message {
        Some(message) => Some(message@),
        None => None,
    }
}

/// The nanoseconds from `earlier` to `later`, and `None` where `later` is
/// the earlier of the two.
pub open spec fn elapsed_nanos(later: Timestamp, earlier: Timestamp) -> Option<int> {
    if earlier.total_nanos() <= later.total_nanos() {
        Some(later.total_nanos() - earlier.total_nanos())
    } else {
        None
    }
}

/// The nanoseconds between a call and its reply, seen from either of them.
pub open spec fn response_nanos(message: MessageView, associated: Option<MessageView>) -> Option<
    int,
> {
    match associated {
        None => None,
        Some(other) => match message.header().message_type {
            MessageType::Signal => None,
            MessageType::MethodReturn | MessageType::Error => elapsed_nanos(
                message.event.timestamp,
                other.event.timestamp,
            ),
            MessageType::MethodCall => elapsed_nanos(
                other.event.timestamp,
                message.event.timestamp,
            ),
        },
    }
}

/// Whether the message is a reply: a method return or an error.
pub open spec fn is_reply(message: MessageView) -> bool {
    message.header().message_type is MethodReturn || message.header().message_type is Error
}

/// The message whose header fields are shown for `message`: for a reply
/// its call, if it has one, and for any other message itself.
pub open spec fn shown_source(message: MessageView, associated: Option<MessageView>) -> Option<
    MessageView,
> {
    if is_reply(message) {
        associated
    } else {
        Some(message)
    }
}

/// The text, or `missing` in its place.
pub open spec fn text_or(text: Option<Seq<char>>, missing: Seq<char>) -> Seq<char> {
    match text {
        Some(text) => text,
        None => missing,
    }
}

/// The sender as shown: of a reply, the destination of its call.
pub open spec fn sender_display(message: MessageView, associated: Option<MessageView>) -> Seq<char> {
    if is_reply(message) {
        match associated {
            Some(call) => match call.header().destination_or_fallback() {
                Some(name) => name.1,
                None => "(no sender)"@,
            },
            None => "(no sender)"@,
        }
    } else {
        text_or(message.header().sender, "(no sender)"@)
    }
}

/// The destination as shown: of a reply, the sender of its call.
pub open spec fn destination_display(message: MessageView, associated: Option<MessageView>) -> Seq<
    char,
> {
    if is_reply(message) {
        match associated {
            Some(call) => text_or(call.header().sender, "(no destination)"@),
            None => "(no destination)"@,
        }
    } else {
        match message.header().destination_or_fallback() {
            Some(name) => name.1,
            None => "(no destination)"@,
        }
    }
}

/// The member as shown: of a reply, the member of its call.
pub open spec fn member_display(message: MessageView, associated: Option<MessageView>) -> Seq<char> {
    match shown_source(message, associated) {
        Some(source) => text_or(source.header().member, "(no member)"@),
        None => "(no member)"@,
    }
}

/// The interface as shown: of a reply, the interface of its call.
pub open spec fn interface_display(message: MessageView, associated: Option<MessageView>) -> Seq<
    char,
> {
    match shown_source(message, associated) {
        Some(source) => text_or(source.header().interface, "(no interface)"@),
        None => "(no interface)"@,
    }
}

/// The object path as shown: of a reply, the path of its call.
pub open spec fn path_display(message: MessageView, associated: Option<MessageView>) -> Seq<char> {
    match shown_source(message, associated) {
        Some(source) => text_or(source.header().path, "(no path)"@),
        None => "(no path)"@,
    }
}

} // verus!
