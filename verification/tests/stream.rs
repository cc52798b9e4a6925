use bustle::bus_name::BusName;
use bustle::bus_name_item::LookupPoint;
use bustle::directory::ItemsChanged;
use bustle::message::{Event, Header, Message, ReceiveIndex};
use bustle::message_list::MessageList;
use bustle::message_tag::MessageTag;
use bustle::message_type::MessageType;
use bustle::timestamp::Timestamp;

fn event(header: Header) -> Event {
    Event { header, data: vec![b'l', 0, 0, 0, 0, 0, 0, 0], body_offset: 8, timestamp: Timestamp::default() }
}

fn call(serial: u32, sender: &str, destination: BusName) -> Message {
    Message::from_event(event(Header {
        message_type: MessageType::MethodCall,
        flags: 0,
        serial,
        reply_serial: None,
        sender: Some(sender.to_owned()),
        destination: Some(destination),
        path: Some("/org/freedesktop/UPower".to_owned()),
        interface: Some("org.example.Iface".to_owned()),
        member: Some("Frob".to_owned()),
        signature: String::new(),
    }))
}

fn reply(message_type: MessageType, reply_serial: u32, sender: &str, destination: &str) -> Message {
    Message::from_event(event(Header {
        message_type,
        flags: 0,
        serial: 100 + reply_serial,
        reply_serial: Some(reply_serial),
        sender: Some(sender.to_owned()),
        destination: Some(BusName::unique(destination)),
        path: None,
        interface: None,
        member: None,
        signature: String::new(),
    }))
}

fn signal(sender: &str) -> Message {
    Message::from_event(event(Header {
        message_type: MessageType::Signal,
        flags: 0,
        serial: 1,
        reply_serial: None,
        sender: Some(sender.to_owned()),
        destination: None,
        path: None,
        interface: Some("org.example.Iface".to_owned()),
        member: Some("Changed".to_owned()),
        signature: String::new(),
    }))
}

fn partner(list: &MessageList, position: usize) -> Option<u32> {
    list.item(position).unwrap().associated_message().map(|index| index.0)
}

fn held(list: &MessageList, name: &BusName, index: u32) -> Vec<String> {
    match list.bus_names().get(name) {
        Some(item) => item.wk_names(LookupPoint::Index(ReceiveIndex(index))).into_iter().collect(),
        None => Vec::new(),
    }
}

#[test]
fn new_stream_is_empty() {
    let list = MessageList::new();
    assert_eq!(list.n_items(), 0);
    assert!(list.item(0).is_none());
    assert_eq!(list.bus_names().n_items(), 0);
    assert_eq!(MessageList::default().n_items(), 0);
}

#[test]
fn receipt_indices_are_dense_from_zero() {
    let mut list = MessageList::new();
    for i in 0..20u32 {
        let pushed = list.push(signal(":1.1"));
        assert_eq!(pushed.position, i as usize);
        assert_eq!(pushed.result, Ok(()));
    }
    assert_eq!(list.n_items(), 20);
    for i in 0..20u32 {
        assert_eq!(list.item(i as usize).unwrap().receive_index(), ReceiveIndex(i));
    }
    assert!(list.item(20).is_none());
}

#[test]
fn push_gives_a_used_message_a_new_place() {
    let mut first = MessageList::new();
    first.push(signal(":1.1"));
    first.push(call(1, ":1.1", BusName::unique(":1.2")));
    first.push(reply(MessageType::MethodReturn, 1, ":1.2", ":1.1"));
    let used = Message::from_event(first.item(2).unwrap().to_event());
    let mut second = MessageList::new();
    second.push(used);
    let message = second.item(0).unwrap();
    assert_eq!(message.receive_index(), ReceiveIndex(0));
    assert_eq!(message.associated_message(), None);
}

#[test]
fn reply_is_paired_with_its_call() {
    let mut list = MessageList::new();
    list.push(call(7, ":1.1", BusName::unique(":1.2")));
    list.push(signal(":1.3"));
    list.push(reply(MessageType::MethodReturn, 7, ":1.2", ":1.1"));
    assert_eq!(partner(&list, 0), Some(2));
    assert_eq!(partner(&list, 1), None);
    assert_eq!(partner(&list, 2), Some(0));
    let call_message = list.item(0).unwrap();
    let reply_message = list.item(2).unwrap();
    assert_eq!(list.associated_message(reply_message), Some(call_message));
    assert_eq!(list.associated_message(call_message), Some(reply_message));
    assert_eq!(list.associated_message(list.item(1).unwrap()), None);
}

#[test]
fn error_is_paired_like_a_return() {
    let mut list = MessageList::new();
    list.push(call(7, ":1.1", BusName::unique(":1.2")));
    list.push(reply(MessageType::Error, 7, ":1.2", ":1.1"));
    assert_eq!(partner(&list, 0), Some(1));
    assert_eq!(partner(&list, 1), Some(0));
}

#[test]
fn interleaved_pairs_with_reused_serials_do_not_cross() {
    let mut list = MessageList::new();
    list.push(call(1, ":1.1", BusName::unique(":1.9")));
    list.push(call(1, ":1.2", BusName::unique(":1.9")));
    list.push(reply(MessageType::MethodReturn, 1, ":1.9", ":1.1"));
    list.push(reply(MessageType::MethodReturn, 1, ":1.9", ":1.2"));
    assert_eq!(partner(&list, 0), Some(2));
    assert_eq!(partner(&list, 1), Some(3));
    assert_eq!(partner(&list, 2), Some(0));
    assert_eq!(partner(&list, 3), Some(1));
}

#[test]
fn reply_takes_the_nearest_matching_call() {
    let mut list = MessageList::new();
    list.push(call(5, ":1.1", BusName::unique(":1.9")));
    list.push(call(5, ":1.2", BusName::unique(":1.9")));
    list.push(reply(MessageType::MethodReturn, 5, ":1.9", ":1.2"));
    assert_eq!(partner(&list, 2), Some(1));
    assert_eq!(partner(&list, 1), Some(2));
    assert_eq!(partner(&list, 0), None);
}

#[test]
fn of_two_equal_calls_the_later_is_answered_first() {
    let mut list = MessageList::new();
    list.push(call(5, ":1.1", BusName::unique(":1.9")));
    list.push(call(5, ":1.1", BusName::unique(":1.9")));
    list.push(reply(MessageType::MethodReturn, 5, ":1.9", ":1.1"));
    assert_eq!(partner(&list, 2), Some(1));
    assert_eq!(partner(&list, 0), None);
    // the next reply finds the call that is still without one
    list.push(reply(MessageType::MethodReturn, 5, ":1.9", ":1.1"));
    assert_eq!(partner(&list, 3), Some(0));
    assert_eq!(partner(&list, 0), Some(3));
    assert_eq!(partner(&list, 1), Some(2));
    // and a third one finds none
    let orphan = list.push(reply(MessageType::MethodReturn, 5, ":1.9", ":1.1"));
    assert_eq!(partner(&list, 4), None);
    assert_eq!(orphan.result, Ok(()));
    assert_eq!(orphan.name_changes, vec![]);
}

#[test]
fn reply_without_a_call_stays_an_orphan() {
    let mut list = MessageList::new();
    list.push(call(5, ":1.1", BusName::unique(":1.9")));
    let wrong_serial = list.push(reply(MessageType::MethodReturn, 6, ":1.9", ":1.1"));
    let wrong_destination = list.push(reply(MessageType::MethodReturn, 5, ":1.9", ":1.3"));
    // a reply without a call is no error
    assert_eq!(wrong_serial.result, Ok(()));
    assert_eq!(wrong_destination.result, Ok(()));
    assert_eq!(wrong_serial.name_changes, vec![]);
    assert_eq!(list.bus_names().n_items(), 2);
    assert_eq!(partner(&list, 0), None);
    assert_eq!(partner(&list, 1), None);
    assert_eq!(partner(&list, 2), None);
    // and part of the stream all the same
    assert_eq!(list.n_items(), 3);
}

#[test]
fn a_call_is_not_paired_with_a_later_call_or_signal() {
    let mut list = MessageList::new();
    list.push(call(5, ":1.1", BusName::unique(":1.9")));
    let mut second = call(6, ":1.9", BusName::unique(":1.1")).into_event();
    second.header.reply_serial = Some(5);
    list.push(Message::from_event(second));
    let mut third = signal(":1.9").into_event();
    third.header.reply_serial = Some(5);
    third.header.destination = Some(BusName::unique(":1.1"));
    list.push(Message::from_event(third));
    assert_eq!(partner(&list, 0), None);
    assert_eq!(partner(&list, 1), None);
    assert_eq!(partner(&list, 2), None);
}

#[test]
fn call_to_a_well_known_name_is_resolved_by_its_reply() {
    let mut list = MessageList::new();
    let first = list.push(call(1, ":1.1", BusName::well_known("org.foo")));
    assert_eq!(
        first.name_changes,
        vec![
            ItemsChanged { position: 0, removed: 0, added: 1 },
            ItemsChanged { position: 1, removed: 0, added: 1 }
        ]
    );
    assert!(list.bus_names().get(&BusName::well_known("org.foo")).is_some());
    let second = list.push(reply(MessageType::MethodReturn, 1, ":1.2", ":1.1"));
    assert_eq!(second.result, Ok(()));
    assert_eq!(second.position, 1);
    assert!(list.bus_names().get(&BusName::well_known("org.foo")).is_none());
    // as of the call already the owner holds the name
    assert_eq!(held(&list, &BusName::unique(":1.2"), 0), vec!["org.foo"]);
    assert_eq!(held(&list, &BusName::unique(":1.2"), 1), vec!["org.foo"]);
}

#[test]
fn late_reply_dates_ownership_back_over_the_messages_between() {
    let mut list = MessageList::new();
    for _ in 0..3 {
        list.push(signal(":1.5"));
    }
    list.push(call(1, ":1.1", BusName::well_known("org.foo")));
    for _ in 0..5 {
        list.push(signal(":1.5"));
    }
    list.push(reply(MessageType::MethodReturn, 1, ":1.2", ":1.1"));
    assert_eq!(list.item(9).unwrap().associated_message(), Some(ReceiveIndex(3)));
    let owner = BusName::unique(":1.2");
    assert_eq!(held(&list, &owner, 2), Vec::<String>::new());
    for index in 3..=9 {
        assert_eq!(held(&list, &owner, index), vec!["org.foo"]);
    }
}

#[test]
fn messages_are_tagged_on_arrival() {
    let mut list = MessageList::new();
    list.push(call(1, ":1.1", BusName::unique(":1.2")));
    list.push(reply(MessageType::MethodReturn, 1, ":1.2", ":1.1"));
    list.push(reply(MessageType::MethodReturn, 9, ":1.2", ":1.1"));
    list.push(signal(":1.1"));
    assert_eq!(list.item(0).unwrap().message_tag(), MessageTag::UPower);
    // a reply bears the tag of its call, an orphan none
    assert_eq!(list.item(1).unwrap().message_tag(), MessageTag::UPower);
    assert_eq!(list.item(2).unwrap().message_tag(), MessageTag::Unknown);
    assert_eq!(list.item(3).unwrap().message_tag(), MessageTag::Unknown);
}

fn sample() -> MessageList {
    let mut list = MessageList::new();
    list.push(call(1, ":1.1", BusName::well_known("org.foo")));
    list.push(call(1, ":1.3", BusName::well_known("org.bar")));
    list.push(signal(":1.4"));
    list.push(reply(MessageType::MethodReturn, 1, ":1.2", ":1.1"));
    list.push(reply(MessageType::Error, 1, ":1.5", ":1.3"));
    list.push(reply(MessageType::MethodReturn, 77, ":1.5", ":1.3"));
    list.push(call(2, ":1.1", BusName::well_known("org.foo")));
    list
}

fn assert_same(a: &MessageList, b: &MessageList) {
    assert_eq!(a.n_items(), b.n_items());
    for i in 0..a.n_items() {
        assert_eq!(a.item(i), b.item(i));
    }
    assert_eq!(a.bus_names().n_items(), b.bus_names().n_items());
    for i in 0..a.bus_names().n_items() {
        let x = a.bus_names().item(i).unwrap();
        let y = b.bus_names().item(i).unwrap();
        assert_eq!(x.name(), y.name());
        for index in 0..=a.n_items() as u32 {
            let point = LookupPoint::Index(ReceiveIndex(index));
            assert_eq!(
                x.wk_names(point).into_iter().collect::<Vec<_>>(),
                y.wk_names(point).into_iter().collect::<Vec<_>>()
            );
            assert_eq!(x.has_snapshot_at(ReceiveIndex(index)), y.has_snapshot_at(ReceiveIndex(index)));
        }
        assert_eq!(
            x.wk_names(LookupPoint::All).into_iter().collect::<Vec<_>>(),
            y.wk_names(LookupPoint::All).into_iter().collect::<Vec<_>>()
        );
    }
}

#[test]
fn stream_is_rebuilt_from_its_events() {
    let list = sample();
    let events = list.to_events();
    assert_eq!(events.len(), 7);
    let (rebuilt, outcomes) = MessageList::from_events(events);
    assert_eq!(outcomes.len(), 7);
    assert_eq!(outcomes[5].result, Ok(()));
    assert_eq!(outcomes[3].position, 3);
    assert_same(&list, &rebuilt);
    assert_same(&list, &list.replayed());
}

#[test]
fn events_come_back_in_their_order() {
    let list = sample();
    let events = list.to_events();
    for (i, event) in events.iter().enumerate() {
        assert_eq!(event, list.item(i).unwrap().event());
    }
    assert_eq!(MessageList::new().to_events(), Vec::new());
    let (empty, outcomes) = MessageList::from_events(Vec::new());
    assert_eq!(empty.n_items(), 0);
    assert!(outcomes.is_empty());
}
