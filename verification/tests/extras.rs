use bustle::bus_name::BusName;
use bustle::bus_name_list::BusNameList;
use bustle::filtered_message_model::FilteredMessageModel;
use bustle::frame::{bytes_needed, FrameError};
use bustle::message::{Event, Header, Message, ReceiveIndex};
use bustle::message_list::MessageList;
use bustle::message_tag::MessageTag;
use bustle::message_type::MessageType;
use bustle::name_args::NameOwnerChanged;
use bustle::statistics::{sample, samples, summarize, Group, GroupKey, Sample, Statistic};
use bustle::timestamp::Timestamp;

fn time(secs: u64, nanos: u32) -> Timestamp {
    Timestamp::new(secs, nanos).unwrap()
}

fn message(
    message_type: MessageType,
    serial: u32,
    reply_serial: Option<u32>,
    sender: &str,
    destination: Option<BusName>,
    member: Option<&str>,
    len: usize,
    at: Timestamp,
) -> Message {
    Message::from_event(Event {
        header: Header {
            message_type,
            flags: 0,
            serial,
            reply_serial,
            sender: Some(sender.to_owned()),
            destination,
            path: Some("/org/bluez".to_owned()),
            interface: member.map(|_| "org.example".to_owned()),
            member: member.map(|member| member.to_owned()),
            signature: String::new(),
        },
        data: vec![b'l'; len],
        body_offset: len,
        timestamp: at,
    })
}

#[test]
fn owners_are_unique_after_a_transfer() {
    let mut list = BusNameList::new();
    assert!(list.has_unique_owners_at(ReceiveIndex(0)));
    list.insert_wk_name(BusName::unique(":1.1"), "org.foo".to_owned(), ReceiveIndex(10));
    list.insert_wk_name(BusName::unique(":1.3"), "org.bar".to_owned(), ReceiveIndex(12));
    list.change_owner(
        NameOwnerChanged {
            name: BusName::well_known("org.foo"),
            old_owner: Some(":1.1".to_owned()),
            new_owner: Some(":1.2".to_owned()),
        },
        ReceiveIndex(20),
    );
    for index in 0..30 {
        assert!(list.has_unique_owners_at(ReceiveIndex(index)));
    }
    assert!(list.has_unique_owners_at(ReceiveIndex(u32::MAX)));
}

#[test]
fn a_second_claim_without_a_release_is_seen() {
    let mut list = BusNameList::new();
    list.insert_wk_name(BusName::unique(":1.1"), "org.foo".to_owned(), ReceiveIndex(10));
    // a new owner, and no word that the old one let go
    list.change_owner(
        NameOwnerChanged {
            name: BusName::well_known("org.foo"),
            old_owner: None,
            new_owner: Some(":1.2".to_owned()),
        },
        ReceiveIndex(20),
    );
    assert!(list.has_unique_owners_at(ReceiveIndex(19)));
    assert!(!list.has_unique_owners_at(ReceiveIndex(20)));
    assert!(!list.has_unique_owners_at(ReceiveIndex(25)));
    // the old owner lets go later
    list.remove_wk_name(BusName::unique(":1.1"), "org.foo".to_owned(), ReceiveIndex(22));
    assert!(!list.has_unique_owners_at(ReceiveIndex(21)));
    assert!(list.has_unique_owners_at(ReceiveIndex(22)));
}

#[test]
fn a_claim_dated_back_into_the_time_of_another_owner_is_seen() {
    let mut list = BusNameList::new();
    list.insert_wk_name(BusName::unique(":1.1"), "org.foo".to_owned(), ReceiveIndex(5));
    list.remove_wk_name(BusName::unique(":1.1"), "org.foo".to_owned(), ReceiveIndex(9));
    list.resolve_name(BusName::well_known("org.foo"), ":1.2".to_owned(), ReceiveIndex(7));
    assert!(list.has_unique_owners_at(ReceiveIndex(6)));
    assert!(!list.has_unique_owners_at(ReceiveIndex(7)));
    assert!(!list.has_unique_owners_at(ReceiveIndex(8)));
    assert!(list.has_unique_owners_at(ReceiveIndex(9)));
}

fn sample_list() -> MessageList {
    let call = MessageType::MethodCall;
    let mut list = MessageList::new();
    list.push(message(call, 1, None, ":1.1", Some(BusName::well_known("org.foo")), Some("Get"), 100, time(10, 0)));
    list.push(message(MessageType::MethodReturn, 2, Some(1), ":1.2", Some(BusName::unique(":1.1")), None, 40, time(10, 500)));
    list.push(message(call, 3, None, ":1.1", Some(BusName::well_known("org.foo")), Some("Get"), 120, time(11, 0)));
    list.push(message(MessageType::Signal, 4, None, ":1.3", None, Some("Changed"), 64, time(12, 0)));
    list.push(message(MessageType::Error, 5, Some(3), ":1.2", Some(BusName::unique(":1.1")), None, 80, time(13, 0)));
    list.push(message(call, 6, None, ":1.3", Some(BusName::unique(":1.1")), Some("Set"), 16, time(14, 0)));
    list.push(message(MessageType::MethodReturn, 7, Some(6), ":1.1", Some(BusName::unique(":1.3")), None, 16, time(16, 250)));
    list.push(message(call, 8, None, ":1.1", Some(BusName::well_known("org.foo")), Some("Get"), 90, time(17, 0)));
    list.push(message(MessageType::MethodReturn, 9, Some(8), ":1.2", Some(BusName::unique(":1.1")), None, 44, time(17, 1500)));
    list
}

#[test]
fn graph_has_one_edge_for_each_pair_of_ends() {
    let list = sample_list();
    let edges: Vec<(String, String)> = list.dot_edges();
    let pairs: Vec<(&str, &str)> = edges.iter().map(|(a, b)| (a.as_str(), b.as_str())).collect();
    // a reply runs from the destination of its call to the sender of its call
    assert_eq!(pairs, vec![(":1.1", "org.foo"), ("org.foo", ":1.1"), (":1.3", "(no destination)"), (":1.3", ":1.1"), (":1.1", ":1.3")]);
    assert_eq!(
        list.to_dot(),
        "digraph bustle {\n\t\":1.1\" -> \"org.foo\";\n\t\"org.foo\" -> \":1.1\";\n\t\":1.3\" -> \"(no destination)\";\n\t\":1.3\" -> \":1.1\";\n\t\":1.1\" -> \":1.3\";\n}\n"
    );
}

#[test]
fn graph_of_an_empty_stream() {
    let list = MessageList::new();
    assert!(list.dot_edges().is_empty());
    assert_eq!(list.to_dot(), "digraph bustle {\n}\n");
}

fn header(endian: u8, body_len: u32, fields_len: u32) -> Vec<u8> {
    let mut bytes = vec![endian, 1, 0, 1];
    if endian == b'B' {
        bytes.extend_from_slice(&body_len.to_be_bytes());
        bytes.extend_from_slice(&7u32.to_be_bytes());
        bytes.extend_from_slice(&fields_len.to_be_bytes());
    } else {
        bytes.extend_from_slice(&body_len.to_le_bytes());
        bytes.extend_from_slice(&7u32.to_le_bytes());
        bytes.extend_from_slice(&fields_len.to_le_bytes());
    }
    bytes
}

#[test]
fn bytes_needed_adds_the_padded_fields_and_the_body() {
    assert_eq!(bytes_needed(&header(b'l', 0, 0)), Ok(16));
    assert_eq!(bytes_needed(&header(b'l', 0, 1)), Ok(24));
    assert_eq!(bytes_needed(&header(b'l', 5, 8)), Ok(29));
    assert_eq!(bytes_needed(&header(b'l', 3, 9)), Ok(35));
    assert_eq!(bytes_needed(&header(b'B', 0x0102, 0x0304)), Ok(16 + 0x0308 + 0x0102));
    assert_eq!(bytes_needed(&header(b'l', 0x0102, 0x0304)), Ok(16 + 0x0308 + 0x0102));
    // more than the header may be given
    let mut long = header(b'l', 4, 0);
    long.extend_from_slice(&[1, 2, 3, 4]);
    assert_eq!(bytes_needed(&long), Ok(20));
}

#[test]
fn bytes_needed_refuses_what_is_no_header() {
    assert_eq!(bytes_needed(&[]), Err(FrameError::TooShort));
    assert_eq!(bytes_needed(&header(b'l', 0, 0)[..15]), Err(FrameError::TooShort));
    assert_eq!(bytes_needed(&header(b'x', 0, 0)), Err(FrameError::UnknownByteOrder));
    assert_eq!(bytes_needed(&header(b'L', 0, 0)), Err(FrameError::UnknownByteOrder));
}

#[test]
fn bytes_needed_refuses_more_than_the_protocol_allows() {
    let max = 134_217_728u32;
    assert_eq!(bytes_needed(&header(b'l', max - 16, 0)), Ok(max as usize));
    assert_eq!(bytes_needed(&header(b'l', max - 15, 0)), Err(FrameError::TooLong));
    assert_eq!(bytes_needed(&header(b'B', 0, max - 16)), Ok(max as usize));
    assert_eq!(bytes_needed(&header(b'B', 0, max - 15)), Err(FrameError::TooLong));
    assert_eq!(bytes_needed(&header(b'l', u32::MAX, u32::MAX)), Err(FrameError::TooLong));
}

fn model() -> FilteredMessageModel {
    let mut model = FilteredMessageModel::new();
    model.set_message_list(Some(sample_list()));
    model
}

fn key(message_type: MessageType, interface: &str, member: &str) -> GroupKey {
    GroupKey { message_type, interface: interface.to_owned(), member: member.to_owned() }
}

#[test]
fn samples_of_the_messages_shown() {
    let model = model();
    let all = samples(&model);
    assert_eq!(all.len(), 9);
    let get = key(MessageType::MethodCall, "org.example", "Get");
    assert_eq!(all[0], Sample { key: get.clone(), len: 100, duration: Some(time(0, 500)) });
    // a reply is filed under the member of its call, and has no duration
    assert_eq!(
        all[1],
        Sample { key: key(MessageType::MethodReturn, "org.example", "Get"), len: 40, duration: None }
    );
    // a call answered by an error has no duration
    assert_eq!(all[2], Sample { key: get, len: 120, duration: None });
    assert_eq!(
        all[3],
        Sample { key: key(MessageType::Signal, "org.example", "Changed"), len: 64, duration: None }
    );
    let list = model.message_list().unwrap();
    assert_eq!(sample(list, list.item(5).unwrap()).duration, Some(time(2, 250)));
}

#[test]
fn samples_follow_the_filters() {
    let mut model = model();
    model.add_bus_name_filter(&BusName::unique(":1.3")).unwrap();
    let shown = samples(&model);
    assert_eq!(shown.len(), 6);
    assert!(shown.iter().all(|sample| sample.key.member == "Get"));
    model.add_message_tag_filter(MessageTag::Bluetooth);
    assert!(samples(&model).is_empty());
    assert!(samples(&FilteredMessageModel::new()).is_empty());
}

#[test]
fn frequencies_count_all_but_replies() {
    let groups = summarize(&samples(&model()), Statistic::Frequencies);
    let counts: Vec<(&str, MessageType, usize)> =
        groups.iter().map(|g| (g.key.member.as_str(), g.key.message_type, g.count)).collect();
    assert_eq!(
        counts,
        vec![
            ("Get", MessageType::MethodCall, 3),
            ("Changed", MessageType::Signal, 1),
            ("Set", MessageType::MethodCall, 1)
        ]
    );
}

#[test]
fn durations_count_calls_with_a_method_return() {
    let groups = summarize(&samples(&model()), Statistic::Durations);
    assert_eq!(groups.len(), 2);
    assert_eq!(groups[0].key, key(MessageType::MethodCall, "org.example", "Get"));
    assert_eq!(groups[0].count, 2);
    assert_eq!(groups[0].total_time, Some(time(0, 2000)));
    assert_eq!(groups[0].mean_time(), Some(time(0, 1000)));
    assert_eq!(groups[1].key, key(MessageType::MethodCall, "org.example", "Set"));
    assert_eq!(groups[1].count, 1);
    assert_eq!(groups[1].total_time, Some(time(2, 250)));
    assert_eq!(groups[1].mean_time(), Some(time(2, 250)));
}

#[test]
fn sizes_count_every_message() {
    let groups = summarize(&samples(&model()), Statistic::Sizes);
    let figures: Vec<(&str, MessageType, usize, u32, u128, u32)> = groups
        .iter()
        .map(|g| (g.key.member.as_str(), g.key.message_type, g.count, g.smallest, g.mean_len(), g.largest))
        .collect();
    assert_eq!(
        figures,
        vec![
            ("Get", MessageType::MethodCall, 3, 90, 103, 120),
            ("Get", MessageType::MethodReturn, 2, 40, 42, 44),
            ("Changed", MessageType::Signal, 1, 64, 64, 64),
            ("Get", MessageType::Error, 1, 80, 80, 80),
            ("Set", MessageType::MethodCall, 1, 16, 16, 16),
            ("Set", MessageType::MethodReturn, 1, 16, 16, 16)
        ]
    );
    assert_eq!(groups[0].total_len, 310);
}

#[test]
fn summary_of_nothing() {
    assert!(summarize(&Vec::new(), Statistic::Sizes).is_empty());
    let only_replies = vec![Sample {
        key: key(MessageType::Error, "a", "b"),
        len: 1,
        duration: None,
    }];
    assert!(summarize(&only_replies, Statistic::Frequencies).is_empty());
    assert!(summarize(&only_replies, Statistic::Durations).is_empty());
    assert_eq!(summarize(&only_replies, Statistic::Sizes).len(), 1);
}

#[test]
fn total_time_that_does_not_fit_is_none() {
    let long = Sample {
        key: key(MessageType::MethodCall, "a", "b"),
        len: 1,
        duration: Some(time(u64::MAX, 0)),
    };
    let short = Sample { key: key(MessageType::MethodCall, "a", "b"), len: 2, duration: Some(time(1, 0)) };
    let groups = summarize(&vec![long, short], Statistic::Durations);
    assert_eq!(groups.len(), 1);
    assert_eq!(groups[0].count, 2);
    assert_eq!(groups[0].total_time, None);
    assert_eq!(groups[0].mean_time(), None);
    let empty = Group {
        key: key(MessageType::Signal, "a", "b"),
        count: 0,
        smallest: 0,
        largest: 0,
        total_len: 0,
        total_time: Some(time(0, 0)),
    };
    assert_eq!(empty.mean_len(), 0);
    assert_eq!(empty.mean_time(), None);
}
