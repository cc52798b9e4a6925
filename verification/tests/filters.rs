use bustle::bus_name::BusName;
use bustle::bus_name_item::LookupPoint;
use bustle::directory::ItemsChanged;
use bustle::filtered_message_model::{FilterError, FilteredMessageModel};
use bustle::message::{Event, Header, Message, ReceiveIndex};
use bustle::message_list::MessageList;
use bustle::message_tag::MessageTag;
use bustle::message_type::MessageType;
use bustle::timestamp::Timestamp;

fn message(
    message_type: MessageType,
    serial: u32,
    reply_serial: Option<u32>,
    sender: &str,
    destination: Option<BusName>,
    path: &str,
) -> Message {
    Message::from_event(Event {
        header: Header {
            message_type,
            flags: 0,
            serial,
            reply_serial,
            sender: Some(sender.to_owned()),
            destination,
            path: Some(path.to_owned()),
            interface: None,
            member: None,
            signature: String::new(),
        },
        data: vec![b'l', 0, 0, 0, 0, 0, 0, 0],
        body_offset: 8,
        timestamp: Timestamp::default(),
    })
}

/// 0: :1.1 calls org.foo (UPower)      1: :1.2 answers, so :1.2 owns org.foo
/// 2: :1.3 signals (Bluetooth)         3: :1.1 calls the bus daemon
/// 4: the bus daemon answers           5: :1.3 calls :1.1 (UPower)
/// 6: :1.1 calls org.foo (Bluetooth)
fn sample() -> MessageList {
    let mut list = MessageList::new();
    let call = MessageType::MethodCall;
    list.push(message(call, 1, None, ":1.1", Some(BusName::well_known("org.foo")), "/org/freedesktop/UPower"));
    list.push(message(MessageType::MethodReturn, 2, Some(1), ":1.2", Some(BusName::unique(":1.1")), ""));
    list.push(message(MessageType::Signal, 3, None, ":1.3", None, "/org/bluez"));
    list.push(message(call, 4, None, ":1.1", Some(BusName::unique("org.freedesktop.DBus")), "/"));
    list.push(message(
        MessageType::MethodReturn,
        5,
        Some(4),
        "org.freedesktop.DBus",
        Some(BusName::unique(":1.1")),
        "",
    ));
    list.push(message(call, 6, None, ":1.3", Some(BusName::unique(":1.1")), "/org/freedesktop/UPower"));
    list.push(message(call, 7, None, ":1.1", Some(BusName::well_known("org.foo")), "/org/bluez"));
    list
}

fn model() -> FilteredMessageModel {
    let mut model = FilteredMessageModel::new();
    model.set_message_list(Some(sample()));
    model
}

fn shown(model: &FilteredMessageModel) -> Vec<u32> {
    model.iter().iter().map(|message| message.receive_index().0).collect()
}

fn shown_names(model: &FilteredMessageModel) -> Vec<String> {
    let names = model.filtered_bus_names();
    match model.message_list() {
        Some(list) => (0..names.n_items())
            .map(|place| names.item(list.bus_names(), place).unwrap().name().as_str().to_owned())
            .collect(),
        None => Vec::new(),
    }
}

fn reset(removed: usize, added: usize) -> ItemsChanged {
    ItemsChanged { position: 0, removed, added }
}

#[test]
fn new_model_shows_nothing() {
    let model = FilteredMessageModel::new();
    assert_eq!(model.n_items(), 0);
    assert!(model.item(0).is_none());
    assert!(model.message_list().is_none());
    assert!(!model.has_filter());
    assert!(model.iter().is_empty());
    assert_eq!(model.filtered_bus_names().n_items(), 0);
    assert_eq!(FilteredMessageModel::default().n_items(), 0);
}

#[test]
fn without_filters_every_message_is_shown() {
    let model = model();
    // also what the bus daemon sent and is to receive
    assert_eq!(shown(&model), vec![0, 1, 2, 3, 4, 5, 6]);
    assert_eq!(model.n_items(), 7);
    assert_eq!(model.item(3).unwrap().receive_index(), ReceiveIndex(3));
    assert!(model.item(7).is_none());
    assert!(!model.has_filter());
}

#[test]
fn place_of_a_message_among_those_shown() {
    let mut model = model();
    model.add_message_tag_filter(MessageTag::Bluetooth);
    let list = model.message_list().unwrap();
    assert_eq!(model.get_index_of(list.item(0).unwrap()), Some(0));
    assert_eq!(model.get_index_of(list.item(3).unwrap()), Some(2));
    assert_eq!(model.get_index_of(list.item(5).unwrap()), Some(4));
    // hidden, or not of a stream at all
    assert_eq!(model.get_index_of(list.item(2).unwrap()), None);
    assert_eq!(model.get_index_of(list.item(6).unwrap()), None);
    assert_eq!(model.get_index_of(&Message::from_event(list.item(0).unwrap().to_event())), None);
}

#[test]
fn tag_filter_hides_messages_with_the_tag() {
    let mut model = model();
    assert_eq!(model.add_message_tag_filter(MessageTag::UPower), reset(7, 4));
    // the reply at 1 bears the tag of its call
    assert_eq!(shown(&model), vec![2, 3, 4, 6]);
    assert!(model.has_filter());
    assert_eq!(model.add_message_tag_filter(MessageTag::Bluetooth), reset(4, 2));
    assert_eq!(shown(&model), vec![3, 4]);
    assert_eq!(model.remove_message_tag_filter(MessageTag::UPower), (true, reset(2, 5)));
    assert_eq!(shown(&model), vec![0, 1, 3, 4, 5]);
}

#[test]
fn tag_filter_added_and_removed_shows_what_was_shown() {
    let mut model = model();
    model.add_message_tag_filter(MessageTag::Bluetooth);
    let before = shown(&model);
    let names_before = shown_names(&model);
    model.add_message_tag_filter(MessageTag::UPower);
    assert_ne!(shown(&model), before);
    assert_eq!(model.remove_message_tag_filter(MessageTag::UPower).0, true);
    assert_eq!(shown(&model), before);
    assert_eq!(shown_names(&model), names_before);
    // down to no filter at all
    model.remove_message_tag_filter(MessageTag::Bluetooth);
    assert_eq!(shown(&model), vec![0, 1, 2, 3, 4, 5, 6]);
    assert!(!model.has_filter());
}

#[test]
fn tag_filter_added_twice_is_one_filter() {
    let mut model = model();
    model.add_message_tag_filter(MessageTag::UPower);
    assert_eq!(model.add_message_tag_filter(MessageTag::UPower), reset(4, 4));
    assert_eq!(model.remove_message_tag_filter(MessageTag::UPower), (true, reset(4, 7)));
    assert_eq!(model.remove_message_tag_filter(MessageTag::UPower), (false, reset(7, 7)));
    assert!(!model.has_filter());
}

#[test]
fn tag_filter_without_a_stream() {
    let mut model = FilteredMessageModel::new();
    assert_eq!(model.add_message_tag_filter(MessageTag::Gtk), reset(0, 0));
    assert!(model.has_filter());
    // a new stream resets the filters
    model.set_message_list(Some(sample()));
    assert!(!model.has_filter());
    assert_eq!(model.n_items(), 7);
}

#[test]
fn name_filter_hides_what_the_name_sent_or_is_to_receive() {
    let mut model = model();
    assert_eq!(model.add_bus_name_filter(&BusName::unique(":1.3")), Ok(reset(7, 5)));
    assert_eq!(shown(&model), vec![0, 1, 3, 4, 6]);
    assert_eq!(model.add_bus_name_filter(&BusName::unique(":1.1")), Ok(reset(5, 0)));
    assert_eq!(shown(&model), Vec::<u32>::new());
    assert_eq!(model.remove_bus_name_filter(&BusName::unique(":1.3")), (true, reset(0, 1)));
    assert_eq!(shown(&model), vec![2]);
    assert_eq!(model.remove_bus_name_filter(&BusName::unique(":1.3")), (false, reset(1, 1)));
}

#[test]
fn name_filter_follows_the_well_known_names_held() {
    let mut model = model();
    // :1.2 sent the reply at 1, and held org.foo as of the calls at 0 and 6
    assert_eq!(model.add_bus_name_filter(&BusName::unique(":1.2")), Ok(reset(7, 4)));
    assert_eq!(shown(&model), vec![2, 3, 4, 5]);
}

#[test]
fn name_filter_added_and_removed_shows_what_was_shown() {
    let mut model = model();
    let before = shown(&model);
    model.add_bus_name_filter(&BusName::unique(":1.2")).unwrap();
    model.remove_bus_name_filter(&BusName::unique(":1.2"));
    assert_eq!(shown(&model), before);
    assert!(!model.has_filter());
}

#[test]
fn name_filter_needs_a_stream_and_a_known_name() {
    let mut empty = FilteredMessageModel::new();
    assert_eq!(empty.add_bus_name_filter(&BusName::unique(":1.1")), Err(FilterError::NoMessageList));
    assert!(!empty.has_filter());
    let mut model = model();
    model.add_message_tag_filter(MessageTag::Bluetooth);
    let before = shown(&model);
    assert_eq!(model.add_bus_name_filter(&BusName::unique(":1.99")), Err(FilterError::UnknownBusName));
    // a text known under the other variant only
    assert_eq!(model.add_bus_name_filter(&BusName::well_known(":1.1")), Err(FilterError::UnknownBusName));
    // the entry of org.foo gave way to its owner and came back with the call at 6
    assert!(model.add_bus_name_filter(&BusName::well_known("org.foo")).is_ok());
    model.remove_bus_name_filter(&BusName::well_known("org.foo"));
    assert_eq!(shown(&model), before);
}

#[test]
fn clear_filters_shows_the_whole_stream() {
    let mut model = model();
    model.add_message_tag_filter(MessageTag::UPower);
    model.add_bus_name_filter(&BusName::unique(":1.3")).unwrap();
    model.add_bus_name_filter(&BusName::unique("org.freedesktop.DBus")).unwrap();
    assert_eq!(shown(&model), vec![6]);
    assert_eq!(model.clear_filters(), reset(1, 7));
    assert!(!model.has_filter());
    // every message in the order of arrival, the bus daemon's too
    assert_eq!(shown(&model), vec![0, 1, 2, 3, 4, 5, 6]);
    assert_eq!(model.remove_message_tag_filter(MessageTag::UPower).0, false);
    assert_eq!(model.remove_bus_name_filter(&BusName::unique(":1.3")).0, false);
    assert_eq!(model.remove_bus_name_filter(&BusName::unique("org.freedesktop.DBus")).0, false);
    assert_eq!(model.clear_filters(), reset(7, 7));
}

#[test]
fn the_bus_daemon_is_hidden_by_a_filter_like_any_name() {
    let mut model = model();
    assert_eq!(model.add_bus_name_filter(&BusName::unique("org.freedesktop.DBus")), Ok(reset(7, 5)));
    assert_eq!(shown(&model), vec![0, 1, 2, 5, 6]);
    assert_eq!(shown_names(&model), vec![":1.1", ":1.2", ":1.3", "org.foo"]);
    let list = model.message_list().unwrap();
    let talks: Vec<bool> = (0..7).map(|i| list.item(i).unwrap().talks_to_bus_daemon()).collect();
    assert_eq!(talks, vec![false, false, false, true, true, false, false]);
}

#[test]
fn names_shown_are_those_in_use() {
    let mut model = model();
    // the directory: :1.1, :1.2 (org.foo), :1.3, org.freedesktop.DBus, org.foo
    assert_eq!(shown_names(&model), vec![":1.1", ":1.2", ":1.3", "org.freedesktop.DBus", "org.foo"]);
    model.add_bus_name_filter(&BusName::unique(":1.1")).unwrap();
    // only the signal of :1.3 is left
    assert_eq!(shown(&model), vec![2]);
    assert_eq!(shown_names(&model), vec![":1.3"]);
    model.clear_filters();
    model.add_bus_name_filter(&BusName::unique(":1.3")).unwrap();
    // :1.2 is named by the reply at 1 and as the owner of org.foo
    assert_eq!(shown_names(&model), vec![":1.1", ":1.2", "org.freedesktop.DBus", "org.foo"]);
}

#[test]
fn lookups_among_the_names_shown() {
    let mut model = model();
    model.add_bus_name_filter(&BusName::unique(":1.3")).unwrap();
    let names = model.filtered_bus_names();
    let list = model.message_list().unwrap().bus_names();
    assert_eq!(names.n_items(), 4);
    assert_eq!(names.position(0), Some(0));
    assert_eq!(names.position(2), Some(3));
    assert_eq!(names.position(3), Some(4));
    assert_eq!(names.position(4), None);
    assert!(names.item(list, 4).is_none());
    assert_eq!(names.get_index_of(list, &BusName::unique(":1.2")), Some(1));
    assert_eq!(names.get_index_of(list, &BusName::well_known("org.foo")), Some(3));
    // in the directory, not shown
    assert_eq!(names.get_index_of(list, &BusName::unique(":1.3")), None);
    assert!(names.get(list, &BusName::unique(":1.3")).is_none());
    // not in the directory
    assert_eq!(names.get_index_of(list, &BusName::unique(":1.99")), None);
    assert_eq!(names.get(list, &BusName::unique(":1.2")).unwrap().name(), &BusName::unique(":1.2"));
    let wk = "org.foo".to_owned();
    assert_eq!(names.get_index_of_wk_name(list, &wk, LookupPoint::All), Some(1));
    assert_eq!(names.get_index_of_wk_name(list, &wk, LookupPoint::Last), Some(1));
    assert_eq!(names.get_index_of_wk_name(list, &wk, LookupPoint::Index(ReceiveIndex(0))), Some(1));
    assert_eq!(names.get_index_of_wk_name(list, &"org.bar".to_owned(), LookupPoint::All), None);
    let all: Vec<&str> = names.iter(list).into_iter().map(|item| item.name().as_str()).collect();
    assert_eq!(all, vec![":1.1", ":1.2", "org.freedesktop.DBus", "org.foo"]);
}

#[test]
fn push_through_the_model_updates_what_is_shown() {
    let mut model = model();
    model.add_message_tag_filter(MessageTag::Bluetooth);
    assert_eq!(shown(&model), vec![0, 1, 3, 4, 5]);
    let pushed = model
        .push(message(MessageType::Signal, 9, None, ":1.4", None, "/org/freedesktop/UPower"))
        .unwrap();
    assert_eq!(pushed.position, 7);
    assert_eq!(pushed.name_changes, vec![ItemsChanged { position: 5, removed: 0, added: 1 }]);
    assert_eq!(shown(&model), vec![0, 1, 3, 4, 5, 7]);
    model.push(message(MessageType::Signal, 10, None, ":1.4", None, "/org/bluez")).unwrap();
    assert_eq!(shown(&model), vec![0, 1, 3, 4, 5, 7]);
    assert_eq!(model.message_list().unwrap().n_items(), 9);
    assert!(shown_names(&model).contains(&":1.4".to_owned()));
    // without a stream nothing is pushed
    let mut empty = FilteredMessageModel::new();
    assert!(empty.push(message(MessageType::Signal, 1, None, ":1.4", None, "/")).is_none());
}

#[test]
fn set_message_list_hands_the_old_stream_back() {
    let mut model = model();
    model.add_message_tag_filter(MessageTag::Bluetooth);
    let old = model.set_message_list(None).unwrap();
    assert_eq!(old.n_items(), 7);
    assert!(model.message_list().is_none());
    assert_eq!(model.n_items(), 0);
    assert!(!model.has_filter());
    assert!(model.set_message_list(Some(old)).is_none());
    assert_eq!(model.n_items(), 7);
}

/// A model over the same messages with the same filters, worked out in one
/// go.
fn rebuilt(model: &FilteredMessageModel, tags: &[MessageTag], names: &[BusName]) -> FilteredMessageModel {
    let mut fresh = FilteredMessageModel::new();
    fresh.set_message_list(Some(model.message_list().unwrap().replayed()));
    for tag in tags {
        fresh.add_message_tag_filter(*tag);
    }
    for name in names {
        fresh.add_bus_name_filter(name).unwrap();
    }
    fresh
}

#[test]
fn pushing_one_by_one_shows_what_working_out_anew_shows() {
    let call = MessageType::MethodCall;
    let ret = MessageType::MethodReturn;
    let arriving = vec![
        message(call, 20, None, ":1.4", Some(BusName::well_known("org.bar")), "/org/bluez"),
        message(MessageType::Signal, 21, None, ":1.3", None, "/org/freedesktop/UPower"),
        message(ret, 22, Some(20), ":1.2", Some(BusName::unique(":1.4")), ""),
        message(call, 23, None, ":1.5", Some(BusName::well_known("org.bar")), "/"),
        message(call, 24, None, ":1.1", Some(BusName::unique(":1.2")), "/org/freedesktop/UPower"),
        message(ret, 25, Some(24), ":1.2", Some(BusName::unique(":1.1")), ""),
        message(ret, 26, Some(23), ":1.6", Some(BusName::unique(":1.5")), ""),
        message(MessageType::Signal, 27, None, ":1.6", None, "/"),
    ];
    let filters: Vec<(Vec<MessageTag>, Vec<BusName>)> = vec![
        (vec![], vec![]),
        (vec![MessageTag::UPower], vec![]),
        (vec![], vec![BusName::unique(":1.2")]),
        (vec![MessageTag::Bluetooth], vec![BusName::unique(":1.2"), BusName::unique(":1.3")]),
    ];
    for (tags, names) in filters {
        let mut model = model();
        for tag in &tags {
            model.add_message_tag_filter(*tag);
        }
        for name in &names {
            model.add_bus_name_filter(name).unwrap();
        }
        for next in &arriving {
            model.push(Message::from_event(next.to_event())).unwrap();
            let fresh = rebuilt(&model, &tags, &names);
            assert_eq!(shown(&model), shown(&fresh));
            assert_eq!(shown_names(&model), shown_names(&fresh));
        }
        assert_eq!(model.message_list().unwrap().n_items(), 15);
    }
}

#[test]
fn a_late_reply_hides_the_call_it_answers_from_a_filtered_owner() {
    let mut model = model();
    model.add_bus_name_filter(&BusName::unique(":1.2")).unwrap();
    let call = MessageType::MethodCall;
    model.push(message(call, 30, None, ":1.4", Some(BusName::well_known("org.bar")), "/")).unwrap();
    // nobody is known to own org.bar yet
    assert_eq!(shown(&model), vec![2, 3, 4, 5, 7]);
    model
        .push(message(MessageType::MethodReturn, 31, Some(30), ":1.2", Some(BusName::unique(":1.4")), ""))
        .unwrap();
    // :1.2 turns out to have owned it as of the call
    assert_eq!(shown(&model), vec![2, 3, 4, 5]);
}

#[test]
fn column_of_a_name_in_the_diagram() {
    let mut model = model();
    model.add_bus_name_filter(&BusName::unique(":1.3")).unwrap();
    // shown: :1.1, :1.2 (owner of org.foo from the first call on),
    // org.freedesktop.DBus, org.foo
    let names = model.filtered_bus_names();
    let list = model.message_list().unwrap().bus_names();
    assert_eq!(names.column_of(list, &BusName::unique(":1.2"), ReceiveIndex(0)), Some(1));
    // a name with an entry of its own stands there
    assert_eq!(names.column_of(list, &BusName::well_known("org.foo"), ReceiveIndex(6)), Some(3));
    // a name in the directory that is not shown, and a name that is unknown
    assert_eq!(names.column_of(list, &BusName::unique(":1.3"), ReceiveIndex(2)), None);
    assert_eq!(names.column_of(list, &BusName::well_known("org.bar"), ReceiveIndex(2)), None);
    let mut resolved = FilteredMessageModel::new();
    let mut stream = MessageList::new();
    let call = MessageType::MethodCall;
    stream.push(message(call, 1, None, ":1.1", Some(BusName::well_known("org.foo")), "/"));
    stream.push(message(MessageType::Signal, 2, None, ":1.1", None, "/"));
    stream.push(message(MessageType::MethodReturn, 3, Some(1), ":1.2", Some(BusName::unique(":1.1")), ""));
    resolved.set_message_list(Some(stream));
    let names = resolved.filtered_bus_names();
    let list = resolved.message_list().unwrap().bus_names();
    // without an entry of its own, a well-known name stands with its owner
    assert_eq!(names.column_of(list, &BusName::well_known("org.foo"), ReceiveIndex(0)), Some(1));
    assert_eq!(names.column_of(list, &BusName::well_known("org.foo"), ReceiveIndex(1)), Some(1));
    assert_eq!(names.column_of(list, &BusName::unique("org.foo"), ReceiveIndex(1)), None);
}
