use bustle::bus_name::BusName;
use bustle::bus_name_item::LookupPoint;
use bustle::bus_name_list::{second_half_error, BusNameList};
use bustle::directory::{HandleError, ItemsChanged};
use bustle::message::{Event, Header, Message, ReceiveIndex};
use bustle::message_type::MessageType;
use bustle::name_args::NameOwnerChanged;
use bustle::timestamp::Timestamp;

fn header(message_type: MessageType, sender: Option<&str>, destination: Option<BusName>) -> Header {
    Header {
        message_type,
        flags: 0,
        serial: 1,
        reply_serial: None,
        sender: sender.map(|name| name.to_owned()),
        destination,
        path: None,
        interface: None,
        member: None,
        signature: String::new(),
    }
}

fn message(header: Header, index: u32) -> Message {
    message_with_body(header, index, b'l', &[])
}

fn message_with_body(header: Header, index: u32, endian: u8, body: &[u8]) -> Message {
    let mut data = vec![endian, 0, 0, 0, 0, 0, 0, 0];
    data.extend_from_slice(body);
    let mut message = Message::from_event(Event {
        header,
        data,
        body_offset: 8,
        timestamp: Timestamp::default(),
    });
    message.set_receive_index(index);
    message
}

/// The strings as a D-Bus body in little-endian byte order.
fn strings(values: &[&str]) -> Vec<u8> {
    let mut body = Vec::new();
    for value in values {
        while body.len() % 4 != 0 {
            body.push(0);
        }
        body.extend_from_slice(&(value.len() as u32).to_le_bytes());
        body.extend_from_slice(value.as_bytes());
        body.push(0);
    }
    body
}

fn bus_call(member: &str, sender: &str, index: u32, signature: &str, body: &[u8]) -> Message {
    let mut h = header(MessageType::MethodCall, Some(sender), Some(BusName::unique("org.freedesktop.DBus")));
    h.interface = Some("org.freedesktop.DBus".to_owned());
    h.member = Some(member.to_owned());
    h.signature = signature.to_owned();
    message_with_body(h, index, b'l', body)
}

fn bus_signal(member: &str, index: u32, signature: &str, body: &[u8]) -> Message {
    let mut h = header(MessageType::Signal, Some("org.freedesktop.DBus"), None);
    h.interface = Some("org.freedesktop.DBus".to_owned());
    h.member = Some(member.to_owned());
    h.signature = signature.to_owned();
    message_with_body(h, index, b'l', body)
}

fn entries(list: &BusNameList) -> Vec<String> {
    (0..list.n_items()).map(|i| list.item(i).unwrap().name().as_str().to_owned()).collect()
}

fn held(list: &BusNameList, name: &BusName, index: u32) -> Vec<String> {
    match list.get(name) {
        Some(item) => item.wk_names(LookupPoint::Index(ReceiveIndex(index))).into_iter().collect(),
        None => Vec::new(),
    }
}

fn change(position: usize, removed: usize, added: usize) -> ItemsChanged {
    ItemsChanged { position, removed, added }
}

#[test]
fn new_directory_is_empty() {
    let list = BusNameList::new();
    assert_eq!(list.n_items(), 0);
    assert!(list.item(0).is_none());
    assert!(list.get(&BusName::unique(":1.1")).is_none());
    assert_eq!(list.get_index_of(&BusName::unique(":1.1")), None);
    assert_eq!(BusNameList::default().n_items(), 0);
}

#[test]
fn insert_bus_name_keeps_the_order_of_arrival() {
    let mut list = BusNameList::new();
    assert_eq!(list.insert_bus_name(BusName::unique(":1.2")), Some(change(0, 0, 1)));
    assert_eq!(list.insert_bus_name(BusName::well_known("org.a")), Some(change(1, 0, 1)));
    assert_eq!(list.insert_bus_name(BusName::unique(":1.1")), Some(change(2, 0, 1)));
    // a name that has an entry gets no second one
    assert_eq!(list.insert_bus_name(BusName::unique(":1.2")), None);
    assert_eq!(entries(&list), vec![":1.2", "org.a", ":1.1"]);
    assert_eq!(list.get_index_of(&BusName::unique(":1.1")), Some(2));
    assert_eq!(list.get_index_of(&BusName::well_known("org.a")), Some(1));
    assert_eq!(list.get(&BusName::unique(":1.2")).unwrap().name(), &BusName::unique(":1.2"));
    assert!(list.item(3).is_none());
}

#[test]
fn unique_and_well_known_names_of_the_same_text_are_two_entries() {
    let mut list = BusNameList::new();
    list.insert_bus_name(BusName::unique("same"));
    assert_eq!(list.insert_bus_name(BusName::well_known("same")), Some(change(1, 0, 1)));
    assert_eq!(list.n_items(), 2);
    assert_eq!(list.get_index_of(&BusName::well_known("same")), Some(1));
}

#[test]
fn insert_wk_name_makes_the_entry_or_adds_to_it() {
    let mut list = BusNameList::new();
    list.insert_bus_name(BusName::unique(":1.0"));
    let made = list.insert_wk_name(BusName::unique(":1.1"), "org.a".to_owned(), ReceiveIndex(4));
    assert_eq!(made, change(1, 0, 1));
    let added = list.insert_wk_name(BusName::unique(":1.1"), "org.b".to_owned(), ReceiveIndex(6));
    assert_eq!(added, change(1, 1, 1));
    assert_eq!(held(&list, &BusName::unique(":1.1"), 3), Vec::<String>::new());
    assert_eq!(held(&list, &BusName::unique(":1.1"), 4), vec!["org.a"]);
    assert_eq!(held(&list, &BusName::unique(":1.1"), 6), vec!["org.a", "org.b"]);
    assert_eq!(held(&list, &BusName::unique(":1.0"), 6), Vec::<String>::new());
}

#[test]
fn remove_wk_name_needs_an_entry() {
    let mut list = BusNameList::new();
    assert_eq!(list.remove_wk_name(BusName::unique(":1.1"), "org.a".to_owned(), ReceiveIndex(1)), None);
    assert_eq!(list.n_items(), 0);
    list.insert_wk_name(BusName::unique(":1.1"), "org.a".to_owned(), ReceiveIndex(1));
    assert_eq!(
        list.remove_wk_name(BusName::unique(":1.1"), "org.a".to_owned(), ReceiveIndex(2)),
        Some(change(0, 1, 1))
    );
    assert_eq!(held(&list, &BusName::unique(":1.1"), 1), vec!["org.a"]);
    assert_eq!(held(&list, &BusName::unique(":1.1"), 2), Vec::<String>::new());
}

#[test]
fn remove_bus_name_moves_later_entries_up() {
    let mut list = BusNameList::new();
    list.insert_bus_name(BusName::unique(":1.1"));
    list.insert_bus_name(BusName::well_known("org.a"));
    list.insert_bus_name(BusName::unique(":1.2"));
    assert_eq!(list.remove_bus_name(&BusName::well_known("org.a")), Some(change(1, 1, 0)));
    assert_eq!(entries(&list), vec![":1.1", ":1.2"]);
    assert_eq!(list.get_index_of(&BusName::unique(":1.2")), Some(1));
    assert_eq!(list.remove_bus_name(&BusName::well_known("org.a")), None);
}

#[test]
fn method_call_gives_sender_and_destination_entries() {
    let mut list = BusNameList::new();
    let call = message(
        header(MessageType::MethodCall, Some(":1.1"), Some(BusName::well_known("org.foo"))),
        0,
    );
    let (changes, result) = list.handle_message(&call, None);
    assert_eq!(result, Ok(()));
    assert_eq!(changes, vec![change(0, 0, 1), change(1, 0, 1)]);
    assert_eq!(entries(&list), vec![":1.1", "org.foo"]);
    // seen again, the names keep their entries and nothing is told
    let (changes, result) = list.handle_message(&call, None);
    assert_eq!(result, Ok(()));
    assert_eq!(changes, vec![]);
    assert_eq!(list.n_items(), 2);
}

#[test]
fn method_call_without_destination_uses_the_stand_in() {
    let mut list = BusNameList::new();
    let call = message(header(MessageType::MethodCall, Some(":1.1"), None), 0);
    assert_eq!(list.handle_message(&call, None).1, Ok(()));
    assert_eq!(entries(&list), vec![":1.1", "method.call.destination"]);
}

#[test]
fn method_call_without_sender_is_refused() {
    let mut list = BusNameList::new();
    let call = message(header(MessageType::MethodCall, None, Some(BusName::unique(":1.2"))), 0);
    let (changes, result) = list.handle_message(&call, None);
    assert_eq!(result, Err(HandleError::CallHasNoSender));
    assert_eq!(changes, vec![]);
    assert_eq!(list.n_items(), 0);
}

#[test]
fn reply_without_call_is_no_error() {
    let mut list = BusNameList::new();
    list.insert_wk_name(BusName::unique(":1.2"), "org.foo".to_owned(), ReceiveIndex(0));
    let reply = message(header(MessageType::MethodReturn, Some(":1.2"), Some(BusName::unique(":1.1"))), 1);
    assert_eq!(list.handle_message(&reply, None), (vec![], Ok(())));
    let error = message(header(MessageType::Error, Some(":1.2"), Some(BusName::well_known("org.bar"))), 2);
    assert_eq!(list.handle_message(&error, None), (vec![], Ok(())));
    let bare = message(header(MessageType::MethodReturn, None, None), 3);
    assert_eq!(list.handle_message(&bare, None), (vec![], Ok(())));
    // the directory learns nothing from them
    assert_eq!(entries(&list), vec![":1.2"]);
    assert_eq!(held(&list, &BusName::unique(":1.2"), 3), vec!["org.foo"]);
    assert!(!list.get(&BusName::unique(":1.2")).unwrap().has_snapshot_at(ReceiveIndex(1)));
}

#[test]
fn reply_shows_who_owns_the_destination_of_the_call() {
    let mut list = BusNameList::new();
    let call = message(
        header(MessageType::MethodCall, Some(":1.1"), Some(BusName::well_known("org.foo"))),
        0,
    );
    list.handle_message(&call, None);
    let reply = message(header(MessageType::MethodReturn, Some(":1.2"), Some(BusName::unique(":1.1"))), 1);
    let (changes, result) = list.handle_message(&reply, Some(&call));
    assert_eq!(result, Ok(()));
    // the entry of the name leaves, the owner comes, the owner is updated
    assert_eq!(changes, vec![change(1, 1, 0), change(1, 0, 1), change(1, 1, 1)]);
    assert_eq!(entries(&list), vec![":1.1", ":1.2"]);
    // the owner holds the name as of the call, not only as of the reply
    assert_eq!(held(&list, &BusName::unique(":1.2"), 0), vec!["org.foo"]);
    assert_eq!(held(&list, &BusName::unique(":1.2"), 1), vec!["org.foo"]);
    assert_eq!(held(&list, &BusName::unique(":1.1"), 1), Vec::<String>::new());
}

#[test]
fn reply_to_a_call_to_a_unique_name_changes_nothing() {
    let mut list = BusNameList::new();
    let call = message(header(MessageType::MethodCall, Some(":1.1"), Some(BusName::unique(":1.2"))), 0);
    list.handle_message(&call, None);
    let reply = message(header(MessageType::MethodReturn, Some(":1.2"), Some(BusName::unique(":1.1"))), 1);
    assert_eq!(list.handle_message(&reply, Some(&call)), (vec![], Ok(())));
    assert_eq!(entries(&list), vec![":1.1", ":1.2"]);
    assert_eq!(held(&list, &BusName::unique(":1.2"), 1), Vec::<String>::new());
}

#[test]
fn reply_to_a_call_without_destination_keeps_the_stand_in() {
    let mut list = BusNameList::new();
    let call = message(header(MessageType::MethodCall, Some(":1.1"), None), 0);
    list.handle_message(&call, None);
    let reply = message(header(MessageType::MethodReturn, Some(":1.2"), Some(BusName::unique(":1.1"))), 1);
    assert_eq!(list.handle_message(&reply, Some(&call)), (vec![], Ok(())));
    assert_eq!(entries(&list), vec![":1.1", "method.call.destination"]);
}

#[test]
fn second_reply_for_a_name_already_resolved_changes_nothing() {
    let mut list = BusNameList::new();
    let call = message(
        header(MessageType::MethodCall, Some(":1.1"), Some(BusName::well_known("org.foo"))),
        0,
    );
    list.handle_message(&call, None);
    let reply = message(header(MessageType::MethodReturn, Some(":1.2"), Some(BusName::unique(":1.1"))), 1);
    list.handle_message(&reply, Some(&call));
    let again = message(header(MessageType::MethodReturn, Some(":1.2"), Some(BusName::unique(":1.1"))), 2);
    assert_eq!(list.handle_message(&again, Some(&call)), (vec![], Ok(())));
    assert_eq!(entries(&list), vec![":1.1", ":1.2"]);
}

#[test]
fn reply_without_sender_is_refused_and_the_entry_stays() {
    let mut list = BusNameList::new();
    let call = message(
        header(MessageType::MethodCall, Some(":1.1"), Some(BusName::well_known("org.foo"))),
        0,
    );
    list.handle_message(&call, None);
    let reply = message(header(MessageType::MethodReturn, None, Some(BusName::unique(":1.1"))), 1);
    assert_eq!(list.first_half_error(&call, &reply), Some(HandleError::ReturnHasNoSender));
    assert_eq!(
        list.handle_call_destination(&call, &reply),
        (vec![], Err(HandleError::ReturnHasNoSender))
    );
    assert_eq!(list.handle_message(&reply, Some(&call)), (vec![], Err(HandleError::ReturnHasNoSender)));
    assert_eq!(entries(&list), vec![":1.1", "org.foo"]);
    // where no entry is to give way, no sender is asked for
    let to_unique = message(header(MessageType::MethodCall, Some(":1.1"), Some(BusName::unique(":1.2"))), 2);
    assert_eq!(list.first_half_error(&to_unique, &reply), None);
    assert_eq!(list.handle_message(&reply, Some(&to_unique)), (vec![], Ok(())));
}

#[test]
fn reply_refused_in_its_second_half_changes_nothing() {
    let mut list = BusNameList::new();
    list.insert_bus_name(BusName::well_known("org.foo"));
    // the call names no sender, and the reply goes to a well-known name
    let call = message(header(MessageType::MethodCall, None, Some(BusName::well_known("org.foo"))), 0);
    let reply = message(
        header(MessageType::MethodReturn, Some(":1.2"), Some(BusName::well_known("org.caller"))),
        1,
    );
    assert_eq!(list.first_half_error(&call, &reply), None);
    assert_eq!(second_half_error(&call, &reply), Some(HandleError::CallHasNoSender));
    assert_eq!(list.handle_message(&reply, Some(&call)), (vec![], Err(HandleError::CallHasNoSender)));
    // the entry of org.foo did not give way
    assert_eq!(entries(&list), vec!["org.foo"]);
    // with a sender on the call, both halves are done
    let call = message(header(MessageType::MethodCall, Some(":1.1"), Some(BusName::well_known("org.foo"))), 0);
    assert_eq!(second_half_error(&call, &reply), None);
    let (changes, result) = list.handle_ordinary_reply(&call, &reply);
    assert_eq!(result, Ok(()));
    assert_eq!(changes, vec![change(0, 1, 0), change(0, 0, 1), change(0, 1, 1), change(1, 0, 1)]);
    assert_eq!(entries(&list), vec![":1.2", ":1.1"]);
    assert_eq!(held(&list, &BusName::unique(":1.2"), 0), vec!["org.foo"]);
    assert_eq!(held(&list, &BusName::unique(":1.1"), 1), vec!["org.caller"]);
}

#[test]
fn method_call_refused_changes_nothing() {
    let mut list = BusNameList::new();
    // a signal has no stand-in for a missing destination
    let no_destination = message(header(MessageType::Signal, Some(":1.1"), None), 0);
    assert_eq!(
        list.handle_method_call_message(&no_destination),
        (vec![], Err(HandleError::CallHasNoDestination))
    );
    assert_eq!(list.n_items(), 0);
}

#[test]
fn reply_to_a_well_known_name_makes_the_caller_its_owner() {
    let mut list = BusNameList::new();
    let call = message(header(MessageType::MethodCall, Some(":1.1"), Some(BusName::unique(":1.2"))), 3);
    list.handle_message(&call, None);
    let reply = message(
        header(MessageType::MethodReturn, Some(":1.2"), Some(BusName::well_known("org.caller"))),
        7,
    );
    let (changes, result) = list.handle_message(&reply, Some(&call));
    assert_eq!(result, Ok(()));
    assert_eq!(changes, vec![change(0, 1, 1)]);
    assert_eq!(held(&list, &BusName::unique(":1.1"), 6), Vec::<String>::new());
    assert_eq!(held(&list, &BusName::unique(":1.1"), 7), vec!["org.caller"]);
}

#[test]
fn reply_to_a_well_known_name_needs_the_sender_of_the_call() {
    let mut list = BusNameList::new();
    let call = message(header(MessageType::MethodCall, None, Some(BusName::unique(":1.2"))), 3);
    let reply = message(
        header(MessageType::MethodReturn, Some(":1.2"), Some(BusName::well_known("org.caller"))),
        7,
    );
    assert_eq!(list.handle_message(&reply, Some(&call)), (vec![], Err(HandleError::CallHasNoSender)));
}

#[test]
fn reply_to_a_message_without_destination_is_refused() {
    let mut list = BusNameList::new();
    // a signal has no stand-in for a missing destination
    let not_a_call = message(header(MessageType::Signal, Some(":1.1"), None), 0);
    let reply = message(header(MessageType::MethodReturn, Some(":1.2"), Some(BusName::unique(":1.1"))), 1);
    assert_eq!(
        list.handle_message(&reply, Some(&not_a_call)),
        (vec![], Err(HandleError::CallHasNoDestination))
    );
}

#[test]
fn return_destination_of_a_signal_is_refused() {
    let mut list = BusNameList::new();
    let call = message(header(MessageType::MethodCall, Some(":1.1"), Some(BusName::unique(":1.2"))), 0);
    let signal = message(header(MessageType::Signal, Some(":1.2"), None), 1);
    assert_eq!(
        list.handle_return_destination(&call, &signal),
        (vec![], Err(HandleError::ReturnHasNoDestination))
    );
}

#[test]
fn get_name_owner_reply_dates_ownership_back_to_the_call() {
    let mut list = BusNameList::new();
    let call = bus_call("GetNameOwner", ":1.1", 3, "s", &strings(&["org.foo"]));
    list.handle_message(&call, None);
    let mut reply = header(MessageType::MethodReturn, Some("org.freedesktop.DBus"), Some(BusName::unique(":1.1")));
    reply.signature = "s".to_owned();
    let reply = message_with_body(reply, 9, b'l', &strings(&[":1.7"]));
    let (changes, result) = list.handle_message(&reply, Some(&call));
    assert_eq!(result, Ok(()));
    assert_eq!(changes, vec![change(2, 0, 1)]);
    assert_eq!(entries(&list), vec![":1.1", "org.freedesktop.DBus", ":1.7"]);
    let owner = BusName::unique(":1.7");
    assert_eq!(held(&list, &owner, 2), Vec::<String>::new());
    for index in 3..=9 {
        assert_eq!(held(&list, &owner, index), vec!["org.foo"]);
    }
    assert_eq!(held(&list, &owner, 100), vec!["org.foo"]);
}

#[test]
fn get_name_owner_in_big_endian() {
    let mut list = BusNameList::new();
    let mut name = vec![0, 0, 0, 7];
    name.extend_from_slice(b"org.foo\0");
    let mut call = header(MessageType::MethodCall, Some(":1.1"), Some(BusName::unique("org.freedesktop.DBus")));
    call.interface = Some("org.freedesktop.DBus".to_owned());
    call.member = Some("GetNameOwner".to_owned());
    call.signature = "s".to_owned();
    let call = message_with_body(call, 0, b'B', &name);
    let mut owner = vec![0, 0, 0, 4];
    owner.extend_from_slice(b":1.7\0");
    let mut reply = header(MessageType::MethodReturn, None, Some(BusName::unique(":1.1")));
    reply.signature = "s".to_owned();
    let reply = message_with_body(reply, 1, b'B', &owner);
    assert_eq!(list.handle_get_name_owner_message(&call, &reply).1, Ok(()));
    assert_eq!(held(&list, &BusName::unique(":1.7"), 0), vec!["org.foo"]);
}

#[test]
fn get_name_owner_error_reply_changes_nothing() {
    let mut list = BusNameList::new();
    let call = bus_call("GetNameOwner", ":1.1", 0, "s", &strings(&["org.foo"]));
    let error = message(header(MessageType::Error, Some("org.freedesktop.DBus"), Some(BusName::unique(":1.1"))), 1);
    assert_eq!(list.handle_message(&error, Some(&call)), (vec![], Ok(())));
    assert_eq!(list.n_items(), 0);
}

#[test]
fn get_name_owner_for_a_unique_name_changes_nothing() {
    let mut list = BusNameList::new();
    let call = bus_call("GetNameOwner", ":1.1", 0, "s", &strings(&[":1.7"]));
    let mut reply = header(MessageType::MethodReturn, None, Some(BusName::unique(":1.1")));
    reply.signature = "s".to_owned();
    let reply = message_with_body(reply, 1, b'l', &strings(&[":1.7"]));
    assert_eq!(list.handle_message(&reply, Some(&call)), (vec![], Ok(())));
    assert_eq!(list.n_items(), 0);
}

#[test]
fn get_name_owner_with_a_bad_call_body_is_refused() {
    let mut list = BusNameList::new();
    let mut reply = header(MessageType::MethodReturn, None, Some(BusName::unique(":1.1")));
    reply.signature = "s".to_owned();
    let reply = message_with_body(reply, 1, b'l', &strings(&[":1.7"]));
    // no body at all
    let empty = bus_call("GetNameOwner", ":1.1", 0, "", &[]);
    assert_eq!(list.handle_message(&reply, Some(&empty)), (vec![], Err(HandleError::InvalidCallBody)));
    // not a bus name
    let bad_name = bus_call("GetNameOwner", ":1.1", 0, "s", &strings(&["no dots"]));
    assert_eq!(list.handle_message(&reply, Some(&bad_name)), (vec![], Err(HandleError::InvalidCallBody)));
    // another signature
    let number = bus_call("GetNameOwner", ":1.1", 0, "u", &[1, 0, 0, 0]);
    assert_eq!(list.handle_message(&reply, Some(&number)), (vec![], Err(HandleError::InvalidCallBody)));
    // cut short
    let cut = bus_call("GetNameOwner", ":1.1", 0, "s", &strings(&["org.foo"])[..6]);
    assert_eq!(list.handle_message(&reply, Some(&cut)), (vec![], Err(HandleError::InvalidCallBody)));
    assert_eq!(list.n_items(), 0);
}

#[test]
fn get_name_owner_with_an_unknown_byte_order_is_refused() {
    let mut list = BusNameList::new();
    let mut call = header(MessageType::MethodCall, Some(":1.1"), None);
    call.interface = Some("org.freedesktop.DBus".to_owned());
    call.member = Some("GetNameOwner".to_owned());
    call.signature = "s".to_owned();
    let call = message_with_body(call, 0, b'x', &strings(&["org.foo"]));
    let mut reply = header(MessageType::MethodReturn, None, Some(BusName::unique(":1.1")));
    reply.signature = "s".to_owned();
    let reply = message_with_body(reply, 1, b'l', &strings(&[":1.7"]));
    assert_eq!(list.handle_message(&reply, Some(&call)), (vec![], Err(HandleError::InvalidCallBody)));
}

#[test]
fn get_name_owner_with_a_bad_reply_body_is_refused() {
    let mut list = BusNameList::new();
    let call = bus_call("GetNameOwner", ":1.1", 0, "s", &strings(&["org.foo"]));
    let mut reply = header(MessageType::MethodReturn, None, Some(BusName::unique(":1.1")));
    reply.signature = "s".to_owned();
    // the owner must be a unique name
    let reply = message_with_body(reply, 1, b'l', &strings(&["org.bar"]));
    assert_eq!(list.handle_message(&reply, Some(&call)), (vec![], Err(HandleError::InvalidReturnBody)));
    assert_eq!(list.n_items(), 0);
}

#[test]
fn resolve_name_notes_the_owner_of_a_well_known_name() {
    let mut list = BusNameList::new();
    let (changes, result) = list.resolve_name(BusName::well_known("org.foo"), ":1.7".to_owned(), ReceiveIndex(3));
    assert_eq!(result, Ok(()));
    assert_eq!(changes, vec![change(0, 0, 1)]);
    assert_eq!(held(&list, &BusName::unique(":1.7"), 3), vec!["org.foo"]);
    let (changes, result) = list.resolve_name(BusName::unique(":1.8"), ":1.8".to_owned(), ReceiveIndex(4));
    assert_eq!((changes, result), (vec![], Ok(())));
    assert_eq!(list.n_items(), 1);
}

#[test]
fn name_owner_changed_moves_the_name() {
    let mut list = BusNameList::new();
    list.insert_wk_name(BusName::unique(":1.1"), "org.foo".to_owned(), ReceiveIndex(10));
    let (changes, result) = list.change_owner(
        NameOwnerChanged {
            name: BusName::well_known("org.foo"),
            old_owner: Some(":1.1".to_owned()),
            new_owner: Some(":1.2".to_owned()),
        },
        ReceiveIndex(20),
    );
    assert_eq!(result, Ok(()));
    // the old owner lets go before the new owner takes hold
    assert_eq!(changes, vec![change(0, 1, 1), change(1, 0, 1)]);
    let a = BusName::unique(":1.1");
    let b = BusName::unique(":1.2");
    assert_eq!(held(&list, &a, 15), vec!["org.foo"]);
    assert_eq!(held(&list, &a, 19), vec!["org.foo"]);
    assert_eq!(held(&list, &a, 20), Vec::<String>::new());
    assert_eq!(held(&list, &a, 25), Vec::<String>::new());
    assert_eq!(held(&list, &b, 19), Vec::<String>::new());
    assert_eq!(held(&list, &b, 20), vec!["org.foo"]);
    assert_eq!(held(&list, &b, 25), vec!["org.foo"]);
}

#[test]
fn name_owner_changed_with_one_owner() {
    let mut list = BusNameList::new();
    let acquired = NameOwnerChanged {
        name: BusName::well_known("org.foo"),
        old_owner: None,
        new_owner: Some(":1.2".to_owned()),
    };
    assert_eq!(list.change_owner(acquired, ReceiveIndex(1)), (vec![change(0, 0, 1)], Ok(())));
    assert_eq!(held(&list, &BusName::unique(":1.2"), 1), vec!["org.foo"]);
    let released = NameOwnerChanged {
        name: BusName::well_known("org.foo"),
        old_owner: Some(":1.2".to_owned()),
        new_owner: None,
    };
    assert_eq!(list.change_owner(released, ReceiveIndex(2)), (vec![change(0, 1, 1)], Ok(())));
    assert_eq!(held(&list, &BusName::unique(":1.2"), 2), Vec::<String>::new());
    // an old owner that was never seen gets no entry
    let unknown = NameOwnerChanged {
        name: BusName::well_known("org.bar"),
        old_owner: Some(":1.9".to_owned()),
        new_owner: None,
    };
    assert_eq!(list.change_owner(unknown, ReceiveIndex(3)), (vec![], Ok(())));
    assert_eq!(list.n_items(), 1);
}

#[test]
fn name_owner_changed_without_owners_is_refused() {
    let mut list = BusNameList::new();
    let none = NameOwnerChanged { name: BusName::well_known("org.foo"), old_owner: None, new_owner: None };
    assert_eq!(list.change_owner(none, ReceiveIndex(1)), (vec![], Err(HandleError::NoOwners)));
    let unique = NameOwnerChanged { name: BusName::unique(":1.1"), old_owner: None, new_owner: None };
    assert_eq!(list.change_owner(unique, ReceiveIndex(1)), (vec![], Err(HandleError::NoOwners)));
    assert_eq!(list.n_items(), 0);
}

#[test]
fn name_owner_changed_for_a_unique_name_changes_nothing() {
    let mut list = BusNameList::new();
    let connected = NameOwnerChanged {
        name: BusName::unique(":1.5"),
        old_owner: None,
        new_owner: Some(":1.5".to_owned()),
    };
    assert_eq!(list.change_owner(connected, ReceiveIndex(1)), (vec![], Ok(())));
    assert_eq!(list.n_items(), 0);
}

#[test]
fn name_owner_changed_signal_is_read_from_its_body() {
    let mut list = BusNameList::new();
    list.insert_wk_name(BusName::unique(":1.1"), "org.foo".to_owned(), ReceiveIndex(10));
    let signal = bus_signal("NameOwnerChanged", 20, "sss", &strings(&["org.foo", ":1.1", ":1.2"]));
    let (changes, result) = list.handle_message(&signal, None);
    assert_eq!(result, Ok(()));
    assert_eq!(changes, vec![change(0, 1, 1), change(1, 0, 1)]);
    assert_eq!(held(&list, &BusName::unique(":1.1"), 25), Vec::<String>::new());
    assert_eq!(held(&list, &BusName::unique(":1.2"), 25), vec!["org.foo"]);
    // the sender of the signal, the bus daemon, gets no entry by it
    assert_eq!(entries(&list), vec![":1.1", ":1.2"]);
}

#[test]
fn name_owner_changed_signal_with_an_empty_owner() {
    let mut list = BusNameList::new();
    let signal = bus_signal("NameOwnerChanged", 5, "sss", &strings(&["org.foo", "", ":1.2"]));
    assert_eq!(list.handle_message(&signal, None), (vec![change(0, 0, 1)], Ok(())));
    assert_eq!(held(&list, &BusName::unique(":1.2"), 5), vec!["org.foo"]);
    let both_empty = bus_signal("NameOwnerChanged", 6, "sss", &strings(&["org.foo", "", ""]));
    assert_eq!(list.handle_message(&both_empty, None), (vec![], Err(HandleError::NoOwners)));
}

#[test]
fn name_owner_changed_signal_with_a_bad_body_is_refused() {
    let mut list = BusNameList::new();
    let short = bus_signal("NameOwnerChanged", 5, "ss", &strings(&["org.foo", ":1.2"]));
    assert_eq!(list.handle_message(&short, None), (vec![], Err(HandleError::InvalidSignalBody)));
    let empty = bus_signal("NameOwnerChanged", 5, "", &[]);
    assert_eq!(list.handle_message(&empty, None), (vec![], Err(HandleError::InvalidSignalBody)));
    let bad_owner = bus_signal("NameOwnerChanged", 5, "sss", &strings(&["org.foo", "org.bar", ":1.2"]));
    assert_eq!(list.handle_message(&bad_owner, None), (vec![], Err(HandleError::InvalidSignalBody)));
    assert_eq!(list.n_items(), 0);
}

#[test]
fn other_signals_give_sender_and_destination_entries() {
    let mut list = BusNameList::new();
    let signal = message(header(MessageType::Signal, Some(":1.3"), None), 0);
    assert_eq!(list.handle_message(&signal, None), (vec![change(0, 0, 1)], Ok(())));
    let directed = message(header(MessageType::Signal, Some(":1.3"), Some(BusName::unique(":1.4"))), 1);
    assert_eq!(list.handle_message(&directed, None), (vec![change(1, 0, 1)], Ok(())));
    let anonymous = message(header(MessageType::Signal, None, None), 2);
    assert_eq!(list.handle_message(&anonymous, None), (vec![], Ok(())));
    assert_eq!(entries(&list), vec![":1.3", ":1.4"]);
    // a signal of the bus daemon with another member is an ordinary signal
    let other = bus_signal("NameAcquired", 3, "s", &strings(&["org.foo"]));
    assert_eq!(list.handle_message(&other, None), (vec![change(2, 0, 1)], Ok(())));
    assert_eq!(entries(&list), vec![":1.3", ":1.4", "org.freedesktop.DBus"]);
}

#[test]
fn a_message_without_a_place_counts_as_the_first() {
    let mut list = BusNameList::new();
    let call = bus_call("GetNameOwner", ":1.1", 0, "s", &strings(&["org.foo"]));
    let mut reply = header(MessageType::MethodReturn, None, Some(BusName::unique(":1.1")));
    reply.signature = "s".to_owned();
    let reply = message_with_body(reply, 4, b'l', &strings(&[":1.7"]));
    let unplaced_call = Message::from_event(call.to_event());
    assert_eq!(list.handle_message(&reply, Some(&unplaced_call)).1, Ok(()));
    assert_eq!(held(&list, &BusName::unique(":1.7"), 0), vec!["org.foo"]);
}
