use bustle::bus_name::BusName;
use bustle::bus_name_item::{BusNameItem, LookupPoint};
use bustle::message::ReceiveIndex;
use indexmap::IndexSet;

fn names(set: &IndexSet<String>) -> Vec<&str> {
    set.iter().map(|name| name.as_str()).collect()
}

fn set(names: &[&str]) -> IndexSet<String> {
    names.iter().map(|name| name.to_string()).collect()
}

fn at(index: u32) -> LookupPoint {
    LookupPoint::Index(ReceiveIndex(index))
}

#[test]
fn new_item_holds_nothing() {
    let item = BusNameItem::new(BusName::unique(":1.1"));
    assert_eq!(item.name(), &BusName::unique(":1.1"));
    assert!(item.wk_names(LookupPoint::All).is_empty());
    assert!(item.wk_names(LookupPoint::Last).is_empty());
    assert!(item.wk_names(at(0)).is_empty());
    assert!(item.wk_names(at(u32::MAX)).is_empty());
    assert!(!item.has_snapshot_at(ReceiveIndex(0)));
}

#[test]
fn lookup_point_from_receive_index() {
    assert_eq!(LookupPoint::from(ReceiveIndex(7)), at(7));
}

#[test]
fn lookup_finds_the_most_recent_snapshot_at_or_before() {
    let mut item = BusNameItem::new(BusName::unique(":1.1"));
    item.insert_wk_name_log(ReceiveIndex(10), set(&["org.a"]));
    item.insert_wk_name_log(ReceiveIndex(20), set(&["org.a", "org.b"]));
    item.insert_wk_name_log(ReceiveIndex(30), set(&[]));
    assert_eq!(names(&item.wk_names(at(0))), Vec::<&str>::new());
    assert_eq!(names(&item.wk_names(at(9))), Vec::<&str>::new());
    assert_eq!(names(&item.wk_names(at(10))), vec!["org.a"]);
    assert_eq!(names(&item.wk_names(at(19))), vec!["org.a"]);
    assert_eq!(names(&item.wk_names(at(20))), vec!["org.a", "org.b"]);
    assert_eq!(names(&item.wk_names(at(29))), vec!["org.a", "org.b"]);
    assert_eq!(names(&item.wk_names(at(30))), Vec::<&str>::new());
    assert_eq!(names(&item.wk_names(at(u32::MAX))), Vec::<&str>::new());
    assert_eq!(names(&item.wk_names(LookupPoint::Last)), Vec::<&str>::new());
    assert!(item.has_snapshot_at(ReceiveIndex(20)));
    assert!(!item.has_snapshot_at(ReceiveIndex(21)));
}

#[test]
fn snapshots_inserted_out_of_order_are_found_in_order() {
    let mut item = BusNameItem::new(BusName::unique(":1.1"));
    item.insert_wk_name_log(ReceiveIndex(30), set(&["org.c"]));
    item.insert_wk_name_log(ReceiveIndex(10), set(&["org.a"]));
    item.insert_wk_name_log(ReceiveIndex(20), set(&["org.b"]));
    assert_eq!(names(&item.wk_names(at(15))), vec!["org.a"]);
    assert_eq!(names(&item.wk_names(at(25))), vec!["org.b"]);
    assert_eq!(names(&item.wk_names(at(35))), vec!["org.c"]);
    assert_eq!(names(&item.wk_names(LookupPoint::Last)), vec!["org.c"]);
    assert_eq!(names(&item.wk_names(LookupPoint::All)), vec!["org.a", "org.b", "org.c"]);
}

#[test]
fn snapshot_at_the_last_index() {
    let mut item = BusNameItem::new(BusName::unique(":1.1"));
    item.insert_wk_name_log(ReceiveIndex(u32::MAX), set(&["org.a"]));
    assert!(item.wk_names(at(u32::MAX - 1)).is_empty());
    assert_eq!(names(&item.wk_names(at(u32::MAX))), vec!["org.a"]);
}

#[test]
fn all_names_are_in_order_of_first_appearance() {
    let mut item = BusNameItem::new(BusName::unique(":1.1"));
    item.insert_wk_name_log(ReceiveIndex(1), set(&["org.b", "org.a"]));
    item.insert_wk_name_log(ReceiveIndex(2), set(&["org.c", "org.a"]));
    item.insert_wk_name_log(ReceiveIndex(3), set(&[]));
    item.insert_wk_name_log(ReceiveIndex(4), set(&["org.d", "org.b"]));
    assert_eq!(
        names(&item.wk_names(LookupPoint::All)),
        vec!["org.b", "org.a", "org.c", "org.d"]
    );
}

#[test]
fn claim_adds_to_the_snapshot_as_of_the_index() {
    let mut item = BusNameItem::new(BusName::unique(":1.1"));
    item.claim_wk_name(ReceiveIndex(5), &"org.a".to_owned());
    item.claim_wk_name(ReceiveIndex(8), &"org.b".to_owned());
    assert_eq!(names(&item.wk_names(at(4))), Vec::<&str>::new());
    assert_eq!(names(&item.wk_names(at(5))), vec!["org.a"]);
    assert_eq!(names(&item.wk_names(at(8))), vec!["org.a", "org.b"]);
    // claimed again, a name is not held twice
    item.claim_wk_name(ReceiveIndex(9), &"org.a".to_owned());
    assert_eq!(names(&item.wk_names(at(9))), vec!["org.a", "org.b"]);
    assert!(item.has_snapshot_at(ReceiveIndex(9)));
}

#[test]
fn claim_at_an_index_with_a_snapshot_adds_to_it() {
    let mut item = BusNameItem::new(BusName::unique(":1.1"));
    item.claim_wk_name(ReceiveIndex(5), &"org.a".to_owned());
    item.claim_wk_name(ReceiveIndex(5), &"org.b".to_owned());
    assert_eq!(names(&item.wk_names(at(5))), vec!["org.a", "org.b"]);
    assert_eq!(names(&item.wk_names(LookupPoint::All)), vec!["org.a", "org.b"]);
}

#[test]
fn claim_dated_back_shows_up_to_the_next_snapshot_only() {
    let mut item = BusNameItem::new(BusName::unique(":1.1"));
    item.claim_wk_name(ReceiveIndex(5), &"org.a".to_owned());
    item.claim_wk_name(ReceiveIndex(3), &"org.b".to_owned());
    assert_eq!(names(&item.wk_names(at(2))), Vec::<&str>::new());
    assert_eq!(names(&item.wk_names(at(3))), vec!["org.b"]);
    assert_eq!(names(&item.wk_names(at(4))), vec!["org.b"]);
    assert_eq!(names(&item.wk_names(at(5))), vec!["org.a"]);
    assert_eq!(names(&item.wk_names(at(6))), vec!["org.a"]);
}

#[test]
fn release_takes_the_name_out_and_moves_the_last_into_its_place() {
    let mut item = BusNameItem::new(BusName::unique(":1.1"));
    item.insert_wk_name_log(ReceiveIndex(1), set(&["org.a", "org.b", "org.c"]));
    item.release_wk_name(ReceiveIndex(2), &"org.a".to_owned());
    assert_eq!(names(&item.wk_names(at(1))), vec!["org.a", "org.b", "org.c"]);
    assert_eq!(names(&item.wk_names(at(2))), vec!["org.c", "org.b"]);
    item.release_wk_name(ReceiveIndex(3), &"org.b".to_owned());
    assert_eq!(names(&item.wk_names(at(3))), vec!["org.c"]);
    item.release_wk_name(ReceiveIndex(4), &"org.c".to_owned());
    assert_eq!(names(&item.wk_names(at(4))), Vec::<&str>::new());
    assert_eq!(names(&item.wk_names(LookupPoint::All)), vec!["org.a", "org.b", "org.c"]);
}

#[test]
fn release_of_a_name_not_held_stores_the_same_names() {
    let mut item = BusNameItem::new(BusName::unique(":1.1"));
    item.claim_wk_name(ReceiveIndex(1), &"org.a".to_owned());
    item.release_wk_name(ReceiveIndex(2), &"org.z".to_owned());
    assert_eq!(names(&item.wk_names(at(2))), vec!["org.a"]);
    assert!(item.has_snapshot_at(ReceiveIndex(2)));
}

#[test]
fn a_lookup_hands_out_a_copy() {
    let mut item = BusNameItem::new(BusName::unique(":1.1"));
    item.claim_wk_name(ReceiveIndex(1), &"org.a".to_owned());
    let mut copy = item.wk_names(LookupPoint::Last);
    copy.insert("org.b".to_owned());
    assert_eq!(names(&item.wk_names(LookupPoint::Last)), vec!["org.a"]);
}

#[test]
fn lookup_among_many_snapshots() {
    let mut item = BusNameItem::new(BusName::unique(":1.1"));
    // snapshots at 10, 20, .., 10000, each with the name of its index;
    // the later half first
    for step in (501..=1000u32).chain(1..=500u32) {
        item.insert_wk_name_log(ReceiveIndex(step * 10), set(&[&format!("org.n{step}")]));
    }
    assert_eq!(names(&item.wk_names(at(9))), Vec::<&str>::new());
    for step in 1..=1000u32 {
        let expected = format!("org.n{step}");
        assert_eq!(names(&item.wk_names(at(step * 10))), vec![expected.as_str()]);
        assert_eq!(names(&item.wk_names(at(step * 10 + 9))), vec![expected.as_str()]);
        assert!(item.has_snapshot_at(ReceiveIndex(step * 10)));
        assert!(!item.has_snapshot_at(ReceiveIndex(step * 10 + 1)));
    }
    assert_eq!(names(&item.wk_names(LookupPoint::Last)), vec!["org.n1000"]);
    assert_eq!(item.wk_names(LookupPoint::All).len(), 1000);
}
