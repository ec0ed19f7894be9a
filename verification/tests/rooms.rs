use rion::rooms::Rooms;

#[test]
fn empty_rooms_have_no_peers() {
    let rooms: Rooms<u32> = Rooms::new();
    assert!(!rooms.has_peers());
    assert!(rooms.notify_targets("r1").is_empty());
}

#[test]
fn room_lives_while_somebody_is_in_it() {
    let mut rooms: Rooms<u32> = Rooms::new();
    rooms.add_publisher("r1", "alice");
    assert!(rooms.has_peers());
    rooms.add_sub_notify("r1", "bob", 7);
    rooms.remove_publisher("r1", "alice");
    assert!(rooms.has_peers());
    let targets = rooms.notify_targets("r1");
    assert_eq!(targets, vec![&7]);
    rooms.remove_sub_notify("r1", "bob");
    assert!(!rooms.has_peers());
}

#[test]
fn leaving_an_unknown_room_changes_nothing() {
    let mut rooms: Rooms<u32> = Rooms::new();
    rooms.remove_publisher("nowhere", "alice");
    rooms.remove_sub_notify("nowhere", "bob");
    assert!(!rooms.has_peers());
}

#[test]
fn subscriber_handle_is_replaced() {
    let mut rooms: Rooms<u32> = Rooms::new();
    rooms.add_sub_notify("r1", "bob", 1);
    rooms.add_sub_notify("r1", "bob", 2);
    rooms.add_sub_notify("r1", "carol", 3);
    rooms.add_sub_notify("r2", "dave", 4);
    let mut t: Vec<u32> = rooms.notify_targets("r1").into_iter().copied().collect();
    t.sort();
    assert_eq!(t, vec![2, 3]);
    assert_eq!(rooms.notify_targets("r2"), vec![&4]);
    assert!(rooms.notify_targets("r3").is_empty());
}

#[test]
fn publisher_join_then_leave_restores_rooms() {
    let mut rooms: Rooms<u32> = Rooms::new();
    rooms.add_sub_notify("r1", "bob", 1);
    rooms.add_publisher("r1", "alice");
    rooms.add_publisher("r1", "alice");
    rooms.remove_publisher("r1", "alice");
    assert_eq!(rooms.notify_targets("r1"), vec![&1]);
    rooms.remove_sub_notify("r1", "bob");
    assert!(!rooms.has_peers());
}
