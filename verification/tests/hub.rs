use meev::hub::Hub;
use meev::ws::WsSession;

fn sorted<T: Ord>(mut v: Vec<T>) -> Vec<T> {
    v.sort();
    v
}

#[test]
fn connect_makes_user_online() {
    let mut h = Hub::new();
    assert!(!h.is_online(1));
    h.connect_with(1, 10);
    assert!(h.is_online(1));
    assert_eq!(h.online_count(), 1);
    h.connect_with(1, 11);
    assert_eq!(h.online_count(), 1);
    h.connect_with(2, 20);
    assert_eq!(h.online_count(), 2);
    assert_eq!(sorted(h.user_connections(1)), vec![10, 11]);
}

#[test]
fn connect_assigns_fresh_ids() {
    let mut h = Hub::new();
    let a = h.connect(7);
    let b = h.connect(7);
    assert_ne!(a, b);
    assert_eq!(sorted(h.user_connections(7)), sorted(vec![a, b]));
}

#[test]
fn room_events_reach_every_connection_of_members() {
    let mut h = Hub::new();
    h.connect_with(1, 10);
    h.connect_with(1, 11);
    h.connect_with(2, 20);
    h.connect_with(3, 30);
    h.join_room(1, 100);
    h.join_room(2, 100);
    assert_eq!(sorted(h.room_connections(100)), vec![(1, 10), (1, 11), (2, 20)]);
    assert!(h.room_connections(200).is_empty());
    h.leave_room(2, 100);
    assert_eq!(sorted(h.room_connections(100)), vec![(1, 10), (1, 11)]);
}

#[test]
fn joining_twice_delivers_once() {
    let mut h = Hub::new();
    h.connect_with(1, 10);
    h.join_room(1, 100);
    h.join_room(1, 100);
    assert_eq!(h.room_connections(100), vec![(1, 10)]);
}

#[test]
fn last_disconnect_leaves_all_rooms() {
    let mut h = Hub::new();
    h.connect_with(1, 10);
    h.connect_with(1, 11);
    h.join_room(1, 100);
    h.disconnect(1, 10);
    assert!(h.is_online(1));
    assert_eq!(h.room_connections(100), vec![(1, 11)]);
    h.disconnect(1, 11);
    assert!(!h.is_online(1));
    // a new connection does not bring the old rooms back
    h.connect_with(1, 12);
    assert!(h.room_connections(100).is_empty());
}

#[test]
fn disconnect_of_unknown_connection_changes_nothing() {
    let mut h = Hub::new();
    h.connect_with(1, 10);
    h.join_room(1, 100);
    h.disconnect(1, 99);
    assert!(h.is_online(1));
    assert_eq!(h.room_connections(100), vec![(1, 10)]);
}

#[test]
fn broadcast_all_reaches_everyone() {
    let mut h = Hub::new();
    h.connect_with(1, 10);
    h.connect_with(2, 20);
    assert_eq!(sorted(h.all_connections()), vec![(1, 10), (2, 20)]);
}

#[test]
fn session_joins_member_rooms_only() {
    let mut h = Hub::new();
    let mut s = WsSession::open(&mut h, 5);
    s.init(&mut h, &vec![(100, true), (200, false), (300, true)]);
    assert_eq!(s.joined, vec![100, 300]);
    assert_eq!(h.room_connections(100), vec![(5, s.conn)]);
    assert!(h.room_connections(200).is_empty());
    s.join(&mut h, 200, false);
    assert!(h.room_connections(200).is_empty());
    s.join(&mut h, 100, true);
    assert_eq!(s.joined, vec![100, 300]);
    s.leave(&mut h, 100);
    assert_eq!(s.joined, vec![300]);
    assert!(h.room_connections(100).is_empty());
}

#[test]
fn closing_session_leaves_joined_rooms() {
    let mut h = Hub::new();
    h.connect_with(6, 60);
    h.join_room(6, 300);
    let mut s = WsSession::open(&mut h, 5);
    s.init(&mut h, &vec![(300, true)]);
    let other = WsSession::open(&mut h, 5);
    let online = s.close(&mut h);
    assert!(online);
    // the user still has a connection but left the room of the closed session
    assert_eq!(h.room_connections(300), vec![(6, 60)]);
    let online = other.close(&mut h);
    assert!(!online);
    assert_eq!(h.online_count(), 1);
}

#[test]
fn disconnect_changes_online_count_only_on_last_connection() {
    let mut h = Hub::new();
    h.connect_with(1, 10);
    h.connect_with(1, 11);
    h.connect_with(2, 20);
    h.join_room(2, 100);
    assert_eq!(h.online_count(), 2);
    h.disconnect(1, 10);
    assert_eq!(h.online_count(), 2);
    h.disconnect(1, 11);
    assert_eq!(h.online_count(), 1);
    // the other user keeps connections and rooms
    assert_eq!(h.user_connections(2), vec![20]);
    assert_eq!(h.room_connections(100), vec![(2, 20)]);
}
