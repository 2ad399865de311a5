use bytes::Bytes;
use canvashare_server::models::server_models::{
    BinaryMessage, Broadcast, CanvasServer, ClientData, Connect, Disconnect, Join, ListRooms,
};
use std::sync::atomic::{AtomicUsize, Ordering};
use std::sync::Arc;

fn server() -> CanvasServer<&'static str> {
    CanvasServer::new(Arc::new(AtomicUsize::new(0)))
}

fn sorted(b: &Broadcast) -> Vec<usize> {
    let mut to = b.to.clone();
    to.sort();
    to
}

fn say(id: usize, room: &str, text: &str) -> ClientData<String> {
    ClientData { id, data: text.to_string(), room: room.to_string() }
}

#[test]
fn first_session_gets_id_one() {
    let mut server = server();
    let reg = server.connect(Connect { addr: "a" }).unwrap();
    assert_eq!(reg.id, 1);
    assert_eq!(reg.visitors, 1);
    assert_eq!(reg.joined.data.0, "Someone has joined");
    assert!(reg.joined.to.is_empty());
    assert_eq!(reg.total.data.0, "Total visitors 1");
    assert_eq!(reg.total.to, vec![1]);
}

#[test]
fn new_registry_has_only_the_empty_default_room() {
    let server = server();
    let rooms = server.list_rooms(ListRooms);
    assert_eq!(rooms, vec!["main".to_string()]);
    assert!(server.members("main").is_empty());
    assert!(server.channel(1).is_none());
}

#[test]
fn three_sessions_talk_and_one_leaves() {
    let mut server = server();
    let a = server.connect(Connect { addr: "a" }).unwrap().id;
    let b = server.connect(Connect { addr: "b" }).unwrap().id;
    let c = server.connect(Connect { addr: "c" }).unwrap().id;

    let hello = server.client_data(say(a, "main", "hello"));
    assert_eq!(hello.data.0, "hello");
    let mut expected = vec![b, c];
    expected.sort();
    assert_eq!(sorted(&hello), expected);
    assert!(!hello.to.contains(&a));

    let left = server.disconnect(Disconnect { id: b }).unwrap();
    assert_eq!(left.data.0, "Someone disconnected");
    let mut expected = vec![a, c];
    expected.sort();
    assert_eq!(sorted(&left), expected);

    let bye = server.client_data(say(c, "main", "bye"));
    assert_eq!(bye.data.0, "bye");
    assert_eq!(bye.to, vec![a]);
}

#[test]
fn registrations_get_distinct_ids_and_fill_the_default_room() {
    let mut server = server();
    let mut ids = Vec::new();
    for _ in 0..25 {
        ids.push(server.connect(Connect { addr: "x" }).unwrap().id);
    }
    for i in 0..ids.len() {
        for j in (i + 1)..ids.len() {
            assert_ne!(ids[i], ids[j]);
        }
    }
    assert!(!ids.contains(&0));
    let mut members = server.members("main");
    members.sort();
    ids.sort();
    assert_eq!(members.len(), 25);
    assert_eq!(members, ids);
}

#[test]
fn registration_tells_those_already_there_and_counts_the_visitor() {
    let counter = Arc::new(AtomicUsize::new(0));
    let mut server: CanvasServer<u8> = CanvasServer::new(counter.clone());
    server.connect(Connect { addr: 1 }).unwrap();
    server.connect(Connect { addr: 2 }).unwrap();
    let third = server.connect(Connect { addr: 3 }).unwrap();
    assert_eq!(third.id, 3);
    assert_eq!(third.visitors, 3);
    assert_eq!(third.joined.data.0, "Someone has joined");
    assert_eq!(sorted(&third.joined), vec![1, 2]);
    assert_eq!(third.total.data.0, "Total visitors 3");
    assert_eq!(sorted(&third.total), vec![1, 2, 3]);
    assert_eq!(counter.load(Ordering::SeqCst), 3);
}

#[test]
fn visitor_count_is_that_of_the_shared_counter() {
    let counter = Arc::new(AtomicUsize::new(41));
    let mut server: CanvasServer<u8> = CanvasServer::new(counter.clone());
    let reg = server.connect(Connect { addr: 1 }).unwrap();
    assert_eq!(reg.visitors, 42);
    assert_eq!(reg.total.data.0, "Total visitors 42");
    assert_eq!(reg.id, 1);
}

#[test]
fn visitor_count_wraps_like_the_counter() {
    let counter = Arc::new(AtomicUsize::new(usize::MAX));
    let mut server: CanvasServer<u8> = CanvasServer::new(counter.clone());
    let reg = server.connect(Connect { addr: 1 }).unwrap();
    assert_eq!(reg.visitors, 0);
    assert_eq!(reg.total.data.0, "Total visitors 0");
}

#[test]
fn channel_is_kept_until_deregistration() {
    let mut server = server();
    let a = server.connect(Connect { addr: "a" }).unwrap().id;
    let b = server.connect(Connect { addr: "b" }).unwrap().id;
    assert_eq!(server.channel(a), Some(&"a"));
    assert_eq!(server.channel(b), Some(&"b"));
    server.disconnect(Disconnect { id: a });
    assert_eq!(server.channel(a), None);
    assert_eq!(server.channel(b), Some(&"b"));
}

#[test]
fn deregistered_session_is_in_no_room_and_gets_nothing() {
    let mut server = server();
    let a = server.connect(Connect { addr: "a" }).unwrap().id;
    let b = server.connect(Connect { addr: "b" }).unwrap().id;
    server.join(Join { id: b, room_name: "blue".to_string() });
    let left = server.disconnect(Disconnect { id: b }).unwrap();
    assert!(left.to.is_empty());
    assert!(server.members("blue").is_empty());
    assert_eq!(server.members("main"), vec![a]);
    assert!(server.client_data(say(a, "blue", "x")).to.is_empty());
    assert!(server.client_data(say(a, "main", "x")).to.is_empty());
    assert!(server.send_str_data("blue", "x", 0).to.is_empty());
    let next = server.connect(Connect { addr: "c" }).unwrap();
    assert_ne!(next.id, b);
    assert!(!server.client_data(say(a, "main", "x")).to.contains(&b));
}

#[test]
fn deregistering_twice_or_an_unknown_id_does_nothing() {
    let mut server = server();
    let a = server.connect(Connect { addr: "a" }).unwrap().id;
    let b = server.connect(Connect { addr: "b" }).unwrap().id;
    assert!(server.disconnect(Disconnect { id: 77 }).is_none());
    assert!(server.disconnect(Disconnect { id: 0 }).is_none());
    assert!(server.disconnect(Disconnect { id: a }).is_some());
    assert!(server.disconnect(Disconnect { id: a }).is_none());
    assert_eq!(server.members("main"), vec![b]);
    assert_eq!(server.channel(b), Some(&"b"));
}

#[test]
fn relay_reaches_the_others_in_the_room_and_nobody_else() {
    let mut server = server();
    let a = server.connect(Connect { addr: "a" }).unwrap().id;
    let b = server.connect(Connect { addr: "b" }).unwrap().id;
    let c = server.connect(Connect { addr: "c" }).unwrap().id;
    let d = server.connect(Connect { addr: "d" }).unwrap().id;
    server.join(Join { id: c, room_name: "blue".to_string() });
    server.join(Join { id: d, room_name: "blue".to_string() });

    let main = server.client_data(say(a, "main", "P"));
    assert_eq!(main.data.0, "P");
    assert_eq!(main.to, vec![b]);

    let blue = server.client_data(say(c, "blue", "Q"));
    assert_eq!(blue.to, vec![d]);

    let from_outside = server.client_data(say(a, "blue", "R"));
    let mut expected = vec![c, d];
    expected.sort();
    assert_eq!(sorted(&from_outside), expected);
}

#[test]
fn relay_to_an_unknown_room_reaches_nobody() {
    let mut server = server();
    let a = server.connect(Connect { addr: "a" }).unwrap().id;
    server.connect(Connect { addr: "b" }).unwrap();
    let out = server.client_data(say(a, "nowhere", "x"));
    assert!(out.to.is_empty());
    assert_eq!(out.data.0, "x");
    assert_eq!(server.list_rooms(ListRooms), vec!["main".to_string()]);
}

#[test]
fn send_str_data_skips_the_given_id_only() {
    let mut server = server();
    let a = server.connect(Connect { addr: "a" }).unwrap().id;
    let b = server.connect(Connect { addr: "b" }).unwrap().id;
    let all = server.send_str_data("main", "note", 0);
    let mut expected = vec![a, b];
    expected.sort();
    assert_eq!(sorted(&all), expected);
    assert_eq!(all.data.0, "note");
    assert_eq!(server.send_str_data("main", "note", a).to, vec![b]);
}

#[test]
fn join_moves_a_session_to_exactly_one_room() {
    let mut server = server();
    let a = server.connect(Connect { addr: "a" }).unwrap().id;
    let b = server.connect(Connect { addr: "b" }).unwrap().id;
    let c = server.connect(Connect { addr: "c" }).unwrap().id;
    server.join(Join { id: c, room_name: "blue".to_string() });

    let moved = server.join(Join { id: a, room_name: "blue".to_string() });
    let left = moved.left.unwrap();
    assert_eq!(left.data.0, "Someone disconnected");
    assert_eq!(left.to, vec![b]);
    assert_eq!(moved.entered.data.0, "Someone connected");
    assert_eq!(moved.entered.to, vec![c]);

    assert_eq!(server.members("main"), vec![b]);
    let mut blue = server.members("blue");
    blue.sort();
    let mut expected = vec![a, c];
    expected.sort();
    assert_eq!(blue, expected);
    assert!(!server.client_data(say(b, "main", "x")).to.contains(&a));

    server.join(Join { id: a, room_name: "green".to_string() });
    assert_eq!(server.members("blue"), vec![c]);
    assert_eq!(server.members("green"), vec![a]);
    assert_eq!(
        server.list_rooms(ListRooms),
        vec!["main".to_string(), "blue".to_string(), "green".to_string()]
    );
}

#[test]
fn joining_the_room_one_is_in_tells_the_others_of_both() {
    let mut server = server();
    let a = server.connect(Connect { addr: "a" }).unwrap().id;
    let b = server.connect(Connect { addr: "b" }).unwrap().id;
    let moved = server.join(Join { id: a, room_name: "main".to_string() });
    assert_eq!(moved.left.unwrap().to, vec![b]);
    assert_eq!(moved.entered.to, vec![b]);
    let mut members = server.members("main");
    members.sort();
    assert_eq!(members, vec![a, b]);
    assert_eq!(server.list_rooms(ListRooms), vec!["main".to_string()]);
}

#[test]
fn empty_rooms_stay_listed() {
    let mut server = server();
    let a = server.connect(Connect { addr: "a" }).unwrap().id;
    server.join(Join { id: a, room_name: "blue".to_string() });
    server.disconnect(Disconnect { id: a });
    assert_eq!(server.list_rooms(ListRooms), vec!["main".to_string(), "blue".to_string()]);
    assert!(server.members("main").is_empty());
    assert!(server.members("blue").is_empty());
}

#[test]
fn a_member_that_is_not_registered_gets_nothing() {
    let mut server = server();
    let a = server.connect(Connect { addr: "a" }).unwrap().id;
    let moved = server.join(Join { id: 500, room_name: "main".to_string() });
    assert!(moved.left.is_none());
    assert_eq!(moved.entered.to, vec![a]);
    let mut members = server.members("main");
    members.sort();
    assert_eq!(members, vec![a, 500]);
    assert!(server.send_str_data("main", "x", a).to.is_empty());
    assert!(server.disconnect(Disconnect { id: 500 }).is_none());
    assert_eq!(server.members("main").len(), 2);
}

#[test]
fn an_id_is_in_one_room_even_if_it_was_placed_before_it_was_issued() {
    let mut server = server();
    server.join(Join { id: 1, room_name: "blue".to_string() });
    let reg = server.connect(Connect { addr: "a" }).unwrap();
    assert_eq!(reg.id, 1);
    assert!(server.members("blue").is_empty());
    assert_eq!(server.members("main"), vec![1]);
}

#[test]
fn binary_message_clone_holds_the_same_bytes() {
    let msg = BinaryMessage(Bytes::from_static(b"\x01\x02\x03"));
    let copy = msg.clone();
    assert_eq!(&copy.0[..], b"\x01\x02\x03");
    assert_eq!(copy.0, msg.0);
}

#[test]
fn register_tells_the_room_the_count_it_is_given() {
    let counter = Arc::new(AtomicUsize::new(5));
    let mut server: CanvasServer<u8> = CanvasServer::new(counter.clone());
    assert!(server.has_free_id());
    let first = server.register(1, 900).unwrap();
    assert_eq!(first.id, 1);
    assert_eq!(first.visitors, 900);
    assert_eq!(first.total.data.0, "Total visitors 900");
    assert_eq!(first.total.to, vec![1]);
    let second = server.register(2, 0).unwrap();
    assert_eq!(second.id, 2);
    assert_eq!(second.joined.to, vec![1]);
    assert_eq!(second.total.data.0, "Total visitors 0");
    assert_eq!(counter.load(Ordering::SeqCst), 5);
    assert_eq!(server.channel(2), Some(&2));
}

#[test]
fn a_room_that_does_not_exist_has_no_members() {
    let mut server = server();
    server.connect(Connect { addr: "a" }).unwrap();
    assert!(server.members("blue").is_empty());
    assert!(server.members("").is_empty());
    assert!(server.members("Main").is_empty());
    assert_eq!(server.members("main"), vec![1]);
}
