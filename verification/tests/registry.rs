use room_relay::context::Code;
use room_relay::model::ProgressError;
use room_relay::server::{
    ChatServer, ClientMessage, Connect, Count, Delivery, Disconnect, FullMessage, Join,
    ListMembers, ListRooms, Login, Message, Progress, Reply, Request, Room, RoomInfo, User,
};

fn registry_with(ids: &[usize]) -> ChatServer {
    let mut server = ChatServer::new(0);
    for id in ids {
        assert_eq!(server.register(*id, (None, None)), *id);
    }
    server
}

fn parcel(to: usize, text: &str) -> Delivery {
    Delivery { to, message: Message(text.to_string()) }
}

fn join(server: &mut ChatServer, id: usize, name: &str) -> (bool, Vec<Delivery>) {
    let mut out = Vec::new();
    let roomer = server.join(Join { id, name: name.to_string() }, &mut out);
    (roomer, out)
}

fn disconnect(server: &mut ChatServer, id: usize) -> Vec<Delivery> {
    let mut out = Vec::new();
    server.disconnect(Disconnect { id }, &mut out);
    out
}

fn snapshot(server: &ChatServer, name: &str) -> Option<(usize, Vec<usize>)> {
    server
        .list_members(ListMembers { room_id: name.to_string() })
        .map(|info| (info.roomer.id, info.members.iter().map(|u| u.id).collect()))
}

fn anonymous(id: usize) -> User {
    User { id, name: None, avatar: None }
}

#[test]
fn new_registry_is_empty() {
    let server = ChatServer::new(3);
    assert_eq!(server.list_rooms(ListRooms), Vec::<String>::new());
    assert_eq!(server.count(Count), "3");
    assert_eq!(server.get_user(1), anonymous(1));
}

#[test]
fn room_new_has_its_maker_as_owner_and_only_member() {
    let room = Room::new(17);
    assert_eq!(room.roomer, 17);
    assert_eq!(room.members, vec![17]);
}

#[test]
fn connect_gives_ids_that_are_not_taken() {
    let mut server = ChatServer::new(0);
    let mut ids = Vec::new();
    for _ in 0..50 {
        let id = server.connect(Connect { user: (None, None) });
        assert!(!ids.contains(&id));
        ids.push(id);
    }
    assert_eq!(server.count(Count), "50");
}

#[test]
fn register_takes_the_first_free_id_from_the_candidate_on() {
    let mut server = ChatServer::new(0);
    assert_eq!(server.register(5, (None, None)), 5);
    assert_eq!(server.register(5, (None, None)), 6);
    assert_eq!(server.register(5, (None, None)), 7);
    assert_eq!(server.register(6, (None, None)), 8);
    assert_eq!(server.register(3, (None, None)), 3);
}

#[test]
fn register_goes_round_at_the_largest_id() {
    let mut server = ChatServer::new(0);
    assert_eq!(server.register(usize::MAX, (None, None)), usize::MAX);
    assert_eq!(server.register(usize::MAX, (None, None)), 0);
    assert_eq!(server.register(usize::MAX, (None, None)), 1);
    assert_eq!(server.register(usize::MAX - 1, (None, None)), usize::MAX - 1);
    assert_eq!(server.register(usize::MAX - 1, (None, None)), 2);
}

#[test]
fn connect_keeps_the_profile() {
    let mut server = ChatServer::new(0);
    let id = server.connect(Connect { user: (Some("Ann".to_string()), Some("a.png".to_string())) });
    assert_eq!(
        server.get_user(id),
        User { id, name: Some("Ann".to_string()), avatar: Some("a.png".to_string()) }
    );
}

#[test]
fn first_join_makes_the_room() {
    let mut server = registry_with(&[1]);
    let (roomer, out) = join(&mut server, 1, "party");
    assert!(roomer);
    assert_eq!(out, vec![]);
    assert_eq!(server.list_rooms(ListRooms), vec!["party".to_string()]);
    assert_eq!(snapshot(&server, "party"), Some((1, vec![1])));
}

#[test]
fn second_join_enters_the_room_and_tells_the_others() {
    let mut server = registry_with(&[1, 2]);
    join(&mut server, 1, "party");
    let (roomer, out) = join(&mut server, 2, "party");
    assert!(!roomer);
    assert_eq!(out, vec![parcel(1, "[1,\"2 进入房间\"]")]);
    assert_eq!(snapshot(&server, "party"), Some((1, vec![1, 2])));
}

#[test]
fn join_leaves_the_room_before() {
    let mut server = registry_with(&[1, 2, 3]);
    join(&mut server, 1, "a");
    join(&mut server, 2, "a");
    join(&mut server, 3, "b");
    let (roomer, out) = join(&mut server, 2, "b");
    assert!(!roomer);
    assert_eq!(
        out,
        vec![parcel(1, "[1,\"2 退出房间\"]"), parcel(3, "[1,\"2 进入房间\"]")]
    );
    assert_eq!(snapshot(&server, "a"), Some((1, vec![1])));
    assert_eq!(snapshot(&server, "b"), Some((3, vec![3, 2])));
}

#[test]
fn a_session_is_in_one_room_at_most() {
    let mut server = registry_with(&[1, 2]);
    join(&mut server, 2, "a");
    join(&mut server, 2, "b");
    join(&mut server, 2, "c");
    let names = ["a", "b", "c", "d"];
    let mut k: usize = 0;
    for step in 0..40 {
        k = (k * 7 + step + 3) % names.len();
        join(&mut server, 1, names[k]);
        let holding: Vec<String> = server
            .list_rooms(ListRooms)
            .into_iter()
            .filter(|n| snapshot(&server, n).unwrap().1.contains(&1))
            .collect();
        assert_eq!(holding, vec![names[k].to_string()]);
    }
}

#[test]
fn owner_joining_elsewhere_hands_the_room_over() {
    let mut server = registry_with(&[1, 2, 3]);
    join(&mut server, 1, "a");
    join(&mut server, 2, "a");
    join(&mut server, 3, "a");
    let (roomer, out) = join(&mut server, 1, "b");
    assert!(roomer);
    assert_eq!(
        out,
        vec![
            parcel(2, "[3,true]"),
            parcel(2, "[1,\"1 退出房间\"]"),
            parcel(3, "[1,\"1 退出房间\"]"),
        ]
    );
    assert_eq!(snapshot(&server, "a"), Some((2, vec![2, 3])));
    assert_eq!(snapshot(&server, "b"), Some((1, vec![1])));
}

#[test]
fn joining_the_same_room_again() {
    let mut server = registry_with(&[1, 2]);
    join(&mut server, 1, "a");
    let (roomer, out) = join(&mut server, 1, "a");
    assert!(roomer);
    assert_eq!(out, vec![]);
    assert_eq!(snapshot(&server, "a"), Some((1, vec![1])));
    join(&mut server, 2, "a");
    let (roomer, out) = join(&mut server, 1, "a");
    assert!(!roomer);
    assert_eq!(
        out,
        vec![
            parcel(2, "[3,true]"),
            parcel(2, "[1,\"1 退出房间\"]"),
            parcel(2, "[1,\"1 进入房间\"]"),
        ]
    );
    assert_eq!(snapshot(&server, "a"), Some((2, vec![2, 1])));
}

#[test]
fn last_member_leaving_deletes_the_room() {
    let mut server = registry_with(&[1, 2]);
    join(&mut server, 1, "a");
    join(&mut server, 2, "a");
    join(&mut server, 1, "b");
    assert_eq!(server.list_rooms(ListRooms), vec!["a".to_string(), "b".to_string()]);
    join(&mut server, 2, "b");
    assert_eq!(server.list_rooms(ListRooms), vec!["b".to_string()]);
    assert_eq!(snapshot(&server, "a"), None);
}

#[test]
fn a_room_name_can_be_used_again() {
    let mut server = registry_with(&[1, 2]);
    join(&mut server, 1, "a");
    assert_eq!(disconnect(&mut server, 1), vec![]);
    assert_eq!(server.list_rooms(ListRooms), Vec::<String>::new());
    let (roomer, out) = join(&mut server, 2, "a");
    assert!(roomer);
    assert_eq!(out, vec![]);
    assert_eq!(snapshot(&server, "a"), Some((2, vec![2])));
}

#[test]
fn disconnect_of_the_owner_hands_the_room_to_the_member_of_longest_standing() {
    let mut server = registry_with(&[1, 2, 3]);
    join(&mut server, 1, "a");
    join(&mut server, 3, "a");
    join(&mut server, 2, "a");
    let out = disconnect(&mut server, 1);
    assert_eq!(
        out,
        vec![
            parcel(3, "[3,true]"),
            parcel(3, "[1,\"1 退出房间\"]"),
            parcel(2, "[1,\"1 退出房间\"]"),
        ]
    );
    assert_eq!(snapshot(&server, "a"), Some((3, vec![3, 2])));
    assert_eq!(server.get_user(1), anonymous(1));
}

#[test]
fn disconnect_of_a_member_keeps_the_owner() {
    let mut server = registry_with(&[1, 2, 3]);
    join(&mut server, 1, "a");
    join(&mut server, 2, "a");
    join(&mut server, 3, "a");
    let out = disconnect(&mut server, 2);
    assert_eq!(
        out,
        vec![parcel(1, "[1,\"2 退出房间\"]"), parcel(3, "[1,\"2 退出房间\"]")]
    );
    assert_eq!(snapshot(&server, "a"), Some((1, vec![1, 3])));
}

#[test]
fn disconnect_outside_any_room_sends_nothing() {
    let mut server = registry_with(&[1, 2]);
    join(&mut server, 1, "a");
    assert_eq!(disconnect(&mut server, 2), vec![]);
    assert_eq!(snapshot(&server, "a"), Some((1, vec![1])));
}

#[test]
fn disconnect_of_a_stranger_changes_nothing() {
    let mut server = registry_with(&[1, 2]);
    join(&mut server, 1, "a");
    join(&mut server, 2, "a");
    assert_eq!(disconnect(&mut server, 99), vec![]);
    assert_eq!(server.count(Count), "2");
    assert_eq!(server.list_rooms(ListRooms), vec!["a".to_string()]);
    assert_eq!(snapshot(&server, "a"), Some((1, vec![1, 2])));
}

#[test]
fn disconnect_twice_is_disconnect_once() {
    let mut server = registry_with(&[1, 2, 3]);
    join(&mut server, 1, "a");
    join(&mut server, 2, "a");
    assert_eq!(disconnect(&mut server, 1).len(), 2);
    let count = server.count(Count);
    assert_eq!(disconnect(&mut server, 1), vec![]);
    assert_eq!(server.count(Count), count);
    assert_eq!(snapshot(&server, "a"), Some((2, vec![2])));
}

#[test]
fn count_goes_up_and_down_but_not_under_one() {
    let mut server = ChatServer::new(0);
    assert_eq!(server.count(Count), "0");
    server.register(1, (None, None));
    assert_eq!(server.count(Count), "1");
    server.register(2, (None, None));
    server.register(3, (None, None));
    assert_eq!(server.count(Count), "3");
    disconnect(&mut server, 2);
    assert_eq!(server.count(Count), "2");
    disconnect(&mut server, 1);
    assert_eq!(server.count(Count), "1");
    disconnect(&mut server, 3);
    assert_eq!(server.count(Count), "1");
    server.register(4, (None, None));
    assert_eq!(server.count(Count), "2");
    assert_eq!(server.visitors(), 2);
}

#[test]
fn count_goes_round_at_the_largest_number() {
    let mut server = ChatServer::new(usize::MAX);
    server.register(1, (None, None));
    assert_eq!(server.count(Count), "0");
}

#[test]
fn progress_of_the_owner_reaches_the_others() {
    let mut server = registry_with(&[1, 2, 3]);
    join(&mut server, 1, "a");
    join(&mut server, 2, "a");
    join(&mut server, 3, "a");
    let mut out = Vec::new();
    let verdict = server.progress(
        Progress { id: 1, room: "a".to_string(), progress: "42".to_string(), speed: "1.5x".to_string() },
        &mut out,
    );
    assert_eq!(verdict, Ok(()));
    assert_eq!(
        out,
        vec![parcel(2, "[2,[\"42\",\"1.5x\"]]"), parcel(3, "[2,[\"42\",\"1.5x\"]]")]
    );
}

#[test]
fn progress_of_a_member_that_is_not_the_owner_fails() {
    let mut server = registry_with(&[1, 2]);
    join(&mut server, 1, "a");
    join(&mut server, 2, "a");
    let mut out = Vec::new();
    let verdict = server.progress(
        Progress { id: 2, room: "a".to_string(), progress: "10".to_string(), speed: "1.0x".to_string() },
        &mut out,
    );
    assert_eq!(verdict, Err(ProgressError::NotOwner));
    assert_eq!(out, vec![]);
}

#[test]
fn progress_to_a_room_that_is_not_there_fails() {
    let server = registry_with(&[1]);
    let mut out = Vec::new();
    let verdict = server.progress(
        Progress { id: 1, room: "nowhere".to_string(), progress: "1".to_string(), speed: "1".to_string() },
        &mut out,
    );
    assert_eq!(verdict, Err(ProgressError::RoomNotFound));
    assert_eq!(out, vec![]);
}

#[test]
fn progress_errors_have_their_words() {
    assert_eq!(ProgressError::RoomNotFound.text(), "ROOM_NOT_EXIST");
    assert_eq!(ProgressError::RoomEmpty.text(), "DEAD_ROOM");
    assert_eq!(ProgressError::NotOwner.text(), "NOT_ROOMER");
}

#[test]
fn chat_reaches_every_other_member() {
    let mut server = registry_with(&[1, 2, 3]);
    join(&mut server, 1, "a");
    join(&mut server, 2, "a");
    join(&mut server, 3, "a");
    let mut out = Vec::new();
    server.client_message(
        ClientMessage { id: 2, msg: "hello".to_string(), room: "a".to_string() },
        &mut out,
    );
    assert_eq!(
        out,
        vec![parcel(1, "[0,[\"2\",\"hello\"]]"), parcel(3, "[0,[\"2\",\"hello\"]]")]
    );
}

#[test]
fn chat_appends_to_what_is_there() {
    let mut server = registry_with(&[1, 2]);
    join(&mut server, 1, "a");
    join(&mut server, 2, "a");
    let mut out = vec![parcel(9, "kept")];
    server.client_message(
        ClientMessage { id: 1, msg: "x".to_string(), room: "a".to_string() },
        &mut out,
    );
    assert_eq!(out, vec![parcel(9, "kept"), parcel(2, "[0,[\"1\",\"x\"]]")]);
}

#[test]
fn chat_of_an_outsider_is_dropped() {
    let mut server = registry_with(&[1, 2, 3]);
    join(&mut server, 1, "a");
    join(&mut server, 2, "a");
    let mut out = Vec::new();
    server.client_message(
        ClientMessage { id: 3, msg: "hello".to_string(), room: "a".to_string() },
        &mut out,
    );
    assert_eq!(out, vec![]);
}

#[test]
fn chat_to_a_room_that_is_not_there_is_dropped() {
    let server = registry_with(&[1]);
    let mut out = Vec::new();
    server.client_message(
        ClientMessage { id: 1, msg: "hello".to_string(), room: "".to_string() },
        &mut out,
    );
    assert_eq!(out, vec![]);
}

#[test]
fn share_and_speed_reach_every_other_member() {
    let mut server = registry_with(&[1, 2]);
    join(&mut server, 1, "a");
    join(&mut server, 2, "a");
    let mut out = Vec::new();
    server.full_message(
        FullMessage { id: 2, code: Code::Share, msg: "http://x".to_string(), room: "a".to_string() },
        &mut out,
    );
    server.full_message(
        FullMessage { id: 1, code: Code::Speed, msg: "2.0".to_string(), room: "a".to_string() },
        &mut out,
    );
    server.full_message(
        FullMessage { id: 7, code: Code::Speed, msg: "2.0".to_string(), room: "a".to_string() },
        &mut out,
    );
    assert_eq!(out, vec![parcel(1, "[4,\"http://x\"]"), parcel(2, "[6,\"2.0\"]")]);
}

#[test]
fn members_without_a_session_get_nothing() {
    let mut server = registry_with(&[1]);
    join(&mut server, 1, "a");
    let (roomer, out) = join(&mut server, 9, "a");
    assert!(!roomer);
    assert_eq!(out, vec![parcel(1, "[1,\"9 进入房间\"]")]);
    let mut out = Vec::new();
    server.client_message(
        ClientMessage { id: 1, msg: "x".to_string(), room: "a".to_string() },
        &mut out,
    );
    assert_eq!(out, vec![]);
}

#[test]
fn an_heir_without_a_session_is_not_told() {
    let mut server = registry_with(&[1, 2]);
    join(&mut server, 1, "a");
    join(&mut server, 9, "a");
    join(&mut server, 2, "a");
    let out = disconnect(&mut server, 1);
    assert_eq!(out, vec![parcel(2, "[1,\"1 退出房间\"]")]);
    assert_eq!(snapshot(&server, "a"), Some((9, vec![9, 2])));
}

#[test]
fn login_sets_name_and_avatar() {
    let mut server = registry_with(&[1, 2]);
    server.login(Login(1, Some("Ann".to_string()), Some("a.png".to_string())));
    assert_eq!(
        server.get_user(1),
        User { id: 1, name: Some("Ann".to_string()), avatar: Some("a.png".to_string()) }
    );
    join(&mut server, 2, "a");
    let (_, out) = join(&mut server, 1, "a");
    assert_eq!(out, vec![parcel(2, "[1,\"Ann 进入房间\"]")]);
    let out = disconnect(&mut server, 1);
    assert_eq!(out, vec![parcel(2, "[1,\"Ann 退出房间\"]")]);
}

#[test]
fn login_of_a_stranger_changes_nothing() {
    let mut server = registry_with(&[1]);
    server.login(Login(5, Some("Eve".to_string()), None));
    assert_eq!(server.get_user(5), anonymous(5));
    assert_eq!(server.count(Count), "1");
}

#[test]
fn snapshot_shows_owner_and_members_with_profiles() {
    let mut server = registry_with(&[1, 2]);
    server.login(Login(2, Some("Bob".to_string()), None));
    join(&mut server, 1, "a");
    join(&mut server, 2, "a");
    let bob = User { id: 2, name: Some("Bob".to_string()), avatar: None };
    assert_eq!(
        server.list_members(ListMembers { room_id: "a".to_string() }),
        Some(RoomInfo { roomer: anonymous(1), members: vec![anonymous(1), bob] })
    );
    assert_eq!(server.list_members(ListMembers { room_id: "b".to_string() }), None);
}

#[test]
fn rooms_are_listed_in_the_order_they_were_made() {
    let mut server = registry_with(&[1, 2, 3]);
    join(&mut server, 1, "z");
    join(&mut server, 2, "a");
    join(&mut server, 3, "m");
    assert_eq!(
        server.list_rooms(ListRooms),
        vec!["z".to_string(), "a".to_string(), "m".to_string()]
    );
}

#[test]
fn handle_carries_out_each_command() {
    let mut server = ChatServer::new(0);
    let (reply, out) = server.handle(Request::Connect(Connect { user: (None, None) }));
    let id = match reply {
        Reply::Connected(id) => id,
        other => panic!("{:?}", other),
    };
    assert_eq!(out, vec![]);
    let other = server.register(id, (None, None));
    assert_ne!(other, id);
    assert_eq!(
        server.handle(Request::Join(Join { id, name: "a".to_string() })),
        (Reply::Joined(true), vec![])
    );
    assert_eq!(
        server.handle(Request::Join(Join { id: other, name: "a".to_string() })),
        (Reply::Joined(false), vec![parcel(id, &format!("[1,\"{} 进入房间\"]", other))])
    );
    assert_eq!(
        server.handle(Request::ListRooms(ListRooms)),
        (Reply::Rooms(vec!["a".to_string()]), vec![])
    );
    assert_eq!(server.handle(Request::Count(Count)), (Reply::Count("2".to_string()), vec![]));
    assert_eq!(
        server.handle(Request::Login(Login(id, Some("Ann".to_string()), None))),
        (Reply::Done, vec![])
    );
    assert_eq!(
        server.handle(Request::ListMembers(ListMembers { room_id: "a".to_string() })),
        (
            Reply::Members(Some(RoomInfo {
                roomer: User { id, name: Some("Ann".to_string()), avatar: None },
                members: vec![
                    User { id, name: Some("Ann".to_string()), avatar: None },
                    anonymous(other)
                ],
            })),
            vec![]
        )
    );
    assert_eq!(
        server.handle(Request::ClientMessage(ClientMessage {
            id,
            msg: "hi".to_string(),
            room: "a".to_string()
        })),
        (Reply::Done, vec![parcel(other, &format!("[0,[\"{}\",\"hi\"]]", id))])
    );
    assert_eq!(
        server.handle(Request::FullMessage(FullMessage {
            id: other,
            code: Code::Share,
            msg: "v".to_string(),
            room: "a".to_string()
        })),
        (Reply::Done, vec![parcel(id, "[4,\"v\"]")])
    );
    assert_eq!(
        server.handle(Request::Progress(Progress {
            id: other,
            room: "a".to_string(),
            progress: "1".to_string(),
            speed: "2".to_string()
        })),
        (Reply::Progress(Err(ProgressError::NotOwner)), vec![])
    );
    assert_eq!(
        server.handle(Request::Progress(Progress {
            id,
            room: "a".to_string(),
            progress: "1".to_string(),
            speed: "2".to_string()
        })),
        (Reply::Progress(Ok(())), vec![parcel(other, "[2,[\"1\",\"2\"]]")])
    );
    assert_eq!(
        server.handle(Request::Disconnect(Disconnect { id })),
        (
            Reply::Done,
            vec![parcel(other, "[3,true]"), parcel(other, "[1,\"Ann 退出房间\"]")]
        )
    );
}
