use room_relay::context::{Code, Outbox};
use room_relay::model::ProgressError;
use room_relay::server::{
    ClientMessage, Connect, Count, Disconnect, FullMessage, Join, ListMembers, ListRooms, Login,
    Progress, Reply, Request, RoomInfo, User,
};
use room_relay::session::{
    parse_command, Beat, Command, Field, Incoming, Phase, Step, WsChatSession, CLIENT_TIMEOUT,
    HEARTBEAT_INTERVAL,
};

fn active_session(id: usize, now: u64) -> WsChatSession {
    let mut session = WsChatSession::new(now);
    session.connected(Some(id));
    session
}

fn text_of(session: &mut WsChatSession, text: &str) -> (Option<Request>, Vec<String>) {
    let mut out = Outbox::new();
    let request = session.handle_text(text, &mut out);
    (request, out.take())
}

fn frames_of(session: &WsChatSession, reply: Reply) -> Vec<String> {
    let mut out = Outbox::new();
    session.reply(reply, &mut out);
    out.take()
}

#[test]
fn heartbeat_constants() {
    assert_eq!(HEARTBEAT_INTERVAL, 5000);
    assert_eq!(CLIENT_TIMEOUT, 10000);
    assert_eq!(CLIENT_TIMEOUT, 2 * HEARTBEAT_INTERVAL);
}

#[test]
fn parse_commands_without_arguments() {
    assert_eq!(parse_command("/list"), Command::List);
    assert_eq!(parse_command("/count"), Command::Count);
    assert_eq!(parse_command("/members"), Command::Members);
    assert_eq!(parse_command("/list all of them"), Command::List);
    assert_eq!(parse_command("  /count\n"), Command::Count);
}

#[test]
fn parse_commands_with_one_argument() {
    assert_eq!(parse_command("/join party"), Command::Join("party".to_string()));
    assert_eq!(parse_command("/join my room"), Command::Join("my room".to_string()));
    assert_eq!(parse_command("/share http://x/y"), Command::Share("http://x/y".to_string()));
    assert_eq!(parse_command("/speed 1.5"), Command::Speed("1.5".to_string()));
    assert_eq!(parse_command("/msg hello world"), Command::Msg("hello world".to_string()));
    assert_eq!(parse_command("/msg  two"), Command::Msg(" two".to_string()));
    assert_eq!(parse_command(" /join 房间 "), Command::Join("房间".to_string()));
}

#[test]
fn parse_commands_with_two_fields() {
    assert_eq!(
        parse_command("/progress 42\n1.5x"),
        Command::Progress("42".to_string(), "1.5x".to_string())
    );
    assert_eq!(
        parse_command("/login Ann\nhttp://a/b.png"),
        Command::Login("Ann".to_string(), "http://a/b.png".to_string())
    );
    assert_eq!(
        parse_command("/progress 1\n2\n3"),
        Command::Progress("1".to_string(), "2\n3".to_string())
    );
    assert_eq!(
        parse_command("/login \nx"),
        Command::Login("".to_string(), "x".to_string())
    );
}

#[test]
fn parse_splits_at_the_first_white_space_of_any_kind() {
    assert_eq!(parse_command("/join\tparty"), Command::Join("party".to_string()));
    assert_eq!(parse_command("/join\nparty"), Command::Join("party".to_string()));
    assert_eq!(parse_command("/progress\n5"), Command::Missing(Field::Speed));
    assert_eq!(
        parse_command("/progress\t4\n5"),
        Command::Progress("4".to_string(), "5".to_string())
    );
}

#[test]
fn parse_names_the_missing_field() {
    assert_eq!(parse_command("/join"), Command::Missing(Field::RoomName));
    assert_eq!(parse_command("/join   "), Command::Missing(Field::RoomName));
    assert_eq!(parse_command("/progress"), Command::Missing(Field::Progress));
    assert_eq!(parse_command("/progress 42"), Command::Missing(Field::Speed));
    assert_eq!(parse_command("/login"), Command::Missing(Field::Name));
    assert_eq!(parse_command("/login Ann"), Command::Missing(Field::Avatar));
    assert_eq!(parse_command("/share"), Command::Missing(Field::ShareValue));
    assert_eq!(parse_command("/speed"), Command::Missing(Field::SpeedValue));
    assert_eq!(parse_command("/msg"), Command::Missing(Field::Msg));
}

#[test]
fn parse_unknown_commands_keep_the_trimmed_input() {
    assert_eq!(parse_command("/dance now"), Command::Unknown("/dance now".to_string()));
    assert_eq!(parse_command("  /LIST  "), Command::Unknown("/LIST".to_string()));
    assert_eq!(parse_command("/"), Command::Unknown("/".to_string()));
    assert_eq!(parse_command("/joinparty"), Command::Unknown("/joinparty".to_string()));
}

#[test]
fn parse_text_that_is_no_command() {
    assert_eq!(parse_command(""), Command::Inert);
    assert_eq!(parse_command("   "), Command::Inert);
    assert_eq!(parse_command("hello"), Command::Inert);
    assert_eq!(parse_command("hello /join x"), Command::Inert);
}

#[test]
fn complaints_name_the_field() {
    assert_eq!(Field::RoomName.text(), "!!! room name is required");
    assert_eq!(Field::Progress.text(), "!!! Progress is required");
    assert_eq!(Field::Speed.text(), "!!! speed is required");
    assert_eq!(Field::Name.text(), "!!! name is required");
    assert_eq!(Field::Avatar.text(), "!!! avatar is required");
    assert_eq!(Field::ShareValue.text(), "!!! share value is required");
    assert_eq!(Field::SpeedValue.text(), "!!! speed value is required");
    assert_eq!(Field::Msg.text(), "!!! msg is required");
}

#[test]
fn a_new_session_is_connecting() {
    let session = WsChatSession::new(77);
    assert_eq!(session.id, 0);
    assert_eq!(session.hb, 77);
    assert_eq!(session.room, "");
    assert_eq!(session.phase, Phase::Connecting);
    assert_eq!(session.started(), Connect { user: (None, None) });
}

#[test]
fn the_answer_of_the_registry_makes_the_session_active() {
    let mut session = WsChatSession::new(0);
    session.connected(Some(41));
    assert_eq!(session.id, 41);
    assert_eq!(session.phase, Phase::Active);
    session.connected(Some(42));
    assert_eq!(session.id, 41);
    session.connected(None);
    assert_eq!(session.phase, Phase::Active);
}

#[test]
fn a_registry_that_cannot_be_reached_ends_the_session() {
    let mut session = WsChatSession::new(0);
    session.connected(None);
    assert_eq!(session.phase, Phase::Closing);
    assert_eq!(session.stopping(), Some(Disconnect { id: 0 }));
    assert_eq!(session.phase, Phase::Closed);
}

#[test]
fn heartbeat_probes_a_client_that_is_alive() {
    let mut session = active_session(1, 1000);
    assert_eq!(session.hb(1000), Beat::Ping);
    assert_eq!(session.hb(6000), Beat::Ping);
    assert_eq!(session.hb(11000), Beat::Ping);
    assert_eq!(session.phase, Phase::Active);
    assert_eq!(session.hb(500), Beat::Ping);
}

#[test]
fn heartbeat_gives_up_a_silent_client() {
    let mut session = active_session(1, 1000);
    assert_eq!(session.hb(11001), Beat::Expired);
    assert_eq!(session.phase, Phase::Closing);
    assert_eq!(session.hb(20000), Beat::Idle);
    assert_eq!(session.stopping(), Some(Disconnect { id: 1 }));
    assert_eq!(session.hb(30000), Beat::Idle);
}

#[test]
fn a_sign_of_life_puts_the_timeout_off() {
    let mut session = active_session(1, 0);
    let mut out = Outbox::new();
    assert_eq!(session.handle(9000, Incoming::Ping, &mut out), Step::Pong);
    assert_eq!(session.hb, 9000);
    assert_eq!(session.hb(15000), Beat::Ping);
    assert_eq!(session.handle(15000, Incoming::Pong, &mut out), Step::Nothing);
    assert_eq!(session.hb(25000), Beat::Ping);
    assert_eq!(session.handle(25000, Incoming::Binary, &mut out), Step::Nothing);
    assert_eq!(session.handle(35000, Incoming::Text("hello".to_string()), &mut out), Step::Nothing);
    assert_eq!(session.hb, 35000);
    assert_eq!(session.handle(99000, Incoming::Nop, &mut out), Step::Nothing);
    assert_eq!(session.hb, 35000);
    assert_eq!(session.hb(45001), Beat::Expired);
    assert_eq!(out.take(), Vec::<String>::new());
}

#[test]
fn stopping_tells_the_registry_once() {
    let mut session = active_session(5, 0);
    assert_eq!(session.stopping(), Some(Disconnect { id: 5 }));
    assert_eq!(session.phase, Phase::Closed);
    assert_eq!(session.stopping(), None);
    assert_eq!(session.stopping(), None);
}

#[test]
fn timeout_and_close_together_tell_the_registry_once() {
    let mut session = active_session(5, 0);
    assert_eq!(session.hb(10001), Beat::Expired);
    let mut out = Outbox::new();
    assert_eq!(session.handle(10002, Incoming::Close, &mut out), Step::Nothing);
    assert_eq!(session.stopping(), Some(Disconnect { id: 5 }));
    assert_eq!(session.stopping(), None);
}

#[test]
fn close_and_errors_end_the_session() {
    let mut out = Outbox::new();
    let mut closed = active_session(1, 0);
    assert_eq!(closed.handle(1, Incoming::Close, &mut out), Step::Close);
    assert_eq!(closed.phase, Phase::Closing);
    let mut broken = active_session(2, 0);
    assert_eq!(broken.handle(1, Incoming::Error, &mut out), Step::Stop);
    assert_eq!(broken.phase, Phase::Closing);
    let mut continued = active_session(3, 0);
    assert_eq!(continued.handle(1, Incoming::Continuation, &mut out), Step::Stop);
    assert_eq!(continued.phase, Phase::Closing);
    assert_eq!(out.take(), Vec::<String>::new());
}

#[test]
fn a_session_that_is_not_active_ignores_frames() {
    let mut out = Outbox::new();
    let mut session = WsChatSession::new(0);
    assert_eq!(session.handle(5, Incoming::Text("/list".to_string()), &mut out), Step::Nothing);
    assert_eq!(session.hb, 0);
    session.connected(Some(1));
    session.stopping();
    assert_eq!(session.handle(5, Incoming::Text("/list".to_string()), &mut out), Step::Nothing);
    assert_eq!(session.handle(5, Incoming::Ping, &mut out), Step::Nothing);
    assert_eq!(out.take(), Vec::<String>::new());
}

#[test]
fn commands_become_requests() {
    let mut session = active_session(7, 0);
    assert_eq!(text_of(&mut session, "/list"), (Some(Request::ListRooms(ListRooms)), vec![]));
    assert_eq!(text_of(&mut session, "/count"), (Some(Request::Count(Count)), vec![]));
    assert_eq!(
        text_of(&mut session, "/members"),
        (Some(Request::ListMembers(ListMembers { room_id: "".to_string() })), vec![])
    );
    assert_eq!(
        text_of(&mut session, "/join party"),
        (Some(Request::Join(Join { id: 7, name: "party".to_string() })), vec![])
    );
    assert_eq!(session.room, "party");
    assert_eq!(
        text_of(&mut session, "/members"),
        (Some(Request::ListMembers(ListMembers { room_id: "party".to_string() })), vec![])
    );
    assert_eq!(
        text_of(&mut session, "/progress 42\n1.5x"),
        (
            Some(Request::Progress(Progress {
                id: 7,
                room: "party".to_string(),
                progress: "42".to_string(),
                speed: "1.5x".to_string()
            })),
            vec![]
        )
    );
    assert_eq!(
        text_of(&mut session, "/login Ann\na.png"),
        (
            Some(Request::Login(Login(7, Some("Ann".to_string()), Some("a.png".to_string())))),
            vec![]
        )
    );
    assert_eq!(
        text_of(&mut session, "/share v"),
        (
            Some(Request::FullMessage(FullMessage {
                id: 7,
                code: Code::Share,
                msg: "v".to_string(),
                room: "party".to_string()
            })),
            vec![]
        )
    );
    assert_eq!(
        text_of(&mut session, "/speed 2"),
        (
            Some(Request::FullMessage(FullMessage {
                id: 7,
                code: Code::Speed,
                msg: "2".to_string(),
                room: "party".to_string()
            })),
            vec![]
        )
    );
    assert_eq!(
        text_of(&mut session, "/msg hi all"),
        (
            Some(Request::ClientMessage(ClientMessage {
                id: 7,
                msg: "hi all".to_string(),
                room: "party".to_string()
            })),
            vec![]
        )
    );
    assert_eq!(session.room, "party");
}

#[test]
fn an_active_session_asks_the_registry() {
    let mut session = active_session(7, 0);
    let mut out = Outbox::new();
    assert_eq!(
        session.handle(3, Incoming::Text("/join a".to_string()), &mut out),
        Step::Ask(Request::Join(Join { id: 7, name: "a".to_string() }))
    );
    assert_eq!(
        session.handle(4, Incoming::Text(" /join".to_string()), &mut out),
        Step::Nothing
    );
    assert_eq!(out.take(), vec!["[1,\"!!! room name is required\"]".to_string()]);
    assert_eq!(session.room, "a");
}

#[test]
fn missing_arguments_get_a_complaint() {
    let mut session = active_session(7, 0);
    assert_eq!(
        text_of(&mut session, "/join"),
        (None, vec!["[1,\"!!! room name is required\"]".to_string()])
    );
    assert_eq!(
        text_of(&mut session, "/progress"),
        (None, vec!["[1,\"!!! Progress is required\"]".to_string()])
    );
    assert_eq!(
        text_of(&mut session, "/progress 42"),
        (None, vec!["[1,\"!!! speed is required\"]".to_string()])
    );
    assert_eq!(
        text_of(&mut session, "/login"),
        (None, vec!["[1,\"!!! name is required\"]".to_string()])
    );
    assert_eq!(
        text_of(&mut session, "/login Ann"),
        (None, vec!["[1,\"!!! avatar is required\"]".to_string()])
    );
    assert_eq!(
        text_of(&mut session, "/share"),
        (None, vec!["[1,\"!!! share value is required\"]".to_string()])
    );
    assert_eq!(
        text_of(&mut session, "/speed"),
        (None, vec!["[1,\"!!! speed value is required\"]".to_string()])
    );
    assert_eq!(
        text_of(&mut session, "/msg"),
        (None, vec!["[1,\"!!! msg is required\"]".to_string()])
    );
    assert_eq!(session.room, "");
}

#[test]
fn unknown_commands_are_echoed() {
    let mut session = active_session(7, 0);
    assert_eq!(
        text_of(&mut session, " /dance now "),
        (None, vec!["[1,\"!!! unknown command: \\\"/dance now\\\"\"]".to_string()])
    );
    assert_eq!(
        text_of(&mut session, "/say \"x\""),
        (
            None,
            vec![serde_json::to_string(&(1, format!("!!! unknown command: {:?}", "/say \"x\"")))
                .unwrap()]
        )
    );
}

#[test]
fn text_that_is_no_command_is_ignored() {
    let mut session = active_session(7, 0);
    assert_eq!(text_of(&mut session, "hello"), (None, vec![]));
    assert_eq!(text_of(&mut session, ""), (None, vec![]));
}

#[test]
fn answers_become_frames() {
    let session = active_session(7, 0);
    assert_eq!(
        frames_of(&session, Reply::Rooms(vec!["a".to_string(), "b c".to_string()])),
        vec!["[1,\"a\"]".to_string(), "[1,\"b c\"]".to_string()]
    );
    assert_eq!(frames_of(&session, Reply::Rooms(vec![])), Vec::<String>::new());
    assert_eq!(
        frames_of(&session, Reply::Joined(true)),
        vec!["[3,true]".to_string(), "[1,\"已加入房间\"]".to_string()]
    );
    assert_eq!(
        frames_of(&session, Reply::Joined(false)),
        vec!["[3,false]".to_string(), "[1,\"已加入房间\"]".to_string()]
    );
    assert_eq!(
        frames_of(&session, Reply::Count("12".to_string())),
        vec!["[1,\"[Online] 12\"]".to_string()]
    );
    assert_eq!(frames_of(&session, Reply::Members(None)), Vec::<String>::new());
    assert_eq!(
        frames_of(
            &session,
            Reply::Members(Some(RoomInfo {
                roomer: User { id: 1, name: None, avatar: None },
                members: vec![User { id: 1, name: None, avatar: None }],
            }))
        ),
        vec![
            "[5,{\"roomer\":{\"id\":1,\"name\":null,\"avatar\":null},\"members\":[{\"id\":1,\"name\":null,\"avatar\":null}]}]"
                .to_string()
        ]
    );
    assert_eq!(frames_of(&session, Reply::Progress(Ok(()))), Vec::<String>::new());
    assert_eq!(
        frames_of(&session, Reply::Progress(Err(ProgressError::NotOwner))),
        vec!["[1,\"NOT_ROOMER\"]".to_string()]
    );
    assert_eq!(
        frames_of(&session, Reply::Progress(Err(ProgressError::RoomNotFound))),
        vec!["[1,\"ROOM_NOT_EXIST\"]".to_string()]
    );
    assert_eq!(
        frames_of(&session, Reply::Progress(Err(ProgressError::RoomEmpty))),
        vec!["[1,\"DEAD_ROOM\"]".to_string()]
    );
    assert_eq!(frames_of(&session, Reply::Done), Vec::<String>::new());
    assert_eq!(frames_of(&session, Reply::Connected(3)), Vec::<String>::new());
}

#[test]
fn answers_to_a_session_that_is_over_are_dropped() {
    let mut session = active_session(7, 0);
    session.stopping();
    assert_eq!(frames_of(&session, Reply::Joined(true)), Vec::<String>::new());
    assert_eq!(frames_of(&session, Reply::Count("1".to_string())), Vec::<String>::new());
    let connecting = WsChatSession::new(0);
    assert_eq!(frames_of(&connecting, Reply::Joined(true)), Vec::<String>::new());
}
