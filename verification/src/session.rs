//! The protocol handler of one connection.
//!
//! The handler decides; the transport acts. Each inbound frame, each tick of
//! the heartbeat timer and each answer of the registry is handed to a method,
//! which changes the state of the session, writes the frames for the client
//! into an [`Outbox`], and says what the transport is to do next.

use crate::context::{frame, json_bool, json_text, Code, Msg, Outbox};
use crate::server::{
    json_room_info, text_view, ClientMessage, Connect, Count, Disconnect, FullMessage, Join,
    ListMembers, ListRooms, Login, Progress, Reply, Request,
};
use crate::text::{
    chars_of, find_newline, find_space, first_newline, first_space, same_text, trim_bounds,
    trimmed,
};
use vstd::prelude::*;
use vstd::string::*;

verus! {

/// The time between two liveness probes, in milliseconds.
pub const HEARTBEAT_INTERVAL: u64 = 5000;

/// The time without a sign of life after which a connection is given up,
/// in milliseconds.
pub const CLIENT_TIMEOUT: u64 = 10000;

/// Where a session stands in its life.
#[derive(Clone, Copy, Debug, PartialEq, Eq, Structural)]
pub enum Phase {
    /// The registry has been asked for an id and has not answered.
    Connecting,
    /// The session has its id and serves the client.
    Active,
    /// The session is over; the registry has not been told yet.
    Closing,
    /// The registry has been told.
    Closed,
}

/// An argument that a command needs.
#[derive(Clone, Copy, Debug, PartialEq, Eq, Structural)]
pub enum Field {
    RoomName,
    Progress,
    Speed,
    Name,
    Avatar,
    ShareValue,
    SpeedValue,
    Msg,
}

impl Field {
    /// The complaint that names the field.
    pub open spec fn complaint(self) -> Seq<char> {
        match self {
            Field::RoomName => "!!! room name is required"@,
            Field::Progress => "!!! Progress is required"@,
            Field::Speed => "!!! speed is required"@,
            Field::Name => "!!! name is required"@,
            Field::Avatar => "!!! avatar is required"@,
            Field::ShareValue => "!!! share value is required"@,
            Field::SpeedValue => "!!! speed value is required"@,
            Field::Msg => "!!! msg is required"@,
        }
    }

    /// The complaint that names the field.
    pub fn text(&self) -> (r: String)
        ensures
            r@ == self.complaint(),
    {
        match self {
            Field::RoomName => String::from_str("!!! room name is required"),
            Field::Progress => String::from_str("!!! Progress is required"),
            Field::Speed => String::from_str("!!! speed is required"),
            Field::Name => String::from_str("!!! name is required"),
            Field::Avatar => String::from_str("!!! avatar is required"),
            Field::ShareValue => String::from_str("!!! share value is required"),
            Field::SpeedValue => String::from_str("!!! speed value is required"),
            Field::Msg => String::from_str("!!! msg is required"),
        }
    }
}

/// What a text frame of the client asks for.
#[derive(Debug, Clone, PartialEq, Eq)]
pub enum Command {
    List,
    Join(String),
    Count,
    Members,
    Progress(String, String),
    Login(String, String),
    Share(String),
    Speed(String),
    Msg(String),
    /// A command without an argument that it needs.
    Missing(Field),
    /// A command that is not known; it holds the whole input, trimmed.
    Unknown(String),
    /// Text that is no command.
    Inert,
}

/// A command, with its arguments as texts.
pub enum CommandView {
    List,
    Join(Seq<char>),
    Count,
    Members,
    Progress(Seq<char>, Seq<char>),
    Login(Seq<char>, Seq<char>),
    Share(Seq<char>),
    Speed(Seq<char>),
    Msg(Seq<char>),
    Missing(Field),
    Unknown(Seq<char>),
    Inert,
}

impl View for Command {
    type V = CommandView;

    open spec fn view(&self) -> CommandView {
        match self {
            Command::List => CommandView::List,
            Command::Join(name) => CommandView::Join(name@),
            Command::Count => CommandView::Count,
            Command::Members => CommandView::Members,
            Command::Progress(progress, speed) => CommandView::Progress(progress@, speed@),
            Command::Login(name, avatar) => CommandView::Login(name@, avatar@),
            Command::Share(value) => CommandView::Share(value@),
            Command::Speed(value) => CommandView::Speed(value@),
            Command::Msg(text) => CommandView::Msg(text@),
            Command::Missing(field) => CommandView::Missing(*field),
            Command::Unknown(input) => CommandView::Unknown(input@),
            Command::Inert => CommandView::Inert,
        }
    }
}

/// The two fields of an argument that a line feed parts, if it has one.
pub open spec fn two_fields(arg: Seq<char>) -> Option<(Seq<char>, Seq<char>)> {
    let k = first_newline(arg) as int;
    if k < arg.len() {
        Some((arg.take(k), arg.skip(k + 1)))
    } else {
        None
    }
}

/// The command that the word `token` and the argument `arg` make; `input`
/// is the whole of it.
pub open spec fn interpret(input: Seq<char>, token: Seq<char>, arg: Option<Seq<char>>) -> CommandView {
    if token == "/list"@ {
        CommandView::List
    } else if token == "/join"@ {
        match arg {
            Some(name) => CommandView::Join(name),
            None => CommandView::Missing(Field::RoomName),
        }
    } else if token == "/count"@ {
        CommandView::Count
    } else if token == "/members"@ {
        CommandView::Members
    } else if token == "/progress"@ {
        match arg {
            Some(arg) => match two_fields(arg) {
                Some((progress, speed)) => CommandView::Progress(progress, speed),
                None => CommandView::Missing(Field::Speed),
            },
            None => CommandView::Missing(Field::Progress),
        }
    } else if token == "/login"@ {
        match arg {
            Some(arg) => match two_fields(arg) {
                Some((name, avatar)) => CommandView::Login(name, avatar),
                None => CommandView::Missing(Field::Avatar),
            },
            None => CommandView::Missing(Field::Name),
        }
    } else if token == "/share"@ {
        match arg {
            Some(value) => CommandView::Share(value),
            None => CommandView::Missing(Field::ShareValue),
        }
    } else if token == "/speed"@ {
        match arg {
            Some(value) => CommandView::Speed(value),
            None => CommandView::Missing(Field::SpeedValue),
        }
    } else if token == "/msg"@ {
        match arg {
            Some(text) => CommandView::Msg(text),
            None => CommandView::Missing(Field::Msg),
        }
    } else {
        CommandView::Unknown(input)
    }
}

/// The command that a text frame holds. The text is trimmed. Text that
/// does not begin with `/` is no command. The word up to the first white
/// space names the command; what follows that white space is its argument.
pub open spec fn parse(text: Seq<char>) -> CommandView {
    let input = trimmed(text);
    if input.len() == 0 || input[0] != '/' {
        CommandView::Inert
    } else {
        let k = first_space(input) as int;
        interpret(
            input,
            input.take(k),
            if k < input.len() {
                Some(input.skip(k + 1))
            } else {
                None
            },
        )
    }
}

fn split_fields(arg: &str) -> (r: Option<(String, String)>)
    ensures
        match r {
            Some((first, second)) => two_fields(arg@) == Some((first@, second@)),
            None => two_fields(arg@) is None,
        },
{
    let chars = chars_of(arg);
    let n = chars.len();
    let k = find_newline(&chars, 0, n);
    assert(chars@.subrange(0, n as int) =~= arg@);
    if k < n {
        let first = arg.substring_char(0, k);
        let second = arg.substring_char(k + 1, n);
        assert(first@ =~= arg@.take(k as int));
        assert(second@ =~= arg@.skip(k + 1));
        Some((first.to_owned(), second.to_owned()))
    } else {
        None
    }
}

fn interpret_command(input: &str, token: &str, arg: Option<&str>) -> (r: Command)
    ensures
        r@ == interpret(
            input@,
            token@,
            match arg {
                Some(a) => Some(a@),
                None => None,
            },
        ),
{
    if same_text(token, "/list") {
        Command::List
    } else if same_text(token, "/join") {
        match arg {
            Some(name) => Command::Join(name.to_owned()),
            None => Command::Missing(Field::RoomName),
        }
    } else if same_text(token, "/count") {
        Command::Count
    } else if same_text(token, "/members") {
        Command::Members
    } else if same_text(token, "/progress") {
        match arg {
            Some(arg) => match split_fields(arg) {
                Some((progress, speed)) => Command::Progress(progress, speed),
                None => Command::Missing(Field::Speed),
            },
            None => Command::Missing(Field::Progress),
        }
    } else if same_text(token, "/login") {
        match arg {
            Some(arg) => match split_fields(arg) {
                Some((name, avatar)) => Command::Login(name, avatar),
                None => Command::Missing(Field::Avatar),
            },
            None => Command::Missing(Field::Name),
        }
    } else if same_text(token, "/share") {
        match arg {
            Some(value) => Command::Share(value.to_owned()),
            None => Command::Missing(Field::ShareValue),
        }
    } else if same_text(token, "/speed") {
        match arg {
            Some(value) => Command::Speed(value.to_owned()),
            None => Command::Missing(Field::SpeedValue),
        }
    } else if same_text(token, "/msg") {
        match arg {
            Some(text) => Command::Msg(text.to_owned()),
            None => Command::Missing(Field::Msg),
        }
    } else {
        Command::Unknown(input.to_owned())
    }
}

/// Reads the command that a text frame holds.
pub fn parse_command(text: &str) -> (r: Command)
    ensures
        r@ == parse(text@),
{
    let chars = chars_of(text);
    let (a, b) = trim_bounds(&chars);
    let ghost input = trimmed(text@);
    if a == b {
        return Command::Inert;
    }
    assert(input[0] == chars@[a as int]);
    if chars[a] != '/' {
        return Command::Inert;
    }
    let k = find_space(&chars, a, b);
    let whole = text.substring_char(a, b);
    let token = text.substring_char(a, k);
    assert(token@ =~= input.take(k - a));
    if k < b {
        let arg = text.substring_char(k + 1, b);
        assert(arg@ =~= input.skip(k - a + 1));
        interpret_command(whole, token, Some(arg))
    } else {
        interpret_command(whole, token, None)
    }
}

/// What `{:?}` writes for `text`: the text between double quotes, with the
/// escapes of Rust.
pub uninterp spec fn debug_text(text: Seq<char>) -> Seq<char>;

/// The `Debug` form of a `str`, through `format!`. The contract names what
/// it writes, which depends on the text alone.
#[verifier::external_body]
fn quoted(text: &str) -> (r: String)
    ensures
        r@ == debug_text(text@),
{
    format!("{text:?}")
}

/// An inbound frame, or the failure to read one.
#[derive(Debug, Clone, PartialEq, Eq)]
pub enum Incoming {
    Ping,
    Pong,
    Text(String),
    Binary,
    Close,
    Continuation,
    Nop,
    /// The stream broke the protocol.
    Error,
}

/// What the transport is to do after an inbound frame.
#[derive(Debug, PartialEq, Eq)]
pub enum Step {
    /// Nothing but to send the frames in the outbox.
    Nothing,
    /// Answer the ping with a pong.
    Pong,
    /// Send the request to the registry, and hand its answer to `reply`.
    Ask(Request),
    /// Close the connection as the client asked, and stop.
    Close,
    /// Stop.
    Stop,
}

/// What the transport is to do at a tick of the heartbeat timer.
#[derive(Clone, Copy, Debug, PartialEq, Eq, Structural)]
pub enum Beat {
    /// Probe the client with a ping.
    Ping,
    /// The client has been silent for too long: stop.
    Expired,
    /// The session is over: nothing.
    Idle,
}

/// The session of one connection.
#[derive(Debug)]
pub struct WsChatSession {
    /// The id that the registry gave; 0 until it has.
    pub id: usize,
    /// The time of the last sign of life of the client, in milliseconds of
    /// the clock of the transport.
    pub hb: u64,
    /// The room that the session last asked to join; empty at first.
    pub room: String,
    /// Where the session stands in its life.
    pub phase: Phase,
}

/// The room of a session after a command.
pub open spec fn room_after(room: Seq<char>, command: CommandView) -> Seq<char> {
    match command {
        CommandView::Join(name) => name,
        _ => room,
    }
}

/// The frames that tell the client what is wrong with a command.
pub open spec fn complaints(command: CommandView) -> Seq<Seq<char>> {
    match command {
        CommandView::Missing(field) => seq![frame(Code::Sys.number(), json_text(field.complaint()))],
        CommandView::Unknown(input) => seq![
            frame(Code::Sys.number(), json_text("!!! unknown command: "@ + debug_text(input))),
        ],
        _ => Seq::<Seq<char>>::empty(),
    }
}

/// Whether `request` is what the session `id`, which last asked for `room`,
/// sends to the registry for `command`.
pub open spec fn asks(command: CommandView, id: usize, room: Seq<char>, request: Option<Request>) -> bool {
    match command {
        CommandView::List => request matches Some(Request::ListRooms(_)),
        CommandView::Join(name) => {
            &&& request matches Some(Request::Join(join))
            &&& join.id == id
            &&& join.name@ == name
        },
        CommandView::Count => request matches Some(Request::Count(_)),
        CommandView::Members => {
            &&& request matches Some(Request::ListMembers(list))
            &&& list.room_id@ == room
        },
        CommandView::Progress(progress, speed) => {
            &&& request matches Some(Request::Progress(update))
            &&& update.id == id
            &&& update.room@ == room
            &&& update.progress@ == progress
            &&& update.speed@ == speed
        },
        CommandView::Login(name, avatar) => {
            &&& request matches Some(Request::Login(login))
            &&& login.0 == id
            &&& text_view(login.1) == Some(name)
            &&& text_view(login.2) == Some(avatar)
        },
        CommandView::Share(value) => {
            &&& request matches Some(Request::FullMessage(full))
            &&& full.id == id
            &&& full.code == Code::Share
            &&& full.msg@ == value
            &&& full.room@ == room
        },
        CommandView::Speed(value) => {
            &&& request matches Some(Request::FullMessage(full))
            &&& full.id == id
            &&& full.code == Code::Speed
            &&& full.msg@ == value
            &&& full.room@ == room
        },
        CommandView::Msg(text) => {
            &&& request matches Some(Request::ClientMessage(chat))
            &&& chat.id == id
            &&& chat.msg@ == text
            &&& chat.room@ == room
        },
        CommandView::Missing(_) | CommandView::Unknown(_) | CommandView::Inert => request is None,
    }
}

/// The frames that pass an answer of the registry on to the client.
pub open spec fn reply_frames(reply: Reply) -> Seq<Seq<char>> {
    match reply {
        Reply::Rooms(names) => Seq::new(
            names@.len(),
            |i: int| frame(Code::Sys.number(), json_text(names@[i]@)),
        ),
        Reply::Joined(roomer) => seq![
            frame(Code::Roomer.number(), json_bool(roomer)),
            frame(Code::Sys.number(), json_text("已加入房间"@)),
        ],
        Reply::Count(count) => seq![frame(Code::Sys.number(), json_text("[Online] "@ + count@))],
        Reply::Members(Some(info)) => seq![frame(Code::Members.number(), json_room_info(info@))],
        Reply::Progress(Err(error)) => seq![frame(Code::Sys.number(), json_text(error.word()))],
        _ => Seq::<Seq<char>>::empty(),
    }
}

/// The time from `since` to `now`; none where the clock has gone back.
pub open spec fn elapsed(now: u64, since: u64) -> int {
    if now > since {
        now - since
    } else {
        0
    }
}

impl WsChatSession {
    /// The session of a connection that was accepted at `now`.
    pub fn new(now: u64) -> (r: WsChatSession)
        ensures
            r.id == 0,
            r.hb == now,
            r.room@ == Seq::<char>::empty(),
            r.phase == Phase::Connecting,
    {
        WsChatSession { id: 0, hb: now, room: String::new(), phase: Phase::Connecting }
    }

    /// The request by which a new session asks the registry for its id.
    pub fn started(&self) -> (r: Connect)
        ensures
            r.user.0 is None,
            r.user.1 is None,
    {
        Connect { user: (None, None) }
    }

    /// Takes the answer to the request of `started`: the id, or nothing
    /// where the registry could not be reached, which ends the session.
    pub fn connected(&mut self, id: Option<usize>)
        ensures
            final(self).hb == old(self).hb,
            final(self).room == old(self).room,
            old(self).phase != Phase::Connecting ==> *final(self) == *old(self),
            old(self).phase == Phase::Connecting ==> match id {
                Some(id) => final(self).id == id && final(self).phase == Phase::Active,
                None => final(self).id == old(self).id && final(self).phase == Phase::Closing,
            },
    {
        if self.phase == Phase::Connecting {
            match id {
                Some(id) => {
                    self.id = id;
                    self.phase = Phase::Active;
                },
                None => {
                    self.phase = Phase::Closing;
                },
            }
        }
    }

    /// A tick of the heartbeat timer at `now`. A client that has given no
    /// sign of life for more than `CLIENT_TIMEOUT` is given up.
    pub fn hb(&mut self, now: u64) -> (r: Beat)
        ensures
            final(self).id == old(self).id,
            final(self).hb == old(self).hb,
            final(self).room == old(self).room,
            old(self).phase == Phase::Closing || old(self).phase == Phase::Closed ==> r == Beat::Idle
                && final(self).phase == old(self).phase,
            old(self).phase == Phase::Connecting || old(self).phase == Phase::Active ==> if elapsed(
                now,
                old(self).hb,
            ) > CLIENT_TIMEOUT {
                r == Beat::Expired && final(self).phase == Phase::Closing
            } else {
                r == Beat::Ping && final(self).phase == old(self).phase
            },
    {
        if self.phase == Phase::Closing || self.phase == Phase::Closed {
            return Beat::Idle;
        }
        let silent: u64 = if now > self.hb {
            now - self.hb
        } else {
            0
        };
        if silent > CLIENT_TIMEOUT {
            self.phase = Phase::Closing;
            Beat::Expired
        } else {
            Beat::Ping
        }
    }

    /// Carries out a command of the client: the request for the registry, if
    /// the command makes one. A complaint goes to the outbox.
    fn dispatch(&mut self, command: Command, out: &mut Outbox) -> (r: Option<Request>)
        ensures
            final(self).id == old(self).id,
            final(self).hb == old(self).hb,
            final(self).phase == old(self).phase,
            final(self).room@ == room_after(old(self).room@, command@),
            asks(command@, old(self).id, final(self).room@, r),
            final(out)@ == old(out)@ + complaints(command@),
    {
        let ghost sent = out@;
        match command {
            Command::List => {
                assert(out@ =~= sent + complaints(command@));
                Some(Request::ListRooms(ListRooms))
            },
            Command::Join(name) => {
                assert(out@ =~= sent + complaints(command@));
                self.room = name.clone();
                Some(Request::Join(Join { id: self.id, name }))
            },
            Command::Count => {
                assert(out@ =~= sent + complaints(command@));
                Some(Request::Count(Count))
            },
            Command::Members => {
                assert(out@ =~= sent + complaints(command@));
                Some(Request::ListMembers(ListMembers { room_id: self.room.clone() }))
            },
            Command::Progress(progress, speed) => {
                assert(out@ =~= sent + complaints(command@));
                Some(
                    Request::Progress(
                        Progress { id: self.id, room: self.room.clone(), progress, speed },
                    ),
                )
            },
            Command::Login(name, avatar) => {
                assert(out@ =~= sent + complaints(command@));
                Some(Request::Login(Login(self.id, Some(name), Some(avatar))))
            },
            Command::Share(value) => {
                assert(out@ =~= sent + complaints(command@));
                Some(
                    Request::FullMessage(
                        FullMessage {
                            id: self.id,
                            code: Code::Share,
                            msg: value,
                            room: self.room.clone(),
                        },
                    ),
                )
            },
            Command::Speed(value) => {
                assert(out@ =~= sent + complaints(command@));
                Some(
                    Request::FullMessage(
                        FullMessage {
                            id: self.id,
                            code: Code::Speed,
                            msg: value,
                            room: self.room.clone(),
                        },
                    ),
                )
            },
            Command::Msg(text) => {
                assert(out@ =~= sent + complaints(command@));
                Some(
                    Request::ClientMessage(
                        ClientMessage { id: self.id, msg: text, room: self.room.clone() },
                    ),
                )
            },
            Command::Missing(field) => {
                out.sys(field.text());
                assert(out@ =~= sent + complaints(command@));
                None
            },
            Command::Unknown(input) => {
                let mut complaint = String::from_str("!!! unknown command: ");
                let echo = quoted(input.as_str());
                complaint.append(echo.as_str());
                out.sys(complaint);
                assert(out@ =~= sent + complaints(command@));
                None
            },
            Command::Inert => {
                assert(out@ =~= sent + complaints(command@));
                None
            },
        }
    }

    /// Takes a text frame of the client: the request for the registry, if
    /// the text asks for one. Text that is no command is ignored; a command
    /// that is not known, or lacks an argument, gets a complaint.
    pub fn handle_text(&mut self, text: &str, out: &mut Outbox) -> (r: Option<Request>)
        ensures
            final(self).id == old(self).id,
            final(self).hb == old(self).hb,
            final(self).phase == old(self).phase,
            final(self).room@ == room_after(old(self).room@, parse(text@)),
            asks(parse(text@), old(self).id, final(self).room@, r),
            final(out)@ == old(out)@ + complaints(parse(text@)),
    {
        let command = parse_command(text);
        self.dispatch(command, out)
    }

    /// Takes an inbound frame at `now`. A session that is not active ignores
    /// it. Every frame but a close is a sign of life.
    pub fn handle(&mut self, now: u64, msg: Incoming, out: &mut Outbox) -> (r: Step)
        ensures
            final(self).id == old(self).id,
            old(self).phase != Phase::Active ==> r is Nothing && *final(self) == *old(self)
                && final(out)@ == old(out)@,
            old(self).phase == Phase::Active ==> match msg {
                Incoming::Ping => {
                    &&& r is Pong
                    &&& final(self).hb == now
                    &&& final(self).room == old(self).room
                    &&& final(self).phase == Phase::Active
                    &&& final(out)@ == old(out)@
                },
                Incoming::Pong | Incoming::Binary => {
                    &&& r is Nothing
                    &&& final(self).hb == now
                    &&& final(self).room == old(self).room
                    &&& final(self).phase == Phase::Active
                    &&& final(out)@ == old(out)@
                },
                Incoming::Text(text) => {
                    &&& final(self).hb == now
                    &&& final(self).phase == Phase::Active
                    &&& final(self).room@ == room_after(old(self).room@, parse(text@))
                    &&& final(out)@ == old(out)@ + complaints(parse(text@))
                    &&& match r {
                        Step::Ask(request) => asks(
                            parse(text@),
                            old(self).id,
                            final(self).room@,
                            Some(request),
                        ),
                        Step::Nothing => asks(parse(text@), old(self).id, final(self).room@, None),
                        _ => false,
                    }
                },
                Incoming::Close => {
                    &&& r is Close
                    &&& final(self).hb == old(self).hb
                    &&& final(self).room == old(self).room
                    &&& final(self).phase == Phase::Closing
                    &&& final(out)@ == old(out)@
                },
                Incoming::Continuation | Incoming::Error => {
                    &&& r is Stop
                    &&& final(self).hb == old(self).hb
                    &&& final(self).room == old(self).room
                    &&& final(self).phase == Phase::Closing
                    &&& final(out)@ == old(out)@
                },
                Incoming::Nop => {
                    &&& r is Nothing
                    &&& *final(self) == *old(self)
                    &&& final(out)@ == old(out)@
                },
            },
    {
        if self.phase != Phase::Active {
            return Step::Nothing;
        }
        match msg {
            Incoming::Ping => {
                self.hb = now;
                Step::Pong
            },
            Incoming::Pong => {
                self.hb = now;
                Step::Nothing
            },
            Incoming::Binary => {
                self.hb = now;
                Step::Nothing
            },
            Incoming::Text(text) => {
                self.hb = now;
                match self.handle_text(text.as_str(), out) {
                    Some(request) => Step::Ask(request),
                    None => Step::Nothing,
                }
            },
            Incoming::Close => {
                self.phase = Phase::Closing;
                Step::Close
            },
            Incoming::Continuation => {
                self.phase = Phase::Closing;
                Step::Stop
            },
            Incoming::Error => {
                self.phase = Phase::Closing;
                Step::Stop
            },
            Incoming::Nop => Step::Nothing,
        }
    }

    /// Passes an answer of the registry on to the client. A session that is
    /// not active drops it.
    pub fn reply(&self, reply: Reply, out: &mut Outbox)
        ensures
            final(out)@ == old(out)@ + if self.phase == Phase::Active {
                reply_frames(reply)
            } else {
                Seq::<Seq<char>>::empty()
            },
    {
        let ghost sent = out@;
        if self.phase != Phase::Active {
            assert(out@ =~= sent + Seq::<Seq<char>>::empty());
            return ;
        }
        match reply {
            Reply::Rooms(names) => {
                let n = names.len();
                let mut i: usize = 0;
                assert(out@ =~= sent + reply_frames(reply).take(0));
                while i < n
                    invariant
                        n == names.len(),
                        i <= n,
                        reply == Reply::Rooms(names),
                        out@ == sent + reply_frames(reply).take(i as int),
                    decreases n - i,
                {
                    out.sys(names[i].clone());
                    assert(out@ =~= sent + reply_frames(reply).take(i + 1));
                    i += 1;
                }
                assert(reply_frames(reply).take(n as int) =~= reply_frames(reply));
            },
            Reply::Joined(roomer) => {
                out.full(Code::Roomer, roomer);
                out.sys(String::from_str("已加入房间"));
                assert(out@ =~= sent + reply_frames(reply));
            },
            Reply::Count(count) => {
                let mut text = String::from_str("[Online] ");
                text.append(count.as_str());
                out.sys(text);
                assert(out@ =~= sent + reply_frames(reply));
            },
            Reply::Members(info) => {
                match info {
                    Some(info) => {
                        out.full(Code::Members, info);
                        assert(out@ =~= sent + reply_frames(reply));
                    },
                    None => {
                        assert(out@ =~= sent + reply_frames(reply));
                    },
                }
            },
            Reply::Progress(verdict) => {
                match verdict {
                    Ok(_) => {
                        assert(out@ =~= sent + reply_frames(reply));
                    },
                    Err(error) => {
                        out.sys(error.text());
                        assert(out@ =~= sent + reply_frames(reply));
                    },
                }
            },
            Reply::Connected(_) => {
                assert(out@ =~= sent + reply_frames(reply));
            },
            Reply::Done => {
                assert(out@ =~= sent + reply_frames(reply));
            },
        }
    }

    /// The session stops: the notice for the registry, the first time, and
    /// nothing after that.
    pub fn stopping(&mut self) -> (r: Option<Disconnect>)
        ensures
            final(self).id == old(self).id,
            final(self).hb == old(self).hb,
            final(self).room == old(self).room,
            final(self).phase == Phase::Closed,
            match r {
                Some(notice) => old(self).phase != Phase::Closed && notice.id == old(self).id,
                None => old(self).phase == Phase::Closed,
            },
    {
        if self.phase == Phase::Closed {
            None
        } else {
            self.phase = Phase::Closed;
            Some(Disconnect { id: self.id })
        }
    }
}

} // verus!
