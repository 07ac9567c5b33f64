//! The connection registry: the one owner of all sessions and rooms.
//!
//! Each command is a method. What a command sends is appended to a list of
//! [`Delivery`] values that the caller hands in; the transport then takes
//! each frame to the session it is addressed to.

use crate::context::{frame, json_null, json_pair, json_text, Code, Data, Encode};
use crate::model::{
    broadcast, depart, depart_notices, enter, fan_out, first_free, has_room, holds, lemma_depart,
    lemma_depart_notices_push, lemma_depart_push, lemma_enter, lemma_fan_out_push,
    lemma_filter_push, lemma_first_free, lemma_room_at, other_than, probe, progress_verdict,
    room_at, room_cast, Parcel, ProfileView, ProgressError, RoomInfoView, RoomState, State,
    UserView,
};
use crate::text::{decimal, decimal_usize, same_text};
use rand::rngs::ThreadRng;
use rand::Rng;
use std::collections::HashMap;
use vstd::prelude::*;
use vstd::string::*;

verus! {

broadcast use vstd::std_specs::hash::group_hash_axioms;

/// `rand::rngs::ThreadRng`, the handle to the random number generator of a
/// thread. Nothing is known of what is in it.
#[verifier::external_type_specification]
#[verifier::external_body]
pub struct ExThreadRng(ThreadRng);

/// `rand::thread_rng`: the handle to the generator of this thread. Nothing
/// is claimed of it. It panics where the system gives no entropy to start
/// the generator with.
#[verifier::external_body]
fn thread_rng() -> ThreadRng {
    rand::thread_rng()
}

/// `Rng::gen` at `usize`, on the generator of this thread: some number.
/// Nothing is claimed of it.
#[verifier::external_body]
fn draw(rng: &mut ThreadRng) -> usize {
    rng.gen::<usize>()
}

/// An encoded frame that the registry sends to a session.
#[derive(Debug, Clone, PartialEq, Eq)]
pub struct Message(pub String);

/// A frame and the session that it goes to.
#[derive(Debug, Clone, PartialEq, Eq)]
pub struct Delivery {
    pub to: usize,
    pub message: Message,
}

/// A new session asks to be registered, with the profile it starts with.
#[derive(Debug, PartialEq, Eq)]
pub struct Connect {
    pub user: (Option<String>, Option<String>),
}

/// A session has gone.
#[derive(Debug, Clone, PartialEq, Eq)]
pub struct Disconnect {
    pub id: usize,
}

/// A chat text for a room.
#[derive(Debug, Clone, PartialEq, Eq)]
pub struct ClientMessage {
    /// The session that speaks.
    pub id: usize,
    /// What it says.
    pub msg: String,
    /// The room it speaks to.
    pub room: String,
}

/// Asks for the names of the rooms.
#[derive(Debug, Clone, PartialEq, Eq)]
pub struct ListRooms;

/// Asks for the count of visitors.
#[derive(Debug, Clone, PartialEq, Eq)]
pub struct Count;

/// A room: its owner and its members, in the order in which they came in.
#[derive(Debug, Clone, PartialEq, Eq)]
pub struct Room {
    pub roomer: usize,
    pub members: Vec<usize>,
}

/// A snapshot of a room, with the profiles of its owner and members.
#[derive(Debug, Clone, PartialEq, Eq)]
pub struct RoomInfo {
    pub roomer: User,
    pub members: Vec<User>,
}

/// What a snapshot shows of a session.
#[derive(Debug, Clone, PartialEq, Eq)]
pub struct User {
    pub id: usize,
    pub name: Option<String>,
    pub avatar: Option<String>,
}

/// A session declares its display name and its avatar.
#[derive(Debug, Clone, PartialEq, Eq)]
pub struct Login(pub usize, pub Option<String>, pub Option<String>);

/// A tagged value for a room.
#[derive(Debug, Clone, PartialEq, Eq)]
pub struct FullMessage {
    /// The session that sends it.
    pub id: usize,
    /// The kind of frame.
    pub code: Code,
    /// The value.
    pub msg: String,
    /// The room it goes to.
    pub room: String,
}

/// A progress update for a room, which only its owner may send.
#[derive(Debug, Clone, PartialEq, Eq)]
pub struct Progress {
    pub id: usize,
    pub room: String,
    pub progress: String,
    pub speed: String,
}

/// Asks for the snapshot of a room.
#[derive(Debug, Clone, PartialEq, Eq)]
pub struct ListMembers {
    pub room_id: String,
}

/// A session asks to join a room, which is made where there is none.
#[derive(Debug, Clone, PartialEq, Eq)]
pub struct Join {
    pub id: usize,
    pub name: String,
}

/// A command to the registry.
#[derive(Debug, PartialEq, Eq)]
pub enum Request {
    Connect(Connect),
    Disconnect(Disconnect),
    Login(Login),
    ClientMessage(ClientMessage),
    FullMessage(FullMessage),
    Progress(Progress),
    ListRooms(ListRooms),
    ListMembers(ListMembers),
    Count(Count),
    Join(Join),
}

/// What the registry answers to a command.
#[derive(Debug, PartialEq, Eq)]
pub enum Reply {
    /// To `Connect`: the id of the new session.
    Connected(usize),
    /// To a command that asks nothing back.
    Done,
    /// To `Join`: whether the room was made, and the session owns it.
    Joined(bool),
    /// To `Progress`: whether the update was broadcast.
    Progress(Result<(), ProgressError>),
    /// To `ListRooms`: the names of the rooms.
    Rooms(Vec<String>),
    /// To `ListMembers`: the snapshot of the room, if there is one.
    Members(Option<RoomInfo>),
    /// To `Count`: the count of visitors, in decimal.
    Count(String),
}

/// The registry.
pub struct ChatServer {
    sessions: HashMap<usize, (Option<String>, Option<String>)>,
    rooms: Vec<(String, Room)>,
    rng: ThreadRng,
    visitor_count: usize,
}

/// The text of an optional string.
pub open spec fn text_view(o: Option<String>) -> Option<Seq<char>> {
    match o {
        Some(s) => Some(s@),
        None => None,
    }
}

/// The texts of a profile.
pub open spec fn profile_view(p: (Option<String>, Option<String>)) -> ProfileView {
    (text_view(p.0), text_view(p.1))
}

/// The sessions, each with the texts of its profile.
pub open spec fn sessions_view(m: Map<usize, (Option<String>, Option<String>)>) -> Map<
    usize,
    ProfileView,
> {
    Map::new(|k: usize| m.contains_key(k), |k: usize| profile_view(m[k]))
}

/// The directory that a list of named rooms stands for.
pub open spec fn rooms_view(v: Seq<(String, Room)>) -> Seq<RoomState> {
    Seq::new(v.len(), |i: int| v[i].1.state(v[i].0@))
}

/// The parcels that a list of deliveries stands for.
pub open spec fn parcels(out: Seq<Delivery>) -> Seq<Parcel> {
    Seq::new(out.len(), |i: int| (out[i].to, out[i].message.0@))
}

/// The texts of a list of strings.
pub open spec fn texts(v: Seq<String>) -> Seq<Seq<char>> {
    Seq::new(v.len(), |i: int| v[i]@)
}

/// The JSON form of an optional string.
pub open spec fn json_option(o: Option<Seq<char>>) -> Seq<char> {
    match o {
        Some(t) => json_text(t),
        None => json_null(),
    }
}

/// The JSON object that shows a user.
pub open spec fn json_user(u: UserView) -> Seq<char> {
    "{\"id\":"@ + decimal(u.id as nat) + ",\"name\":"@ + json_option(u.name) + ",\"avatar\":"@
        + json_option(u.avatar) + "}"@
}

/// The JSON objects of some users, with commas between them.
pub open spec fn json_users(users: Seq<UserView>) -> Seq<char>
    decreases users.len(),
{
    if users.len() == 0 {
        Seq::<char>::empty()
    } else if users.len() == 1 {
        json_user(users[0])
    } else {
        json_users(users.drop_last()) + ","@ + json_user(users.last())
    }
}

/// The JSON object that shows a room.
pub open spec fn json_room_info(info: RoomInfoView) -> Seq<char> {
    "{\"roomer\":"@ + json_user(info.roomer) + ",\"members\":["@ + json_users(info.members) + "]}"@
}

impl View for User {
    type V = UserView;

    open spec fn view(&self) -> UserView {
        UserView { id: self.id, name: text_view(self.name), avatar: text_view(self.avatar) }
    }
}

impl View for RoomInfo {
    type V = RoomInfoView;

    open spec fn view(&self) -> RoomInfoView {
        RoomInfoView {
            roomer: self.roomer@,
            members: Seq::new(self.members@.len(), |i: int| self.members@[i]@),
        }
    }
}

fn encode_option(o: &Option<String>) -> (r: String)
    ensures
        r@ == json_option(text_view(*o)),
{
    match o {
        Some(text) => text.encode(),
        None => {
            let none: Option<String> = None;
            none.encode()
        },
    }
}

impl Encode for User {
    open spec fn json(&self) -> Seq<char> {
        json_user(self@)
    }

    fn encode(&self) -> (r: String) {
        let mut r = String::from_str("{\"id\":");
        let id = decimal_usize(self.id);
        r.append(id.as_str());
        r.append(",\"name\":");
        let name = encode_option(&self.name);
        r.append(name.as_str());
        r.append(",\"avatar\":");
        let avatar = encode_option(&self.avatar);
        r.append(avatar.as_str());
        r.append("}");
        r
    }
}

impl Encode for RoomInfo {
    open spec fn json(&self) -> Seq<char> {
        json_room_info(self@)
    }

    fn encode(&self) -> (r: String) {
        let mut r = String::from_str("{\"roomer\":");
        let roomer = self.roomer.encode();
        r.append(roomer.as_str());
        r.append(",\"members\":[");
        let ghost head = r@;
        let ghost users = self@.members;
        let n = self.members.len();
        let mut i: usize = 0;
        while i < n
            invariant
                n == self.members.len(),
                users == self@.members,
                i <= n,
                r@ == head + json_users(users.take(i as int)),
            decreases n - i,
        {
            proof {
                assert(users.take(i + 1).drop_last() =~= users.take(i as int));
                assert(users.take(i + 1).last() == self.members@[i as int]@);
                if i == 0 {
                    assert(json_users(users.take(0)) =~= Seq::<char>::empty());
                }
            }
            let ghost so_far = r@;
            if i > 0 {
                r.append(",");
            }
            let user = self.members[i].encode();
            r.append(user.as_str());
            assert(r@ =~= head + json_users(users.take(i + 1)));
            i += 1;
        }
        assert(users.take(n as int) =~= users);
        r.append("]}");
        assert(r@ =~= json_room_info(self@));
        r
    }
}

impl ProgressError {
    /// The word by which a client knows the failure.
    pub open spec fn word(self) -> Seq<char> {
        match self {
            ProgressError::RoomNotFound => "ROOM_NOT_EXIST"@,
            ProgressError::RoomEmpty => "DEAD_ROOM"@,
            ProgressError::NotOwner => "NOT_ROOMER"@,
        }
    }

    /// The word by which a client knows the failure.
    pub fn text(&self) -> (r: String)
        ensures
            r@ == self.word(),
    {
        match self {
            ProgressError::RoomNotFound => String::from_str("ROOM_NOT_EXIST"),
            ProgressError::RoomEmpty => String::from_str("DEAD_ROOM"),
            ProgressError::NotOwner => String::from_str("NOT_ROOMER"),
        }
    }
}

impl Room {
    /// The entry of the directory that this room makes under `name`.
    pub open spec fn state(&self, name: Seq<char>) -> RoomState {
        RoomState { name: name, roomer: self.roomer, members: self.members@ }
    }

    /// A room that `roomer` has just made: it owns it and is alone in it.
    pub fn new(roomer: usize) -> (r: Room)
        ensures
            r.roomer == roomer,
            r.members@ == seq![roomer],
    {
        let mut members: Vec<usize> = Vec::new();
        members.push(roomer);
        assert(members@ =~= seq![roomer]);
        Room { roomer, members }
    }
}

fn clone_text(o: &Option<String>) -> (r: Option<String>)
    ensures
        text_view(r) == text_view(*o),
{
    match o {
        Some(text) => Some(text.clone()),
        None => None,
    }
}

fn is_member(members: &Vec<usize>, id: usize) -> (r: bool)
    ensures
        r == members@.contains(id),
{
    let n = members.len();
    let mut i: usize = 0;
    while i < n
        invariant
            n == members.len(),
            i <= n,
            forall|j: int| 0 <= j < i ==> members@[j] != id,
        decreases n - i,
    {
        if members[i] == id {
            return true;
        }
        i += 1;
    }
    false
}

fn others(members: &Vec<usize>, id: usize) -> (r: Vec<usize>)
    ensures
        r@ == members@.filter(other_than(id)),
{
    let n = members.len();
    let mut r: Vec<usize> = Vec::new();
    let mut i: usize = 0;
    proof {
        reveal(Seq::filter);
        assert(members@.take(0) =~= Seq::<usize>::empty());
    }
    while i < n
        invariant
            n == members.len(),
            i <= n,
            r@ == members@.take(i as int).filter(other_than(id)),
        decreases n - i,
    {
        proof {
            lemma_filter_push(members@.take(i as int), members@[i as int], other_than(id));
            assert(members@.take(i + 1) =~= members@.take(i as int).push(members@[i as int]));
        }
        if members[i] != id {
            r.push(members[i]);
        }
        i += 1;
    }
    assert(members@.take(n as int) =~= members@);
    r
}

proof fn lemma_parcels_push(out: Seq<Delivery>, d: Delivery)
    ensures
        parcels(out.push(d)) == parcels(out).push((d.to, d.message.0@)),
{
    assert(parcels(out.push(d)) =~= parcels(out).push((d.to, d.message.0@)));
}

impl View for ChatServer {
    type V = State;

    closed spec fn view(&self) -> State {
        State {
            sessions: sessions_view(self.sessions@),
            rooms: rooms_view(self.rooms@),
            visitors: self.visitor_count,
        }
    }
}

impl ChatServer {
    /// The registry is sound when its directory is.
    pub open spec fn wf(&self) -> bool {
        self@.wf()
    }

    /// A registry without sessions or rooms, whose count of visitors starts
    /// at `visitor_count`.
    pub fn new(visitor_count: usize) -> (r: ChatServer)
        ensures
            r.wf(),
            r@.sessions == Map::<usize, ProfileView>::empty(),
            r@.rooms == Seq::<RoomState>::empty(),
            r@.visitors == visitor_count,
    {
        let r = ChatServer {
            sessions: HashMap::new(),
            rooms: Vec::new(),
            rng: thread_rng(),
            visitor_count,
        };
        assert(r@.sessions =~= Map::<usize, ProfileView>::empty());
        assert(r@.rooms =~= Seq::<RoomState>::empty());
        r
    }

    fn find_room(&self, name: &str) -> (r: Option<usize>)
        ensures
            match r {
                Some(i) => i < self.rooms.len() && self@.rooms[i as int].name == name@,
                None => !has_room(self@.rooms, name@),
            },
            self.wf() && r is Some ==> has_room(self@.rooms, name@) && room_at(self@.rooms, name@)
                == r->0,
    {
        let n = self.rooms.len();
        let mut i: usize = 0;
        while i < n
            invariant
                n == self.rooms.len(),
                i <= n,
                forall|j: int| 0 <= j < i ==> (#[trigger] self@.rooms[j]).name != name@,
            decreases n - i,
        {
            if same_text(self.rooms[i].0.as_str(), name) {
                proof {
                    if self.wf() {
                        lemma_room_at(self@.rooms, name@, i as int);
                    }
                }
                return Some(i);
            }
            i += 1;
        }
        None
    }

    /// Sends `message` to the session `uid`, if it is connected.
    fn send(&self, message: &str, uid: usize, out: &mut Vec<Delivery>)
        ensures
            parcels(final(out)@) == parcels(old(out)@) + if self@.live().contains(uid) {
                seq![(uid, message@)]
            } else {
                Seq::<Parcel>::empty()
            },
    {
        if self.sessions.contains_key(&uid) {
            let d = Delivery { to: uid, message: Message(message.to_owned()) };
            proof {
                lemma_parcels_push(out@, d);
            }
            out.push(d);
            assert(parcels(out@) =~= parcels(old(out)@) + seq![(uid, message@)]);
        } else {
            assert(parcels(out@) =~= parcels(old(out)@) + Seq::<Parcel>::empty());
        }
    }

    /// Sends `message` to each of `members` that is connected, but for `skip_id`.
    fn send_each(&self, members: &Vec<usize>, message: &str, skip_id: usize, out: &mut Vec<Delivery>)
        ensures
            parcels(final(out)@) == parcels(old(out)@) + fan_out(
                members@,
                self@.live(),
                skip_id,
                message@,
            ),
    {
        let ghost before = parcels(out@);
        let ghost live = self@.live();
        let n = members.len();
        let mut i: usize = 0;
        proof {
            reveal(Seq::filter);
            assert(members@.take(0) =~= Seq::<usize>::empty());
            assert(parcels(out@) =~= before + fan_out(members@.take(0), live, skip_id, message@));
        }
        while i < n
            invariant
                n == members.len(),
                i <= n,
                live == self@.live(),
                parcels(out@) == before + fan_out(members@.take(i as int), live, skip_id, message@),
            decreases n - i,
        {
            let id = members[i];
            proof {
                lemma_fan_out_push(members@.take(i as int), id, live, skip_id, message@);
                assert(members@.take(i + 1) =~= members@.take(i as int).push(id));
            }
            if id != skip_id && self.sessions.contains_key(&id) {
                let d = Delivery { to: id, message: Message(message.to_owned()) };
                proof {
                    lemma_parcels_push(out@, d);
                }
                out.push(d);
                assert(parcels(out@) =~= before + fan_out(
                    members@.take(i + 1),
                    live,
                    skip_id,
                    message@,
                ));
            }
            i += 1;
        }
        assert(members@.take(n as int) =~= members@);
    }

    /// Sends `message` to the members of `room`, but for `skip_id`.
    fn send_message(&self, room: &str, message: &str, skip_id: usize, out: &mut Vec<Delivery>)
        requires
            self.wf(),
        ensures
            parcels(final(out)@) == parcels(old(out)@) + room_cast(
                self@.rooms,
                self@.live(),
                skip_id,
                room@,
                message@,
            ),
    {
        match self.find_room(room) {
            Some(i) => {
                self.send_each(&self.rooms[i].1.members, message, skip_id, out);
            },
            None => {
                assert(parcels(out@) =~= parcels(old(out)@) + Seq::<Parcel>::empty());
            },
        }
    }

    /// Sends `message` to the members of `room` but `sender`, if `sender` is
    /// one of them.
    fn send_from(&self, room: &str, message: &str, sender: usize, out: &mut Vec<Delivery>)
        requires
            self.wf(),
        ensures
            parcels(final(out)@) == parcels(old(out)@) + broadcast(
                self@.rooms,
                self@.live(),
                sender,
                room@,
                message@,
            ),
    {
        match self.find_room(room) {
            Some(i) => {
                if is_member(&self.rooms[i].1.members, sender) {
                    self.send_each(&self.rooms[i].1.members, message, sender, out);
                } else {
                    assert(parcels(out@) =~= parcels(old(out)@) + Seq::<Parcel>::empty());
                }
            },
            None => {
                assert(parcels(out@) =~= parcels(old(out)@) + Seq::<Parcel>::empty());
            },
        }
    }

    /// What a snapshot shows of `id`.
    pub fn get_user(&self, id: usize) -> (r: User)
        ensures
            r@ == self@.user(id),
    {
        match self.sessions.get(&id) {
            Some(profile) => User {
                id,
                name: clone_text(&profile.0),
                avatar: clone_text(&profile.1),
            },
            None => User { id, name: None, avatar: None },
        }
    }

    /// The name under which `id` appears in notices.
    fn display_name(&self, id: usize) -> (r: String)
        ensures
            r@ == self@.display_name(id),
    {
        match self.sessions.get(&id) {
            Some(profile) => match &profile.0 {
                Some(name) => name.clone(),
                None => decimal_usize(id),
            },
            None => decimal_usize(id),
        }
    }

    /// Sets the display name and the avatar of a session. A session that is
    /// not connected is left alone.
    pub fn login(&mut self, msg: Login)
        requires
            old(self).wf(),
        ensures
            final(self).wf(),
            final(self)@ == old(self)@.login(msg.0, text_view(msg.1), text_view(msg.2)),
    {
        let Login(id, name, avatar) = msg;
        if self.sessions.contains_key(&id) {
            self.sessions.insert(id, (name, avatar));
            assert(self@.sessions =~= old(self)@.sessions.insert(
                id,
                (text_view(name), text_view(avatar)),
            ));
        }
    }

    /// Sends a chat text to the others in the room. Nothing is sent where
    /// there is no such room or the sender is not in it.
    pub fn client_message(&self, msg: ClientMessage, out: &mut Vec<Delivery>)
        requires
            self.wf(),
        ensures
            parcels(final(out)@) == parcels(old(out)@) + broadcast(
                self@.rooms,
                self@.live(),
                msg.id,
                msg.room@,
                frame(Code::Msg.number(), json_pair(decimal(msg.id as nat), msg.msg@)),
            ),
    {
        let ClientMessage { id, msg: text, room } = msg;
        let encoded = Data::msg(decimal_usize(id), text);
        self.send_from(room.as_str(), encoded.as_str(), id, out);
    }

    /// Sends a tagged value to the others in the room. Nothing is sent where
    /// there is no such room or the sender is not in it.
    pub fn full_message(&self, msg: FullMessage, out: &mut Vec<Delivery>)
        requires
            self.wf(),
        ensures
            parcels(final(out)@) == parcels(old(out)@) + broadcast(
                self@.rooms,
                self@.live(),
                msg.id,
                msg.room@,
                frame(msg.code.number(), json_text(msg.msg@)),
            ),
    {
        let FullMessage { id, code, msg: text, room } = msg;
        let encoded = Data::full(code, text);
        self.send_from(room.as_str(), encoded.as_str(), id, out);
    }

    /// Sends a progress update to the others in the room, if the sender owns
    /// it. Nothing is sent where it fails.
    pub fn progress(&self, msg: Progress, out: &mut Vec<Delivery>) -> (r: Result<(), ProgressError>)
        requires
            self.wf(),
        ensures
            r == progress_verdict(self@.rooms, msg.id, msg.room@),
            r is Ok ==> parcels(final(out)@) == parcels(old(out)@) + room_cast(
                self@.rooms,
                self@.live(),
                msg.id,
                msg.room@,
                frame(Code::Progress.number(), json_pair(msg.progress@, msg.speed@)),
            ),
            r is Err ==> final(out)@ == old(out)@,
    {
        let Progress { id, room, progress, speed } = msg;
        match self.find_room(room.as_str()) {
            Some(i) => {
                if self.rooms[i].1.members.len() > 0 {
                    if self.rooms[i].1.roomer == id {
                        let encoded = Data::progress((progress, speed));
                        self.send_message(room.as_str(), encoded.as_str(), id, out);
                        Ok(())
                    } else {
                        Err(ProgressError::NotOwner)
                    }
                } else {
                    Err(ProgressError::RoomEmpty)
                }
            },
            None => Err(ProgressError::RoomNotFound),
        }
    }

    /// The names of the rooms, in the order of the directory.
    pub fn list_rooms(&self, msg: ListRooms) -> (r: Vec<String>)
        ensures
            texts(r@) == self@.room_names(),
            r@.len() == self@.rooms.len(),
            forall|i: int| 0 <= i < r@.len() ==> (#[trigger] r@[i])@ == self@.rooms[i].name,
    {
        let n = self.rooms.len();
        let mut r: Vec<String> = Vec::new();
        let mut i: usize = 0;
        while i < n
            invariant
                n == self.rooms.len(),
                i <= n,
                r@.len() == i,
                forall|j: int| 0 <= j < i ==> r@[j]@ == self.rooms@[j].0@,
            decreases n - i,
        {
            r.push(self.rooms[i].0.clone());
            i += 1;
        }
        assert(texts(r@) =~= self@.room_names());
        r
    }

    /// The snapshot of a room, if there is a room of that name.
    pub fn list_members(&self, msg: ListMembers) -> (r: Option<RoomInfo>)
        requires
            self.wf(),
        ensures
            match r {
                Some(info) => self@.room_info(msg.room_id@) == Some(info@),
                None => self@.room_info(msg.room_id@) is None,
            },
    {
        match self.find_room(msg.room_id.as_str()) {
            Some(i) => {
                let room = &self.rooms[i].1;
                let n = room.members.len();
                let mut members: Vec<User> = Vec::new();
                let mut k: usize = 0;
                while k < n
                    invariant
                        n == room.members.len(),
                        k <= n,
                        members@.len() == k,
                        forall|j: int|
                            0 <= j < k ==> (#[trigger] members@[j])@ == self@.user(room.members@[j]),
                    decreases n - k,
                {
                    members.push(self.get_user(room.members[k]));
                    k += 1;
                }
                let info = RoomInfo { roomer: self.get_user(room.roomer), members };
                assert(info@.members =~= self@.room_info(msg.room_id@)->0.members);
                Some(info)
            },
            None => None,
        }
    }

    /// The count of visitors.
    pub fn visitors(&self) -> (r: usize)
        ensures
            r == self@.visitors,
    {
        self.visitor_count
    }

    /// The count of visitors, in decimal.
    pub fn count(&self, msg: Count) -> (r: String)
        ensures
            r@ == decimal(self@.visitors as nat),
    {
        decimal_usize(self.visitor_count)
    }

    /// Takes `id` out of every room. A room that it owned goes to the member
    /// of longest standing that is left, who is told so; a room that it
    /// leaves empty is deleted. Those who stay in a room get the notice `left`.
    fn depart(&mut self, id: usize, left: &str, out: &mut Vec<Delivery>)
        ensures
            final(self)@.sessions == old(self)@.sessions,
            final(self)@.visitors == old(self)@.visitors,
            final(self)@.rooms == depart(old(self)@.rooms, id),
            parcels(final(out)@) == parcels(old(out)@) + depart_notices(
                old(self)@.rooms,
                old(self)@.live(),
                id,
                left@,
            ),
    {
        let ghost rooms = self@.rooms;
        let ghost live = self@.live();
        let ghost before = parcels(out@);
        let mut leaving: Vec<(String, Room)> = Vec::new();
        std::mem::swap(&mut leaving, &mut self.rooms);
        let mut kept: Vec<(String, Room)> = Vec::new();
        proof {
            reveal(Seq::filter);
            assert(rooms.take(0) =~= Seq::<RoomState>::empty());
            assert(rooms_view(kept@) =~= depart(rooms.take(0), id));
            assert(parcels(out@) =~= before + depart_notices(rooms.take(0), live, id, left@));
        }
        for entry in it: leaving
            invariant
                rooms == rooms_view(it.seq()),
                live == self@.live(),
                self@.sessions == old(self)@.sessions,
                self@.visitors == old(self)@.visitors,
                rooms_view(kept@) == depart(rooms.take(it.index() as int), id),
                parcels(out@) == before + depart_notices(
                    rooms.take(it.index() as int),
                    live,
                    id,
                    left@,
                ),
        {
            let ghost i = it.index() as int;
            let ghost room = rooms[i];
            let ghost so_far = depart_notices(rooms.take(i), live, id, left@);
            let (name, Room { roomer, members }) = entry;
            let rest = others(&members, id);
            proof {
                assert(rooms.take(i + 1) =~= rooms.take(i).push(room));
                lemma_depart_push(rooms.take(i), room, id);
                lemma_depart_notices_push(rooms.take(i), room, live, id, left@);
                assert(rest@ == room.others(id));
            }
            if is_member(&members, id) {
                if roomer == id && rest.len() > 0 {
                    let handover = Data::full(Code::Roomer, true);
                    self.send(handover.as_str(), rest[0], out);
                }
                self.send_each(&rest, left, id, out);
                assert(parcels(out@) =~= before + (so_far + room.leave_notices(live, id, left@)));
            } else {
                assert(parcels(out@) =~= before + (so_far + room.leave_notices(live, id, left@)));
            }
            if rest.len() > 0 {
                let heir = if roomer == id {
                    rest[0]
                } else {
                    roomer
                };
                let ghost kept_before = kept@;
                kept.push((name, Room { roomer: heir, members: rest }));
                assert(rooms_view(kept@) =~= rooms_view(kept_before).push(room.without(id)));
            }
        }
        assert(rooms.take(rooms.len() as int) =~= rooms);
        self.rooms = kept;
    }

    /// Takes a session out of the registry and out of its room, and tells
    /// those who stay. A session that is not connected changes nothing.
    pub fn disconnect(&mut self, msg: Disconnect, out: &mut Vec<Delivery>)
        requires
            old(self).wf(),
        ensures
            final(self).wf(),
            final(self)@ == old(self)@.disconnect(msg.id),
            parcels(final(out)@) == parcels(old(out)@) + old(self)@.disconnect_notices(msg.id),
    {
        let id = msg.id;
        let mut who = self.display_name(id);
        if self.sessions.remove(&id).is_some() {
            assert(self@.sessions =~= old(self)@.sessions.remove(id));
            assert(self@.live() =~= old(self)@.live().remove(id));
            who.append(" 退出房间");
            let left = Data::sys(who);
            self.depart(id, left.as_str(), out);
            self.visitor_count = if self.visitor_count > 1 {
                self.visitor_count - 1
            } else {
                1
            };
            proof {
                lemma_depart(old(self)@.rooms, id);
            }
        } else {
            assert(self@.sessions =~= old(self)@.sessions);
            assert(parcels(out@) =~= parcels(old(out)@) + Seq::<Parcel>::empty());
        }
    }

    /// Moves a session into the room called `msg.name`, out of the room it
    /// was in. The room is made where there is none, and the result says
    /// whether it was: then the session owns it.
    pub fn join(&mut self, msg: Join, out: &mut Vec<Delivery>) -> (roomer: bool)
        requires
            old(self).wf(),
        ensures
            final(self).wf(),
            final(self)@ == old(self)@.join(msg.id, msg.name@),
            roomer == old(self)@.join_creates(msg.id, msg.name@),
            parcels(final(out)@) == parcels(old(out)@) + old(self)@.join_notices(msg.id, msg.name@),
    {
        let Join { id, name } = msg;
        let ghost departed = depart(old(self)@.rooms, id);
        let who = self.display_name(id);
        let mut left_text = who.clone();
        left_text.append(" 退出房间");
        let left = Data::sys(left_text);
        self.depart(id, left.as_str(), out);
        let ghost sent = parcels(out@);
        proof {
            lemma_depart(old(self)@.rooms, id);
            lemma_enter(departed, id, name@);
        }
        let mut joined_text = who;
        joined_text.append(" 进入房间");
        let joined = Data::sys(joined_text);
        let roomer = match self.find_room(name.as_str()) {
            Some(i) => {
                let ghost room = departed[i as int];
                assert(!room.members.contains(id)) by {
                    if room.members.contains(id) {
                        assert(holds(departed, id));
                    }
                }
                let mut entry = self.rooms.remove(i);
                entry.1.members.push(id);
                self.rooms.insert(i, entry);
                assert(self@.rooms =~= enter(departed, id, name@));
                false
            },
            None => {
                self.rooms.push((name.clone(), Room::new(id)));
                assert(self@.rooms =~= enter(departed, id, name@));
                true
            },
        };
        self.send_message(name.as_str(), joined.as_str(), id, out);
        assert(parcels(out@) =~= parcels(old(out)@) + old(self)@.join_notices(id, name@));
        roomer
    }

    /// Registers a session under the first id at or after `candidate`,
    /// going round, that no session has, and counts one more visitor.
    pub fn register(&mut self, candidate: usize, user: (Option<String>, Option<String>)) -> (id:
        usize)
        requires
            old(self).wf(),
        ensures
            final(self).wf(),
            id == first_free(old(self)@.live(), candidate),
            !old(self)@.live().contains(id),
            final(self)@ == old(self)@.connect(id, profile_view(user)),
    {
        let ghost taken = self@.live();
        let len = self.sessions.len();
        assert(taken =~= self.sessions@.dom());
        let mut id = candidate;
        let ghost mut k: nat = 0;
        let ghost mut seen: Set<usize> = Set::empty();
        while self.sessions.contains_key(&id)
            invariant
                *self == *old(self),
                taken == self@.live(),
                taken.finite(),
                taken.len() <= usize::MAX,
                k <= usize::MAX,
                id == probe(candidate, k),
                forall|j: nat| j < k ==> taken.contains(#[trigger] probe(candidate, j)),
                seen.finite(),
                seen.len() == k,
                seen.subset_of(taken),
                forall|x: usize|
                    seen.contains(x) ==> exists|j: nat| j < k && x == #[trigger] probe(candidate, j),
            decreases usize::MAX - k,
        {
            proof {
                if seen.contains(id) {
                    let j = choose|j: nat| j < k && id == #[trigger] probe(candidate, j);
                    assert(probe(candidate, j) == probe(candidate, k));
                    assert(false);
                }
                let ghost grown = seen.insert(id);
                vstd::set_lib::lemma_len_subset(grown, taken);
                assert forall|x: usize| grown.contains(x) implies exists|j: nat|
                    j < k + 1 && x == #[trigger] probe(candidate, j) by {
                    if x == id {
                        assert(x == probe(candidate, k));
                    } else {
                        let j = choose|j: nat| j < k && x == #[trigger] probe(candidate, j);
                        assert(j < k + 1 && x == probe(candidate, j));
                    }
                }
                seen = grown;
                k = k + 1;
            }
            id = if id == usize::MAX {
                0
            } else {
                id + 1
            };
        }
        proof {
            lemma_first_free(taken, candidate, k);
        }
        self.sessions.insert(id, user);
        self.visitor_count = if self.visitor_count == usize::MAX {
            0
        } else {
            self.visitor_count + 1
        };
        assert(self@.sessions =~= old(self)@.sessions.insert(id, profile_view(user)));
        id
    }

    /// Registers a new session under an id that no session has, and counts
    /// one more visitor. The id is looked for from a random number on.
    pub fn connect(&mut self, msg: Connect) -> (id: usize)
        requires
            old(self).wf(),
        ensures
            final(self).wf(),
            !old(self)@.live().contains(id),
            final(self)@ == old(self)@.connect(id, profile_view(msg.user)),
    {
        let candidate = draw(&mut self.rng);
        self.register(candidate, msg.user)
    }

    /// Whether `reply`, the state `after` and the parcels `sent` are what
    /// `request` makes of the state `before`.
    pub open spec fn handled(
        before: State,
        request: Request,
        after: State,
        reply: Reply,
        sent: Seq<Parcel>,
    ) -> bool {
        match request {
            Request::Connect(msg) => {
                &&& reply matches Reply::Connected(id)
                &&& !before.live().contains(id)
                &&& after == before.connect(id, profile_view(msg.user))
                &&& sent == Seq::<Parcel>::empty()
            },
            Request::Disconnect(msg) => {
                &&& reply is Done
                &&& after == before.disconnect(msg.id)
                &&& sent == before.disconnect_notices(msg.id)
            },
            Request::Login(msg) => {
                &&& reply is Done
                &&& after == before.login(msg.0, text_view(msg.1), text_view(msg.2))
                &&& sent == Seq::<Parcel>::empty()
            },
            Request::ClientMessage(msg) => {
                &&& reply is Done
                &&& after == before
                &&& sent == broadcast(
                    before.rooms,
                    before.live(),
                    msg.id,
                    msg.room@,
                    frame(Code::Msg.number(), json_pair(decimal(msg.id as nat), msg.msg@)),
                )
            },
            Request::FullMessage(msg) => {
                &&& reply is Done
                &&& after == before
                &&& sent == broadcast(
                    before.rooms,
                    before.live(),
                    msg.id,
                    msg.room@,
                    frame(msg.code.number(), json_text(msg.msg@)),
                )
            },
            Request::Progress(msg) => {
                &&& reply == Reply::Progress(progress_verdict(before.rooms, msg.id, msg.room@))
                &&& after == before
                &&& sent == if progress_verdict(before.rooms, msg.id, msg.room@) is Ok {
                    room_cast(
                        before.rooms,
                        before.live(),
                        msg.id,
                        msg.room@,
                        frame(Code::Progress.number(), json_pair(msg.progress@, msg.speed@)),
                    )
                } else {
                    Seq::<Parcel>::empty()
                }
            },
            Request::ListRooms(msg) => {
                &&& reply matches Reply::Rooms(names)
                &&& texts(names@) == before.room_names()
                &&& after == before
                &&& sent == Seq::<Parcel>::empty()
            },
            Request::ListMembers(msg) => {
                &&& reply matches Reply::Members(info)
                &&& match info {
                    Some(info) => before.room_info(msg.room_id@) == Some(info@),
                    None => before.room_info(msg.room_id@) is None,
                }
                &&& after == before
                &&& sent == Seq::<Parcel>::empty()
            },
            Request::Count(msg) => {
                &&& reply matches Reply::Count(count)
                &&& count@ == decimal(before.visitors as nat)
                &&& after == before
                &&& sent == Seq::<Parcel>::empty()
            },
            Request::Join(msg) => {
                &&& reply == Reply::Joined(before.join_creates(msg.id, msg.name@))
                &&& after == before.join(msg.id, msg.name@)
                &&& sent == before.join_notices(msg.id, msg.name@)
            },
        }
    }

    /// Carries out one command: the answer to it, and what is to be sent.
    pub fn handle(&mut self, request: Request) -> (r: (Reply, Vec<Delivery>))
        requires
            old(self).wf(),
        ensures
            final(self).wf(),
            Self::handled(old(self)@, request, final(self)@, r.0, parcels(r.1@)),
    {
        let mut out: Vec<Delivery> = Vec::new();
        assert(parcels(out@) =~= Seq::<Parcel>::empty());
        let ghost none = Seq::<Parcel>::empty();
        let reply = match request {
            Request::Connect(msg) => Reply::Connected(self.connect(msg)),
            Request::Disconnect(msg) => {
                self.disconnect(msg, &mut out);
                assert(parcels(out@) =~= old(self)@.disconnect_notices(msg.id));
                Reply::Done
            },
            Request::Login(msg) => {
                self.login(msg);
                Reply::Done
            },
            Request::ClientMessage(msg) => {
                self.client_message(msg, &mut out);
                assert(parcels(out@) =~= none + broadcast(
                    self@.rooms,
                    self@.live(),
                    msg.id,
                    msg.room@,
                    frame(Code::Msg.number(), json_pair(decimal(msg.id as nat), msg.msg@)),
                ));
                Reply::Done
            },
            Request::FullMessage(msg) => {
                self.full_message(msg, &mut out);
                assert(parcels(out@) =~= none + broadcast(
                    self@.rooms,
                    self@.live(),
                    msg.id,
                    msg.room@,
                    frame(msg.code.number(), json_text(msg.msg@)),
                ));
                Reply::Done
            },
            Request::Progress(msg) => {
                let verdict = self.progress(msg, &mut out);
                if verdict.is_ok() {
                    assert(parcels(out@) =~= none + room_cast(
                        self@.rooms,
                        self@.live(),
                        msg.id,
                        msg.room@,
                        frame(Code::Progress.number(), json_pair(msg.progress@, msg.speed@)),
                    ));
                }
                Reply::Progress(verdict)
            },
            Request::ListRooms(msg) => Reply::Rooms(self.list_rooms(msg)),
            Request::ListMembers(msg) => Reply::Members(self.list_members(msg)),
            Request::Count(msg) => Reply::Count(self.count(msg)),
            Request::Join(msg) => {
                let roomer = self.join(msg, &mut out);
                assert(parcels(out@) =~= old(self)@.join_notices(msg.id, msg.name@));
                Reply::Joined(roomer)
            },
        };
        (reply, out)
    }
}

} // verus!
