//! The registry as a mathematical state, and what each command makes of it.
//!
//! The contracts of the registry speak of these functions. A room holds its
//! members in the order in which they came in, so that the heir of a departing
//! owner and the order of a fan-out are functions of the state.

use crate::context::{frame, json_bool, json_text, Code};
use crate::text::decimal;
use vstd::prelude::*;

verus! {

/// One entry of the room directory.
pub struct RoomState {
    pub name: Seq<char>,
    pub roomer: usize,
    pub members: Seq<usize>,
}

/// The display name and the avatar of a session, as far as they are set.
pub type ProfileView = (Option<Seq<char>>, Option<Seq<char>>);

/// A frame on its way: the session that gets it, and the encoded text.
pub type Parcel = (usize, Seq<char>);

/// All that the registry holds.
pub struct State {
    pub sessions: Map<usize, ProfileView>,
    pub rooms: Seq<RoomState>,
    pub visitors: usize,
}

/// Why a progress update was not broadcast.
#[derive(Clone, Copy, Debug, PartialEq, Eq, Structural)]
pub enum ProgressError {
    /// No room has that name.
    RoomNotFound,
    /// The room has no members.
    RoomEmpty,
    /// The sender does not own the room.
    NotOwner,
}

/// The notice that tells a session that it now owns its room.
pub open spec fn handover_frame() -> Seq<char> {
    frame(Code::Roomer.number(), json_bool(true))
}

/// The notice to a room that `who` has left it.
pub open spec fn left_frame(who: Seq<char>) -> Seq<char> {
    frame(Code::Sys.number(), json_text(who + " 退出房间"@))
}

/// The notice to a room that `who` has come in.
pub open spec fn joined_frame(who: Seq<char>) -> Seq<char> {
    frame(Code::Sys.number(), json_text(who + " 进入房间"@))
}

/// Whether a member gets a copy in a fan-out: it has a session and is not `skip`.
pub open spec fn reached(live: Set<usize>, skip: usize) -> spec_fn(usize) -> bool {
    |m: usize| m != skip && live.contains(m)
}

/// The parcel that takes `text` to a member.
pub open spec fn addressed(text: Seq<char>) -> spec_fn(usize) -> Parcel {
    |m: usize| (m, text)
}

/// Whether a member is another than `id`.
pub open spec fn other_than(id: usize) -> spec_fn(usize) -> bool {
    |m: usize| m != id
}

/// One copy of `text` for each of `members` that has a session, but for `skip`.
pub open spec fn fan_out(members: Seq<usize>, live: Set<usize>, skip: usize, text: Seq<char>) -> Seq<
    Parcel,
> {
    members.filter(reached(live, skip)).map_values(addressed(text))
}

impl RoomState {
    /// A room is never empty, lists no member twice, and is owned by a member.
    pub open spec fn wf(self) -> bool {
        &&& self.members.len() > 0
        &&& self.members.no_duplicates()
        &&& self.members.contains(self.roomer)
    }

    /// The members other than `id`, in their order.
    pub open spec fn others(self, id: usize) -> Seq<usize> {
        self.members.filter(other_than(id))
    }

    /// The room once `id` has left it. Where `id` owned it, the member of
    /// longest standing that is left owns it now.
    pub open spec fn without(self, id: usize) -> RoomState {
        let rest = self.others(id);
        RoomState {
            name: self.name,
            roomer: if self.roomer == id && rest.len() > 0 {
                rest[0]
            } else {
                self.roomer
            },
            members: rest,
        }
    }

    /// The room once `id` has come in.
    pub open spec fn with(self, id: usize) -> RoomState {
        if self.members.contains(id) {
            self
        } else {
            RoomState { name: self.name, roomer: self.roomer, members: self.members.push(id) }
        }
    }

    /// What is sent when `id` leaves this room: the handover to the new
    /// owner, if there is one, then the notice `left` to those who stay.
    pub open spec fn leave_notices(self, live: Set<usize>, id: usize, left: Seq<char>) -> Seq<
        Parcel,
    > {
        if self.members.contains(id) {
            let rest = self.others(id);
            let handover = if self.roomer == id && rest.len() > 0 && live.contains(rest[0]) {
                seq![(rest[0], handover_frame())]
            } else {
                Seq::<Parcel>::empty()
            };
            handover + fan_out(rest, live, id, left)
        } else {
            Seq::<Parcel>::empty()
        }
    }
}

/// Whether the directory has a room called `name`.
pub open spec fn has_room(rooms: Seq<RoomState>, name: Seq<char>) -> bool {
    exists|i: int| 0 <= i < rooms.len() && #[trigger] rooms[i].name == name
}

/// Where the room called `name` stands in the directory.
pub open spec fn room_at(rooms: Seq<RoomState>, name: Seq<char>) -> int {
    choose|i: int| 0 <= i < rooms.len() && #[trigger] rooms[i].name == name
}

/// Whether `id` is a member of some room.
pub open spec fn holds(rooms: Seq<RoomState>, id: usize) -> bool {
    exists|i: int| 0 <= i < rooms.len() && #[trigger] rooms[i].members.contains(id)
}

/// The directory is sound: each room is, no two rooms share a name, and
/// nobody is in two rooms.
pub open spec fn directory_wf(rooms: Seq<RoomState>) -> bool {
    &&& forall|i: int| 0 <= i < rooms.len() ==> (#[trigger] rooms[i]).wf()
    &&& forall|i: int, j: int|
        0 <= i < j < rooms.len() ==> (#[trigger] rooms[i]).name != (#[trigger] rooms[j]).name
    &&& forall|i: int, j: int, id: usize|
        0 <= i < j < rooms.len() && #[trigger] rooms[i].members.contains(id)
            ==> !#[trigger] rooms[j].members.contains(id)
}

/// The directory once `id` has left every room: a room that this empties is gone.
pub open spec fn depart(rooms: Seq<RoomState>, id: usize) -> Seq<RoomState> {
    rooms.map_values(leaving(id)).filter(inhabited())
}

/// What a room becomes when `id` leaves it.
pub open spec fn leaving(id: usize) -> spec_fn(RoomState) -> RoomState {
    |r: RoomState| r.without(id)
}

/// Whether a room has a member.
pub open spec fn inhabited() -> spec_fn(RoomState) -> bool {
    |r: RoomState| r.members.len() > 0
}

/// What is sent when `id` leaves every room, room by room.
pub open spec fn depart_notices(
    rooms: Seq<RoomState>,
    live: Set<usize>,
    id: usize,
    left: Seq<char>,
) -> Seq<Parcel>
    decreases rooms.len(),
{
    if rooms.len() == 0 {
        Seq::<Parcel>::empty()
    } else {
        depart_notices(rooms.drop_last(), live, id, left) + rooms.last().leave_notices(
            live,
            id,
            left,
        )
    }
}

/// The directory once `id` has come into the room called `name`, which is
/// made, with `id` as its owner, where there is none.
pub open spec fn enter(rooms: Seq<RoomState>, id: usize, name: Seq<char>) -> Seq<RoomState> {
    if has_room(rooms, name) {
        let i = room_at(rooms, name);
        rooms.update(i, rooms[i].with(id))
    } else {
        rooms.push(RoomState { name: name, roomer: id, members: seq![id] })
    }
}

/// What is sent when `text` goes to the room called `name`, but not to
/// `skip`: nothing where there is no such room.
pub open spec fn room_cast(
    rooms: Seq<RoomState>,
    live: Set<usize>,
    skip: usize,
    name: Seq<char>,
    text: Seq<char>,
) -> Seq<Parcel> {
    if has_room(rooms, name) {
        fan_out(rooms[room_at(rooms, name)].members, live, skip, text)
    } else {
        Seq::<Parcel>::empty()
    }
}

/// What is sent when `sender` broadcasts `text` to the room called `name`:
/// nothing where there is no such room or `sender` is not in it.
pub open spec fn broadcast(
    rooms: Seq<RoomState>,
    live: Set<usize>,
    sender: usize,
    name: Seq<char>,
    text: Seq<char>,
) -> Seq<Parcel> {
    if has_room(rooms, name) && rooms[room_at(rooms, name)].members.contains(sender) {
        room_cast(rooms, live, sender, name, text)
    } else {
        Seq::<Parcel>::empty()
    }
}

/// A user as a snapshot shows it.
pub struct UserView {
    pub id: usize,
    pub name: Option<Seq<char>>,
    pub avatar: Option<Seq<char>>,
}

/// A room as a snapshot shows it.
pub struct RoomInfoView {
    pub roomer: UserView,
    pub members: Seq<UserView>,
}

/// The `k`-th id after `from`, where the ids go round.
pub open spec fn probe(from: usize, k: nat) -> usize
    recommends
        k <= usize::MAX,
{
    if from + k <= usize::MAX {
        (from + k) as usize
    } else {
        (from + k - usize::MAX - 1) as usize
    }
}

/// Whether the `k`-th id after `from` is the first that is not taken.
pub open spec fn is_first_free(taken: Set<usize>, from: usize, k: nat) -> bool {
    &&& k <= usize::MAX
    &&& !taken.contains(probe(from, k))
    &&& forall|j: nat| j < k ==> taken.contains(#[trigger] probe(from, j))
}

/// The first id at or after `from`, going round, that is not taken.
pub open spec fn first_free(taken: Set<usize>, from: usize) -> usize {
    probe(from, choose|k: nat| is_first_free(taken, from, k))
}

/// Whether `sender` may broadcast progress to the room called `name`.
pub open spec fn progress_verdict(rooms: Seq<RoomState>, sender: usize, name: Seq<char>) -> Result<
    (),
    ProgressError,
> {
    if !has_room(rooms, name) {
        Err(ProgressError::RoomNotFound)
    } else if rooms[room_at(rooms, name)].members.len() == 0 {
        Err(ProgressError::RoomEmpty)
    } else if rooms[room_at(rooms, name)].roomer != sender {
        Err(ProgressError::NotOwner)
    } else {
        Ok(())
    }
}

impl State {
    /// The state is sound when its directory is.
    pub open spec fn wf(self) -> bool {
        directory_wf(self.rooms)
    }

    /// The ids of the sessions that are connected.
    pub open spec fn live(self) -> Set<usize> {
        self.sessions.dom()
    }

    /// The name under which `id` appears in notices: its display name, or
    /// its id in decimal where it has none.
    pub open spec fn display_name(self, id: usize) -> Seq<char> {
        if self.sessions.contains_key(id) && self.sessions[id].0 is Some {
            self.sessions[id].0->0
        } else {
            decimal(id as nat)
        }
    }

    /// What a snapshot shows of `id`: its profile, or nothing but the id
    /// where it has no session.
    pub open spec fn user(self, id: usize) -> UserView {
        if self.sessions.contains_key(id) {
            UserView { id: id, name: self.sessions[id].0, avatar: self.sessions[id].1 }
        } else {
            UserView { id: id, name: None, avatar: None }
        }
    }

    /// The snapshot of the room called `name`, if there is one.
    pub open spec fn room_info(self, name: Seq<char>) -> Option<RoomInfoView> {
        if has_room(self.rooms, name) {
            let room = self.rooms[room_at(self.rooms, name)];
            Some(
                RoomInfoView {
                    roomer: self.user(room.roomer),
                    members: Seq::new(room.members.len(), |i: int| self.user(room.members[i])),
                },
            )
        } else {
            None
        }
    }

    /// The names of the rooms, in the order of the directory.
    pub open spec fn room_names(self) -> Seq<Seq<char>> {
        Seq::new(self.rooms.len(), |i: int| self.rooms[i].name)
    }

    /// The state once a session has connected under `id`. The count of
    /// visitors goes up by one, and round to zero after the largest number.
    pub open spec fn connect(self, id: usize, user: ProfileView) -> State {
        State {
            sessions: self.sessions.insert(id, user),
            rooms: self.rooms,
            visitors: if self.visitors == usize::MAX {
                0
            } else {
                (self.visitors + 1) as usize
            },
        }
    }

    /// The state once `id` has declared a name and an avatar.
    pub open spec fn login(self, id: usize, name: Option<Seq<char>>, avatar: Option<Seq<char>>) -> State {
        if self.sessions.contains_key(id) {
            State {
                sessions: self.sessions.insert(id, (name, avatar)),
                rooms: self.rooms,
                visitors: self.visitors,
            }
        } else {
            self
        }
    }

    /// The state once `id` has disconnected. The count of visitors goes
    /// down by one, but not under 1.
    pub open spec fn disconnect(self, id: usize) -> State {
        if self.sessions.contains_key(id) {
            State {
                sessions: self.sessions.remove(id),
                rooms: depart(self.rooms, id),
                visitors: if self.visitors > 1 {
                    (self.visitors - 1) as usize
                } else {
                    1
                },
            }
        } else {
            self
        }
    }

    /// What is sent when `id` disconnects.
    pub open spec fn disconnect_notices(self, id: usize) -> Seq<Parcel> {
        if self.sessions.contains_key(id) {
            depart_notices(
                self.rooms,
                self.live().remove(id),
                id,
                left_frame(self.display_name(id)),
            )
        } else {
            Seq::<Parcel>::empty()
        }
    }

    /// The state once `id` has joined the room called `name`.
    pub open spec fn join(self, id: usize, name: Seq<char>) -> State {
        State {
            sessions: self.sessions,
            rooms: enter(depart(self.rooms, id), id, name),
            visitors: self.visitors,
        }
    }

    /// Whether joining `name` makes the room, and `id` its owner.
    pub open spec fn join_creates(self, id: usize, name: Seq<char>) -> bool {
        !has_room(depart(self.rooms, id), name)
    }

    /// What is sent when `id` joins the room called `name`: the notices of
    /// its leaving, then the notice of its coming to the others in the room.
    pub open spec fn join_notices(self, id: usize, name: Seq<char>) -> Seq<Parcel> {
        depart_notices(self.rooms, self.live(), id, left_frame(self.display_name(id))) + broadcast(
            self.join(id, name).rooms,
            self.live(),
            id,
            name,
            joined_frame(self.display_name(id)),
        )
    }
}

/// What `filter` makes of a sequence with one more item at its end.
pub proof fn lemma_filter_push<A>(s: Seq<A>, x: A, p: spec_fn(A) -> bool)
    ensures
        s.push(x).filter(p) == if p(x) {
            s.filter(p).push(x)
        } else {
            s.filter(p)
        },
{
    reveal(Seq::filter);
    assert(s.push(x).drop_last() =~= s);
}

/// What `filter` keeps: the items that satisfy `p`, each as often as before.
pub proof fn lemma_filter_keeps<A>(s: Seq<A>, p: spec_fn(A) -> bool)
    ensures
        forall|x: A| #[trigger] s.filter(p).contains(x) <==> s.contains(x) && p(x),
        s.no_duplicates() ==> s.filter(p).no_duplicates(),
        s.filter(p).len() <= s.len(),
    decreases s.len(),
{
    reveal(Seq::filter);
    if s.len() > 0 {
        let init = s.drop_last();
        let x = s.last();
        assert(s =~= init.push(x));
        lemma_filter_keeps(init, p);
        lemma_filter_push(init, x, p);
        let f = s.filter(p);
        let g = init.filter(p);
        assert forall|y: A| #[trigger] f.contains(y) <==> s.contains(y) && p(y) by {
            if f.contains(y) {
                let k = choose|k: int| 0 <= k < f.len() && f[k] == y;
                if p(x) && k == g.len() {
                    assert(s[s.len() - 1] == y);
                } else {
                    assert(g[k] == y);
                    assert(g.contains(y));
                    let i = choose|i: int| 0 <= i < init.len() && init[i] == y;
                    assert(s[i] == y);
                }
            }
            if s.contains(y) && p(y) {
                let i = choose|i: int| 0 <= i < s.len() && s[i] == y;
                if i == s.len() - 1 {
                    assert(f[f.len() - 1] == y);
                } else {
                    assert(init[i] == y);
                    assert(g.contains(y));
                    let k = choose|k: int| 0 <= k < g.len() && g[k] == y;
                    assert(f[k] == y);
                }
            }
        }
        if s.no_duplicates() {
            assert forall|i: int, j: int| 0 <= i < init.len() && 0 <= j < init.len() && i != j implies init[i] != init[j] by {
                assert(init[i] == s[i] && init[j] == s[j]);
            }
            if p(x) {
                assert forall|i: int, j: int| 0 <= i < f.len() && 0 <= j < f.len() && i != j implies f[i] != f[j] by {
                    if i == g.len() || j == g.len() {
                        let k = if i == g.len() { j } else { i };
                        assert(f[k] == g[k]);
                        assert(g.contains(g[k]));
                        assert(init.contains(g[k]));
                        let m = choose|m: int| 0 <= m < init.len() && init[m] == g[k];
                        assert(s[m] == g[k]);
                        assert(s[s.len() - 1] == x);
                    } else {
                        assert(f[i] == g[i] && f[j] == g[j]);
                    }
                }
            }
        }
    }
}

/// What `fan_out` makes of a list with one more member at its end.
pub proof fn lemma_fan_out_push(
    members: Seq<usize>,
    m: usize,
    live: Set<usize>,
    skip: usize,
    text: Seq<char>,
)
    ensures
        fan_out(members.push(m), live, skip, text) == if m != skip && live.contains(m) {
            fan_out(members, live, skip, text).push((m, text))
        } else {
            fan_out(members, live, skip, text)
        },
{
    let p = reached(live, skip);
    lemma_filter_push(members, m, p);
    if p(m) {
        assert(members.filter(p).push(m).map_values(addressed(text)) =~= members.filter(
            p,
        ).map_values(addressed(text)).push((m, text)));
    }
}

/// Who gets a copy in a fan-out: the members with a session, but for `skip`.
pub proof fn lemma_fan_out_parcels(members: Seq<usize>, live: Set<usize>, skip: usize, text: Seq<char>)
    ensures
        forall|k: int|
            0 <= k < fan_out(members, live, skip, text).len() ==> {
                let d = #[trigger] fan_out(members, live, skip, text)[k];
                &&& d.1 == text
                &&& d.0 != skip
                &&& live.contains(d.0)
                &&& members.contains(d.0)
            },
        forall|m: usize|
            members.contains(m) && m != skip && live.contains(m) ==> fan_out(
                members,
                live,
                skip,
                text,
            ).contains((m, text)),
{
    let p = reached(live, skip);
    let kept = members.filter(p);
    let out = fan_out(members, live, skip, text);
    lemma_filter_keeps(members, p);
    assert forall|k: int| 0 <= k < out.len() implies {
        let d = #[trigger] out[k];
        &&& d.1 == text
        &&& d.0 != skip
        &&& live.contains(d.0)
        &&& members.contains(d.0)
    } by {
        assert(out[k] == (kept[k], text));
        assert(kept.contains(kept[k]));
    }
    assert forall|m: usize| members.contains(m) && m != skip && live.contains(m) implies out.contains(
        (m, text),
    ) by {
        assert(kept.contains(m));
        let k = choose|k: int| 0 <= k < kept.len() && kept[k] == m;
        assert(out[k] == (m, text));
    }
}

/// What `depart` makes of a directory with one more room at its end.
pub proof fn lemma_depart_push(rooms: Seq<RoomState>, r: RoomState, id: usize)
    ensures
        depart(rooms.push(r), id) == if r.others(id).len() > 0 {
            depart(rooms, id).push(r.without(id))
        } else {
            depart(rooms, id)
        },
{
    let f = leaving(id);
    let p = inhabited();
    assert(rooms.push(r).map_values(f) =~= rooms.map_values(f).push(r.without(id)));
    lemma_filter_push(rooms.map_values(f), r.without(id), p);
}

/// What `depart_notices` makes of a directory with one more room at its end.
pub proof fn lemma_depart_notices_push(
    rooms: Seq<RoomState>,
    r: RoomState,
    live: Set<usize>,
    id: usize,
    left: Seq<char>,
)
    ensures
        depart_notices(rooms.push(r), live, id, left) == depart_notices(rooms, live, id, left)
            + r.leave_notices(live, id, left),
{
    assert(rooms.push(r).drop_last() =~= rooms);
}

/// In a sound directory a name finds one room.
pub proof fn lemma_room_at(rooms: Seq<RoomState>, name: Seq<char>, i: int)
    requires
        directory_wf(rooms),
        0 <= i < rooms.len(),
        rooms[i].name == name,
    ensures
        has_room(rooms, name),
        room_at(rooms, name) == i,
{
    let j = room_at(rooms, name);
    assert(0 <= j < rooms.len() && rooms[j].name == name);
    if j < i {
        assert(rooms[j].name != rooms[i].name);
    } else if i < j {
        assert(rooms[i].name != rooms[j].name);
    }
}

/// A sound room stays sound when a member leaves and another stays.
pub proof fn lemma_without_wf(r: RoomState, id: usize)
    requires
        r.wf(),
    ensures
        r.others(id).len() > 0 ==> r.without(id).wf(),
        !r.without(id).members.contains(id),
        forall|x: usize| #[trigger] r.without(id).members.contains(x) ==> r.members.contains(x),
        forall|x: usize| r.members.contains(x) && x != id ==> #[trigger] r.without(id).members.contains(x),
        r.without(id).name == r.name,
        !r.members.contains(id) ==> r.without(id) == r,
{
    let p = other_than(id);
    let rest = r.others(id);
    lemma_filter_keeps(r.members, p);
    if rest.len() > 0 {
        if r.roomer == id {
            assert(rest.contains(rest[0]));
        } else {
            assert(rest.contains(r.roomer));
        }
    }
    if !r.members.contains(id) {
        lemma_filter_all(r.members, p);
    }
}

/// `filter` changes nothing where every item satisfies `p`.
pub proof fn lemma_filter_all<A>(s: Seq<A>, p: spec_fn(A) -> bool)
    requires
        forall|i: int| 0 <= i < s.len() ==> p(#[trigger] s[i]),
    ensures
        s.filter(p) == s,
    decreases s.len(),
{
    reveal(Seq::filter);
    if s.len() > 0 {
        let init = s.drop_last();
        assert forall|i: int| 0 <= i < init.len() implies p(#[trigger] init[i]) by {
            assert(init[i] == s[i]);
        }
        lemma_filter_all(init, p);
        assert(p(s[s.len() - 1]));
        assert(init.push(s.last()) =~= s);
    } else {
        assert(s.filter(p) =~= s);
    }
}

/// A sound directory is sound without its last room.
pub proof fn lemma_wf_prefix(rooms: Seq<RoomState>)
    requires
        directory_wf(rooms),
        rooms.len() > 0,
    ensures
        directory_wf(rooms.drop_last()),
        rooms.last().wf(),
        forall|i: int| 0 <= i < rooms.len() - 1 ==> (#[trigger] rooms[i]).name != rooms.last().name,
        forall|i: int, x: usize|
            0 <= i < rooms.len() - 1 && #[trigger] rooms[i].members.contains(x)
                ==> !rooms.last().members.contains(x),
{
    let init = rooms.drop_last();
    let n = rooms.len() - 1;
    assert(rooms[n].wf());
    assert forall|i: int| 0 <= i < init.len() implies (#[trigger] init[i]).wf() by {
        assert(init[i] == rooms[i]);
    }
    assert forall|i: int, j: int| 0 <= i < j < init.len() implies (#[trigger] init[i]).name != (
    #[trigger] init[j]).name by {
        assert(init[i] == rooms[i] && init[j] == rooms[j]);
    }
    assert forall|i: int, j: int, x: usize|
        0 <= i < j < init.len() && #[trigger] init[i].members.contains(
            x,
        ) implies !#[trigger] init[j].members.contains(x) by {
        assert(init[i] == rooms[i] && init[j] == rooms[j]);
    }
    assert forall|i: int| 0 <= i < n implies (#[trigger] rooms[i]).name != rooms.last().name by {
        assert(rooms[i].name != rooms[n].name);
    }
    assert forall|i: int, x: usize|
        0 <= i < n && #[trigger] rooms[i].members.contains(x) implies !rooms.last().members.contains(
        x,
    ) by {
        assert(!rooms[n].members.contains(x));
    }
}

/// A sound directory stays sound with one more sound room, whose name is
/// new and whose members are in no other room.
pub proof fn lemma_wf_push(rooms: Seq<RoomState>, r: RoomState)
    requires
        directory_wf(rooms),
        r.wf(),
        forall|i: int| 0 <= i < rooms.len() ==> (#[trigger] rooms[i]).name != r.name,
        forall|i: int, x: usize|
            0 <= i < rooms.len() && #[trigger] rooms[i].members.contains(x) ==> !r.members.contains(
                x,
            ),
    ensures
        directory_wf(rooms.push(r)),
{
    let all = rooms.push(r);
    assert forall|i: int| 0 <= i < all.len() implies (#[trigger] all[i]).wf() by {
        if i < rooms.len() {
            assert(all[i] == rooms[i]);
        }
    }
    assert forall|i: int, j: int| 0 <= i < j < all.len() implies (#[trigger] all[i]).name != (
    #[trigger] all[j]).name by {
        assert(all[i] == rooms[i]);
        if j < rooms.len() {
            assert(all[j] == rooms[j]);
        }
    }
    assert forall|i: int, j: int, x: usize|
        0 <= i < j < all.len() && #[trigger] all[i].members.contains(
            x,
        ) implies !#[trigger] all[j].members.contains(x) by {
        assert(all[i] == rooms[i]);
        if j < rooms.len() {
            assert(all[j] == rooms[j]);
        }
    }
}

/// Where the rooms of `depart` come from: each is a room of before, without
/// `id`; and each room of before that is not emptied is among them.
pub proof fn lemma_depart_origin(rooms: Seq<RoomState>, id: usize)
    ensures
        depart(rooms, id).len() <= rooms.len(),
        forall|k: int|
            0 <= k < depart(rooms, id).len() ==> exists|i: int|
                0 <= i < rooms.len() && (#[trigger] depart(rooms, id)[k]) == (
                #[trigger] rooms[i]).without(id) && rooms[i].others(id).len() > 0,
        forall|i: int|
            0 <= i < rooms.len() && (#[trigger] rooms[i]).others(id).len() > 0 ==> exists|k: int|
                0 <= k < depart(rooms, id).len() && #[trigger] depart(rooms, id)[k] == rooms[i].without(
                    id,
                ),
    decreases rooms.len(),
{
    let after = depart(rooms, id);
    if rooms.len() == 0 {
        reveal(Seq::filter);
        assert(after =~= Seq::<RoomState>::empty());
    } else {
        let init = rooms.drop_last();
        let r = rooms.last();
        assert(rooms =~= init.push(r));
        lemma_depart_origin(init, id);
        lemma_depart_push(init, r, id);
        let before = depart(init, id);
        assert forall|k: int| 0 <= k < after.len() implies exists|i: int|
            0 <= i < rooms.len() && (#[trigger] after[k]) == (#[trigger] rooms[i]).without(id)
                && rooms[i].others(id).len() > 0 by {
            if k < before.len() {
                assert(after[k] == before[k]);
                let i = choose|i: int|
                    0 <= i < init.len() && before[k] == (#[trigger] init[i]).without(id)
                        && init[i].others(id).len() > 0;
                assert(init[i] == rooms[i]);
                assert(after[k] == rooms[i].without(id));
            } else {
                assert(after[k] == rooms[rooms.len() - 1].without(id));
            }
        }
        assert forall|i: int|
            0 <= i < rooms.len() && (#[trigger] rooms[i]).others(id).len() > 0 implies exists|k: int|
            0 <= k < after.len() && #[trigger] after[k] == rooms[i].without(id) by {
            if i < init.len() {
                assert(init[i] == rooms[i]);
                let k = choose|k: int| 0 <= k < before.len() && #[trigger] before[k] == init[i].without(id);
                assert(after[k] == rooms[i].without(id));
            } else {
                assert(after[after.len() - 1] == rooms[i].without(id));
            }
        }
    }
}

/// A room that `depart` leaves has the name of a room of before, and no
/// member that this room did not have; `id` is not in it.
pub proof fn lemma_departed_room(rooms: Seq<RoomState>, id: usize, k: int) -> (i: int)
    requires
        0 <= k < depart(rooms, id).len(),
    ensures
        0 <= i < rooms.len(),
        depart(rooms, id)[k] == rooms[i].without(id),
        depart(rooms, id)[k].name == rooms[i].name,
        depart(rooms, id)[k].members.len() > 0,
        !depart(rooms, id)[k].members.contains(id),
        forall|x: usize| #[trigger]
            depart(rooms, id)[k].members.contains(x) ==> rooms[i].members.contains(x),
{
    lemma_depart_origin(rooms, id);
    let i = choose|i: int|
        0 <= i < rooms.len() && depart(rooms, id)[k] == (#[trigger] rooms[i]).without(id)
            && rooms[i].others(id).len() > 0;
    lemma_filter_keeps(rooms[i].members, other_than(id));
    i
}

/// Once `id` has left every room, the directory is sound as before and `id`
/// is in no room.
pub proof fn lemma_depart(rooms: Seq<RoomState>, id: usize)
    requires
        directory_wf(rooms),
    ensures
        directory_wf(depart(rooms, id)),
        !holds(depart(rooms, id), id),
    decreases rooms.len(),
{
    let after = depart(rooms, id);
    assert(!holds(after, id)) by {
        if holds(after, id) {
            let k = choose|k: int| 0 <= k < after.len() && #[trigger] after[k].members.contains(id);
            lemma_departed_room(rooms, id, k);
        }
    }
    if rooms.len() == 0 {
        assert(after =~= Seq::<RoomState>::empty()) by {
            reveal(Seq::filter);
        }
    } else {
        let init = rooms.drop_last();
        let r = rooms.last();
        let w = r.without(id);
        let before = depart(init, id);
        assert(rooms =~= init.push(r));
        lemma_wf_prefix(rooms);
        lemma_depart(init, id);
        lemma_depart_push(init, r, id);
        if r.others(id).len() > 0 {
            assert(w.wf()) by {
                lemma_without_wf(r, id);
            }
            assert forall|k: int| 0 <= k < before.len() implies (#[trigger] before[k]).name != w.name by {
                let i = lemma_departed_room(init, id, k);
                assert(init[i] == rooms[i]);
            }
            assert forall|k: int, x: usize|
                0 <= k < before.len() && #[trigger] before[k].members.contains(
                    x,
                ) implies !w.members.contains(x) by {
                let i = lemma_departed_room(init, id, k);
                assert(init[i] == rooms[i]);
                assert(rooms[i].members.contains(x));
                assert(!r.members.contains(x));
                lemma_filter_keeps(r.members, other_than(id));
            }
            lemma_wf_push(before, w);
        }
    }
}

/// Once `id`, which is in no room, has come into the room called `name`,
/// the directory is sound as before, and `id` is in that room.
pub proof fn lemma_enter(rooms: Seq<RoomState>, id: usize, name: Seq<char>)
    requires
        directory_wf(rooms),
        !holds(rooms, id),
    ensures
        directory_wf(enter(rooms, id, name)),
        has_room(enter(rooms, id, name), name),
        enter(rooms, id, name)[room_at(enter(rooms, id, name), name)].members.contains(id),
        has_room(rooms, name) ==> room_at(enter(rooms, id, name), name) == room_at(rooms, name),
        !has_room(rooms, name) ==> room_at(enter(rooms, id, name), name) == rooms.len(),
{
    let after = enter(rooms, id, name);
    assert forall|i: int| 0 <= i < rooms.len() implies !(#[trigger] rooms[i]).members.contains(id) by {
        if rooms[i].members.contains(id) {
            assert(holds(rooms, id));
        }
    }
    if has_room(rooms, name) {
        let i = room_at(rooms, name);
        let r = rooms[i];
        let w = r.with(id);
        assert(r.wf());
        assert(w.wf()) by {
            assert forall|a: int, b: int| 0 <= a < w.members.len() && 0 <= b < w.members.len() && a != b implies w.members[a]
                != w.members[b] by {
                if a < r.members.len() {
                    assert(r.members.contains(r.members[a]));
                }
                if b < r.members.len() {
                    assert(r.members.contains(r.members[b]));
                }
            }
            let k = choose|k: int| 0 <= k < r.members.len() && r.members[k] == r.roomer;
            assert(w.members[k] == r.roomer);
        }
        assert(w.members[w.members.len() - 1] == id);
        assert forall|x: usize| #[trigger] w.members.contains(x) implies r.members.contains(x) || x == id by {
            let k = choose|k: int| 0 <= k < w.members.len() && w.members[k] == x;
            if k < r.members.len() {
                assert(r.members[k] == x);
            }
        }
        assert(directory_wf(after)) by {
            assert forall|a: int| 0 <= a < after.len() implies (#[trigger] after[a]).wf() by {
                if a != i {
                    assert(after[a] == rooms[a]);
                }
            }
            assert forall|a: int, b: int| 0 <= a < b < after.len() implies (#[trigger] after[a]).name != (
            #[trigger] after[b]).name by {
                assert(after[a].name == rooms[a].name && after[b].name == rooms[b].name);
            }
            assert forall|a: int, b: int, x: usize|
                0 <= a < b < after.len() && #[trigger] after[a].members.contains(
                    x,
                ) implies !#[trigger] after[b].members.contains(x) by {
                if x == id {
                    if a != i {
                        assert(after[a] == rooms[a]);
                    }
                    if b != i {
                        assert(after[b] == rooms[b]);
                    }
                } else {
                    assert(rooms[a].members.contains(x)) by {
                        if a != i {
                            assert(after[a] == rooms[a]);
                        }
                    }
                    if after[b].members.contains(x) {
                        assert(rooms[b].members.contains(x)) by {
                            if b != i {
                                assert(after[b] == rooms[b]);
                            }
                        }
                    }
                }
            }
        }
        assert(after[i].name == name);
        lemma_room_at(after, name, i);
    } else {
        let r = RoomState { name: name, roomer: id, members: seq![id] };
        assert(r.members[0] == id);
        assert(r.wf());
        assert forall|i: int| 0 <= i < rooms.len() implies (#[trigger] rooms[i]).name != r.name by {
            if rooms[i].name == name {
                assert(has_room(rooms, name));
            }
        }
        assert forall|i: int, x: usize|
            0 <= i < rooms.len() && #[trigger] rooms[i].members.contains(x) implies !r.members.contains(
            x,
        ) by {
            if r.members.contains(x) {
                assert(x == id);
            }
        }
        lemma_wf_push(rooms, r);
        assert(after[rooms.len() as int].name == name);
        lemma_room_at(after, name, rooms.len() as int);
    }
}

/// The first free id is the `k`-th after `from`, where that one is free and
/// those before it are taken.
pub proof fn lemma_first_free(taken: Set<usize>, from: usize, k: nat)
    requires
        is_first_free(taken, from, k),
    ensures
        first_free(taken, from) == probe(from, k),
        !taken.contains(first_free(taken, from)),
{
    let other = choose|other: nat| is_first_free(taken, from, other);
    if other < k {
        assert(taken.contains(probe(from, other)));
    } else if k < other {
        assert(taken.contains(probe(from, k)));
    }
}

} // verus!
