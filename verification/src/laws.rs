//! What holds of the registry whatever the commands are and in whatever
//! order they come.

use crate::context::{frame, json_bool, json_text, Code};
use crate::model::{
    broadcast, depart, depart_notices, directory_wf, enter, fan_out, handover_frame, has_room,
    holds, joined_frame, left_frame, lemma_depart, lemma_depart_origin, lemma_departed_room,
    lemma_enter, lemma_fan_out_parcels, lemma_filter_keeps, lemma_room_at, lemma_wf_prefix,
    lemma_without_wf, other_than, progress_verdict, reached, room_at, room_cast, Parcel,
    ProfileView, ProgressError, RoomState, State,
};
use crate::text::{digit, signed_decimal};
use vstd::prelude::*;

verus! {

/// A command that changes the registry.
pub enum Action {
    Connect(usize, ProfileView),
    Login(usize, Option<Seq<char>>, Option<Seq<char>>),
    Disconnect(usize),
    Join(usize, Seq<char>),
}

/// The state after one command.
pub open spec fn step(s: State, action: Action) -> State {
    match action {
        Action::Connect(id, user) => s.connect(id, user),
        Action::Login(id, name, avatar) => s.login(id, name, avatar),
        Action::Disconnect(id) => s.disconnect(id),
        Action::Join(id, name) => s.join(id, name),
    }
}

/// The state after some commands, one after the other.
pub open spec fn run(s: State, actions: Seq<Action>) -> State
    decreases actions.len(),
{
    if actions.len() == 0 {
        s
    } else {
        step(run(s, actions.drop_last()), actions.last())
    }
}

/// Every command leaves the directory sound: no room is empty, each room is
/// owned by one of its members, and nobody is in two rooms.
pub proof fn law_sound_after_each(s: State, action: Action)
    requires
        s.wf(),
    ensures
        step(s, action).wf(),
{
    match action {
        Action::Connect(id, user) => {},
        Action::Login(id, name, avatar) => {},
        Action::Disconnect(id) => {
            lemma_depart(s.rooms, id);
        },
        Action::Join(id, name) => {
            lemma_depart(s.rooms, id);
            lemma_enter(depart(s.rooms, id), id, name);
        },
    }
}

/// The directory is sound after any commands in any order.
pub proof fn law_sound_at_all_times(s: State, actions: Seq<Action>)
    requires
        s.wf(),
    ensures
        run(s, actions).wf(),
    decreases actions.len(),
{
    if actions.len() > 0 {
        law_sound_at_all_times(s, actions.drop_last());
        law_sound_after_each(run(s, actions.drop_last()), actions.last());
    }
}

/// After any commands in any order, a session is a member of one room at most.
pub proof fn law_one_room_at_a_time(s: State, actions: Seq<Action>, id: usize, i: int, j: int)
    requires
        s.wf(),
        0 <= i < run(s, actions).rooms.len(),
        0 <= j < run(s, actions).rooms.len(),
        run(s, actions).rooms[i].members.contains(id),
        run(s, actions).rooms[j].members.contains(id),
    ensures
        i == j,
{
    law_sound_at_all_times(s, actions);
}

/// A session that has joined a room is in that room.
pub proof fn law_join_enters(s: State, id: usize, name: Seq<char>)
    requires
        s.wf(),
    ensures
        has_room(s.join(id, name).rooms, name),
        s.join(id, name).rooms[room_at(s.join(id, name).rooms, name)].members.contains(id),
{
    lemma_depart(s.rooms, id);
    lemma_enter(depart(s.rooms, id), id, name);
}

/// What becomes of a room when `id` leaves all rooms: it is deleted where
/// `id` was its only member, and only then; else it stays, without `id`.
pub proof fn law_room_deleted_when_emptied(rooms: Seq<RoomState>, id: usize, name: Seq<char>)
    requires
        directory_wf(rooms),
        has_room(rooms, name),
    ensures
        has_room(depart(rooms, id), name) <==> rooms[room_at(rooms, name)].others(id).len() > 0,
        has_room(depart(rooms, id), name) ==> depart(rooms, id)[room_at(depart(rooms, id), name)]
            == rooms[room_at(rooms, name)].without(id),
        !rooms[room_at(rooms, name)].members.contains(id) ==> has_room(depart(rooms, id), name)
            && depart(rooms, id)[room_at(depart(rooms, id), name)] == rooms[room_at(rooms, name)],
{
    let after = depart(rooms, id);
    let i = room_at(rooms, name);
    lemma_depart(rooms, id);
    lemma_depart_origin(rooms, id);
    if rooms[i].others(id).len() > 0 {
        let k = choose|k: int| 0 <= k < after.len() && #[trigger] after[k] == rooms[i].without(id);
        lemma_room_at(after, name, k);
    }
    if has_room(after, name) {
        let k = room_at(after, name);
        let o = choose|o: int|
            0 <= o < rooms.len() && after[k] == (#[trigger] rooms[o]).without(id) && rooms[o].others(
                id,
            ).len() > 0;
        lemma_room_at(rooms, name, o);
    }
    if !rooms[i].members.contains(id) {
        assert(rooms[i].wf());
        lemma_without_wf(rooms[i], id);
    }
}

/// A room is deleted by a disconnect where the session that goes was its
/// only member, and only then.
pub proof fn law_disconnect_deletes_emptied_room(s: State, id: usize, name: Seq<char>)
    requires
        s.wf(),
        s.sessions.contains_key(id),
        has_room(s.rooms, name),
    ensures
        has_room(s.disconnect(id).rooms, name) <==> exists|m: usize|
            m != id && s.rooms[room_at(s.rooms, name)].members.contains(m),
{
    let room = s.rooms[room_at(s.rooms, name)];
    law_room_deleted_when_emptied(s.rooms, id, name);
    lemma_filter_keeps(room.members, other_than(id));
    if room.others(id).len() > 0 {
        let m = room.others(id)[0];
        assert(room.others(id).contains(m));
        assert(m != id && room.members.contains(m));
    }
    if exists|m: usize| m != id && room.members.contains(m) {
        let m = choose|m: usize| m != id && room.members.contains(m);
        assert(room.others(id).contains(m));
    }
}

/// Whether `action` takes the last member out of the room called `name`.
pub open spec fn empties(s: State, action: Action, name: Seq<char>) -> bool {
    let room = s.rooms[room_at(s.rooms, name)];
    match action {
        Action::Disconnect(id) => s.sessions.contains_key(id) && room.members == seq![id],
        Action::Join(id, other) => other != name && room.members == seq![id],
        _ => false,
    }
}

/// A sound room has no member but `id` where it is `id` alone.
pub proof fn lemma_alone(room: RoomState, id: usize)
    requires
        room.wf(),
    ensures
        room.others(id).len() == 0 <==> room.members == seq![id],
{
    lemma_filter_keeps(room.members, other_than(id));
    if room.others(id).len() == 0 {
        assert forall|i: int| 0 <= i < room.members.len() implies room.members[i] == id by {
            if room.members[i] != id {
                assert(room.members.contains(room.members[i]));
                assert(room.others(id).contains(room.members[i]));
                assert(room.others(id).len() > 0);
            }
        }
        if room.members.len() > 1 {
            assert(room.members[0] == room.members[1]);
        }
        assert(room.members =~= seq![id]);
    }
    if room.members == seq![id] {
        if room.others(id).len() > 0 {
            let m = room.others(id)[0];
            assert(room.others(id).contains(m));
            assert(room.members.contains(m));
            let i = choose|i: int| 0 <= i < room.members.len() && room.members[i] == m;
            assert(room.members[i] == id);
        }
    }
}

/// A command deletes a room where it takes the last member out of it, and
/// only there: any other room that was there is there after.
pub proof fn law_room_deleted_exactly_when_emptied(s: State, action: Action, name: Seq<char>)
    requires
        s.wf(),
        has_room(s.rooms, name),
    ensures
        has_room(step(s, action).rooms, name) <==> !empties(s, action, name),
{
    let i = room_at(s.rooms, name);
    let room = s.rooms[i];
    assert(room.wf());
    match action {
        Action::Connect(id, user) => {},
        Action::Login(id, first, second) => {},
        Action::Disconnect(id) => {
            lemma_alone(room, id);
            law_room_deleted_when_emptied(s.rooms, id, name);
        },
        Action::Join(id, other) => {
            let departed = depart(s.rooms, id);
            let after = enter(departed, id, other);
            lemma_alone(room, id);
            law_room_deleted_when_emptied(s.rooms, id, name);
            lemma_depart(s.rooms, id);
            lemma_enter(departed, id, other);
            if other != name {
                if has_room(departed, name) {
                    let k = room_at(departed, name);
                    assert(after[k].name == name);
                }
                if has_room(after, name) {
                    let k = room_at(after, name);
                    if has_room(departed, other) {
                        assert(departed[k].name == name);
                    } else {
                        assert(k < departed.len());
                        assert(departed[k].name == name);
                    }
                }
            }
        },
    }
}

/// The name of a room that is gone can be used again: who joins it makes
/// a new room, owns it and is alone in it.
pub proof fn law_room_name_reused(s: State, id: usize, name: Seq<char>)
    requires
        s.wf(),
        !has_room(s.rooms, name),
    ensures
        s.join_creates(id, name),
        has_room(s.join(id, name).rooms, name),
        s.join(id, name).rooms[room_at(s.join(id, name).rooms, name)] == (RoomState {
            name: name,
            roomer: id,
            members: seq![id],
        }),
{
    let departed = depart(s.rooms, id);
    lemma_depart(s.rooms, id);
    assert(!has_room(departed, name)) by {
        if has_room(departed, name) {
            let k = room_at(departed, name);
            let o = lemma_departed_room(s.rooms, id, k);
            assert(s.rooms[o].name == name);
        }
    }
    lemma_enter(departed, id, name);
}

/// Where `id` is in no room, its leaving sends nothing.
pub proof fn lemma_depart_notices_none(
    rooms: Seq<RoomState>,
    live: Set<usize>,
    id: usize,
    left: Seq<char>,
)
    requires
        !holds(rooms, id),
    ensures
        depart_notices(rooms, live, id, left) == Seq::<Parcel>::empty(),
    decreases rooms.len(),
{
    if rooms.len() > 0 {
        let init = rooms.drop_last();
        assert(!holds(init, id)) by {
            if holds(init, id) {
                let k = choose|k: int| 0 <= k < init.len() && #[trigger] init[k].members.contains(id);
                assert(rooms[k].members.contains(id));
            }
        }
        assert(!rooms[rooms.len() - 1].members.contains(id));
        lemma_depart_notices_none(init, live, id, left);
    }
}

/// Where `id` is in the room at `i`, its leaving sends what leaving that
/// room sends.
pub proof fn lemma_depart_notices_one(
    rooms: Seq<RoomState>,
    live: Set<usize>,
    id: usize,
    left: Seq<char>,
    i: int,
)
    requires
        directory_wf(rooms),
        0 <= i < rooms.len(),
        rooms[i].members.contains(id),
    ensures
        depart_notices(rooms, live, id, left) == rooms[i].leave_notices(live, id, left),
    decreases rooms.len(),
{
    let init = rooms.drop_last();
    let last = rooms.len() - 1;
    lemma_wf_prefix(rooms);
    if i == last {
        assert(!holds(init, id)) by {
            if holds(init, id) {
                let k = choose|k: int| 0 <= k < init.len() && #[trigger] init[k].members.contains(id);
                assert(rooms[k].members.contains(id));
            }
        }
        lemma_depart_notices_none(init, live, id, left);
        assert(Seq::<Parcel>::empty() + rooms[i].leave_notices(live, id, left)
            =~= rooms[i].leave_notices(live, id, left));
    } else {
        assert(init[i] == rooms[i]);
        lemma_depart_notices_one(init, live, id, left, i);
        assert(!rooms[last].members.contains(id));
        assert(rooms[i].leave_notices(live, id, left) + Seq::<Parcel>::empty()
            =~= rooms[i].leave_notices(live, id, left));
    }
}

/// Where the owner of a room leaves and others stay, the room goes to one
/// of them, the member of longest standing. Where that member is connected,
/// it is told so, once, and nobody else is.
pub proof fn law_owner_hands_over(
    rooms: Seq<RoomState>,
    live: Set<usize>,
    id: usize,
    who: Seq<char>,
    name: Seq<char>,
)
    requires
        directory_wf(rooms),
        has_room(rooms, name),
        rooms[room_at(rooms, name)].roomer == id,
        rooms[room_at(rooms, name)].others(id).len() > 0,
        live.contains(rooms[room_at(rooms, name)].others(id)[0]),
    ensures
        has_room(depart(rooms, id), name),
        ({
            let heir = depart(rooms, id)[room_at(depart(rooms, id), name)].roomer;
            let sent = depart_notices(rooms, live, id, left_frame(who));
            &&& heir != id
            &&& heir == rooms[room_at(rooms, name)].others(id)[0]
            &&& rooms[room_at(rooms, name)].members.contains(heir)
            &&& depart(rooms, id)[room_at(depart(rooms, id), name)].members.contains(heir)
            &&& sent.len() > 0 && sent[0] == (heir, handover_frame())
            &&& forall|k: int|
                0 <= k < sent.len() && (#[trigger] sent[k]).1 == handover_frame() ==> k == 0
        }),
{
    let i = room_at(rooms, name);
    let room = rooms[i];
    let rest = room.others(id);
    let left = left_frame(who);
    let sent = depart_notices(rooms, live, id, left);
    assert(room.wf());
    law_room_deleted_when_emptied(rooms, id, name);
    lemma_filter_keeps(room.members, other_than(id));
    assert(rest.contains(rest[0]));
    lemma_depart_notices_one(rooms, live, id, left, i);
    let tail = fan_out(rest, live, id, left);
    assert(sent =~= seq![(rest[0], handover_frame())] + tail);
    lemma_fan_out_parcels(rest, live, id, left);
    law_code_tells_frames_apart(
        Code::Sys,
        Code::Roomer,
        json_text(who + " 退出房间"@),
        json_bool(true),
    );
    assert forall|k: int| 0 <= k < sent.len() && (#[trigger] sent[k]).1 == handover_frame() implies k
        == 0 by {
        if k > 0 {
            assert(sent[k] == tail[k - 1]);
        }
    }
}

/// Where the owner of a room disconnects and others stay, the room goes to
/// one of them. Where that one is connected, it is told so, first of all
/// and once, and nobody else is.
pub proof fn law_owner_disconnects(s: State, id: usize, name: Seq<char>)
    requires
        s.wf(),
        s.sessions.contains_key(id),
        has_room(s.rooms, name),
        s.rooms[room_at(s.rooms, name)].roomer == id,
        s.rooms[room_at(s.rooms, name)].others(id).len() > 0,
        s.sessions.contains_key(s.rooms[room_at(s.rooms, name)].others(id)[0]),
    ensures
        has_room(s.disconnect(id).rooms, name),
        ({
            let after = s.disconnect(id).rooms;
            let heir = after[room_at(after, name)].roomer;
            let sent = s.disconnect_notices(id);
            &&& heir != id
            &&& s.rooms[room_at(s.rooms, name)].members.contains(heir)
            &&& after[room_at(after, name)].members.contains(heir)
            &&& sent.len() > 0 && sent[0] == (heir, handover_frame())
            &&& forall|k: int|
                0 <= k < sent.len() && (#[trigger] sent[k]).1 == handover_frame() ==> k == 0
        }),
{
    let room = s.rooms[room_at(s.rooms, name)];
    lemma_filter_keeps(room.members, other_than(id));
    assert(room.others(id).contains(room.others(id)[0]));
    law_owner_hands_over(s.rooms, s.live().remove(id), id, s.display_name(id), name);
}

/// Where the owner of a room leaves it for another room and others stay,
/// the room goes to one of them. Where that one is connected, it is told
/// so, first of all and once, and nobody else is.
pub proof fn law_owner_leaves(s: State, id: usize, name: Seq<char>, other: Seq<char>)
    requires
        s.wf(),
        has_room(s.rooms, name),
        s.rooms[room_at(s.rooms, name)].roomer == id,
        s.rooms[room_at(s.rooms, name)].others(id).len() > 0,
        s.sessions.contains_key(s.rooms[room_at(s.rooms, name)].others(id)[0]),
    ensures
        has_room(s.join(id, other).rooms, name),
        ({
            let after = s.join(id, other).rooms;
            let heir = after[room_at(after, name)].roomer;
            let sent = s.join_notices(id, other);
            &&& heir != id
            &&& s.rooms[room_at(s.rooms, name)].members.contains(heir)
            &&& after[room_at(after, name)].members.contains(heir)
            &&& sent.len() > 0 && sent[0] == (heir, handover_frame())
            &&& forall|k: int|
                0 <= k < sent.len() && (#[trigger] sent[k]).1 == handover_frame() ==> k == 0
        }),
{
    let who = s.display_name(id);
    let departed = depart(s.rooms, id);
    let after = enter(departed, id, other);
    let head = depart_notices(s.rooms, s.live(), id, left_frame(who));
    let joined = joined_frame(who);
    let tail = broadcast(after, s.live(), id, other, joined);
    law_owner_hands_over(s.rooms, s.live(), id, who, name);
    lemma_depart(s.rooms, id);
    lemma_enter(departed, id, other);
    let k = room_at(departed, name);
    let heir = departed[k].roomer;
    assert(after[k].name == name && after[k].roomer == heir && after[k].members.contains(heir)) by {
        if has_room(departed, other) && room_at(departed, other) == k {
            let m = choose|m: int| 0 <= m < departed[k].members.len() && departed[k].members[m] == heir;
            assert(departed[k].with(id).members[m] == heir);
        }
    }
    lemma_room_at(after, name, k);
    law_code_tells_frames_apart(
        Code::Sys,
        Code::Roomer,
        json_text(who + " 进入房间"@),
        json_bool(true),
    );
    if has_room(after, other) {
        lemma_fan_out_parcels(after[room_at(after, other)].members, s.live(), id, joined);
    }
    assert forall|j: int| 0 <= j < (head + tail).len() && (#[trigger] (head + tail)[j]).1
        == handover_frame() implies j == 0 by {
        if j >= head.len() {
            assert((head + tail)[j] == tail[j - head.len()]);
        }
    }
}

/// Progress is broadcast where the sender owns a room of that name that has
/// a member, and only there; in a sound directory that is: where a room of
/// that name is owned by the sender.
pub proof fn law_progress_for_owner_only(s: State, sender: usize, name: Seq<char>)
    ensures
        progress_verdict(s.rooms, sender, name) is Ok <==> has_room(s.rooms, name)
            && s.rooms[room_at(s.rooms, name)].members.len() > 0 && s.rooms[room_at(
            s.rooms,
            name,
        )].roomer == sender,
        s.wf() ==> (progress_verdict(s.rooms, sender, name) is Ok <==> has_room(s.rooms, name)
            && s.rooms[room_at(s.rooms, name)].roomer == sender),
        s.wf() ==> progress_verdict(s.rooms, sender, name) != Err::<(), ProgressError>(
            ProgressError::RoomEmpty,
        ),
{
    if s.wf() && has_room(s.rooms, name) {
        assert(s.rooms[room_at(s.rooms, name)].wf());
    }
}

/// A fan-out spares the session that it is told to skip.
pub proof fn law_fan_out_spares(
    members: Seq<usize>,
    live: Set<usize>,
    skip: usize,
    text: Seq<char>,
    k: int,
)
    requires
        0 <= k < fan_out(members, live, skip, text).len(),
    ensures
        fan_out(members, live, skip, text)[k].0 != skip,
        live.contains(fan_out(members, live, skip, text)[k].0),
        members.contains(fan_out(members, live, skip, text)[k].0),
        fan_out(members, live, skip, text)[k].1 == text,
{
    lemma_fan_out_parcels(members, live, skip, text);
}

/// A broadcast to a sound room reaches each of the other members that is
/// connected, once.
pub proof fn law_fan_out_reaches_each_once(
    members: Seq<usize>,
    live: Set<usize>,
    skip: usize,
    text: Seq<char>,
)
    requires
        members.no_duplicates(),
    ensures
        forall|m: usize|
            members.contains(m) && m != skip && live.contains(m) ==> fan_out(
                members,
                live,
                skip,
                text,
            ).contains((m, text)),
        forall|i: int, j: int|
            0 <= i < j < fan_out(members, live, skip, text).len() ==> (#[trigger] fan_out(
                members,
                live,
                skip,
                text,
            )[i]).0 != (#[trigger] fan_out(members, live, skip, text)[j]).0,
{
    let kept = members.filter(reached(live, skip));
    let out = fan_out(members, live, skip, text);
    lemma_fan_out_parcels(members, live, skip, text);
    lemma_filter_keeps(members, reached(live, skip));
    assert forall|i: int, j: int| 0 <= i < j < out.len() implies (#[trigger] out[i]).0 != (
    #[trigger] out[j]).0 by {
        assert(out[i] == (kept[i], text));
        assert(out[j] == (kept[j], text));
    }
}

/// A broadcast of chat, of a tagged value or of progress never comes back
/// to its sender, and reaches members of the room only.
pub proof fn law_broadcast_spares_sender(
    rooms: Seq<RoomState>,
    live: Set<usize>,
    sender: usize,
    name: Seq<char>,
    text: Seq<char>,
)
    ensures
        forall|k: int|
            0 <= k < broadcast(rooms, live, sender, name, text).len() ==> (#[trigger] broadcast(
                rooms,
                live,
                sender,
                name,
                text,
            )[k]).0 != sender,
        forall|k: int|
            0 <= k < room_cast(rooms, live, sender, name, text).len() ==> (#[trigger] room_cast(
                rooms,
                live,
                sender,
                name,
                text,
            )[k]).0 != sender,
{
    if has_room(rooms, name) {
        lemma_fan_out_parcels(rooms[room_at(rooms, name)].members, live, sender, text);
    }
}

/// A session that is in no room broadcasts to nobody, whatever room it names.
pub proof fn law_outsider_reaches_nobody(
    rooms: Seq<RoomState>,
    live: Set<usize>,
    sender: usize,
    name: Seq<char>,
    text: Seq<char>,
)
    requires
        !holds(rooms, sender),
    ensures
        broadcast(rooms, live, sender, name, text) == Seq::<Parcel>::empty(),
{
    if has_room(rooms, name) {
        let i = room_at(rooms, name);
        if rooms[i].members.contains(sender) {
            assert(holds(rooms, sender));
        }
    }
}

/// The notices of a leaving never go to the session that leaves.
pub proof fn law_leaving_spares_leaver(
    rooms: Seq<RoomState>,
    live: Set<usize>,
    id: usize,
    left: Seq<char>,
)
    ensures
        forall|k: int|
            0 <= k < depart_notices(rooms, live, id, left).len() ==> (#[trigger] depart_notices(
                rooms,
                live,
                id,
                left,
            )[k]).0 != id,
    decreases rooms.len(),
{
    if rooms.len() > 0 {
        let init = rooms.drop_last();
        let room = rooms.last();
        let head = depart_notices(init, live, id, left);
        let tail = room.leave_notices(live, id, left);
        law_leaving_spares_leaver(init, live, id, left);
        lemma_fan_out_parcels(room.others(id), live, id, left);
        lemma_filter_keeps(room.members, other_than(id));
        assert forall|k: int| 0 <= k < tail.len() implies (#[trigger] tail[k]).0 != id by {
            let rest = room.others(id);
            if room.roomer == id && rest.len() > 0 && live.contains(rest[0]) {
                assert(rest.contains(rest[0]));
                if k > 0 {
                    assert(tail[k] == fan_out(rest, live, id, left)[k - 1]);
                }
            } else {
                assert(tail[k] == fan_out(rest, live, id, left)[k]);
            }
        }
        assert forall|k: int| 0 <= k < (head + tail).len() implies (#[trigger] (head + tail)[k]).0
            != id by {
            if k >= head.len() {
                assert((head + tail)[k] == tail[k - head.len()]);
            }
        }
    }
}

/// Nothing that a join or a disconnect sends goes to the session that
/// joins or disconnects.
pub proof fn law_join_and_disconnect_spare_sender(s: State, id: usize, name: Seq<char>)
    ensures
        forall|k: int|
            0 <= k < s.join_notices(id, name).len() ==> (#[trigger] s.join_notices(id, name)[k]).0
                != id,
        forall|k: int|
            0 <= k < s.disconnect_notices(id).len() ==> (#[trigger] s.disconnect_notices(id)[k]).0
                != id,
{
    let who = s.display_name(id);
    let head = depart_notices(s.rooms, s.live(), id, left_frame(who));
    let tail = broadcast(s.join(id, name).rooms, s.live(), id, name, joined_frame(who));
    law_leaving_spares_leaver(s.rooms, s.live(), id, left_frame(who));
    law_leaving_spares_leaver(s.rooms, s.live().remove(id), id, left_frame(who));
    law_broadcast_spares_sender(
        s.join(id, name).rooms,
        s.live(),
        id,
        name,
        joined_frame(who),
    );
    assert forall|k: int| 0 <= k < (head + tail).len() implies (#[trigger] (head + tail)[k]).0
        != id by {
        if k >= head.len() {
            assert((head + tail)[k] == tail[k - head.len()]);
        }
    }
}

/// To disconnect a session that is not connected, or not any more, changes
/// nothing and sends nothing.
pub proof fn law_disconnect_of_stranger(s: State, id: usize)
    requires
        !s.sessions.contains_key(id),
    ensures
        s.disconnect(id) == s,
        s.disconnect_notices(id) == Seq::<Parcel>::empty(),
{
}

/// To disconnect a session twice is to disconnect it once.
pub proof fn law_disconnect_twice(s: State, id: usize)
    ensures
        s.disconnect(id).disconnect(id) == s.disconnect(id),
        s.disconnect(id).disconnect_notices(id) == Seq::<Parcel>::empty(),
{
}

/// A frame begins with `[` and the digit of its code.
pub proof fn lemma_frame_head(code: Code, payload: Seq<char>)
    ensures
        frame(code.number(), payload).len() >= 4,
        frame(code.number(), payload)[0] == '[',
        frame(code.number(), payload)[1] == digit(code.number() as nat),
        frame(code.number(), payload)[2] == ',',
{
    let n = code.number();
    assert(signed_decimal(n) =~= seq![digit(n as nat)]);
}

/// Frames of two kinds differ, whatever they carry: a client tells the kind
/// of a frame by what it begins with.
pub proof fn law_code_tells_frames_apart(a: Code, b: Code, x: Seq<char>, y: Seq<char>)
    requires
        a != b,
    ensures
        frame(a.number(), x) != frame(b.number(), y),
{
    lemma_frame_head(a, x);
    lemma_frame_head(b, y);
}

} // verus!
