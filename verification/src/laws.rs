//! The delivery and ordering laws of the relay, proved over the spec-level
//! transitions of [`crate::rooms`].

use vstd::prelude::*;
use crate::messages::{MessageV, UserV};
use crate::frames::routed_typing;
use crate::rooms::{
    disconnect_spec, handle_spec, has_room, join_spec, leave_rooms, others, publish_spec,
    push_bounded, relay_spec, room_index, room_users, snapshot_spec, user_ids_distinct, wf, StateV,
};
use crate::wire::{join_frame, leave_frame, room_users_frame, typing_frame};

verus! {

/// How many entries `others` keeps: with presence keyed by user id, a
/// joiner already present is the one entry filtered out; an absent joiner
/// filters out nothing.
pub proof fn lemma_others_len(users: Seq<UserV>, uid: Seq<char>)
    requires
        user_ids_distinct(users),
    ensures
        (exists|i: int| 0 <= i < users.len() && users[i].user_id == uid) ==> others(
            users,
            uid,
        ).len() == users.len() - 1,
        !(exists|i: int| 0 <= i < users.len() && users[i].user_id == uid) ==> others(
            users,
            uid,
        ).len() == users.len(),
    decreases users.len(),
{
    reveal(Seq::filter);
    let out = others(users, uid);
    if users.len() > 0 {
        let pre = users.drop_last();
        assert(user_ids_distinct(pre));
        lemma_others_len(pre, uid);
        if users.last().user_id == uid {
            assert forall|k: int| 0 <= k < pre.len() implies pre[k].user_id != uid by {
                assert(users[k].user_id != users[users.len() - 1].user_id);
            }
            assert(users[users.len() - 1].user_id == uid);
        } else {
            if exists|i: int| 0 <= i < users.len() && users[i].user_id == uid {
                let i = choose|i: int| 0 <= i < users.len() && users[i].user_id == uid;
                assert(pre[i] == users[i]);
            }
        }
    }
}

/// For any room, a joiner's snapshot holds exactly the users present at
/// that moment other than the joiner — each of them, nothing else, no
/// duplicates, and never the joiner itself. With `n` users present and the
/// joiner not among them, the snapshot has exactly `n` entries.
pub proof fn lemma_snapshot_exact(s: StateV, u: UserV)
    requires
        wf(s),
    ensures
        forall|k: int|
            0 <= k < snapshot_spec(s, u).len() ==> #[trigger] snapshot_spec(s, u)[k].user_id
                != u.user_id,
        forall|k: int|
            0 <= k < snapshot_spec(s, u).len() ==> room_users(s.rooms, u.page_id).contains(
                #[trigger] snapshot_spec(s, u)[k],
            ),
        forall|j: int|
            0 <= j < room_users(s.rooms, u.page_id).len() && room_users(s.rooms, u.page_id)[j].user_id
                != u.user_id ==> snapshot_spec(s, u).contains(
                #[trigger] room_users(s.rooms, u.page_id)[j],
            ),
        user_ids_distinct(snapshot_spec(s, u)),
        (exists|i: int|
            0 <= i < room_users(s.rooms, u.page_id).len() && room_users(s.rooms, u.page_id)[i].user_id
                == u.user_id) ==> snapshot_spec(s, u).len() == room_users(s.rooms, u.page_id).len()
            - 1,
        !(exists|i: int|
            0 <= i < room_users(s.rooms, u.page_id).len() && room_users(s.rooms, u.page_id)[i].user_id
                == u.user_id) ==> snapshot_spec(s, u).len() == room_users(
            s.rooms,
            u.page_id,
        ).len(),
{
    let users = room_users(s.rooms, u.page_id);
    assert(user_ids_distinct(users)) by {
        if has_room(s.rooms, u.page_id) {
            assert(0 <= room_index(s.rooms, u.page_id) < s.rooms.len());
        }
    }
    crate::rooms::lemma_others_distinct(users, u.user_id);
    lemma_others_len(users, u.user_id);
    assert forall|j: int|
        0 <= j < users.len() && users[j].user_id != u.user_id implies snapshot_spec(s, u).contains(
        users[j],
    ) by {
        users.filter_lemma(|x: UserV| x.user_id != u.user_id);
    }
}

/// The snapshot frame and a join frame are never the same text.
pub proof fn lemma_frames_differ(snap: Seq<UserV>, u: UserV)
    ensures
        room_users_frame(snap) != join_frame(u),
{
    let a = room_users_frame(snap);
    let b = join_frame(u);
    reveal_strlit("{\"event\":\"get_room_users\",\"users\":[");
    reveal_strlit("{\"avatar_url\":");
    assert(a[2] == 'e');
    assert(b[2] == 'a');
}

/// For any connecting client, the private `get_room_users` snapshot frame
/// stands strictly before any `join_room` frame on that same connection:
/// the connection a join creates starts with the snapshot at the head of
/// its outbox, and every occurrence of the join frame comes after it.
pub proof fn lemma_snapshot_before_own_join(s: StateV, u: UserV)
    ensures
        join_spec(s, u).conns.last().outbox[0] == room_users_frame(snapshot_spec(s, u)),
        forall|i: int|
            0 <= i < join_spec(s, u).conns.last().outbox.len() && join_spec(
                s,
                u,
            ).conns.last().outbox[i] == join_frame(u) ==> i >= 1,
{
    lemma_frames_differ(snapshot_spec(s, u), u);
}

/// Publishing to an existing room appends the frame — oldest dropped first
/// when full — to the outbox of every open subscriber of that room, and
/// touches nobody else.
pub proof fn lemma_publish_delivers(s: StateV, rid: Seq<char>, f: Seq<char>, j: int)
    requires
        has_room(s.rooms, rid),
        0 <= j < s.conns.len(),
    ensures
        s.conns[j].open && s.conns[j].room_id == rid ==> publish_spec(s, rid, f).conns[j].outbox
            == push_bounded(s.conns[j].outbox, f),
        !(s.conns[j].open && s.conns[j].room_id == rid) ==> publish_spec(s, rid, f).conns[j]
            == s.conns[j],
{
}

/// When the connection of a user in room `rid` terminates, every other
/// still-open subscriber of the room receives the `leave_room` frame with
/// that user's id, appended at the tail of its outbox — exactly once, when
/// none was already pending — and the presence tracker no longer lists the
/// user under the room.
pub proof fn lemma_leave_delivered(s: StateV, cid: int, j: int)
    requires
        wf(s),
        0 <= cid < s.conns.len(),
        has_room(s.rooms, s.conns[cid].room_id),
        0 <= j < s.conns.len(),
        j != cid,
        s.conns[j].open,
        s.conns[j].room_id == s.conns[cid].room_id,
    ensures
        disconnect_spec(s, cid).conns[j].outbox == push_bounded(
            s.conns[j].outbox,
            leave_frame(s.conns[cid].user_id),
        ),
        disconnect_spec(s, cid).conns[j].outbox.last() == leave_frame(s.conns[cid].user_id),
        !s.conns[j].outbox.contains(leave_frame(s.conns[cid].user_id)) ==> forall|i: int|
            0 <= i < disconnect_spec(s, cid).conns[j].outbox.len() && disconnect_spec(
                s,
                cid,
            ).conns[j].outbox[i] == leave_frame(s.conns[cid].user_id) ==> i == disconnect_spec(
                s,
                cid,
            ).conns[j].outbox.len() - 1,
        forall|k: int|
            0 <= k < room_users(disconnect_spec(s, cid).rooms, s.conns[cid].room_id).len()
                ==> #[trigger] room_users(
                disconnect_spec(s, cid).rooms,
                s.conns[cid].room_id,
            )[k].user_id != s.conns[cid].user_id,
{
    let rid = s.conns[cid].room_id;
    let uid = s.conns[cid].user_id;
    let f = leave_frame(uid);
    let after = disconnect_spec(s, cid);
    assert(after.conns[j].outbox == push_bounded(s.conns[j].outbox, f));
    let q0 = s.conns[j].outbox;
    let q1 = after.conns[j].outbox;
    if !q0.contains(f) {
        assert forall|i: int| 0 <= i < q1.len() && q1[i] == f implies i == q1.len() - 1 by {
            if i < q1.len() - 1 {
                if q0.len() >= crate::rooms::CHANNEL_CAPACITY {
                    assert(q1[i] == q0[i + 1]);
                    assert(q0.contains(q0[i + 1]));
                } else {
                    assert(q1[i] == q0[i]);
                    assert(q0.contains(q0[i]));
                }
            }
        }
    }
    let ri = room_index(s.rooms, rid);
    let users = s.rooms[ri].users;
    crate::rooms::lemma_others_distinct(users, uid);
    let newrooms = leave_rooms(s.rooms, rid, uid);
    if others(users, uid).len() > 0 {
        assert(newrooms[ri].room_id == rid);
        assert forall|p: int, q: int|
            0 <= p < q < newrooms.len() implies newrooms[p].room_id != newrooms[q].room_id by {}
        crate::rooms::lemma_room_index_is(newrooms, rid, ri);
    } else {
        assert forall|p: int| 0 <= p < newrooms.len() implies newrooms[p].room_id != rid by {
            let orig = if p < ri {
                p
            } else {
                p + 1
            };
            assert(newrooms[p] == s.rooms[orig]);
            if orig < ri {
                assert(s.rooms[orig].room_id != s.rooms[ri].room_id);
            } else {
                assert(s.rooms[ri].room_id != s.rooms[orig].room_id);
            }
        }
        assert(!has_room(newrooms, rid));
    }
}

/// A typing frame sent by a connected client is relayed verbatim — the
/// relayed frame carries exactly the user id, username and flag the frame
/// held — to every open subscriber of the sender's room, the sender
/// included.
pub proof fn lemma_typing_relayed(s: StateV, cid: int, text: Seq<char>, j: int)
    requires
        wf(s),
        0 <= cid < s.conns.len(),
        routed_typing(text) is Some,
        has_room(s.rooms, s.conns[cid].room_id),
        0 <= j < s.conns.len(),
        s.conns[j].open,
        s.conns[j].room_id == s.conns[cid].room_id,
    ensures
        handle_spec(s, cid, text).conns[j].outbox == push_bounded(
            s.conns[j].outbox,
            typing_frame(routed_typing(text)->Some_0),
        ),
        handle_spec(s, cid, text).conns[j].outbox.last() == typing_frame(
            routed_typing(text)->Some_0,
        ),
{
    lemma_publish_delivers(
        s,
        s.conns[cid].room_id,
        typing_frame(routed_typing(text)->Some_0),
        j,
    );
}

/// Relaying a message into a room that does not exist — zero current
/// subscribers — causes no observable delivery anywhere: the state is
/// unchanged, while the relay still reports success to its caller.
pub proof fn lemma_relay_no_room(s: StateV, m: MessageV)
    requires
        !has_room(s.rooms, m.page_id),
    ensures
        relay_spec(s, m) == s,
{
}

} // verus!
