//! The room registry, presence tracker and connection lifecycle of the
//! relay, as one owned state value.
//!
//! A room exists while at least one user is present in it; its entry is
//! removed as soon as the last presence entry leaves. Each connection is a
//! subscriber of exactly one room and owns an outbox: the frames published
//! to its room that it has not yet written to the wire. The outbox is a
//! bounded, lossy queue — when a subscriber lags behind the channel
//! capacity, the oldest pending frame is dropped rather than ever blocking
//! a publisher. That trade of completeness for liveness is deliberate and
//! part of the contract here, not an accident.
//!
//! Every operation's result is given exactly by a spec-level transition
//! function (`join_spec`, `disconnect_spec`, `handle_spec`, `relay_spec`),
//! and the ordering and delivery laws of the relay are proved over those.

use vstd::prelude::*;
use crate::messages::{ChatUser, Message, UserV};
use crate::frames::routed_typing;
use crate::wire::{
    encode_join, encode_leave, encode_message, encode_room_users, encode_typing, join_frame,
    leave_frame, message_frame, room_users_frame, typing_frame,
};

verus! {

/// How many frames a subscriber can have pending before the oldest is
/// dropped: the capacity of a room's broadcast channel.
pub const CHANNEL_CAPACITY: usize = 16;

/// One live subscription: the connection of `user_id` to `room_id`, with
/// the frames published to the room that it has not yet taken.
pub struct Conn {
    pub room_id: String,
    pub user_id: String,
    pub open: bool,
    pub outbox: Vec<String>,
}

/// One room that currently has users present.
pub struct Room {
    pub room_id: String,
    pub users: Vec<ChatUser>,
}

/// The shared state of the relay: the rooms with their presence entries,
/// and every connection made so far (closed ones stay as records with
/// `open` false).
pub struct WsState {
    pub rooms: Vec<Room>,
    pub conns: Vec<Conn>,
}

/// The mathematical value of a [`Conn`].
#[verifier::ext_equal]
pub struct ConnV {
    pub room_id: Seq<char>,
    pub user_id: Seq<char>,
    pub open: bool,
    pub outbox: Seq<Seq<char>>,
}

/// The mathematical value of a [`Room`].
#[verifier::ext_equal]
pub struct RoomV {
    pub room_id: Seq<char>,
    pub users: Seq<UserV>,
}

/// The mathematical value of a [`WsState`].
#[verifier::ext_equal]
pub struct StateV {
    pub rooms: Seq<RoomV>,
    pub conns: Seq<ConnV>,
}

impl View for Conn {
    type V = ConnV;

    open spec fn view(&self) -> ConnV {
        ConnV {
            room_id: self.room_id@,
            user_id: self.user_id@,
            open: self.open,
            outbox: self.outbox.deep_view(),
        }
    }
}

impl DeepView for Conn {
    type V = ConnV;

    open spec fn deep_view(&self) -> ConnV {
        self.view()
    }
}

impl View for Room {
    type V = RoomV;

    open spec fn view(&self) -> RoomV {
        RoomV { room_id: self.room_id@, users: self.users.deep_view() }
    }
}

impl DeepView for Room {
    type V = RoomV;

    open spec fn deep_view(&self) -> RoomV {
        self.view()
    }
}

impl View for WsState {
    type V = StateV;

    open spec fn view(&self) -> StateV {
        StateV { rooms: self.rooms.deep_view(), conns: self.conns.deep_view() }
    }
}

/// Whether a room named `rid` exists.
pub open spec fn has_room(rooms: Seq<RoomV>, rid: Seq<char>) -> bool {
    exists|i: int| 0 <= i < rooms.len() && rooms[i].room_id == rid
}

/// The index of the room named `rid`, when it exists.
pub open spec fn room_index(rooms: Seq<RoomV>, rid: Seq<char>) -> int {
    choose|i: int| 0 <= i < rooms.len() && rooms[i].room_id == rid
}

/// The users present in room `rid`; empty when the room does not exist.
pub open spec fn room_users(rooms: Seq<RoomV>, rid: Seq<char>) -> Seq<UserV> {
    if has_room(rooms, rid) {
        rooms[room_index(rooms, rid)].users
    } else {
        Seq::empty()
    }
}

/// No two presence entries share a user id.
pub open spec fn user_ids_distinct(users: Seq<UserV>) -> bool {
    forall|p: int, q: int| 0 <= p < q < users.len() ==> users[p].user_id != users[q].user_id
}

/// The presence entries other than the one keyed `uid`, in presence order.
pub open spec fn others(users: Seq<UserV>, uid: Seq<char>) -> Seq<UserV> {
    users.filter(|u: UserV| u.user_id != uid)
}

/// Inserts `u`, overwriting in place any entry with the same user id:
/// at most one presence entry per (room, user).
pub open spec fn upsert_user(users: Seq<UserV>, u: UserV) -> Seq<UserV> {
    if exists|i: int| 0 <= i < users.len() && users[i].user_id == u.user_id {
        users.update(choose|i: int| 0 <= i < users.len() && users[i].user_id == u.user_id, u)
    } else {
        users.push(u)
    }
}

/// Appending to a full outbox drops the oldest pending frame first:
/// a publisher never blocks on, and never fails because of, a slow
/// subscriber.
pub open spec fn push_bounded(q: Seq<Seq<char>>, f: Seq<char>) -> Seq<Seq<char>> {
    if q.len() >= CHANNEL_CAPACITY {
        q.subrange(1, q.len() as int).push(f)
    } else {
        q.push(f)
    }
}

/// What publishing `f` to room `rid` does to one connection: an open
/// subscriber of the room takes the frame into its outbox, everyone else
/// is untouched.
pub open spec fn deliver(c: ConnV, rid: Seq<char>, f: Seq<char>) -> ConnV {
    if c.open && c.room_id == rid {
        ConnV { outbox: push_bounded(c.outbox, f), ..c }
    } else {
        c
    }
}

/// Publishing `f` to room `rid`: delivered to every open subscriber of an
/// existing room; a silent no-op when no such room exists — a message sent
/// to a room with nobody present is simply discarded.
pub open spec fn publish_spec(s: StateV, rid: Seq<char>, f: Seq<char>) -> StateV {
    if has_room(s.rooms, rid) {
        StateV { conns: s.conns.map_values(|c: ConnV| deliver(c, rid, f)), ..s }
    } else {
        s
    }
}

/// The snapshot a joiner is owed: the users present in its room at that
/// moment, excluding the joiner itself.
pub open spec fn snapshot_spec(s: StateV, u: UserV) -> Seq<UserV> {
    others(room_users(s.rooms, u.page_id), u.user_id)
}

/// What a join does to the room registry and presence: the joiner's entry
/// is inserted into its room, overwriting any entry with the same user id;
/// the room is created when absent.
pub open spec fn join_rooms(rooms: Seq<RoomV>, u: UserV) -> Seq<RoomV> {
    if has_room(rooms, u.page_id) {
        let i = room_index(rooms, u.page_id);
        rooms.update(i, RoomV { room_id: rooms[i].room_id, users: upsert_user(rooms[i].users, u) })
    } else {
        rooms.push(RoomV { room_id: u.page_id, users: seq![u] })
    }
}

/// A join, in full: presence is updated, a new open connection appears
/// whose outbox holds the private snapshot frame first, and the
/// `join_room` frame is then broadcast to every subscriber of the room —
/// the new connection included, strictly after its snapshot.
pub open spec fn join_spec(s: StateV, u: UserV) -> StateV {
    let snap = snapshot_spec(s, u);
    StateV {
        rooms: join_rooms(s.rooms, u),
        conns: s.conns.map_values(|c: ConnV| deliver(c, u.page_id, join_frame(u))).push(
            ConnV {
                room_id: u.page_id,
                user_id: u.user_id,
                open: true,
                outbox: seq![room_users_frame(snap), join_frame(u)],
            },
        ),
    }
}

/// What a leave does to the room registry and presence: the user's entry
/// leaves its room, and a room whose presence set becomes empty is removed
/// from the registry.
pub open spec fn leave_rooms(rooms: Seq<RoomV>, rid: Seq<char>, uid: Seq<char>) -> Seq<RoomV> {
    if has_room(rooms, rid) {
        let i = room_index(rooms, rid);
        let remaining = others(rooms[i].users, uid);
        if remaining.len() == 0 {
            rooms.remove(i)
        } else {
            rooms.update(i, RoomV { room_id: rooms[i].room_id, users: remaining })
        }
    } else {
        rooms
    }
}

/// A connection's end, in full: the connection closes, the `leave_room`
/// frame is broadcast to the other still-open subscribers of its room, and
/// the user's presence entry leaves — removing the room when it empties.
pub open spec fn disconnect_spec(s: StateV, cid: int) -> StateV {
    let c = s.conns[cid];
    let closed = StateV { conns: s.conns.update(cid, ConnV { open: false, ..c }), ..s };
    let published = publish_spec(closed, c.room_id, leave_frame(c.user_id));
    StateV { rooms: leave_rooms(published.rooms, c.room_id, c.user_id), ..published }
}

/// An inbound frame, in full: a typing frame is re-encoded verbatim and
/// published to the sender's room; every other frame changes nothing.
pub open spec fn handle_spec(s: StateV, cid: int, text: Seq<char>) -> StateV {
    match routed_typing(text) {
        Some(t) => publish_spec(s, s.conns[cid].room_id, typing_frame(t)),
        None => s,
    }
}

/// An injected message, in full: the `message_received` frame is published
/// to the target room; a missing room makes it a silent no-op.
pub open spec fn relay_spec(s: StateV, m: crate::messages::MessageV) -> StateV {
    publish_spec(s, m.page_id, message_frame(m))
}

/// Well-formedness of the relay state: room names are unique, a room only
/// exists while users are present in it, presence is keyed by user id, a
/// presence entry sits in the room it names, and no outbox exceeds the
/// channel capacity.
pub open spec fn wf(s: StateV) -> bool {
    &&& forall|i: int, j: int|
        0 <= i < j < s.rooms.len() ==> s.rooms[i].room_id != s.rooms[j].room_id
    &&& forall|i: int| 0 <= i < s.rooms.len() ==> #[trigger] s.rooms[i].users.len() > 0
    &&& forall|i: int| 0 <= i < s.rooms.len() ==> user_ids_distinct(#[trigger] s.rooms[i].users)
    &&& forall|i: int, k: int|
        0 <= i < s.rooms.len() && 0 <= k < s.rooms[i].users.len()
            ==> #[trigger] s.rooms[i].users[k].page_id == s.rooms[i].room_id
    &&& forall|i: int|
        0 <= i < s.conns.len() ==> #[trigger] s.conns[i].outbox.len() <= CHANNEL_CAPACITY
}

/// With unique room names, any index holding `rid` is the room's index.
pub proof fn lemma_room_index_is(rooms: Seq<RoomV>, rid: Seq<char>, i: int)
    requires
        forall|p: int, q: int| 0 <= p < q < rooms.len() ==> rooms[p].room_id != rooms[q].room_id,
        0 <= i < rooms.len(),
        rooms[i].room_id == rid,
    ensures
        has_room(rooms, rid),
        room_index(rooms, rid) == i,
{
    assert(has_room(rooms, rid));
    let j = room_index(rooms, rid);
    if i < j {
        assert(rooms[i].room_id != rooms[j].room_id);
    } else if j < i {
        assert(rooms[j].room_id != rooms[i].room_id);
    }
}

/// Finds the room named `rid`, if any.
fn find_room(rooms: &Vec<Room>, rid: &String) -> (r: Option<usize>)
    ensures
        r matches Some(i) ==> i < rooms.len() && rooms.deep_view()[i as int].room_id == rid@,
        r is None ==> !has_room(rooms.deep_view(), rid@),
{
    let mut i: usize = 0;
    while i < rooms.len()
        invariant
            i <= rooms.len(),
            forall|k: int| 0 <= k < i ==> rooms.deep_view()[k].room_id != rid@,
        decreases rooms.len() - i,
    {
        if rooms[i].room_id == *rid {
            return Some(i);
        }
        i += 1;
    }
    None
}

/// With distinct user ids, any index holding `uid` is the one the upsert
/// overwrites.
pub proof fn lemma_user_index_is(users: Seq<UserV>, uid: Seq<char>, i: int)
    requires
        user_ids_distinct(users),
        0 <= i < users.len(),
        users[i].user_id == uid,
    ensures
        exists|k: int| 0 <= k < users.len() && users[k].user_id == uid,
        (choose|k: int| 0 <= k < users.len() && users[k].user_id == uid) == i,
{
    assert(exists|k: int| 0 <= k < users.len() && users[k].user_id == uid);
    let j = choose|k: int| 0 <= k < users.len() && users[k].user_id == uid;
    if i < j {
        assert(users[i].user_id != users[j].user_id);
    } else if j < i {
        assert(users[j].user_id != users[i].user_id);
    }
}

/// Finds the presence entry of `uid`, if any.
fn find_user(users: &Vec<ChatUser>, uid: &String) -> (r: Option<usize>)
    ensures
        r matches Some(i) ==> i < users.len() && users.deep_view()[i as int].user_id == uid@,
        r is None ==> forall|k: int|
            0 <= k < users.deep_view().len() ==> users.deep_view()[k].user_id != uid@,
{
    let mut i: usize = 0;
    while i < users.len()
        invariant
            i <= users.len(),
            forall|k: int| 0 <= k < i ==> users.deep_view()[k].user_id != uid@,
        decreases users.len() - i,
    {
        if users[i].user_id == *uid {
            return Some(i);
        }
        i += 1;
    }
    None
}

/// Copies the presence entries other than the one keyed `uid`, in order.
fn collect_others(users: &Vec<ChatUser>, uid: &String) -> (r: Vec<ChatUser>)
    ensures
        r.deep_view() == others(users.deep_view(), uid@),
{
    let mut r: Vec<ChatUser> = Vec::new();
    proof {
        reveal(Seq::filter);
        assert(r.deep_view() =~= others(users.deep_view().take(0), uid@));
    }
    let mut i: usize = 0;
    while i < users.len()
        invariant
            i <= users.len(),
            r.deep_view() == others(users.deep_view().take(i as int), uid@),
        decreases users.len() - i,
    {
        let ghost pre = r.deep_view();
        if !(users[i].user_id == *uid) {
            r.push(users[i].duplicate());
            proof {
                assert(r.deep_view() =~= pre.push(users.deep_view()[i as int]));
            }
        }
        proof {
            reveal(Seq::filter);
            let s = users.deep_view();
            assert(s.take(i + 1).drop_last() =~= s.take(i as int));
            assert(s.take(i + 1).last() == s[i as int]);
            assert(r.deep_view() =~= others(s.take(i + 1), uid@));
        }
        i += 1;
    }
    proof {
        assert(users.deep_view().take(users.deep_view().len() as int) =~= users.deep_view());
    }
    r
}

impl WsState {
    /// A relay with no rooms, no presence and no connections.
    pub fn new() -> (r: WsState)
        ensures
            r@.rooms.len() == 0,
            r@.conns.len() == 0,
            wf(r@),
    {
        WsState { rooms: Vec::new(), conns: Vec::new() }
    }

    /// Publishes `frame` to room `rid`: every open subscriber of an
    /// existing room takes it into its outbox, oldest-first overflow; when
    /// no such room exists, a silent no-op.
    pub fn publish(&mut self, rid: &String, frame: &String)
        requires
            wf(old(self)@),
        ensures
            final(self)@ == publish_spec(old(self)@, rid@, frame@),
            wf(final(self)@),
    {
        let found = find_room(&self.rooms, rid);
        if found.is_none() {
            return ;
        }
        proof {
            let i = found->Some_0 as int;
            lemma_room_index_is(self@.rooms, rid@, i);
        }
        let ghost s0 = self@;
        let n = self.conns.len();
        let mut i: usize = 0;
        while i < n
            invariant
                n == self.conns.len(),
                i <= n,
                self@.rooms == s0.rooms,
                forall|k: int| 0 <= k < i ==> self@.conns[k] == deliver(s0.conns[k], rid@, frame@),
                forall|k: int| i <= k < n ==> self@.conns[k] == s0.conns[k],
                forall|k: int|
                    0 <= k < n ==> #[trigger] s0.conns[k].outbox.len() <= CHANNEL_CAPACITY,
                forall|k: int|
                    0 <= k < n ==> #[trigger] self@.conns[k].outbox.len() <= CHANNEL_CAPACITY,
            decreases n - i,
        {
            let ghost snap = self@;
            let is_sub = self.conns[i].open && self.conns[i].room_id == *rid;
            if is_sub {
                if self.conns[i].outbox.len() >= CHANNEL_CAPACITY {
                    self.conns[i].outbox.remove(0);
                }
                self.conns[i].outbox.push(frame.clone());
            }
            proof {
                if is_sub {
                    assert(self.conns@.len() == n);
                    assert forall|k: int| 0 <= k < n && k != i as int implies self@.conns[k]
                        == snap.conns[k] by {
                        assert(self@.conns[k] == self.conns@[k].deep_view());
                    }
                    assert(self@.conns[i as int].outbox =~= push_bounded(
                        snap.conns[i as int].outbox,
                        frame@,
                    ));
                    assert(self@.conns[i as int] =~= deliver(snap.conns[i as int], rid@, frame@));
                } else {
                    assert(self@ == snap);
                    assert(self@.conns[i as int] == deliver(snap.conns[i as int], rid@, frame@));
                }
                assert forall|k: int| 0 <= k < i + 1 implies self@.conns[k] == deliver(
                    s0.conns[k],
                    rid@,
                    frame@,
                ) by {
                    if k < i as int {
                        assert(snap.conns[k] == deliver(s0.conns[k], rid@, frame@));
                        assert(self@.conns[k] == snap.conns[k]);
                    } else {
                        assert(snap.conns[k] == s0.conns[k]);
                    }
                }
                assert forall|k: int| i + 1 <= k < n implies self@.conns[k] == s0.conns[k] by {
                    assert(snap.conns[k] == s0.conns[k]);
                    assert(self@.conns[k] == snap.conns[k]);
                }
                assert forall|k: int| 0 <= k < n implies #[trigger] self@.conns[k].outbox.len()
                    <= CHANNEL_CAPACITY by {
                    assert(s0.conns[k].outbox.len() <= CHANNEL_CAPACITY);
                    if k < i + 1 {
                        assert(self@.conns[k] == deliver(s0.conns[k], rid@, frame@));
                    } else {
                        assert(self@.conns[k] == s0.conns[k]);
                    }
                }
            }
            i += 1;
        }
        proof {
            assert(self@.conns =~= s0.conns.map_values(|c: ConnV| deliver(c, rid@, frame@)));
            assert(self@ =~= publish_spec(s0, rid@, frame@));
        }
    }

    /// A user joins a room: the connection lifecycle's `Connecting` to
    /// `Active` steps. Presence is updated (insert, overwriting a previous
    /// entry with the same user id), a new connection subscribes with the
    /// private `get_room_users` snapshot queued first, and the `join_room`
    /// frame is then broadcast to the whole room — so the joiner observes
    /// its snapshot strictly before any join broadcast. Returns the new
    /// connection's id and the snapshot of the peers already present.
    pub fn join(&mut self, params: &ChatUser) -> (r: (usize, Vec<ChatUser>))
        requires
            wf(old(self)@),
        ensures
            final(self)@ == join_spec(old(self)@, params@),
            r.0 == old(self)@.conns.len(),
            r.1.deep_view() == snapshot_spec(old(self)@, params@),
            wf(final(self)@),
    {
        let ghost s0 = self@;
        let found = find_room(&self.rooms, &params.page_id);
        let snapshot: Vec<ChatUser>;
        match found {
            Some(ri) => {
                proof {
                    lemma_room_index_is(s0.rooms, params.page_id@, ri as int);
                }
                snapshot = collect_others(&self.rooms[ri].users, &params.user_id);
                let fu = find_user(&self.rooms[ri].users, &params.user_id);
                match fu {
                    Some(ui) => {
                        proof {
                            lemma_user_index_is(
                                s0.rooms[ri as int].users,
                                params.user_id@,
                                ui as int,
                            );
                        }
                        self.rooms[ri].users[ui] = params.duplicate();
                    },
                    None => {
                        self.rooms[ri].users.push(params.duplicate());
                    },
                }
                proof {
                    assert(self@.rooms =~~= join_rooms(s0.rooms, params@));
                }
            },
            None => {
                snapshot = Vec::new();
                let mut users: Vec<ChatUser> = Vec::new();
                users.push(params.duplicate());
                self.rooms.push(Room { room_id: params.page_id.clone(), users });
                proof {
                    reveal(Seq::filter);
                    assert(snapshot_spec(s0, params@) =~= Seq::<UserV>::empty());
                    assert(self@.rooms =~~= join_rooms(s0.rooms, params@));
                }
            },
        }
        let ghost mid_rooms = self@.rooms;
        let cid = self.conns.len();
        let snap_frame = encode_room_users(&snapshot);
        let mut outbox: Vec<String> = Vec::new();
        outbox.push(snap_frame);
        self.conns.push(
            Conn {
                room_id: params.page_id.clone(),
                user_id: params.user_id.clone(),
                open: true,
                outbox,
            },
        );
        proof {
            assert(self@.conns =~~= s0.conns.push(
                ConnV {
                    room_id: params@.page_id,
                    user_id: params@.user_id,
                    open: true,
                    outbox: seq![room_users_frame(snapshot_spec(s0, params@))],
                },
            ));
            assert(wf(self@)) by {
                lemma_join_rooms_wf(s0, params@);
                assert(self@.rooms == join_rooms(s0.rooms, params@));
                assert forall|k: int| 0 <= k < self@.conns.len() implies #[trigger] self@.conns[k].outbox.len()
                    <= CHANNEL_CAPACITY by {
                    if k < s0.conns.len() {
                        assert(self@.conns[k] == s0.conns[k]);
                    }
                }
            }
        }
        let join_msg = encode_join(params);
        let rid = params.page_id.clone();
        let ghost mid = self@;
        self.publish(&rid, &join_msg);
        proof {
            lemma_join_rooms_has(s0.rooms, params@);
            assert(has_room(mid.rooms, rid@));
            let f = |c: ConnV| deliver(c, params@.page_id, join_frame(params@));
            assert(self@.conns =~~= mid.conns.map_values(f));
            let nc = mid.conns[s0.conns.len() as int];
            assert(deliver(nc, params@.page_id, join_frame(params@)).outbox =~= seq![
                room_users_frame(snapshot_spec(s0, params@)),
                join_frame(params@),
            ]);
            assert(self@.conns =~~= join_spec(s0, params@).conns);
            assert(self@ =~~= join_spec(s0, params@));
        }
        (cid, snapshot)
    }

    /// A connection's transport has closed: the `Active` to `Closed` steps.
    /// The connection stops subscribing, the other still-open subscribers
    /// of its room each receive one `leave_room` frame with its user id,
    /// and the user's presence entry leaves — taking the room with it when
    /// the presence set empties. Every write along the way is best-effort;
    /// nothing here fails.
    pub fn disconnect(&mut self, cid: usize)
        requires
            wf(old(self)@),
            cid < old(self)@.conns.len(),
        ensures
            final(self)@ == disconnect_spec(old(self)@, cid as int),
            wf(final(self)@),
    {
        let ghost s0 = self@;
        let rid = self.conns[cid].room_id.clone();
        let uid = self.conns[cid].user_id.clone();
        self.conns[cid].open = false;
        proof {
            assert(self@ =~~= (StateV {
                conns: s0.conns.update(cid as int, ConnV { open: false, ..s0.conns[cid as int] }),
                ..s0
            }));
            assert(wf(self@)) by {
                assert forall|k: int| 0 <= k < self@.conns.len() implies #[trigger] self@.conns[k].outbox.len()
                    <= CHANNEL_CAPACITY by {
                    assert(s0.conns[k].outbox.len() <= CHANNEL_CAPACITY);
                }
            }
        }
        let leave_msg = encode_leave(uid.as_str());
        self.publish(&rid, &leave_msg);
        let ghost pubbed = self@;
        let found = find_room(&self.rooms, &rid);
        match found {
            Some(ri) => {
                proof {
                    lemma_room_index_is(pubbed.rooms, rid@, ri as int);
                    lemma_others_distinct(pubbed.rooms[ri as int].users, uid@);
                }
                let remaining = collect_others(&self.rooms[ri].users, &uid);
                if remaining.len() == 0 {
                    self.rooms.remove(ri);
                } else {
                    self.rooms[ri].users = remaining;
                }
                proof {
                    assert(self@.rooms =~~= leave_rooms(pubbed.rooms, rid@, uid@));
                }
            },
            None => {
                proof {
                    assert(self@.rooms =~~= leave_rooms(pubbed.rooms, rid@, uid@));
                }
            },
        }
        proof {
            assert(self@ =~~= disconnect_spec(s0, cid as int));
            assert(wf(self@)) by {
                lemma_leave_rooms_wf(pubbed.rooms, rid@, uid@);
                assert(self@.rooms == leave_rooms(pubbed.rooms, rid@, uid@));
                assert forall|k: int| 0 <= k < self@.conns.len() implies #[trigger] self@.conns[k].outbox.len()
                    <= CHANNEL_CAPACITY by {
                    assert(pubbed.conns[k].outbox.len() <= CHANNEL_CAPACITY);
                }
            }
        }
    }

    /// An inbound frame arrived from connection `cid`: the event router.
    /// A typing frame is re-encoded verbatim — same user id, username and
    /// flag — and published to the connection's room, the sender included.
    /// Any other tag, a missing tag or a parse failure changes nothing:
    /// ignored, silently, by design.
    pub fn handle_frame(&mut self, cid: usize, text: &str)
        requires
            wf(old(self)@),
            cid < old(self)@.conns.len(),
        ensures
            final(self)@ == handle_spec(old(self)@, cid as int, text@),
            wf(final(self)@),
    {
        match crate::frames::route_frame(text) {
            Some(t) => {
                let msg = encode_typing(&t);
                let rid = self.conns[cid].room_id.clone();
                self.publish(&rid, &msg);
            },
            None => {},
        }
    }

    /// An external caller injects a chat message into room
    /// `message.page_id`: the message relay. When the room exists, the
    /// `message_received` frame goes to all its subscribers; when it does
    /// not, nothing happens anywhere. Either way the relay reports success
    /// — it does not know, and does not claim to know, whether anyone
    /// received the message.
    pub fn relay(&mut self, message: &Message) -> (ok: bool)
        requires
            wf(old(self)@),
        ensures
            ok,
            final(self)@ == relay_spec(old(self)@, message@),
            wf(final(self)@),
    {
        let msg = encode_message(message);
        self.publish(&message.page_id, &msg);
        true
    }
}

/// A leave preserves well-formedness of the registry and presence.
pub proof fn lemma_leave_rooms_wf(rooms: Seq<RoomV>, rid: Seq<char>, uid: Seq<char>)
    requires
        forall|i: int, j: int| 0 <= i < j < rooms.len() ==> rooms[i].room_id != rooms[j].room_id,
        forall|i: int| 0 <= i < rooms.len() ==> #[trigger] rooms[i].users.len() > 0,
        forall|i: int| 0 <= i < rooms.len() ==> user_ids_distinct(#[trigger] rooms[i].users),
        forall|i: int, k: int|
            0 <= i < rooms.len() && 0 <= k < rooms[i].users.len()
                ==> #[trigger] rooms[i].users[k].page_id == rooms[i].room_id,
    ensures
        forall|i: int, j: int|
            0 <= i < j < leave_rooms(rooms, rid, uid).len() ==> leave_rooms(
                rooms,
                rid,
                uid,
            )[i].room_id != leave_rooms(rooms, rid, uid)[j].room_id,
        forall|i: int|
            0 <= i < leave_rooms(rooms, rid, uid).len() ==> #[trigger] leave_rooms(
                rooms,
                rid,
                uid,
            )[i].users.len() > 0,
        forall|i: int|
            0 <= i < leave_rooms(rooms, rid, uid).len() ==> user_ids_distinct(
                #[trigger] leave_rooms(rooms, rid, uid)[i].users,
            ),
        forall|i: int, k: int|
            0 <= i < leave_rooms(rooms, rid, uid).len() && 0 <= k < leave_rooms(
                rooms,
                rid,
                uid,
            )[i].users.len() ==> #[trigger] leave_rooms(rooms, rid, uid)[i].users[k].page_id
                == leave_rooms(rooms, rid, uid)[i].room_id,
{
    let after = leave_rooms(rooms, rid, uid);
    if has_room(rooms, rid) {
        let ri = room_index(rooms, rid);
        let users = rooms[ri].users;
        lemma_others_distinct(users, uid);
        let remaining = others(users, uid);
        assert forall|k: int| 0 <= k < remaining.len() implies remaining[k].page_id
            == rooms[ri].room_id by {
            assert(users.contains(remaining[k]));
            let j = choose|j: int| 0 <= j < users.len() && users[j] == remaining[k];
            assert(users[j].page_id == rooms[ri].room_id);
        }
        if remaining.len() == 0 {
            assert forall|p: int| 0 <= p < after.len() implies after[p] == rooms[
                if p < ri {
                    p
                } else {
                    p + 1
                }
            ] by {}
        }
    }
}

/// What `others` keeps: entries of the given list, still distinct, none
/// keyed `uid`.
pub proof fn lemma_others_distinct(users: Seq<UserV>, uid: Seq<char>)
    requires
        user_ids_distinct(users),
    ensures
        user_ids_distinct(others(users, uid)),
        forall|k: int|
            0 <= k < others(users, uid).len() ==> users.contains(#[trigger] others(users, uid)[k]),
        forall|k: int| 0 <= k < others(users, uid).len() ==> others(users, uid)[k].user_id != uid,
    decreases users.len(),
{
    reveal(Seq::filter);
    let out = others(users, uid);
    if users.len() > 0 {
        let pre = users.drop_last();
        assert(user_ids_distinct(pre));
        lemma_others_distinct(pre, uid);
        let pout = others(pre, uid);
        assert forall|k: int| 0 <= k < pout.len() implies users.contains(pout[k]) by {
            assert(pre.contains(pout[k]));
            let j = choose|j: int| 0 <= j < pre.len() && pre[j] == pout[k];
            assert(users[j] == pout[k]);
        }
        if users.last().user_id != uid {
            assert(out =~= pout.push(users.last()));
            assert forall|p: int, q: int| 0 <= p < q < out.len() implies out[p].user_id
                != out[q].user_id by {
                if q == out.len() - 1 {
                    assert(pre.contains(pout[p]));
                    let j = choose|j: int| 0 <= j < pre.len() && pre[j] == pout[p];
                    assert(users[j].user_id != users[users.len() - 1].user_id);
                }
            }
            assert(users.contains(users.last()));
        } else {
            assert(out =~= pout);
        }
    }
}

/// After a join, the joined room exists.
pub proof fn lemma_join_rooms_has(rooms: Seq<RoomV>, u: UserV)
    ensures
        has_room(join_rooms(rooms, u), u.page_id),
{
    let after = join_rooms(rooms, u);
    if has_room(rooms, u.page_id) {
        let i = room_index(rooms, u.page_id);
        assert(after[i].room_id == u.page_id);
    } else {
        assert(after[rooms.len() as int].room_id == u.page_id);
    }
}

/// A join preserves well-formedness of the registry and presence.
pub proof fn lemma_join_rooms_wf(s: StateV, u: UserV)
    requires
        wf(s),
    ensures
        forall|i: int, j: int|
            0 <= i < j < join_rooms(s.rooms, u).len() ==> join_rooms(s.rooms, u)[i].room_id
                != join_rooms(s.rooms, u)[j].room_id,
        forall|i: int|
            0 <= i < join_rooms(s.rooms, u).len() ==> #[trigger] join_rooms(
                s.rooms,
                u,
            )[i].users.len() > 0,
        forall|i: int|
            0 <= i < join_rooms(s.rooms, u).len() ==> user_ids_distinct(
                #[trigger] join_rooms(s.rooms, u)[i].users,
            ),
        forall|i: int, k: int|
            0 <= i < join_rooms(s.rooms, u).len() && 0 <= k < join_rooms(s.rooms, u)[i].users.len()
                ==> #[trigger] join_rooms(s.rooms, u)[i].users[k].page_id == join_rooms(
                s.rooms,
                u,
            )[i].room_id,
{
    let after = join_rooms(s.rooms, u);
    if has_room(s.rooms, u.page_id) {
        let ri = room_index(s.rooms, u.page_id);
        let users = s.rooms[ri].users;
        let nu = upsert_user(users, u);
        if exists|k: int| 0 <= k < users.len() && users[k].user_id == u.user_id {
            let ui = choose|k: int| 0 <= k < users.len() && users[k].user_id == u.user_id;
            assert(nu =~= users.update(ui, u));
        }
        assert(user_ids_distinct(nu));
        assert(forall|k: int| 0 <= k < nu.len() ==> nu[k].page_id == s.rooms[ri].room_id);
    }
}

} // verus!
