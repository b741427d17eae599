//! End-to-end scenarios over the relay state, mirroring what two clients
//! and an external sender observe in one room.

use chat_relay::messages::{ChatUser, Message};
use chat_relay::rooms::WsState;

fn user(user_id: &str, page_id: &str, username: &str, avatar: &str, email: &str) -> ChatUser {
    ChatUser {
        avatar_url: avatar.to_string(),
        email: email.to_string(),
        page_id: page_id.to_string(),
        user_id: user_id.to_string(),
        username: username.to_string(),
    }
}

fn user1() -> ChatUser {
    user(
        "user1",
        "room1",
        "UserOne",
        "https://example.com/avatar1.jpg",
        "user1@gmail.com",
    )
}

fn user2() -> ChatUser {
    user(
        "user2",
        "room1",
        "UserTwo",
        "https://example.com/avatar2.jpg",
        "user2@gmail.com",
    )
}

fn parse(frame: &str) -> serde_json::Value {
    serde_json::from_str(frame).unwrap()
}

#[test]
fn full_room_scenario() {
    let mut st = WsState::new();

    // user1 joins room1 and receives the empty snapshot first.
    let (c1, snap1) = st.join(&user1());
    assert!(snap1.is_empty());
    let v = parse(&st.conns[c1].outbox[0]);
    assert_eq!(v["event"], "get_room_users");
    assert!(v["users"].as_array().unwrap().is_empty());
    let v = parse(&st.conns[c1].outbox[1]);
    assert_eq!(v["event"], "join_room");
    assert_eq!(v["user_id"].as_str().unwrap(), "user1");

    // user2 joins: its snapshot holds user1; user1 sees the join.
    let (c2, snap2) = st.join(&user2());
    assert_eq!(snap2.len(), 1);
    assert_eq!(snap2[0].user_id, "user1");
    let v = parse(&st.conns[c2].outbox[0]);
    assert_eq!(v["event"], "get_room_users");
    assert_eq!(v["users"].as_array().unwrap().len(), 1);
    assert_eq!(v["users"][0]["user_id"].as_str().unwrap(), "user1");
    let v = parse(&st.conns[c2].outbox[1]);
    assert_eq!(v["event"], "join_room");
    assert_eq!(v["user_id"].as_str().unwrap(), "user2");
    let v = parse(&st.conns[c1].outbox[2]);
    assert_eq!(v["event"], "join_room");
    assert_eq!(v["user_id"].as_str().unwrap(), "user2");

    // user1 sends a typing frame: both connections receive it verbatim.
    let typing = "{\"event\":\"typing\",\"user_id\":\"user1\",\"username\":\"UserOne\",\"is_typing\":true}";
    st.handle_frame(c1, typing);
    for cid in [c1, c2] {
        let v = parse(st.conns[cid].outbox.last().unwrap());
        assert_eq!(v["event"], "typing");
        assert_eq!(v["user_id"].as_str().unwrap(), "user1");
        assert_eq!(v["username"].as_str().unwrap(), "UserOne");
        assert_eq!(v["is_typing"].as_bool().unwrap(), true);
    }

    // user2 disconnects: user1 receives exactly one leave_room for user2.
    let before = st.conns[c1].outbox.len();
    st.disconnect(c2);
    assert_eq!(st.conns[c1].outbox.len(), before + 1);
    let v = parse(st.conns[c1].outbox.last().unwrap());
    assert_eq!(v["event"], "leave_room");
    assert_eq!(v["user_id"].as_str().unwrap(), "user2");
    assert!(!st.conns[c2].open);

    // an external sender posts a message: the remaining subscriber gets it.
    let message = Message {
        avatar_url: "https://example.com/avatar1.jpg".to_string(),
        content: "Hello, room!".to_string(),
        page_id: "room1".to_string(),
        user_id: "user1".to_string(),
        username: "UserOne".to_string(),
    };
    assert!(st.relay(&message));
    let v = parse(st.conns[c1].outbox.last().unwrap());
    assert_eq!(v["event"], "message_received");
    assert_eq!(v["user_id"].as_str().unwrap(), "user1");
    assert_eq!(v["username"].as_str().unwrap(), "UserOne");
    assert_eq!(
        v["avatar_url"].as_str().unwrap(),
        "https://example.com/avatar1.jpg"
    );
    assert_eq!(v["content"].as_str().unwrap(), "Hello, room!");
    // the closed connection saw none of it
    let v = parse(st.conns[c2].outbox.last().unwrap());
    assert_eq!(v["event"], "typing");
}

#[test]
fn snapshot_excludes_joiner_and_left_users() {
    let mut st = WsState::new();
    let (c1, _) = st.join(&user1());
    let (_c2, snap) = st.join(&user2());
    assert_eq!(snap.len(), 1);
    assert_eq!(snap[0].user_id, "user1");
    // user1 leaves; a third joiner sees only user2.
    st.disconnect(c1);
    let (_c3, snap) = st.join(&user(
        "user3",
        "room1",
        "UserThree",
        "https://example.com/avatar3.jpg",
        "user3@gmail.com",
    ));
    assert_eq!(snap.len(), 1);
    assert_eq!(snap[0].user_id, "user2");
}

#[test]
fn rejoin_overwrites_presence_entry() {
    let mut st = WsState::new();
    let (_c1, _) = st.join(&user1());
    // the same user joins again from a second connection: still one entry
    let (_c1b, snap) = st.join(&user("user1", "room1", "NewName", "a", "e"));
    assert!(snap.is_empty());
    let (_c2, snap) = st.join(&user2());
    assert_eq!(snap.len(), 1);
    assert_eq!(snap[0].username, "NewName");
}

#[test]
fn relay_without_room_succeeds_and_delivers_nothing() {
    let mut st = WsState::new();
    let (c1, _) = st.join(&user1());
    let before = st.conns[c1].outbox.len();
    let message = Message {
        avatar_url: String::new(),
        content: "lost".to_string(),
        page_id: "elsewhere".to_string(),
        user_id: "user9".to_string(),
        username: "Nobody".to_string(),
    };
    assert!(st.relay(&message));
    assert_eq!(st.conns[c1].outbox.len(), before);
    assert_eq!(st.rooms.len(), 1);
}

#[test]
fn last_leave_removes_room() {
    let mut st = WsState::new();
    let (c1, _) = st.join(&user1());
    assert_eq!(st.rooms.len(), 1);
    st.disconnect(c1);
    assert_eq!(st.rooms.len(), 0);
    // publishing into the now-missing room is a silent no-op
    let message = Message {
        avatar_url: String::new(),
        content: "late".to_string(),
        page_id: "room1".to_string(),
        user_id: "user1".to_string(),
        username: "UserOne".to_string(),
    };
    assert!(st.relay(&message));
    assert_eq!(st.conns[c1].outbox.len(), 2);
}

#[test]
fn outbox_is_bounded_and_drops_oldest() {
    let mut st = WsState::new();
    let (c1, _) = st.join(&user1());
    for i in 0..40 {
        let message = Message {
            avatar_url: String::new(),
            content: format!("m{}", i),
            page_id: "room1".to_string(),
            user_id: "user1".to_string(),
            username: "UserOne".to_string(),
        };
        assert!(st.relay(&message));
    }
    assert_eq!(st.conns[c1].outbox.len(), 16);
    // the newest message is at the tail, the oldest surviving one in front
    let v = parse(st.conns[c1].outbox.last().unwrap());
    assert_eq!(v["content"].as_str().unwrap(), "m39");
    let v = parse(&st.conns[c1].outbox[0]);
    assert_eq!(v["content"].as_str().unwrap(), "m24");
}

#[test]
fn malformed_frames_change_nothing() {
    let mut st = WsState::new();
    let (c1, _) = st.join(&user1());
    let before = st.conns[c1].outbox.len();
    for frame in [
        "not json at all",
        "{\"event\":\"dance\"}",
        "{\"no_event\":1}",
        "{\"event\":\"typing\",\"user_id\":\"user1\"}",
        "{\"event\":\"typing\",\"user_id\":\"user1\",\"username\":\"U\",\"is_typing\":\"yes\"}",
        "{\"event\":5,\"user_id\":\"user1\",\"username\":\"U\",\"is_typing\":true}",
        "[1,2,3]",
        "",
    ] {
        st.handle_frame(c1, frame);
        assert_eq!(st.conns[c1].outbox.len(), before);
    }
}
