//! The wire encoders against real JSON: exact expected texts, and round
//! trips through serde_json's parser for escaped content.

use chat_relay::frames::route_frame;
use chat_relay::messages::{ChatEvent, ChatUser, Message, TypingEvent};
use chat_relay::wire::{
    encode_join, encode_leave, encode_message, encode_room_users, encode_typing,
};

fn sample_user() -> ChatUser {
    ChatUser {
        avatar_url: "https://example.com/avatar1.jpg".to_string(),
        email: "user1@gmail.com".to_string(),
        page_id: "room1".to_string(),
        user_id: "user1".to_string(),
        username: "UserOne".to_string(),
    }
}

#[test]
fn join_frame_exact_text() {
    let s = encode_join(&sample_user());
    assert_eq!(
        s,
        "{\"avatar_url\":\"https://example.com/avatar1.jpg\",\"email\":\"user1@gmail.com\",\
         \"event\":\"join_room\",\"user_id\":\"user1\",\"username\":\"UserOne\"}"
    );
}

#[test]
fn leave_frame_exact_text() {
    assert_eq!(
        encode_leave("user1"),
        "{\"event\":\"leave_room\",\"user_id\":\"user1\"}"
    );
}

#[test]
fn snapshot_frame_exact_text() {
    let empty: Vec<ChatUser> = Vec::new();
    assert_eq!(
        encode_room_users(&empty),
        "{\"event\":\"get_room_users\",\"users\":[]}"
    );
    let one = vec![sample_user()];
    assert_eq!(
        encode_room_users(&one),
        "{\"event\":\"get_room_users\",\"users\":[{\"avatar_url\":\"https://example.com/avatar1.jpg\",\
         \"email\":\"user1@gmail.com\",\"page_id\":\"room1\",\"user_id\":\"user1\",\
         \"username\":\"UserOne\"}]}"
    );
}

#[test]
fn typing_frame_exact_text() {
    let t = TypingEvent {
        event: "typing".to_string(),
        is_typing: true,
        user_id: "user1".to_string(),
        username: "UserOne".to_string(),
    };
    assert_eq!(
        encode_typing(&t),
        "{\"event\":\"typing\",\"is_typing\":true,\"user_id\":\"user1\",\"username\":\"UserOne\"}"
    );
    let t = TypingEvent { is_typing: false, ..t };
    assert_eq!(
        encode_typing(&t),
        "{\"event\":\"typing\",\"is_typing\":false,\"user_id\":\"user1\",\"username\":\"UserOne\"}"
    );
}

#[test]
fn message_frame_matches_serde_json() {
    let m = Message {
        avatar_url: "https://example.com/a.png".to_string(),
        content: "He said \"hi\\there\"\nnew line\ttab \u{1} control \u{1f} and beyond".to_string(),
        page_id: "room1".to_string(),
        user_id: "u".to_string(),
        username: "N".to_string(),
    };
    let s = encode_message(&m);
    let v: serde_json::Value = serde_json::from_str(&s).unwrap();
    assert_eq!(v["event"], "message_received");
    assert_eq!(v["content"].as_str().unwrap(), m.content);
    assert_eq!(v["avatar_url"].as_str().unwrap(), m.avatar_url);
    assert_eq!(v["user_id"].as_str().unwrap(), m.user_id);
    assert_eq!(v["username"].as_str().unwrap(), m.username);
    // the escaping itself, spelled out
    let m2 = Message { content: "\"\\\u{8}\u{c}\n\r\t\u{0}\u{1f}".to_string(), ..m };
    let s2 = encode_message(&m2);
    assert!(s2.contains("\\\"\\\\\\b\\f\\n\\r\\t\\u0000\\u001f"));
    let v2: serde_json::Value = serde_json::from_str(&s2).unwrap();
    assert_eq!(v2["content"].as_str().unwrap(), m2.content);
}

#[test]
fn event_tags_on_the_wire() {
    assert_eq!(ChatEvent::GetRoomUsers.tag(), "get_room_users");
    assert_eq!(ChatEvent::JoinRoom.tag(), "join_room");
    assert_eq!(ChatEvent::LeaveRoom.tag(), "leave_room");
    assert_eq!(ChatEvent::MessageReceived.tag(), "message_received");
    assert_eq!(ChatEvent::MessageSent.tag(), "message_sent");
    assert_eq!(ChatEvent::Typing.tag(), "typing");
}

#[test]
fn route_frame_reads_typing_fields() {
    let r = route_frame(
        "{ \"username\" : \"UserOne\", \"event\" : \"typing\", \"is_typing\" : true, \
         \"user_id\" : \"user1\", \"extra\" : [1, 2] }",
    )
    .unwrap();
    assert_eq!(r.event, "typing");
    assert_eq!(r.user_id, "user1");
    assert_eq!(r.username, "UserOne");
    assert!(r.is_typing);
}

#[test]
fn route_frame_rejects_everything_else() {
    assert!(route_frame("").is_none());
    assert!(route_frame("{}").is_none());
    assert!(route_frame("{\"event\":\"typing\"}").is_none());
    assert!(route_frame("{\"event\":\"message_received\",\"user_id\":\"u\",\"username\":\"n\",\"is_typing\":true}").is_none());
    assert!(route_frame("{\"event\":\"typing\",\"user_id\":7,\"username\":\"n\",\"is_typing\":true}").is_none());
}
