//! The event vocabulary of the relay: the closed set of wire-event tags and
//! the records that ride with them.

use vstd::prelude::*;

verus! {

/// A chat message injected into a room by an external caller.
/// All fields are required, and `content` is opaque text: unbounded,
/// unsanitized, never persisted.
#[derive(Debug, Clone)]
pub struct Message {
    pub avatar_url: String,
    pub content: String,
    pub page_id: String,
    pub user_id: String,
    pub username: String,
}

/// A (user, room) pair, as carried by presence-related events.
#[derive(Debug, Clone)]
pub struct UserEvent {
    pub page_id: String,
    pub user_id: String,
}

/// A typing indicator as sent by a client: who is typing, and whether they
/// started or stopped. The `event` field holds the frame's own tag.
#[derive(Debug, Clone)]
pub struct TypingEvent {
    pub event: String,
    pub is_typing: bool,
    pub user_id: String,
    pub username: String,
}

/// The closed set of event tags a wire frame can carry. Unknown tags on
/// inbound frames are ignored by the router rather than relayed.
/// `MessageSent` belongs to the declared vocabulary but nothing in the
/// base behavior produces it; no firing condition is invented for it.
#[derive(Debug, Clone, Copy, PartialEq, Eq, Structural)]
pub enum ChatEvent {
    GetRoomUsers,
    JoinRoom,
    LeaveRoom,
    MessageReceived,
    MessageSent,
    Typing,
}

/// A user present in a room, with the display metadata bound at join time.
#[derive(Debug, Clone)]
pub struct ChatUser {
    pub avatar_url: String,
    pub email: String,
    pub page_id: String,
    pub user_id: String,
    pub username: String,
}

/// The mathematical value of a [`Message`]: each field as a character sequence.
pub struct MessageV {
    pub avatar_url: Seq<char>,
    pub content: Seq<char>,
    pub page_id: Seq<char>,
    pub user_id: Seq<char>,
    pub username: Seq<char>,
}

/// The mathematical value of a [`TypingEvent`].
pub struct TypingV {
    pub event: Seq<char>,
    pub is_typing: bool,
    pub user_id: Seq<char>,
    pub username: Seq<char>,
}

/// The mathematical value of a [`ChatUser`].
pub struct UserV {
    pub avatar_url: Seq<char>,
    pub email: Seq<char>,
    pub page_id: Seq<char>,
    pub user_id: Seq<char>,
    pub username: Seq<char>,
}

impl View for Message {
    type V = MessageV;

    open spec fn view(&self) -> MessageV {
        MessageV {
            avatar_url: self.avatar_url@,
            content: self.content@,
            page_id: self.page_id@,
            user_id: self.user_id@,
            username: self.username@,
        }
    }
}

impl DeepView for Message {
    type V = MessageV;

    open spec fn deep_view(&self) -> MessageV {
        self.view()
    }
}

impl View for TypingEvent {
    type V = TypingV;

    open spec fn view(&self) -> TypingV {
        TypingV {
            event: self.event@,
            is_typing: self.is_typing,
            user_id: self.user_id@,
            username: self.username@,
        }
    }
}

impl DeepView for TypingEvent {
    type V = TypingV;

    open spec fn deep_view(&self) -> TypingV {
        self.view()
    }
}

impl View for ChatUser {
    type V = UserV;

    open spec fn view(&self) -> UserV {
        UserV {
            avatar_url: self.avatar_url@,
            email: self.email@,
            page_id: self.page_id@,
            user_id: self.user_id@,
            username: self.username@,
        }
    }
}

impl DeepView for ChatUser {
    type V = UserV;

    open spec fn deep_view(&self) -> UserV {
        self.view()
    }
}

impl ChatUser {
    /// A field-for-field copy of this user.
    pub fn duplicate(&self) -> (r: ChatUser)
        ensures
            r@ == self@,
    {
        ChatUser {
            avatar_url: self.avatar_url.clone(),
            email: self.email.clone(),
            page_id: self.page_id.clone(),
            user_id: self.user_id.clone(),
            username: self.username.clone(),
        }
    }
}

impl ChatEvent {
    /// The tag string under which this event appears on the wire.
    pub open spec fn tag_view(self) -> Seq<char> {
        match self {
            ChatEvent::GetRoomUsers => "get_room_users"@,
            ChatEvent::JoinRoom => "join_room"@,
            ChatEvent::LeaveRoom => "leave_room"@,
            ChatEvent::MessageReceived => "message_received"@,
            ChatEvent::MessageSent => "message_sent"@,
            ChatEvent::Typing => "typing"@,
        }
    }

    /// Returns the wire tag of this event.
    pub fn tag(&self) -> (r: String)
        ensures
            r@ == self.tag_view(),
    {
        match self {
            ChatEvent::GetRoomUsers => String::from_str("get_room_users"),
            ChatEvent::JoinRoom => String::from_str("join_room"),
            ChatEvent::LeaveRoom => String::from_str("leave_room"),
            ChatEvent::MessageReceived => String::from_str("message_received"),
            ChatEvent::MessageSent => String::from_str("message_sent"),
            ChatEvent::Typing => String::from_str("typing"),
        }
    }
}

} // verus!
