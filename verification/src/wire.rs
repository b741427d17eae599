//! The wire format of the relay: every frame a connection sends or receives
//! is a JSON object in a fixed key order, with strings escaped as JSON
//! requires. The spec functions here give each frame character by character;
//! the encoders are proved to produce exactly those characters.

use vstd::prelude::*;
use vstd::string::StrSliceExecFns;
use vstd::string::StringExecFns;
use crate::messages::{ChatUser, Message, MessageV, TypingV, UserV};

verus! {

/// The lowercase hexadecimal digit for a value below sixteen.
pub open spec fn hex_digit(n: int) -> char {
    if n == 0 {
        '0'
    } else if n == 1 {
        '1'
    } else if n == 2 {
        '2'
    } else if n == 3 {
        '3'
    } else if n == 4 {
        '4'
    } else if n == 5 {
        '5'
    } else if n == 6 {
        '6'
    } else if n == 7 {
        '7'
    } else if n == 8 {
        '8'
    } else if n == 9 {
        '9'
    } else if n == 10 {
        'a'
    } else if n == 11 {
        'b'
    } else if n == 12 {
        'c'
    } else if n == 13 {
        'd'
    } else if n == 14 {
        'e'
    } else {
        'f'
    }
}

/// How one character appears inside a JSON string literal: quote and
/// backslash get a two-character escape, the named control characters get
/// theirs, every other control character below space becomes `\u00xx`, and
/// everything else stands as itself.
pub open spec fn escape_char(c: char) -> Seq<char> {
    if c == '"' {
        seq!['\\', '"']
    } else if c == '\\' {
        seq!['\\', '\\']
    } else if c == '\u{8}' {
        seq!['\\', 'b']
    } else if c == '\t' {
        seq!['\\', 't']
    } else if c == '\n' {
        seq!['\\', 'n']
    } else if c == '\u{c}' {
        seq!['\\', 'f']
    } else if c == '\r' {
        seq!['\\', 'r']
    } else if (c as u32) < 32 {
        seq!['\\', 'u', '0', '0', hex_digit((c as u32) as int / 16), hex_digit((c as u32) as int % 16)]
    } else {
        seq![c]
    }
}

/// The escaped form of the first `n` characters of `s`.
pub open spec fn escape_prefix(s: Seq<char>, n: int) -> Seq<char>
    decreases n,
{
    if n <= 0 {
        Seq::empty()
    } else {
        escape_prefix(s, n - 1) + escape_char(s[n - 1])
    }
}

/// The escaped form of a whole character sequence.
pub open spec fn escape_seq(s: Seq<char>) -> Seq<char> {
    escape_prefix(s, s.len() as int)
}

/// A JSON string literal: the escaped characters between double quotes.
pub open spec fn json_string(s: Seq<char>) -> Seq<char> {
    "\""@ + escape_seq(s) + "\""@
}

/// Relies on `String::push`: appends exactly the one character.
#[verifier::external_body]
fn push_char(out: &mut String, c: char)
    ensures
        final(out)@ == old(out)@.push(c),
{
    out.push(c);
}

/// The lowercase hexadecimal digit for `n`.
fn hex_digit_exec(n: u8) -> (r: char)
    requires
        n < 16,
    ensures
        r == hex_digit(n as int),
{
    if n == 0 {
        '0'
    } else if n == 1 {
        '1'
    } else if n == 2 {
        '2'
    } else if n == 3 {
        '3'
    } else if n == 4 {
        '4'
    } else if n == 5 {
        '5'
    } else if n == 6 {
        '6'
    } else if n == 7 {
        '7'
    } else if n == 8 {
        '8'
    } else if n == 9 {
        '9'
    } else if n == 10 {
        'a'
    } else if n == 11 {
        'b'
    } else if n == 12 {
        'c'
    } else if n == 13 {
        'd'
    } else if n == 14 {
        'e'
    } else {
        'f'
    }
}

/// Appends the escaped form of one character.
fn push_escaped(out: &mut String, c: char)
    ensures
        final(out)@ == old(out)@ + escape_char(c),
{
    if c == '"' {
        out.append("\\\"");
        proof {
            reveal_strlit("\\\"");
            assert(old(out)@ + "\\\""@ =~= old(out)@ + escape_char(c));
        }
    } else if c == '\\' {
        out.append("\\\\");
        proof {
            reveal_strlit("\\\\");
            assert(old(out)@ + "\\\\"@ =~= old(out)@ + escape_char(c));
        }
    } else if c == '\u{8}' {
        out.append("\\b");
        proof {
            reveal_strlit("\\b");
            assert(old(out)@ + "\\b"@ =~= old(out)@ + escape_char(c));
        }
    } else if c == '\t' {
        out.append("\\t");
        proof {
            reveal_strlit("\\t");
            assert(old(out)@ + "\\t"@ =~= old(out)@ + escape_char(c));
        }
    } else if c == '\n' {
        out.append("\\n");
        proof {
            reveal_strlit("\\n");
            assert(old(out)@ + "\\n"@ =~= old(out)@ + escape_char(c));
        }
    } else if c == '\u{c}' {
        out.append("\\f");
        proof {
            reveal_strlit("\\f");
            assert(old(out)@ + "\\f"@ =~= old(out)@ + escape_char(c));
        }
    } else if c == '\r' {
        out.append("\\r");
        proof {
            reveal_strlit("\\r");
            assert(old(out)@ + "\\r"@ =~= old(out)@ + escape_char(c));
        }
    } else if (c as u32) < 32 {
        out.append("\\u00");
        let n: u32 = c as u32;
        push_char(out, hex_digit_exec((n / 16) as u8));
        push_char(out, hex_digit_exec((n % 16) as u8));
        proof {
            reveal_strlit("\\u00");
            assert(old(out)@ + "\\u00"@ + seq![hex_digit((c as u32) as int / 16)] + seq![
                hex_digit((c as u32) as int % 16),
            ] =~= old(out)@ + escape_char(c));
        }
    } else {
        push_char(out, c);
        proof {
            assert(old(out)@.push(c) =~= old(out)@ + escape_char(c));
        }
    }
}

/// Appends the escaped form of a whole string.
fn append_escaped(out: &mut String, s: &str)
    ensures
        final(out)@ == old(out)@ + escape_seq(s@),
{
    let len: usize = s.unicode_len();
    let mut i: usize = 0;
    while i < len
        invariant
            len == s@.len(),
            i <= len,
            out@ == old(out)@ + escape_prefix(s@, i as int),
        decreases len - i,
    {
        let c = s.get_char(i);
        push_escaped(out, c);
        proof {
            assert(old(out)@ + escape_prefix(s@, i + 1 as int) =~= (old(out)@ + escape_prefix(
                s@,
                i as int,
            )) + escape_char(s@[i as int]));
        }
        i += 1;
    }
}

/// Appends a JSON string literal: quote, escaped contents, quote.
fn append_json_string(out: &mut String, s: &str)
    ensures
        final(out)@ == old(out)@ + json_string(s@),
{
    out.append("\"");
    append_escaped(out, s);
    out.append("\"");
    proof {
        assert(((old(out)@ + "\""@) + escape_seq(s@)) + "\""@ =~= old(out)@ + json_string(s@));
    }
}

/// The `join_room` frame broadcast when a user joins: the joiner's identity
/// and display metadata, keys in alphabetical order.
pub open spec fn join_frame(u: UserV) -> Seq<char> {
    "{\"avatar_url\":"@ + json_string(u.avatar_url) + ",\"email\":"@ + json_string(u.email)
        + ",\"event\":\"join_room\",\"user_id\":"@ + json_string(u.user_id) + ",\"username\":"@
        + json_string(u.username) + "}"@
}

/// The `leave_room` frame broadcast when a user's connection ends: the
/// user id alone.
pub open spec fn leave_frame(user_id: Seq<char>) -> Seq<char> {
    "{\"event\":\"leave_room\",\"user_id\":"@ + json_string(user_id) + "}"@
}

/// The `typing` frame relayed to a room: who is typing and whether they
/// started or stopped, taken verbatim from the inbound frame.
pub open spec fn typing_frame(t: TypingV) -> Seq<char> {
    "{\"event\":\"typing\",\"is_typing\":"@ + (if t.is_typing {
        "true"@
    } else {
        "false"@
    }) + ",\"user_id\":"@ + json_string(t.user_id) + ",\"username\":"@ + json_string(t.username)
        + "}"@
}

/// The `message_received` frame published for an injected chat message.
pub open spec fn message_frame(m: MessageV) -> Seq<char> {
    "{\"avatar_url\":"@ + json_string(m.avatar_url) + ",\"content\":"@ + json_string(m.content)
        + ",\"event\":\"message_received\",\"user_id\":"@ + json_string(m.user_id)
        + ",\"username\":"@ + json_string(m.username) + "}"@
}

/// One user inside the `get_room_users` snapshot: every field of the
/// presence entry, keys in alphabetical order.
pub open spec fn user_object(u: UserV) -> Seq<char> {
    "{\"avatar_url\":"@ + json_string(u.avatar_url) + ",\"email\":"@ + json_string(u.email)
        + ",\"page_id\":"@ + json_string(u.page_id) + ",\"user_id\":"@ + json_string(u.user_id)
        + ",\"username\":"@ + json_string(u.username) + "}"@
}

/// The first `n` users of the snapshot list, comma separated.
pub open spec fn users_prefix(users: Seq<UserV>, n: int) -> Seq<char>
    decreases n,
{
    if n <= 0 {
        Seq::empty()
    } else if n == 1 {
        user_object(users[0])
    } else {
        users_prefix(users, n - 1) + ","@ + user_object(users[n - 1])
    }
}

/// The `get_room_users` frame sent privately to a joiner: the peers already
/// present, in presence order, without the joiner itself.
pub open spec fn room_users_frame(users: Seq<UserV>) -> Seq<char> {
    "{\"event\":\"get_room_users\",\"users\":["@ + users_prefix(users, users.len() as int) + "]}"@
}

/// Encodes the `join_room` frame for `u`.
pub fn encode_join(u: &ChatUser) -> (r: String)
    ensures
        r@ == join_frame(u@),
{
    let mut out = String::new();
    out.append("{\"avatar_url\":");
    append_json_string(&mut out, u.avatar_url.as_str());
    out.append(",\"email\":");
    append_json_string(&mut out, u.email.as_str());
    out.append(",\"event\":\"join_room\",\"user_id\":");
    append_json_string(&mut out, u.user_id.as_str());
    out.append(",\"username\":");
    append_json_string(&mut out, u.username.as_str());
    out.append("}");
    proof {
        assert(out@ =~= join_frame(u@));
    }
    out
}

/// Encodes the `leave_room` frame for `user_id`.
pub fn encode_leave(user_id: &str) -> (r: String)
    ensures
        r@ == leave_frame(user_id@),
{
    let mut out = String::new();
    out.append("{\"event\":\"leave_room\",\"user_id\":");
    append_json_string(&mut out, user_id);
    out.append("}");
    proof {
        assert(out@ =~= leave_frame(user_id@));
    }
    out
}

/// Encodes the `typing` frame that relays `t`.
pub fn encode_typing(t: &crate::messages::TypingEvent) -> (r: String)
    ensures
        r@ == typing_frame(t@),
{
    let mut out = String::new();
    out.append("{\"event\":\"typing\",\"is_typing\":");
    if t.is_typing {
        out.append("true");
    } else {
        out.append("false");
    }
    out.append(",\"user_id\":");
    append_json_string(&mut out, t.user_id.as_str());
    out.append(",\"username\":");
    append_json_string(&mut out, t.username.as_str());
    out.append("}");
    proof {
        assert(out@ =~= typing_frame(t@));
    }
    out
}

/// Encodes the `message_received` frame for `m`.
pub fn encode_message(m: &Message) -> (r: String)
    ensures
        r@ == message_frame(m@),
{
    let mut out = String::new();
    out.append("{\"avatar_url\":");
    append_json_string(&mut out, m.avatar_url.as_str());
    out.append(",\"content\":");
    append_json_string(&mut out, m.content.as_str());
    out.append(",\"event\":\"message_received\",\"user_id\":");
    append_json_string(&mut out, m.user_id.as_str());
    out.append(",\"username\":");
    append_json_string(&mut out, m.username.as_str());
    out.append("}");
    proof {
        assert(out@ =~= message_frame(m@));
    }
    out
}

/// Appends one snapshot user object.
fn append_user_object(out: &mut String, u: &ChatUser)
    ensures
        final(out)@ == old(out)@ + user_object(u@),
{
    out.append("{\"avatar_url\":");
    append_json_string(out, u.avatar_url.as_str());
    out.append(",\"email\":");
    append_json_string(out, u.email.as_str());
    out.append(",\"page_id\":");
    append_json_string(out, u.page_id.as_str());
    out.append(",\"user_id\":");
    append_json_string(out, u.user_id.as_str());
    out.append(",\"username\":");
    append_json_string(out, u.username.as_str());
    out.append("}");
    proof {
        assert(out@ =~= old(out)@ + user_object(u@));
    }
}

/// Encodes the `get_room_users` snapshot frame for `users`.
pub fn encode_room_users(users: &Vec<ChatUser>) -> (r: String)
    ensures
        r@ == room_users_frame(users.deep_view()),
{
    let mut out = String::new();
    out.append("{\"event\":\"get_room_users\",\"users\":[");
    let ghost head = out@;
    let mut i: usize = 0;
    while i < users.len()
        invariant
            i <= users.len(),
            head == "{\"event\":\"get_room_users\",\"users\":["@,
            out@ == head + users_prefix(users.deep_view(), i as int),
        decreases users.len() - i,
    {
        if i > 0 {
            out.append(",");
        }
        append_user_object(&mut out, &users[i]);
        proof {
            if i == 0 {
                assert(out@ =~= head + users_prefix(users.deep_view(), i + 1 as int));
            } else {
                assert(out@ =~= head + users_prefix(users.deep_view(), i + 1 as int));
            }
        }
        i += 1;
    }
    out.append("]}");
    proof {
        assert(out@ =~= room_users_frame(users.deep_view()));
    }
    out
}

} // verus!
