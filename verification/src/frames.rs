//! The inbound frame router: classifies a raw client frame by its `event`
//! tag and extracts the typing indicator when there is one. Any other tag, a
//! missing tag, wrong field types or a parse failure are silently ignored —
//! a deliberate policy: closing the connection on malformed input would be a
//! worse outcome for a best-effort real-time relay.
//!
//! The frame is read through serde_json; what a given text holds at a given
//! key is named by the two uninterpreted functions below, and the router's
//! own contract is exact over those names.

use vstd::prelude::*;
use crate::messages::{TypingEvent, TypingV};

verus! {

/// The top-level string field of `s` under `key`, when `s` parses as JSON
/// and holds a string there.
pub uninterp spec fn json_str_field(s: Seq<char>, key: Seq<char>) -> Option<Seq<char>>;

/// The top-level boolean field of `s` under `key`, when `s` parses as JSON
/// and holds a boolean there.
pub uninterp spec fn json_bool_field(s: Seq<char>, key: Seq<char>) -> Option<bool>;

/// Relies on `serde_json::from_str` and `serde_json::Value::{get, as_str}`:
/// the result is the top-level string field of `text` under `key`, absent
/// when `text` is not JSON, has no such member, or holds a non-string there.
#[verifier::external_body]
fn get_str_field(text: &str, key: &str) -> (r: Option<String>)
    ensures
        (r is Some) == (json_str_field(text@, key@) is Some),
        r matches Some(v) ==> json_str_field(text@, key@) == Some(v@),
{
    match serde_json::from_str::<serde_json::Value>(text) {
        Ok(value) => value.get(key).and_then(|f| f.as_str()).map(|s| s.to_string()),
        Err(_) => None,
    }
}

/// Relies on `serde_json::from_str` and `serde_json::Value::{get, as_bool}`:
/// the result is the top-level boolean field of `text` under `key`, absent
/// when `text` is not JSON, has no such member, or holds a non-boolean there.
#[verifier::external_body]
fn get_bool_field(text: &str, key: &str) -> (r: Option<bool>)
    ensures
        r == json_bool_field(text@, key@),
{
    match serde_json::from_str::<serde_json::Value>(text) {
        Ok(value) => value.get(key).and_then(|f| f.as_bool()),
        Err(_) => None,
    }
}

/// Whether `s` is a frame the router relays: a JSON object whose `event`
/// tag is `typing`, with a string `user_id`, a string `username` and a
/// boolean `is_typing`.
pub open spec fn frame_is_typing(s: Seq<char>) -> bool {
    &&& json_str_field(s, "event"@) == Some("typing"@)
    &&& json_str_field(s, "user_id"@) is Some
    &&& json_str_field(s, "username"@) is Some
    &&& json_bool_field(s, "is_typing"@) is Some
}

/// The typing indicator carried by `s`, when `s` is a typing frame.
pub open spec fn routed_typing(s: Seq<char>) -> Option<TypingV> {
    if frame_is_typing(s) {
        Some(
            TypingV {
                event: json_str_field(s, "event"@)->Some_0,
                is_typing: json_bool_field(s, "is_typing"@)->Some_0,
                user_id: json_str_field(s, "user_id"@)->Some_0,
                username: json_str_field(s, "username"@)->Some_0,
            },
        )
    } else {
        None
    }
}

/// Classifies an inbound frame. Returns the typing indicator to relay,
/// verbatim, when `text` is a typing frame, and nothing otherwise.
pub fn route_frame(text: &str) -> (r: Option<TypingEvent>)
    ensures
        (r is Some) == (routed_typing(text@) is Some),
        r matches Some(t) ==> routed_typing(text@) == Some(t@),
{
    let tag = match get_str_field(text, "event") {
        Some(tag) => tag,
        None => {
            return None;
        },
    };
    if !(tag == String::from_str("typing")) {
        proof {
            assert(json_str_field(text@, "event"@) != Some("typing"@));
        }
        return None;
    }
    let user_id = match get_str_field(text, "user_id") {
        Some(v) => v,
        None => {
            return None;
        },
    };
    let username = match get_str_field(text, "username") {
        Some(v) => v,
        None => {
            return None;
        },
    };
    let is_typing = match get_bool_field(text, "is_typing") {
        Some(v) => v,
        None => {
            return None;
        },
    };
    Some(TypingEvent { event: tag, is_typing, user_id, username })
}

} // verus!
