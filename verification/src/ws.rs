//! What the WebSocket event stream does with a message from the browser.

use vstd::prelude::*;
use crate::json::{Json, JsonView};
use crate::maa::CoreEvent;
use crate::text::{i32_text, int_text};

verus! {

/// A message received from the browser.
pub enum ClientMessage {
    /// The browser closes the socket.
    Close,
    /// A text frame.
    Text(String),
    /// Any other frame (binary, ping, pong).
    Other,
}

/// What the server does in answer.
#[derive(Debug, PartialEq, Eq)]
pub enum SocketAction {
    /// Send this text frame back.
    Reply(String),
    /// Stop streaming.
    Stop,
    /// Nothing.
    Ignore,
}

/// The answer to a browser message: a close ends the stream, the keep-alive
/// text `ping` is answered with `pong`, anything else is ignored.
pub fn on_client_message(msg: &ClientMessage) -> (res: SocketAction)
    ensures
        match msg {
            ClientMessage::Close => res == SocketAction::Stop,
            ClientMessage::Text(t) => if t@ == "ping"@ {
                res matches SocketAction::Reply(r) && r@ == "pong"@
            } else {
                res == SocketAction::Ignore
            },
            ClientMessage::Other => res == SocketAction::Ignore,
        },
{
    match msg {
        ClientMessage::Close => SocketAction::Stop,
        ClientMessage::Text(t) => {
            if *t == "ping".to_string() {
                SocketAction::Reply("pong".to_string())
            } else {
                SocketAction::Ignore
            }
        },
        ClientMessage::Other => SocketAction::Ignore,
    }
}


/// A JSON string value.
fn json_str(s: String) -> (res: Json)
    ensures
        res@ == JsonView::Str(s@),
{
    Json::Str(s)
}

/// An object built from its members, in the given order.
fn json_object(entries: Vec<(String, Json)>) -> (res: Json)
    ensures
        res@ == JsonView::Object(entries@.map_values(|e: (String, Json)| (e.0@, e.1@))),
{
    let res = Json::Object(entries);
    assert(res@ == JsonView::Object(entries@.map_values(|e: (String, Json)| (e.0@, e.1@)))) by {
        if let JsonView::Object(es) = res@ {
            assert(es =~= entries@.map_values(|e: (String, Json)| (e.0@, e.1@)));
        }
    }
    res
}

/// The greeting sent when a browser connects: `{"type": "hello", "version": ...}`.
pub fn hello_message(version: String) -> (res: Json)
    ensures
        res@ == JsonView::Object(
            seq![("type"@, JsonView::Str("hello"@)), ("version"@, JsonView::Str(version@))],
        ),
{
    let ghost v = version@;
    let mut entries: Vec<(String, Json)> = Vec::new();
    entries.push(("type".to_string(), json_str("hello".to_string())));
    entries.push(("version".to_string(), json_str(version)));
    let res = json_object(entries);
    assert(entries@.map_values(|e: (String, Json)| (e.0@, e.1@)) =~= seq![
        ("type"@, JsonView::Str("hello"@)),
        ("version"@, JsonView::Str(v)),
    ]);
    res
}

/// The frame that streams a MaaCore event: `{"details": ..., "msg": <name>,
/// "msg_id": <id>, "type": "event"}`.
pub fn event_message(event: &CoreEvent) -> (res: Json)
    ensures
        res@ == JsonView::Object(
            seq![
                ("details"@, event.details@),
                ("msg"@, JsonView::Str(event.msg_name@)),
                ("msg_id"@, JsonView::Number(int_text(event.msg as int))),
                ("type"@, JsonView::Str("event"@)),
            ],
        ),
{
    let mut entries: Vec<(String, Json)> = Vec::new();
    entries.push(("details".to_string(), event.details.copy()));
    entries.push(("msg".to_string(), json_str(event.msg_name.clone())));
    let id_text = i32_text(event.msg);
    let id = Json::Number(id_text);
    assert(id@ == JsonView::Number(int_text(event.msg as int)));
    entries.push(("msg_id".to_string(), id));
    entries.push(("type".to_string(), json_str("event".to_string())));
    let res = json_object(entries);
    assert(entries@.map_values(|e: (String, Json)| (e.0@, e.1@)) =~= seq![
        ("details"@, event.details@),
        ("msg"@, JsonView::Str(event.msg_name@)),
        ("msg_id"@, JsonView::Number(int_text(event.msg as int))),
        ("type"@, JsonView::Str("event"@)),
    ]);
    res
}

} // verus!
