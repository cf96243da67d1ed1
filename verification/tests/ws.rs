use maaweb_server::json::Json;
use maaweb_server::maa::CoreEvent;
use maaweb_server::ws::{event_message, hello_message, on_client_message, ClientMessage, SocketAction};

#[test]
fn ping_is_answered_with_pong() {
    assert_eq!(on_client_message(&ClientMessage::Text("ping".to_string())), SocketAction::Reply("pong".to_string()));
}

#[test]
fn close_stops_and_other_messages_are_ignored() {
    assert_eq!(on_client_message(&ClientMessage::Close), SocketAction::Stop);
    assert_eq!(on_client_message(&ClientMessage::Text("PING".to_string())), SocketAction::Ignore);
    assert_eq!(on_client_message(&ClientMessage::Text("ping ".to_string())), SocketAction::Ignore);
    assert_eq!(on_client_message(&ClientMessage::Other), SocketAction::Ignore);
}

fn s(x: &str) -> String {
    x.to_string()
}

#[test]
fn hello_frame() {
    assert_eq!(
        hello_message(s("v5.10.0")),
        Json::Object(vec![(s("type"), Json::Str(s("hello"))), (s("version"), Json::Str(s("v5.10.0")))])
    );
}

#[test]
fn event_frame() {
    let ev = CoreEvent::new(10001, Json::Object(vec![(s("taskchain"), Json::Str(s("Fight")))]));
    assert_eq!(
        event_message(&ev),
        Json::Object(vec![
            (s("details"), Json::Object(vec![(s("taskchain"), Json::Str(s("Fight")))])),
            (s("msg"), Json::Str(s("TaskChainStart"))),
            (s("msg_id"), Json::Number(s("10001"))),
            (s("type"), Json::Str(s("event"))),
        ])
    );
    let odd = CoreEvent::new(-7, Json::Null);
    assert_eq!(
        event_message(&odd),
        Json::Object(vec![
            (s("details"), Json::Null),
            (s("msg"), Json::Str(s("Unknown"))),
            (s("msg_id"), Json::Number(s("-7"))),
            (s("type"), Json::Str(s("event"))),
        ])
    );
}
