use maaweb_server::json::Json;
use maaweb_server::maa::{init_next, CoreEvent, EventHub, InitAction, InitState};
use maaweb_server::maa_core::msg::{name, CONNECTION_INFO, REPORT_REQUEST, TASK_CHAIN_START};

#[test]
fn message_names() {
    assert_eq!(name(0), "InternalError");
    assert_eq!(name(CONNECTION_INFO), "ConnectionInfo");
    assert_eq!(name(TASK_CHAIN_START), "TaskChainStart");
    assert_eq!(name(20004), "SubTaskStopped");
    assert_eq!(name(REPORT_REQUEST), "ReportRequest");
    assert_eq!(name(6), "Unknown");
    assert_eq!(name(-1), "Unknown");
}

#[test]
fn event_from_callback_parses_details() {
    let ev = CoreEvent::from_callback(CONNECTION_INFO, r#"{"what": "Connected"}"#);
    assert_eq!(ev.msg, 2);
    assert_eq!(ev.msg_name, "ConnectionInfo");
    assert_eq!(ev.details, Json::Object(vec![("what".to_string(), Json::Str("Connected".to_string()))]));
    let bad = CoreEvent::from_callback(3, "oops");
    assert_eq!(bad.details, Json::Null);
    assert_eq!(bad.msg_name, "AllTasksCompleted");
}

#[test]
fn event_numbers_keep_their_text() {
    let ev = CoreEvent::from_callback(3, r#"[1, 2.5, true, null]"#);
    assert_eq!(
        ev.details,
        Json::Array(vec![Json::Number("1".to_string()), Json::Number("2.5".to_string()), Json::Bool(true), Json::Null])
    );
}

#[test]
fn subscribers_get_increasing_ids_and_receive_events() {
    let mut hub = EventHub::new();
    let rx1 = hub.subscribe();
    let rx2 = hub.subscribe();
    assert_eq!(hub.subscriber_count(), 2);
    assert_eq!(hub.next_subscriber_id(), 2);
    hub.broadcast(CoreEvent::new(TASK_CHAIN_START, Json::Null));
    assert_eq!(rx1.recv().unwrap().msg_name, "TaskChainStart");
    assert_eq!(rx2.recv().unwrap().msg, TASK_CHAIN_START);
}

#[test]
fn broadcast_drops_gone_subscribers() {
    let mut hub = EventHub::new();
    let rx1 = hub.subscribe();
    let rx2 = hub.subscribe();
    drop(rx1);
    hub.broadcast(CoreEvent::new(3, Json::Null));
    assert_eq!(hub.subscriber_count(), 1);
    assert_eq!(rx2.recv().unwrap().msg, 3);
    assert_eq!(hub.next_subscriber_id(), 2);
}

#[test]
fn keep_delivered_masks_in_order() {
    let mut hub = EventHub::new();
    let _a = hub.subscribe();
    let _b = hub.subscribe();
    let _c = hub.subscribe();
    hub.keep_delivered(&vec![true, false, true]);
    assert_eq!(hub.subscriber_count(), 2);
}

#[test]
fn connection_reports_are_remembered() {
    let mut hub = EventHub::new();
    assert_eq!(hub.last_connection_info(), None);
    hub.broadcast(CoreEvent::from_callback(3, r#"{"x": 1}"#));
    assert_eq!(hub.last_connection_info(), None);
    hub.broadcast(CoreEvent::from_callback(CONNECTION_INFO, r#"{"what": "Connected"}"#));
    assert_eq!(
        hub.last_connection_info(),
        Some(Json::Object(vec![("what".to_string(), Json::Str("Connected".to_string()))]))
    );
}

fn run(user: &str, res: &str, outcomes: &[bool]) -> Vec<InitAction> {
    let mut state = InitState::Start;
    let mut ok = true;
    let mut actions = Vec::new();
    for &o in outcomes {
        let (next, action) = init_next(state, ok, user, res);
        state = next;
        actions.push(action);
        if let InitAction::Finish(_) = action {
            break;
        }
        ok = o;
    }
    actions
}

#[test]
fn init_runs_every_call_when_all_succeed() {
    assert_eq!(
        run("dir", "res", &[true; 6]),
        vec![
            InitAction::LoadLibrary,
            InitAction::SetUserDir,
            InitAction::LoadResource,
            InitAction::CreateInstance,
            InitAction::Finish(true)
        ]
    );
}

#[test]
fn init_skips_empty_directories() {
    assert_eq!(
        run("", "", &[true; 6]),
        vec![InitAction::LoadLibrary, InitAction::CreateInstance, InitAction::Finish(true)]
    );
    assert_eq!(
        run("", "res", &[true; 6]),
        vec![InitAction::LoadLibrary, InitAction::LoadResource, InitAction::CreateInstance, InitAction::Finish(true)]
    );
}

#[test]
fn init_degrades_when_library_does_not_load() {
    assert_eq!(run("dir", "res", &[false, true, true, true]), vec![InitAction::LoadLibrary, InitAction::Finish(false)]);
}

#[test]
fn init_only_warns_on_directory_failures() {
    assert_eq!(
        run("dir", "res", &[true, false, false, true, true]),
        vec![
            InitAction::LoadLibrary,
            InitAction::SetUserDir,
            InitAction::LoadResource,
            InitAction::CreateInstance,
            InitAction::Finish(true)
        ]
    );
}

#[test]
fn init_degrades_when_instance_is_not_created() {
    assert_eq!(
        run("", "", &[true, false, true]),
        vec![InitAction::LoadLibrary, InitAction::CreateInstance, InitAction::Finish(false)]
    );
}
