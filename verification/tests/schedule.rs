use maaweb_server::cron::{CronError, CronTime};
use maaweb_server::json::Json;
use maaweb_server::schedule::{nanos_to_next_check, task_entry, ScheduledTask, Scheduler};

fn task(id: &str, cron: &str, enabled: bool) -> ScheduledTask {
    ScheduledTask {
        id: id.to_string(),
        name: format!("task {id}"),
        cron: cron.to_string(),
        enabled,
        tasks: vec![Json::Object(vec![("task_type".to_string(), Json::Str("Fight".to_string()))])],
    }
}

fn ids(list: &[ScheduledTask]) -> Vec<String> {
    list.iter().map(|t| t.id.clone()).collect()
}

fn at(second: u32, minute: i32, hour: i32) -> CronTime {
    CronTime { second, minute, hour, day: 1, month: 1, weekday: 0 }
}

#[test]
fn add_appends_valid_tasks() {
    let mut s = Scheduler::new(Vec::new());
    assert_eq!(s.add(task("a", "0 9 * * *", true)), Ok(()));
    assert_eq!(s.add(task("b", "* * * * *", true)), Ok(()));
    assert_eq!(ids(&s.list()), vec!["a", "b"]);
}

#[test]
fn add_refuses_bad_cron_and_keeps_list() {
    let mut s = Scheduler::new(vec![task("a", "0 9 * * *", true)]);
    assert_eq!(s.add(task("b", "0 9", true)), Err(CronError::FieldCount));
    assert_eq!(ids(&s.list()), vec!["a"]);
}

#[test]
fn update_replaces_first_task_with_same_id() {
    let mut s = Scheduler::new(vec![task("a", "0 9 * * *", true), task("b", "0 9 * * *", true), task("a", "1 1 * * *", true)]);
    assert_eq!(s.update(task("a", "5 5 * * *", false)), Ok(()));
    let list = s.list();
    assert_eq!(ids(&list), vec!["a", "b", "a"]);
    assert_eq!(list[0].cron, "5 5 * * *");
    assert!(!list[0].enabled);
    assert_eq!(list[2].cron, "1 1 * * *");
}

#[test]
fn update_of_unknown_id_appends() {
    let mut s = Scheduler::new(vec![task("a", "0 9 * * *", true)]);
    assert_eq!(s.update(task("c", "0 9 * * *", true)), Ok(()));
    assert_eq!(ids(&s.list()), vec!["a", "c"]);
}

#[test]
fn update_twice_equals_once() {
    let mut once = Scheduler::new(vec![task("a", "0 9 * * *", true)]);
    once.update(task("a", "1 2 * * *", true)).unwrap();
    let mut twice = Scheduler::new(vec![task("a", "0 9 * * *", true)]);
    twice.update(task("a", "1 2 * * *", true)).unwrap();
    twice.update(task("a", "1 2 * * *", true)).unwrap();
    assert_eq!(once.list(), twice.list());
}

#[test]
fn update_refuses_bad_cron() {
    let mut s = Scheduler::new(vec![task("a", "0 9 * * *", true)]);
    assert_eq!(s.update(task("a", "x * * * *", true)), Err(CronError::InvalidValue("x".to_string())));
    assert_eq!(s.list()[0].cron, "0 9 * * *");
}

#[test]
fn remove_drops_every_task_with_the_id() {
    let mut s = Scheduler::new(vec![task("a", "0 9 * * *", true), task("b", "0 9 * * *", true), task("a", "1 1 * * *", true)]);
    s.remove("a");
    assert_eq!(ids(&s.list()), vec!["b"]);
    s.remove("zzz");
    assert_eq!(ids(&s.list()), vec!["b"]);
}

#[test]
fn remove_undoes_add_of_fresh_id() {
    let before = vec![task("a", "0 9 * * *", true), task("b", "0 9 * * *", true)];
    let mut s = Scheduler::new(before.clone());
    s.add(task("new", "* * * * *", true)).unwrap();
    s.remove("new");
    assert_eq!(s.list(), before);
}

#[test]
fn due_tasks_are_enabled_and_matching_in_order() {
    let s = Scheduler::new(vec![
        task("a", "0 9 * * *", true),
        task("b", "0 9 * * *", false),
        task("c", "* * * * *", true),
        task("d", "1 9 * * *", true),
        task("e", "bad", true),
    ]);
    assert_eq!(ids(&s.due_tasks(at(0, 0, 9))), vec!["a", "c"]);
    assert_eq!(ids(&s.due_tasks(at(0, 1, 9))), vec!["c", "d"]);
}

#[test]
fn due_tasks_are_copies_of_the_list_entries() {
    let s = Scheduler::new(vec![task("a", "0 9 * * *", true)]);
    assert_eq!(s.due_tasks(at(0, 0, 9)), vec![task("a", "0 9 * * *", true)]);
}

#[test]
fn tick_runs_only_in_first_seconds_of_a_minute() {
    let s = Scheduler::new(vec![task("c", "* * * * *", true)]);
    assert_eq!(ids(&s.tick(at(0, 0, 9))), vec!["c"]);
    assert_eq!(ids(&s.tick(at(2, 0, 9))), vec!["c"]);
    assert!(s.tick(at(3, 0, 9)).is_empty());
    assert!(s.tick(at(59, 0, 9)).is_empty());
}

#[test]
fn task_entries_give_type_and_params() {
    let entry = Json::Object(vec![
        ("params".to_string(), Json::Object(vec![("stage".to_string(), Json::Str("1-7".to_string()))])),
        ("task_type".to_string(), Json::Str("Fight".to_string())),
    ]);
    assert_eq!(
        task_entry(&entry),
        Some(("Fight".to_string(), Json::Object(vec![("stage".to_string(), Json::Str("1-7".to_string()))])))
    );
    let bare = Json::Object(vec![("task_type".to_string(), Json::Str("Award".to_string()))]);
    assert_eq!(task_entry(&bare), Some(("Award".to_string(), Json::Null)));
    let untyped = Json::Object(vec![("task_type".to_string(), Json::Number("3".to_string()))]);
    assert_eq!(task_entry(&untyped), None);
    assert_eq!(task_entry(&Json::Null), None);
}

#[test]
fn first_check_waits_for_next_half_minute() {
    assert_eq!(nanos_to_next_check(0, 0), 30_000_000_000);
    assert_eq!(nanos_to_next_check(17, 250_000_000), 12_750_000_000);
    assert_eq!(nanos_to_next_check(45, 0), 15_000_000_000);
    assert_eq!(nanos_to_next_check(59, 999_999_999), 1);
    assert_eq!(nanos_to_next_check(59, 1_500_000_000), 500_000_000);
}
