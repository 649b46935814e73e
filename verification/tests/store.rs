use taskstore::model::{RecurrenceRule, Task};
use taskstore::store::TaskStore;

// 2024-01-31T00:00:00Z and 2024-02-29T00:00:00Z
const JAN_31_2024: u64 = 1_706_659_200_000;
const FEB_29_2024: u64 = 1_709_164_800_000;

fn task(id: &str, text: &str) -> Task {
    Task {
        id: id.to_string(),
        text: text.to_string(),
        completed: false,
        created_at: 1,
        completed_at: None,
        due_date: None,
        include_time: false,
        notification_offset: None,
        priority: None,
        tags: Vec::new(),
        notes: None,
        recurrence_rule: None,
        attachments: Vec::new(),
    }
}

fn monthly_task(id: &str, due: u64) -> Task {
    let mut t = task(id, "recurring");
    t.due_date = Some(due);
    t.recurrence_rule = Some(RecurrenceRule {
        freq: "monthly".to_string(),
        interval: 1,
        week_days: None,
        month_days: None,
    });
    t
}

fn ids(store: &TaskStore) -> Vec<String> {
    store.get_tasks().into_iter().map(|t| t.id).collect()
}

#[test]
fn add_puts_the_new_task_first() {
    let mut s = TaskStore::new();
    s.add_task(task("a", "first"));
    s.add_task(task("b", "second"));
    s.add_task(task("c", "third"));
    assert_eq!(ids(&s), vec!["c", "b", "a"]);
}

#[test]
fn reorder_then_list_returns_the_submitted_order() {
    let mut s = TaskStore::new();
    s.add_task(task("a", "one"));
    s.add_task(task("b", "two"));
    s.add_task(task("c", "three"));
    let mut reordered = s.get_tasks();
    reordered.reverse();
    s.update_tasks_order(reordered);
    assert_eq!(ids(&s), vec!["a", "b", "c"]);
}

#[test]
fn toggle_without_rule_appends_nothing() {
    let mut s = TaskStore::new();
    s.add_task(task("a", "plain"));
    s.toggle_task_with(&"a".to_string(), 42, "unused".to_string());
    let tasks = s.get_tasks();
    assert_eq!(tasks.len(), 1);
    assert!(tasks[0].completed);
    assert_eq!(tasks[0].completed_at, Some(42));
}

#[test]
fn toggle_with_rule_but_no_due_date_appends_nothing() {
    let mut s = TaskStore::new();
    let mut t = monthly_task("a", 0);
    t.due_date = None;
    s.add_task(t);
    s.toggle_task_with(&"a".to_string(), 42, "unused".to_string());
    let tasks = s.get_tasks();
    assert_eq!(tasks.len(), 1);
    assert!(tasks[0].completed);
}

#[test]
fn completing_a_recurring_task_appends_one_follow_up() {
    let mut s = TaskStore::new();
    s.add_task(monthly_task("t1", JAN_31_2024));
    s.toggle_task_with(&"t1".to_string(), 42, "t2".to_string());
    let tasks = s.get_tasks();
    assert_eq!(tasks.len(), 2);
    assert!(tasks[0].completed);
    assert_eq!(tasks[0].completed_at, Some(42));
    let follow = &tasks[1];
    assert_eq!(follow.id, "t2");
    assert!(!follow.completed);
    assert_eq!(follow.completed_at, None);
    assert_eq!(follow.created_at, 42);
    assert_eq!(follow.due_date, Some(FEB_29_2024));
    assert_eq!(follow.text, "recurring");
}

#[test]
fn toggling_twice_restores_and_keeps_the_follow_up() {
    let mut s = TaskStore::new();
    s.add_task(monthly_task("t1", JAN_31_2024));
    s.toggle_task_with(&"t1".to_string(), 42, "t2".to_string());
    s.toggle_task_with(&"t1".to_string(), 43, "t3".to_string());
    let tasks = s.get_tasks();
    assert_eq!(tasks.len(), 2);
    assert!(!tasks[0].completed);
    assert_eq!(tasks[0].completed_at, None);
    assert_eq!(tasks[1].id, "t2");
}

#[test]
fn toggle_with_system_clock_and_fresh_id() {
    let mut s = TaskStore::new();
    s.add_task(monthly_task("t1", JAN_31_2024));
    assert!(s.can_toggle(&"t1".to_string()));
    s.toggle_task(&"t1".to_string());
    let tasks = s.get_tasks();
    assert_eq!(tasks.len(), 2);
    assert!(tasks[0].completed);
    assert!(!tasks[1].completed);
    assert_ne!(tasks[1].id, tasks[0].id);
    assert_eq!(tasks[1].due_date, Some(FEB_29_2024));
}

#[test]
fn toggle_of_an_unknown_id_changes_nothing() {
    let mut s = TaskStore::new();
    s.add_task(task("a", "plain"));
    s.toggle_task_with(&"missing".to_string(), 42, "unused".to_string());
    let tasks = s.get_tasks();
    assert_eq!(tasks.len(), 1);
    assert!(!tasks[0].completed);
}

#[test]
fn update_replaces_in_place() {
    let mut s = TaskStore::new();
    s.add_task(task("a", "one"));
    s.add_task(task("b", "two"));
    let mut replacement = task("a", "one, renamed");
    replacement.priority = Some("high".to_string());
    s.update_task(replacement);
    let tasks = s.get_tasks();
    assert_eq!(ids(&s), vec!["b", "a"]);
    assert_eq!(tasks[1].text, "one, renamed");
    assert_eq!(tasks[1].priority, Some("high".to_string()));
}

#[test]
fn update_of_an_unknown_id_changes_nothing() {
    let mut s = TaskStore::new();
    s.add_task(task("a", "one"));
    s.update_task(task("missing", "ghostly"));
    let tasks = s.get_tasks();
    assert_eq!(tasks.len(), 1);
    assert_eq!(tasks[0].text, "one");
}

#[test]
fn delete_removes_the_matching_task() {
    let mut s = TaskStore::new();
    s.add_task(task("a", "one"));
    s.add_task(task("b", "two"));
    s.delete_task(&"a".to_string());
    assert_eq!(ids(&s), vec!["b"]);
    s.delete_task(&"missing".to_string());
    assert_eq!(ids(&s), vec!["b"]);
}

#[test]
fn reset_clears_everything() {
    let mut s = TaskStore::new();
    s.add_task(task("a", "one"));
    s.add_task(task("b", "two"));
    s.reset_app();
    assert!(s.get_tasks().is_empty());
}

#[test]
fn follow_up_keeps_the_recurrence_rule_and_metadata() {
    let mut s = TaskStore::new();
    let mut t = monthly_task("t1", JAN_31_2024);
    t.tags = vec!["home".to_string(), "monthly".to_string()];
    t.priority = Some("low".to_string());
    s.add_task(t);
    s.toggle_task_with(&"t1".to_string(), 42, "t2".to_string());
    let tasks = s.get_tasks();
    let follow = &tasks[1];
    let rule = follow.recurrence_rule.as_ref().expect("rule kept");
    assert_eq!(rule.freq, "monthly");
    assert_eq!(rule.interval, 1);
    assert_eq!(follow.tags, vec!["home".to_string(), "monthly".to_string()]);
    assert_eq!(follow.priority, Some("low".to_string()));
}

#[test]
fn duplicate_ids_toggle_only_the_first_and_delete_all() {
    let mut s = TaskStore::new();
    s.add_task(task("dup", "second"));
    s.add_task(task("dup", "first"));
    s.toggle_task_with(&"dup".to_string(), 42, "unused".to_string());
    let tasks = s.get_tasks();
    assert!(tasks[0].completed);
    assert!(!tasks[1].completed);
    s.delete_task(&"dup".to_string());
    assert!(s.get_tasks().is_empty());
}

#[test]
fn snapshot_reload_reproduces_the_collection() {
    let mut s = TaskStore::new();
    s.add_task(monthly_task("t1", JAN_31_2024));
    s.add_task(task("t0", "plain"));
    s.toggle_task_with(&"t1".to_string(), 42, "t2".to_string());
    let reloaded = TaskStore::from_loaded(Some(s.get_tasks()));
    let before = s.get_tasks();
    let after = reloaded.get_tasks();
    assert_eq!(before.len(), after.len());
    for (b, a) in before.iter().zip(after.iter()) {
        assert_eq!(b.id, a.id);
        assert_eq!(b.text, a.text);
        assert_eq!(b.completed, a.completed);
        assert_eq!(b.completed_at, a.completed_at);
        assert_eq!(b.due_date, a.due_date);
        assert_eq!(b.created_at, a.created_at);
    }
}

#[test]
fn startup_from_nothing_is_an_empty_collection() {
    let s = TaskStore::from_loaded(None);
    assert!(s.get_tasks().is_empty());
}

#[test]
fn startup_from_a_loaded_collection_keeps_it() {
    let loaded = vec![task("a", "one"), task("b", "two")];
    let s = TaskStore::from_loaded(Some(loaded));
    assert_eq!(ids(&s), vec!["a", "b"]);
}
