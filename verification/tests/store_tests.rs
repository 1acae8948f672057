use yawmak::date::Date;
use yawmak::error::TodoError;
use yawmak::store::{Database, Strategy, TaskRow};
use yawmak::task::Task;

fn sample_task() -> Task {
    Task::new(
        "Write report",
        "Work".to_string(),
        Some("2024-12-31".to_string()),
        vec!["urgent".to_string(), "important".to_string()],
        5,
    )
}

#[test]
fn add_then_list_returns_the_same_fields() {
    let mut db = Database::new();
    db.add_task(sample_task()).unwrap();
    let tasks = db.get_tasks(None).unwrap();
    assert_eq!(tasks.len(), 1);
    let t = &tasks[0];
    assert_eq!(t.id, 1);
    assert_eq!(t.name, "Write report");
    assert_eq!(t.category, Some("Work".to_string()));
    assert_eq!(t.tags, vec!["urgent".to_string(), "important".to_string()]);
    assert_eq!(t.due_date, Some(Date::from_ymd(2024, 12, 31).unwrap()));
    assert_eq!(t.priority, 5);
    assert!(!t.done);
    assert!(t.completion_date.is_none());
}

#[test]
fn add_registers_category_and_tags() {
    let mut db = Database::new();
    db.add_task(sample_task()).unwrap();
    assert_eq!(db.list_categories().unwrap(), vec!["Work".to_string()]);
    assert_eq!(
        db.list_tags().unwrap(),
        vec!["urgent".to_string(), "important".to_string()]
    );
    assert_eq!(db.get_category_id("Work").unwrap(), 1);
    assert_eq!(db.get_tag_id("important").unwrap(), 2);
}

#[test]
fn listing_filters_by_done_status() {
    let mut db = Database::new();
    db.add_task(sample_task()).unwrap();
    db.add_task(Task::new("Other", "Home".to_string(), None, vec![], 0))
        .unwrap();
    let today = Date::from_ymd(2025, 1, 1).unwrap();
    db.mark_task_done(1, today).unwrap();
    let done = db.get_tasks(Some(true)).unwrap();
    assert_eq!(done.len(), 1);
    assert_eq!(done[0].id, 1);
    let open = db.get_tasks(Some(false)).unwrap();
    assert_eq!(open.len(), 1);
    assert_eq!(open[0].id, 2);
}

#[test]
fn mark_done_sets_flag_and_completion_date() {
    let mut db = Database::new();
    db.add_task(sample_task()).unwrap();
    let today = Date::from_ymd(2025, 3, 4).unwrap();
    db.mark_task_done(1, today).unwrap();
    let t = &db.get_tasks(None).unwrap()[0];
    assert!(t.done);
    assert_eq!(t.completion_date, Some(today));
}

#[test]
fn mark_undone_clears_flag_and_completion_date() {
    let mut db = Database::new();
    db.add_task(sample_task()).unwrap();
    let today = Date::from_ymd(2025, 3, 4).unwrap();
    db.mark_task_done(1, today).unwrap();
    db.update_task(1, None, None, None, vec![], None, true).unwrap();
    let t = &db.get_tasks(None).unwrap()[0];
    assert!(!t.done);
    assert!(t.completion_date.is_none());
}

#[test]
fn partial_update_leaves_other_fields_alone() {
    let mut db = Database::new();
    db.add_task(sample_task()).unwrap();
    db.update_task(1, None, None, None, vec![], Some(9), false)
        .unwrap();
    let t = &db.get_tasks(None).unwrap()[0];
    assert_eq!(t.priority, 9);
    assert_eq!(t.name, "Write report");
    assert_eq!(t.category, Some("Work".to_string()));
    assert_eq!(t.tags, vec!["urgent".to_string(), "important".to_string()]);
    assert_eq!(t.due_date, Some(Date::from_ymd(2024, 12, 31).unwrap()));
    assert!(!t.done);
}

#[test]
fn update_replaces_given_fields() {
    let mut db = Database::new();
    db.add_task(sample_task()).unwrap();
    db.update_task(
        1,
        Some("Edited".to_string()),
        Some("2025-06-07".to_string()),
        Some("Home".to_string()),
        vec!["x, y".to_string()],
        None,
        false,
    )
    .unwrap();
    let t = &db.get_tasks(None).unwrap()[0];
    assert_eq!(t.name, "Edited");
    assert_eq!(t.due_date, Some(Date::from_ymd(2025, 6, 7).unwrap()));
    assert_eq!(t.category, Some("Home".to_string()));
    assert_eq!(t.tags, vec!["x".to_string(), "y".to_string()]);
    assert_eq!(t.priority, 5);
    assert!(db.list_categories().unwrap().contains(&"Home".to_string()));
    assert!(db.list_tags().unwrap().contains(&"y".to_string()));
}

#[test]
fn update_of_unknown_id_changes_nothing() {
    let mut db = Database::new();
    db.add_task(sample_task()).unwrap();
    db.update_task(42, Some("Ghost".to_string()), None, None, vec![], None, false)
        .unwrap();
    let t = &db.get_tasks(None).unwrap()[0];
    assert_eq!(t.name, "Write report");
}

#[test]
fn get_task_tags_by_id() {
    let mut db = Database::new();
    db.add_task(sample_task()).unwrap();
    assert_eq!(
        db.get_task_tags(1).unwrap(),
        vec!["urgent".to_string(), "important".to_string()]
    );
    assert_eq!(db.get_task_tags(9).unwrap(), Vec::<String>::new());
}

#[test]
fn category_and_tag_tables_ignore_duplicates() {
    let mut db = Database::new();
    db.add_category("Work").unwrap();
    db.add_category("Work").unwrap();
    db.add_tag("urgent").unwrap();
    db.add_tag("urgent").unwrap();
    assert_eq!(db.list_categories().unwrap(), vec!["Work".to_string()]);
    assert_eq!(db.list_tags().unwrap(), vec!["urgent".to_string()]);
}

#[test]
fn missing_names_report_not_found() {
    let db = Database::new();
    assert!(matches!(db.get_category_id("nope"), Err(TodoError::NotFound)));
    assert!(matches!(db.get_tag_id("nope"), Err(TodoError::NotFound)));
}

#[test]
fn deleting_a_used_category_is_refused() {
    let mut db = Database::new();
    db.add_task(sample_task()).unwrap();
    let e = db.delete_category("Work").unwrap_err();
    match e {
        TodoError::Store(m) => assert!(m.contains("foreign key")),
        _ => panic!("expected a store error"),
    }
    assert_eq!(db.list_categories().unwrap(), vec!["Work".to_string()]);
}

#[test]
fn deleting_an_unused_category_works() {
    let mut db = Database::new();
    db.add_category("Spare").unwrap();
    db.delete_category("Spare").unwrap();
    assert_eq!(db.list_categories().unwrap(), Vec::<String>::new());
    db.delete_category("Absent").unwrap();
}

#[test]
fn deleting_a_used_tag_is_refused() {
    let mut db = Database::new();
    db.add_task(sample_task()).unwrap();
    assert!(db.delete_tag("urgent").is_err());
    db.add_tag("spare").unwrap();
    db.delete_tag("spare").unwrap();
    assert_eq!(
        db.list_tags().unwrap(),
        vec!["urgent".to_string(), "important".to_string()]
    );
}

fn row(id: i32, name: &str, done: bool, priority: i32) -> TaskRow {
    TaskRow {
        id,
        name: name.to_string(),
        done,
        due_date: None,
        completion_date: None,
        priority,
    }
}

#[test]
fn import_skip_keeps_existing_rows() {
    let mut db = Database::new();
    db.add_task(sample_task()).unwrap();
    db.import_rows(vec![row(1, "Intruder", true, 9), row(7, "New", false, 2)], Strategy::Skip)
        .unwrap();
    let tasks = db.get_tasks(None).unwrap();
    assert_eq!(tasks.len(), 2);
    assert_eq!(tasks[0].name, "Write report");
    assert_eq!(tasks[0].priority, 5);
    assert!(!tasks[0].done);
    assert_eq!(tasks[1].id, 7);
    assert_eq!(tasks[1].name, "New");
}

#[test]
fn import_upsert_replaces_matching_rows() {
    let mut db = Database::new();
    db.add_task(sample_task()).unwrap();
    db.import_rows(vec![row(1, "Replaced", true, 9)], Strategy::Upsert)
        .unwrap();
    let tasks = db.get_tasks(None).unwrap();
    assert_eq!(tasks.len(), 1);
    assert_eq!(tasks[0].name, "Replaced");
    assert_eq!(tasks[0].priority, 9);
    assert!(tasks[0].done);
    assert_eq!(tasks[0].category, Some("Work".to_string()));
    assert_eq!(
        tasks[0].tags,
        vec!["urgent".to_string(), "important".to_string()]
    );
}

#[test]
fn import_remove_appends_under_fresh_ids() {
    let mut db = Database::new();
    db.add_task(sample_task()).unwrap();
    db.import_rows(vec![row(1, "Copy A", false, 1), row(1, "Copy B", false, 2)], Strategy::Remove)
        .unwrap();
    let tasks = db.get_tasks(None).unwrap();
    assert_eq!(tasks.len(), 3);
    assert_eq!(tasks[1].id, 2);
    assert_eq!(tasks[1].name, "Copy A");
    assert_eq!(tasks[2].id, 3);
    assert_eq!(tasks[2].name, "Copy B");
}

#[test]
fn export_then_import_reproduces_the_rows() {
    let mut db = Database::new();
    db.add_task(sample_task()).unwrap();
    db.add_task(Task::new("Second", "Home".to_string(), None, vec![], 2))
        .unwrap();
    db.mark_task_done(2, Date::from_ymd(2025, 1, 1).unwrap()).unwrap();
    let rows = db.export_rows();

    let mut fresh = Database::new();
    fresh.import_rows(rows, Strategy::Skip).unwrap();
    let original = db.get_tasks(None).unwrap();
    let restored = fresh.get_tasks(None).unwrap();
    assert_eq!(restored.len(), original.len());
    for (a, b) in original.iter().zip(restored.iter()) {
        assert_eq!(a.id, b.id);
        assert_eq!(a.name, b.name);
        assert_eq!(a.done, b.done);
        assert_eq!(a.due_date, b.due_date);
        assert_eq!(a.completion_date, b.completion_date);
        assert_eq!(a.priority, b.priority);
    }
}

#[test]
fn import_bumps_the_next_id_past_imported_rows() {
    let mut db = Database::new();
    db.import_rows(vec![row(10, "Ten", false, 0)], Strategy::Skip).unwrap();
    db.add_task(sample_task()).unwrap();
    let tasks = db.get_tasks(None).unwrap();
    assert_eq!(tasks[1].id, 11);
}
