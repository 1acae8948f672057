use yawmak::date::Date;
use yawmak::task::Task;

#[test]
fn test_create_task() {
    let name = "Test Task";
    let category = "Work".to_string();
    let due_date = Some("2024-12-31".to_string());
    let tags = vec!["urgent".to_string(), "important".to_string()];
    let priority = 5;

    let task = Task::new(
        name,
        category.clone(),
        due_date.clone(),
        tags.clone(),
        priority,
    );

    assert_eq!(task.name, name);
    assert_eq!(task.category, Some(category));
    assert_eq!(task.tags, tags);
    assert_eq!(task.done, false);
    assert_eq!(task.due_date, Some(Date::from_ymd(2024, 12, 31).unwrap()));
    assert_eq!(task.priority, priority);
    assert!(task.completion_date.is_none());
}

#[test]
fn test_task_with_no_due_date() {
    let name = "Test Task";
    let category = "Work".to_string();
    let due_date: Option<String> = None;
    let tags = vec![];
    let priority = 0;

    let task = Task::new(
        name,
        category.clone(),
        due_date.clone(),
        tags.clone(),
        priority,
    );

    assert_eq!(task.name, name);
    assert_eq!(task.category, Some(category));
    assert_eq!(task.tags, tags);
    assert_eq!(task.done, false);
    assert!(task.due_date.is_none());
    assert_eq!(task.priority, priority);
    assert!(task.completion_date.is_none());
}

#[test]
fn task_clone_copies_every_field() {
    let task = Task::new(
        "Draft",
        "Home".to_string(),
        Some("2025-01-02".to_string()),
        vec!["a".to_string(), "b".to_string()],
        3,
    );
    let copy = task.clone();
    assert_eq!(copy.name, task.name);
    assert_eq!(copy.category, task.category);
    assert_eq!(copy.tags, task.tags);
    assert_eq!(copy.done, task.done);
    assert_eq!(copy.due_date, task.due_date);
    assert_eq!(copy.completion_date, task.completion_date);
    assert_eq!(copy.priority, task.priority);
}
