use yawmak::display::Display;
use yawmak::error::{error_hint, mentions, TodoError};
use yawmak::search::Search;
use yawmak::task::Task;

fn sample_tasks() -> Vec<Task> {
    vec![
        Task::new(
            "Write report",
            "Work".to_string(),
            Some("2024-12-31".to_string()),
            vec!["urgent".to_string(), "deep".to_string()],
            5,
        ),
        Task::new("Water plants", "Home".to_string(), None, vec![], 0),
    ]
}

#[test]
fn task_table_has_header_and_cells() {
    let rows = Display::show_tasks(&sample_tasks(), false);
    assert_eq!(rows.len(), 3);
    assert_eq!(
        rows[0],
        vec!["ID", "Name", "Category", "Tags", "Due Date", "Done", "Priority"]
    );
    assert_eq!(
        rows[1],
        vec!["0", "Write report", "Work", "urgent, deep", "2024-12-31", "false", "5"]
    );
    assert_eq!(rows[2], vec!["0", "Water plants", "Home", "", "", "false", "0"]);
}

#[test]
fn task_table_shows_completion_dates_when_asked() {
    let rows = Display::show_tasks(&sample_tasks(), true);
    assert_eq!(rows[0].len(), 8);
    assert_eq!(rows[0][7], "Completion Date");
    assert_eq!(rows[1][7], "");
}

#[test]
fn category_and_tag_tables() {
    let names = vec!["Work".to_string(), "Home".to_string()];
    let rows = Display::show_categories(&names);
    assert_eq!(rows, vec![vec!["Category"], vec!["Work"], vec!["Home"]]);
    let tags = vec!["urgent".to_string()];
    assert_eq!(Display::show_tags(&tags), vec![vec!["Tag"], vec!["urgent"]]);
}

#[test]
fn search_matches_name_category_and_tags() {
    let tasks = sample_tasks();
    assert_eq!(Search::find_tasks(&tasks, "report").len(), 1);
    assert_eq!(Search::find_tasks(&tasks, "Home").len(), 1);
    assert_eq!(Search::find_tasks(&tasks, "urgent").len(), 1);
    assert_eq!(Search::find_tasks(&tasks, "W").len(), 2);
    assert_eq!(Search::find_tasks(&tasks, "nothing").len(), 0);
    assert_eq!(Search::find_tasks(&tasks, "REPORT").len(), 0);
}

#[test]
fn messages_describe_each_error_kind() {
    let store = TodoError::Store("boom".to_string());
    assert_eq!(
        store.message(),
        "A database error occurred: boom. Please ensure your database setup is correct."
    );
    let gdal = TodoError::Store("GDAL Error: lost file".to_string());
    assert!(gdal.message().starts_with("There was an issue with file access:"));
    let io = TodoError::Io("broken pipe".to_string());
    assert!(io.message().contains("input/output"));
    let custom = TodoError::Custom("just so".to_string());
    assert_eq!(custom.message(), "just so");
    assert_eq!(
        TodoError::NotFound.message(),
        "The requested item was not found."
    );
}

#[test]
fn hints_match_known_patterns_in_order() {
    assert_eq!(
        error_hint("IO Error: No such file or directory"),
        Some("File not found. Check the path and try again.".to_string())
    );
    assert_eq!(
        error_hint("Constraint Error: duplicate key"),
        Some("This item already exists. Please check your input.".to_string())
    );
    assert_eq!(
        error_hint("violates FOREIGN KEY constraint"),
        Some("This item already exists. Please check your input.".to_string())
    );
    assert_eq!(
        error_hint("GDAL Error: cannot open"),
        Some("GDAL issue occurred. Check file permissions and existence.".to_string())
    );
    assert_eq!(error_hint("something else entirely"), None);
}

#[test]
fn mentions_ignores_ascii_case() {
    assert!(mentions("Violates FOREIGN KEY constraint", "foreign key"));
    assert!(mentions("CONSTRAINT failed", "constraint"));
    assert!(!mentions("all fine", "constraint"));
}
