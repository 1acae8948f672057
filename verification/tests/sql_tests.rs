use yawmak::error::TodoError;
use yawmak::sql::{
    escape_sql_literal, export_command, import_command, insert_task_params, parse_format,
    parse_strategy, select_tasks_sql, update_task_command, Format, SqlParam, INSERT_TASK_SQL,
};
use yawmak::store::Strategy;
use yawmak::task::Task;

#[test]
fn format_tokens_parse() {
    assert_eq!(parse_format("json"), Some(Format::Json));
    assert_eq!(parse_format("parquet"), Some(Format::Parquet));
    assert_eq!(parse_format("xlsx"), Some(Format::Xlsx));
    assert_eq!(parse_format("csv"), Some(Format::Csv));
    assert_eq!(parse_format("yaml"), None);
    assert_eq!(parse_format("JSON"), None);
}

#[test]
fn strategy_tokens_parse() {
    assert_eq!(parse_strategy("skip"), Some(Strategy::Skip));
    assert_eq!(parse_strategy("remove"), Some(Strategy::Remove));
    assert_eq!(parse_strategy("upsert"), Some(Strategy::Upsert));
    assert_eq!(parse_strategy("merge"), None);
}

#[test]
fn escaping_doubles_single_quotes() {
    assert_eq!(escape_sql_literal("plain.json"), "plain.json");
    assert_eq!(escape_sql_literal("o'brien.csv"), "o''brien.csv");
    assert_eq!(escape_sql_literal("''"), "''''");
}

#[test]
fn import_commands_per_strategy() {
    assert_eq!(
        import_command(Format::Json, "data.json", "skip").unwrap(),
        "INSERT OR IGNORE INTO todos SELECT * FROM read_json_auto('data.json')"
    );
    assert_eq!(
        import_command(Format::Csv, "data.csv", "upsert").unwrap(),
        "INSERT OR REPLACE INTO todos SELECT * FROM read_csv_auto('data.csv')"
    );
    assert_eq!(
        import_command(Format::Parquet, "data.parquet", "remove").unwrap(),
        "COPY todos (task, done, due_date, completion_date, priority) FROM 'data.parquet' (FORMAT PARQUET)"
    );
    assert_eq!(
        import_command(Format::Xlsx, "book.xlsx", "remove").unwrap(),
        "INSERT INTO todos (task, done, due_date, completion_date, priority) SELECT task, done, due_date, completion_date, priority FROM read_xlsx('book.xlsx')"
    );
}

#[test]
fn import_escapes_the_path() {
    assert_eq!(
        import_command(Format::Json, "o'brien.json", "skip").unwrap(),
        "INSERT OR IGNORE INTO todos SELECT * FROM read_json_auto('o''brien.json')"
    );
}

#[test]
fn unknown_strategy_is_refused() {
    let e = import_command(Format::Json, "data.json", "merge").unwrap_err();
    match e {
        TodoError::Custom(m) => assert_eq!(m, "Unsupported strategy"),
        _ => panic!("expected a custom error"),
    }
}

#[test]
fn export_commands_per_format() {
    assert_eq!(
        export_command(Format::Json, "out.json"),
        "COPY (SELECT * FROM todos) TO 'out.json' (FORMAT JSON)"
    );
    assert_eq!(
        export_command(Format::Csv, "out.csv"),
        "COPY (SELECT * FROM todos) TO 'out.csv' (FORMAT CSV, HEADER)"
    );
    assert_eq!(
        export_command(Format::Parquet, "out.parquet"),
        "COPY (SELECT * FROM todos) TO 'out.parquet' (FORMAT PARQUET)"
    );
    let xlsx = export_command(Format::Xlsx, "out.xlsx");
    assert!(xlsx.starts_with("COPY (SELECT t.*, c.name as category,"));
    assert!(xlsx.ends_with("TO 'out.xlsx' (FORMAT XLSX, HEADER true)"));
}

#[test]
fn update_command_joins_the_given_pieces() {
    let (sql, params) = update_task_command(
        7,
        &Some("New name".to_string()),
        &Some("2025-01-02".to_string()),
        Some(4),
        false,
    )
    .unwrap();
    assert_eq!(
        sql,
        "UPDATE todos SET task = ?, due_date = ?, priority = ? WHERE id = ?"
    );
    assert_eq!(params.len(), 4);
    assert!(matches!(&params[0], SqlParam::Text(s) if s == "New name"));
    assert!(matches!(&params[1], SqlParam::Text(s) if s == "2025-01-02"));
    assert!(matches!(params[2], SqlParam::Int(4)));
    assert!(matches!(params[3], SqlParam::Int(7)));
}

#[test]
fn update_command_for_undone_alone() {
    let (sql, params) = update_task_command(3, &None, &None, None, true).unwrap();
    assert_eq!(
        sql,
        "UPDATE todos SET done = 0, completion_date = NULL WHERE id = ?"
    );
    assert_eq!(params.len(), 1);
    assert!(matches!(params[0], SqlParam::Int(3)));
}

#[test]
fn update_command_without_changes_is_none() {
    assert!(update_task_command(1, &None, &None, None, false).is_none());
}

#[test]
fn insert_params_carry_name_date_and_priority() {
    let task = Task::new(
        "Report",
        "Work".to_string(),
        Some("2024-12-31".to_string()),
        vec![],
        5,
    );
    let params = insert_task_params(&task);
    assert_eq!(params.len(), 3);
    assert!(matches!(&params[0], SqlParam::Text(s) if s == "Report"));
    assert!(matches!(&params[1], SqlParam::Text(s) if s == "2024-12-31"));
    assert!(matches!(params[2], SqlParam::Int(5)));
    assert!(INSERT_TASK_SQL.contains("RETURNING id"));

    let undated = Task::new("Loose", "Work".to_string(), None, vec![], 0);
    let params2 = insert_task_params(&undated);
    assert!(matches!(params2[1], SqlParam::Null));
}

#[test]
fn listing_queries_filter_by_done() {
    assert!(select_tasks_sql(Some(true)).ends_with("WHERE t.done = 1"));
    assert!(select_tasks_sql(Some(false)).ends_with("WHERE t.done = 0"));
    assert!(!select_tasks_sql(None).contains("WHERE"));
}
