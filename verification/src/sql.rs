//! The SQL statements the front end hands to the embedded database
//! engine, built here so that what runs is exactly what is stated.
//! Values travel as bound parameters; a file path woven into a bulk
//! command has its quotes doubled first.

use vstd::prelude::*;
use crate::error::TodoError;
use crate::store::Strategy;
use crate::task::Task;
use crate::date::{spec_format_date, format_date};
use crate::display::task_dates_wf;
use crate::text::{str_eq, spec_join_cs, join_comma_space};

verus! {

/// Settings and extensions loaded when the store is opened.
pub const SETUP_SQL: &'static str = "SET logging_level='error'; SET enable_progress_bar=false; INSTALL excel; INSTALL parquet; LOAD excel; LOAD parquet;";

/// The schema: the task table, the category and tag tables, and the
/// two junction tables.
pub const SCHEMA_SQL: &'static str = "BEGIN; CREATE TABLE IF NOT EXISTS todos (id INTEGER PRIMARY KEY, task TEXT NOT NULL, done BOOLEAN NOT NULL DEFAULT 0, due_date DATE, completion_date DATE, priority INTEGER DEFAULT 0); CREATE TABLE IF NOT EXISTS categories (id INTEGER PRIMARY KEY, name TEXT UNIQUE NOT NULL); CREATE TABLE IF NOT EXISTS tags (id INTEGER PRIMARY KEY, name TEXT UNIQUE NOT NULL); CREATE TABLE IF NOT EXISTS todo_categories (todo_id INTEGER, category_id INTEGER, FOREIGN KEY(todo_id) REFERENCES todos(id), FOREIGN KEY(category_id) REFERENCES categories(id)); CREATE TABLE IF NOT EXISTS todo_tags (todo_id INTEGER, tag_id INTEGER, FOREIGN KEY(todo_id) REFERENCES todos(id), FOREIGN KEY(tag_id) REFERENCES tags(id)); COMMIT;";

pub const INSERT_TASK_SQL: &'static str = "INSERT INTO todos (task, due_date, priority) VALUES (?1, ?2, ?3) RETURNING id";

pub const LINK_CATEGORY_SQL: &'static str = "INSERT INTO todo_categories (todo_id, category_id) VALUES (?1, ?2)";

pub const LINK_TAG_SQL: &'static str = "INSERT INTO todo_tags (todo_id, tag_id) VALUES (?1, ?2)";

pub const UNLINK_CATEGORIES_SQL: &'static str = "DELETE FROM todo_categories WHERE todo_id = ?1";

pub const UNLINK_TAGS_SQL: &'static str = "DELETE FROM todo_tags WHERE todo_id = ?1";

pub const TASK_TAGS_SQL: &'static str = "SELECT t.name FROM tags t JOIN todo_tags tt ON t.id = tt.tag_id WHERE tt.todo_id = ?1";

pub const CATEGORY_ID_SQL: &'static str = "SELECT id FROM categories WHERE name = ?1";

pub const TAG_ID_SQL: &'static str = "SELECT id FROM tags WHERE name = ?1";

pub const ADD_CATEGORY_SQL: &'static str = "INSERT OR IGNORE INTO categories (name) VALUES (?1)";

pub const DELETE_CATEGORY_SQL: &'static str = "DELETE FROM categories WHERE name = ?1";

pub const LIST_CATEGORIES_SQL: &'static str = "SELECT name FROM categories";

pub const ADD_TAG_SQL: &'static str = "INSERT OR IGNORE INTO tags (name) VALUES (?1)";

pub const DELETE_TAG_SQL: &'static str = "DELETE FROM tags WHERE name = ?1";

pub const LIST_TAGS_SQL: &'static str = "SELECT name FROM tags";

pub const MARK_DONE_SQL: &'static str = "UPDATE todos SET done = 1, completion_date = CURRENT_DATE WHERE id = ?1";

/// A value bound to a statement placeholder.
#[derive(Debug)]
pub enum SqlParam {
    Text(String),
    Int(i32),
    Null,
}

/// A bulk file format.
#[derive(PartialEq, Eq, Structural, Clone, Copy, Debug)]
pub enum Format {
    Json,
    Csv,
    Parquet,
    Xlsx,
}

/// Which tokens name a format.
pub open spec fn spec_parse_format(s: Seq<char>) -> Option<Format> {
    if s == "json"@ {
        Some(Format::Json)
    } else if s == "parquet"@ {
        Some(Format::Parquet)
    } else if s == "xlsx"@ {
        Some(Format::Xlsx)
    } else if s == "csv"@ {
        Some(Format::Csv)
    } else {
        None
    }
}

/// Reads a format token.
pub fn parse_format(s: &str) -> (r: Option<Format>)
    ensures
        r == spec_parse_format(s@),
{
    if str_eq(s, "json") {
        Some(Format::Json)
    } else if str_eq(s, "parquet") {
        Some(Format::Parquet)
    } else if str_eq(s, "xlsx") {
        Some(Format::Xlsx)
    } else if str_eq(s, "csv") {
        Some(Format::Csv)
    } else {
        None
    }
}

/// Which tokens name an import strategy.
pub open spec fn spec_parse_strategy(s: Seq<char>) -> Option<Strategy> {
    if s == "skip"@ {
        Some(Strategy::Skip)
    } else if s == "remove"@ {
        Some(Strategy::Remove)
    } else if s == "upsert"@ {
        Some(Strategy::Upsert)
    } else {
        None
    }
}

/// Reads a strategy token.
pub fn parse_strategy(s: &str) -> (r: Option<Strategy>)
    ensures
        r == spec_parse_strategy(s@),
{
    if str_eq(s, "skip") {
        Some(Strategy::Skip)
    } else if str_eq(s, "remove") {
        Some(Strategy::Remove)
    } else if str_eq(s, "upsert") {
        Some(Strategy::Upsert)
    } else {
        None
    }
}

/// A string with every single quote doubled, as SQL wants it inside
/// a quoted literal.
pub open spec fn spec_escape(s: Seq<char>) -> Seq<char>
    decreases s.len(),
{
    if s.len() == 0 {
        Seq::empty()
    } else if s.last() == '\'' {
        spec_escape(s.drop_last()) + seq!['\'', '\'']
    } else {
        spec_escape(s.drop_last()).push(s.last())
    }
}

/// Doubles every single quote, closing the path-injection hole of
/// interpolated bulk commands.
pub fn escape_sql_literal(s: &str) -> (r: String)
    ensures
        r@ == spec_escape(s@),
{
    let n = s.unicode_len();
    let mut out = String::new();
    proof {
        assert(s@.subrange(0, 0) =~= Seq::<char>::empty());
    }
    let mut i: usize = 0;
    while i < n
        invariant
            n == s@.len(),
            i <= n,
            out@ == spec_escape(s@.subrange(0, i as int)),
        decreases n - i,
    {
        proof {
            assert(s@.subrange(0, i as int + 1).drop_last() =~= s@.subrange(0, i as int));
            assert(s@.subrange(0, i as int + 1).last() == s@[i as int]);
        }
        let ghost pre = out@;
        let c = s.get_char(i);
        if c == '\'' {
            out.push('\'');
            out.push('\'');
            proof {
                assert(out@ =~= pre + seq!['\'', '\'']);
            }
        } else {
            out.push(c);
        }
        i = i + 1;
    }
    proof {
        assert(s@.subrange(0, n as int) =~= s@);
    }
    out
}

/// The parameters bound to [`INSERT_TASK_SQL`]: the name, the due
/// date written as text or null, and the priority.
pub fn insert_task_params(task: &Task) -> (r: Vec<SqlParam>)
    requires
        task_dates_wf(task@),
    ensures
        r@.len() == 3,
        r@[0] matches SqlParam::Text(s) && s@ == task@.name,
        (match task@.due_date {
            Some(d) => r@[1] matches SqlParam::Text(s) && s@ == spec_format_date(d),
            None => r@[1] is Null,
        }),
        r@[2] matches SqlParam::Int(p) && p == task.priority,
{
    let mut r: Vec<SqlParam> = Vec::new();
    r.push(SqlParam::Text(task.name.clone()));
    let due = match &task.due_date {
        Some(d) => SqlParam::Text(format_date(d)),
        None => SqlParam::Null,
    };
    r.push(due);
    r.push(SqlParam::Int(task.priority));
    r
}

/// The SET pieces of an update statement, in their fixed order.
pub open spec fn spec_update_pieces(
    has_task: bool,
    has_due: bool,
    has_priority: bool,
    undone: bool,
) -> Seq<Seq<char>> {
    (if has_task {
        seq!["task = ?"@]
    } else {
        Seq::empty()
    }) + (if has_due {
        seq!["due_date = ?"@]
    } else {
        Seq::empty()
    }) + (if has_priority {
        seq!["priority = ?"@]
    } else {
        Seq::empty()
    }) + (if undone {
        seq!["done = 0"@, "completion_date = NULL"@]
    } else {
        Seq::empty()
    })
}

/// The text of an update statement for the given pieces.
pub open spec fn spec_update_sql(
    has_task: bool,
    has_due: bool,
    has_priority: bool,
    undone: bool,
) -> Seq<char> {
    "UPDATE todos SET "@ + spec_join_cs(
        spec_update_pieces(has_task, has_due, has_priority, undone),
    ) + " WHERE id = ?"@
}

/// The update statement and its bound parameters, or nothing when no
/// field changes. The parameters come in piece order, the id last;
/// marking undone needs none.
pub fn update_task_command(
    id: i32,
    new_task: &Option<String>,
    new_due_date: &Option<String>,
    new_priority: Option<i32>,
    mark_undone: bool,
) -> (r: Option<(String, Vec<SqlParam>)>)
    ensures
        r is Some <==> (new_task is Some || new_due_date is Some || new_priority is Some
            || mark_undone),
        r matches Some(p) ==> p.0@ == spec_update_sql(
            new_task is Some,
            new_due_date is Some,
            new_priority is Some,
            mark_undone,
        ),
        r matches Some(p) ==> p.1@.len() == (if new_task is Some {
            1int
        } else {
            0
        }) + (if new_due_date is Some {
            1int
        } else {
            0
        }) + (if new_priority is Some {
            1int
        } else {
            0
        }) + 1,
        r matches Some(p) ==> (new_task matches Some(t) ==> (p.1@[0] matches SqlParam::Text(s)
            && s@ == t@)),
        r matches Some(p) ==> (new_due_date matches Some(d) ==> (p.1@[if new_task is Some {
            1int
        } else {
            0
        }] matches SqlParam::Text(s) && s@ == d@)),
        r matches Some(p) ==> (new_priority matches Some(v) ==> (p.1@[(if new_task is Some {
            1int
        } else {
            0
        }) + (if new_due_date is Some {
            1int
        } else {
            0
        })] matches SqlParam::Int(w) && w == v)),
        r matches Some(p) ==> (p.1@.last() matches SqlParam::Int(w) && w == id),
{
    if new_task.is_none() && new_due_date.is_none() && new_priority.is_none() && !mark_undone {
        return None;
    }
    let mut pieces: Vec<String> = Vec::new();
    let mut params: Vec<SqlParam> = Vec::new();
    if let Some(t) = new_task {
        pieces.push("task = ?".to_owned());
        params.push(SqlParam::Text(t.clone()));
    }
    if let Some(d) = new_due_date {
        pieces.push("due_date = ?".to_owned());
        params.push(SqlParam::Text(d.clone()));
    }
    if let Some(v) = new_priority {
        pieces.push("priority = ?".to_owned());
        params.push(SqlParam::Int(v));
    }
    if mark_undone {
        pieces.push("done = 0".to_owned());
        pieces.push("completion_date = NULL".to_owned());
    }
    proof {
        assert(pieces.deep_view() =~= spec_update_pieces(
            new_task is Some,
            new_due_date is Some,
            new_priority is Some,
            mark_undone,
        ));
    }
    let mut sql = "UPDATE todos SET ".to_owned();
    sql.append(join_comma_space(&pieces).as_str());
    sql.append(" WHERE id = ?");
    params.push(SqlParam::Int(id));
    Some((sql, params))
}

/// The reader call of a bulk import, up to the opening quote of the
/// path.
pub open spec fn spec_reader_prefix(format: Format) -> Seq<char> {
    match format {
        Format::Json => "read_json_auto('"@,
        Format::Csv => "read_csv_auto('"@,
        Format::Parquet => "read_parquet('"@,
        Format::Xlsx => "read_xlsx('"@,
    }
}

fn reader_prefix(format: Format) -> (r: &'static str)
    ensures
        r@ == spec_reader_prefix(format),
{
    match format {
        Format::Json => "read_json_auto('",
        Format::Csv => "read_csv_auto('",
        Format::Parquet => "read_parquet('",
        Format::Xlsx => "read_xlsx('",
    }
}

/// The format word of a COPY clause.
pub open spec fn spec_format_word(format: Format) -> Seq<char> {
    match format {
        Format::Json => "JSON"@,
        Format::Csv => "CSV"@,
        Format::Parquet => "PARQUET"@,
        Format::Xlsx => "XLSX"@,
    }
}

fn format_word(format: Format) -> (r: &'static str)
    ensures
        r@ == spec_format_word(format),
{
    match format {
        Format::Json => "JSON",
        Format::Csv => "CSV",
        Format::Parquet => "PARQUET",
        Format::Xlsx => "XLSX",
    }
}

/// The text of a bulk import command, with the escaped path woven in.
pub open spec fn spec_import_sql(format: Format, strategy: Strategy, path: Seq<char>) -> Seq<
    char,
> {
    match strategy {
        Strategy::Skip => "INSERT OR IGNORE INTO todos SELECT * FROM "@ + spec_reader_prefix(
            format,
        ) + path + "')"@,
        Strategy::Upsert => "INSERT OR REPLACE INTO todos SELECT * FROM "@ + spec_reader_prefix(
            format,
        ) + path + "')"@,
        Strategy::Remove => if format is Xlsx {
            "INSERT INTO todos (task, done, due_date, completion_date, priority) SELECT task, done, due_date, completion_date, priority FROM "@
                + spec_reader_prefix(format) + path + "')"@
        } else {
            "COPY todos (task, done, due_date, completion_date, priority) FROM '"@ + path
                + "' (FORMAT "@ + spec_format_word(format) + ")"@
        },
    }
}

/// Builds the bulk import command for a format, a path and a strategy
/// token; an unknown token is refused as the import command reports
/// it.
pub fn import_command(format: Format, file_path: &str, strategy: &str) -> (r: Result<
    String,
    TodoError,
>)
    ensures
        r is Ok <==> spec_parse_strategy(strategy@) is Some,
        r matches Ok(s) ==> s@ == spec_import_sql(
            format,
            spec_parse_strategy(strategy@)->Some_0,
            spec_escape(file_path@),
        ),
        r matches Err(e) ==> (e matches TodoError::Custom(m) && m@ == "Unsupported strategy"@),
{
    let strat = match parse_strategy(strategy) {
        Some(s) => s,
        None => {
            return Err(TodoError::Custom("Unsupported strategy".to_owned()));
        },
    };
    let path = escape_sql_literal(file_path);
    let mut sql: String;
    match strat {
        Strategy::Skip => {
            sql = "INSERT OR IGNORE INTO todos SELECT * FROM ".to_owned();
            sql.append(reader_prefix(format));
            sql.append(path.as_str());
            sql.append("')");
        },
        Strategy::Upsert => {
            sql = "INSERT OR REPLACE INTO todos SELECT * FROM ".to_owned();
            sql.append(reader_prefix(format));
            sql.append(path.as_str());
            sql.append("')");
        },
        Strategy::Remove => {
            if let Format::Xlsx = format {
                sql =
                "INSERT INTO todos (task, done, due_date, completion_date, priority) SELECT task, done, due_date, completion_date, priority FROM ".to_owned();
                sql.append(reader_prefix(format));
                sql.append(path.as_str());
                sql.append("')");
            } else {
                sql =
                "COPY todos (task, done, due_date, completion_date, priority) FROM '".to_owned();
                sql.append(path.as_str());
                sql.append("' (FORMAT ");
                sql.append(format_word(format));
                sql.append(")");
            }
        },
    }
    proof {
        assert(sql@ =~= spec_import_sql(format, strat, spec_escape(file_path@)));
    }
    Ok(sql)
}

/// The text of a bulk export command, with the escaped path woven in.
pub open spec fn spec_export_sql(format: Format, path: Seq<char>) -> Seq<char> {
    match format {
        Format::Json => "COPY (SELECT * FROM todos) TO '"@ + path + "' (FORMAT JSON)"@,
        Format::Csv => "COPY (SELECT * FROM todos) TO '"@ + path + "' (FORMAT CSV, HEADER)"@,
        Format::Parquet => "COPY (SELECT * FROM todos) TO '"@ + path + "' (FORMAT PARQUET)"@,
        Format::Xlsx => "COPY (SELECT t.*, c.name as category, (SELECT string_agg(tags.name, ',') FROM todo_tags JOIN tags ON tags.id = todo_tags.tag_id WHERE todo_tags.todo_id = t.id) as tags FROM todos t LEFT JOIN todo_categories tc ON t.id = tc.todo_id LEFT JOIN categories c ON c.id = tc.category_id) TO '"@
            + path + "' (FORMAT XLSX, HEADER true)"@,
    }
}

/// Builds the bulk export command for a format and a path. The
/// spreadsheet export carries the category and the joined tags along;
/// the others dump the task table.
pub fn export_command(format: Format, file_path: &str) -> (r: String)
    ensures
        r@ == spec_export_sql(format, spec_escape(file_path@)),
{
    let path = escape_sql_literal(file_path);
    let mut sql: String;
    match format {
        Format::Json => {
            sql = "COPY (SELECT * FROM todos) TO '".to_owned();
            sql.append(path.as_str());
            sql.append("' (FORMAT JSON)");
        },
        Format::Csv => {
            sql = "COPY (SELECT * FROM todos) TO '".to_owned();
            sql.append(path.as_str());
            sql.append("' (FORMAT CSV, HEADER)");
        },
        Format::Parquet => {
            sql = "COPY (SELECT * FROM todos) TO '".to_owned();
            sql.append(path.as_str());
            sql.append("' (FORMAT PARQUET)");
        },
        Format::Xlsx => {
            sql =
            "COPY (SELECT t.*, c.name as category, (SELECT string_agg(tags.name, ',') FROM todo_tags JOIN tags ON tags.id = todo_tags.tag_id WHERE todo_tags.todo_id = t.id) as tags FROM todos t LEFT JOIN todo_categories tc ON t.id = tc.todo_id LEFT JOIN categories c ON c.id = tc.category_id) TO '".to_owned();
            sql.append(path.as_str());
            sql.append("' (FORMAT XLSX, HEADER true)");
        },
    }
    proof {
        assert(sql@ =~= spec_export_sql(format, spec_escape(file_path@)));
    }
    sql
}

/// The task listing query, filtered by done status or not.
pub fn select_tasks_sql(done_only: Option<bool>) -> (r: &'static str)
    ensures
        done_only matches Some(b) ==> (b ==> r@
            == "SELECT t.id, t.task, t.done, t.due_date, t.completion_date, t.priority, c.name as category_name FROM todos t LEFT JOIN todo_categories tc ON t.id = tc.todo_id LEFT JOIN categories c ON tc.category_id = c.id WHERE t.done = 1"@),
        done_only matches Some(b) ==> (!b ==> r@
            == "SELECT t.id, t.task, t.done, t.due_date, t.completion_date, t.priority, c.name as category_name FROM todos t LEFT JOIN todo_categories tc ON t.id = tc.todo_id LEFT JOIN categories c ON tc.category_id = c.id WHERE t.done = 0"@),
        done_only is None ==> r@
            == "SELECT t.id, t.task, t.done, t.due_date, t.completion_date, t.priority, c.name as category_name FROM todos t LEFT JOIN todo_categories tc ON t.id = tc.todo_id LEFT JOIN categories c ON tc.category_id = c.id"@,
{
    match done_only {
        Some(true) => "SELECT t.id, t.task, t.done, t.due_date, t.completion_date, t.priority, c.name as category_name FROM todos t LEFT JOIN todo_categories tc ON t.id = tc.todo_id LEFT JOIN categories c ON tc.category_id = c.id WHERE t.done = 1",
        Some(false) => "SELECT t.id, t.task, t.done, t.due_date, t.completion_date, t.priority, c.name as category_name FROM todos t LEFT JOIN todo_categories tc ON t.id = tc.todo_id LEFT JOIN categories c ON tc.category_id = c.id WHERE t.done = 0",
        None => "SELECT t.id, t.task, t.done, t.due_date, t.completion_date, t.priority, c.name as category_name FROM todos t LEFT JOIN todo_categories tc ON t.id = tc.todo_id LEFT JOIN categories c ON tc.category_id = c.id",
    }
}

} // verus!
