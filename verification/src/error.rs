//! Structured errors, and the friendly hints the command line derives
//! from their text.

use vstd::prelude::*;
use crate::text::{spec_contains, spec_lower, contains_str, to_ascii_lower};

verus! {

/// What can go wrong: an error of the embedded store, an input/output
/// error, an application message, or a lookup that found nothing. The
/// first three carry the rendered text of the underlying error.
#[derive(Debug)]
pub enum TodoError {
    Store(String),
    Io(String),
    Custom(String),
    NotFound,
}

/// The user-facing text of an error.
pub open spec fn spec_message(e: TodoError) -> Seq<char> {
    match e {
        TodoError::Store(err) => if spec_contains(err@, "GDAL Error"@) {
            "There was an issue with file access: "@ + err@
                + ". Please ensure the file exists and the path is correct."@
        } else {
            "A database error occurred: "@ + err@
                + ". Please ensure your database setup is correct."@
        },
        TodoError::Io(err) => "There was an input/output error: "@ + err@
            + ". Please check your file paths and permissions."@,
        TodoError::Custom(msg) => msg@,
        TodoError::NotFound => "The requested item was not found."@,
    }
}

impl TodoError {
    /// Renders the error as the message the user sees.
    pub fn message(&self) -> (r: String)
        ensures
            r@ == spec_message(*self),
    {
        match self {
            TodoError::Store(err) => {
                if contains_str(err.as_str(), "GDAL Error") {
                    let mut out = "There was an issue with file access: ".to_owned();
                    out.append(err.as_str());
                    out.append(". Please ensure the file exists and the path is correct.");
                    out
                } else {
                    let mut out = "A database error occurred: ".to_owned();
                    out.append(err.as_str());
                    out.append(". Please ensure your database setup is correct.");
                    out
                }
            },
            TodoError::Io(err) => {
                let mut out = "There was an input/output error: ".to_owned();
                out.append(err.as_str());
                out.append(". Please check your file paths and permissions.");
                out
            },
            TodoError::Custom(msg) => msg.clone(),
            TodoError::NotFound => "The requested item was not found.".to_owned(),
        }
    }
}

/// Does the rendered error text mention the pattern, ignoring ASCII
/// case?
pub fn mentions(msg: &str, pattern: &str) -> (b: bool)
    ensures
        b == spec_contains(spec_lower(msg@), pattern@),
{
    let lower = to_ascii_lower(msg);
    contains_str(lower.as_str(), pattern)
}

/// The friendlier wording offered for a known error text, if any: the
/// first matching pattern wins.
pub open spec fn spec_hint(msg: Seq<char>) -> Option<Seq<char>> {
    let lower = spec_lower(msg);
    if spec_contains(lower, "no such file or directory"@) {
        Some("File not found. Check the path and try again."@)
    } else if spec_contains(lower, "constraint"@) {
        Some("This item already exists. Please check your input."@)
    } else if spec_contains(lower, "foreign key"@) {
        Some("Item is still in use. Ensure it is not linked elsewhere."@)
    } else if spec_contains(lower, "gdal error"@) {
        Some("GDAL issue occurred. Check file permissions and existence."@)
    } else {
        None
    }
}

/// Maps a rendered error text to the friendlier wording the command
/// line prints, when the text matches a known pattern.
pub fn error_hint(msg: &str) -> (r: Option<String>)
    ensures
        r.deep_view() == spec_hint(msg@),
{
    let lower = to_ascii_lower(msg);
    if contains_str(lower.as_str(), "no such file or directory") {
        Some("File not found. Check the path and try again.".to_owned())
    } else if contains_str(lower.as_str(), "constraint") {
        Some("This item already exists. Please check your input.".to_owned())
    } else if contains_str(lower.as_str(), "foreign key") {
        Some("Item is still in use. Ensure it is not linked elsewhere.".to_owned())
    } else if contains_str(lower.as_str(), "gdal error") {
        Some("GDAL issue occurred. Check file permissions and existence.".to_owned())
    } else {
        None
    }
}

} // verus!
