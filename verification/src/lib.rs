//! Verified core of a personal task tracker.
//!
//! The library models the persistence layer of the tool: an in-memory
//! task store with category and tag tables, the date handling, the
//! search filter, the text utilities, and the construction of the SQL
//! statements that a thin command-line front end hands to an embedded
//! database engine.

pub mod config;
pub mod date;
pub mod display;
pub mod error;
pub mod search;
pub mod sql;
pub mod store;
pub mod task;
pub mod text;
