//! A small line-search library.
//!
//! Given a query string and a text, the library returns the lines of the
//! text that contain the query, in their original order.  Matching is
//! either exact or case-insensitive; the case-insensitive mode lowercases
//! both the query and each candidate line, character by character, before
//! comparing.  A companion configuration resolver derives the query, the
//! file path and the matching mode from a list of command-line tokens and
//! the presence of one environment variable.

pub mod config;
pub mod laws;
pub mod search;
pub mod text;

pub use config::Config;
pub use config::ConfigError;
pub use search::matching_lines;
pub use search::search;
pub use search::search_case_insensitive;
pub use text::split_lines;
