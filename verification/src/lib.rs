//! A minimal line-oriented text search library.
//!
//! Given a query string and the full text of a document, the library
//! returns every line of the document that contains the query as a
//! substring, either verbatim (case-sensitive) or after lowercasing
//! both sides (case-insensitive). A small `Config` type carries the
//! query, the target file path and the chosen matching mode.

pub mod config;
pub mod laws;
pub mod search;
pub mod text;

pub use config::Config;
pub use search::run_search;
pub use search::search_case_insensitive;
pub use search::search_case_sensitive;
