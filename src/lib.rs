//! A personal link keeper: links (a URL and an optional category) are kept in
//! a Markdown index grouped by category, in a JSON log of every link ever
//! added, and in a TOML settings file that records the activated backends.

pub mod link;
pub mod markdown_guard;
pub mod markdown;
pub mod raw_format;
pub mod file_handling;
pub mod backend;
pub mod keeper;
