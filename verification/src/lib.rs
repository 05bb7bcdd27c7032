//! A personal knowledge store: taught key/value facts, fuzzy retrieval of the
//! best-matching key for a free-form query, and bulk import and export.

pub mod command;
pub mod export;
pub mod import;
pub mod matcher;
pub mod store;
pub mod teaching;
pub mod text;
