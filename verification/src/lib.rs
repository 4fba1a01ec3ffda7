//! Export, enrichment and profile rules of an activity tracker.

pub mod text;
pub mod time;
pub mod json;
pub mod error;
pub mod event;
pub mod merge;
pub mod csv;
pub mod csv_reader;
pub mod query;
pub mod export;
pub mod json_reader;
pub mod http;
pub mod stream;
pub mod dirs;
