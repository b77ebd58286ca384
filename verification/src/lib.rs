//! Feed ingestion, deduplication, and windowed-cache merge engine for a
//! daily listing of arXiv papers.
//!
//! The crate parses one Atom-like feed document into paper records via a
//! streaming state machine, groups the records into an insertion-ordered
//! collection keyed by update time and category, deduplicates structurally
//! equal records, applies a retention window, and flattens the result into
//! a sorted render view. Network, file, and template concerns live outside
//! this crate; it works on plain in-memory values.

pub mod collection;
pub mod config;
pub mod engine;
pub mod events;
pub mod paper;
pub mod parser;
pub mod query;
pub mod render;
pub mod time;
