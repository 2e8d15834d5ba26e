//! Canonical order for tabular-model documents.
//!
//! A document is a JSON file that holds one analytical model: its data
//! sources, tables, relationships, roles, expressions and annotations. This
//! library reads such a document, brings every list in it into a canonical
//! order, and writes it back, so that two files that hold the same model
//! hold the same text.
//!
//! * [`json`] holds a plain JSON value tree; [`json::text`] reads it from
//!   text and writes it as text, by `serde_json`.
//! * [`codec`] reads records from that tree and writes them back to it.
//! * [`models`] holds the records of a document, each with its JSON form and
//!   its order.
//! * [`sorting`] holds the stable sort and what it guarantees.
//! * [`text`] compares names, with and without regard to case.
//! * [`error`] says what went wrong in reading, and where.
//! * [`laws`] states what holds of reading, writing and ordering for every
//!   input.

pub mod codec;
pub mod error;
pub mod json;
pub mod laws;
pub mod models;
pub mod sorting;
pub mod text;
