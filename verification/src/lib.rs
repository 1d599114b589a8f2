//! Core pipeline for an interactive count-by-group bar view over
//! schema-less but shape-homogeneous typed records.
//!
//! Raw rows flow through validation, per-field bound filtering, a
//! multi-key sort, run-length grouping and descending ranking; the result
//! is a ranked list of labelled counts for an external renderer.

pub mod app;
pub mod bars;
pub mod label;
pub mod settings;
pub mod sort;
pub mod value;
