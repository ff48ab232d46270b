//! Inspects a flake lock manifest: a JSON document mapping dependency names
//! to the Unix instant at which each pinned revision was produced. The
//! library parses such a document into a non-empty name-to-instant mapping,
//! reports the most recent instant, and renders local calendar times.

pub mod datetime;
pub mod inputs;
pub mod json;
