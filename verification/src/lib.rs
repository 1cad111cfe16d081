//! Query-evaluation core of a document store: a boolean filter evaluator
//! over compressed bitmaps of document ids, with a sortable binary key
//! codec and an ordered range-scan leaf resolver.
//!
//! The evaluator is a resumable state machine: it walks a flattened filter
//! stream, and whenever a leaf needs data from the storage collaborator it
//! hands the caller a [`eval::Request`] and waits for the matching
//! [`eval::Event`]. All decisions — key construction, range filtering,
//! set algebra, short-circuiting, the lazily fetched universe for `Not`
//! scopes — are made and verified here; the caller only performs lookups.

pub mod bitmap;
pub mod bytes;
pub mod codec;
pub mod eval;
pub mod laws;
pub mod model;
pub mod scan;
