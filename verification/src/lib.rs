//! An in-memory, multiply-indexed record store.
//!
//! The store holds a growing collection of immutable records and answers
//! equality lookups on any field. For each indexed field it keeps a hash
//! map from field value to the bucket of records sharing that value, in
//! insertion order; a field left unindexed is answered by a linear scan
//! over an existing index. Records are shared between indices through
//! reference counting, so one insert never duplicates record storage.

pub mod config;
pub mod laws;
pub mod record;
pub mod store;
