//! Presence reconciliation engine.
//!
//! The engine keeps a live view of which named entities ("servers") are
//! currently populated. Each cycle a population snapshot is fetched,
//! compared against the previously persisted records, and turned into a
//! set of writes and deletes plus a change summary. The reconciliation
//! itself is a pure function and is verified here; fetching and persisting
//! are left to the surrounding program.

pub mod errors;
pub mod laws;
pub mod logger;
pub mod order;
pub mod reconcile;
pub mod record;
pub mod schedule;
pub mod snapshot;
pub mod summary;
pub mod text;
