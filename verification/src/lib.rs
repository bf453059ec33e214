//! The verified core of a manifest-driven health-data store: the manifest
//! model and its schema statements, the streaming ingestion state machine
//! with content-hash row identities, timestamp normalization on a verified
//! calendar, the companion-file parsers for ECG traces and GPX routes, the
//! query and aggregation statement builders, and the derived analytics.
//! Everything that touches the file system, the network or the database
//! lives outside and only executes what this crate builds and hands back.

use vstd::prelude::*;

pub mod manifest;
pub mod time;
pub mod hashing;
pub mod text;
pub mod schema;
pub mod ingest;
pub mod events;
pub mod analytics;
pub mod query;
pub mod ecg;
pub mod route;
pub mod jobs;
pub mod export;

verus! {

/// The error kinds that the core logic itself can report. I/O, database and
/// configuration failures are raised by the surrounding shell, not here.
#[derive(Clone, Copy, Debug, PartialEq, Eq, Structural)]
pub enum CoreError {
    /// A table, workout session, job or recording that no one declared.
    NotFound,
    /// A request parameter outside the accepted set, such as an unknown
    /// aggregation bucket.
    InvalidArgument,
    /// Malformed input text.
    ParseError,
}

} // verus!
