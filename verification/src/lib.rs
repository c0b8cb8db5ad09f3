//! Incremental archiving of imageboard threads.
//!
//! The crate holds the decisions of the archiver: how a stored snapshot of a
//! thread is reconciled with a freshly fetched one, how attachments are named
//! by their content, how snapshots are named on disk, and when a monitor
//! stops. Network and file system work is left to the caller, which performs
//! the requests that the engine in [`sync`] hands out and reports back what
//! happened.

pub mod api;
pub mod content;
pub mod db;
pub mod diff;
pub mod error;
pub mod reconcile;
pub mod schedule;
pub mod sync;
pub mod text;
