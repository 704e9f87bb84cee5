//! A reconciliation engine that keeps a destination database of calendar
//! records in sync with a one-way source feed of events.
//!
//! The engine is pure: it consumes two snapshots (source events and
//! destination records), matches them by a stable identifier, and produces
//! the minimal set of create and update requests.  All transport, parsing
//! and storage I/O is the caller's concern.

pub mod dates;
pub mod diff;
pub mod errors;
pub mod events;
pub mod fields;
pub mod laws;
pub mod reconcile;
pub mod records;
pub mod translate;
pub mod values;
