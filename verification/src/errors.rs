//! Error taxonomy of the reconciliation engine.

use vstd::prelude::*;

verus! {

/// An error scoped to a single event or record: the affected identifier is
/// excluded from the run's output and the run continues.
#[derive(Clone, Copy, PartialEq, Eq, Structural, Debug)]
pub enum PerEventError {
    /// The source event carries no identifier (or an empty one), so it can
    /// never be matched against the destination.
    MissingIdentifier,
    /// The source event lacks a start or an end bound.
    MissingDateRange,
    /// The source range mixes a pure date with a date-time, or its
    /// conversion steps outside the representable date range.
    InvalidDateRange,
    /// A candidate write and the stored value disagree on the property's
    /// kind, so no field-level comparison is possible.
    UnsupportedPropertyType,
}

/// An error that aborts the whole run before any request is built.
#[derive(Clone, Copy, PartialEq, Eq, Structural, Debug)]
pub enum RunError {
    /// Two destination records share an identifier: the store must
    /// guarantee uniqueness, so the snapshot cannot be trusted.
    DuplicateIdentifier,
}

} // verus!
