//! Errors returned by VDB selection and resolution.
//!
//! Every failure is reported to the immediate caller as a value of [`Error`];
//! no operation of this library panics.

use vstd::prelude::*;

verus! {

/// The recoverable failures of selection, mutation and resolution.
#[derive(Debug, PartialEq, Eq)]
pub enum Error {
    /// A primary engine was set on a VDB whose kind does not carry one
    /// (a combinator, or a load-balancing distributor).
    InvalidOperation,
    /// The requested primary engine is not a key of the VDB's mapping.
    OutOfRange,
    /// A fail-over selection found its primary absent from the mapping of the
    /// named VDB.
    EngineNotConfigured { engine: usize, vdb: String },
    /// A load-balancing selection was invoked on the named VDB whose mapping
    /// is empty.
    SelectionEmpty { vdb: String },
    /// A resolution request named VDBs that the collection does not hold;
    /// every missing name is listed.
    UnknownVDB { names: Vec<String> },
    /// A defensive marker for an aggregation inconsistency that the verified
    /// resolution path never produces.
    InternalAggregationError,
}

} // verus!
