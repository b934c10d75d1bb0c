//! Errors reported by the read-only query side.

use vstd::prelude::*;

verus! {

/// Failure kinds of the consumer queries.  `IndexError` marks an index past
/// the packed table; `DataCorruptionError` marks a cost lookup past the
/// packed buffer or an undecodable graph artifact; `ValueError` marks any
/// other artifact-schema violation.
#[derive(Clone, Copy, Debug, PartialEq, Eq, Structural)]
pub enum QueryError {
    IndexError,
    DataCorruptionError,
    ValueError,
}

impl QueryError {
    /// A short human-readable description of the failure.
    pub fn describe(&self) -> (r: &'static str)
        ensures
            *self is IndexError ==> r@ == "Index out of range"@,
            *self is DataCorruptionError ==> r@ == "Data corruption"@,
            *self is ValueError ==> r@ == "Invalid value"@,
    {
        match *self {
            QueryError::IndexError => "Index out of range",
            QueryError::DataCorruptionError => "Data corruption",
            QueryError::ValueError => "Invalid value",
        }
    }
}

} // verus!
