//! The error taxonomy of the store.

use vstd::prelude::*;

verus! {

/// Errors surfaced by the time-entry store.
///
/// Every error is propagated to the caller; the one documented leniency
/// (a malformed current-task file is treated as "no current task") never
/// produces an error at all.
#[derive(Debug, PartialEq, Eq)]
pub enum Error {
    /// A file could not be created, opened, read or written.
    IOError(String),
    /// A malformed line in the permanent log, or a malformed time string.
    ParseError(String),
    /// The end time of a closed interval lies before its start time.
    ValidationError(String),
    /// Propagated from the configuration collaborator.
    ConfigError(String),
}

impl Error {
    /// The human-readable message carried by the error.
    pub fn message(&self) -> (m: &String)
        ensures
            m == match self {
                Error::IOError(s) => s,
                Error::ParseError(s) => s,
                Error::ValidationError(s) => s,
                Error::ConfigError(s) => s,
            },
    {
        match self {
            Error::IOError(s) => s,
            Error::ParseError(s) => s,
            Error::ValidationError(s) => s,
            Error::ConfigError(s) => s,
        }
    }
}

} // verus!
