//! Errors of the local Library.
use vstd::prelude::*;

verus! {

/// Why a Library operation failed. Storage and file-system failures carry
/// the message of the underlying error.
#[derive(Clone, Debug, PartialEq, Eq)]
pub enum LibraryError {
    Sqlite(String),
    Io(String),
    Validation(String),
    NotFound { kind: &'static str, id: String },
    AlreadyExists { kind: &'static str, id: String },
    RevisionConflict { expected: u64, actual: u64 },
    InvalidTransition { from: String, operation: String },
    IdempotencyConflict(String),
    Corrupt(String),
    UnsupportedSchema { found: u32, supported: u32 },
    UnsupportedPortableFormat { found: u16, supported: u16 },
    PortableDigestMismatch,
    PortableFormat(String),
}

} // verus!
