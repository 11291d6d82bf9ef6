//! The local Library's own rules: intent lifecycle transitions, persisted
//! names and their parsers, revision and text checks, SHA-256 operation
//! digests, and the framing of portable artifacts. Its SQLite statements are
//! run by the caller.

pub mod acceptance;
pub mod acceptance_record;
pub mod adoption;
pub mod checks;
pub mod composition;
pub mod digest;
pub mod drafts;
pub mod error;
pub mod names;
pub mod operations;
pub mod portable;
pub mod portable_reader;
pub mod portable_records;
pub mod portable_writer;
pub mod read_back;
pub mod records;
pub mod removal;
pub mod round_trip;
