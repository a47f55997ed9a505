//! The error taxonomy surfaced at the library boundary.
use vstd::prelude::*;

verus! {

/// Errors that can occur when interacting with a data log.
///
/// The taxonomy is flat; every failure of the library is reported as one of
/// these values and the library never panics on inputs its contracts allow.
#[derive(Debug, Clone, Copy, PartialEq, Eq)]
pub enum DataLogError {
    /// An I/O failure reported by the surrounding program.
    Io,
    /// An integer did not fit the width a conversion required.
    IntCast,
    /// A byte sequence was not valid UTF-8.
    Utf8,
    /// A record could not be serialized.
    RecordSerialize(&'static str),
    /// A record could not be deserialized.
    RecordDeserialize(&'static str),
    /// A record had an unsupported type.
    RecordType(&'static str),
    /// The record byte reader ran out of bytes.
    RecordReaderOutOfBounds(&'static str),
    /// Attempted to modify a read-only data log.
    DataLogReadOnly,
    /// The entry does not exist.
    NoSuchEntry,
    /// The entry was used outside its lifetime.
    OutsideEntryLifetime,
    /// The entry already exists.
    EntryAlreadyExists,
    /// The entry's type differs from the type it was created with.
    EntryTypeMismatch,
    /// A handle from a different data log was used.
    InvalidDataLog,
    /// The file does not exist.
    FileDoesNotExist,
    /// The file already exists.
    FileAlreadyExists,
    /// Entry data arrived out of its entry's life span.
    RetroEntryData,
    /// The file's format version differs from the required one.
    VersionMismatch,
    /// The file's magic bytes are not `WPILOG`.
    MagicMismatch,
    /// The record is too large to be framed.
    RecordTooLarge,
    /// The metadata is too large to be written.
    MetadataTooLarge,
}

} // verus!
