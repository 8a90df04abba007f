//! The error taxonomy of the reader.
use vstd::prelude::*;

use crate::guid::Guid;
use crate::header::KnowRegion;
use crate::signature::Signature;

verus! {

/// A field named by an alignment or non-zero requirement.
#[derive(Debug, Clone, Copy, PartialEq, Eq, Structural)]
pub enum Field {
    LogLength,
    LogOffset,
    EntryLength,
    Tail,
    SequenceNumber,
    FlushedFileOffset,
    LastFileOffset,
}

#[derive(Debug, Clone, Copy, PartialEq, Eq, Structural)]
pub enum VhdxError {
    /// Expected signature, signature found.
    SignatureMismatch(Signature, Signature),
    /// Stored checksum, computed checksum.
    ChecksumMismatch(u32, u32),
    /// The header's format version is not 1.
    UnsupportedVersion(u16),
    /// The header's log version is not 0 while a log identifier is set.
    UnsupportedLogVersion(u16),
    /// Field, its value, the multiple it must be.
    AlignmentViolation(Field, u64, u64),
    RequiredFieldZero(Field),
    RegionCountExceeded(u32),
    UnrecognizedRequiredRegion(Guid),
    DuplicateRegion(KnowRegion),
    MissingRegion(KnowRegion),
    /// Bytes needed, bytes available.
    ShortRead(u64, u64),
    /// A descriptor tag that is neither `desc` nor `zero`.
    MalformedLog(Signature),
    /// A log entry's identifier differs from the file's log identifier
    /// (entry's, file's).
    LogIdMismatch(Guid, Guid),
    /// A data sector's sequence number differs from its descriptor's
    /// (descriptor's, sector's).
    LogEntrySequenceCrossCheckFailed(u64, u64),
}

} // verus!
