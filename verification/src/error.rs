//! The error taxonomy for decoding and editing.
//!
//! Structural errors (`BufferTooShort`, `TruncatedIndexTable`, `CorruptEntry`,
//! `ZeroLengthTextValue`) mean the buffer's own metadata is inconsistent.
//! Encoding errors (`InvalidKeyEncoding`, `InvalidValueEncoding`,
//! `UnterminatedKey`) mean bytes claimed to be text are not.  Semantic errors
//! (`UnsupportedDataFormat`, `NotANumericEntry`) mean the buffer or the
//! request uses a feature this model does not implement.  User-input errors
//! (`EntryNotFound`, `InvalidHexLiteral`) mean a bad invocation rather than a
//! bad buffer.

use vstd::prelude::*;

verus! {

/// Everything that can go wrong while decoding a buffer or editing an entry.
#[derive(Clone, Copy, Debug, PartialEq, Eq, Structural)]
pub enum SfoError {
    /// The buffer is too short for the fixed header, or for the value bytes
    /// an index entry points at.
    BufferTooShort,
    /// The index table does not fit in the buffer.
    TruncatedIndexTable,
    /// An index entry declares `data_len` larger than `data_max_len`.
    CorruptEntry,
    /// A text entry declares `data_len` of zero, which cannot account for
    /// the trailing NUL the format stores.
    ZeroLengthTextValue,
    /// A key name is not valid UTF-8.
    InvalidKeyEncoding,
    /// A text value is not valid UTF-8.
    InvalidValueEncoding,
    /// No zero byte terminates a key name before the buffer ends.
    UnterminatedKey,
    /// An index entry carries a type tag this model does not implement.
    UnsupportedDataFormat(u16),
    /// An in-place overwrite was requested for an entry that holds text.
    NotANumericEntry,
    /// No decoded entry carries the requested name.
    EntryNotFound,
    /// A requested value is not a `0x`-prefixed hexadecimal literal that
    /// fits in 32 bits.
    InvalidHexLiteral,
}

} // verus!
