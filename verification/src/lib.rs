//! Decoder and in-place editor for the PARAM.SFO binary container format.
//!
//! A buffer in this format holds a fixed 20-byte header describing three
//! regions: an index table of fixed-size entries, a key table of
//! NUL-terminated UTF-8 names, and a data table of typed values.  The
//! library decodes the whole buffer into a sequence of named, typed
//! entries, and can overwrite the 4-byte slot of a numeric entry in place
//! without changing any other byte.

pub mod edit;
pub mod entries;
pub mod error;
pub mod header;
pub mod hex;
pub mod render;
pub mod wire;

pub use entries::{Entry, EntryData, SfoIndexTableEntry};
pub use error::SfoError;
pub use header::Header;
