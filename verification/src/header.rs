//! The fixed 20-byte header: five little-endian 32-bit fields at offsets
//! 0, 4, 8, 12 and 16 describing the geometry of the three tables.

use vstd::prelude::*;
use crate::error::SfoError;
use crate::wire::{le32_at, read_le32};

verus! {

/// The fixed header of a buffer: format identifier, format version, byte
/// offsets of the key table and the data table, and the number of index
/// entries.  `magic` and `version` are read but deliberately not validated.
#[derive(Clone, Copy, Debug, PartialEq, Eq, Structural)]
pub struct Header {
    pub magic: u32,
    pub version: u32,
    pub key_table_start: u32,
    pub data_table_start: u32,
    pub table_entries: u32,
}

/// The number of bytes of the fixed header.
pub const HEADER_LEN: usize = 20;

/// The header a buffer of at least 20 bytes decodes to.
pub open spec fn spec_header(b: Seq<u8>) -> Header
    recommends
        b.len() >= 20,
{
    Header {
        magic: le32_at(b, 0),
        version: le32_at(b, 4),
        key_table_start: le32_at(b, 8),
        data_table_start: le32_at(b, 12),
        table_entries: le32_at(b, 16),
    }
}

/// Decodes the fixed header of a buffer.  Succeeds exactly when at least
/// 20 bytes are available; no field is validated beyond that.
pub fn decode_header(buf: &Vec<u8>) -> (r: Result<Header, SfoError>)
    ensures
        buf@.len() >= 20 ==> r == Ok::<Header, SfoError>(spec_header(buf@)),
        buf@.len() < 20 ==> r == Err::<Header, SfoError>(SfoError::BufferTooShort),
{
    if buf.len() < HEADER_LEN {
        return Err(SfoError::BufferTooShort);
    }
    Ok(Header {
        magic: read_le32(buf, 0),
        version: read_le32(buf, 4),
        key_table_start: read_le32(buf, 8),
        data_table_start: read_le32(buf, 12),
        table_entries: read_le32(buf, 16),
    })
}

} // verus!
