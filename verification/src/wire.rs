//! Byte-level primitives of the wire format: little-endian field reads,
//! subrange copies, and the one trusted conversion from raw bytes to text.

use vstd::prelude::*;
use vstd::bytes::{spec_u16_from_le_bytes, spec_u32_from_le_bytes, u16_from_le_bytes, u32_from_le_bytes};
use vstd::slice::slice_subrange;
use vstd::utf8::{decode_utf8, valid_utf8};

verus! {

/// The little-endian 16-bit value stored at byte offset `off`.
pub open spec fn le16_at(b: Seq<u8>, off: int) -> u16
    recommends
        0 <= off,
        off + 2 <= b.len(),
{
    spec_u16_from_le_bytes(b.subrange(off, off + 2))
}

/// The little-endian 32-bit value stored at byte offset `off`.
pub open spec fn le32_at(b: Seq<u8>, off: int) -> u32
    recommends
        0 <= off,
        off + 4 <= b.len(),
{
    spec_u32_from_le_bytes(b.subrange(off, off + 4))
}

/// Reads the little-endian 16-bit value at `off`.
pub(crate) fn read_le16(buf: &Vec<u8>, off: usize) -> (r: u16)
    requires
        off + 2 <= buf@.len(),
    ensures
        r == le16_at(buf@, off as int),
{
    let _n: usize = buf.len();
    let s = slice_subrange(buf.as_slice(), off, off + 2);
    u16_from_le_bytes(s)
}

/// Reads the little-endian 32-bit value at `off`.
pub(crate) fn read_le32(buf: &Vec<u8>, off: usize) -> (r: u32)
    requires
        off + 4 <= buf@.len(),
    ensures
        r == le32_at(buf@, off as int),
{
    let _n: usize = buf.len();
    let s = slice_subrange(buf.as_slice(), off, off + 4);
    u32_from_le_bytes(s)
}

/// Copies the bytes of `[start, end)` out of the buffer.
pub(crate) fn copy_range(buf: &Vec<u8>, start: usize, end: usize) -> (r: Vec<u8>)
    requires
        start <= end,
        end <= buf@.len(),
    ensures
        r@ == buf@.subrange(start as int, end as int),
{
    let _n: usize = buf.len();
    let s = slice_subrange(buf.as_slice(), start, end);
    vstd::slice::slice_to_vec(s)
}

/// Relies on `String::from_utf8`: it succeeds exactly when the bytes are a
/// valid UTF-8 encoding, and then returns the string those bytes encode.
#[verifier::external_body]
pub(crate) fn bytes_to_string(v: Vec<u8>) -> (r: Option<String>)
    ensures
        r is Some <==> valid_utf8(v@),
        r matches Some(s) ==> s@ == decode_utf8(v@),
{
    String::from_utf8(v).ok()
}

} // verus!
