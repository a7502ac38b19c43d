//! The entry table: walking the index table, resolving each entry's key
//! name and typed value, and looking entries up by name.

use vstd::prelude::*;
use vstd::utf8::{decode_utf8, valid_utf8};
use crate::error::SfoError;
use crate::header::{spec_header, Header};
use crate::wire::{bytes_to_string, copy_range, le16_at, le32_at, read_le16, read_le32};

verus! {

/// One fixed 16-byte record of the index table, as stored on the wire:
/// where the entry's name starts in the key table, its type tag, the used
/// and reserved byte lengths of its value, and where the value starts in
/// the data table.
#[derive(Clone, Copy, Debug, PartialEq, Eq, Structural)]
pub struct SfoIndexTableEntry {
    pub key_offset: u16,
    pub data_fmt: u16,
    pub data_len: u32,
    pub data_max_len: u32,
    pub data_offset: u32,
}

/// A decoded value: UTF-8 text (without its trailing NUL) or a 32-bit
/// little-endian integer.
#[derive(Debug, PartialEq, Eq)]
pub enum EntryData {
    Utf8(String),
    Integer(u32),
}

/// The mathematical value of an [`EntryData`].
pub enum EntryDataView {
    Utf8(Seq<char>),
    Integer(u32),
}

impl View for EntryData {
    type V = EntryDataView;

    open spec fn view(&self) -> EntryDataView {
        match self {
            EntryData::Utf8(s) => EntryDataView::Utf8(s@),
            EntryData::Integer(v) => EntryDataView::Integer(*v),
        }
    }
}

/// One decoded entry: its name, the raw index record it came from, its
/// ordinal (0-based position in the index table), and its typed value.
#[derive(Debug, PartialEq, Eq)]
pub struct Entry {
    pub name: String,
    pub index_table_entry: SfoIndexTableEntry,
    pub num: u32,
    pub data: EntryData,
}

/// The mathematical value of an [`Entry`].
pub struct EntryView {
    pub name: Seq<char>,
    pub index_table_entry: SfoIndexTableEntry,
    pub num: u32,
    pub data: EntryDataView,
}

impl View for Entry {
    type V = EntryView;

    open spec fn view(&self) -> EntryView {
        EntryView {
            name: self.name@,
            index_table_entry: self.index_table_entry,
            num: self.num,
            data: self.data@,
        }
    }
}

/// The views of a sequence of decoded entries.
pub open spec fn views_of(s: Seq<Entry>) -> Seq<EntryView> {
    s.map_values(|e: Entry| e@)
}

/// The index record stored at ordinal `i`, 16 bytes from byte offset
/// `20 + 16*i`.
pub open spec fn spec_index_entry(b: Seq<u8>, i: int) -> SfoIndexTableEntry
    recommends
        0 <= i,
        20 + 16 * i + 16 <= b.len(),
{
    SfoIndexTableEntry {
        key_offset: le16_at(b, 20 + 16 * i),
        data_fmt: le16_at(b, 20 + 16 * i + 2),
        data_len: le32_at(b, 20 + 16 * i + 4),
        data_max_len: le32_at(b, 20 + 16 * i + 8),
        data_offset: le32_at(b, 20 + 16 * i + 12),
    }
}

/// Where an entry's name starts: the key table's start plus the entry's
/// own key offset.
pub open spec fn spec_key_start(h: Header, e: SfoIndexTableEntry) -> int {
    h.key_table_start + e.key_offset
}

/// Where an entry's value starts: the data table's start plus the entry's
/// own data offset.
pub open spec fn spec_data_off(h: Header, e: SfoIndexTableEntry) -> int {
    h.data_table_start + e.data_offset
}

/// The position of the first zero byte at or after `i`, if any.
pub open spec fn spec_scan_zero(b: Seq<u8>, i: int) -> Option<int>
    decreases b.len() - i,
{
    if i < 0 || i >= b.len() {
        None
    } else if b[i] == 0 {
        Some(i)
    } else {
        spec_scan_zero(b, i + 1)
    }
}

/// What decoding ordinal `i` against header `h` yields: the entry's view,
/// or the first error the decoding algorithm meets.  The steps, in order:
/// bounds of the index record, name resolution, the capacity invariant
/// `data_len <= data_max_len`, then the value read selected by `data_fmt`.
pub open spec fn spec_decode_entry(b: Seq<u8>, h: Header, i: int) -> Result<EntryView, SfoError> {
    if 20 + 16 * i + 16 > b.len() {
        Err(SfoError::TruncatedIndexTable)
    } else {
        let e = spec_index_entry(b, i);
        match spec_scan_zero(b, spec_key_start(h, e)) {
            Option::None => Err(SfoError::UnterminatedKey),
            Option::Some(z) => {
                let name_bytes = b.subrange(spec_key_start(h, e), z);
                if !valid_utf8(name_bytes) {
                    Err(SfoError::InvalidKeyEncoding)
                } else if e.data_len > e.data_max_len {
                    Err(SfoError::CorruptEntry)
                } else {
                    let off = spec_data_off(h, e);
                    let name = decode_utf8(name_bytes);
                    if e.data_fmt == 0x0404 {
                        if off + 4 > b.len() {
                            Err(SfoError::BufferTooShort)
                        } else {
                            Ok(EntryView {
                                name: name,
                                index_table_entry: e,
                                num: i as u32,
                                data: EntryDataView::Integer(le32_at(b, off)),
                            })
                        }
                    } else if e.data_fmt == 0x0004 || e.data_fmt == 0x0204 {
                        if e.data_len == 0 {
                            Err(SfoError::ZeroLengthTextValue)
                        } else if off + e.data_len - 1 > b.len() {
                            Err(SfoError::BufferTooShort)
                        } else {
                            let value_bytes = b.subrange(off, off + e.data_len - 1);
                            if !valid_utf8(value_bytes) {
                                Err(SfoError::InvalidValueEncoding)
                            } else {
                                Ok(EntryView {
                                    name: name,
                                    index_table_entry: e,
                                    num: i as u32,
                                    data: EntryDataView::Utf8(decode_utf8(value_bytes)),
                                })
                            }
                        }
                    } else {
                        Err(SfoError::UnsupportedDataFormat(e.data_fmt))
                    }
                }
            },
        }
    }
}

/// A found zero byte lies in the buffer, at or after the scan start, and
/// is a zero byte.
pub proof fn lemma_scan_zero_props(b: Seq<u8>, s: int)
    ensures
        spec_scan_zero(b, s) matches Some(z) ==> s <= z < b.len() && b[z] == 0,
    decreases b.len() - s,
{
    if 0 <= s < b.len() && b[s] != 0 {
        lemma_scan_zero_props(b, s + 1);
    }
}

/// The scan result only depends on the bytes from the start up to and
/// including the zero byte it finds.
pub proof fn lemma_scan_zero_stable(b: Seq<u8>, b2: Seq<u8>, s: int, z: int)
    requires
        b2.len() == b.len(),
        spec_scan_zero(b, s) == Some(z),
        forall|x: int| s <= x <= z ==> b2[x] == b[x],
    ensures
        spec_scan_zero(b2, s) == Some(z),
    decreases b.len() - s,
{
    lemma_scan_zero_props(b, s);
    if b[s] != 0 {
        lemma_scan_zero_stable(b, b2, s + 1, z);
    }
}

/// Finds the first zero byte at or after `start`.
fn find_zero(buf: &Vec<u8>, start: usize) -> (r: Option<usize>)
    ensures
        r matches Some(j) ==> start <= j < buf@.len() && spec_scan_zero(buf@, start as int)
            == Some(j as int),
        r is None ==> spec_scan_zero(buf@, start as int) is None,
{
    let n: usize = buf.len();
    let mut j: usize = start;
    if j >= n {
        return None;
    }
    while j < n
        invariant
            start <= j <= n,
            n == buf@.len(),
            spec_scan_zero(buf@, start as int) == spec_scan_zero(buf@, j as int),
        decreases n - j,
    {
        if buf[j] == 0 {
            return Some(j);
        }
        j = j + 1;
    }
    None
}

/// Decodes the entry at ordinal `i`: its index record, its NUL-terminated
/// UTF-8 name, and its typed value, exactly as [`spec_decode_entry`] says.
pub fn decode_entry(buf: &Vec<u8>, header: &Header, i: u32) -> (r: Result<Entry, SfoError>)
    ensures
        r matches Ok(e) ==> spec_decode_entry(buf@, *header, i as int) == Ok::<
            EntryView,
            SfoError,
        >(e@),
        r matches Err(er) ==> spec_decode_entry(buf@, *header, i as int) == Err::<
            EntryView,
            SfoError,
        >(er),
{
    let n: usize = buf.len();
    let n64: u64 = n as u64;
    let rec64: u64 = 20 + 16 * (i as u64);
    if rec64 + 16 > n64 {
        return Err(SfoError::TruncatedIndexTable);
    }
    let rec: usize = rec64 as usize;
    let e = SfoIndexTableEntry {
        key_offset: read_le16(buf, rec),
        data_fmt: read_le16(buf, rec + 2),
        data_len: read_le32(buf, rec + 4),
        data_max_len: read_le32(buf, rec + 8),
        data_offset: read_le32(buf, rec + 12),
    };
    proof {
        assert(e == spec_index_entry(buf@, i as int));
    }
    let start64: u64 = header.key_table_start as u64 + e.key_offset as u64;
    let zpos: Option<usize> = if start64 >= n64 {
        None
    } else {
        find_zero(buf, start64 as usize)
    };
    let z: usize = match zpos {
        Option::None => {
            return Err(SfoError::UnterminatedKey);
        },
        Option::Some(z) => z,
    };
    let name_bytes = copy_range(buf, start64 as usize, z);
    let name: String = match bytes_to_string(name_bytes) {
        Option::None => {
            return Err(SfoError::InvalidKeyEncoding);
        },
        Option::Some(s) => s,
    };
    if e.data_len > e.data_max_len {
        return Err(SfoError::CorruptEntry);
    }
    let off64: u64 = header.data_table_start as u64 + e.data_offset as u64;
    if e.data_fmt == 0x0404 {
        if off64 + 4 > n64 {
            return Err(SfoError::BufferTooShort);
        }
        let v = read_le32(buf, off64 as usize);
        Ok(Entry { name, index_table_entry: e, num: i, data: EntryData::Integer(v) })
    } else if e.data_fmt == 0x0004 || e.data_fmt == 0x0204 {
        if e.data_len == 0 {
            return Err(SfoError::ZeroLengthTextValue);
        }
        if off64 + e.data_len as u64 - 1 > n64 {
            return Err(SfoError::BufferTooShort);
        }
        let value_bytes = copy_range(buf, off64 as usize, (off64 + e.data_len as u64 - 1) as usize);
        match bytes_to_string(value_bytes) {
            Option::None => Err(SfoError::InvalidValueEncoding),
            Option::Some(s) => Ok(
                Entry { name, index_table_entry: e, num: i, data: EntryData::Utf8(s) },
            ),
        }
    } else {
        Err(SfoError::UnsupportedDataFormat(e.data_fmt))
    }
}

/// What decoding the first `n` ordinals yields: the sequence of their
/// views, or the error of the least ordinal that fails.
pub open spec fn spec_decode_prefix(b: Seq<u8>, h: Header, n: int) -> Result<
    Seq<EntryView>,
    SfoError,
>
    decreases n,
{
    if n <= 0 {
        Ok(Seq::empty())
    } else {
        match spec_decode_prefix(b, h, n - 1) {
            Result::Ok(s) => match spec_decode_entry(b, h, n - 1) {
                Result::Ok(e) => Ok(s.push(e)),
                Result::Err(er) => Err(er),
            },
            Result::Err(er) => Err(er),
        }
    }
}

/// Once a prefix fails, every longer prefix fails with the same error.
proof fn lemma_prefix_keeps_err(b: Seq<u8>, h: Header, k: int, n: int)
    requires
        0 <= k <= n,
        spec_decode_prefix(b, h, k) is Err,
    ensures
        spec_decode_prefix(b, h, n) == spec_decode_prefix(b, h, k),
    decreases n - k,
{
    if k < n {
        lemma_prefix_keeps_err(b, h, k, n - 1);
    }
}

/// The capacity invariant: an ordinal only decodes when its index record
/// declares `data_len <= data_max_len`; a violating record is rejected
/// with `CorruptEntry`, never truncated.
pub proof fn lemma_decoded_entry_capacity(b: Seq<u8>, h: Header, i: int)
    ensures
        spec_decode_entry(b, h, i) matches Ok(e) ==> e.index_table_entry.data_len
            <= e.index_table_entry.data_max_len,
{
}

/// Decodes the whole index table against `header`: one entry per ordinal
/// in `[0, table_entries)`, in ordinal order, or the error of the least
/// ordinal that fails.  On success every entry satisfies the capacity
/// invariant `data_len <= data_max_len`.
pub fn decode_entries(buf: &Vec<u8>, header: &Header) -> (r: Result<Vec<Entry>, SfoError>)
    ensures
        r matches Ok(entries) ==> {
            &&& entries@.len() == header.table_entries
            &&& spec_decode_prefix(buf@, *header, header.table_entries as int) == Ok::<
                Seq<EntryView>,
                SfoError,
            >(views_of(entries@))
            &&& forall|k: int|
                0 <= k < entries@.len() ==> (#[trigger] entries@[k]).index_table_entry.data_len
                    <= entries@[k].index_table_entry.data_max_len
        },
        r matches Err(er) ==> spec_decode_prefix(buf@, *header, header.table_entries as int)
            == Err::<Seq<EntryView>, SfoError>(er),
{
    let mut entries: Vec<Entry> = Vec::new();
    let mut i: u32 = 0;
    proof {
        assert(views_of(entries@) =~= Seq::<EntryView>::empty());
    }
    while i < header.table_entries
        invariant
            i <= header.table_entries,
            entries@.len() == i,
            spec_decode_prefix(buf@, *header, i as int) == Ok::<Seq<EntryView>, SfoError>(
                views_of(entries@),
            ),
            forall|k: int|
                0 <= k < entries@.len() ==> (#[trigger] entries@[k]).index_table_entry.data_len
                    <= entries@[k].index_table_entry.data_max_len,
        decreases header.table_entries - i,
    {
        match decode_entry(buf, header, i) {
            Result::Ok(e) => {
                proof {
                    lemma_decoded_entry_capacity(buf@, *header, i as int);
                    assert(views_of(entries@.push(e)) =~= views_of(entries@).push(e@));
                }
                entries.push(e);
            },
            Result::Err(er) => {
                proof {
                    lemma_prefix_keeps_err(buf@, *header, i as int + 1, header.table_entries as int);
                }
                return Err(er);
            },
        }
        i = i + 1;
    }
    Ok(entries)
}

/// Decodes a whole buffer: the header, then every entry of the index
/// table.
pub fn decode_sfo(buf: &Vec<u8>) -> (r: Result<(Header, Vec<Entry>), SfoError>)
    ensures
        r matches Ok(p) ==> {
            &&& buf@.len() >= 20
            &&& p.0 == spec_header(buf@)
            &&& p.1@.len() == p.0.table_entries
            &&& spec_decode_prefix(buf@, p.0, p.0.table_entries as int) == Ok::<
                Seq<EntryView>,
                SfoError,
            >(views_of(p.1@))
        },
        r matches Err(er) ==> if buf@.len() < 20 {
            er == SfoError::BufferTooShort
        } else {
            spec_decode_prefix(buf@, spec_header(buf@), spec_header(buf@).table_entries as int)
                == Err::<Seq<EntryView>, SfoError>(er)
        },
{
    let header = match crate::header::decode_header(buf) {
        Result::Ok(h) => h,
        Result::Err(er) => {
            return Err(er);
        },
    };
    match decode_entries(buf, &header) {
        Result::Ok(entries) => Ok((header, entries)),
        Result::Err(er) => Err(er),
    }
}

/// Finds the entry carrying `name`.  With duplicate names the later
/// ordinal wins, so the search runs from the end; `None` means no entry
/// carries the name.
pub fn lookup(entries: &Vec<Entry>, name: &String) -> (r: Option<usize>)
    ensures
        r matches Some(j) ==> {
            &&& j < entries@.len()
            &&& entries@[j as int].name@ == name@
            &&& forall|k: int|
                j < k < entries@.len() ==> (#[trigger] entries@[k]).name@ != name@
        },
        r is None ==> forall|k: int|
            0 <= k < entries@.len() ==> (#[trigger] entries@[k]).name@ != name@,
{
    let mut j: usize = entries.len();
    while j > 0
        invariant
            j <= entries@.len(),
            forall|k: int| j <= k < entries@.len() ==> (#[trigger] entries@[k]).name@ != name@,
        decreases j,
    {
        j = j - 1;
        if entries[j].name.eq(name) {
            return Some(j);
        }
    }
    None
}

} // verus!
