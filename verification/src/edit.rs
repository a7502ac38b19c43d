//! The field editor: overwriting the 4-byte slot of a numeric entry in
//! place, leaving every other byte of the buffer untouched.

use vstd::prelude::*;
use vstd::bytes::{spec_u32_to_le_bytes, u32_to_le_bytes};
use crate::entries::{spec_data_off, spec_decode_entry, spec_decode_prefix, spec_index_entry, spec_key_start, spec_scan_zero, Entry, EntryData, EntryDataView, EntryView};
use crate::error::SfoError;
use crate::header::Header;

verus! {

/// The buffer with the 4 bytes at `[off, off+4)` replaced by `bytes4` and
/// every other byte unchanged.
pub open spec fn spec_write4(b: Seq<u8>, off: int, bytes4: Seq<u8>) -> Seq<u8>
    recommends
        0 <= off,
        off + 4 <= b.len(),
        bytes4.len() == 4,
{
    Seq::new(b.len(), |j: int| if off <= j < off + 4 { bytes4[j - off] } else { b[j] })
}

/// Edit isolation: the overwrite changes exactly the 4 bytes at
/// `[off, off+4)`, which become the little-endian encoding of `value`;
/// the length and every byte outside that window are unchanged.
pub proof fn lemma_write_isolation(b: Seq<u8>, off: int, value: u32)
    requires
        0 <= off,
        off + 4 <= b.len(),
    ensures
        spec_write4(b, off, spec_u32_to_le_bytes(value)).len() == b.len(),
        forall|j: int|
            0 <= j < b.len() && !(off <= j < off + 4) ==> spec_write4(
                b,
                off,
                spec_u32_to_le_bytes(value),
            )[j] == b[j],
        spec_write4(b, off, spec_u32_to_le_bytes(value)).subrange(off, off + 4)
            == spec_u32_to_le_bytes(value),
{
    vstd::bytes::lemma_auto_spec_u32_to_from_le_bytes();
    assert(spec_write4(b, off, spec_u32_to_le_bytes(value)).subrange(off, off + 4)
        =~= spec_u32_to_le_bytes(value));
}

/// Idempotence of the edit: writing the same value into the same slot
/// twice yields the same buffer as writing it once.
pub proof fn lemma_write_idempotent(b: Seq<u8>, off: int, value: u32)
    requires
        0 <= off,
        off + 4 <= b.len(),
    ensures
        spec_write4(
            spec_write4(b, off, spec_u32_to_le_bytes(value)),
            off,
            spec_u32_to_le_bytes(value),
        ) == spec_write4(b, off, spec_u32_to_le_bytes(value)),
{
    assert(spec_write4(
        spec_write4(b, off, spec_u32_to_le_bytes(value)),
        off,
        spec_u32_to_le_bytes(value),
    ) =~= spec_write4(b, off, spec_u32_to_le_bytes(value)));
}

/// The decode/re-encode round trip: writing back the very value a
/// numeric entry decoded to re-encodes the entry unmodified, leaving the
/// buffer identical, so decoding again yields an identical entry
/// sequence.
pub proof fn lemma_reencode_identity(b: Seq<u8>, h: Header, i: int)
    ensures
        spec_decode_entry(b, h, i) matches Ok(e) ==> (e.data matches EntryDataView::Integer(v)
            ==> spec_write4(
            b,
            spec_data_off(h, e.index_table_entry),
            spec_u32_to_le_bytes(v),
        ) == b),
        spec_decode_entry(b, h, i) matches Ok(e) ==> (e.data matches EntryDataView::Integer(v)
            ==> spec_decode_prefix(
            spec_write4(b, spec_data_off(h, e.index_table_entry), spec_u32_to_le_bytes(v)),
            h,
            h.table_entries as int,
        ) == spec_decode_prefix(b, h, h.table_entries as int)),
{
    vstd::bytes::lemma_auto_spec_u32_to_from_le_bytes();
    match spec_decode_entry(b, h, i) {
        Result::Ok(e) => {
            match e.data {
                EntryDataView::Integer(v) => {
                    let off = spec_data_off(h, e.index_table_entry);
                    assert(off + 4 <= b.len() && v == crate::wire::le32_at(b, off));
                    assert(spec_u32_to_le_bytes(v) == b.subrange(off, off + 4));
                    assert(spec_write4(b, off, b.subrange(off, off + 4)) =~= b);
                },
                EntryDataView::Utf8(_) => {},
            }
        },
        Result::Err(_) => {},
    }
}

/// Overwrites the 4-byte slot of a numeric entry with `value`, encoded
/// little-endian, at `data_table_start + data_offset`.  Succeeds exactly
/// when the entry is numeric and its slot lies inside the buffer; on any
/// error the buffer is unchanged.
pub fn write_numeric(buf: &mut Vec<u8>, header: &Header, entry: &Entry, value: u32) -> (r: Result<
    (),
    SfoError,
>)
    ensures
        match r {
            Result::Ok(()) => {
                &&& entry@.data is Integer
                &&& spec_data_off(*header, entry.index_table_entry) + 4 <= old(buf)@.len()
                &&& final(buf)@ == spec_write4(
                    old(buf)@,
                    spec_data_off(*header, entry.index_table_entry),
                    spec_u32_to_le_bytes(value),
                )
            },
            Result::Err(SfoError::NotANumericEntry) => {
                &&& entry@.data is Utf8
                &&& final(buf)@ == old(buf)@
            },
            Result::Err(SfoError::BufferTooShort) => {
                &&& entry@.data is Integer
                &&& spec_data_off(*header, entry.index_table_entry) + 4 > old(buf)@.len()
                &&& final(buf)@ == old(buf)@
            },
            Result::Err(_) => false,
        },
{
    match &entry.data {
        EntryData::Utf8(_) => {
            return Err(SfoError::NotANumericEntry);
        },
        EntryData::Integer(_) => {},
    }
    let n64: u64 = buf.len() as u64;
    let off64: u64 = header.data_table_start as u64 + entry.index_table_entry.data_offset as u64;
    if off64 + 4 > n64 {
        return Err(SfoError::BufferTooShort);
    }
    let off: usize = off64 as usize;
    let bytes = u32_to_le_bytes(value);
    let b0: u8 = bytes[0];
    let b1: u8 = bytes[1];
    let b2: u8 = bytes[2];
    let b3: u8 = bytes[3];
    buf[off] = b0;
    buf[off + 1] = b1;
    buf[off + 2] = b2;
    buf[off + 3] = b3;
    proof {
        assert(buf@ =~= spec_write4(
            old(buf)@,
            spec_data_off(*header, entry.index_table_entry),
            spec_u32_to_le_bytes(value),
        ));
    }
    Ok(())
}

/// True when `[a1, b1)` and `[a2, b2)` share no position.
pub open spec fn spec_ranges_disjoint(a1: int, b1: int, a2: int, b2: int) -> bool {
    b1 <= a2 || b2 <= a1
}

/// True when the 4-byte window at `off` touches none of the bytes that
/// decoding ordinal `j` reads: its index record, its key name together
/// with the terminating zero byte, and its value bytes.
pub open spec fn spec_edit_disjoint(b: Seq<u8>, h: Header, j: int, off: int) -> bool {
    let e = spec_index_entry(b, j);
    let ks = spec_key_start(h, e);
    let vo = spec_data_off(h, e);
    &&& spec_ranges_disjoint(off, off + 4, 20 + 16 * j, 20 + 16 * j + 16)
    &&& (spec_scan_zero(b, ks) matches Some(z) ==> spec_ranges_disjoint(off, off + 4, ks, z + 1))
    &&& (e.data_fmt == 0x0404 ==> spec_ranges_disjoint(off, off + 4, vo, vo + 4))
    &&& ((e.data_fmt == 0x0004 || e.data_fmt == 0x0204) ==> spec_ranges_disjoint(
        off,
        off + 4,
        vo,
        vo + e.data_len - 1,
    ))
}

/// Re-decoding after an edit, the untouched entries: an ordinal whose
/// record, name and value bytes all lie outside the written window
/// decodes in the mutated buffer to the bit-identical entry.
pub proof fn lemma_edit_preserves_entry(b: Seq<u8>, h: Header, j: int, off: int, w: Seq<u8>)
    requires
        0 <= j,
        0 <= off,
        off + 4 <= b.len(),
        w.len() == 4,
        spec_decode_entry(b, h, j) is Ok,
        spec_edit_disjoint(b, h, j, off),
    ensures
        spec_decode_entry(spec_write4(b, off, w), h, j) == spec_decode_entry(b, h, j),
{
    let b2 = spec_write4(b, off, w);
    assert(b2.len() == b.len());
    assert(forall|x: int| 0 <= x < b.len() && !(off <= x < off + 4) ==> b2[x] == b[x]);
    let e = spec_index_entry(b, j);
    assert(20 + 16 * j + 16 <= b.len());
    assert(b2.subrange(20 + 16 * j, 20 + 16 * j + 2) =~= b.subrange(20 + 16 * j, 20 + 16 * j + 2));
    assert(b2.subrange(20 + 16 * j + 2, 20 + 16 * j + 4) =~= b.subrange(
        20 + 16 * j + 2,
        20 + 16 * j + 4,
    ));
    assert(b2.subrange(20 + 16 * j + 4, 20 + 16 * j + 8) =~= b.subrange(
        20 + 16 * j + 4,
        20 + 16 * j + 8,
    ));
    assert(b2.subrange(20 + 16 * j + 8, 20 + 16 * j + 12) =~= b.subrange(
        20 + 16 * j + 8,
        20 + 16 * j + 12,
    ));
    assert(b2.subrange(20 + 16 * j + 12, 20 + 16 * j + 16) =~= b.subrange(
        20 + 16 * j + 12,
        20 + 16 * j + 16,
    ));
    assert(spec_index_entry(b2, j) == e);
    let ks = spec_key_start(h, e);
    crate::entries::lemma_scan_zero_props(b, ks);
    match spec_scan_zero(b, ks) {
        Option::Some(z) => {
            crate::entries::lemma_scan_zero_stable(b, b2, ks, z);
            assert(b2.subrange(ks, z) =~= b.subrange(ks, z));
            let vo = spec_data_off(h, e);
            if e.data_fmt == 0x0404 {
                assert(vo + 4 <= b.len());
                assert(b2.subrange(vo, vo + 4) =~= b.subrange(vo, vo + 4));
            } else if e.data_fmt == 0x0004 || e.data_fmt == 0x0204 {
                assert(e.data_len >= 1 && vo + e.data_len - 1 <= b.len());
                assert(b2.subrange(vo, vo + e.data_len - 1) =~= b.subrange(vo, vo + e.data_len - 1));
            }
        },
        Option::None => {
            assert(false);
        },
    }
}

/// The entry view `e` with its value replaced by `Integer(value)` and
/// everything else unchanged.
pub open spec fn spec_with_value(e: EntryView, value: u32) -> EntryView {
    EntryView {
        name: e.name,
        index_table_entry: e.index_table_entry,
        num: e.num,
        data: EntryDataView::Integer(value),
    }
}

/// Re-decoding after an edit, the edited entry: a numeric ordinal whose
/// record and name bytes lie outside its own 4-byte value slot decodes
/// in the mutated buffer to the same entry carrying the new value.
pub proof fn lemma_edit_updates_entry(b: Seq<u8>, h: Header, i: int, value: u32)
    requires
        0 <= i,
        spec_decode_entry(b, h, i) is Ok,
        spec_index_entry(b, i).data_fmt == 0x0404,
        spec_ranges_disjoint(
            spec_data_off(h, spec_index_entry(b, i)),
            spec_data_off(h, spec_index_entry(b, i)) + 4,
            20 + 16 * i,
            20 + 16 * i + 16,
        ),
        spec_scan_zero(b, spec_key_start(h, spec_index_entry(b, i))) matches Some(z)
            ==> spec_ranges_disjoint(
            spec_data_off(h, spec_index_entry(b, i)),
            spec_data_off(h, spec_index_entry(b, i)) + 4,
            spec_key_start(h, spec_index_entry(b, i)),
            z + 1,
        ),
    ensures
        spec_decode_entry(b, h, i) matches Ok(e) ==> spec_decode_entry(
            spec_write4(b, spec_data_off(h, e.index_table_entry), spec_u32_to_le_bytes(value)),
            h,
            i,
        ) == Ok::<EntryView, SfoError>(spec_with_value(e, value)),
{
    vstd::bytes::lemma_auto_spec_u32_to_from_le_bytes();
    let e = spec_index_entry(b, i);
    let vo = spec_data_off(h, e);
    let b2 = spec_write4(b, vo, spec_u32_to_le_bytes(value));
    assert(b2.len() == b.len());
    assert(forall|x: int| 0 <= x < b.len() && !(vo <= x < vo + 4) ==> b2[x] == b[x]);
    assert(20 + 16 * i + 16 <= b.len());
    assert(vo + 4 <= b.len());
    assert(b2.subrange(20 + 16 * i, 20 + 16 * i + 2) =~= b.subrange(20 + 16 * i, 20 + 16 * i + 2));
    assert(b2.subrange(20 + 16 * i + 2, 20 + 16 * i + 4) =~= b.subrange(
        20 + 16 * i + 2,
        20 + 16 * i + 4,
    ));
    assert(b2.subrange(20 + 16 * i + 4, 20 + 16 * i + 8) =~= b.subrange(
        20 + 16 * i + 4,
        20 + 16 * i + 8,
    ));
    assert(b2.subrange(20 + 16 * i + 8, 20 + 16 * i + 12) =~= b.subrange(
        20 + 16 * i + 8,
        20 + 16 * i + 12,
    ));
    assert(b2.subrange(20 + 16 * i + 12, 20 + 16 * i + 16) =~= b.subrange(
        20 + 16 * i + 12,
        20 + 16 * i + 16,
    ));
    assert(spec_index_entry(b2, i) == e);
    let ks = spec_key_start(h, e);
    crate::entries::lemma_scan_zero_props(b, ks);
    match spec_scan_zero(b, ks) {
        Option::Some(z) => {
            crate::entries::lemma_scan_zero_stable(b, b2, ks, z);
            assert(b2.subrange(ks, z) =~= b.subrange(ks, z));
            assert(spec_u32_to_le_bytes(value).len() == 4);
            assert(b2.subrange(vo, vo + 4) == spec_u32_to_le_bytes(value)) by {
                assert(b2.subrange(vo, vo + 4) =~= spec_u32_to_le_bytes(value));
            }
            assert(crate::wire::le32_at(b2, vo) == value);
        },
        Option::None => {
            assert(false);
        },
    }
}

/// A decoded prefix holds one entry per ordinal.
proof fn lemma_prefix_len(b: Seq<u8>, h: Header, n: int)
    requires
        0 <= n,
    ensures
        spec_decode_prefix(b, h, n) matches Ok(s) ==> s.len() == n,
    decreases n,
{
    if n > 0 {
        lemma_prefix_len(b, h, n - 1);
    }
}

/// True when overwriting ordinal `i`'s value slot cannot disturb any
/// read of the decoding pass: `i` is a numeric ordinal that decodes, its
/// slot lies outside its own record and name, and outside everything any
/// other ordinal reads.
pub open spec fn spec_edit_ok(b: Seq<u8>, h: Header, i: int) -> bool {
    let e = spec_index_entry(b, i);
    let ks = spec_key_start(h, e);
    let vo = spec_data_off(h, e);
    &&& 0 <= i < h.table_entries
    &&& spec_decode_entry(b, h, i) is Ok
    &&& e.data_fmt == 0x0404
    &&& spec_ranges_disjoint(vo, vo + 4, 20 + 16 * i, 20 + 16 * i + 16)
    &&& (spec_scan_zero(b, ks) matches Some(z) ==> spec_ranges_disjoint(vo, vo + 4, ks, z + 1))
    &&& forall|j: int|
        0 <= j < h.table_entries && j != i ==> spec_edit_disjoint(b, h, j, vo)
}

proof fn lemma_redecode_prefix(b: Seq<u8>, h: Header, i: int, value: u32, n: int)
    requires
        spec_edit_ok(b, h, i),
        0 <= n <= h.table_entries,
    ensures
        spec_decode_prefix(b, h, n) matches Ok(s) ==> spec_decode_prefix(
            spec_write4(b, spec_data_off(h, spec_index_entry(b, i)), spec_u32_to_le_bytes(value)),
            h,
            n,
        ) == Ok::<Seq<EntryView>, SfoError>(
            if i < n {
                s.update(i, spec_with_value(s[i], value))
            } else {
                s
            },
        ),
    decreases n,
{
    vstd::bytes::lemma_auto_spec_u32_to_from_le_bytes();
    let e_i = spec_index_entry(b, i);
    let vo = spec_data_off(h, e_i);
    let w = spec_u32_to_le_bytes(value);
    let b2 = spec_write4(b, vo, w);
    if n > 0 {
        lemma_redecode_prefix(b, h, i, value, n - 1);
        lemma_prefix_len(b, h, n - 1);
        match spec_decode_prefix(b, h, n) {
            Result::Ok(s) => {
                let s_prev = spec_decode_prefix(b, h, n - 1)->Ok_0;
                let last = spec_decode_entry(b, h, n - 1)->Ok_0;
                assert(s == s_prev.push(last));
                assert(s_prev.len() == n - 1);
                assert(vo + 4 <= b.len());
                if n - 1 == i {
                    lemma_edit_updates_entry(b, h, i, value);
                    assert(spec_decode_entry(b2, h, n - 1) == Ok::<EntryView, SfoError>(
                        spec_with_value(last, value),
                    ));
                    assert(s[i] == last);
                    assert(s.update(i, spec_with_value(s[i], value)) =~= s_prev.push(
                        spec_with_value(last, value),
                    ));
                } else {
                    lemma_edit_preserves_entry(b, h, n - 1, vo, w);
                    assert(spec_decode_entry(b2, h, n - 1) == Ok::<EntryView, SfoError>(last));
                    if i < n - 1 {
                        assert(s[i] == s_prev[i]);
                        assert(s.update(i, spec_with_value(s[i], value)) =~= s_prev.update(
                            i,
                            spec_with_value(s_prev[i], value),
                        ).push(last));
                    }
                }
            },
            Result::Err(_) => {},
        }
    }
}

/// Re-decoding the mutated buffer: where [`spec_edit_ok`] holds, the
/// buffer with ordinal `i`'s value slot overwritten decodes to the same
/// entry sequence with exactly that entry's value replaced by `value` —
/// the new numeric value for the edited entry, bit-identical entries for
/// every other ordinal.
pub proof fn lemma_redecode_after_edit(b: Seq<u8>, h: Header, i: int, value: u32)
    requires
        spec_edit_ok(b, h, i),
    ensures
        spec_decode_prefix(b, h, h.table_entries as int) matches Ok(s) ==> spec_decode_prefix(
            spec_write4(b, spec_data_off(h, spec_index_entry(b, i)), spec_u32_to_le_bytes(value)),
            h,
            h.table_entries as int,
        ) == Ok::<Seq<EntryView>, SfoError>(s.update(i, spec_with_value(s[i], value))),
{
    lemma_redecode_prefix(b, h, i, value, h.table_entries as int);
}

/// The ordinal of the last entry carrying `name`, if any: the ordinal a
/// name lookup resolves to when duplicate names occur (later ordinals
/// win).
pub open spec fn spec_last_match(s: Seq<Entry>, name: Seq<char>) -> Option<int>
    decreases s.len(),
{
    if s.len() == 0 {
        None
    } else if s[s.len() - 1].name@ == name {
        Some(s.len() - 1)
    } else {
        spec_last_match(s.drop_last(), name)
    }
}

/// `spec_last_match` returns exactly the greatest ordinal whose entry
/// carries the name, and `None` exactly when no entry does.
pub proof fn lemma_last_match_characterization(s: Seq<Entry>, name: Seq<char>)
    ensures
        spec_last_match(s, name) matches Some(j) ==> {
            &&& 0 <= j < s.len()
            &&& s[j].name@ == name
            &&& forall|k: int| j < k < s.len() ==> (#[trigger] s[k]).name@ != name
        },
        spec_last_match(s, name) is None ==> forall|k: int|
            0 <= k < s.len() ==> (#[trigger] s[k]).name@ != name,
    decreases s.len(),
{
    if s.len() > 0 && s[s.len() - 1].name@ != name {
        lemma_last_match_characterization(s.drop_last(), name);
        assert(forall|k: int|
            0 <= k < s.len() - 1 ==> (#[trigger] s[k]) == s.drop_last()[k]);
    }
}

/// Resolves `name` to its entry (later ordinals win on duplicates) and
/// overwrites that entry's numeric slot with `value`.  Fails with
/// `EntryNotFound` when no entry carries the name; on any error the
/// buffer is unchanged.
pub fn write_numeric_by_name(
    buf: &mut Vec<u8>,
    header: &Header,
    entries: &Vec<Entry>,
    name: &String,
    value: u32,
) -> (r: Result<(), SfoError>)
    ensures
        match r {
            Result::Ok(()) => spec_last_match(entries@, name@) matches Some(j) && {
                &&& entries@[j]@.data is Integer
                &&& spec_data_off(*header, entries@[j].index_table_entry) + 4 <= old(buf)@.len()
                &&& final(buf)@ == spec_write4(
                    old(buf)@,
                    spec_data_off(*header, entries@[j].index_table_entry),
                    spec_u32_to_le_bytes(value),
                )
            },
            Result::Err(SfoError::EntryNotFound) => {
                &&& spec_last_match(entries@, name@) is None
                &&& final(buf)@ == old(buf)@
            },
            Result::Err(SfoError::NotANumericEntry) => spec_last_match(entries@, name@)
                matches Some(j) && {
                &&& entries@[j]@.data is Utf8
                &&& final(buf)@ == old(buf)@
            },
            Result::Err(SfoError::BufferTooShort) => spec_last_match(entries@, name@)
                matches Some(j) && {
                &&& entries@[j]@.data is Integer
                &&& spec_data_off(*header, entries@[j].index_table_entry) + 4 > old(buf)@.len()
                &&& final(buf)@ == old(buf)@
            },
            Result::Err(_) => false,
        },
{
    proof {
        lemma_last_match_characterization(entries@, name@);
    }
    match crate::entries::lookup(entries, name) {
        Option::None => Err(SfoError::EntryNotFound),
        Option::Some(j) => {
            proof {
                lemma_last_match_unique(entries@, name@, j as int);
            }
            write_numeric(buf, header, &entries[j], value)
        },
    }
}

/// An ordinal that carries the name and is followed by no other carrier
/// is the one `spec_last_match` returns.
proof fn lemma_last_match_unique(s: Seq<Entry>, name: Seq<char>, j: int)
    requires
        0 <= j < s.len(),
        s[j].name@ == name,
        forall|k: int| j < k < s.len() ==> (#[trigger] s[k]).name@ != name,
    ensures
        spec_last_match(s, name) == Some(j),
    decreases s.len(),
{
    if j < s.len() - 1 {
        lemma_last_match_unique(s.drop_last(), name, j);
    }
}

} // verus!
