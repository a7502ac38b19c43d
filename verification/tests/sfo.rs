use sfo_editor::edit::{write_numeric, write_numeric_by_name};
use sfo_editor::entries::{decode_entries, decode_entry, decode_sfo, lookup};
use sfo_editor::header::decode_header;
use sfo_editor::hex::parse_hex;
use sfo_editor::{Entry, EntryData, Header, SfoError};

fn push_le16(b: &mut Vec<u8>, v: u16) {
    b.extend_from_slice(&v.to_le_bytes());
}

fn push_le32(b: &mut Vec<u8>, v: u32) {
    b.extend_from_slice(&v.to_le_bytes());
}

/// A buffer with the scenario header, one index entry, the key table
/// holding `CATEGORY\0` right after the index table, and the data table
/// at 0x30.
fn scenario_buf(data_fmt: u16, data_len: u32, data_max_len: u32, data: &[u8]) -> Vec<u8> {
    let mut b: Vec<u8> = Vec::new();
    push_le32(&mut b, 0x46535000); // magic
    push_le32(&mut b, 0x00000101); // version
    push_le32(&mut b, 0x24); // key_table_start
    push_le32(&mut b, 0x30); // data_table_start
    push_le32(&mut b, 1); // table_entries
    push_le16(&mut b, 0); // key_offset
    push_le16(&mut b, data_fmt);
    push_le32(&mut b, data_len);
    push_le32(&mut b, data_max_len);
    push_le32(&mut b, 0); // data_offset
    b.extend_from_slice(b"CATEGORY\0");
    while b.len() < 0x30 {
        b.push(0);
    }
    b.extend_from_slice(data);
    b
}

/// A buffer with two entries whose keys sit at offsets 0 and 9 of the key
/// table; the data table holds two 4-byte numeric slots.
fn two_entry_buf(key_off_0: u16, key_off_1: u16) -> Vec<u8> {
    let mut b: Vec<u8> = Vec::new();
    push_le32(&mut b, 0x46535000);
    push_le32(&mut b, 0x00000101);
    push_le32(&mut b, 0x34); // key table after two index entries
    push_le32(&mut b, 0x48); // data table
    push_le32(&mut b, 2);
    push_le16(&mut b, key_off_0);
    push_le16(&mut b, 0x0404);
    push_le32(&mut b, 4);
    push_le32(&mut b, 4);
    push_le32(&mut b, 0);
    push_le16(&mut b, key_off_1);
    push_le16(&mut b, 0x0404);
    push_le32(&mut b, 4);
    push_le32(&mut b, 4);
    push_le32(&mut b, 4);
    b.extend_from_slice(b"CATEGORY\0VERSION\0");
    while b.len() < 0x48 {
        b.push(0);
    }
    push_le32(&mut b, 0x11);
    push_le32(&mut b, 0x22);
    b
}

#[test]
fn header_fields() {
    let buf = scenario_buf(0x0404, 4, 4, &[1, 0, 0, 0]);
    let h = decode_header(&buf).unwrap();
    assert_eq!(
        h,
        Header {
            magic: 0x46535000,
            version: 0x00000101,
            key_table_start: 0x24,
            data_table_start: 0x30,
            table_entries: 1,
        }
    );
}

#[test]
fn header_too_short() {
    let buf: Vec<u8> = vec![0; 19];
    assert_eq!(decode_header(&buf), Err(SfoError::BufferTooShort));
    let empty: Vec<u8> = Vec::new();
    assert_eq!(decode_header(&empty), Err(SfoError::BufferTooShort));
}

#[test]
fn scenario_a_number() {
    let buf = scenario_buf(0x0404, 4, 4, &[1, 0, 0, 0]);
    let (h, entries) = decode_sfo(&buf).unwrap();
    assert_eq!(h.table_entries, 1);
    assert_eq!(entries.len(), 1);
    let e = &entries[0];
    assert_eq!(e.name, "CATEGORY");
    assert_eq!(e.num, 0);
    assert_eq!(e.data, EntryData::Integer(1));
    assert_eq!(e.index_table_entry.data_fmt, 0x0404);
    assert_eq!(e.index_table_entry.data_len, 4);
    assert_eq!(e.index_table_entry.data_max_len, 4);
    assert_eq!(e.index_table_entry.data_offset, 0);
}

#[test]
fn scenario_b_text() {
    let buf = scenario_buf(0x0204, 5, 8, b"test\0");
    let (_, entries) = decode_sfo(&buf).unwrap();
    assert_eq!(entries.len(), 1);
    assert_eq!(entries[0].name, "CATEGORY");
    assert_eq!(entries[0].data, EntryData::Utf8("test".to_string()));
}

#[test]
fn text_fmt_0004_decodes_too() {
    let buf = scenario_buf(0x0004, 5, 8, b"test\0");
    let (_, entries) = decode_sfo(&buf).unwrap();
    assert_eq!(entries[0].data, EntryData::Utf8("test".to_string()));
}

#[test]
fn scenario_c_not_numeric() {
    let mut buf = scenario_buf(0x0204, 5, 8, b"test\0");
    let before = buf.clone();
    let (h, entries) = decode_sfo(&buf).unwrap();
    let r = write_numeric(&mut buf, &h, &entries[0], 2);
    assert_eq!(r, Err(SfoError::NotANumericEntry));
    assert_eq!(buf, before);
}

#[test]
fn scenario_d_write_and_redecode() {
    let mut buf = scenario_buf(0x0404, 4, 4, &[1, 0, 0, 0]);
    let (h, entries) = decode_sfo(&buf).unwrap();
    let key_table_before = buf[0x24..0x30].to_vec();
    write_numeric(&mut buf, &h, &entries[0], 0x00000002).unwrap();
    let (_, redecoded) = decode_sfo(&buf).unwrap();
    assert_eq!(redecoded[0].data, EntryData::Integer(2));
    assert_eq!(&buf[0x24..0x30], key_table_before.as_slice());
}

#[test]
fn scenario_e_zero_length_text() {
    let buf = scenario_buf(0x0004, 0, 8, &[0, 0, 0, 0]);
    assert_eq!(decode_sfo(&buf), Err(SfoError::ZeroLengthTextValue));
}

#[test]
fn decode_twice_is_identical() {
    let buf = scenario_buf(0x0204, 5, 8, b"test\0");
    let first = decode_sfo(&buf).unwrap();
    let second = decode_sfo(&buf).unwrap();
    assert_eq!(first, second);
}

#[test]
fn reencode_unmodified_is_identity() {
    let mut buf = scenario_buf(0x0404, 4, 4, &[1, 0, 0, 0]);
    let before = buf.clone();
    let (h, entries) = decode_sfo(&buf).unwrap();
    let v = match entries[0].data {
        EntryData::Integer(v) => v,
        _ => unreachable!(),
    };
    write_numeric(&mut buf, &h, &entries[0], v).unwrap();
    assert_eq!(buf, before);
    let (_, again) = decode_sfo(&buf).unwrap();
    assert_eq!(again, entries);
}

#[test]
fn write_twice_is_idempotent() {
    let mut buf = scenario_buf(0x0404, 4, 4, &[1, 0, 0, 0]);
    let (h, entries) = decode_sfo(&buf).unwrap();
    write_numeric(&mut buf, &h, &entries[0], 0xDEADBEEF).unwrap();
    let after_first = buf.clone();
    write_numeric(&mut buf, &h, &entries[0], 0xDEADBEEF).unwrap();
    assert_eq!(buf, after_first);
}

#[test]
fn corrupt_entry_rejected() {
    let buf = scenario_buf(0x0204, 5, 4, b"test\0");
    assert_eq!(decode_sfo(&buf), Err(SfoError::CorruptEntry));
}

#[test]
fn edit_changes_exactly_four_bytes() {
    let mut buf = scenario_buf(0x0404, 4, 4, &[1, 0, 0, 0]);
    let before = buf.clone();
    let (h, entries) = decode_sfo(&buf).unwrap();
    write_numeric(&mut buf, &h, &entries[0], 0x04030201).unwrap();
    assert_eq!(buf.len(), before.len());
    for i in 0..buf.len() {
        if i >= 0x30 && i < 0x34 {
            continue;
        }
        assert_eq!(buf[i], before[i], "byte {} changed", i);
    }
    assert_eq!(&buf[0x30..0x34], &[1, 2, 3, 4]);
}

#[test]
fn truncated_index_table() {
    // Two entries are claimed but only one 16-byte record fits.  The
    // first entry must decode, so its key and value point back into the
    // header bytes; the second record is out of bounds.
    let mut buf: Vec<u8> = Vec::new();
    push_le32(&mut buf, 0x46535000);
    push_le32(&mut buf, 0x00000101);
    push_le32(&mut buf, 2); // key table inside the header
    push_le32(&mut buf, 0); // data table at the buffer start
    push_le32(&mut buf, 2); // two entries claimed
    push_le16(&mut buf, 0);
    push_le16(&mut buf, 0x0404);
    push_le32(&mut buf, 4);
    push_le32(&mut buf, 4);
    push_le32(&mut buf, 0);
    assert_eq!(buf.len(), 36);
    let h = decode_header(&buf).unwrap();
    assert_eq!(h.table_entries, 2);
    assert!(decode_entry(&buf, &h, 0).is_ok());
    assert_eq!(decode_entries(&buf, &h), Err(SfoError::TruncatedIndexTable));
}

#[test]
fn unterminated_key() {
    let mut buf = scenario_buf(0x0404, 4, 4, &[1, 0, 0, 0]);
    for i in 0x24..buf.len() {
        buf[i] = 0xCC; // no zero byte from the key start to the end
    }
    assert_eq!(decode_sfo(&buf), Err(SfoError::UnterminatedKey));
}

#[test]
fn key_start_past_buffer_is_unterminated() {
    let mut buf = scenario_buf(0x0404, 4, 4, &[1, 0, 0, 0]);
    buf[8..12].copy_from_slice(&0xFFFF0000u32.to_le_bytes());
    assert_eq!(decode_sfo(&buf), Err(SfoError::UnterminatedKey));
}

#[test]
fn invalid_key_encoding() {
    let mut buf = scenario_buf(0x0404, 4, 4, &[1, 0, 0, 0]);
    buf[0x24] = 0xFF;
    buf[0x25] = 0xFE;
    assert_eq!(decode_sfo(&buf), Err(SfoError::InvalidKeyEncoding));
}

#[test]
fn invalid_value_encoding() {
    let buf = scenario_buf(0x0204, 3, 8, &[0xFF, 0xFE, 0]);
    assert_eq!(decode_sfo(&buf), Err(SfoError::InvalidValueEncoding));
}

#[test]
fn unsupported_data_format() {
    let buf = scenario_buf(0x0505, 4, 4, &[1, 0, 0, 0]);
    assert_eq!(decode_sfo(&buf), Err(SfoError::UnsupportedDataFormat(0x0505)));
}

#[test]
fn numeric_value_out_of_bounds() {
    let mut buf = scenario_buf(0x0404, 4, 4, &[1, 0, 0, 0]);
    // Point the value slot far past the end of the buffer.
    buf[32..36].copy_from_slice(&0x10000u32.to_le_bytes());
    assert_eq!(decode_sfo(&buf), Err(SfoError::BufferTooShort));
}

#[test]
fn decode_single_entry() {
    let buf = scenario_buf(0x0404, 4, 4, &[7, 0, 0, 0]);
    let h = decode_header(&buf).unwrap();
    let e: Entry = decode_entry(&buf, &h, 0).unwrap();
    assert_eq!(e.name, "CATEGORY");
    assert_eq!(e.data, EntryData::Integer(7));
}

#[test]
fn lookup_finds_by_name() {
    let buf = two_entry_buf(0, 9);
    let (h, entries) = decode_sfo(&buf).unwrap();
    assert_eq!(h.table_entries, 2);
    assert_eq!(entries[0].name, "CATEGORY");
    assert_eq!(entries[1].name, "VERSION");
    assert_eq!(entries[0].data, EntryData::Integer(0x11));
    assert_eq!(entries[1].data, EntryData::Integer(0x22));
    assert_eq!(lookup(&entries, &"VERSION".to_string()), Some(1));
    assert_eq!(lookup(&entries, &"CATEGORY".to_string()), Some(0));
    assert_eq!(lookup(&entries, &"TITLE".to_string()), None);
}

#[test]
fn lookup_duplicate_names_later_ordinal_wins() {
    let buf = two_entry_buf(0, 0); // both entries named CATEGORY
    let (_, entries) = decode_sfo(&buf).unwrap();
    assert_eq!(entries[0].name, "CATEGORY");
    assert_eq!(entries[1].name, "CATEGORY");
    assert_eq!(lookup(&entries, &"CATEGORY".to_string()), Some(1));
}

#[test]
fn write_by_name_hits_later_duplicate() {
    let mut buf = two_entry_buf(0, 0);
    let (h, entries) = decode_sfo(&buf).unwrap();
    write_numeric_by_name(&mut buf, &h, &entries, &"CATEGORY".to_string(), 0x99).unwrap();
    let (_, redecoded) = decode_sfo(&buf).unwrap();
    assert_eq!(redecoded[0].data, EntryData::Integer(0x11)); // first slot untouched
    assert_eq!(redecoded[1].data, EntryData::Integer(0x99));
}

#[test]
fn write_by_name_entry_not_found() {
    let mut buf = scenario_buf(0x0404, 4, 4, &[1, 0, 0, 0]);
    let before = buf.clone();
    let (h, entries) = decode_sfo(&buf).unwrap();
    let r = write_numeric_by_name(&mut buf, &h, &entries, &"TITLE".to_string(), 2);
    assert_eq!(r, Err(SfoError::EntryNotFound));
    assert_eq!(buf, before);
}

#[test]
fn write_out_of_bounds_slot() {
    let mut buf = scenario_buf(0x0404, 4, 4, &[1, 0, 0, 0]);
    let (h, entries) = decode_sfo(&buf).unwrap();
    let before = buf.clone();
    let mut entry = entries.into_iter().next().unwrap();
    entry.index_table_entry.data_offset = 0x10000;
    let r = write_numeric(&mut buf, &h, &entry, 2);
    assert_eq!(r, Err(SfoError::BufferTooShort));
    assert_eq!(buf, before);
}

#[test]
fn parse_hex_values() {
    assert_eq!(parse_hex("0x1A"), Ok(26));
    assert_eq!(parse_hex("0xdeadbeef"), Ok(0xDEADBEEF));
    assert_eq!(parse_hex("0xAB"), Ok(171));
    assert_eq!(parse_hex("0x0"), Ok(0));
    assert_eq!(parse_hex("0xFFFFFFFF"), Ok(u32::MAX));
    assert_eq!(parse_hex("0x0000000001"), Ok(1)); // leading zeros are fine
}

#[test]
fn parse_hex_rejects_malformed() {
    assert_eq!(parse_hex("12"), Err(SfoError::InvalidHexLiteral));
    assert_eq!(parse_hex("0x"), Err(SfoError::InvalidHexLiteral));
    assert_eq!(parse_hex("0XFF"), Err(SfoError::InvalidHexLiteral));
    assert_eq!(parse_hex("0xZZ"), Err(SfoError::InvalidHexLiteral));
    assert_eq!(parse_hex(""), Err(SfoError::InvalidHexLiteral));
    assert_eq!(parse_hex("0x100000000"), Err(SfoError::InvalidHexLiteral));
}

#[test]
fn render_number_zero_padded_hex() {
    assert_eq!(EntryData::Integer(1).display_string(), "0x00000001");
    assert_eq!(EntryData::Integer(0xDEADBEEF).display_string(), "0xdeadbeef");
    assert_eq!(EntryData::Integer(0).display_string(), "0x00000000");
}

#[test]
fn render_text_quoted() {
    assert_eq!(
        EntryData::Utf8("test".to_string()).display_string(),
        "\"test\""
    );
}

#[test]
fn render_entry_line() {
    let buf = scenario_buf(0x0404, 4, 4, &[1, 0, 0, 0]);
    let (_, entries) = decode_sfo(&buf).unwrap();
    assert_eq!(entries[0].display_string(), "CATEGORY: 0x00000001");
}
