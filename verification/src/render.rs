//! Human-readable rendering of decoded entries: a numeric value prints as
//! `0x` and eight zero-padded lowercase hexadecimal digits, a text value
//! prints quoted, and an entry prints as its name, a colon, and its
//! value.

use vstd::prelude::*;
use vstd::string::StringExecFns;
use crate::entries::{Entry, EntryData, EntryDataView, EntryView};

verus! {

/// The lowercase hexadecimal digit for a value below 16.
pub open spec fn spec_hex_char(d: u8) -> char
    recommends
        d < 16,
{
    if d == 0 {
        '0'
    } else if d == 1 {
        '1'
    } else if d == 2 {
        '2'
    } else if d == 3 {
        '3'
    } else if d == 4 {
        '4'
    } else if d == 5 {
        '5'
    } else if d == 6 {
        '6'
    } else if d == 7 {
        '7'
    } else if d == 8 {
        '8'
    } else if d == 9 {
        '9'
    } else if d == 10 {
        'a'
    } else if d == 11 {
        'b'
    } else if d == 12 {
        'c'
    } else if d == 13 {
        'd'
    } else if d == 14 {
        'e'
    } else {
        'f'
    }
}

/// The eight hexadecimal digits of a 32-bit value, most significant
/// first.
pub open spec fn spec_hex32(v: u32) -> Seq<char> {
    seq![
        spec_hex_char(((v >> 28) & 0xf) as u8),
        spec_hex_char(((v >> 24) & 0xf) as u8),
        spec_hex_char(((v >> 20) & 0xf) as u8),
        spec_hex_char(((v >> 16) & 0xf) as u8),
        spec_hex_char(((v >> 12) & 0xf) as u8),
        spec_hex_char(((v >> 8) & 0xf) as u8),
        spec_hex_char(((v >> 4) & 0xf) as u8),
        spec_hex_char((v & 0xf) as u8),
    ]
}

/// How a decoded value renders: numbers as `0x` and eight digits, text in
/// double quotes.
pub open spec fn spec_render_data(d: EntryDataView) -> Seq<char> {
    match d {
        EntryDataView::Integer(v) => seq!['0', 'x'] + spec_hex32(v),
        EntryDataView::Utf8(s) => seq!['"'] + s + seq!['"'],
    }
}

/// How a decoded entry renders: its name, a colon and a space, then its
/// rendered value.
pub open spec fn spec_render_entry(e: EntryView) -> Seq<char> {
    e.name + seq![':', ' '] + spec_render_data(e.data)
}

/// The lowercase hexadecimal digit for a value below 16.
fn hex_digit_str(d: u8) -> (r: &'static str)
    requires
        d < 16,
    ensures
        r@ == seq![spec_hex_char(d)],
{
    proof {
        reveal_strlit("0");
        reveal_strlit("1");
        reveal_strlit("2");
        reveal_strlit("3");
        reveal_strlit("4");
        reveal_strlit("5");
        reveal_strlit("6");
        reveal_strlit("7");
        reveal_strlit("8");
        reveal_strlit("9");
        reveal_strlit("a");
        reveal_strlit("b");
        reveal_strlit("c");
        reveal_strlit("d");
        reveal_strlit("e");
        reveal_strlit("f");
    }
    match d {
        0 => "0",
        1 => "1",
        2 => "2",
        3 => "3",
        4 => "4",
        5 => "5",
        6 => "6",
        7 => "7",
        8 => "8",
        9 => "9",
        10 => "a",
        11 => "b",
        12 => "c",
        13 => "d",
        14 => "e",
        _ => "f",
    }
}

impl EntryData {
    /// Renders the value as [`spec_render_data`] says.
    pub fn display_string(&self) -> (r: String)
        ensures
            r@ == spec_render_data(self@),
    {
        proof {
            reveal_strlit("0x");
            reveal_strlit("\"");
        }
        match self {
            EntryData::Integer(v) => {
                let v: u32 = *v;
                proof {
                    assert(((v >> 28) & 0xf) < 16 && ((v >> 24) & 0xf) < 16 && ((v >> 20) & 0xf)
                        < 16 && ((v >> 16) & 0xf) < 16 && ((v >> 12) & 0xf) < 16 && ((v >> 8) & 0xf)
                        < 16 && ((v >> 4) & 0xf) < 16 && (v & 0xf) < 16) by (bit_vector);
                }
                let mut r = String::new();
                r.append("0x");
                r.append(hex_digit_str(((v >> 28) & 0xf) as u8));
                r.append(hex_digit_str(((v >> 24) & 0xf) as u8));
                r.append(hex_digit_str(((v >> 20) & 0xf) as u8));
                r.append(hex_digit_str(((v >> 16) & 0xf) as u8));
                r.append(hex_digit_str(((v >> 12) & 0xf) as u8));
                r.append(hex_digit_str(((v >> 8) & 0xf) as u8));
                r.append(hex_digit_str(((v >> 4) & 0xf) as u8));
                r.append(hex_digit_str((v & 0xf) as u8));
                proof {
                    assert(r@ =~= spec_render_data(self@));
                }
                r
            },
            EntryData::Utf8(s) => {
                let mut r = String::new();
                r.append("\"");
                r.append(s.as_str());
                r.append("\"");
                proof {
                    assert(r@ =~= spec_render_data(self@));
                }
                r
            },
        }
    }
}

impl Entry {
    /// Renders the entry as [`spec_render_entry`] says.
    pub fn display_string(&self) -> (r: String)
        ensures
            r@ == spec_render_entry(self@),
    {
        proof {
            reveal_strlit(": ");
        }
        let mut r = String::new();
        r.append(self.name.as_str());
        r.append(": ");
        let d = self.data.display_string();
        r.append(d.as_str());
        proof {
            assert(r@ =~= spec_render_entry(self@));
        }
        r
    }
}

} // verus!
