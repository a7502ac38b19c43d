//! Hexadecimal literals: parsing the `0x`-prefixed form a write request
//! carries, and the digits the value formatter prints.

use vstd::prelude::*;
use vstd::slice::slice_to_vec;
use vstd::string::StringSliceAdditionalSpecFns;
use crate::error::SfoError;

verus! {

/// True for the ASCII code of a hexadecimal digit, in either case.
pub open spec fn spec_is_hex_digit(b: u8) -> bool {
    ||| 0x30 <= b <= 0x39  // '0' ..= '9'
    ||| 0x41 <= b <= 0x46  // 'A' ..= 'F'
    ||| 0x61 <= b <= 0x66  // 'a' ..= 'f'

}

/// The value of a hexadecimal digit given as an ASCII code.
pub open spec fn spec_hex_digit_val(b: u8) -> int
    recommends
        spec_is_hex_digit(b),
{
    if 0x30 <= b <= 0x39 {
        b - 0x30
    } else if 0x41 <= b <= 0x46 {
        b - 0x41 + 10
    } else if 0x61 <= b <= 0x66 {
        b - 0x61 + 10
    } else {
        0
    }
}

/// The value of a string of hexadecimal digits given as ASCII codes,
/// most significant first.
pub open spec fn spec_hex_value(bs: Seq<u8>) -> int
    recommends
        forall|k: int| 0 <= k < bs.len() ==> spec_is_hex_digit(#[trigger] bs[k]),
    decreases bs.len(),
{
    if bs.len() == 0 {
        0
    } else {
        spec_hex_value(bs.drop_last()) * 16 + spec_hex_digit_val(bs.last())
    }
}

/// True when the bytes spell a well-formed literal: `0x`, then at least
/// one hexadecimal digit, nothing else, with a value that fits in 32
/// bits.
pub open spec fn spec_hex_literal_ok(bs: Seq<u8>) -> bool {
    &&& bs.len() >= 3
    &&& bs[0] == 0x30  // '0'
    &&& bs[1] == 0x78  // 'x'
    &&& forall|k: int| 2 <= k < bs.len() ==> spec_is_hex_digit(#[trigger] bs[k])
    &&& spec_hex_value(bs.skip(2)) < 0x100000000
}

proof fn lemma_hex_value_nonneg(bs: Seq<u8>)
    ensures
        spec_hex_value(bs) >= 0,
    decreases bs.len(),
{
    if bs.len() > 0 {
        lemma_hex_value_nonneg(bs.drop_last());
    }
}

/// Appending digits never shrinks the value.
proof fn lemma_hex_value_mono(bs: Seq<u8>, a: int, k: int, m: int)
    requires
        0 <= a <= k <= m <= bs.len(),
    ensures
        spec_hex_value(bs.subrange(a, k)) <= spec_hex_value(bs.subrange(a, m)),
    decreases m - k,
{
    if k < m {
        lemma_hex_value_mono(bs, a, k, m - 1);
        lemma_hex_value_nonneg(bs.subrange(a, m - 1));
        assert(bs.subrange(a, m).drop_last() =~= bs.subrange(a, m - 1));
    }
}

/// Parses a `0x`-prefixed hexadecimal literal into an unsigned 32-bit
/// value.  Succeeds exactly on the strings whose bytes satisfy
/// [`spec_hex_literal_ok`]; everything else is a malformed request.
pub fn parse_hex(src: &str) -> (r: Result<u32, SfoError>)
    ensures
        spec_hex_literal_ok(src.spec_bytes()) ==> r == Ok::<u32, SfoError>(
            spec_hex_value(src.spec_bytes().skip(2)) as u32,
        ),
        !spec_hex_literal_ok(src.spec_bytes()) ==> r == Err::<u32, SfoError>(
            SfoError::InvalidHexLiteral,
        ),
{
    let bs: Vec<u8> = slice_to_vec(src.as_bytes());
    let n: usize = bs.len();
    if n < 3 {
        return Err(SfoError::InvalidHexLiteral);
    }
    if bs[0] != 0x30 || bs[1] != 0x78 {
        return Err(SfoError::InvalidHexLiteral);
    }
    let mut acc: u64 = 0;
    let mut k: usize = 2;
    while k < n
        invariant
            2 <= k <= n,
            n == bs@.len(),
            bs@ == src.spec_bytes(),
            forall|j: int| 2 <= j < k ==> spec_is_hex_digit(#[trigger] bs@[j]),
            acc == spec_hex_value(bs@.subrange(2, k as int)),
            acc <= 0xFFFFFFFF,
        decreases n - k,
    {
        let b: u8 = bs[k];
        let d: u64 = if 0x30 <= b && b <= 0x39 {
            (b - 0x30) as u64
        } else if 0x41 <= b && b <= 0x46 {
            (b - 0x41) as u64 + 10
        } else if 0x61 <= b && b <= 0x66 {
            (b - 0x61) as u64 + 10
        } else {
            return Err(SfoError::InvalidHexLiteral);
        };
        acc = acc * 16 + d;
        proof {
            assert(bs@.subrange(2, k as int + 1).drop_last() =~= bs@.subrange(2, k as int));
            assert(bs@.subrange(2, k as int + 1).last() == bs@[k as int]);
        }
        if acc > 0xFFFFFFFF {
            proof {
                lemma_hex_value_mono(bs@, 2, k as int + 1, n as int);
                assert(bs@.subrange(2, n as int) =~= bs@.skip(2));
            }
            return Err(SfoError::InvalidHexLiteral);
        }
        k = k + 1;
    }
    proof {
        assert(bs@.subrange(2, n as int) =~= bs@.skip(2));
    }
    Ok(acc as u32)
}

} // verus!
