//! Hexadecimal rendering and parsing of 32-byte hashes.

use vstd::prelude::*;

use crate::blob::BlobError;
use crate::hash::Hash32;

verus! {

/// The lowercase hexadecimal digit with value `n`.
pub open spec fn hex_char(n: int) -> char
    recommends
        0 <= n < 16,
{
    if n == 0 {
        '0'
    } else if n == 1 {
        '1'
    } else if n == 2 {
        '2'
    } else if n == 3 {
        '3'
    } else if n == 4 {
        '4'
    } else if n == 5 {
        '5'
    } else if n == 6 {
        '6'
    } else if n == 7 {
        '7'
    } else if n == 8 {
        '8'
    } else if n == 9 {
        '9'
    } else if n == 10 {
        'a'
    } else if n == 11 {
        'b'
    } else if n == 12 {
        'c'
    } else if n == 13 {
        'd'
    } else if n == 14 {
        'e'
    } else {
        'f'
    }
}

/// The lowercase hexadecimal rendering of a byte sequence: two digits per
/// byte, high nibble first.
pub open spec fn hex_of(bytes: Seq<u8>) -> Seq<char> {
    Seq::new(
        2 * bytes.len(),
        |i: int|
            if i % 2 == 0 {
                hex_char(bytes[i / 2] as int / 16)
            } else {
                hex_char(bytes[i / 2] as int % 16)
            },
    )
}

/// Whether a character is a hexadecimal digit (either case).
pub open spec fn is_hex_digit(c: char) -> bool {
    ('0' <= c && c <= '9') || ('a' <= c && c <= 'f') || ('A' <= c && c <= 'F')
}

/// The value of a hexadecimal digit.
pub open spec fn hex_val(c: char) -> u8
    recommends
        is_hex_digit(c),
{
    if '0' <= c && c <= '9' {
        (c as u8 - '0' as u8) as u8
    } else if 'a' <= c && c <= 'f' {
        (c as u8 - 'a' as u8 + 10) as u8
    } else {
        (c as u8 - 'A' as u8 + 10) as u8
    }
}

/// A 64-character string parses as a 32-byte hash.
pub open spec fn is_hex_hash(s: Seq<char>) -> bool {
    s.len() == 64 && forall|i: int| 0 <= i < 64 ==> is_hex_digit(#[trigger] s[i])
}

/// The bytes a 64-digit hexadecimal string denotes.
pub open spec fn hex_bytes_of(s: Seq<char>) -> Seq<u8>
    recommends
        is_hex_hash(s),
{
    Seq::new(32, |i: int| (16 * hex_val(s[2 * i]) + hex_val(s[2 * i + 1])) as u8)
}

/// One lowercase hexadecimal digit as a string slice.
fn nibble_str(n: u8) -> (r: &'static str)
    requires
        n < 16,
    ensures
        r@ == seq![hex_char(n as int)],
{
    let r: &'static str = match n {
        0 => "0",
        1 => "1",
        2 => "2",
        3 => "3",
        4 => "4",
        5 => "5",
        6 => "6",
        7 => "7",
        8 => "8",
        9 => "9",
        10 => "a",
        11 => "b",
        12 => "c",
        13 => "d",
        14 => "e",
        _ => "f",
    };
    proof {
        reveal_strlit("0");
        reveal_strlit("1");
        reveal_strlit("2");
        reveal_strlit("3");
        reveal_strlit("4");
        reveal_strlit("5");
        reveal_strlit("6");
        reveal_strlit("7");
        reveal_strlit("8");
        reveal_strlit("9");
        reveal_strlit("a");
        reveal_strlit("b");
        reveal_strlit("c");
        reveal_strlit("d");
        reveal_strlit("e");
        reveal_strlit("f");
        assert(r@ =~= seq![hex_char(n as int)]);
    }
    r
}

/// Convert a hash to its lowercase hexadecimal string.
pub fn hash_to_hex(hash: &Hash32) -> (r: String)
    ensures
        r@ == hex_of(hash@),
{
    let mut s = String::new();
    let mut i: usize = 0;
    while i < 32
        invariant
            i <= 32,
            s@.len() == 2 * i,
            forall|k: int| 0 <= k < 2 * i ==> s@[k] == hex_of(hash@)[k],
        decreases 32 - i,
    {
        let b = hash[i];
        proof {
            assert(b >> 4 == b / 16 && b & 15 == b % 16 && b >> 4 < 16 && b & 15 < 16)
                by (bit_vector);
        }
        s.append(nibble_str(b >> 4));
        s.append(nibble_str(b & 15));
        i += 1;
    }
    proof {
        assert(s@ =~= hex_of(hash@));
    }
    s
}

/// The value of one hexadecimal digit character, if it is one.
fn hex_digit_val(c: char) -> (r: Option<u8>)
    ensures
        match r {
            Some(v) => is_hex_digit(c) && v == hex_val(c),
            None => !is_hex_digit(c),
        },
{
    if '0' <= c && c <= '9' {
        Some(c as u8 - ('0' as u8))
    } else if 'a' <= c && c <= 'f' {
        Some(c as u8 - ('a' as u8) + 10)
    } else if 'A' <= c && c <= 'F' {
        Some(c as u8 - ('A' as u8) + 10)
    } else {
        None
    }
}

/// Parse a 64-digit hexadecimal string into a 32-byte hash. Fails on any
/// other length and on any non-hexadecimal character.
pub fn hex_to_hash(s: &str) -> (r: Result<Hash32, BlobError>)
    ensures
        match r {
            Ok(h) => is_hex_hash(s@) && h@ == hex_bytes_of(s@),
            Err(_) => !is_hex_hash(s@),
        },
{
    let n = s.unicode_len();
    if n != 64 {
        return Err(BlobError::Encoding("expected 64 hex digits".to_owned()));
    }
    let mut h: Hash32 = [0u8; 32];
    let mut i: usize = 0;
    while i < 32
        invariant
            i <= 32,
            s@.len() == 64,
            h@.len() == 32,
            forall|k: int| 0 <= k < 2 * i ==> is_hex_digit(#[trigger] s@[k]),
            forall|k: int| 0 <= k < i ==> h@[k] == hex_bytes_of(s@)[k],
        decreases 32 - i,
    {
        let c1 = s.get_char(2 * i);
        let c2 = s.get_char(2 * i + 1);
        let v1 = match hex_digit_val(c1) {
            Some(v) => v,
            None => {
                return Err(BlobError::Encoding("invalid hex digit".to_owned()));
            },
        };
        let v2 = match hex_digit_val(c2) {
            Some(v) => v,
            None => {
                return Err(BlobError::Encoding("invalid hex digit".to_owned()));
            },
        };
        h[i] = 16 * v1 + v2;
        i += 1;
    }
    proof {
        assert(h@ =~= hex_bytes_of(s@));
    }
    Ok(h)
}

} // verus!
