//! Hexadecimal conversion of byte strings.
use vstd::prelude::*;
use crate::text::{push_char, ascii_bytes, ascii_to_bytes};

verus! {

/// Upper-case hexadecimal digit for a value below 16.
pub open spec fn hex_digit(v: int) -> char {
    if v < 10 {
        ((48 + v) as u32) as char
    } else {
        ((55 + v) as u32) as char
    }
}

/// Two upper-case hex digits per byte, most significant first (`{:02X}`).
pub open spec fn hex_spec(bytes: Seq<u8>) -> Seq<char>
    decreases bytes.len(),
{
    if bytes.len() == 0 {
        Seq::empty()
    } else {
        hex_spec(bytes.drop_last()).push(hex_digit((bytes.last() / 16) as int)).push(
            hex_digit((bytes.last() % 16) as int),
        )
    }
}

/// Whether `c` is a hexadecimal digit (either case).
pub open spec fn is_hex_char(c: char) -> bool {
    ('0' <= c && c <= '9') || ('a' <= c && c <= 'f') || ('A' <= c && c <= 'F')
}

/// Value of a hexadecimal digit.
pub open spec fn hex_value(c: char) -> int {
    if '0' <= c && c <= '9' {
        c as int - 48
    } else if 'a' <= c && c <= 'f' {
        c as int - 87
    } else {
        c as int - 55
    }
}

/// Whether `u8::from_str_radix(s, 16)` accepts a two-character string:
/// an optional `+` followed by hexadecimal digits.
pub open spec fn hex_pair_ok(c1: char, c2: char) -> bool {
    (c1 == '+' || is_hex_char(c1)) && is_hex_char(c2)
}

/// What `u8::from_str_radix(s, 16)` gives for an accepted two-character string.
pub open spec fn hex_pair_value(c1: char, c2: char) -> int {
    if c1 == '+' {
        hex_value(c2)
    } else {
        16 * hex_value(c1) + hex_value(c2)
    }
}

/// The strings `hex_to_bytes` accepts: ASCII text whose consecutive pairs
/// of characters are each a valid hex byte (a trailing odd character is
/// ignored). Other strings are not hexadecimal text.
pub open spec fn hex_string_ok(s: Seq<char>) -> bool {
    &&& vstd::utf8::is_ascii_chars(s)
    &&& forall|i: int| 0 <= i < s.len() / 2 ==> #[trigger] hex_pair_ok(s[2 * i], s[2 * i + 1])
}

/// The bytes that `hex_to_bytes` reads from an accepted string.
pub open spec fn hex_decode_spec(s: Seq<char>) -> Seq<u8> {
    Seq::new(s.len() / 2, |i: int| hex_pair_value(s[2 * i], s[2 * i + 1]) as u8)
}

fn hex_digit_char(v: u8) -> (c: char)
    requires
        v < 16,
    ensures
        c == hex_digit(v as int),
{
    if v < 10 {
        (48 + v) as char
    } else {
        (55 + v) as char
    }
}

proof fn lemma_hex_spec_len(bytes: Seq<u8>)
    ensures
        hex_spec(bytes).len() == 2 * bytes.len(),
    decreases bytes.len(),
{
    if bytes.len() > 0 {
        lemma_hex_spec_len(bytes.drop_last());
    }
}

/// Formats bytes as upper-case hexadecimal, two digits per byte.
pub fn bytes_to_hex(bytes: &[u8]) -> (s: String)
    ensures
        s@ == hex_spec(bytes@),
        s@.len() == 2 * bytes@.len(),
{
    let mut s = String::new();
    let mut i: usize = 0;
    while i < bytes.len()
        invariant
            0 <= i <= bytes@.len(),
            s@ == hex_spec(bytes@.take(i as int)),
        decreases bytes@.len() - i,
    {
        let byte = bytes[i];
        push_char(&mut s, hex_digit_char(byte / 16));
        push_char(&mut s, hex_digit_char(byte % 16));
        proof {
            assert(bytes@.take(i + 1).drop_last() =~= bytes@.take(i as int));
        }
        i += 1;
    }
    proof {
        assert(bytes@.take(bytes@.len() as int) =~= bytes@);
        lemma_hex_spec_len(bytes@);
    }
    s
}

/// Formats a byte vector as upper-case hexadecimal, two digits per byte.
pub fn bytes_vec_to_hex(bytes: &Vec<u8>) -> (s: String)
    ensures
        s@ == hex_spec(bytes@),
        s@.len() == 2 * bytes@.len(),
{
    bytes_to_hex(bytes.as_slice())
}

fn is_hex_byte(b: u8) -> (r: bool)
    ensures
        r == is_hex_char(b as char),
{
    (48 <= b && b <= 57) || (97 <= b && b <= 102) || (65 <= b && b <= 70)
}

fn hex_byte_value(b: u8) -> (r: u8)
    requires
        is_hex_char(b as char),
    ensures
        r == hex_value(b as char),
        r < 16,
{
    if 48 <= b && b <= 57 {
        b - 48
    } else if 97 <= b && b <= 102 {
        b - 87
    } else {
        b - 55
    }
}

/// Parses two characters as `u8::from_str_radix(.., 16)` does.
fn hex_pair(b1: u8, b2: u8) -> (r: u8)
    requires
        hex_pair_ok(b1 as char, b2 as char),
    ensures
        r == hex_pair_value(b1 as char, b2 as char),
{
    if b1 == 43 {
        hex_byte_value(b2)
    } else {
        16 * hex_byte_value(b1) + hex_byte_value(b2)
    }
}

/// Parses hexadecimal text into bytes, one byte per pair of characters.
pub fn hex_to_bytes(s: &String) -> (v: Vec<u8>)
    requires
        hex_string_ok(s@),
    ensures
        v@ == hex_decode_spec(s@),
{
    let bytes = ascii_to_bytes(s);
    let n = bytes.len() / 2;
    let mut v: Vec<u8> = Vec::new();
    let mut i: usize = 0;
    while i < n
        invariant
            hex_string_ok(s@),
            bytes@ == ascii_bytes(s@),
            bytes@.len() == s@.len(),
            bytes@.len() <= usize::MAX,
            2 * n <= bytes@.len(),
            n == s@.len() / 2,
            0 <= i <= n,
            v@ =~= hex_decode_spec(s@).take(i as int),
        decreases n - i,
    {
        proof {
            assert(hex_pair_ok(s@[2 * i], s@[2 * i + 1]));
            assert(bytes@[2 * i] == s@[2 * i] as u8);
            assert(s@[2 * i] <= '\u{7f}');
            assert(s@[2 * i + 1] <= '\u{7f}');
        }
        let b = hex_pair(bytes[2 * i], bytes[2 * i + 1]);
        v.push(b);
        i += 1;
    }
    v
}

proof fn lemma_hex_spec_index(bytes: Seq<u8>)
    ensures
        forall|i: int| 0 <= i < bytes.len() ==> #[trigger] hex_spec(bytes)[2 * i] == hex_digit((bytes[i] / 16) as int)
            && hex_spec(bytes)[2 * i + 1] == hex_digit((bytes[i] % 16) as int),
    decreases bytes.len(),
{
    lemma_hex_spec_len(bytes);
    if bytes.len() > 0 {
        lemma_hex_spec_index(bytes.drop_last());
        lemma_hex_spec_len(bytes.drop_last());
        assert forall|i: int| 0 <= i < bytes.len() implies #[trigger] hex_spec(bytes)[2 * i] == hex_digit((bytes[i] / 16) as int)
            && hex_spec(bytes)[2 * i + 1] == hex_digit((bytes[i] % 16) as int) by {
            if i < bytes.len() - 1 {
                assert(hex_spec(bytes)[2 * i] == hex_spec(bytes.drop_last())[2 * i]);
                assert(hex_spec(bytes)[2 * i + 1] == hex_spec(bytes.drop_last())[2 * i + 1]);
                assert(bytes.drop_last()[i] == bytes[i]);
            }
        }
    }
}

/// Law: hexadecimal text made by `bytes_to_hex` is accepted by
/// `hex_to_bytes`, which gives back the bytes it was made from.
pub proof fn lemma_hex_roundtrip(bytes: Seq<u8>)
    ensures
        hex_string_ok(hex_spec(bytes)),
        hex_decode_spec(hex_spec(bytes)) == bytes,
{
    let h = hex_spec(bytes);
    lemma_hex_spec_len(bytes);
    lemma_hex_spec_index(bytes);
    assert forall|j: int| 0 <= j < h.len() implies '\0' <= #[trigger] h[j] <= '\u{7f}' by {
        let i = j / 2;
        assert(0 <= i < bytes.len());
        if j % 2 == 0 {
            assert(h[2 * i] == hex_digit((bytes[i] / 16) as int));
        } else {
            assert(j == 2 * i + 1);
            assert(h[2 * i] == hex_digit((bytes[i] / 16) as int));
            assert(h[2 * i + 1] == hex_digit((bytes[i] % 16) as int));
        }
    }
    assert forall|i: int| 0 <= i < h.len() / 2 implies #[trigger] hex_pair_ok(h[2 * i], h[2 * i + 1]) by {
        assert(h[2 * i] == hex_digit((bytes[i] / 16) as int));
    }
    assert forall|i: int| 0 <= i < bytes.len() implies hex_decode_spec(h)[i] == bytes[i] by {
        assert(h[2 * i] == hex_digit((bytes[i] / 16) as int));
        assert(h[2 * i + 1] == hex_digit((bytes[i] % 16) as int));
    }
    assert(hex_decode_spec(h) =~= bytes);
}

} // verus!
