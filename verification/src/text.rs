//! Small string helpers shared by the encoders.
use vstd::prelude::*;

verus! {

/// Appends one character to a `String` (`String::push`).
/// Trusted: std documents `push` as appending the given char to the end.
#[verifier::external_body]
pub(crate) fn push_char(s: &mut String, c: char)
    ensures
        final(s)@ == old(s)@.push(c),
{
    s.push(c);
}

/// The bytes of an ASCII character sequence.
pub open spec fn ascii_bytes(s: Seq<char>) -> Seq<u8> {
    Seq::new(s.len(), |i: int| s[i] as u8)
}

/// The bytes of an ASCII string.
pub(crate) fn ascii_to_bytes(s: &String) -> (r: &[u8])
    requires
        vstd::utf8::is_ascii_chars(s@),
    ensures
        r@ == ascii_bytes(s@),
{
    proof {
        vstd::utf8::is_ascii_chars_encode_utf8(s@);
    }
    let r = s.as_str().as_bytes();
    proof {
        assert(r@ =~= ascii_bytes(s@));
    }
    r
}

/// The decimal digit for `d` (`0 <= d < 10`).
pub open spec fn decimal_digit(d: int) -> char {
    (('0' as int) + d) as char
}

/// The decimal digits of `n`, most significant first, without leading zeros.
pub open spec fn nat_digits(n: nat) -> Seq<char>
    decreases n,
{
    if n < 10 {
        seq![decimal_digit(n as int)]
    } else {
        nat_digits(n / 10).push(decimal_digit((n % 10) as int))
    }
}

/// An integer in decimal, as `format!("{}", v)` writes it.
pub open spec fn int_decimal(v: int) -> Seq<char> {
    if v < 0 {
        seq!['-'] + nat_digits((-v) as nat)
    } else {
        nat_digits(v as nat)
    }
}

/// Appends the decimal digits of `n`.
fn push_digits(s: &mut String, n: u64)
    ensures
        final(s)@ == old(s)@ + nat_digits(n as nat),
    decreases n,
{
    if n >= 10 {
        push_digits(s, n / 10);
    }
    let d: u8 = (n % 10) as u8;
    let c: char = (48u8 + d) as char;
    push_char(s, c);
    proof {
        if n >= 10 {
            assert(nat_digits(n as nat) =~= nat_digits((n / 10) as nat).push(decimal_digit((n % 10) as int)));
        }
    }
}

/// An `i32` in decimal.
pub fn i32_to_decimal(v: i32) -> (r: String)
    ensures
        r@ == int_decimal(v as int),
{
    let mut s = String::new();
    if v < 0 {
        push_char(&mut s, '-');
        let m: u64 = (-(v as i64)) as u64;
        push_digits(&mut s, m);
        proof {
            assert(s@ =~= seq!['-'] + nat_digits((-v) as nat));
        }
    } else {
        push_digits(&mut s, v as u64);
        proof {
            assert(s@ =~= nat_digits(v as nat));
        }
    }
    s
}

} // verus!
