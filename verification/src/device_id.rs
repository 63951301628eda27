//! Syncthing device IDs: base32 with Luhn check characters, in dash-separated chunks.
use vstd::prelude::*;
use vstd::string::StringSliceAdditionalSpecFns;
use crate::text::{push_char, ascii_bytes, ascii_to_bytes};

verus! {

/// A device ID is the SHA-256 digest of the device's certificate.
pub type DeviceID = [u8; 32];

/// Whether `c` belongs to the base32 alphabet `A`–`Z`, `2`–`7`.
pub open spec fn is_base32_char(c: char) -> bool {
    ('A' <= c && c <= 'Z') || ('2' <= c && c <= '7')
}

/// Value of a base32 symbol (its index in `ABCDEFGHIJKLMNOPQRSTUVWXYZ234567`).
pub open spec fn base32_value(c: char) -> int {
    if 'A' <= c && c <= 'Z' {
        (c as int) - ('A' as int)
    } else {
        (c as int) + 26 - ('2' as int)
    }
}

/// The base32 symbol with value `v` (for `0 <= v < 32`).
pub open spec fn base32_symbol(v: int) -> char {
    if v < 26 {
        ((65 + v) as u32) as char
    } else {
        ((50 + v - 26) as u32) as char
    }
}

/// Whether every character of `s` is a base32 symbol.
pub open spec fn all_base32(s: Seq<char>) -> bool {
    forall|i: int| 0 <= i < s.len() ==> is_base32_char(#[trigger] s[i])
}

/// The contribution of the character at position `pos` to the Luhn sum:
/// even positions weigh 1, odd positions weigh 2, and the weighted value
/// is folded back into base 32 by adding its two base-32 digits.
pub open spec fn luhn_term(c: char, pos: int) -> int {
    let addend = (if pos % 2 == 0 { 1int } else { 2int }) * base32_value(c);
    addend / 32 + addend % 32
}

/// Sum of the Luhn terms of all characters of `s`.
pub open spec fn luhn_sum(s: Seq<char>) -> int
    decreases s.len(),
{
    if s.len() == 0 {
        0
    } else {
        luhn_sum(s.drop_last()) + luhn_term(s.last(), s.len() - 1)
    }
}

/// The Luhn-mod-32 check character of `s`, as Syncthing computes it.
pub open spec fn luhn_check_char(s: Seq<char>) -> char {
    base32_symbol((32 - luhn_sum(s) % 32) % 32)
}

/// Index of `c` in the base32 alphabet; other characters have none.
pub fn codepoint32(c: char) -> (r: usize)
    requires
        is_base32_char(c),
    ensures
        r == base32_value(c),
        r < 32,
{
    if 'A' <= c && c <= 'Z' {
        (c as u32 - 'A' as u32) as usize
    } else {
        (c as u32 + 26 - '2' as u32) as usize
    }
}

/// The base32 alphabet symbol with the given value.
fn luhn_symbol(v: usize) -> (c: char)
    requires
        v < 32,
    ensures
        c == base32_symbol(v as int),
        is_base32_char(c),
{
    if v < 26 {
        (65 + v as u8) as char
    } else {
        (50 + (v as u8 - 26)) as char
    }
}

} // verus!

verus! {

/// The Luhn check character of a base32 string, as Syncthing computes it.
pub fn syncthing_luhn32(s: &str) -> (r: char)
    requires
        all_base32(s@),
    ensures
        r == luhn_check_char(s@),
        is_base32_char(r),
{
    let n = s.unicode_len();
    let mut factor: usize = 1;
    // The running sum is kept reduced modulo 32; only its residue is used.
    let mut sum: usize = 0;
    let mut i: usize = 0;
    while i < n
        invariant
            n == s@.len(),
            0 <= i <= n,
            all_base32(s@),
            factor == (if i % 2 == 0 { 1usize } else { 2usize }),
            sum == luhn_sum(s@.take(i as int)) % 32,
        decreases n - i,
    {
        let c = s.get_char(i);
        let cp = codepoint32(c);
        proof {
            assert(factor * cp <= 62) by (nonlinear_arith)
                requires
                    factor <= 2,
                    cp < 32,
            ;
        }
        let mut addend = factor * cp;
        if factor == 2 {
            factor = 1;
        } else {
            factor = 2;
        }
        addend = (addend / 32) + (addend % 32);
        proof {
            assert(s@.take(i + 1).drop_last() =~= s@.take(i as int));
            assert(s@.take(i + 1).last() == c);
            vstd::arithmetic::div_mod::lemma_add_mod_noop(
                luhn_sum(s@.take(i as int)),
                addend as int,
                32,
            );
            vstd::arithmetic::div_mod::lemma_mod_twice(luhn_sum(s@.take(i as int)), 32);
        }
        sum = (sum + addend) % 32;
        i += 1;
    }
    proof {
        assert(s@.take(n as int) =~= s@);
    }
    let remainder = sum % 32;
    let index = (32 - remainder) % 32;
    luhn_symbol(index)
}

} // verus!

verus! {

/// The `i`-th group of 13 characters of an unchecked device ID.
pub open spec fn luhn_group(s: Seq<char>, i: int) -> Seq<char> {
    s.subrange(13 * i, 13 * i + 13)
}

/// The first `n` groups of `s`, each followed by its check character.
pub open spec fn luhnify_groups(s: Seq<char>, n: nat) -> Seq<char>
    decreases n,
{
    if n == 0 {
        Seq::empty()
    } else {
        let g = luhn_group(s, n - 1);
        luhnify_groups(s, (n - 1) as nat) + g.push(luhn_check_char(g))
    }
}

/// A 52-character base32 ID with a check character after each group of 13.
pub open spec fn luhnify_spec(s: Seq<char>) -> Seq<char> {
    luhnify_groups(s, 4)
}

/// The `i`-th group of 13 data characters of a checked device ID
/// (groups are 14 characters apart; the 14th is the check character).
pub open spec fn unluhn_group(s: Seq<char>, i: int) -> Seq<char> {
    s.subrange(14 * i, 14 * i + 13)
}

/// Group `i` of a checked ID holds base32 symbols and is followed by its check character.
pub open spec fn luhn_group_valid(s: Seq<char>, i: int) -> bool {
    &&& all_base32(unluhn_group(s, i))
    &&& s[14 * i + 13] == luhn_check_char(unluhn_group(s, i))
}

/// The inputs `unluhnify` accepts: at least 56 characters whose four leading
/// 14-character groups each end with the right check character.
pub open spec fn luhn_valid(s: Seq<char>) -> bool {
    &&& s.len() >= 56
    &&& forall|i: int| 0 <= i < 4 ==> #[trigger] luhn_group_valid(s, i)
}

/// The data characters of the first `n` groups of a checked ID.
pub open spec fn unluhnify_groups(s: Seq<char>, n: nat) -> Seq<char>
    decreases n,
{
    if n == 0 {
        Seq::empty()
    } else {
        unluhnify_groups(s, (n - 1) as nat) + unluhn_group(s, n - 1)
    }
}

/// The 52 data characters of a checked device ID.
pub open spec fn unluhnify_spec(s: Seq<char>) -> Seq<char> {
    unluhnify_groups(s, 4)
}

proof fn lemma_luhnify_groups(s: Seq<char>, n: nat)
    requires
        n <= 4,
        s.len() == 52,
        all_base32(s),
    ensures
        luhnify_groups(s, n).len() == 14 * n,
        all_base32(luhnify_groups(s, n)),
        forall|i: int| 0 <= i < n ==> #[trigger] unluhn_group(luhnify_groups(s, n), i) =~= luhn_group(s, i),
        forall|i: int| 0 <= i < n ==> #[trigger] luhnify_groups(s, n)[14 * i + 13] == luhn_check_char(luhn_group(s, i)),
    decreases n,
{
    if n > 0 {
        lemma_luhnify_groups(s, (n - 1) as nat);
        let prev = luhnify_groups(s, (n - 1) as nat);
        let g = luhn_group(s, n - 1);
        let cur = luhnify_groups(s, n);
        assert(cur == prev + g.push(luhn_check_char(g)));
        assert forall|i: int| 0 <= i < cur.len() implies is_base32_char(#[trigger] cur[i]) by {
            if i < prev.len() {
                assert(cur[i] == prev[i]);
            } else if i < prev.len() + 13 {
                assert(cur[i] == g[i - prev.len()]);
                assert(g[i - prev.len()] == s[13 * (n - 1) + i - prev.len()]);
            } else {
                assert(cur[i] == luhn_check_char(g));
            }
        }
        assert forall|i: int| 0 <= i < n implies #[trigger] unluhn_group(cur, i) =~= luhn_group(s, i) by {
            if i < n - 1 {
                assert(unluhn_group(cur, i) =~= unluhn_group(prev, i));
            }
        }
        assert forall|i: int| 0 <= i < n implies #[trigger] cur[14 * i + 13] == luhn_check_char(luhn_group(s, i)) by {
            if i < n - 1 {
                assert(cur[14 * i + 13] == prev[14 * i + 13]);
            }
        }
    }
}

/// Inserts a Luhn check character after each of the four 13-character groups
/// of a 52-character base32 string.
pub fn luhnify(s: &str) -> (r: String)
    requires
        s@.len() == 52,
        all_base32(s@),
    ensures
        r@ == luhnify_spec(s@),
        r@.len() == 56,
        luhn_valid(r@),
        all_base32(r@),
{
    let mut out = String::new();
    let mut i: usize = 0;
    while i < 4
        invariant
            0 <= i <= 4,
            s@.len() == 52,
            all_base32(s@),
            out@ == luhnify_groups(s@, i as nat),
        decreases 4 - i,
    {
        let part = s.substring_char(i * 13, (i + 1) * 13);
        proof {
            assert(part@ == luhn_group(s@, i as int));
            assert forall|k: int| 0 <= k < part@.len() implies is_base32_char(#[trigger] part@[k]) by {
                assert(part@[k] == s@[13 * i + k]);
            }
        }
        let l = syncthing_luhn32(part);
        out.append(part);
        push_char(&mut out, l);
        proof {
            assert(out@ =~= luhnify_groups(s@, (i + 1) as nat));
        }
        i += 1;
    }
    proof {
        lemma_luhnify_groups(s@, 4);
        let r = out@;
        assert forall|i: int| 0 <= i < 4 implies #[trigger] luhn_group_valid(r, i) by {
            assert(unluhn_group(r, i) =~= luhn_group(s@, i));
            assert forall|k: int| 0 <= k < unluhn_group(r, i).len() implies is_base32_char(#[trigger] unluhn_group(r, i)[k]) by {
                assert(unluhn_group(r, i)[k] == r[14 * i + k]);
            }
        }
    }
    out
}

/// Removes the check characters of a checked device ID, returning its 52 data
/// characters. Every check character must be right.
pub fn unluhnify(s: &str) -> (r: String)
    requires
        luhn_valid(s@),
    ensures
        r@ == unluhnify_spec(s@),
        r@.len() == 52,
{
    let mut out = String::new();
    let mut i: usize = 0;
    while i < 4
        invariant
            0 <= i <= 4,
            luhn_valid(s@),
            out@ == unluhnify_groups(s@, i as nat),
            out@.len() == 13 * i,
        decreases 4 - i,
    {
        let part = s.substring_char(i * 14, (i + 1) * 14 - 1);
        out.append(part);
        proof {
            assert(out@ =~= unluhnify_groups(s@, (i + 1) as nat));
        }
        i += 1;
    }
    out
}

/// Changing the character at `j` changes the Luhn sum by the difference of
/// the two characters' terms.
proof fn lemma_luhn_sum_update(s: Seq<char>, j: int, c: char)
    requires
        0 <= j < s.len(),
    ensures
        luhn_sum(s.update(j, c)) == luhn_sum(s) - luhn_term(s[j], j) + luhn_term(c, j),
    decreases s.len(),
{
    let t = s.update(j, c);
    if j == s.len() - 1 {
        assert(t.drop_last() =~= s.drop_last());
    } else {
        lemma_luhn_sum_update(s.drop_last(), j, c);
        assert(t.drop_last() =~= s.drop_last().update(j, c));
    }
}

/// At a given position, distinct base32 symbols have distinct Luhn terms,
/// each below 32.
proof fn lemma_luhn_term_injective(a: char, b: char, pos: int)
    requires
        is_base32_char(a),
        is_base32_char(b),
        a != b,
    ensures
        0 <= luhn_term(a, pos) < 32,
        0 <= luhn_term(b, pos) < 32,
        luhn_term(a, pos) != luhn_term(b, pos),
{
    let va = base32_value(a);
    let vb = base32_value(b);
    assert(a as int != b as int);
    assert(0 <= va < 32 && 0 <= vb < 32 && va != vb);
    if pos % 2 != 0 {
        assert(va < 16 ==> (2 * va) / 32 == 0 && (2 * va) % 32 == 2 * va);
        assert(va >= 16 ==> (2 * va) / 32 == 1 && (2 * va) % 32 == 2 * va - 32);
        assert(vb < 16 ==> (2 * vb) / 32 == 0 && (2 * vb) % 32 == 2 * vb);
        assert(vb >= 16 ==> (2 * vb) / 32 == 1 && (2 * vb) % 32 == 2 * vb - 32);
    }
}

/// Law: the Luhn check catches every single substitution. Replacing any one
/// of the first 56 characters of a checked device ID by a different base32
/// symbol makes the check of its group fail, so `unluhnify` refuses it.
pub proof fn lemma_luhn_detects_substitution(t: Seq<char>, k: int, c: char)
    requires
        luhn_valid(t),
        0 <= k < 56,
        is_base32_char(c),
        c != t[k],
    ensures
        !luhn_valid(t.update(k, c)),
{
    let g = k / 14;
    let u = t.update(k, c);
    assert(0 <= g < 4);
    assert(luhn_group_valid(t, g));
    let old_g = unluhn_group(t, g);
    if k == 14 * g + 13 {
        assert(unluhn_group(u, g) =~= old_g);
        assert(u[14 * g + 13] == c);
    } else {
        let j = k - 14 * g;
        assert(0 <= j < 13);
        assert(unluhn_group(u, g) =~= old_g.update(j, c));
        assert(old_g[j] == t[k]);
        assert(is_base32_char(t[k]));
        lemma_luhn_sum_update(old_g, j, c);
        lemma_luhn_term_injective(c, t[k], j);
        let x = luhn_sum(old_g);
        let y = luhn_sum(unluhn_group(u, g));
        assert(x % 32 != y % 32) by {
            let d = y - x;
            assert(-32 < d < 32 && d != 0);
            if x % 32 == y % 32 {
                vstd::arithmetic::div_mod::lemma_fundamental_div_mod(x, 32);
                vstd::arithmetic::div_mod::lemma_fundamental_div_mod(y, 32);
                assert(d == 32 * (y / 32 - x / 32)) by (nonlinear_arith)
                    requires
                        d == y - x,
                        x == 32 * (x / 32) + x % 32,
                        y == 32 * (y / 32) + y % 32,
                        x % 32 == y % 32,
                ;
            }
        }
        let rx = (32 - x % 32) % 32;
        let ry = (32 - y % 32) % 32;
        assert(rx != ry);
        assert(0 <= rx < 32 && 0 <= ry < 32);
        assert(base32_symbol(rx) != base32_symbol(ry)) by {
            assert(base32_value(base32_symbol(rx)) == rx);
            assert(base32_value(base32_symbol(ry)) == ry);
        }
        assert(u[14 * g + 13] == t[14 * g + 13]);
    }
    assert(!luhn_group_valid(u, g));
}

/// The first `n` chunks of seven characters of `s`, joined by dashes.
pub open spec fn chunkify_groups(s: Seq<char>, n: nat) -> Seq<char>
    decreases n,
{
    if n == 0 {
        Seq::empty()
    } else if n == 1 {
        s.subrange(0, 7)
    } else {
        chunkify_groups(s, (n - 1) as nat).push('-') + s.subrange(7 * (n - 1), 7 * (n as int))
    }
}

/// `s` cut into chunks of seven characters joined by dashes; a trailing
/// partial chunk is dropped.
pub open spec fn chunkify_spec(s: Seq<char>) -> Seq<char> {
    chunkify_groups(s, (s.len() / 7) as nat)
}

/// `s` with every occurrence of `c` removed.
pub open spec fn without_char(s: Seq<char>, c: char) -> Seq<char>
    decreases s.len(),
{
    if s.len() == 0 {
        s
    } else if s.last() == c {
        without_char(s.drop_last(), c)
    } else {
        without_char(s.drop_last(), c).push(s.last())
    }
}

/// The characters of the first `n` chunks of seven bytes of `b`, joined by
/// dashes.
pub open spec fn chunk_text(b: Seq<u8>, n: nat) -> Seq<char>
    decreases n,
{
    if n == 0 {
        Seq::empty()
    } else if n == 1 {
        vstd::utf8::decode_utf8(b.subrange(0, 7))
    } else {
        chunk_text(b, (n - 1) as nat).push('-') + vstd::utf8::decode_utf8(b.subrange(7 * (n - 1), 7 * (n as int)))
    }
}

/// Every seventh byte of the UTF-8 encoding of `s` starts a character, so
/// that `s` can be cut into chunks of seven bytes.
pub open spec fn cuts_at_char_boundaries(s: Seq<char>) -> bool {
    let b = vstd::utf8::encode_utf8(s);
    forall|i: int| 0 <= i <= b.len() / 7 ==> #[trigger] vstd::utf8::is_char_boundary(b, 7 * i)
}

/// ASCII text can be cut anywhere.
proof fn lemma_ascii_cuts(s: Seq<char>)
    requires
        vstd::utf8::is_ascii_chars(s),
    ensures
        cuts_at_char_boundaries(s),
{
    broadcast use vstd::utf8::group_utf8_lib;

    let b = vstd::utf8::encode_utf8(s);
    assert forall|i: int| 0 <= i <= b.len() / 7 implies #[trigger] vstd::utf8::is_char_boundary(b, 7 * i) by {
        if 7 * i < b.len() {
            assert(s[7 * i] as u8 == b[7 * i]);
            assert((s[7 * i] as nat) < 128);
            assert(!vstd::utf8::is_continuation_byte(b[7 * i]));
        } else {
            assert(7 * i == b.len());
        }
    }
}

/// On ASCII text, chunks of seven bytes are chunks of seven characters.
proof fn lemma_ascii_chunks(s: Seq<char>, n: nat)
    requires
        vstd::utf8::is_ascii_chars(s),
        7 * n <= s.len(),
    ensures
        chunk_text(vstd::utf8::encode_utf8(s), n) == chunkify_groups(s, n),
    decreases n,
{
    broadcast use vstd::utf8::group_utf8_lib;

    let b = vstd::utf8::encode_utf8(s);
    if n > 0 {
        let k = n - 1;
        let part = s.subrange(7 * k, 7 * k + 7);
        assert(vstd::utf8::is_ascii_chars(part)) by {
            assert forall|j: int| 0 <= j < part.len() implies '\0' <= #[trigger] part[j] <= '\u{7f}' by {
                assert(part[j] == s[7 * k + j]);
            }
        }
        assert(vstd::utf8::encode_utf8(part) =~= b.subrange(7 * k, 7 * k + 7)) by {
            assert forall|j: int| 0 <= j < 7 implies #[trigger] vstd::utf8::encode_utf8(part)[j] == b.subrange(7 * k, 7 * k + 7)[j] by {
                assert(part[j] == s[7 * k + j]);
                assert(part[j] as u8 == vstd::utf8::encode_utf8(part)[j]);
                assert(s[7 * k + j] as u8 == b[7 * k + j]);
            }
        }
        assert(vstd::utf8::decode_utf8(b.subrange(7 * k, 7 * k + 7)) == part);
        if n > 1 {
            lemma_ascii_chunks(s, k as nat);
        }
    }
}

/// Splits a string into dash-separated chunks of seven bytes; a trailing
/// chunk of fewer than seven bytes is dropped. Every seventh byte must start
/// a character (it does in ASCII text, such as device IDs, where bytes and
/// characters agree).
pub fn chunkify(s: &str) -> (r: String)
    requires
        cuts_at_char_boundaries(s@),
        vstd::utf8::encode_utf8(s@).len() <= usize::MAX,
    ensures
        r@ == chunk_text(vstd::utf8::encode_utf8(s@), (vstd::utf8::encode_utf8(s@).len() / 7) as nat),
        vstd::utf8::is_ascii_chars(s@) ==> r@ == chunkify_spec(s@),
{
    broadcast use vstd::utf8::group_utf8_lib;

    let ghost b = vstd::utf8::encode_utf8(s@);
    proof {
        vstd::utf8::encode_utf8_valid_utf8(s@);
    }
    let mut out = String::new();
    let n = s.len();
    let num_chunks = n / 7;
    let mut i: usize = 0;
    while i < num_chunks
        invariant
            n == b.len(),
            b == s.spec_bytes(),
            b == vstd::utf8::encode_utf8(s@),
            vstd::utf8::valid_utf8(b),
            cuts_at_char_boundaries(s@),
            0 <= i <= num_chunks,
            num_chunks == b.len() / 7,
            num_chunks * 7 <= b.len(),
            i == 0 ==> out@ == Seq::<char>::empty(),
            0 < i < num_chunks ==> out@ == chunk_text(b, i as nat).push('-'),
            0 < i == num_chunks ==> out@ == chunk_text(b, i as nat),
        decreases num_chunks - i,
    {
        proof {
            assert((i + 1) * 7 <= num_chunks * 7) by (nonlinear_arith)
                requires
                    i < num_chunks,
            ;
            assert(vstd::utf8::is_char_boundary(b, 7 * (i as int)));
            assert(vstd::utf8::is_char_boundary(b, 7 * (i as int + 1)));
        }
        let (_, tail) = s.split_at(i * 7);
        proof {
            let t = b.subrange(7 * i, b.len() as int);
            assert(tail.spec_bytes() =~= t);
            vstd::utf8::valid_utf8_split(b, 7 * i);
            assert(vstd::utf8::valid_utf8(t));
            if 7 * i + 7 < b.len() {
                vstd::utf8::is_char_boundary_iff_not_is_continuation_byte(b, 7 * i + 7);
                vstd::utf8::is_char_boundary_iff_not_is_continuation_byte(t, 7);
                assert(t[7] == b[7 * i + 7]);
                assert(!vstd::utf8::is_continuation_byte(b[7 * i + 7]));
                assert(vstd::utf8::is_char_boundary(t, 7));
            } else {
                assert(t.len() == 7);
                vstd::utf8::is_char_boundary_start_end_of_seq(t);
            }
        }
        let (part, _) = tail.split_at(7);
        proof {
            assert(part.spec_bytes() =~= b.subrange(7 * i, 7 * i + 7));
            vstd::utf8::encode_utf8_decode_utf8(part@);
            assert(part@ == vstd::utf8::decode_utf8(b.subrange(7 * i, 7 * i + 7)));
        }
        out.append(part);
        proof {
            assert(out@ =~= chunk_text(b, (i + 1) as nat));
        }
        if i != num_chunks - 1 {
            push_char(&mut out, '-');
        }
        i += 1;
    }
    proof {
        if vstd::utf8::is_ascii_chars(s@) {
            assert(b.len() == s@.len());
            lemma_ascii_chunks(s@, num_chunks as nat);
        }
    }
    out
}

/// `s` with every occurrence of `c` removed (`s.replace(c, "")`).
pub fn remove_char(s: &str, c: char) -> (r: String)
    ensures
        r@ == without_char(s@, c),
{
    let mut out = String::new();
    let n = s.unicode_len();
    let mut i: usize = 0;
    while i < n
        invariant
            n == s@.len(),
            0 <= i <= n,
            out@ == without_char(s@.take(i as int), c),
        decreases n - i,
    {
        let d = s.get_char(i);
        if d != c {
            push_char(&mut out, d);
        }
        proof {
            assert(s@.take(i + 1).drop_last() =~= s@.take(i as int));
        }
        i += 1;
    }
    proof {
        assert(s@.take(n as int) =~= s@);
    }
    out
}

/// Removes every dash from a string (`s.replace("-", "")`).
pub fn unchunkify(s: &str) -> (r: String)
    ensures
        r@ == without_char(s@, '-'),
{
    remove_char(s, '-')
}

} // verus!

verus! {

/// Byte `i` of `b`, or zero past its end (base32 pads the last group of
/// bits with zeros).
pub open spec fn byte_or_zero(b: Seq<u8>, i: int) -> int {
    if 0 <= i < b.len() {
        b[i] as int
    } else {
        0
    }
}

/// Value of base32 symbol `k` of `b`: the five bits that start at bit `5k`
/// of `b` read most significant bit first, taken from the 16 bits of bytes
/// `5k / 8` and `5k / 8 + 1`.
pub open spec fn base32_symbol_value(b: Seq<u8>, k: int) -> int {
    let q = 5 * k / 8;
    let o = 5 * k % 8;
    (byte_or_zero(b, q) * 256 + byte_or_zero(b, q + 1)) / (vstd::arithmetic::power2::pow2((11 - o) as nat) as int) % 32
}

/// Name for what `data_encoding::BASE32_NOPAD.decode` returns on the given
/// bytes: `Some` of the decoded bytes, or `None` where it reports an error.
pub uninterp spec fn base32_nopad_decode(input: Seq<u8>) -> Option<Seq<u8>>;

/// Number of base32 symbols needed for `n` bytes (`ceil(8n / 5)`).
pub open spec fn base32_symbol_len(n: int) -> int {
    (8 * n + 4) / 5
}

/// Length of the padded base32 encoding of `n` bytes (whole blocks of 8).
pub open spec fn base32_padded_len(n: int) -> int {
    (n + 4) / 5 * 8
}

/// RFC 4648 base32 of `b`: the `ceil(8n/5)` symbols of its bits, then `=`
/// up to a whole number of 8-character blocks.
pub open spec fn base32_encode(b: Seq<u8>) -> Seq<char> {
    Seq::new(
        base32_padded_len(b.len() as int) as nat,
        |k: int|
            if k < base32_symbol_len(b.len() as int) {
                base32_symbol(base32_symbol_value(b, k))
            } else {
                '='
            },
    )
}

/// The padded encoding has the padded length, base32 symbols first and `=`
/// after them.
proof fn lemma_base32_encode_shape(b: Seq<u8>)
    ensures
        base32_encode(b).len() == base32_padded_len(b.len() as int),
        base32_symbol_len(b.len() as int) <= base32_padded_len(b.len() as int),
        forall|i: int| 0 <= i < base32_symbol_len(b.len() as int) ==> is_base32_char(#[trigger] base32_encode(b)[i]),
        forall|i: int| base32_symbol_len(b.len() as int) <= i < base32_encode(b).len() ==> #[trigger] base32_encode(b)[i] == '=',
{
    let n = b.len() as int;
    assert(base32_symbol_len(n) <= base32_padded_len(n)) by {
        assert((8 * n + 4) / 5 <= (n + 4) / 5 * 8) by (nonlinear_arith)
            requires
                n >= 0,
        ;
    }
    assert forall|i: int| 0 <= i < base32_symbol_len(n) implies is_base32_char(#[trigger] base32_encode(b)[i]) by {
        let v = base32_symbol_value(b, i);
        assert(0 <= v < 32);
    }
}

/// `data_encoding::BASE32.encode`. Trusted: the crate documents it as the
/// RFC 4648 padded base32 encoding with alphabet `A`–`Z`, `2`–`7`, which
/// `base32_encode` states. The crate documents its encodings as correct
/// (decoding an encoding gives the data back); `BASE32_NOPAD` has the same
/// symbols without padding, so it decodes the unpadded symbols to the input.
/// It may panic above `usize::MAX / 512` bytes.
#[verifier::external_body]
fn base32_encode_bytes(bytes: &[u8]) -> (r: String)
    requires
        bytes@.len() <= usize::MAX / 512,
    ensures
        r@ == base32_encode(bytes@),
        base32_nopad_decode(ascii_bytes(without_char(r@, '='))) == Some(bytes@),
{
    data_encoding::BASE32.encode(bytes)
}

/// `data_encoding::BASE32_NOPAD.decode`, with its error mapped to `None`.
/// Trusted: the result is named `base32_nopad_decode`; nothing more is
/// claimed here. It may panic above `usize::MAX / 8` bytes.
#[verifier::external_body]
fn base32_nopad_decode_bytes(input: &[u8]) -> (r: Option<Vec<u8>>)
    requires
        input@.len() <= usize::MAX / 8,
    ensures
        r is Some <==> base32_nopad_decode(input@) is Some,
        r is Some ==> base32_nopad_decode(input@) == Some(r->0@),
{
    data_encoding::BASE32_NOPAD.decode(input).ok()
}

/// The 52 base32 symbols of a device ID (its padded encoding without `=`).
pub open spec fn deviceid_base32_spec(id: Seq<u8>) -> Seq<char> {
    without_char(base32_encode(id), '=')
}

/// The Syncthing text form of a device ID: base32 symbols, a Luhn check
/// character after each group of 13, cut into dash-separated chunks of 7.
pub open spec fn deviceid_string_spec(id: Seq<u8>) -> Seq<char> {
    chunkify_spec(luhnify_spec(deviceid_base32_spec(id)))
}

/// The base32 symbols that a device ID string carries once its dashes and
/// check characters are removed.
pub open spec fn deviceid_string_symbols(s: Seq<char>) -> Seq<char> {
    unluhnify_spec(without_char(s, '-'))
}

/// The strings `deviceid_from_string` accepts: the check characters are right,
/// and the base32 symbols decode to exactly 32 bytes.
pub open spec fn deviceid_string_ok(s: Seq<char>) -> bool {
    &&& luhn_valid(without_char(s, '-'))
    &&& base32_nopad_decode(ascii_bytes(deviceid_string_symbols(s))) matches Some(b)
    &&& b.len() == 32
}

proof fn lemma_without_char_concat(a: Seq<char>, b: Seq<char>, c: char)
    ensures
        without_char(a + b, c) == without_char(a, c) + without_char(b, c),
    decreases b.len(),
{
    if b.len() == 0 {
        assert(a + b =~= a);
        assert(without_char(a, c) + without_char(b, c) =~= without_char(a, c));
    } else {
        lemma_without_char_concat(a, b.drop_last(), c);
        assert((a + b).drop_last() =~= a + b.drop_last());
        assert((a + b).last() == b.last());
        if b.last() == c {
        } else {
            assert(without_char(a, c) + without_char(b.drop_last(), c).push(b.last())
                =~= (without_char(a, c) + without_char(b.drop_last(), c)).push(b.last()));
        }
    }
}

proof fn lemma_without_char_absent(s: Seq<char>, c: char)
    requires
        forall|i: int| 0 <= i < s.len() ==> s[i] != c,
    ensures
        without_char(s, c) == s,
    decreases s.len(),
{
    if s.len() > 0 {
        lemma_without_char_absent(s.drop_last(), c);
        assert(s.drop_last().push(s.last()) =~= s);
    }
}

proof fn lemma_without_char_only(s: Seq<char>, c: char)
    requires
        forall|i: int| 0 <= i < s.len() ==> s[i] == c,
    ensures
        without_char(s, c) == Seq::<char>::empty(),
    decreases s.len(),
{
    if s.len() > 0 {
        lemma_without_char_only(s.drop_last(), c);
    }
}

/// Removing `=` from the padded encoding leaves exactly its leading symbols.
proof fn lemma_unpadded(enc: Seq<char>, k: int)
    requires
        0 <= k <= enc.len(),
        forall|i: int| 0 <= i < k ==> is_base32_char(#[trigger] enc[i]),
        forall|i: int| k <= i < enc.len() ==> #[trigger] enc[i] == '=',
    ensures
        without_char(enc, '=') == enc.take(k),
{
    assert(enc =~= enc.take(k) + enc.skip(k));
    lemma_without_char_concat(enc.take(k), enc.skip(k), '=');
    assert forall|i: int| 0 <= i < enc.take(k).len() implies enc.take(k)[i] != '=' by {
        assert(is_base32_char(enc[i]));
    }
    lemma_without_char_absent(enc.take(k), '=');
    assert forall|i: int| 0 <= i < enc.skip(k).len() implies enc.skip(k)[i] == '=' by {
        assert(enc.skip(k)[i] == enc[k + i]);
    }
    lemma_without_char_only(enc.skip(k), '=');
    assert(enc.take(k) + Seq::<char>::empty() =~= enc.take(k));
}

proof fn lemma_base32_is_ascii(s: Seq<char>)
    requires
        all_base32(s),
    ensures
        vstd::utf8::is_ascii_chars(s),
        forall|i: int| 0 <= i < s.len() ==> #[trigger] s[i] != '-',
{
    assert forall|i: int| 0 <= i < s.len() implies '\0' <= #[trigger] s[i] <= '\u{7f}' by {
        assert(is_base32_char(s[i]));
    }
}

/// Removing the dashes from the chunked form of a dash-free string gives back
/// its first `7n` characters.
proof fn lemma_unchunk_groups(s: Seq<char>, n: nat)
    requires
        7 * n <= s.len(),
        forall|i: int| 0 <= i < s.len() ==> #[trigger] s[i] != '-',
    ensures
        without_char(chunkify_groups(s, n), '-') == s.take(7 * (n as int)),
    decreases n,
{
    if n == 0 {
        assert(s.take(0) =~= Seq::<char>::empty());
    } else if n == 1 {
        assert(s.subrange(0, 7) =~= s.take(7));
        lemma_without_char_absent(s.take(7), '-');
    } else {
        lemma_unchunk_groups(s, (n - 1) as nat);
        let prev = chunkify_groups(s, (n - 1) as nat);
        let part = s.subrange(7 * (n - 1), 7 * (n as int));
        lemma_without_char_concat(prev.push('-'), part, '-');
        assert(prev.push('-').drop_last() =~= prev);
        assert forall|i: int| 0 <= i < part.len() implies part[i] != '-' by {
            assert(part[i] == s[7 * (n - 1) + i]);
        }
        lemma_without_char_absent(part, '-');
        assert(s.take(7 * (n - 1)) + part =~= s.take(7 * (n as int)));
    }
}

/// Removing the check characters from a luhnified string gives back its first
/// `13n` symbols.
proof fn lemma_unluhnify_groups(u: Seq<char>, n: nat)
    requires
        n <= 4,
        u.len() == 52,
        all_base32(u),
    ensures
        unluhnify_groups(luhnify_spec(u), n) == u.take(13 * (n as int)),
    decreases n,
{
    lemma_luhnify_groups(u, 4);
    if n == 0 {
        assert(u.take(0) =~= Seq::<char>::empty());
    } else {
        lemma_unluhnify_groups(u, (n - 1) as nat);
        assert(unluhn_group(luhnify_spec(u), n - 1) =~= luhn_group(u, n - 1));
        assert(u.take(13 * (n - 1)) + luhn_group(u, n - 1) =~= u.take(13 * (n as int)));
    }
}

/// Dropping the dashes from the first `k` chunks gives back the characters
/// of the first `7 k` bytes, which hold no dash.
proof fn lemma_chunk_text_dashless(s: Seq<char>, k: nat)
    requires
        cuts_at_char_boundaries(s),
        forall|i: int| 0 <= i < s.len() ==> #[trigger] s[i] != '-',
        7 * k <= vstd::utf8::encode_utf8(s).len(),
    ensures
        without_char(chunk_text(vstd::utf8::encode_utf8(s), k), '-')
            == vstd::utf8::decode_utf8(vstd::utf8::encode_utf8(s).subrange(0, 7 * (k as int))),
        forall|i: int| 0 <= i < vstd::utf8::decode_utf8(vstd::utf8::encode_utf8(s).subrange(0, 7 * (k as int))).len()
            ==> #[trigger] vstd::utf8::decode_utf8(vstd::utf8::encode_utf8(s).subrange(0, 7 * (k as int)))[i] != '-',
    decreases k,
{
    let b = vstd::utf8::encode_utf8(s);
    vstd::utf8::encode_utf8_valid_utf8(s);
    vstd::utf8::encode_utf8_decode_utf8(s);
    let pre = b.subrange(0, 7 * (k as int));
    // The prefix is a prefix of `s`, so it has no dash.
    assert(vstd::utf8::is_char_boundary(b, 7 * (k as int)));
    vstd::utf8::decode_utf8_split(b, 7 * (k as int));
    assert(b.subrange(0, b.len() as int) =~= b);
    let dp = vstd::utf8::decode_utf8(pre);
    assert forall|i: int| 0 <= i < dp.len() implies #[trigger] dp[i] != '-' by {
        assert(s[i] == dp[i]);
    }
    if k == 0 {
        assert(pre =~= Seq::<u8>::empty());
        assert(vstd::utf8::decode_utf8(pre) =~= Seq::<char>::empty());
    } else {
        let m = (k - 1) as nat;
        lemma_chunk_text_dashless(s, m);
        vstd::utf8::valid_utf8_split(b, 7 * (k as int));
        let cut = 7 * (m as int);
        assert(vstd::utf8::is_char_boundary(pre, cut)) by {
            if cut > 0 {
                assert(vstd::utf8::is_char_boundary(b, cut));
                vstd::utf8::is_char_boundary_iff_not_is_continuation_byte(b, cut);
                vstd::utf8::is_char_boundary_iff_not_is_continuation_byte(pre, cut);
                assert(pre[cut] == b[cut]);
            }
        }
        vstd::utf8::decode_utf8_split(pre, cut);
        assert(pre.subrange(0, cut) =~= b.subrange(0, cut));
        assert(pre.subrange(cut, pre.len() as int) =~= b.subrange(cut, 7 * (k as int)));
        let head = vstd::utf8::decode_utf8(b.subrange(0, cut));
        let last = vstd::utf8::decode_utf8(b.subrange(cut, 7 * (k as int)));
        assert(dp =~= head + last);
        assert forall|i: int| 0 <= i < last.len() implies last[i] != '-' by {
            assert(dp[head.len() + i] == last[i]);
        }
        lemma_without_char_absent(last, '-');
        if k == 1 {
            assert(b.subrange(0, 0) =~= Seq::<u8>::empty());
            assert(head =~= Seq::<char>::empty());
            assert(last =~= dp);
        } else {
            let prev = chunk_text(b, m);
            assert(chunk_text(b, k) == prev.push('-') + last);
            lemma_without_char_concat(prev.push('-'), last, '-');
            assert(prev.push('-') =~= prev + seq!['-']);
            lemma_without_char_concat(prev, seq!['-'], '-');
            assert(without_char(seq!['-'], '-') =~= Seq::<char>::empty()) by {
                assert(seq!['-'].drop_last() =~= Seq::<char>::empty());
                assert(seq!['-'].last() == '-');
                assert(without_char(Seq::<char>::empty(), '-') =~= Seq::<char>::empty());
            }
            assert(without_char(prev, '-') + Seq::<char>::empty() =~= without_char(prev, '-'));
        }
    }
}

/// Law: `unchunkify` undoes `chunkify` on dash-free text of whole chunks:
/// cutting a string whose UTF-8 length is a multiple of seven into chunks of
/// seven bytes, joining them with dashes and removing the dashes again gives
/// the string back. (For ASCII text, the chunks are of seven characters.)
pub proof fn lemma_unchunkify_chunkify(s: Seq<char>)
    requires
        cuts_at_char_boundaries(s),
        vstd::utf8::encode_utf8(s).len() % 7 == 0,
        forall|i: int| 0 <= i < s.len() ==> #[trigger] s[i] != '-',
    ensures
        without_char(chunk_text(vstd::utf8::encode_utf8(s), (vstd::utf8::encode_utf8(s).len() / 7) as nat), '-') == s,
{
    let b = vstd::utf8::encode_utf8(s);
    let n = (b.len() / 7) as nat;
    lemma_chunk_text_dashless(s, n);
    assert(7 * (n as int) == b.len());
    assert(b.subrange(0, b.len() as int) =~= b);
    vstd::utf8::encode_utf8_decode_utf8(s);
}

/// Law: the text layer of a device ID inverts exactly. For any 52 base32
/// symbols, luhnifying and chunking gives a string whose dashes and check
/// characters, once removed, give back those symbols; the check characters
/// are all right.
pub proof fn lemma_text_form_roundtrip(u: Seq<char>)
    requires
        u.len() == 52,
        all_base32(u),
    ensures
        luhn_valid(without_char(chunkify_spec(luhnify_spec(u)), '-')),
        deviceid_string_symbols(chunkify_spec(luhnify_spec(u))) == u,
{
    let t = luhnify_spec(u);
    lemma_luhnify_groups(u, 4);
    lemma_base32_is_ascii(t);
    assert(t.len() / 7 == 8);
    lemma_unchunk_groups(t, 8);
    assert(t.take(56) =~= t);
    assert forall|i: int| 0 <= i < 4 implies #[trigger] luhn_group_valid(t, i) by {
        assert(unluhn_group(t, i) =~= luhn_group(u, i));
        assert forall|k: int| 0 <= k < unluhn_group(t, i).len() implies is_base32_char(#[trigger] unluhn_group(t, i)[k]) by {
            assert(unluhn_group(t, i)[k] == t[14 * i + k]);
        }
    }
    lemma_unluhnify_groups(u, 4);
    assert(u.take(52) =~= u);
}

/// Law: checking the string form of a luhnified ID, then removing the check
/// characters and luhnifying again, gives back the checked part unchanged.
pub proof fn lemma_luhnify_unluhnify(s: Seq<char>)
    requires
        luhn_valid(s),
    ensures
        unluhnify_spec(s).len() == 52,
        all_base32(unluhnify_spec(s)),
        luhnify_spec(unluhnify_spec(s)) == s.take(56),
{
    let u = unluhnify_spec(s);
    assert forall|n: nat| n <= 4 implies #[trigger] unluhnify_groups(s, n).len() == 13 * n
        && forall|k: int| 0 <= k < 13 * n ==> unluhnify_groups(s, n)[k] == s[14 * (k / 13) + k % 13] by {
        lemma_unluhnify_groups_index(s, n);
    }
    assert(u.len() == 52);
    assert forall|k: int| 0 <= k < 52 implies is_base32_char(#[trigger] u[k]) by {
        assert(luhn_group_valid(s, k / 13));
        assert(unluhn_group(s, k / 13)[k % 13] == s[14 * (k / 13) + k % 13]);
    }
    lemma_luhnify_groups(u, 4);
    let t = luhnify_spec(u);
    assert forall|i: int| 0 <= i < 4 implies #[trigger] luhn_group(u, i) =~= unluhn_group(s, i) by {
        assert forall|k: int| 0 <= k < 13 implies luhn_group(u, i)[k] == unluhn_group(s, i)[k] by {
            assert((13 * i + k) / 13 == i);
            assert((13 * i + k) % 13 == k);
        }
    }
    assert forall|j: int| 0 <= j < 56 implies t[j] == s.take(56)[j] by {
        let i = j / 14;
        let k = j % 14;
        assert(0 <= i < 4);
        assert(luhn_group_valid(s, i));
        if k < 13 {
            assert(unluhn_group(t, i)[k] == t[j]);
            assert(unluhn_group(s, i)[k] == s[j]);
        } else {
            assert(t[14 * i + 13] == luhn_check_char(luhn_group(u, i)));
        }
    }
    assert(t =~= s.take(56));
}

proof fn lemma_unluhnify_groups_index(s: Seq<char>, n: nat)
    requires
        n <= 4,
        s.len() >= 56,
    ensures
        unluhnify_groups(s, n).len() == 13 * n,
        forall|k: int| 0 <= k < 13 * n ==> #[trigger] unluhnify_groups(s, n)[k] == s[14 * (k / 13) + k % 13],
    decreases n,
{
    if n > 0 {
        lemma_unluhnify_groups_index(s, (n - 1) as nat);
        let prev = unluhnify_groups(s, (n - 1) as nat);
        assert forall|k: int| 0 <= k < 13 * n implies #[trigger] unluhnify_groups(s, n)[k] == s[14 * (k / 13) + k % 13] by {
            if k >= 13 * (n - 1) {
                let j = k - 13 * (n - 1);
                assert(k / 13 == n - 1);
                assert(k % 13 == j);
                assert(unluhnify_groups(s, n)[k] == unluhn_group(s, n - 1)[j]);
            } else {
                assert(unluhnify_groups(s, n)[k] == prev[k]);
            }
        }
    }
}

} // verus!

verus! {

/// Converts a device ID to base32 without padding (the legacy form used by
/// older Syncthing clients).
pub fn deviceid_to_base32(bytes: &DeviceID) -> (r: String)
    ensures
        r@ == deviceid_base32_spec(bytes@),
        r@.len() == 52,
        all_base32(r@),
        base32_nopad_decode(ascii_bytes(r@)) == Some(bytes@),
{
    let enc = base32_encode_bytes(bytes.as_slice());
    let r = remove_char(enc.as_str(), '=');
    proof {
        assert(base32_symbol_len(32) == 52);
        assert(base32_padded_len(32) == 56);
        lemma_base32_encode_shape(bytes@);
        lemma_unpadded(enc@, 52);
        assert forall|i: int| 0 <= i < r@.len() implies is_base32_char(#[trigger] r@[i]) by {
            assert(r@[i] == enc@[i]);
        }
    }
    r
}

/// Converts a device ID to the Syncthing format.
/// The string it gives is accepted by `deviceid_from_string`, which decodes it
/// back to `bytes`.
pub fn deviceid_to_string(bytes: &DeviceID) -> (r: String)
    ensures
        r@ == deviceid_string_spec(bytes@),
        deviceid_string_ok(r@),
        base32_nopad_decode(ascii_bytes(deviceid_string_symbols(r@))) == Some(bytes@),
{
    let l = deviceid_to_base32(bytes);
    let lu = luhnify(l.as_str());
    proof {
        lemma_base32_is_ascii(lu@);
        lemma_ascii_cuts(lu@);
        vstd::utf8::is_ascii_chars_encode_utf8(lu@);
        lemma_text_form_roundtrip(l@);
    }
    chunkify(lu.as_str())
}

/// Copies 32 bytes into a device ID.
pub(crate) fn to_device_id(v: &Vec<u8>) -> (r: DeviceID)
    requires
        v@.len() == 32,
    ensures
        r@ == v@,
{
    let mut r: DeviceID = [0u8; 32];
    let mut i: usize = 0;
    while i < 32
        invariant
            0 <= i <= 32,
            v@.len() == 32,
            forall|k: int| 0 <= k < i ==> r@[k] == v@[k],
        decreases 32 - i,
    {
        r[i] = v[i];
        i += 1;
    }
    proof {
        assert(r@ =~= v@);
    }
    r
}

/// Parses a device ID in the Syncthing format. Its check characters must be
/// right and its symbols must decode to 32 bytes; `deviceid_try_from_string`
/// accepts every string.
pub fn deviceid_from_string(id: &str) -> (r: DeviceID)
    requires
        deviceid_string_ok(id@),
    ensures
        Some(r@) == base32_nopad_decode(ascii_bytes(deviceid_string_symbols(id@))),
{
    let u = unchunkify(id);
    let sym = unluhnify(u.as_str());
    proof {
        lemma_luhnify_unluhnify(u@);
        lemma_base32_is_ascii(sym@);
    }
    let decoded = base32_nopad_decode_bytes(ascii_to_bytes(&sym));
    match decoded {
        Some(v) => to_device_id(&v),
        None => {
            proof {
                assert(false);
            }
            [0u8; 32]
        },
    }
}

/// Checks the `i`-th group of a dash-free device ID string.
fn luhn_group_check(s: &str, i: usize) -> (r: bool)
    requires
        i < 4,
        s@.len() >= 56,
    ensures
        r == luhn_group_valid(s@, i as int),
{
    let part = s.substring_char(i * 14, i * 14 + 13);
    let n = part.unicode_len();
    let mut k: usize = 0;
    while k < n
        invariant
            n == part@.len(),
            part@ == unluhn_group(s@, i as int),
            0 <= k <= n,
            forall|j: int| 0 <= j < k ==> is_base32_char(#[trigger] part@[j]),
        decreases n - k,
    {
        let c = part.get_char(k);
        if !(('A' <= c && c <= 'Z') || ('2' <= c && c <= '7')) {
            return false;
        }
        k += 1;
    }
    let l = syncthing_luhn32(part);
    let c = s.get_char(i * 14 + 13);
    l == c
}

/// Whether a dash-free string passes the four Luhn checks.
pub fn luhn_check(s: &str) -> (r: bool)
    ensures
        r == luhn_valid(s@),
{
    if s.unicode_len() < 56 {
        return false;
    }
    let mut i: usize = 0;
    while i < 4
        invariant
            0 <= i <= 4,
            s@.len() >= 56,
            forall|j: int| 0 <= j < i ==> #[trigger] luhn_group_valid(s@, j),
        decreases 4 - i,
    {
        if !luhn_group_check(s, i) {
            return false;
        }
        i += 1;
    }
    true
}

/// Whether `deviceid_from_string` accepts `id`: its check characters are
/// right and its symbols decode to 32 bytes.
fn deviceid_string_accepted(id: &str) -> (b: bool)
    ensures
        b == deviceid_string_ok(id@),
{
    let u = unchunkify(id);
    if !luhn_check(u.as_str()) {
        return false;
    }
    let sym = unluhnify(u.as_str());
    proof {
        lemma_luhnify_unluhnify(u@);
        lemma_base32_is_ascii(sym@);
    }
    match base32_nopad_decode_bytes(ascii_to_bytes(&sym)) {
        Some(v) => v.len() == 32,
        None => false,
    }
}

/// Parses a device ID in the Syncthing format, giving `None` exactly where
/// `deviceid_from_string` would reject the string.
pub fn deviceid_try_from_string(id: &str) -> (r: Option<DeviceID>)
    ensures
        r is Some <==> deviceid_string_ok(id@),
        r is Some ==> Some(r->0@) == base32_nopad_decode(ascii_bytes(deviceid_string_symbols(id@))),
{
    if deviceid_string_accepted(id) {
        Some(deviceid_from_string(id))
    } else {
        None
    }
}

} // verus!
