//! The two blob encodings that meet in the credential manager: UTF-8 text,
//! as the legacy tool wrote it, and UTF-16 little-endian text, as the store
//! writes it now.
use vstd::prelude::*;
use vstd::utf8::*;
use vstd::arithmetic::div_mod::{lemma_fundamental_div_mod, lemma_fundamental_div_mod_converse};

verus! {

/// The UTF-16 code units of one character.
pub open spec fn char_units(c: char) -> Seq<u16> {
    let v = c as u32 as int;
    if v < 0x10000 {
        seq![v as u16]
    } else {
        seq![(0xD800 + (v - 0x10000) / 0x400) as u16, (0xDC00 + (v - 0x10000) % 0x400) as u16]
    }
}

/// The UTF-16 code units of a text.
pub open spec fn utf16_units(s: Seq<char>) -> Seq<u16>
    decreases s.len(),
{
    if s.len() == 0 {
        seq![]
    } else {
        char_units(s[0]) + utf16_units(s.drop_first())
    }
}

/// Code units laid out as bytes, low byte first.
pub open spec fn le_bytes(u: Seq<u16>) -> Seq<u8> {
    Seq::new(
        2 * u.len(),
        |j: int|
            if j % 2 == 0 {
                (u[j / 2] % 256) as u8
            } else {
                (u[j / 2] / 256) as u8
            },
    )
}

/// The blob that the store writes for a text: UTF-16, little-endian.
pub open spec fn current_blob(s: Seq<char>) -> Seq<u8> {
    le_bytes(utf16_units(s))
}

/// The text that a blob in the current format holds, if it holds one.
pub open spec fn current_text(b: Seq<u8>) -> Option<Seq<char>> {
    if exists|t: Seq<char>| current_blob(t) == b {
        Some(choose|t: Seq<char>| current_blob(t) == b)
    } else {
        None
    }
}

/// A text that contains the character U+0000.
pub open spec fn has_nul(s: Seq<char>) -> bool {
    s.contains('\0')
}

/// A blob that the legacy tool wrote: non-empty, valid UTF-8, and free of
/// U+0000 once decoded.
pub open spec fn is_legacy_blob(b: Seq<u8>) -> bool {
    &&& b.len() > 0
    &&& valid_utf8(b)
    &&& !has_nul(decode_utf8(b))
}

/// A code unit below 0x100 yields a zero byte in the current format.
pub proof fn lemma_small_unit_zero_byte(u: Seq<u16>, j: int)
    requires
        0 <= j < u.len(),
        u[j] < 0x100,
    ensures
        le_bytes(u).contains(0u8),
{
    let b = le_bytes(u);
    assert(b[2 * j + 1] == 0u8);
}

/// A text with a character below U+0100 has a code unit below 0x100.
pub proof fn lemma_small_char_small_unit(s: Seq<char>, i: int)
    requires
        0 <= i < s.len(),
        (s[i] as u32) < 0x100,
    ensures
        exists|j: int| 0 <= j < utf16_units(s).len() && utf16_units(s)[j] < 0x100,
    decreases s.len(),
{
    let u = utf16_units(s);
    if i == 0 {
        assert(u[0] == (s[0] as u32) as u16);
    } else {
        let rest = s.drop_first();
        assert(rest[i - 1] == s[i]);
        lemma_small_char_small_unit(rest, i - 1);
        let j = choose|j: int| 0 <= j < utf16_units(rest).len() && utf16_units(rest)[j] < 0x100;
        let n = char_units(s[0]).len();
        assert(u[n + j] == utf16_units(rest)[j]);
    }
}

/// The current encoding of a text with a character below U+0100 holds a
/// zero byte.
pub proof fn lemma_current_blob_has_zero(s: Seq<char>, i: int)
    requires
        0 <= i < s.len(),
        (s[i] as u32) < 0x100,
    ensures
        current_blob(s).contains(0u8),
{
    lemma_small_char_small_unit(s, i);
    let j = choose|j: int| 0 <= j < utf16_units(s).len() && utf16_units(s)[j] < 0x100;
    lemma_small_unit_zero_byte(utf16_units(s), j);
}

/// Valid UTF-8 that holds a zero byte decodes to a text with U+0000: the
/// zero byte is never part of a longer sequence.
pub proof fn lemma_zero_byte_decodes_to_nul(b: Seq<u8>, i: int)
    requires
        valid_utf8(b),
        0 <= i < b.len(),
        b[i] == 0u8,
    ensures
        has_nul(decode_utf8(b)),
    decreases b.len(),
{
    let n = length_of_first_scalar(b);
    let d = decode_utf8(b);
    let rest = pop_first_scalar(b);
    assert(d == seq![decode_first_scalar(b) as char] + decode_utf8(rest));
    if i == 0 {
        assert(codepoint_width_1(0u8) == 0u32) by (bit_vector);
        assert(decode_first_scalar(b) == 0u32);
        assert(d[0] == '\0');
    } else if i < n {
        assert(is_continuation_byte(b[i]));
    } else {
        assert(rest[i - n] == b[i]);
        lemma_zero_byte_decodes_to_nul(rest, i - n);
        let k = choose|k: int| 0 <= k < decode_utf8(rest).len() && decode_utf8(rest)[k] == '\0';
        assert(d[k + 1] == '\0');
    }
}

/// A blob that holds a zero byte is never taken for legacy data.
pub proof fn lemma_zero_byte_not_legacy(b: Seq<u8>)
    requires
        b.contains(0u8),
    ensures
        !is_legacy_blob(b),
{
    if valid_utf8(b) {
        let i = choose|i: int| 0 <= i < b.len() && b[i] == 0u8;
        lemma_zero_byte_decodes_to_nul(b, i);
    }
}


/// The UTF-8 encoding of a text with U+0000 holds a zero byte.
pub proof fn lemma_nul_encodes_to_zero_byte(s: Seq<char>, k: int)
    requires
        0 <= k < s.len(),
        s[k] == '\0',
    ensures
        encode_utf8(s).contains(0u8),
    decreases s.len(),
{
    let first = encode_scalar(s[0] as u32);
    let rest = s.drop_first();
    assert(encode_utf8(s) == first + encode_utf8(rest));
    if k == 0 {
        assert(s[0] as u32 == 0u32);
        assert(leading_byte_width_1(0u32) == 0u8) by (bit_vector);
        assert(encode_utf8(s)[0] == 0u8);
    } else {
        assert(rest[k - 1] == '\0');
        lemma_nul_encodes_to_zero_byte(rest, k - 1);
        let i = choose|i: int| 0 <= i < encode_utf8(rest).len() && encode_utf8(rest)[i] == 0u8;
        assert(encode_utf8(s)[first.len() + i] == 0u8);
    }
}

/// In valid UTF-8, U+0000 comes only from a zero byte.
pub proof fn lemma_nul_decodes_from_zero_byte(b: Seq<u8>, k: int)
    requires
        valid_utf8(b),
        0 <= k < decode_utf8(b).len(),
        decode_utf8(b)[k] == '\0',
    ensures
        b.contains(0u8),
{
    decode_utf8_encode_utf8(b);
    lemma_nul_encodes_to_zero_byte(decode_utf8(b), k);
}

/// A code unit is its low byte plus 256 times its high byte.
proof fn lemma_le_pair(u: Seq<u16>, j: int)
    requires
        0 <= j < u.len(),
    ensures
        le_bytes(u)[2 * j] + 256 * le_bytes(u)[2 * j + 1] == u[j],
{
    let x = u[j] as int;
    lemma_fundamental_div_mod(x, 256);
    assert(le_bytes(u)[2 * j] == (x % 256) as u8);
    assert(le_bytes(u)[2 * j + 1] == (x / 256) as u8);
}

/// Two unit sequences with the same bytes are the same.
proof fn lemma_le_bytes_injective(u: Seq<u16>, w: Seq<u16>)
    requires
        le_bytes(u) == le_bytes(w),
    ensures
        u == w,
{
    assert(le_bytes(u).len() == 2 * u.len());
    assert(le_bytes(w).len() == 2 * w.len());
    assert(u.len() == w.len());
    assert forall|j: int| 0 <= j < u.len() implies u[j] == w[j] by {
        lemma_le_pair(u, j);
        lemma_le_pair(w, j);
    }
    assert(u =~= w);
}

/// The first code unit tells a character apart: a surrogate for one above
/// U+FFFF, the character itself otherwise.
proof fn lemma_char_units_prefix(a: char, b: char, x: Seq<u16>, y: Seq<u16>)
    requires
        char_units(a) + x == char_units(b) + y,
    ensures
        a == b,
        x == y,
{
    let v = a as u32;
    let w = b as u32;
    char_is_scalar(a);
    char_is_scalar(b);
    let l = char_units(a) + x;
    let m = char_units(b) + y;
    assert(l[0] == m[0]);
    if (v as int) < 0x10000 && (w as int) < 0x10000 {
        assert(l[0] == v as u16);
        assert(m[0] == w as u16);
        char_u32_cast(a, v);
        char_u32_cast(b, w);
    } else if (v as int) >= 0x10000 && (w as int) >= 0x10000 {
        let p = v as int - 0x10000;
        let q = w as int - 0x10000;
        assert(0 <= p / 0x400 <= 0x3ff);
        assert(0 <= q / 0x400 <= 0x3ff);
        assert(l[0] == (0xD800 + p / 0x400) as u16);
        assert(m[0] == (0xD800 + q / 0x400) as u16);
        assert(l[1] == (0xDC00 + p % 0x400) as u16);
        assert(m[1] == (0xDC00 + q % 0x400) as u16);
        lemma_fundamental_div_mod(p, 0x400);
        lemma_fundamental_div_mod(q, 0x400);
        char_u32_cast(a, v);
        char_u32_cast(b, w);
    } else if (v as int) < 0x10000 {
        let q = w as int - 0x10000;
        assert(0 <= q / 0x400 <= 0x3ff);
        assert(l[0] == v as u16);
        assert(m[0] == (0xD800 + q / 0x400) as u16);
    } else {
        let p = v as int - 0x10000;
        assert(0 <= p / 0x400 <= 0x3ff);
        assert(m[0] == w as u16);
        assert(l[0] == (0xD800 + p / 0x400) as u16);
    }
    let n = char_units(a).len() as int;
    assert(x =~= l.subrange(n, l.len() as int));
    assert(y =~= m.subrange(n, m.len() as int));
}

/// Two texts with the same UTF-16 are the same.
pub proof fn lemma_units_injective(a: Seq<char>, b: Seq<char>)
    requires
        utf16_units(a) == utf16_units(b),
    ensures
        a == b,
    decreases a.len(),
{
    if a.len() == 0 {
        if b.len() > 0 {
            assert(utf16_units(b).len() > 0);
        }
        assert(a =~= b);
    } else {
        if b.len() == 0 {
            assert(utf16_units(a).len() > 0);
        }
        lemma_char_units_prefix(a[0], b[0], utf16_units(a.drop_first()), utf16_units(b.drop_first()));
        lemma_units_injective(a.drop_first(), b.drop_first());
        assert(a =~= seq![a[0]] + a.drop_first());
        assert(b =~= seq![b[0]] + b.drop_first());
    }
}

/// Reading back what the store wrote gives the text that was written.
pub proof fn lemma_current_round_trip(t: Seq<char>)
    ensures
        current_text(current_blob(t)) == Some(t),
{
    let b = current_blob(t);
    assert(exists|x: Seq<char>| current_blob(x) == b);
    let x = choose|x: Seq<char>| current_blob(x) == b;
    lemma_le_bytes_injective(utf16_units(x), utf16_units(t));
    lemma_units_injective(x, t);
}

/// Relies on std's `str::encode_utf16`: the standard UTF-16 code units of
/// the text.
#[verifier::external_body]
fn utf16_of(s: &str) -> (r: Vec<u16>)
    ensures
        r@ == utf16_units(s@),
{
    s.encode_utf16().collect()
}

/// Relies on std's `String::from_utf16`: it accepts exactly the sequences
/// that are the UTF-16 of some text, and returns that text.
#[verifier::external_body]
fn string_from_utf16(v: &[u16]) -> (r: Option<String>)
    ensures
        r is Some <==> exists|t: Seq<char>| utf16_units(t) == v@,
        r matches Some(s) ==> utf16_units(s@) == v@,
{
    String::from_utf16(v).ok()
}

/// Lays out code units as bytes, low byte first.
pub fn units_to_le(u: &[u16]) -> (r: Vec<u8>)
    ensures
        r@ == le_bytes(u@),
{
    let mut r: Vec<u8> = Vec::new();
    let mut i: usize = 0;
    while i < u.len()
        invariant
            0 <= i <= u.len(),
            r@.len() == 2 * i,
            forall|j: int| 0 <= j < 2 * i ==> r@[j] == le_bytes(u@)[j],
        decreases u.len() - i,
    {
        r.push((u[i] % 256) as u8);
        r.push((u[i] / 256) as u8);
        i = i + 1;
    }
    assert(r@ =~= le_bytes(u@));
    r
}

/// Reads bytes, low byte first, as code units; `None` for an odd count.
pub fn le_to_units(b: &[u8]) -> (r: Option<Vec<u16>>)
    ensures
        r is Some <==> b@.len() % 2 == 0,
        r matches Some(u) ==> le_bytes(u@) == b@,
{
    if b.len() % 2 != 0 {
        return None;
    }
    let n: usize = b.len() / 2;
    let mut u: Vec<u16> = Vec::new();
    let mut i: usize = 0;
    while i < n
        invariant
            n == b@.len() / 2,
            n == b.len() / 2,
            b@.len() % 2 == 0,
            0 <= i <= n,
            u@.len() == i,
            forall|j: int| 0 <= j < i ==> u@[j] == b@[2 * j] + 256 * b@[2 * j + 1],
        decreases n - i,
    {
        assert(2 * i + 1 < b@.len());
        let lo = b[2 * i] as u16;
        let hi = b[2 * i + 1] as u16;
        u.push(lo + hi * 256);
        i = i + 1;
    }
    assert forall|k: int| 0 <= k < b@.len() implies le_bytes(u@)[k] == b@[k] by {
        let j = k / 2;
        let x = b@[2 * j] as int;
        let y = b@[2 * j + 1] as int;
        lemma_fundamental_div_mod_converse(u@[j] as int, 256, y, x);
    }
    assert(le_bytes(u@) =~= b@);
    Some(u)
}

/// The blob that the store writes for a text.
pub fn encode_current(text: &str) -> (r: Vec<u8>)
    ensures
        r@ == current_blob(text@),
{
    let u = utf16_of(text);
    units_to_le(u.as_slice())
}

/// The text of a blob in the store's format; `None` where the blob is not
/// the encoding of any text.
pub fn decode_current(blob: &[u8]) -> (r: Option<String>)
    ensures
        r is Some <==> current_text(blob@) is Some,
        r matches Some(s) ==> s@ == current_text(blob@)->0,
{
    match le_to_units(blob) {
        None => {
            proof {
                if exists|t: Seq<char>| current_blob(t) == blob@ {
                    let t = choose|t: Seq<char>| current_blob(t) == blob@;
                    assert(current_blob(t).len() % 2 == 0);
                }
            }
            None
        },
        Some(u) => {
            let r = string_from_utf16(u.as_slice());
            proof {
                if exists|t: Seq<char>| current_blob(t) == blob@ {
                    let t = choose|t: Seq<char>| current_blob(t) == blob@;
                    lemma_le_bytes_injective(utf16_units(t), u@);
                    lemma_units_injective(r->0@, t);
                }
                if r is Some {
                    assert(current_blob(r->0@) == blob@);
                }
            }
            r
        },
    }
}

} // verus!
