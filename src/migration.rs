//! Telling a blob that the legacy tool wrote apart from one in the current
//! format, and recovering its text.
use vstd::prelude::*;
use vstd::utf8::*;
use crate::encoding::{
    has_nul, is_legacy_blob, lemma_nul_decodes_from_zero_byte, lemma_zero_byte_decodes_to_nul,
};

verus! {

broadcast use {encode_utf8_valid_utf8, encode_utf8_decode_utf8};

/// Relies on std's `String::from_utf8`: it accepts exactly the valid UTF-8
/// byte sequences and decodes them.
#[verifier::external_body]
fn string_from_utf8(b: Vec<u8>) -> (r: Option<String>)
    ensures
        r is Some <==> valid_utf8(b@),
        r matches Some(s) ==> s@ == decode_utf8(b@),
{
    String::from_utf8(b).ok()
}

/// Whether a text holds U+0000.
pub fn contains_nul(s: &str) -> (r: bool)
    ensures
        r == has_nul(s@),
{
    let b = s.as_bytes();
    let ghost bytes = b@;
    assert(decode_utf8(bytes) == s@);
    let mut i: usize = 0;
    while i < b.len()
        invariant
            b@ == bytes,
            bytes == encode_utf8(s@),
            0 <= i <= bytes.len(),
            forall|j: int| 0 <= j < i ==> bytes[j] != 0u8,
        decreases b.len() - i,
    {
        if b[i] == 0u8 {
            proof {
                lemma_zero_byte_decodes_to_nul(bytes, i as int);
            }
            return true;
        }
        i = i + 1;
    }
    proof {
        if has_nul(s@) {
            let k = choose|k: int| 0 <= k < s@.len() && s@[k] == '\0';
            lemma_nul_decodes_from_zero_byte(bytes, k);
        }
    }
    false
}

/// The text of a blob that the legacy tool wrote, or `None` where the blob
/// is empty, is not UTF-8, or decodes to a text with U+0000: such a blob is
/// in the current format or unknown, and is left alone.
pub fn legacy_text(blob: Vec<u8>) -> (r: Option<String>)
    ensures
        r is Some <==> is_legacy_blob(blob@),
        r matches Some(s) ==> s@ == decode_utf8(blob@),
{
    if blob.len() == 0 {
        return None;
    }
    match string_from_utf8(blob) {
        None => None,
        Some(s) => {
            if contains_nul(s.as_str()) {
                None
            } else {
                Some(s)
            }
        },
    }
}

} // verus!
