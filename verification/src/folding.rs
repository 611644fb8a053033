//! Folding of letter case.
//!
//! Only the letters `A` to `Z` are folded, each to its lower-case form `a` to
//! `z`; every other character, cased letters beyond ASCII among them, stands
//! for itself. Folding therefore never changes the length of a text, and in
//! the UTF-8 encoding it changes single bytes in place.

use vstd::prelude::*;
use vstd::string::StringSliceAdditionalSpecFns;
use vstd::utf8::{
    encode_scalar, encode_utf8, last_continuation_byte, leading_byte_width_2,
    leading_byte_width_3, leading_byte_width_4, second_last_continuation_byte,
    third_last_continuation_byte,
};
use crate::encoding::{lemma_char_range, lemma_narrow_byte};
use crate::pattern::occurs_at;

verus! {

/// `c` in lower case where it is one of `A` to `Z`, else `c`.
pub open spec fn lower(c: char) -> char {
    if 'A' <= c <= 'Z' {
        ((c as u8) + 32) as char
    } else {
        c
    }
}

/// `text` with each of its characters in lower case.
pub open spec fn lowercase(text: Seq<char>) -> Seq<char> {
    Seq::new(text.len(), |i: int| lower(text[i]))
}

/// `b` plus 32 where it is the byte of one of `A` to `Z`, else `b`.
pub open spec fn lower_byte(b: u8) -> u8 {
    if 0x41 <= b <= 0x5a {
        (b + 32) as u8
    } else {
        b
    }
}

/// Where `needle` occurs in `hay`, the folded `needle` occurs at the same
/// position in the folded `hay`.
pub proof fn lemma_lowercase_keeps_occurrence(needle: Seq<char>, hay: Seq<char>, at: int)
    requires
        occurs_at(needle, hay, at),
    ensures
        occurs_at(lowercase(needle), lowercase(hay), at),
{
}

/// No byte in the encoding of a character from 128 up is below 128.
proof fn lemma_wide_bytes(v: u32)
    by (bit_vector)
    ensures
        leading_byte_width_2(v) >= 0x80,
        leading_byte_width_3(v) >= 0x80,
        leading_byte_width_4(v) >= 0x80,
        last_continuation_byte(v) >= 0x80,
        second_last_continuation_byte(v) >= 0x80,
        third_last_continuation_byte(v) >= 0x80,
{
}

/// Folding a character folds each byte of its encoding.
proof fn lemma_encode_lower(c: char)
    ensures
        encode_scalar(lower(c) as u32) =~= encode_scalar(c as u32).map_values(
            |b: u8| lower_byte(b),
        ),
{
    lemma_char_range(c);
    lemma_char_range(lower(c));
    let v = c as u32;
    lemma_wide_bytes(v);
    if v <= 0x7f {
        lemma_narrow_byte(v);
        lemma_narrow_byte(lower(c) as u32);
    }
}

/// Folding a text folds each byte of its encoding.
pub proof fn lemma_encode_lowercase(text: Seq<char>)
    ensures
        encode_utf8(lowercase(text)) =~= encode_utf8(text).map_values(|b: u8| lower_byte(b)),
    decreases text.len(),
{
    if text.len() > 0 {
        let rest = text.drop_first();
        assert(lowercase(text).drop_first() =~= lowercase(rest));
        lemma_encode_lower(text[0]);
        lemma_encode_lowercase(rest);
    }
}

/// The encoding of `text` with each of `A` to `Z` in lower case.
pub fn folded(text: &str) -> (out: Vec<u8>)
    ensures
        out@ == encode_utf8(lowercase(text@)),
{
    let bytes = text.as_bytes();
    let len: usize = bytes.len();
    let mut out: Vec<u8> = Vec::with_capacity(len);
    let mut i: usize = 0;
    while i < len
        invariant
            i <= len == bytes@.len(),
            out@ =~= bytes@.take(i as int).map_values(|b: u8| lower_byte(b)),
        decreases len - i,
    {
        let b: u8 = bytes[i];
        out.push(if 0x41 <= b && b <= 0x5a { b + 32 } else { b });
        i += 1;
    }
    proof {
        lemma_encode_lowercase(text@);
    }
    out
}

} // verus!
