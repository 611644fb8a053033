//! How positions and runs of characters in a string correspond to positions
//! and runs of bytes in its UTF-8 encoding.

use vstd::prelude::*;
use vstd::utf8::*;
use crate::pattern::{is_substring, lemma_occurrence_splits, lemma_occurs_between, occurs_at};

verus! {

/// A character is a number from 0 up to 0x10ffff.
pub proof fn lemma_char_range(c: char)
    ensures
        '\0' <= c <= '\u{10ffff}',
        c as u32 == c as int,
{
}

/// A value below 128 is encoded as the one byte of that value.
pub proof fn lemma_narrow_byte(v: u32)
    by (bit_vector)
    requires
        v <= 0x7f,
    ensures
        leading_byte_width_1(v) == v as u8,
{
}

/// The encoding of a concatenation is the concatenation of the encodings.
pub proof fn lemma_encode_concat(a: Seq<char>, b: Seq<char>)
    ensures
        encode_utf8(a + b) =~= encode_utf8(a) + encode_utf8(b),
    decreases a.len(),
{
    if a.len() > 0 {
        assert((a + b).drop_first() =~= a.drop_first() + b);
        lemma_encode_concat(a.drop_first(), b);
    }
}

/// A position up to which a well-formed byte sequence is itself well formed
/// lies between two characters.
pub proof fn lemma_valid_prefix_is_boundary(bytes: Seq<u8>, m: int)
    requires
        valid_utf8(bytes),
        0 <= m <= bytes.len(),
        valid_utf8(bytes.subrange(0, m)),
    ensures
        is_char_boundary(bytes, m),
    decreases bytes.len(),
{
    if m > 0 {
        let prefix = bytes.subrange(0, m);
        let w = length_of_first_scalar(bytes);
        assert(pop_first_scalar(prefix) =~= pop_first_scalar(bytes).subrange(0, m - w));
        lemma_valid_prefix_is_boundary(pop_first_scalar(bytes), m - w);
    }
}

/// A run of characters occurs in a text exactly where its encoding occurs
/// in the encoding of the text: an occurrence of the bytes never starts or
/// ends inside a character.
pub proof fn lemma_substring_iff_encoded(needle: Seq<char>, hay: Seq<char>)
    ensures
        is_substring(needle, hay) <==> is_substring(encode_utf8(needle), encode_utf8(hay)),
{
    if is_substring(needle, hay) {
        let at = choose|at: int| occurs_at(needle, hay, at);
        let before = hay.take(at);
        let after = hay.skip(at + needle.len());
        lemma_occurrence_splits(needle, hay, at);
        lemma_encode_concat(before + needle, after);
        lemma_encode_concat(before, needle);
        lemma_occurs_between(encode_utf8(before), encode_utf8(needle), encode_utf8(after));
    }
    if is_substring(encode_utf8(needle), encode_utf8(hay)) {
        let at = choose|at: int| occurs_at(encode_utf8(needle), encode_utf8(hay), at);
        lemma_encoded_occurrence(needle, hay, at);
    }
}

/// Where the encoding of `needle` occurs in the encoding of `hay`, `needle`
/// occurs in `hay`.
pub proof fn lemma_encoded_occurrence(needle: Seq<char>, hay: Seq<char>, at: int)
    requires
        occurs_at(encode_utf8(needle), encode_utf8(hay), at),
    ensures
        is_substring(needle, hay),
{
    broadcast use group_utf8_lib;
    let bytes = encode_utf8(hay);
    let pat = encode_utf8(needle);
    let m = pat.len() as int;
    if needle.len() == 0 {
        assert(occurs_at(needle, hay, 0));
    } else {
        encode_utf8_first_scalar(needle);
        assert(is_char_boundary(bytes, at));
        let front = bytes.subrange(0, at);
        let back = bytes.subrange(at, bytes.len() as int);
        assert(back.subrange(0, m) =~= pat);
        lemma_valid_prefix_is_boundary(back, m);
        let rest = back.subrange(m, back.len() as int);
        assert(hay =~= decode_utf8(front) + needle + decode_utf8(rest));
        lemma_occurs_between(decode_utf8(front), needle, decode_utf8(rest));
    }
}

/// A character below 128 stands in the encoding of a text as the one byte
/// of the same value, between the encodings of what stands before and after
/// it.
pub proof fn lemma_encode_ascii(text: Seq<char>, k: int)
    requires
        0 <= k < text.len(),
        text[k] <= '\u{7f}',
    ensures
        encode_utf8(text) =~= encode_utf8(text.take(k)) + seq![text[k] as u8] + encode_utf8(
            text.skip(k + 1),
        ),
{
    lemma_char_range(text[k]);
    let c = text[k] as u32;
    assert(text =~= text.take(k) + seq![text[k]] + text.skip(k + 1));
    lemma_encode_concat(text.take(k) + seq![text[k]], text.skip(k + 1));
    lemma_encode_concat(text.take(k), seq![text[k]]);
    assert(encode_utf8(seq![text[k]]) =~= seq![text[k] as u8]) by {
        lemma_narrow_byte(c);
        reveal_with_fuel(encode_utf8, 2);
    }
}

/// A byte below 128 in a well-formed byte sequence is a character of its
/// own: it stands between two characters, and so does what follows it.
pub proof fn lemma_ascii_byte_boundaries(bytes: Seq<u8>, n: int)
    requires
        valid_utf8(bytes),
        0 <= n < bytes.len(),
        bytes[n] <= 0x7f,
    ensures
        is_char_boundary(bytes, n),
        is_char_boundary(bytes, n + 1),
{
    is_char_boundary_iff_not_is_continuation_byte(bytes, n);
    valid_utf8_split(bytes, n);
    let one = seq![bytes[n]];
    assert(valid_utf8(one)) by {
        reveal_with_fuel(valid_utf8, 2);
    }
    valid_utf8_concat(bytes.subrange(0, n), one);
    assert(bytes.subrange(0, n + 1) =~= bytes.subrange(0, n) + one);
    lemma_valid_prefix_is_boundary(bytes, n + 1);
}

/// Around a byte below 128 the text is what the bytes before it encode, then
/// the character of that value, then what the bytes after it encode.
pub proof fn lemma_ascii_byte_splits(text: Seq<char>, head: Seq<char>, tail: Seq<char>, n: int)
    requires
        0 <= n < encode_utf8(text).len(),
        encode_utf8(text)[n] <= 0x7f,
        encode_utf8(head) =~= encode_utf8(text).subrange(0, n),
        encode_utf8(tail) =~= encode_utf8(text).subrange(n + 1, encode_utf8(text).len() as int),
    ensures
        text =~= head + seq![encode_utf8(text)[n] as char] + tail,
{
    broadcast use group_utf8_lib;
    let bytes = encode_utf8(text);
    let b = bytes[n];
    let front = bytes.subrange(0, n);
    let back = bytes.subrange(n, bytes.len() as int);
    lemma_ascii_byte_boundaries(bytes, n);
    assert(pop_first_scalar(back) =~= encode_utf8(tail));
    assert(decode_first_scalar(back) == b as u32) by {
        assert(b & 0x7f == b) by (bit_vector)
            requires
                b <= 0x7f,
        ;
    }
    assert(decode_utf8(pop_first_scalar(back)) == tail);
    assert(decode_utf8(bytes) =~= decode_utf8(front) + decode_utf8(back));
}

} // verus!
