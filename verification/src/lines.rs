//! Splitting a text into lines.
//!
//! A line ends at a line feed, or at a carriage return directly followed by a
//! line feed; the terminator is not part of the line. What follows the last
//! line feed is a line of its own unless it is empty, so a line feed at the
//! end of a text adds no empty line, a text without a line feed is one line,
//! and the empty text has no lines. A carriage return that no line feed
//! follows is a character like any other.

use vstd::prelude::*;
use vstd::string::StringSliceAdditionalSpecFns;
use vstd::utf8::{encode_utf8, encode_utf8_valid_utf8};
use crate::encoding::{lemma_ascii_byte_boundaries, lemma_ascii_byte_splits, lemma_encode_ascii};
use crate::pattern::{is_substring, occurs_at};

verus! {

/// The number of characters before the first line feed of `text`, or the
/// length of `text` where it holds no line feed.
pub open spec fn line_feed_position(text: Seq<char>) -> nat
    decreases text.len(),
{
    if text.len() == 0 || text[0] == '\n' {
        0
    } else {
        1 + line_feed_position(text.drop_first())
    }
}

/// `line` without its last character where that is a carriage return.
pub open spec fn without_trailing_cr(line: Seq<char>) -> Seq<char> {
    if line.len() > 0 && line.last() == '\r' {
        line.drop_last()
    } else {
        line
    }
}

/// The first line of `text`: what stands before its first line feed, less a
/// carriage return directly before that line feed; all of `text` where it
/// holds no line feed.
pub open spec fn first_line(text: Seq<char>) -> Seq<char> {
    let n = line_feed_position(text) as int;
    if n < text.len() {
        without_trailing_cr(text.take(n))
    } else {
        text
    }
}

/// What follows the first line feed of `text`; nothing where it holds none.
pub open spec fn after_first_line(text: Seq<char>) -> Seq<char> {
    let n = line_feed_position(text) as int;
    if n < text.len() {
        text.skip(n + 1)
    } else {
        Seq::empty()
    }
}

/// The lines of `text`, in order, without their terminators.
pub open spec fn lines_of(text: Seq<char>) -> Seq<Seq<char>>
    decreases text.len(),
{
    if text.len() == 0 {
        Seq::empty()
    } else {
        seq![first_line(text)] + lines_of(after_first_line(text))
    }
}

/// `line_feed_position` is the one position up to which `text` has no line
/// feed and at which it has one or ends.
pub proof fn lemma_line_feed_position(text: Seq<char>, n: int)
    requires
        0 <= n <= text.len(),
        forall|k: int| 0 <= k < n ==> text[k] != '\n',
        n < text.len() ==> text[n] == '\n',
    ensures
        line_feed_position(text) == n,
    decreases text.len(),
{
    if n > 0 {
        lemma_line_feed_position(text.drop_first(), n - 1);
    }
}

/// Up to `line_feed_position` there is no line feed, and at it there is one
/// unless the text ends there.
pub proof fn lemma_line_feed_position_is_first(text: Seq<char>)
    ensures
        line_feed_position(text) <= text.len(),
        forall|k: int| 0 <= k < line_feed_position(text) ==> text[k] != '\n',
        line_feed_position(text) < text.len() ==> text[line_feed_position(text) as int] == '\n',
    decreases text.len(),
{
    if text.len() == 0 || text[0] == '\n' {
    } else {
        let rest = text.drop_first();
        lemma_line_feed_position_is_first(rest);
        assert forall|k: int| 0 <= k < line_feed_position(text) implies text[k] != '\n' by {
            if k > 0 {
                assert(text[k] == rest[k - 1]);
            }
        }
    }
}

/// A line feed ends a line. Where `line` holds no line feed, the lines of
/// `line`, a line feed and `rest` are `line`, less a carriage return at its
/// end, and then the lines of `rest`.
pub proof fn lemma_line_feed_ends_line(line: Seq<char>, rest: Seq<char>)
    requires
        forall|k: int| 0 <= k < line.len() ==> line[k] != '\n',
    ensures
        first_line(line + seq!['\n'] + rest) == without_trailing_cr(line),
        after_first_line(line + seq!['\n'] + rest) == rest,
        lines_of(line + seq!['\n'] + rest) == seq![without_trailing_cr(line)] + lines_of(rest),
{
    let text = line + seq!['\n'] + rest;
    lemma_line_feed_position(text, line.len() as int);
    assert(text.take(line.len() as int) =~= line);
}

/// A line feed at the end of a text adds no empty line: a text that holds
/// one line feed, at its end, is one line.
pub proof fn lemma_final_line_feed_adds_no_line(line: Seq<char>)
    requires
        forall|k: int| 0 <= k < line.len() ==> line[k] != '\n',
    ensures
        lines_of(line + seq!['\n']) =~= seq![without_trailing_cr(line)],
{
    lemma_line_feed_ends_line(line, Seq::empty());
}

/// A text that is not empty and holds no line feed is one line.
pub proof fn lemma_text_without_line_feed_is_one_line(text: Seq<char>)
    requires
        text.len() > 0,
        forall|k: int| 0 <= k < text.len() ==> text[k] != '\n',
    ensures
        first_line(text) == text,
        after_first_line(text) == Seq::<char>::empty(),
        lines_of(text) =~= seq![text],
{
    lemma_line_feed_position(text, text.len() as int);
    reveal_with_fuel(lines_of, 2);
}

/// What follows the first line of a text that is not empty is shorter than
/// the text.
pub proof fn lemma_after_first_line_is_shorter(text: Seq<char>)
    requires
        text.len() > 0,
    ensures
        after_first_line(text).len() < text.len(),
{
    lemma_line_feed_position_is_first(text);
}

/// Every line of a text stands in the text.
pub proof fn lemma_line_is_within_text(text: Seq<char>, i: int)
    requires
        0 <= i < lines_of(text).len(),
    ensures
        is_substring(lines_of(text)[i], text),
    decreases text.len(),
{
    lemma_line_feed_position_is_first(text);
    if i == 0 {
        assert(occurs_at(first_line(text), text, 0));
    } else {
        let after = after_first_line(text);
        let line = lines_of(after)[i - 1];
        lemma_line_is_within_text(after, i - 1);
        let at = choose|at: int| occurs_at(line, after, at);
        let shift = line_feed_position(text) + 1;
        assert(text.subrange(shift + at, shift + at + line.len()) =~= after.subrange(
            at,
            at + line.len(),
        ));
        assert(occurs_at(line, text, shift + at));
    }
}

/// A text whose encoding holds no line feed byte holds no line feed.
proof fn lemma_no_line_feed(text: Seq<char>)
    requires
        forall|k: int| 0 <= k < encode_utf8(text).len() ==> encode_utf8(text)[k] != 0x0a,
    ensures
        forall|k: int| 0 <= k < text.len() ==> text[k] != '\n',
{
    assert forall|k: int| 0 <= k < text.len() implies text[k] != '\n' by {
        if text[k] == '\n' {
            lemma_encode_ascii(text, k);
            assert(encode_utf8(text)[encode_utf8(text.take(k)).len() as int] == 0x0a);
        }
    }
}

/// The position of the first line feed among `bytes`, or their number where
/// there is none.
fn line_feed_index(bytes: &[u8]) -> (n: usize)
    ensures
        n <= bytes@.len(),
        forall|k: int| 0 <= k < n ==> bytes@[k] != 0x0a,
        n < bytes@.len() ==> bytes@[n as int] == 0x0a,
{
    let len: usize = bytes.len();
    let mut n: usize = 0;
    while n < len && bytes[n] != 0x0a
        invariant
            n <= len == bytes@.len(),
            forall|k: int| 0 <= k < n ==> bytes@[k] != 0x0a,
        decreases len - n,
    {
        n += 1;
    }
    n
}

/// Splits `text` into its first line and what follows that line's
/// terminator. Both are slices of `text`; the second is empty where `text`
/// holds no line feed.
pub fn split_first_line<'a>(text: &'a str) -> (parts: (&'a str, &'a str))
    ensures
        parts.0@ == first_line(text@),
        parts.1@ == after_first_line(text@),
{
    let bytes = text.as_bytes();
    let n: usize = line_feed_index(bytes);
    if n == bytes.len() {
        proof {
            lemma_no_line_feed(text@);
            lemma_line_feed_position(text@, text@.len() as int);
            reveal_strlit("");
        }
        return (text, "");
    }
    proof {
        encode_utf8_valid_utf8(text@);
        lemma_ascii_byte_boundaries(bytes@, n as int);
    }
    let (head, _) = text.split_at(n);
    let (_, rest) = text.split_at(n + 1);
    proof {
        lemma_ascii_byte_splits(text@, head@, rest@, n as int);
        lemma_no_line_feed(head@);
        lemma_line_feed_ends_line(head@, rest@);
    }
    if n > 0 && bytes[n - 1] == 0x0d {
        proof {
            encode_utf8_valid_utf8(head@);
            lemma_ascii_byte_boundaries(head.spec_bytes(), n - 1);
        }
        let (line, _) = head.split_at(n - 1);
        proof {
            lemma_ascii_byte_splits(head@, line@, Seq::empty(), n - 1);
        }
        (line, rest)
    } else {
        proof {
            if head@.len() > 0 && head@.last() == '\r' {
                lemma_encode_ascii(head@, head@.len() - 1);
            }
        }
        (head, rest)
    }
}

} // verus!
