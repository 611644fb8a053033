//! The two searches: the lines of a text that contain a query, compared
//! exactly or without regard to the case of ASCII letters.

use vstd::prelude::*;
use vstd::utf8::encode_utf8;
use crate::encoding::lemma_substring_iff_encoded;
use crate::filtering::{
    kept_positions, lemma_filter_keeps_all, lemma_filter_keeps_none, lemma_filter_refines,
    lemma_filter_selects, lemma_filter_twice, selects,
};
use crate::folding::{folded, lemma_lowercase_keeps_occurrence, lowercase};
use crate::lines::{
    after_first_line, first_line, lemma_after_first_line_is_shorter, lemma_line_is_within_text,
    lines_of, split_first_line,
};
use crate::pattern::{
    contains, is_substring, lemma_substring_of_substring, occurs_at, occurs_in,
};

verus! {

/// `line` contains `query` when the case of the letters `A` to `Z` and `a`
/// to `z` is disregarded in both.
pub open spec fn matches_ignoring_case(query: Seq<char>, line: Seq<char>) -> bool {
    is_substring(lowercase(query), lowercase(line))
}

/// The test that a line contains `query`.
pub open spec fn containing(query: Seq<char>) -> spec_fn(Seq<char>) -> bool {
    |line: Seq<char>| is_substring(query, line)
}

/// The test that a line contains `query` when letter case is disregarded.
pub open spec fn containing_ignoring_case(query: Seq<char>) -> spec_fn(Seq<char>) -> bool {
    |line: Seq<char>| matches_ignoring_case(query, line)
}

/// The lines of `text` that contain `query`, in the order of `text`.
pub open spec fn matching_lines(query: Seq<char>, text: Seq<char>) -> Seq<Seq<char>> {
    lines_of(text).filter(containing(query))
}

/// The lines of `text` that contain `query` when letter case is disregarded,
/// in the order of `text` and as they stand in `text`.
pub open spec fn matching_lines_ignoring_case(query: Seq<char>, text: Seq<char>) -> Seq<
    Seq<char>,
> {
    lines_of(text).filter(containing_ignoring_case(query))
}

/// Filtering the lines of a text keeps or drops its first line and filters
/// the lines after it.
proof fn lemma_filter_lines(text: Seq<char>, keep: spec_fn(Seq<char>) -> bool)
    requires
        text.len() > 0,
    ensures
        lines_of(text).filter(keep) =~= if keep(first_line(text)) {
            seq![first_line(text)] + lines_of(after_first_line(text)).filter(keep)
        } else {
            lines_of(after_first_line(text)).filter(keep)
        },
{
    let first = seq![first_line(text)];
    Seq::filter_distributes_over_add(first, lines_of(after_first_line(text)), keep);
    assert(first.filter(keep) =~= if keep(first_line(text)) {
        first
    } else {
        Seq::empty()
    }) by {
        reveal_with_fuel(Seq::filter, 2);
    }
}

/// The lines of `contents` that contain `query`, each once, in the order in
/// which they stand in `contents`. Every line contains the empty query, and
/// no line contains a query that does not occur in `contents`. Each line
/// returned is a slice of `contents`.
pub fn search<'a>(query: &str, contents: &'a str) -> (found: Vec<&'a str>)
    ensures
        found.deep_view() == matching_lines(query@, contents@),
        query@.len() == 0 ==> found.deep_view() == lines_of(contents@),
        !is_substring(query@, contents@) ==> found@.len() == 0,
{
    let mut found: Vec<&'a str> = Vec::new();
    let mut rest: &'a str = contents;
    while !rest.is_empty()
        invariant
            found.deep_view() + matching_lines(query@, rest@) =~= matching_lines(
                query@,
                contents@,
            ),
        decreases rest@.len(),
    {
        let (line, next) = split_first_line(rest);
        proof {
            lemma_after_first_line_is_shorter(rest@);
            lemma_filter_lines(rest@, containing(query@));
        }
        if contains(line, query) {
            found.push(line);
        }
        rest = next;
    }
    proof {
        assert(matching_lines(query@, rest@) =~= Seq::<Seq<char>>::empty()) by {
            reveal_with_fuel(Seq::filter, 1);
        }
        if query@.len() == 0 {
            assert(query@ =~= Seq::<char>::empty());
            lemma_empty_query_matches_every_line(contents@);
        }
        lemma_absent_query_matches_no_line(query@, contents@);
    }
    found
}

/// The lines of `contents` that contain `query` when the case of ASCII
/// letters is disregarded, each once, in the order in which they stand in
/// `contents`. The lines are returned as they stand in `contents`, not
/// folded; each is a slice of `contents`. Only the letters `A` to `Z` have
/// their case disregarded: letters beyond ASCII are compared exactly.
pub fn search_case_insensitive<'a>(query: &str, contents: &'a str) -> (found: Vec<&'a str>)
    ensures
        found.deep_view() == matching_lines_ignoring_case(query@, contents@),
        query@.len() == 0 ==> found.deep_view() == lines_of(contents@),
        !matches_ignoring_case(query@, contents@) ==> found@.len() == 0,
{
    let needle = folded(query);
    let mut found: Vec<&'a str> = Vec::new();
    let mut rest: &'a str = contents;
    while !rest.is_empty()
        invariant
            needle@ == encode_utf8(lowercase(query@)),
            found.deep_view() + matching_lines_ignoring_case(query@, rest@)
                =~= matching_lines_ignoring_case(query@, contents@),
        decreases rest@.len(),
    {
        let (line, next) = split_first_line(rest);
        let hay = folded(line);
        proof {
            lemma_after_first_line_is_shorter(rest@);
            lemma_filter_lines(rest@, containing_ignoring_case(query@));
            lemma_substring_iff_encoded(lowercase(query@), lowercase(line@));
        }
        if occurs_in(hay.as_slice(), needle.as_slice()) {
            found.push(line);
        }
        rest = next;
    }
    proof {
        assert(matching_lines_ignoring_case(query@, rest@) =~= Seq::<Seq<char>>::empty()) by {
            reveal_with_fuel(Seq::filter, 1);
        }
        if query@.len() == 0 {
            assert(query@ =~= Seq::<char>::empty());
            lemma_empty_query_matches_every_line(contents@);
        }
        lemma_absent_query_matches_no_line(query@, contents@);
    }
    found
}

/// What the exact search finds are lines of the text that contain the query;
/// every line that contains the query is found, once for each place at which
/// it stands in the text; and the lines found stand in the order of the
/// text.
pub proof fn lemma_search_selects_matching_lines(query: Seq<char>, text: Seq<char>)
    ensures
        selects(
            matching_lines(query, text),
            lines_of(text),
            containing(query),
            kept_positions(lines_of(text), containing(query)),
        ),
        forall|k: int|
            0 <= k < matching_lines(query, text).len() ==> is_substring(
                query,
                #[trigger] matching_lines(query, text)[k],
            ),
{
    lemma_filter_selects(lines_of(text), containing(query));
}

/// What the search without regard to case finds are lines of the text that
/// contain the query when case is disregarded; every such line is found,
/// once for each place at which it stands in the text; and the lines found
/// stand in the order of the text.
pub proof fn lemma_search_case_insensitive_selects_matching_lines(
    query: Seq<char>,
    text: Seq<char>,
)
    ensures
        selects(
            matching_lines_ignoring_case(query, text),
            lines_of(text),
            containing_ignoring_case(query),
            kept_positions(lines_of(text), containing_ignoring_case(query)),
        ),
        forall|k: int|
            0 <= k < matching_lines_ignoring_case(query, text).len() ==> matches_ignoring_case(
                query,
                #[trigger] matching_lines_ignoring_case(query, text)[k],
            ),
{
    lemma_filter_selects(lines_of(text), containing_ignoring_case(query));
}

/// A line that contains the query contains it when case is disregarded.
pub proof fn lemma_match_is_match_ignoring_case(query: Seq<char>, line: Seq<char>)
    requires
        is_substring(query, line),
    ensures
        matches_ignoring_case(query, line),
{
    let at = choose|at: int| occurs_at(query, line, at);
    lemma_lowercase_keeps_occurrence(query, line, at);
}

/// Queries that differ only in the case of ASCII letters find the same lines
/// when case is disregarded.
pub proof fn lemma_case_of_query_is_disregarded(
    first: Seq<char>,
    second: Seq<char>,
    text: Seq<char>,
)
    requires
        lowercase(first) == lowercase(second),
    ensures
        matching_lines_ignoring_case(first, text) == matching_lines_ignoring_case(second, text),
{
    assert(containing_ignoring_case(first) =~= containing_ignoring_case(second));
}

/// Every line that the exact search finds, the search without regard to
/// case finds too: the exact search finds, of the lines that the other
/// finds, those that contain the query as it stands, in the same order.
pub proof fn lemma_search_case_insensitive_finds_more(query: Seq<char>, text: Seq<char>)
    ensures
        matching_lines(query, text) =~= matching_lines_ignoring_case(query, text).filter(
            containing(query),
        ),
        forall|line: Seq<char>|
            matching_lines(query, text).contains(line) ==> matching_lines_ignoring_case(
                query,
                text,
            ).contains(line),
        matching_lines(query, text).len() <= matching_lines_ignoring_case(query, text).len(),
{
    let lines = lines_of(text);
    let loose = matching_lines_ignoring_case(query, text);
    assert forall|i: int| 0 <= i < lines.len() && containing(query)(lines[i]) implies
        containing_ignoring_case(query)(lines[i]) by {
        lemma_match_is_match_ignoring_case(query, lines[i]);
    }
    lemma_filter_refines(lines, containing(query), containing_ignoring_case(query));
    loose.lemma_filter_len(containing(query));
    assert forall|line: Seq<char>| matching_lines(query, text).contains(line) implies loose.contains(
        line,
    ) by {
        loose.lemma_filter_contains_rev(containing(query), line);
    }
}

/// What the exact search returns is fixed by the characters of the query
/// and of the text: two results for the same query and text are the same
/// lines in the same order. Searching the lines found once more finds all
/// of them again.
pub proof fn lemma_search_is_repeatable(
    query: Seq<char>,
    text: Seq<char>,
    first: Seq<Seq<char>>,
    second: Seq<Seq<char>>,
)
    requires
        first == matching_lines(query, text),
        second == matching_lines(query, text),
    ensures
        first == second,
        first.filter(containing(query)) =~= first,
{
    lemma_filter_twice(lines_of(text), containing(query));
}

/// What the search without regard to case returns is fixed by the
/// characters of the query and of the text: two results for the same query
/// and text are the same lines in the same order. Searching the lines found
/// once more finds all of them again.
pub proof fn lemma_search_case_insensitive_is_repeatable(
    query: Seq<char>,
    text: Seq<char>,
    first: Seq<Seq<char>>,
    second: Seq<Seq<char>>,
)
    requires
        first == matching_lines_ignoring_case(query, text),
        second == matching_lines_ignoring_case(query, text),
    ensures
        first == second,
        first.filter(containing_ignoring_case(query)) =~= first,
{
    lemma_filter_twice(lines_of(text), containing_ignoring_case(query));
}

/// The empty query is contained in every line, so both searches find all
/// lines of the text.
pub proof fn lemma_empty_query_matches_every_line(text: Seq<char>)
    ensures
        matching_lines(Seq::empty(), text) =~= lines_of(text),
        matching_lines_ignoring_case(Seq::empty(), text) =~= lines_of(text),
{
    let lines = lines_of(text);
    let none = Seq::<char>::empty();
    assert(lowercase(none) =~= none);
    assert forall|i: int| 0 <= i < lines.len() implies containing(none)(lines[i])
        && containing_ignoring_case(none)(lines[i]) by {
        assert(occurs_at(none, lines[i], 0));
        assert(occurs_at(none, lowercase(lines[i]), 0));
    }
    lemma_filter_keeps_all(lines, containing(none));
    lemma_filter_keeps_all(lines, containing_ignoring_case(none));
}

/// A query that does not occur in the text occurs in none of its lines, so
/// the search finds nothing; likewise when case is disregarded.
pub proof fn lemma_absent_query_matches_no_line(query: Seq<char>, text: Seq<char>)
    ensures
        !is_substring(query, text) ==> matching_lines(query, text) =~= Seq::<Seq<char>>::empty(),
        !matches_ignoring_case(query, text) ==> matching_lines_ignoring_case(query, text)
            =~= Seq::<Seq<char>>::empty(),
{
    let lines = lines_of(text);
    if !is_substring(query, text) {
        assert forall|i: int| 0 <= i < lines.len() implies !containing(query)(lines[i]) by {
            lemma_line_is_within_text(text, i);
            if is_substring(query, lines[i]) {
                lemma_substring_of_substring(query, lines[i], text);
            }
        }
        lemma_filter_keeps_none(lines, containing(query));
    }
    if !matches_ignoring_case(query, text) {
        assert forall|i: int| 0 <= i < lines.len() implies !containing_ignoring_case(query)(
            lines[i],
        ) by {
            lemma_line_is_within_text(text, i);
            lemma_match_is_match_ignoring_case(lines[i], text);
            if matches_ignoring_case(query, lines[i]) {
                lemma_substring_of_substring(lowercase(query), lowercase(lines[i]), lowercase(text));
            }
        }
        lemma_filter_keeps_none(lines, containing_ignoring_case(query));
    }
}

} // verus!
