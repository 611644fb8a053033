use minigrep::lines::split_first_line;
use minigrep::search;

#[test]
fn first_line_ends_at_the_line_feed() {
    assert_eq!(split_first_line("one\ntwo\nthree"), ("one", "two\nthree"));
    assert_eq!(split_first_line("two\nthree"), ("two", "three"));
}

#[test]
fn text_without_line_feed_is_its_first_line() {
    assert_eq!(split_first_line("three"), ("three", ""));
    assert_eq!(split_first_line(""), ("", ""));
}

#[test]
fn carriage_return_before_the_line_feed_goes_with_it() {
    assert_eq!(split_first_line("one\r\ntwo"), ("one", "two"));
    assert_eq!(split_first_line("\r\ntwo"), ("", "two"));
    assert_eq!(split_first_line("one\r\r\ntwo"), ("one\r", "two"));
}

#[test]
fn carriage_return_without_line_feed_stays() {
    assert_eq!(split_first_line("one\rtwo\nthree"), ("one\rtwo", "three"));
    assert_eq!(split_first_line("one\r"), ("one\r", ""));
    assert_eq!(split_first_line("\r"), ("\r", ""));
}

#[test]
fn empty_first_line() {
    assert_eq!(split_first_line("\n"), ("", ""));
    assert_eq!(split_first_line("\n\n"), ("", "\n"));
    assert_eq!(split_first_line("\nb"), ("", "b"));
}

#[test]
fn first_line_beyond_ascii() {
    assert_eq!(split_first_line("héllo\nwörld"), ("héllo", "wörld"));
    assert_eq!(split_first_line("日本語\r\n🦀"), ("日本語", "🦀"));
    assert_eq!(split_first_line("\u{10a}\u{a}\u{10d}"), ("\u{10a}", "\u{10d}"));
    assert_eq!(split_first_line("\u{20ac}\u{d}\u{a}x"), ("\u{20ac}", "x"));
}

#[test]
fn line_feed_at_the_end_adds_no_line() {
    assert_eq!(search("", "a\nb\n"), vec!["a", "b"]);
    assert_eq!(search("", "a\nb"), vec!["a", "b"]);
    assert_eq!(search("", "a\nb\n\n"), vec!["a", "b", ""]);
    assert_eq!(search("", "a\r\nb\r\n"), vec!["a", "b"]);
}

#[test]
fn lines_of_mixed_terminators() {
    assert_eq!(search("", "foo\nbar\n\r\nbaz\r"), vec!["foo", "bar", "", "baz\r"]);
    assert_eq!(search("", "\n"), vec![""]);
    assert_eq!(search("", "\r\n"), vec![""]);
    assert_eq!(search("", "\n\n"), vec!["", ""]);
    let none: Vec<&str> = Vec::new();
    assert_eq!(search("", ""), none);
}

#[test]
fn pieces_are_slices_of_the_text() {
    let text = String::from("one\r\ntwo\nthree");
    let (line, rest) = split_first_line(&text);
    let start = text.as_ptr() as usize;
    assert_eq!(line.as_ptr() as usize, start);
    assert_eq!(rest.as_ptr() as usize, start + 5);
    let found = search("t", &text);
    assert_eq!(found, vec!["two", "three"]);
    assert_eq!(found[0].as_ptr() as usize, start + 5);
    assert_eq!(found[1].as_ptr() as usize, start + 9);
}
