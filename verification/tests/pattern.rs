use minigrep::pattern::{contains, occurs_in};

#[test]
fn contains_finds_a_run_anywhere() {
    assert!(contains("safe, fast, productive.", "safe"));
    assert!(contains("safe, fast, productive.", "fast"));
    assert!(contains("safe, fast, productive.", "productive."));
    assert!(contains("safe, fast, productive.", "safe, fast, productive."));
    assert!(!contains("safe, fast, productive.", "safe, fast, productive.."));
    assert!(!contains("safe, fast, productive.", "duct tape"));
    assert!(!contains("safe, fast, productive.", "Safe"));
}

#[test]
fn contains_the_empty_string_always() {
    assert!(contains("", ""));
    assert!(contains("a", ""));
    assert!(!contains("", "a"));
}

#[test]
fn contains_after_a_false_start() {
    assert!(contains("aaab", "aab"));
    assert!(contains("abababc", "ababc"));
    assert!(!contains("ababab", "ababc"));
    assert!(!contains("ab", "abc"));
}

#[test]
fn contains_whole_characters_only() {
    assert!(contains("caf\u{e9}", "\u{e9}"));
    assert!(!contains("\u{e9}", "\u{a9}"));
    assert!(!contains("\u{4e9}", "\u{e9}"));
    assert!(contains("日本語", "本語"));
    assert!(!contains("日本語", "語本"));
}

#[test]
fn contains_agrees_with_the_standard_library() {
    let texts = ["", "a", "ab", "aab", "abcabd", "héllo wörld", "ΑΣας", "日本語", "a\nb"];
    for hay in texts {
        for needle in texts {
            assert_eq!(contains(hay, needle), hay.contains(needle));
        }
    }
}

#[test]
fn occurs_in_bytes() {
    assert!(occurs_in(&[1, 2, 3, 4], &[2, 3]));
    assert!(occurs_in(&[1, 2, 3, 4], &[4]));
    assert!(occurs_in(&[1, 2, 3, 4], &[1, 2, 3, 4]));
    assert!(occurs_in(&[1, 2, 3, 4], &[]));
    assert!(occurs_in(&[], &[]));
    assert!(!occurs_in(&[], &[1]));
    assert!(!occurs_in(&[1, 2, 3, 4], &[3, 2]));
    assert!(!occurs_in(&[1, 2, 3, 4], &[1, 2, 3, 4, 5]));
    assert!(!occurs_in(&[1, 2, 3, 4], &[4, 5]));
}
