use minigrep::folding::folded;

#[test]
fn folds_the_letters_a_to_z() {
    assert_eq!(folded("ABCDEFGHIJKLMNOPQRSTUVWXYZ"), b"abcdefghijklmnopqrstuvwxyz".to_vec());
    assert_eq!(folded("rUsT"), b"rust".to_vec());
}

#[test]
fn leaves_small_letters_digits_and_signs() {
    assert_eq!(folded("abc xyz 0129 .,:!"), b"abc xyz 0129 .,:!".to_vec());
    assert_eq!(folded("@[`{"), b"@[`{".to_vec());
    assert_eq!(folded(""), Vec::<u8>::new());
}

#[test]
fn folds_each_byte_from_a_to_z() {
    assert_eq!(folded("A"), vec![0x61]);
    assert_eq!(folded("Z"), vec![0x7a]);
    assert_eq!(folded("@"), vec![0x40]);
    assert_eq!(folded("["), vec![0x5b]);
}

#[test]
fn leaves_letters_beyond_ascii() {
    assert_eq!(folded("É"), "É".as_bytes().to_vec());
    assert_eq!(folded("ÀB"), "Àb".as_bytes().to_vec());
    assert_eq!(folded("ΑΣ"), "ΑΣ".as_bytes().to_vec());
    assert_eq!(folded("\u{c1}\u{141}\u{a741}"), "\u{c1}\u{141}\u{a741}".as_bytes().to_vec());
}

#[test]
fn folding_agrees_with_the_standard_library() {
    for text in ["", "Hello, World!", "ÀÉÎ Straße ΑΣ", "MiXeD 123 日本語 Q"] {
        assert_eq!(folded(text), text.to_ascii_lowercase().into_bytes());
    }
}
