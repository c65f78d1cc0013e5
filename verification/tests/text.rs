use wallpaper_poc::text::{equal_but_case, push_decimal};

#[test]
fn numbers_are_written_in_decimal() {
    for n in [0, 7, 10, 42, 99, 100, 65536, 1234567890, usize::MAX] {
        let mut out = String::from("n=");
        push_decimal(&mut out, n);
        assert_eq!(out, format!("n={n}"));
    }
}

#[test]
fn case_is_ignored_for_latin_letters_only() {
    assert!(equal_but_case("MP4", "mp4"));
    assert!(equal_but_case("", ""));
    assert!(equal_but_case("WebM", "wEBm"));
    assert!(!equal_but_case("mp4", "mp"));
    assert!(!equal_but_case("mp4", "mp5"));
    assert!(!equal_but_case("\u{c9}", "\u{e9}"));
    assert!(!equal_but_case("[", "{"));
    assert!(!equal_but_case("k", "\u{212a}"));
}
