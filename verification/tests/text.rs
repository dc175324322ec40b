use logformat::bytes::{scan_run, skip, starts_with, take, CLOSE_BRACE, OPEN_BRACE, PERCENT};
use logformat::text::text_of;

#[test]
fn text_of_decodes_well_formed_bytes() {
    assert_eq!(text_of(b""), Some(String::new()));
    assert_eq!(text_of(b"abc"), Some(String::from("abc")));
    assert_eq!(text_of(b"caf\xc3\xa9"), Some(String::from("caf\u{e9}")));
    assert_eq!(text_of(b"\xe4\xb8\x96\xe7\x95\x8c"), Some(String::from("\u{4e16}\u{754c}")));
    assert_eq!(text_of(b"\xf0\x9f\x98\x80"), Some(String::from("\u{1f600}")));
    assert_eq!(text_of(b"\xf4\x8f\xbf\xbf"), Some(String::from("\u{10ffff}")));
    assert_eq!(text_of(b"\x00\x7f"), Some(String::from("\u{0}\u{7f}")));
}

#[test]
fn text_of_refuses_ill_formed_bytes() {
    assert_eq!(text_of(b"\xff"), None);
    assert_eq!(text_of(b"\x80"), None);
    assert_eq!(text_of(b"\xc3"), None);
    assert_eq!(text_of(b"ab\xc3"), None);
    assert_eq!(text_of(b"\xc3("), None);
    assert_eq!(text_of(b"\xc0\x80"), None);
    assert_eq!(text_of(b"\xc1\xbf"), None);
    assert_eq!(text_of(b"\xe0\x80\x80"), None);
    assert_eq!(text_of(b"\xed\xa0\x80"), None);
    assert_eq!(text_of(b"\xed\xbf\xbf"), None);
    assert_eq!(text_of(b"\xf0\x80\x80\x80"), None);
    assert_eq!(text_of(b"\xf4\x90\x80\x80"), None);
    assert_eq!(text_of(b"\xf8\x88\x80\x80\x80"), None);
}

#[test]
fn the_three_marks_are_ascii() {
    assert_eq!(PERCENT, b'%');
    assert_eq!(OPEN_BRACE, b'{');
    assert_eq!(CLOSE_BRACE, b'}');
}

#[test]
fn scan_run_counts_up_to_the_first_stop() {
    assert_eq!(scan_run(b"", PERCENT), 0);
    assert_eq!(scan_run(b"%", PERCENT), 0);
    assert_eq!(scan_run(b"abc", PERCENT), 3);
    assert_eq!(scan_run(b"abc%def%", PERCENT), 3);
    assert_eq!(scan_run(b"ab}c}", CLOSE_BRACE), 2);
}

#[test]
fn starts_with_compares_the_head() {
    assert!(starts_with(b"abc", ""));
    assert!(starts_with(b"abc", "ab"));
    assert!(starts_with(b"abc", "abc"));
    assert!(!starts_with(b"abc", "abcd"));
    assert!(!starts_with(b"abc", "b"));
    assert!(!starts_with(b"", "a"));
    assert!(starts_with("\u{e9}t\u{e9}".as_bytes(), "\u{e9}"));
}

#[test]
fn skip_and_take_cut_the_input_in_two() {
    assert_eq!(skip(b"abcde", 2), b"cde");
    assert_eq!(take(b"abcde", 2), b"ab");
    assert_eq!(skip(b"abcde", 5), b"");
    assert_eq!(take(b"abcde", 0), b"");
    assert_eq!(skip(b"abcde", 0), b"abcde");
    assert_eq!(take(b"abcde", 5), b"abcde");
}
