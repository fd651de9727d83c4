use aeon::classes::{scan_run, Class};
use aeon::grammar::{
    find_docstring_close, find_string_close, keyword, same_text, scan_digits, scan_number,
    scan_word, unescaped,
};
use aeon::text::{bytes_equal, slice_text};
use aeon::token::TokenType;

#[test]
fn test_classes_hold_their_bytes() {
    assert!(Class::Blank.holds(b' '));
    assert!(Class::Blank.holds(b'\t'));
    assert!(!Class::Blank.holds(b'\n'));
    assert!(!Class::Blank.holds(b'a'));

    for b in [b'a', b'z', b'A', b'Z', b'0', b'9', b'_', 0x80u8, 0xffu8] {
        assert!(Class::WordPart.holds(b));
    }
    for b in [b'`', b'{', b'@', b'[', b'/', b':', b'?', b'!', b' ', 0x7fu8] {
        assert!(!Class::WordPart.holds(b));
    }

    assert!(Class::NotNewline.holds(b'#'));
    assert!(Class::NotNewline.holds(b'\r'));
    assert!(!Class::NotNewline.holds(b'\n'));
}

#[test]
fn test_scan_run_stops_at_the_first_other_byte() {
    assert_eq!(scan_run(b"  \tx  ", 0, Class::Blank), 3);
    assert_eq!(scan_run(b"  \tx  ", 1, Class::Blank), 3);
    assert_eq!(scan_run(b"  \tx  ", 3, Class::Blank), 3);
    assert_eq!(scan_run(b"  \tx  ", 4, Class::Blank), 6);
    assert_eq!(scan_run(b"  \tx  ", 6, Class::Blank), 6);
    assert_eq!(scan_run(b"# a\nb", 0, Class::NotNewline), 3);
    assert_eq!(scan_run(b"# a", 0, Class::NotNewline), 3);
    assert_eq!(scan_run(b"", 0, Class::WordPart), 0);
}

#[test]
fn test_scan_word_takes_one_closing_mark() {
    assert_eq!(scan_word(b"foo bar", 0), 3);
    assert_eq!(scan_word(b"foo bar", 4), 7);
    assert_eq!(scan_word(b"foo? bar", 0), 4);
    assert_eq!(scan_word(b"foo!? bar", 0), 4);
    assert_eq!(scan_word(b"f", 0), 1);
    assert_eq!(scan_word(b"f_9Z-", 0), 4);
    assert_eq!(scan_word("한국어!".as_bytes(), 0), 10);
}

#[test]
fn test_scan_digits_takes_single_underscores() {
    assert_eq!(scan_digits(b"10_5_", 0), 4);
    assert_eq!(scan_digits(b"10__5", 0), 2);
    assert_eq!(scan_digits(b"1_2_3", 0), 5);
    assert_eq!(scan_digits(b"x1", 0), 0);
    assert_eq!(scan_digits(b"12", 2), 2);
}

#[test]
fn test_scan_number_tells_floats_apart() {
    assert_eq!(scan_number(b"10_5.5x", 0), (6, true));
    assert_eq!(scan_number(b"10.", 0), (2, false));
    assert_eq!(scan_number(b"10._5", 0), (2, false));
    assert_eq!(scan_number(b"1.2.3", 0), (3, true));
    assert_eq!(scan_number(b"a 7", 2), (3, false));
}

#[test]
fn test_find_string_close_passes_escaped_quotes() {
    assert_eq!(find_string_close(b"foo\\'bar' x", 0, b'\''), 8);
    assert_eq!(find_string_close(b"' x", 0, b'\''), 0);
    assert_eq!(find_string_close(b"a\\\"b'", 0, b'\''), 4);
    assert_eq!(find_string_close(b"a\\\"b\"", 0, b'"'), 4);
    assert_eq!(find_string_close(b"abc\\'", 0, b'\''), 5);
    assert_eq!(find_string_close(b"abc\\", 0, b'\''), 4);
    assert_eq!(find_string_close(b"", 0, b'\''), 0);
}

#[test]
fn test_find_docstring_close_finds_the_first() {
    assert_eq!(find_docstring_close(b" * */ */", 0), 3);
    assert_eq!(find_docstring_close(b"*/", 0), 0);
    assert_eq!(find_docstring_close(b"/* a */", 2), 5);
    assert_eq!(find_docstring_close(b" / * /", 0), 6);
    assert_eq!(find_docstring_close(b"*", 0), 1);
    assert_eq!(find_docstring_close(b"", 0), 0);
}

#[test]
fn test_keyword_matches_whole_words_only() {
    assert_eq!(keyword("trait"), TokenType::Trait);
    assert_eq!(keyword("mut"), TokenType::Mutable);
    assert_eq!(keyword("pub"), TokenType::Public);
    assert_eq!(keyword("dyn"), TokenType::Dynamic);
    assert_eq!(keyword("traits"), TokenType::Identifier);
    assert_eq!(keyword("trai"), TokenType::Identifier);
    assert_eq!(keyword("Trait"), TokenType::Identifier);
    assert_eq!(keyword(""), TokenType::Identifier);
}

#[test]
fn test_same_text_and_bytes_equal() {
    assert!(same_text("한국어", "한국어"));
    assert!(!same_text("foo", "fo"));
    assert!(!same_text("foo", "fob"));
    assert!(same_text("", ""));
    assert!(bytes_equal(b"abc", b"abc"));
    assert!(!bytes_equal(b"abc", b"abd"));
    assert!(!bytes_equal(b"abc", b"ab"));
    assert!(bytes_equal(b"", b""));
}

#[test]
fn test_slice_text_cuts_at_byte_offsets() {
    let input = "foö 한국어";

    assert_eq!(slice_text(input, 0, 4), "foö");
    assert_eq!(slice_text(input, 5, 14), "한국어");
    assert_eq!(slice_text(input, 5, 8), "한");
    assert_eq!(slice_text(input, 4, 4), "");
}

#[test]
fn test_unescaped_drops_the_backslash_before_a_quote() {
    let input = "'foo\\'bar' \"a\\\"b\\'c\\\\\"";
    let data = input.as_bytes();

    assert_eq!(unescaped(input, data, 1, 9, b'\''), "foo'bar");
    assert_eq!(unescaped(input, data, 12, 21, b'"'), "a\"b\\'c\\\\");
    assert_eq!(unescaped(input, data, 12, 21, b'\''), "a\\\"b'c\\\\");
    assert_eq!(unescaped(input, data, 3, 3, b'\''), "");
    assert_eq!(unescaped(input, data, 4, 5, b'\''), "\\");
    assert_eq!(unescaped(input, data, 4, 6, b'\''), "'");
}
