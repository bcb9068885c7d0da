use rust_git::bytes::{append_bytes, bytes_eq, copy_range, find_byte_from};
use rust_git::error::GitError;
use rust_git::text::{
    bytes_to_text, char_is_whitespace, chars_of, find_char_from, str_eq, str_starts_with, trim,
    trim_bounds,
};

#[test]
fn every_error_has_its_message() {
    let all = [
        (GitError::NotARepository, "not a repository"),
        (GitError::CorruptObject, "corrupt object"),
        (GitError::CorruptIndex, "corrupt index"),
        (GitError::CorruptKvlm, "corrupt header record"),
        (GitError::UnknownKind, "unknown object kind"),
        (GitError::WrongKind, "object is not of the expected kind"),
        (GitError::NotFound, "not found"),
        (GitError::NotAValidName, "not a valid object name"),
        (GitError::NotCommit, "object is not a commit"),
        (GitError::Ambiguous, "ambiguous abbreviated hash"),
        (GitError::OutsideWorktree, "path is outside the working tree"),
        (GitError::AlreadyExists, "already exists"),
        (GitError::IoFailure, "input or output failed"),
    ];
    for (e, text) in all {
        assert_eq!(e.message(), text);
    }
}

#[test]
fn bytes_are_found_copied_and_compared() {
    assert_eq!(find_byte_from(b"a b c", b' ', 0), 1);
    assert_eq!(find_byte_from(b"a b c", b' ', 2), 3);
    assert_eq!(find_byte_from(b"a b c", b' ', 4), 5);
    assert_eq!(find_byte_from(b"", 0, 0), 0);
    assert_eq!(copy_range(b"abcdef", 2, 4), b"cd".to_vec());
    assert_eq!(copy_range(b"abcdef", 6, 6), Vec::<u8>::new());
    let mut out = b"ab".to_vec();
    append_bytes(&mut out, b"cd");
    assert_eq!(out, b"abcd".to_vec());
    assert!(bytes_eq(b"abc", b"abc"));
    assert!(!bytes_eq(b"abc", b"abd"));
    assert!(!bytes_eq(b"abc", b"ab"));
    assert!(bytes_eq(b"", b""));
}

#[test]
fn text_is_trimmed_of_unicode_white_space() {
    assert_eq!(trim("  a b\t\r\n"), "a b");
    assert_eq!(trim("\u{85}\u{a0}\u{1680}\u{2003}\u{2028}\u{202f}\u{205f}\u{3000}x\u{b}\u{c}"), "x");
    assert_eq!(trim(" \n "), "");
    assert_eq!(trim(""), "");
    assert_eq!(trim("\u{200b}x"), "\u{200b}x");
    for c in ['\u{9}', ' ', '\u{2000}', '\u{200a}'] {
        assert!(char_is_whitespace(c));
    }
    for c in ['a', '\u{8}', '\u{e}', '\u{200b}', '\u{feff}'] {
        assert!(!char_is_whitespace(c));
    }
    for n in 0..0x3100u32 {
        if let Some(c) = char::from_u32(n) {
            assert_eq!(char_is_whitespace(c), c.is_whitespace());
        }
    }
    let chars: Vec<char> = "  ab ".chars().collect();
    assert_eq!(trim_bounds(&chars), (2, 4));
}

#[test]
fn text_is_compared_by_characters() {
    assert_eq!(chars_of("a\u{e9}\u{4e2d}"), vec!['a', '\u{e9}', '\u{4e2d}']);
    assert!(str_eq("abc", "abc"));
    assert!(!str_eq("abc", "abd"));
    assert!(str_starts_with("ref: x", "ref: "));
    assert!(!str_starts_with("ref:", "ref: "));
    assert!(str_starts_with("x", ""));
    assert_eq!(find_char_from(&['a', '/', 'b', '/'], '/', 2), 3);
    assert_eq!(find_char_from(&['a'], '/', 0), 1);
}

#[test]
fn bytes_are_text_where_they_are_utf8() {
    assert_eq!(bytes_to_text("d\u{e9}j\u{e0}".as_bytes()), Some("d\u{e9}j\u{e0}"));
    assert_eq!(bytes_to_text(b""), Some(""));
    assert_eq!(bytes_to_text(&[0xc3]), None);
    assert_eq!(bytes_to_text(&[0xed, 0xa0, 0x80]), None);
    assert_eq!(bytes_to_text(&[0xc0, 0x80]), None);
}
