use firelang::unescape::{unescape, UnescapeError};

#[test]
fn empty_input_is_empty_output() {
    assert_eq!(unescape(""), Ok(String::new()));
}

#[test]
fn plain_text_is_unchanged() {
    assert_eq!(unescape("hello, 世界"), Ok("hello, 世界".to_string()));
}

#[test]
fn one_letter_escapes() {
    assert_eq!(unescape(r"\b\r\n\t\'\\"), Ok("\u{8}\r\n\t'\\".to_string()));
    assert_eq!(unescape(r"a\nb"), Ok("a\nb".to_string()));
}

#[test]
fn hex_escape_gives_the_ascii_character() {
    assert_eq!(unescape(r"\x41"), Ok("A".to_string()));
    assert_eq!(unescape(r"\x1b[33m"), Ok("\u{1b}[33m".to_string()));
    assert_eq!(unescape(r"\x7F"), Ok("\u{7f}".to_string()));
    assert_eq!(unescape(r"\x7f"), Ok("\u{7f}".to_string()));
    assert_eq!(unescape(r"\x00"), Ok("\0".to_string()));
}

#[test]
fn hex_escape_beyond_ascii() {
    assert_eq!(unescape(r"\x80"), Err(UnescapeError::ValueOutOfHex));
    assert_eq!(unescape(r"\xff"), Err(UnescapeError::ValueOutOfHex));
}

#[test]
fn hex_escape_too_short_or_malformed() {
    assert_eq!(unescape(r"\x"), Err(UnescapeError::TooShortEscape));
    assert_eq!(unescape(r"\x4"), Err(UnescapeError::TooShortEscape));
    assert_eq!(unescape(r"\xG1"), Err(UnescapeError::InvalidCharInHex));
    assert_eq!(unescape(r"\xG"), Err(UnescapeError::InvalidCharInHex));
    assert_eq!(unescape(r"\x4G"), Err(UnescapeError::InvalidCharInHex));
}

#[test]
fn unicode_escape_gives_the_scalar_value() {
    assert_eq!(unescape(r"\u{1F600}"), Ok("\u{1F600}".to_string()));
    assert_eq!(unescape(r"\u{58a8}\u{6c34}"), Ok("墨水".to_string()));
    assert_eq!(unescape(r"\u{0}"), Ok("\0".to_string()));
    assert_eq!(unescape(r"\u{10FFFF}"), Ok("\u{10FFFF}".to_string()));
    assert_eq!(unescape(r"\u{00041}z"), Ok("Az".to_string()));
}

#[test]
fn unicode_escape_beyond_the_range() {
    assert_eq!(unescape(r"\u{110000}"), Err(UnescapeError::ValueOutOfUnicode));
    assert_eq!(unescape(r"\u{FFFFFF}"), Err(UnescapeError::ValueOutOfUnicode));
}

#[test]
fn unicode_escape_of_a_surrogate() {
    assert_eq!(unescape(r"\u{D800}"), Err(UnescapeError::LoneSurrogate));
    assert_eq!(unescape(r"\u{DFFF}"), Err(UnescapeError::LoneSurrogate));
    assert_eq!(unescape(r"\u{D7FF}"), Ok("\u{D7FF}".to_string()));
    assert_eq!(unescape(r"\u{E000}"), Ok("\u{E000}".to_string()));
}

#[test]
fn unicode_escape_malformed() {
    assert_eq!(unescape(r"\u"), Err(UnescapeError::UnclosedUnicode));
    assert_eq!(unescape(r"\u{"), Err(UnescapeError::UnclosedUnicode));
    assert_eq!(unescape(r"\u{41"), Err(UnescapeError::UnclosedUnicode));
    assert_eq!(unescape(r"\u41"), Err(UnescapeError::IllegalUnicode));
    assert_eq!(unescape(r"\u{41g}"), Err(UnescapeError::InvalidCharInUnicode));
    assert_eq!(unescape(r"\u{1234567}"), Err(UnescapeError::TooLongUnicode));
    assert_eq!(unescape(r"\u{1234567"), Err(UnescapeError::TooLongUnicode));
    assert_eq!(unescape(r"\u{}"), Err(UnescapeError::EmptyUnicode));
}

#[test]
fn lone_backslash_and_unknown_letter() {
    assert_eq!(unescape("\\"), Err(UnescapeError::OnlyOneSlashError));
    assert_eq!(unescape("abc\\"), Err(UnescapeError::OnlyOneSlashError));
    assert_eq!(unescape(r"\q"), Err(UnescapeError::IllegalEscape));
    assert_eq!(unescape("\\\""), Err(UnescapeError::IllegalEscape));
}

#[test]
fn first_malformed_escape_decides() {
    assert_eq!(unescape(r"\x80\q"), Err(UnescapeError::ValueOutOfHex));
    assert_eq!(unescape(r"ok\q\x80"), Err(UnescapeError::IllegalEscape));
}
