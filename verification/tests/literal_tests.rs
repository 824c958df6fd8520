use firelang::ast::{Expression, KeyWord, Literal};
use firelang::lexer::Lexer;
use firelang::literal::{make_ident, make_lit, make_literal};
use firelang::token::{LiteralKind, NumBase, Token, TokenKind};
use firelang::unescape::UnescapeError;

fn lit(src: &str) -> Literal {
    let mut lexer = Lexer::new(src);
    make_literal(lexer.next_token())
}

fn unexpected(message: &str) -> Literal {
    Literal::Unexpected(message.to_string())
}

#[test]
fn decimal_integer_without_suffix_is_an_i32() {
    assert_eq!(lit("0"), Literal::Int(0));
    assert_eq!(lit("5"), Literal::Int(5));
    assert_eq!(lit("007"), Literal::Int(7));
    assert_eq!(lit("2147483647"), Literal::Int(i32::MAX));
    assert_eq!(lit("12345i32"), Literal::Int(12345));
}

#[test]
fn integer_that_the_type_cannot_hold() {
    assert_eq!(lit("2147483648"), unexpected("integer literal out of range"));
    assert_eq!(lit("128b"), unexpected("integer literal out of range"));
    assert_eq!(lit("256u8"), unexpected("integer literal out of range"));
    assert_eq!(
        lit("340282366920938463463374607431768211456u128"),
        unexpected("integer literal out of range")
    );
    assert_eq!(
        lit("99999999999999999999999999999999999999999999999999"),
        unexpected("integer literal out of range")
    );
}

#[test]
fn suffix_names_the_type() {
    assert_eq!(lit("127b"), Literal::Byte(127));
    assert_eq!(lit("255u8"), Literal::UByte(255));
    assert_eq!(lit("32767i16"), Literal::Int16(i16::MAX));
    assert_eq!(lit("65535u16"), Literal::UInt16(u16::MAX));
    assert_eq!(lit("4294967295u32"), Literal::UInt(u32::MAX));
    assert_eq!(lit("9223372036854775807i64"), Literal::Int64(i64::MAX));
    assert_eq!(lit("18446744073709551615u64"), Literal::UInt64(u64::MAX));
    assert_eq!(
        lit("170141183460469231731687303715884105727i128"),
        Literal::Int128(i128::MAX)
    );
    assert_eq!(
        lit("340282366920938463463374607431768211455u128"),
        Literal::UInt128(u128::MAX)
    );
}

#[test]
fn unknown_suffix() {
    assert_eq!(lit("5xyz"), unexpected("invalid suffix of literal"));
    assert_eq!(lit("5f32"), unexpected("invalid suffix of literal"));
    assert_eq!(lit("1.5i32"), unexpected("invalid suffix of literal"));
    assert_eq!(lit("0xu7"), unexpected("invalid suffix of literal"));
}

#[test]
fn integers_in_other_bases() {
    assert_eq!(lit("0x1F"), Literal::Int(31));
    assert_eq!(lit("0xffu8"), Literal::UByte(255));
    assert_eq!(lit("0o17"), Literal::Int(15));
    assert_eq!(lit("0b101"), Literal::Int(5));
    assert_eq!(lit("0xFFFFFFFFu32"), Literal::UInt(u32::MAX));
}

#[test]
fn digit_that_the_base_lacks() {
    assert_eq!(lit("0b102"), unexpected("invalid digit in integer literal"));
    assert_eq!(lit("0o78"), unexpected("invalid digit in integer literal"));
}

#[test]
fn dangling_numbers() {
    assert_eq!(lit("0x"), unexpected("dangling integer number"));
    assert_eq!(lit("0b"), unexpected("dangling integer number"));
    assert_eq!(lit("1."), unexpected("dangling float number"));
    assert_eq!(lit("1e"), unexpected("dangling float number"));
}

#[test]
fn floats_keep_their_text() {
    assert_eq!(lit("1.5"), Literal::Float("1.5".to_string()));
    assert_eq!(lit("1.5f32"), Literal::Float("1.5".to_string()));
    assert_eq!(lit("1e-10f64"), Literal::Float64("1e-10".to_string()));
}

#[test]
fn text_literals() {
    assert_eq!(lit("'a'"), Literal::Char("a".to_string()));
    assert_eq!(lit(r"'\n'"), Literal::Char("\n".to_string()));
    assert_eq!(lit("\"a\\tb\""), Literal::Str("a\tb".to_string()));
    assert_eq!(lit("r\"(a\\tb)\""), Literal::Str("a\\tb".to_string()));
}

#[test]
fn malformed_text_literals() {
    assert_eq!(lit("'a"), unexpected("unclose character literal"));
    assert_eq!(lit("\"a"), unexpected("unclose character literal"));
    assert_eq!(lit(r"'\q'"), unexpected("there are some illegal characters in the escape sequence"));
    assert_eq!(
        lit(r"'\x80'"),
        unexpected("value out of range: ascii escape value cannot be more than 0x7F")
    );
    assert_eq!(
        lit(r"'\u{110000}'"),
        unexpected("value out of range: unicode value cannot be more than 10FFFF")
    );
    assert_eq!(lit("r\"(abc"), unexpected("the string literal is unclosed"));
    assert_eq!(lit("r\"abc\""), unexpected("missed a parentheses in the raw string literal"));
}

#[test]
fn every_escape_error_has_its_diagnosis() {
    let cases = [
        (UnescapeError::OnlyOneSlashError, "only one '\\' in character literal"),
        (UnescapeError::IllegalEscape, "there are some illegal characters in the escape sequence"),
        (UnescapeError::EmptyUnicode, "unexpected empty unicode escape sequence"),
        (UnescapeError::UnclosedUnicode, "there is not a '}' to close the escape sequence"),
        (
            UnescapeError::IllegalUnicode,
            "there is an illegal unicode escape sequence in the character literal",
        ),
        (UnescapeError::TooLongUnicode, "too long value in the unicode escape sequence"),
        (
            UnescapeError::ValueOutOfUnicode,
            "value out of range: unicode value cannot be more than 10FFFF",
        ),
        (
            UnescapeError::LoneSurrogate,
            "there is a lone surrogate codepoint in the unicode character",
        ),
        (
            UnescapeError::InvalidCharInUnicode,
            "there is an invalid character in the unicode escape sequence",
        ),
        (UnescapeError::TooShortEscape, "too short escape sequence in ascii escape character"),
        (
            UnescapeError::InvalidCharInHex,
            "there is an invalid character in the ascii escape sequence",
        ),
        (
            UnescapeError::ValueOutOfHex,
            "value out of range: ascii escape value cannot be more than 0x7F",
        ),
    ];
    for (err, message) in cases {
        let tok = Token {
            kind: TokenKind::Literal {
                kind: LiteralKind::Str { unclose: false, err: Some(err) },
                suffix: String::new(),
            },
            content: "x".to_string(),
            line: 1,
            column: 1,
        };
        assert_eq!(make_literal(tok), unexpected(message));
    }
}

#[test]
fn token_that_is_no_literal() {
    let tok = Token { kind: TokenKind::Plus, content: "+".to_string(), line: 1, column: 1 };
    assert_eq!(make_lit(tok), Expression::Literal(unexpected("Unexpected literal")));
}

#[test]
fn integer_token_with_a_text_that_is_no_number() {
    let tok = Token {
        kind: TokenKind::Literal {
            kind: LiteralKind::Int { base: NumBase::Hex, dangling: false },
            suffix: String::new(),
        },
        content: "1F".to_string(),
        line: 1,
        column: 2,
    };
    assert_eq!(make_literal(tok), unexpected("invalid digit in integer literal"));
    let tok = Token {
        kind: TokenKind::Literal {
            kind: LiteralKind::Int { base: NumBase::Dec, dangling: false },
            suffix: String::new(),
        },
        content: String::new(),
        line: 1,
        column: 0,
    };
    assert_eq!(make_literal(tok), unexpected("invalid digit in integer literal"));
}

#[test]
fn make_lit_wraps_the_literal() {
    let mut lexer = Lexer::new("42u8");
    assert_eq!(make_lit(lexer.next_token()), Expression::Literal(Literal::UByte(42)));
}

#[test]
fn make_ident_names() {
    assert_eq!(make_ident("x".to_string()), Expression::Ident("x".to_string()));
}

#[test]
fn keywords() {
    assert_eq!(KeyWord::try_from("let"), Some(KeyWord::LET));
    assert_eq!(KeyWord::try_from("mut"), Some(KeyWord::MUT));
    assert_eq!(KeyWord::try_from("if"), Some(KeyWord::IF));
    assert_eq!(KeyWord::try_from("else"), Some(KeyWord::ELSE));
    assert_eq!(KeyWord::try_from("for"), Some(KeyWord::FOR));
    assert_eq!(KeyWord::try_from("fn"), Some(KeyWord::FN));
    assert_eq!(KeyWord::try_from("return"), Some(KeyWord::RETURN));
    assert_eq!(KeyWord::try_from("Let"), None);
    assert_eq!(KeyWord::try_from("lets"), None);
    assert_eq!(KeyWord::try_from(""), None);
    assert_eq!(KeyWord::RETURN.to_string(), "RETURN");
    assert_eq!(KeyWord::FN.to_string(), "FN");
}
