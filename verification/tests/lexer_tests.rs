use firelang::lexer::Lexer;
use firelang::token::{LiteralKind, NumBase, RawStrError, Token, TokenKind};
use firelang::unescape::UnescapeError;

fn tokens(src: &str) -> Vec<Token> {
    let mut lexer = Lexer::new(src);
    let mut out = Vec::new();
    loop {
        let tok = lexer.next_token();
        let done = tok.kind == TokenKind::Eof;
        out.push(tok);
        if done {
            return out;
        }
    }
}

fn kinds(src: &str) -> Vec<TokenKind> {
    tokens(src).into_iter().map(|t| t.kind).collect()
}

fn literal(kind: LiteralKind, suffix: &str) -> TokenKind {
    TokenKind::Literal { kind, suffix: suffix.to_string() }
}

#[test]
fn empty_input_is_eof_again_and_again() {
    let mut lexer = Lexer::new("");
    for _ in 0..3 {
        let tok = lexer.next_token();
        assert_eq!(tok.kind, TokenKind::Eof);
        assert_eq!(tok.content, "End of file.");
        assert_eq!((tok.line, tok.column), (1, 0));
    }
}

#[test]
fn lexer_starts_at_line_one_column_zero() {
    let lexer = Lexer::new("abc");
    assert_eq!(lexer.line(), 1);
    assert_eq!(lexer.column(), 0);
    assert_eq!(lexer.before(), '\0');
    assert_eq!(lexer.lookahead(), Some('a'));
}

#[test]
fn whitespace_run_is_one_space_token() {
    let toks = tokens("  \t\n  x");
    assert_eq!(toks[0].kind, TokenKind::Space);
    assert_eq!(toks[0].content, " ");
    assert_eq!((toks[0].line, toks[0].column), (2, 2));
    assert_eq!(toks[1].kind, TokenKind::Ident);
    assert_eq!(toks[1].content, "x");
    assert_eq!((toks[1].line, toks[1].column), (2, 3));
    assert_eq!(toks[2].kind, TokenKind::Eof);
}

#[test]
fn token_position_is_behind_the_token() {
    let toks = tokens("ab\ncd");
    assert_eq!((toks[0].line, toks[0].column), (1, 2));
    assert_eq!((toks[1].line, toks[1].column), (2, 0));
    assert_eq!((toks[2].line, toks[2].column), (2, 2));
}

#[test]
fn line_comment_stops_before_the_line_feed() {
    let toks = tokens("// hello\nx");
    assert_eq!(toks[0].kind, TokenKind::LineComment);
    assert_eq!(toks[0].content, "");
    assert_eq!((toks[0].line, toks[0].column), (1, 8));
    assert_eq!(toks[1].kind, TokenKind::Space);
    assert_eq!(toks[2].kind, TokenKind::Ident);
}

#[test]
fn line_comment_at_end_of_input() {
    assert_eq!(kinds("// only"), vec![TokenKind::LineComment, TokenKind::Eof]);
}

#[test]
fn nested_block_comment_is_one_token() {
    assert_eq!(
        kinds("/* /* */ */"),
        vec![TokenKind::BlockComment { expected: true }, TokenKind::Eof]
    );
}

#[test]
fn scanning_resumes_behind_a_block_comment() {
    let toks = tokens("/* */x");
    assert_eq!(toks[0].kind, TokenKind::BlockComment { expected: true });
    assert_eq!(toks[1].kind, TokenKind::Ident);
    assert_eq!(toks[1].content, "x");
    assert_eq!(toks[2].kind, TokenKind::Eof);
}

#[test]
fn unterminated_block_comment() {
    assert_eq!(
        kinds("/* unterminated"),
        vec![TokenKind::BlockComment { expected: false }, TokenKind::Eof]
    );
    assert_eq!(
        kinds("/* /* */"),
        vec![TokenKind::BlockComment { expected: false }, TokenKind::Eof]
    );
}

#[test]
fn slash_alone_is_an_operator() {
    assert_eq!(kinds("/"), vec![TokenKind::Slash, TokenKind::Eof]);
    assert_eq!(
        kinds("a/b"),
        vec![TokenKind::Ident, TokenKind::Slash, TokenKind::Ident, TokenKind::Eof]
    );
}

#[test]
fn identifiers() {
    let toks = tokens("foo _bar r r2 été");
    let names: Vec<&str> = toks
        .iter()
        .filter(|t| t.kind == TokenKind::Ident)
        .map(|t| t.content.as_str())
        .collect();
    assert_eq!(names, vec!["foo", "_bar", "r", "r2", "été"]);
}

#[test]
fn punctuation_maps_to_its_kind() {
    assert_eq!(
        kinds(",;.:(){}[]~^+-*%=!<>&|"),
        vec![
            TokenKind::Comma,
            TokenKind::Semicolon,
            TokenKind::Dot,
            TokenKind::Colon,
            TokenKind::LeftParen,
            TokenKind::RightParen,
            TokenKind::LeftBrace,
            TokenKind::RightBrace,
            TokenKind::LeftBracket,
            TokenKind::RightBracket,
            TokenKind::Not,
            TokenKind::Caret,
            TokenKind::Plus,
            TokenKind::Minus,
            TokenKind::Star,
            TokenKind::Percent,
            TokenKind::Equal,
            TokenKind::Exclamation,
            TokenKind::Le,
            TokenKind::Ge,
            TokenKind::And,
            TokenKind::Or,
            TokenKind::Eof,
        ]
    );
    assert_eq!(tokens("+")[0].content, "+");
}

#[test]
fn multi_character_operators_are_not_assembled() {
    assert_eq!(kinds("=="), vec![TokenKind::Equal, TokenKind::Equal, TokenKind::Eof]);
    assert_eq!(
        kinds("<<="),
        vec![TokenKind::Le, TokenKind::Le, TokenKind::Equal, TokenKind::Eof]
    );
}

#[test]
fn illegal_character() {
    let toks = tokens("#");
    assert_eq!(toks[0].kind, TokenKind::Illegal);
    assert_eq!(toks[0].content, "unexpected");
    assert_eq!(kinds("\0"), vec![TokenKind::Illegal, TokenKind::Eof]);
}

#[test]
fn decimal_integers() {
    let toks = tokens("0 7 123");
    let int = literal(LiteralKind::Int { base: NumBase::Dec, dangling: false }, "");
    assert_eq!(toks[0].kind, int);
    assert_eq!(toks[0].content, "0");
    assert_eq!(toks[2].kind, int);
    assert_eq!(toks[2].content, "7");
    assert_eq!(toks[4].kind, int);
    assert_eq!(toks[4].content, "123");
}

#[test]
fn prefixed_integers() {
    let toks = tokens("0xFFc6 0o17 0b101");
    assert_eq!(toks[0].kind, literal(LiteralKind::Int { base: NumBase::Hex, dangling: false }, ""));
    assert_eq!(toks[0].content, "0xFFc6");
    assert_eq!(toks[2].kind, literal(LiteralKind::Int { base: NumBase::Oct, dangling: false }, ""));
    assert_eq!(toks[2].content, "0o17");
    assert_eq!(toks[4].kind, literal(LiteralKind::Int { base: NumBase::Bin, dangling: false }, ""));
    assert_eq!(toks[4].content, "0b101");
}

#[test]
fn base_prefix_without_digits_is_dangling() {
    for (src, base) in [("0x", NumBase::Hex), ("0o", NumBase::Oct), ("0b", NumBase::Bin)] {
        let toks = tokens(src);
        assert_eq!(toks[0].kind, literal(LiteralKind::Int { base, dangling: true }, ""));
        assert_eq!(toks[0].content, src);
        assert_eq!(toks[1].kind, TokenKind::Eof);
    }
    let toks = tokens("0x+");
    assert_eq!(toks[0].kind, literal(LiteralKind::Int { base: NumBase::Hex, dangling: true }, ""));
    assert_eq!(toks[1].kind, TokenKind::Plus);
    let toks = tokens("0xg");
    assert_eq!(toks[0].kind, literal(LiteralKind::Int { base: NumBase::Hex, dangling: true }, "g"));
}

#[test]
fn binary_digits_are_not_checked_by_the_lexer() {
    let toks = tokens("0b129");
    assert_eq!(toks[0].kind, literal(LiteralKind::Int { base: NumBase::Bin, dangling: false }, ""));
    assert_eq!(toks[0].content, "0b129");
}

#[test]
fn prefixed_integer_does_not_run_into_a_fraction() {
    let toks = tokens("0x1.5");
    assert_eq!(toks[0].kind, literal(LiteralKind::Int { base: NumBase::Hex, dangling: false }, ""));
    assert_eq!(toks[0].content, "0x1");
    assert_eq!(toks[1].kind, TokenKind::Dot);
    assert_eq!(toks[2].content, "5");
}

#[test]
fn floats() {
    let float = literal(LiteralKind::Float { dangling: false }, "");
    for src in ["0.5", "1.25", "1e10", "1E10", "1e-10", "1e+10", "3.5e2", "01.5"] {
        let toks = tokens(src);
        assert_eq!(toks[0].kind, float, "{}", src);
        assert_eq!(toks[0].content, src);
        assert_eq!(toks[1].kind, TokenKind::Eof);
    }
}

#[test]
fn dangling_floats() {
    let dangling = literal(LiteralKind::Float { dangling: true }, "");
    for src in ["1.", "1e", "1e+", "1.5e", "1.5E-"] {
        let toks = tokens(src);
        assert_eq!(toks[0].kind, dangling, "{}", src);
        assert_eq!(toks[0].content, src);
        assert_eq!(toks[1].kind, TokenKind::Eof);
    }
    let toks = tokens("1.x");
    assert_eq!(toks[0].kind, literal(LiteralKind::Float { dangling: true }, "x"));
    assert_eq!(toks[0].content, "1.");
}

#[test]
fn suffix_follows_the_literal_directly() {
    let toks = tokens("5i64 7u8 1.5f32 2_x 9 i32");
    assert_eq!(toks[0].kind, literal(LiteralKind::Int { base: NumBase::Dec, dangling: false }, "i64"));
    assert_eq!(toks[0].content, "5");
    assert_eq!(toks[2].kind, literal(LiteralKind::Int { base: NumBase::Dec, dangling: false }, "u8"));
    assert_eq!(toks[4].kind, literal(LiteralKind::Float { dangling: false }, "f32"));
    assert_eq!(toks[4].content, "1.5");
    assert_eq!(toks[6].kind, literal(LiteralKind::Int { base: NumBase::Dec, dangling: false }, "_x"));
    assert_eq!(toks[8].kind, literal(LiteralKind::Int { base: NumBase::Dec, dangling: false }, ""));
    assert_eq!(toks[10].kind, TokenKind::Ident);
    assert_eq!(toks[10].content, "i32");
}

#[test]
fn character_literals() {
    let ok = literal(LiteralKind::Char { unclose: false, err: None }, "");
    let toks = tokens(r"'a' '\n' '\x41' '\u{1F600}' '\''");
    assert_eq!(toks[0].kind, ok);
    assert_eq!(toks[0].content, "a");
    assert_eq!(toks[2].kind, ok);
    assert_eq!(toks[2].content, "\n");
    assert_eq!(toks[4].kind, ok);
    assert_eq!(toks[4].content, "A");
    assert_eq!(toks[6].kind, ok);
    assert_eq!(toks[6].content, "\u{1F600}");
    assert_eq!(toks[8].kind, ok);
    assert_eq!(toks[8].content, "'");
    assert_eq!(toks[9].kind, TokenKind::Eof);
}

#[test]
fn string_literals() {
    let ok = literal(LiteralKind::Str { unclose: false, err: None }, "");
    let toks = tokens(r#""a string" "with \n" "" "中文""#);
    assert_eq!(toks[0].kind, ok);
    assert_eq!(toks[0].content, "a string");
    assert_eq!(toks[2].content, "with \n");
    assert_eq!(toks[4].kind, ok);
    assert_eq!(toks[4].content, "");
    assert_eq!(toks[6].content, "中文");
}

#[test]
fn unclosed_literals_hold_the_rest_of_the_input() {
    let toks = tokens("'abc");
    assert_eq!(toks[0].kind, literal(LiteralKind::Char { unclose: true, err: None }, ""));
    assert_eq!(toks[0].content, "abc");
    assert_eq!(toks[1].kind, TokenKind::Eof);
    let toks = tokens("\"abc\\");
    assert_eq!(toks[0].kind, literal(LiteralKind::Str { unclose: true, err: None }, ""));
    assert_eq!(toks[0].content, "abc\\");
}

#[test]
fn literal_with_a_bad_escape_keeps_its_text_and_its_quote() {
    let toks = tokens(r"'\q'");
    assert_eq!(
        toks[0].kind,
        literal(LiteralKind::Char { unclose: false, err: Some(UnescapeError::IllegalEscape) }, "")
    );
    assert_eq!(toks[0].content, "\\q");
    assert_eq!(toks[0].column, 3);
    assert_eq!(toks[1].kind, literal(LiteralKind::Char { unclose: true, err: None }, ""));
    assert_eq!(toks[1].content, "");
    assert_eq!(toks[2].kind, TokenKind::Eof);
}

#[test]
fn escaped_double_quote_is_no_escape_of_the_language() {
    let toks = tokens(r#""a\"b""#);
    assert_eq!(
        toks[0].kind,
        literal(LiteralKind::Str { unclose: false, err: Some(UnescapeError::IllegalEscape) }, "")
    );
    assert_eq!(toks[0].content, "a\\\"b");
}

#[test]
fn raw_string() {
    let toks = tokens(r#"r"(abc)""#);
    assert_eq!(toks[0].kind, literal(LiteralKind::RawStr { err: None }, ""));
    assert_eq!(toks[0].content, "abc");
    assert_eq!(toks[1].kind, TokenKind::Eof);
}

#[test]
fn raw_string_keeps_escapes_and_lone_parentheses() {
    let toks = tokens(r#"r"(a\n)b)" x"#);
    assert_eq!(toks[0].kind, literal(LiteralKind::RawStr { err: None }, ""));
    assert_eq!(toks[0].content, "a\\n)b");
    assert_eq!(toks[1].kind, TokenKind::Space);
    assert_eq!(toks[2].content, "x");
}

#[test]
fn raw_string_without_end() {
    let toks = tokens(r#"r"(unterminated"#);
    assert_eq!(
        toks[0].kind,
        literal(LiteralKind::RawStr { err: Some(RawStrError::UncloseString) }, "")
    );
    assert_eq!(toks[0].content, "");
    assert_eq!(toks[1].kind, TokenKind::Eof);
}

#[test]
fn raw_string_without_parenthesis() {
    let toks = tokens(r#"r"unterminated"#);
    assert_eq!(
        toks[0].kind,
        literal(LiteralKind::RawStr { err: Some(RawStrError::UncloseParen) }, "")
    );
    assert_eq!(toks[0].content, "unterminated");
    assert_eq!(toks[1].kind, TokenKind::Eof);
    let toks = tokens(r#"r"abc" x"#);
    assert_eq!(toks[0].content, "abc");
    assert_eq!(toks[1].kind, TokenKind::Space);
    let toks = tokens("r\"");
    assert_eq!(
        toks[0].kind,
        literal(LiteralKind::RawStr { err: Some(RawStrError::UncloseParen) }, "")
    );
    assert_eq!(toks[0].content, "");
}

#[test]
fn raw_string_closed_by_a_quote_alone() {
    let toks = tokens(r#"r"(abc" x"#);
    assert_eq!(
        toks[0].kind,
        literal(LiteralKind::RawStr { err: Some(RawStrError::UncloseParen) }, "")
    );
    assert_eq!(toks[0].content, "");
    assert_eq!(toks[1].kind, TokenKind::Space);
}

#[test]
fn lexer_tracks_the_character_passed_last() {
    let mut lexer = Lexer::new("ab cd");
    assert_eq!(lexer.next_token().content, "ab");
    assert_eq!(lexer.position(), 2);
    assert_eq!(lexer.before(), 'b');
    assert_eq!(lexer.lookahead(), Some(' '));
    assert_eq!(lexer.next_token().kind, TokenKind::Space);
    assert_eq!(lexer.column(), 3);
    assert_eq!(lexer.before(), ' ');
    assert_eq!(lexer.next_token().content, "cd");
    assert_eq!(lexer.lookahead(), None);
}

#[test]
fn kind_names() {
    assert_eq!(TokenKind::Eof.to_string(), "EOF");
    assert_eq!(TokenKind::Ident.to_string(), "<identifier>");
    assert_eq!(TokenKind::Space.to_string(), "<whitespace>");
    assert_eq!(TokenKind::LeftBrace.to_string(), "'{'");
    assert_eq!(TokenKind::Illegal.to_string(), "");
    assert_eq!(
        literal(LiteralKind::Float { dangling: false }, "f32").to_string(),
        "<literal>"
    );
}

#[test]
fn kinds_compare_with_their_payload() {
    let a = literal(LiteralKind::Float { dangling: false }, "f32");
    let b = literal(LiteralKind::Float { dangling: false }, "f64");
    assert!(a.same(&a.clone()));
    assert!(!a.same(&b));
    assert!(TokenKind::Plus.same(&TokenKind::Plus));
    assert!(!TokenKind::Plus.same(&TokenKind::Minus));
    assert!(LiteralKind::RawStr { err: None }.same(&LiteralKind::RawStr { err: None }));
    assert!(!LiteralKind::Char { unclose: false, err: None }
        .same(&LiteralKind::Str { unclose: false, err: None }));
}
