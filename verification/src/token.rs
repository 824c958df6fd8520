//! The tokens that the lexer produces.

use crate::chars::str_eq;
use crate::unescape::UnescapeError;
use vstd::prelude::*;

verus! {

/// The base of an integer literal.
#[derive(Debug, Clone, Copy, PartialEq, Eq, PartialOrd, Ord, Structural)]
pub enum NumBase {
    Hex,
    Oct,
    Bin,
    Dec,
}

/// Why a raw string literal is malformed.
#[derive(Debug, Clone, Copy, PartialEq, Eq, PartialOrd, Ord, Structural)]
pub enum RawStrError {
    /// The input ends before the closing `)"`.
    UncloseString,
    /// The parenthesis behind the opening quote, or the one before the
    /// closing quote, is missing.
    UncloseParen,
}

/// The kinds of literal, each with what was found wrong with it.
#[derive(Debug, Clone, Copy, PartialEq, Eq, PartialOrd, Ord)]
pub enum LiteralKind {
    /// `123`, `0xFFC66D`, `0o1234567`, `0b1010001010`; `dangling` when no
    /// digit follows the base prefix.
    Int { base: NumBase, dangling: bool },
    /// `0.12345`, `1e10`, `1e-10`; `dangling` when no digit follows the
    /// point or the exponent marker.
    Float { dangling: bool },
    /// `'a'`, `'\n'`, `'\x1b'`, `'\u{1F600}'`.
    Char { unclose: bool, err: Option<UnescapeError> },
    /// `"a string"`, `"string with \n"`.
    Str { unclose: bool, err: Option<UnescapeError> },
    /// `r"(raw text)"`.
    RawStr { err: Option<RawStrError> },
}

/// The kinds of token.
#[derive(Debug, Clone, PartialEq, Eq, PartialOrd, Ord)]
pub enum TokenKind {
    /// The end of the input.
    Eof,
    /// A character that begins no token.
    Illegal,
    /// A run of whitespace.
    Space,
    /// `// comment`
    LineComment,
    /// `/* comment */`; `expected` is false when the input ends inside it.
    BlockComment { expected: bool },
    /// An identifier or a keyword.
    Ident,
    /// A literal, with the type suffix that follows it directly, if any.
    Literal { kind: LiteralKind, suffix: String },
    /// `+`
    Plus,
    /// `-`
    Minus,
    /// `*`
    Star,
    /// `/`
    Slash,
    /// `%`
    Percent,
    /// `,`
    Comma,
    /// `;`
    Semicolon,
    /// `.`
    Dot,
    /// `:`
    Colon,
    /// `(`
    LeftParen,
    /// `)`
    RightParen,
    /// `{`
    LeftBrace,
    /// `}`
    RightBrace,
    /// `[`
    LeftBracket,
    /// `]`
    RightBracket,
    /// `=`
    Equal,
    /// `!`
    Exclamation,
    /// `~`
    Not,
    /// `<`
    Le,
    /// `>`
    Ge,
    /// `&`
    And,
    /// `|`
    Or,
    /// `^`
    Caret,
}

/// A token kind as a mathematical value: the suffix of a literal is a
/// sequence of characters.
pub enum KindView {
    Eof,
    Illegal,
    Space,
    LineComment,
    BlockComment { expected: bool },
    Ident,
    Literal { kind: LiteralKind, suffix: Seq<char> },
    Plus,
    Minus,
    Star,
    Slash,
    Percent,
    Comma,
    Semicolon,
    Dot,
    Colon,
    LeftParen,
    RightParen,
    LeftBrace,
    RightBrace,
    LeftBracket,
    RightBracket,
    Equal,
    Exclamation,
    Not,
    Le,
    Ge,
    And,
    Or,
    Caret,
}

impl View for TokenKind {
    type V = KindView;

    open spec fn view(&self) -> KindView {
        match self {
            TokenKind::Eof => KindView::Eof,
            TokenKind::Illegal => KindView::Illegal,
            TokenKind::Space => KindView::Space,
            TokenKind::LineComment => KindView::LineComment,
            TokenKind::BlockComment { expected } => KindView::BlockComment { expected: *expected },
            TokenKind::Ident => KindView::Ident,
            TokenKind::Literal { kind, suffix } => KindView::Literal {
                kind: *kind,
                suffix: suffix@,
            },
            TokenKind::Plus => KindView::Plus,
            TokenKind::Minus => KindView::Minus,
            TokenKind::Star => KindView::Star,
            TokenKind::Slash => KindView::Slash,
            TokenKind::Percent => KindView::Percent,
            TokenKind::Comma => KindView::Comma,
            TokenKind::Semicolon => KindView::Semicolon,
            TokenKind::Dot => KindView::Dot,
            TokenKind::Colon => KindView::Colon,
            TokenKind::LeftParen => KindView::LeftParen,
            TokenKind::RightParen => KindView::RightParen,
            TokenKind::LeftBrace => KindView::LeftBrace,
            TokenKind::RightBrace => KindView::RightBrace,
            TokenKind::LeftBracket => KindView::LeftBracket,
            TokenKind::RightBracket => KindView::RightBracket,
            TokenKind::Equal => KindView::Equal,
            TokenKind::Exclamation => KindView::Exclamation,
            TokenKind::Not => KindView::Not,
            TokenKind::Le => KindView::Le,
            TokenKind::Ge => KindView::Ge,
            TokenKind::And => KindView::And,
            TokenKind::Or => KindView::Or,
            TokenKind::Caret => KindView::Caret,
        }
    }
}

/// How a token kind is named in a message.
pub open spec fn kind_text(kind: KindView) -> Seq<char> {
    match kind {
        KindView::Eof => "EOF"@,
        KindView::Ident => "<identifier>"@,
        KindView::Space => "<whitespace>"@,
        KindView::Literal { .. } => "<literal>"@,
        KindView::Plus => "'+'"@,
        KindView::Minus => "'-'"@,
        KindView::Star => "'*'"@,
        KindView::Slash => "'/'"@,
        KindView::Percent => "'%'"@,
        KindView::Comma => "','"@,
        KindView::Semicolon => "';'"@,
        KindView::Dot => "'.'"@,
        KindView::Colon => "':'"@,
        KindView::LeftParen => "'('"@,
        KindView::RightParen => "')'"@,
        KindView::LeftBracket => "'['"@,
        KindView::RightBracket => "']'"@,
        KindView::LeftBrace => "'{'"@,
        KindView::RightBrace => "'}'"@,
        KindView::Equal => "'='"@,
        KindView::Exclamation => "'!'"@,
        KindView::Not => "'~'"@,
        KindView::Le => "'<'"@,
        KindView::Ge => "'>'"@,
        KindView::And => "'&'"@,
        KindView::Or => "'|'"@,
        KindView::Caret => "'^'"@,
        _ => ""@,
    }
}

fn same_error(a: Option<UnescapeError>, b: Option<UnescapeError>) -> (r: bool)
    ensures
        r == (a == b),
{
    match (a, b) {
        (None, None) => true,
        (Some(x), Some(y)) => x == y,
        _ => false,
    }
}

impl LiteralKind {
    /// Whether two kinds of literal are the same, with what was found
    /// wrong with them.
    pub fn same(&self, other: &LiteralKind) -> (r: bool)
        ensures
            r == (*self == *other),
    {
        match (*self, *other) {
            (
                LiteralKind::Int { base: b1, dangling: d1 },
                LiteralKind::Int { base: b2, dangling: d2 },
            ) => b1 == b2 && d1 == d2,
            (LiteralKind::Float { dangling: d1 }, LiteralKind::Float { dangling: d2 }) => d1 == d2,
            (
                LiteralKind::Char { unclose: u1, err: e1 },
                LiteralKind::Char { unclose: u2, err: e2 },
            ) => u1 == u2 && same_error(e1, e2),
            (
                LiteralKind::Str { unclose: u1, err: e1 },
                LiteralKind::Str { unclose: u2, err: e2 },
            ) => u1 == u2 && same_error(e1, e2),
            (LiteralKind::RawStr { err: e1 }, LiteralKind::RawStr { err: e2 }) => match (e1, e2) {
                (None, None) => true,
                (Some(x), Some(y)) => x == y,
                _ => false,
            },
            _ => false,
        }
    }
}

impl TokenKind {
    /// Whether two kinds are the same; two literals are when their kinds
    /// and their suffixes are.
    pub fn same(&self, other: &TokenKind) -> (r: bool)
        ensures
            r == (self@ == other@),
    {
        match (self, other) {
            (TokenKind::Eof, TokenKind::Eof) => true,
            (TokenKind::Illegal, TokenKind::Illegal) => true,
            (TokenKind::Space, TokenKind::Space) => true,
            (TokenKind::LineComment, TokenKind::LineComment) => true,
            (
                TokenKind::BlockComment { expected: e1 },
                TokenKind::BlockComment { expected: e2 },
            ) => *e1 == *e2,
            (TokenKind::Ident, TokenKind::Ident) => true,
            (
                TokenKind::Literal { kind: k1, suffix: s1 },
                TokenKind::Literal { kind: k2, suffix: s2 },
            ) => k1.same(k2) && str_eq(s1.as_str(), s2.as_str()),
            (TokenKind::Plus, TokenKind::Plus) => true,
            (TokenKind::Minus, TokenKind::Minus) => true,
            (TokenKind::Star, TokenKind::Star) => true,
            (TokenKind::Slash, TokenKind::Slash) => true,
            (TokenKind::Percent, TokenKind::Percent) => true,
            (TokenKind::Comma, TokenKind::Comma) => true,
            (TokenKind::Semicolon, TokenKind::Semicolon) => true,
            (TokenKind::Dot, TokenKind::Dot) => true,
            (TokenKind::Colon, TokenKind::Colon) => true,
            (TokenKind::LeftParen, TokenKind::LeftParen) => true,
            (TokenKind::RightParen, TokenKind::RightParen) => true,
            (TokenKind::LeftBrace, TokenKind::LeftBrace) => true,
            (TokenKind::RightBrace, TokenKind::RightBrace) => true,
            (TokenKind::LeftBracket, TokenKind::LeftBracket) => true,
            (TokenKind::RightBracket, TokenKind::RightBracket) => true,
            (TokenKind::Equal, TokenKind::Equal) => true,
            (TokenKind::Exclamation, TokenKind::Exclamation) => true,
            (TokenKind::Not, TokenKind::Not) => true,
            (TokenKind::Le, TokenKind::Le) => true,
            (TokenKind::Ge, TokenKind::Ge) => true,
            (TokenKind::And, TokenKind::And) => true,
            (TokenKind::Or, TokenKind::Or) => true,
            (TokenKind::Caret, TokenKind::Caret) => true,
            _ => false,
        }
    }

    /// How the kind is named in a message: the quoted character for
    /// punctuation, a bracketed word for the classes, nothing for
    /// comments and illegal characters.
    pub fn to_string(&self) -> (s: String)
        ensures
            s@ == kind_text(self@),
    {
        let text = match self {
            TokenKind::Eof => "EOF",
            TokenKind::Ident => "<identifier>",
            TokenKind::Space => "<whitespace>",
            TokenKind::Literal { .. } => "<literal>",
            TokenKind::Plus => "'+'",
            TokenKind::Minus => "'-'",
            TokenKind::Star => "'*'",
            TokenKind::Slash => "'/'",
            TokenKind::Percent => "'%'",
            TokenKind::Comma => "','",
            TokenKind::Semicolon => "';'",
            TokenKind::Dot => "'.'",
            TokenKind::Colon => "':'",
            TokenKind::LeftParen => "'('",
            TokenKind::RightParen => "')'",
            TokenKind::LeftBracket => "'['",
            TokenKind::RightBracket => "']'",
            TokenKind::LeftBrace => "'{'",
            TokenKind::RightBrace => "'}'",
            TokenKind::Equal => "'='",
            TokenKind::Exclamation => "'!'",
            TokenKind::Not => "'~'",
            TokenKind::Le => "'<'",
            TokenKind::Ge => "'>'",
            TokenKind::And => "'&'",
            TokenKind::Or => "'|'",
            TokenKind::Caret => "'^'",
            _ => "",
        };
        text.to_owned()
    }
}

/// One token: its kind, its text, and where the lexer stood when it had
/// scanned it. `line` and `column` are those of the cursor behind the
/// token, not of the token's first character.
#[derive(Debug, Clone, PartialEq, Eq, PartialOrd, Ord)]
pub struct Token {
    pub kind: TokenKind,
    pub content: String,
    pub line: usize,
    pub column: usize,
}

/// A token as a mathematical value.
pub struct TokenView {
    pub kind: KindView,
    pub content: Seq<char>,
    pub line: usize,
    pub column: usize,
}

impl View for Token {
    type V = TokenView;

    open spec fn view(&self) -> TokenView {
        TokenView {
            kind: self.kind@,
            content: self.content@,
            line: self.line,
            column: self.column,
        }
    }
}

} // verus!
