//! The literal builder: from a literal token to a typed value.

use crate::ast::{ExprView, Expression, Literal, LiteralView};
use crate::chars::{
    chars_of, dec_digit, hex_digit, hex_digit_value, hex_value, lemma_number_push,
    lemma_run_unique, number_of, str_eq, CharClass,
};
use crate::lexer::{token_at, token_view_at};
use crate::token::{KindView, LiteralKind, NumBase, RawStrError, Token, TokenKind, TokenView};
use crate::unescape::UnescapeError;
use vstd::prelude::*;

verus! {

/// The integer types that a suffix can name.
#[derive(Debug, Clone, Copy, PartialEq, Eq, Structural)]
pub enum IntType {
    I8,
    I16,
    I32,
    I64,
    I128,
    U8,
    U16,
    U32,
    U64,
    U128,
}

/// The integer type that a suffix names; no suffix names `i32`, and `b`
/// names `i8`.
pub open spec fn int_type_of(suffix: Seq<char>) -> Option<IntType> {
    if suffix == ""@ || suffix == "i32"@ {
        Some(IntType::I32)
    } else if suffix == "u32"@ {
        Some(IntType::U32)
    } else if suffix == "b"@ {
        Some(IntType::I8)
    } else if suffix == "u8"@ {
        Some(IntType::U8)
    } else if suffix == "i16"@ {
        Some(IntType::I16)
    } else if suffix == "u16"@ {
        Some(IntType::U16)
    } else if suffix == "i64"@ {
        Some(IntType::I64)
    } else if suffix == "u64"@ {
        Some(IntType::U64)
    } else if suffix == "i128"@ {
        Some(IntType::I128)
    } else if suffix == "u128"@ {
        Some(IntType::U128)
    } else {
        None
    }
}

/// The largest value of an integer type.
pub open spec fn int_max(t: IntType) -> nat {
    match t {
        IntType::I8 => i8::MAX as nat,
        IntType::I16 => i16::MAX as nat,
        IntType::I32 => i32::MAX as nat,
        IntType::I64 => i64::MAX as nat,
        IntType::I128 => i128::MAX as nat,
        IntType::U8 => u8::MAX as nat,
        IntType::U16 => u16::MAX as nat,
        IntType::U32 => u32::MAX as nat,
        IntType::U64 => u64::MAX as nat,
        IntType::U128 => u128::MAX as nat,
    }
}

/// The literal of type `t` with the value `v`, which the type can hold.
pub open spec fn typed_int(t: IntType, v: nat) -> LiteralView {
    match t {
        IntType::I8 => LiteralView::Byte(v as i8),
        IntType::I16 => LiteralView::Int16(v as i16),
        IntType::I32 => LiteralView::Int(v as i32),
        IntType::I64 => LiteralView::Int64(v as i64),
        IntType::I128 => LiteralView::Int128(v as i128),
        IntType::U8 => LiteralView::UByte(v as u8),
        IntType::U16 => LiteralView::UInt16(v as u16),
        IntType::U32 => LiteralView::UInt(v as u32),
        IntType::U64 => LiteralView::UInt64(v as u64),
        IntType::U128 => LiteralView::UInt128(v as u128),
    }
}

/// The number of digits of a base.
pub open spec fn radix(base: NumBase) -> nat {
    match base {
        NumBase::Hex => 16,
        NumBase::Oct => 8,
        NumBase::Bin => 2,
        NumBase::Dec => 10,
    }
}

/// Whether `c` is a digit of the base.
pub open spec fn digit_of(c: char, base: NumBase) -> bool {
    hex_digit(c) && hex_value(c) < radix(base)
}

/// Where the digits begin in the text of an integer literal: behind the
/// two characters of the prefix, if the base has one.
pub open spec fn digits_start(base: NumBase) -> int {
    match base {
        NumBase::Dec => 0,
        _ => 2,
    }
}

/// Whether the text begins with the prefix of the base.
pub open spec fn has_prefix(content: Seq<char>, base: NumBase) -> bool {
    match base {
        NumBase::Dec => true,
        NumBase::Hex => content.len() >= 2 && content[0] == '0' && content[1] == 'x',
        NumBase::Oct => content.len() >= 2 && content[0] == '0' && content[1] == 'o',
        NumBase::Bin => content.len() >= 2 && content[0] == '0' && content[1] == 'b',
    }
}

/// Whether the text is the prefix of the base, if it has one, and then at
/// least one digit and only digits of the base.
pub open spec fn well_formed_int(content: Seq<char>, base: NumBase) -> bool {
    &&& has_prefix(content, base)
    &&& content.len() > digits_start(base)
    &&& forall|k: int| digits_start(base) <= k < content.len() ==> digit_of(#[trigger] content[k], base)
}

/// The digits in the text of an integer literal.
pub open spec fn int_digits(content: Seq<char>, base: NumBase) -> Seq<char> {
    content.subrange(digits_start(base), content.len() as int)
}

/// The value of an integer literal: `Unexpected` with a diagnosis when
/// the suffix names no integer type, when no digit follows the prefix,
/// when the text is not made of digits of the base, or when the type
/// cannot hold the number; else the number, in the type that the suffix
/// names.
pub open spec fn int_literal(
    base: NumBase,
    dangling: bool,
    content: Seq<char>,
    suffix: Seq<char>,
) -> LiteralView {
    match int_type_of(suffix) {
        None => LiteralView::Unexpected("invalid suffix of literal"@),
        Some(t) => {
            if dangling {
                LiteralView::Unexpected("dangling integer number"@)
            } else if !well_formed_int(content, base) {
                LiteralView::Unexpected("invalid digit in integer literal"@)
            } else if number_of(int_digits(content, base), radix(base)) > int_max(t) {
                LiteralView::Unexpected("integer literal out of range"@)
            } else {
                typed_int(t, number_of(int_digits(content, base), radix(base)))
            }
        },
    }
}

/// The value of a floating-point literal: `Unexpected` when no digit
/// follows the point or the exponent marker or when the suffix names no
/// floating-point type; else the text, as `Float` for no suffix or `f32`
/// and as `Float64` for `f64`.
pub open spec fn float_literal(dangling: bool, content: Seq<char>, suffix: Seq<char>) -> LiteralView {
    if dangling {
        LiteralView::Unexpected("dangling float number"@)
    } else if suffix == "f32"@ || suffix == ""@ {
        LiteralView::Float(content)
    } else if suffix == "f64"@ {
        LiteralView::Float64(content)
    } else {
        LiteralView::Unexpected("invalid suffix of literal"@)
    }
}

/// The diagnosis of an escape sequence that could not be decoded.
pub open spec fn escape_diagnosis(err: UnescapeError) -> Seq<char> {
    match err {
        UnescapeError::OnlyOneSlashError => "only one '\\' in character literal"@,
        UnescapeError::IllegalEscape => "there are some illegal characters in the escape sequence"@,
        UnescapeError::EmptyUnicode => "unexpected empty unicode escape sequence"@,
        UnescapeError::UnclosedUnicode => "there is not a '}' to close the escape sequence"@,
        UnescapeError::IllegalUnicode => "there is an illegal unicode escape sequence in the character literal"@,
        UnescapeError::TooLongUnicode => "too long value in the unicode escape sequence"@,
        UnescapeError::ValueOutOfUnicode => "value out of range: unicode value cannot be more than 10FFFF"@,
        UnescapeError::LoneSurrogate => "there is a lone surrogate codepoint in the unicode character"@,
        UnescapeError::InvalidCharInUnicode => "there is an invalid character in the unicode escape sequence"@,
        UnescapeError::TooShortEscape => "too short escape sequence in ascii escape character"@,
        UnescapeError::InvalidCharInHex => "there is an invalid character in the ascii escape sequence"@,
        UnescapeError::ValueOutOfHex => "value out of range: ascii escape value cannot be more than 0x7F"@,
    }
}

/// The diagnosis of a malformed raw string.
pub open spec fn raw_diagnosis(err: RawStrError) -> Seq<char> {
    match err {
        RawStrError::UncloseString => "the string literal is unclosed"@,
        RawStrError::UncloseParen => "missed a parentheses in the raw string literal"@,
    }
}

/// The value of a character or string literal with the given text:
/// `Unexpected` when it is not closed or holds a malformed escape.
pub open spec fn text_literal(unclose: bool, err: Option<UnescapeError>) -> Option<Seq<char>> {
    if unclose {
        Some("unclose character literal"@)
    } else {
        match err {
            Some(e) => Some(escape_diagnosis(e)),
            None => None,
        }
    }
}

/// The value that a token of the given kind and text stands for. A
/// token that is no literal, and a literal that the lexer marked as
/// malformed, give `Unexpected` with a diagnosis.
pub open spec fn literal_value(kind: KindView, content: Seq<char>) -> LiteralView {
    match kind {
        KindView::Literal { kind, suffix } => match kind {
            LiteralKind::Int { base, dangling } => int_literal(base, dangling, content, suffix),
            LiteralKind::Float { dangling } => float_literal(dangling, content, suffix),
            LiteralKind::Char { unclose, err } => match text_literal(unclose, err) {
                Some(diagnosis) => LiteralView::Unexpected(diagnosis),
                None => LiteralView::Char(content),
            },
            LiteralKind::Str { unclose, err } => match text_literal(unclose, err) {
                Some(diagnosis) => LiteralView::Unexpected(diagnosis),
                None => LiteralView::Str(content),
            },
            LiteralKind::RawStr { err } => match err {
                Some(e) => LiteralView::Unexpected(raw_diagnosis(e)),
                None => LiteralView::Str(content),
            },
        },
        _ => LiteralView::Unexpected("Unexpected literal"@),
    }
}

/// The value that a token stands for.
pub open spec fn literal_of(tok: TokenView) -> LiteralView {
    literal_value(tok.kind, tok.content)
}

fn int_type(suffix: &str) -> (r: Option<IntType>)
    ensures
        r == int_type_of(suffix@),
{
    if str_eq(suffix, "") || str_eq(suffix, "i32") {
        Some(IntType::I32)
    } else if str_eq(suffix, "u32") {
        Some(IntType::U32)
    } else if str_eq(suffix, "b") {
        Some(IntType::I8)
    } else if str_eq(suffix, "u8") {
        Some(IntType::U8)
    } else if str_eq(suffix, "i16") {
        Some(IntType::I16)
    } else if str_eq(suffix, "u16") {
        Some(IntType::U16)
    } else if str_eq(suffix, "i64") {
        Some(IntType::I64)
    } else if str_eq(suffix, "u64") {
        Some(IntType::U64)
    } else if str_eq(suffix, "i128") {
        Some(IntType::I128)
    } else if str_eq(suffix, "u128") {
        Some(IntType::U128)
    } else {
        None
    }
}

/// What reading the digits of an integer literal gives.
enum Digits {
    /// The text is not the prefix and then digits of the base.
    Malformed,
    /// The number is larger than any integer type can hold.
    TooLarge,
    /// The number.
    Value(u128),
}

proof fn lemma_number_grows(n: nat, radix: nat, d: nat)
    requires
        radix >= 1,
    ensures
        n * radix + d >= n,
{
    assert(n * radix >= n) by (nonlinear_arith)
        requires
            radix >= 1,
            n >= 0,
    ;
}

/// Reads the number in the text of an integer literal of the given base.
fn read_int(v: &Vec<char>, base: NumBase) -> (r: Digits)
    ensures
        match r {
            Digits::Malformed => !well_formed_int(v@, base),
            Digits::TooLarge => well_formed_int(v@, base) && number_of(
                int_digits(v@, base),
                radix(base),
            ) > u128::MAX,
            Digits::Value(x) => well_formed_int(v@, base) && number_of(
                int_digits(v@, base),
                radix(base),
            ) == x,
        },
{
    let (start, r): (usize, u32) = match base {
        NumBase::Dec => (0, 10),
        NumBase::Hex => (2, 16),
        NumBase::Oct => (2, 8),
        NumBase::Bin => (2, 2),
    };
    let letter = match base {
        NumBase::Dec => '0',
        NumBase::Hex => 'x',
        NumBase::Oct => 'o',
        NumBase::Bin => 'b',
    };
    if start == 2 && (v.len() < 2 || v[0] != '0' || v[1] != letter) {
        return Digits::Malformed;
    }
    if v.len() <= start {
        return Digits::Malformed;
    }
    let mut acc: u128 = 0;
    let mut over = false;
    let mut i: usize = start;
    assert(v@.subrange(start as int, i as int) =~= Seq::<char>::empty());
    while i < v.len()
        invariant
            start == digits_start(base),
            r == radix(base),
            has_prefix(v@, base),
            start <= i <= v.len(),
            forall|k: int| start <= k < i ==> digit_of(#[trigger] v@[k], base),
            !over ==> acc == number_of(v@.subrange(start as int, i as int), r as nat),
            over ==> number_of(v@.subrange(start as int, i as int), r as nat) > u128::MAX,
        decreases v.len() - i,
    {
        let d = match hex_digit_value(v[i]) {
            None => {
                return Digits::Malformed;
            },
            Some(d) => d,
        };
        if d >= r {
            return Digits::Malformed;
        }
        proof {
            lemma_number_push(v@, start as int, i as int, r as nat);
            lemma_number_grows(
                number_of(v@.subrange(start as int, i as int), r as nat),
                r as nat,
                d as nat,
            );
        }
        if !over {
            match acc.checked_mul(r as u128) {
                None => {
                    over = true;
                },
                Some(m) => match m.checked_add(d as u128) {
                    None => {
                        over = true;
                    },
                    Some(a) => {
                        acc = a;
                    },
                },
            }
        }
        i += 1;
    }
    if over {
        Digits::TooLarge
    } else {
        Digits::Value(acc)
    }
}

/// The literal of type `t` with the value `v`, or the diagnosis that the
/// type cannot hold it.
fn make_int(t: IntType, v: u128) -> (l: Literal)
    ensures
        l@ == if v > int_max(t) {
            LiteralView::Unexpected("integer literal out of range"@)
        } else {
            typed_int(t, v as nat)
        },
{
    let fits = match t {
        IntType::I8 => v <= 0x7F,
        IntType::I16 => v <= 0x7FFF,
        IntType::I32 => v <= 0x7FFF_FFFF,
        IntType::I64 => v <= 0x7FFF_FFFF_FFFF_FFFF,
        IntType::I128 => v <= 0x7FFF_FFFF_FFFF_FFFF_FFFF_FFFF_FFFF_FFFF,
        IntType::U8 => v <= 0xFF,
        IntType::U16 => v <= 0xFFFF,
        IntType::U32 => v <= 0xFFFF_FFFF,
        IntType::U64 => v <= 0xFFFF_FFFF_FFFF_FFFF,
        IntType::U128 => true,
    };
    if !fits {
        return Literal::Unexpected("integer literal out of range".to_owned());
    }
    match t {
        IntType::I8 => Literal::Byte(v as i8),
        IntType::I16 => Literal::Int16(v as i16),
        IntType::I32 => Literal::Int(v as i32),
        IntType::I64 => Literal::Int64(v as i64),
        IntType::I128 => Literal::Int128(v as i128),
        IntType::U8 => Literal::UByte(v as u8),
        IntType::U16 => Literal::UInt16(v as u16),
        IntType::U32 => Literal::UInt(v as u32),
        IntType::U64 => Literal::UInt64(v as u64),
        IntType::U128 => Literal::UInt128(v),
    }
}

fn make_int_literal(base: NumBase, dangling: bool, content: &str, suffix: &str) -> (l: Literal)
    ensures
        l@ == int_literal(base, dangling, content@, suffix@),
{
    let t = match int_type(suffix) {
        None => {
            return Literal::Unexpected("invalid suffix of literal".to_owned());
        },
        Some(t) => t,
    };
    if dangling {
        return Literal::Unexpected("dangling integer number".to_owned());
    }
    let v = chars_of(content);
    match read_int(&v, base) {
        Digits::Malformed => Literal::Unexpected("invalid digit in integer literal".to_owned()),
        Digits::TooLarge => Literal::Unexpected("integer literal out of range".to_owned()),
        Digits::Value(x) => make_int(t, x),
    }
}

fn make_float_literal(dangling: bool, content: String, suffix: &str) -> (l: Literal)
    ensures
        l@ == float_literal(dangling, content@, suffix@),
{
    if dangling {
        Literal::Unexpected("dangling float number".to_owned())
    } else if str_eq(suffix, "f32") || str_eq(suffix, "") {
        Literal::Float(content)
    } else if str_eq(suffix, "f64") {
        Literal::Float64(content)
    } else {
        Literal::Unexpected("invalid suffix of literal".to_owned())
    }
}

fn escape_message(err: UnescapeError) -> (s: String)
    ensures
        s@ == escape_diagnosis(err),
{
    let text = match err {
        UnescapeError::OnlyOneSlashError => "only one '\\' in character literal",
        UnescapeError::IllegalEscape => "there are some illegal characters in the escape sequence",
        UnescapeError::EmptyUnicode => "unexpected empty unicode escape sequence",
        UnescapeError::UnclosedUnicode => "there is not a '}' to close the escape sequence",
        UnescapeError::IllegalUnicode => "there is an illegal unicode escape sequence in the character literal",
        UnescapeError::TooLongUnicode => "too long value in the unicode escape sequence",
        UnescapeError::ValueOutOfUnicode => "value out of range: unicode value cannot be more than 10FFFF",
        UnescapeError::LoneSurrogate => "there is a lone surrogate codepoint in the unicode character",
        UnescapeError::InvalidCharInUnicode => "there is an invalid character in the unicode escape sequence",
        UnescapeError::TooShortEscape => "too short escape sequence in ascii escape character",
        UnescapeError::InvalidCharInHex => "there is an invalid character in the ascii escape sequence",
        UnescapeError::ValueOutOfHex => "value out of range: ascii escape value cannot be more than 0x7F",
    };
    text.to_owned()
}

fn text_message(unclose: bool, err: Option<UnescapeError>) -> (r: Option<String>)
    ensures
        match r {
            Some(s) => text_literal(unclose, err) == Some(s@),
            None => text_literal(unclose, err) is None,
        },
{
    if unclose {
        Some("unclose character literal".to_owned())
    } else {
        match err {
            Some(e) => Some(escape_message(e)),
            None => None,
        }
    }
}

/// The literal that a token stands for.
pub fn make_literal(tok: Token) -> (l: Literal)
    ensures
        l@ == literal_of(tok@),
{
    let Token { kind, content, line: _, column: _ } = tok;
    match kind {
        TokenKind::Literal { kind, suffix } => match kind {
            LiteralKind::Int { base, dangling } => make_int_literal(
                base,
                dangling,
                content.as_str(),
                suffix.as_str(),
            ),
            LiteralKind::Float { dangling } => make_float_literal(dangling, content, suffix.as_str()),
            LiteralKind::Char { unclose, err } => match text_message(unclose, err) {
                Some(diagnosis) => Literal::Unexpected(diagnosis),
                None => Literal::Char(content),
            },
            LiteralKind::Str { unclose, err } => match text_message(unclose, err) {
                Some(diagnosis) => Literal::Unexpected(diagnosis),
                None => Literal::Str(content),
            },
            LiteralKind::RawStr { err } => match err {
                Some(RawStrError::UncloseString) => Literal::Unexpected(
                    "the string literal is unclosed".to_owned(),
                ),
                Some(RawStrError::UncloseParen) => Literal::Unexpected(
                    "missed a parentheses in the raw string literal".to_owned(),
                ),
                None => Literal::Str(content),
            },
        },
        _ => Literal::Unexpected("Unexpected literal".to_owned()),
    }
}

/// The expression that a literal token stands for: a sized integer, the
/// text of a floating-point number, the decoded text of a character or
/// string, or `Unexpected` with a diagnosis where the token is malformed
/// or is no literal.
pub fn make_lit(tok: Token) -> (e: Expression)
    ensures
        e@ == ExprView::Literal(literal_of(tok@)),
{
    Expression::Literal(make_literal(tok))
}

/// The expression that names `s`.
pub fn make_ident(s: String) -> (e: Expression)
    ensures
        e@ == ExprView::Ident(s@),
{
    Expression::Ident(s)
}

/// A text made of decimal digits alone, whose number an `i32` can hold,
/// is lexed as one token, and the value of that token is the number as
/// an `Int`.
pub proof fn lemma_decimal_integer(s: Seq<char>)
    requires
        s.len() > 0,
        forall|k: int| 0 <= k < s.len() ==> dec_digit(#[trigger] s[k]),
        number_of(s, 10) <= i32::MAX,
    ensures
        token_at(s, 0).end == s.len(),
        literal_of(token_view_at(s, 0)) == LiteralView::Int(number_of(s, 10) as i32),
{
    reveal(token_at);
    reveal_strlit("");
    lemma_run_unique(s, 1, s.len() as int, CharClass::DecDigit);
    assert(dec_digit(s[0]));
    if s.len() > 1 {
        assert(dec_digit(s[1]));
    }
    assert(s.subrange(s.len() as int, s.len() as int) =~= ""@);
    assert(s.subrange(0, s.len() as int) =~= s);
    assert(int_digits(s, NumBase::Dec) =~= s);
    assert forall|k: int| 0 <= k < s.len() implies digit_of(#[trigger] s[k], NumBase::Dec) by {
        assert(dec_digit(s[k]));
    }
}

} // verus!
