//! The lexer: from source text to tokens, one at a time.

use crate::chars::{
    chars_of, dec_digit, ident_start, in_class, is_dec_digit, is_ident_start, is_in_class,
    is_whitespace, lemma_run_end, lemma_run_unique, run_end, string_of, whitespace, CharClass,
};
use crate::token::{KindView, LiteralKind, NumBase, RawStrError, Token, TokenKind, TokenView};
use crate::unescape::{unescape_chars, unescape_spec, UnescapeError};
use vstd::prelude::*;

verus! {

/// The line on which the cursor stands when it has passed `s[..pos]`:
/// lines are counted from 1, and each line feed begins a new one.
pub open spec fn line_at(s: Seq<char>, pos: int) -> int
    decreases pos,
{
    if pos <= 0 {
        1
    } else if s[pos - 1] == '\n' {
        line_at(s, pos - 1) + 1
    } else {
        line_at(s, pos - 1)
    }
}

/// The column at which the cursor stands when it has passed `s[..pos]`:
/// the number of characters passed since the last line feed.
pub open spec fn column_at(s: Seq<char>, pos: int) -> int
    decreases pos,
{
    if pos <= 0 {
        0
    } else if s[pos - 1] == '\n' {
        0
    } else {
        column_at(s, pos - 1) + 1
    }
}

/// The character that the cursor passed last, or NUL at the start.
pub open spec fn prev_at(s: Seq<char>, pos: int) -> char {
    if 0 < pos <= s.len() {
        s[pos - 1]
    } else {
        '\0'
    }
}

/// What the lexer finds at a position: the kind and text of a token and
/// the index just behind it.
pub struct Lexeme {
    pub kind: KindView,
    pub content: Seq<char>,
    pub end: int,
}

/// The end of the block comment whose body is scanned from `i` on at the
/// nesting depth `depth`, and whether it is closed there. `/` before `*`
/// opens a level, and the `*` may close one in turn; `*` before `/`
/// closes a level and takes both characters. The comment ends where the
/// depth reaches zero, or with the input.
pub open spec fn block_comment_end(s: Seq<char>, i: int, depth: nat) -> (int, bool)
    decreases s.len() - i,
{
    if i < 0 || i >= s.len() {
        (i, depth == 0)
    } else if s[i] == '/' && i + 1 < s.len() && s[i + 1] == '*' {
        block_comment_end(s, i + 1, depth + 1)
    } else if s[i] == '*' && i + 1 < s.len() && s[i + 1] == '/' {
        if depth <= 1 {
            (i + 2, true)
        } else {
            block_comment_end(s, i + 2, (depth - 1) as nat)
        }
    } else {
        block_comment_end(s, i + 1, depth)
    }
}

/// The exponent whose sign or digits begin at `i`, behind the marker:
/// whether it lacks digits, and its end.
pub open spec fn exponent_at(s: Seq<char>, i: int) -> (bool, int) {
    let digits = if 0 <= i < s.len() && (s[i] == '+' || s[i] == '-') {
        i + 1
    } else {
        i
    };
    (run_end(s, digits, CharClass::DecDigit) == digits, run_end(s, digits, CharClass::DecDigit))
}

/// The number that begins with the decimal digit at `start`: its kind and
/// the end of its text, before any suffix.
///
/// `0b`, `0o` and `0x` begin an integer of that base, made of the
/// longest run of decimal digits (for `0x`, of hexadecimal digits) that
/// follows; it is dangling when the run is empty. Any other number is a
/// run of decimal digits, then optionally a point with a run of digits,
/// then optionally `e` or `E` with an optional sign and a run of digits;
/// with a point or an exponent it is a float, which is dangling when the
/// run behind the point or behind the exponent marker is empty.
pub open spec fn number_at(s: Seq<char>, start: int) -> (LiteralKind, int) {
    let prefixed = 0 <= start && s[start] == '0' && start + 1 < s.len();
    if prefixed && s[start + 1] == 'b' {
        let e = run_end(s, start + 2, CharClass::DecDigit);
        (LiteralKind::Int { base: NumBase::Bin, dangling: e == start + 2 }, e)
    } else if prefixed && s[start + 1] == 'o' {
        let e = run_end(s, start + 2, CharClass::DecDigit);
        (LiteralKind::Int { base: NumBase::Oct, dangling: e == start + 2 }, e)
    } else if prefixed && s[start + 1] == 'x' {
        let e = run_end(s, start + 2, CharClass::HexDigit);
        (LiteralKind::Int { base: NumBase::Hex, dangling: e == start + 2 }, e)
    } else {
        let whole = run_end(s, start + 1, CharClass::DecDigit);
        if 0 <= whole < s.len() && s[whole] == '.' {
            let fraction = run_end(s, whole + 1, CharClass::DecDigit);
            if fraction == whole + 1 {
                (LiteralKind::Float { dangling: true }, fraction)
            } else if fraction < s.len() && (s[fraction] == 'e' || s[fraction] == 'E') {
                let (dangling, e) = exponent_at(s, fraction + 1);
                (LiteralKind::Float { dangling }, e)
            } else {
                (LiteralKind::Float { dangling: false }, fraction)
            }
        } else if 0 <= whole < s.len() && (s[whole] == 'e' || s[whole] == 'E') {
            let (dangling, e) = exponent_at(s, whole + 1);
            (LiteralKind::Float { dangling }, e)
        } else {
            (LiteralKind::Int { base: NumBase::Dec, dangling: false }, whole)
        }
    }
}

/// The end of the suffix that begins at `i`: there is one only if the
/// character at `i` can begin an identifier or is `_`, and it is the
/// longest run of identifier characters from there.
pub open spec fn suffix_end(s: Seq<char>, i: int) -> int {
    if 0 <= i < s.len() && (ident_start(s[i]) || s[i] == '_') {
        run_end(s, i + 1, CharClass::IdentContinue)
    } else {
        i
    }
}

/// The index of the quote that closes the body scanned from `i` on, or
/// the length of `s` if none does. A backslash takes the character
/// behind it along, so that an escaped quote does not close the body.
pub open spec fn quoted_end(s: Seq<char>, i: int, quote: char) -> int
    decreases s.len() - i,
{
    if i < 0 || i >= s.len() {
        i
    } else if s[i] == quote {
        i
    } else if s[i] == '\\' && i + 1 < s.len() {
        quoted_end(s, i + 2, quote)
    } else {
        quoted_end(s, i + 1, quote)
    }
}

/// The kind of a literal in single quotes (a character) or in double
/// quotes (a string).
pub open spec fn quoted_kind(quote: char, unclose: bool, err: Option<UnescapeError>) -> KindView {
    KindView::Literal {
        kind: if quote == '\'' {
            LiteralKind::Char { unclose, err }
        } else {
            LiteralKind::Str { unclose, err }
        },
        suffix: Seq::empty(),
    }
}

/// The character or string literal whose opening quote stands at
/// `start`. Without a closing quote it is unclosed and holds the rest of
/// the input. With one, a body that decodes gives the decoded text and
/// ends behind the closing quote; a body that does not decode gives the
/// error with the body as it is, and ends before the closing quote.
pub open spec fn quoted_at(s: Seq<char>, start: int, quote: char) -> Lexeme {
    let close = quoted_end(s, start + 1, quote);
    let body = s.subrange(start + 1, close);
    if close >= s.len() {
        Lexeme { kind: quoted_kind(quote, true, None), content: body, end: close }
    } else {
        match unescape_spec(body) {
            Err(e) => Lexeme { kind: quoted_kind(quote, false, Some(e)), content: body, end: close },
            Ok(text) => Lexeme { kind: quoted_kind(quote, false, None), content: text, end: close + 1 },
        }
    }
}

/// The index at which the body of a raw string scanned from `i` on
/// stops: at a `)` that a `"` follows, at a `"`, or at the end of the
/// input.
pub open spec fn raw_body_end(s: Seq<char>, i: int) -> int
    decreases s.len() - i,
{
    if i < 0 || i >= s.len() {
        i
    } else if s[i] == '"' {
        i
    } else if s[i] == ')' && i + 1 < s.len() && s[i + 1] == '"' {
        i
    } else {
        raw_body_end(s, i + 1)
    }
}

/// The kind of a raw string.
pub open spec fn raw_kind(err: Option<RawStrError>) -> KindView {
    KindView::Literal { kind: LiteralKind::RawStr { err }, suffix: Seq::empty() }
}

/// The raw string whose `r` stands at `start`, before a `"`.
///
/// With `(` behind the quote, the body runs to the first `)` that a `"`
/// follows, and any other `)` belongs to it; the text is the body as it
/// is. A `"` before that gives `UncloseParen`, the end of the input
/// `UncloseString`, both with an empty text. Without `(` the literal is
/// `UncloseParen`; its text runs to the next `"`, which is taken along,
/// or to the end of the input.
pub open spec fn raw_string_at(s: Seq<char>, start: int) -> Lexeme {
    let open = start + 2;
    if 0 <= open < s.len() && s[open] == '(' {
        let stop = raw_body_end(s, open + 1);
        if stop >= s.len() {
            Lexeme {
                kind: raw_kind(Some(RawStrError::UncloseString)),
                content: Seq::empty(),
                end: stop,
            }
        } else if s[stop] == '"' {
            Lexeme {
                kind: raw_kind(Some(RawStrError::UncloseParen)),
                content: Seq::empty(),
                end: stop + 1,
            }
        } else {
            Lexeme { kind: raw_kind(None), content: s.subrange(open + 1, stop), end: stop + 2 }
        }
    } else {
        let stop = run_end(s, open, CharClass::NotQuote);
        Lexeme {
            kind: raw_kind(Some(RawStrError::UncloseParen)),
            content: s.subrange(open, stop),
            end: if stop < s.len() {
                stop + 1
            } else {
                stop
            },
        }
    }
}

/// The kind of the token that a punctuation character is, if it is one.
pub open spec fn punctuation(c: char) -> Option<KindView> {
    if c == ',' {
        Some(KindView::Comma)
    } else if c == ';' {
        Some(KindView::Semicolon)
    } else if c == '.' {
        Some(KindView::Dot)
    } else if c == ':' {
        Some(KindView::Colon)
    } else if c == '(' {
        Some(KindView::LeftParen)
    } else if c == ')' {
        Some(KindView::RightParen)
    } else if c == '{' {
        Some(KindView::LeftBrace)
    } else if c == '}' {
        Some(KindView::RightBrace)
    } else if c == '[' {
        Some(KindView::LeftBracket)
    } else if c == ']' {
        Some(KindView::RightBracket)
    } else if c == '~' {
        Some(KindView::Not)
    } else if c == '^' {
        Some(KindView::Caret)
    } else if c == '+' {
        Some(KindView::Plus)
    } else if c == '-' {
        Some(KindView::Minus)
    } else if c == '*' {
        Some(KindView::Star)
    } else if c == '%' {
        Some(KindView::Percent)
    } else if c == '=' {
        Some(KindView::Equal)
    } else if c == '!' {
        Some(KindView::Exclamation)
    } else if c == '<' {
        Some(KindView::Le)
    } else if c == '>' {
        Some(KindView::Ge)
    } else if c == '&' {
        Some(KindView::And)
    } else if c == '|' {
        Some(KindView::Or)
    } else {
        None
    }
}

/// The number literal that begins at `start`, with its suffix: the text
/// is that of the number, without the suffix.
pub open spec fn number_token_at(s: Seq<char>, start: int) -> Lexeme {
    let (kind, digits_end) = number_at(s, start);
    let end = suffix_end(s, digits_end);
    Lexeme {
        kind: KindView::Literal { kind, suffix: s.subrange(digits_end, end) },
        content: s.subrange(start, digits_end),
        end,
    }
}

/// The token that begins at `pos` in the source `s`.
///
/// At the end of the input it is `Eof`. Else the first character
/// decides: whitespace begins a run of whitespace; `/` a line comment, a
/// block comment or the operator; `r` before `"` a raw string; a
/// character that can begin an identifier, or `_`, an identifier; a
/// decimal digit a number; a quote a character or string literal; a
/// punctuation character stands for itself; any other is `Illegal`.
#[verifier::opaque]
pub open spec fn token_at(s: Seq<char>, pos: int) -> Lexeme {
    if pos < 0 || pos >= s.len() {
        Lexeme { kind: KindView::Eof, content: "End of file."@, end: pos }
    } else if whitespace(s[pos]) {
        Lexeme {
            kind: KindView::Space,
            content: " "@,
            end: run_end(s, pos + 1, CharClass::Whitespace),
        }
    } else if s[pos] == '/' && pos + 1 < s.len() && s[pos + 1] == '/' {
        Lexeme {
            kind: KindView::LineComment,
            content: ""@,
            end: run_end(s, pos + 1, CharClass::NotNewline),
        }
    } else if s[pos] == '/' && pos + 1 < s.len() && s[pos + 1] == '*' {
        Lexeme {
            kind: KindView::BlockComment { expected: block_comment_end(s, pos + 2, 1).1 },
            content: ""@,
            end: block_comment_end(s, pos + 2, 1).0,
        }
    } else if s[pos] == '/' {
        Lexeme { kind: KindView::Slash, content: "/"@, end: pos + 1 }
    } else if s[pos] == 'r' && pos + 1 < s.len() && s[pos + 1] == '"' {
        raw_string_at(s, pos)
    } else if ident_start(s[pos]) || s[pos] == '_' {
        Lexeme {
            kind: KindView::Ident,
            content: s.subrange(pos, run_end(s, pos + 1, CharClass::IdentContinue)),
            end: run_end(s, pos + 1, CharClass::IdentContinue),
        }
    } else if dec_digit(s[pos]) {
        number_token_at(s, pos)
    } else if s[pos] == '\'' || s[pos] == '"' {
        quoted_at(s, pos, s[pos])
    } else {
        match punctuation(s[pos]) {
            Some(kind) => Lexeme { kind, content: seq![s[pos]], end: pos + 1 },
            None => Lexeme { kind: KindView::Illegal, content: "unexpected"@, end: pos + 1 },
        }
    }
}

/// The token that begins at `pos`, with the line and column of the
/// cursor behind it.
pub open spec fn token_view_at(s: Seq<char>, pos: int) -> TokenView {
    TokenView {
        kind: token_at(s, pos).kind,
        content: token_at(s, pos).content,
        line: line_at(s, token_at(s, pos).end) as usize,
        column: column_at(s, token_at(s, pos).end) as usize,
    }
}

/// The cursor never leaves the first line before a line feed, and counts
/// at most one line and one column for each character passed.
pub proof fn lemma_line_column_bounds(s: Seq<char>, pos: int)
    ensures
        pos >= 0 ==> 1 <= line_at(s, pos) <= pos + 1,
        pos >= 0 ==> 0 <= column_at(s, pos) <= pos,
        pos < 0 ==> line_at(s, pos) == 1 && column_at(s, pos) == 0,
    decreases pos,
{
    if pos > 0 {
        lemma_line_column_bounds(s, pos - 1);
    }
}

proof fn lemma_block_comment_end(s: Seq<char>, i: int, depth: nat)
    ensures
        i <= block_comment_end(s, i, depth).0,
        i <= s.len() ==> block_comment_end(s, i, depth).0 <= s.len(),
    decreases s.len() - i,
{
    if i < 0 || i >= s.len() {
    } else if s[i] == '/' && i + 1 < s.len() && s[i + 1] == '*' {
        lemma_block_comment_end(s, i + 1, depth + 1);
    } else if s[i] == '*' && i + 1 < s.len() && s[i + 1] == '/' {
        if depth > 1 {
            lemma_block_comment_end(s, i + 2, (depth - 1) as nat);
        }
    } else {
        lemma_block_comment_end(s, i + 1, depth);
    }
}

proof fn lemma_quoted_end(s: Seq<char>, i: int, quote: char)
    ensures
        i <= quoted_end(s, i, quote),
        i <= s.len() ==> quoted_end(s, i, quote) <= s.len(),
        0 <= i && quoted_end(s, i, quote) < s.len() ==> s[quoted_end(s, i, quote)] == quote,
    decreases s.len() - i,
{
    if i < 0 || i >= s.len() {
    } else if s[i] == quote {
    } else if s[i] == '\\' && i + 1 < s.len() {
        lemma_quoted_end(s, i + 2, quote);
    } else {
        lemma_quoted_end(s, i + 1, quote);
    }
}

proof fn lemma_raw_body_end(s: Seq<char>, i: int)
    ensures
        i <= raw_body_end(s, i),
        i <= s.len() ==> raw_body_end(s, i) <= s.len(),
        0 <= i && raw_body_end(s, i) < s.len() ==> (s[raw_body_end(s, i)] == '"' || (s[raw_body_end(
            s,
            i,
        )] == ')' && raw_body_end(s, i) + 1 < s.len() && s[raw_body_end(s, i) + 1] == '"')),
    decreases s.len() - i,
{
    if i < 0 || i >= s.len() {
    } else if s[i] == '"' {
    } else if s[i] == ')' && i + 1 < s.len() && s[i + 1] == '"' {
    } else {
        lemma_raw_body_end(s, i + 1);
    }
}

proof fn lemma_number_at(s: Seq<char>, start: int)
    requires
        0 <= start < s.len(),
    ensures
        start < number_at(s, start).1 <= s.len(),
        number_at(s, start).1 <= suffix_end(s, number_at(s, start).1) <= s.len(),
{
    lemma_run_end(s, start + 1, CharClass::DecDigit);
    lemma_run_end(s, start + 2, CharClass::DecDigit);
    lemma_run_end(s, start + 2, CharClass::HexDigit);
    let whole = run_end(s, start + 1, CharClass::DecDigit);
    lemma_run_end(s, whole + 1, CharClass::DecDigit);
    let fraction = run_end(s, whole + 1, CharClass::DecDigit);
    lemma_run_end(s, fraction + 1, CharClass::DecDigit);
    lemma_run_end(s, fraction + 2, CharClass::DecDigit);
    lemma_run_end(s, whole + 2, CharClass::DecDigit);
    lemma_run_end(s, number_at(s, start).1 + 1, CharClass::IdentContinue);
}

/// Every token ends at or behind its start and within the source; the
/// token is `Eof` exactly where no character is left, and every other
/// token ends behind its start.
pub proof fn lemma_token_advances(s: Seq<char>, pos: int)
    ensures
        pos <= token_at(s, pos).end,
        0 <= pos <= s.len() ==> token_at(s, pos).end <= s.len(),
        0 <= pos < s.len() ==> pos < token_at(s, pos).end,
        token_at(s, pos).kind is Eof <==> !(0 <= pos < s.len()),
{
    reveal(token_at);
    if 0 <= pos < s.len() {
        lemma_run_end(s, pos + 1, CharClass::Whitespace);
        lemma_run_end(s, pos + 1, CharClass::NotNewline);
        lemma_run_end(s, pos + 1, CharClass::IdentContinue);
        lemma_run_end(s, pos + 2, CharClass::NotQuote);
        lemma_block_comment_end(s, pos + 2, 1);
        lemma_raw_body_end(s, pos + 3);
        lemma_quoted_end(s, pos + 1, s[pos]);
        lemma_number_at(s, pos);
    }
}

/// The class of the digits that the lexer takes behind the prefix of a
/// base.
pub open spec fn prefix_digits(base: NumBase) -> CharClass {
    match base {
        NumBase::Hex => CharClass::HexDigit,
        _ => CharClass::DecDigit,
    }
}

/// The letter that stands behind `0` in the prefix of a base.
pub open spec fn prefix_letter(base: NumBase) -> char {
    match base {
        NumBase::Hex => 'x',
        NumBase::Oct => 'o',
        _ => 'b',
    }
}

/// A base prefix that no digit follows is a dangling integer of that
/// base, which ends behind the prefix: the token holds the prefix as its
/// text.
pub proof fn lemma_prefix_without_digits(s: Seq<char>, start: int, base: NumBase)
    requires
        0 <= start,
        start + 1 < s.len(),
        base != NumBase::Dec,
        s[start] == '0',
        s[start + 1] == prefix_letter(base),
        start + 2 < s.len() ==> !in_class(prefix_digits(base), s[start + 2]),
    ensures
        number_at(s, start) == (LiteralKind::Int { base, dangling: true }, start + 2),
        token_at(s, start).kind == (KindView::Literal {
            kind: LiteralKind::Int { base, dangling: true },
            suffix: s.subrange(start + 2, token_at(s, start).end),
        }),
        token_at(s, start).content == s.subrange(start, start + 2),
{
    reveal(token_at);
    lemma_run_unique(s, start + 2, start + 2, prefix_digits(base));
}

/// Whether `t` ends, from `i` on, with an exponent behind its marker: an
/// optional sign and then digits, at least one, up to the end.
pub open spec fn exponent_text(t: Seq<char>, i: int) -> bool {
    let digits = if 0 <= i < t.len() && (t[i] == '+' || t[i] == '-') {
        i + 1
    } else {
        i
    };
    digits < t.len() && run_end(t, digits, CharClass::DecDigit) == t.len()
}

/// Whether `t` has the shape of a decimal number with a fraction or an
/// exponent: digits; then a point and digits, or `e` or `E` and an
/// exponent, or both; and nothing else.
pub open spec fn float_text(t: Seq<char>) -> bool {
    let whole = run_end(t, 0, CharClass::DecDigit);
    let fraction = run_end(t, whole + 1, CharClass::DecDigit);
    &&& 1 <= whole < t.len()
    &&& if t[whole] == '.' {
        &&& fraction > whole + 1
        &&& fraction == t.len() || ((t[fraction] == 'e' || t[fraction] == 'E') && exponent_text(
            t,
            fraction + 1,
        ))
    } else {
        (t[whole] == 'e' || t[whole] == 'E') && exponent_text(t, whole + 1)
    }
}

proof fn lemma_run_end_within(s: Seq<char>, a: int, e: int, k: int, class: CharClass)
    requires
        0 <= a <= e <= s.len(),
        0 <= k <= e - a,
    ensures
        run_end(s.subrange(a, e), k, class) == if run_end(s, a + k, class) < e {
            run_end(s, a + k, class) - a
        } else {
            e - a
        },
    decreases e - a - k,
{
    let t = s.subrange(a, e);
    lemma_run_end(s, a + k, class);
    if k < e - a {
        assert(t[k] == s[a + k]);
        if in_class(class, s[a + k]) {
            lemma_run_end_within(s, a, e, k + 1, class);
        }
    }
}

/// The text of a float that is not dangling has the shape of a decimal
/// number with a fraction or an exponent.
pub proof fn lemma_float_text(s: Seq<char>, start: int)
    requires
        0 <= start < s.len(),
        dec_digit(s[start]),
        number_at(s, start).0 == (LiteralKind::Float { dangling: false }),
    ensures
        float_text(s.subrange(start, number_at(s, start).1)),
{
    let e = number_at(s, start).1;
    let t = s.subrange(start, e);
    lemma_number_at(s, start);
    let whole = run_end(s, start + 1, CharClass::DecDigit);
    lemma_run_end(s, start + 1, CharClass::DecDigit);
    lemma_run_end(s, whole + 1, CharClass::DecDigit);
    let fraction = run_end(s, whole + 1, CharClass::DecDigit);
    lemma_run_end(s, fraction + 1, CharClass::DecDigit);
    lemma_run_end(s, fraction + 2, CharClass::DecDigit);
    lemma_run_end(s, whole + 2, CharClass::DecDigit);
    assert(t[0] == s[start]);
    lemma_run_end_within(s, start, e, 1, CharClass::DecDigit);
    assert(run_end(t, 0, CharClass::DecDigit) == whole - start);
    assert(t[whole - start] == s[whole]);
    if s[whole] == '.' {
        lemma_run_end_within(s, start, e, whole + 1 - start, CharClass::DecDigit);
        if fraction < e {
            assert(t[fraction - start] == s[fraction]);
            lemma_exponent_text(s, start, e, fraction + 1);
        }
    } else {
        lemma_exponent_text(s, start, e, whole + 1);
    }
}

proof fn lemma_exponent_text(s: Seq<char>, start: int, e: int, i: int)
    requires
        0 <= start < i <= e <= s.len(),
        exponent_at(s, i) == (false, e),
    ensures
        exponent_text(s.subrange(start, e), i - start),
{
    let t = s.subrange(start, e);
    let digits = if i < s.len() && (s[i] == '+' || s[i] == '-') {
        i + 1
    } else {
        i
    };
    lemma_run_end(s, digits, CharClass::DecDigit);
    if i < e {
        assert(t[i - start] == s[i]);
    }
    lemma_run_end_within(s, start, e, digits - start, CharClass::DecDigit);
}

/// What was scanned, as a mathematical value.
pub open spec fn scanned(r: (TokenKind, String, usize)) -> Lexeme {
    Lexeme { kind: r.0@, content: r.1@, end: r.2 as int }
}

/// Where the lexer stands: the index of the next character, the
/// character passed last, and the line and column reached.
#[derive(Clone, Copy)]
struct Cursor {
    pos: usize,
    prev: char,
    line: usize,
    column: usize,
}

/// Whether the cursor holds what belongs to its index in `s`.
spec fn cursor_ok(s: Seq<char>, c: Cursor) -> bool {
    &&& c.pos <= s.len()
    &&& c.prev == prev_at(s, c.pos as int)
    &&& c.line == line_at(s, c.pos as int)
    &&& c.column == column_at(s, c.pos as int)
}

/// The lexer: the source and a cursor into it.
pub struct Lexer {
    src: Vec<char>,
    cur: Cursor,
}

fn punctuation_kind(c: char) -> (r: Option<TokenKind>)
    ensures
        match r {
            Some(k) => punctuation(c) == Some(k@),
            None => punctuation(c) is None,
        },
{
    if c == ',' {
        Some(TokenKind::Comma)
    } else if c == ';' {
        Some(TokenKind::Semicolon)
    } else if c == '.' {
        Some(TokenKind::Dot)
    } else if c == ':' {
        Some(TokenKind::Colon)
    } else if c == '(' {
        Some(TokenKind::LeftParen)
    } else if c == ')' {
        Some(TokenKind::RightParen)
    } else if c == '{' {
        Some(TokenKind::LeftBrace)
    } else if c == '}' {
        Some(TokenKind::RightBrace)
    } else if c == '[' {
        Some(TokenKind::LeftBracket)
    } else if c == ']' {
        Some(TokenKind::RightBracket)
    } else if c == '~' {
        Some(TokenKind::Not)
    } else if c == '^' {
        Some(TokenKind::Caret)
    } else if c == '+' {
        Some(TokenKind::Plus)
    } else if c == '-' {
        Some(TokenKind::Minus)
    } else if c == '*' {
        Some(TokenKind::Star)
    } else if c == '%' {
        Some(TokenKind::Percent)
    } else if c == '=' {
        Some(TokenKind::Equal)
    } else if c == '!' {
        Some(TokenKind::Exclamation)
    } else if c == '<' {
        Some(TokenKind::Le)
    } else if c == '>' {
        Some(TokenKind::Ge)
    } else if c == '&' {
        Some(TokenKind::And)
    } else if c == '|' {
        Some(TokenKind::Or)
    } else {
        None
    }
}

fn quoted_token_kind(quote: char, unclose: bool, err: Option<UnescapeError>) -> (k: TokenKind)
    ensures
        k@ == quoted_kind(quote, unclose, err),
{
    if quote == '\'' {
        TokenKind::Literal { kind: LiteralKind::Char { unclose, err }, suffix: String::new() }
    } else {
        TokenKind::Literal { kind: LiteralKind::Str { unclose, err }, suffix: String::new() }
    }
}

fn raw_token_kind(err: Option<RawStrError>) -> (k: TokenKind)
    ensures
        k@ == raw_kind(err),
{
    TokenKind::Literal { kind: LiteralKind::RawStr { err }, suffix: String::new() }
}

impl Lexer {
    #[verifier::type_invariant]
    spec fn inv(self) -> bool {
        self.src.len() < usize::MAX && cursor_ok(self.src@, self.cur)
    }

    /// The source text.
    pub closed spec fn source(&self) -> Seq<char> {
        self.src@
    }

    /// The index of the next character in the source.
    pub closed spec fn offset(&self) -> int {
        self.cur.pos as int
    }

    /// A lexer at the start of `src`: line 1, column 0.
    pub fn new(src: &str) -> (lexer: Lexer)
        requires
            src@.len() < usize::MAX,
        ensures
            lexer.source() == src@,
            lexer.offset() == 0,
    {
        Lexer { src: chars_of(src), cur: Cursor { pos: 0, prev: '\0', line: 1, column: 0 } }
    }

    /// The line on which the cursor stands.
    pub fn line(&self) -> (n: usize)
        ensures
            n == line_at(self.source(), self.offset()),
    {
        proof {
            use_type_invariant(self);
        }
        self.cur.line
    }

    /// The column at which the cursor stands.
    pub fn column(&self) -> (n: usize)
        ensures
            n == column_at(self.source(), self.offset()),
    {
        proof {
            use_type_invariant(self);
        }
        self.cur.column
    }

    /// The character passed last, or NUL at the start.
    pub fn before(&self) -> (c: char)
        ensures
            c == prev_at(self.source(), self.offset()),
    {
        proof {
            use_type_invariant(self);
        }
        self.cur.prev
    }

    /// The next character, without passing it.
    pub fn lookahead(&self) -> (r: Option<char>)
        ensures
            0 <= self.offset() <= self.source().len(),
            r == if self.offset() < self.source().len() {
                Some(self.source()[self.offset()])
            } else {
                None
            },
    {
        proof {
            use_type_invariant(self);
        }
        if self.cur.pos < self.src.len() {
            Some(self.src[self.cur.pos])
        } else {
            None
        }
    }

    /// The end of the run of characters of the class that begins at
    /// `from`.
    fn eat_while(&self, from: usize, class: CharClass) -> (end: usize)
        requires
            from <= self.src.len(),
        ensures
            end == run_end(self.src@, from as int, class),
            from <= end <= self.src.len(),
    {
        let mut i: usize = from;
        while i < self.src.len() && is_in_class(class, self.src[i])
            invariant
                from <= i <= self.src.len(),
                run_end(self.src@, from as int, class) == run_end(self.src@, i as int, class),
            decreases self.src.len() - i,
        {
            i += 1;
        }
        i
    }

    /// The end of the run of decimal digits that begins at `from`, and
    /// whether it is empty.
    fn eat_digit(&self, from: usize) -> (r: (bool, usize))
        requires
            from <= self.src.len(),
        ensures
            r.1 == run_end(self.src@, from as int, CharClass::DecDigit),
            r.0 == (r.1 == from),
            from <= r.1 <= self.src.len(),
    {
        let end = self.eat_while(from, CharClass::DecDigit);
        (end == from, end)
    }

    /// The end of the run of hexadecimal digits that begins at `from`,
    /// and whether it is empty.
    fn eat_hex(&self, from: usize) -> (r: (bool, usize))
        requires
            from <= self.src.len(),
        ensures
            r.1 == run_end(self.src@, from as int, CharClass::HexDigit),
            r.0 == (r.1 == from),
            from <= r.1 <= self.src.len(),
    {
        let end = self.eat_while(from, CharClass::HexDigit);
        (end == from, end)
    }

    /// The end of the exponent that begins at `from`, behind its marker,
    /// and whether it lacks digits.
    fn eat_exponent(&self, from: usize) -> (r: (bool, usize))
        requires
            from <= self.src.len(),
        ensures
            r.0 == exponent_at(self.src@, from as int).0,
            r.1 == exponent_at(self.src@, from as int).1,
            from <= r.1 <= self.src.len(),
    {
        let digits = if from < self.src.len() && (self.src[from] == '+' || self.src[from] == '-') {
            from + 1
        } else {
            from
        };
        let (dangling, end) = self.eat_digit(digits);
        (dangling, end)
    }

    /// The end of the block comment whose body begins at `from`, and
    /// whether it is closed.
    fn block_comment(&self, from: usize) -> (r: (usize, bool))
        requires
            from <= self.src.len() < usize::MAX,
        ensures
            r.0 == block_comment_end(self.src@, from as int, 1).0,
            r.1 == block_comment_end(self.src@, from as int, 1).1,
            from <= r.0 <= self.src.len(),
    {
        let mut i: usize = from;
        let mut depth: usize = 1;
        while i < self.src.len()
            invariant
                from <= i <= self.src.len() < usize::MAX,
                1 <= depth <= i - from + 1,
                block_comment_end(self.src@, from as int, 1) == block_comment_end(
                    self.src@,
                    i as int,
                    depth as nat,
                ),
            decreases self.src.len() - i,
        {
            let c = self.src[i];
            if c == '/' && i + 1 < self.src.len() && self.src[i + 1] == '*' {
                depth += 1;
                i += 1;
            } else if c == '*' && i + 1 < self.src.len() && self.src[i + 1] == '/' {
                if depth == 1 {
                    return (i + 2, true);
                }
                depth -= 1;
                i += 2;
            } else {
                i += 1;
            }
        }
        (i, false)
    }

    /// The kind of the number that begins with the digit at `start`, and
    /// the end of its text.
    fn number(&self, start: usize) -> (r: (LiteralKind, usize))
        requires
            start < self.src.len(),
        ensures
            r.0 == number_at(self.src@, start as int).0,
            r.1 == number_at(self.src@, start as int).1,
            start < r.1 <= self.src.len(),
    {
        proof {
            lemma_number_at(self.src@, start as int);
        }
        let len = self.src.len();
        if self.src[start] == '0' && start + 1 < len {
            let next = self.src[start + 1];
            if next == 'b' {
                let (dangling, end) = self.eat_digit(start + 2);
                return (LiteralKind::Int { base: NumBase::Bin, dangling }, end);
            }
            if next == 'o' {
                let (dangling, end) = self.eat_digit(start + 2);
                return (LiteralKind::Int { base: NumBase::Oct, dangling }, end);
            }
            if next == 'x' {
                let (dangling, end) = self.eat_hex(start + 2);
                return (LiteralKind::Int { base: NumBase::Hex, dangling }, end);
            }
        }
        let whole = self.eat_digit(start + 1).1;
        if whole < len && self.src[whole] == '.' {
            let (dangling, fraction) = self.eat_digit(whole + 1);
            if dangling {
                (LiteralKind::Float { dangling: true }, fraction)
            } else if fraction < len && (self.src[fraction] == 'e' || self.src[fraction] == 'E') {
                let (dangling, end) = self.eat_exponent(fraction + 1);
                (LiteralKind::Float { dangling }, end)
            } else {
                (LiteralKind::Float { dangling: false }, fraction)
            }
        } else if whole < len && (self.src[whole] == 'e' || self.src[whole] == 'E') {
            let (dangling, end) = self.eat_exponent(whole + 1);
            (LiteralKind::Float { dangling }, end)
        } else {
            (LiteralKind::Int { base: NumBase::Dec, dangling: false }, whole)
        }
    }

    /// The end of the suffix that begins at `from`.
    fn get_suffix(&self, from: usize) -> (end: usize)
        requires
            from <= self.src.len(),
        ensures
            end == suffix_end(self.src@, from as int),
            from <= end <= self.src.len(),
    {
        if from < self.src.len() && (is_ident_start(self.src[from]) || self.src[from] == '_') {
            self.eat_while(from + 1, CharClass::IdentContinue)
        } else {
            from
        }
    }

    /// The character or string literal whose opening quote stands at
    /// `start`.
    fn eat_quoted(&self, start: usize, quote: char) -> (r: (TokenKind, String, usize))
        requires
            start < self.src.len(),
        ensures
            scanned(r) == quoted_at(
                self.src@,
                start as int,
                quote,
            ),
            start < r.2 <= self.src.len(),
    {
        let mut i: usize = start + 1;
        while i < self.src.len() && self.src[i] != quote
            invariant
                start + 1 <= i <= self.src.len(),
                quoted_end(self.src@, start + 1, quote) == quoted_end(self.src@, i as int, quote),
            decreases self.src.len() - i,
        {
            if self.src[i] == '\\' && i + 1 < self.src.len() {
                i += 2;
            } else {
                i += 1;
            }
        }
        let close = i;
        if close >= self.src.len() {
            let body = string_of(&self.src, start + 1, close);
            return (quoted_token_kind(quote, true, None), body, close);
        }
        match unescape_chars(&self.src, start + 1, close) {
            Err(e) => {
                let body = string_of(&self.src, start + 1, close);
                (quoted_token_kind(quote, false, Some(e)), body, close)
            },
            Ok(text) => (quoted_token_kind(quote, false, None), text, close + 1),
        }
    }

    /// The character literal whose opening quote stands at `start`.
    fn eat_char(&self, start: usize) -> (r: (TokenKind, String, usize))
        requires
            start < self.src.len(),
        ensures
            scanned(r) == quoted_at(
                self.src@,
                start as int,
                '\'',
            ),
            start < r.2 <= self.src.len(),
    {
        self.eat_quoted(start, '\'')
    }

    /// The string literal whose opening quote stands at `start`.
    fn eat_str(&self, start: usize) -> (r: (TokenKind, String, usize))
        requires
            start < self.src.len(),
        ensures
            scanned(r) == quoted_at(
                self.src@,
                start as int,
                '"',
            ),
            start < r.2 <= self.src.len(),
    {
        self.eat_quoted(start, '"')
    }

    /// The raw string whose `r` stands at `start`, before a `"`.
    fn eat_raw_str(&self, start: usize) -> (r: (TokenKind, String, usize))
        requires
            start + 1 < self.src.len(),
        ensures
            scanned(r) == raw_string_at(
                self.src@,
                start as int,
            ),
            start < r.2 <= self.src.len(),
    {
        let len = self.src.len();
        let open: usize = start + 2;
        if open < len && self.src[open] == '(' {
            let mut i: usize = open + 1;
            while i < len && self.src[i] != '"' && !(self.src[i] == ')' && i + 1 < len
                && self.src[i + 1] == '"')
                invariant
                    len == self.src.len(),
                    open + 1 <= i <= len,
                    raw_body_end(self.src@, open + 1) == raw_body_end(self.src@, i as int),
                decreases len - i,
            {
                i += 1;
            }
            if i >= len {
                (raw_token_kind(Some(RawStrError::UncloseString)), String::new(), i)
            } else if self.src[i] == '"' {
                (raw_token_kind(Some(RawStrError::UncloseParen)), String::new(), i + 1)
            } else {
                (raw_token_kind(None), string_of(&self.src, open + 1, i), i + 2)
            }
        } else {
            let stop = self.eat_while(open, CharClass::NotQuote);
            let end = if stop < len {
                stop + 1
            } else {
                stop
            };
            (raw_token_kind(Some(RawStrError::UncloseParen)), string_of(&self.src, open, stop), end)
        }
    }

    /// The kind and the text of the token that begins at `from`, and its
    /// end.
    fn scan(&self, from: usize) -> (r: (TokenKind, String, usize))
        requires
            from <= self.src.len() < usize::MAX,
        ensures
            scanned(r) == token_at(
                self.src@,
                from as int,
            ),
            from <= r.2 <= self.src.len(),
            from < self.src.len() ==> from < r.2,
    {
        proof {
            reveal(token_at);
            lemma_token_advances(self.src@, from as int);
        }
        let len = self.src.len();
        if from >= len {
            return (TokenKind::Eof, "End of file.".to_owned(), from);
        }
        let c = self.src[from];
        if is_whitespace(c) {
            let end = self.eat_while(from + 1, CharClass::Whitespace);
            (TokenKind::Space, " ".to_owned(), end)
        } else if c == '/' && from + 1 < len && self.src[from + 1] == '/' {
            let end = self.eat_while(from + 1, CharClass::NotNewline);
            (TokenKind::LineComment, "".to_owned(), end)
        } else if c == '/' && from + 1 < len && self.src[from + 1] == '*' {
            let (end, expected) = self.block_comment(from + 2);
            (TokenKind::BlockComment { expected }, "".to_owned(), end)
        } else if c == '/' {
            (TokenKind::Slash, "/".to_owned(), from + 1)
        } else if c == 'r' && from + 1 < len && self.src[from + 1] == '"' {
            self.eat_raw_str(from)
        } else if is_ident_start(c) || c == '_' {
            let end = self.eat_while(from + 1, CharClass::IdentContinue);
            (TokenKind::Ident, string_of(&self.src, from, end), end)
        } else if is_dec_digit(c) {
            let (kind, digits_end) = self.number(from);
            let end = self.get_suffix(digits_end);
            let suffix = string_of(&self.src, digits_end, end);
            (TokenKind::Literal { kind, suffix }, string_of(&self.src, from, digits_end), end)
        } else if c == '\'' {
            self.eat_char(from)
        } else if c == '"' {
            self.eat_str(from)
        } else {
            match punctuation_kind(c) {
                Some(kind) => {
                    assert(self.src@.subrange(from as int, from + 1) =~= seq![c]);
                    (kind, string_of(&self.src, from, from + 1), from + 1)
                },
                None => (TokenKind::Illegal, "unexpected".to_owned(), from + 1),
            }
        }
    }

    /// The cursor that has passed the characters up to `end`.
    fn cursor_after(&self, end: usize) -> (c: Cursor)
        requires
            self.cur.pos <= end <= self.src.len() < usize::MAX,
            cursor_ok(self.src@, self.cur),
        ensures
            cursor_ok(self.src@, c),
            c.pos == end,
    {
        let mut c = self.cur;
        while c.pos < end
            invariant
                c.pos <= end <= self.src.len() < usize::MAX,
                cursor_ok(self.src@, c),
            decreases end - c.pos,
        {
            proof {
                lemma_line_column_bounds(self.src@, c.pos as int);
            }
            let ch = self.src[c.pos];
            c = if ch == '\n' {
                Cursor { pos: c.pos + 1, prev: ch, line: c.line + 1, column: 0 }
            } else {
                Cursor { pos: c.pos + 1, prev: ch, line: c.line, column: c.column + 1 }
            };
        }
        c
    }

    /// The token that begins at `from`, at or behind the cursor, and its
    /// end. The lexer stays where it is.
    pub(crate) fn token_from(&self, from: usize) -> (r: (Token, usize))
        requires
            self.offset() <= from <= self.source().len(),
        ensures
            r.0@ == token_view_at(self.source(), from as int),
            r.1 == token_at(self.source(), from as int).end,
            from <= r.1 <= self.source().len(),
            from < self.source().len() ==> from < r.1,
    {
        proof {
            use_type_invariant(self);
        }
        let (kind, content, end) = self.scan(from);
        let c = self.cursor_after(end);
        (Token { kind, content, line: c.line, column: c.column }, end)
    }

    /// Moves the cursor forward to `end`, passing every character on the
    /// way.
    pub(crate) fn advance_to(&mut self, end: usize)
        requires
            old(self).offset() <= end <= old(self).source().len(),
        ensures
            final(self).source() == old(self).source(),
            final(self).offset() == end,
    {
        proof {
            use_type_invariant(&*self);
        }
        let c = self.cursor_after(end);
        self.cur = c;
    }

    /// The index of the next character in the source.
    pub fn position(&self) -> (pos: usize)
        ensures
            pos == self.offset(),
            pos <= self.source().len(),
    {
        proof {
            use_type_invariant(self);
        }
        self.cur.pos
    }

    /// Scans one token and moves the cursor behind it. At the end of the
    /// input the token is `Eof`, and the cursor stays.
    pub fn next_token(&mut self) -> (tok: Token)
        ensures
            tok@ == token_view_at(old(self).source(), old(self).offset()),
            final(self).source() == old(self).source(),
            final(self).offset() == token_at(old(self).source(), old(self).offset()).end,
    {
        let from = self.position();
        let (tok, end) = self.token_from(from);
        self.advance_to(end);
        tok
    }
}

} // verus!
