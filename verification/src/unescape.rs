//! Decoding of the escape sequences inside character and string literals.

use crate::chars::{
    char_from_u32, chars_of, hex_digit, hex_digit_value, hex_value, in_class, is_hex_digit, lemma_number_push,
    lemma_run_end, lemma_run_unique, number_of, push_char, run_end, CharClass,
};
use vstd::prelude::*;

verus! {

/// Why the body of a literal could not be decoded.
#[derive(Debug, Clone, Copy, PartialEq, Eq, PartialOrd, Ord, Structural)]
pub enum UnescapeError {
    /// A backslash is the last character.
    OnlyOneSlashError,
    /// The character after a backslash begins no escape.
    IllegalEscape,
    /// `\u{}` holds no digit.
    EmptyUnicode,
    /// The input ends before the `}` of a unicode escape.
    UnclosedUnicode,
    /// `\u` is not followed by `{`.
    IllegalUnicode,
    /// A unicode escape holds more than six digits.
    TooLongUnicode,
    /// The value of a unicode escape lies beyond `0x10FFFF`.
    ValueOutOfUnicode,
    /// The value of a unicode escape is a surrogate code point.
    LoneSurrogate,
    /// A unicode escape holds a character that is neither a hexadecimal
    /// digit nor `}`.
    InvalidCharInUnicode,
    /// The input ends before the second digit of a `\x` escape.
    TooShortEscape,
    /// A `\x` escape holds a character that is no hexadecimal digit.
    InvalidCharInHex,
    /// The value of a `\x` escape lies beyond `0x7F`.
    ValueOutOfHex,
}

/// One decoded escape sequence: the character it denotes and the index
/// just behind it.
pub struct Escape {
    pub value: char,
    pub end: int,
}

/// The escape `\u{...}` whose backslash stands at `i`.
pub open spec fn unicode_escape_at(s: Seq<char>, i: int) -> Result<Escape, UnescapeError> {
    let end = run_end(s, i + 3, CharClass::HexDigit);
    let value = number_of(s.subrange(i + 3, end), 16);
    if i + 2 >= s.len() {
        Err(UnescapeError::UnclosedUnicode)
    } else if s[i + 2] != '{' {
        Err(UnescapeError::IllegalUnicode)
    } else if end - (i + 3) > 6 {
        Err(UnescapeError::TooLongUnicode)
    } else if end >= s.len() {
        Err(UnescapeError::UnclosedUnicode)
    } else if s[end] != '}' {
        Err(UnescapeError::InvalidCharInUnicode)
    } else if end == i + 3 {
        Err(UnescapeError::EmptyUnicode)
    } else if value > 0x10FFFF {
        Err(UnescapeError::ValueOutOfUnicode)
    } else if 0xD800 <= value <= 0xDFFF {
        Err(UnescapeError::LoneSurrogate)
    } else {
        Ok(Escape { value: value as char, end: end + 1 })
    }
}

/// The escape `\xHH` whose backslash stands at `i`.
pub open spec fn hex_escape_at(s: Seq<char>, i: int) -> Result<Escape, UnescapeError> {
    if i + 2 >= s.len() {
        Err(UnescapeError::TooShortEscape)
    } else if !hex_digit(s[i + 2]) {
        Err(UnescapeError::InvalidCharInHex)
    } else if i + 3 >= s.len() {
        Err(UnescapeError::TooShortEscape)
    } else if !hex_digit(s[i + 3]) {
        Err(UnescapeError::InvalidCharInHex)
    } else if hex_value(s[i + 2]) * 16 + hex_value(s[i + 3]) > 0x7F {
        Err(UnescapeError::ValueOutOfHex)
    } else {
        Ok(Escape { value: (hex_value(s[i + 2]) * 16 + hex_value(s[i + 3])) as char, end: i + 4 })
    }
}

/// The escape sequence whose backslash stands at `i`.
pub open spec fn escape_at(s: Seq<char>, i: int) -> Result<Escape, UnescapeError> {
    if i + 1 >= s.len() {
        Err(UnescapeError::OnlyOneSlashError)
    } else if s[i + 1] == 'b' {
        Ok(Escape { value: '\u{8}', end: i + 2 })
    } else if s[i + 1] == 'r' {
        Ok(Escape { value: '\r', end: i + 2 })
    } else if s[i + 1] == 'n' {
        Ok(Escape { value: '\n', end: i + 2 })
    } else if s[i + 1] == 't' {
        Ok(Escape { value: '\t', end: i + 2 })
    } else if s[i + 1] == '\'' {
        Ok(Escape { value: '\'', end: i + 2 })
    } else if s[i + 1] == '\\' {
        Ok(Escape { value: '\\', end: i + 2 })
    } else if s[i + 1] == 'u' {
        unicode_escape_at(s, i)
    } else if s[i + 1] == 'x' {
        hex_escape_at(s, i)
    } else {
        Err(UnescapeError::IllegalEscape)
    }
}

/// `c` followed by what `rest` decodes to, or the error of `rest`.
pub open spec fn prepend(c: char, rest: Result<Seq<char>, UnescapeError>) -> Result<
    Seq<char>,
    UnescapeError,
> {
    match rest {
        Ok(t) => Ok(seq![c] + t),
        Err(e) => Err(e),
    }
}

/// What `s[i..]` decodes to: every character stands for itself but a
/// backslash, which begins an escape sequence. The first sequence that
/// is malformed gives the error.
pub open spec fn decode_from(s: Seq<char>, i: int) -> Result<Seq<char>, UnescapeError>
    decreases s.len() - i,
{
    if i < 0 || i >= s.len() {
        Ok(Seq::empty())
    } else if s[i] != '\\' {
        prepend(s[i], decode_from(s, i + 1))
    } else {
        match escape_at(s, i) {
            Err(e) => Err(e),
            Ok(esc) => {
                proof {
                    lemma_run_end(s, i + 3, CharClass::HexDigit);
                }
                prepend(esc.value, decode_from(s, esc.end))
            },
        }
    }
}

/// What the body of a literal decodes to.
pub open spec fn unescape_spec(s: Seq<char>) -> Result<Seq<char>, UnescapeError> {
    decode_from(s, 0)
}

/// What `rest` decodes to behind the characters `done`, or the error of
/// `rest`.
pub open spec fn join(done: Seq<char>, rest: Result<Seq<char>, UnescapeError>) -> Result<
    Seq<char>,
    UnescapeError,
> {
    match rest {
        Ok(t) => Ok(done + t),
        Err(e) => Err(e),
    }
}

proof fn lemma_join_prepend(done: Seq<char>, c: char, rest: Result<Seq<char>, UnescapeError>)
    ensures
        join(done, prepend(c, rest)) == join(done.push(c), rest),
{
    if let Ok(t) = rest {
        assert(done + (seq![c] + t) =~= done.push(c) + t);
    }
}

/// Decodes the unicode escape whose backslash stands at `at`, within
/// `v[from..to]`.
fn unicode_escape(v: &Vec<char>, from: usize, to: usize, at: usize) -> (r: Result<
    (char, usize),
    UnescapeError,
>)
    requires
        from <= at < to <= v.len(),
    ensures
        match r {
            Ok((c, end)) => at < end <= to && unicode_escape_at(
                v@.subrange(from as int, to as int),
                at - from,
            ) == Ok::<Escape, UnescapeError>(Escape { value: c, end: end - from }),
            Err(e) => unicode_escape_at(v@.subrange(from as int, to as int), at - from) == Err::<
                Escape,
                UnescapeError,
            >(e),
        },
{
    let ghost t = v@.subrange(from as int, to as int);
    if to - at <= 2 {
        return Err(UnescapeError::UnclosedUnicode);
    }
    if v[at + 2] != '{' {
        return Err(UnescapeError::IllegalUnicode);
    }
    let first: usize = at + 3;
    let mut k: usize = first;
    let mut value: u32 = 0;
    assert(t.subrange(first - from, k - from) =~= Seq::<char>::empty());
    assert(t[at + 2 - from] == v@[at + 2]);
    while k < to && is_hex_digit(v[k])
        invariant
            from <= at,
            t[at + 2 - from] == '{',
            first == at + 3,
            first <= k <= to <= v.len(),
            t == v@.subrange(from as int, to as int),
            k - first <= 6,
            run_end(t, first - from, CharClass::HexDigit) == run_end(t, k - from, CharClass::HexDigit),
            value == number_of(t.subrange(first - from, k - from), 16),
            k - first == 0 ==> value == 0,
            k - first == 1 ==> value < 0x10,
            k - first == 2 ==> value < 0x100,
            k - first == 3 ==> value < 0x1000,
            k - first == 4 ==> value < 0x1_0000,
            k - first == 5 ==> value < 0x10_0000,
            k - first == 6 ==> value < 0x100_0000,
        decreases to - k,
    {
        proof {
            assert(t[k - from] == v@[k as int]);
            assert(run_end(t, k - from, CharClass::HexDigit) == run_end(t, k + 1 - from, CharClass::HexDigit));
            lemma_run_end(t, k + 1 - from, CharClass::HexDigit);
            lemma_number_push(t, first - from, k - from, 16);
        }
        if k - first == 6 {
            return Err(UnescapeError::TooLongUnicode);
        }
        let d = hex_digit_value(v[k]);
        match d {
            Some(d) => {
                value = value * 16 + d;
            },
            None => {},
        }
        k += 1;
    }
    assert(run_end(t, k - from, CharClass::HexDigit) == k - from) by {
        if k < to {
            assert(t[k - from] == v@[k as int]);
        }
    }
    if k >= to {
        return Err(UnescapeError::UnclosedUnicode);
    }
    assert(t[k - from] == v@[k as int]);
    if v[k] != '}' {
        return Err(UnescapeError::InvalidCharInUnicode);
    }
    if k == first {
        return Err(UnescapeError::EmptyUnicode);
    }
    if value > 0x10FFFF {
        return Err(UnescapeError::ValueOutOfUnicode);
    }
    match char_from_u32(value) {
        None => Err(UnescapeError::LoneSurrogate),
        Some(c) => Ok((c, k + 1)),
    }
}

/// Decodes the `\x` escape whose backslash stands at `at`, within
/// `v[from..to]`.
fn hex_escape(v: &Vec<char>, from: usize, to: usize, at: usize) -> (r: Result<
    (char, usize),
    UnescapeError,
>)
    requires
        from <= at < to <= v.len(),
    ensures
        match r {
            Ok((c, end)) => at < end <= to && hex_escape_at(
                v@.subrange(from as int, to as int),
                at - from,
            ) == Ok::<Escape, UnescapeError>(Escape { value: c, end: end - from }),
            Err(e) => hex_escape_at(v@.subrange(from as int, to as int), at - from) == Err::<
                Escape,
                UnescapeError,
            >(e),
        },
{
    if to - at <= 2 {
        return Err(UnescapeError::TooShortEscape);
    }
    let high = match hex_digit_value(v[at + 2]) {
        Some(d) => d,
        None => {
            return Err(UnescapeError::InvalidCharInHex);
        },
    };
    if to - at <= 3 {
        return Err(UnescapeError::TooShortEscape);
    }
    let low = match hex_digit_value(v[at + 3]) {
        Some(d) => d,
        None => {
            return Err(UnescapeError::InvalidCharInHex);
        },
    };
    let value: u32 = high * 16 + low;
    if value > 0x7F {
        return Err(UnescapeError::ValueOutOfHex);
    }
    Ok((value as u8 as char, at + 4))
}

/// Decodes the escape sequence whose backslash stands at `at`, within
/// `v[from..to]`.
fn escape(v: &Vec<char>, from: usize, to: usize, at: usize) -> (r: Result<
    (char, usize),
    UnescapeError,
>)
    requires
        from <= at < to <= v.len(),
    ensures
        match r {
            Ok((c, end)) => at < end <= to && escape_at(
                v@.subrange(from as int, to as int),
                at - from,
            ) == Ok::<Escape, UnescapeError>(Escape { value: c, end: end - from }),
            Err(e) => escape_at(v@.subrange(from as int, to as int), at - from) == Err::<
                Escape,
                UnescapeError,
            >(e),
        },
{
    if to - at <= 1 {
        return Err(UnescapeError::OnlyOneSlashError);
    }
    let c = v[at + 1];
    if c == 'b' {
        Ok(('\u{8}', at + 2))
    } else if c == 'r' {
        Ok(('\r', at + 2))
    } else if c == 'n' {
        Ok(('\n', at + 2))
    } else if c == 't' {
        Ok(('\t', at + 2))
    } else if c == '\'' {
        Ok(('\'', at + 2))
    } else if c == '\\' {
        Ok(('\\', at + 2))
    } else if c == 'u' {
        unicode_escape(v, from, to, at)
    } else if c == 'x' {
        hex_escape(v, from, to, at)
    } else {
        Err(UnescapeError::IllegalEscape)
    }
}

/// Decodes the escape sequences in `v[from..to]`.
pub(crate) fn unescape_chars(v: &Vec<char>, from: usize, to: usize) -> (r: Result<String, UnescapeError>)
    requires
        from <= to <= v.len(),
    ensures
        match r {
            Ok(t) => unescape_spec(v@.subrange(from as int, to as int)) == Ok::<
                Seq<char>,
                UnescapeError,
            >(t@),
            Err(e) => unescape_spec(v@.subrange(from as int, to as int)) == Err::<
                Seq<char>,
                UnescapeError,
            >(e),
        },
{
    let ghost t = v@.subrange(from as int, to as int);
    let mut out = String::new();
    let mut j: usize = from;
    assert(Seq::<char>::empty() + decode_from(t, 0)->Ok_0 =~= decode_from(t, 0)->Ok_0);
    while j < to
        invariant
            from <= j <= to <= v.len(),
            t == v@.subrange(from as int, to as int),
            decode_from(t, 0) == join(out@, decode_from(t, j - from)),
        decreases to - j,
    {
        let c = v[j];
        if c != '\\' {
            proof {
                lemma_join_prepend(out@, c, decode_from(t, j + 1 - from));
            }
            push_char(&mut out, c);
            j += 1;
        } else {
            match escape(v, from, to, j) {
                Err(e) => {
                    return Err(e);
                },
                Ok((d, end)) => {
                    proof {
                        lemma_join_prepend(out@, d, decode_from(t, end - from));
                    }
                    push_char(&mut out, d);
                    j = end;
                },
            }
        }
    }
    assert(out@ + Seq::<char>::empty() =~= out@);
    Ok(out)
}

/// Decodes the escape sequences in the body of a character or string
/// literal. A backslash begins an escape: `\b`, `\r`, `\n`, `\t`, `\'` and
/// `\\` stand for one character each, `\xHH` for the ASCII character with
/// that hexadecimal value, `\u{H..H}`, with one to six digits, for the
/// character with that scalar value. The result is the decoded text, or
/// the reason why the first malformed escape is malformed.
pub fn unescape(input: &str) -> (r: Result<String, UnescapeError>)
    ensures
        match r {
            Ok(t) => unescape_spec(input@) == Ok::<Seq<char>, UnescapeError>(t@),
            Err(e) => unescape_spec(input@) == Err::<Seq<char>, UnescapeError>(e),
        },
{
    let v = chars_of(input);
    assert(v@.subrange(0, v@.len() as int) =~= v@);
    unescape_chars(&v, 0, v.len())
}

/// The text of a unicode escape with the given digits.
pub open spec fn unicode_escape_text(digits: Seq<char>) -> Seq<char> {
    seq!['\\', 'u', '{'] + digits + seq!['}']
}

/// The text of a `\x` escape with the given two digits.
pub open spec fn hex_escape_text(high: char, low: char) -> Seq<char> {
    seq!['\\', 'x', high, low]
}

/// One to six hexadecimal digits.
pub open spec fn unicode_digits(digits: Seq<char>) -> bool {
    &&& 1 <= digits.len() <= 6
    &&& forall|k: int| 0 <= k < digits.len() ==> hex_digit(#[trigger] digits[k])
}

proof fn lemma_unicode_escape_shape(digits: Seq<char>, rest: Seq<char>)
    requires
        unicode_digits(digits),
    ensures
        run_end(unicode_escape_text(digits) + rest, 3, CharClass::HexDigit) == 3 + digits.len() as int,
        (unicode_escape_text(digits) + rest).subrange(3, 3 + digits.len() as int) == digits,
{
    let s = unicode_escape_text(digits) + rest;
    let n = digits.len() as int;
    assert forall|k: int| 3 <= k < 3 + n implies hex_digit(#[trigger] s[k]) by {
        assert(s[k] == digits[k - 3]);
    }
    assert(s[3 + n] == '}');
    lemma_run_unique(s, 3, 3 + n, CharClass::HexDigit);
    assert(s.subrange(3, 3 + n) =~= digits);
}

/// A unicode escape whose value lies beyond `0x10FFFF` is refused as
/// `ValueOutOfUnicode`, whatever follows it.
pub proof fn lemma_unicode_escape_beyond_range(digits: Seq<char>, rest: Seq<char>)
    requires
        unicode_digits(digits),
        number_of(digits, 16) > 0x10FFFF,
    ensures
        unescape_spec(unicode_escape_text(digits) + rest) == Err::<Seq<char>, UnescapeError>(
            UnescapeError::ValueOutOfUnicode,
        ),
{
    lemma_unicode_escape_shape(digits, rest);
}

/// A `\x` escape whose value lies beyond `0x7F` is refused as
/// `ValueOutOfHex`, whatever follows it.
pub proof fn lemma_hex_escape_beyond_ascii(high: char, low: char, rest: Seq<char>)
    requires
        hex_digit(high),
        hex_digit(low),
        hex_value(high) * 16 + hex_value(low) > 0x7F,
    ensures
        unescape_spec(hex_escape_text(high, low) + rest) == Err::<Seq<char>, UnescapeError>(
            UnescapeError::ValueOutOfHex,
        ),
{
}

/// A unicode escape whose digits give the scalar value of `c` decodes to
/// `c` alone.
pub proof fn lemma_unicode_escape_decodes(digits: Seq<char>, c: char)
    requires
        unicode_digits(digits),
        number_of(digits, 16) == c as u32,
    ensures
        unescape_spec(unicode_escape_text(digits)) == Ok::<Seq<char>, UnescapeError>(seq![c]),
{
    let s = unicode_escape_text(digits);
    assert(s + Seq::<char>::empty() =~= s);
    lemma_unicode_escape_shape(digits, Seq::empty());
    assert(decode_from(s, 4 + digits.len() as int) == Ok::<Seq<char>, UnescapeError>(Seq::empty()));
    assert(seq![c] + Seq::<char>::empty() =~= seq![c]);
}

/// A `\x` escape whose value is at most `0x7F` decodes to the ASCII
/// character with that value.
pub proof fn lemma_hex_escape_decodes(high: char, low: char)
    requires
        hex_digit(high),
        hex_digit(low),
        hex_value(high) * 16 + hex_value(low) <= 0x7F,
    ensures
        unescape_spec(hex_escape_text(high, low)) == Ok::<Seq<char>, UnescapeError>(
            seq![(hex_value(high) * 16 + hex_value(low)) as char],
        ),
{
    let s = hex_escape_text(high, low);
    let c = (hex_value(high) * 16 + hex_value(low)) as char;
    assert(decode_from(s, 4) == Ok::<Seq<char>, UnescapeError>(Seq::empty()));
    assert(seq![c] + Seq::<char>::empty() =~= seq![c]);
}

/// What a one-letter escape stands for, if the letter names one.
pub open spec fn simple_escape(letter: char) -> Option<char> {
    if letter == 'b' {
        Some('\u{8}')
    } else if letter == 'r' {
        Some('\r')
    } else if letter == 'n' {
        Some('\n')
    } else if letter == 't' {
        Some('\t')
    } else if letter == '\'' {
        Some('\'')
    } else if letter == '\\' {
        Some('\\')
    } else {
        None
    }
}

/// A backslash and the letter of a one-letter escape decode to the
/// character that the letter stands for.
pub proof fn lemma_simple_escape_decodes(letter: char)
    requires
        simple_escape(letter) is Some,
    ensures
        unescape_spec(seq!['\\', letter]) == Ok::<Seq<char>, UnescapeError>(
            seq![simple_escape(letter)->Some_0],
        ),
{
    let s = seq!['\\', letter];
    let c = simple_escape(letter)->Some_0;
    assert(decode_from(s, 2) == Ok::<Seq<char>, UnescapeError>(Seq::empty()));
    assert(seq![c] + Seq::<char>::empty() =~= seq![c]);
}

/// Text without a backslash decodes to itself.
pub proof fn lemma_plain_text_decodes(s: Seq<char>, i: int)
    requires
        0 <= i <= s.len(),
        forall|k: int| 0 <= k < s.len() ==> #[trigger] s[k] != '\\',
    ensures
        decode_from(s, i) == Ok::<Seq<char>, UnescapeError>(s.subrange(i, s.len() as int)),
    decreases s.len() - i,
{
    if i < s.len() {
        lemma_plain_text_decodes(s, i + 1);
        assert(seq![s[i]] + s.subrange(i + 1, s.len() as int) =~= s.subrange(i, s.len() as int));
    } else {
        assert(s.subrange(i, s.len() as int) =~= Seq::<char>::empty());
    }
}

proof fn lemma_run_end_shift(a: Seq<char>, b: Seq<char>, j: int, class: CharClass)
    requires
        0 <= j,
    ensures
        run_end(a + b, a.len() + j, class) == a.len() + run_end(b, j, class),
    decreases b.len() - j,
{
    if j < b.len() {
        assert((a + b)[a.len() + j] == b[j]);
        if in_class(class, b[j]) {
            lemma_run_end_shift(a, b, j + 1, class);
        }
    }
}

proof fn lemma_escape_shift(a: Seq<char>, b: Seq<char>, j: int)
    requires
        0 <= j < b.len(),
    ensures
        escape_at(a + b, a.len() + j) == match escape_at(b, j) {
            Ok(e) => Ok::<Escape, UnescapeError>(Escape { value: e.value, end: e.end + a.len() }),
            Err(e) => Err::<Escape, UnescapeError>(e),
        },
{
    let s = a + b;
    let n = a.len() as int;
    assert forall|k: int| 0 <= k < b.len() implies #[trigger] s[n + k] == b[k] by {}
    lemma_run_end_shift(a, b, j + 3, CharClass::HexDigit);
    lemma_run_end(b, j + 3, CharClass::HexDigit);
    let end = run_end(b, j + 3, CharClass::HexDigit);
    if j + 3 <= b.len() {
        assert(s.subrange(n + j + 3, n + end) =~= b.subrange(j + 3, end));
    }
    if j + 1 < b.len() {
        assert(s[n + (j + 1)] == b[j + 1]);
    }
    if j + 2 < b.len() {
        assert(s[n + (j + 2)] == b[j + 2]);
    }
    if j + 3 < b.len() {
        assert(s[n + (j + 3)] == b[j + 3]);
    }
    if j + 3 <= end < b.len() {
        assert(s[n + end] == b[end]);
    }
}

proof fn lemma_decode_shift(a: Seq<char>, b: Seq<char>, j: int)
    requires
        0 <= j,
    ensures
        decode_from(a + b, a.len() + j) == decode_from(b, j),
    decreases b.len() - j,
{
    if j < b.len() {
        assert((a + b)[a.len() + j] == b[j]);
        if b[j] != '\\' {
            lemma_decode_shift(a, b, j + 1);
        } else {
            lemma_escape_shift(a, b, j);
            lemma_run_end(b, j + 3, CharClass::HexDigit);
            if let Ok(e) = escape_at(b, j) {
                lemma_decode_shift(a, b, e.end);
            }
        }
    }
}

proof fn lemma_escape_prefix(a: Seq<char>, b: Seq<char>, i: int)
    requires
        0 <= i < a.len(),
        escape_at(a, i) is Ok,
    ensures
        escape_at(a + b, i) == escape_at(a, i),
        i < escape_at(a, i)->Ok_0.end <= a.len(),
{
    let s = a + b;
    assert forall|k: int| 0 <= k < a.len() implies #[trigger] s[k] == a[k] by {}
    lemma_run_end(a, i + 3, CharClass::HexDigit);
    let end = run_end(a, i + 3, CharClass::HexDigit);
    assert(s[i + 1] == a[i + 1]);
    if a[i + 1] == 'u' {
        assert(s[i + 2] == a[i + 2]);
        assert(s[end] == a[end]);
        assert forall|k: int| i + 3 <= k < end implies in_class(
            CharClass::HexDigit,
            #[trigger] s[k],
        ) by {
            assert(s[k] == a[k]);
        }
        lemma_run_unique(s, i + 3, end, CharClass::HexDigit);
        assert(s.subrange(i + 3, end) =~= a.subrange(i + 3, end));
    } else if a[i + 1] == 'x' {
        assert(s[i + 2] == a[i + 2]);
        assert(s[i + 3] == a[i + 3]);
    }
}

/// Behind a text that decodes, what follows decodes as it does alone:
/// the two decoded texts are joined, or the error of what follows is
/// the error of the whole.
pub proof fn lemma_decode_concat(a: Seq<char>, b: Seq<char>, i: int)
    requires
        0 <= i <= a.len(),
        decode_from(a, i) is Ok,
    ensures
        decode_from(a + b, i) == join(decode_from(a, i)->Ok_0, decode_from(b, 0)),
    decreases a.len() - i,
{
    let s = a + b;
    if i == a.len() {
        lemma_decode_shift(a, b, 0);
        if let Ok(t) = decode_from(b, 0) {
            assert(Seq::<char>::empty() + t =~= t);
        }
    } else {
        assert(s[i] == a[i]);
        if a[i] != '\\' {
            lemma_decode_concat(a, b, i + 1);
            let rest = decode_from(a, i + 1)->Ok_0;
            if let Ok(t) = decode_from(b, 0) {
                assert(seq![a[i]] + (rest + t) =~= (seq![a[i]] + rest) + t);
            }
        } else {
            lemma_escape_prefix(a, b, i);
            let e = escape_at(a, i)->Ok_0;
            lemma_decode_concat(a, b, e.end);
            let rest = decode_from(a, e.end)->Ok_0;
            if let Ok(t) = decode_from(b, 0) {
                assert(seq![e.value] + (rest + t) =~= (seq![e.value] + rest) + t);
            }
        }
    }
}

/// A body made of two parts, of which the first decodes, decodes to the
/// two decoded texts joined; where the second does not decode, its error
/// is the error of the whole.
pub proof fn lemma_unescape_concat(a: Seq<char>, b: Seq<char>)
    requires
        unescape_spec(a) is Ok,
    ensures
        unescape_spec(a + b) == join(unescape_spec(a)->Ok_0, unescape_spec(b)),
{
    lemma_decode_concat(a, b, 0);
}

} // verus!
