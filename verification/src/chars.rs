//! Character classes and the conversions between text and `Vec<char>`.

use unicode_xid::UnicodeXID;
use vstd::prelude::*;

verus! {

/// The characters with the Unicode property `White_Space`.
pub open spec fn whitespace(c: char) -> bool {
    let n = c as u32;
    (0x09 <= n <= 0x0D) || n == 0x20 || n == 0x85 || n == 0xA0 || n == 0x1680 || (0x2000 <= n
        <= 0x200A) || n == 0x2028 || n == 0x2029 || n == 0x202F || n == 0x205F || n == 0x3000
}

/// The decimal digits `0` to `9`.
pub open spec fn dec_digit(c: char) -> bool {
    '0' <= c <= '9'
}

/// The hexadecimal digits, in either case.
pub open spec fn hex_digit(c: char) -> bool {
    ('0' <= c <= '9') || ('a' <= c <= 'f') || ('A' <= c <= 'F')
}

/// The value of a hexadecimal digit; 0 for any other character.
pub open spec fn hex_value(c: char) -> nat {
    if '0' <= c <= '9' {
        (c as u32 - '0' as u32) as nat
    } else if 'a' <= c <= 'f' {
        (c as u32 - 'a' as u32 + 10) as nat
    } else if 'A' <= c <= 'F' {
        (c as u32 - 'A' as u32 + 10) as nat
    } else {
        0
    }
}

/// The number that the digits `d` denote in the given radix, the first
/// digit being the most significant.
pub open spec fn number_of(d: Seq<char>, radix: nat) -> nat
    decreases d.len(),
{
    if d.len() == 0 {
        0
    } else {
        number_of(d.drop_last(), radix) * radix + hex_value(d.last())
    }
}

/// A digit more at the end multiplies the number by the radix and adds
/// the value of the digit.
pub proof fn lemma_number_push(s: Seq<char>, a: int, k: int, radix: nat)
    requires
        0 <= a <= k < s.len(),
    ensures
        number_of(s.subrange(a, k + 1), radix) == number_of(s.subrange(a, k), radix) * radix
            + hex_value(s[k]),
{
    assert(s.subrange(a, k + 1).drop_last() =~= s.subrange(a, k));
}

/// The ASCII letters.
pub open spec fn ascii_letter(c: char) -> bool {
    ('a' <= c <= 'z') || ('A' <= c <= 'Z')
}

/// Whether a character has the Unicode property `XID_Start`, as the tables
/// of the `unicode-xid` crate give it.
pub uninterp spec fn xid_start(c: char) -> bool;

/// Whether a character has the Unicode property `XID_Continue`, as the
/// tables of the `unicode-xid` crate give it.
pub uninterp spec fn xid_continue(c: char) -> bool;

/// A character that may begin an identifier: a letter for ASCII,
/// `XID_Start` beyond it.
pub open spec fn ident_start(c: char) -> bool {
    if c <= '\x7f' {
        ascii_letter(c)
    } else {
        xid_start(c)
    }
}

/// A character that may continue an identifier: a letter, a digit or `_`
/// for ASCII, `XID_Continue` beyond it.
pub open spec fn ident_continue(c: char) -> bool {
    if c <= '\x7f' {
        ascii_letter(c) || dec_digit(c) || c == '_'
    } else {
        xid_continue(c)
    }
}

/// The classes of character of which the lexer scans runs.
#[derive(Debug, Clone, Copy, PartialEq, Eq, Structural)]
pub enum CharClass {
    Whitespace,
    DecDigit,
    HexDigit,
    IdentContinue,
    /// Every character but the line feed.
    NotNewline,
    /// Every character but the double quote.
    NotQuote,
}

/// Whether `c` belongs to the class.
pub open spec fn in_class(class: CharClass, c: char) -> bool {
    match class {
        CharClass::Whitespace => whitespace(c),
        CharClass::DecDigit => dec_digit(c),
        CharClass::HexDigit => hex_digit(c),
        CharClass::IdentContinue => ident_continue(c),
        CharClass::NotNewline => c != '\n',
        CharClass::NotQuote => c != '"',
    }
}

/// The end of the longest run of characters of the class that begins at
/// `i`: the index of the first character from `i` on that is not of the
/// class, or the length of `s` if there is none.
pub open spec fn run_end(s: Seq<char>, i: int, class: CharClass) -> int
    decreases s.len() - i,
{
    if 0 <= i < s.len() && in_class(class, s[i]) {
        run_end(s, i + 1, class)
    } else {
        i
    }
}

/// A run ends at or behind its start, within the sequence; all its
/// characters are of the class, and the character at its end is not.
pub proof fn lemma_run_end(s: Seq<char>, i: int, class: CharClass)
    ensures
        i <= run_end(s, i, class),
        i <= s.len() ==> run_end(s, i, class) <= s.len(),
        0 <= i && run_end(s, i, class) < s.len() ==> !in_class(class, s[run_end(s, i, class)]),
        forall|k: int| 0 <= i <= k < run_end(s, i, class) ==> in_class(class, #[trigger] s[k]),
    decreases s.len() - i,
{
    if 0 <= i < s.len() && in_class(class, s[i]) {
        lemma_run_end(s, i + 1, class);
    }
}

/// A run ends where the first character stands that is not of the class.
pub proof fn lemma_run_unique(s: Seq<char>, i: int, e: int, class: CharClass)
    requires
        0 <= i <= e <= s.len(),
        forall|k: int| i <= k < e ==> in_class(class, #[trigger] s[k]),
        e < s.len() ==> !in_class(class, s[e]),
    ensures
        run_end(s, i, class) == e,
    decreases e - i,
{
    if i < e {
        lemma_run_unique(s, i + 1, e, class);
    }
}

/// Calls `unicode_xid::UnicodeXID::is_xid_start`. Trusted: the result is
/// the crate's `XID_Start` property, which for an ASCII character is true
/// exactly of the letters (the crate tests those before its tables).
#[verifier::external_body]
pub(crate) fn is_xid_start(c: char) -> (b: bool)
    ensures
        b == xid_start(c),
        c <= '\x7f' ==> b == ascii_letter(c),
{
    UnicodeXID::is_xid_start(c)
}

/// Calls `unicode_xid::UnicodeXID::is_xid_continue`. Trusted: the result
/// is the crate's `XID_Continue` property, which for an ASCII character is
/// true exactly of the letters, the digits and `_` (the crate tests those
/// before its tables).
#[verifier::external_body]
pub(crate) fn is_xid_continue(c: char) -> (b: bool)
    ensures
        b == xid_continue(c),
        c <= '\x7f' ==> b == (ascii_letter(c) || dec_digit(c) || c == '_'),
{
    UnicodeXID::is_xid_continue(c)
}

/// Calls `String::push`. Trusted: the character is appended.
#[verifier::external_body]
pub(crate) fn push_char(s: &mut String, c: char)
    ensures
        final(s)@ == old(s)@.push(c),
{
    s.push(c)
}

/// Calls `char::from_u32`. Trusted: the result is the character with that
/// scalar value, and there is one unless the value is a surrogate or lies
/// beyond `0x10FFFF`.
#[verifier::external_body]
pub(crate) fn char_from_u32(v: u32) -> (r: Option<char>)
    ensures
        r == if v <= 0xD7FF || 0xE000 <= v <= 0x10FFFF {
            Some(v as char)
        } else {
            None
        },
{
    char::from_u32(v)
}

/// Compares two string slices with `==`. Trusted: they are equal exactly
/// when they hold the same characters.
#[verifier::external_body]
pub(crate) fn str_eq(a: &str, b: &str) -> (r: bool)
    ensures
        r == (a@ == b@),
{
    a == b
}

pub fn is_whitespace(c: char) -> (b: bool)
    ensures
        b == whitespace(c),
{
    let n: u32 = c as u32;
    (0x09 <= n && n <= 0x0D) || n == 0x20 || n == 0x85 || n == 0xA0 || n == 0x1680 || (0x2000 <= n
        && n <= 0x200A) || n == 0x2028 || n == 0x2029 || n == 0x202F || n == 0x205F || n == 0x3000
}

pub fn is_dec_digit(c: char) -> (b: bool)
    ensures
        b == dec_digit(c),
{
    '0' <= c && c <= '9'
}

pub fn is_hex_digit(c: char) -> (b: bool)
    ensures
        b == hex_digit(c),
{
    ('0' <= c && c <= '9') || ('a' <= c && c <= 'f') || ('A' <= c && c <= 'F')
}

/// The value of a hexadecimal digit, if the character is one.
pub fn hex_digit_value(c: char) -> (r: Option<u32>)
    ensures
        r is Some <==> hex_digit(c),
        r matches Some(v) ==> v == hex_value(c),
{
    if '0' <= c && c <= '9' {
        Some(c as u32 - '0' as u32)
    } else if 'a' <= c && c <= 'f' {
        Some(c as u32 - 'a' as u32 + 10)
    } else if 'A' <= c && c <= 'F' {
        Some(c as u32 - 'A' as u32 + 10)
    } else {
        None
    }
}

pub fn is_ident_start(c: char) -> (b: bool)
    ensures
        b == ident_start(c),
{
    is_xid_start(c)
}

pub fn is_ident_continue(c: char) -> (b: bool)
    ensures
        b == ident_continue(c),
{
    is_xid_continue(c)
}

pub fn is_in_class(class: CharClass, c: char) -> (b: bool)
    ensures
        b == in_class(class, c),
{
    match class {
        CharClass::Whitespace => is_whitespace(c),
        CharClass::DecDigit => is_dec_digit(c),
        CharClass::HexDigit => is_hex_digit(c),
        CharClass::IdentContinue => is_ident_continue(c),
        CharClass::NotNewline => c != '\n',
        CharClass::NotQuote => c != '"',
    }
}

/// The characters of a string slice, in order.
pub fn chars_of(s: &str) -> (v: Vec<char>)
    ensures
        v@ == s@,
{
    let mut v: Vec<char> = Vec::new();
    for c in it: s.chars()
        invariant
            v@ == it.seq().take(it.index()),
            it.seq() == s@,
    {
        v.push(c);
    }
    v
}

/// The text made of the characters `v[from..to]`.
pub(crate) fn string_of(v: &Vec<char>, from: usize, to: usize) -> (s: String)
    requires
        from <= to <= v.len(),
    ensures
        s@ == v@.subrange(from as int, to as int),
{
    let mut s = String::new();
    let mut i: usize = from;
    while i < to
        invariant
            from <= i <= to <= v.len(),
            s@ == v@.subrange(from as int, i as int),
        decreases to - i,
    {
        push_char(&mut s, v[i]);
        i += 1;
    }
    s
}

} // verus!
