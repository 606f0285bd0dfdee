//! Character classes and small string utilities shared by the tokenizer,
//! the parser and the evaluator.
//!
//! The Unicode tables behind `char::is_whitespace`, `char::is_alphabetic`
//! and `char::is_alphanumeric` are not modelled: outside ASCII each class is
//! an uninterpreted predicate, which stands for the tables of the standard
//! library that the crate is built with; inside ASCII it is spelled out.

use vstd::prelude::*;

verus! {

/// Whether a character outside ASCII has the Unicode `White_Space` property,
/// as `char::is_whitespace` reports it.
pub uninterp spec fn unicode_whitespace(c: char) -> bool;

/// Whether a character outside ASCII has the Unicode `Alphabetic` property,
/// as `char::is_alphabetic` reports it.
pub uninterp spec fn unicode_alphabetic(c: char) -> bool;

/// Whether a character outside ASCII is alphabetic or numeric in Unicode's
/// sense, as `char::is_alphanumeric` reports it.
pub uninterp spec fn unicode_alphanumeric(c: char) -> bool;

pub open spec fn is_ascii(c: char) -> bool {
    (c as u32) < 0x80
}

/// The ten ASCII digits.
pub open spec fn is_digit(c: char) -> bool {
    '0' <= c <= '9'
}

/// The fifty-two ASCII letters.
pub open spec fn is_ascii_letter(c: char) -> bool {
    'a' <= c <= 'z' || 'A' <= c <= 'Z'
}

/// White space: in ASCII the space and the controls U+0009 to U+000D,
/// elsewhere whatever Unicode classifies as such.
pub open spec fn is_space(c: char) -> bool {
    if is_ascii(c) {
        c == ' ' || '\u{9}' <= c <= '\u{d}'
    } else {
        unicode_whitespace(c)
    }
}

/// Letters: in ASCII `a-z` and `A-Z`, elsewhere Unicode's alphabetic
/// characters.
pub open spec fn is_letter(c: char) -> bool {
    if is_ascii(c) {
        is_ascii_letter(c)
    } else {
        unicode_alphabetic(c)
    }
}

/// Letters and digits: in ASCII `a-z`, `A-Z` and `0-9`, elsewhere Unicode's
/// alphabetic and numeric characters.
pub open spec fn is_letter_or_digit(c: char) -> bool {
    if is_ascii(c) {
        is_ascii_letter(c) || is_digit(c)
    } else {
        unicode_alphanumeric(c)
    }
}

/// `char::is_whitespace`. Trusted: an ASCII character is white space exactly
/// when it is the space or one of U+0009..=U+000D; for any other character
/// the answer is the Unicode property, left uninterpreted.
pub assume_specification[ char::is_whitespace ](c: char) -> (r: bool)
    ensures
        r == if is_ascii(c) {
            c == ' ' || '\u{9}' <= c <= '\u{d}'
        } else {
            unicode_whitespace(c)
        },
;

/// `char::is_alphabetic`. Trusted: an ASCII character is alphabetic exactly
/// when it is a letter; for any other character the answer is the Unicode
/// property, left uninterpreted.
pub assume_specification[ char::is_alphabetic ](c: char) -> (r: bool)
    ensures
        r == if is_ascii(c) {
            is_ascii_letter(c)
        } else {
            unicode_alphabetic(c)
        },
;

/// `char::is_alphanumeric`. Trusted: an ASCII character is alphanumeric
/// exactly when it is a letter or a digit; for any other character the
/// answer is the Unicode classification, left uninterpreted.
pub assume_specification[ char::is_alphanumeric ](c: char) -> (r: bool)
    ensures
        r == if is_ascii(c) {
            is_ascii_letter(c) || is_digit(c)
        } else {
            unicode_alphanumeric(c)
        },
;

/// `String::push`. Trusted: the character is appended at the end and nothing
/// else changes.
pub assume_specification[ std::string::String::push ](s: &mut std::string::String, c: char)
    ensures
        final(s)@ == old(s)@.push(c),
;

/// Tests for an ASCII digit.
pub fn digit(c: char) -> (r: bool)
    ensures
        r == is_digit(c),
{
    '0' <= c && c <= '9'
}

/// The characters of `input`, in order.
pub fn chars_of(input: &str) -> (v: Vec<char>)
    ensures
        v@ == input@,
{
    let mut v: Vec<char> = Vec::new();
    for c in it: input.chars()
        invariant
            v@ == it.seq().take(it.index() as int),
    {
        v.push(c);
    }
    v
}

/// The text made of `chars[from..to]`.
pub(crate) fn text_of(chars: &Vec<char>, from: usize, to: usize) -> (s: String)
    requires
        from <= to <= chars.len(),
    ensures
        s@ == chars@.subrange(from as int, to as int),
{
    let mut s = String::new();
    let mut i: usize = from;
    while i < to
        invariant
            from <= i <= to <= chars.len(),
            s@ == chars@.subrange(from as int, i as int),
        decreases to - i,
    {
        s.push(chars[i]);
        i += 1;
    }
    s
}

/// Whether `s` reads exactly as `word`.
pub fn reads(s: &String, word: &str) -> (r: bool)
    ensures
        r == (s@ == word@),
{
    let other = word.to_owned();
    *s == other
}

/// The character that writes the digit `d`.
pub open spec fn digit_char(d: nat) -> char
    recommends
        d < 10,
{
    ((('0' as u32) + d) as u32) as char
}

/// The decimal numeral of `n`, without sign or leading zeros.
pub open spec fn decimal(n: nat) -> Seq<char>
    decreases n,
{
    if n < 10 {
        seq![digit_char(n)]
    } else {
        decimal(n / 10).push(digit_char(n % 10))
    }
}

/// Appends the decimal numeral of `n` to `out`.
pub fn push_decimal(out: &mut String, n: usize)
    ensures
        final(out)@ == old(out)@ + decimal(n as nat),
    decreases n,
{
    if n >= 10 {
        push_decimal(out, n / 10);
    }
    let d: u8 = (n % 10) as u8;
    let c: char = (48u8 + d) as char;
    out.push(c);
}

} // verus!
