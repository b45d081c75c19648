//! Character classes of the tokenizer.

use vstd::prelude::*;

verus! {

/// Whether a character outside ASCII is in the White_Space set of Unicode.
pub uninterp spec fn unicode_whitespace(c: char) -> bool;

/// Whether a character outside ASCII is in one of Unicode's number
/// categories (Nd, Nl, No).
pub uninterp spec fn unicode_numeric(c: char) -> bool;

/// Whitespace: in ASCII the space and U+0009 to U+000D, beyond ASCII what
/// Unicode calls White_Space.
pub open spec fn whitespace(c: char) -> bool {
    if (c as u32) < 0x80 {
        c == ' ' || ('\t' <= c && c <= '\r')
    } else {
        unicode_whitespace(c)
    }
}

/// Numeric characters: in ASCII the ten digits, beyond ASCII what Unicode
/// classifies as a number.
pub open spec fn numeric(c: char) -> bool {
    if (c as u32) < 0x80 {
        '0' <= c && c <= '9'
    } else {
        unicode_numeric(c)
    }
}

/// `char::is_whitespace` of the standard library. Believed, not proved: on
/// ASCII it answers for the space and for U+0009 to U+000D only; for other
/// characters its answer depends on the character alone.
pub assume_specification[ char::is_whitespace ](c: char) -> (r: bool)
    ensures
        r == (if (c as u32) < 0x80 {
            c == ' ' || ('\t' <= c && c <= '\r')
        } else {
            unicode_whitespace(c)
        }),
;

/// `char::is_numeric` of the standard library. Believed, not proved: on
/// ASCII it answers for the digits `0` to `9` only; for other characters its
/// answer depends on the character alone.
pub assume_specification[ char::is_numeric ](c: char) -> (r: bool)
    ensures
        r == (if (c as u32) < 0x80 {
            '0' <= c && c <= '9'
        } else {
            unicode_numeric(c)
        }),
;

/// `String::push` of the standard library. Believed, not proved: it appends
/// the character to the end of the string.
pub assume_specification[ std::string::String::push ](s: &mut std::string::String, c: char)
    ensures
        final(s)@ == old(s)@.push(c),
;

pub open spec fn letter(c: char) -> bool {
    ('a' <= c && c <= 'z') || ('A' <= c && c <= 'Z')
}

pub open spec fn uppercase(c: char) -> bool {
    'A' <= c && c <= 'Z'
}

pub open spec fn decimal_digit(c: char) -> bool {
    '0' <= c && c <= '9'
}

pub open spec fn hex_digit(c: char) -> bool {
    decimal_digit(c) || ('a' <= c && c <= 'f') || ('A' <= c && c <= 'F')
}

/// The characters that begin a word: a letter, or an underscore, with which
/// no identifier may begin.
pub open spec fn word_start(c: char) -> bool {
    letter(c) || c == '_'
}

/// The characters an identifier is made of.
pub open spec fn word_char(c: char) -> bool {
    letter(c) || decimal_digit(c) || c == '_'
}

/// The value of a digit in bases up to sixteen; zero for any other character.
pub open spec fn digit_value(c: char) -> nat {
    if decimal_digit(c) {
        (c as int - '0' as int) as nat
    } else if 'a' <= c && c <= 'f' {
        (c as int - 'a' as int + 10) as nat
    } else if 'A' <= c && c <= 'F' {
        (c as int - 'A' as int + 10) as nat
    } else {
        0
    }
}

/// Whether `c` is a digit of the given base: one of the sixteen digit
/// characters, with a value below the base.
pub open spec fn digit_in(c: char, base: nat) -> bool {
    hex_digit(c) && digit_value(c) < base
}

/// The character that a backslash followed by `c` stands for.
pub open spec fn unescaped(c: char) -> char {
    if c == 'n' {
        '\n'
    } else if c == 't' {
        '\t'
    } else if c == 'r' {
        '\r'
    } else {
        c
    }
}

pub fn is_letter(c: char) -> (r: bool)
    ensures
        r == letter(c),
{
    ('a' <= c && c <= 'z') || ('A' <= c && c <= 'Z')
}

pub fn is_uppercase(c: char) -> (r: bool)
    ensures
        r == uppercase(c),
{
    'A' <= c && c <= 'Z'
}

pub fn is_decimal_digit(c: char) -> (r: bool)
    ensures
        r == decimal_digit(c),
{
    '0' <= c && c <= '9'
}

pub fn is_hex_digit(c: char) -> (r: bool)
    ensures
        r == hex_digit(c),
{
    ('0' <= c && c <= '9') || ('a' <= c && c <= 'f') || ('A' <= c && c <= 'F')
}

pub fn is_word_char(c: char) -> (r: bool)
    ensures
        r == word_char(c),
{
    is_letter(c) || is_decimal_digit(c) || c == '_'
}

/// The value of `c` as a digit of `base`, if it is one.
pub fn to_digit(c: char, base: u8) -> (r: Option<u8>)
    ensures
        r is Some <==> digit_in(c, base as nat),
        r is Some ==> r->Some_0 as nat == digit_value(c),
{
    let code: u32 = c as u32;
    let value: u32 = if '0' <= c && c <= '9' {
        code - 48
    } else if 'a' <= c && c <= 'f' {
        code - 97 + 10
    } else if 'A' <= c && c <= 'F' {
        code - 65 + 10
    } else {
        return None;
    };
    if value < base as u32 {
        Some(value as u8)
    } else {
        None
    }
}

pub fn unescape(c: char) -> (r: char)
    ensures
        r == unescaped(c),
{
    if c == 'n' {
        '\n'
    } else if c == 't' {
        '\t'
    } else if c == 'r' {
        '\r'
    } else {
        c
    }
}

/// The characters of a string slice, in order.
pub fn chars_of(s: &str) -> (r: Vec<char>)
    ensures
        r@ == s@,
{
    let mut out: Vec<char> = Vec::new();
    for c in it: s.chars()
        invariant
            out@ == it.seq().take(it.index() as int),
            it.seq() == s@,
    {
        out.push(c);
    }
    out
}

/// The string made of `chars[from..to]`.
pub fn string_of(chars: &Vec<char>, from: usize, to: usize) -> (r: String)
    requires
        from <= to <= chars.len(),
    ensures
        r@ == chars@.subrange(from as int, to as int),
{
    let mut out = String::new();
    let mut i: usize = from;
    while i < to
        invariant
            from <= i <= to <= chars.len(),
            out@ == chars@.subrange(from as int, i as int),
        decreases to - i,
    {
        out.push(chars[i]);
        i += 1;
    }
    out
}

} // verus!
