//! The lexical grammar: which token begins at a position of a text, and
//! where it ends.

use vstd::prelude::*;
use crate::chars::{
    hex_digit,
    numeric,
    unescaped,
    uppercase,
    whitespace,
    word_char,
    word_start,
};
use crate::error::LexError;
use crate::number::{
    decimal_float_text,
    hex_float_text,
    integer_within,
    sanitized,
};
use crate::token::{FloatLiteralView, TokenView};

verus! {

/// A token together with the position just behind it.
pub ghost struct Scanned {
    pub token: TokenView,
    pub end: int,
}

/// The first position from `pos` on that holds no whitespace.
pub open spec fn whitespace_end(s: Seq<char>, pos: int) -> int
    decreases s.len() - pos,
{
    if 0 <= pos < s.len() && whitespace(s[pos]) {
        whitespace_end(s, pos + 1)
    } else {
        pos
    }
}

/// The position just behind the first occurrence of `pattern` that begins
/// at `pos` or later. Where there is none, the first position at which the
/// pattern no longer fits into the text (or `pos`, if that is later).
pub open spec fn after_pattern(s: Seq<char>, pos: int, pattern: Seq<char>) -> int
    decreases s.len() - pos,
{
    if pos < 0 || pos + pattern.len() > s.len() {
        pos
    } else if s.subrange(pos, pos + pattern.len()) =~= pattern {
        pos + pattern.len()
    } else {
        after_pattern(s, pos + 1, pattern)
    }
}

/// The end of the longest run of letters, digits and underscores from `pos`.
pub open spec fn word_end(s: Seq<char>, pos: int) -> int
    decreases s.len() - pos,
{
    if 0 <= pos < s.len() && word_char(s[pos]) {
        word_end(s, pos + 1)
    } else {
        pos
    }
}

/// The keyword or identifier that begins at `p`, where a letter or an
/// underscore stands. The word runs as far as letters, digits and
/// underscores go, and it is no token where it begins or ends with an
/// underscore.
pub open spec fn scan_word(s: Seq<char>, p: int) -> Result<Scanned, LexError> {
    let end = word_end(s, p);
    let word = s.subrange(p, end);
    if word.first() == '_' || word.last() == '_' {
        Err(LexError::MalformedIdentifier)
    } else if word == seq!['l', 'e', 't'] {
        Ok(Scanned { token: TokenView::Let, end })
    } else if word == seq!['p', 'r', 'i', 'n', 't'] {
        Ok(Scanned { token: TokenView::Print, end })
    } else {
        Ok(Scanned { token: TokenView::Identifier(word, uppercase(word.first())), end })
    }
}

/// The end of the decimal literal of which `pos` is the next position:
/// numeric characters and underscores; a point, unless one was seen; `e` or
/// `E`, with a sign directly behind it.
pub open spec fn decimal_end(s: Seq<char>, pos: int, seen_point: bool) -> int
    decreases s.len() - pos,
{
    if 0 <= pos < s.len() {
        let c = s[pos];
        if numeric(c) || c == '_' {
            decimal_end(s, pos + 1, seen_point)
        } else if c == '.' && !seen_point {
            decimal_end(s, pos + 1, true)
        } else if c == 'e' || c == 'E' {
            if pos + 1 < s.len() && (s[pos + 1] == '+' || s[pos + 1] == '-') {
                decimal_end(s, pos + 2, seen_point)
            } else {
                decimal_end(s, pos + 1, seen_point)
            }
        } else {
            pos
        }
    } else {
        pos
    }
}

/// The characters that stand beside no underscore in a decimal literal.
pub open spec fn decimal_marks() -> Seq<char> {
    seq!['.', 'e', 'E']
}

/// The characters that stand beside no underscore in a hexadecimal literal.
pub open spec fn hex_marks() -> Seq<char> {
    seq!['.', 'p', 'P']
}

/// A decimal literal is a float where it holds a point or an exponent
/// marker, else an integer.
pub open spec fn float_shaped(text: Seq<char>) -> bool {
    text.contains('.') || text.contains('e') || text.contains('E')
}

/// What the text of a decimal literal denotes, once its separators are
/// removed.
pub open spec fn decimal_token(text: Seq<char>) -> Option<TokenView> {
    if float_shaped(text) {
        if decimal_float_text(text) {
            Some(TokenView::Float(FloatLiteralView::Decimal(text)))
        } else {
            None
        }
    } else {
        match integer_within(text, 10, true, i64::MIN as int, i64::MAX as int) {
            Some(v) => Some(TokenView::Integer(v as i64)),
            None => None,
        }
    }
}

/// The decimal literal that begins at `p`.
pub open spec fn scan_decimal(s: Seq<char>, p: int) -> Result<Scanned, LexError> {
    let end = decimal_end(s, p, false);
    match sanitized(s.subrange(p, end), Seq::empty(), decimal_marks()) {
        None => Err(LexError::MisplacedUnderscore),
        Some(text) => match decimal_token(text) {
            Some(token) => Ok(Scanned { token, end }),
            None => Err(LexError::MalformedNumber),
        },
    }
}

/// The characters of a hexadecimal literal behind its prefix.
pub open spec fn hex_literal_char(c: char) -> bool {
    hex_digit(c) || c == '.' || c == 'p' || c == 'P' || c == '+' || c == '-' || c == '_'
}

/// The end of the longest run of [`hex_literal_char`] from `pos`.
pub open spec fn hex_end(s: Seq<char>, pos: int) -> int
    decreases s.len() - pos,
{
    if 0 <= pos < s.len() && hex_literal_char(s[pos]) {
        hex_end(s, pos + 1)
    } else {
        pos
    }
}

/// What the text of a hexadecimal literal (behind `0x`) denotes, once its
/// separators are removed: with an exponent marker a float, else an integer.
pub open spec fn hex_token(text: Seq<char>) -> Option<TokenView> {
    if text.contains('p') || text.contains('P') {
        match hex_float_text(text) {
            Some(parts) => Some(TokenView::Float(parts)),
            None => None,
        }
    } else {
        match integer_within(text, 16, true, i64::MIN as int, i64::MAX as int) {
            Some(v) => Some(TokenView::Integer(v as i64)),
            None => None,
        }
    }
}

/// The hexadecimal literal whose prefix ends at `p`.
pub open spec fn scan_hex(s: Seq<char>, p: int) -> Result<Scanned, LexError> {
    let end = hex_end(s, p);
    match sanitized(s.subrange(p, end), Seq::empty(), hex_marks()) {
        None => Err(LexError::MisplacedUnderscore),
        Some(text) => match hex_token(text) {
            Some(token) => Ok(Scanned { token, end }),
            None => Err(LexError::MalformedNumber),
        },
    }
}

/// `0x` or `0X` at `p`.
pub open spec fn hex_prefix(s: Seq<char>, p: int) -> bool {
    0 <= p && p + 1 < s.len() && s[p] == '0' && (s[p + 1] == 'x' || s[p + 1] == 'X')
}

/// The numeric literal that begins at `p`.
pub open spec fn scan_number(s: Seq<char>, p: int) -> Result<Scanned, LexError> {
    if hex_prefix(s, p) {
        scan_hex(s, p + 2)
    } else {
        scan_decimal(s, p)
    }
}

/// The character literal whose opening quote stands at `p`: one character
/// or one escape, then the closing quote.
pub open spec fn scan_char(s: Seq<char>, p: int) -> Result<Scanned, LexError> {
    if p + 1 >= s.len() {
        Err(LexError::MalformedChar)
    } else if s[p + 1] == '\\' {
        if p + 2 >= s.len() {
            Err(LexError::IncompleteEscape)
        } else if p + 3 < s.len() && s[p + 3] == '\'' {
            Ok(Scanned { token: TokenView::Char(unescaped(s[p + 2])), end: p + 4 })
        } else {
            Err(LexError::MalformedChar)
        }
    } else if p + 2 < s.len() && s[p + 2] == '\'' {
        Ok(Scanned { token: TokenView::Char(s[p + 1]), end: p + 3 })
    } else {
        Err(LexError::MalformedChar)
    }
}

/// The rest of a string literal from `pos`, `content` being what was read of
/// it so far. The literal ends behind its closing quote, or with the text.
pub open spec fn string_rest(s: Seq<char>, pos: int, content: Seq<char>) -> Result<
    Scanned,
    LexError,
>
    decreases s.len() - pos,
{
    if !(0 <= pos < s.len()) {
        Ok(Scanned { token: TokenView::String(content), end: pos })
    } else if s[pos] == '"' {
        Ok(Scanned { token: TokenView::String(content), end: pos + 1 })
    } else if s[pos] == '\\' {
        if pos + 1 < s.len() {
            string_rest(s, pos + 2, content.push(unescaped(s[pos + 1])))
        } else {
            Err(LexError::IncompleteEscape)
        }
    } else {
        string_rest(s, pos + 1, content.push(s[pos]))
    }
}

/// The string literal whose opening quote stands at `p`.
pub open spec fn scan_string(s: Seq<char>, p: int) -> Result<Scanned, LexError> {
    string_rest(s, p + 1, Seq::empty())
}

/// The operators that are three characters long.
pub open spec fn symbol3(a: char, b: char, c: char) -> Option<TokenView> {
    if a == '*' && b == '*' && c == '=' {
        Some(TokenView::ExpEquals)
    } else if a == '.' && b == '.' && c == '.' {
        Some(TokenView::Ellipsis)
    } else if a == '.' && b == '.' && c == '=' {
        Some(TokenView::IterIncl)
    } else {
        None
    }
}

/// The operators that are two characters long.
pub open spec fn symbol2(a: char, b: char) -> Option<TokenView> {
    if a == '+' && b == '+' {
        Some(TokenView::Increment)
    } else if a == '+' && b == '=' {
        Some(TokenView::PlusEquals)
    } else if a == '-' && b == '-' {
        Some(TokenView::Decrement)
    } else if a == '-' && b == '=' {
        Some(TokenView::MinusEquals)
    } else if a == '-' && b == '>' {
        Some(TokenView::Arrow)
    } else if a == '*' && b == '*' {
        Some(TokenView::Exp)
    } else if a == '*' && b == '=' {
        Some(TokenView::StarEquals)
    } else if a == '/' && b == '=' {
        Some(TokenView::SlashEquals)
    } else if a == '=' && b == '=' {
        Some(TokenView::EqualsEquals)
    } else if a == '=' && b == '>' {
        Some(TokenView::DArrow)
    } else if a == '<' && b == '=' {
        Some(TokenView::LessEquals)
    } else if a == '>' && b == '=' {
        Some(TokenView::GreaterEquals)
    } else if a == '.' && b == '.' {
        Some(TokenView::Iter)
    } else {
        None
    }
}

/// The operators, punctuation marks and brackets of one character.
pub open spec fn symbol1(a: char) -> Option<TokenView> {
    if a == '+' {
        Some(TokenView::Plus)
    } else if a == '-' {
        Some(TokenView::Minus)
    } else if a == '*' {
        Some(TokenView::Star)
    } else if a == '/' {
        Some(TokenView::Slash)
    } else if a == '=' {
        Some(TokenView::Equals)
    } else if a == '(' {
        Some(TokenView::LParen)
    } else if a == ')' {
        Some(TokenView::RParen)
    } else if a == '[' {
        Some(TokenView::LBracket)
    } else if a == ']' {
        Some(TokenView::RBracket)
    } else if a == '{' {
        Some(TokenView::LCurly)
    } else if a == '}' {
        Some(TokenView::RCurly)
    } else if a == '<' {
        Some(TokenView::LAngle)
    } else if a == '>' {
        Some(TokenView::RAngle)
    } else if a == '.' {
        Some(TokenView::Dot)
    } else if a == ',' {
        Some(TokenView::Comma)
    } else if a == ':' {
        Some(TokenView::Colon)
    } else if a == ';' {
        Some(TokenView::Semicolon)
    } else {
        None
    }
}

/// The symbol at `p`: the longest operator that is spelled there; a single
/// character that begins none is a token of its own kind.
pub open spec fn scan_symbol(s: Seq<char>, p: int) -> Scanned {
    if p + 2 < s.len() && symbol3(s[p], s[p + 1], s[p + 2]) is Some {
        Scanned { token: symbol3(s[p], s[p + 1], s[p + 2])->Some_0, end: p + 3 }
    } else if p + 1 < s.len() && symbol2(s[p], s[p + 1]) is Some {
        Scanned { token: symbol2(s[p], s[p + 1])->Some_0, end: p + 2 }
    } else if symbol1(s[p]) is Some {
        Scanned { token: symbol1(s[p])->Some_0, end: p + 1 }
    } else {
        Scanned { token: TokenView::Unknown(s[p]), end: p + 1 }
    }
}

/// A comment begins at `p`: a slash followed by `second`.
pub open spec fn comment_start(s: Seq<char>, p: int, second: char) -> bool {
    0 <= p && p + 1 < s.len() && s[p] == '/' && s[p + 1] == second
}

/// The next token of `s` from `pos` on. Whitespace and comments before it
/// are passed over; behind the last token stands the end-of-input token.
pub open spec fn scan(s: Seq<char>, pos: int) -> Result<Scanned, LexError>
    decreases s.len() - pos,
    via scan_terminates
{
    let p = whitespace_end(s, pos);
    if !(0 <= p < s.len()) {
        Ok(Scanned { token: TokenView::EOF, end: p })
    } else if word_start(s[p]) {
        scan_word(s, p)
    } else if numeric(s[p]) {
        scan_number(s, p)
    } else if comment_start(s, p, '/') {
        scan(s, after_pattern(s, p + 2, seq!['\n']))
    } else if comment_start(s, p, '*') {
        scan(s, after_pattern(s, p + 2, seq!['*', '/']))
    } else if s[p] == '\'' {
        scan_char(s, p)
    } else if s[p] == '"' {
        scan_string(s, p)
    } else {
        Ok(scan_symbol(s, p))
    }
}

#[via_fn]
proof fn scan_terminates(s: Seq<char>, pos: int) {
    let p = whitespace_end(s, pos);
    lemma_whitespace_end_bounds(s, pos);
    lemma_after_pattern_bounds(s, p + 2, seq!['\n']);
    lemma_after_pattern_bounds(s, p + 2, seq!['*', '/']);
}

/// Skipping whitespace moves forward, and not beyond the text.
pub proof fn lemma_whitespace_end_bounds(s: Seq<char>, pos: int)
    ensures
        pos <= whitespace_end(s, pos),
        0 <= pos <= s.len() ==> whitespace_end(s, pos) <= s.len(),
        0 <= whitespace_end(s, pos) < s.len() ==> !whitespace(s[whitespace_end(s, pos)]),
    decreases s.len() - pos,
{
    if 0 <= pos < s.len() && whitespace(s[pos]) {
        lemma_whitespace_end_bounds(s, pos + 1);
    }
}

/// Skipping to a pattern moves forward, and not beyond the text.
pub proof fn lemma_after_pattern_bounds(s: Seq<char>, pos: int, pattern: Seq<char>)
    ensures
        pos <= after_pattern(s, pos, pattern),
        0 <= pos <= s.len() ==> after_pattern(s, pos, pattern) <= s.len(),
    decreases s.len() - pos,
{
    if !(pos < 0 || pos + pattern.len() > s.len()) && !(s.subrange(pos, pos + pattern.len())
        =~= pattern) {
        lemma_after_pattern_bounds(s, pos + 1, pattern);
    }
}

/// A word ends behind its beginning, and within the text.
pub proof fn lemma_word_end_bounds(s: Seq<char>, pos: int)
    ensures
        pos <= word_end(s, pos),
        0 <= pos <= s.len() ==> word_end(s, pos) <= s.len(),
    decreases s.len() - pos,
{
    if 0 <= pos < s.len() && word_char(s[pos]) {
        lemma_word_end_bounds(s, pos + 1);
    }
}

/// A decimal literal ends behind its beginning, and within the text.
pub proof fn lemma_decimal_end_bounds(s: Seq<char>, pos: int, seen_point: bool)
    ensures
        pos <= decimal_end(s, pos, seen_point),
        0 <= pos <= s.len() ==> decimal_end(s, pos, seen_point) <= s.len(),
    decreases s.len() - pos,
{
    if 0 <= pos < s.len() {
        let c = s[pos];
        if numeric(c) || c == '_' {
            lemma_decimal_end_bounds(s, pos + 1, seen_point);
        } else if c == '.' && !seen_point {
            lemma_decimal_end_bounds(s, pos + 1, true);
        } else if c == 'e' || c == 'E' {
            if pos + 1 < s.len() && (s[pos + 1] == '+' || s[pos + 1] == '-') {
                lemma_decimal_end_bounds(s, pos + 2, seen_point);
            } else {
                lemma_decimal_end_bounds(s, pos + 1, seen_point);
            }
        }
    }
}

/// A hexadecimal literal ends behind its beginning, and within the text.
pub proof fn lemma_hex_end_bounds(s: Seq<char>, pos: int)
    ensures
        pos <= hex_end(s, pos),
        0 <= pos <= s.len() ==> hex_end(s, pos) <= s.len(),
    decreases s.len() - pos,
{
    if 0 <= pos < s.len() && hex_literal_char(s[pos]) {
        lemma_hex_end_bounds(s, pos + 1);
    }
}

/// A string literal ends within the text, and is a string token.
pub proof fn lemma_string_rest_bounds(s: Seq<char>, pos: int, content: Seq<char>)
    requires
        0 <= pos <= s.len(),
    ensures
        string_rest(s, pos, content) is Ok ==> {
            let scanned = string_rest(s, pos, content)->Ok_0;
            pos <= scanned.end <= s.len() && scanned.token is String
        },
    decreases s.len() - pos,
{
    if pos < s.len() && s[pos] != '"' {
        if s[pos] == '\\' {
            if pos + 1 < s.len() {
                lemma_string_rest_bounds(s, pos + 2, content.push(unescaped(s[pos + 1])));
            }
        } else {
            lemma_string_rest_bounds(s, pos + 1, content.push(s[pos]));
        }
    }
}

/// Every token lies within the text and behind the position it was asked
/// for; every token but the end of the input is at least one character
/// long; and the end of the input is only found at the end of the text.
pub proof fn lemma_scan_progress(s: Seq<char>, pos: int)
    requires
        0 <= pos <= s.len(),
    ensures
        scan(s, pos) is Ok ==> {
            let scanned = scan(s, pos)->Ok_0;
            &&& pos <= scanned.end <= s.len()
            &&& scanned.token is EOF ==> scanned.end == s.len()
            &&& !(scanned.token is EOF) ==> pos < scanned.end
        },
    decreases s.len() - pos,
{
    let p = whitespace_end(s, pos);
    lemma_whitespace_end_bounds(s, pos);
    if p < s.len() {
        if word_start(s[p]) {
            lemma_word_end_bounds(s, p + 1);
        } else if numeric(s[p]) {
            if hex_prefix(s, p) {
                lemma_hex_end_bounds(s, p + 2);
            } else {
                lemma_decimal_end_bounds(s, p + 1, false);
            }
        } else if comment_start(s, p, '/') {
            lemma_after_pattern_bounds(s, p + 2, seq!['\n']);
            lemma_scan_progress(s, after_pattern(s, p + 2, seq!['\n']));
        } else if comment_start(s, p, '*') {
            lemma_after_pattern_bounds(s, p + 2, seq!['*', '/']);
            lemma_scan_progress(s, after_pattern(s, p + 2, seq!['*', '/']));
        } else if s[p] == '\'' {
        } else if s[p] == '"' {
            lemma_string_rest_bounds(s, p + 1, Seq::empty());
        } else {
        }
    }
}

/// At the end of the input, asking again gives the end of the input again.
pub proof fn lemma_end_of_input_repeats(s: Seq<char>, pos: int)
    requires
        0 <= pos <= s.len(),
        scan(s, pos) is Ok,
        scan(s, pos)->Ok_0.token is EOF,
    ensures
        scan(s, scan(s, pos)->Ok_0.end) == scan(s, pos),
{
    lemma_scan_progress(s, pos);
}

} // verus!
