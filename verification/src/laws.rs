//! Laws of the lexical grammar: what the definitions in [`crate::scan`]
//! imply for whole classes of texts.

use vstd::prelude::*;
use crate::chars::{
    decimal_digit,
    hex_digit,
    numeric,
    unescaped,
    whitespace,
    word_char,
    word_start,
};
use crate::grammar::stream_from;
use crate::error::LexError;
use crate::number::{
    digits_value,
    kept,
    lemma_without_underscores_step,
    misplaced_underscore,
    without_underscores,
};
use crate::scan::{
    after_pattern,
    comment_start,
    decimal_end,
    decimal_marks,
    hex_end,
    hex_literal_char,
    hex_marks,
    hex_prefix,
    scan,
    scan_char,
    scan_decimal,
    scan_hex,
    scan_number,
    scan_symbol,
    scan_word,
    string_rest,
    symbol2,
    symbol3,
    whitespace_end,
    word_end,
    Scanned,
};
use crate::token::TokenView;

verus! {

/// The text holds decimal digits and underscores only.
pub open spec fn digits_and_separators(s: Seq<char>) -> bool {
    forall|j: int| 0 <= j < s.len() ==> decimal_digit(#[trigger] s[j]) || s[j] == '_'
}

/// The text holds hexadecimal digits only.
pub open spec fn hex_digits_only(s: Seq<char>) -> bool {
    forall|j: int| 0 <= j < s.len() ==> hex_digit(#[trigger] s[j])
}

/// What may follow a decimal integer: nothing, or a character that does
/// not continue the literal.
pub open spec fn ends_decimal(rest: Seq<char>) -> bool {
    rest.len() == 0 || !(numeric(rest[0]) || rest[0] == '_' || rest[0] == '.' || rest[0] == 'e'
        || rest[0] == 'E')
}

/// What may follow a hexadecimal integer: nothing, or a character that does
/// not continue the literal.
pub open spec fn ends_hex(rest: Seq<char>) -> bool {
    rest.len() == 0 || !hex_literal_char(rest[0])
}

/// A decimal literal runs through digits and underscores up to the first
/// character that does not continue it.
pub proof fn lemma_decimal_end_at(s: Seq<char>, pos: int, end: int, seen_point: bool)
    requires
        0 <= pos <= end <= s.len(),
        forall|j: int| pos <= j < end ==> decimal_digit(#[trigger] s[j]) || s[j] == '_',
        ends_decimal(s.skip(end)),
    ensures
        decimal_end(s, pos, seen_point) == end,
    decreases end - pos,
{
    if pos < end {
        assert(decimal_digit(s[pos]) || s[pos] == '_');
        lemma_decimal_end_at(s, pos + 1, end, seen_point);
    } else if end < s.len() {
        assert(s.skip(end)[0] == s[end]);
    }
}

/// A hexadecimal literal runs through hexadecimal digits up to the first
/// character that does not continue it.
pub proof fn lemma_hex_end_at(s: Seq<char>, pos: int, end: int)
    requires
        0 <= pos <= end <= s.len(),
        forall|j: int| pos <= j < end ==> hex_digit(#[trigger] s[j]),
        ends_hex(s.skip(end)),
    ensures
        hex_end(s, pos) == end,
    decreases end - pos,
{
    if pos < end {
        assert(hex_digit(s[pos]));
        lemma_hex_end_at(s, pos + 1, end);
    } else if end < s.len() {
        assert(s.skip(end)[0] == s[end]);
    }
}

/// Removing the underscores of a text made of digits and underscores that
/// begins with a digit leaves digits, and at least one.
pub proof fn lemma_digits_are_left(text: Seq<char>)
    requires
        text.len() > 0,
        digits_and_separators(text),
        decimal_digit(text[0]),
    ensures
        without_underscores(text).len() > 0,
        forall|i: int|
            0 <= i < without_underscores(text).len() ==> decimal_digit(
                #[trigger] without_underscores(text)[i],
            ),
{
    let w = without_underscores(text);
    text.lemma_filter_contains(kept(), 0);
    assert forall|i: int| 0 <= i < w.len() implies decimal_digit(#[trigger] w[i]) by {
        text.lemma_filter_pred(kept(), i);
        assert(w.contains(w[i]));
        text.lemma_filter_contains_rev(kept(), w[i]);
        let j = choose|j: int| 0 <= j < text.len() && text[j] == w[i];
        assert(decimal_digit(text[j]) || text[j] == '_');
    }
}

/// A text without underscores is what is left of it when they are removed.
pub proof fn lemma_nothing_to_remove(raw: Seq<char>, k: int)
    requires
        0 <= k <= raw.len(),
        forall|j: int| 0 <= j < raw.len() ==> raw[j] != '_',
    ensures
        without_underscores(raw.take(k)) == raw.take(k),
    decreases k,
{
    if k == 0 {
        reveal(Seq::filter);
        assert(raw.take(0) =~= Seq::<char>::empty());
    } else {
        lemma_nothing_to_remove(raw, k - 1);
        lemma_without_underscores_step(raw, k - 1);
        assert(raw.take(k - 1).push(raw[k - 1]) =~= raw.take(k));
    }
}

/// A decimal integer literal stands in `s` from `p` up to `end`: digits,
/// with underscores between them or without, that denote a value within
/// `i64`, and behind them the end of the text or a character that does not
/// continue the literal.
pub open spec fn decimal_integer_at(s: Seq<char>, p: int, end: int) -> bool {
    &&& 0 <= p < end <= s.len()
    &&& digits_and_separators(s.subrange(p, end))
    &&& decimal_digit(s[p])
    &&& decimal_digit(s[end - 1])
    &&& digits_value(without_underscores(s.subrange(p, end)), 10) <= i64::MAX
    &&& ends_decimal(s.skip(end))
}

/// The value of the decimal integer literal `s[p..end]`.
pub open spec fn decimal_integer_value(s: Seq<char>, p: int, end: int) -> i64 {
    digits_value(without_underscores(s.subrange(p, end)), 10) as i64
}

/// The digits of a hexadecimal integer literal stand in `s` from `p` up to
/// `end`: hexadecimal digits that denote a value within `i64`, and behind
/// them the end of the text or a character that does not continue the
/// literal.
pub open spec fn hex_integer_at(s: Seq<char>, p: int, end: int) -> bool {
    &&& 0 <= p < end <= s.len()
    &&& hex_digits_only(s.subrange(p, end))
    &&& digits_value(s.subrange(p, end), 16) <= i64::MAX
    &&& ends_hex(s.skip(end))
}

/// The value of the hexadecimal integer literal with the digits `s[p..end]`.
pub open spec fn hex_integer_value(s: Seq<char>, p: int, end: int) -> i64 {
    digits_value(s.subrange(p, end), 16) as i64
}

/// A decimal integer literal is read as one integer token with the value
/// of its digits, and as far as the literal goes.
pub proof fn lemma_scan_decimal_integer(s: Seq<char>, p: int, end: int)
    requires
        decimal_integer_at(s, p, end),
    ensures
        scan_decimal(s, p) == Ok::<Scanned, LexError>(
            Scanned { token: TokenView::Integer(decimal_integer_value(s, p, end)), end },
        ),
{
    let literal = s.subrange(p, end);
    let w = without_underscores(literal);
    assert forall|j: int| p <= j < end implies decimal_digit(#[trigger] s[j]) || s[j] == '_' by {
        assert(s[j] == literal[j - p]);
    }
    lemma_decimal_end_at(s, p, end, false);
    assert(literal[0] == s[p]);
    assert(literal.last() == s[end - 1]);
    assert forall|i: int| !misplaced_underscore(literal, i, decimal_marks()) by {
        if 0 < i < literal.len() - 1 && literal[i] == '_' {
            assert(decimal_digit(literal[i - 1]) || literal[i - 1] == '_');
            assert(decimal_digit(literal[i + 1]) || literal[i + 1] == '_');
        }
    }
    lemma_digits_are_left(literal);
    if w.contains('.') || w.contains('e') || w.contains('E') {
        let c = if w.contains('.') {
            '.'
        } else if w.contains('e') {
            'e'
        } else {
            'E'
        };
        let k = choose|k: int| 0 <= k < w.len() && w[k] == c;
        assert(decimal_digit(w[k]));
    }
    assert(decimal_digit(w[0]));
}

/// The digits of a hexadecimal integer literal are read as one integer
/// token with their value in base sixteen, and as far as the digits go.
pub proof fn lemma_scan_hex_integer(s: Seq<char>, p: int, end: int)
    requires
        hex_integer_at(s, p, end),
    ensures
        scan_hex(s, p) == Ok::<Scanned, LexError>(
            Scanned { token: TokenView::Integer(hex_integer_value(s, p, end)), end },
        ),
{
    let digits = s.subrange(p, end);
    assert forall|j: int| p <= j < end implies hex_digit(#[trigger] s[j]) by {
        assert(s[j] == digits[j - p]);
    }
    lemma_hex_end_at(s, p, end);
    assert forall|i: int| !misplaced_underscore(digits, i, hex_marks()) by {
        if 0 <= i < digits.len() {
            assert(hex_digit(digits[i]));
        }
    }
    assert forall|j: int| 0 <= j < digits.len() implies digits[j] != '_' by {
        assert(hex_digit(digits[j]));
    }
    lemma_nothing_to_remove(digits, digits.len() as int);
    assert(digits.take(digits.len() as int) =~= digits);
    if digits.contains('p') || digits.contains('P') {
        let c = if digits.contains('p') {
            'p'
        } else {
            'P'
        };
        let k = choose|k: int| 0 <= k < digits.len() && digits[k] == c;
        assert(hex_digit(digits[k]));
    }
    assert(hex_digit(digits[0]));
}

/// Decimal digits, with underscores between them or without, are one
/// integer token, whose value is that of the digits: at the end of a text, or
/// before a character that does not continue the literal. The digits must
/// denote a value within `i64`, and `0` must not be followed by `x` or `X`.
pub proof fn lemma_decimal_integer_token(literal: Seq<char>, rest: Seq<char>)
    requires
        literal.len() > 0,
        digits_and_separators(literal),
        decimal_digit(literal.first()),
        decimal_digit(literal.last()),
        digits_value(without_underscores(literal), 10) <= i64::MAX,
        ends_decimal(rest),
        !(literal.len() == 1 && literal[0] == '0' && rest.len() > 0 && (rest[0] == 'x' || rest[0]
            == 'X')),
    ensures
        scan(literal + rest, 0) == Ok::<Scanned, LexError>(
            Scanned {
                token: TokenView::Integer(digits_value(without_underscores(literal), 10) as i64),
                end: literal.len() as int,
            },
        ),
{
    let text = literal + rest;
    let n = literal.len() as int;
    assert(text[0] == literal[0]);
    assert(whitespace_end(text, 0) == 0);
    assert(!word_start(text[0]) && numeric(text[0]));
    if n > 1 {
        assert(text[1] == literal[1]);
        assert(decimal_digit(literal[1]) || literal[1] == '_');
    } else if rest.len() > 0 {
        assert(text[1] == rest[0]);
    }
    assert(!hex_prefix(text, 0));
    assert(text.skip(n) =~= rest);
    assert(text.subrange(0, n) =~= literal);
    assert(text[n - 1] == literal[n - 1]);
    lemma_scan_decimal_integer(text, 0, n);
}

/// `0x` or `0X` and hexadecimal digits behind it are one integer token,
/// whose value is that of the digits in base sixteen: at the end of a text,
/// or before a character that does not continue the literal. The digits must
/// denote a value within `i64`.
pub proof fn lemma_hex_integer_token(marker: char, digits: Seq<char>, rest: Seq<char>)
    requires
        marker == 'x' || marker == 'X',
        digits.len() > 0,
        hex_digits_only(digits),
        digits_value(digits, 16) <= i64::MAX,
        ends_hex(rest),
    ensures
        scan(seq!['0', marker] + digits + rest, 0) == Ok::<Scanned, LexError>(
            Scanned {
                token: TokenView::Integer(digits_value(digits, 16) as i64),
                end: digits.len() as int + 2,
            },
        ),
{
    let text = seq!['0', marker] + digits + rest;
    let end = digits.len() as int + 2;
    assert(text[0] == '0' && text[1] == marker);
    assert(whitespace_end(text, 0) == 0);
    assert(!word_start(text[0]) && numeric(text[0]));
    assert(hex_prefix(text, 0));
    assert(text.skip(end) =~= rest);
    assert(text.subrange(2, end) =~= digits);
    lemma_scan_hex_integer(text, 2, end);
}

/// The text of the numeric literal at `p`, as it stands in the source:
/// behind the prefix for a hexadecimal literal.
pub open spec fn number_text(s: Seq<char>, p: int) -> Seq<char> {
    if hex_prefix(s, p) {
        s.subrange(p + 2, hex_end(s, p + 2))
    } else {
        s.subrange(p, decimal_end(s, p, false))
    }
}

/// The characters beside which the numeric literal at `p` takes no
/// underscore: the point and the exponent markers of its base.
pub open spec fn number_marks(s: Seq<char>, p: int) -> Seq<char> {
    if hex_prefix(s, p) {
        hex_marks()
    } else {
        decimal_marks()
    }
}

/// A numeric literal with an underscore at either end, or beside its point
/// or an exponent marker, is no token.
pub proof fn lemma_misplaced_underscore_rejected(s: Seq<char>, pos: int, i: int)
    requires
        0 <= pos,
        whitespace_end(s, pos) < s.len(),
        numeric(s[whitespace_end(s, pos)]),
        misplaced_underscore(
            number_text(s, whitespace_end(s, pos)),
            i,
            number_marks(s, whitespace_end(s, pos)),
        ),
    ensures
        scan(s, pos) == Err::<Scanned, LexError>(LexError::MisplacedUnderscore),
{
    let p = whitespace_end(s, pos);
    crate::scan::lemma_whitespace_end_bounds(s, pos);
    assert(!word_start(s[p]));
}

/// A word that ends with an underscore is no token.
pub proof fn lemma_trailing_underscore_rejected(s: Seq<char>, pos: int)
    requires
        0 <= pos,
        whitespace_end(s, pos) < s.len(),
        word_start(s[whitespace_end(s, pos)]),
        s[word_end(s, whitespace_end(s, pos)) - 1] == '_',
    ensures
        scan(s, pos) == Err::<Scanned, LexError>(LexError::MalformedIdentifier),
{
    let p = whitespace_end(s, pos);
    crate::scan::lemma_whitespace_end_bounds(s, pos);
    crate::scan::lemma_word_end_bounds(s, p + 1);
}

/// A word that begins with an underscore is no token: an underscore where
/// a token begins, whatever follows it, is rejected.
pub proof fn lemma_leading_underscore_rejected(s: Seq<char>, pos: int)
    requires
        0 <= pos,
        whitespace_end(s, pos) < s.len(),
        s[whitespace_end(s, pos)] == '_',
    ensures
        scan(s, pos) == Err::<Scanned, LexError>(LexError::MalformedIdentifier),
{
    let p = whitespace_end(s, pos);
    crate::scan::lemma_whitespace_end_bounds(s, pos);
    crate::scan::lemma_word_end_bounds(s, p + 1);
    assert(s.subrange(p, word_end(s, p))[0] == s[p]);
}

/// Where an operator of three characters is spelled, it is the token:
/// `**=` is never `**` and `=`, and `..=` never `..` and `=`.
pub proof fn lemma_three_character_operator(s: Seq<char>, pos: int)
    requires
        0 <= pos,
        whitespace_end(s, pos) + 2 < s.len(),
        symbol3(
            s[whitespace_end(s, pos)],
            s[whitespace_end(s, pos) + 1],
            s[whitespace_end(s, pos) + 2],
        ) is Some,
    ensures
        scan(s, pos) == Ok::<Scanned, LexError>(
            Scanned {
                token: symbol3(
                    s[whitespace_end(s, pos)],
                    s[whitespace_end(s, pos) + 1],
                    s[whitespace_end(s, pos) + 2],
                )->Some_0,
                end: whitespace_end(s, pos) + 3,
            },
        ),
{
    crate::scan::lemma_whitespace_end_bounds(s, pos);
}

/// Where an operator of two characters is spelled and none of three, it is
/// the token.
pub proof fn lemma_two_character_operator(s: Seq<char>, pos: int)
    requires
        0 <= pos,
        whitespace_end(s, pos) + 1 < s.len(),
        symbol2(s[whitespace_end(s, pos)], s[whitespace_end(s, pos) + 1]) is Some,
        !(whitespace_end(s, pos) + 2 < s.len() && symbol3(
            s[whitespace_end(s, pos)],
            s[whitespace_end(s, pos) + 1],
            s[whitespace_end(s, pos) + 2],
        ) is Some),
    ensures
        scan(s, pos) == Ok::<Scanned, LexError>(
            Scanned {
                token: symbol2(s[whitespace_end(s, pos)], s[whitespace_end(s, pos) + 1])->Some_0,
                end: whitespace_end(s, pos) + 2,
            },
        ),
{
    crate::scan::lemma_whitespace_end_bounds(s, pos);
}

/// Skipping to a pattern ends just behind its first occurrence.
pub proof fn lemma_after_pattern_found(s: Seq<char>, pos: int, pattern: Seq<char>, at: int)
    requires
        0 <= pos <= at,
        at + pattern.len() <= s.len(),
        s.subrange(at, at + pattern.len()) =~= pattern,
        forall|j: int| pos <= j < at ==> !(#[trigger] s.subrange(j, j + pattern.len()) =~= pattern),
    ensures
        after_pattern(s, pos, pattern) == at + pattern.len(),
    decreases at - pos,
{
    if pos < at {
        assert(!(s.subrange(pos, pos + pattern.len()) =~= pattern));
        lemma_after_pattern_found(s, pos + 1, pattern, at);
    }
}

/// A line comment is transparent: the token found before `//` is the token
/// found behind the line break that ends the comment.
pub proof fn lemma_line_comment_transparent(s: Seq<char>, pos: int, end: int)
    requires
        0 <= pos,
        comment_start(s, whitespace_end(s, pos), '/'),
        whitespace_end(s, pos) + 2 <= end < s.len(),
        s[end] == '\n',
        forall|j: int| whitespace_end(s, pos) + 2 <= j < end ==> s[j] != '\n',
    ensures
        scan(s, pos) == scan(s, end + 1),
{
    let p = whitespace_end(s, pos);
    let pattern = seq!['\n'];
    crate::scan::lemma_whitespace_end_bounds(s, pos);
    assert forall|j: int| p + 2 <= j < end implies !(#[trigger] s.subrange(j, j + pattern.len())
        =~= pattern) by {
        assert(s.subrange(j, j + 1)[0] == s[j]);
    }
    assert(s.subrange(end, end + 1) =~= pattern);
    lemma_after_pattern_found(s, p + 2, pattern, end);
}

/// A block comment is transparent: the token found before `/*` is the token
/// found behind the first `*/` that follows.
pub proof fn lemma_block_comment_transparent(s: Seq<char>, pos: int, end: int)
    requires
        0 <= pos,
        comment_start(s, whitespace_end(s, pos), '*'),
        whitespace_end(s, pos) + 2 <= end,
        end + 1 < s.len(),
        s[end] == '*',
        s[end + 1] == '/',
        forall|j: int|
            whitespace_end(s, pos) + 2 <= j < end ==> !(#[trigger] s[j] == '*' && s[j + 1] == '/'),
    ensures
        scan(s, pos) == scan(s, end + 2),
{
    let p = whitespace_end(s, pos);
    let pattern = seq!['*', '/'];
    crate::scan::lemma_whitespace_end_bounds(s, pos);
    assert forall|j: int| p + 2 <= j < end implies !(#[trigger] s.subrange(j, j + pattern.len())
        =~= pattern) by {
        assert(s.subrange(j, j + 2)[0] == s[j]);
        assert(s.subrange(j, j + 2)[1] == s[j + 1]);
    }
    assert(s.subrange(end, end + 2) =~= pattern);
    lemma_after_pattern_found(s, p + 2, pattern, end);
}

/// An outcome with its end position moved by `by`.
pub open spec fn moved(outcome: Result<Scanned, LexError>, by: int) -> Result<Scanned, LexError> {
    match outcome {
        Ok(scanned) => Ok(Scanned { token: scanned.token, end: scanned.end + by }),
        Err(e) => Err(e),
    }
}

/// Whitespace is skipped alike in a text and in what is left of it when
/// its first `k` characters are cut off.
pub proof fn lemma_whitespace_end_shift(s: Seq<char>, k: int, pos: int)
    requires
        0 <= k <= pos,
        k <= s.len(),
    ensures
        whitespace_end(s, pos) == whitespace_end(s.skip(k), pos - k) + k,
    decreases s.len() - pos,
{
    if pos < s.len() {
        assert(s.skip(k)[pos - k] == s[pos]);
        lemma_whitespace_end_shift(s, k, pos + 1);
    }
}

/// A pattern is found alike in a text and in what is left of it when its
/// first `k` characters are cut off.
pub proof fn lemma_after_pattern_shift(s: Seq<char>, k: int, pos: int, pattern: Seq<char>)
    requires
        0 <= k <= pos,
        k <= s.len(),
    ensures
        after_pattern(s, pos, pattern) == after_pattern(s.skip(k), pos - k, pattern) + k,
    decreases s.len() - pos,
{
    let t = s.skip(k);
    if pos + pattern.len() <= s.len() {
        assert(s.subrange(pos, pos + pattern.len()) =~= t.subrange(
            pos - k,
            pos - k + pattern.len(),
        ));
        if !(s.subrange(pos, pos + pattern.len()) =~= pattern) {
            lemma_after_pattern_shift(s, k, pos + 1, pattern);
        }
    }
}

/// A word ends alike in a text and in what is left of it when its first `k`
/// characters are cut off.
pub proof fn lemma_word_end_shift(s: Seq<char>, k: int, pos: int)
    requires
        0 <= k <= pos,
        k <= s.len(),
    ensures
        word_end(s, pos) == word_end(s.skip(k), pos - k) + k,
    decreases s.len() - pos,
{
    if pos < s.len() {
        assert(s.skip(k)[pos - k] == s[pos]);
        lemma_word_end_shift(s, k, pos + 1);
    }
}

/// A decimal literal ends alike in a text and in what is left of it when
/// its first `k` characters are cut off.
pub proof fn lemma_decimal_end_shift(s: Seq<char>, k: int, pos: int, seen_point: bool)
    requires
        0 <= k <= pos,
        k <= s.len(),
    ensures
        decimal_end(s, pos, seen_point) == decimal_end(s.skip(k), pos - k, seen_point) + k,
    decreases s.len() - pos,
{
    let t = s.skip(k);
    if pos < s.len() {
        let c = s[pos];
        assert(t[pos - k] == c);
        if numeric(c) || c == '_' {
            lemma_decimal_end_shift(s, k, pos + 1, seen_point);
        } else if c == '.' && !seen_point {
            lemma_decimal_end_shift(s, k, pos + 1, true);
        } else if c == 'e' || c == 'E' {
            if pos + 1 < s.len() {
                assert(t[pos + 1 - k] == s[pos + 1]);
            }
            if pos + 1 < s.len() && (s[pos + 1] == '+' || s[pos + 1] == '-') {
                lemma_decimal_end_shift(s, k, pos + 2, seen_point);
            } else {
                lemma_decimal_end_shift(s, k, pos + 1, seen_point);
            }
        }
    }
}

/// A hexadecimal literal ends alike in a text and in what is left of it
/// when its first `k` characters are cut off.
pub proof fn lemma_hex_end_shift(s: Seq<char>, k: int, pos: int)
    requires
        0 <= k <= pos,
        k <= s.len(),
    ensures
        hex_end(s, pos) == hex_end(s.skip(k), pos - k) + k,
    decreases s.len() - pos,
{
    if pos < s.len() {
        assert(s.skip(k)[pos - k] == s[pos]);
        lemma_hex_end_shift(s, k, pos + 1);
    }
}

/// A string literal reads alike in a text and in what is left of it when
/// its first `k` characters are cut off.
pub proof fn lemma_string_rest_shift(s: Seq<char>, k: int, pos: int, content: Seq<char>)
    requires
        0 <= k <= pos,
        k <= s.len(),
    ensures
        string_rest(s, pos, content) == moved(string_rest(s.skip(k), pos - k, content), k),
    decreases s.len() - pos,
{
    let t = s.skip(k);
    if pos < s.len() {
        assert(t[pos - k] == s[pos]);
        if s[pos] == '"' {
        } else if s[pos] == '\\' {
            if pos + 1 < s.len() {
                assert(t[pos + 1 - k] == s[pos + 1]);
                lemma_string_rest_shift(s, k, pos + 2, content.push(unescaped(s[pos + 1])));
            }
        } else {
            lemma_string_rest_shift(s, k, pos + 1, content.push(s[pos]));
        }
    }
}

/// A number reads alike in a text and in what is left of it when its first
/// `k` characters are cut off.
pub proof fn lemma_scan_number_shift(s: Seq<char>, k: int, p: int)
    requires
        0 <= k <= p < s.len(),
    ensures
        scan_number(s, p) == moved(scan_number(s.skip(k), p - k), k),
{
    let t = s.skip(k);
    assert(t[p - k] == s[p]);
    if p + 1 < s.len() {
        assert(t[p + 1 - k] == s[p + 1]);
    }
    if hex_prefix(s, p) {
        lemma_hex_end_shift(s, k, p + 2);
        crate::scan::lemma_hex_end_bounds(s, p + 2);
        let end = hex_end(s, p + 2);
        assert(s.subrange(p + 2, end) =~= t.subrange(p + 2 - k, end - k));
    } else {
        lemma_decimal_end_shift(s, k, p, false);
        crate::scan::lemma_decimal_end_bounds(s, p, false);
        let end = decimal_end(s, p, false);
        assert(s.subrange(p, end) =~= t.subrange(p - k, end - k));
    }
}

/// A word reads alike in a text and in what is left of it when its first
/// `k` characters are cut off.
pub proof fn lemma_scan_word_shift(s: Seq<char>, k: int, p: int)
    requires
        0 <= k <= p < s.len(),
    ensures
        scan_word(s, p) == moved(scan_word(s.skip(k), p - k), k),
{
    let t = s.skip(k);
    lemma_word_end_shift(s, k, p);
    crate::scan::lemma_word_end_bounds(s, p);
    let end = word_end(s, p);
    assert(s.subrange(p, end) =~= t.subrange(p - k, end - k));
}

/// A character literal reads alike in a text and in what is left of it
/// when its first `k` characters are cut off.
pub proof fn lemma_scan_char_shift(s: Seq<char>, k: int, p: int)
    requires
        0 <= k <= p < s.len(),
    ensures
        scan_char(s, p) == moved(scan_char(s.skip(k), p - k), k),
{
    let t = s.skip(k);
    if p + 1 < s.len() {
        assert(t[p + 1 - k] == s[p + 1]);
    }
    if p + 2 < s.len() {
        assert(t[p + 2 - k] == s[p + 2]);
    }
    if p + 3 < s.len() {
        assert(t[p + 3 - k] == s[p + 3]);
    }
}

/// A symbol reads alike in a text and in what is left of it when its first
/// `k` characters are cut off.
pub proof fn lemma_scan_symbol_shift(s: Seq<char>, k: int, p: int)
    requires
        0 <= k <= p < s.len(),
    ensures
        scan_symbol(s, p).token == scan_symbol(s.skip(k), p - k).token,
        scan_symbol(s, p).end == scan_symbol(s.skip(k), p - k).end + k,
{
    let t = s.skip(k);
    assert(t[p - k] == s[p]);
    if p + 1 < s.len() {
        assert(t[p + 1 - k] == s[p + 1]);
    }
    if p + 2 < s.len() {
        assert(t[p + 2 - k] == s[p + 2]);
    }
}

/// The token behind the whitespace at `pos`, where no comment begins,
/// reads alike in a text and in what is left of it when its first `k`
/// characters are cut off.
pub proof fn lemma_scan_shift_at_token(s: Seq<char>, k: int, pos: int)
    requires
        0 <= k <= pos <= s.len(),
        whitespace_end(s, pos) < s.len(),
        !comment_start(s, whitespace_end(s, pos), '/'),
        !comment_start(s, whitespace_end(s, pos), '*'),
    ensures
        scan(s, pos) == moved(scan(s.skip(k), pos - k), k),
{
    let t = s.skip(k);
    let p = whitespace_end(s, pos);
    lemma_whitespace_end_shift(s, k, pos);
    crate::scan::lemma_whitespace_end_bounds(s, pos);
    assert(t[p - k] == s[p]);
    if p + 1 < s.len() {
        assert(t[p + 1 - k] == s[p + 1]);
    }
    assert(!comment_start(t, p - k, '/'));
    assert(!comment_start(t, p - k, '*'));
    if word_start(s[p]) {
        lemma_scan_word_shift(s, k, p);
    } else if numeric(s[p]) {
        lemma_scan_number_shift(s, k, p);
    } else if s[p] == '\'' {
        lemma_scan_char_shift(s, k, p);
    } else if s[p] == '"' {
        lemma_string_rest_shift(s, k, p + 1, Seq::empty());
    } else {
        lemma_scan_symbol_shift(s, k, p);
    }
}

/// The next token of a text is the next token of what is left of the text
/// when characters before the position are cut off: it depends on nothing
/// that stands before the position.
#[verifier::rlimit(30)]
pub proof fn lemma_scan_shift(s: Seq<char>, k: int, pos: int)
    requires
        0 <= k <= pos <= s.len(),
    ensures
        scan(s, pos) == moved(scan(s.skip(k), pos - k), k),
    decreases s.len() - pos,
{
    let t = s.skip(k);
    let p = whitespace_end(s, pos);
    lemma_whitespace_end_shift(s, k, pos);
    crate::scan::lemma_whitespace_end_bounds(s, pos);
    if p < s.len() {
        let line = comment_start(s, p, '/');
        let block = comment_start(s, p, '*');
        if line || block {
            let pattern = if line {
                seq!['\n']
            } else {
                seq!['*', '/']
            };
            assert(t[p - k] == s[p]);
            assert(t[p + 1 - k] == s[p + 1]);
            assert(comment_start(t, p - k, s[p + 1]));
            lemma_after_pattern_shift(s, k, p + 2, pattern);
            crate::scan::lemma_after_pattern_bounds(s, p + 2, pattern);
            lemma_scan_shift(s, k, after_pattern(s, p + 2, pattern));
        } else {
            lemma_scan_shift_at_token(s, k, pos);
        }
    }
}

/// The tokens of a text from a position on are the tokens of what is left
/// of the text when characters before the position are cut off.
pub proof fn lemma_stream_shift(s: Seq<char>, k: int, pos: int)
    requires
        0 <= k <= pos <= s.len(),
    ensures
        stream_from(s, pos) == stream_from(s.skip(k), pos - k),
    decreases s.len() - pos,
{
    lemma_scan_shift(s, k, pos);
    crate::scan::lemma_scan_progress(s, pos);
    match scan(s, pos) {
        Ok(scanned) => {
            if !(scanned.token is EOF) {
                lemma_stream_shift(s, k, scanned.end);
            }
        },
        Err(_) => {},
    }
}

/// A line comment is invisible: a text that begins with `//`, a comment
/// without a line break, and a line break has the tokens of what follows.
pub proof fn lemma_line_comment_invisible(comment: Seq<char>, rest: Seq<char>)
    requires
        forall|j: int| 0 <= j < comment.len() ==> comment[j] != '\n',
    ensures
        stream_from(seq!['/', '/'] + comment + seq!['\n'] + rest, 0) == stream_from(rest, 0),
        scan(seq!['/', '/'] + comment + seq!['\n'] + rest, 0) == moved(
            scan(rest, 0),
            comment.len() as int + 3,
        ),
{
    let text = seq!['/', '/'] + comment + seq!['\n'] + rest;
    let end: int = comment.len() as int + 2;
    assert(text[0] == '/' && text[1] == '/');
    assert(text[end] == '\n');
    assert forall|j: int| 2 <= j < end implies text[j] != '\n' by {
        assert(text[j] == comment[j - 2]);
    }
    assert(whitespace_end(text, 0) == 0);
    lemma_line_comment_transparent(text, 0, end);
    lemma_scan_shift(text, end + 1, end + 1);
    lemma_stream_shift(text, end + 1, end + 1);
    assert(text.skip(end + 1) =~= rest);
}

/// A block comment is invisible: a text that begins with `/*`, a comment
/// that holds no `*/`, and `*/` has the tokens of what follows.
pub proof fn lemma_block_comment_invisible(comment: Seq<char>, rest: Seq<char>)
    requires
        forall|j: int|
            0 <= j && j + 1 < comment.len() ==> !(#[trigger] comment[j] == '*' && comment[j + 1]
                == '/'),
    ensures
        stream_from(seq!['/', '*'] + comment + seq!['*', '/'] + rest, 0) == stream_from(rest, 0),
        scan(seq!['/', '*'] + comment + seq!['*', '/'] + rest, 0) == moved(
            scan(rest, 0),
            comment.len() as int + 4,
        ),
{
    let text = seq!['/', '*'] + comment + seq!['*', '/'] + rest;
    let end: int = comment.len() as int + 2;
    assert(text[0] == '/' && text[1] == '*');
    assert(text[end] == '*' && text[end + 1] == '/');
    assert forall|j: int| 2 <= j < end implies !(#[trigger] text[j] == '*' && text[j + 1]
        == '/') by {
        assert(text[j] == comment[j - 2]);
        if j + 1 < end {
            assert(text[j + 1] == comment[j - 1]);
        }
    }
    assert(whitespace_end(text, 0) == 0);
    lemma_block_comment_transparent(text, 0, end);
    lemma_scan_shift(text, end + 2, end + 2);
    lemma_stream_shift(text, end + 2, end + 2);
    assert(text.skip(end + 2) =~= rest);
}

/// Skipping whitespace stops at the first character that is none: all that
/// is passed over is whitespace.
pub proof fn lemma_whitespace_end_is_first(s: Seq<char>, pos: int)
    requires
        0 <= pos <= s.len(),
    ensures
        forall|j: int| pos <= j < whitespace_end(s, pos) ==> whitespace(#[trigger] s[j]),
        whitespace_end(s, pos) < s.len() ==> !whitespace(s[whitespace_end(s, pos)]),
    decreases s.len() - pos,
{
    if pos < s.len() && whitespace(s[pos]) {
        lemma_whitespace_end_is_first(s, pos + 1);
    }
}

/// A word is as long as it can be: all of it is letters, digits and
/// underscores, and what follows it is none of these.
pub proof fn lemma_word_end_is_first(s: Seq<char>, pos: int)
    requires
        0 <= pos <= s.len(),
    ensures
        forall|j: int| pos <= j < word_end(s, pos) ==> word_char(#[trigger] s[j]),
        word_end(s, pos) < s.len() ==> !word_char(s[word_end(s, pos)]),
    decreases s.len() - pos,
{
    if pos < s.len() && word_char(s[pos]) {
        lemma_word_end_is_first(s, pos + 1);
    }
}

/// Skipping to a pattern that does not occur ends where the pattern no
/// longer fits into the text.
pub proof fn lemma_after_pattern_missing(s: Seq<char>, pos: int, pattern: Seq<char>)
    requires
        0 <= pos,
        pos + pattern.len() <= s.len() + 1,
        forall|j: int|
            pos <= j && j + pattern.len() <= s.len() ==> !(#[trigger] s.subrange(
                j,
                j + pattern.len(),
            ) =~= pattern),
    ensures
        after_pattern(s, pos, pattern) == s.len() - pattern.len() + 1,
    decreases s.len() - pos,
{
    if pos + pattern.len() <= s.len() {
        assert(!(s.subrange(pos, pos + pattern.len()) =~= pattern));
        lemma_after_pattern_missing(s, pos + 1, pattern);
    }
}

} // verus!
