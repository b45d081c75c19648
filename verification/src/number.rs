//! The texts of numeric literals: what they denote, and how they are read.

use vstd::prelude::*;
use crate::chars::{decimal_digit, digit_in, digit_value, is_decimal_digit, to_digit};
use crate::token::{FloatLiteral, FloatLiteralView};

verus! {

/// The number that a row of digits denotes in the given base, the most
/// significant digit first.
pub open spec fn digits_value(digits: Seq<char>, base: nat) -> nat
    decreases digits.len(),
{
    if digits.len() == 0 {
        0
    } else {
        digits_value(digits.drop_last(), base) * base + digit_value(digits.last())
    }
}

/// Every character is a digit of the base.
pub open spec fn all_digits(digits: Seq<char>, base: nat) -> bool {
    forall|i: int| 0 <= i < digits.len() ==> digit_in(#[trigger] digits[i], base)
}

/// Whether the text begins with a sign that the literal may carry: `+`
/// always, `-` only where negative values are allowed.
pub open spec fn has_sign(text: Seq<char>, allow_minus: bool) -> bool {
    text.len() > 0 && (text[0] == '+' || (allow_minus && text[0] == '-'))
}

/// The integer written as an optional sign followed by at least one digit.
/// `None` for any other text.
pub open spec fn integer_text(text: Seq<char>, base: nat, allow_minus: bool) -> Option<int> {
    let digits = if has_sign(text, allow_minus) {
        text.skip(1)
    } else {
        text
    };
    if digits.len() == 0 || !all_digits(digits, base) {
        None
    } else if text[0] == '-' {
        Some(-(digits_value(digits, base) as int))
    } else {
        Some(digits_value(digits, base) as int)
    }
}

/// [`integer_text`], restricted to values from `lo` to `hi`.
pub open spec fn integer_within(
    text: Seq<char>,
    base: nat,
    allow_minus: bool,
    lo: int,
    hi: int,
) -> Option<int> {
    match integer_text(text, base, allow_minus) {
        Some(v) => if lo <= v <= hi {
            Some(v)
        } else {
            None
        },
        None => None,
    }
}

/// Appending one digit multiplies the value by the base and adds the digit.
pub proof fn lemma_digits_value_step(digits: Seq<char>, k: int, base: nat)
    requires
        0 <= k < digits.len(),
    ensures
        digits_value(digits.take(k + 1), base) == digits_value(digits.take(k), base) * base
            + digit_value(digits[k]),
{
    assert(digits.take(k + 1).drop_last() =~= digits.take(k));
}

/// A prefix never denotes more than the whole row.
pub proof fn lemma_prefix_value_bound(digits: Seq<char>, k: int, base: nat)
    requires
        0 <= k <= digits.len(),
        base >= 1,
    ensures
        digits_value(digits.take(k), base) <= digits_value(digits, base),
    decreases digits.len() - k,
{
    if k < digits.len() {
        lemma_digits_value_step(digits, k, base);
        lemma_prefix_value_bound(digits, k + 1, base);
        let v = digits_value(digits.take(k), base);
        assert(v <= v * base) by (nonlinear_arith)
            requires
                base >= 1,
                v >= 0,
        ;
    } else {
        assert(digits.take(k) =~= digits);
    }
}

/// Reads `text[from..]` as a row of digits. `Some` exactly when the row is
/// not empty, holds digits of the base only and denotes a value within
/// `u64`.
pub fn parse_digits(text: &Vec<char>, from: usize, base: u8) -> (r: Option<u64>)
    requires
        from <= text.len(),
    ensures
        r is Some <==> from < text.len() && all_digits(text@.skip(from as int), base as nat)
            && digits_value(text@.skip(from as int), base as nat) <= u64::MAX,
        r is Some ==> r->Some_0 == digits_value(text@.skip(from as int), base as nat),
{
    let n: usize = text.len();
    if from >= n {
        return None;
    }
    let ghost digits = text@.skip(from as int);
    let mut acc: u64 = 0;
    let mut i: usize = from;
    while i < n
        invariant
            from <= i <= n,
            n == text.len(),
            digits == text@.skip(from as int),
            forall|j: int| 0 <= j < i - from ==> digit_in(#[trigger] digits[j], base as nat),
            acc == digits_value(digits.take(i - from), base as nat),
        decreases n - i,
    {
        let c: char = text[i];
        let ghost k: int = i - from;
        assert(digits[k] == c);
        match to_digit(c, base) {
            None => {
                return None;
            },
            Some(v) => {
                proof {
                    lemma_digits_value_step(digits, k, base as nat);
                    assert(acc * base <= 0xffff_ffff_ffff_ffff * 255) by (nonlinear_arith)
                        requires
                            acc <= 0xffff_ffff_ffff_ffff,
                            base <= 255,
                    ;
                }
                let wide: u128 = acc as u128 * base as u128 + v as u128;
                if wide > u64::MAX as u128 {
                    proof {
                        lemma_prefix_value_bound(digits, k + 1, base as nat);
                    }
                    return None;
                }
                acc = wide as u64;
            },
        }
        i += 1;
    }
    proof {
        assert(digits.take(n - from) =~= digits);
    }
    Some(acc)
}

/// Reads an optional `+` and digits as an unsigned integer, as
/// [`integer_within`] states for the range of `u64`.
pub fn parse_unsigned(text: &Vec<char>, base: u8) -> (r: Option<u64>)
    ensures
        match integer_within(text@, base as nat, false, 0, u64::MAX as int) {
            Some(v) => r == Some(v as u64),
            None => r is None,
        },
{
    let from: usize = if text.len() > 0 && text[0] == '+' {
        1
    } else {
        0
    };
    proof {
        assert(text@.skip(0) =~= text@);
    }
    parse_digits(text, from, base)
}

/// Reads an optional sign and digits as an integer from `lo` to `hi`, as
/// [`integer_within`] states.
pub fn parse_signed(text: &Vec<char>, base: u8, lo: i64, hi: i64) -> (r: Option<i64>)
    ensures
        match integer_within(text@, base as nat, true, lo as int, hi as int) {
            Some(v) => r == Some(v as i64),
            None => r is None,
        },
{
    let negative: bool = text.len() > 0 && text[0] == '-';
    let from: usize = if text.len() > 0 && (text[0] == '+' || text[0] == '-') {
        1
    } else {
        0
    };
    proof {
        assert(text@.skip(0) =~= text@);
    }
    match parse_digits(text, from, base) {
        None => None,
        Some(magnitude) => {
            let value: i128 = if negative {
                -(magnitude as i128)
            } else {
                magnitude as i128
            };
            if lo as i128 <= value && value <= hi as i128 {
                Some(value as i64)
            } else {
                None
            }
        },
    }
}

/// The end of the longest run of decimal digits that begins at `from`.
pub open spec fn digit_run_end(text: Seq<char>, from: int) -> int
    decreases text.len() - from,
{
    if 0 <= from < text.len() && decimal_digit(text[from]) {
        digit_run_end(text, from + 1)
    } else {
        from
    }
}

/// The shape of a decimal floating-point literal: digits with an optional
/// point among or after them, at least one digit in all, then optionally an
/// exponent made of `e` or `E`, an optional sign and at least one digit.
pub open spec fn decimal_float_text(text: Seq<char>) -> bool {
    let whole_end = digit_run_end(text, 0);
    let has_point = whole_end < text.len() && text[whole_end] == '.';
    let mantissa_end = if has_point {
        digit_run_end(text, whole_end + 1)
    } else {
        whole_end
    };
    let mantissa_digits = if has_point {
        mantissa_end - 1
    } else {
        whole_end
    };
    let signed = mantissa_end + 1 < text.len() && (text[mantissa_end + 1] == '+'
        || text[mantissa_end + 1] == '-');
    let exponent_start = if signed {
        mantissa_end + 2
    } else {
        mantissa_end + 1
    };
    &&& mantissa_digits >= 1
    &&& mantissa_end == text.len() || {
        &&& text[mantissa_end] == 'e' || text[mantissa_end] == 'E'
        &&& exponent_start < text.len()
        &&& digit_run_end(text, exponent_start) == text.len()
    }
}

/// The first index from `from` up to `to` at which `a` or `b` stands; `to`
/// when neither occurs there.
pub open spec fn first_of(text: Seq<char>, a: char, b: char, from: int, to: int) -> int
    decreases to - from,
{
    if 0 <= from < to <= text.len() && text[from] != a && text[from] != b {
        first_of(text, a, b, from + 1, to)
    } else {
        from
    }
}

/// The values of a row of hexadecimal digits.
pub open spec fn hex_digit_values(digits: Seq<char>) -> Seq<u8> {
    digits.map_values(|c: char| digit_value(c) as u8)
}

/// Where the mantissa of a hexadecimal literal ends: at its first `p` or
/// `P`, or at the end of the text.
pub open spec fn hex_mantissa_end(text: Seq<char>) -> int {
    first_of(text, 'p', 'P', 0, text.len() as int)
}

/// The digits of the mantissa before its first point.
pub open spec fn hex_whole_text(text: Seq<char>) -> Seq<char> {
    text.subrange(0, first_of(text, '.', '.', 0, hex_mantissa_end(text)))
}

/// The digits of the mantissa between its first point and its second, or
/// the end of the mantissa. Empty where the mantissa has no point.
pub open spec fn hex_fraction_text(text: Seq<char>) -> Seq<char> {
    let end = hex_mantissa_end(text);
    let point = first_of(text, '.', '.', 0, end);
    if point < end {
        text.subrange(point + 1, first_of(text, '.', '.', point + 1, end))
    } else {
        Seq::empty()
    }
}

/// What follows the exponent marker.
pub open spec fn hex_exponent_text(text: Seq<char>) -> Seq<char> {
    text.skip(hex_mantissa_end(text) + 1)
}

/// The parts of a hexadecimal floating-point literal (the text after `0x`).
/// It needs an exponent marker; before it an unsigned hexadecimal integer
/// within `u64`, optionally a point and hexadecimal digits; after it a signed
/// decimal integer within `i32`.
pub open spec fn hex_float_text(text: Seq<char>) -> Option<FloatLiteralView> {
    let whole = integer_within(hex_whole_text(text), 16, false, 0, u64::MAX as int);
    let exponent = integer_within(
        hex_exponent_text(text),
        10,
        true,
        i32::MIN as int,
        i32::MAX as int,
    );
    if hex_mantissa_end(text) < text.len() && whole is Some && all_digits(
        hex_fraction_text(text),
        16,
    ) && exponent is Some {
        Some(
            FloatLiteralView::Hex {
                whole: whole->Some_0 as u64,
                fraction: hex_digit_values(hex_fraction_text(text)),
                exponent: exponent->Some_0 as i32,
            },
        )
    } else {
        None
    }
}

/// Where an underscore may not stand in a numeric literal: at either end,
/// or beside one of the characters in `beside`.
pub open spec fn misplaced_underscore(raw: Seq<char>, i: int, beside: Seq<char>) -> bool {
    &&& 0 <= i < raw.len()
    &&& raw[i] == '_'
    &&& i == 0 || i == raw.len() - 1 || beside.contains(raw[i - 1]) || beside.contains(raw[i + 1])
}

/// What is kept of a numeric literal: every character but the underscore.
pub open spec fn kept() -> spec_fn(char) -> bool {
    |c: char| c != '_'
}

/// The text without its underscores.
pub open spec fn without_underscores(raw: Seq<char>) -> Seq<char> {
    raw.filter(kept())
}

/// A numeric literal with its separators checked and removed: `None` where
/// an underscore is misplaced or the first character is one of
/// `forbid_start`, else the text without its underscores.
pub open spec fn sanitized(raw: Seq<char>, forbid_start: Seq<char>, beside: Seq<char>) -> Option<
    Seq<char>,
> {
    if (exists|i: int| misplaced_underscore(raw, i, beside)) || (raw.len() > 0
        && forbid_start.contains(raw[0])) {
        None
    } else {
        Some(without_underscores(raw))
    }
}

/// Removing the underscores of a text one character longer.
pub proof fn lemma_without_underscores_step(raw: Seq<char>, k: int)
    requires
        0 <= k < raw.len(),
    ensures
        without_underscores(raw.take(k + 1)) == if raw[k] == '_' {
            without_underscores(raw.take(k))
        } else {
            without_underscores(raw.take(k)).push(raw[k])
        },
{
    reveal(Seq::filter);
    assert(raw.take(k + 1).drop_last() =~= raw.take(k));
}

/// `text[from..to]` as a vector of its own.
pub fn copy_range(text: &Vec<char>, from: usize, to: usize) -> (r: Vec<char>)
    requires
        from <= to <= text.len(),
    ensures
        r@ == text@.subrange(from as int, to as int),
{
    let mut out: Vec<char> = Vec::new();
    let mut i: usize = from;
    while i < to
        invariant
            from <= i <= to <= text.len(),
            out@ == text@.subrange(from as int, i as int),
        decreases to - i,
    {
        out.push(text[i]);
        i += 1;
    }
    out
}

/// Finds the end of the run of decimal digits that begins at `from`.
pub fn digit_run(text: &Vec<char>, from: usize) -> (end: usize)
    requires
        from <= text.len(),
    ensures
        end == digit_run_end(text@, from as int),
        from <= end <= text.len(),
{
    let mut i: usize = from;
    while i < text.len() && is_decimal_digit(text[i])
        invariant
            from <= i <= text.len(),
            digit_run_end(text@, from as int) == digit_run_end(text@, i as int),
        decreases text.len() - i,
    {
        i += 1;
    }
    i
}

/// Finds the first `a` or `b` in `text[from..to]`.
pub fn find_first(text: &Vec<char>, a: char, b: char, from: usize, to: usize) -> (at: usize)
    requires
        from <= to <= text.len(),
    ensures
        at == first_of(text@, a, b, from as int, to as int),
        from <= at <= to,
        at < to ==> text[at as int] == a || text[at as int] == b,
{
    let mut i: usize = from;
    while i < to && text[i] != a && text[i] != b
        invariant
            from <= i <= to <= text.len(),
            first_of(text@, a, b, from as int, to as int) == first_of(
                text@,
                a,
                b,
                i as int,
                to as int,
            ),
        decreases to - i,
    {
        i += 1;
    }
    i
}

/// Whether the text has the shape of a decimal floating-point literal.
pub fn is_decimal_float(text: &Vec<char>) -> (r: bool)
    ensures
        r == decimal_float_text(text@),
{
    let n: usize = text.len();
    let whole_end: usize = digit_run(text, 0);
    let has_point: bool = whole_end < n && text[whole_end] == '.';
    let mantissa_end: usize = if has_point {
        digit_run(text, whole_end + 1)
    } else {
        whole_end
    };
    let mantissa_digits: usize = if has_point {
        mantissa_end - 1
    } else {
        whole_end
    };
    if mantissa_digits < 1 {
        return false;
    }
    if mantissa_end == n {
        return true;
    }
    if text[mantissa_end] != 'e' && text[mantissa_end] != 'E' {
        return false;
    }
    let signed: bool = mantissa_end + 1 < n && (text[mantissa_end + 1] == '+' || text[mantissa_end
        + 1] == '-');
    let exponent_start: usize = if signed {
        mantissa_end + 2
    } else {
        mantissa_end + 1
    };
    exponent_start < n && digit_run(text, exponent_start) == n
}

/// Reads a row of hexadecimal digits, possibly empty, as their values.
/// `None` where some character is no such digit.
pub fn parse_hex_digits(text: &Vec<char>) -> (r: Option<Vec<u8>>)
    ensures
        r is Some <==> all_digits(text@, 16),
        r is Some ==> r->Some_0@ == hex_digit_values(text@),
{
    let mut values: Vec<u8> = Vec::new();
    let mut i: usize = 0;
    while i < text.len()
        invariant
            i <= text.len(),
            values@ == hex_digit_values(text@.take(i as int)),
            forall|j: int| 0 <= j < i ==> digit_in(#[trigger] text@[j], 16),
        decreases text.len() - i,
    {
        match to_digit(text[i], 16) {
            Some(d) => {
                values.push(d);
                proof {
                    assert(values@ =~= hex_digit_values(text@.take(i + 1)));
                }
            },
            None => {
                return None;
            },
        }
        i += 1;
    }
    proof {
        assert(text@.take(text.len() as int) =~= text@);
    }
    Some(values)
}

/// Reads the parts of a hexadecimal floating-point literal, as
/// [`hex_float_text`] states.
pub fn parse_hex_float(text: &Vec<char>) -> (r: Option<FloatLiteral>)
    ensures
        match hex_float_text(text@) {
            Some(parts) => r is Some && r->Some_0@ == parts,
            None => r is None,
        },
{
    let n: usize = text.len();
    let end: usize = find_first(text, 'p', 'P', 0, n);
    if end >= n {
        return None;
    }
    let point: usize = find_first(text, '.', '.', 0, end);
    let whole_text = copy_range(text, 0, point);
    let fraction_text = if point < end {
        let fraction_end: usize = find_first(text, '.', '.', point + 1, end);
        copy_range(text, point + 1, fraction_end)
    } else {
        Vec::new()
    };
    let exponent_text = copy_range(text, end + 1, n);
    assert(fraction_text@ == hex_fraction_text(text@));
    assert(whole_text@ == hex_whole_text(text@));
    assert(exponent_text@ == hex_exponent_text(text@));
    let whole: u64 = match parse_unsigned(&whole_text, 16) {
        Some(v) => v,
        None => {
            return None;
        },
    };
    let fraction: Vec<u8> = match parse_hex_digits(&fraction_text) {
        Some(digits) => digits,
        None => {
            return None;
        },
    };
    let exponent: i32 = match parse_signed(&exponent_text, 10, i32::MIN as i64, i32::MAX as i64) {
        Some(v) => v as i32,
        None => {
            return None;
        },
    };
    Some(FloatLiteral::Hex { whole, fraction, exponent })
}

/// What [`first_of`] finds: the result lies in the range, holds one of the
/// two characters unless it is the end of the range, and neither of them
/// stands before it.
pub proof fn lemma_first_of(text: Seq<char>, a: char, b: char, from: int, to: int)
    requires
        0 <= from <= to <= text.len(),
    ensures
        from <= first_of(text, a, b, from, to) <= to,
        first_of(text, a, b, from, to) < to ==> text[first_of(text, a, b, from, to)] == a
            || text[first_of(text, a, b, from, to)] == b,
        forall|j: int|
            from <= j < first_of(text, a, b, from, to) ==> #[trigger] text[j] != a && text[j] != b,
    decreases to - from,
{
    if from < to && text[from] != a && text[from] != b {
        lemma_first_of(text, a, b, from + 1, to);
    }
}

/// Whether `a` or `b` occurs in the text.
pub fn has_either(text: &Vec<char>, a: char, b: char) -> (r: bool)
    ensures
        r == (text@.contains(a) || text@.contains(b)),
{
    let at: usize = find_first(text, a, b, 0, text.len());
    proof {
        lemma_first_of(text@, a, b, 0, text.len() as int);
        if at < text.len() {
            assert(text@.contains(text@[at as int]));
        }
    }
    at < text.len()
}

} // verus!
