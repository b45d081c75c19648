use awh_syntax::chars::{
    chars_of, is_decimal_digit, is_hex_digit, is_letter, is_uppercase, is_word_char, string_of,
    to_digit, unescape,
};
use awh_syntax::number::{
    copy_range, digit_run, find_first, has_either, is_decimal_float, parse_digits,
    parse_hex_digits, parse_hex_float, parse_signed, parse_unsigned,
};
use awh_syntax::token::FloatLiteral;

fn chars(text: &str) -> Vec<char> {
    text.chars().collect()
}

#[test]
fn character_classes() {
    assert!(is_letter('a') && is_letter('Z') && !is_letter('1') && !is_letter('_'));
    assert!(!is_letter('\u{00e9}'));
    assert!(is_uppercase('A') && !is_uppercase('a') && !is_uppercase('1'));
    assert!(is_decimal_digit('0') && is_decimal_digit('9') && !is_decimal_digit('a'));
    assert!(is_hex_digit('f') && is_hex_digit('F') && is_hex_digit('0') && !is_hex_digit('g'));
    assert!(is_word_char('_') && is_word_char('a') && is_word_char('5') && !is_word_char('-'));
}

#[test]
fn digit_values() {
    assert_eq!(to_digit('0', 10), Some(0));
    assert_eq!(to_digit('9', 10), Some(9));
    assert_eq!(to_digit('a', 10), None);
    assert_eq!(to_digit('a', 16), Some(10));
    assert_eq!(to_digit('F', 16), Some(15));
    assert_eq!(to_digit('g', 16), None);
    assert_eq!(to_digit('/', 16), None);
}

#[test]
fn escapes() {
    assert_eq!(unescape('n'), '\n');
    assert_eq!(unescape('t'), '\t');
    assert_eq!(unescape('r'), '\r');
    assert_eq!(unescape('\\'), '\\');
    assert_eq!(unescape('x'), 'x');
}

#[test]
fn strings_and_characters_convert() {
    assert_eq!(chars_of("a\u{00e9}b"), vec!['a', '\u{00e9}', 'b']);
    assert_eq!(string_of(&chars("hello"), 1, 4), "ell".to_string());
    assert_eq!(string_of(&chars("hello"), 2, 2), String::new());
    assert_eq!(copy_range(&chars("hello"), 1, 3), vec!['e', 'l']);
}

#[test]
fn digits_are_read_in_their_base() {
    assert_eq!(parse_digits(&chars("255"), 0, 10), Some(255));
    assert_eq!(parse_digits(&chars("ff"), 0, 16), Some(255));
    assert_eq!(parse_digits(&chars("x12"), 1, 10), Some(12));
    assert_eq!(parse_digits(&chars("12"), 2, 10), None);
    assert_eq!(parse_digits(&chars("1a"), 0, 10), None);
    assert_eq!(parse_digits(&chars("18446744073709551615"), 0, 10), Some(u64::MAX));
    assert_eq!(parse_digits(&chars("18446744073709551616"), 0, 10), None);
    assert_eq!(parse_digits(&chars("0000000000000000000000001"), 0, 10), Some(1));
}

#[test]
fn unsigned_integers() {
    assert_eq!(parse_unsigned(&chars("+ff"), 16), Some(255));
    assert_eq!(parse_unsigned(&chars("ffffffffffffffff"), 16), Some(u64::MAX));
    assert_eq!(parse_unsigned(&chars("10000000000000000"), 16), None);
    assert_eq!(parse_unsigned(&chars("-1"), 16), None);
    assert_eq!(parse_unsigned(&chars("+"), 16), None);
    assert_eq!(parse_unsigned(&chars(""), 16), None);
}

#[test]
fn signed_integers() {
    assert_eq!(parse_signed(&chars("-12"), 10, i64::MIN, i64::MAX), Some(-12));
    assert_eq!(parse_signed(&chars("+12"), 10, i64::MIN, i64::MAX), Some(12));
    assert_eq!(
        parse_signed(&chars("-9223372036854775808"), 10, i64::MIN, i64::MAX),
        Some(i64::MIN)
    );
    assert_eq!(parse_signed(&chars("-9223372036854775809"), 10, i64::MIN, i64::MAX), None);
    assert_eq!(parse_signed(&chars("9223372036854775808"), 10, i64::MIN, i64::MAX), None);
    assert_eq!(parse_signed(&chars("128"), 10, -128, 127), None);
    assert_eq!(parse_signed(&chars("-128"), 10, -128, 127), Some(-128));
    assert_eq!(parse_signed(&chars("-"), 10, i64::MIN, i64::MAX), None);
    assert_eq!(parse_signed(&chars("--1"), 10, i64::MIN, i64::MAX), None);
    assert_eq!(parse_signed(&chars(""), 10, i64::MIN, i64::MAX), None);
}

#[test]
fn decimal_float_shape() {
    for good in ["1.5", "1.", ".5", "1e5", "1E-5", "1.5e+10", "007.e0"] {
        assert!(is_decimal_float(&chars(good)), "{}", good);
    }
    for bad in ["", ".", "e5", "1e", "1e+", "1.5.2", "1e5e5", "1 ", "+1.5", "1.e", "1_0.5"] {
        assert!(!is_decimal_float(&chars(bad)), "{}", bad);
    }
}

#[test]
fn decimal_float_shape_is_what_the_standard_parser_takes() {
    for text in [
        "1.5", "1.", ".5", "1e5", "1E-5", "1.5e+10", ".", "e5", "1e", "1.5.2", "1e5e5", "1.e5",
        ".5e3", "1e+5", "1e-", "1.5e+", "", "1", "007", "1e5.3", ".e5", "1.5E5", "1ee5", "1e+-5",
        "\u{0663}.5", "1.\u{0663}", "9".repeat(400).as_str(), "1e999999999999",
    ] {
        assert_eq!(is_decimal_float(&chars(text)), text.parse::<f64>().is_ok(), "{}", text);
    }
}

#[test]
fn searching() {
    assert_eq!(find_first(&chars("abcabc"), 'c', 'c', 0, 6), 2);
    assert_eq!(find_first(&chars("abcabc"), 'c', 'b', 0, 6), 1);
    assert_eq!(find_first(&chars("abcabc"), 'c', 'c', 3, 6), 5);
    assert_eq!(find_first(&chars("abcabc"), 'c', 'c', 0, 2), 2);
    assert_eq!(find_first(&chars("abcabc"), 'x', 'y', 0, 6), 6);
    assert!(has_either(&chars("1e5"), 'e', 'E'));
    assert!(has_either(&chars("1E5"), 'e', 'E'));
    assert!(!has_either(&chars("15"), 'e', 'E'));
    assert_eq!(digit_run(&chars("123a"), 0), 3);
    assert_eq!(digit_run(&chars("123a"), 3), 3);
    assert_eq!(digit_run(&chars("123"), 1), 3);
}

#[test]
fn hex_digits() {
    assert_eq!(parse_hex_digits(&chars("0aF")), Some(vec![0, 10, 15]));
    assert_eq!(parse_hex_digits(&chars("")), Some(vec![]));
    assert_eq!(parse_hex_digits(&chars("0g")), None);
}

#[test]
fn hex_float_parts() {
    assert_eq!(
        parse_hex_float(&chars("1.8p1")),
        Some(FloatLiteral::Hex { whole: 1, fraction: vec![8], exponent: 1 })
    );
    assert_eq!(
        parse_hex_float(&chars("ffP-10")),
        Some(FloatLiteral::Hex { whole: 255, fraction: vec![], exponent: -10 })
    );
    assert_eq!(parse_hex_float(&chars("1.8")), None);
    assert_eq!(parse_hex_float(&chars("p1")), None);
    assert_eq!(parse_hex_float(&chars("1.gp1")), None);
}

#[test]
fn other_bases_and_ranges() {
    assert_eq!(parse_digits(&chars("101"), 0, 2), Some(5));
    assert_eq!(parse_digits(&chars("102"), 0, 2), None);
    assert_eq!(parse_digits(&chars("17"), 0, 8), Some(15));
    assert_eq!(parse_digits(&chars("0"), 0, 0), None);
    assert_eq!(to_digit('1', 0), None);
    assert_eq!(to_digit('f', 255), Some(15));
    assert_eq!(to_digit('z', 255), None);
    assert_eq!(parse_signed(&chars("5"), 10, 10, 20), None);
    assert_eq!(parse_signed(&chars("15"), 10, 10, 20), Some(15));
    assert_eq!(parse_signed(&chars("-15"), 10, -20, -10), Some(-15));
    assert_eq!(parse_signed(&chars("-5"), 10, -20, -10), None);
    assert_eq!(parse_signed(&chars("7"), 10, 8, 7), None);
    assert_eq!(parse_signed(&chars("-0"), 10, 0, 0), Some(0));
    assert_eq!(parse_signed(&chars("18446744073709551615"), 10, i64::MIN, i64::MAX), None);
}
