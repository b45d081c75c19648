use awh_syntax::error::LexError;
use awh_syntax::lexer::Lexer;
use awh_syntax::token::{FloatLiteral, Token};

fn tokens(text: &str) -> Vec<Token> {
    let mut lexer = Lexer::new(text);
    let mut out = Vec::new();
    loop {
        let token = lexer.next_token().expect("the text holds tokens only");
        let done = token == Token::EOF;
        out.push(token);
        if done {
            return out;
        }
    }
}

fn first(text: &str) -> Result<Token, LexError> {
    Lexer::new(text).next_token()
}

fn ident(name: &str) -> Token {
    Token::Identifier(name.to_string(), false)
}

fn decimal(text: &str) -> Token {
    Token::Float(FloatLiteral::Decimal(text.to_string()))
}

fn hex_float_value(literal: &FloatLiteral) -> f64 {
    match literal {
        FloatLiteral::Hex { whole, fraction, exponent } => {
            let mut mantissa = *whole as f64;
            for (i, digit) in fraction.iter().enumerate() {
                mantissa += *digit as f64 / 16f64.powi(i as i32 + 1);
            }
            mantissa * 2f64.powi(*exponent)
        }
        FloatLiteral::Decimal(text) => text.parse::<f64>().unwrap(),
    }
}

#[test]
fn decimal_integer_has_its_value() {
    assert_eq!(first("12345"), Ok(Token::Integer(12345)));
    assert_eq!(first("0"), Ok(Token::Integer(0)));
    assert_eq!(first("007"), Ok(Token::Integer(7)));
    assert_eq!(first("9223372036854775807"), Ok(Token::Integer(i64::MAX)));
}

#[test]
fn decimal_integer_with_separators() {
    assert_eq!(first("1_000"), Ok(Token::Integer(1000)));
    assert_eq!(first("1_2_3"), Ok(Token::Integer(123)));
    assert_eq!(first("1__0"), Ok(Token::Integer(10)));
}

#[test]
fn decimal_integer_too_large_is_malformed() {
    assert_eq!(first("9223372036854775808"), Err(LexError::MalformedNumber));
    assert_eq!(first("99999999999999999999999999"), Err(LexError::MalformedNumber));
}

#[test]
fn numeric_character_outside_ascii_is_malformed() {
    assert_eq!(first("\u{0663}"), Err(LexError::MalformedNumber));
    assert_eq!(first("1\u{00bd}"), Err(LexError::MalformedNumber));
}

#[test]
fn hex_integer_has_its_value() {
    assert_eq!(first("0xFF"), Ok(Token::Integer(255)));
    assert_eq!(first("0Xff"), Ok(Token::Integer(255)));
    assert_eq!(first("0x0"), Ok(Token::Integer(0)));
    assert_eq!(first("0x1_0"), Ok(Token::Integer(16)));
    assert_eq!(first("0x7fffffffffffffff"), Ok(Token::Integer(i64::MAX)));
}

#[test]
fn hex_integer_with_sign() {
    assert_eq!(first("0x-5"), Ok(Token::Integer(-5)));
    assert_eq!(first("0x+5"), Ok(Token::Integer(5)));
    assert_eq!(first("0x-8000000000000000"), Ok(Token::Integer(i64::MIN)));
}

#[test]
fn hex_integer_malformed() {
    assert_eq!(first("0x"), Err(LexError::MalformedNumber));
    assert_eq!(first("0x8000000000000000"), Err(LexError::MalformedNumber));
    assert_eq!(first("0x1.8"), Err(LexError::MalformedNumber));
    assert_eq!(first("0x1+2"), Err(LexError::MalformedNumber));
    assert_eq!(first("0x-"), Err(LexError::MalformedNumber));
}

#[test]
fn hex_float_parts_and_value() {
    let token = first("0x1.8p1").unwrap();
    assert_eq!(
        token,
        Token::Float(FloatLiteral::Hex { whole: 1, fraction: vec![8], exponent: 1 })
    );
    match token {
        Token::Float(literal) => assert_eq!(hex_float_value(&literal), 3.0),
        _ => unreachable!(),
    }
}

#[test]
fn hex_float_forms() {
    assert_eq!(
        first("0xAp-2"),
        Ok(Token::Float(FloatLiteral::Hex { whole: 10, fraction: vec![], exponent: -2 }))
    );
    assert_eq!(
        first("0x1.P+3"),
        Ok(Token::Float(FloatLiteral::Hex { whole: 1, fraction: vec![], exponent: 3 }))
    );
    assert_eq!(
        first("0x+f.0fp0"),
        Ok(Token::Float(FloatLiteral::Hex { whole: 15, fraction: vec![0, 15], exponent: 0 }))
    );
    assert_eq!(
        first("0x1.2.3p1"),
        Ok(Token::Float(FloatLiteral::Hex { whole: 1, fraction: vec![2], exponent: 1 }))
    );
    assert_eq!(
        first("0x1_0.8p1_0"),
        Ok(Token::Float(FloatLiteral::Hex { whole: 16, fraction: vec![8], exponent: 10 }))
    );
}

#[test]
fn hex_float_malformed() {
    assert_eq!(first("0x.8p1"), Err(LexError::MalformedNumber));
    assert_eq!(first("0x1p"), Err(LexError::MalformedNumber));
    assert_eq!(first("0x1pp1"), Err(LexError::MalformedNumber));
    assert_eq!(first("0x1p1.5"), Err(LexError::MalformedNumber));
    assert_eq!(first("0x-1p1"), Err(LexError::MalformedNumber));
    assert_eq!(first("0x1pa"), Err(LexError::MalformedNumber));
    assert_eq!(first("0x1p2147483648"), Err(LexError::MalformedNumber));
    assert_eq!(first("0x10000000000000000p0"), Err(LexError::MalformedNumber));
}

#[test]
fn hex_float_exponent_limits() {
    assert_eq!(
        first("0x1p2147483647"),
        Ok(Token::Float(FloatLiteral::Hex { whole: 1, fraction: vec![], exponent: i32::MAX }))
    );
    assert_eq!(
        first("0x1p-2147483648"),
        Ok(Token::Float(FloatLiteral::Hex { whole: 1, fraction: vec![], exponent: i32::MIN }))
    );
}

#[test]
fn decimal_float_forms() {
    assert_eq!(first("1.5"), Ok(decimal("1.5")));
    assert_eq!(first("1."), Ok(decimal("1.")));
    assert_eq!(first("1e5"), Ok(decimal("1e5")));
    assert_eq!(first("1E+5"), Ok(decimal("1E+5")));
    assert_eq!(first("2.5e-3"), Ok(decimal("2.5e-3")));
    assert_eq!(first("1_0.2_5"), Ok(decimal("10.25")));
    assert_eq!(first("1.e2"), Ok(decimal("1.e2")));
}

#[test]
fn decimal_float_text_converts() {
    match first("1_0.2_5e1").unwrap() {
        Token::Float(literal) => assert_eq!(hex_float_value(&literal), 102.5),
        _ => unreachable!(),
    }
}

#[test]
fn decimal_float_malformed() {
    assert_eq!(first("1e"), Err(LexError::MalformedNumber));
    assert_eq!(first("1e+"), Err(LexError::MalformedNumber));
    assert_eq!(first("1e5e6"), Err(LexError::MalformedNumber));
    assert_eq!(first("1e5.3"), Err(LexError::MalformedNumber));
    assert_eq!(first("1.5e"), Err(LexError::MalformedNumber));
}

#[test]
fn second_point_ends_the_literal() {
    assert_eq!(
        tokens("1.2.3"),
        vec![decimal("1.2"), Token::Dot, Token::Integer(3), Token::EOF]
    );
}

#[test]
fn misplaced_underscore_in_decimal_literal() {
    assert_eq!(first("1_"), Err(LexError::MisplacedUnderscore));
    assert_eq!(first("1_.5"), Err(LexError::MisplacedUnderscore));
    assert_eq!(first("1._5"), Err(LexError::MisplacedUnderscore));
    assert_eq!(first("1_e5"), Err(LexError::MisplacedUnderscore));
    assert_eq!(first("1e_5"), Err(LexError::MisplacedUnderscore));
    assert_eq!(first("1_E5"), Err(LexError::MisplacedUnderscore));
    assert_eq!(first("1E_5"), Err(LexError::MisplacedUnderscore));
}

#[test]
fn misplaced_underscore_in_hex_literal() {
    assert_eq!(first("0x_1"), Err(LexError::MisplacedUnderscore));
    assert_eq!(first("0x1_"), Err(LexError::MisplacedUnderscore));
    assert_eq!(first("0x1_.8p1"), Err(LexError::MisplacedUnderscore));
    assert_eq!(first("0x1._8p1"), Err(LexError::MisplacedUnderscore));
    assert_eq!(first("0x1_p1"), Err(LexError::MisplacedUnderscore));
    assert_eq!(first("0x1p_1"), Err(LexError::MisplacedUnderscore));
    assert_eq!(first("0x1_P1"), Err(LexError::MisplacedUnderscore));
    assert_eq!(first("0x1P_1"), Err(LexError::MisplacedUnderscore));
}

#[test]
fn underscore_at_the_end_of_an_identifier() {
    assert_eq!(first("foo_"), Err(LexError::MalformedIdentifier));
    assert_eq!(first("a_ b"), Err(LexError::MalformedIdentifier));
    assert_eq!(first("foo_bar"), Ok(ident("foo_bar")));
}

#[test]
fn underscore_at_the_start_of_an_identifier() {
    assert_eq!(first("_foo"), Err(LexError::MalformedIdentifier));
    assert_eq!(first("_"), Err(LexError::MalformedIdentifier));
    assert_eq!(first("__"), Err(LexError::MalformedIdentifier));
    assert_eq!(first("_foo_"), Err(LexError::MalformedIdentifier));
    assert_eq!(first("  _x"), Err(LexError::MalformedIdentifier));
    assert_eq!(first("// c\n_x"), Err(LexError::MalformedIdentifier));
    let mut lexer = Lexer::new("a _b");
    assert_eq!(lexer.next_token(), Ok(ident("a")));
    assert_eq!(lexer.next_token(), Err(LexError::MalformedIdentifier));
    let mut after = Lexer::new("+_");
    assert_eq!(after.next_token(), Ok(Token::Plus));
    assert_eq!(after.next_token(), Err(LexError::MalformedIdentifier));
}

#[test]
fn keywords_and_identifiers() {
    assert_eq!(first("let"), Ok(Token::Let));
    assert_eq!(first("print"), Ok(Token::Print));
    assert_eq!(first("lets"), Ok(ident("lets")));
    assert_eq!(first("Let"), Ok(Token::Identifier("Let".to_string(), true)));
    assert_eq!(first("prin"), Ok(ident("prin")));
    assert_eq!(first("printer"), Ok(ident("printer")));
    assert_eq!(first("x1"), Ok(ident("x1")));
    assert_eq!(first("Zed9"), Ok(Token::Identifier("Zed9".to_string(), true)));
}

#[test]
fn identifier_stops_at_other_characters() {
    assert_eq!(
        tokens("ab+cd"),
        vec![ident("ab"), Token::Plus, ident("cd"), Token::EOF]
    );
    assert_eq!(tokens("9ab"), vec![Token::Integer(9), ident("ab"), Token::EOF]);
}

#[test]
fn longest_operator_wins() {
    assert_eq!(tokens("**="), vec![Token::ExpEquals, Token::EOF]);
    assert_eq!(tokens("..="), vec![Token::IterIncl, Token::EOF]);
    assert_eq!(tokens("..."), vec![Token::Ellipsis, Token::EOF]);
    assert_eq!(tokens("**"), vec![Token::Exp, Token::EOF]);
    assert_eq!(tokens(".."), vec![Token::Iter, Token::EOF]);
    assert_eq!(tokens("*="), vec![Token::StarEquals, Token::EOF]);
    assert_eq!(tokens("* *="), vec![Token::Star, Token::StarEquals, Token::EOF]);
    assert_eq!(tokens("...."), vec![Token::Ellipsis, Token::Dot, Token::EOF]);
    assert_eq!(tokens("..=="), vec![Token::IterIncl, Token::Equals, Token::EOF]);
}

#[test]
fn two_character_operators() {
    assert_eq!(
        tokens("++ += -- -= -> /= == => <= >="),
        vec![
            Token::Increment,
            Token::PlusEquals,
            Token::Decrement,
            Token::MinusEquals,
            Token::Arrow,
            Token::SlashEquals,
            Token::EqualsEquals,
            Token::DArrow,
            Token::LessEquals,
            Token::GreaterEquals,
            Token::EOF,
        ]
    );
}

#[test]
fn single_character_tokens() {
    assert_eq!(
        tokens("+ - * / = ( ) [ ] { } < > . , : ;"),
        vec![
            Token::Plus,
            Token::Minus,
            Token::Star,
            Token::Slash,
            Token::Equals,
            Token::LParen,
            Token::RParen,
            Token::LBracket,
            Token::RBracket,
            Token::LCurly,
            Token::RCurly,
            Token::LAngle,
            Token::RAngle,
            Token::Dot,
            Token::Comma,
            Token::Colon,
            Token::Semicolon,
            Token::EOF,
        ]
    );
}

#[test]
fn unknown_character_is_a_token() {
    assert_eq!(
        tokens("a # b"),
        vec![ident("a"), Token::Unknown('#'), ident("b"), Token::EOF]
    );
    assert_eq!(tokens("\u{00e9}"), vec![Token::Unknown('\u{00e9}'), Token::EOF]);
}

#[test]
fn comments_are_transparent() {
    assert_eq!(tokens("let"), vec![Token::Let, Token::EOF]);
    assert_eq!(tokens("// comment\nlet"), tokens("let"));
    assert_eq!(tokens("/* c */ let"), tokens("let"));
    assert_eq!(tokens("/* a */ /* b */let// c"), tokens("let"));
    assert_eq!(tokens("// only a comment"), vec![Token::EOF]);
    assert_eq!(tokens("/**/"), vec![Token::EOF]);
}

#[test]
fn block_comment_ends_at_first_terminator() {
    assert_eq!(
        tokens("/* a /* b */ c */"),
        vec![ident("c"), Token::Star, Token::Slash, Token::EOF]
    );
}

#[test]
fn block_comment_without_terminator() {
    assert_eq!(tokens("/*"), vec![Token::EOF]);
    assert_eq!(tokens("/* abc"), vec![ident("c"), Token::EOF]);
    assert_eq!(tokens("/*/"), vec![Token::Slash, Token::EOF]);
}

#[test]
fn whitespace_is_skipped() {
    assert_eq!(
        tokens(" \t\r\n let \u{00a0}\u{2003} x "),
        vec![Token::Let, ident("x"), Token::EOF]
    );
}

#[test]
fn end_of_input_repeats() {
    let mut lexer = Lexer::new("x  ");
    assert_eq!(lexer.next_token(), Ok(ident("x")));
    assert_eq!(lexer.next_token(), Ok(Token::EOF));
    assert_eq!(lexer.next_token(), Ok(Token::EOF));
    assert_eq!(lexer.next_token(), Ok(Token::EOF));
    let mut empty = Lexer::new("");
    assert_eq!(empty.next_token(), Ok(Token::EOF));
    assert_eq!(empty.next_token(), Ok(Token::EOF));
}

#[test]
fn character_literals() {
    assert_eq!(first("'a'"), Ok(Token::Char('a')));
    assert_eq!(first("'\\n'"), Ok(Token::Char('\n')));
    assert_eq!(first("'\\t'"), Ok(Token::Char('\t')));
    assert_eq!(first("'\\r'"), Ok(Token::Char('\r')));
    assert_eq!(first("'\\\\'"), Ok(Token::Char('\\')));
    assert_eq!(first("'\\\"'"), Ok(Token::Char('"')));
    assert_eq!(first("'\\''"), Ok(Token::Char('\'')));
    assert_eq!(first("'\\q'"), Ok(Token::Char('q')));
    assert_eq!(first("'''"), Ok(Token::Char('\'')));
    assert_eq!(first("'\"'"), Ok(Token::Char('"')));
}

#[test]
fn character_literal_malformed() {
    assert_eq!(first("'"), Err(LexError::MalformedChar));
    assert_eq!(first("''"), Err(LexError::MalformedChar));
    assert_eq!(first("'ab'"), Err(LexError::MalformedChar));
    assert_eq!(first("'a"), Err(LexError::MalformedChar));
    assert_eq!(first("'\\n"), Err(LexError::MalformedChar));
    assert_eq!(first("'\\"), Err(LexError::IncompleteEscape));
}

#[test]
fn string_literals() {
    assert_eq!(first("\"hello\""), Ok(Token::String("hello".to_string())));
    assert_eq!(first("\"\""), Ok(Token::String(String::new())));
    assert_eq!(
        first("\"a\\nb\\tc\\rd\\\\e\\\"f\\'g\\zh\""),
        Ok(Token::String("a\nb\tc\rd\\e\"f'gzh".to_string()))
    );
    assert_eq!(
        tokens("\"a\" \"b\""),
        vec![Token::String("a".to_string()), Token::String("b".to_string()), Token::EOF]
    );
}

#[test]
fn unterminated_string_is_taken_as_it_stands() {
    assert_eq!(tokens("\"abc"), vec![Token::String("abc".to_string()), Token::EOF]);
    assert_eq!(tokens("\""), vec![Token::String(String::new()), Token::EOF]);
}

#[test]
fn string_with_incomplete_escape() {
    assert_eq!(first("\"abc\\"), Err(LexError::IncompleteEscape));
}

#[test]
fn failure_leaves_the_cursor() {
    let mut lexer = Lexer::new("x 1_ y");
    assert_eq!(lexer.next_token(), Ok(ident("x")));
    assert_eq!(lexer.next_token(), Err(LexError::MisplacedUnderscore));
    assert_eq!(lexer.next_token(), Err(LexError::MisplacedUnderscore));
}

#[test]
fn peek_looks_ahead() {
    let lexer = Lexer::new("ab");
    assert_eq!(lexer.peek(0), Some('a'));
    assert_eq!(lexer.peek(1), Some('b'));
    assert_eq!(lexer.peek(2), None);
    assert_eq!(lexer.peek(usize::MAX), None);
}

#[test]
fn advance_until_moves_behind_the_pattern() {
    let mut lexer = Lexer::new("ab*/cd");
    lexer.advance_until("*/");
    assert_eq!(lexer.peek(0), Some('c'));
    let mut none = Lexer::new("abcd");
    none.advance_until("*/");
    assert_eq!(none.peek(0), Some('d'));
    let mut line = Lexer::new("abcd");
    line.advance_until("\n");
    assert_eq!(line.peek(0), None);
}

#[test]
fn skip_whitespace_stops_at_text() {
    let mut lexer = Lexer::new("  \n x");
    lexer.skip_whitespace();
    assert_eq!(lexer.peek(0), Some('x'));
    lexer.skip_whitespace();
    assert_eq!(lexer.peek(0), Some('x'));
}

#[test]
fn sanitize_number_removes_separators() {
    let marks = ['.', 'e', 'E'];
    assert_eq!(Lexer::sanitize_number("1_000", &[], &marks), Some("1000".to_string()));
    assert_eq!(Lexer::sanitize_number("1_0.5_0", &[], &marks), Some("10.50".to_string()));
    assert_eq!(Lexer::sanitize_number("", &[], &marks), Some(String::new()));
    assert_eq!(Lexer::sanitize_number("12", &[], &marks), Some("12".to_string()));
}

#[test]
fn sanitize_number_rejects_misplaced_separators() {
    let marks = ['.', 'e', 'E'];
    assert_eq!(Lexer::sanitize_number("_1", &[], &marks), None);
    assert_eq!(Lexer::sanitize_number("1_", &[], &marks), None);
    assert_eq!(Lexer::sanitize_number("_", &[], &marks), None);
    assert_eq!(Lexer::sanitize_number("1_.5", &[], &marks), None);
    assert_eq!(Lexer::sanitize_number("1._5", &[], &marks), None);
    assert_eq!(Lexer::sanitize_number("1_e5", &[], &marks), None);
    assert_eq!(Lexer::sanitize_number("1E_5", &[], &marks), None);
    assert_eq!(Lexer::sanitize_number("1_p5", &[], &marks), Some("1p5".to_string()));
}

#[test]
fn sanitize_number_rejects_forbidden_start() {
    assert_eq!(Lexer::sanitize_number("-1", &['-'], &[]), None);
    assert_eq!(Lexer::sanitize_number("1-", &['-'], &[]), Some("1-".to_string()));
}

#[test]
fn strip_underscores_removes_all() {
    let lexer = Lexer::new("");
    assert_eq!(lexer.strip_underscores("_1__2_"), "12".to_string());
    assert_eq!(lexer.strip_underscores("abc"), "abc".to_string());
    assert_eq!(lexer.strip_underscores(""), String::new());
}

#[test]
fn tokens_compare_by_kind_and_content() {
    assert_eq!(Token::Plus, Token::Plus);
    assert_ne!(Token::Plus, Token::Minus);
    assert_ne!(ident("a"), ident("b"));
    assert_ne!(ident("a"), Token::Identifier("a".to_string(), true));
    assert_ne!(ident("a"), Token::String("a".to_string()));
    assert_ne!(Token::Integer(1), Token::Integer(2));
    assert_ne!(Token::Char('a'), Token::Unknown('a'));
    assert_eq!(decimal("1.5"), decimal("1.5"));
    assert_ne!(decimal("1.5"), decimal("1.50"));
    assert_ne!(
        Token::Float(FloatLiteral::Hex { whole: 1, fraction: vec![8], exponent: 1 }),
        Token::Float(FloatLiteral::Hex { whole: 1, fraction: vec![8, 0], exponent: 1 })
    );
    assert_ne!(
        Token::Float(FloatLiteral::Hex { whole: 1, fraction: vec![], exponent: 1 }),
        decimal("1")
    );
    assert_eq!(ident("abc").clone(), ident("abc"));
}

#[test]
fn cursor_only_moves_forward() {
    let mut lexer = Lexer::new("a /* c */ + 12");
    assert_eq!(lexer.peek(0), Some('a'));
    lexer.next_token().unwrap();
    assert_eq!(lexer.peek(0), Some(' '));
    lexer.next_token().unwrap();
    assert_eq!(lexer.peek(0), Some(' '));
    assert_eq!(lexer.peek(1), Some('1'));
    lexer.next_token().unwrap();
    assert_eq!(lexer.peek(0), None);
}

#[test]
fn underscore_at_the_start_of_a_number() {
    assert_eq!(first("_1"), Err(LexError::MalformedIdentifier));
    assert_eq!(first("_1_000"), Err(LexError::MalformedIdentifier));
    assert_eq!(first("_0x1"), Err(LexError::MalformedIdentifier));
    assert_eq!(first("_.5"), Err(LexError::MalformedIdentifier));
}

#[test]
fn integer_before_other_text() {
    assert_eq!(
        tokens("12;0x1F)0 x"),
        vec![
            Token::Integer(12),
            Token::Semicolon,
            Token::Integer(31),
            Token::RParen,
            Token::Integer(0),
            ident("x"),
            Token::EOF,
        ]
    );
}
