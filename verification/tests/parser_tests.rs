use awh_syntax::ast::{Expr, Operator, Stmt};
use awh_syntax::error::{LexError, ParseError};
use awh_syntax::lexer::Lexer;
use awh_syntax::parser::Parser;
use awh_syntax::token::FloatLiteral;

fn parse(text: &str) -> Result<Vec<Stmt>, ParseError> {
    let mut parser = Parser::new(Lexer::new(text))?;
    parser.parse()
}

fn num(n: i64) -> Expr {
    Expr::Integer(n)
}

fn name(text: &str) -> Expr {
    Expr::Identifier(text.to_string())
}

fn binary(left: Expr, op: Operator, right: Expr) -> Expr {
    Expr::Binary(Box::new(left), op, Box::new(right))
}

#[test]
fn product_binds_tighter_than_sum() {
    assert_eq!(
        parse("let x = 1 + 2 * 3;"),
        Ok(vec![Stmt::Let(
            "x".to_string(),
            binary(num(1), Operator::Plus, binary(num(2), Operator::Star, num(3))),
        )])
    );
    assert_eq!(
        parse("1 * 2 + 3;"),
        Ok(vec![Stmt::Expr(binary(
            binary(num(1), Operator::Star, num(2)),
            Operator::Plus,
            num(3),
        ))])
    );
}

#[test]
fn print_of_a_call() {
    assert_eq!(
        parse("print(foo(1, 2));"),
        Ok(vec![Stmt::Print(Expr::Call("foo".to_string(), vec![num(1), num(2)]))])
    );
}

#[test]
fn missing_operand_fails() {
    assert_eq!(parse("1 + ;"), Err(ParseError::ExpectedExpression));
    assert_eq!(parse("1 * ;"), Err(ParseError::ExpectedExpression));
    assert_eq!(parse("let x = 1; 1 + ;"), Err(ParseError::ExpectedExpression));
}

#[test]
fn operators_group_from_the_left() {
    assert_eq!(
        parse("1 - 2 - 3;"),
        Ok(vec![Stmt::Expr(binary(
            binary(num(1), Operator::Minus, num(2)),
            Operator::Minus,
            num(3),
        ))])
    );
    assert_eq!(
        parse("8 / 4 / 2;"),
        Ok(vec![Stmt::Expr(binary(
            binary(num(8), Operator::Slash, num(4)),
            Operator::Slash,
            num(2),
        ))])
    );
}

#[test]
fn parentheses_group() {
    assert_eq!(
        parse("(1 + 2) * 3;"),
        Ok(vec![Stmt::Expr(binary(
            binary(num(1), Operator::Plus, num(2)),
            Operator::Star,
            num(3),
        ))])
    );
    assert_eq!(parse("((7));"), Ok(vec![Stmt::Expr(num(7))]));
}

#[test]
fn literals_and_names() {
    assert_eq!(
        parse("x; 'c'; \"s\"; 1.5; 0x1.8p1;"),
        Ok(vec![
            Stmt::Expr(name("x")),
            Stmt::Expr(Expr::Char('c')),
            Stmt::Expr(Expr::String("s".to_string())),
            Stmt::Expr(Expr::Float(FloatLiteral::Decimal("1.5".to_string()))),
            Stmt::Expr(Expr::Float(FloatLiteral::Hex {
                whole: 1,
                fraction: vec![8],
                exponent: 1,
            })),
        ])
    );
}

#[test]
fn calls() {
    assert_eq!(
        parse("f();"),
        Ok(vec![Stmt::Expr(Expr::Call("f".to_string(), vec![]))])
    );
    assert_eq!(
        parse("f(g(x), 1 + 2, (3));"),
        Ok(vec![Stmt::Expr(Expr::Call(
            "f".to_string(),
            vec![
                Expr::Call("g".to_string(), vec![name("x")]),
                binary(num(1), Operator::Plus, num(2)),
                num(3),
            ],
        ))])
    );
}

#[test]
fn malformed_calls() {
    assert_eq!(parse("f(1,);"), Err(ParseError::ExpectedExpression));
    assert_eq!(parse("f(1 2);"), Err(ParseError::UnexpectedToken));
    assert_eq!(parse("f(1;"), Err(ParseError::UnexpectedToken));
    assert_eq!(parse("f("), Err(ParseError::ExpectedExpression));
}

#[test]
fn empty_program() {
    assert_eq!(parse(""), Ok(vec![]));
    assert_eq!(parse("  // nothing\n"), Ok(vec![]));
}

#[test]
fn several_statements() {
    assert_eq!(
        parse("let a = 1;\nprint(a);\na;"),
        Ok(vec![
            Stmt::Let("a".to_string(), num(1)),
            Stmt::Print(name("a")),
            Stmt::Expr(name("a")),
        ])
    );
}

#[test]
fn missing_semicolon_fails() {
    assert_eq!(parse("1"), Err(ParseError::UnexpectedToken));
    assert_eq!(parse("let x = 1"), Err(ParseError::UnexpectedToken));
    assert_eq!(parse("print(1)"), Err(ParseError::UnexpectedToken));
    assert_eq!(parse("1 2;"), Err(ParseError::UnexpectedToken));
}

#[test]
fn malformed_let_fails() {
    assert_eq!(parse("let = 1;"), Err(ParseError::ExpectedIdentifier));
    assert_eq!(parse("let 1 = 1;"), Err(ParseError::ExpectedIdentifier));
    assert_eq!(parse("let"), Err(ParseError::ExpectedIdentifier));
    assert_eq!(parse("let x 1;"), Err(ParseError::UnexpectedToken));
    assert_eq!(parse("let x = ;"), Err(ParseError::ExpectedExpression));
}

#[test]
fn malformed_print_fails() {
    assert_eq!(parse("print 1;"), Err(ParseError::UnexpectedToken));
    assert_eq!(parse("print(1;"), Err(ParseError::UnexpectedToken));
    assert_eq!(parse("print();"), Err(ParseError::ExpectedExpression));
}

#[test]
fn mismatched_parenthesis_fails() {
    assert_eq!(parse("(1;"), Err(ParseError::UnexpectedToken));
    assert_eq!(parse("1);"), Err(ParseError::UnexpectedToken));
    assert_eq!(parse(");"), Err(ParseError::ExpectedExpression));
}

#[test]
fn tokens_outside_the_grammar_fail() {
    assert_eq!(parse("-1;"), Err(ParseError::ExpectedExpression));
    assert_eq!(parse("1 ** 2;"), Err(ParseError::UnexpectedToken));
    assert_eq!(parse("#;"), Err(ParseError::ExpectedExpression));
}

#[test]
fn lexical_failure_is_reported() {
    assert_eq!(parse("'ab'"), Err(ParseError::Lexical(LexError::MalformedChar)));
    assert_eq!(parse("1 + 2_;"), Err(ParseError::Lexical(LexError::MisplacedUnderscore)));
    assert_eq!(parse("let x = 1; y_;"), Err(ParseError::Lexical(LexError::MalformedIdentifier)));
    assert_eq!(parse("let _x = 1;"), Err(ParseError::Lexical(LexError::MalformedIdentifier)));
    assert_eq!(parse("_x;"), Err(ParseError::Lexical(LexError::MalformedIdentifier)));
    assert_eq!(parse("f(_);"), Err(ParseError::Lexical(LexError::MalformedIdentifier)));
    assert_eq!(parse("f(1e);"), Err(ParseError::Lexical(LexError::MalformedNumber)));
    assert_eq!(parse("\"a\\"), Err(ParseError::Lexical(LexError::IncompleteEscape)));
}

#[test]
fn first_failure_in_order_wins() {
    assert_eq!(parse("1 + ; 'ab'"), Err(ParseError::ExpectedExpression));
    assert_eq!(parse("1 'ab'"), Err(ParseError::Lexical(LexError::MalformedChar)));
}

#[test]
fn parser_starts_where_the_lexer_stands() {
    let mut lexer = Lexer::new("let x = 1; y;");
    for _ in 0..5 {
        lexer.next_token().unwrap();
    }
    let mut parser = Parser::new(lexer).unwrap();
    assert_eq!(parser.parse(), Ok(vec![Stmt::Expr(name("y"))]));
    assert_eq!(parser.parse(), Ok(vec![]));
}

#[test]
fn trees_can_be_copied() {
    let stmts = parse("let x = f(1, 2.5) * (y - 'c');").unwrap();
    let copy = stmts.clone();
    assert_eq!(copy, stmts);
    let call = Expr::Call("f".to_string(), vec![num(1), name("a")]);
    assert_eq!(call.clone(), call);
    let literal = FloatLiteral::Hex { whole: 3, fraction: vec![1, 2], exponent: -4 };
    assert_eq!(literal.clone(), literal);
    let negated = Expr::Unary(Operator::Minus, Box::new(num(1)));
    assert_eq!(negated.clone(), negated);
}
