//! The parser: recursive descent over the tokens of a [`Lexer`], with one
//! token of lookahead.

use vstd::prelude::*;
use crate::ast::{exprs_view, stmts_view, Expr, ExprView, Operator, Stmt, StmtView};
use crate::derivation::{derives_program, lemma_program_sound};
use crate::error::ParseError;
use crate::grammar::{
    arguments,
    expression,
    expression_then,
    factor,
    factor_tail,
    lemma_expression_consumes,
    lemma_factor_consumes,
    lemma_primary_consumes,
    lemma_statement_consumes,
    let_statement,
    more_arguments,
    primary,
    print_statement,
    program,
    statement,
    statements,
    stream_from,
    term,
    term_tail,
    Parsed,
    TokenStream,
};
use crate::lexer::Lexer;
use crate::token::{Token, TokenView};

verus! {

/// A parser over the tokens of a text. It holds the token it looks at and
/// pulls the next one from its tokenizer when that token is used up.
pub struct Parser {
    lexer: Lexer,
    current: Token,
}

/// Whether a rule's outcome is the expected one: the tree that the grammar
/// gives, with the parser left at the stream behind it, or the grammar's
/// error.
pub open spec fn yields<T: View>(
    outcome: Result<T, ParseError>,
    left: TokenStream,
    expected: Parsed<T::V>,
) -> bool {
    match expected {
        Ok((tree, after)) => outcome is Ok && outcome->Ok_0@ == tree && left == after,
        Err(e) => outcome is Err && outcome->Err_0 == e,
    }
}

impl Parser {
    /// The tokens that the parser has not used yet, the current one first.
    pub closed spec fn stream(&self) -> TokenStream {
        if self.current@ is EOF {
            TokenStream { tokens: Seq::empty(), failure: None }
        } else {
            let rest = stream_from(self.lexer.source(), self.lexer.cursor());
            TokenStream { tokens: seq![self.current@] + rest.tokens, failure: rest.failure }
        }
    }

    /// A parser over what `lexer` has not handed out yet. It reads the first
    /// token at once, and fails where the text begins with none.
    pub fn new(lexer: Lexer) -> (r: Result<Self, ParseError>)
        ensures
            match stream_from(lexer.source(), lexer.cursor()).start() {
                Ok(ts) => r is Ok && r->Ok_0.stream() == ts,
                Err(e) => r is Err && r->Err_0 == e,
            },
    {
        let mut lexer = lexer;
        match lexer.next_token() {
            Ok(current) => Ok(Self { lexer, current }),
            Err(e) => Err(ParseError::Lexical(e)),
        }
    }

    /// Uses up the current token: hands it out and reads the next one. At
    /// the end of the input nothing changes.
    fn advance(&mut self) -> (r: Result<Token, ParseError>)
        ensures
            match old(self).stream().advance() {
                Ok(next) => {
                    &&& r is Ok
                    &&& r->Ok_0@ == old(self).stream().current()
                    &&& final(self).stream() == next
                },
                Err(e) => r is Err && r->Err_0 == e,
            },
    {
        if self.current == Token::EOF {
            return Ok(Token::EOF);
        }
        match self.lexer.next_token() {
            Ok(next) => {
                let mut taken: Token = next;
                std::mem::swap(&mut self.current, &mut taken);
                proof {
                    let before = old(self).stream();
                    assert(self.stream().tokens =~= before.tokens.skip(1));
                }
                Ok(taken)
            },
            Err(e) => Err(ParseError::Lexical(e)),
        }
    }

    /// Uses up the current token, which must be `expected`.
    fn expect(&mut self, expected: &Token) -> (r: Result<(), ParseError>)
        ensures
            match old(self).stream().expect(expected@) {
                Ok(next) => r is Ok && final(self).stream() == next,
                Err(e) => r is Err && r->Err_0 == e,
            },
    {
        if self.current != *expected {
            return Err(ParseError::UnexpectedToken);
        }
        match self.advance() {
            Ok(_) => Ok(()),
            Err(e) => Err(e),
        }
    }

    /// Reads statements up to the end of the input. It stops at the first
    /// failure and then hands out no statement. The statements handed out
    /// are those that the grammar derives from the tokens.
    pub fn parse(&mut self) -> (r: Result<Vec<Stmt>, ParseError>)
        ensures
            match program(old(self).stream()) {
                Ok(list) => {
                    &&& r is Ok
                    &&& stmts_view(r->Ok_0@) == list
                    &&& final(self).stream().tokens.len() == 0
                },
                Err(e) => r is Err && r->Err_0 == e,
            },
            r is Ok ==> derives_program(old(self).stream().tokens, stmts_view(r->Ok_0@)),
    {
        proof {
            lemma_program_sound(self.stream());
        }
        let mut stmts: Vec<Stmt> = Vec::new();
        proof {
            assert(stmts_view(stmts@) =~= Seq::<StmtView>::empty());
        }
        while self.current != Token::EOF
            invariant
                statements(self.stream(), stmts_view(stmts@)) == program(old(self).stream()),
            decreases self.stream().tokens.len(),
        {
            proof {
                lemma_statement_consumes(self.stream());
            }
            let ghost before = stmts_view(stmts@);
            let next: Stmt = self.parse_statement()?;
            stmts.push(next);
            proof {
                assert(stmts_view(stmts@) =~= before.push(next@));
            }
        }
        Ok(stmts)
    }

    /// Reads one statement.
    fn parse_statement(&mut self) -> (r: Result<Stmt, ParseError>)
        ensures
            yields(r, final(self).stream(), statement(old(self).stream())),
    {
        if self.current == Token::Let {
            self.parse_let()
        } else if self.current == Token::Print {
            self.parse_print()
        } else {
            let e: Expr = self.parse_expression_then(&Token::Semicolon)?;
            Ok(Stmt::Expr(e))
        }
    }

    /// Reads a `let` statement, the parser being at its keyword.
    fn parse_let(&mut self) -> (r: Result<Stmt, ParseError>)
        ensures
            yields(r, final(self).stream(), let_statement(old(self).stream())),
    {
        self.advance()?;
        let named: bool = match &self.current {
            Token::Identifier(_, _) => true,
            _ => false,
        };
        if !named {
            return Err(ParseError::ExpectedIdentifier);
        }
        let name: String = match self.advance()? {
            Token::Identifier(name, _) => name,
            _ => {
                return Err(ParseError::ExpectedIdentifier);
            },
        };
        self.expect(&Token::Equals)?;
        let init: Expr = self.parse_expression_then(&Token::Semicolon)?;
        Ok(Stmt::Let(name, init))
    }

    /// Reads a `print` statement, the parser being at its keyword.
    fn parse_print(&mut self) -> (r: Result<Stmt, ParseError>)
        ensures
            yields(r, final(self).stream(), print_statement(old(self).stream())),
    {
        self.advance()?;
        self.expect(&Token::LParen)?;
        let e: Expr = self.parse_expression_then(&Token::RParen)?;
        self.expect(&Token::Semicolon)?;
        Ok(Stmt::Print(e))
    }

    /// Reads an expression and the token that must follow it.
    fn parse_expression_then(&mut self, closing: &Token) -> (r: Result<Expr, ParseError>)
        ensures
            yields(r, final(self).stream(), expression_then(old(self).stream(), closing@)),
    {
        let e: Expr = self.parse_expression()?;
        self.expect(closing)?;
        Ok(e)
    }

    /// Reads one expression.
    fn parse_expression(&mut self) -> (r: Result<Expr, ParseError>)
        ensures
            yields(r, final(self).stream(), expression(old(self).stream())),
        decreases old(self).stream().tokens.len(), 7nat,
    {
        self.parse_term()
    }

    /// Reads factors joined by `+` and `-`, and groups them from the left.
    fn parse_term(&mut self) -> (r: Result<Expr, ParseError>)
        ensures
            yields(r, final(self).stream(), term(old(self).stream())),
        decreases old(self).stream().tokens.len(), 6nat,
    {
        proof {
            lemma_factor_consumes(self.stream());
        }
        let mut expr: Expr = self.parse_factor()?;
        while self.current == Token::Plus || self.current == Token::Minus
            invariant
                term_tail(self.stream(), expr@) == term(old(self).stream()),
                self.stream().tokens.len() <= old(self).stream().tokens.len(),
            decreases self.stream().tokens.len(),
        {
            let op: Operator = if self.current == Token::Plus {
                Operator::Plus
            } else {
                Operator::Minus
            };
            self.advance()?;
            proof {
                lemma_factor_consumes(self.stream());
            }
            let rhs: Expr = self.parse_factor()?;
            expr = Expr::Binary(Box::new(expr), op, Box::new(rhs));
        }
        Ok(expr)
    }

    /// Reads primaries joined by `*` and `/`, and groups them from the left.
    fn parse_factor(&mut self) -> (r: Result<Expr, ParseError>)
        ensures
            yields(r, final(self).stream(), factor(old(self).stream())),
        decreases old(self).stream().tokens.len(), 4nat,
    {
        proof {
            lemma_primary_consumes(self.stream());
        }
        let mut expr: Expr = self.parse_primary()?;
        while self.current == Token::Star || self.current == Token::Slash
            invariant
                factor_tail(self.stream(), expr@) == factor(old(self).stream()),
                self.stream().tokens.len() <= old(self).stream().tokens.len(),
            decreases self.stream().tokens.len(),
        {
            let op: Operator = if self.current == Token::Star {
                Operator::Star
            } else {
                Operator::Slash
            };
            self.advance()?;
            proof {
                lemma_primary_consumes(self.stream());
            }
            let rhs: Expr = self.parse_primary()?;
            expr = Expr::Binary(Box::new(expr), op, Box::new(rhs));
        }
        Ok(expr)
    }

    /// Reads the arguments of a call, up to its closing parenthesis.
    fn parse_arguments(&mut self) -> (r: Result<Vec<Expr>, ParseError>)
        ensures
            match arguments(old(self).stream()) {
                Ok((list, after)) => {
                    &&& r is Ok
                    &&& exprs_view(r->Ok_0@) == list
                    &&& final(self).stream() == after
                },
                Err(e) => r is Err && r->Err_0 == e,
            },
        decreases old(self).stream().tokens.len(), 9nat,
    {
        let mut args: Vec<Expr> = Vec::new();
        if self.current == Token::RParen {
            proof {
                assert(exprs_view(args@) =~= Seq::<ExprView>::empty());
            }
            return Ok(args);
        }
        proof {
            lemma_expression_consumes(self.stream());
        }
        let first: Expr = self.parse_expression()?;
        args.push(first);
        proof {
            assert(exprs_view(args@) =~= seq![first@]);
        }
        while self.current == Token::Comma
            invariant
                more_arguments(self.stream(), exprs_view(args@)) == arguments(old(self).stream()),
                self.stream().tokens.len() < old(self).stream().tokens.len(),
            decreases self.stream().tokens.len(),
        {
            self.advance()?;
            proof {
                lemma_expression_consumes(self.stream());
            }
            let ghost before = exprs_view(args@);
            let next: Expr = self.parse_expression()?;
            args.push(next);
            proof {
                assert(exprs_view(args@) =~= before.push(next@));
            }
        }
        Ok(args)
    }

    /// Reads a literal, a name, a call or an expression in parentheses.
    fn parse_primary(&mut self) -> (r: Result<Expr, ParseError>)
        ensures
            yields(r, final(self).stream(), primary(old(self).stream())),
        decreases old(self).stream().tokens.len(), 2nat,
    {
        let begins: bool = match &self.current {
            Token::Integer(_) => true,
            Token::Float(_) => true,
            Token::String(_) => true,
            Token::Char(_) => true,
            Token::Identifier(_, _) => true,
            Token::LParen => true,
            _ => false,
        };
        if !begins {
            return Err(ParseError::ExpectedExpression);
        }
        match self.advance()? {
            Token::Integer(n) => Ok(Expr::Integer(n)),
            Token::Float(f) => Ok(Expr::Float(f)),
            Token::String(s) => Ok(Expr::String(s)),
            Token::Char(c) => Ok(Expr::Char(c)),
            Token::Identifier(name, _) => {
                if self.current == Token::LParen {
                    self.advance()?;
                    let args: Vec<Expr> = self.parse_arguments()?;
                    self.expect(&Token::RParen)?;
                    Ok(Expr::Call(name, args))
                } else {
                    Ok(Expr::Identifier(name))
                }
            },
            Token::LParen => {
                let e: Expr = self.parse_expression()?;
                self.expect(&Token::RParen)?;
                Ok(e)
            },
            _ => Err(ParseError::ExpectedExpression),
        }
    }
}

} // verus!
