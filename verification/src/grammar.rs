//! The grammar of statements and expressions, over streams of tokens.
//!
//! ```text
//! statement   := 'let' IDENT '=' expression ';'
//!              | 'print' '(' expression ')' ';'
//!              | expression ';'
//! expression  := term
//! term        := factor ( ('+'|'-') factor )*
//! factor      := primary ( ('*'|'/') primary )*
//! primary     := INTEGER | FLOAT | STRING | CHAR
//!              | IDENT ( '(' ( expression (',' expression)* )? ')' )?
//!              | '(' expression ')'
//! ```
//!
//! Each rule is a function from a stream to the tree it reads and the stream
//! that is left. The repeating rules compare the lengths of two streams
//! before they go round again, which makes the definitions well-founded; the
//! lemmas at the end of this file show that the comparison never fails.

use vstd::prelude::*;
use crate::ast::{ExprView, Operator, StmtView};
use crate::error::{LexError, ParseError};
use crate::scan::{lemma_scan_progress, scan};
use crate::token::TokenView;

verus! {

/// The tokens that a text still holds, up to the end of the input or to the
/// first piece of text that is no token. The end-of-input token is not part
/// of `tokens`; `failure` tells why the tokens end early, if they do.
pub ghost struct TokenStream {
    pub tokens: Seq<TokenView>,
    pub failure: Option<LexError>,
}

/// A tree, and the stream behind the tokens it was read from.
pub type Parsed<T> = Result<(T, TokenStream), ParseError>;

impl TokenStream {
    /// The token that the parser looks at.
    pub open spec fn current(self) -> TokenView {
        if self.tokens.len() > 0 {
            self.tokens[0]
        } else {
            TokenView::EOF
        }
    }

    /// The stream as a parser may begin with it: the first token must be one.
    pub open spec fn start(self) -> Result<TokenStream, ParseError> {
        if self.tokens.len() == 0 && self.failure is Some {
            Err(ParseError::Lexical(self.failure->Some_0))
        } else {
            Ok(self)
        }
    }

    /// The stream behind the current token. Going on needs a next token, so
    /// it fails where the text behind the current token is none.
    pub open spec fn advance(self) -> Result<TokenStream, ParseError> {
        if self.tokens.len() == 0 {
            Ok(self)
        } else if self.tokens.len() == 1 && self.failure is Some {
            Err(ParseError::Lexical(self.failure->Some_0))
        } else {
            Ok(TokenStream { tokens: self.tokens.skip(1), failure: self.failure })
        }
    }

    /// The stream behind the current token, which must be `token`.
    pub open spec fn expect(self, token: TokenView) -> Result<TokenStream, ParseError> {
        if self.current() == token {
            self.advance()
        } else {
            Err(ParseError::UnexpectedToken)
        }
    }
}

/// The tokens of `s` from `pos` on.
pub open spec fn stream_from(s: Seq<char>, pos: int) -> TokenStream
    decreases s.len() - pos,
    via stream_from_terminates
{
    if !(0 <= pos <= s.len()) {
        TokenStream { tokens: Seq::empty(), failure: None }
    } else {
        match scan(s, pos) {
            Err(e) => TokenStream { tokens: Seq::empty(), failure: Some(e) },
            Ok(scanned) => if scanned.token is EOF {
                TokenStream { tokens: Seq::empty(), failure: None }
            } else {
                let rest = stream_from(s, scanned.end);
                TokenStream { tokens: seq![scanned.token] + rest.tokens, failure: rest.failure }
            },
        }
    }
}

#[via_fn]
proof fn stream_from_terminates(s: Seq<char>, pos: int) {
    if 0 <= pos <= s.len() {
        lemma_scan_progress(s, pos);
    }
}

/// The operator of a sum, if the token is one.
pub open spec fn additive(token: TokenView) -> Option<Operator> {
    match token {
        TokenView::Plus => Some(Operator::Plus),
        TokenView::Minus => Some(Operator::Minus),
        _ => None,
    }
}

/// The operator of a product, if the token is one.
pub open spec fn multiplicative(token: TokenView) -> Option<Operator> {
    match token {
        TokenView::Star => Some(Operator::Star),
        TokenView::Slash => Some(Operator::Slash),
        _ => None,
    }
}

/// `primary`: a literal, a name, a call or an expression in parentheses.
pub open spec fn primary(ts: TokenStream) -> Parsed<ExprView>
    decreases ts.tokens.len(), 2nat,
{
    match ts.current() {
        TokenView::Integer(n) => match ts.advance() {
            Ok(rest) => Ok((ExprView::Integer(n), rest)),
            Err(e) => Err(e),
        },
        TokenView::Float(f) => match ts.advance() {
            Ok(rest) => Ok((ExprView::Float(f), rest)),
            Err(e) => Err(e),
        },
        TokenView::String(text) => match ts.advance() {
            Ok(rest) => Ok((ExprView::String(text), rest)),
            Err(e) => Err(e),
        },
        TokenView::Char(c) => match ts.advance() {
            Ok(rest) => Ok((ExprView::Char(c), rest)),
            Err(e) => Err(e),
        },
        TokenView::Identifier(name, _) => match ts.advance() {
            Err(e) => Err(e),
            Ok(rest) => if rest.current() is LParen {
                match rest.advance() {
                    Err(e) => Err(e),
                    Ok(inner) => match arguments(inner) {
                        Err(e) => Err(e),
                        Ok((args, after)) => match after.expect(TokenView::RParen) {
                            Err(e) => Err(e),
                            Ok(done) => Ok((ExprView::Call(name, args), done)),
                        },
                    },
                }
            } else {
                Ok((ExprView::Identifier(name), rest))
            },
        },
        TokenView::LParen => match ts.advance() {
            Err(e) => Err(e),
            Ok(inner) => match expression(inner) {
                Err(e) => Err(e),
                Ok((e, after)) => match after.expect(TokenView::RParen) {
                    Err(e) => Err(e),
                    Ok(done) => Ok((e, done)),
                },
            },
        },
        _ => Err(ParseError::ExpectedExpression),
    }
}

/// The arguments of a call, up to but not including its closing
/// parenthesis: none, or expressions with commas between them.
pub open spec fn arguments(ts: TokenStream) -> Parsed<Seq<ExprView>>
    decreases ts.tokens.len(), 9nat,
{
    if ts.current() is RParen {
        Ok((Seq::empty(), ts))
    } else {
        match expression(ts) {
            Err(e) => Err(e),
            Ok((first, rest)) => if rest.tokens.len() <= ts.tokens.len() {
                more_arguments(rest, seq![first])
            } else {
                Ok((seq![first], rest))
            },
        }
    }
}

/// The arguments behind those already read: `( ',' expression )*`.
pub open spec fn more_arguments(ts: TokenStream, args: Seq<ExprView>) -> Parsed<Seq<ExprView>>
    decreases ts.tokens.len(), 8nat,
{
    if ts.current() is Comma {
        match ts.advance() {
            Err(e) => Err(e),
            Ok(rest) => match expression(rest) {
                Err(e) => Err(e),
                Ok((next, after)) => if after.tokens.len() < ts.tokens.len() {
                    more_arguments(after, args.push(next))
                } else {
                    Ok((args.push(next), after))
                },
            },
        }
    } else {
        Ok((args, ts))
    }
}

/// `expression`.
pub open spec fn expression(ts: TokenStream) -> Parsed<ExprView>
    decreases ts.tokens.len(), 7nat,
{
    term(ts)
}

/// `term`: factors joined by `+` and `-`, grouped from the left.
pub open spec fn term(ts: TokenStream) -> Parsed<ExprView>
    decreases ts.tokens.len(), 6nat,
{
    match factor(ts) {
        Err(e) => Err(e),
        Ok((left, rest)) => if rest.tokens.len() <= ts.tokens.len() {
            term_tail(rest, left)
        } else {
            Ok((left, rest))
        },
    }
}

/// What follows the first factor of a term: `( ('+'|'-') factor )*`, with
/// `left` as the operand read so far.
pub open spec fn term_tail(ts: TokenStream, left: ExprView) -> Parsed<ExprView>
    decreases ts.tokens.len(), 5nat,
{
    match additive(ts.current()) {
        None => Ok((left, ts)),
        Some(op) => match ts.advance() {
            Err(e) => Err(e),
            Ok(rest) => match factor(rest) {
                Err(e) => Err(e),
                Ok((right, after)) => {
                    let joined = ExprView::Binary(Box::new(left), op, Box::new(right));
                    if after.tokens.len() < ts.tokens.len() {
                        term_tail(after, joined)
                    } else {
                        Ok((joined, after))
                    }
                },
            },
        },
    }
}

/// `factor`: primaries joined by `*` and `/`, grouped from the left.
pub open spec fn factor(ts: TokenStream) -> Parsed<ExprView>
    decreases ts.tokens.len(), 4nat,
{
    match primary(ts) {
        Err(e) => Err(e),
        Ok((left, rest)) => if rest.tokens.len() <= ts.tokens.len() {
            factor_tail(rest, left)
        } else {
            Ok((left, rest))
        },
    }
}

/// What follows the first primary of a factor: `( ('*'|'/') primary )*`,
/// with `left` as the operand read so far.
pub open spec fn factor_tail(ts: TokenStream, left: ExprView) -> Parsed<ExprView>
    decreases ts.tokens.len(), 3nat,
{
    match multiplicative(ts.current()) {
        None => Ok((left, ts)),
        Some(op) => match ts.advance() {
            Err(e) => Err(e),
            Ok(rest) => match primary(rest) {
                Err(e) => Err(e),
                Ok((right, after)) => {
                    let joined = ExprView::Binary(Box::new(left), op, Box::new(right));
                    if after.tokens.len() < ts.tokens.len() {
                        factor_tail(after, joined)
                    } else {
                        Ok((joined, after))
                    }
                },
            },
        },
    }
}

/// An expression and the token that must follow it.
pub open spec fn expression_then(ts: TokenStream, closing: TokenView) -> Parsed<ExprView> {
    match expression(ts) {
        Err(e) => Err(e),
        Ok((e, after)) => match after.expect(closing) {
            Err(e) => Err(e),
            Ok(done) => Ok((e, done)),
        },
    }
}

/// `'let' IDENT '=' expression ';'`, from the keyword on.
pub open spec fn let_statement(ts: TokenStream) -> Parsed<StmtView> {
    match ts.advance() {
        Err(e) => Err(e),
        Ok(rest) => match rest.current() {
            TokenView::Identifier(name, _) => match rest.advance() {
                Err(e) => Err(e),
                Ok(named) => match named.expect(TokenView::Equals) {
                    Err(e) => Err(e),
                    Ok(inner) => match expression_then(inner, TokenView::Semicolon) {
                        Err(e) => Err(e),
                        Ok((init, done)) => Ok((StmtView::Let(name, init), done)),
                    },
                },
            },
            _ => Err(ParseError::ExpectedIdentifier),
        },
    }
}

/// `'print' '(' expression ')' ';'`, from the keyword on.
pub open spec fn print_statement(ts: TokenStream) -> Parsed<StmtView> {
    match ts.advance() {
        Err(e) => Err(e),
        Ok(rest) => match rest.expect(TokenView::LParen) {
            Err(e) => Err(e),
            Ok(inner) => match expression_then(inner, TokenView::RParen) {
                Err(e) => Err(e),
                Ok((e, after)) => match after.expect(TokenView::Semicolon) {
                    Err(e) => Err(e),
                    Ok(done) => Ok((StmtView::Print(e), done)),
                },
            },
        },
    }
}

/// `expression ';'`.
pub open spec fn expression_statement(ts: TokenStream) -> Parsed<StmtView> {
    match expression_then(ts, TokenView::Semicolon) {
        Err(e) => Err(e),
        Ok((e, done)) => Ok((StmtView::Expr(e), done)),
    }
}

/// `statement`.
pub open spec fn statement(ts: TokenStream) -> Parsed<StmtView> {
    match ts.current() {
        TokenView::Let => let_statement(ts),
        TokenView::Print => print_statement(ts),
        _ => expression_statement(ts),
    }
}

/// The statements of a stream, behind those already read, up to the end of
/// the input.
pub open spec fn statements(ts: TokenStream, read: Seq<StmtView>) -> Result<
    Seq<StmtView>,
    ParseError,
>
    decreases ts.tokens.len(),
{
    if ts.tokens.len() == 0 {
        Ok(read)
    } else {
        match statement(ts) {
            Err(e) => Err(e),
            Ok((next, rest)) => if rest.tokens.len() < ts.tokens.len() {
                statements(rest, read.push(next))
            } else {
                Ok(read.push(next))
            },
        }
    }
}

/// The program that a stream of tokens spells.
pub open spec fn program(ts: TokenStream) -> Result<Seq<StmtView>, ParseError> {
    statements(ts, Seq::empty())
}

/// The program that a text spells: its statements in order, or the first
/// failure met on the way through it.
pub open spec fn parse_text(s: Seq<char>) -> Result<Seq<StmtView>, ParseError> {
    match stream_from(s, 0).start() {
        Err(e) => Err(e),
        Ok(ts) => program(ts),
    }
}

/// What is left of `ts` once some of its first tokens are taken away.
pub open spec fn behind(rest: TokenStream, ts: TokenStream) -> bool {
    &&& rest.failure == ts.failure
    &&& rest.tokens.len() <= ts.tokens.len()
    &&& rest.tokens == ts.tokens.skip(ts.tokens.len() - rest.tokens.len())
}

/// The same, with at least one token taken away.
pub open spec fn strictly_behind(rest: TokenStream, ts: TokenStream) -> bool {
    behind(rest, ts) && rest.tokens.len() < ts.tokens.len()
}

/// Going on from a token leaves what is behind it.
pub proof fn lemma_advance_behind(ts: TokenStream)
    ensures
        ts.advance() is Ok ==> behind(ts.advance()->Ok_0, ts),
        ts.advance() is Ok && ts.tokens.len() > 0 ==> strictly_behind(ts.advance()->Ok_0, ts),
{
    if ts.advance() is Ok {
        assert(ts.tokens.skip(0) =~= ts.tokens);
    }
}

/// What is behind what is behind a stream is behind it.
pub proof fn lemma_behind_transitive(a: TokenStream, b: TokenStream, c: TokenStream)
    requires
        behind(a, b),
        behind(b, c),
    ensures
        behind(a, c),
{
    assert(a.tokens =~= c.tokens.skip(c.tokens.len() - a.tokens.len()));
}

/// A primary takes at least one token, and leaves what is behind it.
pub proof fn lemma_primary_consumes(ts: TokenStream)
    ensures
        primary(ts) is Ok ==> strictly_behind(primary(ts)->Ok_0.1, ts),
    decreases ts.tokens.len(), 2nat,
{
    if primary(ts) is Ok {
        lemma_advance_behind(ts);
        let rest = ts.advance()->Ok_0;
        match ts.current() {
            TokenView::Identifier(name, _) => {
                if rest.current() is LParen {
                    lemma_advance_behind(rest);
                    let inner = rest.advance()->Ok_0;
                    lemma_arguments_consume(inner);
                    let after = arguments(inner)->Ok_0.1;
                    lemma_advance_behind(after);
                    let done = after.advance()->Ok_0;
                    lemma_behind_transitive(inner, rest, ts);
                    lemma_behind_transitive(after, inner, ts);
                    lemma_behind_transitive(done, after, ts);
                }
            },
            TokenView::LParen => {
                lemma_expression_consumes(rest);
                let after = expression(rest)->Ok_0.1;
                lemma_advance_behind(after);
                let done = after.advance()->Ok_0;
                lemma_behind_transitive(after, rest, ts);
                lemma_behind_transitive(done, after, ts);
            },
            _ => {},
        }
    }
}

/// The arguments of a call leave what is behind them.
pub proof fn lemma_arguments_consume(ts: TokenStream)
    ensures
        arguments(ts) is Ok ==> behind(arguments(ts)->Ok_0.1, ts),
    decreases ts.tokens.len(), 9nat,
{
    if arguments(ts) is Ok {
        if ts.current() is RParen {
            assert(ts.tokens.skip(0) =~= ts.tokens);
        } else {
            lemma_expression_consumes(ts);
            let (first, rest) = expression(ts)->Ok_0;
            lemma_more_arguments_consume(rest, seq![first]);
            lemma_behind_transitive(more_arguments(rest, seq![first])->Ok_0.1, rest, ts);
        }
    }
}

/// Further arguments leave what is behind them.
pub proof fn lemma_more_arguments_consume(ts: TokenStream, args: Seq<ExprView>)
    ensures
        more_arguments(ts, args) is Ok ==> behind(more_arguments(ts, args)->Ok_0.1, ts),
    decreases ts.tokens.len(), 8nat,
{
    if more_arguments(ts, args) is Ok {
        if ts.current() is Comma {
            lemma_advance_behind(ts);
            let rest = ts.advance()->Ok_0;
            lemma_expression_consumes(rest);
            let (next, after) = expression(rest)->Ok_0;
            lemma_behind_transitive(after, rest, ts);
            lemma_more_arguments_consume(after, args.push(next));
            lemma_behind_transitive(more_arguments(after, args.push(next))->Ok_0.1, after, ts);
        } else {
            assert(ts.tokens.skip(0) =~= ts.tokens);
        }
    }
}

/// An expression takes at least one token, and leaves what is behind it.
pub proof fn lemma_expression_consumes(ts: TokenStream)
    ensures
        expression(ts) is Ok ==> strictly_behind(expression(ts)->Ok_0.1, ts),
    decreases ts.tokens.len(), 7nat,
{
    lemma_term_consumes(ts);
}

/// A term takes at least one token, and leaves what is behind it.
pub proof fn lemma_term_consumes(ts: TokenStream)
    ensures
        term(ts) is Ok ==> strictly_behind(term(ts)->Ok_0.1, ts),
    decreases ts.tokens.len(), 6nat,
{
    if term(ts) is Ok {
        lemma_factor_consumes(ts);
        let (left, rest) = factor(ts)->Ok_0;
        lemma_term_tail_consumes(rest, left);
        lemma_behind_transitive(term_tail(rest, left)->Ok_0.1, rest, ts);
    }
}

/// The tail of a term leaves what is behind it.
pub proof fn lemma_term_tail_consumes(ts: TokenStream, left: ExprView)
    ensures
        term_tail(ts, left) is Ok ==> behind(term_tail(ts, left)->Ok_0.1, ts),
    decreases ts.tokens.len(), 5nat,
{
    if term_tail(ts, left) is Ok {
        match additive(ts.current()) {
            None => {
                assert(ts.tokens.skip(0) =~= ts.tokens);
            },
            Some(op) => {
                lemma_advance_behind(ts);
                let rest = ts.advance()->Ok_0;
                lemma_factor_consumes(rest);
                let (right, after) = factor(rest)->Ok_0;
                lemma_behind_transitive(after, rest, ts);
                let joined = ExprView::Binary(Box::new(left), op, Box::new(right));
                lemma_term_tail_consumes(after, joined);
                lemma_behind_transitive(term_tail(after, joined)->Ok_0.1, after, ts);
            },
        }
    }
}

/// A factor takes at least one token, and leaves what is behind it.
pub proof fn lemma_factor_consumes(ts: TokenStream)
    ensures
        factor(ts) is Ok ==> strictly_behind(factor(ts)->Ok_0.1, ts),
    decreases ts.tokens.len(), 4nat,
{
    if factor(ts) is Ok {
        lemma_primary_consumes(ts);
        let (left, rest) = primary(ts)->Ok_0;
        lemma_factor_tail_consumes(rest, left);
        lemma_behind_transitive(factor_tail(rest, left)->Ok_0.1, rest, ts);
    }
}

/// The tail of a factor leaves what is behind it.
pub proof fn lemma_factor_tail_consumes(ts: TokenStream, left: ExprView)
    ensures
        factor_tail(ts, left) is Ok ==> behind(factor_tail(ts, left)->Ok_0.1, ts),
    decreases ts.tokens.len(), 3nat,
{
    if factor_tail(ts, left) is Ok {
        match multiplicative(ts.current()) {
            None => {
                assert(ts.tokens.skip(0) =~= ts.tokens);
            },
            Some(op) => {
                lemma_advance_behind(ts);
                let rest = ts.advance()->Ok_0;
                lemma_primary_consumes(rest);
                let (right, after) = primary(rest)->Ok_0;
                lemma_behind_transitive(after, rest, ts);
                let joined = ExprView::Binary(Box::new(left), op, Box::new(right));
                lemma_factor_tail_consumes(after, joined);
                lemma_behind_transitive(factor_tail(after, joined)->Ok_0.1, after, ts);
            },
        }
    }
}

/// A statement takes at least one token, and leaves what is behind it.
pub proof fn lemma_statement_consumes(ts: TokenStream)
    ensures
        statement(ts) is Ok ==> strictly_behind(statement(ts)->Ok_0.1, ts),
{
    if statement(ts) is Ok {
        match ts.current() {
            TokenView::Let => {
                lemma_advance_behind(ts);
                let rest = ts.advance()->Ok_0;
                lemma_advance_behind(rest);
                let named = rest.advance()->Ok_0;
                lemma_advance_behind(named);
                let inner = named.advance()->Ok_0;
                lemma_expression_consumes(inner);
                let after = expression(inner)->Ok_0.1;
                lemma_advance_behind(after);
                let done = after.advance()->Ok_0;
                lemma_behind_transitive(named, rest, ts);
                lemma_behind_transitive(inner, named, ts);
                lemma_behind_transitive(after, inner, ts);
                lemma_behind_transitive(done, after, ts);
            },
            TokenView::Print => {
                lemma_advance_behind(ts);
                let rest = ts.advance()->Ok_0;
                lemma_advance_behind(rest);
                let inner = rest.advance()->Ok_0;
                lemma_expression_consumes(inner);
                let after = expression(inner)->Ok_0.1;
                lemma_advance_behind(after);
                let closed = after.advance()->Ok_0;
                lemma_advance_behind(closed);
                let done = closed.advance()->Ok_0;
                lemma_behind_transitive(inner, rest, ts);
                lemma_behind_transitive(after, inner, ts);
                lemma_behind_transitive(closed, after, ts);
                lemma_behind_transitive(done, closed, ts);
            },
            _ => {
                lemma_expression_consumes(ts);
                let after = expression(ts)->Ok_0.1;
                lemma_advance_behind(after);
                let done = after.advance()->Ok_0;
                lemma_behind_transitive(done, after, ts);
            },
        }
    }
}

} // verus!
