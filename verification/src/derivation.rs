//! The grammar as a relation between rows of tokens and trees, and the proof
//! that the rules of [`crate::grammar`] read nothing else: whatever tree a
//! rule reads, the tokens it took derive that tree.

use vstd::prelude::*;
use crate::ast::{ExprView, StmtView};
use crate::grammar::{
    additive,
    arguments,
    behind,
    expression,
    expression_then,
    factor,
    factor_tail,
    lemma_advance_behind,
    lemma_arguments_consume,
    lemma_behind_transitive,
    lemma_expression_consumes,
    lemma_factor_consumes,
    lemma_factor_tail_consumes,
    lemma_more_arguments_consume,
    lemma_primary_consumes,
    lemma_statement_consumes,
    lemma_term_consumes,
    lemma_term_tail_consumes,
    more_arguments,
    multiplicative,
    parse_text,
    primary,
    program,
    statement,
    statements,
    stream_from,
    term,
    term_tail,
    TokenStream,
};
use crate::token::TokenView;

verus! {

/// The tree of a token that is an expression by itself.
pub open spec fn derives_atom(token: TokenView, e: ExprView) -> bool {
    match token {
        TokenView::Integer(n) => e == ExprView::Integer(n),
        TokenView::Float(f) => e == ExprView::Float(f),
        TokenView::String(text) => e == ExprView::String(text),
        TokenView::Char(c) => e == ExprView::Char(c),
        TokenView::Identifier(name, _) => e == ExprView::Identifier(name),
        _ => false,
    }
}

/// `primary := atom | IDENT '(' arguments ')' | '(' expression ')'`.
pub open spec fn derives_primary(ts: Seq<TokenView>, e: ExprView) -> bool
    decreases e, ts.len(), 0nat,
{
    ||| ts.len() == 1 && derives_atom(ts[0], e)
    ||| {
        &&& ts.len() >= 3
        &&& ts[0] is Identifier
        &&& ts[1] == TokenView::LParen
        &&& ts.last() == TokenView::RParen
        &&& e is Call
        &&& e->Call_0 == ts[0]->Identifier_0
        &&& derives_arguments(ts.subrange(2, ts.len() - 1), e->Call_1)
    }
    ||| {
        &&& ts.len() >= 2
        &&& ts[0] == TokenView::LParen
        &&& ts.last() == TokenView::RParen
        &&& derives_expression(ts.subrange(1, ts.len() - 1), e)
    }
}

/// `arguments := ( expression ( ',' expression )* )?`.
pub open spec fn derives_arguments(ts: Seq<TokenView>, args: Seq<ExprView>) -> bool
    decreases args, ts.len(), 0nat,
{
    if args.len() == 0 {
        ts.len() == 0
    } else if args.len() == 1 {
        derives_expression(ts, args[0])
    } else {
        exists|k: int|
            0 <= k < ts.len() && ts[k] == TokenView::Comma && derives_arguments(
                #[trigger] ts.take(k),
                args.drop_last(),
            ) && derives_expression(ts.skip(k + 1), args.last())
    }
}

/// `expression := term`.
pub open spec fn derives_expression(ts: Seq<TokenView>, e: ExprView) -> bool
    decreases e, ts.len(), 3nat,
{
    derives_term(ts, e)
}

/// `term := factor | term ('+'|'-') factor`.
pub open spec fn derives_term(ts: Seq<TokenView>, e: ExprView) -> bool
    decreases e, ts.len(), 2nat,
{
    ||| derives_factor(ts, e)
    ||| e is Binary && exists|k: int|
        0 <= k < ts.len() && additive(ts[k]) == Some(e->Binary_1) && derives_term(
            #[trigger] ts.take(k),
            *e->Binary_0,
        ) && derives_factor(ts.skip(k + 1), *e->Binary_2)
}

/// `factor := primary | factor ('*'|'/') primary`.
pub open spec fn derives_factor(ts: Seq<TokenView>, e: ExprView) -> bool
    decreases e, ts.len(), 1nat,
{
    ||| derives_primary(ts, e)
    ||| e is Binary && exists|k: int|
        0 <= k < ts.len() && multiplicative(ts[k]) == Some(e->Binary_1) && derives_factor(
            #[trigger] ts.take(k),
            *e->Binary_0,
        ) && derives_primary(ts.skip(k + 1), *e->Binary_2)
}

/// `statement := 'let' IDENT '=' expression ';' | 'print' '(' expression
/// ')' ';' | expression ';'`.
pub open spec fn derives_statement(ts: Seq<TokenView>, st: StmtView) -> bool {
    match st {
        StmtView::Let(name, init) => {
            &&& ts.len() >= 4
            &&& ts[0] == TokenView::Let
            &&& ts[1] is Identifier
            &&& ts[1]->Identifier_0 == name
            &&& ts[2] == TokenView::Equals
            &&& ts.last() == TokenView::Semicolon
            &&& derives_expression(ts.subrange(3, ts.len() - 1), init)
        },
        StmtView::Print(e) => {
            &&& ts.len() >= 4
            &&& ts[0] == TokenView::Print
            &&& ts[1] == TokenView::LParen
            &&& ts[ts.len() - 2] == TokenView::RParen
            &&& ts.last() == TokenView::Semicolon
            &&& derives_expression(ts.subrange(2, ts.len() - 2), e)
        },
        StmtView::Expr(e) => {
            &&& ts.len() >= 1
            &&& ts.last() == TokenView::Semicolon
            &&& derives_expression(ts.take(ts.len() - 1), e)
        },
    }
}

/// `program := statement*`.
pub open spec fn derives_program(ts: Seq<TokenView>, list: Seq<StmtView>) -> bool
    decreases list.len(),
{
    if list.len() == 0 {
        ts.len() == 0
    } else {
        exists|k: int|
            0 <= k <= ts.len() && derives_program(#[trigger] ts.take(k), list.drop_last())
                && derives_statement(ts.skip(k), list.last())
    }
}

/// The tokens between the beginning of `ts` and the beginning of `rest`.
pub open spec fn taken(ts: TokenStream, rest: TokenStream) -> Seq<TokenView> {
    ts.tokens.take(ts.tokens.len() - rest.tokens.len())
}

/// The tree that `primary` reads is derived by the tokens it takes.
pub proof fn lemma_primary_sound(ts: TokenStream)
    ensures
        primary(ts) is Ok ==> derives_primary(taken(ts, primary(ts)->Ok_0.1), primary(ts)->Ok_0.0),
    decreases ts.tokens.len(), 2nat,
{
    if primary(ts) is Ok {
        let (e, done) = primary(ts)->Ok_0;
        let all = ts.tokens;
        let rest = ts.advance()->Ok_0;
        lemma_primary_consumes(ts);
        lemma_advance_behind(ts);
        let calling = ts.current() is Identifier && rest.current() is LParen;
        if calling {
            let inner = rest.advance()->Ok_0;
            let (args, after) = arguments(inner)->Ok_0;
            lemma_advance_behind(rest);
            lemma_arguments_consume(inner);
            lemma_arguments_sound(inner);
            lemma_advance_behind(after);
            let got = taken(ts, done);
            assert(inner.tokens =~= all.skip(2));
            assert(after.tokens[0] == all[all.len() - after.tokens.len()]);
            assert(got.subrange(2, got.len() - 1) =~= taken(inner, after));
        } else if ts.current() is LParen {
            let (inside, after) = expression(rest)->Ok_0;
            lemma_expression_consumes(rest);
            lemma_expression_sound(rest);
            lemma_advance_behind(after);
            let got = taken(ts, done);
            assert(after.tokens[0] == all[all.len() - after.tokens.len()]);
            assert(got.subrange(1, got.len() - 1) =~= taken(rest, after));
        } else {
            assert(taken(ts, done).len() == 1);
        }
    }
}

/// The trees that `arguments` reads are derived by the tokens it takes.
pub proof fn lemma_arguments_sound(ts: TokenStream)
    ensures
        arguments(ts) is Ok ==> derives_arguments(
            taken(ts, arguments(ts)->Ok_0.1),
            arguments(ts)->Ok_0.0,
        ),
    decreases ts.tokens.len(), 9nat,
{
    if arguments(ts) is Ok {
        if ts.current() is RParen {
        } else {
            let (first, rest) = expression(ts)->Ok_0;
            lemma_expression_consumes(ts);
            lemma_expression_sound(ts);
            let prefix = taken(ts, rest);
            lemma_more_arguments_consume(rest, seq![first]);
            lemma_more_arguments_sound(rest, seq![first], prefix);
            let after = more_arguments(rest, seq![first])->Ok_0.1;
            assert(prefix + taken(rest, after) =~= taken(ts, after));
        }
    }
}

/// Further arguments: with `prefix` deriving the arguments read so far, the
/// prefix and the tokens taken derive all of them.
pub proof fn lemma_more_arguments_sound(
    ts: TokenStream,
    args: Seq<ExprView>,
    prefix: Seq<TokenView>,
)
    requires
        args.len() >= 1,
        derives_arguments(prefix, args),
    ensures
        more_arguments(ts, args) is Ok ==> derives_arguments(
            prefix + taken(ts, more_arguments(ts, args)->Ok_0.1),
            more_arguments(ts, args)->Ok_0.0,
        ),
    decreases ts.tokens.len(), 8nat,
{
    if more_arguments(ts, args) is Ok {
        if ts.current() is Comma {
            let rest = ts.advance()->Ok_0;
            let (next, after) = expression(rest)->Ok_0;
            lemma_advance_behind(ts);
            lemma_expression_consumes(rest);
            lemma_expression_sound(rest);
            lemma_behind_transitive(after, rest, ts);
            let longer = args.push(next);
            let grown = prefix + taken(ts, after);
            let k = prefix.len() as int;
            assert(grown[k] == ts.tokens[0]);
            assert(grown.take(k) =~= prefix);
            assert(longer.drop_last() =~= args);
            assert(grown.skip(k + 1) =~= taken(rest, after));
            assert(derives_arguments(grown.take(k), longer.drop_last()));
            assert(derives_arguments(grown, longer));
            lemma_more_arguments_consume(after, longer);
            lemma_more_arguments_sound(after, longer, grown);
            let done = more_arguments(after, longer)->Ok_0.1;
            assert(grown + taken(after, done) =~= prefix + taken(ts, done));
        } else {
            assert(prefix + taken(ts, ts) =~= prefix);
        }
    }
}

/// The tree that `expression` reads is derived by the tokens it takes.
pub proof fn lemma_expression_sound(ts: TokenStream)
    ensures
        expression(ts) is Ok ==> derives_expression(
            taken(ts, expression(ts)->Ok_0.1),
            expression(ts)->Ok_0.0,
        ),
    decreases ts.tokens.len(), 7nat,
{
    lemma_term_sound(ts);
}

/// The tree that `term` reads is derived by the tokens it takes.
pub proof fn lemma_term_sound(ts: TokenStream)
    ensures
        term(ts) is Ok ==> derives_term(taken(ts, term(ts)->Ok_0.1), term(ts)->Ok_0.0),
    decreases ts.tokens.len(), 6nat,
{
    if term(ts) is Ok {
        let (left, rest) = factor(ts)->Ok_0;
        lemma_factor_consumes(ts);
        lemma_factor_sound(ts);
        let prefix = taken(ts, rest);
        lemma_term_tail_consumes(rest, left);
        lemma_term_tail_sound(rest, left, prefix);
        let after = term_tail(rest, left)->Ok_0.1;
        assert(prefix + taken(rest, after) =~= taken(ts, after));
    }
}

/// The tail of a term: with `prefix` deriving the operand read so far, the
/// prefix and the tokens taken derive the whole.
pub proof fn lemma_term_tail_sound(ts: TokenStream, left: ExprView, prefix: Seq<TokenView>)
    requires
        derives_term(prefix, left),
    ensures
        term_tail(ts, left) is Ok ==> derives_term(
            prefix + taken(ts, term_tail(ts, left)->Ok_0.1),
            term_tail(ts, left)->Ok_0.0,
        ),
    decreases ts.tokens.len(), 5nat,
{
    if term_tail(ts, left) is Ok {
        match additive(ts.current()) {
            None => {
                assert(prefix + taken(ts, ts) =~= prefix);
            },
            Some(op) => {
                let rest = ts.advance()->Ok_0;
                let (right, after) = factor(rest)->Ok_0;
                lemma_advance_behind(ts);
                lemma_factor_consumes(rest);
                lemma_factor_sound(rest);
                lemma_behind_transitive(after, rest, ts);
                let joined = ExprView::Binary(Box::new(left), op, Box::new(right));
                let grown = prefix + taken(ts, after);
                let k = prefix.len() as int;
                assert(grown[k] == ts.tokens[0]);
                assert(grown.take(k) =~= prefix);
                assert(grown.skip(k + 1) =~= taken(rest, after));
                assert(derives_term(grown.take(k), *joined->Binary_0));
                assert(derives_term(grown, joined));
                lemma_term_tail_consumes(after, joined);
                lemma_term_tail_sound(after, joined, grown);
                let done = term_tail(after, joined)->Ok_0.1;
                assert(grown + taken(after, done) =~= prefix + taken(ts, done));
            },
        }
    }
}

/// The tree that `factor` reads is derived by the tokens it takes.
pub proof fn lemma_factor_sound(ts: TokenStream)
    ensures
        factor(ts) is Ok ==> derives_factor(taken(ts, factor(ts)->Ok_0.1), factor(ts)->Ok_0.0),
    decreases ts.tokens.len(), 4nat,
{
    if factor(ts) is Ok {
        let (left, rest) = primary(ts)->Ok_0;
        lemma_primary_consumes(ts);
        lemma_primary_sound(ts);
        let prefix = taken(ts, rest);
        lemma_factor_tail_consumes(rest, left);
        lemma_factor_tail_sound(rest, left, prefix);
        let after = factor_tail(rest, left)->Ok_0.1;
        assert(prefix + taken(rest, after) =~= taken(ts, after));
    }
}

/// The tail of a factor: with `prefix` deriving the operand read so far,
/// the prefix and the tokens taken derive the whole.
pub proof fn lemma_factor_tail_sound(ts: TokenStream, left: ExprView, prefix: Seq<TokenView>)
    requires
        derives_factor(prefix, left),
    ensures
        factor_tail(ts, left) is Ok ==> derives_factor(
            prefix + taken(ts, factor_tail(ts, left)->Ok_0.1),
            factor_tail(ts, left)->Ok_0.0,
        ),
    decreases ts.tokens.len(), 3nat,
{
    if factor_tail(ts, left) is Ok {
        match multiplicative(ts.current()) {
            None => {
                assert(prefix + taken(ts, ts) =~= prefix);
            },
            Some(op) => {
                let rest = ts.advance()->Ok_0;
                let (right, after) = primary(rest)->Ok_0;
                lemma_advance_behind(ts);
                lemma_primary_consumes(rest);
                lemma_primary_sound(rest);
                lemma_behind_transitive(after, rest, ts);
                let joined = ExprView::Binary(Box::new(left), op, Box::new(right));
                let grown = prefix + taken(ts, after);
                let k = prefix.len() as int;
                assert(grown[k] == ts.tokens[0]);
                assert(grown.take(k) =~= prefix);
                assert(grown.skip(k + 1) =~= taken(rest, after));
                assert(derives_factor(grown.take(k), *joined->Binary_0));
                assert(derives_factor(grown, joined));
                lemma_factor_tail_consumes(after, joined);
                lemma_factor_tail_sound(after, joined, grown);
                let done = factor_tail(after, joined)->Ok_0.1;
                assert(grown + taken(after, done) =~= prefix + taken(ts, done));
            },
        }
    }
}

/// An expression and its closing token: the tokens taken are those of the
/// expression and then the closing token.
pub proof fn lemma_expression_then_sound(ts: TokenStream, closing: TokenView)
    requires
        !(closing is EOF),
    ensures
        expression_then(ts, closing) is Ok ==> {
            let (e, done) = expression_then(ts, closing)->Ok_0;
            let got = taken(ts, done);
            &&& behind(done, ts)
            &&& got.len() >= 2
            &&& got.last() == closing
            &&& derives_expression(got.drop_last(), e)
        },
{
    if expression_then(ts, closing) is Ok {
        let (e, after) = expression(ts)->Ok_0;
        let done = after.advance()->Ok_0;
        lemma_expression_consumes(ts);
        lemma_expression_sound(ts);
        lemma_advance_behind(after);
        lemma_behind_transitive(done, after, ts);
        let got = taken(ts, done);
        assert(after.tokens[0] == ts.tokens[ts.tokens.len() - after.tokens.len()]);
        assert(got.drop_last() =~= taken(ts, after));
    }
}

/// The tree that `statement` reads is derived by the tokens it takes.
pub proof fn lemma_statement_sound(ts: TokenStream)
    ensures
        statement(ts) is Ok ==> derives_statement(
            taken(ts, statement(ts)->Ok_0.1),
            statement(ts)->Ok_0.0,
        ),
{
    if statement(ts) is Ok {
        let (st, done) = statement(ts)->Ok_0;
        let all = ts.tokens;
        let got = taken(ts, done);
        lemma_statement_consumes(ts);
        match ts.current() {
            TokenView::Let => {
                let rest = ts.advance()->Ok_0;
                let named = rest.advance()->Ok_0;
                let inner = named.advance()->Ok_0;
                lemma_advance_behind(ts);
                lemma_advance_behind(rest);
                lemma_advance_behind(named);
                lemma_expression_then_sound(inner, TokenView::Semicolon);
                assert(inner.tokens =~= all.skip(3));
                assert(got.subrange(3, got.len() - 1) =~= taken(inner, done).drop_last());
                assert(got.last() == taken(inner, done).last());
            },
            TokenView::Print => {
                let rest = ts.advance()->Ok_0;
                let inner = rest.advance()->Ok_0;
                lemma_advance_behind(ts);
                lemma_advance_behind(rest);
                lemma_expression_then_sound(inner, TokenView::RParen);
                let after = expression_then(inner, TokenView::RParen)->Ok_0.1;
                lemma_advance_behind(after);
                assert(inner.tokens =~= all.skip(2));
                assert(after.tokens[0] == all[all.len() - after.tokens.len()]);
                assert(got.subrange(2, got.len() - 2) =~= taken(inner, after).drop_last());
                assert(got[got.len() - 2] == taken(inner, after).last());
            },
            _ => {
                lemma_expression_then_sound(ts, TokenView::Semicolon);
                assert(got.take(got.len() - 1) =~= got.drop_last());
            },
        }
    }
}

/// A row of tokens that derives some statements, followed by one that
/// derives a statement, derives them all.
pub proof fn lemma_program_grows(
    prefix: Seq<TokenView>,
    read: Seq<StmtView>,
    more: Seq<TokenView>,
    next: StmtView,
)
    requires
        derives_program(prefix, read),
        derives_statement(more, next),
    ensures
        derives_program(prefix + more, read.push(next)),
{
    let grown = prefix + more;
    let longer = read.push(next);
    let k = prefix.len() as int;
    assert(grown.take(k) =~= prefix);
    assert(longer.drop_last() =~= read);
    assert(grown.skip(k) =~= more);
    assert(derives_program(grown.take(k), longer.drop_last()));
}

/// Further statements: with `prefix` deriving the statements read so far,
/// the prefix and the rest of the stream derive the whole program.
pub proof fn lemma_statements_sound(ts: TokenStream, read: Seq<StmtView>, prefix: Seq<TokenView>)
    requires
        derives_program(prefix, read),
    ensures
        statements(ts, read) is Ok ==> derives_program(
            prefix + ts.tokens,
            statements(ts, read)->Ok_0,
        ),
    decreases ts.tokens.len(),
{
    if statements(ts, read) is Ok {
        if ts.tokens.len() == 0 {
            assert(prefix + ts.tokens =~= prefix);
        } else {
            let (next, rest) = statement(ts)->Ok_0;
            lemma_statement_consumes(ts);
            lemma_statement_sound(ts);
            lemma_program_grows(prefix, read, taken(ts, rest), next);
            let grown = prefix + taken(ts, rest);
            lemma_statements_sound(rest, read.push(next), grown);
            assert(grown + rest.tokens =~= prefix + ts.tokens);
        }
    }
}

/// Every program that is read is a program of the grammar: the statements
/// that `program` gives are derived by the tokens of the stream, all of
/// them and in their order.
pub proof fn lemma_program_sound(ts: TokenStream)
    ensures
        program(ts) is Ok ==> derives_program(ts.tokens, program(ts)->Ok_0),
{
    assert(derives_program(Seq::empty(), Seq::empty()));
    lemma_statements_sound(ts, Seq::empty(), Seq::empty());
    assert(Seq::<TokenView>::empty() + ts.tokens =~= ts.tokens);
}

/// Every program that is read from a text is a program of the grammar
/// over the tokens of that text.
pub proof fn lemma_parse_text_sound(s: Seq<char>)
    ensures
        parse_text(s) is Ok ==> derives_program(stream_from(s, 0).tokens, parse_text(s)->Ok_0),
{
    lemma_program_sound(stream_from(s, 0));
}

} // verus!
