//! The rules of [`crate::grammar`] read every tree that the grammar of
//! [`crate::derivation`] derives: the converse of what is proved there.
//! Together the two say that the parsing functions and the grammar agree.

use vstd::prelude::*;
use crate::ast::{ExprView, StmtView};
use crate::derivation::{
    derives_arguments,
    derives_atom,
    derives_expression,
    derives_factor,
    derives_primary,
    derives_program,
    derives_statement,
    derives_term,
    lemma_program_sound,
};
use crate::error::LexError;
use crate::grammar::{
    additive,
    arguments,
    expression,
    expression_then,
    factor,
    factor_tail,
    let_statement,
    more_arguments,
    multiplicative,
    primary,
    print_statement,
    program,
    statement,
    statements,
    term,
    term_tail,
    TokenStream,
};
use crate::token::TokenView;

verus! {

/// The stream of the tokens `all` from index `i` on.
pub open spec fn at(all: Seq<TokenView>, failure: Option<LexError>, i: int) -> TokenStream {
    TokenStream { tokens: all.skip(i), failure }
}

/// Whether a parser can come to stand at index `j`: there is a token, or
/// the tokens end with the input.
pub open spec fn reachable(all: Seq<TokenView>, failure: Option<LexError>, j: int) -> bool {
    0 <= j <= all.len() && (j < all.len() || failure is None)
}

/// Whether `token` can stand behind a primary that is complete: anything
/// but an opening parenthesis.
pub open spec fn ends_primary(token: TokenView) -> bool {
    !(token is LParen)
}

/// Whether `token` can stand behind a term that is complete.
pub open spec fn ends_term(token: TokenView) -> bool {
    !(token is LParen || token is Star || token is Slash)
}

/// Whether `token` can stand behind an expression that is complete.
pub open spec fn ends_expression(token: TokenView) -> bool {
    !(token is LParen || token is Star || token is Slash || token is Plus || token is Minus)
}

/// One step through the tokens.
pub proof fn lemma_at_step(all: Seq<TokenView>, failure: Option<LexError>, i: int)
    requires
        0 <= i < all.len(),
        reachable(all, failure, i + 1),
    ensures
        at(all, failure, i).current() == all[i],
        at(all, failure, i).advance() == Ok::<TokenStream, crate::error::ParseError>(
            at(all, failure, i + 1),
        ),
        at(all, failure, i).expect(all[i]) == Ok::<TokenStream, crate::error::ParseError>(
            at(all, failure, i + 1),
        ),
{
    assert(all.skip(i).skip(1) =~= all.skip(i + 1));
}

/// A primary that the grammar derives from `all[i..j]` is read from index
/// `i`, and the parser then stands at `j`.
pub proof fn lemma_primary_complete(
    all: Seq<TokenView>,
    failure: Option<LexError>,
    i: int,
    j: int,
    e: ExprView,
)
    requires
        0 <= i <= j,
        reachable(all, failure, j),
        derives_primary(all.subrange(i, j), e),
        ends_primary(at(all, failure, j).current()),
    ensures
        primary(at(all, failure, i)) == Ok::<(ExprView, TokenStream), crate::error::ParseError>(
            (e, at(all, failure, j)),
        ),
    decreases e, j - i, 0nat,
{
    let seg = all.subrange(i, j);
    if seg.len() == 1 && derives_atom(seg[0], e) {
        lemma_at_step(all, failure, i);
        assert(seg[0] == all[i]);
    } else if seg.len() >= 3 && seg[0] is Identifier && seg[1] == TokenView::LParen && e is Call
        && derives_arguments(seg.subrange(2, seg.len() - 1), e->Call_1) {
        lemma_at_step(all, failure, i);
        lemma_at_step(all, failure, i + 1);
        lemma_at_step(all, failure, j - 1);
        assert(seg[0] == all[i]);
        assert(seg[1] == all[i + 1]);
        assert(seg.last() == all[j - 1]);
        assert(seg.subrange(2, seg.len() - 1) =~= all.subrange(i + 2, j - 1));
        lemma_arguments_complete(all, failure, i + 2, j - 1, e->Call_1);
    } else {
        lemma_at_step(all, failure, i);
        lemma_at_step(all, failure, j - 1);
        assert(seg[0] == all[i]);
        assert(seg.last() == all[j - 1]);
        assert(seg.subrange(1, seg.len() - 1) =~= all.subrange(i + 1, j - 1));
        lemma_expression_complete(all, failure, i + 1, j - 1, e);
    }
}

/// Arguments that the grammar derives from `all[i..j]`, with the closing
/// parenthesis at `j`, are read from index `i`.
pub proof fn lemma_arguments_complete(
    all: Seq<TokenView>,
    failure: Option<LexError>,
    i: int,
    j: int,
    args: Seq<ExprView>,
)
    requires
        0 <= i <= j < all.len(),
        derives_arguments(all.subrange(i, j), args),
        all[j] == TokenView::RParen,
    ensures
        arguments(at(all, failure, i)) == Ok::<
            (Seq<ExprView>, TokenStream),
            crate::error::ParseError,
        >((args, at(all, failure, j))),
    decreases args, j - i, 1nat,
{
    if args.len() == 0 {
        assert(args =~= Seq::<ExprView>::empty());
    } else {
        lemma_arguments_chain(all, failure, i, j, args);
    }
}

/// One or more arguments that the grammar derives from `all[i..j]`, with a
/// comma or the closing parenthesis at `j`: reading arguments from `i`
/// comes to stand at `j` with these arguments read.
pub proof fn lemma_arguments_chain(
    all: Seq<TokenView>,
    failure: Option<LexError>,
    i: int,
    j: int,
    args: Seq<ExprView>,
)
    requires
        0 <= i <= j < all.len(),
        args.len() >= 1,
        derives_arguments(all.subrange(i, j), args),
        all[j] == TokenView::RParen || all[j] == TokenView::Comma,
    ensures
        arguments(at(all, failure, i)) == more_arguments(at(all, failure, j), args),
    decreases args, j - i, 0nat,
{
    let seg = all.subrange(i, j);
    if args.len() == 1 {
        lemma_expression_complete(all, failure, i, j, args[0]);
        lemma_begins_expression(at(all, failure, i));
        assert(seq![args[0]] =~= args);
    } else {
        let k = choose|k: int|
            0 <= k < seg.len() && seg[k] == TokenView::Comma && derives_arguments(
                #[trigger] seg.take(k),
                args.drop_last(),
            ) && derives_expression(seg.skip(k + 1), args.last());
        assert(seg[k] == all[i + k]);
        assert(seg.take(k) =~= all.subrange(i, i + k));
        assert(seg.skip(k + 1) =~= all.subrange(i + k + 1, j));
        lemma_arguments_chain(all, failure, i, i + k, args.drop_last());
        lemma_at_step(all, failure, i + k);
        lemma_expression_complete(all, failure, i + k + 1, j, args.last());
        assert(args.drop_last().push(args.last()) =~= args);
    }
}

/// Where an expression is read, the stream begins with a token that begins
/// one: no keyword, no closing parenthesis, and not the end of the input.
pub proof fn lemma_begins_expression(ts: TokenStream)
    requires
        expression(ts) is Ok,
    ensures
        ts.tokens.len() > 0,
        !(ts.current() is RParen),
        !(ts.current() is Let),
        !(ts.current() is Print),
{
    assert(term(ts) is Ok);
    assert(factor(ts) is Ok);
    assert(primary(ts) is Ok);
}

/// An expression that the grammar derives from `all[i..j]` is read from
/// index `i`, and the parser then stands at `j`.
pub proof fn lemma_expression_complete(
    all: Seq<TokenView>,
    failure: Option<LexError>,
    i: int,
    j: int,
    e: ExprView,
)
    requires
        0 <= i <= j,
        reachable(all, failure, j),
        derives_expression(all.subrange(i, j), e),
        ends_expression(at(all, failure, j).current()),
    ensures
        expression(at(all, failure, i)) == Ok::<(ExprView, TokenStream), crate::error::ParseError>(
            (e, at(all, failure, j)),
        ),
    decreases e, j - i, 3nat,
{
    lemma_term_complete(all, failure, i, j, e);
}

/// A term that the grammar derives from `all[i..j]`: reading a term from
/// `i` comes to stand at `j` with this term read, and goes on from there.
pub proof fn lemma_term_complete(
    all: Seq<TokenView>,
    failure: Option<LexError>,
    i: int,
    j: int,
    e: ExprView,
)
    requires
        0 <= i <= j,
        reachable(all, failure, j),
        derives_term(all.subrange(i, j), e),
        ends_term(at(all, failure, j).current()),
    ensures
        term(at(all, failure, i)) == term_tail(at(all, failure, j), e),
    decreases e, j - i, 2nat,
{
    let seg = all.subrange(i, j);
    if derives_factor(seg, e) {
        lemma_factor_complete(all, failure, i, j, e);
    } else {
        let k = choose|k: int|
            0 <= k < seg.len() && additive(seg[k]) == Some(e->Binary_1) && derives_term(
                #[trigger] seg.take(k),
                *e->Binary_0,
            ) && derives_factor(seg.skip(k + 1), *e->Binary_2);
        assert(seg[k] == all[i + k]);
        assert(seg.take(k) =~= all.subrange(i, i + k));
        assert(seg.skip(k + 1) =~= all.subrange(i + k + 1, j));
        lemma_at_step(all, failure, i + k);
        lemma_term_complete(all, failure, i, i + k, *e->Binary_0);
        lemma_factor_complete(all, failure, i + k + 1, j, *e->Binary_2);
    }
}

/// A factor that the grammar derives from `all[i..j]`: reading a factor
/// from `i` comes to stand at `j` with this factor read, and goes on from
/// there.
pub proof fn lemma_factor_complete(
    all: Seq<TokenView>,
    failure: Option<LexError>,
    i: int,
    j: int,
    e: ExprView,
)
    requires
        0 <= i <= j,
        reachable(all, failure, j),
        derives_factor(all.subrange(i, j), e),
        ends_primary(at(all, failure, j).current()),
    ensures
        factor(at(all, failure, i)) == factor_tail(at(all, failure, j), e),
    decreases e, j - i, 1nat,
{
    let seg = all.subrange(i, j);
    if derives_primary(seg, e) {
        lemma_primary_complete(all, failure, i, j, e);
    } else {
        let k = choose|k: int|
            0 <= k < seg.len() && multiplicative(seg[k]) == Some(e->Binary_1) && derives_factor(
                #[trigger] seg.take(k),
                *e->Binary_0,
            ) && derives_primary(seg.skip(k + 1), *e->Binary_2);
        assert(seg[k] == all[i + k]);
        assert(seg.take(k) =~= all.subrange(i, i + k));
        assert(seg.skip(k + 1) =~= all.subrange(i + k + 1, j));
        lemma_at_step(all, failure, i + k);
        lemma_factor_complete(all, failure, i, i + k, *e->Binary_0);
        lemma_primary_complete(all, failure, i + k + 1, j, *e->Binary_2);
    }
}

/// A statement that the grammar derives from `all[i..j]` is read from
/// index `i`, and the parser then stands at `j`.
pub proof fn lemma_statement_complete(
    all: Seq<TokenView>,
    failure: Option<LexError>,
    i: int,
    j: int,
    st: StmtView,
)
    requires
        0 <= i <= j,
        reachable(all, failure, j),
        derives_statement(all.subrange(i, j), st),
    ensures
        statement(at(all, failure, i)) == Ok::<(StmtView, TokenStream), crate::error::ParseError>(
            (st, at(all, failure, j)),
        ),
{
    let seg = all.subrange(i, j);
    assert(seg.last() == all[j - 1]);
    lemma_at_step(all, failure, j - 1);
    match st {
        StmtView::Let(name, init) => {
            assert(seg[0] == all[i]);
            assert(seg[1] == all[i + 1]);
            assert(seg[2] == all[i + 2]);
            lemma_at_step(all, failure, i);
            lemma_at_step(all, failure, i + 1);
            lemma_at_step(all, failure, i + 2);
            assert(seg.subrange(3, seg.len() - 1) =~= all.subrange(i + 3, j - 1));
            lemma_expression_complete(all, failure, i + 3, j - 1, init);
            assert(let_statement(at(all, failure, i)) == Ok::<
                (StmtView, TokenStream),
                crate::error::ParseError,
            >((st, at(all, failure, j))));
        },
        StmtView::Print(e) => {
            assert(seg[0] == all[i]);
            assert(seg[1] == all[i + 1]);
            assert(seg[seg.len() - 2] == all[j - 2]);
            lemma_at_step(all, failure, i);
            lemma_at_step(all, failure, i + 1);
            lemma_at_step(all, failure, j - 2);
            assert(seg.subrange(2, seg.len() - 2) =~= all.subrange(i + 2, j - 2));
            lemma_expression_complete(all, failure, i + 2, j - 2, e);
            assert(print_statement(at(all, failure, i)) == Ok::<
                (StmtView, TokenStream),
                crate::error::ParseError,
            >((st, at(all, failure, j))));
        },
        StmtView::Expr(e) => {
            assert(seg.take(seg.len() - 1) =~= all.subrange(i, j - 1));
            lemma_expression_complete(all, failure, i, j - 1, e);
            lemma_begins_expression(at(all, failure, i));
            assert(expression_then(at(all, failure, i), TokenView::Semicolon) == Ok::<
                (ExprView, TokenStream),
                crate::error::ParseError,
            >((e, at(all, failure, j))));
        },
    }
}

/// Reading one more statement: where a statement is read from `m` and the
/// parser then stands at `k`, reading statements goes on from `k`.
pub proof fn lemma_statements_step(
    all: Seq<TokenView>,
    m: int,
    k: int,
    read: Seq<StmtView>,
    next: StmtView,
)
    requires
        0 <= m < k <= all.len(),
        statement(at(all, None, m)) == Ok::<(StmtView, TokenStream), crate::error::ParseError>(
            (next, at(all, None, k)),
        ),
    ensures
        statements(at(all, None, m), read) == statements(at(all, None, k), read.push(next)),
{
}

/// A statement of the grammar holds at least one token.
pub proof fn lemma_statement_not_empty(ts: Seq<TokenView>, st: StmtView)
    requires
        derives_statement(ts, st),
    ensures
        ts.len() >= 1,
{
}

/// Statements that the grammar derives from the first `k` tokens: reading
/// a program comes to stand at `k` with these statements read.
pub proof fn lemma_statements_complete(all: Seq<TokenView>, k: int, list: Seq<StmtView>)
    requires
        0 <= k <= all.len(),
        derives_program(all.take(k), list),
    ensures
        program(at(all, None, 0)) == statements(at(all, None, k), list),
    decreases list.len(),
{
    if list.len() == 0 {
        assert(list =~= Seq::<StmtView>::empty());
    } else {
        let pre = all.take(k);
        let m = choose|m: int|
            0 <= m <= pre.len() && derives_program(#[trigger] pre.take(m), list.drop_last())
                && derives_statement(pre.skip(m), list.last());
        assert(pre.take(m) =~= all.take(m));
        assert(pre.skip(m) =~= all.subrange(m, k));
        lemma_statement_not_empty(pre.skip(m), list.last());
        lemma_statements_complete(all, m, list.drop_last());
        lemma_statement_complete(all, None, m, k, list.last());
        lemma_statements_step(all, m, k, list.drop_last(), list.last());
        assert(list.drop_last().push(list.last()) =~= list);
    }
}

/// Every program of the grammar is read: where the tokens of a text derive
/// a list of statements, `program` gives that list.
pub proof fn lemma_program_complete(all: Seq<TokenView>, list: Seq<StmtView>)
    requires
        derives_program(all, list),
    ensures
        program(TokenStream { tokens: all, failure: None }) == Ok::<
            Seq<StmtView>,
            crate::error::ParseError,
        >(list),
{
    assert(all.take(all.len() as int) =~= all);
    lemma_statements_complete(all, all.len() as int, list);
    assert(at(all, None, 0).tokens =~= all);
}

/// The parsing functions and the grammar agree: over tokens that end with
/// the input, `program` gives a list of statements exactly when the grammar
/// derives it from the tokens. So the grammar derives at most one program
/// from a row of tokens.
pub proof fn lemma_program_agrees(all: Seq<TokenView>, list: Seq<StmtView>)
    ensures
        program(TokenStream { tokens: all, failure: None }) == Ok::<
            Seq<StmtView>,
            crate::error::ParseError,
        >(list) <==> derives_program(all, list),
{
    if derives_program(all, list) {
        lemma_program_complete(all, list);
    }
    lemma_program_sound(TokenStream { tokens: all, failure: None });
}

} // verus!
