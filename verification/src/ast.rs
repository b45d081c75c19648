//! The syntax tree that the parser builds.

use vstd::prelude::*;
use crate::token::{FloatLiteral, FloatLiteralView};

verus! {

/// The operators of the expression grammar.
#[derive(Debug, Clone, Copy, PartialEq, Eq, Structural)]
pub enum Operator {
    Plus,
    Minus,
    Star,
    Slash,
}

/// An expression. A node owns its operands.
#[derive(Debug, PartialEq)]
pub enum Expr {
    Integer(i64),
    Float(FloatLiteral),
    Char(char),
    String(String),
    Identifier(String),
    Binary(Box<Expr>, Operator, Box<Expr>),
    Unary(Operator, Box<Expr>),
    /// A call: the callee's name and the arguments in order.
    Call(String, Vec<Expr>),
}

/// A statement.
#[derive(Debug, PartialEq)]
pub enum Stmt {
    /// `let name = initializer;`
    Let(String, Expr),
    /// `print(expression);`
    Print(Expr),
    /// `expression;`
    Expr(Expr),
}

/// An expression as a mathematical tree.
pub enum ExprView {
    Integer(i64),
    Float(FloatLiteralView),
    Char(char),
    String(Seq<char>),
    Identifier(Seq<char>),
    Binary(Box<ExprView>, Operator, Box<ExprView>),
    Unary(Operator, Box<ExprView>),
    Call(Seq<char>, Seq<ExprView>),
}

/// A statement as a mathematical tree.
pub enum StmtView {
    Let(Seq<char>, ExprView),
    Print(ExprView),
    Expr(ExprView),
}

/// The tree that an expression denotes.
pub open spec fn expr_view(e: Expr) -> ExprView
    decreases e,
{
    match e {
        Expr::Integer(n) => ExprView::Integer(n),
        Expr::Float(f) => ExprView::Float(f@),
        Expr::Char(c) => ExprView::Char(c),
        Expr::String(s) => ExprView::String(s@),
        Expr::Identifier(name) => ExprView::Identifier(name@),
        Expr::Binary(left, op, right) => ExprView::Binary(
            Box::new(expr_view(*left)),
            op,
            Box::new(expr_view(*right)),
        ),
        Expr::Unary(op, operand) => ExprView::Unary(op, Box::new(expr_view(*operand))),
        Expr::Call(callee, args) => ExprView::Call(callee@, exprs_view(args@)),
    }
}

/// The trees that a list of expressions denotes, in order.
pub open spec fn exprs_view(list: Seq<Expr>) -> Seq<ExprView>
    decreases list,
{
    Seq::new(
        list.len(),
        |i: int|
            if 0 <= i < list.len() {
                expr_view(list[i])
            } else {
                ExprView::Integer(0)
            },
    )
}

impl View for Expr {
    type V = ExprView;

    open spec fn view(&self) -> ExprView {
        expr_view(*self)
    }
}

impl View for Stmt {
    type V = StmtView;

    open spec fn view(&self) -> StmtView {
        match self {
            Stmt::Let(name, init) => StmtView::Let(name@, init@),
            Stmt::Print(e) => StmtView::Print(e@),
            Stmt::Expr(e) => StmtView::Expr(e@),
        }
    }
}

/// The trees that a list of statements denotes, in order.
pub open spec fn stmts_view(list: Seq<Stmt>) -> Seq<StmtView> {
    Seq::new(list.len(), |i: int| list[i]@)
}

impl Clone for Expr {
    fn clone(&self) -> (r: Self)
        ensures
            r@ == self@,
        decreases self,
    {
        match self {
            Expr::Integer(n) => Expr::Integer(*n),
            Expr::Float(f) => Expr::Float(f.clone()),
            Expr::Char(c) => Expr::Char(*c),
            Expr::String(s) => Expr::String(s.clone()),
            Expr::Identifier(name) => Expr::Identifier(name.clone()),
            Expr::Binary(left, op, right) => Expr::Binary(
                Box::new((**left).clone()),
                *op,
                Box::new((**right).clone()),
            ),
            Expr::Unary(op, operand) => Expr::Unary(*op, Box::new((**operand).clone())),
            Expr::Call(callee, args) => {
                let mut copies: Vec<Expr> = Vec::new();
                let mut i: usize = 0;
                while i < args.len()
                    invariant
                        i <= args.len(),
                        copies.len() == i,
                        *self is Call,
                        self->Call_1 == *args,
                        forall|j: int| 0 <= j < i ==> copies@[j]@ == args@[j]@,
                    decreases args.len() - i,
                {
                    proof {
                        assert(decreases_to!(*self => self->Call_1));
                        assert(decreases_to!(self->Call_1 => self->Call_1@));
                        assert(decreases_to!(self->Call_1@ => self->Call_1@[i as int]));
                    }
                    copies.push(args[i].clone());
                    i += 1;
                }
                proof {
                    assert(exprs_view(copies@) =~= exprs_view(args@));
                }
                Expr::Call(callee.clone(), copies)
            },
        }
    }
}

impl Clone for Stmt {
    fn clone(&self) -> (r: Self)
        ensures
            r@ == self@,
    {
        match self {
            Stmt::Let(name, init) => Stmt::Let(name.clone(), init.clone()),
            Stmt::Print(e) => Stmt::Print(e.clone()),
            Stmt::Expr(e) => Stmt::Expr(e.clone()),
        }
    }
}

} // verus!
