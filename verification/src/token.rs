//! Tokens, and the mathematical values that contracts speak of.

use vstd::prelude::*;
use vstd::std_specs::cmp::PartialEqSpecImpl;

verus! {

/// A floating-point literal, kept as written. The tokenizer checks its shape
/// and leaves its conversion to a machine float to the caller.
#[derive(Debug)]
pub enum FloatLiteral {
    /// A decimal literal with the separators removed: digits with an
    /// optional point, then an optional exponent (`e` or `E`, an optional
    /// sign, digits).
    Decimal(String),
    /// A hexadecimal literal with a binary exponent. It stands for
    /// `(whole + sum of fraction[i] * 16^-(i+1)) * 2^exponent`; each fraction
    /// digit is below sixteen.
    Hex { whole: u64, fraction: Vec<u8>, exponent: i32 },
}

/// What a [`FloatLiteral`] holds.
pub enum FloatLiteralView {
    Decimal(Seq<char>),
    Hex { whole: u64, fraction: Seq<u8>, exponent: i32 },
}

impl View for FloatLiteral {
    type V = FloatLiteralView;

    open spec fn view(&self) -> FloatLiteralView {
        match self {
            FloatLiteral::Decimal(text) => FloatLiteralView::Decimal(text@),
            FloatLiteral::Hex { whole, fraction, exponent } => FloatLiteralView::Hex {
                whole: *whole,
                fraction: fraction@,
                exponent: *exponent,
            },
        }
    }
}

/// The smallest classified unit of source text.
#[derive(Debug)]
pub enum Token {
    /// The keyword `let`.
    Let,
    /// The keyword `print`.
    Print,
    /// A name, and whether its first character is an upper-case letter.
    Identifier(String, bool),
    Integer(i64),
    Float(FloatLiteral),
    Char(char),
    String(String),
    /// `+`
    Plus,
    /// `+=`
    PlusEquals,
    /// `-`
    Minus,
    /// `-=`
    MinusEquals,
    /// `*`
    Star,
    /// `*=`
    StarEquals,
    /// `**`
    Exp,
    /// `**=`
    ExpEquals,
    /// `/`
    Slash,
    /// `/=`
    SlashEquals,
    /// `++`
    Increment,
    /// `--`
    Decrement,
    /// `=`
    Equals,
    /// `==`
    EqualsEquals,
    /// `<=`
    LessEquals,
    /// `>=`
    GreaterEquals,
    /// `.`
    Dot,
    /// `,`
    Comma,
    /// `:`
    Colon,
    /// `;`
    Semicolon,
    /// `(`
    LParen,
    /// `)`
    RParen,
    /// `[`
    LBracket,
    /// `]`
    RBracket,
    /// `{`
    LCurly,
    /// `}`
    RCurly,
    /// `<`
    LAngle,
    /// `>`
    RAngle,
    /// `..`
    Iter,
    /// `..=`
    IterIncl,
    /// `...`
    Ellipsis,
    /// `->`
    Arrow,
    /// `=>`
    DArrow,
    /// The end of the input.
    EOF,
    /// A character that begins no token.
    Unknown(char),
}

/// What a [`Token`] holds, with texts as sequences of characters.
pub enum TokenView {
    Let,
    Print,
    Identifier(Seq<char>, bool),
    Integer(i64),
    Float(FloatLiteralView),
    Char(char),
    String(Seq<char>),
    Plus,
    PlusEquals,
    Minus,
    MinusEquals,
    Star,
    StarEquals,
    Exp,
    ExpEquals,
    Slash,
    SlashEquals,
    Increment,
    Decrement,
    Equals,
    EqualsEquals,
    LessEquals,
    GreaterEquals,
    Dot,
    Comma,
    Colon,
    Semicolon,
    LParen,
    RParen,
    LBracket,
    RBracket,
    LCurly,
    RCurly,
    LAngle,
    RAngle,
    Iter,
    IterIncl,
    Ellipsis,
    Arrow,
    DArrow,
    EOF,
    Unknown(char),
}

impl View for Token {
    type V = TokenView;

    open spec fn view(&self) -> TokenView {
        match self {
            Token::Let => TokenView::Let,
            Token::Print => TokenView::Print,
            Token::Identifier(name, upper) => TokenView::Identifier(name@, *upper),
            Token::Integer(n) => TokenView::Integer(*n),
            Token::Float(f) => TokenView::Float(f@),
            Token::Char(c) => TokenView::Char(*c),
            Token::String(s) => TokenView::String(s@),
            Token::Plus => TokenView::Plus,
            Token::PlusEquals => TokenView::PlusEquals,
            Token::Minus => TokenView::Minus,
            Token::MinusEquals => TokenView::MinusEquals,
            Token::Star => TokenView::Star,
            Token::StarEquals => TokenView::StarEquals,
            Token::Exp => TokenView::Exp,
            Token::ExpEquals => TokenView::ExpEquals,
            Token::Slash => TokenView::Slash,
            Token::SlashEquals => TokenView::SlashEquals,
            Token::Increment => TokenView::Increment,
            Token::Decrement => TokenView::Decrement,
            Token::Equals => TokenView::Equals,
            Token::EqualsEquals => TokenView::EqualsEquals,
            Token::LessEquals => TokenView::LessEquals,
            Token::GreaterEquals => TokenView::GreaterEquals,
            Token::Dot => TokenView::Dot,
            Token::Comma => TokenView::Comma,
            Token::Colon => TokenView::Colon,
            Token::Semicolon => TokenView::Semicolon,
            Token::LParen => TokenView::LParen,
            Token::RParen => TokenView::RParen,
            Token::LBracket => TokenView::LBracket,
            Token::RBracket => TokenView::RBracket,
            Token::LCurly => TokenView::LCurly,
            Token::RCurly => TokenView::RCurly,
            Token::LAngle => TokenView::LAngle,
            Token::RAngle => TokenView::RAngle,
            Token::Iter => TokenView::Iter,
            Token::IterIncl => TokenView::IterIncl,
            Token::Ellipsis => TokenView::Ellipsis,
            Token::Arrow => TokenView::Arrow,
            Token::DArrow => TokenView::DArrow,
            Token::EOF => TokenView::EOF,
            Token::Unknown(c) => TokenView::Unknown(*c),
        }
    }
}

/// Whether two rows of digits are the same.
fn same_digits(a: &Vec<u8>, b: &Vec<u8>) -> (r: bool)
    ensures
        r == (a@ == b@),
{
    if a.len() != b.len() {
        return false;
    }
    let mut i: usize = 0;
    while i < a.len()
        invariant
            i <= a.len(),
            a.len() == b.len(),
            forall|j: int| 0 <= j < i ==> a@[j] == b@[j],
        decreases a.len() - i,
    {
        if a[i] != b[i] {
            return false;
        }
        i += 1;
    }
    assert(a@ =~= b@);
    true
}

impl Clone for FloatLiteral {
    fn clone(&self) -> (r: Self)
        ensures
            r@ == self@,
    {
        match self {
            FloatLiteral::Decimal(text) => FloatLiteral::Decimal(text.clone()),
            FloatLiteral::Hex { whole, fraction, exponent } => FloatLiteral::Hex {
                whole: *whole,
                fraction: fraction.clone(),
                exponent: *exponent,
            },
        }
    }
}

/// Two literals are equal where they are written alike.
impl PartialEq for FloatLiteral {
    fn eq(&self, other: &Self) -> (r: bool) {
        match (self, other) {
            (FloatLiteral::Decimal(a), FloatLiteral::Decimal(b)) => *a == *b,
            (
                FloatLiteral::Hex { whole: w1, fraction: f1, exponent: e1 },
                FloatLiteral::Hex { whole: w2, fraction: f2, exponent: e2 },
            ) => *w1 == *w2 && same_digits(f1, f2) && *e1 == *e2,
            _ => false,
        }
    }
}

impl PartialEqSpecImpl for FloatLiteral {
    open spec fn obeys_eq_spec() -> bool {
        true
    }

    open spec fn eq_spec(&self, other: &Self) -> bool {
        self@ == other@
    }
}

impl Clone for Token {
    fn clone(&self) -> (r: Self)
        ensures
            r@ == self@,
    {
        match self {
            Token::Let => Token::Let,
            Token::Print => Token::Print,
            Token::Identifier(name, upper) => Token::Identifier(name.clone(), *upper),
            Token::Integer(n) => Token::Integer(*n),
            Token::Float(f) => Token::Float(f.clone()),
            Token::Char(c) => Token::Char(*c),
            Token::String(text) => Token::String(text.clone()),
            Token::Plus => Token::Plus,
            Token::PlusEquals => Token::PlusEquals,
            Token::Minus => Token::Minus,
            Token::MinusEquals => Token::MinusEquals,
            Token::Star => Token::Star,
            Token::StarEquals => Token::StarEquals,
            Token::Exp => Token::Exp,
            Token::ExpEquals => Token::ExpEquals,
            Token::Slash => Token::Slash,
            Token::SlashEquals => Token::SlashEquals,
            Token::Increment => Token::Increment,
            Token::Decrement => Token::Decrement,
            Token::Equals => Token::Equals,
            Token::EqualsEquals => Token::EqualsEquals,
            Token::LessEquals => Token::LessEquals,
            Token::GreaterEquals => Token::GreaterEquals,
            Token::Dot => Token::Dot,
            Token::Comma => Token::Comma,
            Token::Colon => Token::Colon,
            Token::Semicolon => Token::Semicolon,
            Token::LParen => Token::LParen,
            Token::RParen => Token::RParen,
            Token::LBracket => Token::LBracket,
            Token::RBracket => Token::RBracket,
            Token::LCurly => Token::LCurly,
            Token::RCurly => Token::RCurly,
            Token::LAngle => Token::LAngle,
            Token::RAngle => Token::RAngle,
            Token::Iter => Token::Iter,
            Token::IterIncl => Token::IterIncl,
            Token::Ellipsis => Token::Ellipsis,
            Token::Arrow => Token::Arrow,
            Token::DArrow => Token::DArrow,
            Token::EOF => Token::EOF,
            Token::Unknown(c) => Token::Unknown(*c),
        }
    }
}

/// Two tokens are equal where they are of one kind and hold the same.
impl PartialEq for Token {
    fn eq(&self, other: &Self) -> (r: bool) {
        match (self, other) {
            (Token::Let, Token::Let) => true,
            (Token::Print, Token::Print) => true,
            (Token::Identifier(a, x), Token::Identifier(b, y)) => *a == *b && *x == *y,
            (Token::Integer(a), Token::Integer(b)) => *a == *b,
            (Token::Float(a), Token::Float(b)) => *a == *b,
            (Token::Char(a), Token::Char(b)) => *a == *b,
            (Token::String(a), Token::String(b)) => *a == *b,
            (Token::Plus, Token::Plus) => true,
            (Token::PlusEquals, Token::PlusEquals) => true,
            (Token::Minus, Token::Minus) => true,
            (Token::MinusEquals, Token::MinusEquals) => true,
            (Token::Star, Token::Star) => true,
            (Token::StarEquals, Token::StarEquals) => true,
            (Token::Exp, Token::Exp) => true,
            (Token::ExpEquals, Token::ExpEquals) => true,
            (Token::Slash, Token::Slash) => true,
            (Token::SlashEquals, Token::SlashEquals) => true,
            (Token::Increment, Token::Increment) => true,
            (Token::Decrement, Token::Decrement) => true,
            (Token::Equals, Token::Equals) => true,
            (Token::EqualsEquals, Token::EqualsEquals) => true,
            (Token::LessEquals, Token::LessEquals) => true,
            (Token::GreaterEquals, Token::GreaterEquals) => true,
            (Token::Dot, Token::Dot) => true,
            (Token::Comma, Token::Comma) => true,
            (Token::Colon, Token::Colon) => true,
            (Token::Semicolon, Token::Semicolon) => true,
            (Token::LParen, Token::LParen) => true,
            (Token::RParen, Token::RParen) => true,
            (Token::LBracket, Token::LBracket) => true,
            (Token::RBracket, Token::RBracket) => true,
            (Token::LCurly, Token::LCurly) => true,
            (Token::RCurly, Token::RCurly) => true,
            (Token::LAngle, Token::LAngle) => true,
            (Token::RAngle, Token::RAngle) => true,
            (Token::Iter, Token::Iter) => true,
            (Token::IterIncl, Token::IterIncl) => true,
            (Token::Ellipsis, Token::Ellipsis) => true,
            (Token::Arrow, Token::Arrow) => true,
            (Token::DArrow, Token::DArrow) => true,
            (Token::EOF, Token::EOF) => true,
            (Token::Unknown(a), Token::Unknown(b)) => *a == *b,
            _ => false,
        }
    }
}

impl PartialEqSpecImpl for Token {
    open spec fn obeys_eq_spec() -> bool {
        true
    }

    open spec fn eq_spec(&self, other: &Self) -> bool {
        self@ == other@
    }
}

} // verus!
