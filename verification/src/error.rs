//! Failures of tokenizing and parsing.

use vstd::prelude::*;

verus! {

/// Why a piece of source text is not a token.
#[derive(Debug, Clone, Copy, PartialEq, Eq, Structural)]
pub enum LexError {
    /// An underscore at either end of a numeric literal, or next to its
    /// decimal point or exponent marker.
    MisplacedUnderscore,
    /// A numeric literal whose digits, point and exponent do not form a
    /// number, or whose value does not fit its type.
    MalformedNumber,
    /// A backslash at the very end of the input, inside a character or
    /// string literal.
    IncompleteEscape,
    /// A character literal that is empty, holds more than one character or
    /// lacks its closing quote.
    MalformedChar,
    /// An identifier that begins or ends with an underscore.
    MalformedIdentifier,
}

/// Why a token stream is not a program.
#[derive(Debug, Clone, Copy, PartialEq, Eq, Structural)]
pub enum ParseError {
    /// The tokenizer failed on the text that the parser had to look at.
    Lexical(LexError),
    /// A fixed token (`=`, `;`, `(` or `)`) was required and another found.
    UnexpectedToken,
    /// No token that can begin an expression where one was required.
    ExpectedExpression,
    /// `let` was not followed by a name.
    ExpectedIdentifier,
}

} // verus!
