//! The tokenizer: a cursor over the characters of a text that hands out one
//! token at a time.

use vstd::prelude::*;
use crate::chars::{
    chars_of,
    is_hex_digit,
    is_letter,
    is_uppercase,
    is_word_char,
    word_start,
    numeric,
    string_of,
    unescape,
};
use crate::error::LexError;
use crate::laws::{
    decimal_integer_at,
    decimal_integer_value,
    hex_integer_at,
    hex_integer_value,
    lemma_scan_decimal_integer,
    lemma_scan_hex_integer,
};
use crate::number::{
    has_either,
    is_decimal_float,
    lemma_without_underscores_step,
    misplaced_underscore,
    parse_hex_float,
    parse_signed,
    sanitized,
    without_underscores,
};
use crate::scan::{
    after_pattern,
    decimal_end,
    decimal_marks,
    hex_end,
    hex_literal_char,
    hex_marks,
    lemma_after_pattern_bounds,
    lemma_whitespace_end_bounds,
    scan,
    scan_char,
    scan_decimal,
    scan_hex,
    scan_number,
    scan_string,
    scan_symbol,
    scan_word,
    string_rest,
    whitespace_end,
    word_end,
    Scanned,
};
use crate::token::{FloatLiteral, Token, TokenView};

verus! {

/// A tokenizer over a text. Its cursor only moves forward.
pub struct Lexer {
    input: Vec<char>,
    position: usize,
}

/// Whether the outcome of a read is the expected one: the token that the
/// grammar gives, with the cursor just behind it, or the grammar's error.
pub open spec fn agrees(
    outcome: Result<Token, LexError>,
    cursor: int,
    expected: Result<Scanned, LexError>,
) -> bool {
    match expected {
        Ok(scanned) => outcome is Ok && outcome->Ok_0@ == scanned.token && cursor == scanned.end,
        Err(e) => outcome is Err && outcome->Err_0 == e,
    }
}

/// Whether `c` is among the characters of `list`.
pub fn contains_char(list: &[char], c: char) -> (r: bool)
    ensures
        r == list@.contains(c),
{
    let mut i: usize = 0;
    while i < list.len()
        invariant
            i <= list.len(),
            forall|j: int| 0 <= j < i ==> list@[j] != c,
        decreases list.len() - i,
    {
        if list[i] == c {
            return true;
        }
        i += 1;
    }
    false
}

impl Lexer {
    #[verifier::type_invariant]
    spec fn cursor_in_text(self) -> bool {
        self.position <= self.input.len()
    }

    /// The text that is tokenized.
    pub closed spec fn source(&self) -> Seq<char> {
        self.input@
    }

    /// The position of the next character to read.
    pub closed spec fn cursor(&self) -> int {
        self.position as int
    }

    /// A tokenizer at the beginning of `input`.
    pub fn new(input: &str) -> (lexer: Self)
        ensures
            lexer.source() == input@,
            lexer.cursor() == 0,
    {
        Self { input: chars_of(input), position: 0 }
    }

    /// The character `n` places behind the cursor, if the text reaches that
    /// far.
    pub fn peek(&self, n: usize) -> (c: Option<char>)
        ensures
            c == if self.cursor() + n < self.source().len() {
                Some(self.source()[self.cursor() + n])
            } else {
                None
            },
            0 <= self.cursor() <= self.source().len(),
    {
        proof {
            use_type_invariant(self);
        }
        if n < self.input.len() - self.position {
            Some(self.input[self.position + n])
        } else {
            None
        }
    }

    /// Moves the cursor `n` characters forward.
    fn advance(&mut self, n: usize)
        requires
            old(self).cursor() + n <= old(self).source().len(),
        ensures
            final(self).source() == old(self).source(),
            final(self).cursor() == old(self).cursor() + n,
    {
        assert(self.input@.len() == self.input.len());
        self.position += n;
    }

    /// Whether `pattern` stands at the cursor.
    fn at_pattern(&self, pattern: &Vec<char>) -> (r: bool)
        requires
            self.cursor() + pattern.len() <= self.source().len(),
        ensures
            r == (self.source().subrange(self.cursor(), self.cursor() + pattern.len())
                =~= pattern@),
    {
        let ghost here = self.source().subrange(self.cursor(), self.cursor() + pattern.len());
        let mut i: usize = 0;
        while i < pattern.len()
            invariant
                i <= pattern.len(),
                self.position + pattern.len() <= self.input.len(),
                here == self.input@.subrange(
                    self.position as int,
                    self.position + pattern.len(),
                ),
                forall|j: int| 0 <= j < i ==> here[j] == pattern@[j],
            decreases pattern.len() - i,
        {
            if self.input[self.position + i] != pattern[i] {
                assert(here[i as int] != pattern@[i as int]);
                return false;
            }
            i += 1;
        }
        true
    }

    /// Moves the cursor behind the next occurrence of `pattern`. Where there
    /// is none, it moves to the first position at which the pattern no longer
    /// fits into the text.
    pub fn advance_until(&mut self, pattern: &str)
        ensures
            final(self).source() == old(self).source(),
            final(self).cursor() == after_pattern(
                old(self).source(),
                old(self).cursor(),
                pattern@,
            ),
            old(self).cursor() <= final(self).cursor() <= final(self).source().len(),
    {
        proof {
            use_type_invariant(&*self);
            lemma_after_pattern_bounds(self.source(), self.cursor(), pattern@);
        }
        let wanted: Vec<char> = chars_of(pattern);
        let m: usize = wanted.len();
        while m <= self.input.len() - self.position
            invariant
                self.input@ == old(self).input@,
                old(self).position <= self.position <= self.input.len(),
                m == wanted.len(),
                wanted@ == pattern@,
                after_pattern(self.input@, self.position as int, wanted@) == after_pattern(
                    old(self).input@,
                    old(self).position as int,
                    pattern@,
                ),
            decreases self.input.len() - self.position,
        {
            if self.at_pattern(&wanted) {
                self.advance(m);
                return;
            }
            self.advance(1);
        }
    }

    /// Moves the cursor to the next character that is no whitespace.
    pub fn skip_whitespace(&mut self)
        ensures
            final(self).source() == old(self).source(),
            final(self).cursor() == whitespace_end(old(self).source(), old(self).cursor()),
            old(self).cursor() <= final(self).cursor() <= final(self).source().len(),
    {
        proof {
            use_type_invariant(&*self);
            lemma_whitespace_end_bounds(self.source(), self.cursor());
        }
        while self.position < self.input.len() && self.input[self.position].is_whitespace()
            invariant
                self.input@ == old(self).input@,
                self.position <= self.input.len(),
                whitespace_end(self.input@, self.position as int) == whitespace_end(
                    old(self).input@,
                    old(self).position as int,
                ),
            decreases self.input.len() - self.position,
        {
            self.advance(1);
        }
    }

    /// The text without its underscores.
    pub fn strip_underscores(&self, s: &str) -> (r: String)
        ensures
            r@ == without_underscores(s@),
    {
        let chars: Vec<char> = chars_of(s);
        let mut out = String::new();
        let mut i: usize = 0;
        proof {
            reveal(Seq::filter);
            assert(chars@.take(0) =~= Seq::<char>::empty());
        }
        while i < chars.len()
            invariant
                i <= chars.len(),
                out@ == without_underscores(chars@.take(i as int)),
            decreases chars.len() - i,
        {
            proof {
                lemma_without_underscores_step(chars@, i as int);
            }
            if chars[i] != '_' {
                out.push(chars[i]);
            }
            i += 1;
        }
        proof {
            assert(chars@.take(chars.len() as int) =~= chars@);
        }
        out
    }

    /// Checks the separators of a numeric literal and removes them. `None`
    /// where an underscore stands at either end of the text or beside one of
    /// `forbid_before_after`, or where the text begins with one of
    /// `forbid_start`.
    pub fn sanitize_number(s: &str, forbid_start: &[char], forbid_before_after: &[char]) -> (r:
        Option<String>)
        ensures
            match sanitized(s@, forbid_start@, forbid_before_after@) {
                Some(text) => r is Some && r->Some_0@ == text,
                None => r is None,
            },
    {
        let chars: Vec<char> = chars_of(s);
        let len: usize = chars.len();
        let mut result = String::new();
        let mut i: usize = 0;
        proof {
            reveal(Seq::filter);
            assert(chars@.take(0) =~= Seq::<char>::empty());
        }
        while i < len
            invariant
                i <= len,
                len == chars.len(),
                chars@ == s@,
                result@ == without_underscores(chars@.take(i as int)),
                forall|j: int|
                    0 <= j < i ==> !misplaced_underscore(chars@, j, forbid_before_after@),
                i > 0 ==> !forbid_start@.contains(chars@[0]),
            decreases len - i,
        {
            let c: char = chars[i];
            proof {
                lemma_without_underscores_step(chars@, i as int);
            }
            if c == '_' {
                if i == 0 || i == len - 1 {
                    assert(misplaced_underscore(chars@, i as int, forbid_before_after@));
                    return None;
                }
                let prev: char = chars[i - 1];
                let next: char = chars[i + 1];
                if contains_char(forbid_before_after, prev) || contains_char(
                    forbid_before_after,
                    next,
                ) {
                    assert(misplaced_underscore(chars@, i as int, forbid_before_after@));
                    return None;
                }
            } else if contains_char(forbid_start, c) && i == 0 {
                return None;
            } else {
                result.push(c);
            }
            i += 1;
        }
        proof {
            assert(chars@.take(len as int) =~= chars@);
        }
        Some(result)
    }
}

/// Whether `c` may stand in a hexadecimal literal behind its prefix.
fn is_hex_literal_char(c: char) -> (r: bool)
    ensures
        r == hex_literal_char(c),
{
    is_hex_digit(c) || c == '.' || c == 'p' || c == 'P' || c == '+' || c == '-' || c == '_'
}

impl Lexer {
    /// Whether the character `n` places behind the cursor is `c`.
    fn sees(&self, n: usize, c: char) -> (r: bool)
        ensures
            r == (self.cursor() + n < self.source().len() && self.source()[self.cursor() + n]
                == c),
    {
        match self.peek(n) {
            Some(found) => found == c,
            None => false,
        }
    }

    /// Reads the keyword or identifier at the cursor, where a letter or an
    /// underscore stands. A word that begins or ends with an underscore is
    /// no token.
    fn read_identifier_or_keyword(&mut self) -> (r: Result<Token, LexError>)
        requires
            0 <= old(self).cursor() < old(self).source().len(),
            word_start(old(self).source()[old(self).cursor()]),
        ensures
            final(self).source() == old(self).source(),
            old(self).cursor() < final(self).cursor() <= final(self).source().len(),
            agrees(r, final(self).cursor(), scan_word(old(self).source(), old(self).cursor())),
    {
        let start: usize = self.position;
        self.advance(1);
        while self.position < self.input.len() && is_word_char(self.input[self.position])
            invariant
                self.input@ == old(self).input@,
                start == old(self).position,
                start < self.position <= self.input.len(),
                word_end(self.input@, self.position as int) == word_end(
                    old(self).input@,
                    start as int,
                ),
            decreases self.input.len() - self.position,
        {
            self.advance(1);
        }
        let end: usize = self.position;
        let ghost word = self.input@.subrange(start as int, end as int);
        if self.input[start] == '_' || self.input[end - 1] == '_' {
            return Err(LexError::MalformedIdentifier);
        }
        let first: char = self.input[start];
        if end - start == 3 && first == 'l' && self.input[start + 1] == 'e' && self.input[start
            + 2] == 't' {
            assert(word =~= seq!['l', 'e', 't']);
            return Ok(Token::Let);
        }
        if end - start == 5 && first == 'p' && self.input[start + 1] == 'r' && self.input[start
            + 2] == 'i' && self.input[start + 3] == 'n' && self.input[start + 4] == 't' {
            assert(word =~= seq!['p', 'r', 'i', 'n', 't']);
            return Ok(Token::Print);
        }
        proof {
            let kw_let = seq!['l', 'e', 't'];
            let kw_print = seq!['p', 'r', 'i', 'n', 't'];
            if word == kw_let {
                assert(word[0] == kw_let[0] && word[1] == kw_let[1] && word[2] == kw_let[2]);
            }
            if word == kw_print {
                assert(word[0] == kw_print[0] && word[1] == kw_print[1] && word[2] == kw_print[2]
                    && word[3] == kw_print[3] && word[4] == kw_print[4]);
            }
        }
        let name: String = string_of(&self.input, start, end);
        Ok(Token::Identifier(name, is_uppercase(first)))
    }

    /// Reads the numeric literal at the cursor: hexadecimal behind `0x` or
    /// `0X`, else decimal.
    fn read_number(&mut self) -> (r: Result<Token, LexError>)
        requires
            0 <= old(self).cursor() < old(self).source().len(),
        ensures
            final(self).source() == old(self).source(),
            old(self).cursor() <= final(self).cursor() <= final(self).source().len(),
            agrees(r, final(self).cursor(), scan_number(old(self).source(), old(self).cursor())),
    {
        if self.sees(0, '0') && (self.sees(1, 'x') || self.sees(1, 'X')) {
            self.advance(2);
            return self.read_hex_float_or_int();
        }
        self.read_decimal_or_scientific()
    }

    /// Reads the decimal literal at the cursor: an integer, or a float where
    /// it holds a point or an exponent. Digits that stand there as an
    /// integer literal are handed out as the integer they denote.
    fn read_decimal_or_scientific(&mut self) -> (r: Result<Token, LexError>)
        ensures
            final(self).source() == old(self).source(),
            old(self).cursor() <= final(self).cursor() <= final(self).source().len(),
            agrees(r, final(self).cursor(), scan_decimal(old(self).source(), old(self).cursor())),
            forall|end: int| #[trigger]
                decimal_integer_at(old(self).source(), old(self).cursor(), end) ==> {
                    &&& r is Ok
                    &&& r->Ok_0@ == TokenView::Integer(
                        decimal_integer_value(old(self).source(), old(self).cursor(), end),
                    )
                    &&& final(self).cursor() == end
                },
    {
        proof {
            use_type_invariant(&*self);
        }
        let start: usize = self.position;
        let mut has_dot: bool = false;
        let mut scanning: bool = true;
        while scanning
            invariant
                self.input@ == old(self).input@,
                start == old(self).position,
                start <= self.position <= self.input.len(),
                decimal_end(self.input@, self.position as int, has_dot) == decimal_end(
                    old(self).input@,
                    start as int,
                    false,
                ),
                !scanning ==> decimal_end(self.input@, self.position as int, has_dot)
                    == self.position,
            decreases
                    self.input.len() - self.position + if scanning {
                        1int
                    } else {
                        0int
                    },
        {
            match self.peek(0) {
                Some(c) => {
                    if c.is_numeric() || c == '_' {
                        self.advance(1);
                    } else if c == '.' && !has_dot {
                        has_dot = true;
                        self.advance(1);
                    } else if c == 'e' || c == 'E' {
                        self.advance(1);
                        if self.sees(0, '+') || self.sees(0, '-') {
                            self.advance(1);
                        }
                    } else {
                        scanning = false;
                    }
                },
                None => {
                    scanning = false;
                },
            }
        }
        let raw: String = string_of(&self.input, start, self.position);
        let none: [char; 0] = [];
        let marks: [char; 3] = ['.', 'e', 'E'];
        proof {
            assert forall|end: int| #[trigger]
                decimal_integer_at(self.input@, start as int, end) implies scan_decimal(
                self.input@,
                start as int,
            ) == Ok::<Scanned, LexError>(
                Scanned {
                    token: TokenView::Integer(decimal_integer_value(self.input@, start as int, end)),
                    end,
                },
            ) by {
                lemma_scan_decimal_integer(self.input@, start as int, end);
            }
            assert(none@ =~= Seq::<char>::empty());
            assert(marks@ =~= decimal_marks());
        }
        let clean: String = match Self::sanitize_number(raw.as_str(), &none, &marks) {
            Some(clean) => clean,
            None => {
                return Err(LexError::MisplacedUnderscore);
            },
        };
        let text: Vec<char> = chars_of(clean.as_str());
        if has_either(&text, '.', '.') || has_either(&text, 'e', 'E') {
            if is_decimal_float(&text) {
                Ok(Token::Float(FloatLiteral::Decimal(clean)))
            } else {
                Err(LexError::MalformedNumber)
            }
        } else {
            match parse_signed(&text, 10, i64::MIN, i64::MAX) {
                Some(value) => Ok(Token::Integer(value)),
                None => Err(LexError::MalformedNumber),
            }
        }
    }

    /// Reads the hexadecimal literal whose prefix ends at the cursor: an
    /// integer, or a float where it holds a binary exponent. Digits that
    /// stand there as an integer literal are handed out as the integer they
    /// denote in base sixteen.
    fn read_hex_float_or_int(&mut self) -> (r: Result<Token, LexError>)
        ensures
            final(self).source() == old(self).source(),
            old(self).cursor() <= final(self).cursor() <= final(self).source().len(),
            agrees(r, final(self).cursor(), scan_hex(old(self).source(), old(self).cursor())),
            forall|end: int| #[trigger]
                hex_integer_at(old(self).source(), old(self).cursor(), end) ==> {
                    &&& r is Ok
                    &&& r->Ok_0@ == TokenView::Integer(
                        hex_integer_value(old(self).source(), old(self).cursor(), end),
                    )
                    &&& final(self).cursor() == end
                },
    {
        proof {
            use_type_invariant(&*self);
        }
        let start: usize = self.position;
        while self.position < self.input.len() && is_hex_literal_char(self.input[self.position])
            invariant
                self.input@ == old(self).input@,
                start == old(self).position,
                start <= self.position <= self.input.len(),
                hex_end(self.input@, self.position as int) == hex_end(
                    old(self).input@,
                    start as int,
                ),
            decreases self.input.len() - self.position,
        {
            self.advance(1);
        }
        let raw: String = string_of(&self.input, start, self.position);
        let none: [char; 0] = [];
        let marks: [char; 3] = ['.', 'p', 'P'];
        proof {
            assert forall|end: int| #[trigger]
                hex_integer_at(self.input@, start as int, end) implies scan_hex(
                self.input@,
                start as int,
            ) == Ok::<Scanned, LexError>(
                Scanned {
                    token: TokenView::Integer(hex_integer_value(self.input@, start as int, end)),
                    end,
                },
            ) by {
                lemma_scan_hex_integer(self.input@, start as int, end);
            }
            assert(none@ =~= Seq::<char>::empty());
            assert(marks@ =~= hex_marks());
        }
        let clean: String = match Self::sanitize_number(raw.as_str(), &none, &marks) {
            Some(clean) => clean,
            None => {
                return Err(LexError::MisplacedUnderscore);
            },
        };
        let text: Vec<char> = chars_of(clean.as_str());
        if has_either(&text, 'p', 'P') {
            match parse_hex_float(&text) {
                Some(parts) => Ok(Token::Float(parts)),
                None => Err(LexError::MalformedNumber),
            }
        } else {
            match parse_signed(&text, 16, i64::MIN, i64::MAX) {
                Some(value) => Ok(Token::Integer(value)),
                None => Err(LexError::MalformedNumber),
            }
        }
    }

    /// Reads the character literal whose opening quote stands at the cursor.
    fn read_char(&mut self) -> (r: Result<Token, LexError>)
        requires
            0 <= old(self).cursor() < old(self).source().len(),
        ensures
            final(self).source() == old(self).source(),
            old(self).cursor() <= final(self).cursor() <= final(self).source().len(),
            agrees(r, final(self).cursor(), scan_char(old(self).source(), old(self).cursor())),
    {
        self.advance(1);
        let c: char = match self.peek(0) {
            Some(first) => {
                self.advance(1);
                if first == '\\' {
                    match self.peek(0) {
                        Some(escaped) => {
                            self.advance(1);
                            unescape(escaped)
                        },
                        None => {
                            return Err(LexError::IncompleteEscape);
                        },
                    }
                } else {
                    first
                }
            },
            None => {
                return Err(LexError::MalformedChar);
            },
        };
        if !self.sees(0, '\'') {
            return Err(LexError::MalformedChar);
        }
        self.advance(1);
        Ok(Token::Char(c))
    }

    /// Reads the string literal whose opening quote stands at the cursor. A
    /// literal without its closing quote runs to the end of the text and is
    /// taken as it stands: unlike a character literal, which fails there.
    fn read_string(&mut self) -> (r: Result<Token, LexError>)
        requires
            0 <= old(self).cursor() < old(self).source().len(),
        ensures
            final(self).source() == old(self).source(),
            old(self).cursor() <= final(self).cursor() <= final(self).source().len(),
            agrees(r, final(self).cursor(), scan_string(old(self).source(), old(self).cursor())),
    {
        self.advance(1);
        let mut result = String::new();
        loop
            invariant
                self.input@ == old(self).input@,
                old(self).position < self.position <= self.input.len(),
                string_rest(self.input@, self.position as int, result@) == scan_string(
                    old(self).input@,
                    old(self).position as int,
                ),
            decreases self.input.len() - self.position,
        {
            let c: char = match self.peek(0) {
                Some(c) => c,
                None => {
                    return Ok(Token::String(result));
                },
            };
            self.advance(1);
            if c == '"' {
                return Ok(Token::String(result));
            }
            let ch: char = if c == '\\' {
                match self.peek(0) {
                    Some(escaped) => {
                        self.advance(1);
                        unescape(escaped)
                    },
                    None => {
                        return Err(LexError::IncompleteEscape);
                    },
                }
            } else {
                c
            };
            result.push(ch);
        }
    }

    /// Reads the operator, punctuation mark or bracket at the cursor, taking
    /// the longest that is spelled there. A character that begins none is
    /// handed out as unknown.
    fn read_symbol(&mut self) -> (token: Token)
        requires
            0 <= old(self).cursor() < old(self).source().len(),
        ensures
            final(self).source() == old(self).source(),
            old(self).cursor() < final(self).cursor() <= final(self).source().len(),
            token@ == scan_symbol(old(self).source(), old(self).cursor()).token,
            final(self).cursor() == scan_symbol(old(self).source(), old(self).cursor()).end,
    {
        let c: char = self.input[self.position];
        if c == '+' {
            if self.sees(1, '+') {
                self.advance(2);
                Token::Increment
            } else if self.sees(1, '=') {
                self.advance(2);
                Token::PlusEquals
            } else {
                self.advance(1);
                Token::Plus
            }
        } else if c == '-' {
            if self.sees(1, '-') {
                self.advance(2);
                Token::Decrement
            } else if self.sees(1, '=') {
                self.advance(2);
                Token::MinusEquals
            } else if self.sees(1, '>') {
                self.advance(2);
                Token::Arrow
            } else {
                self.advance(1);
                Token::Minus
            }
        } else if c == '*' {
            if self.sees(1, '*') {
                if self.sees(2, '=') {
                    self.advance(3);
                    Token::ExpEquals
                } else {
                    self.advance(2);
                    Token::Exp
                }
            } else if self.sees(1, '=') {
                self.advance(2);
                Token::StarEquals
            } else {
                self.advance(1);
                Token::Star
            }
        } else if c == '/' {
            if self.sees(1, '=') {
                self.advance(2);
                Token::SlashEquals
            } else {
                self.advance(1);
                Token::Slash
            }
        } else if c == '=' {
            if self.sees(1, '=') {
                self.advance(2);
                Token::EqualsEquals
            } else if self.sees(1, '>') {
                self.advance(2);
                Token::DArrow
            } else {
                self.advance(1);
                Token::Equals
            }
        } else if c == '<' {
            if self.sees(1, '=') {
                self.advance(2);
                Token::LessEquals
            } else {
                self.advance(1);
                Token::LAngle
            }
        } else if c == '>' {
            if self.sees(1, '=') {
                self.advance(2);
                Token::GreaterEquals
            } else {
                self.advance(1);
                Token::RAngle
            }
        } else if c == '.' {
            if self.sees(1, '.') {
                if self.sees(2, '.') {
                    self.advance(3);
                    Token::Ellipsis
                } else if self.sees(2, '=') {
                    self.advance(3);
                    Token::IterIncl
                } else {
                    self.advance(2);
                    Token::Iter
                }
            } else {
                self.advance(1);
                Token::Dot
            }
        } else {
            self.advance(1);
            if c == '(' {
                Token::LParen
            } else if c == ')' {
                Token::RParen
            } else if c == '[' {
                Token::LBracket
            } else if c == ']' {
                Token::RBracket
            } else if c == '{' {
                Token::LCurly
            } else if c == '}' {
                Token::RCurly
            } else if c == ',' {
                Token::Comma
            } else if c == ':' {
                Token::Colon
            } else if c == ';' {
                Token::Semicolon
            } else {
                Token::Unknown(c)
            }
        }
    }

    /// Hands out the next token and moves the cursor behind it. Whitespace
    /// and comments before the token are passed over. At the end of the text
    /// every call hands out the end-of-input token. Where the text at the
    /// cursor is no token, the call fails and leaves the cursor where it was.
    pub fn next_token(&mut self) -> (r: Result<Token, LexError>)
        ensures
            final(self).source() == old(self).source(),
            agrees(r, final(self).cursor(), scan(old(self).source(), old(self).cursor())),
            r is Err ==> final(self).cursor() == old(self).cursor(),
            0 <= old(self).cursor() <= final(self).cursor() <= final(self).source().len(),
        decreases old(self).source().len() - old(self).cursor(),
    {
        proof {
            use_type_invariant(&*self);
        }
        let start: usize = self.position;
        self.skip_whitespace();
        let outcome: Result<Token, LexError> = match self.peek(0) {
            None => Ok(Token::EOF),
            Some(c) => {
                if is_letter(c) || c == '_' {
                    self.read_identifier_or_keyword()
                } else if c.is_numeric() {
                    self.read_number()
                } else if c == '/' && self.sees(1, '/') {
                    proof {
                        reveal_strlit("\n");
                        assert("\n"@ =~= seq!['\n']);
                    }
                    self.advance(2);
                    self.advance_until("\n");
                    self.next_token()
                } else if c == '/' && self.sees(1, '*') {
                    proof {
                        reveal_strlit("*/");
                        assert("*/"@ =~= seq!['*', '/']);
                    }
                    self.advance(2);
                    self.advance_until("*/");
                    self.next_token()
                } else if c == '\'' {
                    self.read_char()
                } else if c == '"' {
                    self.read_string()
                } else {
                    Ok(self.read_symbol())
                }
            },
        };
        if outcome.is_err() {
            self.position = start;
        }
        outcome
    }
}

} // verus!
