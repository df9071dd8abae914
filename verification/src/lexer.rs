//! The scanner: formula text to a flat sequence of tokens.
//!
//! The text is scanned character by character. The offsets that a token
//! records are byte offsets into the UTF-8 text.

use crate::text::{
    all_digits, append_decimal, byte_len, byte_offset, char_width, chars_of, decimal,
    decimal_integer, is_digit,
    lemma_byte_offset_monotonic, lemma_byte_offset_step, utf8_width,
};
use vstd::prelude::*;
use vstd::string::*;

verus! {

#[derive(Debug, Eq, PartialEq, Clone, Copy, Structural)]
pub enum TokenType {
    Assign,
    BitwiseAnd,
    BitwiseNot,
    BitwiseOr,
    BitwiseXor,
    CloseBracket,
    CloseCurlyBracket,
    CloseParenthesis,
    Comma,
    Divide,
    DoubleEquals,
    Power,
    False,
    FloatCast,
    FloatLiteral,
    GreaterThan,
    GreaterThanOrEqual,
    IntegerCast,
    IntegerLiteral,
    LeftShift,
    LessThan,
    LessThanOrEqual,
    LogicalAnd,
    LogicalNot,
    LogicalOr,
    Max,
    Mean,
    Min,
    Minus,
    Modulus,
    NotEquals,
    OpenBracket,
    OpenCurlyBracket,
    OpenParenthesis,
    Plus,
    RightShift,
    StringLiteral,
    Sum,
    Multiply,
    True,
}

/// A token with the text it was read from. `start` and `end` are the byte
/// offsets of the first and the last byte of `text` in the source. An empty
/// string literal has `end == start - 1`.
#[derive(Debug, Clone, Copy, PartialEq, Eq)]
pub struct Token<'a> {
    pub token_type: TokenType,
    pub text: &'a str,
    pub start: usize,
    pub end: usize,
}

/// What a token stands for in specifications.
pub struct Lexeme {
    pub kind: TokenType,
    pub text: Seq<char>,
    pub start: int,
    pub end: int,
}

impl<'a> View for Token<'a> {
    type V = Lexeme;

    open spec fn view(&self) -> Lexeme {
        Lexeme { kind: self.token_type, text: self.text@, start: self.start as int, end: self.end as int }
    }
}

/// The lexemes of a token sequence.
pub open spec fn lexemes(tokens: Seq<Token>) -> Seq<Lexeme> {
    tokens.map_values(|t: Token| t@)
}

/// True when the character at index `i` of `s` is `c`.
pub open spec fn char_at(s: Seq<char>, i: int, c: char) -> bool {
    0 <= i < s.len() && s[i] == c
}

/// True when `word` stands in `s` at index `i`.
pub open spec fn word_at(s: Seq<char>, i: int, word: Seq<char>) -> bool {
    &&& 0 <= i
    &&& i + word.len() <= s.len()
    &&& forall|k: int| 0 <= k < word.len() ==> s[i + k] == #[trigger] word[k]
}

/// True when a decimal digit stands in `s` at index `i`.
pub open spec fn digit_at(s: Seq<char>, i: int) -> bool {
    0 <= i < s.len() && is_digit(s[i])
}

/// The white space that the scanner skips: U+0009 to U+000D and the space.
pub open spec fn is_space(c: char) -> bool {
    c == ' ' || ('\t' <= c <= '\r')
}

/// Number of consecutive decimal digits in `s` from index `i` on.
pub open spec fn digit_run(s: Seq<char>, i: int) -> nat
    decreases s.len() - i,
{
    if digit_at(s, i) {
        1 + digit_run(s, i + 1)
    } else {
        0
    }
}

/// The numeric literal whose first digit stands at index `first`, after
/// `sign` characters of sign: its kind and its length in characters. Digits
/// followed by a `.` make a float literal, which takes the digits after the
/// `.` too.
pub open spec fn number_from(s: Seq<char>, first: int, sign: nat) -> (TokenType, nat) {
    let whole = 1 + digit_run(s, first + 1);
    if char_at(s, first + whole, '.') {
        (TokenType::FloatLiteral, sign + whole + 1 + digit_run(s, first + whole + 1))
    } else {
        (TokenType::IntegerLiteral, sign + whole)
    }
}

/// The numeric literal that starts at index `i`, if one does. A `-` belongs
/// to the literal whenever a digit follows it directly.
pub open spec fn number_at(s: Seq<char>, i: int) -> Option<(TokenType, nat)> {
    if digit_at(s, i) {
        Some(number_from(s, i, 0))
    } else if char_at(s, i, '-') && digit_at(s, i + 1) {
        Some(number_from(s, i + 1, 1))
    } else {
        None
    }
}

/// The operator or punctuation mark that starts at index `i`, if one does;
/// the longest one wins.
pub open spec fn punctuation_at(s: Seq<char>, i: int) -> Option<(TokenType, nat)> {
    if !(0 <= i < s.len()) {
        None
    } else if s[i] == '|' {
        if char_at(s, i + 1, '|') {
            Some((TokenType::LogicalOr, 2))
        } else {
            Some((TokenType::BitwiseOr, 1))
        }
    } else if s[i] == '&' {
        if char_at(s, i + 1, '&') {
            Some((TokenType::LogicalAnd, 2))
        } else {
            Some((TokenType::BitwiseAnd, 1))
        }
    } else if s[i] == '<' {
        if char_at(s, i + 1, '<') {
            Some((TokenType::LeftShift, 2))
        } else if char_at(s, i + 1, '=') {
            Some((TokenType::LessThanOrEqual, 2))
        } else {
            Some((TokenType::LessThan, 1))
        }
    } else if s[i] == '>' {
        if char_at(s, i + 1, '>') {
            Some((TokenType::RightShift, 2))
        } else if char_at(s, i + 1, '=') {
            Some((TokenType::GreaterThanOrEqual, 2))
        } else {
            Some((TokenType::GreaterThan, 1))
        }
    } else if s[i] == '*' {
        if char_at(s, i + 1, '*') {
            Some((TokenType::Power, 2))
        } else {
            Some((TokenType::Multiply, 1))
        }
    } else if s[i] == '=' {
        if char_at(s, i + 1, '=') {
            Some((TokenType::DoubleEquals, 2))
        } else {
            Some((TokenType::Assign, 1))
        }
    } else if s[i] == '!' {
        if char_at(s, i + 1, '=') {
            Some((TokenType::NotEquals, 2))
        } else {
            Some((TokenType::LogicalNot, 1))
        }
    } else if s[i] == '^' {
        Some((TokenType::BitwiseXor, 1))
    } else if s[i] == ',' {
        Some((TokenType::Comma, 1))
    } else if s[i] == ')' {
        Some((TokenType::CloseParenthesis, 1))
    } else if s[i] == '}' {
        Some((TokenType::CloseCurlyBracket, 1))
    } else if s[i] == ']' {
        Some((TokenType::CloseBracket, 1))
    } else if s[i] == '(' {
        Some((TokenType::OpenParenthesis, 1))
    } else if s[i] == '{' {
        Some((TokenType::OpenCurlyBracket, 1))
    } else if s[i] == '[' {
        Some((TokenType::OpenBracket, 1))
    } else if s[i] == '-' {
        Some((TokenType::Minus, 1))
    } else if s[i] == '+' {
        Some((TokenType::Plus, 1))
    } else if s[i] == '/' {
        Some((TokenType::Divide, 1))
    } else if s[i] == '%' {
        Some((TokenType::Modulus, 1))
    } else if s[i] == '~' {
        Some((TokenType::BitwiseNot, 1))
    } else {
        None
    }
}

/// The keyword that starts at index `i`, if one does. A keyword is matched
/// as a run of characters, whatever follows it.
pub open spec fn keyword_at(s: Seq<char>, i: int) -> Option<(TokenType, nat)> {
    if word_at(s, i, "float"@) {
        Some((TokenType::FloatCast, 5))
    } else if word_at(s, i, "int"@) {
        Some((TokenType::IntegerCast, 3))
    } else if word_at(s, i, "max"@) {
        Some((TokenType::Max, 3))
    } else if word_at(s, i, "mean"@) {
        Some((TokenType::Mean, 4))
    } else if word_at(s, i, "min"@) {
        Some((TokenType::Min, 3))
    } else if word_at(s, i, "sum"@) {
        Some((TokenType::Sum, 3))
    } else if word_at(s, i, "true"@) {
        Some((TokenType::True, 4))
    } else if word_at(s, i, "false"@) {
        Some((TokenType::False, 5))
    } else {
        None
    }
}

/// Number of characters between index `i`, which lies inside a string
/// literal, and the `"` that closes the literal; `None` when no `"` closes
/// it. A backslash takes a following backslash or `"` with it.
pub open spec fn string_body(s: Seq<char>, i: int) -> Option<nat>
    decreases s.len() - i,
{
    if !(0 <= i < s.len()) {
        None
    } else if s[i] == '"' {
        Some(0)
    } else if s[i] == '\\' && (char_at(s, i + 1, '\\') || char_at(s, i + 1, '"')) {
        match string_body(s, i + 2) {
            Some(n) => Some(n + 2),
            None => None,
        }
    } else {
        match string_body(s, i + 1) {
            Some(n) => Some(n + 1),
            None => None,
        }
    }
}

/// The lexeme of kind `kind` whose text is the `len` characters of `s` from
/// index `from` on.
pub open spec fn lexeme_at(kind: TokenType, s: Seq<char>, from: int, len: nat) -> Lexeme {
    Lexeme {
        kind,
        text: s.subrange(from, from + len),
        start: byte_offset(s, from) as int,
        end: byte_offset(s, from + len) - 1,
    }
}

/// The message for a character at index `i` that starts no token.
pub open spec fn unexpected_character(s: Seq<char>, i: int) -> Seq<char> {
    "Unexpected character '"@ + seq![s[i]] + "' at index "@ + decimal(byte_offset(s, i))
}

/// The message for a string literal that opens at index `i` and never closes.
pub open spec fn unclosed_string(s: Seq<char>, i: int) -> Seq<char> {
    "Unclosed string literal starting at index "@ + decimal(byte_offset(s, i)) + ": \""@
        + s.subrange(i + 1, s.len() as int)
}

/// Number of characters of `s` from index `i` on.
pub open spec fn left(s: Seq<char>, i: int) -> nat {
    if 0 <= i <= s.len() {
        (s.len() - i) as nat
    } else {
        0
    }
}

/// Scans `s` from index `i` on, after the lexemes `done`.
pub open spec fn scan(s: Seq<char>, i: int, done: Seq<Lexeme>) -> Result<Seq<Lexeme>, Seq<char>>
    decreases left(s, i),
{
    if !(0 <= i < s.len()) {
        Ok(done)
    } else if is_space(s[i]) {
        scan(s, i + 1, done)
    } else if s[i] == '"' {
        match string_body(s, i + 1) {
            Some(n) => scan(s, i + n + 2, done.push(lexeme_at(TokenType::StringLiteral, s, i + 1, n))),
            None => Err(unclosed_string(s, i)),
        }
    } else {
        match symbol_at(s, i) {
            Some((kind, n)) => scan(s, i + n, done.push(lexeme_at(kind, s, i, n))),
            None => Err(unexpected_character(s, i)),
        }
    }
}

/// The number, keyword, operator or punctuation mark that starts at index
/// `i`, with its length in characters, which is at least one.
pub open spec fn symbol_at(s: Seq<char>, i: int) -> Option<(TokenType, nat)> {
    match number_at(s, i) {
        Some((kind, n)) => Some((kind, n)),
        None => match punctuation_at(s, i) {
            Some((kind, n)) => Some((kind, n)),
            None => keyword_at(s, i),
        },
    }
}

/// The lexemes of `s`, or the message of the first error.
pub open spec fn lex_spec(s: Seq<char>) -> Result<Seq<Lexeme>, Seq<char>> {
    scan(s, 0, Seq::empty())
}

/// Splits `text` into tokens.
pub fn lex<'a>(text: &'a str) -> (r: Result<Vec<Token<'a>>, String>)
    ensures
        match r {
            Ok(tokens) => lex_spec(text@) == Ok::<Seq<Lexeme>, Seq<char>>(lexemes(tokens@)),
            Err(message) => lex_spec(text@) == Err::<Seq<Lexeme>, Seq<char>>(message@),
        },
{
    Lexer::new(text).lex()
}

struct Lexer<'a> {
    text: &'a str,
    chars: Vec<char>,
    cur_index: usize,
    start_index: usize,
    cur_byte: usize,
    start_byte: usize,
    tokens: Vec<Token<'a>>,
}

impl<'a> Lexer<'a> {
    /// `chars` holds the text, the two indices lie in it in order, and the
    /// byte counters follow them.
    spec fn wf(&self) -> bool {
        &&& self.chars@ == self.text@
        &&& self.start_index <= self.cur_index <= self.chars.len()
        &&& self.cur_byte == byte_offset(self.text@, self.cur_index as int)
        &&& self.start_byte == byte_offset(self.text@, self.start_index as int)
        &&& forall|i: int|
            0 <= i <= self.text@.len() ==> #[trigger] byte_offset(self.text@, i) <= usize::MAX
    }

    /// True when the scanner in state `self` has only moved on from state
    /// `before`, by `n` characters, without emitting.
    spec fn moved(&self, before: &Self, n: int) -> bool {
        &&& self.text == before.text
        &&& self.chars == before.chars
        &&& self.cur_index == before.cur_index + n
        &&& self.start_index == before.start_index
        &&& self.tokens == before.tokens
    }

    fn new(text: &'a str) -> (r: Lexer<'a>)
        ensures
            r.wf(),
            r.text@ == text@,
            r.cur_index == 0,
            r.start_index == 0,
            r.tokens@.len() == 0,
    {
        let chars = chars_of(text);
        let _ = byte_len(text);
        proof {
            assert(text@.take(0) =~= Seq::<char>::empty());
        }
        Lexer { text, chars, cur_index: 0, start_index: 0, cur_byte: 0, start_byte: 0, tokens: Vec::new() }
    }

    fn is_at_end(&self) -> (r: bool)
        requires
            self.wf(),
        ensures
            r == (self.cur_index >= self.text@.len()),
    {
        self.cur_index >= self.chars.len()
    }

    fn at(&self, c: char) -> (r: bool)
        requires
            self.wf(),
        ensures
            r == char_at(self.text@, self.cur_index as int, c),
    {
        self.cur_index < self.chars.len() && self.chars[self.cur_index] == c
    }

    fn has(&self, word: &str) -> (r: bool)
        requires
            self.wf(),
        ensures
            r == word_at(self.text@, self.cur_index as int, word@),
    {
        let w = chars_of(word);
        let n = w.len();
        if n > self.chars.len() - self.cur_index {
            return false;
        }
        let mut k: usize = 0;
        while k < n
            invariant
                self.wf(),
                w@ == word@,
                n == w.len(),
                k <= n,
                self.cur_index + n <= self.chars.len(),
                forall|j: int| 0 <= j < k ==> self.text@[self.cur_index + j] == #[trigger] word@[j],
            decreases n - k,
        {
            if self.chars[self.cur_index + k] != w[k] {
                return false;
            }
            k += 1;
        }
        true
    }

    fn has_whitespace(&self) -> (r: bool)
        requires
            self.wf(),
        ensures
            r == (self.cur_index < self.text@.len() && is_space(self.text@[self.cur_index as int])),
    {
        if self.cur_index < self.chars.len() {
            let c = self.chars[self.cur_index];
            c == ' ' || (c >= '\t' && c <= '\r')
        } else {
            false
        }
    }

    fn has_digit(&self) -> (r: bool)
        requires
            self.wf(),
        ensures
            r == digit_at(self.text@, self.cur_index as int),
    {
        if self.cur_index < self.chars.len() {
            let c = self.chars[self.cur_index];
            c >= '0' && c <= '9'
        } else {
            false
        }
    }

    /// Takes the current character into the token being read.
    fn capture(&mut self)
        requires
            old(self).wf(),
            old(self).cur_index < old(self).text@.len(),
        ensures
            final(self).wf(),
            final(self).moved(old(self), 1),
    {
        proof {
            lemma_byte_offset_step(self.text@, self.cur_index as int);
        }
        self.cur_byte = self.cur_byte + char_width(self.chars[self.cur_index]);
        self.cur_index = self.cur_index + 1;
    }

    /// Steps over the current character and starts the next token after it.
    fn abandon(&mut self)
        requires
            old(self).wf(),
            old(self).cur_index < old(self).text@.len(),
        ensures
            final(self).wf(),
            final(self).text == old(self).text,
            final(self).chars == old(self).chars,
            final(self).tokens == old(self).tokens,
            final(self).cur_index == old(self).cur_index + 1,
            final(self).start_index == final(self).cur_index,
    {
        self.capture();
        self.start_index = self.cur_index;
        self.start_byte = self.cur_byte;
    }

    /// Ends the token being read: it holds the characters from `start_index`
    /// up to the current one.
    fn emit_token(&mut self, token_type: TokenType)
        requires
            old(self).wf(),
            old(self).cur_index > 0,
        ensures
            final(self).wf(),
            final(self).text == old(self).text,
            final(self).chars == old(self).chars,
            final(self).cur_index == old(self).cur_index,
            final(self).start_index == old(self).cur_index,
            lexemes(final(self).tokens@) == lexemes(old(self).tokens@).push(
                lexeme_at(
                    token_type,
                    old(self).text@,
                    old(self).start_index as int,
                    (old(self).cur_index - old(self).start_index) as nat,
                ),
            ),
    {
        proof {
            lemma_byte_offset_step(self.text@, 0);
            lemma_byte_offset_monotonic(self.text@, 1, self.cur_index as int);
        }
        let token = Token {
            token_type,
            text: self.text.substring_char(self.start_index, self.cur_index),
            start: self.start_byte,
            end: self.cur_byte - 1,
        };
        self.tokens.push(token);
        self.start_index = self.cur_index;
        self.start_byte = self.cur_byte;
        assert(lexemes(self.tokens@) =~= lexemes(old(self).tokens@).push(token@));
    }

    /// Takes the digits from the current character on.
    fn digits(&mut self)
        requires
            old(self).wf(),
        ensures
            final(self).wf(),
            final(self).moved(old(self), digit_run(old(self).text@, old(self).cur_index as int) as int),
    {
        while self.has_digit()
            invariant
                self.wf(),
                self.text == old(self).text,
                self.chars == old(self).chars,
                self.start_index == old(self).start_index,
                self.tokens == old(self).tokens,
                old(self).cur_index <= self.cur_index,
                digit_run(old(self).text@, old(self).cur_index as int) == (self.cur_index
                    - old(self).cur_index) + digit_run(self.text@, self.cur_index as int),
            decreases self.text@.len() - self.cur_index,
        {
            self.capture();
        }
    }

    /// Reads a numeric literal, if one starts at the current character.
    fn number(&mut self) -> (found: bool)
        requires
            old(self).wf(),
            old(self).start_index == old(self).cur_index,
        ensures
            final(self).wf(),
            final(self).text == old(self).text,
            final(self).chars == old(self).chars,
            final(self).start_index == final(self).cur_index,
            match number_at(old(self).text@, old(self).cur_index as int) {
                Some((kind, n)) => {
                    &&& found
                    &&& final(self).cur_index == old(self).cur_index + n
                    &&& lexemes(final(self).tokens@) == lexemes(old(self).tokens@).push(
                        lexeme_at(kind, old(self).text@, old(self).cur_index as int, n),
                    )
                },
                None => !found && final(self).cur_index == old(self).cur_index && final(self).tokens
                    == old(self).tokens,
            },
    {
        if self.at('-') {
            if self.cur_index + 1 < self.chars.len() {
                let c = self.chars[self.cur_index + 1];
                if !(c >= '0' && c <= '9') {
                    return false;
                }
            } else {
                return false;
            }
            self.capture();
        } else if !self.has_digit() {
            return false;
        }
        self.capture();
        self.digits();
        if self.at('.') {
            self.capture();
            self.digits();
            self.emit_token(TokenType::FloatLiteral);
        } else {
            self.emit_token(TokenType::IntegerLiteral);
        }
        true
    }

    /// Ends a token of one character, or of two when `second` follows it.
    fn one_or_two(&mut self, second: char, two: TokenType, one: TokenType)
        requires
            old(self).wf(),
            old(self).start_index == old(self).cur_index,
            old(self).cur_index < old(self).text@.len(),
        ensures
            final(self).wf(),
            final(self).text == old(self).text,
            final(self).chars == old(self).chars,
            final(self).start_index == final(self).cur_index,
            ({
                let (kind, n) = if char_at(old(self).text@, old(self).cur_index + 1, second) {
                    (two, 2nat)
                } else {
                    (one, 1nat)
                };
                &&& final(self).cur_index == old(self).cur_index + n
                &&& lexemes(final(self).tokens@) == lexemes(old(self).tokens@).push(
                    lexeme_at(kind, old(self).text@, old(self).cur_index as int, n),
                )
            }),
    {
        self.capture();
        if self.at(second) {
            self.capture();
            self.emit_token(two);
        } else {
            self.emit_token(one);
        }
    }

    /// Ends a token of one character.
    fn single(&mut self, kind: TokenType)
        requires
            old(self).wf(),
            old(self).start_index == old(self).cur_index,
            old(self).cur_index < old(self).text@.len(),
        ensures
            final(self).wf(),
            final(self).text == old(self).text,
            final(self).chars == old(self).chars,
            final(self).start_index == final(self).cur_index,
            final(self).cur_index == old(self).cur_index + 1,
            lexemes(final(self).tokens@) == lexemes(old(self).tokens@).push(
                lexeme_at(kind, old(self).text@, old(self).cur_index as int, 1),
            ),
    {
        self.capture();
        self.emit_token(kind);
    }

    /// Reads an operator or a punctuation mark, if one starts at the current
    /// character.
    fn punctuation(&mut self) -> (found: bool)
        requires
            old(self).wf(),
            old(self).start_index == old(self).cur_index,
        ensures
            final(self).wf(),
            final(self).text == old(self).text,
            final(self).chars == old(self).chars,
            final(self).start_index == final(self).cur_index,
            match punctuation_at(old(self).text@, old(self).cur_index as int) {
                Some((kind, n)) => {
                    &&& found
                    &&& final(self).cur_index == old(self).cur_index + n
                    &&& lexemes(final(self).tokens@) == lexemes(old(self).tokens@).push(
                        lexeme_at(kind, old(self).text@, old(self).cur_index as int, n),
                    )
                },
                None => !found && final(self).cur_index == old(self).cur_index && final(self).tokens
                    == old(self).tokens,
            },
    {
        if self.is_at_end() {
            return false;
        }
        let c = self.chars[self.cur_index];
        if c == '|' {
            self.one_or_two('|', TokenType::LogicalOr, TokenType::BitwiseOr);
        } else if c == '&' {
            self.one_or_two('&', TokenType::LogicalAnd, TokenType::BitwiseAnd);
        } else if c == '<' {
            if self.cur_index + 1 < self.chars.len() && self.chars[self.cur_index + 1] == '<' {
                self.capture();
                self.capture();
                self.emit_token(TokenType::LeftShift);
            } else {
                self.one_or_two('=', TokenType::LessThanOrEqual, TokenType::LessThan);
            }
        } else if c == '>' {
            if self.cur_index + 1 < self.chars.len() && self.chars[self.cur_index + 1] == '>' {
                self.capture();
                self.capture();
                self.emit_token(TokenType::RightShift);
            } else {
                self.one_or_two('=', TokenType::GreaterThanOrEqual, TokenType::GreaterThan);
            }
        } else if c == '*' {
            self.one_or_two('*', TokenType::Power, TokenType::Multiply);
        } else if c == '=' {
            self.one_or_two('=', TokenType::DoubleEquals, TokenType::Assign);
        } else if c == '!' {
            self.one_or_two('=', TokenType::NotEquals, TokenType::LogicalNot);
        } else if c == '^' {
            self.single(TokenType::BitwiseXor);
        } else if c == ',' {
            self.single(TokenType::Comma);
        } else if c == ')' {
            self.single(TokenType::CloseParenthesis);
        } else if c == '}' {
            self.single(TokenType::CloseCurlyBracket);
        } else if c == ']' {
            self.single(TokenType::CloseBracket);
        } else if c == '(' {
            self.single(TokenType::OpenParenthesis);
        } else if c == '{' {
            self.single(TokenType::OpenCurlyBracket);
        } else if c == '[' {
            self.single(TokenType::OpenBracket);
        } else if c == '-' {
            self.single(TokenType::Minus);
        } else if c == '+' {
            self.single(TokenType::Plus);
        } else if c == '/' {
            self.single(TokenType::Divide);
        } else if c == '%' {
            self.single(TokenType::Modulus);
        } else if c == '~' {
            self.single(TokenType::BitwiseNot);
        } else {
            return false;
        }
        true
    }

    /// Ends a token of the `n` characters of a keyword that was found at the
    /// current character.
    fn word(&mut self, n: usize, kind: TokenType)
        requires
            old(self).wf(),
            old(self).start_index == old(self).cur_index,
            old(self).cur_index + n <= old(self).text@.len(),
            n > 0,
        ensures
            final(self).wf(),
            final(self).text == old(self).text,
            final(self).chars == old(self).chars,
            final(self).start_index == final(self).cur_index,
            final(self).cur_index == old(self).cur_index + n,
            lexemes(final(self).tokens@) == lexemes(old(self).tokens@).push(
                lexeme_at(kind, old(self).text@, old(self).cur_index as int, n as nat),
            ),
    {
        let mut k: usize = 0;
        while k < n
            invariant
                self.wf(),
                k <= n,
                self.moved(old(self), k as int),
                old(self).cur_index + n <= old(self).text@.len(),
            decreases n - k,
        {
            self.capture();
            k += 1;
        }
        self.emit_token(kind);
    }

    /// Reads a keyword, if one starts at the current character.
    fn keyword(&mut self) -> (found: bool)
        requires
            old(self).wf(),
            old(self).start_index == old(self).cur_index,
        ensures
            final(self).wf(),
            final(self).text == old(self).text,
            final(self).chars == old(self).chars,
            final(self).start_index == final(self).cur_index,
            match keyword_at(old(self).text@, old(self).cur_index as int) {
                Some((kind, n)) => {
                    &&& found
                    &&& final(self).cur_index == old(self).cur_index + n
                    &&& lexemes(final(self).tokens@) == lexemes(old(self).tokens@).push(
                        lexeme_at(kind, old(self).text@, old(self).cur_index as int, n),
                    )
                },
                None => !found && final(self).cur_index == old(self).cur_index && final(self).tokens
                    == old(self).tokens,
            },
    {
        proof {
            reveal_strlit("float");
            reveal_strlit("int");
            reveal_strlit("max");
            reveal_strlit("mean");
            reveal_strlit("min");
            reveal_strlit("sum");
            reveal_strlit("true");
            reveal_strlit("false");
        }
        if self.has("float") {
            self.word(5, TokenType::FloatCast);
        } else if self.has("int") {
            self.word(3, TokenType::IntegerCast);
        } else if self.has("max") {
            self.word(3, TokenType::Max);
        } else if self.has("mean") {
            self.word(4, TokenType::Mean);
        } else if self.has("min") {
            self.word(3, TokenType::Min);
        } else if self.has("sum") {
            self.word(3, TokenType::Sum);
        } else if self.has("true") {
            self.word(4, TokenType::True);
        } else if self.has("false") {
            self.word(5, TokenType::False);
        } else {
            return false;
        }
        true
    }

    /// Reads a string literal whose opening `"` is the current character.
    fn string(&mut self) -> (r: Result<(), String>)
        requires
            old(self).wf(),
            old(self).start_index == old(self).cur_index,
            char_at(old(self).text@, old(self).cur_index as int, '"'),
        ensures
            final(self).wf(),
            final(self).text == old(self).text,
            final(self).chars == old(self).chars,
            match string_body(old(self).text@, old(self).cur_index + 1) {
                Some(n) => {
                    &&& r is Ok
                    &&& final(self).start_index == final(self).cur_index
                    &&& final(self).cur_index == old(self).cur_index + n + 2
                    &&& lexemes(final(self).tokens@) == lexemes(old(self).tokens@).push(
                        lexeme_at(
                            TokenType::StringLiteral,
                            old(self).text@,
                            old(self).cur_index + 1,
                            n,
                        ),
                    )
                },
                None => r matches Err(message) && message@ == unclosed_string(
                    old(self).text@,
                    old(self).cur_index as int,
                ),
            },
    {
        let opening = self.cur_byte;
        self.abandon();
        loop
            invariant
                self.wf(),
                self.text == old(self).text,
                self.chars == old(self).chars,
                self.tokens == old(self).tokens,
                self.start_index == old(self).cur_index + 1,
                opening == byte_offset(self.text@, old(self).cur_index as int),
                string_body(self.text@, old(self).cur_index + 1) == match string_body(
                    self.text@,
                    self.cur_index as int,
                ) {
                    Some(n) => Some((n + self.cur_index - self.start_index) as nat),
                    None => None,
                },
            decreases self.text@.len() - self.cur_index,
        {
            if self.is_at_end() {
                let mut message = "Unclosed string literal starting at index ".to_owned();
                append_decimal(&mut message, opening as u64);
                message.append(": \"");
                message.append(self.text.substring_char(self.start_index, self.cur_index));
                assert(message@ =~= unclosed_string(self.text@, old(self).cur_index as int));
                return Err(message);
            }
            let c = self.chars[self.cur_index];
            if c == '"' {
                self.emit_token(TokenType::StringLiteral);
                self.abandon();
                return Ok(());
            }
            self.capture();
            if c == '\\' && (self.at('\\') || self.at('"')) {
                self.capture();
            }
        }
    }

    /// The message for the current character, which starts no token.
    fn unexpected(&self) -> (message: String)
        requires
            self.wf(),
            self.cur_index < self.text@.len(),
        ensures
            message@ == unexpected_character(self.text@, self.cur_index as int),
    {
        let mut message = "Unexpected character '".to_owned();
        message.append(self.text.substring_char(self.cur_index, self.cur_index + 1));
        message.append("' at index ");
        append_decimal(&mut message, self.cur_byte as u64);
        assert(message@ =~= unexpected_character(self.text@, self.cur_index as int));
        message
    }

    fn lex(self) -> (r: Result<Vec<Token<'a>>, String>)
        requires
            self.wf(),
            self.cur_index == 0,
            self.start_index == 0,
            self.tokens@.len() == 0,
        ensures
            match r {
                Ok(tokens) => lex_spec(self.text@) == Ok::<Seq<Lexeme>, Seq<char>>(lexemes(tokens@)),
                Err(message) => lex_spec(self.text@) == Err::<Seq<Lexeme>, Seq<char>>(message@),
            },
    {
        let ghost s = self.text@;
        let mut lexer = self;
        assert(lexemes(lexer.tokens@) =~= Seq::<Lexeme>::empty());
        while !lexer.is_at_end()
            invariant
                lexer.wf(),
                self.text@ == s,
                lexer.text@ == s,
                lexer.start_index == lexer.cur_index,
                scan(s, lexer.cur_index as int, lexemes(lexer.tokens@)) == lex_spec(s),
            decreases s.len() - lexer.cur_index,
        {
            if lexer.has_whitespace() {
                lexer.abandon();
            } else if lexer.at('"') {
                match lexer.string() {
                    Ok(()) => {},
                    Err(message) => {
                        return Err(message);
                    },
                }
            } else if lexer.number() {
            } else if lexer.punctuation() {
            } else if lexer.keyword() {
            } else {
                return Err(lexer.unexpected());
            }
        }
        Ok(lexer.tokens)
    }
}

/// True when `s` is an integer literal: decimal digits, after an optional `-`.
pub open spec fn is_integer_literal(s: Seq<char>) -> bool {
    let digits = if char_at(s, 0, '-') {
        s.subrange(1, s.len() as int)
    } else {
        s
    };
    digits.len() > 0 && all_digits(digits)
}

proof fn lemma_digit_run_to_end(s: Seq<char>, i: int)
    requires
        0 <= i <= s.len(),
        forall|k: int| i <= k < s.len() ==> is_digit(#[trigger] s[k]),
    ensures
        digit_run(s, i) == s.len() - i,
    decreases s.len() - i,
{
    if i < s.len() {
        lemma_digit_run_to_end(s, i + 1);
    }
}

proof fn lemma_byte_offset_of_narrow_text(s: Seq<char>, i: int)
    requires
        0 <= i <= s.len(),
        forall|k: int| 0 <= k < s.len() ==> utf8_width(#[trigger] s[k]) == 1,
    ensures
        byte_offset(s, i) == i,
    decreases i,
{
    if i > 0 {
        lemma_byte_offset_of_narrow_text(s, i - 1);
        lemma_byte_offset_step(s, i - 1);
    } else {
        assert(s.take(0) =~= Seq::<char>::empty());
    }
}

/// The scanner reads an integer literal as one token that holds the literal
/// whole, so that reading the token's text again gives the same number.
pub proof fn lemma_integer_literal_is_one_token(s: Seq<char>)
    requires
        is_integer_literal(s),
    ensures
        lex_spec(s) == Ok::<Seq<Lexeme>, Seq<char>>(
            seq![Lexeme { kind: TokenType::IntegerLiteral, text: s, start: 0, end: s.len() - 1 }],
        ),
        decimal_integer(s) is Some,
{
    let n = s.len() as int;
    let first: int = if s[0] == '-' { 1 } else { 0 };
    let digits = if s[0] == '-' { s.subrange(1, n) } else { s };
    assert forall|k: int| first <= k < n implies is_digit(#[trigger] s[k]) by {
        assert(s[k] == digits[k - first]);
    }
    assert forall|k: int| 0 <= k < n implies utf8_width(#[trigger] s[k]) == 1 by {
        if k >= first {
            assert(is_digit(s[k]));
        }
    }
    lemma_digit_run_to_end(s, first + 1);
    lemma_byte_offset_of_narrow_text(s, 0);
    lemma_byte_offset_of_narrow_text(s, n);
    assert(is_digit(s[first]));
    assert(number_at(s, 0) == Some((TokenType::IntegerLiteral, n as nat)));
    let token = lexeme_at(TokenType::IntegerLiteral, s, 0, n as nat);
    assert(token.text =~= s);
    let done = Seq::<Lexeme>::empty().push(token);
    assert(done =~= seq![token]);
    assert(scan(s, n, done) == Ok::<Seq<Lexeme>, Seq<char>>(done));
    assert(scan(s, 0, Seq::empty()) == scan(s, n, done));
}

} // verus!
