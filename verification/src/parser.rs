//! The parser: a token sequence to a formula.
//!
//! Recursive descent, one function for each level of precedence. From the
//! lowest level to the highest: `||`, `&&`, `|`, `^`, `&`, equality,
//! comparison, shifts, `+ -`, `* / %`, `**`, the prefix operators, the
//! aggregates, and the atoms. Every binary level groups to the left.

use crate::lexer::{lexemes, Lexeme, Token, TokenType};
use crate::model::{AggregateFn, BinaryOp, CellAddress, Expression, Primitive, Tree, UnaryOp, Value};
use crate::text::{append_decimal, decimal, decimal_i32, parse_i32};
use vstd::prelude::*;
use vstd::string::*;

verus! {

/// The level of the prefix operators.
pub const UNARY: u8 = 12;

/// The level of the aggregates.
pub const AGGREGATE: u8 = 13;

/// The level of the atoms.
pub const ATOM: u8 = 14;

/// What parsing from some token on came to.
pub enum Parse {
    /// A formula, and the number of tokens that it took.
    Done(Tree, nat),
    /// The message of an error.
    Failed(Seq<char>),
}

/// The binary operator that tokens of kind `kind` stand for at `level`.
pub open spec fn binary_operator(level: int, kind: TokenType) -> Option<BinaryOp> {
    match kind {
        TokenType::LogicalOr => if level == 1 { Some(BinaryOp::LogicalOr) } else { None },
        TokenType::LogicalAnd => if level == 2 { Some(BinaryOp::LogicalAnd) } else { None },
        TokenType::BitwiseOr => if level == 3 { Some(BinaryOp::BitwiseOr) } else { None },
        TokenType::BitwiseXor => if level == 4 { Some(BinaryOp::BitwiseXor) } else { None },
        TokenType::BitwiseAnd => if level == 5 { Some(BinaryOp::BitwiseAnd) } else { None },
        TokenType::DoubleEquals => if level == 6 { Some(BinaryOp::Equals) } else { None },
        TokenType::NotEquals => if level == 6 { Some(BinaryOp::NotEquals) } else { None },
        TokenType::LessThan => if level == 7 { Some(BinaryOp::LessThan) } else { None },
        TokenType::LessThanOrEqual => if level == 7 { Some(BinaryOp::LessThanOrEqual) } else { None },
        TokenType::GreaterThan => if level == 7 { Some(BinaryOp::GreaterThan) } else { None },
        TokenType::GreaterThanOrEqual => if level == 7 {
            Some(BinaryOp::GreaterThanOrEqual)
        } else {
            None
        },
        TokenType::LeftShift => if level == 8 { Some(BinaryOp::LeftShift) } else { None },
        TokenType::RightShift => if level == 8 { Some(BinaryOp::RightShift) } else { None },
        TokenType::Plus => if level == 9 { Some(BinaryOp::Add) } else { None },
        TokenType::Minus => if level == 9 { Some(BinaryOp::Subtract) } else { None },
        TokenType::Multiply => if level == 10 { Some(BinaryOp::Multiply) } else { None },
        TokenType::Divide => if level == 10 { Some(BinaryOp::Divide) } else { None },
        TokenType::Modulus => if level == 10 { Some(BinaryOp::Modulus) } else { None },
        TokenType::Power => if level == 11 { Some(BinaryOp::Power) } else { None },
        _ => None,
    }
}

/// The prefix operator that tokens of kind `kind` stand for.
pub open spec fn unary_operator(kind: TokenType) -> Option<UnaryOp> {
    match kind {
        TokenType::LogicalNot => Some(UnaryOp::LogicalNot),
        TokenType::BitwiseNot => Some(UnaryOp::BitwiseNot),
        TokenType::IntegerCast => Some(UnaryOp::FloatToInt),
        TokenType::FloatCast => Some(UnaryOp::IntToFloat),
        _ => None,
    }
}

/// The aggregate that tokens of kind `kind` stand for.
pub open spec fn aggregate_function(kind: TokenType) -> Option<AggregateFn> {
    match kind {
        TokenType::Max => Some(AggregateFn::Max),
        TokenType::Mean => Some(AggregateFn::Mean),
        TokenType::Min => Some(AggregateFn::Min),
        TokenType::Sum => Some(AggregateFn::Sum),
        _ => None,
    }
}

/// True when the token with index `pos` is of kind `kind`.
pub open spec fn has_kind(tokens: Seq<Lexeme>, pos: int, kind: TokenType) -> bool {
    0 <= pos < tokens.len() && tokens[pos].kind == kind
}

/// Number of tokens from index `pos` on.
pub open spec fn tokens_left(tokens: Seq<Lexeme>, pos: int) -> nat {
    if pos <= tokens.len() {
        (tokens.len() - pos) as nat
    } else {
        0
    }
}

/// A message that ends in a token index.
pub open spec fn message_at(text: Seq<char>, pos: int) -> Seq<char> {
    text + decimal(pos as nat)
}

/// The message for the token with index `pos`, which cannot stand there.
pub open spec fn unexpected_token(tokens: Seq<Lexeme>, pos: int) -> Seq<char> {
    "Unexpected Token "@ + tokens[pos].text + " at index "@ + decimal(pos as nat)
}

/// The message for a formula that ends where an operand should stand.
pub open spec fn incomplete_input() -> Seq<char> {
    "Incomplete Input String (Likely a dropped primitive after an operator)"@
}

/// The integer that the token with index `pos` denotes, if that token is an
/// integer literal; an integer that does not fit 32 bits is an unexpected
/// token.
pub open spec fn integer_at(tokens: Seq<Lexeme>, pos: int, missing: Seq<char>) -> Result<
    i32,
    Seq<char>,
> {
    if has_kind(tokens, pos, TokenType::IntegerLiteral) {
        match decimal_i32(tokens[pos].text) {
            Some(value) => Ok(value),
            None => Err(unexpected_token(tokens, pos)),
        }
    } else {
        Err(message_at(missing, pos))
    }
}

/// The cell address that the five tokens from index `pos` on spell out:
/// `[`, an integer, `,`, an integer, `]`.
pub open spec fn address_at(tokens: Seq<Lexeme>, pos: int) -> Result<CellAddress, Seq<char>> {
    if !has_kind(tokens, pos, TokenType::OpenBracket) {
        Err(message_at("Missing open bracket for cell address at index "@, pos))
    } else {
        match integer_at(tokens, pos + 1, "Missing First Integer in Cell Address at index "@) {
            Err(message) => Err(message),
            Ok(row) => if !has_kind(tokens, pos + 2, TokenType::Comma) {
                Err(message_at("Missing Comma in Cell Address at index "@, pos + 2))
            } else {
                match integer_at(
                    tokens,
                    pos + 3,
                    "Missing Second Integer in Cell Address at index "@,
                ) {
                    Err(message) => Err(message),
                    Ok(column) => if !has_kind(tokens, pos + 4, TokenType::CloseBracket) {
                        Err(message_at("Missing Close Bracket for Cell Address at index "@, pos + 4))
                    } else {
                        Ok(CellAddress(row, column))
                    },
                }
            },
        }
    }
}

/// The aggregate `function` whose name is the token with index `pos`: the
/// name, `(`, a cell address, `,`, a cell address, `)`.
pub open spec fn aggregate_at(tokens: Seq<Lexeme>, pos: int, function: AggregateFn) -> Parse {
    if !has_kind(tokens, pos + 1, TokenType::OpenParenthesis) {
        Parse::Failed(message_at("Missing Open Parenthesis at "@, pos + 1))
    } else {
        match address_at(tokens, pos + 2) {
            Err(message) => Parse::Failed(message),
            Ok(from) => if !has_kind(tokens, pos + 7, TokenType::Comma) {
                Parse::Failed(message_at("Missing Comma at "@, pos + 7))
            } else {
                match address_at(tokens, pos + 8) {
                    Err(message) => Parse::Failed(message),
                    Ok(to) => if !has_kind(tokens, pos + 13, TokenType::CloseParenthesis) {
                        Parse::Failed(message_at("Missing Closing Parenthesis at "@, pos + 13))
                    } else {
                        Parse::Done(Tree::Aggregate(function, from, to), 14)
                    },
                }
            },
        }
    }
}

/// The atom of one token that starts at index `pos`, if one does.
pub open spec fn literal_at(tokens: Seq<Lexeme>, pos: int) -> Option<Tree> {
    if !(0 <= pos < tokens.len()) {
        None
    } else {
        match tokens[pos].kind {
            TokenType::IntegerLiteral => match decimal_i32(tokens[pos].text) {
                Some(value) => Some(Tree::Literal(Value::Integer(value))),
                None => None,
            },
            TokenType::FloatLiteral => Some(Tree::Decimal(tokens[pos].text)),
            TokenType::StringLiteral => Some(Tree::Literal(Value::Text(tokens[pos].text))),
            TokenType::False => Some(Tree::Literal(Value::Boolean(false))),
            TokenType::True => Some(Tree::Literal(Value::Boolean(true))),
            _ => None,
        }
    }
}

/// The formula of level `level` that starts at the token with index `pos`.
pub open spec fn parse_level(tokens: Seq<Lexeme>, pos: int, level: int) -> Parse
    decreases tokens_left(tokens, pos), 14 - level, 1int,
{
    if level < UNARY {
        match parse_level(tokens, pos, level + 1) {
            Parse::Done(left, used) => parse_chain(tokens, pos + used, level, left, used),
            Parse::Failed(message) => Parse::Failed(message),
        }
    } else if level == UNARY {
        if 0 <= pos < tokens.len() && unary_operator(tokens[pos].kind) is Some {
            match parse_level(tokens, pos + 1, level) {
                Parse::Done(child, used) => Parse::Done(
                    Tree::Unary(unary_operator(tokens[pos].kind)->0, Box::new(child)),
                    used + 1,
                ),
                Parse::Failed(message) => Parse::Failed(message),
            }
        } else {
            parse_level(tokens, pos, level + 1)
        }
    } else if level == AGGREGATE {
        if 0 <= pos < tokens.len() && aggregate_function(tokens[pos].kind) is Some {
            aggregate_at(tokens, pos, aggregate_function(tokens[pos].kind)->0)
        } else {
            parse_level(tokens, pos, level + 1)
        }
    } else if has_kind(tokens, pos, TokenType::OpenParenthesis) {
        match parse_level(tokens, pos + 1, 1) {
            Parse::Done(inner, used) => if has_kind(
                tokens,
                pos + 1 + used,
                TokenType::CloseParenthesis,
            ) {
                Parse::Done(inner, used + 2)
            } else {
                Parse::Failed(message_at("Missing Closing Parenthesis at "@, pos + 1 + used))
            },
            Parse::Failed(message) => Parse::Failed(message),
        }
    } else if has_kind(tokens, pos, TokenType::OpenBracket) {
        match address_at(tokens, pos) {
            Ok(address) => Parse::Done(Tree::CellRef(address), 5),
            Err(message) => Parse::Failed(message),
        }
    } else if literal_at(tokens, pos) is Some {
        Parse::Done(literal_at(tokens, pos)->0, 1)
    } else if 0 <= pos < tokens.len() {
        Parse::Failed(unexpected_token(tokens, pos))
    } else {
        Parse::Failed(incomplete_input())
    }
}

/// The formula of level `level` that goes on at the token with index `pos`,
/// after the operand `left`, which took `used` tokens: as long as an
/// operator of the level follows, it takes what stands so far as its left
/// operand.
pub open spec fn parse_chain(tokens: Seq<Lexeme>, pos: int, level: int, left: Tree, used: nat) -> Parse
    decreases tokens_left(tokens, pos), 14 - level, 0int,
{
    if 0 <= pos < tokens.len() && binary_operator(level, tokens[pos].kind) is Some {
        match parse_level(tokens, pos + 1, level + 1) {
            Parse::Done(right, more) => parse_chain(
                tokens,
                pos + 1 + more,
                level,
                Tree::Binary(
                    binary_operator(level, tokens[pos].kind)->0,
                    Box::new(left),
                    Box::new(right),
                ),
                used + 1 + more,
            ),
            Parse::Failed(message) => Parse::Failed(message),
        }
    } else {
        Parse::Done(left, used)
    }
}

/// The formula that the tokens start with, or the message of the first
/// error. Tokens after that formula are not looked at.
pub open spec fn parse_spec(tokens: Seq<Lexeme>) -> Result<Tree, Seq<char>> {
    match parse_level(tokens, 0, 1) {
        Parse::Done(tree, _) => Ok(tree),
        Parse::Failed(message) => Err(message),
    }
}

/// Parses the formula that `tokens` start with.
pub fn parse(tokens: Vec<Token>) -> (r: Result<Expression, String>)
    ensures
        match r {
            Ok(expression) => parse_spec(lexemes(tokens@)) == Ok::<Tree, Seq<char>>(expression@),
            Err(message) => parse_spec(lexemes(tokens@)) == Err::<Tree, Seq<char>>(message@),
        },
{
    let mut parser = Parser::new(tokens);
    parser.parse()
}

struct Parser<'a> {
    tokens: Vec<Token<'a>>,
    index: usize,
}

impl<'a> Parser<'a> {
    /// The lexemes of the tokens.
    spec fn input(&self) -> Seq<Lexeme> {
        lexemes(self.tokens@)
    }

    /// The index of the current token.
    spec fn position(&self) -> int {
        self.index as int
    }

    spec fn wf(&self) -> bool {
        self.index <= self.tokens.len()
    }

    /// What a function must come to that parses level `level` from the
    /// state `before` on.
    spec fn parsed(&self, before: &Self, level: int, r: Result<Expression, String>) -> bool {
        &&& self.wf()
        &&& self.input() == before.input()
        &&& match parse_level(before.input(), before.position(), level) {
            Parse::Done(tree, used) => r matches Ok(expression) && expression@ == tree
                && self.position() == before.position() + used,
            Parse::Failed(message) => r matches Err(text) && text@ == message,
        }
    }

    fn new(tokens: Vec<Token<'a>>) -> (r: Parser<'a>)
        ensures
            r.wf(),
            r.input() == lexemes(tokens@),
            r.position() == 0,
    {
        Parser { tokens, index: 0 }
    }

    fn parse(&mut self) -> (r: Result<Expression, String>)
        requires
            old(self).wf(),
            old(self).position() == 0,
        ensures
            match r {
                Ok(expression) => parse_spec(old(self).input()) == Ok::<Tree, Seq<char>>(expression@),
                Err(message) => parse_spec(old(self).input()) == Err::<Tree, Seq<char>>(message@),
            },
    {
        self.expression()
    }

    fn has(&self, token_type: TokenType) -> (r: bool)
        requires
            self.wf(),
        ensures
            r == has_kind(self.input(), self.position(), token_type),
    {
        self.index < self.tokens.len() && self.tokens[self.index].token_type == token_type
    }

    /// The index of the current token, for messages.
    fn cur_token_index(&self) -> (r: usize)
        ensures
            r == self.position(),
    {
        self.index
    }

    /// Steps over the current token and hands it out.
    fn capture(&mut self) -> (token: Token<'a>)
        requires
            old(self).wf(),
            old(self).position() < old(self).input().len(),
        ensures
            final(self).wf(),
            final(self).input() == old(self).input(),
            final(self).position() == old(self).position() + 1,
            token@ == old(self).input()[old(self).position()],
    {
        let token = self.tokens[self.index];
        self.index = self.index + 1;
        token
    }

    /// `text` followed by a token index.
    fn message(&self, text: &str, at: usize) -> (r: String)
        ensures
            r@ == message_at(text@, at as int),
    {
        let mut r = text.to_owned();
        append_decimal(&mut r, at as u64);
        r
    }

    /// The message for the current token, which cannot stand there.
    fn unexpected(&self, at: usize) -> (r: String)
        requires
            self.wf(),
            at < self.input().len(),
        ensures
            r@ == unexpected_token(self.input(), at as int),
    {
        let mut r = "Unexpected Token ".to_owned();
        r.append(self.tokens[at].text);
        r.append(" at index ");
        append_decimal(&mut r, at as u64);
        assert(r@ =~= unexpected_token(self.input(), at as int));
        r
    }

    fn expression(&mut self) -> (r: Result<Expression, String>)
        requires
            old(self).wf(),
        ensures
            final(self).parsed(old(self), 1, r),
        decreases old(self).input().len() - old(self).position(), 14int, 0int,
    {
        self.logical_or()
    }

    fn logical_or(&mut self) -> (r: Result<Expression, String>)
        requires
            old(self).wf(),
        ensures
            final(self).parsed(old(self), 1, r),
        decreases old(self).input().len() - old(self).position(), 13int, 2int,
    {
        self.binary_chain(1)
    }

    fn logical_and(&mut self) -> (r: Result<Expression, String>)
        requires
            old(self).wf(),
        ensures
            final(self).parsed(old(self), 2, r),
        decreases old(self).input().len() - old(self).position(), 12int, 2int,
    {
        self.binary_chain(2)
    }

    fn bitwise_or(&mut self) -> (r: Result<Expression, String>)
        requires
            old(self).wf(),
        ensures
            final(self).parsed(old(self), 3, r),
        decreases old(self).input().len() - old(self).position(), 11int, 2int,
    {
        self.binary_chain(3)
    }

    fn bitwise_xor(&mut self) -> (r: Result<Expression, String>)
        requires
            old(self).wf(),
        ensures
            final(self).parsed(old(self), 4, r),
        decreases old(self).input().len() - old(self).position(), 10int, 2int,
    {
        self.binary_chain(4)
    }

    fn bitwise_and(&mut self) -> (r: Result<Expression, String>)
        requires
            old(self).wf(),
        ensures
            final(self).parsed(old(self), 5, r),
        decreases old(self).input().len() - old(self).position(), 9int, 2int,
    {
        self.binary_chain(5)
    }

    fn equality(&mut self) -> (r: Result<Expression, String>)
        requires
            old(self).wf(),
        ensures
            final(self).parsed(old(self), 6, r),
        decreases old(self).input().len() - old(self).position(), 8int, 2int,
    {
        self.binary_chain(6)
    }

    fn comparison(&mut self) -> (r: Result<Expression, String>)
        requires
            old(self).wf(),
        ensures
            final(self).parsed(old(self), 7, r),
        decreases old(self).input().len() - old(self).position(), 7int, 2int,
    {
        self.binary_chain(7)
    }

    fn shift(&mut self) -> (r: Result<Expression, String>)
        requires
            old(self).wf(),
        ensures
            final(self).parsed(old(self), 8, r),
        decreases old(self).input().len() - old(self).position(), 6int, 2int,
    {
        self.binary_chain(8)
    }

    fn additive(&mut self) -> (r: Result<Expression, String>)
        requires
            old(self).wf(),
        ensures
            final(self).parsed(old(self), 9, r),
        decreases old(self).input().len() - old(self).position(), 5int, 2int,
    {
        self.binary_chain(9)
    }

    fn multiplicative(&mut self) -> (r: Result<Expression, String>)
        requires
            old(self).wf(),
        ensures
            final(self).parsed(old(self), 10, r),
        decreases old(self).input().len() - old(self).position(), 4int, 2int,
    {
        self.binary_chain(10)
    }

    fn power(&mut self) -> (r: Result<Expression, String>)
        requires
            old(self).wf(),
        ensures
            final(self).parsed(old(self), 11, r),
        decreases old(self).input().len() - old(self).position(), 3int, 2int,
    {
        self.binary_chain(11)
    }

    /// Parses an operand of the binary level `level`: a formula of the next
    /// level.
    fn operand(&mut self, level: u8) -> (r: Result<Expression, String>)
        requires
            old(self).wf(),
            1 <= level < UNARY,
        ensures
            final(self).parsed(old(self), level + 1, r),
        decreases old(self).input().len() - old(self).position(), 14 - level, 0int,
    {
        match level {
            1 => self.logical_and(),
            2 => self.bitwise_or(),
            3 => self.bitwise_xor(),
            4 => self.bitwise_and(),
            5 => self.equality(),
            6 => self.comparison(),
            7 => self.shift(),
            8 => self.additive(),
            9 => self.multiplicative(),
            10 => self.power(),
            _ => self.unary(),
        }
    }

    /// The binary operator of `level` that the current token stands for.
    fn operator(&self, level: u8) -> (r: Option<BinaryOp>)
        requires
            self.wf(),
        ensures
            r == if self.position() < self.input().len() {
                binary_operator(level as int, self.input()[self.position()].kind)
            } else {
                None
            },
    {
        if self.index >= self.tokens.len() {
            return None;
        }
        match self.tokens[self.index].token_type {
            TokenType::LogicalOr => if level == 1 { Some(BinaryOp::LogicalOr) } else { None },
            TokenType::LogicalAnd => if level == 2 { Some(BinaryOp::LogicalAnd) } else { None },
            TokenType::BitwiseOr => if level == 3 { Some(BinaryOp::BitwiseOr) } else { None },
            TokenType::BitwiseXor => if level == 4 { Some(BinaryOp::BitwiseXor) } else { None },
            TokenType::BitwiseAnd => if level == 5 { Some(BinaryOp::BitwiseAnd) } else { None },
            TokenType::DoubleEquals => if level == 6 { Some(BinaryOp::Equals) } else { None },
            TokenType::NotEquals => if level == 6 { Some(BinaryOp::NotEquals) } else { None },
            TokenType::LessThan => if level == 7 { Some(BinaryOp::LessThan) } else { None },
            TokenType::LessThanOrEqual => if level == 7 {
                Some(BinaryOp::LessThanOrEqual)
            } else {
                None
            },
            TokenType::GreaterThan => if level == 7 { Some(BinaryOp::GreaterThan) } else { None },
            TokenType::GreaterThanOrEqual => if level == 7 {
                Some(BinaryOp::GreaterThanOrEqual)
            } else {
                None
            },
            TokenType::LeftShift => if level == 8 { Some(BinaryOp::LeftShift) } else { None },
            TokenType::RightShift => if level == 8 { Some(BinaryOp::RightShift) } else { None },
            TokenType::Plus => if level == 9 { Some(BinaryOp::Add) } else { None },
            TokenType::Minus => if level == 9 { Some(BinaryOp::Subtract) } else { None },
            TokenType::Multiply => if level == 10 { Some(BinaryOp::Multiply) } else { None },
            TokenType::Divide => if level == 10 { Some(BinaryOp::Divide) } else { None },
            TokenType::Modulus => if level == 10 { Some(BinaryOp::Modulus) } else { None },
            TokenType::Power => if level == 11 { Some(BinaryOp::Power) } else { None },
            _ => None,
        }
    }

    /// Parses a formula of the binary level `level`: operands of the next
    /// level with operators of this level between them, grouped to the left.
    fn binary_chain(&mut self, level: u8) -> (r: Result<Expression, String>)
        requires
            old(self).wf(),
            1 <= level < UNARY,
        ensures
            final(self).parsed(old(self), level as int, r),
        decreases old(self).input().len() - old(self).position(), 14 - level, 1int,
    {
        let mut left = match self.operand(level) {
            Ok(expression) => expression,
            Err(message) => {
                return Err(message);
            },
        };
        loop
            invariant
                self.wf(),
                1 <= level < UNARY,
                self.input() == old(self).input(),
                old(self).position() <= self.position(),
                parse_level(old(self).input(), old(self).position(), level as int) == parse_chain(
                    self.input(),
                    self.position(),
                    level as int,
                    left@,
                    (self.position() - old(self).position()) as nat,
                ),
            decreases self.input().len() - self.position(),
        {
            match self.operator(level) {
                None => {
                    return Ok(left);
                },
                Some(op) => {
                    self.capture();
                    let right = match self.operand(level) {
                        Ok(expression) => expression,
                        Err(message) => {
                            return Err(message);
                        },
                    };
                    left = Expression::Binary(op, Box::new(left), Box::new(right));
                },
            }
        }
    }

    fn unary(&mut self) -> (r: Result<Expression, String>)
        requires
            old(self).wf(),
        ensures
            final(self).parsed(old(self), UNARY as int, r),
        decreases old(self).input().len() - old(self).position(), 2int, 2int,
    {
        let op = if self.has(TokenType::LogicalNot) {
            UnaryOp::LogicalNot
        } else if self.has(TokenType::BitwiseNot) {
            UnaryOp::BitwiseNot
        } else if self.has(TokenType::IntegerCast) {
            UnaryOp::FloatToInt
        } else if self.has(TokenType::FloatCast) {
            UnaryOp::IntToFloat
        } else {
            return self.statistics();
        };
        self.capture();
        match self.unary() {
            Ok(child) => Ok(Expression::Unary(op, Box::new(child))),
            Err(message) => Err(message),
        }
    }

    fn statistics(&mut self) -> (r: Result<Expression, String>)
        requires
            old(self).wf(),
        ensures
            final(self).parsed(old(self), AGGREGATE as int, r),
        decreases old(self).input().len() - old(self).position(), 1int, 2int,
    {
        let function = if self.has(TokenType::Max) {
            AggregateFn::Max
        } else if self.has(TokenType::Mean) {
            AggregateFn::Mean
        } else if self.has(TokenType::Min) {
            AggregateFn::Min
        } else if self.has(TokenType::Sum) {
            AggregateFn::Sum
        } else {
            return self.atom();
        };
        self.capture();
        if !self.has(TokenType::OpenParenthesis) {
            return Err(self.message("Missing Open Parenthesis at ", self.index));
        }
        self.capture();
        let from = match self.cell_address() {
            Ok(address) => address,
            Err(message) => {
                return Err(message);
            },
        };
        if !self.has(TokenType::Comma) {
            return Err(self.message("Missing Comma at ", self.index));
        }
        self.capture();
        let to = match self.cell_address() {
            Ok(address) => address,
            Err(message) => {
                return Err(message);
            },
        };
        if !self.has(TokenType::CloseParenthesis) {
            return Err(self.message("Missing Closing Parenthesis at ", self.index));
        }
        self.capture();
        Ok(Expression::Aggregate(function, from, to))
    }

    fn atom(&mut self) -> (r: Result<Expression, String>)
        requires
            old(self).wf(),
        ensures
            final(self).parsed(old(self), ATOM as int, r),
        decreases old(self).input().len() - old(self).position(), 0int, 2int,
    {
        if self.has(TokenType::OpenParenthesis) {
            self.capture();
            let inner = match self.expression() {
                Ok(expression) => expression,
                Err(message) => {
                    return Err(message);
                },
            };
            if self.has(TokenType::CloseParenthesis) {
                self.capture();
                Ok(inner)
            } else {
                Err(self.message("Missing Closing Parenthesis at ", self.index))
            }
        } else if self.has(TokenType::OpenBracket) {
            match self.cell_address() {
                Ok(address) => Ok(Expression::CellRef(address)),
                Err(message) => Err(message),
            }
        } else if self.has(TokenType::IntegerLiteral) {
            match parse_i32(self.tokens[self.index].text) {
                Some(value) => {
                    self.capture();
                    Ok(Expression::Literal(Primitive::Integer(value)))
                },
                None => Err(self.unexpected(self.cur_token_index())),
            }
        } else if self.has(TokenType::FloatLiteral) {
            let token = self.capture();
            Ok(Expression::Decimal(token.text.to_owned()))
        } else if self.has(TokenType::StringLiteral) {
            let token = self.capture();
            Ok(Expression::Literal(Primitive::String(token.text.to_owned())))
        } else if self.has(TokenType::False) {
            self.capture();
            Ok(Expression::Literal(Primitive::Boolean(false)))
        } else if self.has(TokenType::True) {
            self.capture();
            Ok(Expression::Literal(Primitive::Boolean(true)))
        } else if self.index < self.tokens.len() {
            Err(self.unexpected(self.cur_token_index()))
        } else {
            Err("Incomplete Input String (Likely a dropped primitive after an operator)".to_owned())
        }
    }

    /// Reads the integer literal that the current token must be; `missing`
    /// starts the message for another token.
    fn integer(&mut self, missing: &str) -> (r: Result<i32, String>)
        requires
            old(self).wf(),
        ensures
            final(self).wf(),
            final(self).input() == old(self).input(),
            match integer_at(old(self).input(), old(self).position(), missing@) {
                Ok(value) => r == Ok::<i32, String>(value) && final(self).position() == old(
                    self,
                ).position() + 1,
                Err(message) => r matches Err(text) && text@ == message,
            },
    {
        if self.has(TokenType::IntegerLiteral) {
            match parse_i32(self.tokens[self.index].text) {
                Some(value) => {
                    self.capture();
                    Ok(value)
                },
                None => Err(self.unexpected(self.cur_token_index())),
            }
        } else {
            Err(self.message(missing, self.cur_token_index()))
        }
    }

    fn cell_address(&mut self) -> (r: Result<CellAddress, String>)
        requires
            old(self).wf(),
        ensures
            final(self).wf(),
            final(self).input() == old(self).input(),
            match address_at(old(self).input(), old(self).position()) {
                Ok(address) => r == Ok::<CellAddress, String>(address) && final(self).position()
                    == old(self).position() + 5,
                Err(message) => r matches Err(text) && text@ == message,
            },
    {
        if !self.has(TokenType::OpenBracket) {
            return Err(
                self.message(
                    "Missing open bracket for cell address at index ",
                    self.cur_token_index(),
                ),
            );
        }
        self.capture();
        let row = match self.integer("Missing First Integer in Cell Address at index ") {
            Ok(value) => value,
            Err(message) => {
                return Err(message);
            },
        };
        if !self.has(TokenType::Comma) {
            return Err(
                self.message("Missing Comma in Cell Address at index ", self.cur_token_index()),
            );
        }
        self.capture();
        let column = match self.integer("Missing Second Integer in Cell Address at index ") {
            Ok(value) => value,
            Err(message) => {
                return Err(message);
            },
        };
        if !self.has(TokenType::CloseBracket) {
            return Err(
                self.message(
                    "Missing Close Bracket for Cell Address at index ",
                    self.cur_token_index(),
                ),
            );
        }
        self.capture();
        Ok(CellAddress(row, column))
    }
}

/// True when the token with index `pos`, if there is one, is no binary
/// operator of a level from `low` up to, but not including, `high`.
pub open spec fn no_operator_at(tokens: Seq<Lexeme>, pos: int, low: int, high: int) -> bool {
    0 <= pos < tokens.len() ==> forall|level: int|
        low <= level < high ==> (#[trigger] binary_operator(level, tokens[pos].kind)) is None
}

/// True when an operand of the binary operators starts at the token with
/// index `pos`: a formula of the level of the prefix operators, here `tree`,
/// which takes `used` tokens.
pub open spec fn operand_at(tokens: Seq<Lexeme>, pos: int, tree: Tree, used: nat) -> bool {
    parse_level(tokens, pos, UNARY as int) == Parse::Done(tree, used)
}

/// True when the token with index `pos` is a binary operator of `level`.
pub open spec fn operator_at(tokens: Seq<Lexeme>, pos: int, level: int) -> bool {
    0 <= pos < tokens.len() && binary_operator(level, tokens[pos].kind) is Some
}

/// The formula of the operator token with index `pos` on `left` and `right`.
pub open spec fn joined(tokens: Seq<Lexeme>, pos: int, level: int, left: Tree, right: Tree) -> Tree {
    Tree::Binary(binary_operator(level, tokens[pos].kind)->0, Box::new(left), Box::new(right))
}

/// A formula of a binary level is a formula of each lower level too, as long
/// as no operator of the levels between follows it.
pub proof fn lemma_formula_of_lower_level(
    tokens: Seq<Lexeme>,
    pos: int,
    low: int,
    high: int,
    tree: Tree,
    used: nat,
)
    requires
        low <= high <= UNARY,
        parse_level(tokens, pos, high) == Parse::Done(tree, used),
        no_operator_at(tokens, pos + used, low, high),
    ensures
        parse_level(tokens, pos, low) == Parse::Done(tree, used),
    decreases high - low,
{
    if low < high {
        lemma_formula_of_lower_level(tokens, pos, low + 1, high, tree, used);
        assert(parse_level(tokens, pos, low) == parse_chain(tokens, pos + used, low, tree, used));
        if 0 <= pos + used < tokens.len() {
            assert(binary_operator(low, tokens[pos + used].kind) is None);
        }
    }
}

/// A token kind is an operator of one level at most.
pub proof fn lemma_operator_has_one_level(kind: TokenType, level: int, other: int)
    requires
        binary_operator(level, kind) is Some,
        binary_operator(other, kind) is Some,
    ensures
        level == other,
{
}

/// Every binary level groups to the left: in `a op1 b op2 c`, where both
/// operators are of one level, `a`, `b` and `c` are operands and no binary
/// operator follows, `op2` takes `a op1 b` as its left operand.
pub proof fn lemma_levels_group_to_the_left(
    tokens: Seq<Lexeme>,
    level: int,
    a: Tree,
    b: Tree,
    c: Tree,
    na: nat,
    nb: nat,
    nc: nat,
)
    requires
        1 <= level < UNARY,
        operand_at(tokens, 0, a, na),
        operator_at(tokens, na as int, level),
        operand_at(tokens, (na + 1) as int, b, nb),
        operator_at(tokens, (na + 1 + nb) as int, level),
        operand_at(tokens, (na + nb + 2) as int, c, nc),
        no_operator_at(tokens, (na + nb + nc + 2) as int, 1, UNARY as int),
    ensures
        parse_spec(tokens) == Ok::<Tree, Seq<char>>(
            joined(tokens, (na + 1 + nb) as int, level, joined(tokens, na as int, level, a, b), c),
        ),
{
    let first = na as int;
    let second = (na + 1 + nb) as int;
    let end = (na + nb + nc + 2) as int;
    assert forall|l: int| level + 1 <= l < UNARY implies (#[trigger] binary_operator(
        l,
        tokens[first].kind,
    )) is None by {
        if binary_operator(l, tokens[first].kind) is Some {
            lemma_operator_has_one_level(tokens[first].kind, level, l);
        }
    }
    assert forall|l: int| level + 1 <= l < UNARY implies (#[trigger] binary_operator(
        l,
        tokens[second].kind,
    )) is None by {
        if binary_operator(l, tokens[second].kind) is Some {
            lemma_operator_has_one_level(tokens[second].kind, level, l);
        }
    }
    lemma_formula_of_lower_level(tokens, 0, level + 1, UNARY as int, a, na);
    lemma_formula_of_lower_level(tokens, first + 1, level + 1, UNARY as int, b, nb);
    lemma_formula_of_lower_level(tokens, second + 1, level + 1, UNARY as int, c, nc);
    let ab = joined(tokens, first, level, a, b);
    let abc = joined(tokens, second, level, ab, c);
    assert(parse_chain(tokens, end, level, abc, (na + nb + nc + 2) as nat) == Parse::Done(
        abc,
        (na + nb + nc + 2) as nat,
    ));
    assert(parse_chain(tokens, second, level, ab, (na + nb + 1) as nat) == Parse::Done(
        abc,
        (na + nb + nc + 2) as nat,
    ));
    assert(parse_chain(tokens, first, level, a, na) == Parse::Done(abc, (na + nb + nc + 2) as nat));
    assert(parse_level(tokens, 0, level) == Parse::Done(abc, (na + nb + nc + 2) as nat));
    lemma_formula_of_lower_level(tokens, 0, 1, level, abc, (na + nb + nc + 2) as nat);
}

/// An operator of a higher level binds tighter: in `a lo b hi c`, where
/// `hi` is of a higher level than `lo`, `a`, `b` and `c` are operands and
/// no binary operator follows, `lo` takes `b hi c` as its right operand.
pub proof fn lemma_higher_level_binds_tighter(
    tokens: Seq<Lexeme>,
    lo: int,
    hi: int,
    a: Tree,
    b: Tree,
    c: Tree,
    na: nat,
    nb: nat,
    nc: nat,
)
    requires
        1 <= lo < hi < UNARY,
        operand_at(tokens, 0, a, na),
        operator_at(tokens, na as int, lo),
        operand_at(tokens, (na + 1) as int, b, nb),
        operator_at(tokens, (na + 1 + nb) as int, hi),
        operand_at(tokens, (na + nb + 2) as int, c, nc),
        no_operator_at(tokens, (na + nb + nc + 2) as int, 1, UNARY as int),
    ensures
        parse_spec(tokens) == Ok::<Tree, Seq<char>>(
            joined(tokens, na as int, lo, a, joined(tokens, (na + 1 + nb) as int, hi, b, c)),
        ),
{
    let first = na as int;
    let second = (na + 1 + nb) as int;
    let end = (na + nb + nc + 2) as int;
    assert forall|l: int| lo + 1 <= l < UNARY implies (#[trigger] binary_operator(
        l,
        tokens[first].kind,
    )) is None by {
        if binary_operator(l, tokens[first].kind) is Some {
            lemma_operator_has_one_level(tokens[first].kind, lo, l);
        }
    }
    assert forall|l: int| hi + 1 <= l < UNARY implies (#[trigger] binary_operator(
        l,
        tokens[second].kind,
    )) is None by {
        if binary_operator(l, tokens[second].kind) is Some {
            lemma_operator_has_one_level(tokens[second].kind, hi, l);
        }
    }
    lemma_formula_of_lower_level(tokens, 0, lo + 1, UNARY as int, a, na);
    lemma_formula_of_lower_level(tokens, first + 1, hi + 1, UNARY as int, b, nb);
    lemma_formula_of_lower_level(tokens, second + 1, hi + 1, UNARY as int, c, nc);
    let bc = joined(tokens, second, hi, b, c);
    let abc = joined(tokens, first, lo, a, bc);
    assert(parse_chain(tokens, end, hi, bc, (nb + nc + 1) as nat) == Parse::Done(
        bc,
        (nb + nc + 1) as nat,
    ));
    assert(parse_chain(tokens, second, hi, b, nb) == Parse::Done(bc, (nb + nc + 1) as nat));
    assert(parse_level(tokens, first + 1, hi) == Parse::Done(bc, (nb + nc + 1) as nat));
    lemma_formula_of_lower_level(tokens, first + 1, lo + 1, hi, bc, (nb + nc + 1) as nat);
    assert(parse_chain(tokens, end, lo, abc, (na + nb + nc + 2) as nat) == Parse::Done(
        abc,
        (na + nb + nc + 2) as nat,
    ));
    assert(parse_chain(tokens, first, lo, a, na) == Parse::Done(abc, (na + nb + nc + 2) as nat));
    assert(parse_level(tokens, 0, lo) == Parse::Done(abc, (na + nb + nc + 2) as nat));
    lemma_formula_of_lower_level(tokens, 0, 1, lo, abc, (na + nb + nc + 2) as nat);
}

/// An operator of a lower level binds looser: in `a hi b lo c`, where `lo`
/// is of a lower level than `hi`, `a`, `b` and `c` are operands and no
/// binary operator follows, `lo` takes `a hi b` as its left operand.
pub proof fn lemma_lower_level_binds_looser(
    tokens: Seq<Lexeme>,
    lo: int,
    hi: int,
    a: Tree,
    b: Tree,
    c: Tree,
    na: nat,
    nb: nat,
    nc: nat,
)
    requires
        1 <= lo < hi < UNARY,
        operand_at(tokens, 0, a, na),
        operator_at(tokens, na as int, hi),
        operand_at(tokens, (na + 1) as int, b, nb),
        operator_at(tokens, (na + 1 + nb) as int, lo),
        operand_at(tokens, (na + nb + 2) as int, c, nc),
        no_operator_at(tokens, (na + nb + nc + 2) as int, 1, UNARY as int),
    ensures
        parse_spec(tokens) == Ok::<Tree, Seq<char>>(
            joined(tokens, (na + 1 + nb) as int, lo, joined(tokens, na as int, hi, a, b), c),
        ),
{
    let first = na as int;
    let second = (na + 1 + nb) as int;
    let end = (na + nb + nc + 2) as int;
    assert forall|l: int| hi + 1 <= l < UNARY implies (#[trigger] binary_operator(
        l,
        tokens[first].kind,
    )) is None by {
        if binary_operator(l, tokens[first].kind) is Some {
            lemma_operator_has_one_level(tokens[first].kind, hi, l);
        }
    }
    assert forall|l: int| lo + 1 <= l < UNARY implies (#[trigger] binary_operator(
        l,
        tokens[second].kind,
    )) is None by {
        if binary_operator(l, tokens[second].kind) is Some {
            lemma_operator_has_one_level(tokens[second].kind, lo, l);
        }
    }
    lemma_formula_of_lower_level(tokens, 0, hi + 1, UNARY as int, a, na);
    lemma_formula_of_lower_level(tokens, first + 1, hi + 1, UNARY as int, b, nb);
    lemma_formula_of_lower_level(tokens, second + 1, lo + 1, UNARY as int, c, nc);
    let ab = joined(tokens, first, hi, a, b);
    let abc = joined(tokens, second, lo, ab, c);
    assert(parse_chain(tokens, second, hi, ab, (na + nb + 1) as nat) == Parse::Done(
        ab,
        (na + nb + 1) as nat,
    ));
    assert(parse_chain(tokens, first, hi, a, na) == Parse::Done(ab, (na + nb + 1) as nat));
    assert(parse_level(tokens, 0, hi) == Parse::Done(ab, (na + nb + 1) as nat));
    lemma_formula_of_lower_level(tokens, 0, lo + 1, hi, ab, (na + nb + 1) as nat);
    assert(parse_chain(tokens, end, lo, abc, (na + nb + nc + 2) as nat) == Parse::Done(
        abc,
        (na + nb + nc + 2) as nat,
    ));
    assert(parse_chain(tokens, second, lo, ab, (na + nb + 1) as nat) == Parse::Done(
        abc,
        (na + nb + nc + 2) as nat,
    ));
    assert(parse_level(tokens, 0, lo) == Parse::Done(abc, (na + nb + nc + 2) as nat));
    lemma_formula_of_lower_level(tokens, 0, 1, lo, abc, (na + nb + nc + 2) as nat);
}

/// A literal token is an operand by itself.
pub proof fn lemma_literal_is_operand(tokens: Seq<Lexeme>, pos: int)
    requires
        literal_at(tokens, pos) is Some,
    ensures
        operand_at(tokens, pos, literal_at(tokens, pos)->0, 1),
{
    assert(parse_level(tokens, pos, ATOM as int) == Parse::Done(literal_at(tokens, pos)->0, 1));
    assert(parse_level(tokens, pos, AGGREGATE as int) == Parse::Done(
        literal_at(tokens, pos)->0,
        1,
    ));
}

} // verus!
