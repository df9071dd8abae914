//! The operators on values: which operands each takes and what it gives.
//!
//! An operator on integers gives the exact result where that fits 32 bits,
//! and an error where it does not. An operator on single-precision numbers
//! gives what the table of float facts says, or the question to ask.

use crate::floats::{
    agrees, answer, compute, computed, lemma_answers_settle, order, ordered, truncate, truncated, widen, widened,
    FloatFact, FloatOp, FloatOrder, FloatQuery, Question,
};
use crate::model::{BinaryOp, Primitive, UnaryOp, Value};
use crate::text::chars_of;
use vstd::arithmetic::power::{lemma0_pow, lemma1_pow, pow};
use vstd::prelude::*;
use vstd::string::*;

verus! {

/// What an evaluation comes to: a value, the message of an error, or a
/// question that the table of float facts does not answer yet.
#[derive(Debug, PartialEq, Eq)]
pub enum Outcome {
    Value(Primitive),
    Error(String),
    Ask(FloatQuery),
}

/// An outcome in specifications.
pub enum Verdict {
    Value(Value),
    Error(Seq<char>),
    Ask(Question),
}

impl View for Outcome {
    type V = Verdict;

    open spec fn view(&self) -> Verdict {
        match *self {
            Outcome::Value(value) => Verdict::Value(value@),
            Outcome::Error(message) => Verdict::Error(message@),
            Outcome::Ask(query) => Verdict::Ask(query@),
        }
    }
}

/// The name of the type of `value`, for messages.
pub open spec fn kind_name(value: Value) -> Seq<char> {
    match value {
        Value::Integer(_) => "Integer"@,
        Value::Float(_) => "Float"@,
        Value::Boolean(_) => "Boolean"@,
        Value::Text(_) => "String"@,
    }
}

/// The operator as it is written in a formula.
pub open spec fn binary_symbol(op: BinaryOp) -> Seq<char> {
    match op {
        BinaryOp::LogicalOr => "||"@,
        BinaryOp::LogicalAnd => "&&"@,
        BinaryOp::BitwiseOr => "|"@,
        BinaryOp::BitwiseXor => "^"@,
        BinaryOp::BitwiseAnd => "&"@,
        BinaryOp::Equals => "=="@,
        BinaryOp::NotEquals => "!="@,
        BinaryOp::LessThan => "<"@,
        BinaryOp::LessThanOrEqual => "<="@,
        BinaryOp::GreaterThan => ">"@,
        BinaryOp::GreaterThanOrEqual => ">="@,
        BinaryOp::LeftShift => "<<"@,
        BinaryOp::RightShift => ">>"@,
        BinaryOp::Add => "+"@,
        BinaryOp::Subtract => "-"@,
        BinaryOp::Multiply => "*"@,
        BinaryOp::Divide => "/"@,
        BinaryOp::Modulus => "%"@,
        BinaryOp::Power => "**"@,
    }
}

/// The operator as it is written in a formula.
pub open spec fn unary_symbol(op: UnaryOp) -> Seq<char> {
    match op {
        UnaryOp::LogicalNot => "!"@,
        UnaryOp::BitwiseNot => "~"@,
        UnaryOp::FloatToInt => "int"@,
        UnaryOp::IntToFloat => "float"@,
    }
}

/// The message for operands that `op` does not take.
pub open spec fn binary_type_error(op: BinaryOp, left: Value, right: Value) -> Seq<char> {
    "type error: "@ + binary_symbol(op) + " on "@ + kind_name(left) + " and "@ + kind_name(right)
}

/// The message for an operand that `op` does not take.
pub open spec fn unary_type_error(op: UnaryOp, operand: Value) -> Seq<char> {
    "type error: "@ + unary_symbol(op) + " on "@ + kind_name(operand)
}

pub open spec fn is_numeric(value: Value) -> bool {
    value is Integer || value is Float
}

pub open spec fn magnitude(a: int) -> int {
    if a < 0 {
        -a
    } else {
        a
    }
}

/// The quotient of `a` by `b`, rounded towards zero; `b` is not 0.
pub open spec fn truncated_quotient(a: int, b: int) -> int {
    if (a < 0) == (b < 0) {
        magnitude(a) / magnitude(b)
    } else {
        -(magnitude(a) / magnitude(b))
    }
}

/// The remainder that goes with `truncated_quotient`: it has the sign of `a`.
pub open spec fn truncated_remainder(a: int, b: int) -> int {
    if a < 0 {
        -(magnitude(a) % magnitude(b))
    } else {
        magnitude(a) % magnitude(b)
    }
}

pub open spec fn is_arithmetic(op: BinaryOp) -> bool {
    op is Add || op is Subtract || op is Multiply || op is Divide || op is Modulus || op is Power
}

/// The result of an arithmetic operator on integers, before any limit.
pub open spec fn exact_result(op: BinaryOp, a: int, b: int) -> int {
    match op {
        BinaryOp::Add => a + b,
        BinaryOp::Subtract => a - b,
        BinaryOp::Multiply => a * b,
        BinaryOp::Divide => truncated_quotient(a, b),
        BinaryOp::Modulus => truncated_remainder(a, b),
        _ => pow(a, b as nat),
    }
}

/// An arithmetic operator on two integers.
pub open spec fn integer_arithmetic(op: BinaryOp, a: i32, b: i32) -> Verdict {
    if (op is Divide || op is Modulus) && b == 0 {
        Verdict::Error("division by zero"@)
    } else if op is Power && b < 0 {
        Verdict::Error("negative integer exponent"@)
    } else {
        let exact = exact_result(op, a as int, b as int);
        if i32::MIN <= exact <= i32::MAX {
            Verdict::Value(Value::Integer(exact as i32))
        } else {
            Verdict::Error("integer overflow"@)
        }
    }
}

/// What the float unit is asked to do for an arithmetic operator.
pub open spec fn float_op(op: BinaryOp) -> FloatOp {
    match op {
        BinaryOp::Add => FloatOp::Add,
        BinaryOp::Subtract => FloatOp::Subtract,
        BinaryOp::Multiply => FloatOp::Multiply,
        BinaryOp::Divide => FloatOp::Divide,
        BinaryOp::Modulus => FloatOp::Remainder,
        _ => FloatOp::Power,
    }
}

/// The single-precision number that the numeric value `value` is or widens to.
pub open spec fn number_bits(value: Value, facts: Seq<FloatFact>) -> Result<u32, Question> {
    match value {
        Value::Integer(i) => match widened(facts, i) {
            Some(bits) => Ok(bits),
            None => Err(Question::Widen(i)),
        },
        Value::Float(bits) => Ok(bits),
        _ => Ok(0),
    }
}

/// Both numeric operands as single-precision numbers, the left one first.
pub open spec fn float_operands(left: Value, right: Value, facts: Seq<FloatFact>) -> Result<
    (u32, u32),
    Question,
> {
    match number_bits(left, facts) {
        Err(question) => Err(question),
        Ok(a) => match number_bits(right, facts) {
            Err(question) => Err(question),
            Ok(b) => Ok((a, b)),
        },
    }
}

/// How two numeric operands stand to each other as single-precision numbers.
pub open spec fn float_order(left: Value, right: Value, facts: Seq<FloatFact>) -> Result<
    FloatOrder,
    Question,
> {
    match float_operands(left, right, facts) {
        Err(question) => Err(question),
        Ok((a, b)) => match ordered(facts, a, b) {
            Some(o) => Ok(o),
            None => Err(Question::Order(a, b)),
        },
    }
}

/// An arithmetic operator: on two integers, on two numbers of which one at
/// least is single-precision and the other is widened, or `+` on two texts.
pub open spec fn arithmetic(op: BinaryOp, left: Value, right: Value, facts: Seq<FloatFact>) -> Verdict {
    match (left, right) {
        (Value::Integer(a), Value::Integer(b)) => integer_arithmetic(op, a, b),
        (Value::Text(a), Value::Text(b)) => if op is Add {
            Verdict::Value(Value::Text(a + b))
        } else {
            Verdict::Error(binary_type_error(op, left, right))
        },
        _ => if is_numeric(left) && is_numeric(right) {
            match float_operands(left, right, facts) {
                Err(question) => Verdict::Ask(question),
                Ok((a, b)) => match computed(facts, float_op(op), a, b) {
                    Some(bits) => Verdict::Value(Value::Float(bits)),
                    None => Verdict::Ask(Question::Compute(float_op(op), a, b)),
                },
            }
        } else {
            Verdict::Error(binary_type_error(op, left, right))
        },
    }
}

pub open spec fn integer_order(a: int, b: int) -> FloatOrder {
    if a < b {
        FloatOrder::Less
    } else if a == b {
        FloatOrder::Equal
    } else {
        FloatOrder::Greater
    }
}

/// How `a` stands to `b` from index `i` on, where they agree before it:
/// the first character that differs decides, by its code point; a text that
/// ends first is less.
pub open spec fn text_order_from(a: Seq<char>, b: Seq<char>, i: int) -> FloatOrder
    decreases a.len() - i,
{
    if !(0 <= i < a.len()) {
        if 0 <= i < b.len() {
            FloatOrder::Less
        } else {
            FloatOrder::Equal
        }
    } else if i >= b.len() {
        FloatOrder::Greater
    } else if a[i] < b[i] {
        FloatOrder::Less
    } else if a[i] > b[i] {
        FloatOrder::Greater
    } else {
        text_order_from(a, b, i + 1)
    }
}

/// How the text `a` stands to the text `b`, character by character.
pub open spec fn text_order(a: Seq<char>, b: Seq<char>) -> FloatOrder {
    text_order_from(a, b, 0)
}

/// True when the comparison `op` holds of operands that stand as `o`.
pub open spec fn holds(op: BinaryOp, o: FloatOrder) -> bool {
    match op {
        BinaryOp::LessThan => o is Less,
        BinaryOp::LessThanOrEqual => o is Less || o is Equal,
        BinaryOp::GreaterThan => o is Greater,
        BinaryOp::GreaterThanOrEqual => o is Greater || o is Equal,
        BinaryOp::NotEquals => !(o is Equal),
        _ => o is Equal,
    }
}

pub open spec fn is_ordering(op: BinaryOp) -> bool {
    op is LessThan || op is LessThanOrEqual || op is GreaterThan || op is GreaterThanOrEqual
}

/// `==` and `!=`: values of one type are compared directly, an integer and a
/// single-precision number as single-precision numbers, and values of
/// other unlike types are never equal.
pub open spec fn equality(op: BinaryOp, left: Value, right: Value, facts: Seq<FloatFact>) -> Verdict {
    match (left, right) {
        (Value::Integer(a), Value::Integer(b)) => Verdict::Value(
            Value::Boolean(holds(op, integer_order(a as int, b as int))),
        ),
        (Value::Boolean(a), Value::Boolean(b)) => Verdict::Value(
            Value::Boolean((a == b) == (op is Equals)),
        ),
        (Value::Text(a), Value::Text(b)) => Verdict::Value(Value::Boolean((a == b) == (op is Equals))),
        _ => if is_numeric(left) && is_numeric(right) {
            match float_order(left, right, facts) {
                Err(question) => Verdict::Ask(question),
                Ok(o) => Verdict::Value(Value::Boolean(holds(op, o))),
            }
        } else {
            Verdict::Value(Value::Boolean(!(op is Equals)))
        },
    }
}

/// `<`, `<=`, `>` and `>=`: on two numbers, or on two texts.
pub open spec fn ordering(op: BinaryOp, left: Value, right: Value, facts: Seq<FloatFact>) -> Verdict {
    match (left, right) {
        (Value::Integer(a), Value::Integer(b)) => Verdict::Value(
            Value::Boolean(holds(op, integer_order(a as int, b as int))),
        ),
        (Value::Text(a), Value::Text(b)) => Verdict::Value(Value::Boolean(holds(op, text_order(a, b)))),
        _ => if is_numeric(left) && is_numeric(right) {
            match float_order(left, right, facts) {
                Err(question) => Verdict::Ask(question),
                Ok(o) => Verdict::Value(Value::Boolean(holds(op, o))),
            }
        } else {
            Verdict::Error(binary_type_error(op, left, right))
        },
    }
}

/// `|`, `^`, `&`, `<<` and `>>`: on two integers. A shift is by 0 to 31 bits.
pub open spec fn bitwise(op: BinaryOp, left: Value, right: Value) -> Verdict {
    match (left, right) {
        (Value::Integer(a), Value::Integer(b)) => match op {
            BinaryOp::BitwiseOr => Verdict::Value(Value::Integer(a | b)),
            BinaryOp::BitwiseXor => Verdict::Value(Value::Integer(a ^ b)),
            BinaryOp::BitwiseAnd => Verdict::Value(Value::Integer(a & b)),
            _ => if 0 <= b < 32 {
                if op is LeftShift {
                    Verdict::Value(Value::Integer(a << b))
                } else {
                    Verdict::Value(Value::Integer(a >> b))
                }
            } else {
                Verdict::Error("invalid shift amount"@)
            },
        },
        _ => Verdict::Error(binary_type_error(op, left, right)),
    }
}

/// `||` and `&&`: on two booleans.
pub open spec fn logical(op: BinaryOp, left: Value, right: Value) -> Verdict {
    match (left, right) {
        (Value::Boolean(a), Value::Boolean(b)) => Verdict::Value(
            Value::Boolean(
                if op is LogicalOr {
                    a || b
                } else {
                    a && b
                },
            ),
        ),
        _ => Verdict::Error(binary_type_error(op, left, right)),
    }
}

/// What the binary operator `op` gives on `left` and `right`.
pub open spec fn apply_binary(op: BinaryOp, left: Value, right: Value, facts: Seq<FloatFact>) -> Verdict {
    match op {
        BinaryOp::LogicalOr | BinaryOp::LogicalAnd => logical(op, left, right),
        BinaryOp::BitwiseOr | BinaryOp::BitwiseXor | BinaryOp::BitwiseAnd | BinaryOp::LeftShift
        | BinaryOp::RightShift => bitwise(op, left, right),
        BinaryOp::Equals | BinaryOp::NotEquals => equality(op, left, right, facts),
        BinaryOp::LessThan | BinaryOp::LessThanOrEqual | BinaryOp::GreaterThan
        | BinaryOp::GreaterThanOrEqual => ordering(op, left, right, facts),
        _ => arithmetic(op, left, right, facts),
    }
}

/// What the prefix operator `op` gives on `operand`. `int` cuts a
/// single-precision number off towards zero and leaves an integer as it is;
/// `float` widens an integer and leaves a single-precision number as it is.
pub open spec fn apply_unary(op: UnaryOp, operand: Value, facts: Seq<FloatFact>) -> Verdict {
    match (op, operand) {
        (UnaryOp::LogicalNot, Value::Boolean(b)) => Verdict::Value(Value::Boolean(!b)),
        (UnaryOp::BitwiseNot, Value::Integer(a)) => Verdict::Value(Value::Integer(!a)),
        (UnaryOp::FloatToInt, Value::Integer(a)) => Verdict::Value(Value::Integer(a)),
        (UnaryOp::FloatToInt, Value::Float(bits)) => match truncated(facts, bits) {
            Some(i) => Verdict::Value(Value::Integer(i)),
            None => Verdict::Ask(Question::Truncate(bits)),
        },
        (UnaryOp::IntToFloat, Value::Float(bits)) => Verdict::Value(Value::Float(bits)),
        (UnaryOp::IntToFloat, Value::Integer(a)) => match widened(facts, a) {
            Some(bits) => Verdict::Value(Value::Float(bits)),
            None => Verdict::Ask(Question::Widen(a)),
        },
        _ => Verdict::Error(unary_type_error(op, operand)),
    }
}

fn kind_name_of(value: &Primitive) -> (r: &'static str)
    ensures
        r@ == kind_name(value@),
{
    match value {
        Primitive::Integer(_) => "Integer",
        Primitive::Float(_) => "Float",
        Primitive::Boolean(_) => "Boolean",
        Primitive::String(_) => "String",
    }
}

fn binary_symbol_of(op: BinaryOp) -> (r: &'static str)
    ensures
        r@ == binary_symbol(op),
{
    match op {
        BinaryOp::LogicalOr => "||",
        BinaryOp::LogicalAnd => "&&",
        BinaryOp::BitwiseOr => "|",
        BinaryOp::BitwiseXor => "^",
        BinaryOp::BitwiseAnd => "&",
        BinaryOp::Equals => "==",
        BinaryOp::NotEquals => "!=",
        BinaryOp::LessThan => "<",
        BinaryOp::LessThanOrEqual => "<=",
        BinaryOp::GreaterThan => ">",
        BinaryOp::GreaterThanOrEqual => ">=",
        BinaryOp::LeftShift => "<<",
        BinaryOp::RightShift => ">>",
        BinaryOp::Add => "+",
        BinaryOp::Subtract => "-",
        BinaryOp::Multiply => "*",
        BinaryOp::Divide => "/",
        BinaryOp::Modulus => "%",
        BinaryOp::Power => "**",
    }
}

fn unary_symbol_of(op: UnaryOp) -> (r: &'static str)
    ensures
        r@ == unary_symbol(op),
{
    match op {
        UnaryOp::LogicalNot => "!",
        UnaryOp::BitwiseNot => "~",
        UnaryOp::FloatToInt => "int",
        UnaryOp::IntToFloat => "float",
    }
}

fn binary_mismatch(op: BinaryOp, left: &Primitive, right: &Primitive) -> (r: Outcome)
    ensures
        r@ == Verdict::Error(binary_type_error(op, left@, right@)),
{
    let mut message = "type error: ".to_owned();
    message.append(binary_symbol_of(op));
    message.append(" on ");
    message.append(kind_name_of(left));
    message.append(" and ");
    message.append(kind_name_of(right));
    assert(message@ =~= binary_type_error(op, left@, right@));
    Outcome::Error(message)
}

fn unary_mismatch(op: UnaryOp, operand: &Primitive) -> (r: Outcome)
    ensures
        r@ == Verdict::Error(unary_type_error(op, operand@)),
{
    let mut message = "type error: ".to_owned();
    message.append(unary_symbol_of(op));
    message.append(" on ");
    message.append(kind_name_of(operand));
    assert(message@ =~= unary_type_error(op, operand@));
    Outcome::Error(message)
}

/// The integer `exact` as a value, if it fits 32 bits.
fn fitted(exact: i64) -> (r: Outcome)
    ensures
        r@ == if i32::MIN <= exact <= i32::MAX {
            Verdict::Value(Value::Integer(exact as i32))
        } else {
            Verdict::Error("integer overflow"@)
        },
{
    if exact < -0x8000_0000 || exact > 0x7fff_ffff {
        Outcome::Error("integer overflow".to_owned())
    } else {
        Outcome::Value(Primitive::Integer(exact as i32))
    }
}

proof fn lemma_pow_of_minus_one(e: nat)
    ensures
        pow(-1, e) == if e % 2 == 0 {
            1int
        } else {
            -1int
        },
    decreases e,
{
    reveal(pow);
    if e > 0 {
        lemma_pow_of_minus_one((e - 1) as nat);
    }
}

/// Once a power of a base of magnitude two or more has left the 32-bit
/// range, every higher power lies outside it too.
proof fn lemma_pow_stays_large(a: int, k: nat, e: nat)
    requires
        magnitude(a) >= 2,
        k <= e,
        magnitude(pow(a, k)) >= 0x8000_0000,
        pow(a, k) != -0x8000_0000,
    ensures
        magnitude(pow(a, e)) >= 0x8000_0000,
        pow(a, e) != -0x8000_0000,
    decreases e - k,
{
    if k < e {
        let x = pow(a, k);
        assert(pow(a, (k + 1) as nat) == a * x) by {
            reveal(pow);
        }
        assert(magnitude(a * x) >= 2 * magnitude(x)) by (nonlinear_arith)
            requires
                magnitude(a) >= 2,
        ;
        lemma_pow_stays_large(a, (k + 1) as nat, e);
    }
}

/// `a` to the power of `b`.
fn integer_power(a: i32, b: i32) -> (r: Outcome)
    ensures
        r@ == integer_arithmetic(BinaryOp::Power, a, b),
{
    if b < 0 {
        return Outcome::Error("negative integer exponent".to_owned());
    }
    if a == 0 || a == 1 {
        proof {
            reveal(pow);
            if b > 0 {
                lemma0_pow(b as nat);
            }
            lemma1_pow(b as nat);
        }
        return Outcome::Value(Primitive::Integer(if b == 0 { 1 } else { a }));
    }
    if a == -1 {
        proof {
            lemma_pow_of_minus_one(b as nat);
        }
        return Outcome::Value(Primitive::Integer(if b % 2 == 0 { 1 } else { -1 }));
    }
    let mut power: i64 = 1;
    let mut done: i32 = 0;
    proof {
        reveal(pow);
    }
    while done < b
        invariant
            0 <= done <= b,
            magnitude(a as int) >= 2,
            power == pow(a as int, done as nat),
            i32::MIN <= power <= i32::MAX,
        decreases b - done,
    {
        assert(pow(a as int, (done + 1) as nat) == a * pow(a as int, done as nat)) by {
            reveal(pow);
        }
        assert(-0x4000_0000_0000_0000 <= (power as int) * (a as int) <= 0x4000_0000_0000_0000)
            by (nonlinear_arith)
            requires
                -0x8000_0000 <= power <= 0x7fff_ffff,
                -0x8000_0000 <= a <= 0x7fff_ffff,
        ;
        power = power * (a as i64);
        done = done + 1;
        if power < -0x8000_0000 || power > 0x7fff_ffff {
            proof {
                lemma_pow_stays_large(a as int, done as nat, b as nat);
            }
            return Outcome::Error("integer overflow".to_owned());
        }
    }
    Outcome::Value(Primitive::Integer(power as i32))
}

/// An arithmetic operator on two integers.
fn integers(op: BinaryOp, a: i32, b: i32) -> (r: Outcome)
    requires
        is_arithmetic(op),
    ensures
        r@ == integer_arithmetic(op, a, b),
{
    match op {
        BinaryOp::Add => fitted(a as i64 + b as i64),
        BinaryOp::Subtract => fitted(a as i64 - b as i64),
        BinaryOp::Multiply => {
            assert(-0x4000_0000_0000_0000 <= (a as int) * (b as int) <= 0x4000_0000_0000_0000)
                by (nonlinear_arith)
                requires
                    -0x8000_0000 <= a <= 0x7fff_ffff,
                    -0x8000_0000 <= b <= 0x7fff_ffff,
            ;
            fitted((a as i64) * (b as i64))
        },
        BinaryOp::Power => integer_power(a, b),
        _ => {
            if b == 0 {
                return Outcome::Error("division by zero".to_owned());
            }
            let size_a: u64 = if a < 0 {
                (-(a as i64)) as u64
            } else {
                a as u64
            };
            let size_b: u64 = if b < 0 {
                (-(b as i64)) as u64
            } else {
                b as u64
            };
            if op == BinaryOp::Divide {
                let quotient: u64 = size_a / size_b;
                assert(quotient <= size_a) by (nonlinear_arith)
                    requires
                        quotient == size_a / size_b,
                        size_b >= 1,
                ;
                fitted(
                    if (a < 0) == (b < 0) {
                        quotient as i64
                    } else {
                        -(quotient as i64)
                    },
                )
            } else {
                let remainder: u64 = size_a % size_b;
                fitted(
                    if a < 0 {
                        -(remainder as i64)
                    } else {
                        remainder as i64
                    },
                )
            }
        },
    }
}

/// The single-precision number that a numeric value is or widens to, or
/// the question to ask.
fn bits_of(value: &Primitive, floats: &Vec<FloatFact>) -> (r: Result<u32, FloatQuery>)
    requires
        is_numeric(value@),
    ensures
        match r {
            Ok(bits) => number_bits(value@, floats@) == Ok::<u32, Question>(bits),
            Err(query) => number_bits(value@, floats@) == Err::<u32, Question>(query@),
        },
{
    match value {
        Primitive::Integer(i) => widen(floats, *i),
        Primitive::Float(bits) => Ok(*bits),
        _ => Ok(0),
    }
}

/// Both numeric operands as single-precision numbers, or the question to ask.
fn operands(left: &Primitive, right: &Primitive, floats: &Vec<FloatFact>) -> (r: Result<
    (u32, u32),
    FloatQuery,
>)
    requires
        is_numeric(left@),
        is_numeric(right@),
    ensures
        match r {
            Ok(pair) => float_operands(left@, right@, floats@) == Ok::<(u32, u32), Question>(pair),
            Err(query) => float_operands(left@, right@, floats@) == Err::<(u32, u32), Question>(
                query@,
            ),
        },
{
    let a = match bits_of(left, floats) {
        Ok(bits) => bits,
        Err(query) => {
            return Err(query);
        },
    };
    match bits_of(right, floats) {
        Ok(b) => Ok((a, b)),
        Err(query) => Err(query),
    }
}

/// How two numeric operands stand to each other as single-precision
/// numbers, or the question to ask.
fn standing(left: &Primitive, right: &Primitive, floats: &Vec<FloatFact>) -> (r: Result<
    FloatOrder,
    FloatQuery,
>)
    requires
        is_numeric(left@),
        is_numeric(right@),
    ensures
        match r {
            Ok(o) => float_order(left@, right@, floats@) == Ok::<FloatOrder, Question>(o),
            Err(query) => float_order(left@, right@, floats@) == Err::<FloatOrder, Question>(query@),
        },
{
    match operands(left, right, floats) {
        Ok((a, b)) => order(floats, a, b),
        Err(query) => Err(query),
    }
}

fn numeric(value: &Primitive) -> (r: bool)
    ensures
        r == is_numeric(value@),
{
    match value {
        Primitive::Integer(_) => true,
        Primitive::Float(_) => true,
        _ => false,
    }
}

fn order_of_integers(a: i32, b: i32) -> (r: FloatOrder)
    ensures
        r == integer_order(a as int, b as int),
{
    if a < b {
        FloatOrder::Less
    } else if a == b {
        FloatOrder::Equal
    } else {
        FloatOrder::Greater
    }
}

fn order_of_texts(a: &str, b: &str) -> (r: FloatOrder)
    ensures
        r == text_order(a@, b@),
{
    let left = chars_of(a);
    let right = chars_of(b);
    let mut i: usize = 0;
    while i < left.len() && i < right.len()
        invariant
            left@ == a@,
            right@ == b@,
            i <= left.len(),
            i <= right.len(),
            text_order(a@, b@) == text_order_from(a@, b@, i as int),
        decreases left.len() - i,
    {
        if left[i] < right[i] {
            return FloatOrder::Less;
        }
        if left[i] > right[i] {
            return FloatOrder::Greater;
        }
        i += 1;
    }
    if i < right.len() {
        FloatOrder::Less
    } else if i < left.len() {
        FloatOrder::Greater
    } else {
        FloatOrder::Equal
    }
}

fn holds_of(op: BinaryOp, o: FloatOrder) -> (r: bool)
    ensures
        r == holds(op, o),
{
    match op {
        BinaryOp::LessThan => o == FloatOrder::Less,
        BinaryOp::LessThanOrEqual => o == FloatOrder::Less || o == FloatOrder::Equal,
        BinaryOp::GreaterThan => o == FloatOrder::Greater,
        BinaryOp::GreaterThanOrEqual => o == FloatOrder::Greater || o == FloatOrder::Equal,
        BinaryOp::NotEquals => !(o == FloatOrder::Equal),
        _ => o == FloatOrder::Equal,
    }
}

fn arithmetic_of(op: BinaryOp, left: Primitive, right: Primitive, floats: &Vec<FloatFact>) -> (r:
    Outcome)
    requires
        is_arithmetic(op),
    ensures
        r@ == arithmetic(op, left@, right@, floats@),
{
    match (&left, &right) {
        (Primitive::Integer(a), Primitive::Integer(b)) => integers(op, *a, *b),
        (Primitive::String(a), Primitive::String(b)) => {
            if op == BinaryOp::Add {
                let mut joined = a.clone();
                joined.append(b.as_str());
                Outcome::Value(Primitive::String(joined))
            } else {
                binary_mismatch(op, &left, &right)
            }
        },
        _ => {
            if numeric(&left) && numeric(&right) {
                let (a, b) = match operands(&left, &right, floats) {
                    Ok(pair) => pair,
                    Err(query) => {
                        return Outcome::Ask(query);
                    },
                };
                let float_op = match op {
                    BinaryOp::Add => FloatOp::Add,
                    BinaryOp::Subtract => FloatOp::Subtract,
                    BinaryOp::Multiply => FloatOp::Multiply,
                    BinaryOp::Divide => FloatOp::Divide,
                    BinaryOp::Modulus => FloatOp::Remainder,
                    _ => FloatOp::Power,
                };
                match compute(floats, float_op, a, b) {
                    Ok(bits) => Outcome::Value(Primitive::Float(bits)),
                    Err(query) => Outcome::Ask(query),
                }
            } else {
                binary_mismatch(op, &left, &right)
            }
        },
    }
}

fn equality_of(op: BinaryOp, left: Primitive, right: Primitive, floats: &Vec<FloatFact>) -> (r:
    Outcome)
    requires
        op is Equals || op is NotEquals,
    ensures
        r@ == equality(op, left@, right@, floats@),
{
    let equals = op == BinaryOp::Equals;
    match (&left, &right) {
        (Primitive::Integer(a), Primitive::Integer(b)) => Outcome::Value(
            Primitive::Boolean(holds_of(op, order_of_integers(*a, *b))),
        ),
        (Primitive::Boolean(a), Primitive::Boolean(b)) => Outcome::Value(
            Primitive::Boolean((*a == *b) == equals),
        ),
        (Primitive::String(a), Primitive::String(b)) => Outcome::Value(
            Primitive::Boolean((*a == *b) == equals),
        ),
        _ => {
            if numeric(&left) && numeric(&right) {
                match standing(&left, &right, floats) {
                    Ok(o) => Outcome::Value(Primitive::Boolean(holds_of(op, o))),
                    Err(query) => Outcome::Ask(query),
                }
            } else {
                Outcome::Value(Primitive::Boolean(!equals))
            }
        },
    }
}

fn ordering_of(op: BinaryOp, left: Primitive, right: Primitive, floats: &Vec<FloatFact>) -> (r:
    Outcome)
    requires
        is_ordering(op),
    ensures
        r@ == ordering(op, left@, right@, floats@),
{
    match (&left, &right) {
        (Primitive::Integer(a), Primitive::Integer(b)) => Outcome::Value(
            Primitive::Boolean(holds_of(op, order_of_integers(*a, *b))),
        ),
        (Primitive::String(a), Primitive::String(b)) => Outcome::Value(
            Primitive::Boolean(holds_of(op, order_of_texts(a.as_str(), b.as_str()))),
        ),
        _ => {
            if numeric(&left) && numeric(&right) {
                match standing(&left, &right, floats) {
                    Ok(o) => Outcome::Value(Primitive::Boolean(holds_of(op, o))),
                    Err(query) => Outcome::Ask(query),
                }
            } else {
                binary_mismatch(op, &left, &right)
            }
        },
    }
}

fn bitwise_of(op: BinaryOp, left: Primitive, right: Primitive) -> (r: Outcome)
    requires
        op is BitwiseOr || op is BitwiseXor || op is BitwiseAnd || op is LeftShift || op
            is RightShift,
    ensures
        r@ == bitwise(op, left@, right@),
{
    match (&left, &right) {
        (Primitive::Integer(a), Primitive::Integer(b)) => {
            let a: i32 = *a;
            let b: i32 = *b;
            match op {
                BinaryOp::BitwiseOr => Outcome::Value(Primitive::Integer(a | b)),
                BinaryOp::BitwiseXor => Outcome::Value(Primitive::Integer(a ^ b)),
                BinaryOp::BitwiseAnd => Outcome::Value(Primitive::Integer(a & b)),
                _ => {
                    if b < 0 || b >= 32 {
                        Outcome::Error("invalid shift amount".to_owned())
                    } else if op == BinaryOp::LeftShift {
                        Outcome::Value(Primitive::Integer(a << b))
                    } else {
                        Outcome::Value(Primitive::Integer(a >> b))
                    }
                },
            }
        },
        _ => binary_mismatch(op, &left, &right),
    }
}

fn logical_of(op: BinaryOp, left: Primitive, right: Primitive) -> (r: Outcome)
    requires
        op is LogicalOr || op is LogicalAnd,
    ensures
        r@ == logical(op, left@, right@),
{
    match (&left, &right) {
        (Primitive::Boolean(a), Primitive::Boolean(b)) => Outcome::Value(
            Primitive::Boolean(
                if op == BinaryOp::LogicalOr {
                    *a || *b
                } else {
                    *a && *b
                },
            ),
        ),
        _ => binary_mismatch(op, &left, &right),
    }
}

/// Applies the binary operator `op` to `left` and `right`.
pub fn binary(op: BinaryOp, left: Primitive, right: Primitive, floats: &Vec<FloatFact>) -> (r:
    Outcome)
    ensures
        r@ == apply_binary(op, left@, right@, floats@),
{
    match op {
        BinaryOp::LogicalOr | BinaryOp::LogicalAnd => logical_of(op, left, right),
        BinaryOp::BitwiseOr | BinaryOp::BitwiseXor | BinaryOp::BitwiseAnd | BinaryOp::LeftShift
        | BinaryOp::RightShift => bitwise_of(op, left, right),
        BinaryOp::Equals | BinaryOp::NotEquals => equality_of(op, left, right, floats),
        BinaryOp::LessThan | BinaryOp::LessThanOrEqual | BinaryOp::GreaterThan
        | BinaryOp::GreaterThanOrEqual => ordering_of(op, left, right, floats),
        _ => arithmetic_of(op, left, right, floats),
    }
}

/// Applies the prefix operator `op` to `operand`.
pub fn unary(op: UnaryOp, operand: Primitive, floats: &Vec<FloatFact>) -> (r: Outcome)
    ensures
        r@ == apply_unary(op, operand@, floats@),
{
    match (op, &operand) {
        (UnaryOp::LogicalNot, Primitive::Boolean(b)) => Outcome::Value(Primitive::Boolean(!*b)),
        (UnaryOp::BitwiseNot, Primitive::Integer(a)) => Outcome::Value(Primitive::Integer(!*a)),
        (UnaryOp::FloatToInt, Primitive::Integer(a)) => Outcome::Value(Primitive::Integer(*a)),
        (UnaryOp::FloatToInt, Primitive::Float(bits)) => match truncate(floats, *bits) {
            Ok(i) => Outcome::Value(Primitive::Integer(i)),
            Err(query) => Outcome::Ask(query),
        },
        (UnaryOp::IntToFloat, Primitive::Float(bits)) => Outcome::Value(Primitive::Float(*bits)),
        (UnaryOp::IntToFloat, Primitive::Integer(a)) => match widen(floats, *a) {
            Ok(bits) => Outcome::Value(Primitive::Float(bits)),
            Err(query) => Outcome::Ask(query),
        },
        _ => unary_mismatch(op, &operand),
    }
}

/// True when the outcome `later` is the outcome `first`, unless `first` is a question.
pub open spec fn stands(first: Verdict, later: Verdict) -> bool {
    first is Ask || later == first
}

/// True when the outcome `verdict` is no question that `facts` answer.
pub open spec fn asks_new(verdict: Verdict, facts: Seq<FloatFact>) -> bool {
    verdict matches Verdict::Ask(question) ==> answer(facts, question) is None
}

/// What a binary operator gives stands when float facts are added, and
/// the question that it asks is one that the float facts do not answer.
pub proof fn lemma_binary_stands(
    op: BinaryOp,
    left: Value,
    right: Value,
    facts: Seq<FloatFact>,
    more: Seq<FloatFact>,
)
    requires
        agrees(facts, more),
    ensures
        stands(apply_binary(op, left, right, facts), apply_binary(op, left, right, more)),
        asks_new(apply_binary(op, left, right, facts), facts),
{
    lemma_answers_settle(facts);
    if is_numeric(left) && is_numeric(right) {
        lemma_float_operands_stand(left, right, facts, more);
    }
}

proof fn lemma_float_operands_stand(
    left: Value,
    right: Value,
    facts: Seq<FloatFact>,
    more: Seq<FloatFact>,
)
    requires
        agrees(facts, more),
    ensures
        float_operands(left, right, facts) is Ok ==> float_operands(left, right, more)
            == float_operands(left, right, facts),
        float_order(left, right, facts) is Ok ==> float_order(left, right, more) == float_order(
            left,
            right,
            facts,
        ),
        float_operands(left, right, facts) matches Err(question) ==> answer(facts, question)
            is None,
        float_order(left, right, facts) matches Err(question) ==> answer(facts, question) is None,
{
    lemma_answers_settle(facts);
}

/// What a prefix operator gives stands when float facts are added, and
/// the question that it asks is one that the float facts do not answer.
pub proof fn lemma_unary_stands(
    op: UnaryOp,
    operand: Value,
    facts: Seq<FloatFact>,
    more: Seq<FloatFact>,
)
    requires
        agrees(facts, more),
    ensures
        stands(apply_unary(op, operand, facts), apply_unary(op, operand, more)),
        asks_new(apply_unary(op, operand, facts), facts),
{
    lemma_answers_settle(facts);
}

} // verus!
