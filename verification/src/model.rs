//! The values that cells hold and the trees that formulas are parsed into.

use crate::floats::{show, shown, FloatFact, FloatQuery, Question};
use crate::text::{append_signed_decimal, signed_decimal};
use vstd::prelude::*;
use vstd::string::*;

verus! {

/// The coordinate of a cell: row, then column.
#[derive(Debug, Clone, Copy, PartialEq, Eq, Hash, Structural)]
pub struct CellAddress(pub i32, pub i32);

/// A value. A `Float` holds the bit pattern of an IEEE 754
/// single-precision number.
#[derive(Debug, PartialEq, Eq)]
pub enum Primitive {
    Integer(i32),
    Float(u32),
    Boolean(bool),
    String(String),
}

/// A value in specifications.
pub enum Value {
    Integer(i32),
    Float(u32),
    Boolean(bool),
    Text(Seq<char>),
}

impl View for Primitive {
    type V = Value;

    open spec fn view(&self) -> Value {
        match *self {
            Primitive::Integer(i) => Value::Integer(i),
            Primitive::Float(bits) => Value::Float(bits),
            Primitive::Boolean(b) => Value::Boolean(b),
            Primitive::String(text) => Value::Text(text@),
        }
    }
}

impl Clone for Primitive {
    fn clone(&self) -> (r: Self)
        ensures
            r@ == self@,
    {
        match self {
            Primitive::Integer(i) => Primitive::Integer(*i),
            Primitive::Float(bits) => Primitive::Float(*bits),
            Primitive::Boolean(b) => Primitive::Boolean(*b),
            Primitive::String(text) => Primitive::String(text.clone()),
        }
    }
}

/// How `value` is shown: an integer in decimal, a boolean as `true` or
/// `false`, a text as it is, and a single-precision number as the float
/// facts say, or else the question to ask.
pub open spec fn display_form(value: Value, facts: Seq<FloatFact>) -> Result<Seq<char>, Question> {
    match value {
        Value::Integer(i) => Ok(signed_decimal(i as int)),
        Value::Float(bits) => match shown(facts, bits) {
            Some(text) => Ok(text),
            None => Err(Question::Show(bits)),
        },
        Value::Boolean(b) => Ok(
            if b {
                "true"@
            } else {
                "false"@
            },
        ),
        Value::Text(text) => Ok(text),
    }
}

impl Primitive {
    /// The form in which the value is shown.
    pub fn display(&self, floats: &Vec<FloatFact>) -> (r: Result<String, FloatQuery>)
        ensures
            match display_form(self@, floats@) {
                Ok(text) => r matches Ok(shown) && shown@ == text,
                Err(question) => r matches Err(query) && query@ == question,
            },
    {
        match self {
            Primitive::Integer(i) => {
                let mut text = String::new();
                append_signed_decimal(&mut text, *i as i64);
                assert(text@ =~= signed_decimal(*i as int));
                Ok(text)
            },
            Primitive::Float(bits) => show(floats, *bits),
            Primitive::Boolean(b) => Ok(
                if *b {
                    "true".to_owned()
                } else {
                    "false".to_owned()
                },
            ),
            Primitive::String(text) => Ok(text.clone()),
        }
    }
}

/// What a cell holds once it was evaluated: a value, or the message of the
/// error that its evaluation ended in.
pub open spec fn result_view(result: Result<Primitive, String>) -> Result<Value, Seq<char>> {
    match result {
        Ok(value) => Ok(value@),
        Err(message) => Err(message@),
    }
}

#[derive(Debug, Clone, Copy, PartialEq, Eq, Structural)]
pub enum UnaryOp {
    LogicalNot,
    BitwiseNot,
    FloatToInt,
    IntToFloat,
}

#[derive(Debug, Clone, Copy, PartialEq, Eq, Structural)]
pub enum BinaryOp {
    LogicalOr,
    LogicalAnd,
    BitwiseOr,
    BitwiseXor,
    BitwiseAnd,
    Equals,
    NotEquals,
    LessThan,
    LessThanOrEqual,
    GreaterThan,
    GreaterThanOrEqual,
    LeftShift,
    RightShift,
    Add,
    Subtract,
    Multiply,
    Divide,
    Modulus,
    Power,
}

#[derive(Debug, Clone, Copy, PartialEq, Eq, Structural)]
pub enum AggregateFn {
    Max,
    Mean,
    Min,
    Sum,
}

/// A formula. A float literal is kept as it was written: which number it
/// denotes is a question to the float unit when the formula is evaluated.
#[derive(Debug, PartialEq, Eq)]
pub enum Expression {
    Literal(Primitive),
    Decimal(String),
    CellRef(CellAddress),
    Unary(UnaryOp, Box<Expression>),
    Binary(BinaryOp, Box<Expression>, Box<Expression>),
    Aggregate(AggregateFn, CellAddress, CellAddress),
}

/// A formula in specifications.
pub enum Tree {
    Literal(Value),
    Decimal(Seq<char>),
    CellRef(CellAddress),
    Unary(UnaryOp, Box<Tree>),
    Binary(BinaryOp, Box<Tree>, Box<Tree>),
    Aggregate(AggregateFn, CellAddress, CellAddress),
}

/// The formula that `expression` stands for.
pub open spec fn tree_of(expression: Expression) -> Tree
    decreases expression,
{
    match expression {
        Expression::Literal(value) => Tree::Literal(value@),
        Expression::Decimal(text) => Tree::Decimal(text@),
        Expression::CellRef(address) => Tree::CellRef(address),
        Expression::Unary(op, child) => Tree::Unary(op, Box::new(tree_of(*child))),
        Expression::Binary(op, left, right) => Tree::Binary(
            op,
            Box::new(tree_of(*left)),
            Box::new(tree_of(*right)),
        ),
        Expression::Aggregate(function, from, to) => Tree::Aggregate(function, from, to),
    }
}

impl View for Expression {
    type V = Tree;

    open spec fn view(&self) -> Tree {
        tree_of(*self)
    }
}

} // verus!
