//! The evaluator: a formula and the values of the cells to a value.
//!
//! Evaluation reads the cells and changes nothing.

use crate::environment::Environment;
use crate::floats::{
    agrees, answer, compute, computed, lemma_answers_settle, parse_float, parsed, widen, FloatFact,
    FloatOp, Question,
};
use crate::model::{
    result_view, AggregateFn, BinaryOp, CellAddress, Expression, Primitive, Tree, Value,
};
use crate::ops::{
    apply_binary, apply_unary, asks_new, binary, float_operands, is_numeric, lemma_binary_stands,
    lemma_unary_stands, number_bits, stands, unary, Outcome, Verdict,
};
use crate::text::{append_signed_decimal, signed_decimal};
use vstd::prelude::*;
use vstd::string::*;

verus! {

/// The values of the cells in specifications.
pub type Cells = Map<CellAddress, Result<Value, Seq<char>>>;

/// What an aggregate has gathered from the cells that it has read.
pub struct Tally {
    /// The sum, or the least or greatest value, of the cells read.
    pub total: Option<Value>,
    /// How many cells held a value.
    pub count: nat,
    /// Whether one of them held a single-precision number.
    pub float_seen: bool,
}

/// The message for a reference to a cell that holds nothing.
pub open spec fn no_value(address: CellAddress) -> Seq<char> {
    "cell ["@ + signed_decimal(address.0 as int) + ", "@ + signed_decimal(address.1 as int)
        + "] has no value"@
}

/// The message for a float literal that the float unit does not take for a number.
pub open spec fn not_a_number(text: Seq<char>) -> Seq<char> {
    "invalid float literal "@ + text
}

/// What a cell holds in specifications, if anything.
pub type Held = Option<Result<Value, Seq<char>>>;

/// What the cell at `address` holds, if anything.
pub open spec fn held(cells: Cells, address: CellAddress) -> Held {
    if cells.contains_key(address) {
        Some(cells[address])
    } else {
        None
    }
}

/// What the cell in row `row` and column `column` holds, if anything.
pub open spec fn cell_of(cells: Cells, row: int, column: int) -> Held {
    held(cells, CellAddress(row as i32, column as i32))
}

/// The total after `value` is taken in: for a sum or a mean it is added, for
/// a minimum or a maximum it replaces the total where it lies beyond it.
pub open spec fn combined(function: AggregateFn, total: Value, value: Value, facts: Seq<FloatFact>) -> Verdict {
    match function {
        AggregateFn::Sum | AggregateFn::Mean => apply_binary(BinaryOp::Add, total, value, facts),
        AggregateFn::Min => match apply_binary(BinaryOp::LessThan, value, total, facts) {
            Verdict::Value(Value::Boolean(beyond)) => Verdict::Value(
                if beyond {
                    value
                } else {
                    total
                },
            ),
            other => other,
        },
        AggregateFn::Max => match apply_binary(BinaryOp::GreaterThan, value, total, facts) {
            Verdict::Value(Value::Boolean(beyond)) => Verdict::Value(
                if beyond {
                    value
                } else {
                    total
                },
            ),
            other => other,
        },
    }
}

/// The tally after one more cell was read: a cell that holds nothing is
/// passed over, the error of a cell is handed on, and a value that is no
/// number ends the aggregate.
pub open spec fn tally_step(
    function: AggregateFn,
    tally: Tally,
    cell: Option<Result<Value, Seq<char>>>,
    facts: Seq<FloatFact>,
) -> Result<Tally, Verdict> {
    match cell {
        None => Ok(tally),
        Some(Err(message)) => Err(Verdict::Error(message)),
        Some(Ok(value)) => if !is_numeric(value) {
            Err(Verdict::Error("non-numeric cell in aggregate"@))
        } else {
            match tally.total {
                None => Ok(Tally { total: Some(value), count: 1, float_seen: value is Float }),
                Some(total) => match combined(function, total, value, facts) {
                    Verdict::Value(next) => Ok(
                        Tally {
                            total: Some(next),
                            count: tally.count + 1,
                            float_seen: tally.float_seen || value is Float,
                        },
                    ),
                    other => Err(other),
                },
            }
        },
    }
}

/// The tally after the cells of row `row` from column `column` to column
/// `last` were read, in that order.
pub open spec fn tally_row(
    function: AggregateFn,
    cells: Cells,
    facts: Seq<FloatFact>,
    row: int,
    column: int,
    last: int,
    tally: Tally,
) -> Result<Tally, Verdict>
    decreases
            (if column <= last {
                last - column + 1
            } else {
                0
            }),
{
    if column > last {
        Ok(tally)
    } else {
        match tally_step(function, tally, cell_of(cells, row, column), facts) {
            Ok(next) => tally_row(function, cells, facts, row, column + 1, last, next),
            Err(verdict) => Err(verdict),
        }
    }
}

/// The tally after the rows from `row` to `last_row` were read, each from
/// column `first` to column `last`.
pub open spec fn tally_rows(
    function: AggregateFn,
    cells: Cells,
    facts: Seq<FloatFact>,
    row: int,
    last_row: int,
    first: int,
    last: int,
    tally: Tally,
) -> Result<Tally, Verdict>
    decreases
            (if row <= last_row {
                last_row - row + 1
            } else {
                0
            }),
{
    if row > last_row {
        Ok(tally)
    } else {
        match tally_row(function, cells, facts, row, first, last, tally) {
            Ok(next) => tally_rows(function, cells, facts, row + 1, last_row, first, last, next),
            Err(verdict) => Err(verdict),
        }
    }
}

/// What the aggregate comes to once all cells were read. A sum is an
/// integer if every cell held one. A mean is the sum by the count, both as
/// single-precision numbers. A minimum or a maximum is a single-precision
/// number if any cell held one.
pub open spec fn tally_result(function: AggregateFn, tally: Tally, facts: Seq<FloatFact>) -> Verdict {
    match tally.total {
        None => Verdict::Error("empty range"@),
        Some(total) => match function {
            AggregateFn::Sum => Verdict::Value(total),
            AggregateFn::Mean => if tally.count > i32::MAX {
                Verdict::Error("integer overflow"@)
            } else {
                match float_operands(total, Value::Integer(tally.count as i32), facts) {
                    Err(question) => Verdict::Ask(question),
                    Ok((a, b)) => match computed(facts, FloatOp::Divide, a, b) {
                        Some(bits) => Verdict::Value(Value::Float(bits)),
                        None => Verdict::Ask(Question::Compute(FloatOp::Divide, a, b)),
                    },
                }
            },
            _ => if tally.float_seen {
                match number_bits(total, facts) {
                    Ok(bits) => Verdict::Value(Value::Float(bits)),
                    Err(question) => Verdict::Ask(question),
                }
            } else {
                Verdict::Value(total)
            },
        },
    }
}

pub open spec fn lesser(a: i32, b: i32) -> int {
    if a <= b {
        a as int
    } else {
        b as int
    }
}

pub open spec fn greater(a: i32, b: i32) -> int {
    if a <= b {
        b as int
    } else {
        a as int
    }
}

/// The aggregate `function` over the rectangle of cells with the corners
/// `from` and `to`, read row by row.
pub open spec fn aggregate(
    function: AggregateFn,
    from: CellAddress,
    to: CellAddress,
    cells: Cells,
    facts: Seq<FloatFact>,
) -> Verdict {
    match tally_rows(
        function,
        cells,
        facts,
        lesser(from.0, to.0),
        greater(from.0, to.0),
        lesser(from.1, to.1),
        greater(from.1, to.1),
        Tally { total: None, count: 0, float_seen: false },
    ) {
        Ok(tally) => tally_result(function, tally, facts),
        Err(verdict) => verdict,
    }
}

/// What the formula `tree` comes to against the cell values `cells` and the
/// float facts `facts`.
pub open spec fn eval(tree: Tree, cells: Cells, facts: Seq<FloatFact>) -> Verdict
    decreases tree,
{
    match tree {
        Tree::Literal(value) => Verdict::Value(value),
        Tree::Decimal(text) => match parsed(facts, text) {
            Some(Some(bits)) => Verdict::Value(Value::Float(bits)),
            Some(None) => Verdict::Error(not_a_number(text)),
            None => Verdict::Ask(Question::Parse(text)),
        },
        Tree::CellRef(address) => if cells.contains_key(address) {
            match cells[address] {
                Ok(value) => Verdict::Value(value),
                Err(message) => Verdict::Error(message),
            }
        } else {
            Verdict::Error(no_value(address))
        },
        Tree::Unary(op, child) => match eval(*child, cells, facts) {
            Verdict::Value(operand) => apply_unary(op, operand, facts),
            other => other,
        },
        Tree::Binary(op, left, right) => match eval(*left, cells, facts) {
            Verdict::Value(a) => match eval(*right, cells, facts) {
                Verdict::Value(b) => apply_binary(op, a, b, facts),
                other => other,
            },
            other => other,
        },
        Tree::Aggregate(function, from, to) => aggregate(function, from, to, cells, facts),
    }
}

/// What an aggregate has gathered, as the evaluator holds it.
struct Running {
    total: Option<Primitive>,
    count: u128,
    float_seen: bool,
}

impl View for Running {
    type V = Tally;

    closed spec fn view(&self) -> Tally {
        Tally {
            total: match self.total {
                Some(value) => Some(value@),
                None => None,
            },
            count: self.count as nat,
            float_seen: self.float_seen,
        }
    }
}

/// A cell as the evaluator reads it.
spec fn cell_view(cell: Option<&Result<Primitive, String>>) -> Option<
    Result<Value, Seq<char>>,
> {
    match cell {
        Some(result) => Some(result_view(*result)),
        None => None,
    }
}

fn combine(function: AggregateFn, total: Primitive, value: Primitive, floats: &Vec<FloatFact>) -> (r:
    Outcome)
    ensures
        r@ == combined(function, total@, value@, floats@),
{
    match function {
        AggregateFn::Sum | AggregateFn::Mean => binary(BinaryOp::Add, total, value, floats),
        AggregateFn::Min => match binary(BinaryOp::LessThan, value.clone(), total.clone(), floats) {
            Outcome::Value(Primitive::Boolean(beyond)) => Outcome::Value(
                if beyond {
                    value
                } else {
                    total
                },
            ),
            other => other,
        },
        AggregateFn::Max => match binary(
            BinaryOp::GreaterThan,
            value.clone(),
            total.clone(),
            floats,
        ) {
            Outcome::Value(Primitive::Boolean(beyond)) => Outcome::Value(
                if beyond {
                    value
                } else {
                    total
                },
            ),
            other => other,
        },
    }
}

fn read_cell(
    function: AggregateFn,
    running: Running,
    cell: Option<&Result<Primitive, String>>,
    floats: &Vec<FloatFact>,
) -> (r: Result<Running, Outcome>)
    requires
        running.count < u128::MAX,
    ensures
        match tally_step(function, running@, cell_view(cell), floats@) {
            Ok(tally) => r matches Ok(next) && next@ == tally && next.count <= running.count + 1,
            Err(verdict) => r matches Err(outcome) && outcome@ == verdict,
        },
{
    match cell {
        None => Ok(running),
        Some(Err(message)) => Err(Outcome::Error(message.clone())),
        Some(Ok(value)) => {
            let float = match value {
                Primitive::Integer(_) => false,
                Primitive::Float(_) => true,
                _ => {
                    return Err(Outcome::Error("non-numeric cell in aggregate".to_owned()));
                },
            };
            match running.total {
                None => Ok(Running { total: Some(value.clone()), count: 1, float_seen: float }),
                Some(total) => match combine(function, total, value.clone(), floats) {
                    Outcome::Value(next) => Ok(
                        Running {
                            total: Some(next),
                            count: running.count + 1,
                            float_seen: running.float_seen || float,
                        },
                    ),
                    other => Err(other),
                },
            }
        },
    }
}

fn read_row(
    function: AggregateFn,
    environment: &Environment,
    floats: &Vec<FloatFact>,
    row: i32,
    first: i32,
    last: i32,
    running: Running,
) -> (r: Result<Running, Outcome>)
    requires
        running.count <= 0x1_0000_0000_0000_0000,
    ensures
        match tally_row(function, environment@, floats@, row as int, first as int, last as int, running@) {
            Ok(tally) => r matches Ok(next) && next@ == tally && next.count <= running.count
                + 0x1_0000_0000,
            Err(verdict) => r matches Err(outcome) && outcome@ == verdict,
        },
{
    let ghost start = running@;
    let ghost start_count = running.count;
    let mut current = running;
    let mut column: i64 = first as i64;
    while column <= last as i64
        invariant
            first <= column,
            column <= last + 1 || first > last,
            start == running@,
            start_count == running.count,
            start_count <= 0x1_0000_0000_0000_0000,
            current.count <= start_count + (column - first),
            tally_row(function, environment@, floats@, row as int, first as int, last as int, start)
                == tally_row(
                function,
                environment@,
                floats@,
                row as int,
                column as int,
                last as int,
                current@,
            ),
        decreases last - column + 1,
    {
        let address = CellAddress(row, column as i32);
        current = match read_cell(function, current, environment.grid().get_cell(&address), floats) {
            Ok(next) => next,
            Err(outcome) => {
                return Err(outcome);
            },
        };
        column = column + 1;
    }
    Ok(current)
}

fn read_rows(
    function: AggregateFn,
    environment: &Environment,
    floats: &Vec<FloatFact>,
    top: i32,
    bottom: i32,
    first: i32,
    last: i32,
) -> (r: Result<Running, Outcome>)
    ensures
        match tally_rows(
            function,
            environment@,
            floats@,
            top as int,
            bottom as int,
            first as int,
            last as int,
            Tally { total: None, count: 0, float_seen: false },
        ) {
            Ok(tally) => r matches Ok(next) && next@ == tally,
            Err(verdict) => r matches Err(outcome) && outcome@ == verdict,
        },
{
    let mut running = Running { total: None, count: 0, float_seen: false };
    let ghost start = running@;
    let mut row: i64 = top as i64;
    while row <= bottom as i64
        invariant
            top <= row,
            row <= bottom + 1 || top > bottom,
            running.count <= (row - top) * 0x1_0000_0000,
            start == (Tally { total: None, count: 0, float_seen: false }),
            tally_rows(
                function,
                environment@,
                floats@,
                top as int,
                bottom as int,
                first as int,
                last as int,
                start,
            ) == tally_rows(
                function,
                environment@,
                floats@,
                row as int,
                bottom as int,
                first as int,
                last as int,
                running@,
            ),
        decreases bottom - row + 1,
    {
        running = match read_row(function, environment, floats, row as i32, first, last, running) {
            Ok(next) => next,
            Err(outcome) => {
                return Err(outcome);
            },
        };
        row = row + 1;
    }
    Ok(running)
}

fn finish(function: AggregateFn, running: Running, floats: &Vec<FloatFact>) -> (r: Outcome)
    ensures
        r@ == tally_result(function, running@, floats@),
{
    let total = match running.total {
        None => {
            return Outcome::Error("empty range".to_owned());
        },
        Some(total) => total,
    };
    match function {
        AggregateFn::Sum => Outcome::Value(total),
        AggregateFn::Mean => {
            if running.count > 0x7fff_ffff {
                return Outcome::Error("integer overflow".to_owned());
            }
            let a = match bits(&total, floats) {
                Ok(bits) => bits,
                Err(outcome) => {
                    return outcome;
                },
            };
            let b = match widen(floats, running.count as i32) {
                Ok(bits) => bits,
                Err(query) => {
                    return Outcome::Ask(query);
                },
            };
            match compute(floats, FloatOp::Divide, a, b) {
                Ok(bits) => Outcome::Value(Primitive::Float(bits)),
                Err(query) => Outcome::Ask(query),
            }
        },
        _ => {
            if running.float_seen {
                match bits(&total, floats) {
                    Ok(bits) => Outcome::Value(Primitive::Float(bits)),
                    Err(outcome) => outcome,
                }
            } else {
                Outcome::Value(total)
            }
        },
    }
}

/// The single-precision number that `value` is or widens to.
fn bits(value: &Primitive, floats: &Vec<FloatFact>) -> (r: Result<u32, Outcome>)
    ensures
        match number_bits(value@, floats@) {
            Ok(bits) => r == Ok::<u32, Outcome>(bits),
            Err(question) => r matches Err(outcome) && outcome@ == Verdict::Ask(question),
        },
{
    match value {
        Primitive::Integer(i) => match widen(floats, *i) {
            Ok(bits) => Ok(bits),
            Err(query) => Err(Outcome::Ask(query)),
        },
        Primitive::Float(bits) => Ok(*bits),
        _ => Ok(0),
    }
}

fn smaller(a: i32, b: i32) -> (r: i32)
    ensures
        r == lesser(a, b),
{
    if a <= b {
        a
    } else {
        b
    }
}

fn larger(a: i32, b: i32) -> (r: i32)
    ensures
        r == greater(a, b),
{
    if a <= b {
        b
    } else {
        a
    }
}

fn missing(address: &CellAddress) -> (r: Outcome)
    ensures
        r@ == Verdict::Error(no_value(*address)),
{
    let mut message = "cell [".to_owned();
    append_signed_decimal(&mut message, address.0 as i64);
    message.append(", ");
    append_signed_decimal(&mut message, address.1 as i64);
    message.append("] has no value");
    assert(message@ =~= no_value(*address));
    Outcome::Error(message)
}

impl Expression {
    /// Evaluates the formula against the cell values of `environment`, with
    /// the float facts `floats`.
    pub fn evaluate(&self, environment: &Environment, floats: &Vec<FloatFact>) -> (r: Outcome)
        ensures
            r@ == eval(self@, environment@, floats@),
        decreases self,
    {
        match self {
            Expression::Literal(value) => Outcome::Value(value.clone()),
            Expression::Decimal(text) => match parse_float(floats, text.as_str()) {
                Ok(Some(bits)) => Outcome::Value(Primitive::Float(bits)),
                Ok(None) => {
                    let mut message = "invalid float literal ".to_owned();
                    message.append(text.as_str());
                    Outcome::Error(message)
                },
                Err(query) => Outcome::Ask(query),
            },
            Expression::CellRef(address) => match environment.grid().get_cell(address) {
                Some(Ok(value)) => Outcome::Value(value.clone()),
                Some(Err(message)) => Outcome::Error(message.clone()),
                None => missing(address),
            },
            Expression::Unary(op, child) => match child.evaluate(environment, floats) {
                Outcome::Value(operand) => unary(*op, operand, floats),
                other => other,
            },
            Expression::Binary(op, left, right) => match left.evaluate(environment, floats) {
                Outcome::Value(a) => match right.evaluate(environment, floats) {
                    Outcome::Value(b) => binary(*op, a, b, floats),
                    other => other,
                },
                other => other,
            },
            Expression::Aggregate(function, from, to) => {
                match read_rows(
                    *function,
                    environment,
                    floats,
                    smaller(from.0, to.0),
                    larger(from.0, to.0),
                    smaller(from.1, to.1),
                    larger(from.1, to.1),
                ) {
                    Ok(running) => finish(*function, running, floats),
                    Err(outcome) => outcome,
                }
            },
        }
    }
}

/// Evaluation is a function of the formula, of what the cells hold and of
/// the float facts: against the same cell values and facts a formula comes
/// to the same outcome, whenever it is evaluated.
pub proof fn lemma_evaluation_is_pure(
    tree: Tree,
    cells: Cells,
    facts: Seq<FloatFact>,
    other_cells: Cells,
    other_facts: Seq<FloatFact>,
)
    requires
        cells.dom() =~= other_cells.dom(),
        forall|address: CellAddress| #[trigger]
            cells.contains_key(address) ==> cells[address] == other_cells[address],
        facts.len() == other_facts.len(),
        forall|i: int| 0 <= i < facts.len() ==> facts[i] == other_facts[i],
    ensures
        eval(tree, cells, facts) == eval(tree, other_cells, other_facts),
{
    assert(cells =~= other_cells);
    assert(facts =~= other_facts);
}

/// True when the tally `later` is the tally `first`, unless `first` ends in a question.
spec fn tally_stands(first: Result<Tally, Verdict>, later: Result<Tally, Verdict>) -> bool {
    match first {
        Ok(_) => later == first,
        Err(verdict) => verdict is Ask || later == first,
    }
}

/// True when the tally `first` ends in no question that `facts` answer.
spec fn tally_asks_new(first: Result<Tally, Verdict>, facts: Seq<FloatFact>) -> bool {
    first matches Err(verdict) ==> asks_new(verdict, facts)
}

proof fn lemma_tally_step_stands(
    function: AggregateFn,
    tally: Tally,
    cell: Option<Result<Value, Seq<char>>>,
    facts: Seq<FloatFact>,
    more: Seq<FloatFact>,
)
    requires
        agrees(facts, more),
    ensures
        tally_stands(
            tally_step(function, tally, cell, facts),
            tally_step(function, tally, cell, more),
        ),
        tally_asks_new(tally_step(function, tally, cell, facts), facts),
{
    if let Some(Ok(value)) = cell {
        let total = tally.total->0;
        lemma_binary_stands(BinaryOp::Add, total, value, facts, more);
        lemma_binary_stands(BinaryOp::LessThan, value, total, facts, more);
        lemma_binary_stands(BinaryOp::GreaterThan, value, total, facts, more);
    }
}

proof fn lemma_tally_row_stands(
    function: AggregateFn,
    cells: Cells,
    facts: Seq<FloatFact>,
    more: Seq<FloatFact>,
    row: int,
    column: int,
    last: int,
    tally: Tally,
)
    requires
        agrees(facts, more),
    ensures
        tally_stands(
            tally_row(function, cells, facts, row, column, last, tally),
            tally_row(function, cells, more, row, column, last, tally),
        ),
        tally_asks_new(tally_row(function, cells, facts, row, column, last, tally), facts),
    decreases
            (if column <= last {
                last - column + 1
            } else {
                0
            }),
{
    if column <= last {
        lemma_tally_step_stands(function, tally, cell_of(cells, row, column), facts, more);
        if let Ok(next) = tally_step(function, tally, cell_of(cells, row, column), facts) {
            lemma_tally_row_stands(function, cells, facts, more, row, column + 1, last, next);
        }
    }
}

proof fn lemma_tally_rows_stands(
    function: AggregateFn,
    cells: Cells,
    facts: Seq<FloatFact>,
    more: Seq<FloatFact>,
    row: int,
    last_row: int,
    first: int,
    last: int,
    tally: Tally,
)
    requires
        agrees(facts, more),
    ensures
        tally_stands(
            tally_rows(function, cells, facts, row, last_row, first, last, tally),
            tally_rows(function, cells, more, row, last_row, first, last, tally),
        ),
        tally_asks_new(tally_rows(function, cells, facts, row, last_row, first, last, tally), facts),
    decreases
            (if row <= last_row {
                last_row - row + 1
            } else {
                0
            }),
{
    if row <= last_row {
        lemma_tally_row_stands(function, cells, facts, more, row, first, last, tally);
        if let Ok(next) = tally_row(function, cells, facts, row, first, last, tally) {
            lemma_tally_rows_stands(
                function,
                cells,
                facts,
                more,
                row + 1,
                last_row,
                first,
                last,
                next,
            );
        }
    }
}

/// What a formula comes to stands when float facts are added: once the
/// facts answer every question that comes up, more facts change nothing.
/// And the question that an evaluation asks is one that the float facts do
/// not answer.
pub proof fn lemma_evaluation_stands(
    tree: Tree,
    cells: Cells,
    facts: Seq<FloatFact>,
    more: Seq<FloatFact>,
)
    requires
        agrees(facts, more),
    ensures
        stands(eval(tree, cells, facts), eval(tree, cells, more)),
        asks_new(eval(tree, cells, facts), facts),
    decreases tree,
{
    lemma_answers_settle(facts);
    match tree {
        Tree::Unary(op, child) => {
            lemma_evaluation_stands(*child, cells, facts, more);
            if let Verdict::Value(operand) = eval(*child, cells, facts) {
                lemma_unary_stands(op, operand, facts, more);
            }
        },
        Tree::Binary(op, left, right) => {
            lemma_evaluation_stands(*left, cells, facts, more);
            lemma_evaluation_stands(*right, cells, facts, more);
            if let Verdict::Value(a) = eval(*left, cells, facts) {
                if let Verdict::Value(b) = eval(*right, cells, facts) {
                    lemma_binary_stands(op, a, b, facts, more);
                }
            }
        },
        Tree::Aggregate(function, from, to) => {
            lemma_tally_rows_stands(
                function,
                cells,
                facts,
                more,
                lesser(from.0, to.0),
                greater(from.0, to.0),
                lesser(from.1, to.1),
                greater(from.1, to.1),
                Tally { total: None, count: 0, float_seen: false },
            );
        },
        _ => {},
    }
}

/// True when `address` lies in the rectangle with the corners `from` and `to`.
pub open spec fn within(address: CellAddress, from: CellAddress, to: CellAddress) -> bool {
    &&& lesser(from.0, to.0) <= address.0 <= greater(from.0, to.0)
    &&& lesser(from.1, to.1) <= address.1 <= greater(from.1, to.1)
}

/// True when the formula `tree` names the cell at `address`: in a
/// reference, or in the range of an aggregate.
pub open spec fn mentions(tree: Tree, address: CellAddress) -> bool
    decreases tree,
{
    match tree {
        Tree::CellRef(named) => named == address,
        Tree::Unary(_, child) => mentions(*child, address),
        Tree::Binary(_, left, right) => mentions(*left, address) || mentions(*right, address),
        Tree::Aggregate(_, from, to) => within(address, from, to),
        _ => false,
    }
}

proof fn lemma_tally_row_reads(
    function: AggregateFn,
    cells: Cells,
    others: Cells,
    facts: Seq<FloatFact>,
    row: int,
    column: int,
    last: int,
    tally: Tally,
)
    requires
        i32::MIN <= row <= i32::MAX,
        i32::MIN <= column,
        last <= i32::MAX,
        forall|address: CellAddress|
            address.0 == row && column <= address.1 <= last ==> #[trigger] held(cells, address)
                == held(others, address),
    ensures
        tally_row(function, cells, facts, row, column, last, tally) == tally_row(
            function,
            others,
            facts,
            row,
            column,
            last,
            tally,
        ),
    decreases
            (if column <= last {
                last - column + 1
            } else {
                0
            }),
{
    if column <= last {
        let here = CellAddress(row as i32, column as i32);
        assert(held(cells, here) == held(others, here));
        if let Ok(next) = tally_step(function, tally, cell_of(cells, row, column), facts) {
            lemma_tally_row_reads(function, cells, others, facts, row, column + 1, last, next);
        }
    }
}

proof fn lemma_tally_rows_reads(
    function: AggregateFn,
    cells: Cells,
    others: Cells,
    facts: Seq<FloatFact>,
    row: int,
    last_row: int,
    first: int,
    last: int,
    tally: Tally,
)
    requires
        i32::MIN <= row,
        last_row <= i32::MAX,
        i32::MIN <= first,
        last <= i32::MAX,
        forall|address: CellAddress|
            row <= address.0 <= last_row && first <= address.1 <= last ==> #[trigger] held(
                cells,
                address,
            ) == held(others, address),
    ensures
        tally_rows(function, cells, facts, row, last_row, first, last, tally) == tally_rows(
            function,
            others,
            facts,
            row,
            last_row,
            first,
            last,
            tally,
        ),
    decreases
            (if row <= last_row {
                last_row - row + 1
            } else {
                0
            }),
{
    if row <= last_row {
        lemma_tally_row_reads(function, cells, others, facts, row, first, last, tally);
        if let Ok(next) = tally_row(function, cells, facts, row, first, last, tally) {
            lemma_tally_rows_reads(
                function,
                cells,
                others,
                facts,
                row + 1,
                last_row,
                first,
                last,
                next,
            );
        }
    }
}

/// A formula reads the cells that it names and no others: against cell
/// values that are the same in those cells it comes to the same outcome.
pub proof fn lemma_evaluation_reads_what_it_mentions(
    tree: Tree,
    cells: Cells,
    others: Cells,
    facts: Seq<FloatFact>,
)
    requires
        forall|address: CellAddress|
            mentions(tree, address) ==> #[trigger] held(cells, address) == held(others, address),
    ensures
        eval(tree, cells, facts) == eval(tree, others, facts),
    decreases tree,
{
    match tree {
        Tree::CellRef(named) => {
            assert(held(cells, named) == held(others, named));
        },
        Tree::Unary(_, child) => {
            lemma_evaluation_reads_what_it_mentions(*child, cells, others, facts);
        },
        Tree::Binary(_, left, right) => {
            lemma_evaluation_reads_what_it_mentions(*left, cells, others, facts);
            lemma_evaluation_reads_what_it_mentions(*right, cells, others, facts);
        },
        Tree::Aggregate(function, from, to) => {
            lemma_tally_rows_reads(
                function,
                cells,
                others,
                facts,
                lesser(from.0, to.0),
                greater(from.0, to.0),
                lesser(from.1, to.1),
                greater(from.1, to.1),
                Tally { total: None, count: 0, float_seen: false },
            );
        },
        _ => {},
    }
}

} // verus!
