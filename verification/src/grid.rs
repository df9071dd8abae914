//! The cells: the values that they hold, and the texts that the values are
//! computed from.

use crate::environment::Environment;
use crate::eval::{
    eval, held, lemma_evaluation_reads_what_it_mentions, lemma_evaluation_stands, mentions, Cells,
    Held,
};
use crate::floats::{
    agrees, answer, lemma_answers_settle, parse_float, parsed, FloatFact, FloatQuery, Question,
};
use crate::lexer::{lex, lex_spec};
use crate::model::{result_view, CellAddress, Primitive, Tree, Value};
use crate::ops::{Outcome, Verdict};
use crate::parser::{parse, parse_spec};
use crate::text::{decimal_i32, parse_i32};
use std::collections::HashMap;
use vstd::prelude::*;
use vstd::string::*;

verus! {

broadcast use vstd::std_specs::hash::group_hash_axioms;

/// The key under which the value of the cell at `address` is kept.
spec fn key_of(address: CellAddress) -> u64 {
    ((address.0 + 0x8000_0000) * 0x1_0000_0000 + (address.1 + 0x8000_0000)) as u64
}

/// Different cells are kept under different keys.
proof fn lemma_key_of_is_injective(a: CellAddress, b: CellAddress)
    requires
        key_of(a) == key_of(b),
    ensures
        a == b,
{
}

fn key(address: &CellAddress) -> (k: u64)
    ensures
        k == key_of(*address),
{
    let row: u64 = (address.0 as i64 + 0x8000_0000) as u64;
    let column: u64 = (address.1 as i64 + 0x8000_0000) as u64;
    row * 0x1_0000_0000 + column
}

/// The values of the cells: for each cell that has one, the value that its
/// evaluation gave last, or the message of the error that it ended in.
pub struct Grid {
    map: HashMap<u64, Result<Primitive, String>>,
}

impl View for Grid {
    type V = Map<CellAddress, Result<Value, Seq<char>>>;

    closed spec fn view(&self) -> Map<CellAddress, Result<Value, Seq<char>>> {
        Map::new(
            |address: CellAddress| self.map@.contains_key(key_of(address)),
            |address: CellAddress| result_view(self.map@[key_of(address)]),
        )
    }
}

impl Grid {
    pub fn new() -> (r: Grid)
        ensures
            r@ == Map::<CellAddress, Result<Value, Seq<char>>>::empty(),
    {
        let r = Grid { map: HashMap::new() };
        assert(r@ =~= Map::<CellAddress, Result<Value, Seq<char>>>::empty());
        r
    }

    pub fn set_cell(&mut self, adr: &CellAddress, val: Result<Primitive, String>)
        ensures
            final(self)@ == old(self)@.insert(*adr, result_view(val)),
    {
        self.map.insert(key(adr), val);
        assert(self@ =~= old(self)@.insert(*adr, result_view(val))) by {
            assert forall|other: CellAddress| key_of(other) == key_of(*adr) implies other
                == *adr by {
                lemma_key_of_is_injective(other, *adr);
            }
        }
    }

    pub fn get_cell(&self, adr: &CellAddress) -> (r: Option<&Result<Primitive, String>>)
        ensures
            match r {
                Some(result) => self@.contains_key(*adr) && self@[*adr] == result_view(*result),
                None => !self@.contains_key(*adr),
            },
    {
        let k = key(adr);
        self.map.get(&k)
    }

    /// Takes the value of the cell at `adr` away, if it has one.
    pub fn clear_cell(&mut self, adr: &CellAddress)
        ensures
            final(self)@ == old(self)@.remove(*adr),
    {
        let k = key(adr);
        self.map.remove(&k);
        assert(self@ =~= old(self)@.remove(*adr)) by {
            assert forall|other: CellAddress| key_of(other) == key_of(*adr) implies other
                == *adr by {
                lemma_key_of_is_injective(other, *adr);
            }
        }
    }

    /// Puts `val` in the place of what the cell at `adr` holds, which is
    /// handed back; `None` stands for a cell that holds nothing.
    fn exchange(&mut self, adr: &CellAddress, val: Option<Result<Primitive, String>>) -> (previous:
        Option<Result<Primitive, String>>)
        ensures
            final(self)@ == restored(old(self)@, (*adr, held_view(val))),
            held_view(previous) == held(old(self)@, *adr),
    {
        let k = key(adr);
        let previous = match val {
            Some(result) => self.map.insert(k, result),
            None => self.map.remove(&k),
        };
        assert(self@ =~= restored(old(self)@, (*adr, held_view(val)))) by {
            assert forall|other: CellAddress| key_of(other) == key_of(*adr) implies other
                == *adr by {
                lemma_key_of_is_injective(other, *adr);
            }
        }
        previous
    }
}

spec fn held_view(val: Option<Result<Primitive, String>>) -> Held {
    match val {
        Some(result) => Some(result_view(result)),
        None => None,
    }
}

/// The cell values with one cell set to what `entry` says that it holds.
pub open spec fn restored(cells: Cells, entry: (CellAddress, Held)) -> Cells {
    match entry.1 {
        Some(result) => cells.insert(entry.0, result),
        None => cells.remove(entry.0),
    }
}

/// The cell values with the changes of `log` taken back, the last one first.
spec fn undone(cells: Cells, log: Seq<(CellAddress, Held)>) -> Cells
    decreases log.len(),
{
    if log.len() == 0 {
        cells
    } else {
        undone(restored(cells, log.last()), log.drop_last())
    }
}

/// A record of what cells held before they were changed.
type Undo = (CellAddress, Option<Result<Primitive, String>>);

spec fn log_view(log: Seq<Undo>) -> Seq<(CellAddress, Held)> {
    log.map_values(|entry: Undo| (entry.0, held_view(entry.1)))
}

/// The texts of the cells.
struct Texts {
    map: HashMap<u64, String>,
}

impl View for Texts {
    type V = Map<CellAddress, Seq<char>>;

    closed spec fn view(&self) -> Map<CellAddress, Seq<char>> {
        Map::new(
            |address: CellAddress| self.map@.contains_key(key_of(address)),
            |address: CellAddress| self.map@[key_of(address)]@,
        )
    }
}

spec fn text_view(text: Option<String>) -> Option<Seq<char>> {
    match text {
        Some(t) => Some(t@),
        None => None,
    }
}

/// The texts with the text of one cell set, or taken away.
spec fn with_text(texts: Map<CellAddress, Seq<char>>, address: CellAddress, text: Option<
    Seq<char>,
>) -> Map<CellAddress, Seq<char>> {
    match text {
        Some(t) => texts.insert(address, t),
        None => texts.remove(address),
    }
}

impl Texts {
    fn new() -> (r: Texts)
        ensures
            r@ == Map::<CellAddress, Seq<char>>::empty(),
    {
        let r = Texts { map: HashMap::new() };
        assert(r@ =~= Map::<CellAddress, Seq<char>>::empty());
        r
    }

    fn get(&self, adr: &CellAddress) -> (r: Option<&String>)
        ensures
            match r {
                Some(text) => self@.contains_key(*adr) && self@[*adr] == text@,
                None => !self@.contains_key(*adr),
            },
    {
        let k = key(adr);
        self.map.get(&k)
    }

    /// Puts `text` in the place of the text of the cell at `adr`, which is
    /// handed back; `None` stands for a cell without a text.
    fn exchange(&mut self, adr: &CellAddress, text: Option<String>) -> (previous: Option<String>)
        ensures
            final(self)@ == with_text(old(self)@, *adr, text_view(text)),
            match previous {
                Some(t) => old(self)@.contains_key(*adr) && old(self)@[*adr] == t@,
                None => !old(self)@.contains_key(*adr),
            },
    {
        let k = key(adr);
        let previous = match text {
            Some(t) => self.map.insert(k, t),
            None => self.map.remove(&k),
        };
        assert(self@ =~= with_text(old(self)@, *adr, text_view(text))) by {
            assert forall|other: CellAddress| key_of(other) == key_of(*adr) implies other
                == *adr by {
                lemma_key_of_is_injective(other, *adr);
            }
        }
        previous
    }
}

/// What the formula `text` comes to: it is split into tokens, parsed and
/// evaluated, and the first error ends it.
pub open spec fn evaluate_text(text: Seq<char>, cells: Cells, facts: Seq<FloatFact>) -> Verdict {
    match lex_spec(text) {
        Err(message) => Verdict::Error(message),
        Ok(tokens) => match parse_spec(tokens) {
            Err(message) => Verdict::Error(message),
            Ok(tree) => eval(tree, cells, facts),
        },
    }
}

/// Evaluates the formula `str` against the cell values `grid`.
pub fn evaluate_from_string(str: &String, grid: &Grid, floats: &Vec<FloatFact>) -> (r: Outcome)
    ensures
        r@ == evaluate_text(str@, grid@, floats@),
{
    match lex(str.as_str()) {
        Ok(tokens) => match parse(tokens) {
            Ok(expression) => expression.evaluate(&Environment::new(grid), floats),
            Err(message) => Outcome::Error(message),
        },
        Err(message) => Outcome::Error(message),
    }
}

/// What a cell with the text `text` is to hold: `Ok(None)` where it is to
/// hold nothing, and the question where the float facts do not decide.
/// The first of these that applies: a text that starts with `=` is a formula,
/// and the cell holds what the rest of the text comes to; a decimal integer
/// of 32 bits; `true` or `false`; the empty text, for which the cell holds
/// nothing; a single-precision number, where the float unit reads the text
/// as one; any other text stands for itself.
pub open spec fn reading(text: Seq<char>, cells: Cells, facts: Seq<FloatFact>) -> Result<
    Held,
    Question,
> {
    if text.len() > 0 && text[0] == '=' {
        match evaluate_text(text.subrange(1, text.len() as int), cells, facts) {
            Verdict::Value(value) => Ok(Some(Ok(value))),
            Verdict::Error(message) => Ok(Some(Err(message))),
            Verdict::Ask(question) => Err(question),
        }
    } else if decimal_i32(text) is Some {
        Ok(Some(Ok(Value::Integer(decimal_i32(text)->0))))
    } else if text == "true"@ {
        Ok(Some(Ok(Value::Boolean(true))))
    } else if text == "false"@ {
        Ok(Some(Ok(Value::Boolean(false))))
    } else if text.len() == 0 {
        Ok(None)
    } else {
        match parsed(facts, text) {
            None => Err(Question::Parse(text)),
            Some(Some(bits)) => Ok(Some(Ok(Value::Float(bits)))),
            Some(None) => Ok(Some(Ok(Value::Text(text)))),
        }
    }
}

/// The cell values after the cell at `address` was computed again: a cell
/// without a text is left as it is.
pub open spec fn cell_step(
    texts: Map<CellAddress, Seq<char>>,
    values: Cells,
    facts: Seq<FloatFact>,
    address: CellAddress,
) -> Result<Cells, Question> {
    if !texts.contains_key(address) {
        Ok(values)
    } else {
        match reading(texts[address], values, facts) {
            Ok(entry) => Ok(restored(values, (address, entry))),
            Err(question) => Err(question),
        }
    }
}

/// The cell values after the cells of row `row` from column `column` on were
/// computed again, in that order, each against the values that the cells
/// before it have left.
pub open spec fn pass_row(
    texts: Map<CellAddress, Seq<char>>,
    values: Cells,
    facts: Seq<FloatFact>,
    row: int,
    column: int,
    columns: int,
) -> Result<Cells, Question>
    decreases
            (if column < columns {
                columns - column
            } else {
                0
            }),
{
    if column >= columns {
        Ok(values)
    } else {
        match cell_step(texts, values, facts, CellAddress(row as i32, column as i32)) {
            Ok(next) => pass_row(texts, next, facts, row, column + 1, columns),
            Err(question) => Err(question),
        }
    }
}

/// The cell values after the rows from `row` on were computed again.
pub open spec fn pass_rows(
    texts: Map<CellAddress, Seq<char>>,
    values: Cells,
    facts: Seq<FloatFact>,
    row: int,
    rows: int,
    columns: int,
) -> Result<Cells, Question>
    decreases
            (if row < rows {
                rows - row
            } else {
                0
            }),
{
    if row >= rows {
        Ok(values)
    } else {
        match pass_row(texts, values, facts, row, 0, columns) {
            Ok(next) => pass_rows(texts, next, facts, row + 1, rows, columns),
            Err(question) => Err(question),
        }
    }
}

/// A grid of cells in specifications.
pub struct Sheet {
    /// The text of each cell that has one.
    pub texts: Map<CellAddress, Seq<char>>,
    /// What each cell holds that holds something.
    pub values: Cells,
    pub rows: int,
    pub columns: int,
}

impl Sheet {
    /// True when `address` lies in the grid.
    pub open spec fn covers(self, address: CellAddress) -> bool {
        0 <= address.0 < self.rows && 0 <= address.1 < self.columns
    }

    /// The grid is no larger than cell addresses reach, a cell that holds
    /// something lies in the grid and has a text, and no text is empty.
    pub open spec fn wf(self) -> bool {
        &&& 0 <= self.rows <= 0x8000_0000
        &&& 0 <= self.columns <= 0x8000_0000
        &&& forall|address: CellAddress| #[trigger]
            self.values.contains_key(address) ==> self.texts.contains_key(address) && self.covers(
                address,
            )
        &&& forall|address: CellAddress| #[trigger]
            self.texts.contains_key(address) ==> self.texts[address].len() > 0
    }

    /// The grid after the text of the cell at `address` was set to `text`:
    /// every cell of the grid is computed again, row by row, and an empty
    /// text leaves the cell without a text. Where the float facts do not
    /// answer a question that comes up, the question is the result.
    pub open spec fn edit(self, address: CellAddress, text: Seq<char>, facts: Seq<FloatFact>) -> Result<
        Sheet,
        Question,
    > {
        let texts = self.texts.insert(address, text);
        match pass_rows(texts, self.values, facts, 0, self.rows, self.columns) {
            Ok(values) => Ok(
                Sheet {
                    texts: if text.len() == 0 {
                        self.texts.remove(address)
                    } else {
                        texts
                    },
                    values,
                    rows: self.rows,
                    columns: self.columns,
                },
            ),
            Err(question) => Err(question),
        }
    }
}

/// The cells of row `row` from column `column` on that hold something, with
/// what they hold.
pub open spec fn listed_row(values: Cells, row: int, column: int, columns: int) -> Seq<
    (CellAddress, Result<Value, Seq<char>>),
>
    decreases
            (if column < columns {
                columns - column
            } else {
                0
            }),
{
    if column >= columns {
        Seq::empty()
    } else {
        let address = CellAddress(row as i32, column as i32);
        let rest = listed_row(values, row, column + 1, columns);
        if values.contains_key(address) {
            seq![(address, values[address])] + rest
        } else {
            rest
        }
    }
}

/// The cells of the rows from `row` on that hold something, row by row.
pub open spec fn listed(values: Cells, row: int, rows: int, columns: int) -> Seq<
    (CellAddress, Result<Value, Seq<char>>),
>
    decreases
            (if row < rows {
                rows - row
            } else {
                0
            }),
{
    if row >= rows {
        Seq::empty()
    } else {
        listed_row(values, row, 0, columns) + listed(values, row + 1, rows, columns)
    }
}

pub open spec fn listing_view(list: Seq<(CellAddress, &Result<Primitive, String>)>) -> Seq<
    (CellAddress, Result<Value, Seq<char>>),
> {
    list.map_values(|entry: (CellAddress, &Result<Primitive, String>)| (entry.0, result_view(*entry.1)))
}

/// The texts of the cells of a grid and the values computed from them.
pub struct TextGrid {
    grid: Grid,
    map: Texts,
    dimensions: (usize, usize),
}

impl View for TextGrid {
    type V = Sheet;

    closed spec fn view(&self) -> Sheet {
        Sheet {
            texts: self.map@,
            values: self.grid@,
            rows: self.dimensions.0 as int,
            columns: self.dimensions.1 as int,
        }
    }
}

/// What the cell with the text `text` is to hold.
fn read_text(text: &String, grid: &Grid, floats: &Vec<FloatFact>) -> (r: Result<
    Option<Result<Primitive, String>>,
    FloatQuery,
>)
    ensures
        match reading(text@, grid@, floats@) {
            Ok(entry) => r matches Ok(val) && held_view(val) == entry,
            Err(question) => r matches Err(query) && query@ == question,
        },
{
    let length = text.as_str().unicode_len();
    if length > 0 && text.as_str().get_char(0) == '=' {
        let formula = text.as_str().substring_char(1, length).to_owned();
        return match evaluate_from_string(&formula, grid, floats) {
            Outcome::Value(value) => Ok(Some(Ok(value))),
            Outcome::Error(message) => Ok(Some(Err(message))),
            Outcome::Ask(query) => Err(query),
        };
    }
    match parse_i32(text.as_str()) {
        Some(value) => {
            return Ok(Some(Ok(Primitive::Integer(value))));
        },
        None => {},
    }
    if *text == "true".to_owned() {
        Ok(Some(Ok(Primitive::Boolean(true))))
    } else if *text == "false".to_owned() {
        Ok(Some(Ok(Primitive::Boolean(false))))
    } else if length == 0 {
        Ok(None)
    } else {
        match parse_float(floats, text.as_str()) {
            Err(query) => Err(query),
            Ok(Some(bits)) => Ok(Some(Ok(Primitive::Float(bits)))),
            Ok(None) => Ok(Some(Ok(Primitive::String(text.clone())))),
        }
    }
}

impl TextGrid {
    /// An empty grid of `dimensions.0` rows and `dimensions.1` columns.
    pub fn new(dimensions: (usize, usize)) -> (r: TextGrid)
        requires
            dimensions.0 <= 0x8000_0000,
            dimensions.1 <= 0x8000_0000,
        ensures
            r@.wf(),
            r@ == (Sheet {
                texts: Map::empty(),
                values: Map::empty(),
                rows: dimensions.0 as int,
                columns: dimensions.1 as int,
            }),
    {
        TextGrid { grid: Grid::new(), map: Texts::new(), dimensions }
    }

    pub fn get_cell_text(&self, adr: CellAddress) -> (r: Option<&String>)
        ensures
            match r {
                Some(text) => self@.texts.contains_key(adr) && self@.texts[adr] == text@,
                None => !self@.texts.contains_key(adr),
            },
    {
        self.map.get(&adr)
    }

    pub fn get_cell_value(&self, adr: CellAddress) -> (r: Option<&Result<Primitive, String>>)
        ensures
            match r {
                Some(result) => self@.values.contains_key(adr) && self@.values[adr] == result_view(
                    *result,
                ),
                None => !self@.values.contains_key(adr),
            },
    {
        self.grid.get_cell(&adr)
    }

    /// Computes the cell at `adr` again and notes in `log` what it held.
    fn evaluate_cell(&mut self, adr: CellAddress, floats: &Vec<FloatFact>, log: &mut Vec<Undo>) -> (r:
        Option<FloatQuery>)
        ensures
            final(self)@.texts == old(self)@.texts,
            final(self)@.rows == old(self)@.rows,
            final(self)@.columns == old(self)@.columns,
            undone(final(self)@.values, log_view(final(log)@)) == undone(
                old(self)@.values,
                log_view(old(log)@),
            ),
            match cell_step(old(self)@.texts, old(self)@.values, floats@, adr) {
                Ok(values) => r is None && final(self)@.values == values,
                Err(question) => r matches Some(query) && query@ == question,
            },
    {
        let text = match self.map.get(&adr) {
            Some(text) => text,
            None => {
                return None;
            },
        };
        let entry = match read_text(text, &self.grid, floats) {
            Ok(entry) => entry,
            Err(query) => {
                return Some(query);
            },
        };
        let previous = self.grid.exchange(&adr, entry);
        log.push((adr, previous));
        proof {
            let entries = log_view(log@);
            assert(entries.drop_last() =~= log_view(old(log)@));
            assert(entries.last() == (adr, held(old(self)@.values, adr)));
            assert(restored(self@.values, entries.last()) =~= old(self)@.values);
        }
        None
    }

    /// Computes the cells of row `row` again.
    fn update_row(&mut self, row: usize, floats: &Vec<FloatFact>, log: &mut Vec<Undo>) -> (r: Option<
        FloatQuery,
    >)
        requires
            row < 0x8000_0000,
            old(self)@.columns <= 0x8000_0000,
        ensures
            final(self)@.texts == old(self)@.texts,
            final(self)@.rows == old(self)@.rows,
            final(self)@.columns == old(self)@.columns,
            undone(final(self)@.values, log_view(final(log)@)) == undone(
                old(self)@.values,
                log_view(old(log)@),
            ),
            match pass_row(
                old(self)@.texts,
                old(self)@.values,
                floats@,
                row as int,
                0,
                old(self)@.columns,
            ) {
                Ok(values) => r is None && final(self)@.values == values,
                Err(question) => r matches Some(query) && query@ == question,
            },
    {
        let mut column: usize = 0;
        while column < self.dimensions.1
            invariant
                row < 0x8000_0000,
                self@.columns <= 0x8000_0000,
                column <= self@.columns,
                self@.texts == old(self)@.texts,
                self@.rows == old(self)@.rows,
                self@.columns == old(self)@.columns,
                undone(self@.values, log_view(log@)) == undone(
                    old(self)@.values,
                    log_view(old(log)@),
                ),
                pass_row(
                    old(self)@.texts,
                    old(self)@.values,
                    floats@,
                    row as int,
                    0,
                    old(self)@.columns,
                ) == pass_row(self@.texts, self@.values, floats@, row as int, column as int, self@.columns),
            decreases self@.columns - column,
        {
            match self.evaluate_cell(CellAddress(row as i32, column as i32), floats, log) {
                None => {},
                Some(query) => {
                    return Some(query);
                },
            }
            column = column + 1;
        }
        None
    }

    /// Computes every cell of the grid again, row by row.
    fn update_cells(&mut self, floats: &Vec<FloatFact>, log: &mut Vec<Undo>) -> (r: Option<
        FloatQuery,
    >)
        requires
            old(self)@.rows <= 0x8000_0000,
            old(self)@.columns <= 0x8000_0000,
        ensures
            final(self)@.texts == old(self)@.texts,
            final(self)@.rows == old(self)@.rows,
            final(self)@.columns == old(self)@.columns,
            undone(final(self)@.values, log_view(final(log)@)) == undone(
                old(self)@.values,
                log_view(old(log)@),
            ),
            match pass_rows(
                old(self)@.texts,
                old(self)@.values,
                floats@,
                0,
                old(self)@.rows,
                old(self)@.columns,
            ) {
                Ok(values) => r is None && final(self)@.values == values,
                Err(question) => r matches Some(query) && query@ == question,
            },
    {
        let mut row: usize = 0;
        while row < self.dimensions.0
            invariant
                self@.rows <= 0x8000_0000,
                self@.columns <= 0x8000_0000,
                row <= self@.rows,
                self@.texts == old(self)@.texts,
                self@.rows == old(self)@.rows,
                self@.columns == old(self)@.columns,
                undone(self@.values, log_view(log@)) == undone(
                    old(self)@.values,
                    log_view(old(log)@),
                ),
                pass_rows(
                    old(self)@.texts,
                    old(self)@.values,
                    floats@,
                    0,
                    old(self)@.rows,
                    old(self)@.columns,
                ) == pass_rows(self@.texts, self@.values, floats@, row as int, self@.rows, self@.columns),
            decreases self@.rows - row,
        {
            match self.update_row(row, floats, log) {
                None => {},
                Some(query) => {
                    return Some(query);
                },
            }
            row = row + 1;
        }
        None
    }

    /// Takes the changes that `log` records back.
    fn roll_back(&mut self, log: Vec<Undo>)
        ensures
            final(self)@.texts == old(self)@.texts,
            final(self)@.rows == old(self)@.rows,
            final(self)@.columns == old(self)@.columns,
            final(self)@.values == undone(old(self)@.values, log_view(log@)),
    {
        let mut rest = log;
        loop
            invariant
                self@.texts == old(self)@.texts,
                self@.rows == old(self)@.rows,
                self@.columns == old(self)@.columns,
                undone(self@.values, log_view(rest@)) == undone(old(self)@.values, log_view(log@)),
            decreases rest.len(),
        {
            let ghost entries = log_view(rest@);
            match rest.pop() {
                None => {
                    return ;
                },
                Some(entry) => {
                    assert(entries.last() == (entry.0, held_view(entry.1)));
                    assert(log_view(rest@) =~= entries.drop_last());
                    self.grid.exchange(&entry.0, entry.1);
                },
            }
        }
    }

    /// Sets the text of the cell at `adr` and computes every cell of the
    /// grid again. Where the float facts leave a question open, the grid
    /// stays as it was and the question is handed back.
    pub fn set_cell_text(&mut self, adr: CellAddress, str: String, floats: &Vec<FloatFact>) -> (r:
        Option<FloatQuery>)
        requires
            old(self)@.wf(),
        ensures
            final(self)@.wf(),
            match old(self)@.edit(adr, str@, floats@) {
                Ok(sheet) => r is None && final(self)@ == sheet,
                Err(question) => r matches Some(query) && query@ == question && final(self)@ == old(
                    self,
                )@,
            },
            r is None && str@.len() == 0 ==> !final(self)@.values.contains_key(adr),
    {
        let empty = str.as_str().is_empty();
        let previous = self.map.exchange(&adr, Some(str));
        let mut log: Vec<Undo> = Vec::new();
        assert(log_view(log@) =~= Seq::empty());
        match self.update_cells(floats, &mut log) {
            None => {
                if empty {
                    self.map.exchange(&adr, None);
                }
                proof {
                    lemma_edit_keeps_well_formed(old(self)@, adr, str@, floats@);
                    if str@.len() == 0 {
                        assert(str@ =~= Seq::<char>::empty());
                        lemma_cleared_cell_holds_nothing(old(self)@, adr, floats@);
                    }
                    assert(self@.texts =~= old(self)@.edit(adr, str@, floats@)->Ok_0.texts);
                }
                None
            },
            Some(query) => {
                self.roll_back(log);
                self.map.exchange(&adr, previous);
                assert(self@.texts =~= old(self)@.texts);
                Some(query)
            },
        }
    }

    /// The cells that hold something, row by row, with what they hold.
    pub fn get_all_cell_values(&self) -> (r: Vec<(CellAddress, &Result<Primitive, String>)>)
        ensures
            listing_view(r@) == listed(self@.values, 0, self@.rows, self@.columns),
    {
        let mut out: Vec<(CellAddress, &Result<Primitive, String>)> = Vec::new();
        let mut row: usize = 0;
        assert(listing_view(out@) =~= Seq::empty());
        while row < self.dimensions.0
            invariant
                row <= self@.rows,
                listing_view(out@) + listed(self@.values, row as int, self@.rows, self@.columns)
                    == listed(self@.values, 0, self@.rows, self@.columns),
            decreases self@.rows - row,
        {
            let ghost before = listing_view(out@);
            let mut column: usize = 0;
            while column < self.dimensions.1
                invariant
                    row < self@.rows,
                    column <= self@.columns,
                    listing_view(out@) + listed_row(
                        self@.values,
                        row as int,
                        column as int,
                        self@.columns,
                    ) == before + listed_row(self@.values, row as int, 0, self@.columns),
                decreases self@.columns - column,
            {
                let address = CellAddress(row as i32, column as i32);
                let ghost listed_before = listing_view(out@);
                match self.grid.get_cell(&address) {
                    Some(result) => {
                        out.push((address, result));
                        assert(listing_view(out@) =~= listed_before + seq![
                            (address, result_view(*result)),
                        ]);
                        assert(listing_view(out@) + listed_row(
                            self@.values,
                            row as int,
                            column + 1,
                            self@.columns,
                        ) =~= listed_before + listed_row(
                            self@.values,
                            row as int,
                            column as int,
                            self@.columns,
                        ));
                    },
                    None => {},
                }
                column = column + 1;
            }
            assert(listing_view(out@) =~= before + listed_row(
                self@.values,
                row as int,
                0,
                self@.columns,
            ));
            assert(listing_view(out@) + listed(self@.values, row + 1, self@.rows, self@.columns)
                =~= before + listed(self@.values, row as int, self@.rows, self@.columns));
            row = row + 1;
        }
        assert(listing_view(out@) =~= listed(self@.values, 0, self@.rows, self@.columns));
        out
    }
}

/// A cell that a step passes over holds after it what it held before, and a
/// cell holds something after a step only if it did before, or if it is
/// the cell of the step and has a text.
proof fn lemma_cell_step_frame(
    texts: Map<CellAddress, Seq<char>>,
    values: Cells,
    facts: Seq<FloatFact>,
    address: CellAddress,
)
    requires
        cell_step(texts, values, facts, address) is Ok,
    ensures
        forall|other: CellAddress|
            other != address ==> #[trigger] held(
                cell_step(texts, values, facts, address)->Ok_0,
                other,
            ) == held(values, other),
        cell_step(texts, values, facts, address)->Ok_0.contains_key(address)
            ==> values.contains_key(address) || texts.contains_key(address),
{
}

/// What a pass over a row leaves outside the columns that it goes over.
proof fn lemma_pass_row_frame(
    texts: Map<CellAddress, Seq<char>>,
    values: Cells,
    facts: Seq<FloatFact>,
    row: int,
    column: int,
    columns: int,
)
    requires
        0 <= row < 0x8000_0000,
        0 <= column,
        columns <= 0x8000_0000,
        pass_row(texts, values, facts, row, column, columns) is Ok,
    ensures
        forall|other: CellAddress|
            !(other.0 == row && column <= other.1 < columns) ==> #[trigger] held(
                pass_row(texts, values, facts, row, column, columns)->Ok_0,
                other,
            ) == held(values, other),
        forall|other: CellAddress| #[trigger]
            pass_row(texts, values, facts, row, column, columns)->Ok_0.contains_key(other)
                ==> values.contains_key(other) || texts.contains_key(other),
    decreases columns - column,
{
    if column < columns {
        let address = CellAddress(row as i32, column as i32);
        let next = cell_step(texts, values, facts, address)->Ok_0;
        lemma_cell_step_frame(texts, values, facts, address);
        lemma_pass_row_frame(texts, next, facts, row, column + 1, columns);
        let last = pass_row(texts, values, facts, row, column, columns)->Ok_0;
        assert forall|other: CellAddress|
            !(other.0 == row && column <= other.1 < columns) implies #[trigger] held(last, other)
            == held(values, other) by {
            assert(held(last, other) == held(next, other));
            assert(held(next, other) == held(values, other));
        }
        assert forall|other: CellAddress| #[trigger] last.contains_key(other) implies values.contains_key(
            other,
        ) || texts.contains_key(other) by {
            assert(next.contains_key(other) || texts.contains_key(other));
            if next.contains_key(other) && other != address {
                assert(held(next, other) == held(values, other));
            }
        }
    }
}

/// What a pass over the rows leaves outside the cells that it goes over.
proof fn lemma_pass_rows_frame(
    texts: Map<CellAddress, Seq<char>>,
    values: Cells,
    facts: Seq<FloatFact>,
    row: int,
    rows: int,
    columns: int,
)
    requires
        0 <= row,
        rows <= 0x8000_0000,
        0 <= columns <= 0x8000_0000,
        pass_rows(texts, values, facts, row, rows, columns) is Ok,
    ensures
        forall|other: CellAddress|
            !(row <= other.0 < rows && 0 <= other.1 < columns) ==> #[trigger] held(
                pass_rows(texts, values, facts, row, rows, columns)->Ok_0,
                other,
            ) == held(values, other),
        forall|other: CellAddress| #[trigger]
            pass_rows(texts, values, facts, row, rows, columns)->Ok_0.contains_key(other)
                ==> values.contains_key(other) || texts.contains_key(other),
    decreases rows - row,
{
    if row < rows {
        let next = pass_row(texts, values, facts, row, 0, columns)->Ok_0;
        lemma_pass_row_frame(texts, values, facts, row, 0, columns);
        lemma_pass_rows_frame(texts, next, facts, row + 1, rows, columns);
        let last = pass_rows(texts, values, facts, row, rows, columns)->Ok_0;
        assert forall|other: CellAddress|
            !(row <= other.0 < rows && 0 <= other.1 < columns) implies #[trigger] held(last, other)
            == held(values, other) by {
            assert(held(last, other) == held(next, other));
            assert(held(next, other) == held(values, other));
        }
        assert forall|other: CellAddress| #[trigger] last.contains_key(other) implies values.contains_key(
            other,
        ) || texts.contains_key(other) by {
            assert(next.contains_key(other) || texts.contains_key(other));
            if next.contains_key(other) {
                assert(values.contains_key(other) || texts.contains_key(other));
            }
        }
    }
}

/// A cell with an empty text holds nothing after a pass over its row.
proof fn lemma_pass_row_clears(
    texts: Map<CellAddress, Seq<char>>,
    values: Cells,
    facts: Seq<FloatFact>,
    row: int,
    column: int,
    columns: int,
    address: CellAddress,
)
    requires
        0 <= row < 0x8000_0000,
        0 <= column,
        columns <= 0x8000_0000,
        address.0 == row,
        column <= address.1 < columns,
        texts.contains_key(address),
        texts[address].len() == 0,
        pass_row(texts, values, facts, row, column, columns) is Ok,
    ensures
        !pass_row(texts, values, facts, row, column, columns)->Ok_0.contains_key(address),
    decreases columns - column,
{
    let here = CellAddress(row as i32, column as i32);
    let next = cell_step(texts, values, facts, here)->Ok_0;
    if column == address.1 {
        assert(here == address);
        assert(decimal_i32(texts[address]) is None);
        assert(texts[address] != "true"@) by {
            reveal_strlit("true");
        }
        assert(texts[address] != "false"@) by {
            reveal_strlit("false");
        }
        assert(!next.contains_key(address));
        lemma_pass_row_frame(texts, next, facts, row, column + 1, columns);
        assert(held(pass_row(texts, next, facts, row, column + 1, columns)->Ok_0, address) == held(
            next,
            address,
        ));
    } else {
        lemma_pass_row_clears(texts, next, facts, row, column + 1, columns, address);
    }
}

/// A cell of the grid with an empty text holds nothing after a pass over the rows.
proof fn lemma_pass_rows_clears(
    texts: Map<CellAddress, Seq<char>>,
    values: Cells,
    facts: Seq<FloatFact>,
    row: int,
    rows: int,
    columns: int,
    address: CellAddress,
)
    requires
        0 <= row,
        rows <= 0x8000_0000,
        0 <= columns <= 0x8000_0000,
        row <= address.0 < rows,
        0 <= address.1 < columns,
        texts.contains_key(address),
        texts[address].len() == 0,
        pass_rows(texts, values, facts, row, rows, columns) is Ok,
    ensures
        !pass_rows(texts, values, facts, row, rows, columns)->Ok_0.contains_key(address),
    decreases rows - row,
{
    let next = pass_row(texts, values, facts, row, 0, columns)->Ok_0;
    if row == address.0 {
        lemma_pass_row_clears(texts, values, facts, row, 0, columns, address);
        lemma_pass_rows_frame(texts, next, facts, row + 1, rows, columns);
        assert(held(pass_rows(texts, next, facts, row + 1, rows, columns)->Ok_0, address) == held(
            next,
            address,
        ));
    } else {
        lemma_pass_rows_clears(texts, next, facts, row + 1, rows, columns, address);
    }
}

/// An edit that completes leaves the grid well formed.
pub proof fn lemma_edit_keeps_well_formed(
    sheet: Sheet,
    address: CellAddress,
    text: Seq<char>,
    facts: Seq<FloatFact>,
)
    requires
        sheet.wf(),
        sheet.edit(address, text, facts) is Ok,
    ensures
        sheet.edit(address, text, facts)->Ok_0.wf(),
{
    let texts = sheet.texts.insert(address, text);
    let after = sheet.edit(address, text, facts)->Ok_0;
    lemma_pass_rows_frame(texts, sheet.values, facts, 0, sheet.rows, sheet.columns);
    assert forall|other: CellAddress| #[trigger] after.values.contains_key(other) implies after.texts.contains_key(
        other,
    ) && after.covers(other) by {
        if !after.covers(other) {
            assert(held(after.values, other) == held(sheet.values, other));
        }
        if other == address && text.len() == 0 {
            if sheet.covers(address) {
                lemma_pass_rows_clears(
                    texts,
                    sheet.values,
                    facts,
                    0,
                    sheet.rows,
                    sheet.columns,
                    address,
                );
            }
        }
    }
}

/// Once the text of a cell was set to the empty text, the cell holds nothing.
pub proof fn lemma_cleared_cell_holds_nothing(
    sheet: Sheet,
    address: CellAddress,
    facts: Seq<FloatFact>,
)
    requires
        sheet.wf(),
        sheet.edit(address, Seq::empty(), facts) is Ok,
    ensures
        !sheet.edit(address, Seq::empty(), facts)->Ok_0.values.contains_key(address),
        !sheet.edit(address, Seq::empty(), facts)->Ok_0.texts.contains_key(address),
{
    lemma_edit_keeps_well_formed(sheet, address, Seq::empty(), facts);
}

/// A pass over a row changes nothing where computing each of its cells
/// again changes nothing.
proof fn lemma_pass_row_of_settled(
    texts: Map<CellAddress, Seq<char>>,
    values: Cells,
    facts: Seq<FloatFact>,
    row: int,
    column: int,
    columns: int,
)
    requires
        0 <= row < 0x8000_0000,
        0 <= column,
        columns <= 0x8000_0000,
        forall|address: CellAddress|
            address.0 == row && column <= address.1 < columns ==> #[trigger] cell_step(
                texts,
                values,
                facts,
                address,
            ) == Ok::<Cells, Question>(values),
    ensures
        pass_row(texts, values, facts, row, column, columns) == Ok::<Cells, Question>(values),
    decreases columns - column,
{
    if column < columns {
        let here = CellAddress(row as i32, column as i32);
        assert(cell_step(texts, values, facts, here) == Ok::<Cells, Question>(values));
        lemma_pass_row_of_settled(texts, values, facts, row, column + 1, columns);
    }
}

/// A pass over the rows changes nothing where computing each cell again
/// changes nothing.
proof fn lemma_pass_rows_of_settled(
    texts: Map<CellAddress, Seq<char>>,
    values: Cells,
    facts: Seq<FloatFact>,
    row: int,
    rows: int,
    columns: int,
)
    requires
        0 <= row,
        rows <= 0x8000_0000,
        0 <= columns <= 0x8000_0000,
        forall|address: CellAddress|
            row <= address.0 < rows && 0 <= address.1 < columns ==> #[trigger] cell_step(
                texts,
                values,
                facts,
                address,
            ) == Ok::<Cells, Question>(values),
    ensures
        pass_rows(texts, values, facts, row, rows, columns) == Ok::<Cells, Question>(values),
    decreases rows - row,
{
    if row < rows {
        lemma_pass_row_of_settled(texts, values, facts, row, 0, columns);
        lemma_pass_rows_of_settled(texts, values, facts, row + 1, rows, columns);
    }
}

impl Sheet {
    /// True when every cell of the grid holds what computing it again gives.
    /// A grid is not settled while a formula refers to a cell that was
    /// computed after it and has changed since.
    pub open spec fn settled(self, facts: Seq<FloatFact>) -> bool {
        forall|address: CellAddress|
            self.covers(address) ==> #[trigger] cell_step(self.texts, self.values, facts, address)
                == Ok::<Cells, Question>(self.values)
    }
}

/// A pass over a row that leaves the cell values as they were has left
/// them so at every cell.
proof fn lemma_unchanged_row_is_settled(
    texts: Map<CellAddress, Seq<char>>,
    values: Cells,
    facts: Seq<FloatFact>,
    row: int,
    column: int,
    columns: int,
)
    requires
        0 <= row < 0x8000_0000,
        0 <= column,
        columns <= 0x8000_0000,
        pass_row(texts, values, facts, row, column, columns) == Ok::<Cells, Question>(values),
    ensures
        forall|address: CellAddress|
            address.0 == row && column <= address.1 < columns ==> #[trigger] cell_step(
                texts,
                values,
                facts,
                address,
            ) == Ok::<Cells, Question>(values),
    decreases columns - column,
{
    if column < columns {
        let here = CellAddress(row as i32, column as i32);
        let next = cell_step(texts, values, facts, here)->Ok_0;
        lemma_pass_row_frame(texts, next, facts, row, column + 1, columns);
        assert(held(values, here) == held(next, here));
        assert(next =~= values);
        lemma_unchanged_row_is_settled(texts, values, facts, row, column + 1, columns);
        assert forall|address: CellAddress|
            address.0 == row && column <= address.1 < columns implies #[trigger] cell_step(
            texts,
            values,
            facts,
            address,
        ) == Ok::<Cells, Question>(values) by {
            if address.1 == column {
                assert(address == here);
            }
        }
    }
}

/// A pass over the rows that leaves the cell values as they were has left
/// them so at every cell.
proof fn lemma_unchanged_rows_is_settled(
    texts: Map<CellAddress, Seq<char>>,
    values: Cells,
    facts: Seq<FloatFact>,
    row: int,
    rows: int,
    columns: int,
)
    requires
        0 <= row,
        rows <= 0x8000_0000,
        0 <= columns <= 0x8000_0000,
        pass_rows(texts, values, facts, row, rows, columns) == Ok::<Cells, Question>(values),
    ensures
        forall|address: CellAddress|
            row <= address.0 < rows && 0 <= address.1 < columns ==> #[trigger] cell_step(
                texts,
                values,
                facts,
                address,
            ) == Ok::<Cells, Question>(values),
    decreases rows - row,
{
    if row < rows {
        let next = pass_row(texts, values, facts, row, 0, columns)->Ok_0;
        lemma_pass_row_frame(texts, values, facts, row, 0, columns);
        lemma_pass_rows_frame(texts, next, facts, row + 1, rows, columns);
        assert forall|other: CellAddress| held(next, other) == held(values, other) by {
            if other.0 == row && 0 <= other.1 < columns {
                assert(held(
                    pass_rows(texts, next, facts, row + 1, rows, columns)->Ok_0,
                    other,
                ) == held(next, other));
            }
        }
        assert forall|other: CellAddress| #[trigger]
            next.dom().contains(other) == values.dom().contains(other) by {
            assert(held(next, other) == held(values, other));
        }
        assert(next.dom() =~= values.dom());
        assert forall|other: CellAddress| next.dom().contains(other) implies #[trigger] next[other]
            == values[other] by {
            assert(held(next, other) == held(values, other));
        }
        assert(next =~= values);
        lemma_unchanged_row_is_settled(texts, values, facts, row, 0, columns);
        lemma_unchanged_rows_is_settled(texts, values, facts, row + 1, rows, columns);
    }
}

/// The same edit made a second time changes nothing if, and only if, the
/// first one has left the grid settled.
pub proof fn lemma_same_edit_again_changes_nothing(
    sheet: Sheet,
    address: CellAddress,
    text: Seq<char>,
    facts: Seq<FloatFact>,
)
    requires
        sheet.wf(),
        sheet.edit(address, text, facts) is Ok,
    ensures
        sheet.edit(address, text, facts)->Ok_0.settled(facts) <==> sheet.edit(
            address,
            text,
            facts,
        )->Ok_0.edit(address, text, facts) == sheet.edit(address, text, facts),
{
    let after = sheet.edit(address, text, facts)->Ok_0;
    let texts = after.texts.insert(address, text);
    lemma_edit_keeps_well_formed(sheet, address, text, facts);
    if text.len() == 0 {
        assert(text =~= Seq::<char>::empty());
        lemma_cleared_cell_holds_nothing(sheet, address, facts);
        assert(decimal_i32(text) is None);
        assert(text != "true"@) by {
            reveal_strlit("true");
        }
        assert(text != "false"@) by {
            reveal_strlit("false");
        }
        assert(restored(after.values, (address, None)) =~= after.values);
        assert(after.texts.remove(address) =~= after.texts);
    } else {
        assert(texts =~= after.texts);
    }
    if after.settled(facts) {
        assert forall|other: CellAddress|
            0 <= other.0 < after.rows && 0 <= other.1 < after.columns implies #[trigger] cell_step(
            texts,
            after.values,
            facts,
            other,
        ) == Ok::<Cells, Question>(after.values) by {
            assert(after.covers(other));
            if other != address || text.len() > 0 {
                assert(cell_step(after.texts, after.values, facts, other) == Ok::<Cells, Question>(
                    after.values,
                ));
            }
        }
        lemma_pass_rows_of_settled(texts, after.values, facts, 0, after.rows, after.columns);
        let again = after.edit(address, text, facts)->Ok_0;
        assert(again.texts =~= after.texts);
        assert(again == after);
    }
    if after.edit(address, text, facts) == Ok::<Sheet, Question>(after) {
        lemma_unchanged_rows_is_settled(texts, after.values, facts, 0, after.rows, after.columns);
        assert forall|other: CellAddress| after.covers(other) implies #[trigger] cell_step(
            after.texts,
            after.values,
            facts,
            other,
        ) == Ok::<Cells, Question>(after.values) by {
            assert(cell_step(texts, after.values, facts, other) == Ok::<Cells, Question>(
                after.values,
            ));
        }
    }
}

/// The formula that a cell with the text `text` holds, if the text is a
/// formula that can be parsed.
pub open spec fn formula_of(text: Seq<char>) -> Option<Tree> {
    if text.len() > 0 && text[0] == '=' {
        match lex_spec(text.subrange(1, text.len() as int)) {
            Ok(tokens) => match parse_spec(tokens) {
                Ok(tree) => Some(tree),
                Err(_) => None,
            },
            Err(_) => None,
        }
    } else {
        None
    }
}

/// True when the cell at `first` is computed before the cell at `second`.
pub open spec fn comes_before(first: CellAddress, second: CellAddress) -> bool {
    first.0 < second.0 || (first.0 == second.0 && first.1 < second.1)
}

/// True when `address` lies in a grid of `rows` rows and `columns` columns.
pub open spec fn in_grid(address: CellAddress, rows: int, columns: int) -> bool {
    0 <= address.0 < rows && 0 <= address.1 < columns
}

/// True when every formula of the grid looks back: the cells of the grid
/// that it names are computed before the cell that holds it.
pub open spec fn looks_back(texts: Map<CellAddress, Seq<char>>, rows: int, columns: int) -> bool {
    forall|cell: CellAddress, named: CellAddress|
        in_grid(cell, rows, columns) && texts.contains_key(cell) && formula_of(texts[cell]) is Some
            && #[trigger] mentions(formula_of(texts[cell])->0, named) && in_grid(
            named,
            rows,
            columns,
        ) ==> comes_before(named, cell)
}

proof fn lemma_reading_reads_what_it_mentions(
    text: Seq<char>,
    cells: Cells,
    others: Cells,
    facts: Seq<FloatFact>,
)
    requires
        formula_of(text) is Some ==> forall|address: CellAddress|
            mentions(formula_of(text)->0, address) ==> #[trigger] held(cells, address) == held(
                others,
                address,
            ),
    ensures
        reading(text, cells, facts) == reading(text, others, facts),
{
    if let Some(tree) = formula_of(text) {
        lemma_evaluation_reads_what_it_mentions(tree, cells, others, facts);
    }
}

/// After a pass over a row of a grid that looks back, computing a cell of
/// the row again changes nothing, whatever the later rows hold by then.
proof fn lemma_row_that_looks_back_is_settled(
    texts: Map<CellAddress, Seq<char>>,
    values: Cells,
    last: Cells,
    facts: Seq<FloatFact>,
    row: int,
    column: int,
    rows: int,
    columns: int,
)
    requires
        0 <= row < rows <= 0x8000_0000,
        0 <= column,
        columns <= 0x8000_0000,
        looks_back(texts, rows, columns),
        pass_row(texts, values, facts, row, column, columns) is Ok,
        forall|other: CellAddress|
            other.0 <= row || !in_grid(other, rows, columns) ==> #[trigger] held(last, other)
                == held(pass_row(texts, values, facts, row, column, columns)->Ok_0, other),
    ensures
        forall|address: CellAddress|
            address.0 == row && column <= address.1 < columns ==> #[trigger] cell_step(
                texts,
                last,
                facts,
                address,
            ) == Ok::<Cells, Question>(last),
    decreases columns - column,
{
    if column < columns {
        let here = CellAddress(row as i32, column as i32);
        let next = cell_step(texts, values, facts, here)->Ok_0;
        let after = pass_row(texts, next, facts, row, column + 1, columns)->Ok_0;
        lemma_pass_row_frame(texts, next, facts, row, column + 1, columns);
        lemma_row_that_looks_back_is_settled(
            texts,
            next,
            last,
            facts,
            row,
            column + 1,
            rows,
            columns,
        );
        assert(held(last, here) == held(after, here));
        assert(held(after, here) == held(next, here));
        if texts.contains_key(here) {
            let text = texts[here];
            if let Some(tree) = formula_of(text) {
                assert forall|named: CellAddress| mentions(tree, named) implies #[trigger] held(
                    values,
                    named,
                ) == held(last, named) by {
                    if in_grid(named, rows, columns) {
                        assert(comes_before(named, here));
                    }
                    assert(held(last, named) == held(after, named));
                    assert(held(after, named) == held(next, named));
                    assert(held(next, named) == held(values, named));
                }
            }
            lemma_reading_reads_what_it_mentions(text, values, last, facts);
            assert(restored(last, (here, reading(text, last, facts)->Ok_0)) =~= last);
        }
        assert(cell_step(texts, last, facts, here) == Ok::<Cells, Question>(last));
        assert forall|address: CellAddress|
            address.0 == row && column <= address.1 < columns implies #[trigger] cell_step(
            texts,
            last,
            facts,
            address,
        ) == Ok::<Cells, Question>(last) by {
            if address.1 == column {
                assert(address == here);
            }
        }
    }
}

/// After a pass over the rows of a grid that looks back, computing a cell
/// again changes nothing.
proof fn lemma_rows_that_look_back_are_settled(
    texts: Map<CellAddress, Seq<char>>,
    values: Cells,
    facts: Seq<FloatFact>,
    row: int,
    rows: int,
    columns: int,
)
    requires
        0 <= row,
        rows <= 0x8000_0000,
        0 <= columns <= 0x8000_0000,
        looks_back(texts, rows, columns),
        pass_rows(texts, values, facts, row, rows, columns) is Ok,
    ensures
        forall|address: CellAddress|
            row <= address.0 < rows && 0 <= address.1 < columns ==> #[trigger] cell_step(
                texts,
                pass_rows(texts, values, facts, row, rows, columns)->Ok_0,
                facts,
                address,
            ) == Ok::<Cells, Question>(pass_rows(texts, values, facts, row, rows, columns)->Ok_0),
    decreases rows - row,
{
    if row < rows {
        let next = pass_row(texts, values, facts, row, 0, columns)->Ok_0;
        let last = pass_rows(texts, values, facts, row, rows, columns)->Ok_0;
        lemma_pass_rows_frame(texts, next, facts, row + 1, rows, columns);
        lemma_row_that_looks_back_is_settled(texts, values, last, facts, row, 0, rows, columns);
        lemma_rows_that_look_back_are_settled(texts, next, facts, row + 1, rows, columns);
    }
}

/// An edit leaves a grid settled whose formulas all look back. So in such a
/// grid the same edit made a second time changes nothing.
pub proof fn lemma_edit_of_grid_that_looks_back_is_settled(
    sheet: Sheet,
    address: CellAddress,
    text: Seq<char>,
    facts: Seq<FloatFact>,
)
    requires
        sheet.wf(),
        sheet.edit(address, text, facts) is Ok,
        looks_back(sheet.texts.insert(address, text), sheet.rows, sheet.columns),
    ensures
        sheet.edit(address, text, facts)->Ok_0.settled(facts),
        sheet.edit(address, text, facts)->Ok_0.edit(address, text, facts) == sheet.edit(
            address,
            text,
            facts,
        ),
{
    let texts = sheet.texts.insert(address, text);
    let after = sheet.edit(address, text, facts)->Ok_0;
    lemma_rows_that_look_back_are_settled(texts, sheet.values, facts, 0, sheet.rows, sheet.columns);
    assert forall|other: CellAddress| after.covers(other) implies #[trigger] cell_step(
        after.texts,
        after.values,
        facts,
        other,
    ) == Ok::<Cells, Question>(after.values) by {
        assert(cell_step(texts, after.values, facts, other) == Ok::<Cells, Question>(after.values));
    }
    lemma_same_edit_again_changes_nothing(sheet, address, text, facts);
}

proof fn lemma_cell_step_stands(
    texts: Map<CellAddress, Seq<char>>,
    values: Cells,
    facts: Seq<FloatFact>,
    more: Seq<FloatFact>,
    address: CellAddress,
)
    requires
        agrees(facts, more),
    ensures
        cell_step(texts, values, facts, address) is Ok ==> cell_step(texts, values, more, address)
            == cell_step(texts, values, facts, address),
        cell_step(texts, values, facts, address) matches Err(question) ==> answer(facts, question)
            is None,
{
    lemma_answers_settle(facts);
    if texts.contains_key(address) {
        let text = texts[address];
        if text.len() > 0 && text[0] == '=' {
            let formula = text.subrange(1, text.len() as int);
            if let Ok(tokens) = lex_spec(formula) {
                if let Ok(tree) = parse_spec(tokens) {
                    lemma_evaluation_stands(tree, values, facts, more);
                }
            }
        }
    }
}

proof fn lemma_pass_row_stands(
    texts: Map<CellAddress, Seq<char>>,
    values: Cells,
    facts: Seq<FloatFact>,
    more: Seq<FloatFact>,
    row: int,
    column: int,
    columns: int,
)
    requires
        agrees(facts, more),
    ensures
        pass_row(texts, values, facts, row, column, columns) is Ok ==> pass_row(
            texts,
            values,
            more,
            row,
            column,
            columns,
        ) == pass_row(texts, values, facts, row, column, columns),
        pass_row(texts, values, facts, row, column, columns) matches Err(question) ==> answer(
            facts,
            question,
        ) is None,
    decreases
            (if column < columns {
                columns - column
            } else {
                0
            }),
{
    if column < columns {
        let here = CellAddress(row as i32, column as i32);
        lemma_cell_step_stands(texts, values, facts, more, here);
        if let Ok(next) = cell_step(texts, values, facts, here) {
            lemma_pass_row_stands(texts, next, facts, more, row, column + 1, columns);
        }
    }
}

proof fn lemma_pass_rows_stands(
    texts: Map<CellAddress, Seq<char>>,
    values: Cells,
    facts: Seq<FloatFact>,
    more: Seq<FloatFact>,
    row: int,
    rows: int,
    columns: int,
)
    requires
        agrees(facts, more),
    ensures
        pass_rows(texts, values, facts, row, rows, columns) is Ok ==> pass_rows(
            texts,
            values,
            more,
            row,
            rows,
            columns,
        ) == pass_rows(texts, values, facts, row, rows, columns),
        pass_rows(texts, values, facts, row, rows, columns) matches Err(question) ==> answer(
            facts,
            question,
        ) is None,
    decreases
            (if row < rows {
                rows - row
            } else {
                0
            }),
{
    if row < rows {
        lemma_pass_row_stands(texts, values, facts, more, row, 0, columns);
        if let Ok(next) = pass_row(texts, values, facts, row, 0, columns) {
            lemma_pass_rows_stands(texts, next, facts, more, row + 1, rows, columns);
        }
    }
}

/// An edit that completes with some float facts comes to the same grid
/// with more facts, and the question that an edit hands back is one that
/// the float facts do not answer: a caller that adds the answer and makes
/// the edit again is never asked the same question at the same place.
pub proof fn lemma_edit_stands(
    sheet: Sheet,
    address: CellAddress,
    text: Seq<char>,
    facts: Seq<FloatFact>,
    more: Seq<FloatFact>,
)
    requires
        agrees(facts, more),
    ensures
        sheet.edit(address, text, facts) is Ok ==> sheet.edit(address, text, more) == sheet.edit(
            address,
            text,
            facts,
        ),
        sheet.edit(address, text, facts) matches Err(question) ==> answer(facts, question) is None,
{
    lemma_pass_rows_stands(
        sheet.texts.insert(address, text),
        sheet.values,
        facts,
        more,
        0,
        sheet.rows,
        sheet.columns,
    );
}

proof fn lemma_contains_of_joined<T>(first: Seq<T>, second: Seq<T>, element: T)
    ensures
        (first + second).contains(element) <==> first.contains(element) || second.contains(element),
{
    let joined = first + second;
    if first.contains(element) {
        let i = choose|i: int| 0 <= i < first.len() && first[i] == element;
        assert(joined[i] == element);
    }
    if second.contains(element) {
        let i = choose|i: int| 0 <= i < second.len() && second[i] == element;
        assert(joined[first.len() + i] == element);
    }
    if joined.contains(element) {
        let i = choose|i: int| 0 <= i < joined.len() && joined[i] == element;
        if i < first.len() {
            assert(first[i] == element);
        } else {
            assert(second[i - first.len()] == element);
        }
    }
}

proof fn lemma_listed_row_holds(
    values: Cells,
    row: int,
    column: int,
    columns: int,
    address: CellAddress,
    result: Result<Value, Seq<char>>,
)
    requires
        0 <= row < 0x8000_0000,
        0 <= column,
        columns <= 0x8000_0000,
    ensures
        listed_row(values, row, column, columns).contains((address, result)) <==> address.0 == row
            && column <= address.1 < columns && values.contains_key(address) && values[address]
            == result,
    decreases columns - column,
{
    if column < columns {
        let here = CellAddress(row as i32, column as i32);
        let rest = listed_row(values, row, column + 1, columns);
        lemma_listed_row_holds(values, row, column + 1, columns, address, result);
        if values.contains_key(here) {
            let one = seq![(here, values[here])];
            lemma_contains_of_joined(one, rest, (address, result));
            assert(one.contains((address, result)) <==> (address, result) == (here, values[here])) by {
                if (address, result) == (here, values[here]) {
                    assert(one[0] == (address, result));
                }
            }
        }
    } else {
        assert(listed_row(values, row, column, columns) =~= Seq::empty());
    }
}

proof fn lemma_listed_holds(
    values: Cells,
    row: int,
    rows: int,
    columns: int,
    address: CellAddress,
    result: Result<Value, Seq<char>>,
)
    requires
        0 <= row,
        rows <= 0x8000_0000,
        0 <= columns <= 0x8000_0000,
    ensures
        listed(values, row, rows, columns).contains((address, result)) <==> row <= address.0 < rows
            && 0 <= address.1 < columns && values.contains_key(address) && values[address]
            == result,
    decreases rows - row,
{
    if row < rows {
        lemma_listed_row_holds(values, row, 0, columns, address, result);
        lemma_listed_holds(values, row + 1, rows, columns, address, result);
        lemma_contains_of_joined(
            listed_row(values, row, 0, columns),
            listed(values, row + 1, rows, columns),
            (address, result),
        );
    } else {
        assert(listed(values, row, rows, columns) =~= Seq::empty());
    }
}

/// The list of all cell values holds just what the cells of the grid
/// hold: every cell that holds something stands in it with what it holds,
/// and nothing else does.
pub proof fn lemma_listing_holds_the_values(
    sheet: Sheet,
    address: CellAddress,
    result: Result<Value, Seq<char>>,
)
    requires
        sheet.wf(),
    ensures
        listed(sheet.values, 0, sheet.rows, sheet.columns).contains((address, result))
            <==> sheet.values.contains_key(address) && sheet.values[address] == result,
{
    lemma_listed_holds(sheet.values, 0, sheet.rows, sheet.columns, address, result);
}

} // verus!
