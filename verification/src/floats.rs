//! Single-precision numbers, as far as the evaluator needs them.
//!
//! The library never computes with floating-point numbers itself. A number
//! is carried as the bit pattern of its IEEE 754 single-precision form, and
//! every computation on such numbers is a question to a float unit that
//! lives outside this library. The answers that the caller has gathered
//! are handed in as a table of facts. Where the table lacks an answer, an
//! operation stops and hands back the question.

use vstd::prelude::*;
use vstd::string::*;

verus! {

/// The arithmetic that the float unit does on two numbers.
#[derive(Debug, Clone, Copy, PartialEq, Eq, Structural)]
pub enum FloatOp {
    Add,
    Subtract,
    Multiply,
    Divide,
    Remainder,
    Power,
}

/// How two numbers stand to each other. A comparison with a NaN is `Unordered`.
#[derive(Debug, Clone, Copy, PartialEq, Eq, Structural)]
pub enum FloatOrder {
    Less,
    Equal,
    Greater,
    Unordered,
}

/// A question to the float unit.
#[derive(Debug, Clone, PartialEq, Eq)]
pub enum FloatQuery {
    /// Which number does this text denote, if any?
    Parse(String),
    /// What is the result of this operation on these two numbers?
    Compute(FloatOp, u32, u32),
    /// How does the first number stand to the second?
    Order(u32, u32),
    /// Which number is nearest to this integer?
    Widen(i32),
    /// Which integer is this number, cut off towards zero?
    Truncate(u32),
    /// How is this number written in decimal?
    Show(u32),
}

/// An answer of the float unit, together with its question.
#[derive(Debug, Clone, PartialEq, Eq)]
pub enum FloatFact {
    Parsed(String, Option<u32>),
    Computed(FloatOp, u32, u32, u32),
    Ordered(u32, u32, FloatOrder),
    Widened(i32, u32),
    Truncated(u32, i32),
    Shown(u32, String),
}

/// A question in specifications.
pub enum Question {
    Parse(Seq<char>),
    Compute(FloatOp, u32, u32),
    Order(u32, u32),
    Widen(i32),
    Truncate(u32),
    Show(u32),
}

impl View for FloatQuery {
    type V = Question;

    open spec fn view(&self) -> Question {
        match *self {
            FloatQuery::Parse(text) => Question::Parse(text@),
            FloatQuery::Compute(op, a, b) => Question::Compute(op, a, b),
            FloatQuery::Order(a, b) => Question::Order(a, b),
            FloatQuery::Widen(i) => Question::Widen(i),
            FloatQuery::Truncate(a) => Question::Truncate(a),
            FloatQuery::Show(a) => Question::Show(a),
        }
    }
}

/// True when `fact` answers `question`.
pub open spec fn settles(fact: FloatFact, question: Question) -> bool {
    match (fact, question) {
        (FloatFact::Parsed(text, _), Question::Parse(asked)) => text@ == asked,
        (FloatFact::Computed(op, a, b, _), Question::Compute(op2, a2, b2)) => op == op2 && a == a2
            && b == b2,
        (FloatFact::Ordered(a, b, _), Question::Order(a2, b2)) => a == a2 && b == b2,
        (FloatFact::Widened(i, _), Question::Widen(i2)) => i == i2,
        (FloatFact::Truncated(a, _), Question::Truncate(a2)) => a == a2,
        (FloatFact::Shown(a, _), Question::Show(a2)) => a == a2,
        _ => false,
    }
}

/// Index of the first fact from index `from` on that answers `question`.
pub open spec fn first_answer(facts: Seq<FloatFact>, question: Question, from: int) -> Option<int>
    decreases facts.len() - from,
{
    if !(0 <= from < facts.len()) {
        None
    } else if settles(facts[from], question) {
        Some(from)
    } else {
        first_answer(facts, question, from + 1)
    }
}

/// The fact that answers `question`: the first one in the table that does.
pub open spec fn answer(facts: Seq<FloatFact>, question: Question) -> Option<FloatFact> {
    match first_answer(facts, question, 0) {
        Some(i) => Some(facts[i]),
        None => None,
    }
}

/// The number that `text` denotes according to the table: `Some(None)`
/// where the table says that it denotes none.
pub open spec fn parsed(facts: Seq<FloatFact>, text: Seq<char>) -> Option<Option<u32>> {
    match answer(facts, Question::Parse(text)) {
        Some(FloatFact::Parsed(_, bits)) => Some(bits),
        _ => None,
    }
}

/// The result of `op` on `a` and `b` according to the table.
pub open spec fn computed(facts: Seq<FloatFact>, op: FloatOp, a: u32, b: u32) -> Option<u32> {
    match answer(facts, Question::Compute(op, a, b)) {
        Some(FloatFact::Computed(_, _, _, bits)) => Some(bits),
        _ => None,
    }
}

/// How `a` stands to `b` according to the table.
pub open spec fn ordered(facts: Seq<FloatFact>, a: u32, b: u32) -> Option<FloatOrder> {
    match answer(facts, Question::Order(a, b)) {
        Some(FloatFact::Ordered(_, _, order)) => Some(order),
        _ => None,
    }
}

/// The number nearest to `i` according to the table.
pub open spec fn widened(facts: Seq<FloatFact>, i: i32) -> Option<u32> {
    match answer(facts, Question::Widen(i)) {
        Some(FloatFact::Widened(_, bits)) => Some(bits),
        _ => None,
    }
}

/// The integer part of `a` according to the table.
pub open spec fn truncated(facts: Seq<FloatFact>, a: u32) -> Option<i32> {
    match answer(facts, Question::Truncate(a)) {
        Some(FloatFact::Truncated(_, i)) => Some(i),
        _ => None,
    }
}

/// The decimal form of `a` according to the table.
pub open spec fn shown(facts: Seq<FloatFact>, a: u32) -> Option<Seq<char>> {
    match answer(facts, Question::Show(a)) {
        Some(FloatFact::Shown(_, text)) => Some(text@),
        _ => None,
    }
}

/// Tells whether `fact` answers `query`.
pub fn fact_settles(fact: &FloatFact, query: &FloatQuery) -> (r: bool)
    ensures
        r == settles(*fact, query@),
{
    match fact {
        FloatFact::Parsed(text, _) => match query {
            FloatQuery::Parse(asked) => *text == *asked,
            _ => false,
        },
        FloatFact::Computed(op, a, b, _) => match query {
            FloatQuery::Compute(op2, a2, b2) => *op == *op2 && *a == *a2 && *b == *b2,
            _ => false,
        },
        FloatFact::Ordered(a, b, _) => match query {
            FloatQuery::Order(a2, b2) => *a == *a2 && *b == *b2,
            _ => false,
        },
        FloatFact::Widened(i, _) => match query {
            FloatQuery::Widen(i2) => *i == *i2,
            _ => false,
        },
        FloatFact::Truncated(a, _) => match query {
            FloatQuery::Truncate(a2) => *a == *a2,
            _ => false,
        },
        FloatFact::Shown(a, _) => match query {
            FloatQuery::Show(a2) => *a == *a2,
            _ => false,
        },
    }
}

/// Looks `query` up in the table.
pub fn find<'a>(floats: &'a Vec<FloatFact>, query: &FloatQuery) -> (r: Option<&'a FloatFact>)
    ensures
        match r {
            Some(fact) => answer(floats@, query@) == Some(*fact),
            None => answer(floats@, query@) is None,
        },
{
    let mut i: usize = 0;
    while i < floats.len()
        invariant
            i <= floats.len(),
            first_answer(floats@, query@, 0) == first_answer(floats@, query@, i as int),
        decreases floats.len() - i,
    {
        if fact_settles(&floats[i], query) {
            return Some(&floats[i]);
        }
        i += 1;
    }
    None
}

/// The number that `text` denotes, or the question to ask.
pub fn parse_float(floats: &Vec<FloatFact>, text: &str) -> (r: Result<Option<u32>, FloatQuery>)
    ensures
        match r {
            Ok(bits) => parsed(floats@, text@) == Some(bits),
            Err(query) => parsed(floats@, text@) is None && query@ == Question::Parse(text@),
        },
{
    let query = FloatQuery::Parse(text.to_owned());
    match find(floats, &query) {
        Some(FloatFact::Parsed(_, bits)) => Ok(*bits),
        _ => Err(query),
    }
}

/// The result of `op` on `a` and `b`, or the question to ask.
pub fn compute(floats: &Vec<FloatFact>, op: FloatOp, a: u32, b: u32) -> (r: Result<u32, FloatQuery>)
    ensures
        match r {
            Ok(bits) => computed(floats@, op, a, b) == Some(bits),
            Err(query) => computed(floats@, op, a, b) is None && query@ == Question::Compute(
                op,
                a,
                b,
            ),
        },
{
    let query = FloatQuery::Compute(op, a, b);
    match find(floats, &query) {
        Some(FloatFact::Computed(_, _, _, bits)) => Ok(*bits),
        _ => Err(query),
    }
}

/// How `a` stands to `b`, or the question to ask.
pub fn order(floats: &Vec<FloatFact>, a: u32, b: u32) -> (r: Result<FloatOrder, FloatQuery>)
    ensures
        match r {
            Ok(o) => ordered(floats@, a, b) == Some(o),
            Err(query) => ordered(floats@, a, b) is None && query@ == Question::Order(a, b),
        },
{
    let query = FloatQuery::Order(a, b);
    match find(floats, &query) {
        Some(FloatFact::Ordered(_, _, o)) => Ok(*o),
        _ => Err(query),
    }
}

/// The number nearest to `i`, or the question to ask.
pub fn widen(floats: &Vec<FloatFact>, i: i32) -> (r: Result<u32, FloatQuery>)
    ensures
        match r {
            Ok(bits) => widened(floats@, i) == Some(bits),
            Err(query) => widened(floats@, i) is None && query@ == Question::Widen(i),
        },
{
    let query = FloatQuery::Widen(i);
    match find(floats, &query) {
        Some(FloatFact::Widened(_, bits)) => Ok(*bits),
        _ => Err(query),
    }
}

/// The integer part of `a`, or the question to ask.
pub fn truncate(floats: &Vec<FloatFact>, a: u32) -> (r: Result<i32, FloatQuery>)
    ensures
        match r {
            Ok(i) => truncated(floats@, a) == Some(i),
            Err(query) => truncated(floats@, a) is None && query@ == Question::Truncate(a),
        },
{
    let query = FloatQuery::Truncate(a);
    match find(floats, &query) {
        Some(FloatFact::Truncated(_, i)) => Ok(*i),
        _ => Err(query),
    }
}

/// The decimal form of `a`, or the question to ask.
pub fn show(floats: &Vec<FloatFact>, a: u32) -> (r: Result<String, FloatQuery>)
    ensures
        match r {
            Ok(text) => shown(floats@, a) == Some(text@),
            Err(query) => shown(floats@, a) is None && query@ == Question::Show(a),
        },
{
    let query = FloatQuery::Show(a);
    match find(floats, &query) {
        Some(FloatFact::Shown(_, text)) => Ok(text.clone()),
        _ => Err(query),
    }
}

/// True when the table `more` answers every question that the table `facts`
/// answers, and in the same way.
pub open spec fn agrees(facts: Seq<FloatFact>, more: Seq<FloatFact>) -> bool {
    forall|question: Question|
        (#[trigger] answer(facts, question)) is Some ==> answer(more, question) == answer(
            facts,
            question,
        )
}

proof fn lemma_first_answer_stays(
    facts: Seq<FloatFact>,
    added: Seq<FloatFact>,
    question: Question,
    from: int,
)
    requires
        0 <= from,
        first_answer(facts, question, from) is Some,
    ensures
        first_answer(facts + added, question, from) == first_answer(facts, question, from),
        0 <= first_answer(facts, question, from)->0 < facts.len(),
    decreases facts.len() - from,
{
    assert((facts + added)[from] == facts[from]);
    if !settles(facts[from], question) {
        lemma_first_answer_stays(facts, added, question, from + 1);
    }
}

/// Facts that are added at the end of a table leave every answer as it was.
pub proof fn lemma_added_facts_agree(facts: Seq<FloatFact>, added: Seq<FloatFact>)
    ensures
        agrees(facts, facts + added),
{
    assert forall|question: Question| (#[trigger] answer(facts, question)) is Some implies answer(
        facts + added,
        question,
    ) == answer(facts, question) by {
        lemma_first_answer_stays(facts, added, question, 0);
    }
}

proof fn lemma_first_answer_settles(facts: Seq<FloatFact>, question: Question, from: int)
    requires
        0 <= from,
        first_answer(facts, question, from) is Some,
    ensures
        settles(facts[first_answer(facts, question, from)->0], question),
    decreases facts.len() - from,
{
    if !settles(facts[from], question) {
        lemma_first_answer_settles(facts, question, from + 1);
    }
}

/// The fact that a table gives for a question is an answer to that question.
pub proof fn lemma_answers_settle(facts: Seq<FloatFact>)
    ensures
        forall|question: Question|
            (#[trigger] answer(facts, question)) is Some ==> settles(
                answer(facts, question)->0,
                question,
            ),
{
    assert forall|question: Question| (#[trigger] answer(facts, question)) is Some implies settles(
        answer(facts, question)->0,
        question,
    ) by {
        lemma_first_answer_settles(facts, question, 0);
    }
}

} // verus!
