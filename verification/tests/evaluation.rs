use spreadterm::environment::Environment;
use spreadterm::floats::{FloatFact, FloatOp, FloatOrder, FloatQuery};
use spreadterm::grid::{evaluate_from_string, Grid};
use spreadterm::model::{BinaryOp, CellAddress, Primitive, UnaryOp};
use spreadterm::ops::{binary, unary, Outcome};

/// What a float unit answers.
fn answer(query: &FloatQuery) -> FloatFact {
    match query {
        FloatQuery::Parse(text) => {
            FloatFact::Parsed(text.clone(), text.parse::<f32>().ok().map(f32::to_bits))
        }
        FloatQuery::Compute(op, a, b) => {
            let x = f32::from_bits(*a);
            let y = f32::from_bits(*b);
            let z = match op {
                FloatOp::Add => x + y,
                FloatOp::Subtract => x - y,
                FloatOp::Multiply => x * y,
                FloatOp::Divide => x / y,
                FloatOp::Remainder => x % y,
                FloatOp::Power => x.powf(y),
            };
            FloatFact::Computed(*op, *a, *b, z.to_bits())
        }
        FloatQuery::Order(a, b) => {
            let x = f32::from_bits(*a);
            let y = f32::from_bits(*b);
            let order = if x < y {
                FloatOrder::Less
            } else if x == y {
                FloatOrder::Equal
            } else if x > y {
                FloatOrder::Greater
            } else {
                FloatOrder::Unordered
            };
            FloatFact::Ordered(*a, *b, order)
        }
        FloatQuery::Widen(i) => FloatFact::Widened(*i, (*i as f32).to_bits()),
        FloatQuery::Truncate(a) => FloatFact::Truncated(*a, f32::from_bits(*a) as i32),
        FloatQuery::Show(a) => FloatFact::Shown(*a, format!("{:?}", f32::from_bits(*a))),
    }
}

/// Evaluates `text` against `grid`, asking the float unit whatever comes up.
fn value_in(text: &str, grid: &Grid) -> Result<Primitive, String> {
    let mut floats: Vec<FloatFact> = Vec::new();
    loop {
        match evaluate_from_string(&text.to_string(), grid, &floats) {
            Outcome::Value(value) => return Ok(value),
            Outcome::Error(message) => return Err(message),
            Outcome::Ask(query) => floats.push(answer(&query)),
        }
    }
}

fn value(text: &str) -> Result<Primitive, String> {
    value_in(text, &Grid::new())
}

/// The cells `[i, j]` for `i` and `j` from 1 to 10 hold `i * j`.
fn times_table() -> Grid {
    let mut grid = Grid::new();
    for i in 1..=10 {
        for j in 1..=10 {
            grid.set_cell(&CellAddress(i, j), Ok(Primitive::Integer(i * j)));
        }
    }
    grid
}

fn whole(i: i32) -> Result<Primitive, String> {
    Ok(Primitive::Integer(i))
}

fn float(x: f32) -> Result<Primitive, String> {
    Ok(Primitive::Float(x.to_bits()))
}

fn boolean(b: bool) -> Result<Primitive, String> {
    Ok(Primitive::Boolean(b))
}

fn string(s: &str) -> Result<Primitive, String> {
    Ok(Primitive::String(s.to_string()))
}

fn error(s: &str) -> Result<Primitive, String> {
    Err(s.to_string())
}

#[test]
fn basic_primitives() {
    let grid = times_table();
    assert_eq!(value("\"this is a string\""), string("this is a string"));
    assert_eq!(value("5"), whole(5));
    assert_eq!(value("-5"), whole(-5));
    assert_eq!(value("7.234"), float(7.234));
    assert_eq!(value("true"), boolean(true));
    assert_eq!(value("false"), boolean(false));
    assert_eq!(value_in("[5, 5]", &grid), whole(25));
}

#[test]
fn basic_expressions() {
    assert_eq!(value("2 + 2"), whole(4));
    assert_eq!(value("4 - 2"), whole(2));
    assert_eq!(value("3 * 2"), whole(6));
    assert_eq!(value("6 / 2"), whole(3));
    assert_eq!(value("4 & 7"), whole(4));
    assert_eq!(value("4 | 7"), whole(7));
    assert_eq!(value("4 ^ 7"), whole(3));
    assert_eq!(value("~7"), whole(-8));
}

#[test]
fn basic_boolean() {
    assert_eq!(value("false || true"), boolean(true));
    assert_eq!(value("false && true"), boolean(false));
    assert_eq!(value("!false"), boolean(true));
}

#[test]
fn equality_of_like_types() {
    assert_eq!(value("5 == 5"), boolean(true));
    assert_eq!(value("-0.00001 == -0.00001"), boolean(true));
    assert_eq!(value("\"this is a string\" == \"this is a string\""), boolean(true));
    assert_eq!(value("false == false"), boolean(true));
    assert_eq!(value("5 == 3"), boolean(false));
    assert_eq!(value("-0.00001 == 0.00001"), boolean(false));
    assert_eq!(
        value("\"this is a string\" == \"this is a different string\""),
        boolean(false)
    );
    assert_eq!(value("true == false"), boolean(false));
}

#[test]
fn inequality_of_like_types() {
    assert_eq!(value("5 != 5"), boolean(false));
    assert_eq!(value("-0.00001 != -0.00001"), boolean(false));
    assert_eq!(value("\"this is a string\" != \"this is a string\""), boolean(false));
    assert_eq!(value("false != false"), boolean(false));
    assert_eq!(value("5 != 3"), boolean(true));
    assert_eq!(value("-0.00001 != 0.00001"), boolean(true));
    assert_eq!(value("true != false"), boolean(true));
}

#[test]
fn equality_across_types_never_fails() {
    assert_eq!(value("\"this is a string\" == true"), boolean(false));
    assert_eq!(value("\"this is string\" != 5"), boolean(true));
    assert_eq!(value("\"s\" == 5"), boolean(false));
    assert_eq!(value("true == 1"), boolean(false));
    assert_eq!(value("true != 1.0"), boolean(true));
}

#[test]
fn equality_of_integer_and_float_is_by_float() {
    assert_eq!(value("2 == 2.0"), boolean(true));
    assert_eq!(value("2.5 == 2"), boolean(false));
    assert_eq!(value("2 != 2.0"), boolean(false));
    assert_eq!(value("16777217 == 16777216.0"), boolean(true));
}

#[test]
fn ordering_of_numbers() {
    assert_eq!(value("1 < 2"), boolean(true));
    assert_eq!(value("2 < 2"), boolean(false));
    assert_eq!(value("2 <= 2"), boolean(true));
    assert_eq!(value("3 > 2"), boolean(true));
    assert_eq!(value("2 >= 3"), boolean(false));
    assert_eq!(value("1.5 < 2"), boolean(true));
    assert_eq!(value("2 <= 1.5"), boolean(false));
    assert_eq!(value("2.5 > 2.25"), boolean(true));
    assert_eq!(value("2.5 >= 2.5"), boolean(true));
}

#[test]
fn ordering_of_strings_is_by_code_point() {
    assert_eq!(value("\"abc\" < \"abd\""), boolean(true));
    assert_eq!(value("\"abc\" < \"abc\""), boolean(false));
    assert_eq!(value("\"abc\" <= \"abc\""), boolean(true));
    assert_eq!(value("\"ab\" < \"abc\""), boolean(true));
    assert_eq!(value("\"b\" > \"abc\""), boolean(true));
    assert_eq!(value("\"Z\" < \"a\""), boolean(true));
    assert_eq!(value("\"\" >= \"\""), boolean(true));
    assert_eq!(value("\"\u{e9}\" > \"z\""), boolean(true));
    assert_eq!(value("\"\u{1F600}\" > \"\u{ffff}\""), boolean(true));
}

#[test]
fn ordering_of_other_types_fails() {
    assert_eq!(value("true < false"), error("type error: < on Boolean and Boolean"));
    assert_eq!(value("1 >= \"a\""), error("type error: >= on Integer and String"));
    assert_eq!(value("\"a\" <= 1.5"), error("type error: <= on String and Float"));
    assert_eq!(value("4 < (7 == 7) > 4"), error("type error: < on Integer and Boolean"));
}

#[test]
fn statistics() {
    let grid = times_table();
    assert_eq!(value_in("max([1,1],[5,5])", &grid), whole(25));
    assert_eq!(value_in("min([1,1],[5,5])", &grid), whole(1));
    assert_eq!(value_in("sum([1,1],[5,5])", &grid), whole(225));
    assert_eq!(value_in("mean([1,1], [5,5])", &grid), float(9.0));
    assert_eq!(value_in("sum([5,5],[1,1])", &grid), whole(225));
    assert_eq!(value_in("sum([1,5],[5,1])", &grid), whole(225));
    assert_eq!(value_in("sum([0,0],[1,2])", &grid), whole(3));
    assert_eq!(value_in("mean([1,1],[1,2])", &grid), float(1.5));
}

#[test]
fn statistics_over_mixed_cells() {
    let mut grid = Grid::new();
    grid.set_cell(&CellAddress(0, 0), Ok(Primitive::Integer(3)));
    grid.set_cell(&CellAddress(0, 1), Ok(Primitive::Float(1.5f32.to_bits())));
    grid.set_cell(&CellAddress(1, 1), Ok(Primitive::Integer(-2)));
    assert_eq!(value_in("sum([0,0],[1,1])", &grid), float(2.5));
    assert_eq!(value_in("mean([0,0],[1,1])", &grid), float(2.5 / 3.0));
    assert_eq!(value_in("max([0,0],[1,1])", &grid), float(3.0));
    assert_eq!(value_in("min([0,0],[1,1])", &grid), float(-2.0));
    assert_eq!(value_in("min([0,0],[0,0])", &grid), whole(3));
    assert_eq!(value_in("max([0,1],[0,1])", &grid), float(1.5));
}

#[test]
fn statistics_errors() {
    let mut grid = Grid::new();
    grid.set_cell(&CellAddress(0, 0), Ok(Primitive::Integer(3)));
    grid.set_cell(&CellAddress(0, 1), Ok(Primitive::String("x".to_string())));
    grid.set_cell(&CellAddress(0, 2), Err("upstream".to_string()));
    grid.set_cell(&CellAddress(0, 3), Ok(Primitive::Boolean(true)));
    grid.set_cell(&CellAddress(1, 0), Ok(Primitive::Integer(i32::MAX)));
    assert_eq!(value_in("sum([5,5],[6,6])", &grid), error("empty range"));
    assert_eq!(value_in("sum([0,0],[0,1])", &grid), error("non-numeric cell in aggregate"));
    assert_eq!(value_in("max([0,3],[0,3])", &grid), error("non-numeric cell in aggregate"));
    assert_eq!(value_in("min([0,2],[0,3])", &grid), error("upstream"));
    assert_eq!(value_in("sum([0,0],[1,0])", &grid), error("integer overflow"));
}

#[test]
fn precedence() {
    assert_eq!(value("4 | 7 ^ 8"), whole(15));
    assert_eq!(value("4 ^ 7 & 8"), whole(4));
    assert_eq!(value("4 & 7 == 4"), error("type error: & on Integer and Boolean"));
    assert_eq!(value("4 < 7 == 7 > 4"), boolean(true));
    assert_eq!(value("1 << 7 < 16"), boolean(false));
    assert_eq!(value("1 << 5 + 2"), whole(128));
    assert_eq!(value("4445 >> 4 - 2"), whole(1111));
    assert_eq!(value("27 - 81 / 5,800,074"), whole(11));
    assert_eq!(value("2 + 5 * 9"), whole(47));
    assert_eq!(value("1 + 2 % 5"), whole(3));
    assert_eq!(value("1 * 2 ** 5"), whole(32));
    assert_eq!(value("!true || true"), boolean(true));
    assert_eq!(value("~5 + 7"), whole(1));
    assert_eq!(value("int 5.0 / 2"), whole(2));
    assert_eq!(value("float 5 / 2"), float(2.5));
}

#[test]
fn parenthesis() {
    assert_eq!(value("(4 | 7) ^ 8"), whole(15));
    assert_eq!(value("(4 ^ 7) & 8"), whole(0));
    assert_eq!(value("(4 & 7) == 4"), boolean(true));
    assert_eq!(value("1 << (7 < 16)"), error("type error: << on Integer and Boolean"));
    assert_eq!(value("(1 << 5) + 2"), whole(34));
    assert_eq!(value("(4445 >> 4) - 2"), whole(275));
    assert_eq!(value("(27 - 81) / 5,800,074"), whole(-10));
    assert_eq!(value("(2 + 5) * 9"), whole(63));
    assert_eq!(value("(1 + 2) % 5"), whole(3));
    assert_eq!(value("(1 * 2) ** 5"), whole(32));
    assert_eq!(value("!(true || true)"), boolean(false));
    assert_eq!(value("~(5 + 7)"), whole(-13));
    assert_eq!(value("int (5.0 / 2)"), whole(2));
    assert_eq!(value("float (5 / 2)"), float(2.0));
    assert_eq!(value("((((float (((((((((5 + 8)))))))*      2))))))"), float(26.0));
}

#[test]
fn combined_expressions() {
    let grid = times_table();
    assert_eq!(value("4 | 7 & 9 + 4 - 6 * 7 ** 2 / 8 ^ 7 + 9"), whole(21));
    assert_eq!(value_in("4 | (7) + (9 & 7) ** (6 - 6) + [2, 3]", &grid), whole(14));
    assert_eq!(
        value("true && false && true == true || false || true && true"),
        boolean(true)
    );
    assert_eq!(
        value_in("[4, 5] - max([1, 1], [1, 5]) + 0.99 ** -2.0", &grid),
        float(15.0 + 0.99f32.powf(-2.0))
    );
}

#[test]
fn power_is_left_associative() {
    assert_eq!(value("2**3**2"), whole(64));
}

#[test]
fn errors_of_the_three_stages() {
    assert_eq!(
        value("5 + "),
        error("Incomplete Input String (Likely a dropped primitive after an operator)")
    );
    assert_eq!(value("17.99999 - )"), error("Unexpected Token ) at index 2"));
    assert_eq!(
        value("this is not a (spreadterm) string, it is not in quotes"),
        error("Unexpected character 't' at index 0")
    );
    assert_eq!(value("[5, 4"), error("Missing Close Bracket for Cell Address at index 4"));
    assert_eq!(value("max([1, 1],)"), error("Missing open bracket for cell address at index 8"));
    assert_eq!(value("(5 - 5"), error("Missing Closing Parenthesis at 4"));
    assert_eq!(value("\"abc"), error("Unclosed string literal starting at index 0: \"abc"));
}

#[test]
fn integer_division_truncates_towards_zero() {
    assert_eq!(value("7 / 2"), whole(3));
    assert_eq!(value("-7 / 2"), whole(-3));
    assert_eq!(value("7 / -2"), whole(-3));
    assert_eq!(value("-7 / -2"), whole(3));
    assert_eq!(value("0 / 5"), whole(0));
}

#[test]
fn remainder_has_the_sign_of_the_dividend() {
    assert_eq!(value("7 % 3"), whole(1));
    assert_eq!(value("-7 % 3"), whole(-1));
    assert_eq!(value("7 % -3"), whole(1));
    assert_eq!(value("-7 % -3"), whole(-1));
    assert_eq!(value("-2147483648 % -1"), whole(0));
}

#[test]
fn integer_arithmetic_outside_32_bits_is_an_error() {
    assert_eq!(value("2147483647 + 1"), error("integer overflow"));
    assert_eq!(value("-2147483648 - 1"), error("integer overflow"));
    assert_eq!(value("65536 * 65536"), error("integer overflow"));
    assert_eq!(value("-2147483648 / -1"), error("integer overflow"));
    assert_eq!(value("2 ** 31"), error("integer overflow"));
    assert_eq!(value("10 ** 100"), error("integer overflow"));
    assert_eq!(value("2147483647 + 0"), whole(i32::MAX));
    assert_eq!(value("-2 ** 31"), whole(i32::MIN));
    assert_eq!(value("2 ** 30"), whole(1 << 30));
    assert_eq!(value("46340 * 46340"), whole(2147395600));
}

#[test]
fn division_by_zero_is_an_error() {
    assert_eq!(value("1 / 0"), error("division by zero"));
    assert_eq!(value("1 % 0"), error("division by zero"));
    assert_eq!(value("0 / 0"), error("division by zero"));
}

#[test]
fn integer_power() {
    assert_eq!(value("3 ** 4"), whole(81));
    assert_eq!(value("7 ** 0"), whole(1));
    assert_eq!(value("0 ** 0"), whole(1));
    assert_eq!(value("0 ** 5"), whole(0));
    assert_eq!(value("1 ** 2000000000"), whole(1));
    assert_eq!(value("-1 ** 2000000001"), whole(-1));
    assert_eq!(value("-1 ** 2000000000"), whole(1));
    assert_eq!(value("-3 ** 3"), whole(-27));
    assert_eq!(value("2 ** -1"), error("negative integer exponent"));
    assert_eq!(value("0 ** -1"), error("negative integer exponent"));
}

#[test]
fn float_arithmetic() {
    assert_eq!(value("1.5 + 2"), float(3.5));
    assert_eq!(value("2 - 0.5"), float(1.5));
    assert_eq!(value("1.5 * 1.5"), float(2.25));
    assert_eq!(value("5.0 / 2"), float(2.5));
    assert_eq!(value("5.5 % 2"), float(1.5));
    assert_eq!(value("2.0 ** 3"), float(8.0));
    assert_eq!(value("2 ** 0.5"), float(2.0f32.powf(0.5)));
    assert_eq!(value("1 / 0.0"), float(f32::INFINITY));
    assert_eq!(value("0.1 + 0.2"), float(0.1f32 + 0.2f32));
}

#[test]
fn nan_is_unordered() {
    assert_eq!(value("0.0 / 0.0 == 0.0 / 0.0"), boolean(false));
    assert_eq!(value("0.0 / 0.0 != 0.0 / 0.0"), boolean(true));
    assert_eq!(value("0.0 / 0.0 < 1"), boolean(false));
    assert_eq!(value("0.0 / 0.0 >= 1"), boolean(false));
    assert_eq!(value("0.0 == -0.0"), boolean(true));
}

#[test]
fn string_concatenation() {
    assert_eq!(value("\"a\" + \"b\""), string("ab"));
    assert_eq!(value("\"\" + \"\""), string(""));
    assert_eq!(value("\"a\" + \"b\" + \"c\""), string("abc"));
    assert_eq!(value("\"a\" - \"b\""), error("type error: - on String and String"));
    assert_eq!(value("\"a\" + 1"), error("type error: + on String and Integer"));
    assert_eq!(value("\"a\" * 2.0"), error("type error: * on String and Float"));
}

#[test]
fn arithmetic_on_other_types_fails() {
    assert_eq!(value("true + 1"), error("type error: + on Boolean and Integer"));
    assert_eq!(value("1 / false"), error("type error: / on Integer and Boolean"));
    assert_eq!(value("1.5 % \"x\""), error("type error: % on Float and String"));
    assert_eq!(value("true ** true"), error("type error: ** on Boolean and Boolean"));
}

#[test]
fn bitwise_operators_take_integers_only() {
    assert_eq!(value("6 & 3"), whole(2));
    assert_eq!(value("6 | 3"), whole(7));
    assert_eq!(value("6 ^ 3"), whole(5));
    assert_eq!(value("-1 & 255"), whole(255));
    assert_eq!(value("~0"), whole(-1));
    assert_eq!(value("~-2147483648"), whole(i32::MAX));
    assert_eq!(value("1.0 & 1"), error("type error: & on Float and Integer"));
    assert_eq!(value("1 | true"), error("type error: | on Integer and Boolean"));
    assert_eq!(value("\"a\" ^ 1"), error("type error: ^ on String and Integer"));
    assert_eq!(value("~1.5"), error("type error: ~ on Float"));
    assert_eq!(value("~true"), error("type error: ~ on Boolean"));
}

#[test]
fn shifts() {
    assert_eq!(value("1 << 4"), whole(16));
    assert_eq!(value("1 << 31"), whole(i32::MIN));
    assert_eq!(value("3 << 31"), whole(i32::MIN));
    assert_eq!(value("-16 >> 2"), whole(-4));
    assert_eq!(value("-1 >> 31"), whole(-1));
    assert_eq!(value("5 << 0"), whole(5));
    assert_eq!(value("1 << -1"), error("invalid shift amount"));
    assert_eq!(value("1 << 32"), error("invalid shift amount"));
    assert_eq!(value("1 >> 32"), error("invalid shift amount"));
    assert_eq!(value("1 >> -5"), error("invalid shift amount"));
    assert_eq!(value("1 << 1.0"), error("type error: << on Integer and Float"));
}

#[test]
fn logical_operators_take_booleans_only() {
    assert_eq!(value("true && true"), boolean(true));
    assert_eq!(value("true && false"), boolean(false));
    assert_eq!(value("false || false"), boolean(false));
    assert_eq!(value("1 && true"), error("type error: && on Integer and Boolean"));
    assert_eq!(value("true || 0"), error("type error: || on Boolean and Integer"));
    assert_eq!(value("!1"), error("type error: ! on Integer"));
    assert_eq!(value("!\"a\""), error("type error: ! on String"));
}

#[test]
fn both_sides_of_a_logical_operator_are_evaluated() {
    assert_eq!(value("true || [7, 7]"), error("cell [7, 7] has no value"));
    assert_eq!(value("false && 1 / 0 == 1"), error("division by zero"));
    assert_eq!(value("[1, 1] || [2, 2]"), error("cell [1, 1] has no value"));
}

#[test]
fn casts() {
    assert_eq!(value("int 5.9"), whole(5));
    assert_eq!(value("int -5.9"), whole(-5));
    assert_eq!(value("int 7"), whole(7));
    assert_eq!(value("float 7"), float(7.0));
    assert_eq!(value("float 7.5"), float(7.5));
    assert_eq!(value("int true"), error("type error: int on Boolean"));
    assert_eq!(value("float \"x\""), error("type error: float on String"));
    assert_eq!(value("int 1.0e0"), error("Unexpected character 'e' at index 7"));
}

#[test]
fn cell_reference_reads_the_last_value() {
    let mut grid = Grid::new();
    grid.set_cell(&CellAddress(0, 0), Ok(Primitive::Integer(2)));
    grid.set_cell(&CellAddress(0, 1), Ok(Primitive::String("s".to_string())));
    grid.set_cell(&CellAddress(0, 2), Err("upstream error".to_string()));
    assert_eq!(value_in("[0, 0]", &grid), whole(2));
    assert_eq!(value_in("[0, 1]", &grid), string("s"));
    assert_eq!(value_in("[0, 2]", &grid), error("upstream error"));
    assert_eq!(value_in("[0, 2] + 1", &grid), error("upstream error"));
    assert_eq!(value_in("[0, 3]", &grid), error("cell [0, 3] has no value"));
    assert_eq!(value_in("[-1, 12]", &grid), error("cell [-1, 12] has no value"));
}

#[test]
fn evaluation_twice_gives_the_same() {
    let grid = times_table();
    let floats = vec![answer(&FloatQuery::Widen(225)), answer(&FloatQuery::Widen(25))];
    let text = "mean([1,1],[5,5])".to_string();
    let first = evaluate_from_string(&text, &grid, &floats);
    let second = evaluate_from_string(&text, &grid, &floats);
    assert_eq!(first, second);
    assert_eq!(
        first,
        Outcome::Ask(FloatQuery::Compute(
            FloatOp::Divide,
            225.0f32.to_bits(),
            25.0f32.to_bits()
        ))
    );
}

#[test]
fn evaluation_asks_what_the_float_facts_lack() {
    let grid = Grid::new();
    let text = "1.5 + 2".to_string();
    let mut floats: Vec<FloatFact> = Vec::new();
    assert_eq!(
        evaluate_from_string(&text, &grid, &floats),
        Outcome::Ask(FloatQuery::Parse("1.5".to_string()))
    );
    floats.push(FloatFact::Parsed("1.5".to_string(), Some(1.5f32.to_bits())));
    assert_eq!(evaluate_from_string(&text, &grid, &floats), Outcome::Ask(FloatQuery::Widen(2)));
    floats.push(FloatFact::Widened(2, 2.0f32.to_bits()));
    assert_eq!(
        evaluate_from_string(&text, &grid, &floats),
        Outcome::Ask(FloatQuery::Compute(FloatOp::Add, 1.5f32.to_bits(), 2.0f32.to_bits()))
    );
    floats.push(FloatFact::Computed(
        FloatOp::Add,
        1.5f32.to_bits(),
        2.0f32.to_bits(),
        3.5f32.to_bits(),
    ));
    assert_eq!(
        evaluate_from_string(&text, &grid, &floats),
        Outcome::Value(Primitive::Float(3.5f32.to_bits()))
    );
}

#[test]
fn the_first_fact_that_answers_counts() {
    let grid = Grid::new();
    let floats = vec![
        FloatFact::Widened(1, 10),
        FloatFact::Widened(2, 20),
        FloatFact::Widened(1, 30),
    ];
    assert_eq!(
        evaluate_from_string(&"float 1".to_string(), &grid, &floats),
        Outcome::Value(Primitive::Float(10))
    );
    assert_eq!(
        evaluate_from_string(&"float 2".to_string(), &grid, &floats),
        Outcome::Value(Primitive::Float(20))
    );
}

#[test]
fn float_literal_that_the_float_unit_refuses() {
    let grid = Grid::new();
    let floats = vec![FloatFact::Parsed("1.5".to_string(), None)];
    assert_eq!(
        evaluate_from_string(&"1.5".to_string(), &grid, &floats),
        Outcome::Error("invalid float literal 1.5".to_string())
    );
}

#[test]
fn operators_on_values() {
    let floats: Vec<FloatFact> = Vec::new();
    assert_eq!(
        binary(BinaryOp::Add, Primitive::Integer(2), Primitive::Integer(3), &floats),
        Outcome::Value(Primitive::Integer(5))
    );
    assert_eq!(
        binary(
            BinaryOp::Add,
            Primitive::String("a".to_string()),
            Primitive::String("b".to_string()),
            &floats
        ),
        Outcome::Value(Primitive::String("ab".to_string()))
    );
    assert_eq!(
        binary(BinaryOp::Multiply, Primitive::Float(7), Primitive::Integer(3), &floats),
        Outcome::Ask(FloatQuery::Widen(3))
    );
    assert_eq!(
        unary(UnaryOp::FloatToInt, Primitive::Float(7), &floats),
        Outcome::Ask(FloatQuery::Truncate(7))
    );
    assert_eq!(
        unary(UnaryOp::LogicalNot, Primitive::Boolean(false), &floats),
        Outcome::Value(Primitive::Boolean(true))
    );
}

#[test]
fn display_form() {
    let mut floats: Vec<FloatFact> = Vec::new();
    assert_eq!(Primitive::Integer(-12).display(&floats).unwrap(), "-12");
    assert_eq!(Primitive::Integer(0).display(&floats).unwrap(), "0");
    assert_eq!(Primitive::Integer(i32::MIN).display(&floats).unwrap(), "-2147483648");
    assert_eq!(Primitive::Boolean(true).display(&floats).unwrap(), "true");
    assert_eq!(Primitive::Boolean(false).display(&floats).unwrap(), "false");
    assert_eq!(Primitive::String("a \"b\"".to_string()).display(&floats).unwrap(), "a \"b\"");
    let half = Primitive::Float(2.5f32.to_bits());
    assert_eq!(half.display(&floats).unwrap_err(), FloatQuery::Show(2.5f32.to_bits()));
    floats.push(answer(&FloatQuery::Show(2.5f32.to_bits())));
    assert_eq!(half.display(&floats).unwrap(), "2.5");
}

#[test]
fn environment_hands_out_its_grid() {
    let grid = times_table();
    let environment = Environment::new(&grid);
    assert_eq!(environment.grid().get_cell(&CellAddress(2, 3)), Some(&Ok(Primitive::Integer(6))));
    assert_eq!(environment.grid().get_cell(&CellAddress(0, 0)), None);
}

#[test]
fn grid_keeps_what_was_set_last() {
    let mut grid = Grid::new();
    let a = CellAddress(-1, i32::MAX);
    let b = CellAddress(i32::MAX, -1);
    assert_eq!(grid.get_cell(&a), None);
    grid.set_cell(&a, Ok(Primitive::Integer(1)));
    grid.set_cell(&b, Err("e".to_string()));
    grid.set_cell(&a, Ok(Primitive::Integer(2)));
    assert_eq!(grid.get_cell(&a), Some(&Ok(Primitive::Integer(2))));
    assert_eq!(grid.get_cell(&b), Some(&Err("e".to_string())));
    grid.clear_cell(&a);
    assert_eq!(grid.get_cell(&a), None);
    assert_eq!(grid.get_cell(&CellAddress(i32::MIN, i32::MIN)), None);
}

#[test]
fn more_facts_leave_a_value_as_it_is() {
    let grid = times_table();
    let text = "float [2, 3] / 4 < 2".to_string();
    let mut floats: Vec<FloatFact> = Vec::new();
    let first = loop {
        match evaluate_from_string(&text, &grid, &floats) {
            Outcome::Ask(query) => floats.push(answer(&query)),
            done => break done,
        }
    };
    assert_eq!(first, Outcome::Value(Primitive::Boolean(true)));
    floats.push(FloatFact::Widened(6, 0));
    floats.push(FloatFact::Widened(4, 0));
    floats.push(FloatFact::Ordered(1.5f32.to_bits(), 2.0f32.to_bits(), FloatOrder::Greater));
    floats.push(answer(&FloatQuery::Widen(77)));
    assert_eq!(evaluate_from_string(&text, &grid, &floats), first);
}

#[test]
fn question_asked_is_not_answered_yet() {
    let grid = times_table();
    let text = "mean([1,1],[2,2]) + 0.5".to_string();
    let mut floats: Vec<FloatFact> = Vec::new();
    let mut asked: Vec<FloatQuery> = Vec::new();
    loop {
        match evaluate_from_string(&text, &grid, &floats) {
            Outcome::Ask(query) => {
                assert!(!asked.contains(&query));
                floats.push(answer(&query));
                asked.push(query);
            }
            done => {
                assert_eq!(done, Outcome::Value(Primitive::Float(2.75f32.to_bits())));
                break;
            }
        }
    }
    assert_eq!(asked.len(), 5);
}

#[test]
fn formula_reads_the_cells_that_it_names_only() {
    let mut grid = times_table();
    let before = value_in("[2, 3] + sum([4,4],[5,5])", &grid);
    grid.set_cell(&CellAddress(2, 4), Err("changed".to_string()));
    grid.set_cell(&CellAddress(6, 6), Ok(Primitive::Boolean(true)));
    grid.set_cell(&CellAddress(0, 0), Ok(Primitive::Integer(-1)));
    assert_eq!(value_in("[2, 3] + sum([4,4],[5,5])", &grid), before);
    assert_eq!(before, whole(87));
    grid.set_cell(&CellAddress(4, 5), Ok(Primitive::Integer(0)));
    assert_eq!(value_in("[2, 3] + sum([4,4],[5,5])", &grid), whole(67));
}
