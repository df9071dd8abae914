use spreadterm::lexer::{lex, Token, TokenType};
use spreadterm::model::{AggregateFn, BinaryOp, CellAddress, Expression, Primitive, UnaryOp};
use spreadterm::parser::parse;

fn tree(text: &str) -> Expression {
    parse(lex(text).unwrap()).unwrap()
}

fn failure(text: &str) -> String {
    parse(lex(text).unwrap()).unwrap_err()
}

fn whole(i: i32) -> Expression {
    Expression::Literal(Primitive::Integer(i))
}

fn bin(op: BinaryOp, left: Expression, right: Expression) -> Expression {
    Expression::Binary(op, Box::new(left), Box::new(right))
}

fn un(op: UnaryOp, child: Expression) -> Expression {
    Expression::Unary(op, Box::new(child))
}

const LEVELS: [(&str, BinaryOp); 19] = [
    ("||", BinaryOp::LogicalOr),
    ("&&", BinaryOp::LogicalAnd),
    ("|", BinaryOp::BitwiseOr),
    ("^", BinaryOp::BitwiseXor),
    ("&", BinaryOp::BitwiseAnd),
    ("==", BinaryOp::Equals),
    ("!=", BinaryOp::NotEquals),
    ("<", BinaryOp::LessThan),
    ("<=", BinaryOp::LessThanOrEqual),
    (">", BinaryOp::GreaterThan),
    (">=", BinaryOp::GreaterThanOrEqual),
    ("<<", BinaryOp::LeftShift),
    (">>", BinaryOp::RightShift),
    ("+", BinaryOp::Add),
    ("-", BinaryOp::Subtract),
    ("*", BinaryOp::Multiply),
    ("/", BinaryOp::Divide),
    ("%", BinaryOp::Modulus),
    ("**", BinaryOp::Power),
];

fn level_of(op: BinaryOp) -> u8 {
    match op {
        BinaryOp::LogicalOr => 1,
        BinaryOp::LogicalAnd => 2,
        BinaryOp::BitwiseOr => 3,
        BinaryOp::BitwiseXor => 4,
        BinaryOp::BitwiseAnd => 5,
        BinaryOp::Equals | BinaryOp::NotEquals => 6,
        BinaryOp::LessThan
        | BinaryOp::LessThanOrEqual
        | BinaryOp::GreaterThan
        | BinaryOp::GreaterThanOrEqual => 7,
        BinaryOp::LeftShift | BinaryOp::RightShift => 8,
        BinaryOp::Add | BinaryOp::Subtract => 9,
        BinaryOp::Multiply | BinaryOp::Divide | BinaryOp::Modulus => 10,
        BinaryOp::Power => 11,
    }
}

#[test]
fn every_binary_level_groups_to_the_left() {
    for (first, op1) in LEVELS {
        for (second, op2) in LEVELS {
            if level_of(op1) == level_of(op2) {
                let text = format!("1 {} 2 {} 3", first, second);
                assert_eq!(tree(&text), bin(op2, bin(op1, whole(1), whole(2)), whole(3)), "{}", text);
            }
        }
    }
}

#[test]
fn power_groups_to_the_left() {
    assert_eq!(
        tree("2**3**2"),
        bin(BinaryOp::Power, bin(BinaryOp::Power, whole(2), whole(3)), whole(2))
    );
}

#[test]
fn a_higher_level_binds_tighter() {
    for (low, lo) in LEVELS {
        for (high, hi) in LEVELS {
            if level_of(lo) < level_of(hi) {
                let text = format!("1 {} 2 {} 3", low, high);
                assert_eq!(tree(&text), bin(lo, whole(1), bin(hi, whole(2), whole(3))), "{}", text);
                let text = format!("1 {} 2 {} 3", high, low);
                assert_eq!(tree(&text), bin(lo, bin(hi, whole(1), whole(2)), whole(3)), "{}", text);
            }
        }
    }
}

#[test]
fn operands_may_be_whole_formulas() {
    assert_eq!(
        tree("(1 + 2) * !true * [3, 4]"),
        bin(
            BinaryOp::Multiply,
            bin(
                BinaryOp::Multiply,
                bin(BinaryOp::Add, whole(1), whole(2)),
                un(UnaryOp::LogicalNot, Expression::Literal(Primitive::Boolean(true)))
            ),
            Expression::CellRef(CellAddress(3, 4))
        )
    );
}

#[test]
fn prefix_operators_group_to_the_right() {
    assert_eq!(
        tree("!!true"),
        un(
            UnaryOp::LogicalNot,
            un(UnaryOp::LogicalNot, Expression::Literal(Primitive::Boolean(true)))
        )
    );
    assert_eq!(
        tree("int float ~ 5"),
        un(UnaryOp::FloatToInt, un(UnaryOp::IntToFloat, un(UnaryOp::BitwiseNot, whole(5))))
    );
}

#[test]
fn prefix_operator_binds_tighter_than_a_binary_one() {
    assert_eq!(
        tree("int 5.0 / 2"),
        bin(
            BinaryOp::Divide,
            un(UnaryOp::FloatToInt, Expression::Decimal("5.0".to_string())),
            whole(2)
        )
    );
    assert_eq!(
        tree("int (5.0 / 2)"),
        un(
            UnaryOp::FloatToInt,
            bin(BinaryOp::Divide, Expression::Decimal("5.0".to_string()), whole(2))
        )
    );
}

#[test]
fn literals() {
    assert_eq!(tree("123"), whole(123));
    assert_eq!(tree("-42"), whole(-42));
    assert_eq!(tree("-2147483648"), whole(i32::MIN));
    assert_eq!(tree("3.14"), Expression::Decimal("3.14".to_string()));
    assert_eq!(tree("\"hello\""), Expression::Literal(Primitive::String("hello".to_string())));
    assert_eq!(tree("true"), Expression::Literal(Primitive::Boolean(true)));
    assert_eq!(tree("false"), Expression::Literal(Primitive::Boolean(false)));
}

#[test]
fn cell_reference() {
    assert_eq!(tree("[5, 5]"), Expression::CellRef(CellAddress(5, 5)));
    assert_eq!(tree("[0,-1]"), Expression::CellRef(CellAddress(0, -1)));
}

#[test]
fn aggregates() {
    let from = CellAddress(1, 1);
    let to = CellAddress(5, 5);
    assert_eq!(tree("max([1,1],[5,5])"), Expression::Aggregate(AggregateFn::Max, from, to));
    assert_eq!(tree("mean([1,1], [5,5])"), Expression::Aggregate(AggregateFn::Mean, from, to));
    assert_eq!(tree("min([1,1],[5,5])"), Expression::Aggregate(AggregateFn::Min, from, to));
    assert_eq!(tree("sum([1,1],[5,5])"), Expression::Aggregate(AggregateFn::Sum, from, to));
}

#[test]
fn aggregate_corners_are_cell_addresses_only() {
    assert_eq!(failure("sum(1, 2)"), "Missing open bracket for cell address at index 2");
    assert_eq!(failure("sum([1,1],([5,5]))"), "Missing open bracket for cell address at index 8");
}

#[test]
fn tokens_after_the_formula_are_not_looked_at() {
    assert_eq!(tree("27 - 81 / 5,800,074"), bin(
        BinaryOp::Subtract,
        whole(27),
        bin(BinaryOp::Divide, whole(81), whole(5))
    ));
    assert_eq!(tree("3-2"), whole(3));
}

#[test]
fn incomplete_input() {
    let message = "Incomplete Input String (Likely a dropped primitive after an operator)";
    assert_eq!(failure("5 + "), message);
    assert_eq!(failure(""), message);
    assert_eq!(failure("!"), message);
    assert_eq!(failure("("), message);
    assert_eq!(parse(Vec::new()).unwrap_err(), message);
}

#[test]
fn unexpected_token() {
    assert_eq!(failure("17.99999 - )"), "Unexpected Token ) at index 2");
    assert_eq!(failure("= 5"), "Unexpected Token = at index 0");
    assert_eq!(failure("1 + {"), "Unexpected Token { at index 2");
    assert_eq!(failure("*"), "Unexpected Token * at index 0");
}

#[test]
fn integer_literal_out_of_range_is_an_unexpected_token() {
    assert_eq!(failure("2147483648"), "Unexpected Token 2147483648 at index 0");
    assert_eq!(failure("1 + -2147483649"), "Unexpected Token -2147483649 at index 2");
    assert_eq!(failure("[99999999999, 0]"), "Unexpected Token 99999999999 at index 1");
}

#[test]
fn missing_closing_parenthesis() {
    assert_eq!(failure("(5 - 5"), "Missing Closing Parenthesis at 4");
    assert_eq!(failure("(5 - 5 ]"), "Missing Closing Parenthesis at 4");
    assert_eq!(failure("max([1, 1],[2, 2]"), "Missing Closing Parenthesis at 13");
}

#[test]
fn missing_comma() {
    assert_eq!(failure("max([1, 1])"), "Missing Comma at 7");
    assert_eq!(failure("sum([1, 1] [2, 2])"), "Missing Comma at 7");
}

#[test]
fn missing_open_parenthesis() {
    assert_eq!(failure("sum [1,1]"), "Missing Open Parenthesis at 1");
    assert_eq!(failure("min"), "Missing Open Parenthesis at 1");
}

#[test]
fn malformed_cell_address() {
    assert_eq!(failure("[5, 4"), "Missing Close Bracket for Cell Address at index 4");
    assert_eq!(failure("[5 4]"), "Missing Comma in Cell Address at index 2");
    assert_eq!(failure("[, 4]"), "Missing First Integer in Cell Address at index 1");
    assert_eq!(failure("[5, true]"), "Missing Second Integer in Cell Address at index 3");
    assert_eq!(failure("max([1, 1],)"), "Missing open bracket for cell address at index 8");
    assert_eq!(failure("[1.5, 2]"), "Missing First Integer in Cell Address at index 1");
}

#[test]
fn parse_reads_the_text_of_a_token() {
    let tokens = vec![
        Token { token_type: TokenType::IntegerLiteral, text: "12", start: 0, end: 1 },
        Token { token_type: TokenType::Plus, text: "+", start: 3, end: 3 },
        Token { token_type: TokenType::StringLiteral, text: "12", start: 5, end: 6 },
    ];
    assert_eq!(
        parse(tokens).unwrap(),
        bin(BinaryOp::Add, whole(12), Expression::Literal(Primitive::String("12".to_string())))
    );
    let odd = vec![Token { token_type: TokenType::IntegerLiteral, text: "abc", start: 0, end: 2 }];
    assert_eq!(parse(odd).unwrap_err(), "Unexpected Token abc at index 0");
}
