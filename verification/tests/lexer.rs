use spreadterm::lexer::{lex, Token, TokenType};

fn kinds(text: &str) -> Vec<TokenType> {
    lex(text).unwrap().iter().map(|t| t.token_type).collect()
}

fn texts(text: &str) -> Vec<String> {
    lex(text).unwrap().iter().map(|t| t.text.to_string()).collect()
}

#[test]
fn integer_literal_is_one_token() {
    let tokens = lex("12345").unwrap();
    assert_eq!(tokens.len(), 1);
    assert_eq!(tokens[0].token_type, TokenType::IntegerLiteral);
    assert_eq!(tokens[0].text, "12345");
    assert_eq!(tokens[0].start, 0);
    assert_eq!(tokens[0].end, 4);
    assert_eq!(tokens[0].text.parse::<i32>().unwrap(), 12345);
}

#[test]
fn negative_integer_literal_is_one_token() {
    let tokens = lex("-42").unwrap();
    assert_eq!(tokens, vec![Token { token_type: TokenType::IntegerLiteral, text: "-42", start: 0, end: 2 }]);
    assert_eq!(tokens[0].text.parse::<i32>().unwrap(), -42);
}

#[test]
fn integer_literal_round_trip_on_many_numbers() {
    for n in [0i64, 7, 10, 99, 100, 2147483647, -1, -2147483648, 99999999999] {
        let text = n.to_string();
        let tokens = lex(&text).unwrap();
        assert_eq!(tokens.len(), 1);
        assert_eq!(tokens[0].token_type, TokenType::IntegerLiteral);
        assert_eq!(tokens[0].text.parse::<i64>().unwrap(), n);
    }
}

#[test]
fn empty_text_has_no_tokens() {
    assert_eq!(lex("").unwrap(), vec![]);
    assert_eq!(lex(" \t\r\n").unwrap(), vec![]);
}

#[test]
fn two_character_operators_win_over_one() {
    assert_eq!(
        kinds("|| && << >> <= >= == != **"),
        vec![
            TokenType::LogicalOr,
            TokenType::LogicalAnd,
            TokenType::LeftShift,
            TokenType::RightShift,
            TokenType::LessThanOrEqual,
            TokenType::GreaterThanOrEqual,
            TokenType::DoubleEquals,
            TokenType::NotEquals,
            TokenType::Power,
        ]
    );
}

#[test]
fn one_character_operators_and_punctuation() {
    assert_eq!(
        kinds("| & < > ^ , ( ) { } [ ] + - * / % ! ~ ="),
        vec![
            TokenType::BitwiseOr,
            TokenType::BitwiseAnd,
            TokenType::LessThan,
            TokenType::GreaterThan,
            TokenType::BitwiseXor,
            TokenType::Comma,
            TokenType::OpenParenthesis,
            TokenType::CloseParenthesis,
            TokenType::OpenCurlyBracket,
            TokenType::CloseCurlyBracket,
            TokenType::OpenBracket,
            TokenType::CloseBracket,
            TokenType::Plus,
            TokenType::Minus,
            TokenType::Multiply,
            TokenType::Divide,
            TokenType::Modulus,
            TokenType::LogicalNot,
            TokenType::BitwiseNot,
            TokenType::Assign,
        ]
    );
}

#[test]
fn three_stars_are_power_then_multiply() {
    assert_eq!(kinds("***"), vec![TokenType::Power, TokenType::Multiply]);
    assert_eq!(kinds("<<="), vec![TokenType::LeftShift, TokenType::Assign]);
    assert_eq!(kinds("==="), vec![TokenType::DoubleEquals, TokenType::Assign]);
}

#[test]
fn keywords_are_recognised() {
    assert_eq!(
        kinds("float int max mean min sum true false"),
        vec![
            TokenType::FloatCast,
            TokenType::IntegerCast,
            TokenType::Max,
            TokenType::Mean,
            TokenType::Min,
            TokenType::Sum,
            TokenType::True,
            TokenType::False,
        ]
    );
}

#[test]
fn keyword_is_matched_without_a_word_boundary() {
    assert_eq!(kinds("intint"), vec![TokenType::IntegerCast, TokenType::IntegerCast]);
    assert_eq!(kinds("truefalse"), vec![TokenType::True, TokenType::False]);
    assert_eq!(
        lex("floating").unwrap_err(),
        "Unexpected character 'i' at index 5"
    );
}

#[test]
fn minus_before_a_digit_belongs_to_the_literal() {
    assert_eq!(
        kinds("3 - 2"),
        vec![TokenType::IntegerLiteral, TokenType::Minus, TokenType::IntegerLiteral]
    );
    assert_eq!(texts("3 - 2"), vec!["3", "-", "2"]);
    assert_eq!(kinds("-3"), vec![TokenType::IntegerLiteral]);
    assert_eq!(kinds("3-2"), vec![TokenType::IntegerLiteral, TokenType::IntegerLiteral]);
    assert_eq!(texts("3-2"), vec!["3", "-2"]);
    assert_eq!(kinds("- 3"), vec![TokenType::Minus, TokenType::IntegerLiteral]);
    assert_eq!(kinds("-("), vec![TokenType::Minus, TokenType::OpenParenthesis]);
}

#[test]
fn float_literals() {
    assert_eq!(kinds("3.14"), vec![TokenType::FloatLiteral]);
    assert_eq!(texts("3.14"), vec!["3.14"]);
    assert_eq!(kinds("-0.5"), vec![TokenType::FloatLiteral]);
    assert_eq!(texts("7."), vec!["7."]);
    assert_eq!(kinds("7."), vec![TokenType::FloatLiteral]);
    assert_eq!(lex("1.5.2").unwrap_err(), "Unexpected character '.' at index 3");
    assert_eq!(lex(".5").unwrap_err(), "Unexpected character '.' at index 0");
}

#[test]
fn string_literal_holds_what_stands_between_the_quotes() {
    let tokens = lex("\"hello\"").unwrap();
    assert_eq!(
        tokens,
        vec![Token { token_type: TokenType::StringLiteral, text: "hello", start: 1, end: 5 }]
    );
}

#[test]
fn empty_string_literal() {
    let tokens = lex("\"\"").unwrap();
    assert_eq!(
        tokens,
        vec![Token { token_type: TokenType::StringLiteral, text: "", start: 1, end: 0 }]
    );
}

#[test]
fn string_literal_keeps_its_escapes() {
    let tokens = lex(r#""a\"b\\" 1"#).unwrap();
    assert_eq!(tokens.len(), 2);
    assert_eq!(tokens[0].text, r#"a\"b\\"#);
    assert_eq!(tokens[0].start, 1);
    assert_eq!(tokens[0].end, 6);
    assert_eq!(tokens[1].text, "1");
    assert_eq!(tokens[1].start, 9);
}

#[test]
fn string_literal_may_hold_any_character() {
    let tokens = lex("\"h\u{e9}llo \u{1F600}\" + 1").unwrap();
    assert_eq!(tokens.len(), 3);
    assert_eq!(tokens[0].text, "h\u{e9}llo \u{1F600}");
    assert_eq!(tokens[0].start, 1);
    assert_eq!(tokens[0].end, 11);
    assert_eq!(tokens[1].token_type, TokenType::Plus);
    assert_eq!(tokens[1].start, 14);
    assert_eq!(tokens[2].start, 16);
    assert_eq!(tokens[2].end, 16);
}

#[test]
fn unclosed_string_literal() {
    assert_eq!(
        lex("1 + \"abc").unwrap_err(),
        "Unclosed string literal starting at index 4: \"abc"
    );
    assert_eq!(lex("\"").unwrap_err(), "Unclosed string literal starting at index 0: \"");
    assert_eq!(
        lex("\"a\\\"").unwrap_err(),
        "Unclosed string literal starting at index 0: \"a\\\""
    );
}

#[test]
fn unexpected_character() {
    assert_eq!(lex("2 $ 3").unwrap_err(), "Unexpected character '$' at index 2");
    assert_eq!(
        lex("this is not a (spreadterm) string, it is not in quotes").unwrap_err(),
        "Unexpected character 't' at index 0"
    );
    assert_eq!(lex("\"\u{e9}\" \u{e9}").unwrap_err(), "Unexpected character '\u{e9}' at index 5");
}

#[test]
fn offsets_are_first_and_last_byte() {
    let tokens = lex("  12 <= [3,40]").unwrap();
    let spans: Vec<(usize, usize)> = tokens.iter().map(|t| (t.start, t.end)).collect();
    assert_eq!(spans, vec![(2, 3), (5, 6), (8, 8), (9, 9), (10, 10), (11, 12), (13, 13)]);
}
