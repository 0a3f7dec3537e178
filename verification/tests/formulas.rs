use expression_core::evaluate;
use expression_core::parse;
use expression_core::validate;
use expression_core::Decimal;
use expression_core::Event;
use expression_core::EventAttribute;
use expression_core::Expression;
use expression_core::ExpressionError;
use expression_core::ExpressionParser;
use expression_core::ExpressionValue;
use expression_core::Function;
use expression_core::Operation;
use expression_core::ParseError;
use expression_core::PropertyValue;

fn value_of(formula: &str, event: &Event) -> ExpressionValue {
    let tree = ExpressionParser::parse_expression(formula).expect("the formula compiles");
    tree.evaluate(event).expect("the formula evaluates")
}

fn text_of(formula: &str) -> String {
    value_of(formula, &Event::default())
        .to_string()
        .expect("the value renders")
}

fn failure_of(formula: &str, event: &Event) -> ExpressionError {
    let tree = ExpressionParser::parse_expression(formula).expect("the formula compiles");
    tree.evaluate(event).expect_err("the formula fails")
}

fn syntax_error_of(formula: &str) -> String {
    match ExpressionParser::parse_expression(formula) {
        Err(ParseError::FailedToParse(message)) => message,
        other => panic!("expected a syntax error, got {:?}", other),
    }
}

fn whole(n: i64) -> Expression {
    Expression::Decimal(Decimal::from_i64(n))
}

fn sample_event() -> Event {
    let mut event = Event::new("invoice".to_owned(), Decimal::from_i64(1700000000));
    event.set_property("amount".to_owned(), PropertyValue::from_string("123".to_owned()));
    event.set_property("label".to_owned(), PropertyValue::from_string("foo".to_owned()));
    event.set_property("units".to_owned(), PropertyValue::from_u64(7));
    event
}

#[test]
fn parsing_twice_gives_equal_trees() {
    let first = ExpressionParser::parse_expression("concat(event.code, '-', 1 + 2 * 3)").unwrap();
    let second = ExpressionParser::parse_expression("concat(event.code, '-', 1 + 2 * 3)").unwrap();
    assert_eq!(first, second);
}

#[test]
fn multiplication_binds_tighter_than_addition() {
    assert_eq!(value_of("2+3*4", &Event::default()), ExpressionValue::Number(Decimal::from_i64(14)));
    assert_eq!(text_of("2+3*4"), "14");
    assert_eq!(text_of("2*3+4"), "10");
    assert_eq!(text_of("(2+3)*4"), "20");
    assert_eq!(
        ExpressionParser::parse_expression("2+3*4").unwrap(),
        Expression::BinOp {
            lhs: Box::new(whole(2)),
            op: Operation::Add,
            rhs: Box::new(Expression::BinOp {
                lhs: Box::new(whole(3)),
                op: Operation::Multiply,
                rhs: Box::new(whole(4)),
            }),
        }
    );
}

#[test]
fn operators_associate_to_the_left() {
    assert_eq!(text_of("10-3-2"), "5");
    assert_eq!(text_of("10-(3-2)"), "9");
    assert_eq!(text_of("16/4/2"), "2");
    assert_eq!(
        ExpressionParser::parse_expression("10-3-2").unwrap(),
        Expression::BinOp {
            lhs: Box::new(Expression::BinOp {
                lhs: Box::new(whole(10)),
                op: Operation::Subtract,
                rhs: Box::new(whole(3)),
            }),
            op: Operation::Subtract,
            rhs: Box::new(whole(2)),
        }
    );
}

#[test]
fn unary_minus_binds_tightest() {
    assert_eq!(text_of("-2*3"), "-6");
    assert_eq!(text_of("2*-3"), "-6");
    assert_eq!(text_of("--2"), "2");
    assert_eq!(text_of("1 - -2"), "3");
    assert_eq!(
        ExpressionParser::parse_expression("-2*3").unwrap(),
        Expression::BinOp {
            lhs: Box::new(Expression::UnaryMinus(Box::new(whole(2)))),
            op: Operation::Multiply,
            rhs: Box::new(whole(3)),
        }
    );
}

#[test]
fn textual_property_that_reads_as_decimal_is_a_number() {
    let event = sample_event();
    assert_eq!(
        value_of("event.properties.amount", &event),
        ExpressionValue::Number(Decimal::from_i64(123))
    );
    assert_eq!(
        value_of("event.properties.label", &event),
        ExpressionValue::String("foo".to_owned())
    );
    assert_eq!(
        value_of("event.properties.units", &event),
        ExpressionValue::Number(Decimal::from_i64(7))
    );
    assert_eq!(
        value_of("event.properties.amount + event.properties.units", &event)
            .to_string()
            .unwrap(),
        "130"
    );
}

#[test]
fn event_code_and_timestamp() {
    let event = sample_event();
    assert_eq!(value_of("event.code", &event), ExpressionValue::String("invoice".to_owned()));
    assert_eq!(
        value_of("event.timestamp", &event),
        ExpressionValue::Number(Decimal::from_i64(1700000000))
    );
    assert_eq!(event.code(), "invoice");
    assert_eq!(*event.timestamp(), Decimal::from_i64(1700000000));
}

#[test]
fn rounding_in_three_directions() {
    assert_eq!(text_of("round(12.5)"), "13");
    assert_eq!(text_of("round(12.345, 2)"), "12.35");
    assert_eq!(text_of("ceil(12.3)"), "13");
    assert_eq!(text_of("ceil(12.351, 1)"), "12.4");
    assert_eq!(text_of("floor(12.351, 1)"), "12.3");
    assert_eq!(text_of("floor(12.3)"), "12");
    assert_eq!(text_of("round(12.4)"), "12");
    assert_eq!(text_of("round(12.344, 2)"), "12.34");
}

#[test]
fn rounding_negative_numbers() {
    assert_eq!(text_of("round(-12.5)"), "-13");
    assert_eq!(text_of("round(-12.4)"), "-12");
    assert_eq!(text_of("floor(-12.3)"), "-13");
    assert_eq!(text_of("ceil(-12.3)"), "-12");
    assert_eq!(text_of("ceil(-0.5)"), "0");
    assert_eq!(text_of("floor(0.5)"), "0");
    assert_eq!(text_of("floor(-0.01)"), "-1");
    assert_eq!(text_of("ceil(0.01)"), "1");
}

#[test]
fn rounding_left_of_the_point() {
    assert_eq!(text_of("round(1234, -2)"), "1200");
    assert_eq!(text_of("round(1250, -2)"), "1300");
    assert_eq!(text_of("ceil(1201, -2)"), "1300");
    assert_eq!(text_of("floor(1299, -2)"), "1200");
    assert_eq!(text_of("round(4, -1)"), "00");
    assert_eq!(text_of("round(5, -1)"), "10");
    assert_eq!(text_of("ceil(3, -3)"), "1000");
}

#[test]
fn rounding_to_more_digits_pads_with_zeros() {
    assert_eq!(text_of("round(12.5, 3)"), "12.500");
    assert_eq!(text_of("floor(7, 2)"), "7.00");
    assert_eq!(text_of("round(0, 2)"), "0.00");
}

#[test]
fn digit_count_has_to_be_an_integer() {
    let event = Event::default();
    assert!(matches!(
        failure_of("round(1.234, 1.5)", &event),
        ExpressionError::ExpectedDecimal
    ));
    assert!(matches!(
        failure_of("round(1.234, 'two')", &event),
        ExpressionError::ExpectedDecimal
    ));
    assert!(matches!(
        failure_of("round(1.234, 99999999999999999999)", &event),
        ExpressionError::ExpectedDecimal
    ));
    assert!(matches!(
        failure_of("round('text')", &event),
        ExpressionError::ExpectedDecimal
    ));
    assert_eq!(text_of("round(1.234, 2.0)"), "1.23");
    assert_eq!(text_of("round(1.234, 2.0000000000)"), "1.23");
    assert_eq!(text_of("round(1234.5, -2.000)"), "1200");
    assert!(matches!(
        failure_of("round(1, 7922816251533193472.0000000000)", &event),
        ExpressionError::ScaleOutOfRange
    ));
    assert!(matches!(
        failure_of("round(1, 7922816251533193472.0000000001)", &event),
        ExpressionError::ExpectedDecimal
    ));
    assert_eq!(text_of("round(1.234, 4 / 2)"), "1.23");
}

#[test]
fn scale_beyond_the_limit_is_refused() {
    let event = Event::default();
    assert!(matches!(
        failure_of("round(1, 3000000000)", &event),
        ExpressionError::ScaleOutOfRange
    ));
    assert!(matches!(
        failure_of("round(1, -3000000000)", &event),
        ExpressionError::ScaleOutOfRange
    ));
    match value_of("round(0, 80000000) * 1", &event) {
        ExpressionValue::Number(zero) => {
            assert!(zero.is_zero());
            assert_eq!(zero.scale(), 80000000);
        }
        other => panic!("expected a number, got {:?}", other),
    }
    match value_of("round(0, -80000000)", &event) {
        ExpressionValue::Number(zero) => assert_eq!(zero.scale(), -80000000),
        other => panic!("expected a number, got {:?}", other),
    }
    assert!(matches!(
        failure_of("round(0, 80000001)", &event),
        ExpressionError::ScaleOutOfRange
    ));
    assert!(matches!(
        failure_of("round(0, -80000001)", &event),
        ExpressionError::ScaleOutOfRange
    ));
    assert_eq!(text_of("round(12345, -1000000)").len(), 1000001);
    assert_eq!(text_of("round(1, 1000000)").len(), 1000002);
    assert!(matches!(
        failure_of("round(0, 80000000) * round(0, 80000000) + 1", &event),
        ExpressionError::ScaleOutOfRange
    ));
    let mut event = Event::default();
    event.set_property("tiny".to_owned(), PropertyValue::from_string("1e-3000000000".to_owned()));
    assert!(matches!(
        failure_of("event.properties.tiny + 1", &event),
        ExpressionError::ScaleOutOfRange
    ));
    assert!(matches!(
        failure_of("concat(event.properties.tiny)", &event),
        ExpressionError::ScaleOutOfRange
    ));
    assert!(matches!(
        failure_of("least(event.properties.tiny, 1)", &event),
        ExpressionError::ScaleOutOfRange
    ));
    assert!(matches!(
        failure_of("greatest(1, event.properties.tiny)", &event),
        ExpressionError::ScaleOutOfRange
    ));
    assert!(value_of("least(event.properties.tiny)", &event).to_string().is_err());
}

#[test]
fn concat_keeps_order_and_flattens() {
    assert_eq!(text_of("concat('test', '-', round(123))"), "test-123");
    assert_eq!(text_of("concat()"), "");
    assert_eq!(text_of("concat('a')"), "a");
    assert_eq!(text_of("concat(1.50, 'x', -2, 'y', 0.05)"), "1.50x-2y0.05");
    assert_eq!(text_of("concat(concat('a', 'b'), concat('c', 'd'))"), "abcd");
    assert_eq!(
        value_of("concat(event.code, ':', event.properties.label)", &sample_event()),
        ExpressionValue::String("invoice:foo".to_owned())
    );
}

#[test]
fn least_and_greatest() {
    assert_eq!(text_of("least(1,2)"), "1");
    assert_eq!(text_of("greatest(1,2)"), "2");
    assert_eq!(text_of("least(3, 1, 2)"), "1");
    assert_eq!(text_of("greatest(3, 1, 2, 5, 4)"), "5");
    assert_eq!(text_of("least(-1, -2.5, 0)"), "-2.5");
    assert_eq!(text_of("greatest(0.5, 0.25)"), "0.5");
    assert_eq!(text_of("least(10, 9.99)"), "9.99");
    assert_eq!(text_of("least(7)"), "7");
}

#[test]
fn least_keeps_the_first_of_equals_and_greatest_the_last() {
    assert_eq!(text_of("least(1.0, 1.00)"), "1.0");
    assert_eq!(text_of("least(1.00, 1.0)"), "1.00");
    assert_eq!(text_of("greatest(1.0, 1.00)"), "1.00");
    assert_eq!(text_of("greatest(1.00, 1.0)"), "1.0");
}

#[test]
fn least_and_greatest_of_nothing_fail() {
    let event = Event::default();
    assert!(matches!(failure_of("least()", &event), ExpressionError::ExpectedDecimal));
    assert!(matches!(
        failure_of("greatest()", &event),
        ExpressionError::ExpectedDecimal
    ));
    assert!(matches!(
        failure_of("least(1, 'a')", &event),
        ExpressionError::ExpectedDecimal
    ));
}

#[test]
fn missing_property_names_the_property() {
    let event = sample_event();
    match failure_of("event.properties.absent", &event) {
        ExpressionError::MissingVariable(name) => assert_eq!(name, "absent"),
        other => panic!("expected a missing variable, got {:?}", other),
    }
    assert_eq!(
        failure_of("1 + event.properties.absent", &event).message(),
        "Variable: absent not found"
    );
}

#[test]
fn text_operand_is_no_decimal() {
    let event = sample_event();
    assert!(matches!(failure_of("'a' + 1", &event), ExpressionError::ExpectedDecimal));
    assert!(matches!(failure_of("1 * 'a'", &event), ExpressionError::ExpectedDecimal));
    assert!(matches!(
        failure_of("event.properties.label - 1", &event),
        ExpressionError::ExpectedDecimal
    ));
    assert!(matches!(failure_of("-'a'", &event), ExpressionError::ExpectedDecimal));
    assert!(matches!(failure_of("-event.code", &event), ExpressionError::ExpectedDecimal));
    assert_eq!(failure_of("'a' / 0", &event).message(), "Expected a decimal");
}

#[test]
fn text_that_reads_as_a_decimal_is_a_number() {
    let mut event = Event::new("12".to_owned(), Decimal::from_i64(0));
    event.set_property("label".to_owned(), PropertyValue::from_string("foo".to_owned()));
    assert_eq!(value_of("'12' + 1", &event), ExpressionValue::Number(Decimal::from_i64(13)));
    assert_eq!(text_of("'12' + 1"), "13");
    assert_eq!(text_of("1.5 * '2'"), "3.0");
    assert_eq!(text_of("-'3'"), "-3");
    assert_eq!(text_of("'-3' - '1e1'"), "-13");
    assert_eq!(text_of("concat(1, 2) * 2"), "24");
    assert_eq!(text_of("round('2.5')"), "3");
    assert_eq!(text_of("round('2.345', '2')"), "2.35");
    assert_eq!(text_of("least('2', 1)"), "1");
    assert_eq!(text_of("greatest('2', 1)"), "2");
    assert_eq!(value_of("event.code * 2", &event), ExpressionValue::Number(Decimal::from_i64(24)));
    assert_eq!(value_of("'12'", &event), ExpressionValue::String("12".to_owned()));
    assert_eq!(value_of("event.code", &event), ExpressionValue::String("12".to_owned()));
    assert!(matches!(
        failure_of("event.properties.label + 1", &event),
        ExpressionError::ExpectedDecimal
    ));
    assert!(matches!(failure_of("'' + 1", &event), ExpressionError::ExpectedDecimal));
    assert!(matches!(failure_of("'1 2' + 1", &event), ExpressionError::ExpectedDecimal));
    assert!(matches!(failure_of("'+-.e' + 1", &event), ExpressionError::ExpectedDecimal));
}

#[test]
fn a_number_that_is_no_decimal_fails_as_such() {
    match ExpressionParser::parse_expression("1.1.1") {
        Err(ParseError::FailedToParseBigDecimal(written)) => assert_eq!(written, "1.1.1"),
        other => panic!("expected a decimal failure, got {:?}", other),
    }
    match ExpressionParser::parse_expression("2 + round(1., 2)") {
        Err(ParseError::FailedToParseBigDecimal(written)) => assert_eq!(written, "1."),
        other => panic!("expected a decimal failure, got {:?}", other),
    }
    match ExpressionParser::parse_expression("(7..5)") {
        Err(ParseError::FailedToParseBigDecimal(written)) => assert_eq!(written, "7..5"),
        other => panic!("expected a decimal failure, got {:?}", other),
    }
    assert!(matches!(
        ExpressionParser::parse_expression("1.1.1 + round(1, 2, 3)"),
        Err(ParseError::FailedToParseBigDecimal(_))
    ));
    assert!(matches!(
        ExpressionParser::parse_expression("round(1, 2, 3) + 1.1.1"),
        Err(ParseError::WrongNumberOfArguments(_, _, 3))
    ));
    assert!(matches!(
        ExpressionParser::parse_expression("round(1.1.1, 2, 3)"),
        Err(ParseError::WrongNumberOfArguments(_, _, 3))
    ));
    assert!(matches!(
        ExpressionParser::parse_expression("1.1.1 +"),
        Err(ParseError::FailedToParse(_))
    ));
    assert_eq!(
        validate("0.1.2".to_owned()),
        Some("bigdecimal parsing error: 0.1.2".to_owned())
    );
    assert_eq!(text_of("1.10"), "1.10");
    assert_eq!(text_of("0.5"), "0.5");
}

#[test]
fn the_first_failure_from_the_left_is_returned() {
    let event = sample_event();
    assert!(matches!(
        failure_of("'a' + event.properties.absent", &event),
        ExpressionError::ExpectedDecimal
    ));
    assert!(matches!(
        failure_of("event.properties.absent + 'a'", &event),
        ExpressionError::MissingVariable(_)
    ));
    assert!(matches!(
        failure_of("concat('x', event.properties.absent, 1 / 0)", &event),
        ExpressionError::MissingVariable(_)
    ));
    assert!(matches!(
        failure_of("round(1 / 0, event.properties.absent)", &event),
        ExpressionError::DivisionByZero
    ));
}

#[test]
fn division_by_zero_is_an_error() {
    let event = Event::default();
    assert!(matches!(failure_of("1/0", &event), ExpressionError::DivisionByZero));
    assert!(matches!(failure_of("1/0.000", &event), ExpressionError::DivisionByZero));
    assert!(matches!(failure_of("0/(1-1)", &event), ExpressionError::DivisionByZero));
    assert_eq!(failure_of("1/0", &event).message(), "Division by zero");
    assert_eq!(text_of("0/5"), "0");
}

#[test]
fn exact_arithmetic() {
    assert_eq!(text_of("1.5 + 2.25"), "3.75");
    assert_eq!(text_of("0.1 + 0.2"), "0.3");
    assert_eq!(text_of("1 + 0.00"), "1.00");
    assert_eq!(text_of("0.00 + 1"), "1.00");
    assert_eq!(text_of("1.5 - 0.25"), "1.25");
    assert_eq!(text_of("0 - 1.50"), "-1.50");
    assert_eq!(text_of("1.5 - 0.00"), "1.5");
    assert_eq!(text_of("1 - 1.0"), "0.0");
    assert_eq!(text_of("0.00000 - 3"), "-3");
    assert_eq!(text_of("3 - 0.00000"), "3");
    assert_eq!(text_of("0.00 - 0.0"), "0.00");
    assert_eq!(text_of("3 + 0.00000"), "3.00000");
    assert_eq!(text_of("0.0 + 0.000"), "0.000");
    assert_eq!(text_of("1.0000000000000000000000000000000000000 * 2.5"), "2.5");
    assert_eq!(text_of("1.00000000000000000000000000000000000000 * 2.5"), "2.5");
    assert_eq!(text_of("2.5 * 1.00000000000000000000000000000000000000"), "2.5");
    assert_eq!(text_of("1.000000000000000000000000000000000000000 * 2.5"), "2.5000000000000000000000000000000000000000");
    assert_eq!(text_of("2.5 * 1.000000000000000000000000000000000000000"), "2.5000000000000000000000000000000000000000");
    assert_eq!(text_of("10 * 1"), "10");
    assert_eq!(text_of("1 * 1.0"), "1.0");
    assert_eq!(text_of("-1.0 * 2"), "-2.0");
    assert_eq!(text_of("1.5 * 2"), "3.0");
    assert_eq!(text_of("2.0 * 3.0"), "6.00");
    assert_eq!(text_of("1.00 * 2.5"), "2.5");
    assert_eq!(text_of("2.5 * 1.0"), "2.5");
    assert_eq!(text_of("0 * 2.50"), "0.00");
    assert_eq!(text_of("1 / 4"), "0.25");
    assert_eq!(text_of("1 / 2"), "0.5");
    assert_eq!(text_of("3 / 0.6"), "5");
    assert_eq!(text_of("0.03 / 6"), "0.005");
    assert_eq!(text_of("-1 / 20"), "-0.05");
    assert_eq!(text_of("1.50 / -0.5"), "-3.0");
    assert_eq!(text_of("0.00 / 5"), "0.00");
    assert_eq!(text_of("2.50 / 1.0"), "2.50");
    assert_eq!(text_of("2.5 / 2.5"), "1");
    assert_eq!(text_of("2.50 / 2.5"), "1.0");
    assert_eq!(text_of("0.25 / 25"), "0.01");
    assert_eq!(text_of("4 / 2"), "2");
    assert_eq!(text_of("3 / 3"), "1");
    assert_eq!(text_of("-7.5 / 2.5"), "-3");
    assert_eq!(text_of("-(1.25)"), "-1.25");
    assert_eq!(text_of("-0"), "0");
    assert_eq!(
        text_of("123456789012345678901234567890 * 1000000000000"),
        "123456789012345678901234567890000000000000"
    );
    assert_eq!(
        text_of("99999999999999999999.99999999999999999999 + 0.00000000000000000001"),
        "100000000000000000000.00000000000000000000"
    );
}

#[test]
fn division_keeps_a_hundred_digits() {
    let third = text_of("1 / 3");
    assert!(third.starts_with("0.3333333333"));
    assert_eq!(third.len(), 102);
    assert_eq!(text_of("round(2 / 3, 4)"), "0.6667");
}

#[test]
fn plain_notation() {
    assert_eq!(text_of("0.05"), "0.05");
    assert_eq!(text_of("-0.5"), "-0.5");
    assert_eq!(text_of("007"), "7");
    assert_eq!(text_of("0.000"), "0.000");
    assert_eq!(text_of("10.0"), "10.0");
    assert_eq!(text_of("round(0, -2)"), "000");
    assert_eq!(text_of("'as it is'"), "as it is");
    let mut event = Event::default();
    event.set_property("big".to_owned(), PropertyValue::from_string("1.5e3".to_owned()));
    event.set_property("small".to_owned(), PropertyValue::from_string("-25e-4".to_owned()));
    assert_eq!(value_of("event.properties.big", &event).to_string().unwrap(), "1500");
    assert_eq!(value_of("event.properties.small", &event).to_string().unwrap(), "-0.0025");
}

#[test]
fn wrong_argument_count_names_the_function() {
    match ExpressionParser::parse_expression("round(1,2,3)") {
        Err(ParseError::WrongNumberOfArguments(name, expected, provided)) => {
            assert_eq!(name, "round");
            assert_eq!(expected, "1..2");
            assert_eq!(provided, 3);
        }
        other => panic!("expected a wrong argument count, got {:?}", other),
    }
    match ExpressionParser::parse_expression("1 + CEIL()") {
        Err(ParseError::WrongNumberOfArguments(name, expected, provided)) => {
            assert_eq!(name, "ceil");
            assert_eq!(expected, "1..2");
            assert_eq!(provided, 0);
        }
        other => panic!("expected a wrong argument count, got {:?}", other),
    }
    match ExpressionParser::parse_expression("floor(1, 2, 3, 4)") {
        Err(ParseError::WrongNumberOfArguments(name, _, provided)) => {
            assert_eq!(name, "floor");
            assert_eq!(provided, 4);
        }
        other => panic!("expected a wrong argument count, got {:?}", other),
    }
    assert_eq!(
        ExpressionParser::parse_expression("round(1,2,3)").unwrap_err().message(),
        "Wrong number of arguments to function round, expected: 1..2, provided: 3"
    );
    assert_eq!(
        ExpressionParser::parse_expression("concat(1,2,3,4,5,6,7,8,9,10,round(1,2,3,4,5,6,7,8,9,10,11,12))")
            .unwrap_err()
            .message(),
        "Wrong number of arguments to function round, expected: 1..2, provided: 12"
    );
}

#[test]
fn wrong_argument_count_comes_before_what_the_arguments_hold() {
    assert!(matches!(
        ExpressionParser::parse_expression("round(ceil(), 1, 2)"),
        Err(ParseError::WrongNumberOfArguments(_, _, 3))
    ));
    assert!(matches!(
        ExpressionParser::parse_expression("round(ceil(), 1)"),
        Err(ParseError::WrongNumberOfArguments(_, _, 0))
    ));
    assert!(matches!(
        ExpressionParser::parse_expression("floor(1, 2, 3) + ceil()"),
        Err(ParseError::WrongNumberOfArguments(_, _, 3))
    ));
    assert!(matches!(
        ExpressionParser::parse_expression("concat(1, (ceil()), round(1, 2, 3))"),
        Err(ParseError::WrongNumberOfArguments(_, _, 0))
    ));
}

#[test]
fn a_text_that_is_no_formula_fails_as_such() {
    assert!(matches!(
        ExpressionParser::parse_expression("round(1,2,3) +"),
        Err(ParseError::FailedToParse(_))
    ));
    assert_eq!(syntax_error_of(""), "Syntax error at position 0");
    assert_eq!(syntax_error_of("   "), "Syntax error at position 3");
    assert_eq!(syntax_error_of("(1"), "Syntax error at position 2");
    assert_eq!(syntax_error_of("1 +"), "Syntax error at position 3");
    assert_eq!(syntax_error_of("1 2"), "Syntax error at position 2");
    assert_eq!(syntax_error_of("1.1.1 +"), "Syntax error at position 7");
    assert_eq!(syntax_error_of("1. 5"), "Syntax error at position 3");
    assert_eq!(syntax_error_of(".5"), "Syntax error at position 0");
    assert_eq!(syntax_error_of("'open"), "Syntax error at position 5");
    assert_eq!(syntax_error_of("event.name"), "Syntax error at position 6");
    assert_eq!(syntax_error_of("event.properties."), "Syntax error at position 17");
    assert_eq!(syntax_error_of("event.properties.a-b.c"), "Syntax error at position 19");
    assert_eq!(syntax_error_of("event.properties.a-1.c"), "Syntax error at position 21");
    assert_eq!(syntax_error_of("Event.code"), "Syntax error at position 0");
    assert_eq!(syntax_error_of("sum(1)"), "Syntax error at position 0");
    assert_eq!(syntax_error_of("round 1"), "Syntax error at position 6");
    assert_eq!(syntax_error_of("rounded(1)"), "Syntax error at position 5");
    assert_eq!(syntax_error_of("concat(1,)"), "Syntax error at position 9");
    assert_eq!(syntax_error_of("concat(,1)"), "Syntax error at position 7");
    assert_eq!(syntax_error_of("concat(1 2)"), "Syntax error at position 9");
    assert_eq!(syntax_error_of("concat(1"), "Syntax error at position 8");
    assert_eq!(syntax_error_of("1)"), "Syntax error at position 1");
    assert_eq!(syntax_error_of("1 + * 2"), "Syntax error at position 4");
    assert_eq!(syntax_error_of("1\t+ 2"), "Syntax error at position 1");
    assert_eq!(syntax_error_of("\u{e9}"), "Syntax error at position 0");
    assert_eq!(syntax_error_of("'\u{e9}\u{e9}' \u{e9}"), "Syntax error at position 5");
}

#[test]
fn blanks_between_pieces() {
    assert_eq!(text_of("  1   +  2 "), "3");
    assert_eq!(text_of("( 1 + 2 ) * 3"), "9");
    assert_eq!(text_of("round ( 1.26 , 1 )"), "1.3");
    assert_eq!(text_of("concat( )"), "");
    assert_eq!(text_of("concat(' a ',' b ')"), " a  b ");
    assert_eq!(text_of("- - 1"), "1");
    assert_eq!(text_of("((((4))))"), "4");
}

#[test]
fn function_names_in_any_case() {
    assert_eq!(text_of("ROUND(1.5)"), "2");
    assert_eq!(text_of("rOuNd(1.5)"), "2");
    assert_eq!(text_of("Ceil(1.1)"), "2");
    assert_eq!(text_of("FLOOR(1.9)"), "1");
    assert_eq!(text_of("Least(2, 1)"), "1");
    assert_eq!(text_of("greaTest(2, 1)"), "2");
    assert_eq!(text_of("CONCAT('a', 'b')"), "ab");
}

#[test]
fn strings_are_taken_as_written() {
    assert_eq!(
        ExpressionParser::parse_expression("'1 + (2'").unwrap(),
        Expression::String("1 + (2".to_owned())
    );
    assert_eq!(
        ExpressionParser::parse_expression("''").unwrap(),
        Expression::String(String::new())
    );
    assert_eq!(
        ExpressionParser::parse_expression("'\u{e9}t\u{e9}'").unwrap(),
        Expression::String("\u{e9}t\u{e9}".to_owned())
    );
    assert_eq!(text_of("concat('\u{4e16}\u{754c}', '!')"), "\u{4e16}\u{754c}!");
}

#[test]
fn property_names() {
    assert_eq!(
        ExpressionParser::parse_expression("event.properties.my_value_2").unwrap(),
        Expression::EventAttribute(EventAttribute::Properties("my_value_2".to_owned()))
    );
    assert_eq!(
        ExpressionParser::parse_expression("event.properties.a+event.properties.b").unwrap(),
        Expression::BinOp {
            lhs: Box::new(Expression::EventAttribute(EventAttribute::Properties("a".to_owned()))),
            op: Operation::Add,
            rhs: Box::new(Expression::EventAttribute(EventAttribute::Properties("b".to_owned()))),
        }
    );
    assert_eq!(
        ExpressionParser::parse_expression("event.code").unwrap(),
        Expression::EventAttribute(EventAttribute::Code)
    );
}

#[test]
fn nested_calls_and_groups() {
    assert_eq!(
        ExpressionParser::parse_expression("least(round(1.5), (2), -3)").unwrap(),
        Expression::Function(Function::Least(vec![
            Expression::Function(Function::Round(
                Box::new(Expression::Decimal(Decimal::parse("1.5").unwrap())),
                None
            )),
            whole(2),
            Expression::UnaryMinus(Box::new(whole(3))),
        ]))
    );
    assert_eq!(text_of("greatest(round(1.5), (2 + 3) * 2, -3)"), "10");
}

#[test]
fn validate_says_what_is_wrong() {
    assert_eq!(validate("1 + 2".to_owned()), None);
    assert_eq!(
        validate("1 +".to_owned()),
        Some("Syntax error at position 3".to_owned())
    );
    assert_eq!(
        validate("ceil(1, 2, 3)".to_owned()),
        Some("Wrong number of arguments to function ceil, expected: 1..2, provided: 3".to_owned())
    );
}

#[test]
fn parse_gives_no_tree_for_what_is_no_formula() {
    assert_eq!(parse("1".to_owned()), Some(whole(1)));
    assert_eq!(parse("1 1".to_owned()), None);
    assert_eq!(parse("round()".to_owned()), None);
}

#[test]
fn evaluate_renders_the_result() {
    let event = sample_event();
    assert_eq!(evaluate("2+3*4", &event), Some("14".to_owned()));
    assert_eq!(
        evaluate("concat(event.code, '-', event.properties.amount / 2)", &event),
        Some("invoice-61.5".to_owned())
    );
    assert_eq!(evaluate("2+", &event), None);
    assert_eq!(evaluate("event.properties.absent", &event), None);
    assert_eq!(evaluate("1/0", &event), None);
}
