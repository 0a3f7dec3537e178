use expression_core::grammar::classify;
use expression_core::parser::parse_expr;
use expression_core::parser::parse_function;
use expression_core::parser::parse_function_with_args;
use expression_core::syntax::FunctionName;
use expression_core::syntax::Pair;
use expression_core::Decimal;
use expression_core::Event;
use expression_core::EventAttribute;
use expression_core::Expression;
use expression_core::ExpressionError;
use expression_core::ExpressionValue;
use expression_core::Function;
use expression_core::Operation;
use expression_core::ParseError;
use expression_core::PropertyValue;

fn digits(text: &str) -> Pair {
    Pair::Decimal(text.to_owned())
}

#[test]
fn classify_gives_a_flat_run() {
    assert_eq!(
        classify("1 + -2.50 * event.code").unwrap(),
        vec![
            digits("1"),
            Pair::Add,
            Pair::UnaryMinus,
            digits("2.50"),
            Pair::Multiply,
            Pair::Variable(EventAttribute::Code),
        ]
    );
    assert_eq!(
        classify("Round((1 - 2) / 3, 'x')").unwrap(),
        vec![Pair::Function(
            FunctionName::Round,
            vec![
                vec![
                    Pair::Expr(vec![digits("1"), Pair::Subtract, digits("2")]),
                    Pair::Divide,
                    digits("3"),
                ],
                vec![Pair::String("x".to_owned())],
            ]
        )]
    );
    assert_eq!(
        classify("event.timestamp-event.properties.x").unwrap(),
        vec![
            Pair::Variable(EventAttribute::Timestamp),
            Pair::Subtract,
            Pair::Variable(EventAttribute::Properties("x".to_owned())),
        ]
    );
    assert_eq!(classify("1 +"), Err(3));
    assert_eq!(classify("1.1.1"), Ok(vec![digits("1.1.1")]));
    assert_eq!(classify("1..+2."), Ok(vec![digits("1.."), Pair::Add, digits("2.")]));
    assert_eq!(classify(".5"), Err(0));
}

#[test]
fn parse_expr_applies_precedence() {
    let run = vec![
        digits("1"),
        Pair::Subtract,
        digits("2"),
        Pair::Divide,
        digits("4"),
        Pair::Add,
        Pair::UnaryMinus,
        digits("3"),
    ];
    assert_eq!(
        parse_expr(&run).unwrap(),
        Expression::BinOp {
            lhs: Box::new(Expression::BinOp {
                lhs: Box::new(Expression::Decimal(Decimal::from_i64(1))),
                op: Operation::Subtract,
                rhs: Box::new(Expression::BinOp {
                    lhs: Box::new(Expression::Decimal(Decimal::from_i64(2))),
                    op: Operation::Divide,
                    rhs: Box::new(Expression::Decimal(Decimal::from_i64(4))),
                }),
            }),
            op: Operation::Add,
            rhs: Box::new(Expression::UnaryMinus(Box::new(Expression::Decimal(
                Decimal::from_i64(3)
            )))),
        }
    );
}

#[test]
fn a_decimal_pair_that_is_no_decimal_fails() {
    let run = vec![digits("1"), Pair::Add, digits("1.1.1")];
    match parse_expr(&run) {
        Err(ParseError::FailedToParseBigDecimal(literal)) => assert_eq!(literal, "1.1.1"),
        other => panic!("expected a decimal failure, got {:?}", other),
    }
    assert_eq!(
        parse_expr(&run).unwrap_err().message(),
        "bigdecimal parsing error: 1.1.1"
    );
    for written in ["1.", "1e3", "-1", "+1", "1_0", " 1", ""] {
        assert!(matches!(
            parse_expr(&vec![digits(written)]),
            Err(ParseError::FailedToParseBigDecimal(_))
        ));
    }
    let nested = vec![Pair::Expr(vec![digits("abc")]), Pair::Add, digits("x")];
    match parse_expr(&nested) {
        Err(ParseError::FailedToParseBigDecimal(literal)) => assert_eq!(literal, "abc"),
        other => panic!("expected a decimal failure, got {:?}", other),
    }
}

#[test]
fn parse_function_by_name() {
    let args = vec![vec![digits("1")], vec![digits("2")]];
    assert_eq!(
        parse_function(FunctionName::Concat, &args).unwrap(),
        Function::Concat(vec![
            Expression::Decimal(Decimal::from_i64(1)),
            Expression::Decimal(Decimal::from_i64(2)),
        ])
    );
    assert_eq!(
        parse_function(FunctionName::Greatest, &args).unwrap(),
        Function::Greatest(vec![
            Expression::Decimal(Decimal::from_i64(1)),
            Expression::Decimal(Decimal::from_i64(2)),
        ])
    );
    assert_eq!(
        parse_function(FunctionName::Floor, &args).unwrap(),
        Function::Floor(
            Box::new(Expression::Decimal(Decimal::from_i64(1))),
            Some(Box::new(Expression::Decimal(Decimal::from_i64(2)))),
        )
    );
    assert_eq!(
        parse_function_with_args(FunctionName::Ceil, &vec![vec![digits("7")]]).unwrap(),
        Function::Ceil(Box::new(Expression::Decimal(Decimal::from_i64(7))), None)
    );
    assert!(matches!(
        parse_function_with_args(FunctionName::Round, &Vec::new()),
        Err(ParseError::WrongNumberOfArguments(_, _, 0))
    ));
}

#[test]
fn decimals_compare_by_value() {
    assert_eq!(Decimal::parse("1.0").unwrap(), Decimal::from_i64(1));
    assert_eq!(Decimal::parse("1.50").unwrap(), Decimal::parse("1.5").unwrap());
    assert_eq!(Decimal::parse("0.000").unwrap(), Decimal::from_u64(0));
    assert_ne!(Decimal::parse("1.01").unwrap(), Decimal::from_i64(1));
    assert_ne!(Decimal::from_i64(-1), Decimal::from_i64(1));
    assert_eq!(Decimal::from_u64(18446744073709551615), Decimal::parse("18446744073709551615").unwrap());
    assert_eq!(Decimal::from_i64(-9223372036854775808), Decimal::parse("-9223372036854775808").unwrap());
    assert_eq!(Decimal::parse("12e2").unwrap(), Decimal::from_i64(1200));
    assert_ne!(
        Decimal::parse("1e9000000000000000000").unwrap(),
        Decimal::parse("1e-9000000000000000000").unwrap()
    );
}

#[test]
fn decimals_of_many_digits_compare_by_value() {
    let written = Decimal::parse("7922816251533193472").unwrap();
    let padded = Decimal::parse("7922816251533193472.0000000000").unwrap();
    assert_eq!(written, padded);
    assert_eq!(padded, written);
    assert_eq!(padded, Decimal::from_i64(7922816251533193472));
    assert_ne!(padded, Decimal::from_i64(7922816251533193471));
    assert_ne!(padded, Decimal::parse("7922816251533193472.0000000001").unwrap());
    assert_eq!(
        Decimal::parse("340282366920938463463374607431768211456").unwrap(),
        Decimal::parse("340282366920938463463374607431768211456.000").unwrap()
    );
    assert_eq!(
        Decimal::parse("-18446744073709551616.0").unwrap(),
        Decimal::parse("-18446744073709551616.00000000000000000000").unwrap()
    );
    assert_ne!(
        Decimal::parse("18446744073709551616.0").unwrap(),
        Decimal::parse("-18446744073709551616.00").unwrap()
    );
}

#[test]
fn decimals_beyond_the_range_compare_as_written() {
    let far = Decimal::parse("0e9000000000000000000").unwrap();
    let near = Decimal::parse("0e-9000000000000000000").unwrap();
    assert_ne!(far, near);
    assert_eq!(far, Decimal::parse("0e9000000000000000000").unwrap());
    assert_eq!(
        Decimal::parse("15e-90000000").unwrap(),
        Decimal::parse("15e-90000000").unwrap()
    );
    assert_ne!(
        Decimal::parse("15e-90000000").unwrap(),
        Decimal::parse("16e-90000000").unwrap()
    );
    assert_ne!(Decimal::parse("0e-90000000").unwrap(), Decimal::from_i64(0));
}

#[test]
fn decimals_from_text() {
    assert!(Decimal::parse("12.5").is_some());
    assert!(Decimal::parse("-12.5").is_some());
    assert!(Decimal::parse("foo").is_none());
    assert!(Decimal::parse("").is_none());
    assert!(Decimal::parse("1.1.1").is_none());
    assert_eq!(Decimal::parse("12.50").unwrap().scale(), 2);
    assert_eq!(Decimal::parse("12").unwrap().scale(), 0);
    assert_eq!(Decimal::parse("0012.5").unwrap().to_plain_string(), "12.5");
    assert_eq!(Decimal::parse("12.50").unwrap().to_plain_string(), "12.50");
    assert_eq!(Decimal::from_i64(-42).to_plain_string(), "-42");
    assert_eq!(Decimal::from_u64(42).to_plain_string(), "42");
    assert_eq!(Decimal::from_i64(-42).clone().to_plain_string(), "-42");
    assert!(Decimal::from_i64(0).is_zero());
    assert!(Decimal::parse("0.00").unwrap().is_zero());
    assert!(!Decimal::parse("0.01").unwrap().is_zero());
    assert!(Decimal::from_i64(5).in_range());
    assert!(!Decimal::parse("1e-3000000000").unwrap().in_range());
    assert!(!Decimal::parse("1e3000000000").unwrap().in_range());
}

#[test]
fn decimals_from_bytes() {
    assert_eq!(Decimal::from_signed_bytes(vec![1, 0], 1).to_plain_string(), "25.6");
    assert_eq!(Decimal::from_signed_bytes(vec![255], 0).to_plain_string(), "-1");
    assert_eq!(Decimal::from_signed_bytes(vec![0, 255], 2).to_plain_string(), "2.55");
    assert_eq!(Decimal::from_signed_bytes(vec![128, 0], 0).to_plain_string(), "-32768");
    assert_eq!(Decimal::from_signed_bytes(Vec::new(), 3).to_plain_string(), "0.000");
    assert_eq!(Decimal::from_signed_bytes(vec![251, 155], 0), Decimal::from_i64(-1125));
    assert_eq!(*Decimal::from_i64(-1125).signed_bytes(), vec![251, 155]);
    assert_eq!(*Decimal::parse("2.56").unwrap().signed_bytes(), vec![1, 0]);
    assert_eq!(Decimal::parse("2.56").unwrap().scale(), 2);
}

#[test]
fn values_to_decimal_and_text() {
    let number = ExpressionValue::Number(Decimal::parse("2.50").unwrap());
    let text = ExpressionValue::String("2.50".to_owned());
    assert_eq!(number.to_decimal().unwrap(), Decimal::parse("2.5").unwrap());
    assert_eq!(text.to_decimal().unwrap(), Decimal::parse("2.5").unwrap());
    assert_eq!(
        ExpressionValue::String("-1e2".to_owned()).to_decimal().unwrap(),
        Decimal::from_i64(-100)
    );
    assert!(matches!(
        ExpressionValue::String("two".to_owned()).to_decimal(),
        Err(ExpressionError::ExpectedDecimal)
    ));
    assert!(matches!(
        ExpressionValue::String(String::new()).to_decimal(),
        Err(ExpressionError::ExpectedDecimal)
    ));
    assert_eq!(number.to_string().unwrap(), "2.50");
    assert_eq!(text.to_string().unwrap(), "2.50");
    assert_ne!(number, text);
}

#[test]
fn values_from_properties() {
    assert_eq!(
        ExpressionValue::from_property(&PropertyValue::from_string("12.5".to_owned())),
        ExpressionValue::Number(Decimal::parse("12.5").unwrap())
    );
    assert_eq!(
        ExpressionValue::from_property(&PropertyValue::from_string("12,5".to_owned())),
        ExpressionValue::String("12,5".to_owned())
    );
    assert_eq!(
        ExpressionValue::from_property(&PropertyValue::from_u64(3)),
        ExpressionValue::Number(Decimal::from_i64(3))
    );
    assert_eq!(
        ExpressionValue::from_property(&PropertyValue::default()),
        ExpressionValue::Number(Decimal::from_i64(0))
    );
    assert_eq!(
        PropertyValue::from_u64(3).clone(),
        PropertyValue::Number(Decimal::from_i64(3))
    );
    assert_eq!(
        PropertyValue::from_number_text("3.20"),
        Some(PropertyValue::Number(Decimal::parse("3.2").unwrap()))
    );
    assert_eq!(PropertyValue::from_number_text("three"), None);
}

#[test]
fn events_hold_their_properties() {
    let mut event = Event::new("c".to_owned(), Decimal::from_i64(5));
    assert!(event.property("a").is_none());
    event.set_property("a".to_owned(), PropertyValue::from_u64(1));
    event.set_property("b".to_owned(), PropertyValue::from_string("x".to_owned()));
    event.set_property("a".to_owned(), PropertyValue::from_u64(2));
    assert_eq!(event.property("a"), Some(&PropertyValue::from_u64(2)));
    assert_eq!(event.property("b"), Some(&PropertyValue::String("x".to_owned())));
    assert!(event.property("c").is_none());
    let empty = Event::default();
    assert_eq!(empty.code(), "");
    assert!(empty.timestamp().is_zero());
    assert!(empty.property("a").is_none());
}

#[test]
fn events_from_parts() {
    let properties = vec![
        ("a".to_owned(), PropertyValue::from_u64(1)),
        ("b".to_owned(), PropertyValue::from_string("x".to_owned())),
        ("a".to_owned(), PropertyValue::from_string("2.5".to_owned())),
    ];
    let event = Event::from_parts(
        "c".to_owned(),
        PropertyValue::from_string("123124123123".to_owned()),
        &properties,
    )
    .unwrap();
    assert_eq!(event.code(), "c");
    assert_eq!(*event.timestamp(), Decimal::from_u64(123124123123));
    assert_eq!(event.property("a"), Some(&PropertyValue::String("2.5".to_owned())));
    assert_eq!(event.property("b"), Some(&PropertyValue::String("x".to_owned())));
    let event = Event::from_parts(
        "c".to_owned(),
        PropertyValue::Number(Decimal::parse("123.4123").unwrap()),
        &Vec::new(),
    )
    .unwrap();
    assert_eq!(event.timestamp().to_plain_string(), "123.4123");
    assert!(event.property("a").is_none());
    assert!(Event::from_parts(
        "c".to_owned(),
        PropertyValue::from_string("yesterday".to_owned()),
        &properties
    )
    .is_none());
}

#[test]
fn attributes_evaluate_alone() {
    let mut event = Event::new("c".to_owned(), Decimal::from_i64(5));
    event.set_property("a".to_owned(), PropertyValue::from_string("1.5".to_owned()));
    assert_eq!(
        EventAttribute::Code.evaluate(&event).unwrap(),
        ExpressionValue::String("c".to_owned())
    );
    assert_eq!(
        EventAttribute::Timestamp.evaluate(&event).unwrap(),
        ExpressionValue::Number(Decimal::from_i64(5))
    );
    assert_eq!(
        EventAttribute::Properties("a".to_owned()).evaluate(&event).unwrap(),
        ExpressionValue::Number(Decimal::parse("1.5").unwrap())
    );
    assert!(matches!(
        EventAttribute::Properties("b".to_owned()).evaluate(&event),
        Err(ExpressionError::MissingVariable(_))
    ));
    assert_eq!(
        EventAttribute::Properties("a".to_owned()).clone(),
        EventAttribute::Properties("a".to_owned())
    );
}

#[test]
fn operations_evaluate_both_sides() {
    let event = Event::default();
    let six = Expression::Decimal(Decimal::from_i64(6));
    let four = Expression::Decimal(Decimal::from_i64(4));
    let text = Expression::String("x".to_owned());
    assert_eq!(
        Operation::Add.evaluate(&six, &four, &event).unwrap().to_string().unwrap(),
        "10"
    );
    assert_eq!(
        Operation::Subtract.evaluate(&six, &four, &event).unwrap().to_string().unwrap(),
        "2"
    );
    assert_eq!(
        Operation::Multiply.evaluate(&six, &four, &event).unwrap().to_string().unwrap(),
        "24"
    );
    assert_eq!(
        Operation::Divide.evaluate(&six, &four, &event).unwrap().to_string().unwrap(),
        "1.5"
    );
    assert!(matches!(
        Operation::Add.evaluate(&six, &text, &event),
        Err(ExpressionError::ExpectedDecimal)
    ));
    assert_eq!(
        Operation::Multiply
            .apply(&Decimal::from_i64(-3), &Decimal::parse("0.5").unwrap())
            .unwrap()
            .to_string()
            .unwrap(),
        "-1.5"
    );
    assert!(matches!(
        Operation::Divide.apply(&Decimal::from_i64(1), &Decimal::from_i64(0)),
        Err(ExpressionError::DivisionByZero)
    ));
}

#[test]
fn functions_evaluate_alone() {
    let event = Event::default();
    let call = Function::Greatest(vec![
        Expression::Decimal(Decimal::from_i64(1)),
        Expression::Decimal(Decimal::parse("1.5").unwrap()),
    ]);
    assert_eq!(call.evaluate(&event).unwrap().to_string().unwrap(), "1.5");
    let call = Function::Ceil(
        Box::new(Expression::Decimal(Decimal::parse("1.41").unwrap())),
        Some(Box::new(Expression::Decimal(Decimal::from_i64(1)))),
    );
    assert_eq!(call.evaluate(&event).unwrap().to_string().unwrap(), "1.5");
}
