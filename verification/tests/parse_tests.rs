use periodic_table_generator::ast::{BinaryOperator, Expr, UnaryOperator};
use periodic_table_generator::parser::ParseError;
use periodic_table_generator::query::Query;

#[test]
fn test_expr_symbol() {
    let input = "atomic_number ";
    let (e, used) = Expr::symbol(input).unwrap();
    assert_eq!(e, Expr::Symbol("atomic_number".to_string()));
    assert_eq!(&input[used..], " ");

    let input = "oxidation_state.notable  ";
    let (e, used) = Expr::symbol(input).unwrap();
    assert_eq!(e, Expr::Symbol("oxidation_state.notable".to_string()));
    assert_eq!(&input[used..], "  ");

    let input = "CamelCase  ";
    let (e, used) = Expr::symbol(input).unwrap();
    assert_eq!(e, Expr::Symbol("CamelCase".to_string()));
    assert_eq!(&input[used..], "  ");

    let input = "oxidation..state  ";
    let (e, used) = Expr::symbol(input).unwrap();
    assert_eq!(e, Expr::Symbol("oxidation".to_string()));
    assert_eq!(&input[used..], "..state  ");

    assert!(matches!(Expr::symbol("_oxidation_state  "), Err(_)));
    assert!(matches!(Expr::symbol(".oxidation"), Err(_)));
}

#[test]
fn test_expr_literal_bool() {
    let input = "  true ";
    let (e, used) = Expr::literal_bool(input).unwrap();
    assert_eq!(e, Expr::LBool(true));
    assert_eq!(&input[used..], " ");
}

#[test]
fn test_expr_literal_int() {
    let input = "  -15 ";
    let (e, used) = Expr::literal_int(input).unwrap();
    assert_eq!(e, Expr::LInt(-15));
    assert_eq!(&input[used..], " ");
}

#[test]
fn test_expr_binary_op() {
    let input = "atomic_number == 5  ";
    let (e, used) = Expr::parse(input).unwrap();
    assert_eq!(
        e,
        Expr::BinaryOp(
            BinaryOperator::Equal,
            Box::new(Expr::Symbol("atomic_number".to_string())),
            Box::new(Expr::LInt(5)),
        )
    );
    assert_eq!(&input[used..], "  ");
}

#[test]
fn test_expr_precedence() {
    let input = "true || Z > 13 && Z < 55";
    let (e, used) = Expr::parse(input).unwrap();
    assert_eq!(
        e,
        Expr::BinaryOp(
            BinaryOperator::Or,
            Box::new(Expr::LBool(true)),
            Box::new(Expr::BinaryOp(
                BinaryOperator::And,
                Box::new(Expr::BinaryOp(
                    BinaryOperator::GreaterThan,
                    Box::new(Expr::Symbol("Z".to_string())),
                    Box::new(Expr::LInt(13)),
                )),
                Box::new(Expr::BinaryOp(
                    BinaryOperator::LessThan,
                    Box::new(Expr::Symbol("Z".to_string())),
                    Box::new(Expr::LInt(55)),
                )),
            )),
        )
    );
    assert_eq!(&input[used..], "");

    let a = Expr::parse("true ||  Z > 13 && Z < 55").unwrap().0;
    let b = Expr::parse("true || (Z > 13 && Z < 55)").unwrap().0;
    assert_eq!(a, b);

    let a = Expr::parse("2 +  2 * 2").unwrap().0;
    let b = Expr::parse("2 + (2 * 2)").unwrap().0;
    assert_eq!(a, b);
}

#[test]
fn test_expr_unary_not() {
    let input = "!a || b";
    let (e, used) = Expr::parse(input).unwrap();
    assert_eq!(
        e,
        Expr::BinaryOp(
            BinaryOperator::Or,
            Box::new(Expr::UnaryOp(
                UnaryOperator::Not,
                Box::new(Expr::Symbol("a".to_string())),
            )),
            Box::new(Expr::Symbol("b".to_string())),
        )
    );
    assert_eq!(&input[used..], "");
}

#[test]
fn test_expr_set() {
    let input = "{Z, 2, 3} in oxidation_states.notable";
    let (e, used) = Expr::parse(input).unwrap();
    assert_eq!(
        e,
        Expr::BinaryOp(
            BinaryOperator::InSet,
            Box::new(Expr::LSet(vec![
                Expr::Symbol("Z".to_string()),
                Expr::LInt(2),
                Expr::LInt(3),
            ])),
            Box::new(Expr::Symbol("oxidation_states.notable".to_string())),
        )
    );
    assert_eq!(&input[used..], "");
}

#[test]
fn left_associative_subtraction_parse() {
    let a = Expr::parse("a - b - c").unwrap().0;
    let b = Expr::parse("(a - b) - c").unwrap().0;
    assert_eq!(a, b);
    let c = Expr::parse("a - (b - c)").unwrap().0;
    assert_ne!(a, c);
}

#[test]
fn parsing_is_total_on_malformed_input() {
    assert!(Query::new("").is_err());
    assert!(Query::new("(").is_err());
    assert!(Query::new("1 +").is_err());
    assert!(Query::new(".a").is_err());
    assert!(Query::new("_a").is_err());
}

#[test]
fn parse_error_kinds() {
    assert!(matches!(
        Query::new(""),
        Err(ParseError::UnexpectedToken { .. })
    ));
    assert!(matches!(
        Query::new("(1"),
        Err(ParseError::MissingClosingParen { .. })
    ));
    assert!(matches!(
        Query::new("{1"),
        Err(ParseError::MissingClosingBrace { .. })
    ));
    assert!(matches!(
        Query::new("99999999999"),
        Err(ParseError::IntOutOfRange { .. })
    ));
    assert!(matches!(
        Query::new("1 1"),
        Err(ParseError::TrailingInput { at: 2 })
    ));
}

#[test]
fn whole_input_must_be_consumed() {
    assert!(Query::new(" true ").is_ok());
    assert!(matches!(
        Query::new("true garbage"),
        Err(ParseError::TrailingInput { .. })
    ));
}

#[test]
fn set_literal_comma_must_follow_member() {
    // the separator is a bare comma: whitespace before it ends the list
    assert!(Query::new("1 in {1, 2}").is_ok());
    assert!(Query::new("1 in {1 , 2}").is_err());
    assert!(Query::new("1 in {1,}").is_err());
    assert!(Query::new("1 in {}").is_ok());
}

#[test]
fn leading_minus_is_the_prefix_operator() {
    // the prefix `-` binds before the literal's own sign is tried
    let (e, _) = Expr::parse("-15").unwrap();
    assert_eq!(
        e,
        Expr::UnaryOp(UnaryOperator::Minus, Box::new(Expr::LInt(15)))
    );
}

#[test]
fn minimum_integer_literal_parses() {
    // the sign is part of the literal, so i32::MIN is reachable
    let (e, _) = Expr::parse("-2147483648").unwrap();
    assert_eq!(e, Expr::LInt(i32::MIN));
}

#[test]
fn plus_sign_belongs_to_the_literal() {
    let (e, _) = Expr::parse("1 + +2").unwrap();
    assert_eq!(
        e,
        Expr::BinaryOp(
            BinaryOperator::Plus,
            Box::new(Expr::LInt(1)),
            Box::new(Expr::LInt(2)),
        )
    );
}

#[test]
fn operator_tokens_need_no_surrounding_space() {
    // `in` is matched as two bytes, not as a word
    let (e, used) = Expr::parse("1 in2").unwrap();
    assert_eq!(
        e,
        Expr::BinaryOp(
            BinaryOperator::InSet,
            Box::new(Expr::LInt(1)),
            Box::new(Expr::LInt(2)),
        )
    );
    assert_eq!(used, 5);
}

#[test]
fn boolean_tokens_match_greedily() {
    // a leading `true` is the boolean literal even inside a longer word
    let input = "trueish";
    let (e, used) = Expr::parse(input).unwrap();
    assert_eq!(e, Expr::LBool(true));
    assert_eq!(&input[used..], "ish");
    assert!(matches!(
        Query::new("trueish"),
        Err(ParseError::TrailingInput { .. })
    ));
}
