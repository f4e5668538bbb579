use periodic_table_generator::ast::{BinaryOperator, UnaryOperator};
use periodic_table_generator::elements::{Element, OxidationStates, Symbol};
use periodic_table_generator::eval::EvalError;
use periodic_table_generator::query::Query;
use periodic_table_generator::value::Value;

fn sodium_like() -> Element {
    Element {
        atomic_number: 11,
        symbol: Symbol::new("Na".to_string()),
        group: Some(1),
        period: 3,
        block: 0,
        oxidation_states: OxidationStates {
            common: vec![1],
            notable: vec![-1],
            predicted: vec![],
            citation_needed: vec![],
        },
    }
}

fn lanthanide_like() -> Element {
    Element {
        atomic_number: 58,
        symbol: Symbol::new("Ce".to_string()),
        group: None,
        period: 6,
        block: 3,
        oxidation_states: OxidationStates {
            common: vec![2, 3, 4],
            notable: vec![],
            predicted: vec![],
            citation_needed: vec![],
        },
    }
}

fn holds(query: &str, element: &Element) -> bool {
    Query::new(query).unwrap().evaluate_on(element).unwrap()
}

#[test]
fn left_associative_subtraction_evaluates() {
    // (10 - 4) - 3 is 3; 10 - (4 - 3) would be 9
    let el = sodium_like();
    assert!(holds("10 - 4 - 3 == 3", &el));
    assert!(!holds("10 - 4 - 3 == 9", &el));
}

#[test]
fn mixed_type_equality_is_an_error() {
    let el = sodium_like();
    let q = Query::new("1 == true").unwrap();
    assert_eq!(
        q.evaluate_on(&el),
        Err(EvalError::BinaryMismatch(
            BinaryOperator::Equal,
            Value::Int(1),
            Value::Bool(true),
        ))
    );
}

#[test]
fn set_membership_and_superset() {
    let el = sodium_like();
    assert!(holds("1 in {1,2,3}", &el));
    assert!(holds("{1,2} in {1,2,3}", &el));
    assert!(!holds("{1,4} in {1,2,3}", &el));
}

#[test]
fn end_to_end_symbol_lookup() {
    let el = sodium_like();
    assert!(holds("z == 1 || (group == 1 && period >= 2)", &el));
    assert!(holds("atomic_number == 11 && block == 0", &el));
    assert!(holds("z == atomic_number", &el));
}

#[test]
fn end_to_end_oxidation_states() {
    let el = sodium_like();
    assert!(holds("1 in oxidation_states.common", &el));
    let mut other = sodium_like();
    other.oxidation_states.common = vec![2];
    assert!(!holds("1 in oxidation_states.common", &other));
}

#[test]
fn non_boolean_result_is_an_error() {
    let el = sodium_like();
    let q = Query::new("5").unwrap();
    assert_eq!(q.evaluate_on(&el), Err(EvalError::NotBoolean(Value::Int(5))));
}

#[test]
fn missing_group_reads_as_minus_one() {
    let el = lanthanide_like();
    assert!(holds("group == -1", &el));
    assert!(holds("block == 3 && period == 6", &el));
}

#[test]
fn set_values_are_canonical() {
    let el = sodium_like();
    assert!(holds("{2,1} == {1,2}", &el));
    assert!(holds("{1,1} == {1}", &el));
    assert!(holds("{{2,1}} == {{1,2}}", &el));
    assert!(holds("{1,2} != {1,3}", &el));
}

#[test]
fn set_union_and_difference() {
    let el = sodium_like();
    assert!(holds("({1,2} + {2,3}) == {1,2,3}", &el));
    assert!(holds("({1,2,3} - {2}) == {1,3}", &el));
    assert!(holds("0 in ({0} + oxidation_states.common)", &el));
    assert!(holds("(oxidation_states.common - {1}) == {}", &el));
}

#[test]
fn heterogeneous_sets() {
    let el = sodium_like();
    assert!(holds("true in {true, 1}", &el));
    assert!(!holds("false in {true, 1}", &el));
}

#[test]
fn unary_operator_type_mismatch_is_an_error() {
    let el = sodium_like();
    let q = Query::new("!5").unwrap();
    assert_eq!(
        q.evaluate_on(&el),
        Err(EvalError::UnaryMismatch(UnaryOperator::Not, Value::Int(5)))
    );
    let q = Query::new("-true").unwrap();
    assert_eq!(
        q.evaluate_on(&el),
        Err(EvalError::UnaryMismatch(
            UnaryOperator::Minus,
            Value::Bool(true),
        ))
    );
}

#[test]
fn unknown_symbol_is_an_error() {
    let el = sodium_like();
    let q = Query::new("foo == 1").unwrap();
    assert_eq!(
        q.evaluate_on(&el),
        Err(EvalError::UnknownSymbol("foo".to_string()))
    );
}

#[test]
fn division_truncates_toward_zero() {
    let el = sodium_like();
    assert!(holds("7 / 2 == 3", &el));
    assert!(holds("-7 / 2 == -3", &el));
}

#[test]
fn division_by_zero_is_an_error() {
    let el = sodium_like();
    let q = Query::new("4 / 0 == 1").unwrap();
    assert_eq!(q.evaluate_on(&el), Err(EvalError::DivisionByZero));
}

#[test]
fn arithmetic_overflow_is_an_error() {
    let el = sodium_like();
    let q = Query::new("2147483647 + 1 == 0").unwrap();
    assert_eq!(q.evaluate_on(&el), Err(EvalError::Overflow));
    let q = Query::new("-(-2147483648) == 0").unwrap();
    assert_eq!(q.evaluate_on(&el), Err(EvalError::Overflow));
    let q = Query::new("-2147483648 / -1 == 0").unwrap();
    assert_eq!(q.evaluate_on(&el), Err(EvalError::Overflow));
}

#[test]
fn unary_operators() {
    let el = sodium_like();
    assert!(holds("!false", &el));
    assert!(holds("!(z == 1)", &el));
    assert!(holds("-z == -11", &el));
    assert!(holds("-1 in oxidation_states.notable", &el));
}

#[test]
fn precedence_in_evaluation() {
    let el = sodium_like();
    assert!(holds("2 + 2 * 2 == 6", &el));
    assert!(holds("(2 + 2) * 2 == 8", &el));
    assert!(holds("true || z > 13 && z < 5", &el));
}

#[test]
fn member_errors_short_circuit_left_to_right() {
    let el = sodium_like();
    let q = Query::new("1 in {1/0, foo}").unwrap();
    assert_eq!(q.evaluate_on(&el), Err(EvalError::DivisionByZero));
    let q = Query::new("1 in {foo, 1/0}").unwrap();
    assert_eq!(
        q.evaluate_on(&el),
        Err(EvalError::UnknownSymbol("foo".to_string()))
    );
}
