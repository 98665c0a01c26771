use iris::expression::{apply_op, get_priority, operator_from_text, ExprError, ExpressionEvaluator, Op, OpText};
use iris::row::{Cell, Row};

fn eval(tokens: &[&str]) -> Result<i64, ExprError> {
    let mut e = ExpressionEvaluator::new();
    for t in tokens {
        if t.chars().all(|c| c.is_ascii_digit()) {
            e.new_number(t.to_string())?;
        } else if t.chars().all(|c| c.is_ascii_alphabetic()) {
            e.new_field(t.to_string());
        } else {
            e.new_operator(t.to_string())?;
        }
    }
    let mut row = Row::new();
    row.set("x".to_string(), Cell::Int(5));
    row.set("s".to_string(), Cell::Text("ab".to_string()));
    e.compute(&row, true)
}

#[test]
fn precedence_of_multiplication_over_addition() {
    assert_eq!(eval(&["1", "+", "2", "*", "3"]), Ok(7));
    assert_eq!(eval(&["2", "*", "3", "+", "1"]), Ok(7));
}

#[test]
fn parentheses_override_precedence() {
    assert_eq!(eval(&["(", "1", "+", "2", ")", "*", "3"]), Ok(9));
    assert_eq!(eval(&["2", "*", "(", "3", "-", "(", "4", "-", "1", ")", ")"]), Ok(0));
}

#[test]
fn same_priority_is_left_associative() {
    assert_eq!(eval(&["10", "-", "4", "-", "3"]), Ok(3));
    assert_eq!(eval(&["20", "/", "2", "/", "5"]), Ok(2));
    assert_eq!(eval(&["7", "%", "4", "*", "3"]), Ok(9));
}

#[test]
fn comparisons_and_logic_yield_zero_or_one() {
    assert_eq!(eval(&["1", "<", "2", "&&", "3", ">", "4"]), Ok(0));
    // Comparisons and logical operators share one priority: left to right.
    assert_eq!(eval(&["1", "<", "2", "||", "3", ">", "4"]), Ok(0));
    assert_eq!(eval(&["(", "1", "<", "2", ")", "||", "(", "3", ">", "4", ")"]), Ok(1));
    assert_eq!(eval(&["x", "==", "5"]), Ok(1));
    assert_eq!(eval(&["x", "!=", "5"]), Ok(0));
    assert_eq!(eval(&["x", "<=", "5"]), Ok(1));
    assert_eq!(eval(&["x", ">=", "6"]), Ok(0));
    assert_eq!(eval(&["x", "+", "1", "*", "2", ">", "6"]), Ok(1));
    assert_eq!(eval(&["x", "+", "1", "*", "2", ">", "7"]), Ok(0));
}

#[test]
fn string_fields_evaluate_to_their_hash() {
    // 'a' = 97, 'b' = 98: 97 * 31 + 98.
    assert_eq!(eval(&["s"]), Ok(3105));
}

#[test]
fn evaluation_errors() {
    assert_eq!(eval(&["1", "/", "0"]), Err(ExprError::Arithmetic));
    assert_eq!(eval(&["1", "%", "0"]), Err(ExprError::Arithmetic));
    assert_eq!(eval(&["9223372036854775807", "+", "1"]), Err(ExprError::Arithmetic));
    assert_eq!(eval(&["y", "+", "1"]), Err(ExprError::MissingField));
    assert_eq!(eval(&["1", "+"]), Err(ExprError::Malformed));
    assert_eq!(eval(&["(", "1"]), Err(ExprError::Unbalanced));
    assert_eq!(eval(&["1", ")"]), Err(ExprError::Unbalanced));
    assert_eq!(eval(&["1", "^", "2"]), Err(ExprError::UnknownOperator));
    assert_eq!(eval(&["99999999999999999999"]), Err(ExprError::BadNumber));
}

#[test]
fn kept_program_is_evaluated_again() {
    let mut e = ExpressionEvaluator::new();
    e.new_field("x".to_string());
    e.new_operator("*".to_string()).unwrap();
    e.new_number("2".to_string()).unwrap();
    let mut row = Row::new();
    row.set("x".to_string(), Cell::Int(4));
    assert_eq!(e.compute(&row, false), Ok(8));
    row.set("x".to_string(), Cell::Int(10));
    assert_eq!(e.compute(&row, false), Ok(20));
    assert!(!e.is_empty());
    assert_eq!(e.compute(&row, true), Ok(20));
    assert!(e.is_empty());
}

#[test]
fn direct_numbers_and_clear() {
    let mut e = ExpressionEvaluator::new();
    assert!(e.is_empty());
    e.new_direct_number(-4);
    assert!(!e.is_empty());
    assert_eq!(e.compute(&Row::new(), false), Ok(-4));
    e.clear();
    assert!(e.is_empty());
    e.new_parenthesis("(".to_string()).unwrap();
    e.new_number("3".to_string()).unwrap();
    e.new_parenthesis(")".to_string()).unwrap();
    assert_eq!(e.compute(&Row::new(), true), Ok(3));
    assert_eq!(e.new_parenthesis("+".to_string()), Err(ExprError::UnknownOperator));
}

#[test]
fn operator_table() {
    assert_eq!(operator_from_text("<="), Some(OpText::Bin(Op::Le)));
    assert_eq!(operator_from_text("("), Some(OpText::Open));
    assert_eq!(operator_from_text("=<"), None);
    assert_eq!(get_priority(Op::Mod), 4);
    assert_eq!(get_priority(Op::Sub), 3);
    assert_eq!(get_priority(Op::And), 2);
    assert_eq!(apply_op(Op::Sub, 3, 5), Some(-2));
    assert_eq!(apply_op(Op::Div, -7, 2), Some(-3));
    assert_eq!(apply_op(Op::Mod, -7, 2), Some(-1));
    assert_eq!(apply_op(Op::Mul, i64::MAX, 2), None);
}
