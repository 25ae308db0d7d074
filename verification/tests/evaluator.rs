use expr_eval::ast::{ArithmeticError, ArithmeticErrorKind, BinaryOp, Expr, Number, OperatorKind};
use expr_eval::eval::parser;

#[test]
fn parser_test1() {
    // 14
    let a = Number::new(14);
    assert_eq!(parser(a).unwrap(), 14);
}

#[test]
fn parser_test2() {
    // 14 - 2
    let a = BinaryOp::new(Number::new(14), Number::new(2), OperatorKind::Sub);
    assert_eq!(parser(a).unwrap(), 12);
}

#[test]
fn parser_test3() {
    let a = BinaryOp::new(Number::new(14), Number::new(2), OperatorKind::Sub);
    let b = Number::new(2);
    // ((14-2)*2)
    let c = BinaryOp::new(a, b, OperatorKind::Mul);
    assert_eq!(parser(c).unwrap(), 24);
}

#[test]
fn parser_test4() {
    let a = Number::new(2);
    let b = BinaryOp::new(Number::new(14), Number::new(2), OperatorKind::Sub);
    // (2*(14-2))
    let c = BinaryOp::new(a, b, OperatorKind::Mul);
    assert_eq!(parser(c).unwrap(), 24);
}

#[test]
fn parser_test5() {
    let a = BinaryOp::new(Number::new(14), Number::new(2), OperatorKind::Sub);
    let b = Number::new(2);
    // ((14-2)*2)
    let c = BinaryOp::new(a, b, OperatorKind::Mul);
    // (((14-2)*2))+(((14-2)*2))
    let d = BinaryOp::new(c.clone(), c, OperatorKind::Add);
    assert_eq!(parser(d.clone()).unwrap(), 48);
}

#[test]
fn bare_number_passes_through() {
    assert_eq!(parser(Number::new(0)).unwrap(), 0);
    assert_eq!(parser(Number::new(u128::MAX)).unwrap(), u128::MAX);
}

#[test]
fn subtraction_keeps_operand_order() {
    // 9 - 4 is 5, never 4 - 9.
    let t = BinaryOp::new(Number::new(9), Number::new(4), OperatorKind::Sub);
    let got = parser(t).unwrap();
    assert_ne!(got, 4);
    assert_eq!(got, 5);
}

#[test]
fn division_truncates() {
    let t = BinaryOp::new(Number::new(14), Number::new(4), OperatorKind::Div);
    assert_eq!(parser(t).unwrap(), 3);
}

#[test]
fn division_by_zero_reports_error() {
    let t = BinaryOp::new(Number::new(7), Number::new(0), OperatorKind::Div);
    let err = parser(t).unwrap_err();
    assert_eq!(err.e_code, 1);
    assert!(matches!(err.to_enum(), Some(ArithmeticErrorKind::DivByZero)));
    assert_eq!(err.resolve_string(), "no solution: division by zero");
}

#[test]
fn division_by_zero_short_circuits_nested_tree() {
    // (7 / 0) + 5 has no value: the fault in the left subtree decides.
    let bad = BinaryOp::new(Number::new(7), Number::new(0), OperatorKind::Div);
    let t = BinaryOp::new(bad, Number::new(5), OperatorKind::Add);
    let err = parser(t).unwrap_err();
    assert!(matches!(err.to_enum(), Some(ArithmeticErrorKind::DivByZero)));
}

#[test]
fn evaluation_is_pure() {
    // Evaluating a cloned tree twice yields the same result both times.
    let a = BinaryOp::new(Number::new(14), Number::new(2), OperatorKind::Sub);
    let t = BinaryOp::new(a, Number::new(2), OperatorKind::Mul);
    let first = parser(t.clone()).unwrap();
    let second = parser(t).unwrap();
    assert_eq!(first, second.0);
    assert_eq!(second, 24);
}

#[test]
fn from_expr_reads_number_nodes_only() {
    assert_eq!(Number::from_expr(Number::new(7)).unwrap(), 7);
    assert!(Number::from_expr(Expr::Operator(OperatorKind::Add)).is_none());
    let op = BinaryOp::new(Number::new(1), Number::new(2), OperatorKind::Add);
    assert!(Number::from_expr(op).is_none());
}

#[test]
fn number_operations_build_number_expressions() {
    assert_eq!(Number::from_expr(Number(6).add(Number(7))).unwrap(), 13);
    assert_eq!(Number::from_expr(Number(6).sub(Number(4))).unwrap(), 2);
    assert_eq!(Number::from_expr(Number(6).mul(Number(7))).unwrap(), 42);
    assert_eq!(Number::from_expr(Number(14).div(Number(4))).unwrap(), 3);
}

#[test]
fn error_codes_round_trip() {
    let ok = ArithmeticError::new(ArithmeticErrorKind::Success);
    assert_eq!(ok.e_code, 0);
    assert!(matches!(ok.to_enum(), Some(ArithmeticErrorKind::Success)));
    assert_eq!(ok.resolve_string(), "success");

    let div = ArithmeticError::new(ArithmeticErrorKind::DivByZero);
    assert_eq!(div.e_code, 1);
    assert!(matches!(div.to_enum(), Some(ArithmeticErrorKind::DivByZero)));
}

#[test]
fn unknown_error_code_resolves_to_fallback() {
    let odd = ArithmeticError { e_code: 5 };
    assert!(odd.to_enum().is_none());
    assert_eq!(odd.resolve_string(), "unknown error code");
}
