use cas_core::ast::{Expr, UnaryOp};
use cas_core::error::{ErrorKind, InvalidRadixDigit, InvalidUnaryOperation, ValueType};
use cas_core::measurement::{Length, Measurement, Quantity, Unit};
use cas_core::parser::Parser;
use cas_core::unary_eval::{unary_rule, UnaryRule};

#[test]
fn not_of_number_compares_with_zero() {
    assert_eq!(unary_rule(UnaryOp::Not, ValueType::Number), Ok(UnaryRule::IsZero));
}

#[test]
fn unary_rule_table() {
    assert_eq!(unary_rule(UnaryOp::BitNot, ValueType::Number), Ok(UnaryRule::BitComplement));
    assert_eq!(unary_rule(UnaryOp::Factorial, ValueType::Number), Ok(UnaryRule::Factorial));
    assert_eq!(unary_rule(UnaryOp::Neg, ValueType::Number), Ok(UnaryRule::Negate));
    assert_eq!(unary_rule(UnaryOp::Not, ValueType::Complex), Ok(UnaryRule::ComplexIsZero));
    assert_eq!(unary_rule(UnaryOp::Neg, ValueType::Complex), Ok(UnaryRule::ComplexNegate));
    assert_eq!(unary_rule(UnaryOp::Not, ValueType::Boolean), Ok(UnaryRule::LogicalNot));
    assert_eq!(
        unary_rule(UnaryOp::Neg, ValueType::Boolean),
        Err(InvalidUnaryOperation { op: UnaryOp::Neg, expr_type: ValueType::Boolean })
    );
    assert_eq!(
        unary_rule(UnaryOp::Not, ValueType::Unit),
        Err(InvalidUnaryOperation { op: UnaryOp::Not, expr_type: ValueType::Unit })
    );
}

#[test]
fn factorial_and_bit_not_need_numbers() {
    for op in [UnaryOp::Factorial, UnaryOp::BitNot] {
        for ty in [ValueType::Complex, ValueType::Boolean, ValueType::Unit] {
            assert_eq!(unary_rule(op, ty), Err(InvalidUnaryOperation { op, expr_type: ty }));
        }
    }
}

#[test]
fn invalid_unary_operation_points_at_operand_and_operator() {
    let mut parser = Parser::new("12!");
    let expr = parser.try_parse_full::<Expr>().unwrap();
    let unary = match expr {
        Expr::Unary(u) => u,
        _ => panic!("expected a unary expression"),
    };
    assert_eq!(unary.eval_rule(ValueType::Number), Ok(UnaryRule::Factorial));
    let err = unary.eval_rule(ValueType::Boolean).unwrap_err();
    assert_eq!(
        err.kind,
        ErrorKind::InvalidUnaryOperation(InvalidUnaryOperation { op: UnaryOp::Factorial, expr_type: ValueType::Boolean })
    );
    assert_eq!(err.spans, vec![0..2, 2..3]);

    let mut parser = Parser::new("not 5");
    let expr = parser.try_parse_full::<Expr>().unwrap();
    let unary = match expr {
        Expr::Unary(u) => u,
        _ => panic!("expected a unary expression"),
    };
    let err = unary.eval_rule(ValueType::Unit).unwrap_err();
    assert_eq!(err.spans, vec![4..5, 0..3]);
}

#[test]
fn radix_labels_drop_trailing_operator_digit() {
    let err = InvalidRadixDigit {
        radix: 64,
        allowed: vec!['a', 'b', '+', '/'],
        digits: vec!['+'],
        last_op_digit: Some(('+', 5..6)),
    };
    assert_eq!(err.label_spans(&vec![0..6, 2..3]), vec![0..5, 2..3]);
    assert_eq!(err.label_spans(&vec![5..6]), vec![]);

    let plain = InvalidRadixDigit { radix: 2, allowed: vec!['0', '1'], digits: vec!['2'], last_op_digit: None };
    assert_eq!(plain.label_spans(&vec![0..6]), vec![0..6]);
}

#[test]
fn operator_digit_operations() {
    assert_eq!(InvalidRadixDigit::op_digit_operation('+'), Some("add"));
    assert_eq!(InvalidRadixDigit::op_digit_operation('/'), Some("divide"));
    assert_eq!(InvalidRadixDigit::op_digit_operation('z'), None);

    let slash = InvalidRadixDigit { radix: 64, allowed: vec!['/'], digits: vec!['/'], last_op_digit: Some(('/', 3..4)) };
    assert_eq!(slash.op_digit_label(), Some((3..4, "divide")));
    let plus = InvalidRadixDigit { radix: 64, allowed: vec!['+'], digits: vec!['+'], last_op_digit: Some(('+', 7..8)) };
    assert_eq!(plus.op_digit_label(), Some((7..8, "add")));
    let none = InvalidRadixDigit { radix: 2, allowed: vec!['0', '1'], digits: vec!['2'], last_op_digit: None };
    assert_eq!(none.op_digit_label(), None);
}

#[test]
fn measurement_keeps_value_and_unit() {
    let m = Measurement::new(2.0, Unit::new(Quantity::Length(Length::Mile)));
    assert_eq!(m.value(), &2.0);
    assert_eq!(m.unit().quantity, Quantity::Length(Length::Mile));
    assert_eq!(m.unit().power, 1);
}
