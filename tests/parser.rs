use cas_core::ast::{BinOp, Binary, Expr, LitNum, Literal, Unary, UnaryOp};
use cas_core::error::{ErrorKind, UnexpectedEof};
use cas_core::parser::Parser;
use std::ops::Range;

fn num(text: &str, span: Range<usize>) -> Expr {
    Expr::Literal(Literal::Number(LitNum { digits: text.as_bytes().to_vec(), span }))
}

fn value_of(expr: &Expr) -> f64 {
    match expr {
        Expr::Literal(Literal::Number(n)) => std::str::from_utf8(&n.digits).unwrap().parse::<f64>().unwrap(),
        _ => panic!("not a literal"),
    }
}

fn unary(operand: Expr, op: UnaryOp, span: Range<usize>) -> Expr {
    Expr::Unary(Box::new(Unary { operand, op, span }))
}

fn binary(lhs: Expr, op: BinOp, rhs: Expr, span: Range<usize>) -> Expr {
    Expr::Binary(Box::new(Binary { lhs: Box::new(lhs), op, rhs: Box::new(rhs), span }))
}

#[test]
fn literal_int() {
    let mut parser = Parser::new("16");
    let expr = parser.try_parse_full::<Expr>().unwrap();

    assert_eq!(expr, num("16", 0..2));
    assert_eq!(value_of(&expr), 16.0);
}

#[test]
fn literal_float() {
    let mut parser = Parser::new("3.14");
    let expr = parser.try_parse_full::<Expr>().unwrap();

    assert_eq!(expr, num("3.14", 0..4));
    assert_eq!(value_of(&expr), 3.14);
}

#[test]
fn unary_left_associativity() {
    let mut parser = Parser::new("3!!");
    let expr = parser.try_parse_full::<Expr>().unwrap();

    assert_eq!(
        expr,
        unary(unary(num("3", 0..1), UnaryOp::Factorial, 0..2), UnaryOp::Factorial, 0..3)
    );
}

#[test]
fn unary_right_associativity() {
    let mut parser = Parser::new("not not --3");
    let expr = parser.try_parse_full::<Expr>().unwrap();

    assert_eq!(
        expr,
        unary(
            unary(
                unary(unary(num("3", 10..11), UnaryOp::Neg, 9..11), UnaryOp::Neg, 8..11),
                UnaryOp::Not,
                4..11,
            ),
            UnaryOp::Not,
            0..11,
        )
    );
}

#[test]
fn binary_left_associativity() {
    let mut parser = Parser::new("3 * 4 * 5");
    let expr = parser.try_parse_full::<Expr>().unwrap();

    assert_eq!(
        expr,
        binary(
            binary(num("3", 0..1), BinOp::Mul, num("4", 4..5), 0..5),
            BinOp::Mul,
            num("5", 8..9),
            0..9,
        )
    );
}

#[test]
fn binary_left_associativity_mix_precedence() {
    let mut parser = Parser::new("3 + 4 * 5 + 6");
    let expr = parser.try_parse_full::<Expr>().unwrap();

    assert_eq!(
        expr,
        binary(
            binary(
                num("3", 0..1),
                BinOp::Add,
                binary(num("4", 4..5), BinOp::Mul, num("5", 8..9), 4..9),
                0..9,
            ),
            BinOp::Add,
            num("6", 12..13),
            0..13,
        )
    );
}

#[test]
fn binary_right_associativity() {
    let mut parser = Parser::new("1 ^ 2 ^ 3");
    let expr = parser.try_parse_full::<Expr>().unwrap();

    assert_eq!(
        expr,
        binary(
            num("1", 0..1),
            BinOp::Exp,
            binary(num("2", 4..5), BinOp::Exp, num("3", 8..9), 4..9),
            0..9,
        )
    );
}

#[test]
fn binary_complicated() {
    let mut parser = Parser::new("1 + 2 * 3 - 4 / 5 ^ 6");
    let expr = parser.try_parse_full::<Expr>().unwrap();

    // 2 * 3
    let mul = binary(num("2", 4..5), BinOp::Mul, num("3", 8..9), 4..9);
    // 1 + 2 * 3
    let add = binary(num("1", 0..1), BinOp::Add, mul, 0..9);
    // 5 ^ 6
    let exp = binary(num("5", 16..17), BinOp::Exp, num("6", 20..21), 16..21);
    // 4 / 5 ^ 6
    let div = binary(num("4", 12..13), BinOp::Div, exp, 12..21);
    // 1 + 2 * 3 - 4 / 5 ^ 6
    let sub = binary(add, BinOp::Sub, div, 0..21);

    assert_eq!(expr, sub);
}

#[test]
fn binary_and_unary() {
    let mut parser = Parser::new("-1 ^ -2 * 3");
    let expr = parser.try_parse_full::<Expr>().unwrap();

    assert_eq!(
        expr,
        binary(
            unary(
                binary(num("1", 1..2), BinOp::Exp, unary(num("2", 6..7), UnaryOp::Neg, 5..7), 1..7),
                UnaryOp::Neg,
                0..7,
            ),
            BinOp::Mul,
            num("3", 10..11),
            0..11,
        )
    );
}

#[test]
fn empty_input_is_unexpected_eof() {
    let mut parser = Parser::new("");
    let err = parser.try_parse_full::<Expr>().unwrap_err();

    assert_eq!(err.kind, ErrorKind::UnexpectedEof(UnexpectedEof));
    assert_eq!(err.spans, vec![0..0]);
}

#[test]
fn mixed_term_chain_folds_left() {
    let mut parser = Parser::new("9 - 2 + 3 - 4");
    let expr = parser.try_parse_full::<Expr>().unwrap();

    assert_eq!(
        expr,
        binary(
            binary(
                binary(num("9", 0..1), BinOp::Sub, num("2", 4..5), 0..5),
                BinOp::Add,
                num("3", 8..9),
                0..9,
            ),
            BinOp::Sub,
            num("4", 12..13),
            0..13,
        )
    );
}

#[test]
fn factorial_chain_nests_inward() {
    let mut parser = Parser::new("2!!!");
    let expr = parser.try_parse_full::<Expr>().unwrap();

    assert_eq!(
        expr,
        unary(
            unary(unary(num("2", 0..1), UnaryOp::Factorial, 0..2), UnaryOp::Factorial, 0..3),
            UnaryOp::Factorial,
            0..4,
        )
    );
}

#[test]
fn prefix_operand_stops_below_exponentiation() {
    let mut parser = Parser::new("-2 * 3");
    let expr = parser.try_parse_full::<Expr>().unwrap();

    assert_eq!(
        expr,
        binary(unary(num("2", 1..2), UnaryOp::Neg, 0..2), BinOp::Mul, num("3", 5..6), 0..6)
    );
}

#[test]
fn full_expression_entry_point() {
    let mut parser = Parser::new("16");
    assert_eq!(parser.parse_full_expr().unwrap(), num("16", 0..2));

    let mut parser = Parser::new("  ");
    let err = parser.parse_full_expr().unwrap_err();
    assert_eq!(err.kind, ErrorKind::UnexpectedEof(UnexpectedEof));
    assert_eq!(err.spans, vec![2..2]);

    let mut parser = Parser::new("1 + 2 )");
    let err = parser.parse_full_expr().unwrap_err();
    assert_eq!(err.kind, ErrorKind::ExpectedEof(cas_core::error::ExpectedEof));
    assert_eq!(err.spans, vec![5..6]);
}
