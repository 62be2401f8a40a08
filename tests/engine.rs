use cas_core::ast::{Binary, Expr, LitNum, Literal, Paren, Precedence, Associativity, BinOp, UnaryOp};
use cas_core::grammar::MAX_NESTING;
use cas_core::error::{NestingTooDeep, EmptyParenthesis, Error, ErrorKind, ExpectedEof, NonFatal, UnclosedParenthesis, UnexpectedToken};
use cas_core::parser::Parser;
use cas_core::token::{tokenize_complete, Token, TokenKind};
use std::cmp::Ordering;

#[test]
fn failed_try_parse_restores_cursor() {
    let mut parser = Parser::new("3 +");
    let err = parser.try_parse::<Expr>().unwrap_err();
    assert_eq!(err.spans, vec![3..3]);
    assert_eq!(parser.span(), 0..1);
    assert!(parser.prev_token().is_none());
}

#[test]
fn successful_try_parse_advances_cursor() {
    let mut parser = Parser::new("3 + 4");
    let first = parser.try_parse::<Token>().unwrap();
    assert_eq!(first.kind, TokenKind::Number);
    assert_eq!(parser.prev_token().unwrap().span, 0..1);
    assert_eq!(parser.span(), 1..2);
}

#[test]
fn failed_try_parse_then_restores_cursor() {
    let mut parser = Parser::new("3 !");
    let err = parser
        .try_parse_then::<Token, _>(|t, p| {
            if t.kind == TokenKind::Factorial { Ok(()) } else { Err(p.non_fatal()) }
        })
        .unwrap_err();
    assert_eq!(err.kind, ErrorKind::NonFatal(NonFatal));
    assert_eq!(parser.span(), 0..1);

    let _ = parser.next_token().unwrap();
    let bang = parser
        .try_parse_then::<Token, _>(|t, p| {
            if t.kind == TokenKind::Factorial { Ok(()) } else { Err(p.non_fatal()) }
        })
        .unwrap();
    assert_eq!(bang.span, 2..3);
    assert_eq!(parser.span(), 3..3);
}

#[test]
fn failed_try_parse_with_fn_restores_cursor() {
    let mut parser = Parser::new("1 2");
    let r: Result<Token, Error> = parser.try_parse_with_fn(|p: &mut Parser| {
        let _ = p.next_token()?;
        let _ = p.next_token()?;
        p.next_token()
    });
    assert!(r.is_err());
    assert_eq!(parser.span(), 0..1);
}

#[test]
fn trailing_input_is_expected_eof() {
    let mut parser = Parser::new("3 4");
    let err = parser.try_parse_full::<Expr>().unwrap_err();
    assert_eq!(err.kind, ErrorKind::ExpectedEof(ExpectedEof));
    assert_eq!(err.spans, vec![1..2]);
}

#[test]
fn operator_without_operand_is_unexpected_token() {
    let mut parser = Parser::new("*");
    let err = parser.try_parse_full::<Expr>().unwrap_err();
    assert_eq!(
        err.kind,
        ErrorKind::UnexpectedToken(UnexpectedToken {
            expected: vec![TokenKind::Number, TokenKind::OpenParen],
            found: TokenKind::Mul,
        })
    );
    assert_eq!(err.spans, vec![0..1]);
}

#[test]
fn next_token_skips_whitespace_and_reports_eof() {
    let mut parser = Parser::new("  7  ");
    let t = parser.next_token().unwrap();
    assert_eq!(t.span, 2..3);
    let err = parser.next_token().unwrap_err();
    assert_eq!(err.kind, ErrorKind::UnexpectedEof(cas_core::error::UnexpectedEof));
    assert_eq!(err.spans, vec![5..5]);
    assert_eq!(parser.eof_span(), 5..5);
}

#[test]
fn error_points_at_current_token() {
    let parser = Parser::new("12 + 3");
    let err = parser.error(ErrorKind::ExpectedEof(ExpectedEof));
    assert_eq!(err.spans, vec![0..2]);
    assert_eq!(parser.non_fatal().kind, ErrorKind::NonFatal(NonFatal));
}

#[test]
fn tokenizer_covers_every_byte() {
    let tokens = tokenize_complete("not x1+3.25! %");
    let kinds: Vec<TokenKind> = tokens.iter().map(|t| t.kind).collect();
    assert_eq!(
        kinds,
        vec![
            TokenKind::Not,
            TokenKind::Whitespace,
            TokenKind::Name,
            TokenKind::Add,
            TokenKind::Number,
            TokenKind::Factorial,
            TokenKind::Whitespace,
            TokenKind::Mod,
        ]
    );
    let spans: Vec<_> = tokens.iter().map(|t| t.span.clone()).collect();
    assert_eq!(spans, vec![0..3, 3..4, 4..6, 6..7, 7..11, 11..12, 12..13, 13..14]);
    assert!(tokenize_complete("").is_empty());
}

#[test]
fn tokenizer_keeps_unknown_characters() {
    let tokens = tokenize_complete("3 é");
    assert_eq!(tokens.len(), 3);
    assert_eq!(tokens[2].kind, TokenKind::Unknown);
    assert_eq!(tokens[2].span, 2..4);
}

#[test]
fn precedence_order() {
    assert!(Precedence::Any < Precedence::Term);
    assert!(Precedence::Term < Precedence::Factor);
    assert!(Precedence::Factor < Precedence::Exp);
    assert!(Precedence::Exp < Precedence::Factorial);
    assert!(Precedence::Factorial < Precedence::Neg);
    assert!(Precedence::Neg < Precedence::Not);
    assert_eq!(Precedence::Exp.partial_cmp(&Precedence::Exp), Some(Ordering::Equal));
    assert_eq!(BinOp::Exp.associativity(), Associativity::Right);
    assert_eq!(BinOp::Sub.associativity(), Associativity::Left);
    assert_eq!(BinOp::Mod.precedence(), Precedence::Factor);
    assert_eq!(UnaryOp::Factorial.associativity(), Associativity::Left);
    assert_eq!(UnaryOp::Neg.precedence(), Precedence::Neg);
}

fn lit(text: &str, span: std::ops::Range<usize>) -> Expr {
    Expr::Literal(Literal::Number(LitNum { digits: text.as_bytes().to_vec(), span }))
}

#[test]
fn parentheses_group_a_lower_precedence_operation() {
    let mut parser = Parser::new("(1 + 2) * 3");
    let expr = parser.try_parse_full::<Expr>().unwrap();

    let sum = Expr::Binary(Box::new(Binary {
        lhs: Box::new(lit("1", 1..2)),
        op: BinOp::Add,
        rhs: Box::new(lit("2", 5..6)),
        span: 1..6,
    }));
    let grouped = Expr::Paren(Paren { expr: Box::new(sum), span: 0..7 });
    assert_eq!(
        expr,
        Expr::Binary(Box::new(Binary {
            lhs: Box::new(grouped),
            op: BinOp::Mul,
            rhs: Box::new(lit("3", 10..11)),
            span: 0..11,
        }))
    );
}

#[test]
fn empty_parentheses_are_an_error() {
    let mut parser = Parser::new("( )");
    let err = parser.try_parse_full::<Expr>().unwrap_err();
    assert_eq!(err.kind, ErrorKind::EmptyParenthesis(EmptyParenthesis));
    assert_eq!(err.spans, vec![0..3]);
}

#[test]
fn unclosed_parenthesis_is_an_error() {
    let mut parser = Parser::new("2 * (1 + 3");
    let err = parser.try_parse_full::<Expr>().unwrap_err();
    assert_eq!(err.kind, ErrorKind::UnclosedParenthesis(UnclosedParenthesis { opening: true }));
    assert_eq!(err.spans, vec![4..5]);

    let mut parser = Parser::new("(1 2)");
    let err = parser.try_parse_full::<Expr>().unwrap_err();
    assert_eq!(err.kind, ErrorKind::UnclosedParenthesis(UnclosedParenthesis { opening: true }));
}

#[test]
fn deep_nesting_is_an_error() {
    let deep = format!("{}1{}", "(".repeat(MAX_NESTING + 5), ")".repeat(MAX_NESTING + 5));
    let mut parser = Parser::new(&deep);
    let err = parser.try_parse_full::<Expr>().unwrap_err();
    assert_eq!(err.kind, ErrorKind::NestingTooDeep(NestingTooDeep { limit: 256 }));

    let negations = format!("{}1", "-".repeat(MAX_NESTING + 5));
    let mut parser = Parser::new(&negations);
    let err = parser.try_parse_full::<Expr>().unwrap_err();
    assert_eq!(err.kind, ErrorKind::NestingTooDeep(NestingTooDeep { limit: 256 }));

    let shallow = format!("{}1{}", "(".repeat(100), ")".repeat(100));
    let mut parser = Parser::new(&shallow);
    assert!(parser.try_parse_full::<Expr>().is_ok());
}

#[test]
fn number_takes_at_most_one_decimal_point() {
    let tokens = tokenize_complete("1.2.3 4.");
    let cut: Vec<(TokenKind, std::ops::Range<usize>)> = tokens.iter().map(|t| (t.kind, t.span.clone())).collect();
    assert_eq!(
        cut,
        vec![
            (TokenKind::Number, 0..3),
            (TokenKind::Unknown, 3..4),
            (TokenKind::Number, 4..5),
            (TokenKind::Whitespace, 5..6),
            (TokenKind::Number, 6..7),
            (TokenKind::Unknown, 7..8),
        ]
    );
}
