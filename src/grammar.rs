//! The expression grammar: prefix and postfix unary operators, and binary operators parsed by
//! precedence climbing.
use vstd::prelude::*;
use std::ops::Range;
use crate::ast::{BinOp, Binary, Expr, LitNum, Literal, Paren, Precedence, Unary, UnaryOp, Associativity, start_of, end_of};
use crate::error::{Error, ErrorKind, UnexpectedEof, UnexpectedToken, EmptyParenthesis, UnclosedParenthesis, NestingTooDeep};
use crate::parser::{Parse, Parser, all_whitespace, non_ws_toks, lemma_non_ws_toks_split, lemma_non_ws_toks_kinds, next_solid, lemma_solid_none, lemma_taken_is_solid, next_token_taken, non_ws_kinds, lemma_non_ws_split, lemma_next_token_kinds};
use crate::token::{Token, TokenKind, lexeme};

verus! {

/// The binary operator that a token of kind `k` denotes, if any.
pub open spec fn binop_of_spec(k: TokenKind) -> Option<BinOp> {
    match k {
        TokenKind::Add => Some(BinOp::Add),
        TokenKind::Sub => Some(BinOp::Sub),
        TokenKind::Mul => Some(BinOp::Mul),
        TokenKind::Div => Some(BinOp::Div),
        TokenKind::Mod => Some(BinOp::Mod),
        TokenKind::Exp => Some(BinOp::Exp),
        _ => None,
    }
}

/// The binary operator that a token of kind `k` denotes, if any.
#[verifier::when_used_as_spec(binop_of_spec)]
pub fn binop_of(k: TokenKind) -> (r: Option<BinOp>)
    ensures
        r == binop_of_spec(k),
{
    match k {
        TokenKind::Add => Some(BinOp::Add),
        TokenKind::Sub => Some(BinOp::Sub),
        TokenKind::Mul => Some(BinOp::Mul),
        TokenKind::Div => Some(BinOp::Div),
        TokenKind::Mod => Some(BinOp::Mod),
        TokenKind::Exp => Some(BinOp::Exp),
        _ => None,
    }
}

/// The prefix unary operator that a token of kind `k` denotes, if any.
pub open spec fn prefix_op_spec(k: TokenKind) -> Option<UnaryOp> {
    match k {
        TokenKind::Not => Some(UnaryOp::Not),
        TokenKind::Sub => Some(UnaryOp::Neg),
        _ => None,
    }
}

/// The prefix unary operator that a token of kind `k` denotes, if any.
#[verifier::when_used_as_spec(prefix_op_spec)]
pub fn prefix_op(k: TokenKind) -> (r: Option<UnaryOp>)
    ensures
        r == prefix_op_spec(k),
{
    match k {
        TokenKind::Not => Some(UnaryOp::Not),
        TokenKind::Sub => Some(UnaryOp::Neg),
        _ => None,
    }
}

/// How deeply operands and parentheses may nest before parsing gives up with a
/// `NestingTooDeep` error, so that adversarial input cannot exhaust the stack.
pub const MAX_NESTING: usize = 256;

/// The errors that parsing an expression can end with. The internal `NonFatal` signal is not
/// among them: every alternative that fails with it is absorbed by a backtracking combinator.
pub open spec fn grammar_error(k: ErrorKind) -> bool {
    ||| k is UnexpectedEof
    ||| k is UnexpectedToken
    ||| k is EmptyParenthesis
    ||| k is UnclosedParenthesis
    ||| k is NestingTooDeep
}

/// Only whitespace is left from the cursor of `p`.
pub open spec fn at_end(p: Parser) -> bool {
    all_whitespace(p.toks(), p.pos() as int, p.toks().len() as int)
}

/// The error for an expression missing at the end of the input.
pub open spec fn missing_at_end(r: Result<Expr, Error>, p: Parser) -> bool {
    r matches Err(e) && e.kind == ErrorKind::UnexpectedEof(UnexpectedEof)
        && e.spans@ == seq![p.eof_span_spec()]
}

/// The only token left from the cursor of `p` that is not whitespace is the number at `k`.
pub open spec fn lone_number(p: Parser, k: int) -> bool {
    &&& p.pos() <= k < p.toks().len()
    &&& p.toks()[k].kind == TokenKind::Number
    &&& all_whitespace(p.toks(), p.pos() as int, k)
    &&& all_whitespace(p.toks(), k + 1, p.toks().len() as int)
}

/// `r` is the literal of the number token at `k`, with its span and its digits, and the cursor
/// of `after` has passed it.
pub open spec fn lone_number_parsed(r: Result<Expr, Error>, before: Parser, after: Parser, k: int) -> bool {
    &&& at_end(after)
    &&& (r matches Ok(Expr::Literal(Literal::Number(n))) && n.span == before.toks()[k].span
        && n.digits@ == lexeme(before.src(), n.span))
}

/// Where a run of postfix `!` operators starting from token `i` ends.
pub open spec fn postfix_end(toks: Seq<Token>, i: int) -> int
    decreases toks.len() - i,
{
    let k = next_solid(toks, i);
    if 0 <= i <= k < toks.len() && toks[k].kind == TokenKind::Factorial {
        postfix_end(toks, k + 1)
    } else {
        i
    }
}

/// Where a unary expression without parentheses starting from token `i` ends, if it is one: a
/// prefix operator and its operand, or a number and its postfix operators.
pub open spec fn unary_end(toks: Seq<Token>, i: int) -> Option<int>
    decreases toks.len() - i, 0int,
{
    let k = next_solid(toks, i);
    if !(0 <= i <= k < toks.len()) {
        None
    } else if prefix_op_spec(toks[k].kind) is Some {
        binary_end(toks, k + 1, Precedence::Exp.rank())
    } else if toks[k].kind == TokenKind::Number {
        Some(postfix_end(toks, k + 1))
    } else {
        None
    }
}

/// The bound on the operators that may follow the unary expression starting from token `i`:
/// below exponentiation after a prefix operation, any otherwise.
pub open spec fn first_ceiling(toks: Seq<Token>, i: int) -> u8 {
    let k = next_solid(toks, i);
    if 0 <= k < toks.len() && prefix_op_spec(toks[k].kind) is Some {
        Precedence::Factor.rank()
    } else {
        Precedence::Not.rank()
    }
}

/// Where an expression without parentheses whose binary operators rank at least `min`,
/// starting from token `i`, ends, if it is one: a unary expression, then its binary operators
/// and their right operands, as precedence climbing takes them.
pub open spec fn binary_end(toks: Seq<Token>, i: int, min: u8) -> Option<int>
    decreases toks.len() - i, 1int,
{
    match unary_end(toks, i) {
        Some(j) => if i < j <= toks.len() {
            binary_rest(toks, j, min, first_ceiling(toks, i))
        } else {
            None
        },
        None => None,
    }
}

/// Where the binary operators and right operands that follow token `j` end, taking operators
/// that rank from `min` up to `ceiling`.
pub open spec fn binary_rest(toks: Seq<Token>, j: int, min: u8, ceiling: u8) -> Option<int>
    decreases toks.len() - j, 2int,
{
    let k = next_solid(toks, j);
    if 0 <= j <= k < toks.len() {
        match binop_of_spec(toks[k].kind) {
            Some(op) => if min <= op.precedence().rank() <= ceiling {
                match binary_end(toks, k + 1, rhs_min(op)) {
                    Some(j2) => if k + 1 < j2 <= toks.len() {
                        binary_rest(toks, j2, min, (rhs_min(op) - 1) as u8)
                    } else {
                        None
                    },
                    None => None,
                }
            } else {
                Some(j)
            },
            None => Some(j),
        }
    } else {
        Some(j)
    }
}

/// The least precedence rank of the operators in the right operand of `op`: one above its own
/// for a left-associative operator, its own for a right-associative one.
pub open spec fn rhs_min(op: BinOp) -> u8 {
    if op.associativity() == Associativity::Left {
        (op.precedence().rank() + 1) as u8
    } else {
        op.precedence().rank()
    }
}

/// The binary operator at the root of `e`, if `e` is a binary operation.
pub open spec fn top_binop(e: Expr) -> Option<BinOp> {
    match e {
        Expr::Binary(b) => Some(b.op),
        _ => None,
    }
}

/// `lhs` may stand as the left operand of `op` without parentheses: its own root operator, if
/// any, binds tighter, or as tightly when `op` is left-associative.
pub open spec fn lhs_fits(op: BinOp, lhs: Expr) -> bool {
    match top_binop(lhs) {
        Some(o) => o.precedence().rank() > op.precedence().rank()
            || (o.precedence().rank() == op.precedence().rank()
                && op.associativity() == Associativity::Left),
        None => true,
    }
}

/// `rhs` may stand as the right operand of `op` without parentheses: its own root operator, if
/// any, binds tighter, or as tightly when `op` is right-associative.
pub open spec fn rhs_fits(op: BinOp, rhs: Expr) -> bool {
    match top_binop(rhs) {
        Some(o) => o.precedence().rank() > op.precedence().rank()
            || (o.precedence().rank() == op.precedence().rank()
                && op.associativity() == Associativity::Right),
        None => true,
    }
}

/// The token kind of a binary operator.
pub open spec fn binop_kind(op: BinOp) -> TokenKind {
    match op {
        BinOp::Add => TokenKind::Add,
        BinOp::Sub => TokenKind::Sub,
        BinOp::Mul => TokenKind::Mul,
        BinOp::Div => TokenKind::Div,
        BinOp::Mod => TokenKind::Mod,
        BinOp::Exp => TokenKind::Exp,
    }
}

/// The token kind of a prefix operator that the grammar produces.
pub open spec fn prefix_kind(op: UnaryOp) -> TokenKind {
    match op {
        UnaryOp::Not => TokenKind::Not,
        _ => TokenKind::Sub,
    }
}

/// The kinds of the tokens of `e` read in source order: its literals, operators and
/// parentheses.
pub open spec fn kinds_of(e: Expr) -> Seq<TokenKind>
    decreases e,
{
    match e {
        Expr::Literal(_) => seq![TokenKind::Number],
        Expr::Paren(p) => seq![TokenKind::OpenParen] + kinds_of(*p.expr) + seq![TokenKind::CloseParen],
        Expr::Unary(u) => if u.op == UnaryOp::Factorial {
            kinds_of(u.operand).push(TokenKind::Factorial)
        } else {
            seq![prefix_kind(u.op)] + kinds_of(u.operand)
        },
        Expr::Binary(b) => kinds_of(*b.lhs) + seq![binop_kind(b.op)] + kinds_of(*b.rhs),
    }
}

/// `e` is a prefix operation (`not` or `-` applied to an operand).
pub open spec fn is_prefix(e: Expr) -> bool {
    e matches Expr::Unary(u) && u.op != UnaryOp::Factorial
}

/// A well-formed tree: every span is the union of its children's spans and its operator's, a
/// prefix operator comes before its operand and a postfix one after, the left operand of a
/// binary operation ends before the right one starts, and operands fit the precedence and
/// associativity of their operator. A prefix operation is never the left operand of `^` nor the
/// operand of `!`: it takes those in. The prefix operators are `not` and `-`, and their operand
/// holds no binary operator below exponentiation at its root, so `-1 ^ 2` is `-(1 ^ 2)`.
pub open spec fn tree_ok(e: Expr) -> bool
    decreases e,
{
    match e {
        Expr::Literal(Literal::Number(n)) => n.span.start < n.span.end,
        Expr::Paren(p) => {
            &&& tree_ok(*p.expr)
            &&& p.span.start < start_of(*p.expr)
            &&& end_of(*p.expr) < p.span.end
        },
        Expr::Unary(u) => {
            &&& tree_ok(u.operand)
            &&& if u.op == UnaryOp::Factorial {
                u.span.start == start_of(u.operand) && end_of(u.operand) < u.span.end
                    && !is_prefix(u.operand)
            } else {
                &&& u.op == UnaryOp::Not || u.op == UnaryOp::Neg
                &&& u.span.start < start_of(u.operand)
                &&& u.span.end == end_of(u.operand)
                &&& top_binop(u.operand) matches Some(o) ==> o.precedence().rank() >= Precedence::Exp.rank()
            }
        },
        Expr::Binary(b) => {
            &&& tree_ok(*b.lhs)
            &&& tree_ok(*b.rhs)
            &&& b.span.start == start_of(*b.lhs)
            &&& b.span.end == end_of(*b.rhs)
            &&& end_of(*b.lhs) < start_of(*b.rhs)
            &&& lhs_fits(b.op, *b.lhs)
            &&& rhs_fits(b.op, *b.rhs)
            &&& b.op == BinOp::Exp ==> !is_prefix(*b.lhs)
        },
    }
}

/// `e` sits on the tokens `ts`, its literals, operators and parentheses read in order: a
/// literal has its token's span and that token's bytes as digits, a prefix operation starts
/// at its operator's token, a factorial ends at its `!` token, and parentheses start and end
/// at theirs.
pub open spec fn fits(e: Expr, ts: Seq<Token>, src: Seq<u8>) -> bool
    decreases e,
{
    match e {
        Expr::Literal(Literal::Number(n)) => ts.len() == 1 && ts[0].span == n.span
            && n.digits@ == lexeme(src, n.span),
        Expr::Paren(p) => ts.len() >= 2 && ts[0].span.start == p.span.start
            && ts.last().span.end == p.span.end && fits(*p.expr, ts.subrange(1, ts.len() - 1), src),
        Expr::Unary(u) => ts.len() >= 1 && if u.op == UnaryOp::Factorial {
            ts.last().span.end == u.span.end && fits(u.operand, ts.drop_last(), src)
        } else {
            ts[0].span.start == u.span.start && fits(u.operand, ts.drop_first(), src)
        },
        Expr::Binary(b) => {
            let l = kinds_of(*b.lhs).len() as int;
            &&& l + 1 <= ts.len()
            &&& fits(*b.lhs, ts.subrange(0, l), src)
            &&& fits(*b.rhs, ts.subrange(l + 1, ts.len() as int), src)
        },
    }
}

/// `e` covers the tokens between the cursors of `before` and `after`: it starts no earlier
/// than the first of them, ends where the last of them ends, and its literals, operators and
/// parentheses, read in order, are exactly the tokens among them that are not whitespace, with
/// their spans and digits tied to those tokens (`fits`).
pub open spec fn spans_tokens(e: Expr, before: Parser, after: Parser) -> bool {
    &&& before.pos() < after.pos() <= after.toks().len()
    &&& before.toks()[before.pos() as int].span.start <= start_of(e)
    &&& end_of(e) == after.toks()[after.pos() - 1].span.end
    &&& kinds_of(e) == non_ws_kinds(after.toks(), before.pos() as int, after.pos() as int)
    &&& fits(e, non_ws_toks(after.toks(), before.pos() as int, after.pos() as int), after.src())
}

/// The first token from the cursor of `p` that is not whitespace is a number.
pub open spec fn solid_number(p: Parser) -> bool {
    let k = next_solid(p.toks(), p.pos() as int);
    k < p.toks().len() && p.toks()[k].kind == TokenKind::Number
}

/// A failed peek at the next token: either only whitespace is left, or `accept` turned the
/// first other token down.
proof fn lemma_peek_failed<F: FnOnce(&Token, &Parser) -> Result<(), Error>>(accept: F, before: Parser, e: Error)
    requires
        before.wf(),
        (exists|e2: Error, a: Parser| a.continues(before) && #[trigger] <Token as Parse>::failed(e2, before, a))
        || (exists|v: Token, a: Parser| a.continues(before) && #[trigger] <Token as Parse>::parsed(v, before, a)
            && accept.ensures((&v, &a), Err::<(), Error>(e))),
    ensures
        next_solid(before.toks(), before.pos() as int) == before.toks().len()
        || (next_solid(before.toks(), before.pos() as int) < before.toks().len()
            && exists|a: Parser| #[trigger] accept.ensures(
                (&before.toks()[next_solid(before.toks(), before.pos() as int)], &a), Err::<(), Error>(e))),
{
    before.lemma_wf();
    if exists|e2: Error, a: Parser| a.continues(before) && #[trigger] <Token as Parse>::failed(e2, before, a) {
        let (e2, a) = choose|e2: Error, a: Parser| a.continues(before)
            && #[trigger] <Token as Parse>::failed(e2, before, a);
        lemma_solid_none(before.toks(), before.pos() as int);
    } else {
        let (v, a) = choose|v: Token, a: Parser| a.continues(before)
            && #[trigger] <Token as Parse>::parsed(v, before, a) && accept.ensures((&v, &a), Err::<(), Error>(e));
        a.lemma_wf();
        lemma_taken_is_solid(v, before, a);
    }
}

/// Parses a primary expression: a numeric literal, or an expression in parentheses. An empty
/// pair of parentheses is an `EmptyParenthesis` error; an opening parenthesis whose expression
/// runs into the end of the input, or is followed by anything but `)`, is an
/// `UnclosedParenthesis` error pointing at it.
fn parse_primary(p: &mut Parser, depth: usize) -> (r: Result<Expr, Error>)
    requires
        old(p).wf(),
        depth <= MAX_NESTING,
    ensures
        final(p).continues(*old(p)),
        r is Ok ==> final(p).pos() > old(p).pos(),
        r matches Err(e) ==> grammar_error(e.kind),
        at_end(*old(p)) ==> missing_at_end(r, *old(p)),
        forall|k: int| #[trigger] lone_number(*old(p), k) ==> lone_number_parsed(r, *old(p), *final(p), k),
        r matches Ok(e) ==> !(e is Binary) && !(e is Unary) && tree_ok(e)
            && spans_tokens(e, *old(p), *final(p)),
        solid_number(*old(p)) ==> r is Ok
            && final(p).pos() == next_solid(old(p).toks(), old(p).pos() as int) + 1,
    decreases old(p).toks().len() - old(p).pos(), 0int,
{
    proof { old(p).lemma_wf(); }
    let tok = match p.next_token() {
        Ok(t) => t,
        Err(e) => {
            proof { lemma_solid_none(old(p).toks(), old(p).pos() as int); }
            return Err(e);
        },
    };
    proof {
        let ghost cur = *p;
        cur.lemma_wf();
        lemma_taken_is_solid(tok, *old(p), cur);
    }
    let ghost after_open = *p;
    proof {
        let ghost cur = *p;
        cur.lemma_wf();
        assert(cur.toks()[cur.pos() - 1] == tok);
        if old(p).pos() < cur.pos() - 1 {
            cur.lemma_ordered(old(p).pos() as int, cur.pos() - 1);
        }
        lemma_next_token_kinds(tok, *old(p), cur);
    }
    if tok.kind == TokenKind::Number {
        let digits = p.source_bytes(&tok.span);
        proof {
            assert(kinds_of(Expr::Literal(Literal::Number(LitNum { digits, span: tok.span })))
                =~= seq![tok.kind]);
        }
        Ok(Expr::Literal(Literal::Number(LitNum { digits, span: tok.span })))
    } else if tok.kind == TokenKind::OpenParen {
        let accept = (|t: &Token, q: &Parser| -> (r: Result<(), Error>)
                requires
                    q.wf(),
                ensures
                    r is Ok <==> t.kind == TokenKind::CloseParen,
                {
                    if t.kind == TokenKind::CloseParen {
                        Ok(())
                    } else {
                        Err(q.non_fatal())
                    }
                });
        let empty: Result<Token, Error> = p.try_parse_then(accept);
        if let Ok(close) = empty {
            let span = Range { start: tok.span.start, end: close.span.end };
            return Err(Error::new(vec![span], ErrorKind::EmptyParenthesis(EmptyParenthesis)));
        }
        let inner = match parse_binary(p, Precedence::Any.rank(), depth + 1) {
            Ok(e) => e,
            Err(err) => {
                if let ErrorKind::UnexpectedEof(_) = err.kind {
                    let span = Range { start: tok.span.start, end: tok.span.end };
                    return Err(Error::new(vec![span], ErrorKind::UnclosedParenthesis(
                        UnclosedParenthesis { opening: true },
                    )));
                }
                return Err(err);
            },
        };
        let ghost after_inner = *p;
        let close = match p.next_token() {
            Ok(t) => t,
            Err(_) => {
                let span = Range { start: tok.span.start, end: tok.span.end };
                return Err(Error::new(vec![span], ErrorKind::UnclosedParenthesis(
                    UnclosedParenthesis { opening: true },
                )));
            },
        };
        if close.kind != TokenKind::CloseParen {
            let span = Range { start: tok.span.start, end: tok.span.end };
            return Err(Error::new(vec![span], ErrorKind::UnclosedParenthesis(
                UnclosedParenthesis { opening: true },
            )));
        }
        proof {
            let ghost cur = *p;
            cur.lemma_wf();
            assert(cur.toks()[cur.pos() - 1] == close);
            cur.lemma_ordered(after_open.pos() - 1, after_open.pos() as int);
            cur.lemma_ordered(after_inner.pos() - 1, cur.pos() - 1);
            lemma_next_token_kinds(close, after_inner, cur);
            let toks = cur.toks();
            lemma_non_ws_split(toks, old(p).pos() as int, after_open.pos() as int, after_inner.pos() as int);
            lemma_non_ws_split(toks, old(p).pos() as int, after_inner.pos() as int, cur.pos() as int);
            lemma_non_ws_toks_split(toks, old(p).pos() as int, after_open.pos() as int, after_inner.pos() as int);
            lemma_non_ws_toks_split(toks, old(p).pos() as int, after_inner.pos() as int, cur.pos() as int);
        }
        let span = Range { start: tok.span.start, end: close.span.end };
        let e = Expr::Paren(Paren { expr: Box::new(inner), span });
        proof {
            assert(kinds_of(e) =~= seq![TokenKind::OpenParen] + kinds_of(inner) + seq![TokenKind::CloseParen]);
            let ts = non_ws_toks(p.toks(), old(p).pos() as int, p.pos() as int);
            assert(ts.subrange(1, ts.len() - 1) =~= non_ws_toks(p.toks(), after_open.pos() as int, after_inner.pos() as int));
        }
        Ok(e)
    } else {
        Err(Error::new(vec![tok.span], ErrorKind::UnexpectedToken(UnexpectedToken {
            expected: vec![TokenKind::Number, TokenKind::OpenParen],
            found: tok.kind,
        })))
    }
}

/// Parses a literal followed by any number of postfix factorial operators, each wrapping the
/// expression before it.
fn parse_postfix(p: &mut Parser, depth: usize) -> (r: Result<Expr, Error>)
    requires
        old(p).wf(),
        depth <= MAX_NESTING,
    ensures
        final(p).continues(*old(p)),
        r is Ok ==> final(p).pos() > old(p).pos(),
        r matches Err(e) ==> grammar_error(e.kind),
        at_end(*old(p)) ==> missing_at_end(r, *old(p)),
        forall|k: int| #[trigger] lone_number(*old(p), k) ==> lone_number_parsed(r, *old(p), *final(p), k),
        r matches Ok(e) ==> !(e is Binary) && tree_ok(e) && spans_tokens(e, *old(p), *final(p)),
        r matches Ok(e) ==> !is_prefix(e),
        solid_number(*old(p)) ==> r is Ok && final(p).pos()
            == postfix_end(old(p).toks(), next_solid(old(p).toks(), old(p).pos() as int) + 1),
    decreases old(p).toks().len() - old(p).pos(), 1int,
{
    proof { old(p).lemma_wf(); }
    let mut e = match parse_primary(p, depth) {
        Ok(e) => e,
        Err(err) => {
            return Err(err);
        },
    };
    loop
        invariant
            p.continues(*old(p)),
            p.pos() > old(p).pos(),
            !(e is Binary),
            !is_prefix(e),
            solid_number(*old(p)) ==> postfix_end(p.toks(), p.pos() as int)
                == postfix_end(old(p).toks(), next_solid(old(p).toks(), old(p).pos() as int) + 1),
            tree_ok(e),
            spans_tokens(e, *old(p), *p),
            !at_end(*old(p)),
            forall|k: int| #[trigger] lone_number(*old(p), k) ==> lone_number_parsed(Ok(e), *old(p), *p, k),
        decreases p.toks().len() - p.pos(),
    {
        proof { p.lemma_wf(); }
        let ghost before = *p;
        let accept = (|t: &Token, q: &Parser| -> (r: Result<(), Error>)
                requires
                    q.wf(),
                ensures
                    r is Ok <==> t.kind == TokenKind::Factorial,
                {
                    if t.kind == TokenKind::Factorial {
                        Ok(())
                    } else {
                        Err(q.non_fatal())
                    }
                });
        let ghost acc = accept;
        let found: Result<Token, Error> = p.try_parse_then(accept);
        proof { p.lemma_wf(); }
        match found {
            Ok(tok) => {
                proof {
                    let ghost cur = *p;
                    assert(next_token_taken(tok, before, cur));
                    cur.lemma_ordered(before.pos() - 1, cur.pos() - 1);
                    lemma_taken_is_solid(tok, before, cur);
                    lemma_next_token_kinds(tok, before, cur);
                    lemma_non_ws_split(cur.toks(), old(p).pos() as int, before.pos() as int, cur.pos() as int);
                    lemma_non_ws_toks_split(cur.toks(), old(p).pos() as int, before.pos() as int, cur.pos() as int);
                }
                let ghost prev = e;
                let start = e.span().start;
                e = Expr::Unary(Box::new(Unary {
                    operand: e,
                    op: UnaryOp::Factorial,
                    span: Range { start, end: tok.span.end },
                }));
                proof {
                    assert(kinds_of(e) =~= kinds_of(prev) + seq![TokenKind::Factorial]);
                    assert(non_ws_toks(p.toks(), old(p).pos() as int, p.pos() as int).drop_last()
                        =~= non_ws_toks(p.toks(), old(p).pos() as int, before.pos() as int));
                }
            },
            Err(err) => {
                proof {
                    lemma_peek_failed(acc, before, err);
                    let k = next_solid(before.toks(), before.pos() as int);
                    if k < before.toks().len() {
                        let a = choose|a: Parser| #[trigger] acc.ensures((&before.toks()[k], &a), Err::<(), Error>(err));
                        assert(before.toks()[k].kind != TokenKind::Factorial);
                    }
                }
                return Ok(e);
            },
        }
    }
}

/// Parses a unary expression: a prefix operator applied to an operand, or a literal with its
/// postfix operators. The operand of a prefix operator takes in every binary operator that
/// binds at least as tightly as exponentiation, so `-1 ^ 2` is `-(1 ^ 2)`.
fn parse_unary(p: &mut Parser, depth: usize) -> (r: Result<Expr, Error>)
    requires
        old(p).wf(),
        depth <= MAX_NESTING,
    ensures
        final(p).continues(*old(p)),
        r is Ok ==> final(p).pos() > old(p).pos(),
        r matches Err(e) ==> grammar_error(e.kind),
        at_end(*old(p)) ==> missing_at_end(r, *old(p)),
        forall|k: int| #[trigger] lone_number(*old(p), k) ==> lone_number_parsed(r, *old(p), *final(p), k),
        r matches Ok(e) ==> !(e is Binary) && tree_ok(e) && spans_tokens(e, *old(p), *final(p)),
        depth + old(p).toks().len() - old(p).pos() <= MAX_NESTING ==>
            (unary_end(old(p).toks(), old(p).pos() as int) matches Some(j) ==> r is Ok && final(p).pos() == j),
        r matches Ok(e) ==> (is_prefix(e)
            <==> first_ceiling(old(p).toks(), old(p).pos() as int) == Precedence::Factor.rank()),
    decreases old(p).toks().len() - old(p).pos(), 2int,
{
    proof { old(p).lemma_wf(); }
    let accept = (|t: &Token, q: &Parser| -> (r: Result<(), Error>)
            requires
                q.wf(),
            ensures
                r is Ok <==> prefix_op(t.kind) is Some,
            {
                if prefix_op(t.kind).is_some() {
                    Ok(())
                } else {
                    Err(q.non_fatal())
                }
            });
    let ghost acc = accept;
    let found: Result<Token, Error> = p.try_parse_then(accept);
    proof { p.lemma_wf(); }
    match found {
        Ok(tok) => {
            let ghost after_op = *p;
            proof {
                after_op.lemma_wf();
                lemma_taken_is_solid(tok, *old(p), after_op);
                assert(next_token_taken(tok, *old(p), after_op));
                assert(prefix_op(tok.kind) is Some);
                assert forall|k: int| !lone_number(*old(p), k) by {
                    if lone_number(*old(p), k) {
                        let i = after_op.pos() - 1;
                        assert(after_op.toks()[i] == tok);
                        if i < k {
                            assert(old(p).toks()[i].kind == TokenKind::Whitespace);
                        } else if i > k {
                            assert(old(p).toks()[i].kind == TokenKind::Whitespace);
                        }
                    }
                }
            }
            let op = match prefix_op(tok.kind) {
                Some(op) => op,
                None => {
                    return Err(p.non_fatal());
                },
            };
            let operand = match parse_binary(p, Precedence::Exp.rank(), depth + 1) {
                Ok(e) => e,
                Err(err) => {
                    return Err(err);
                },
            };
            proof {
                let ghost cur = *p;
                cur.lemma_wf();
                assert(next_token_taken(tok, *old(p), after_op));
                cur.lemma_ordered(after_op.pos() - 1, after_op.pos() as int);
                if old(p).pos() < after_op.pos() - 1 {
                    cur.lemma_ordered(old(p).pos() as int, after_op.pos() - 1);
                }
                lemma_next_token_kinds(tok, *old(p), after_op);
                lemma_non_ws_split(cur.toks(), old(p).pos() as int, after_op.pos() as int, cur.pos() as int);
                lemma_non_ws_toks_split(cur.toks(), old(p).pos() as int, after_op.pos() as int, cur.pos() as int);
                assert(prefix_kind(op) == tok.kind);
            }
            let end = operand.span().end;
            let ghost inner = operand;
            let e = Expr::Unary(Box::new(Unary { operand, op, span: Range { start: tok.span.start, end } }));
            proof {
                assert(kinds_of(e) =~= seq![prefix_kind(op)] + kinds_of(inner));
                assert(non_ws_toks(p.toks(), old(p).pos() as int, p.pos() as int).drop_first()
                    =~= non_ws_toks(p.toks(), after_op.pos() as int, p.pos() as int));
            }
            Ok(e)
        },
        Err(err) => {
            proof {
                lemma_peek_failed(acc, *old(p), err);
                let k = next_solid(old(p).toks(), old(p).pos() as int);
                if k < old(p).toks().len() {
                    let a = choose|a: Parser| #[trigger] acc.ensures((&old(p).toks()[k], &a), Err::<(), Error>(err));
                    assert(prefix_op_spec(old(p).toks()[k].kind) is None);
                }
            }
            let ghost mid = *p;
            let r = parse_postfix(p, depth);
            proof {
                assert forall|k: int| #[trigger] lone_number(*old(p), k) implies
                    lone_number_parsed(r, *old(p), *p, k) by {
                    assert(lone_number(mid, k));
                }
            }
            r
        },
    }
}

/// Parses an expression whose binary operators all rank at least `min`, by precedence
/// climbing: an operand, then as long as the next operator ranks at least `min`, that operator
/// and its right operand, folded onto what came before. The right operand takes in the
/// operators that rank above the operator (or as high, for a right-associative one), so an
/// operator that follows it always ranks below that bound.
fn parse_binary(p: &mut Parser, min: u8, depth: usize) -> (r: Result<Expr, Error>)
    requires
        old(p).wf(),
        depth <= MAX_NESTING + 1,
    ensures
        final(p).continues(*old(p)),
        r is Ok ==> final(p).pos() > old(p).pos(),
        r matches Err(e) ==> grammar_error(e.kind),
        at_end(*old(p)) && depth <= MAX_NESTING ==> missing_at_end(r, *old(p)),
        depth <= MAX_NESTING ==> forall|k: int| #[trigger] lone_number(*old(p), k) ==> lone_number_parsed(r, *old(p), *final(p), k),
        r matches Ok(e) ==> tree_ok(e) && spans_tokens(e, *old(p), *final(p)),
        r matches Ok(e) ==> (top_binop(e) matches Some(o) ==> o.precedence().rank() >= min),
        depth + old(p).toks().len() - old(p).pos() <= MAX_NESTING ==>
            (binary_end(old(p).toks(), old(p).pos() as int, min) matches Some(j) ==> r is Ok && final(p).pos() == j),
    decreases old(p).toks().len() - old(p).pos(), 3int,
{
    proof { old(p).lemma_wf(); }
    if depth > MAX_NESTING {
        return Err(p.error(ErrorKind::NestingTooDeep(NestingTooDeep { limit: MAX_NESTING })));
    }
    let mut lhs = match parse_unary(p, depth) {
        Ok(e) => e,
        Err(err) => {
            return Err(err);
        },
    };
    // The loop takes only operators that rank below the bound of the last operand: a prefix
    // operation's operand took every operator from exponentiation up, and a right operand's
    // parse took every operator at or above its own bound. So this turns no operator away,
    // and it keeps the order of the fold in view of the proof.
    let mut ceiling: u8 = match &lhs {
        Expr::Unary(u) => if u.op != UnaryOp::Factorial {
            Precedence::Factor.rank()
        } else {
            Precedence::Not.rank()
        },
        _ => Precedence::Not.rank(),
    };
    loop
        invariant
            p.continues(*old(p)),
            p.pos() > old(p).pos(),
            tree_ok(lhs),
            spans_tokens(lhs, *old(p), *p),
            top_binop(lhs) matches Some(o) ==> o.precedence().rank() >= min
                && ceiling as int == rhs_min(o) - 1,
            is_prefix(lhs) ==> ceiling < Precedence::Exp.rank(),
            depth + old(p).toks().len() - old(p).pos() <= MAX_NESTING
                && binary_end(old(p).toks(), old(p).pos() as int, min) is Some ==>
                binary_rest(p.toks(), p.pos() as int, min, ceiling)
                    == binary_end(old(p).toks(), old(p).pos() as int, min),
            depth <= MAX_NESTING,
            !at_end(*old(p)),
            forall|k: int| #[trigger] lone_number(*old(p), k) ==> lone_number_parsed(Ok(lhs), *old(p), *p, k),
        decreases p.toks().len() - p.pos(),
    {
        proof { p.lemma_wf(); }
        let ghost before = *p;
        let accept = (|t: &Token, q: &Parser| -> (r: Result<(), Error>)
                requires
                    q.wf(),
                ensures
                    r is Ok <==> (binop_of(t.kind) matches Some(op)
                        && min <= op.precedence().rank() <= ceiling),
                {
                    match binop_of(t.kind) {
                        Some(op) => {
                            let rank = op.precedence().rank();
                            if min <= rank && rank <= ceiling {
                                Ok(())
                            } else {
                                Err(q.non_fatal())
                            }
                        },
                        None => Err(q.non_fatal()),
                    }
                });
        let ghost acc = accept;
        let found: Result<Token, Error> = p.try_parse_then(accept);
        proof { p.lemma_wf(); }
        match found {
            Ok(tok) => {
                let ghost after_op = *p;
                proof {
                    after_op.lemma_wf();
                    lemma_taken_is_solid(tok, before, after_op);
                }
                let op = match binop_of(tok.kind) {
                    Some(op) => op,
                    None => {
                        return Err(p.non_fatal());
                    },
                };
                let next_min = if op.associativity() == Associativity::Left {
                    op.precedence().rank() + 1
                } else {
                    op.precedence().rank()
                };
                let rhs = match parse_binary(p, next_min, depth + 1) {
                    Ok(e) => e,
                    Err(err) => {
                        return Err(err);
                    },
                };
                proof {
                    let ghost cur = *p;
                    cur.lemma_wf();
                    assert(next_token_taken(tok, before, after_op));
                    cur.lemma_ordered(after_op.pos() - 1, after_op.pos() as int);
                    if before.pos() - 1 < after_op.pos() - 1 {
                        cur.lemma_ordered(before.pos() - 1, after_op.pos() - 1);
                    }
                    lemma_next_token_kinds(tok, before, after_op);
                    let toks = cur.toks();
                    lemma_non_ws_split(toks, old(p).pos() as int, before.pos() as int, after_op.pos() as int);
                    lemma_non_ws_split(toks, old(p).pos() as int, after_op.pos() as int, cur.pos() as int);
                    lemma_non_ws_toks_split(toks, old(p).pos() as int, before.pos() as int, after_op.pos() as int);
                    lemma_non_ws_toks_split(toks, old(p).pos() as int, after_op.pos() as int, cur.pos() as int);
                    lemma_non_ws_toks_kinds(toks, old(p).pos() as int, before.pos() as int);
                    assert(binop_kind(op) == tok.kind);
                }
                let ghost (prev_lhs, new_rhs) = (lhs, rhs);
                let start = lhs.span().start;
                let end = rhs.span().end;
                lhs = Expr::Binary(Box::new(Binary {
                    lhs: Box::new(lhs),
                    op,
                    rhs: Box::new(rhs),
                    span: Range { start, end },
                }));
                proof {
                    assert(kinds_of(lhs) =~= kinds_of(prev_lhs) + seq![binop_kind(op)] + kinds_of(new_rhs));
                    let ts = non_ws_toks(p.toks(), old(p).pos() as int, p.pos() as int);
                    let l = kinds_of(prev_lhs).len() as int;
                    assert(ts.subrange(0, l) =~= non_ws_toks(p.toks(), old(p).pos() as int, before.pos() as int));
                    assert(ts.subrange(l + 1, ts.len() as int)
                        =~= non_ws_toks(p.toks(), after_op.pos() as int, p.pos() as int));
                }
                ceiling = next_min - 1;
            },
            Err(err) => {
                proof {
                    lemma_peek_failed(acc, before, err);
                    let k = next_solid(before.toks(), before.pos() as int);
                    if k < before.toks().len() {
                        let a = choose|a: Parser| #[trigger] acc.ensures((&before.toks()[k], &a), Err::<(), Error>(err));
                        assert(!(binop_of_spec(before.toks()[k].kind) matches Some(op)
                            && min <= op.precedence().rank() <= ceiling));
                    }
                }
                return Ok(lhs);
            },
        }
    }
}

/// The tokens from the cursor of `p`, up to where an expression without parentheses ends,
/// if they start one: how far a successful parse reaches. Nesting is bounded by the number of
/// tokens, so no more than `MAX_NESTING` of them keep clear of the nesting limit.
pub open spec fn expression_end(p: Parser) -> Option<int> {
    if p.toks().len() - p.pos() <= MAX_NESTING {
        binary_end(p.toks(), p.pos() as int, Precedence::Any.rank())
    } else {
        None
    }
}

/// The tokens from the cursor of `p` form exactly one expression without parentheses, of at
/// most `MAX_NESTING` tokens.
pub open spec fn complete_expression(p: Parser) -> bool {
    expression_end(p) == Some(p.toks().len() as int)
}

/// Parses a complete expression, with binary operators of any precedence, into a well-formed
/// tree that spans the tokens it consumed. Where the tokens start an expression without
/// parentheses, it succeeds and stops where that expression ends.
pub fn parse_expr(p: &mut Parser) -> (r: Result<Expr, Error>)
    requires
        old(p).wf(),
    ensures
        final(p).continues(*old(p)),
        r is Ok ==> final(p).pos() > old(p).pos(),
        r matches Err(e) ==> grammar_error(e.kind),
        at_end(*old(p)) ==> missing_at_end(r, *old(p)),
        forall|k: int| #[trigger] lone_number(*old(p), k) ==> lone_number_parsed(r, *old(p), *final(p), k),
        r matches Ok(e) ==> tree_ok(e) && spans_tokens(e, *old(p), *final(p)),
        expression_end(*old(p)) matches Some(j) ==> r is Ok && final(p).pos() == j,
{
    parse_binary(p, Precedence::Any.rank(), 0)
}

impl Parse for Expr {
    open spec fn parsed(value: Expr, before: Parser, after: Parser) -> bool {
        &&& tree_ok(value)
        &&& spans_tokens(value, before, after)
        &&& expression_end(before) matches Some(j) ==> after.pos() == j
    }

    /// The error is one of the grammar's, and `UnexpectedEof` at the end of the source if only
    /// whitespace was left.
    open spec fn failed(err: Error, before: Parser, after: Parser) -> bool {
        &&& grammar_error(err.kind)
        &&& expression_end(before) is None
        &&& at_end(before) ==> err.kind == ErrorKind::UnexpectedEof(UnexpectedEof)
            && err.spans@ == seq![before.eof_span_spec()]
    }

    /// Parses a complete expression, with binary operators of any precedence.
    fn parse(input: &mut Parser) -> (r: Result<Expr, Error>) {
        parse_expr(input)
    }
}

} // verus!
