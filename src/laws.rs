//! Laws of the parser's trees and of the unary operators, proved from the contracts of the
//! parsing and evaluation functions.
use vstd::prelude::*;
use crate::ast::{Associativity, Expr, Precedence, UnaryOp, start_of, end_of};
use crate::error::ValueType;
use crate::grammar::{tree_ok, top_binop, kinds_of, binop_kind, binop_of_spec, prefix_kind, prefix_op_spec,
    postfix_end, unary_end, binary_end, binary_rest, first_ceiling, rhs_min, complete_expression, MAX_NESTING};
use crate::parser::{Parse, Parser, non_ws_kinds, next_solid, lemma_solid_bounds};
use crate::token::{Token, TokenKind};
use crate::unary_eval::{UnaryRule, unary_rule_spec};

verus! {

/// Every binary operation in the chain at the root of `e` has an operator of precedence rank
/// `rank`; the operands of the chain are the first nodes below it that are not binary.
pub open spec fn flat_chain(e: Expr, rank: u8) -> bool
    decreases e,
{
    match e {
        Expr::Binary(b) => b.op.precedence().rank() == rank && flat_chain(*b.lhs, rank)
            && flat_chain(*b.rhs, rank),
        _ => true,
    }
}

/// `e` is `(...((a1 op a2) op a3)...) op an`: no right operand in its chain is binary.
pub open spec fn folds_left(e: Expr) -> bool
    decreases e,
{
    match e {
        Expr::Binary(b) => !(*b.rhs is Binary) && folds_left(*b.lhs),
        _ => true,
    }
}

/// `e` is `a1 op (a2 op (... op an))`: no left operand in its chain is binary.
pub open spec fn folds_right(e: Expr) -> bool
    decreases e,
{
    match e {
        Expr::Binary(b) => !(*b.lhs is Binary) && folds_right(*b.rhs),
        _ => true,
    }
}

/// The node `depth` levels down the chain of unary operations at the root of `e`.
pub open spec fn unary_at(e: Expr, depth: nat) -> Expr
    decreases depth,
{
    if depth == 0 {
        e
    } else {
        match e {
            Expr::Unary(u) => unary_at(u.operand, (depth - 1) as nat),
            _ => e,
        }
    }
}

/// The `n` nodes at the root of `e` are unary operations whose operator satisfies `is_op`.
pub open spec fn unary_chain(e: Expr, n: nat, is_op: spec_fn(UnaryOp) -> bool) -> bool
    decreases n,
{
    n == 0 || match e {
        Expr::Unary(u) => is_op(u.op) && unary_chain(u.operand, (n - 1) as nat, is_op),
        _ => false,
    }
}

/// In a well-formed tree, a chain of binary operations that all have the precedence of a
/// left-associative operator folds to the left: `a + b - c + d` is `((a + b) - c) + d`.
pub proof fn lemma_left_associative_chain(e: Expr, rank: u8)
    requires
        tree_ok(e),
        flat_chain(e, rank),
        rank == Precedence::Term.rank() || rank == Precedence::Factor.rank(),
    ensures
        folds_left(e),
    decreases e,
{
    if let Expr::Binary(b) = e {
        assert(b.op.associativity() == Associativity::Left);
        lemma_left_associative_chain(*b.lhs, rank);
        assert(flat_chain(*b.rhs, rank));
        if let Expr::Binary(r) = *b.rhs {
            assert(top_binop(*b.rhs) == Some(r.op));
            assert(r.op.precedence().rank() == rank);
        }
    }
}

/// In a well-formed tree, a chain of exponentiations folds to the right: `a ^ b ^ c` is
/// `a ^ (b ^ c)`.
pub proof fn lemma_right_associative_chain(e: Expr)
    requires
        tree_ok(e),
        flat_chain(e, Precedence::Exp.rank()),
    ensures
        folds_right(e),
    decreases e,
{
    if let Expr::Binary(b) = e {
        assert(b.op.associativity() == Associativity::Right);
        lemma_right_associative_chain(*b.rhs);
        if let Expr::Binary(l) = *b.lhs {
            assert(top_binop(*b.lhs) == Some(l.op));
            assert(l.op.precedence().rank() == Precedence::Exp.rank());
        }
    }
}

/// In a well-formed tree, along a chain of `n` postfix factorials every node starts where its
/// operand starts and ends after it: the factorial nearest the operand in the source is the
/// innermost node, and `3!!` is `(3!)!`.
pub proof fn lemma_postfix_chain(e: Expr, n: nat)
    requires
        tree_ok(e),
        unary_chain(e, n, |op: UnaryOp| op == UnaryOp::Factorial),
    ensures
        forall|k: nat| k < n ==> {
            &&& tree_ok(#[trigger] unary_at(e, k))
            &&& start_of(unary_at(e, k + 1)) == start_of(unary_at(e, k))
            &&& end_of(unary_at(e, k + 1)) < end_of(unary_at(e, k))
        },
    decreases n,
{
    if n > 0 {
        if let Expr::Unary(u) = e {
            lemma_postfix_chain(u.operand, (n - 1) as nat);
            assert forall|k: nat| k < n implies {
                &&& tree_ok(#[trigger] unary_at(e, k))
                &&& start_of(unary_at(e, k + 1)) == start_of(unary_at(e, k))
                &&& end_of(unary_at(e, k + 1)) < end_of(unary_at(e, k))
            } by {
                if k > 0 {
                    let j = (k - 1) as nat;
                    assert(unary_at(e, k) == unary_at(u.operand, j));
                    assert(unary_at(e, k + 1) == unary_at(u.operand, j + 1));
                } else {
                    assert(unary_at(e, 1) == unary_at(u.operand, 0));
                }
            }
        }
    }
}

/// In a well-formed tree, along a chain of `n` prefix `not` and `-` operators every node ends
/// where its operand ends and starts before it: the operator first in the source is the
/// outermost node, and `not -3` is `not (-3)`.
pub proof fn lemma_prefix_chain(e: Expr, n: nat)
    requires
        tree_ok(e),
        unary_chain(e, n, |op: UnaryOp| op == UnaryOp::Not || op == UnaryOp::Neg),
    ensures
        forall|k: nat| k < n ==> {
            &&& tree_ok(#[trigger] unary_at(e, k))
            &&& start_of(unary_at(e, k)) < start_of(unary_at(e, k + 1))
            &&& end_of(unary_at(e, k + 1)) == end_of(unary_at(e, k))
        },
    decreases n,
{
    if n > 0 {
        if let Expr::Unary(u) = e {
            lemma_prefix_chain(u.operand, (n - 1) as nat);
            assert forall|k: nat| k < n implies {
                &&& tree_ok(#[trigger] unary_at(e, k))
                &&& start_of(unary_at(e, k)) < start_of(unary_at(e, k + 1))
                &&& end_of(unary_at(e, k + 1)) == end_of(unary_at(e, k))
            } by {
                if k > 0 {
                    let j = (k - 1) as nat;
                    assert(unary_at(e, k) == unary_at(u.operand, j));
                    assert(unary_at(e, k + 1) == unary_at(u.operand, j + 1));
                } else {
                    assert(unary_at(e, 1) == unary_at(u.operand, 0));
                }
            }
        }
    }
}

/// `k` is a number, or a binary operator of precedence rank `rank`.
pub open spec fn chain_kind(k: TokenKind, rank: u8) -> bool {
    k == TokenKind::Number || (binop_of_spec(k) matches Some(op) && op.precedence().rank() == rank)
}

/// A tree whose tokens are all numbers and binary operators of one precedence rank is a chain
/// of binary operations of that rank.
pub proof fn lemma_chain_kinds_flat(e: Expr, rank: u8)
    requires
        forall|i: int| 0 <= i < kinds_of(e).len() ==> chain_kind(#[trigger] kinds_of(e)[i], rank),
    ensures
        flat_chain(e, rank),
    decreases e,
{
    if let Expr::Binary(b) = e {
        let kl = kinds_of(*b.lhs);
        let kr = kinds_of(*b.rhs);
        let all = kinds_of(e);
        assert(all == kl + seq![binop_kind(b.op)] + kr);
        assert(all[kl.len() as int] == binop_kind(b.op));
        assert(chain_kind(all[kl.len() as int], rank));
        assert(binop_of_spec(binop_kind(b.op)) == Some(b.op));
        assert forall|i: int| 0 <= i < kl.len() implies chain_kind(#[trigger] kl[i], rank) by {
            assert(all[i] == kl[i]);
        }
        assert forall|i: int| 0 <= i < kr.len() implies chain_kind(#[trigger] kr[i], rank) by {
            assert(all[kl.len() + 1 + i] == kr[i]);
        }
        lemma_chain_kinds_flat(*b.lhs, rank);
        lemma_chain_kinds_flat(*b.rhs, rank);
    }
}

/// A parsed expression whose tokens are numbers joined by left-associative operators of one
/// precedence (`+` and `-`, or `*`, `/` and `%`) folds to the left: `1 - 2 + 3` parses as
/// `(1 - 2) + 3`.
pub proof fn lemma_parsed_left_chain(e: Expr, before: Parser, after: Parser, rank: u8)
    requires
        <Expr as Parse>::parsed(e, before, after),
        rank == Precedence::Term.rank() || rank == Precedence::Factor.rank(),
        forall|i: int| 0 <= i < non_ws_kinds(after.toks(), before.pos() as int, after.pos() as int).len()
            ==> chain_kind(#[trigger] non_ws_kinds(after.toks(), before.pos() as int, after.pos() as int)[i], rank),
    ensures
        folds_left(e),
{
    lemma_chain_kinds_flat(e, rank);
    lemma_left_associative_chain(e, rank);
}

/// A parsed expression whose tokens are numbers joined by `^` folds to the right: `1 ^ 2 ^ 3`
/// parses as `1 ^ (2 ^ 3)`.
pub proof fn lemma_parsed_exp_chain(e: Expr, before: Parser, after: Parser)
    requires
        <Expr as Parse>::parsed(e, before, after),
        forall|i: int| 0 <= i < non_ws_kinds(after.toks(), before.pos() as int, after.pos() as int).len()
            ==> chain_kind(#[trigger] non_ws_kinds(after.toks(), before.pos() as int, after.pos() as int)[i],
                Precedence::Exp.rank()),
    ensures
        folds_right(e),
{
    lemma_chain_kinds_flat(e, Precedence::Exp.rank());
    lemma_right_associative_chain(e);
}

/// The tokens of every expression hold a number.
pub proof fn lemma_kinds_hold_number(e: Expr)
    ensures
        kinds_of(e).contains(TokenKind::Number),
    decreases e,
{
    match e {
        Expr::Literal(_) => {
            assert(kinds_of(e)[0] == TokenKind::Number);
        },
        Expr::Paren(p) => {
            lemma_kinds_hold_number(*p.expr);
            let i = choose|i: int| 0 <= i < kinds_of(*p.expr).len() && kinds_of(*p.expr)[i] == TokenKind::Number;
            assert(kinds_of(e)[i + 1] == TokenKind::Number);
        },
        Expr::Unary(u) => {
            lemma_kinds_hold_number(u.operand);
            let i = choose|i: int| 0 <= i < kinds_of(u.operand).len() && kinds_of(u.operand)[i] == TokenKind::Number;
            if u.op == UnaryOp::Factorial {
                assert(kinds_of(e)[i] == TokenKind::Number);
            } else {
                assert(kinds_of(e)[i + 1] == TokenKind::Number);
            }
        },
        Expr::Binary(b) => {
            lemma_kinds_hold_number(*b.lhs);
            let i = choose|i: int| 0 <= i < kinds_of(*b.lhs).len() && kinds_of(*b.lhs)[i] == TokenKind::Number;
            assert(kinds_of(e)[i] == TokenKind::Number);
        },
    }
}

/// The kinds of the tokens of a number followed by `n` factorial operators.
pub open spec fn factorial_kinds(n: nat) -> Seq<TokenKind>
    decreases n,
{
    if n == 0 {
        seq![TokenKind::Number]
    } else {
        factorial_kinds((n - 1) as nat).push(TokenKind::Factorial)
    }
}

proof fn lemma_factorial_kinds_shape(n: nat)
    ensures
        factorial_kinds(n).len() == n + 1,
        factorial_kinds(n)[0] == TokenKind::Number,
        forall|i: int| 0 < i < factorial_kinds(n).len() ==> #[trigger] factorial_kinds(n)[i] == TokenKind::Factorial,
    decreases n,
{
    if n > 0 {
        lemma_factorial_kinds_shape((n - 1) as nat);
    }
}

/// A well-formed tree whose tokens are a number and `n` factorial operators is `n` factorials
/// nested around that number.
pub proof fn lemma_factorial_kinds(e: Expr, n: nat)
    requires
        tree_ok(e),
        kinds_of(e) == factorial_kinds(n),
    ensures
        unary_chain(e, n, |op: UnaryOp| op == UnaryOp::Factorial),
        unary_at(e, n) is Literal,
    decreases n,
{
    lemma_factorial_kinds_shape(n);
    lemma_kinds_hold_number(e);
    match e {
        Expr::Literal(_) => {},
        Expr::Paren(p) => {
            assert(kinds_of(e)[0] == TokenKind::OpenParen);
        },
        Expr::Unary(u) => {
            lemma_kinds_hold_number(u.operand);
            if u.op == UnaryOp::Factorial {
                if n == 0 {
                    assert(kinds_of(e).len() >= 2);
                } else {
                    lemma_factorial_kinds_shape((n - 1) as nat);
                    assert(kinds_of(u.operand) =~= kinds_of(e).drop_last());
                    assert(kinds_of(u.operand) =~= factorial_kinds((n - 1) as nat));
                    lemma_factorial_kinds(u.operand, (n - 1) as nat);
                    assert(unary_at(e, n) == unary_at(u.operand, (n - 1) as nat));
                }
            } else {
                assert(kinds_of(e)[0] == prefix_kind(u.op));
            }
        },
        Expr::Binary(b) => {
            let kl = kinds_of(*b.lhs);
            lemma_kinds_hold_number(*b.lhs);
            let i = choose|i: int| 0 <= i < kl.len() && kl[i] == TokenKind::Number;
            assert(kinds_of(e)[i] == TokenKind::Number);
            assert(kinds_of(e)[kl.len() as int] == binop_kind(b.op));
        },
    }
}

/// A parsed number followed by `n` factorial operators is `n` factorials nested around the
/// number, the innermost applied first: `3!!` parses as `(3!)!`.
pub proof fn lemma_parsed_factorials(e: Expr, before: Parser, after: Parser, n: nat)
    requires
        <Expr as Parse>::parsed(e, before, after),
        non_ws_kinds(after.toks(), before.pos() as int, after.pos() as int) == factorial_kinds(n),
    ensures
        unary_chain(e, n, |op: UnaryOp| op == UnaryOp::Factorial),
        unary_at(e, n) is Literal,
        forall|k: nat| k < n ==> end_of(unary_at(e, k + 1)) < end_of(#[trigger] unary_at(e, k)),
{
    lemma_factorial_kinds(e, n);
    lemma_postfix_chain(e, n);
}

/// The kinds of the tokens of the prefix operators `ops` followed by a number.
pub open spec fn prefix_kinds(ops: Seq<UnaryOp>) -> Seq<TokenKind> {
    Seq::new(ops.len(), |i: int| prefix_kind(ops[i])).push(TokenKind::Number)
}

/// `e` is the prefix operators `ops`, the first of them at the root, applied to a literal.
pub open spec fn prefix_chain_of(e: Expr, ops: Seq<UnaryOp>) -> bool
    decreases ops.len(),
{
    if ops.len() == 0 {
        e is Literal
    } else {
        match e {
            Expr::Unary(u) => u.op == ops[0] && prefix_chain_of(u.operand, ops.drop_first()),
            _ => false,
        }
    }
}

/// A well-formed tree whose tokens are the prefix operators `ops` and then a number applies
/// those operators in order, the first outermost.
pub proof fn lemma_prefix_kinds(e: Expr, ops: Seq<UnaryOp>)
    requires
        tree_ok(e),
        forall|i: int| 0 <= i < ops.len() ==> #[trigger] ops[i] == UnaryOp::Not || ops[i] == UnaryOp::Neg,
        kinds_of(e) == prefix_kinds(ops),
    ensures
        prefix_chain_of(e, ops),
    decreases ops.len(),
{
    let ks = prefix_kinds(ops);
    assert(ks.len() == ops.len() + 1);
    assert(ks[ops.len() as int] == TokenKind::Number);
    assert(forall|i: int| 0 <= i < ops.len() ==> #[trigger] ks[i] == prefix_kind(ops[i]));
    lemma_kinds_hold_number(e);
    match e {
        Expr::Literal(_) => {},
        Expr::Paren(p) => {
            assert(kinds_of(e)[0] == TokenKind::OpenParen);
        },
        Expr::Unary(u) => {
            lemma_kinds_hold_number(u.operand);
            if u.op == UnaryOp::Factorial {
                assert(kinds_of(e).last() == TokenKind::Factorial);
            } else if ops.len() == 0 {
                assert(kinds_of(e).len() >= 2);
            } else {
                assert(kinds_of(e)[0] == prefix_kind(u.op));
                assert(u.op == ops[0]);
                let rest = ops.drop_first();
                assert(kinds_of(u.operand) =~= kinds_of(e).drop_first());
                assert(prefix_kinds(rest) =~= prefix_kinds(ops).drop_first());
                lemma_prefix_kinds(u.operand, rest);
            }
        },
        Expr::Binary(b) => {
            let kl = kinds_of(*b.lhs);
            let kr = kinds_of(*b.rhs);
            lemma_kinds_hold_number(*b.lhs);
            lemma_kinds_hold_number(*b.rhs);
            let i = choose|i: int| 0 <= i < kl.len() && kl[i] == TokenKind::Number;
            assert(kinds_of(e)[i] == TokenKind::Number);
            assert(kinds_of(e).len() == kl.len() + 1 + kr.len());
        },
    }
}

/// A parsed run of prefix `not` and `-` operators followed by a number nests them with the
/// first in the source outermost: `not -3` parses as `not (-3)`.
pub proof fn lemma_parsed_prefixes(e: Expr, before: Parser, after: Parser, ops: Seq<UnaryOp>)
    requires
        <Expr as Parse>::parsed(e, before, after),
        forall|i: int| 0 <= i < ops.len() ==> #[trigger] ops[i] == UnaryOp::Not || ops[i] == UnaryOp::Neg,
        non_ws_kinds(after.toks(), before.pos() as int, after.pos() as int) == prefix_kinds(ops),
    ensures
        prefix_chain_of(e, ops),
{
    lemma_prefix_kinds(e, ops);
}

/// Where an operand starting from token `i` ends: prefix `not` and `-` operators, then a
/// number and its factorial operators.
pub open spec fn atom_end(toks: Seq<Token>, i: int) -> Option<int>
    decreases toks.len() - i,
{
    let k = next_solid(toks, i);
    if !(0 <= i <= k < toks.len()) {
        None
    } else if prefix_op_spec(toks[k].kind) is Some {
        atom_end(toks, k + 1)
    } else if toks[k].kind == TokenKind::Number {
        Some(postfix_end(toks, k + 1))
    } else {
        None
    }
}

/// From the end `a` of an operand to the end of the tokens: binary operators, each followed
/// by an operand, and nothing else, not even whitespace at the end.
pub open spec fn operands_follow(toks: Seq<Token>, a: int) -> bool
    decreases toks.len() - a,
{
    if a == toks.len() {
        true
    } else if 0 <= a < toks.len() {
        let k = next_solid(toks, a);
        &&& a <= k < toks.len()
        &&& binop_of_spec(toks[k].kind) is Some
        &&& atom_end(toks, k + 1) matches Some(a2) && k < a2 <= toks.len() && operands_follow(toks, a2)
    } else {
        false
    }
}

/// From token `i` to the end: an expression without parentheses, operands joined by binary
/// operators of any precedence.
pub open spec fn flat_expression(toks: Seq<Token>, i: int) -> bool {
    atom_end(toks, i) matches Some(a) && i < a && operands_follow(toks, a)
}

/// The rank of the binary operator at the token after `a`, if there is one.
pub open spec fn op_rank_after(toks: Seq<Token>, a: int) -> u8 {
    let k = next_solid(toks, a);
    if 0 <= k < toks.len() && binop_of_spec(toks[k].kind) is Some {
        binop_of_spec(toks[k].kind).unwrap().precedence().rank()
    } else {
        0
    }
}

/// Where precedence climbing from the operand end `a` stops for bound `min`: at the first
/// operator that ranks below `min`, or at the end.
pub open spec fn climb_stop(toks: Seq<Token>, a: int, min: u8) -> int
    decreases toks.len() - a,
{
    if !(0 <= a < toks.len()) || !operands_follow(toks, a) {
        a
    } else if op_rank_after(toks, a) < min {
        a
    } else {
        let k = next_solid(toks, a);
        match atom_end(toks, k + 1) {
            Some(a2) => if a <= k < a2 <= toks.len() { climb_stop(toks, a2, min) } else { a },
            None => a,
        }
    }
}

proof fn lemma_atom_end_bounds(toks: Seq<Token>, i: int)
    requires
        0 <= i <= toks.len(),
        atom_end(toks, i) is Some,
    ensures
        i < atom_end(toks, i).unwrap() <= toks.len(),
    decreases toks.len() - i,
{
    lemma_solid_bounds(toks, i);
    let k = next_solid(toks, i);
    if prefix_op_spec(toks[k].kind) is Some {
        lemma_atom_end_bounds(toks, k + 1);
    } else {
        lemma_postfix_end_bounds(toks, k + 1);
    }
}

proof fn lemma_postfix_end_bounds(toks: Seq<Token>, j: int)
    requires
        0 <= j <= toks.len(),
    ensures
        j <= postfix_end(toks, j) <= toks.len(),
    decreases toks.len() - j,
{
    lemma_solid_bounds(toks, j);
    let k = next_solid(toks, j);
    if k < toks.len() && toks[k].kind == TokenKind::Factorial {
        lemma_postfix_end_bounds(toks, k + 1);
    }
}

/// Climbing stops at or after where it starts, on an operand end followed by operands, before
/// an operator that ranks below the bound or at the end.
proof fn lemma_climb_stop(toks: Seq<Token>, a: int, min: u8)
    requires
        0 <= a <= toks.len(),
        operands_follow(toks, a),
    ensures
        a <= climb_stop(toks, a, min) <= toks.len(),
        operands_follow(toks, climb_stop(toks, a, min)),
        climb_stop(toks, a, min) < toks.len() ==> op_rank_after(toks, climb_stop(toks, a, min)) < min,
        min == 0 ==> climb_stop(toks, a, min) == toks.len(),
    decreases toks.len() - a,
{
    if a < toks.len() {
        lemma_solid_bounds(toks, a);
        let k = next_solid(toks, a);
        if op_rank_after(toks, a) >= min {
            lemma_atom_end_bounds(toks, k + 1);
            lemma_climb_stop(toks, atom_end(toks, k + 1).unwrap(), min);
        }
    }
}

/// Climbing with a lower bound from where a higher one stopped ends where the lower one would
/// have from the start.
proof fn lemma_climb_compose(toks: Seq<Token>, a: int, low: u8, high: u8)
    requires
        0 <= a <= toks.len(),
        operands_follow(toks, a),
        low <= high,
    ensures
        climb_stop(toks, climb_stop(toks, a, high), low) == climb_stop(toks, a, low),
    decreases toks.len() - a,
{
    if a < toks.len() && op_rank_after(toks, a) >= high {
        lemma_solid_bounds(toks, a);
        let k = next_solid(toks, a);
        lemma_atom_end_bounds(toks, k + 1);
        lemma_climb_compose(toks, atom_end(toks, k + 1).unwrap(), low, high);
    }
}

/// Precedence climbing over an expression without parentheses, from token `i` with bound
/// `min`, ends where `climb_stop` says.
proof fn lemma_binary_end_flat(toks: Seq<Token>, i: int, min: u8)
    requires
        0 <= i <= toks.len(),
        flat_expression(toks, i),
        min <= 3,
    ensures
        binary_end(toks, i, min) == Some(climb_stop(toks, atom_end(toks, i).unwrap(), min)),
        unary_end(toks, i) is Some,
        prefix_op_spec(toks[next_solid(toks, i)].kind) is Some ==>
            unary_end(toks, i) == Some(climb_stop(toks, atom_end(toks, i).unwrap(), Precedence::Exp.rank())),
        !(prefix_op_spec(toks[next_solid(toks, i)].kind) is Some) ==>
            unary_end(toks, i) == atom_end(toks, i),
    decreases toks.len() - i, 0int,
{
    lemma_solid_bounds(toks, i);
    let k = next_solid(toks, i);
    let a = atom_end(toks, i).unwrap();
    lemma_atom_end_bounds(toks, i);
    if prefix_op_spec(toks[k].kind) is Some {
        lemma_atom_end_bounds(toks, k + 1);
        lemma_binary_end_flat(toks, k + 1, Precedence::Exp.rank());
        let u = climb_stop(toks, a, Precedence::Exp.rank());
        lemma_climb_stop(toks, a, Precedence::Exp.rank());
        assert(unary_end(toks, i) == Some(u));
        assert(first_ceiling(toks, i) == Precedence::Factor.rank());
        lemma_binary_rest_flat(toks, u, min, Precedence::Factor.rank());
        lemma_climb_compose(toks, a, min, Precedence::Exp.rank());
    } else {
        assert(unary_end(toks, i) == Some(a));
        lemma_binary_rest_flat(toks, a, min, first_ceiling(toks, i));
    }
}

/// Taking operators from the operand end `j` with bounds `min` and `ceiling`, where the next
/// operator is within the ceiling or below `min`, ends where `climb_stop` says.
proof fn lemma_binary_rest_flat(toks: Seq<Token>, j: int, min: u8, ceiling: u8)
    requires
        0 <= j <= toks.len(),
        operands_follow(toks, j),
        min <= 3,
        ceiling <= 6,
        j < toks.len() ==> op_rank_after(toks, j) <= ceiling || op_rank_after(toks, j) < min,
    ensures
        binary_rest(toks, j, min, ceiling) == Some(climb_stop(toks, j, min)),
    decreases toks.len() - j, 1int,
{
    lemma_solid_bounds(toks, j);
    if j < toks.len() && op_rank_after(toks, j) >= min {
        let k = next_solid(toks, j);
        let op = binop_of_spec(toks[k].kind).unwrap();
        let a = atom_end(toks, k + 1).unwrap();
        lemma_atom_end_bounds(toks, k + 1);
        assert(flat_expression(toks, k + 1));
        lemma_binary_end_flat(toks, k + 1, rhs_min(op));
        let s2 = climb_stop(toks, a, rhs_min(op));
        lemma_climb_stop(toks, a, rhs_min(op));
        lemma_binary_rest_flat(toks, s2, min, (rhs_min(op) - 1) as u8);
        lemma_climb_compose(toks, a, min, rhs_min(op));
    }
}

/// Every expression without parentheses, of no more than `MAX_NESTING` tokens, is complete:
/// operands (prefix operators, a number, factorial operators) joined by binary operators of
/// any precedence parse in full, as `-1 ^ -2 * 3` and `1 + 2 * 3 - 4 / 5 ^ 6` do.
pub proof fn lemma_flat_expression_complete(p: Parser)
    requires
        flat_expression(p.toks(), p.pos() as int),
        p.toks().len() - p.pos() <= MAX_NESTING,
    ensures
        complete_expression(p),
{
    let toks = p.toks();
    let i = p.pos() as int;
    lemma_atom_end_bounds(toks, i);
    lemma_binary_end_flat(toks, i, Precedence::Any.rank());
    lemma_climb_stop(toks, atom_end(toks, i).unwrap(), Precedence::Any.rank());
}

/// `not` applied to a real number compares it with zero, whatever the number.
pub proof fn lemma_not_of_number()
    ensures
        unary_rule_spec(UnaryOp::Not, ValueType::Number) == Some(UnaryRule::IsZero),
{
}

/// Factorial and bitwise not apply to real numbers only: on a complex number, a boolean or the
/// unit value there is no rule, and evaluation fails with the error that names the operator
/// and the operand's type.
pub proof fn lemma_integer_operators_need_numbers(op: UnaryOp, ty: ValueType)
    requires
        op == UnaryOp::Factorial || op == UnaryOp::BitNot,
        ty != ValueType::Number,
    ensures
        unary_rule_spec(op, ty) is None,
{
}

} // verus!
