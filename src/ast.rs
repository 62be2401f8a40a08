//! The abstract syntax tree: operators with their precedence and associativity, literals, and
//! expressions whose nodes carry the source span they were parsed from.
use vstd::prelude::*;
use std::ops::Range;
use std::cmp::Ordering;

verus! {

/// The associativity of a binary or unary operation.
#[derive(Debug, Clone, Copy, PartialEq, Eq, Structural)]
pub enum Associativity {
    /// `a op b op c` is `(a op b) op c`; a unary operator of this kind follows its operand.
    Left,
    /// `a op b op c` is `a op (b op c)`; a unary operator of this kind precedes its operand.
    Right,
}

/// The precedence of an operation, from lowest (evaluated last) to highest (evaluated first).
#[derive(Debug, Clone, Copy, PartialEq, Eq, Structural)]
pub enum Precedence {
    /// Any precedence.
    Any,
    /// Addition (`+`) and subtraction (`-`), which separate terms.
    Term,
    /// Multiplication (`*`), division (`/`) and modulo (`%`), which separate factors.
    Factor,
    /// Exponentiation (`^`).
    Exp,
    /// Factorial (`!`).
    Factorial,
    /// Unary subtraction (`-`).
    Neg,
    /// Logical not (`not`).
    Not,
}

impl Precedence {
    /// The position of this precedence in the order from lowest to highest.
    pub open spec fn rank_spec(self) -> u8 {
        match self {
            Precedence::Any => 0,
            Precedence::Term => 1,
            Precedence::Factor => 2,
            Precedence::Exp => 3,
            Precedence::Factorial => 4,
            Precedence::Neg => 5,
            Precedence::Not => 6,
        }
    }

    /// The position of this precedence in the order from lowest to highest.
    #[verifier::when_used_as_spec(rank_spec)]
    pub fn rank(self) -> (r: u8)
        ensures
            r == self.rank_spec(),
    {
        match self {
            Precedence::Any => 0,
            Precedence::Term => 1,
            Precedence::Factor => 2,
            Precedence::Exp => 3,
            Precedence::Factorial => 4,
            Precedence::Neg => 5,
            Precedence::Not => 6,
        }
    }
}

/// The order of two ranks.
pub open spec fn compare_ranks(a: u8, b: u8) -> Ordering {
    if a < b {
        Ordering::Less
    } else if a == b {
        Ordering::Equal
    } else {
        Ordering::Greater
    }
}

impl PartialOrd for Precedence {
    fn partial_cmp(&self, other: &Self) -> (r: Option<Ordering>)
        ensures
            r == Some(compare_ranks(self.rank(), other.rank())),
    {
        let left = self.rank();
        let right = other.rank();
        if left < right {
            Some(Ordering::Less)
        } else if left == right {
            Some(Ordering::Equal)
        } else {
            Some(Ordering::Greater)
        }
    }
}

impl vstd::std_specs::cmp::PartialOrdSpecImpl for Precedence {
    open spec fn obeys_partial_cmp_spec() -> bool {
        true
    }

    open spec fn partial_cmp_spec(&self, other: &Precedence) -> Option<Ordering> {
        Some(compare_ranks(self.rank(), other.rank()))
    }
}

/// A unary operator.
#[derive(Debug, Clone, Copy, PartialEq, Eq, Structural)]
pub enum UnaryOp {
    /// Logical not, prefix `not`.
    Not,
    /// Bitwise not. It has evaluation rules but no surface syntax: the grammar never produces it.
    BitNot,
    /// Factorial, postfix `!`.
    Factorial,
    /// Negation, prefix `-`.
    Neg,
}

impl UnaryOp {
    pub open spec fn precedence_spec(self) -> Precedence {
        match self {
            UnaryOp::Not => Precedence::Not,
            UnaryOp::BitNot => Precedence::Not,
            UnaryOp::Factorial => Precedence::Factorial,
            UnaryOp::Neg => Precedence::Neg,
        }
    }

    /// The precedence of this operator.
    #[verifier::when_used_as_spec(precedence_spec)]
    pub fn precedence(self) -> (r: Precedence)
        ensures
            r == self.precedence_spec(),
    {
        match self {
            UnaryOp::Not => Precedence::Not,
            UnaryOp::BitNot => Precedence::Not,
            UnaryOp::Factorial => Precedence::Factorial,
            UnaryOp::Neg => Precedence::Neg,
        }
    }

    pub open spec fn associativity_spec(self) -> Associativity {
        match self {
            UnaryOp::Factorial => Associativity::Left,
            _ => Associativity::Right,
        }
    }

    /// The associativity of this operator: `Left` for postfix operators, `Right` for prefix ones.
    #[verifier::when_used_as_spec(associativity_spec)]
    pub fn associativity(self) -> (r: Associativity)
        ensures
            r == self.associativity_spec(),
    {
        match self {
            UnaryOp::Factorial => Associativity::Left,
            _ => Associativity::Right,
        }
    }
}

/// A binary operator.
#[derive(Debug, Clone, Copy, PartialEq, Eq, Structural)]
pub enum BinOp {
    Exp,
    Mul,
    Div,
    Mod,
    Add,
    Sub,
}

impl BinOp {
    pub open spec fn precedence_spec(self) -> Precedence {
        match self {
            BinOp::Exp => Precedence::Exp,
            BinOp::Mul | BinOp::Div | BinOp::Mod => Precedence::Factor,
            BinOp::Add | BinOp::Sub => Precedence::Term,
        }
    }

    /// The precedence of this operator.
    #[verifier::when_used_as_spec(precedence_spec)]
    pub fn precedence(self) -> (r: Precedence)
        ensures
            r == self.precedence_spec(),
    {
        match self {
            BinOp::Exp => Precedence::Exp,
            BinOp::Mul | BinOp::Div | BinOp::Mod => Precedence::Factor,
            BinOp::Add | BinOp::Sub => Precedence::Term,
        }
    }

    pub open spec fn associativity_spec(self) -> Associativity {
        match self {
            BinOp::Exp => Associativity::Right,
            _ => Associativity::Left,
        }
    }

    /// The associativity of this operator: only exponentiation is right-associative.
    #[verifier::when_used_as_spec(associativity_spec)]
    pub fn associativity(self) -> (r: Associativity)
        ensures
            r == self.associativity_spec(),
    {
        match self {
            BinOp::Exp => Associativity::Right,
            _ => Associativity::Left,
        }
    }
}

/// A numeric literal: the source bytes of the number and their span.
#[derive(Debug, PartialEq)]
pub struct LitNum {
    /// The digits of the number as written, with the decimal point if there is one.
    pub digits: Vec<u8>,
    pub span: Range<usize>,
}

/// A literal value.
#[derive(Debug, PartialEq)]
pub enum Literal {
    Number(LitNum),
}

/// A unary operation: an operator applied to one operand.
#[derive(Debug, PartialEq)]
pub struct Unary {
    pub operand: Expr,
    pub op: UnaryOp,
    /// The region covering the operator and the operand.
    pub span: Range<usize>,
}

/// A binary operation: an operator applied to two operands.
#[derive(Debug, PartialEq)]
pub struct Binary {
    pub lhs: Box<Expr>,
    pub op: BinOp,
    pub rhs: Box<Expr>,
    /// The region from the start of `lhs` to the end of `rhs`.
    pub span: Range<usize>,
}

/// An expression in parentheses.
#[derive(Debug, PartialEq)]
pub struct Paren {
    pub expr: Box<Expr>,
    /// The region from the opening to the closing parenthesis, both included.
    pub span: Range<usize>,
}

/// An expression.
#[derive(Debug, PartialEq)]
pub enum Expr {
    Literal(Literal),
    Paren(Paren),
    Unary(Box<Unary>),
    Binary(Box<Binary>),
}

/// The start of an expression's span.
pub open spec fn start_of(e: Expr) -> usize {
    match e {
        Expr::Literal(Literal::Number(n)) => n.span.start,
        Expr::Paren(p) => p.span.start,
        Expr::Unary(u) => u.span.start,
        Expr::Binary(b) => b.span.start,
    }
}

/// The end of an expression's span.
pub open spec fn end_of(e: Expr) -> usize {
    match e {
        Expr::Literal(Literal::Number(n)) => n.span.end,
        Expr::Paren(p) => p.span.end,
        Expr::Unary(u) => u.span.end,
        Expr::Binary(b) => b.span.end,
    }
}

impl Expr {
    /// The region of the source code this expression was parsed from.
    pub fn span(&self) -> (r: Range<usize>)
        ensures
            r.start == start_of(*self),
            r.end == end_of(*self),
    {
        match self {
            Expr::Literal(Literal::Number(n)) => Range { start: n.span.start, end: n.span.end },
            Expr::Paren(p) => Range { start: p.span.start, end: p.span.end },
            Expr::Unary(u) => Range { start: u.span.start, end: u.span.end },
            Expr::Binary(b) => Range { start: b.span.start, end: b.span.end },
        }
    }
}

} // verus!
