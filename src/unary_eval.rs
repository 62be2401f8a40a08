//! The unary operators over the runtime value algebra: which rule applies to each operator and
//! operand type, and the error for every combination that has none.
use vstd::prelude::*;
use std::ops::Range;
use crate::ast::{Unary, UnaryOp, start_of, end_of};
use crate::error::{Error, ErrorKind, InvalidUnaryOperation, ValueType};

verus! {

/// How a unary operator computes its result from its operand.
#[derive(Debug, Clone, Copy, PartialEq, Eq, Structural)]
pub enum UnaryRule {
    /// `Boolean(n == 0)` for a real number `n`.
    IsZero,
    /// `Number` of the bitwise complement of the operand truncated to an integer.
    BitComplement,
    /// `Number` of the factorial of the operand truncated to an integer.
    Factorial,
    /// `Number` of the arithmetic negation of the operand.
    Negate,
    /// `Boolean` that holds when both components of a complex number are zero.
    ComplexIsZero,
    /// `Complex` with both components negated.
    ComplexNegate,
    /// `Boolean` of the logical negation of the operand.
    LogicalNot,
}

/// The rule by which `op` applies to an operand of type `ty`, if it applies at all.
pub open spec fn unary_rule_spec(op: UnaryOp, ty: ValueType) -> Option<UnaryRule> {
    match (ty, op) {
        (ValueType::Number, UnaryOp::Not) => Some(UnaryRule::IsZero),
        (ValueType::Number, UnaryOp::BitNot) => Some(UnaryRule::BitComplement),
        (ValueType::Number, UnaryOp::Factorial) => Some(UnaryRule::Factorial),
        (ValueType::Number, UnaryOp::Neg) => Some(UnaryRule::Negate),
        (ValueType::Complex, UnaryOp::Not) => Some(UnaryRule::ComplexIsZero),
        (ValueType::Complex, UnaryOp::Neg) => Some(UnaryRule::ComplexNegate),
        (ValueType::Boolean, UnaryOp::Not) => Some(UnaryRule::LogicalNot),
        _ => None,
    }
}

/// The rule by which `op` applies to an operand of type `ty`, or the invalid-operation error
/// that names both when there is none.
pub fn unary_rule(op: UnaryOp, ty: ValueType) -> (r: Result<UnaryRule, InvalidUnaryOperation>)
    ensures
        match unary_rule_spec(op, ty) {
            Some(rule) => r == Ok::<UnaryRule, InvalidUnaryOperation>(rule),
            None => r == Err::<UnaryRule, InvalidUnaryOperation>(InvalidUnaryOperation { op, expr_type: ty }),
        },
{
    match (ty, op) {
        (ValueType::Number, UnaryOp::Not) => Ok(UnaryRule::IsZero),
        (ValueType::Number, UnaryOp::BitNot) => Ok(UnaryRule::BitComplement),
        (ValueType::Number, UnaryOp::Factorial) => Ok(UnaryRule::Factorial),
        (ValueType::Number, UnaryOp::Neg) => Ok(UnaryRule::Negate),
        (ValueType::Complex, UnaryOp::Not) => Ok(UnaryRule::ComplexIsZero),
        (ValueType::Complex, UnaryOp::Neg) => Ok(UnaryRule::ComplexNegate),
        (ValueType::Boolean, UnaryOp::Not) => Ok(UnaryRule::LogicalNot),
        _ => Err(InvalidUnaryOperation { op, expr_type: ty }),
    }
}

/// The number of bytes of the source text of a unary operator.
pub open spec fn op_len(op: UnaryOp) -> nat {
    match op {
        UnaryOp::Not => 3,
        _ => 1,
    }
}

/// The span of the operator of a unary expression: at its end for a postfix operator, at its
/// start for a prefix one, clipped to the expression's span.
pub open spec fn op_span_spec(u: Unary) -> Range<usize> {
    if u.op == UnaryOp::Factorial {
        if u.span.end >= 1 && u.span.end - 1 >= u.span.start {
            Range { start: (u.span.end - 1) as usize, end: u.span.end }
        } else {
            Range { start: u.span.start, end: u.span.end }
        }
    } else {
        if u.span.start + op_len(u.op) <= u.span.end {
            Range { start: u.span.start, end: (u.span.start + op_len(u.op)) as usize }
        } else {
            Range { start: u.span.start, end: u.span.end }
        }
    }
}

impl Unary {
    /// The span of this expression's operator token.
    pub fn op_span(&self) -> (r: Range<usize>)
        ensures
            r == op_span_spec(*self),
    {
        let start = self.span.start;
        let end = self.span.end;
        if self.op == UnaryOp::Factorial {
            if end >= 1 && end - 1 >= start {
                Range { start: end - 1, end }
            } else {
                Range { start, end }
            }
        } else {
            let len: usize = if self.op == UnaryOp::Not { 3 } else { 1 };
            if end >= start && end - start >= len {
                Range { start, end: start + len }
            } else {
                Range { start, end }
            }
        }
    }

    /// Decides how this operation evaluates on an operand of type `ty`: the rule to apply, or
    /// an invalid-unary-operation error naming the operator and the type, pointing at the
    /// operand and at the operator.
    pub fn eval_rule(&self, ty: ValueType) -> (r: Result<UnaryRule, Error>)
        ensures
            match unary_rule_spec(self.op, ty) {
                Some(rule) => r == Ok::<UnaryRule, Error>(rule),
                None => r matches Err(e) && e.kind == ErrorKind::InvalidUnaryOperation(
                    InvalidUnaryOperation { op: self.op, expr_type: ty },
                ) && e.spans@.len() == 2 && e.spans@[0].start == start_of(self.operand)
                    && e.spans@[0].end == end_of(self.operand)
                    && e.spans@[1] == op_span_spec(*self),
            },
    {
        match unary_rule(self.op, ty) {
            Ok(rule) => Ok(rule),
            Err(invalid) => {
                let spans = vec![self.operand.span(), self.op_span()];
                Err(Error::new(spans, ErrorKind::InvalidUnaryOperation(invalid)))
            },
        }
    }
}

} // verus!
