//! Structured, span-carrying errors shared by the parser and the evaluator.
use vstd::prelude::*;
use std::ops::Range;
use crate::token::TokenKind;
use crate::ast::UnaryOp;

verus! {

/// An intentionally useless error, only used as a "try another branch" signal while parsing.
#[derive(Debug, Clone, PartialEq)]
pub struct NonFatal;

/// The end of the source code was reached unexpectedly.
#[derive(Debug, Clone, PartialEq)]
pub struct UnexpectedEof;

/// The end of the source code was expected, but something else was found.
#[derive(Debug, Clone, PartialEq)]
pub struct ExpectedEof;

/// An unexpected token was encountered.
#[derive(Debug, Clone, PartialEq)]
pub struct UnexpectedToken {
    /// The token(s) that were expected.
    pub expected: Vec<TokenKind>,
    /// The token that was found.
    pub found: TokenKind,
}

/// Encountered a keyword when a symbol name was expected.
#[derive(Debug, Clone, PartialEq)]
pub struct ExpectedSymbolName {
    /// The keyword that was found.
    pub keyword: String,
}

/// The base used in radix notation was out of the allowed range.
#[derive(Debug, Clone, PartialEq)]
pub struct InvalidRadixBase {
    /// The given base was too large. (Otherwise, it was too small.)
    pub too_large: bool,
}

/// An invalid digit was used in a radix literal.
#[derive(Debug, Clone, PartialEq)]
pub struct InvalidRadixDigit {
    /// The radix that was expected.
    pub radix: u8,
    /// The allowed digits for this radix, from lowest to highest value.
    pub allowed: Vec<char>,
    /// The invalid digits that were used.
    pub digits: Vec<char>,
    /// If the last digit of the literal is a `+` or `/` character (both valid digits in base
    /// 64), the character and its span: the user may have meant it as an operator.
    pub last_op_digit: Option<(char, Range<usize>)>,
}

/// No number was provided in a radix literal.
#[derive(Debug, Clone, PartialEq)]
pub struct EmptyRadixLiteral {
    /// The radix that was expected.
    pub radix: u8,
    /// The allowed digits for this radix, from lowest to highest value.
    pub allowed: Vec<char>,
}

/// A parenthesis was not closed.
#[derive(Debug, Clone, PartialEq)]
pub struct UnclosedParenthesis {
    /// Whether the parenthesis was an opening parenthesis `(` (otherwise a closing one `)`).
    pub opening: bool,
}

/// There was no expression inside a pair of parentheses.
#[derive(Debug, Clone, PartialEq)]
pub struct EmptyParenthesis;

/// The left-hand-side of an assignment was not a valid symbol or function header.
#[derive(Debug, Clone, PartialEq)]
pub struct InvalidAssignmentLhs {
    /// Whether the expression span is pointing towards a function call.
    pub is_call: bool,
}

/// There were too many derivatives in prime notation.
#[derive(Debug, Clone, PartialEq)]
pub struct TooManyDerivatives {
    /// The number of derivatives that were found.
    pub derivatives: usize,
}

/// An expression was nested more deeply than the parser allows.
#[derive(Debug, Clone, PartialEq)]
pub struct NestingTooDeep {
    /// The deepest nesting allowed.
    pub limit: usize,
}

/// The type of a runtime value, as named in diagnostics.
#[derive(Debug, Clone, Copy, PartialEq, Eq, Structural)]
pub enum ValueType {
    Number,
    Complex,
    Boolean,
    Unit,
}

/// A unary operator was applied to a value of a type it does not support.
#[derive(Debug, Clone, PartialEq)]
pub struct InvalidUnaryOperation {
    /// The operator.
    pub op: UnaryOp,
    /// The type of the operand.
    pub expr_type: ValueType,
}

/// The kind of error that occurred, with its payload.
#[derive(Debug, Clone, PartialEq)]
pub enum ErrorKind {
    NonFatal(NonFatal),
    UnexpectedEof(UnexpectedEof),
    ExpectedEof(ExpectedEof),
    UnexpectedToken(UnexpectedToken),
    ExpectedSymbolName(ExpectedSymbolName),
    InvalidRadixBase(InvalidRadixBase),
    InvalidRadixDigit(InvalidRadixDigit),
    EmptyRadixLiteral(EmptyRadixLiteral),
    UnclosedParenthesis(UnclosedParenthesis),
    EmptyParenthesis(EmptyParenthesis),
    InvalidAssignmentLhs(InvalidAssignmentLhs),
    TooManyDerivatives(TooManyDerivatives),
    NestingTooDeep(NestingTooDeep),
    InvalidUnaryOperation(InvalidUnaryOperation),
}

/// An error: the regions of the source code it points at, and its kind.
#[derive(Debug, Clone, PartialEq)]
pub struct Error {
    /// The regions of the source code that this error originated from; never empty.
    pub spans: Vec<Range<usize>>,
    /// The kind of error that occurred.
    pub kind: ErrorKind,
}

impl Error {
    /// Creates a new error with the given spans and kind.
    pub fn new(spans: Vec<Range<usize>>, kind: ErrorKind) -> (r: Error)
        requires
            spans@.len() > 0,
        ensures
            r.spans@ == spans@,
            r.kind == kind,
    {
        Error { spans, kind }
    }
}

/// Where a span ends after the trailing operator-like digit is cut off: one byte earlier when
/// it ends where that digit ends.
pub open spec fn trimmed_span(span: Range<usize>, op_digit: Option<(char, Range<usize>)>) -> Range<usize> {
    match op_digit {
        Some((_, d)) => if span.end == d.end && span.end > 0 {
            Range { start: span.start, end: (span.end - 1) as usize }
        } else {
            span
        },
        None => span,
    }
}

/// The labels of an invalid-digit diagnostic: each span trimmed, the empty ones left out.
pub open spec fn radix_labels(spans: Seq<Range<usize>>, op_digit: Option<(char, Range<usize>)>) -> Seq<Range<usize>>
    decreases spans.len(),
{
    if spans.len() == 0 {
        seq![]
    } else {
        let rest = radix_labels(spans.drop_last(), op_digit);
        let t = trimmed_span(spans.last(), op_digit);
        if t.start < t.end { rest.push(t) } else { rest }
    }
}

impl InvalidRadixDigit {
    /// The spans to label in a diagnostic for this error. A span that ends where the trailing
    /// `+` or `/` digit ends is cut short by that character, since it may be a misplaced
    /// operator rather than part of the literal; spans left empty are dropped.
    pub fn label_spans(&self, spans: &Vec<Range<usize>>) -> (r: Vec<Range<usize>>)
        ensures
            r@ == radix_labels(spans@, self.last_op_digit),
    {
        let mut out: Vec<Range<usize>> = Vec::new();
        let mut i: usize = 0;
        while i < spans.len()
            invariant
                i <= spans@.len(),
                out@ == radix_labels(spans@.take(i as int), self.last_op_digit),
            decreases spans@.len() - i,
        {
            let s = &spans[i];
            let start = s.start;
            let mut end = s.end;
            match &self.last_op_digit {
                Some((_, d)) => {
                    if end == d.end && end > 0 {
                        end = end - 1;
                    }
                },
                None => {},
            }
            proof {
                assert(spans@.take(i as int + 1).drop_last() =~= spans@.take(i as int));
            }
            if start < end {
                out.push(Range { start, end });
            }
            i = i + 1;
        }
        proof {
            assert(spans@.take(spans@.len() as int) =~= spans@);
        }
        out
    }

    /// The extra label of an invalid-digit diagnostic: the span of the trailing `+` or `/`
    /// digit, with the operation it would denote as an operator (`"add"` or `"divide"`).
    pub fn op_digit_label(&self) -> (r: Option<(Range<usize>, &'static str)>)
        ensures
            match self.last_op_digit {
                Some((c, s)) => if c == '+' {
                    r == Some((s, "add"))
                } else if c == '/' {
                    r == Some((s, "divide"))
                } else {
                    r is None
                },
                None => r is None,
            },
    {
        match &self.last_op_digit {
            Some((c, s)) => {
                let span = Range { start: s.start, end: s.end };
                match Self::op_digit_operation(*c) {
                    Some(operation) => Some((span, operation)),
                    None => None,
                }
            },
            None => None,
        }
    }

    /// The operation that the trailing operator-like digit would denote: `"add"` for `+`,
    /// `"divide"` for `/`, nothing for any other character.
    pub fn op_digit_operation(ch: char) -> (r: Option<&'static str>)
        ensures
            ch == '+' ==> r == Some("add"),
            ch == '/' ==> r == Some("divide"),
            ch != '+' && ch != '/' ==> r is None,
    {
        if ch == '+' {
            Some("add")
        } else if ch == '/' {
            Some("divide")
        } else {
            None
        }
    }
}

} // verus!
