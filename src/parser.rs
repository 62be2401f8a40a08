//! The parser engine: a cursor over a token stream, with primitive token consumption, span
//! queries, and backtracking combinators.
use vstd::prelude::*;
use std::ops::Range;
use vstd::string::StringSliceAdditionalSpecFns;
use crate::error::{Error, ErrorKind, NonFatal, UnexpectedEof, ExpectedEof};
use crate::ast::Expr;
use crate::grammar::{complete_expression, parse_expr, tree_ok, spans_tokens, grammar_error, at_end, missing_at_end, lone_number, lone_number_parsed};
use crate::token::{Token, TokenKind, tokenize_complete, tokenizes, lemma_token_in_source, lemma_tokens_ordered};

verus! {

/// A parser for the language: the source, its tokens, and the index of the next token.
pub struct Parser {
    /// The bytes of the source code.
    source: Vec<u8>,
    /// The tokens that this parser is parsing.
    tokens: Vec<Token>,
    /// The index of the **next** token to be parsed.
    cursor: usize,
}

/// Whether every token of `toks` in `[from, to)` is whitespace.
pub open spec fn all_whitespace(toks: Seq<Token>, from: int, to: int) -> bool {
    forall|i: int| from <= i < to ==> (#[trigger] toks[i]).kind == TokenKind::Whitespace
}

/// The kinds of the tokens of `toks` in `[from, to)` that are not whitespace, in order.
pub open spec fn non_ws_kinds(toks: Seq<Token>, from: int, to: int) -> Seq<TokenKind>
    decreases to - from,
{
    if to <= from {
        seq![]
    } else {
        let rest = non_ws_kinds(toks, from, to - 1);
        if toks[to - 1].kind == TokenKind::Whitespace {
            rest
        } else {
            rest.push(toks[to - 1].kind)
        }
    }
}

/// The index of the first token at or after `i` that is not whitespace, or the number of
/// tokens if there is none.
pub open spec fn next_solid(toks: Seq<Token>, i: int) -> int
    decreases toks.len() - i,
{
    if 0 <= i < toks.len() && toks[i].kind == TokenKind::Whitespace {
        next_solid(toks, i + 1)
    } else if 0 <= i < toks.len() {
        i
    } else {
        toks.len() as int
    }
}

/// The first token from `i` that is not whitespace lies between `i` and the end, and is
/// not whitespace if it is a token.
pub proof fn lemma_solid_bounds(toks: Seq<Token>, i: int)
    requires
        0 <= i <= toks.len(),
    ensures
        i <= next_solid(toks, i) <= toks.len(),
        next_solid(toks, i) < toks.len() ==> toks[next_solid(toks, i)].kind != TokenKind::Whitespace,
    decreases toks.len() - i,
{
    if i < toks.len() {
        lemma_solid_bounds(toks, i + 1);
    }
}

/// After whitespace from `i`, the first other token is at `j`.
pub proof fn lemma_solid_at(toks: Seq<Token>, i: int, j: int)
    requires
        0 <= i <= j < toks.len(),
        all_whitespace(toks, i, j),
        toks[j].kind != TokenKind::Whitespace,
    ensures
        next_solid(toks, i) == j,
    decreases j - i,
{
    if i < j {
        lemma_solid_at(toks, i + 1, j);
    }
}

/// Only whitespace from `i`: there is no other token.
pub proof fn lemma_solid_none(toks: Seq<Token>, i: int)
    requires
        0 <= i <= toks.len(),
        all_whitespace(toks, i, toks.len() as int),
    ensures
        next_solid(toks, i) == toks.len(),
    decreases toks.len() - i,
{
    if i < toks.len() {
        lemma_solid_none(toks, i + 1);
    }
}

/// The tokens of `toks` in `[from, to)` that are not whitespace, in order.
pub open spec fn non_ws_toks(toks: Seq<Token>, from: int, to: int) -> Seq<Token>
    decreases to - from,
{
    if to <= from {
        seq![]
    } else {
        let rest = non_ws_toks(toks, from, to - 1);
        if toks[to - 1].kind == TokenKind::Whitespace {
            rest
        } else {
            rest.push(toks[to - 1])
        }
    }
}

/// The non-whitespace tokens of two adjacent ranges, put together, are those of the whole
/// range, and their kinds are the non-whitespace kinds.
pub proof fn lemma_non_ws_toks_split(toks: Seq<Token>, a: int, b: int, c: int)
    requires
        a <= b <= c,
    ensures
        non_ws_toks(toks, a, c) == non_ws_toks(toks, a, b) + non_ws_toks(toks, b, c),
    decreases c - b,
{
    if c > b {
        lemma_non_ws_toks_split(toks, a, b, c - 1);
        assert(non_ws_toks(toks, a, c) =~= non_ws_toks(toks, a, b) + non_ws_toks(toks, b, c));
    } else {
        assert(non_ws_toks(toks, a, b) + non_ws_toks(toks, b, c) =~= non_ws_toks(toks, a, b));
    }
}

/// The non-whitespace tokens and kinds of a range match one for one.
pub proof fn lemma_non_ws_toks_kinds(toks: Seq<Token>, a: int, b: int)
    ensures
        non_ws_toks(toks, a, b).len() == non_ws_kinds(toks, a, b).len(),
        forall|i: int| 0 <= i < non_ws_toks(toks, a, b).len() ==>
            (#[trigger] non_ws_toks(toks, a, b)[i]).kind == non_ws_kinds(toks, a, b)[i],
    decreases b - a,
{
    if b > a {
        lemma_non_ws_toks_kinds(toks, a, b - 1);
    }
}

/// The non-whitespace kinds of two adjacent ranges of tokens, put together, are those of the
/// whole range.
pub proof fn lemma_non_ws_split(toks: Seq<Token>, a: int, b: int, c: int)
    requires
        a <= b <= c,
    ensures
        non_ws_kinds(toks, a, c) == non_ws_kinds(toks, a, b) + non_ws_kinds(toks, b, c),
    decreases c - b,
{
    if c > b {
        lemma_non_ws_split(toks, a, b, c - 1);
        assert(non_ws_kinds(toks, a, c) =~= non_ws_kinds(toks, a, b) + non_ws_kinds(toks, b, c));
    } else {
        assert(non_ws_kinds(toks, a, b) + non_ws_kinds(toks, b, c) =~= non_ws_kinds(toks, a, b));
    }
}

/// A range of whitespace tokens has no non-whitespace kinds.
pub proof fn lemma_non_ws_blank(toks: Seq<Token>, a: int, b: int)
    requires
        all_whitespace(toks, a, b),
    ensures
        non_ws_kinds(toks, a, b) == Seq::<TokenKind>::empty(),
    decreases b - a,
{
    if b > a {
        lemma_non_ws_blank(toks, a, b - 1);
    }
}

impl Parser {
    /// The index of the next token to be parsed.
    pub closed spec fn pos(&self) -> nat {
        self.cursor as nat
    }

    /// The tokens being parsed.
    pub closed spec fn toks(&self) -> Seq<Token> {
        self.tokens@
    }

    /// The bytes of the source code.
    pub closed spec fn src(&self) -> Seq<u8> {
        self.source@
    }

    /// The tokens cut the source exactly, and the cursor stands within them.
    pub closed spec fn wf(&self) -> bool {
        &&& self.cursor <= self.tokens@.len()
        &&& tokenizes(self.source@, self.tokens@)
    }

    /// `self` is a well-formed state reached from `before` by consuming tokens: same source,
    /// same tokens, a cursor no further back.
    pub open spec fn continues(&self, before: Parser) -> bool {
        &&& self.wf()
        &&& self.toks() == before.toks()
        &&& self.src() == before.src()
        &&& before.pos() <= self.pos()
    }

    /// The zero-width span at the end of the source code.
    pub open spec fn eof_span_spec(&self) -> Range<usize> {
        if self.toks().len() == 0 {
            Range { start: 0, end: 0 }
        } else {
            Range { start: self.toks().last().span.end, end: self.toks().last().span.end }
        }
    }

    /// The span of the token at the cursor, or the end of the source code.
    pub open spec fn span_spec(&self) -> Range<usize> {
        if 0 <= self.pos() < self.toks().len() {
            self.toks()[self.pos() as int].span
        } else {
            self.eof_span_spec()
        }
    }

    /// The cursor of a well-formed parser stands within its tokens, and each token lies
    /// within the source.
    pub proof fn lemma_wf(&self)
        requires
            self.wf(),
        ensures
            0 <= self.pos() <= self.toks().len(),
            forall|i: int| 0 <= i < self.toks().len() ==>
                (#[trigger] self.toks()[i]).span.start < self.toks()[i].span.end <= self.src().len(),
    {
        assert forall|i: int| 0 <= i < self.toks().len() implies
            (#[trigger] self.toks()[i]).span.start < self.toks()[i].span.end <= self.src().len() by {
            lemma_token_in_source(self.source@, self.tokens@, i);
        }
    }

    /// Of two tokens, the earlier one ends before the later one starts.
    pub proof fn lemma_ordered(&self, i: int, j: int)
        requires
            self.wf(),
            0 <= i < j < self.toks().len(),
        ensures
            self.toks()[i].span.start < self.toks()[i].span.end <= self.toks()[j].span.start
                < self.toks()[j].span.end,
    {
        lemma_tokens_ordered(self.source@, self.tokens@, i, j);
        lemma_token_in_source(self.source@, self.tokens@, i);
        lemma_token_in_source(self.source@, self.tokens@, j);
    }

    /// Creates a new parser for the given source, with the cursor at the first token. Its
    /// tokens are the source's tokenization, which is unique (`lemma_tokenization_unique`):
    /// they are the ones `tokenize_complete` returns.
    pub fn new(source: &str) -> (r: Parser)
        ensures
            r.wf(),
            r.pos() == 0,
            r.src() == source.spec_bytes(),
            tokenizes(source.spec_bytes(), r.toks()),
            source.spec_bytes().len() <= usize::MAX,
    {
        let bytes = source.as_bytes();
        let mut copy: Vec<u8> = Vec::new();
        let mut k: usize = 0;
        while k < bytes.len()
            invariant
                k <= bytes@.len(),
                copy@ == bytes@.take(k as int),
            decreases bytes@.len() - k,
        {
            copy.push(bytes[k]);
            k = k + 1;
            proof { assert(copy@ =~= bytes@.take(k as int)); }
        }
        assert(copy@ =~= bytes@);
        let tokens = tokenize_complete(source);
        Parser { source: copy, tokens, cursor: 0 }
    }

    /// Creates an error that points at the current token, or at the end of the source code if
    /// the cursor is at the end of the stream.
    pub fn error(&self, kind: ErrorKind) -> (r: Error)
        requires
            self.wf(),
        ensures
            r.spans@ == seq![self.span_spec()],
            r.kind == kind,
    {
        Error::new(vec![self.span()], kind)
    }

    /// Creates a `NonFatal` error that points at the current token.
    pub fn non_fatal(&self) -> (r: Error)
        requires
            self.wf(),
        ensures
            r.spans@ == seq![self.span_spec()],
            r.kind == ErrorKind::NonFatal(NonFatal),
    {
        Error::new(vec![self.span()], ErrorKind::NonFatal(NonFatal))
    }

    /// Returns a zero-width span pointing at the end of the source code.
    pub fn eof_span(&self) -> (r: Range<usize>)
        requires
            self.wf(),
        ensures
            r == self.eof_span_spec(),
    {
        let n = self.tokens.len();
        if n == 0 {
            Range { start: 0, end: 0 }
        } else {
            let end = self.tokens[n - 1].span.end;
            Range { start: end, end }
        }
    }

    /// Returns the span of the current token, or the end of the source code if the cursor is
    /// at the end of the stream.
    pub fn span(&self) -> (r: Range<usize>)
        requires
            self.wf(),
        ensures
            r == self.span_spec(),
    {
        if self.cursor < self.tokens.len() {
            let s = &self.tokens[self.cursor].span;
            Range { start: s.start, end: s.end }
        } else {
            self.eof_span()
        }
    }

    /// Returns the token before the cursor, without moving it; `None` at the start of the
    /// stream.
    pub fn prev_token(&self) -> (r: Option<&Token>)
        requires
            self.wf(),
        ensures
            self.pos() == 0 ==> r is None,
            self.pos() > 0 ==> r == Some(&self.toks()[self.pos() - 1]),
    {
        if self.cursor == 0 {
            None
        } else {
            Some(&self.tokens[self.cursor - 1])
        }
    }

    /// Returns the next token that is not whitespace and moves the cursor past it. Returns an
    /// `UnexpectedEof` error pointing at the end of the source code if there is none.
    pub fn next_token(&mut self) -> (r: Result<Token, Error>)
        requires
            old(self).wf(),
        ensures
            final(self).continues(*old(self)),
            match r {
                Ok(t) => next_token_taken(t, *old(self), *final(self)),
                Err(e) => {
                    &&& final(self).pos() == final(self).toks().len()
                    &&& all_whitespace(final(self).toks(), old(self).pos() as int, final(self).pos() as int)
                    &&& e.kind == ErrorKind::UnexpectedEof(UnexpectedEof)
                    &&& e.spans@ == seq![final(self).eof_span_spec()]
                },
            },
    {
        let ghost start = self.cursor as int;
        while self.cursor < self.tokens.len()
            invariant
                self.wf(),
                self.tokens@ == old(self).tokens@,
                self.source@ == old(self).source@,
                start == old(self).cursor,
                start <= self.cursor,
                all_whitespace(self.tokens@, start, self.cursor as int),
            decreases self.tokens@.len() - self.cursor,
        {
            let i = self.cursor;
            self.cursor = self.cursor + 1;
            if !self.tokens[i].is_whitespace() {
                return Ok(self.tokens[i].copy());
            }
        }
        Err(self.error(ErrorKind::UnexpectedEof(UnexpectedEof)))
    }

    /// The bytes of the source code in `span`.
    pub fn source_bytes(&self, span: &Range<usize>) -> (r: Vec<u8>)
        requires
            span.start <= span.end <= self.src().len(),
        ensures
            r@ == self.src().subrange(span.start as int, span.end as int),
    {
        let mut out: Vec<u8> = Vec::new();
        let mut i: usize = span.start;
        while i < span.end
            invariant
                span.start <= i <= span.end <= self.source@.len(),
                out@ == self.source@.subrange(span.start as int, i as int),
            decreases span.end - i,
        {
            out.push(self.source[i]);
            i = i + 1;
            proof { assert(out@ =~= self.source@.subrange(span.start as int, i as int)); }
        }
        out
    }

    /// Speculatively parses a value of type `T`. On success the cursor stands past the
    /// consumed tokens; on failure it is left where it was and the error is returned as is.
    pub fn try_parse<T: Parse>(&mut self) -> (r: Result<T, Error>)
        requires
            old(self).wf(),
        ensures
            final(self).continues(*old(self)),
            r is Ok ==> final(self).pos() > old(self).pos(),
            r matches Ok(v) ==> T::parsed(v, *old(self), *final(self)),
            r is Err ==> final(self).pos() == old(self).pos(),
            r is Ok ==> exists|q: &mut Parser| *q == *old(self) && *final(q) == *final(self)
                && #[trigger] call_ensures(T::parse, (q,), r),
            r is Err ==> exists|q: &mut Parser| *q == *old(self)
                && #[trigger] call_ensures(T::parse, (q,), r),
    {
        let start = self.cursor;
        match T::parse(self) {
            Ok(value) => Ok(value),
            Err(e) => {
                self.cursor = start;
                Err(e)
            },
        }
    }

    /// Speculatively parses a value with the parsing function `f`. On success the cursor
    /// stands past the consumed tokens; on failure it is left where it was and the error is
    /// returned as is.
    pub fn try_parse_with_fn<T, F>(&mut self, f: F) -> (r: Result<T, Error>)
        where F: FnOnce(&mut Parser) -> Result<T, Error>,
        requires
            old(self).wf(),
            forall|p: &mut Parser| p.wf() ==> #[trigger] f.requires((p,)),
            forall|p: &mut Parser, r: Result<T, Error>|
                p.wf() && #[trigger] f.ensures((p,), r) ==> final(p).continues(*p),
        ensures
            final(self).continues(*old(self)),
            r is Err ==> final(self).pos() == old(self).pos(),
            r is Ok ==> exists|q: &mut Parser| *q == *old(self) && *final(q) == *final(self)
                && #[trigger] f.ensures((q,), r),
            r is Err ==> exists|q: &mut Parser| *q == *old(self) && #[trigger] f.ensures((q,), r),
    {
        let start = self.cursor;
        match f(self) {
            Ok(value) => Ok(value),
            Err(e) => {
                self.cursor = start;
                Err(e)
            },
        }
    }

    /// Speculatively parses a value of type `T` that must also pass `predicate`. On success
    /// the cursor stands past the consumed tokens; if parsing or the predicate fails, the
    /// cursor is left where it was and the error is returned as is.
    pub fn try_parse_then<T: Parse, F>(&mut self, predicate: F) -> (r: Result<T, Error>)
        where F: FnOnce(&T, &Parser) -> Result<(), Error>,
        requires
            old(self).wf(),
            forall|v: &T, p: &Parser| p.wf() ==> #[trigger] predicate.requires((v, p)),
        ensures
            final(self).continues(*old(self)),
            r is Err ==> final(self).pos() == old(self).pos(),
            r is Ok ==> final(self).pos() > old(self).pos(),
            r matches Ok(v) ==> T::parsed(v, *old(self), *final(self)),
            r matches Ok(v) ==> predicate.ensures((&v, &*final(self)), Ok(())),
            r matches Err(e) ==> (exists|e2: Error, a: Parser| a.continues(*old(self))
                && #[trigger] T::failed(e2, *old(self), a))
                || (exists|v: T, a: Parser| a.continues(*old(self)) && #[trigger] T::parsed(v, *old(self), a)
                && predicate.ensures((&v, &a), Err::<(), Error>(e))),
            r is Ok ==> exists|q: &mut Parser| *q == *old(self) && *final(q) == *final(self)
                && #[trigger] call_ensures(T::parse, (q,), r),
            r matches Err(e) ==> (exists|q: &mut Parser| *q == *old(self)
                && #[trigger] call_ensures(T::parse, (q,), r))
                || (exists|q: &mut Parser, v: T| *q == *old(self)
                && #[trigger] call_ensures(T::parse, (q,), Ok::<T, Error>(v))
                && predicate.ensures((&v, &*final(q)), Err::<(), Error>(e))),
    {
        let start = self.cursor;
        match T::parse(self) {
            Ok(value) => {
                let ghost after = *self;
                let checked = predicate(&value, self);
                match checked {
                    Ok(u) => {
                        proof { assert(checked == Ok::<(), Error>(u)); }
                        Ok(value)
                    },
                    Err(e) => {
                        proof {
                            assert(T::parsed(value, *old(self), after));
                            assert(predicate.ensures((&value, &after), Err::<(), Error>(e)));
                        }
                        self.cursor = start;
                        Err(e)
                    },
                }
            },
            Err(e) => {
                let ghost after = *self;
                proof { assert(T::failed(e, *old(self), after)); }
                self.cursor = start;
                Err(e)
            },
        }
    }

    /// Parses a value of type `T` that must take up all the tokens; fails with
    /// `ExpectedEof` at the current token if any are left. The cursor is not restored.
    pub fn try_parse_full<T: Parse>(&mut self) -> (r: Result<T, Error>)
        requires
            old(self).wf(),
        ensures
            final(self).continues(*old(self)),
            r is Ok ==> final(self).pos() == final(self).toks().len(),
            r matches Ok(v) ==> T::parsed(v, *old(self), *final(self)),
            r is Ok ==> exists|q: &mut Parser| *q == *old(self) && *final(q) == *final(self)
                && #[trigger] call_ensures(T::parse, (q,), r),
            r matches Err(e) ==> (exists|q: &mut Parser| *q == *old(self)
                && *final(q) == *final(self) && #[trigger] call_ensures(T::parse, (q,), r))
                || (e.kind == ErrorKind::ExpectedEof(ExpectedEof)
                && final(self).pos() < final(self).toks().len()
                && e.spans@ == seq![final(self).span_spec()]
                && exists|q: &mut Parser, v: T| *q == *old(self) && *final(q) == *final(self)
                && #[trigger] call_ensures(T::parse, (q,), Ok::<T, Error>(v))),
    {
        let value = match T::parse(self) {
            Ok(v) => v,
            Err(e) => {
                return Err(e);
            },
        };
        if self.cursor == self.tokens.len() {
            Ok(value)
        } else {
            Err(self.error(ErrorKind::ExpectedEof(ExpectedEof)))
        }
    }

    /// Parses one complete expression that must take up all the tokens. Fails with the
    /// expression's own error, or with `ExpectedEof` at the current token if tokens are left
    /// after it. With only whitespace left it fails with `UnexpectedEof`; with a lone number
    /// as the last token it succeeds with that number's literal. Whenever the tokens form one
    /// expression without parentheses (`complete_expression`), it succeeds.
    pub fn parse_full_expr(&mut self) -> (r: Result<Expr, Error>)
        requires
            old(self).wf(),
        ensures
            final(self).continues(*old(self)),
            r matches Ok(e) ==> tree_ok(e) && spans_tokens(e, *old(self), *final(self))
                && final(self).pos() == final(self).toks().len(),
            r matches Err(e) ==> grammar_error(e.kind) || (e.kind == ErrorKind::ExpectedEof(ExpectedEof)
                && final(self).pos() < final(self).toks().len()
                && e.spans@ == seq![final(self).span_spec()]),
            at_end(*old(self)) ==> missing_at_end(r, *old(self)),
            forall|k: int| #[trigger] lone_number(*old(self), k) && k == old(self).toks().len() - 1
                ==> lone_number_parsed(r, *old(self), *final(self), k),
            complete_expression(*old(self)) ==> r is Ok,
    {
        let value = match parse_expr(self) {
            Ok(v) => v,
            Err(e) => {
                return Err(e);
            },
        };
        if self.cursor == self.tokens.len() {
            Ok(value)
        } else {
            Err(self.error(ErrorKind::ExpectedEof(ExpectedEof)))
        }
    }
}

/// Any type that can be parsed from a stream of tokens.
pub trait Parse: Sized {
    /// What a successful parse of `value` from state `before` to state `after` guarantees.
    spec fn parsed(value: Self, before: Parser, after: Parser) -> bool;

    /// What a failed parse from state `before` to state `after` with error `err` guarantees.
    spec fn failed(err: Error, before: Parser, after: Parser) -> bool;

    /// Parses a value, advancing the cursor past the consumed tokens. A successful parse
    /// consumes at least one token.
    fn parse(input: &mut Parser) -> (r: Result<Self, Error>)
        requires
            old(input).wf(),
        ensures
            final(input).continues(*old(input)),
            r is Ok ==> final(input).pos() > old(input).pos(),
            r matches Ok(v) ==> Self::parsed(v, *old(input), *final(input)),
            r matches Err(e) ==> Self::failed(e, *old(input), *final(input)),
    ;
}

/// `t` is the first token that is not whitespace from the cursor of `before`, and the cursor
/// of `after` stands just past it.
pub open spec fn next_token_taken(t: Token, before: Parser, after: Parser) -> bool {
    &&& after.pos() > before.pos()
    &&& t == after.toks()[after.pos() - 1]
    &&& t.kind != TokenKind::Whitespace
    &&& all_whitespace(after.toks(), before.pos() as int, after.pos() - 1)
}

/// The token that `next_token` takes is the first one from the cursor that is not whitespace.
pub proof fn lemma_taken_is_solid(t: Token, before: Parser, after: Parser)
    requires
        next_token_taken(t, before, after),
        after.toks() == before.toks(),
        after.pos() <= after.toks().len(),
    ensures
        after.pos() - 1 == next_solid(before.toks(), before.pos() as int),
        t == before.toks()[after.pos() - 1],
{
    lemma_solid_at(before.toks(), before.pos() as int, after.pos() - 1);
}

/// Taking the next token consumes exactly one token that is not whitespace.
pub proof fn lemma_next_token_kinds(t: Token, before: Parser, after: Parser)
    requires
        next_token_taken(t, before, after),
    ensures
        non_ws_kinds(after.toks(), before.pos() as int, after.pos() as int) == seq![t.kind],
        non_ws_toks(after.toks(), before.pos() as int, after.pos() as int) == seq![t],
{
    let toks = after.toks();
    let k = after.pos() - 1;
    lemma_non_ws_blank(toks, before.pos() as int, k);
    lemma_non_ws_split(toks, before.pos() as int, k, after.pos() as int);
    assert(non_ws_kinds(toks, k, k) =~= Seq::<TokenKind>::empty());
    assert(non_ws_kinds(toks, k, k + 1) =~= seq![t.kind]);
    assert(non_ws_kinds(toks, before.pos() as int, after.pos() as int) =~= seq![t.kind]);
    lemma_non_ws_toks_blank(toks, before.pos() as int, k);
    lemma_non_ws_toks_split(toks, before.pos() as int, k, after.pos() as int);
    assert(non_ws_toks(toks, k, k) =~= Seq::<Token>::empty());
    assert(non_ws_toks(toks, k, k + 1) =~= seq![t]);
    assert(non_ws_toks(toks, before.pos() as int, after.pos() as int) =~= seq![t]);
}

/// A range of whitespace tokens has no non-whitespace tokens.
pub proof fn lemma_non_ws_toks_blank(toks: Seq<Token>, a: int, b: int)
    requires
        all_whitespace(toks, a, b),
    ensures
        non_ws_toks(toks, a, b) == Seq::<Token>::empty(),
    decreases b - a,
{
    if b > a {
        lemma_non_ws_toks_blank(toks, a, b - 1);
    }
}

impl Parse for Token {
    open spec fn parsed(value: Token, before: Parser, after: Parser) -> bool {
        next_token_taken(value, before, after)
    }

    /// Only whitespace was left: the error is `UnexpectedEof` at the end of the source.
    open spec fn failed(err: Error, before: Parser, after: Parser) -> bool {
        &&& after.pos() == after.toks().len()
        &&& all_whitespace(after.toks(), before.pos() as int, after.pos() as int)
        &&& err.kind == ErrorKind::UnexpectedEof(UnexpectedEof)
        &&& err.spans@ == seq![after.eof_span_spec()]
    }

    /// The next token that is not whitespace.
    fn parse(input: &mut Parser) -> (r: Result<Token, Error>) {
        input.next_token()
    }
}

} // verus!
