//! Tokens and the tokenizer that turns source text into a span-annotated token stream.
use vstd::prelude::*;
use std::ops::Range;
use vstd::string::StringSliceAdditionalSpecFns;

verus! {

/// The kind of a token.
#[derive(Debug, Clone, Copy, PartialEq, Eq, Structural)]
pub enum TokenKind {
    /// A run of spaces, tabs and line breaks.
    Whitespace,
    /// A numeric literal: digits, optionally followed by `.` and more digits.
    Number,
    /// A name: letters, digits and underscores, starting with a letter or underscore.
    Name,
    /// The keyword `not`.
    Not,
    Add,
    Sub,
    Mul,
    Div,
    Mod,
    Exp,
    Factorial,
    OpenParen,
    CloseParen,
    /// A character that starts no other token.
    Unknown,
}

/// A token: its kind and the half-open byte range of the source it covers.
#[derive(Debug, PartialEq)]
pub struct Token {
    pub span: Range<usize>,
    pub kind: TokenKind,
}

impl Clone for Token {
    fn clone(&self) -> (r: Token)
        ensures
            r == *self,
    {
        self.copy()
    }
}

impl Token {
    /// Whether this token is whitespace, which the grammar never looks at.
    pub fn is_whitespace(&self) -> (r: bool)
        ensures
            r == (self.kind == TokenKind::Whitespace),
    {
        self.kind == TokenKind::Whitespace
    }

    /// A copy of this token.
    pub fn copy(&self) -> (r: Token)
        ensures
            r == *self,
    {
        Token { span: Range { start: self.span.start, end: self.span.end }, kind: self.kind }
    }
}

pub open spec fn is_space(b: u8) -> bool {
    b == 32 || b == 9 || b == 10 || b == 13
}

pub open spec fn is_digit(b: u8) -> bool {
    48 <= b <= 57
}

pub open spec fn is_name_start(b: u8) -> bool {
    (65 <= b <= 90) || (97 <= b <= 122) || b == 95
}

pub open spec fn is_name_char(b: u8) -> bool {
    is_name_start(b) || is_digit(b)
}

/// The kind of a one-byte operator or bracket token, if `b` is one.
pub open spec fn symbol_kind(b: u8) -> Option<TokenKind> {
    if b == 43 { Some(TokenKind::Add) }
    else if b == 45 { Some(TokenKind::Sub) }
    else if b == 42 { Some(TokenKind::Mul) }
    else if b == 47 { Some(TokenKind::Div) }
    else if b == 37 { Some(TokenKind::Mod) }
    else if b == 94 { Some(TokenKind::Exp) }
    else if b == 33 { Some(TokenKind::Factorial) }
    else if b == 40 { Some(TokenKind::OpenParen) }
    else if b == 41 { Some(TokenKind::CloseParen) }
    else { None }
}

/// Whether byte `b` starts no token other than `Unknown`.
pub open spec fn is_other(b: u8) -> bool {
    !is_space(b) && !is_digit(b) && !is_name_start(b) && symbol_kind(b) is None
}

/// The bytes `src[start..end]`.
pub open spec fn lexeme(src: Seq<u8>, span: Range<usize>) -> Seq<u8> {
    src.subrange(span.start as int, span.end as int)
}

/// The bytes of the keyword `not`.
pub open spec fn not_keyword() -> Seq<u8> {
    seq![110u8, 111u8, 116u8]
}

/// Whether the bytes `text` form a token of kind `kind`.
pub open spec fn lexeme_has_kind(text: Seq<u8>, kind: TokenKind) -> bool {
    text.len() > 0 && match kind {
        TokenKind::Whitespace => forall|i: int| 0 <= i < text.len() ==> is_space(#[trigger] text[i]),
        TokenKind::Number => is_digit(text[0]) && is_digit(text.last())
            && (forall|i: int| 0 <= i < text.len() ==> is_digit(#[trigger] text[i]) || text[i] == 46)
            && (forall|i: int, j: int| 0 <= i < text.len() && 0 <= j < text.len()
                && #[trigger] text[i] == 46 && #[trigger] text[j] == 46 ==> i == j),
        TokenKind::Name => is_name_start(text[0]) && text != not_keyword()
            && forall|i: int| 0 <= i < text.len() ==> is_name_char(#[trigger] text[i]),
        TokenKind::Not => text == not_keyword(),
        TokenKind::Unknown => is_other(text[0])
            && forall|i: int| 0 < i < text.len() ==> 128 <= #[trigger] text[i] < 192,
        _ => text.len() == 1 && symbol_kind(text[0]) == Some(kind),
    }
}

/// Whether the bytes after `span` could continue a token of kind `kind` that covers it: each
/// token is as long as it can be, so what follows a token never does. A number goes on with a
/// digit, or with a `.` and a digit if it has no `.` yet.
pub open spec fn extends(src: Seq<u8>, span: Range<usize>, kind: TokenKind) -> bool {
    let b = src[span.end as int];
    match kind {
        TokenKind::Whitespace => is_space(b),
        TokenKind::Number => is_digit(b) || (b == 46 && span.end + 1 < src.len()
            && is_digit(src[span.end + 1]) && !lexeme(src, span).contains(46u8)),
        TokenKind::Name | TokenKind::Not => is_name_char(b),
        TokenKind::Unknown => 128 <= b < 192,
        _ => false,
    }
}

/// Whether `tokens` cut `src` into consecutive, non-empty tokens, each of the kind its bytes
/// form and each as long as it can be, from the first byte to the last.
#[verifier::opaque]
pub open spec fn tokenizes(src: Seq<u8>, tokens: Seq<Token>) -> bool {
    &&& tokens.len() == 0 <==> src.len() == 0
    &&& tokens.len() > 0 ==> tokens[0].span.start == 0 && tokens.last().span.end == src.len()
    &&& forall|i: int| 0 <= i < tokens.len() ==> {
        &&& (#[trigger] tokens[i]).span.start < tokens[i].span.end <= src.len()
        &&& lexeme_has_kind(lexeme(src, tokens[i].span), tokens[i].kind)
        &&& tokens[i].span.end < src.len() ==> !extends(src, tokens[i].span, tokens[i].kind)
    }
    &&& forall|i: int| 0 <= i < tokens.len() - 1 ==> (#[trigger] tokens[i]).span.end == tokens[i + 1].span.start
}

/// Each token of a tokenization lies within the source and covers at least one byte.
pub proof fn lemma_token_in_source(src: Seq<u8>, tokens: Seq<Token>, i: int)
    requires
        tokenizes(src, tokens),
        0 <= i < tokens.len(),
    ensures
        tokens[i].span.start < tokens[i].span.end <= src.len(),
        lexeme_has_kind(lexeme(src, tokens[i].span), tokens[i].kind),
{
    reveal(tokenizes);
}

/// A token of a tokenization covers at least one byte, and the next token starts where it
/// ends.
proof fn lemma_token_adjacent(src: Seq<u8>, tokens: Seq<Token>, i: int)
    requires
        tokenizes(src, tokens),
        0 <= i < tokens.len(),
    ensures
        tokens[i].span.start < tokens[i].span.end,
        i + 1 < tokens.len() ==> tokens[i].span.end == tokens[i + 1].span.start,
{
    reveal(tokenizes);
    if i + 1 < tokens.len() {
        assert(tokens[i].span.end == tokens[i + 1].span.start);
    }
}

/// The tokens of a tokenization follow one another: an earlier token ends before a later
/// one starts.
pub proof fn lemma_tokens_ordered(src: Seq<u8>, tokens: Seq<Token>, i: int, j: int)
    requires
        tokenizes(src, tokens),
        0 <= i < j < tokens.len(),
    ensures
        tokens[i].span.end <= tokens[j].span.start,
    decreases j - i,
{
    lemma_token_adjacent(src, tokens, j - 1);
    if j > i + 1 {
        lemma_tokens_ordered(src, tokens, i, j - 1);
        lemma_token_adjacent(src, tokens, j - 1);
    }
}

/// Two tokens that start at the same byte, each of the kind its bytes form and each as long
/// as it can be, are the same token.
proof fn lemma_token_at_unique(src: Seq<u8>, s: int, e1: int, k1: TokenKind, e2: int, k2: TokenKind)
    requires
        0 <= s < e1 <= e2 <= src.len(),
        e2 <= usize::MAX,
        lexeme_has_kind(src.subrange(s, e1), k1),
        lexeme_has_kind(src.subrange(s, e2), k2),
        e1 < src.len() ==> !extends(src, Range { start: s as usize, end: e1 as usize }, k1),
    ensures
        e1 == e2,
        k1 == k2,
{
    let t1 = src.subrange(s, e1);
    let t2 = src.subrange(s, e2);
    assert(t1[0] == src[s] && t2[0] == src[s]);
    assert(forall|i: int| 0 <= i < t1.len() ==> t1[i] == src[s + i]);
    assert(forall|i: int| 0 <= i < t2.len() ==> t2[i] == src[s + i]);
    if e1 < e2 {
        let j = e1 - s;
        assert(t2[j] == src[e1]);
        if k2 == TokenKind::Number && src[e1] == 46 {
            assert(t2[t2.len() - 1] == src[e2 - 1]);
            assert(j + 1 < t2.len());
            assert(t2[j + 1] == src[e1 + 1]);
            assert(src[e1 + 1] != 46u8);
            assert forall|i: int| 0 <= i < t1.len() implies t1[i] != 46u8 by {
                assert(t2[i] == t1[i]);
            }
            assert(!t1.contains(46u8));
        }
    }
    if e1 == e2 && (k1 == TokenKind::Not || k2 == TokenKind::Not) {
        assert(t1 =~= t2);
    }
}

/// A source has one tokenization only: each token is the one that the bytes at its start
/// form.
#[verifier::rlimit(40)]
pub proof fn lemma_tokenization_unique(src: Seq<u8>, a: Seq<Token>, b: Seq<Token>)
    requires
        tokenizes(src, a),
        tokenizes(src, b),
        src.len() <= usize::MAX,
    ensures
        a == b,
{
    reveal(tokenizes);
    let n = if a.len() < b.len() { a.len() } else { b.len() };
    assert forall|i: int| 0 <= i < n implies #[trigger] a[i] == b[i] by {
        lemma_tokens_agree(src, a, b, i);
    }
    if a.len() < b.len() {
        lemma_tokens_agree(src, a, b, a.len() - 1);
        assert(b[a.len() as int].span.start == b[a.len() - 1].span.end);
    } else if b.len() < a.len() {
        lemma_tokens_agree(src, a, b, b.len() - 1);
        assert(a[b.len() as int].span.start == a[b.len() - 1].span.end);
    }
    assert(a =~= b);
}

#[verifier::rlimit(40)]
proof fn lemma_tokens_agree(src: Seq<u8>, a: Seq<Token>, b: Seq<Token>, i: int)
    requires
        tokenizes(src, a),
        tokenizes(src, b),
        src.len() <= usize::MAX,
        0 <= i < a.len(),
        i < b.len(),
    ensures
        a[i] == b[i],
    decreases i,
{
    reveal(tokenizes);
    if i > 0 {
        lemma_tokens_agree(src, a, b, i - 1);
        assert(a[i].span.start == a[i - 1].span.end);
        assert(b[i].span.start == b[i - 1].span.end);
    }
    let s = a[i].span.start as int;
    let (ea, eb) = (a[i].span.end as int, b[i].span.end as int);
    if ea <= eb {
        lemma_token_at_unique(src, s, ea, a[i].kind, eb, b[i].kind);
    } else {
        lemma_token_at_unique(src, s, eb, b[i].kind, ea, a[i].kind);
    }
}

fn byte_is_space(b: u8) -> (r: bool)
    ensures
        r == is_space(b),
{
    b == 32 || b == 9 || b == 10 || b == 13
}

fn byte_is_digit(b: u8) -> (r: bool)
    ensures
        r == is_digit(b),
{
    48 <= b && b <= 57
}

fn byte_is_name_start(b: u8) -> (r: bool)
    ensures
        r == is_name_start(b),
{
    (65 <= b && b <= 90) || (97 <= b && b <= 122) || b == 95
}

fn byte_symbol_kind(b: u8) -> (r: Option<TokenKind>)
    ensures
        r == symbol_kind(b),
{
    if b == 43 { Some(TokenKind::Add) }
    else if b == 45 { Some(TokenKind::Sub) }
    else if b == 42 { Some(TokenKind::Mul) }
    else if b == 47 { Some(TokenKind::Div) }
    else if b == 37 { Some(TokenKind::Mod) }
    else if b == 94 { Some(TokenKind::Exp) }
    else if b == 33 { Some(TokenKind::Factorial) }
    else if b == 40 { Some(TokenKind::OpenParen) }
    else if b == 41 { Some(TokenKind::CloseParen) }
    else { None }
}

/// Scans the token that starts at byte `start`: returns its end and kind.
fn scan_token(src: &Vec<u8>, start: usize) -> (r: (usize, TokenKind))
    requires
        start < src@.len(),
    ensures
        start < r.0 <= src@.len(),
        lexeme_has_kind(src@.subrange(start as int, r.0 as int), r.1),
        r.0 < src@.len() ==> !extends(src@, Range { start, end: r.0 }, r.1),
{
    let n = src.len();
    let b = src[start];
    let mut end: usize = start + 1;
    if byte_is_space(b) {
        while end < src.len() && byte_is_space(src[end])
            invariant
                start < end <= src@.len(),
                forall|i: int| start <= i < end ==> is_space(#[trigger] src@[i]),
            decreases src@.len() - end,
        {
            end = end + 1;
        }
        assert(lexeme_has_kind(src@.subrange(start as int, end as int), TokenKind::Whitespace));
        (end, TokenKind::Whitespace)
    } else if byte_is_digit(b) {
        while end < src.len() && byte_is_digit(src[end])
            invariant
                start < end <= src@.len(),
                forall|i: int| start <= i < end ==> is_digit(#[trigger] src@[i]),
            decreases src@.len() - end,
        {
            end = end + 1;
        }
        if end < n - 1 && src[end] == 46 && byte_is_digit(src[end + 1]) {
            let dot = end;
            end = end + 2;
            while end < src.len() && byte_is_digit(src[end])
                invariant
                    start < dot < end <= src@.len(),
                    dot + 1 < end,
                    src@[dot as int] == 46,
                    forall|i: int| start <= i < dot ==> is_digit(#[trigger] src@[i]),
                    forall|i: int| dot < i < end ==> is_digit(#[trigger] src@[i]),
                decreases src@.len() - end,
            {
                end = end + 1;
            }
            let ghost t = src@.subrange(start as int, end as int);
            assert(forall|i: int| 0 <= i < t.len() ==> t[i] == src@[start + i]);
            assert(t[dot - start] == 46);
            assert(t.contains(46u8));
            assert(is_digit(t[t.len() - 1]));
        } else {
            let ghost t = src@.subrange(start as int, end as int);
            assert(forall|i: int| 0 <= i < t.len() ==> t[i] == src@[start + i]);
            assert(!t.contains(46u8));
        }
        let ghost t = src@.subrange(start as int, end as int);
        assert(forall|i: int| 0 <= i < t.len() ==> t[i] == src@[start + i]);
        assert(lexeme_has_kind(t, TokenKind::Number));
        (end, TokenKind::Number)
    } else if byte_is_name_start(b) {
        while end < src.len() && (byte_is_name_start(src[end]) || byte_is_digit(src[end]))
            invariant
                start < end <= src@.len(),
                forall|i: int| start <= i < end ==> is_name_char(#[trigger] src@[i]),
            decreases src@.len() - end,
        {
            end = end + 1;
        }
        let ghost t = src@.subrange(start as int, end as int);
        assert(forall|i: int| 0 <= i < t.len() ==> t[i] == src@[start + i]);
        if end - start == 3 && src[start] == 110 && src[start + 1] == 111 && src[start + 2] == 116 {
            assert(t =~= not_keyword());
            (end, TokenKind::Not)
        } else {
            proof {
                if t == not_keyword() {
                    assert(t[0] == 110u8 && t[1] == 111u8 && t[2] == 116u8);
                }
            }
            (end, TokenKind::Name)
        }
    } else {
        match byte_symbol_kind(b) {
            Some(k) => (end, k),
            None => {
                // a multi-byte character stays one token
                while end < src.len() && src[end] >= 128 && src[end] < 192
                    invariant
                        start < end <= src@.len(),
                        forall|i: int| start < i < end ==> 128 <= #[trigger] src@[i] < 192,
                    decreases src@.len() - end,
                {
                    end = end + 1;
                }
                let ghost t = src@.subrange(start as int, end as int);
                assert(forall|i: int| 0 <= i < t.len() ==> t[i] == src@[start + i]);
                (end, TokenKind::Unknown)
            },
        }
    }
}

/// Splits `source` into tokens, whitespace included. Every byte belongs to exactly one token;
/// a character that starts no other token becomes an `Unknown` token.
pub fn tokenize_complete(source: &str) -> (r: Vec<Token>)
    ensures
        tokenizes(source.spec_bytes(), r@),
{
    let bytes = source.as_bytes();
    let mut src: Vec<u8> = Vec::new();
    let mut k: usize = 0;
    while k < bytes.len()
        invariant
            k <= bytes@.len(),
            src@ == bytes@.take(k as int),
        decreases bytes@.len() - k,
    {
        src.push(bytes[k]);
        k = k + 1;
        proof { assert(src@ =~= bytes@.take(k as int)); }
    }
    assert(src@ =~= bytes@);
    tokenize_bytes(&src)
}

/// Splits the bytes `src` into tokens, whitespace included.
pub fn tokenize_bytes(src: &Vec<u8>) -> (r: Vec<Token>)
    ensures
        tokenizes(src@, r@),
{
    let mut tokens: Vec<Token> = Vec::new();
    let mut pos: usize = 0;
    while pos < src.len()
        invariant
            pos <= src@.len(),
            tokens@.len() == 0 <==> pos == 0,
            forall|i: int| 0 <= i < tokens@.len() ==> (#[trigger] tokens@[i]).span.end < src@.len()
                ==> !extends(src@, tokens@[i].span, tokens@[i].kind),
            tokens@.len() > 0 ==> tokens@[0].span.start == 0 && tokens@.last().span.end == pos,
            forall|i: int| 0 <= i < tokens@.len() ==> {
                &&& (#[trigger] tokens@[i]).span.start < tokens@[i].span.end <= pos
                &&& lexeme_has_kind(lexeme(src@, tokens@[i].span), tokens@[i].kind)
            },
            forall|i: int| 0 <= i < tokens@.len() - 1 ==> (#[trigger] tokens@[i]).span.end == tokens@[i + 1].span.start,
        decreases src@.len() - pos,
    {
        let (end, kind) = scan_token(src, pos);
        tokens.push(Token { span: Range { start: pos, end }, kind });
        pos = end;
    }
    proof { reveal(tokenizes); }
    tokens
}

} // verus!
