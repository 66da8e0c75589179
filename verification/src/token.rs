use vstd::prelude::*;

use crate::ops::BinaryOp;
use crate::span::Span;

verus! {

/// A literal value: an integer, a boolean keyword, or a quoted string.
#[derive(Clone, Debug, PartialEq, Eq)]
pub enum Lit {
    Int(u64),
    Bool(bool),
    Str(Vec<char>),
}

/// The mathematical shape of a literal: the string's characters as a
/// sequence.
pub enum SpecLit {
    Int(u64),
    Bool(bool),
    Str(Seq<char>),
}

impl View for Lit {
    type V = SpecLit;

    open spec fn view(&self) -> SpecLit {
        match self {
            Lit::Int(v) => SpecLit::Int(*v),
            Lit::Bool(b) => SpecLit::Bool(*b),
            Lit::Str(cs) => SpecLit::Str(cs@),
        }
    }
}

/// What kind of lexical token a span of characters was grouped into.
///
/// A `-` is tokenized as `Op(Sub)` and an `!` as `Not`; the parser decides
/// from context whether they act as prefix operators.
#[derive(Clone, Debug, PartialEq, Eq)]
pub enum TokenKind {
    Lit(Lit),
    Ident(Vec<char>),
    Op(BinaryOp),
    Not,
    LParen,
    RParen,
}

/// The mathematical shape of a token kind.
pub enum SpecTokenKind {
    Lit(SpecLit),
    Ident(Seq<char>),
    Op(BinaryOp),
    Not,
    LParen,
    RParen,
}

impl View for TokenKind {
    type V = SpecTokenKind;

    open spec fn view(&self) -> SpecTokenKind {
        match self {
            TokenKind::Lit(l) => SpecTokenKind::Lit(l@),
            TokenKind::Ident(name) => SpecTokenKind::Ident(name@),
            TokenKind::Op(op) => SpecTokenKind::Op(*op),
            TokenKind::Not => SpecTokenKind::Not,
            TokenKind::LParen => SpecTokenKind::LParen,
            TokenKind::RParen => SpecTokenKind::RParen,
        }
    }
}

/// A classified unit of lexical input, tagged with the span of characters
/// it was made from (both endpoints covered).
#[derive(Clone, Debug)]
pub struct Token {
    pub kind: TokenKind,
    pub span: Span,
}

/// The mathematical shape of a token.
pub struct SpecToken {
    pub kind: SpecTokenKind,
    pub span: Span,
}

impl View for Token {
    type V = SpecToken;

    open spec fn view(&self) -> SpecToken {
        SpecToken { kind: self.kind@, span: self.span }
    }
}

/// Token spans lie on the source text in order: each token's span starts
/// no later than it ends, and successive tokens occupy strictly later
/// offsets.
pub open spec fn spans_ordered(ts: Seq<SpecToken>) -> bool {
    &&& forall|a: int|
        0 <= a < ts.len() ==> #[trigger] ts[a].span.start.idx <= ts[a].span.end.idx
    &&& forall|a: int, b: int|
        #![trigger ts[a], ts[b]]
        0 <= a < b < ts.len() ==> ts[a].span.end.idx < ts[b].span.start.idx
}

/// A token sequence as its mathematical shape, element by element.
pub open spec fn toks_view(ts: Seq<Token>) -> Seq<SpecToken> {
    ts.map_values(|t: Token| t@)
}

} // verus!
