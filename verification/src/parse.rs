use vstd::prelude::*;

use crate::lex::{LexError, lemma_tokenize_ordered, spec_tokenize, tokenize};
use crate::ops::{BinaryOp, UnaryOp, spec_precedence, spec_right_assoc};
use crate::scan::Speekerator;
use crate::span::{Pos, Span, spec_pos};
use crate::symbol::Symbol;
use crate::token::{Lit, SpecLit, SpecToken, SpecTokenKind, Token, TokenKind, spans_ordered, toks_view};

verus! {

/// The abstract syntax tree of an expression. Every node owns the span of
/// source text it was parsed from, both endpoints covered.
#[derive(Debug, PartialEq)]
pub enum Expr {
    Literal(Lit, Span),
    Identifier(Vec<char>, Span),
    Unary(UnaryOp, Box<Expr>, Span),
    Binary(BinaryOp, Box<Expr>, Box<Expr>, Span),
    /// A parenthesized sub-expression, kept as its own node so that spans
    /// stay accurate; it does not change evaluation order.
    Grouping(Box<Expr>, Span),
}

/// The mathematical shape of an expression tree.
pub enum SpecExpr {
    Literal(SpecLit, Span),
    Identifier(Seq<char>, Span),
    Unary(UnaryOp, Box<SpecExpr>, Span),
    Binary(BinaryOp, Box<SpecExpr>, Box<SpecExpr>, Span),
    Grouping(Box<SpecExpr>, Span),
}

pub open spec fn expr_view(e: Expr) -> SpecExpr
    decreases e,
{
    match e {
        Expr::Literal(l, sp) => SpecExpr::Literal(l@, sp),
        Expr::Identifier(name, sp) => SpecExpr::Identifier(name@, sp),
        Expr::Unary(op, inner, sp) => SpecExpr::Unary(op, Box::new(expr_view(*inner)), sp),
        Expr::Binary(op, lhs, rhs, sp) => SpecExpr::Binary(
            op,
            Box::new(expr_view(*lhs)),
            Box::new(expr_view(*rhs)),
            sp,
        ),
        Expr::Grouping(inner, sp) => SpecExpr::Grouping(Box::new(expr_view(*inner)), sp),
    }
}

impl View for Expr {
    type V = SpecExpr;

    open spec fn view(&self) -> SpecExpr {
        expr_view(*self)
    }
}

impl SpecExpr {
    /// The span a node carries.
    pub open spec fn span(self) -> Span {
        match self {
            SpecExpr::Literal(_, sp) => sp,
            SpecExpr::Identifier(_, sp) => sp,
            SpecExpr::Unary(_, _, sp) => sp,
            SpecExpr::Binary(_, _, _, sp) => sp,
            SpecExpr::Grouping(_, sp) => sp,
        }
    }
}

impl Expr {
    /// The span this node covers.
    pub fn span(&self) -> (s: Span)
        ensures
            s == self@.span(),
    {
        match self {
            Expr::Literal(_, sp) => *sp,
            Expr::Identifier(_, sp) => *sp,
            Expr::Unary(_, _, sp) => *sp,
            Expr::Binary(_, _, _, sp) => *sp,
            Expr::Grouping(_, sp) => *sp,
        }
    }
}

/// What the parser was looking for when it stopped.
#[derive(Clone, Copy, Debug, PartialEq, Eq, Structural)]
pub enum Expected {
    /// A literal, an identifier, a prefix operator, or an opening
    /// parenthesis.
    Primary,
    /// The closing parenthesis of an open grouping.
    CloseParen,
    /// Nothing: the expression was complete.
    EndOfInput,
}

/// A parse failure, as a structured value carrying the span of the
/// offending token, or the end-of-input position.
#[derive(Clone, Copy, Debug)]
pub enum ParseError {
    /// The parser required one thing and found another.
    UnexpectedToken { span: Span, expected: Expected },
    /// The parser required one thing and the input ended.
    UnexpectedEnd { pos: Pos, expected: Expected },
}

/// A primary expression at token index `i`: a literal, an identifier, a
/// prefix operator applied to a primary, or a parenthesized grouping.
pub open spec fn spec_primary(ts: Seq<SpecToken>, i: int, eoi: Pos) -> Result<
    (SpecExpr, int),
    ParseError,
>
    decreases ts.len() - i, 0int,
{
    if i < 0 || i >= ts.len() {
        Err(ParseError::UnexpectedEnd { pos: eoi, expected: Expected::Primary })
    } else {
        let t = ts[i];
        match t.kind {
            SpecTokenKind::Lit(l) => Ok((SpecExpr::Literal(l, t.span), i + 1)),
            SpecTokenKind::Ident(name) => Ok((SpecExpr::Identifier(name, t.span), i + 1)),
            SpecTokenKind::Not => match spec_primary(ts, i + 1, eoi) {
                Ok(ej) => Ok(
                    (
                        SpecExpr::Unary(
                            UnaryOp::Not,
                            Box::new(ej.0),
                            Span { start: t.span.start, end: ej.0.span().end },
                        ),
                        ej.1,
                    ),
                ),
                Err(e) => Err(e),
            },
            SpecTokenKind::Op(op) => if op == BinaryOp::Sub {
                match spec_primary(ts, i + 1, eoi) {
                    Ok(ej) => Ok(
                        (
                            SpecExpr::Unary(
                                UnaryOp::Neg,
                                Box::new(ej.0),
                                Span { start: t.span.start, end: ej.0.span().end },
                            ),
                            ej.1,
                        ),
                    ),
                    Err(e) => Err(e),
                }
            } else {
                Err(ParseError::UnexpectedToken { span: t.span, expected: Expected::Primary })
            },
            SpecTokenKind::LParen => match spec_parse(ts, i + 1, 1, eoi) {
                Ok(ej) => if ej.1 < ts.len() && ts[ej.1].kind is RParen {
                    Ok(
                        (
                            SpecExpr::Grouping(
                                Box::new(ej.0),
                                Span { start: t.span.start, end: ts[ej.1].span.end },
                            ),
                            ej.1 + 1,
                        ),
                    )
                } else if ej.1 < ts.len() {
                    Err(
                        ParseError::UnexpectedToken {
                            span: ts[ej.1].span,
                            expected: Expected::CloseParen,
                        },
                    )
                } else {
                    Err(ParseError::UnexpectedEnd { pos: eoi, expected: Expected::CloseParen })
                },
                Err(e) => Err(e),
            },
            SpecTokenKind::RParen => Err(
                ParseError::UnexpectedToken { span: t.span, expected: Expected::Primary },
            ),
        }
    }
}

/// Precedence climbing from an already-parsed left-hand side: as long as
/// the next token is a binary operator binding at least `min_prec`, parse
/// its right-hand side (with a threshold one higher for left-associative
/// operators, unchanged for the right-associative assignment class) and
/// fold the two into a `Binary` node whose span covers both sides.
pub open spec fn spec_binloop(
    ts: Seq<SpecToken>,
    lhs: SpecExpr,
    j: int,
    min_prec: int,
    eoi: Pos,
) -> Result<(SpecExpr, int), ParseError>
    decreases ts.len() - j, 1int,
{
    if j < 0 || j >= ts.len() {
        Ok((lhs, j))
    } else {
        match ts[j].kind {
            SpecTokenKind::Op(op) => {
                if spec_precedence(op) >= min_prec {
                    let next_min = if spec_right_assoc(op) {
                        spec_precedence(op)
                    } else {
                        spec_precedence(op) + 1
                    };
                    match spec_parse(ts, j + 1, next_min, eoi) {
                        Ok(rk) => if j < rk.1 <= ts.len() {
                            spec_binloop(
                                ts,
                                SpecExpr::Binary(
                                    op,
                                    Box::new(lhs),
                                    Box::new(rk.0),
                                    Span { start: lhs.span().start, end: rk.0.span().end },
                                ),
                                rk.1,
                                min_prec,
                                eoi,
                            )
                        } else {
                            Err(
                                ParseError::UnexpectedEnd {
                                    pos: eoi,
                                    expected: Expected::Primary,
                                },
                            )
                        },
                        Err(e) => Err(e),
                    }
                } else {
                    Ok((lhs, j))
                }
            },
            _ => Ok((lhs, j)),
        }
    }
}

/// A full expression at token index `i`, parsed with minimum operator
/// precedence `min_prec`: a primary followed by the binary-operator fold.
pub open spec fn spec_parse(ts: Seq<SpecToken>, i: int, min_prec: int, eoi: Pos) -> Result<
    (SpecExpr, int),
    ParseError,
>
    decreases ts.len() - i, 2int,
{
    match spec_primary(ts, i, eoi) {
        Ok(ej) => if i < ej.1 <= ts.len() {
            spec_binloop(ts, ej.0, ej.1, min_prec, eoi)
        } else {
            Err(ParseError::UnexpectedEnd { pos: eoi, expected: Expected::Primary })
        },
        Err(e) => Err(e),
    }
}

/// A successful parse consumes at least one token and stays within the
/// token list.
pub proof fn lemma_parse_bounds(ts: Seq<SpecToken>, i: int, min_prec: int, eoi: Pos)
    requires
        0 <= i <= ts.len(),
    ensures
        (spec_primary(ts, i, eoi) matches Ok(ej) ==> i < ej.1 <= ts.len()),
        (spec_parse(ts, i, min_prec, eoi) matches Ok(ej) ==> i < ej.1 <= ts.len()),
    decreases ts.len() - i, 2int,
{
    if i < ts.len() {
        match ts[i].kind {
            SpecTokenKind::Not => {
                lemma_parse_bounds(ts, i + 1, min_prec, eoi);
            },
            SpecTokenKind::Op(op) => {
                if op == BinaryOp::Sub {
                    lemma_parse_bounds(ts, i + 1, min_prec, eoi);
                }
            },
            SpecTokenKind::LParen => {
                lemma_parse_bounds(ts, i + 1, 1, eoi);
            },
            _ => {},
        }
    }
    match spec_primary(ts, i, eoi) {
        Ok(ej) => {
            lemma_binloop_bounds(ts, ej.0, ej.1, min_prec, eoi);
        },
        Err(_) => {},
    }
}

/// The binary-operator fold never moves the cursor backwards and stays
/// within the token list.
pub proof fn lemma_binloop_bounds(
    ts: Seq<SpecToken>,
    lhs: SpecExpr,
    j: int,
    min_prec: int,
    eoi: Pos,
)
    requires
        0 <= j <= ts.len(),
    ensures
        spec_binloop(ts, lhs, j, min_prec, eoi) matches Ok(ej) ==> j <= ej.1 <= ts.len(),
    decreases ts.len() - j, 1int,
{
    if 0 <= j && j < ts.len() {
        match ts[j].kind {
            SpecTokenKind::Op(op) => {
                if spec_precedence(op) >= min_prec {
                    let next_min = if spec_right_assoc(op) {
                        spec_precedence(op)
                    } else {
                        spec_precedence(op) + 1
                    };
                    lemma_parse_bounds(ts, j + 1, next_min, eoi);
                    match spec_parse(ts, j + 1, next_min, eoi) {
                        Ok(rk) => {
                            lemma_binloop_bounds(
                                ts,
                                SpecExpr::Binary(
                                    op,
                                    Box::new(lhs),
                                    Box::new(rk.0),
                                    Span { start: lhs.span().start, end: rk.0.span().end },
                                ),
                                rk.1,
                                min_prec,
                                eoi,
                            );
                        },
                        Err(_) => {},
                    }
                }
            },
            _ => {},
        }
    }
}

fn clone_chars(v: &Vec<char>) -> (r: Vec<char>)
    ensures
        r@ == v@,
{
    let mut r: Vec<char> = Vec::new();
    let mut idx: usize = 0;
    while idx < v.len()
        invariant
            idx <= v@.len(),
            r@ == v@.subrange(0, idx as int),
        decreases v@.len() - idx,
    {
        let c = v[idx];
        r.push(c);
        idx = idx + 1;
        proof {
            assert(r@ =~= v@.subrange(0, idx as int));
        }
    }
    proof {
        assert(r@ =~= v@);
    }
    r
}

fn clone_lit(l: &Lit) -> (r: Lit)
    ensures
        r@ == l@,
{
    match l {
        Lit::Int(v) => Lit::Int(*v),
        Lit::Bool(b) => Lit::Bool(*b),
        Lit::Str(cs) => Lit::Str(clone_chars(cs)),
    }
}

/// Parse one primary expression starting at token index `i`.
#[verifier::loop_isolation(false)]
fn parse_primary(ts: &Vec<Token>, i: usize, eoi: Pos) -> (r: Result<(Expr, usize), ParseError>)
    requires
        i <= ts@.len(),
    ensures
        match r {
            Ok(ej) => spec_primary(toks_view(ts@), i as int, eoi) == Ok::<
                (SpecExpr, int),
                ParseError,
            >((ej.0@, ej.1 as int)) && i < ej.1 <= ts@.len(),
            Err(e) => spec_primary(toks_view(ts@), i as int, eoi) == Err::<
                (SpecExpr, int),
                ParseError,
            >(e),
        },
    decreases ts@.len() - i, 0int,
{
    let ghost tv = toks_view(ts@);
    if i >= ts.len() {
        return Err(ParseError::UnexpectedEnd { pos: eoi, expected: Expected::Primary });
    }
    proof {
        assert(tv[i as int] == ts@[i as int]@);
    }
    let t = &ts[i];
    let sp = t.span;
    match &t.kind {
        TokenKind::Lit(l) => {
            let lit = clone_lit(l);
            Ok((Expr::Literal(lit, sp), i + 1))
        },
        TokenKind::Ident(name) => {
            let nm = clone_chars(name);
            Ok((Expr::Identifier(nm, sp), i + 1))
        },
        TokenKind::Not => {
            match parse_primary(ts, i + 1, eoi) {
                Ok(ej) => {
                    let inner = ej.0;
                    let end = inner.span().end;
                    Ok(
                        (
                            Expr::Unary(
                                UnaryOp::Not,
                                Box::new(inner),
                                Span::new_simple(sp.start, end),
                            ),
                            ej.1,
                        ),
                    )
                },
                Err(e) => Err(e),
            }
        },
        TokenKind::Op(op) => {
            if *op == BinaryOp::Sub {
                match parse_primary(ts, i + 1, eoi) {
                    Ok(ej) => {
                        let inner = ej.0;
                        let end = inner.span().end;
                        Ok(
                            (
                                Expr::Unary(
                                    UnaryOp::Neg,
                                    Box::new(inner),
                                    Span::new_simple(sp.start, end),
                                ),
                                ej.1,
                            ),
                        )
                    },
                    Err(e) => Err(e),
                }
            } else {
                Err(ParseError::UnexpectedToken { span: sp, expected: Expected::Primary })
            }
        },
        TokenKind::LParen => {
            match parse_expr_prec(ts, i + 1, 1, eoi) {
                Ok(ej) => {
                    let inner = ej.0;
                    let j = ej.1;
                    if j < ts.len() {
                        proof {
                            assert(tv[j as int] == ts@[j as int]@);
                        }
                        let is_rp = matches!(&ts[j].kind, TokenKind::RParen);
                        if is_rp {
                            let end = ts[j].span.end;
                            Ok(
                                (
                                    Expr::Grouping(
                                        Box::new(inner),
                                        Span::new_simple(sp.start, end),
                                    ),
                                    j + 1,
                                ),
                            )
                        } else {
                            Err(
                                ParseError::UnexpectedToken {
                                    span: ts[j].span,
                                    expected: Expected::CloseParen,
                                },
                            )
                        }
                    } else {
                        Err(
                            ParseError::UnexpectedEnd {
                                pos: eoi,
                                expected: Expected::CloseParen,
                            },
                        )
                    }
                },
                Err(e) => Err(e),
            }
        },
        TokenKind::RParen => Err(
            ParseError::UnexpectedToken { span: sp, expected: Expected::Primary },
        ),
    }
}

/// Parse a full expression starting at token index `i`, folding in binary
/// operators whose precedence is at least `min_prec`.
#[verifier::loop_isolation(false)]
fn parse_expr_prec(ts: &Vec<Token>, i: usize, min_prec: u32, eoi: Pos) -> (r: Result<
    (Expr, usize),
    ParseError,
>)
    requires
        i <= ts@.len(),
    ensures
        match r {
            Ok(ej) => spec_parse(toks_view(ts@), i as int, min_prec as int, eoi) == Ok::<
                (SpecExpr, int),
                ParseError,
            >((ej.0@, ej.1 as int)) && i < ej.1 <= ts@.len(),
            Err(e) => spec_parse(toks_view(ts@), i as int, min_prec as int, eoi) == Err::<
                (SpecExpr, int),
                ParseError,
            >(e),
        },
    decreases ts@.len() - i, 2int,
{
    let ghost tv = toks_view(ts@);
    let first = parse_primary(ts, i, eoi);
    let (mut lhs, mut j) = match first {
        Ok(ej) => ej,
        Err(e) => {
            return Err(e);
        },
    };
    loop
        invariant
            i < j <= ts@.len(),
            spec_binloop(tv, lhs@, j as int, min_prec as int, eoi) == spec_parse(
                tv,
                i as int,
                min_prec as int,
                eoi,
            ),
        decreases ts@.len() - j,
    {
        if j >= ts.len() {
            break;
        }
        proof {
            assert(tv[j as int] == ts@[j as int]@);
        }
        let opk = match &ts[j].kind {
            TokenKind::Op(o) => Some(*o),
            _ => None,
        };
        let op = match opk {
            Some(o) => o,
            None => {
                break;
            },
        };
        let prec = op.precedence();
        if prec < min_prec {
            break;
        }
        let next_min = if op.is_right_assoc() {
            prec
        } else {
            prec + 1
        };
        match parse_expr_prec(ts, j + 1, next_min, eoi) {
            Ok(rk) => {
                let rhs = rk.0;
                let k = rk.1;
                let sp = Span::new_simple(lhs.span().start, rhs.span().end);
                lhs = Expr::Binary(op, Box::new(lhs), Box::new(rhs), sp);
                j = k;
            },
            Err(e) => {
                return Err(e);
            },
        }
    }
    Ok((lhs, j))
}

/// Every node of a well-spanned tree covers exactly the extent of what it
/// was parsed from: a binary node runs from its left operand's start to
/// its right operand's end, with the operands disjoint; a unary node
/// starts strictly before its operand (at the operator) and ends with it;
/// a grouping strictly encloses its inner expression (the parentheses).
pub open spec fn well_spanned(e: SpecExpr) -> bool
    decreases e,
{
    match e {
        SpecExpr::Literal(_, _) => true,
        SpecExpr::Identifier(_, _) => true,
        SpecExpr::Unary(_, inner, sp) => well_spanned(*inner) && sp.end == inner.span().end
            && sp.start.idx < inner.span().start.idx,
        SpecExpr::Binary(_, lhs, rhs, sp) => well_spanned(*lhs) && well_spanned(*rhs)
            && sp.start == lhs.span().start && sp.end == rhs.span().end && lhs.span().end.idx
            < rhs.span().start.idx,
        SpecExpr::Grouping(inner, sp) => well_spanned(*inner) && sp.start.idx
            < inner.span().start.idx && inner.span().end.idx < sp.end.idx,
    }
}

/// Span coverage: over an ordered token list, everything the parser
/// returns is well spanned, and its span runs exactly from the first to
/// the last token it consumed.
pub proof fn lemma_parse_well_spanned(ts: Seq<SpecToken>, i: int, min_prec: int, eoi: Pos)
    requires
        0 <= i <= ts.len(),
        spans_ordered(ts),
    ensures
        (spec_primary(ts, i, eoi) matches Ok(ej) ==> well_spanned(ej.0) && ej.0.span().start
            == ts[i].span.start && ej.0.span().end == ts[ej.1 - 1].span.end),
        (spec_parse(ts, i, min_prec, eoi) matches Ok(ej) ==> well_spanned(ej.0)
            && ej.0.span().start == ts[i].span.start && ej.0.span().end == ts[ej.1
            - 1].span.end),
    decreases ts.len() - i, 2int,
{
    lemma_parse_bounds(ts, i, min_prec, eoi);
    if i < ts.len() {
        match ts[i].kind {
            SpecTokenKind::Not => {
                lemma_parse_bounds(ts, i + 1, min_prec, eoi);
                lemma_parse_well_spanned(ts, i + 1, min_prec, eoi);
            },
            SpecTokenKind::Op(op) => {
                if op == BinaryOp::Sub {
                    lemma_parse_bounds(ts, i + 1, min_prec, eoi);
                    lemma_parse_well_spanned(ts, i + 1, min_prec, eoi);
                }
            },
            SpecTokenKind::LParen => {
                lemma_parse_bounds(ts, i + 1, 1, eoi);
                lemma_parse_well_spanned(ts, i + 1, 1, eoi);
            },
            _ => {},
        }
    }
    match spec_primary(ts, i, eoi) {
        Ok(ej) => {
            lemma_binloop_well_spanned(ts, ej.0, ej.1, min_prec, eoi);
        },
        Err(_) => {},
    }
}

/// Span coverage for the binary-operator fold: starting from a left-hand
/// side that ends at token `j - 1`, the fold keeps that start and ends at
/// the last token it consumed.
pub proof fn lemma_binloop_well_spanned(
    ts: Seq<SpecToken>,
    lhs: SpecExpr,
    j: int,
    min_prec: int,
    eoi: Pos,
)
    requires
        1 <= j <= ts.len(),
        spans_ordered(ts),
        well_spanned(lhs),
        lhs.span().end == ts[j - 1].span.end,
    ensures
        spec_binloop(ts, lhs, j, min_prec, eoi) matches Ok(ek) ==> well_spanned(ek.0)
            && ek.0.span().start == lhs.span().start && 1 <= ek.1 <= ts.len()
            && ek.0.span().end == ts[ek.1 - 1].span.end,
    decreases ts.len() - j, 1int,
{
    if j < ts.len() {
        match ts[j].kind {
            SpecTokenKind::Op(op) => {
                if spec_precedence(op) >= min_prec {
                    let next_min = if spec_right_assoc(op) {
                        spec_precedence(op)
                    } else {
                        spec_precedence(op) + 1
                    };
                    lemma_parse_bounds(ts, j + 1, next_min, eoi);
                    lemma_parse_well_spanned(ts, j + 1, next_min, eoi);
                    match spec_parse(ts, j + 1, next_min, eoi) {
                        Ok(rk) => {
                            let combined = SpecExpr::Binary(
                                op,
                                Box::new(lhs),
                                Box::new(rk.0),
                                Span { start: lhs.span().start, end: rk.0.span().end },
                            );
                            assert(lhs.span().end.idx < rk.0.span().start.idx);
                            assert(well_spanned(combined));
                            lemma_binloop_well_spanned(ts, combined, rk.1, min_prec, eoi);
                        },
                        Err(_) => {},
                    }
                }
            },
            _ => {},
        }
    }
}

/// A whole token list as one expression: anything left over after the
/// expression is an error.
pub open spec fn spec_parse_tokens(ts: Seq<SpecToken>, eoi: Pos) -> Result<SpecExpr, ParseError> {
    match spec_parse(ts, 0, 1, eoi) {
        Ok(ej) => if ej.1 == ts.len() {
            Ok(ej.0)
        } else if 0 <= ej.1 < ts.len() {
            Err(
                ParseError::UnexpectedToken {
                    span: ts[ej.1].span,
                    expected: Expected::EndOfInput,
                },
            )
        } else {
            Err(ParseError::UnexpectedEnd { pos: eoi, expected: Expected::EndOfInput })
        },
        Err(e) => Err(e),
    }
}

/// Parse a complete token list into one expression. `eoi` is the
/// end-of-input position, used when an error must point past the last
/// token.
pub fn parse_tokens(ts: &Vec<Token>, eoi: Pos) -> (r: Result<Expr, ParseError>)
    ensures
        match r {
            Ok(e) => spec_parse_tokens(toks_view(ts@), eoi) == Ok::<SpecExpr, ParseError>(e@),
            Err(err) => spec_parse_tokens(toks_view(ts@), eoi) == Err::<SpecExpr, ParseError>(
                err,
            ),
        },
{
    let ghost tv = toks_view(ts@);
    match parse_expr_prec(ts, 0, 1, eoi) {
        Ok(ej) => {
            let e = ej.0;
            let j = ej.1;
            if j == ts.len() {
                Ok(e)
            } else {
                proof {
                    assert(tv[j as int] == ts@[j as int]@);
                }
                Err(
                    ParseError::UnexpectedToken {
                        span: ts[j].span,
                        expected: Expected::EndOfInput,
                    },
                )
            }
        },
        Err(e) => Err(e),
    }
}

/// Any failure of the front end: lexical or syntactic, each with full
/// position information.
#[derive(Clone, Copy, Debug)]
pub enum Error {
    Lex(LexError),
    Parse(ParseError),
}

/// The whole front end as one mathematical function: tokenize the
/// characters of the named file, then parse the tokens into an expression.
pub open spec fn spec_parse_source(file: Symbol, s: Seq<char>) -> Result<SpecExpr, Error> {
    match spec_tokenize(file, s, 0) {
        Err(e) => Err(Error::Lex(e)),
        Ok(ts) => match spec_parse_tokens(ts, spec_pos(file, s, s.len() as int)) {
            Ok(e) => Ok(e),
            Err(pe) => Err(Error::Parse(pe)),
        },
    }
}

/// Parse a source text into an expression tree: characters are scanned,
/// tokenized, and parsed in one pass, and every token and AST node carries
/// its span.
pub fn parse_source(src: Vec<char>, file: Symbol) -> (r: Result<Expr, Error>)
    requires
        src@.len() < usize::MAX,
    ensures
        match r {
            Ok(e) => spec_parse_source(file, src@) == Ok::<SpecExpr, Error>(e@) && well_spanned(
                e@,
            ),
            Err(err) => spec_parse_source(file, src@) == Err::<SpecExpr, Error>(err),
        },
{
    let ghost s = src@;
    let sp = src.speekable(file);
    match tokenize(sp) {
        Err(e) => Err(Error::Lex(e)),
        Ok(te) => {
            let toks = te.0;
            let eoi = te.1;
            proof {
                lemma_tokenize_ordered(file, s, 0);
                lemma_parse_well_spanned(toks_view(toks@), 0, 1, eoi);
            }
            match parse_tokens(&toks, eoi) {
                Ok(e) => Ok(e),
                Err(pe) => Err(Error::Parse(pe)),
            }
        },
    }
}

} // verus!
