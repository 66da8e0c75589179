use vstd::prelude::*;

use crate::ops::BinaryOp;
use crate::scan::Speekable;
use crate::span::{Pos, Span, lemma_spec_pos_bounds, spec_pos};
use crate::symbol::Symbol;
use crate::token::{Lit, SpecLit, SpecToken, SpecTokenKind, Token, TokenKind, spans_ordered, toks_view};

verus! {

/// A tokenization failure. The scanner itself never fails; all lexical
/// fallibility is reported here, as a structured value with full position
/// information.
#[derive(Clone, Copy, Debug)]
pub enum LexError {
    /// A character that cannot begin any recognized token.
    Unrecognized { pos: Pos },
    /// An integer literal whose value does not fit the literal type.
    IntTooLarge { span: Span },
    /// A string literal opened but never closed before end of input.
    UnterminatedString { start: Pos, eoi: Pos },
}

/// Characters skipped between tokens.
pub open spec fn is_ws_char(c: char) -> bool {
    c == ' ' || c == '\t' || c == '\r' || c == '\n'
}

/// Decimal digits, the only characters of an integer literal.
pub open spec fn is_digit_char(c: char) -> bool {
    '0' as u32 <= c as u32 && c as u32 <= '9' as u32
}

/// The numeric value of a decimal digit.
pub open spec fn digit_val(c: char) -> int {
    c as u32 - '0' as u32
}

/// Characters an identifier may begin with: ASCII letters and underscore.
pub open spec fn is_ident_start_char(c: char) -> bool {
    ('a' as u32 <= c as u32 && c as u32 <= 'z' as u32) || ('A' as u32 <= c as u32 && c as u32
        <= 'Z' as u32) || c == '_'
}

/// Characters an identifier may continue with.
pub open spec fn is_ident_char(c: char) -> bool {
    is_ident_start_char(c) || is_digit_char(c)
}

/// The first index at or after `i` holding a non-whitespace character, or
/// the end of the sequence.
pub open spec fn ws_end(s: Seq<char>, i: int) -> int
    decreases s.len() - i,
{
    if i < s.len() && is_ws_char(s[i]) {
        ws_end(s, i + 1)
    } else {
        i
    }
}

/// The first index at or after `i` holding a non-digit, or the end.
pub open spec fn int_end(s: Seq<char>, i: int) -> int
    decreases s.len() - i,
{
    if i < s.len() && is_digit_char(s[i]) {
        int_end(s, i + 1)
    } else {
        i
    }
}

/// The first index at or after `i` holding a character no identifier may
/// continue with, or the end.
pub open spec fn ident_end(s: Seq<char>, i: int) -> int
    decreases s.len() - i,
{
    if i < s.len() && is_ident_char(s[i]) {
        ident_end(s, i + 1)
    } else {
        i
    }
}

/// The first index at or after `i` holding a closing quote, or the end if
/// the string body runs off the input.
pub open spec fn str_body_end(s: Seq<char>, i: int) -> int
    decreases s.len() - i,
{
    if i < s.len() && s[i] != '"' {
        str_body_end(s, i + 1)
    } else {
        i
    }
}

/// The value of the decimal digit run `s[i..j]`.
pub open spec fn digits_val(s: Seq<char>, i: int, j: int) -> int
    decreases j - i,
{
    if i < j {
        digits_val(s, i, j - 1) * 10 + digit_val(s[j - 1])
    } else {
        0
    }
}

pub proof fn lemma_ws_end_bounds(s: Seq<char>, i: int)
    requires
        0 <= i <= s.len(),
    ensures
        i <= ws_end(s, i) <= s.len(),
    decreases s.len() - i,
{
    if i < s.len() && is_ws_char(s[i]) {
        lemma_ws_end_bounds(s, i + 1);
    }
}

pub proof fn lemma_int_end_bounds(s: Seq<char>, i: int)
    requires
        0 <= i <= s.len(),
    ensures
        i <= int_end(s, i) <= s.len(),
    decreases s.len() - i,
{
    if i < s.len() && is_digit_char(s[i]) {
        lemma_int_end_bounds(s, i + 1);
    }
}

pub proof fn lemma_ident_end_bounds(s: Seq<char>, i: int)
    requires
        0 <= i <= s.len(),
    ensures
        i <= ident_end(s, i) <= s.len(),
    decreases s.len() - i,
{
    if i < s.len() && is_ident_char(s[i]) {
        lemma_ident_end_bounds(s, i + 1);
    }
}

pub proof fn lemma_str_body_end_bounds(s: Seq<char>, i: int)
    requires
        0 <= i <= s.len(),
    ensures
        i <= str_body_end(s, i) <= s.len(),
    decreases s.len() - i,
{
    if i < s.len() && s[i] != '"' {
        lemma_str_body_end_bounds(s, i + 1);
    }
}

/// The characters of the keyword for boolean truth.
pub open spec fn true_chars() -> Seq<char> {
    seq!['t', 'r', 'u', 'e']
}

/// The characters of the keyword for boolean falsehood.
pub open spec fn false_chars() -> Seq<char> {
    seq!['f', 'a', 'l', 's', 'e']
}

/// The span of the token occupying `s[k..j]`: both endpoints covered, so
/// the end is the position of the token's last character.
pub open spec fn tok_span(file: Symbol, s: Seq<char>, k: int, j: int) -> Span {
    Span { start: spec_pos(file, s, k), end: spec_pos(file, s, j - 1) }
}

/// The operator or delimiter token starting at `s[k]`, with maximal munch
/// (`<<=` before `<<` before `<`), and the index just after it; or nothing
/// if `s[k]` begins no such token.
pub open spec fn spec_punct(s: Seq<char>, k: int) -> Option<(SpecTokenKind, int)> {
    let c = s[k];
    let two = k + 1 < s.len();
    if c == '+' {
        if two && s[k + 1] == '=' {
            Some((SpecTokenKind::Op(BinaryOp::AddAssign), k + 2))
        } else {
            Some((SpecTokenKind::Op(BinaryOp::Add), k + 1))
        }
    } else if c == '-' {
        if two && s[k + 1] == '=' {
            Some((SpecTokenKind::Op(BinaryOp::SubAssign), k + 2))
        } else {
            Some((SpecTokenKind::Op(BinaryOp::Sub), k + 1))
        }
    } else if c == '*' {
        if two && s[k + 1] == '=' {
            Some((SpecTokenKind::Op(BinaryOp::MulAssign), k + 2))
        } else {
            Some((SpecTokenKind::Op(BinaryOp::Mul), k + 1))
        }
    } else if c == '/' {
        if two && s[k + 1] == '=' {
            Some((SpecTokenKind::Op(BinaryOp::DivAssign), k + 2))
        } else {
            Some((SpecTokenKind::Op(BinaryOp::Div), k + 1))
        }
    } else if c == '^' {
        if two && s[k + 1] == '=' {
            Some((SpecTokenKind::Op(BinaryOp::BitXorAssign), k + 2))
        } else {
            Some((SpecTokenKind::Op(BinaryOp::BitXor), k + 1))
        }
    } else if c == '&' {
        if two && s[k + 1] == '&' {
            Some((SpecTokenKind::Op(BinaryOp::LogicAnd), k + 2))
        } else if two && s[k + 1] == '=' {
            Some((SpecTokenKind::Op(BinaryOp::BitAndAssign), k + 2))
        } else {
            Some((SpecTokenKind::Op(BinaryOp::BitAnd), k + 1))
        }
    } else if c == '|' {
        if two && s[k + 1] == '|' {
            Some((SpecTokenKind::Op(BinaryOp::LogicOr), k + 2))
        } else if two && s[k + 1] == '=' {
            Some((SpecTokenKind::Op(BinaryOp::BitOrAssign), k + 2))
        } else {
            Some((SpecTokenKind::Op(BinaryOp::BitOr), k + 1))
        }
    } else if c == '=' {
        if two && s[k + 1] == '=' {
            Some((SpecTokenKind::Op(BinaryOp::CmpEq), k + 2))
        } else {
            Some((SpecTokenKind::Op(BinaryOp::Assign), k + 1))
        }
    } else if c == '!' {
        if two && s[k + 1] == '=' {
            Some((SpecTokenKind::Op(BinaryOp::CmpNe), k + 2))
        } else {
            Some((SpecTokenKind::Not, k + 1))
        }
    } else if c == '<' {
        if two && s[k + 1] == '<' {
            if k + 2 < s.len() && s[k + 2] == '=' {
                Some((SpecTokenKind::Op(BinaryOp::LeftShiftAssign), k + 3))
            } else {
                Some((SpecTokenKind::Op(BinaryOp::LeftShift), k + 2))
            }
        } else if two && s[k + 1] == '=' {
            Some((SpecTokenKind::Op(BinaryOp::CmpLe), k + 2))
        } else {
            Some((SpecTokenKind::Op(BinaryOp::CmpLt), k + 1))
        }
    } else if c == '>' {
        if two && s[k + 1] == '>' {
            if k + 2 < s.len() && s[k + 2] == '=' {
                Some((SpecTokenKind::Op(BinaryOp::RightShiftAssign), k + 3))
            } else {
                Some((SpecTokenKind::Op(BinaryOp::RightShift), k + 2))
            }
        } else if two && s[k + 1] == '=' {
            Some((SpecTokenKind::Op(BinaryOp::CmpGe), k + 2))
        } else {
            Some((SpecTokenKind::Op(BinaryOp::CmpGt), k + 1))
        }
    } else if c == '(' {
        Some((SpecTokenKind::LParen, k + 1))
    } else if c == ')' {
        Some((SpecTokenKind::RParen, k + 1))
    } else {
        None
    }
}

/// The kind of the identifier-shaped word `name`: the boolean keywords
/// become literals, everything else names a script-level binding.
pub open spec fn ident_kind(name: Seq<char>) -> SpecTokenKind {
    if name == true_chars() {
        SpecTokenKind::Lit(SpecLit::Bool(true))
    } else if name == false_chars() {
        SpecTokenKind::Lit(SpecLit::Bool(false))
    } else {
        SpecTokenKind::Ident(name)
    }
}

/// The next token of `s` at or after index `i`, with the index just after
/// it; `None` when only whitespace remains.
pub open spec fn spec_next_token(file: Symbol, s: Seq<char>, i: int) -> Option<
    Result<(SpecToken, int), LexError>,
> {
    let k = ws_end(s, i);
    if k >= s.len() {
        None
    } else {
        let c = s[k];
        if is_digit_char(c) {
            let j = int_end(s, k);
            if digits_val(s, k, j) <= u64::MAX {
                Some(
                    Ok(
                        (
                            SpecToken {
                                kind: SpecTokenKind::Lit(
                                    SpecLit::Int(digits_val(s, k, j) as u64),
                                ),
                                span: tok_span(file, s, k, j),
                            },
                            j,
                        ),
                    ),
                )
            } else {
                Some(Err(LexError::IntTooLarge { span: tok_span(file, s, k, j) }))
            }
        } else if is_ident_start_char(c) {
            let j = ident_end(s, k);
            Some(
                Ok(
                    (
                        SpecToken {
                            kind: ident_kind(s.subrange(k, j)),
                            span: tok_span(file, s, k, j),
                        },
                        j,
                    ),
                ),
            )
        } else if c == '"' {
            let j = str_body_end(s, k + 1);
            if j < s.len() {
                Some(
                    Ok(
                        (
                            SpecToken {
                                kind: SpecTokenKind::Lit(SpecLit::Str(s.subrange(k + 1, j))),
                                span: tok_span(file, s, k, j + 1),
                            },
                            j + 1,
                        ),
                    ),
                )
            } else {
                Some(
                    Err(
                        LexError::UnterminatedString {
                            start: spec_pos(file, s, k),
                            eoi: spec_pos(file, s, s.len() as int),
                        },
                    ),
                )
            }
        } else {
            match spec_punct(s, k) {
                Some(kj) => Some(
                    Ok(
                        (
                            SpecToken { kind: kj.0, span: tok_span(file, s, k, kj.1) },
                            kj.1,
                        ),
                    ),
                ),
                None => Some(Err(LexError::Unrecognized { pos: spec_pos(file, s, k) })),
            }
        }
    }
}

/// A token always covers at least one character and never runs past the
/// end of the input.
pub proof fn lemma_next_token_bounds(file: Symbol, s: Seq<char>, i: int)
    requires
        0 <= i <= s.len(),
    ensures
        match spec_next_token(file, s, i) {
            Some(r) => match r {
                Ok(tj) => i < tj.1 <= s.len(),
                Err(e) => true,
            },
            None => true,
        },
{
    lemma_ws_end_bounds(s, i);
    let k = ws_end(s, i);
    if k < s.len() {
        let c = s[k];
        if is_digit_char(c) {
            lemma_int_end_bounds(s, k + 1);
            assert(int_end(s, k) == int_end(s, k + 1));
        } else if is_ident_start_char(c) {
            lemma_ident_end_bounds(s, k + 1);
            assert(ident_end(s, k) == ident_end(s, k + 1));
        } else if c == '"' {
            lemma_str_body_end_bounds(s, k + 1);
        }
    }
}

/// All tokens of `s` from index `i` on, or the first lexical error.
pub open spec fn spec_tokenize(file: Symbol, s: Seq<char>, i: int) -> Result<
    Seq<SpecToken>,
    LexError,
>
    decreases s.len() - i,
{
    match spec_next_token(file, s, i) {
        None => Ok(Seq::empty()),
        Some(r) => match r {
            Err(e) => Err(e),
            Ok(tj) => if i < tj.1 <= s.len() {
                match spec_tokenize(file, s, tj.1) {
                    Ok(rest) => Ok(seq![tj.0] + rest),
                    Err(e) => Err(e),
                }
            } else {
                Err(LexError::Unrecognized { pos: spec_pos(file, s, i) })
            },
        },
    }
}

fn is_ws(c: char) -> (r: bool)
    ensures
        r == is_ws_char(c),
{
    c == ' ' || c == '\t' || c == '\r' || c == '\n'
}

fn is_digit(c: char) -> (r: bool)
    ensures
        r == is_digit_char(c),
{
    '0' as u32 <= c as u32 && c as u32 <= '9' as u32
}

fn is_ident_start(c: char) -> (r: bool)
    ensures
        r == is_ident_start_char(c),
{
    ('a' as u32 <= c as u32 && c as u32 <= 'z' as u32) || ('A' as u32 <= c as u32 && c as u32
        <= 'Z' as u32) || c == '_'
}

fn is_ident_cont(c: char) -> (r: bool)
    ensures
        r == is_ident_char(c),
{
    is_ident_start(c) || is_digit(c)
}

/// Scan an operator that is one character long unless followed directly by
/// `second`, in which case both characters are taken. `start` is the span
/// start of the whole token; `last` the position of the last character
/// consumed so far.
fn op2(
    sp: Speekable,
    start: Pos,
    last: Pos,
    second: char,
    two_kind: TokenKind,
    one_kind: TokenKind,
) -> (r: (Speekable, Token))
    requires
        sp.wf(),
        sp.consumed() >= 1,
        last == spec_pos(sp.file(), sp.stream(), sp.consumed() - 1),
    ensures
        r.0.wf(),
        r.0.stream() == sp.stream(),
        r.0.file() == sp.file(),
        if sp.consumed() < sp.stream().len() && sp.stream()[sp.consumed()] == second {
            r.1@ == (SpecToken {
                kind: two_kind@,
                span: Span { start, end: spec_pos(sp.file(), sp.stream(), sp.consumed()) },
            }) && r.0.consumed() == sp.consumed() + 1
        } else {
            r.1@ == (SpecToken { kind: one_kind@, span: Span { start, end: last } })
                && r.0.consumed() == sp.consumed()
        },
{
    let mut sp = sp;
    let matched = match sp.peek() {
        Some(c2) => c2 == second,
        None => false,
    };
    if matched {
        let pc = sp.snext().unwrap();
        (sp, Token { kind: two_kind, span: Span::new_simple(start, pc.0) })
    } else {
        (sp, Token { kind: one_kind, span: Span::new_simple(start, last) })
    }
}

/// Scan an operator or delimiter token whose first character is already
/// known not to begin whitespace, a number, an identifier, or a string.
fn scan_punct(sp: Speekable) -> (r: (Speekable, Result<Token, LexError>))
    requires
        sp.wf(),
        sp.consumed() < sp.stream().len(),
    ensures
        r.0.wf(),
        r.0.stream() == sp.stream(),
        r.0.file() == sp.file(),
        match spec_punct(sp.stream(), sp.consumed()) {
            Some(kj) => r.1 matches Ok(t) && t@ == (SpecToken {
                kind: kj.0,
                span: tok_span(sp.file(), sp.stream(), sp.consumed(), kj.1),
            }) && r.0.consumed() == kj.1,
            None => r.1 matches Err(e) && e == (LexError::Unrecognized {
                pos: spec_pos(sp.file(), sp.stream(), sp.consumed()),
            }),
        },
{
    let mut sp = sp;
    proof {
        sp.lemma_wf_bounds();
    }
    let pc = sp.snext().unwrap();
    let p0 = pc.0;
    let c = pc.1;
    if c == '+' {
        let (sp, t) = op2(
            sp,
            p0,
            p0,
            '=',
            TokenKind::Op(BinaryOp::AddAssign),
            TokenKind::Op(BinaryOp::Add),
        );
        (sp, Ok(t))
    } else if c == '-' {
        let (sp, t) = op2(
            sp,
            p0,
            p0,
            '=',
            TokenKind::Op(BinaryOp::SubAssign),
            TokenKind::Op(BinaryOp::Sub),
        );
        (sp, Ok(t))
    } else if c == '*' {
        let (sp, t) = op2(
            sp,
            p0,
            p0,
            '=',
            TokenKind::Op(BinaryOp::MulAssign),
            TokenKind::Op(BinaryOp::Mul),
        );
        (sp, Ok(t))
    } else if c == '/' {
        let (sp, t) = op2(
            sp,
            p0,
            p0,
            '=',
            TokenKind::Op(BinaryOp::DivAssign),
            TokenKind::Op(BinaryOp::Div),
        );
        (sp, Ok(t))
    } else if c == '^' {
        let (sp, t) = op2(
            sp,
            p0,
            p0,
            '=',
            TokenKind::Op(BinaryOp::BitXorAssign),
            TokenKind::Op(BinaryOp::BitXor),
        );
        (sp, Ok(t))
    } else if c == '=' {
        let (sp, t) = op2(
            sp,
            p0,
            p0,
            '=',
            TokenKind::Op(BinaryOp::CmpEq),
            TokenKind::Op(BinaryOp::Assign),
        );
        (sp, Ok(t))
    } else if c == '!' {
        let (sp, t) = op2(sp, p0, p0, '=', TokenKind::Op(BinaryOp::CmpNe), TokenKind::Not);
        (sp, Ok(t))
    } else if c == '&' {
        let look = sp.peek();
        let amp = match look {
            Some(c2) => c2 == '&',
            None => false,
        };
        let eq = match look {
            Some(c2) => c2 == '=',
            None => false,
        };
        if amp {
            let pc2 = sp.snext().unwrap();
            (
                sp,
                Ok(
                    Token {
                        kind: TokenKind::Op(BinaryOp::LogicAnd),
                        span: Span::new_simple(p0, pc2.0),
                    },
                ),
            )
        } else if eq {
            let pc2 = sp.snext().unwrap();
            (
                sp,
                Ok(
                    Token {
                        kind: TokenKind::Op(BinaryOp::BitAndAssign),
                        span: Span::new_simple(p0, pc2.0),
                    },
                ),
            )
        } else {
            (
                sp,
                Ok(
                    Token {
                        kind: TokenKind::Op(BinaryOp::BitAnd),
                        span: Span::new_simple(p0, p0),
                    },
                ),
            )
        }
    } else if c == '|' {
        let look = sp.peek();
        let bar = match look {
            Some(c2) => c2 == '|',
            None => false,
        };
        let eq = match look {
            Some(c2) => c2 == '=',
            None => false,
        };
        if bar {
            let pc2 = sp.snext().unwrap();
            (
                sp,
                Ok(
                    Token {
                        kind: TokenKind::Op(BinaryOp::LogicOr),
                        span: Span::new_simple(p0, pc2.0),
                    },
                ),
            )
        } else if eq {
            let pc2 = sp.snext().unwrap();
            (
                sp,
                Ok(
                    Token {
                        kind: TokenKind::Op(BinaryOp::BitOrAssign),
                        span: Span::new_simple(p0, pc2.0),
                    },
                ),
            )
        } else {
            (
                sp,
                Ok(
                    Token {
                        kind: TokenKind::Op(BinaryOp::BitOr),
                        span: Span::new_simple(p0, p0),
                    },
                ),
            )
        }
    } else if c == '<' {
        let look = sp.peek();
        let shift = match look {
            Some(c2) => c2 == '<',
            None => false,
        };
        let le = match look {
            Some(c2) => c2 == '=',
            None => false,
        };
        if shift {
            let pc2 = sp.snext().unwrap();
            let (sp, t) = op2(
                sp,
                p0,
                pc2.0,
                '=',
                TokenKind::Op(BinaryOp::LeftShiftAssign),
                TokenKind::Op(BinaryOp::LeftShift),
            );
            (sp, Ok(t))
        } else if le {
            let pc2 = sp.snext().unwrap();
            (
                sp,
                Ok(
                    Token {
                        kind: TokenKind::Op(BinaryOp::CmpLe),
                        span: Span::new_simple(p0, pc2.0),
                    },
                ),
            )
        } else {
            (
                sp,
                Ok(
                    Token { kind: TokenKind::Op(BinaryOp::CmpLt), span: Span::new_simple(p0, p0) },
                ),
            )
        }
    } else if c == '>' {
        let look = sp.peek();
        let shift = match look {
            Some(c2) => c2 == '>',
            None => false,
        };
        let ge = match look {
            Some(c2) => c2 == '=',
            None => false,
        };
        if shift {
            let pc2 = sp.snext().unwrap();
            let (sp, t) = op2(
                sp,
                p0,
                pc2.0,
                '=',
                TokenKind::Op(BinaryOp::RightShiftAssign),
                TokenKind::Op(BinaryOp::RightShift),
            );
            (sp, Ok(t))
        } else if ge {
            let pc2 = sp.snext().unwrap();
            (
                sp,
                Ok(
                    Token {
                        kind: TokenKind::Op(BinaryOp::CmpGe),
                        span: Span::new_simple(p0, pc2.0),
                    },
                ),
            )
        } else {
            (
                sp,
                Ok(
                    Token { kind: TokenKind::Op(BinaryOp::CmpGt), span: Span::new_simple(p0, p0) },
                ),
            )
        }
    } else if c == '(' {
        (sp, Ok(Token { kind: TokenKind::LParen, span: Span::new_simple(p0, p0) }))
    } else if c == ')' {
        (sp, Ok(Token { kind: TokenKind::RParen, span: Span::new_simple(p0, p0) }))
    } else {
        (sp, Err(LexError::Unrecognized { pos: p0 }))
    }
}


/// Scan a decimal integer literal; the scanner stands on its first digit.
fn scan_int(sp: Speekable) -> (r: (Speekable, Result<Token, LexError>))
    requires
        sp.wf(),
        sp.consumed() < sp.stream().len(),
        is_digit_char(sp.stream()[sp.consumed()]),
    ensures
        r.0.wf(),
        r.0.stream() == sp.stream(),
        r.0.file() == sp.file(),
        r.0.consumed() == int_end(sp.stream(), sp.consumed()),
        match r.1 {
            Ok(t) => digits_val(sp.stream(), sp.consumed(), int_end(sp.stream(), sp.consumed()))
                <= u64::MAX && t@ == (SpecToken {
                kind: SpecTokenKind::Lit(
                    SpecLit::Int(
                        digits_val(
                            sp.stream(),
                            sp.consumed(),
                            int_end(sp.stream(), sp.consumed()),
                        ) as u64,
                    ),
                ),
                span: tok_span(
                    sp.file(),
                    sp.stream(),
                    sp.consumed(),
                    int_end(sp.stream(), sp.consumed()),
                ),
            }),
            Err(e) => digits_val(sp.stream(), sp.consumed(), int_end(sp.stream(), sp.consumed()))
                > u64::MAX && e == (LexError::IntTooLarge {
                span: tok_span(
                    sp.file(),
                    sp.stream(),
                    sp.consumed(),
                    int_end(sp.stream(), sp.consumed()),
                ),
            }),
        },
{
    let mut sp = sp;
    proof {
        sp.lemma_wf_bounds();
    }
    let ghost s = sp.stream();
    let ghost f = sp.file();
    let ghost k = sp.consumed();
    proof {
        lemma_int_end_bounds(s, k + 1);
    }
    let pc = sp.snext().unwrap();
    let p0 = pc.0;
    let c0 = pc.1;
    let mut val: u64 = (c0 as u32 - '0' as u32) as u64;
    let mut of: bool = false;
    let mut last: Pos = p0;
    proof {
        assert(digits_val(s, k, k) == 0);
        assert(digits_val(s, k, k + 1) == digit_val(s[k]));
    }
    loop
        invariant
            sp.wf(),
            sp.stream() == s,
            sp.file() == f,
            0 <= k,
            k < sp.consumed() <= int_end(s, k),
            int_end(s, k) == int_end(s, sp.consumed()),
            last == spec_pos(f, s, sp.consumed() - 1),
            of ==> digits_val(s, k, sp.consumed()) > u64::MAX,
            !of ==> val == digits_val(s, k, sp.consumed()) && digits_val(s, k, sp.consumed())
                <= u64::MAX,
        ensures
            sp.wf(),
            sp.stream() == s,
            sp.file() == f,
            sp.consumed() == int_end(s, k),
            last == spec_pos(f, s, sp.consumed() - 1),
            of ==> digits_val(s, k, sp.consumed()) > u64::MAX,
            !of ==> val == digits_val(s, k, sp.consumed()) && digits_val(s, k, sp.consumed())
                <= u64::MAX,
        decreases s.len() - sp.consumed(),
    {
        let ghost cur = sp.consumed();
        let keep_going = match sp.peek() {
            Some(c) => is_digit(c),
            None => false,
        };
        if !keep_going {
            proof {
                assert(int_end(s, cur) == cur);
            }
            break;
        }
        let pc2 = sp.snext().unwrap();
        let d: u64 = (pc2.1 as u32 - '0' as u32) as u64;
        proof {
            lemma_int_end_bounds(s, cur + 1);
            assert(int_end(s, cur) == int_end(s, cur + 1));
            assert(digits_val(s, k, cur + 1) == digits_val(s, k, cur) * 10 + digit_val(s[cur]));
        }
        if of {
            proof {
                assert(digits_val(s, k, cur) * 10 > u64::MAX) by (nonlinear_arith)
                    requires
                        digits_val(s, k, cur) > u64::MAX,
                ;
            }
        } else {
            let stepped = match val.checked_mul(10) {
                Some(v10) => v10.checked_add(d),
                None => None,
            };
            match stepped {
                Some(v) => {
                    val = v;
                },
                None => {
                    of = true;
                },
            }
        }
        last = pc2.0;
    }
    let span = Span::new_simple(p0, last);
    if of {
        (sp, Err(LexError::IntTooLarge { span }))
    } else {
        (sp, Ok(Token { kind: TokenKind::Lit(Lit::Int(val)), span }))
    }
}

/// The token kind of an identifier-shaped word: the boolean keywords become
/// literals, everything else is a name.
fn kw_kind(name: Vec<char>) -> (k: TokenKind)
    ensures
        k@ == ident_kind(name@),
{
    if name.len() == 4 && name[0] == 't' && name[1] == 'r' && name[2] == 'u' && name[3] == 'e' {
        proof {
            assert(name@ =~= true_chars());
        }
        TokenKind::Lit(Lit::Bool(true))
    } else if name.len() == 5 && name[0] == 'f' && name[1] == 'a' && name[2] == 'l' && name[3]
        == 's' && name[4] == 'e' {
        proof {
            assert(name@ =~= false_chars());
        }
        TokenKind::Lit(Lit::Bool(false))
    } else {
        proof {
            assert(name@ != true_chars()) by {
                if name@ == true_chars() {
                    assert(name@.len() == 4);
                    assert(name@[0] == 't' && name@[1] == 'r' && name@[2] == 'u' && name@[3]
                        == 'e');
                }
            }
            assert(name@ != false_chars()) by {
                if name@ == false_chars() {
                    assert(name@.len() == 5);
                    assert(name@[0] == 'f' && name@[1] == 'a' && name@[2] == 'l' && name@[3]
                        == 's' && name@[4] == 'e');
                }
            }
        }
        TokenKind::Ident(name)
    }
}

/// Scan an identifier or keyword; the scanner stands on its first
/// character.
fn scan_ident(sp: Speekable) -> (r: (Speekable, Token))
    requires
        sp.wf(),
        sp.consumed() < sp.stream().len(),
        is_ident_start_char(sp.stream()[sp.consumed()]),
    ensures
        r.0.wf(),
        r.0.stream() == sp.stream(),
        r.0.file() == sp.file(),
        r.0.consumed() == ident_end(sp.stream(), sp.consumed()),
        r.1@ == (SpecToken {
            kind: ident_kind(
                sp.stream().subrange(sp.consumed(), ident_end(sp.stream(), sp.consumed())),
            ),
            span: tok_span(
                sp.file(),
                sp.stream(),
                sp.consumed(),
                ident_end(sp.stream(), sp.consumed()),
            ),
        }),
{
    let mut sp = sp;
    proof {
        sp.lemma_wf_bounds();
    }
    let ghost s = sp.stream();
    let ghost f = sp.file();
    let ghost k = sp.consumed();
    proof {
        lemma_ident_end_bounds(s, k + 1);
    }
    let pc = sp.snext().unwrap();
    let p0 = pc.0;
    let mut name: Vec<char> = Vec::new();
    name.push(pc.1);
    let mut last: Pos = p0;
    proof {
        assert(name@ =~= s.subrange(k, k + 1));
    }
    loop
        invariant
            sp.wf(),
            sp.stream() == s,
            sp.file() == f,
            0 <= k,
            k < sp.consumed() <= ident_end(s, k),
            ident_end(s, k) == ident_end(s, sp.consumed()),
            last == spec_pos(f, s, sp.consumed() - 1),
            name@ == s.subrange(k, sp.consumed()),
        ensures
            sp.wf(),
            sp.stream() == s,
            sp.file() == f,
            sp.consumed() == ident_end(s, k),
            last == spec_pos(f, s, sp.consumed() - 1),
            name@ == s.subrange(k, sp.consumed()),
        decreases s.len() - sp.consumed(),
    {
        let ghost cur = sp.consumed();
        let keep_going = match sp.peek() {
            Some(c) => is_ident_cont(c),
            None => false,
        };
        if !keep_going {
            proof {
                assert(ident_end(s, cur) == cur);
            }
            break;
        }
        let pc2 = sp.snext().unwrap();
        name.push(pc2.1);
        last = pc2.0;
        proof {
            lemma_ident_end_bounds(s, cur + 1);
            assert(ident_end(s, cur) == ident_end(s, cur + 1));
            assert(name@ =~= s.subrange(k, cur + 1));
        }
    }
    let kind = kw_kind(name);
    (sp, Token { kind, span: Span::new_simple(p0, last) })
}

/// Scan a string literal; the scanner stands on the opening quote. No
/// escape sequences are recognized: the body is every character up to the
/// first closing quote.
fn scan_string(sp: Speekable) -> (r: (Speekable, Result<Token, LexError>))
    requires
        sp.wf(),
        sp.consumed() < sp.stream().len(),
        sp.stream()[sp.consumed()] == '"',
    ensures
        r.0.wf(),
        r.0.stream() == sp.stream(),
        r.0.file() == sp.file(),
        ({
            let s = sp.stream();
            let f = sp.file();
            let k = sp.consumed();
            let j = str_body_end(s, k + 1);
            match r.1 {
                Ok(t) => j < s.len() && t@ == (SpecToken {
                    kind: SpecTokenKind::Lit(SpecLit::Str(s.subrange(k + 1, j))),
                    span: tok_span(f, s, k, j + 1),
                }) && r.0.consumed() == j + 1,
                Err(e) => j >= s.len() && e == (LexError::UnterminatedString {
                    start: spec_pos(f, s, k),
                    eoi: spec_pos(f, s, s.len() as int),
                }),
            }
        }),
{
    let mut sp = sp;
    proof {
        sp.lemma_wf_bounds();
    }
    let ghost s = sp.stream();
    let ghost f = sp.file();
    let ghost k = sp.consumed();
    proof {
        lemma_str_body_end_bounds(s, k + 1);
    }
    let pc = sp.snext().unwrap();
    let p0 = pc.0;
    let mut body: Vec<char> = Vec::new();
    proof {
        assert(body@ =~= s.subrange(k + 1, k + 1));
    }
    loop
        invariant
            sp.wf(),
            sp.stream() == s,
            sp.file() == f,
            0 <= k,
            k + 1 <= sp.consumed() <= str_body_end(s, k + 1),
            str_body_end(s, k + 1) == str_body_end(s, sp.consumed()),
            body@ == s.subrange(k + 1, sp.consumed()),
        ensures
            sp.wf(),
            sp.stream() == s,
            sp.file() == f,
            sp.consumed() == str_body_end(s, k + 1),
            body@ == s.subrange(k + 1, sp.consumed()),
        decreases s.len() - sp.consumed(),
    {
        let ghost cur = sp.consumed();
        let look = sp.peek();
        let keep_going = match look {
            Some(c) => c != '"',
            None => false,
        };
        if !keep_going {
            proof {
                assert(str_body_end(s, cur) == cur);
            }
            break;
        }
        let pc2 = sp.snext().unwrap();
        body.push(pc2.1);
        proof {
            lemma_str_body_end_bounds(s, cur + 1);
            assert(str_body_end(s, cur) == str_body_end(s, cur + 1));
            assert(body@ =~= s.subrange(k + 1, cur + 1));
        }
    }
    match sp.snext() {
        Some(qc) => {
            let tok = Token {
                kind: TokenKind::Lit(Lit::Str(body)),
                span: Span::new_simple(p0, qc.0),
            };
            (sp, Ok(tok))
        },
        None => {
            let eoi = sp.last_pos();
            (sp, Err(LexError::UnterminatedString { start: p0, eoi }))
        },
    }
}

/// Group the next run of characters into one token: skip whitespace, then
/// dispatch on the first remaining character. Returns the scanner together
/// with the token, `None` at end of input, or the lexical error.
pub fn next_token(sp: Speekable) -> (r: (Speekable, Result<Option<Token>, LexError>))
    requires
        sp.wf(),
    ensures
        r.0.wf(),
        r.0.stream() == sp.stream(),
        r.0.file() == sp.file(),
        match r.1 {
            Ok(opt) => match opt {
                Some(t) => spec_next_token(sp.file(), sp.stream(), sp.consumed()) == Some(
                    Ok::<(SpecToken, int), LexError>((t@, r.0.consumed())),
                ) && sp.consumed() < r.0.consumed() <= sp.stream().len(),
                None => spec_next_token(sp.file(), sp.stream(), sp.consumed()) is None
                    && r.0.consumed() == sp.stream().len() && r.0.pulled() == sp.stream().len(),
            },
            Err(e) => spec_next_token(sp.file(), sp.stream(), sp.consumed()) == Some(
                Err::<(SpecToken, int), LexError>(e),
            ),
        },
{
    let mut sp = sp;
    proof {
        sp.lemma_wf_bounds();
    }
    let ghost s = sp.stream();
    let ghost f = sp.file();
    let ghost c0 = sp.consumed();
    loop
        invariant
            sp.wf(),
            sp.stream() == s,
            sp.file() == f,
            0 <= c0 <= sp.consumed() <= s.len(),
            ws_end(s, c0) == ws_end(s, sp.consumed()),
        ensures
            sp.wf(),
            sp.stream() == s,
            sp.file() == f,
            0 <= c0 <= sp.consumed() <= s.len(),
            sp.consumed() == ws_end(s, c0),
            sp.consumed() == s.len() ==> sp.pulled() == s.len(),
        decreases s.len() - sp.consumed(),
    {
        let ghost cur = sp.consumed();
        let keep_going = match sp.peek() {
            Some(c) => is_ws(c),
            None => false,
        };
        if !keep_going {
            proof {
                assert(ws_end(s, cur) == cur);
            }
            break;
        }
        sp.snext();
        proof {
            lemma_ws_end_bounds(s, cur + 1);
            assert(ws_end(s, cur) == ws_end(s, cur + 1));
        }
    }
    proof {
        lemma_next_token_bounds(f, s, c0);
    }
    let look = sp.speek();
    match look {
        None => (sp, Ok(None)),
        Some(pc) => {
            let c = pc.1;
            if is_digit(c) {
                let (sp2, res) = scan_int(sp);
                match res {
                    Ok(t) => (sp2, Ok(Some(t))),
                    Err(e) => (sp2, Err(e)),
                }
            } else if is_ident_start(c) {
                let (sp2, t) = scan_ident(sp);
                (sp2, Ok(Some(t)))
            } else if c == '"' {
                let (sp2, res) = scan_string(sp);
                match res {
                    Ok(t) => (sp2, Ok(Some(t))),
                    Err(e) => (sp2, Err(e)),
                }
            } else {
                let (sp2, res) = scan_punct(sp);
                match res {
                    Ok(t) => (sp2, Ok(Some(t))),
                    Err(e) => (sp2, Err(e)),
                }
            }
        },
    }
}

/// Tokenize the whole remaining stream. On success the tokens come back
/// together with the end-of-input position; on failure, the first lexical
/// error.
#[verifier::loop_isolation(false)]
pub fn tokenize(sp: Speekable) -> (r: Result<(Vec<Token>, Pos), LexError>)
    requires
        sp.wf(),
    ensures
        match r {
            Ok(tp) => spec_tokenize(sp.file(), sp.stream(), sp.consumed()) == Ok::<
                Seq<SpecToken>,
                LexError,
            >(toks_view(tp.0@)) && tp.1 == spec_pos(
                sp.file(),
                sp.stream(),
                sp.stream().len() as int,
            ),
            Err(e) => spec_tokenize(sp.file(), sp.stream(), sp.consumed()) == Err::<
                Seq<SpecToken>,
                LexError,
            >(e),
        },
{
    let mut sp = sp;
    proof {
        sp.lemma_wf_bounds();
    }
    let ghost s = sp.stream();
    let ghost f = sp.file();
    let ghost c0 = sp.consumed();
    let mut toks: Vec<Token> = Vec::new();
    proof {
        assert(toks_view(toks@) =~= Seq::<SpecToken>::empty());
        assert(spec_tokenize(f, s, c0) is Ok ==> Seq::<SpecToken>::empty() + spec_tokenize(
            f,
            s,
            c0,
        )->Ok_0 =~= spec_tokenize(f, s, c0)->Ok_0);
    }
    loop
        invariant
            sp.wf(),
            sp.stream() == s,
            sp.file() == f,
            0 <= c0 <= sp.consumed() <= s.len(),
            spec_tokenize(f, s, c0) is Ok <==> spec_tokenize(f, s, sp.consumed()) is Ok,
            spec_tokenize(f, s, c0) is Ok ==> spec_tokenize(f, s, c0)->Ok_0 == toks_view(toks@)
                + spec_tokenize(f, s, sp.consumed())->Ok_0,
            spec_tokenize(f, s, sp.consumed()) is Err ==> spec_tokenize(f, s, c0)
                == spec_tokenize(f, s, sp.consumed()),
        decreases s.len() - sp.consumed(),
    {
        let ghost cur = sp.consumed();
        proof {
            lemma_next_token_bounds(f, s, cur);
        }
        let (sp2, res) = next_token(sp);
        sp = sp2;
        match res {
            Ok(opt) => match opt {
                None => {
                    proof {
                        assert(spec_tokenize(f, s, cur) == Ok::<Seq<SpecToken>, LexError>(
                            Seq::empty(),
                        ));
                        assert(toks_view(toks@) + Seq::<SpecToken>::empty() =~= toks_view(
                            toks@,
                        ));
                        assert(spec_tokenize(f, s, c0) == Ok::<Seq<SpecToken>, LexError>(
                            toks_view(toks@),
                        ));
                    }
                    let eoi = sp.last_pos();
                    return Ok((toks, eoi));
                },
                Some(t) => {
                    let ghost new_c = sp.consumed();
                    proof {
                        let rest = spec_tokenize(f, s, new_c);
                        assert(spec_tokenize(f, s, cur) == (match rest {
                            Ok(ts) => Ok::<Seq<SpecToken>, LexError>(seq![t@] + ts),
                            Err(e) => Err(e),
                        }));
                        assert(toks_view(toks@.push(t)) =~= toks_view(toks@) + seq![t@]);
                        if rest is Ok {
                            assert((toks_view(toks@) + seq![t@]) + rest->Ok_0 =~= toks_view(
                                toks@,
                            ) + (seq![t@] + rest->Ok_0));
                        }
                    }
                    toks.push(t);
                },
            },
            Err(e) => {
                proof {
                    assert(spec_tokenize(f, s, cur) == Err::<Seq<SpecToken>, LexError>(e));
                }
                return Err(e);
            },
        }
    }
}

/// A token's span starts at or after the scan position, starts no later
/// than it ends, and ends on the token's last character.
pub proof fn lemma_next_token_span(file: Symbol, s: Seq<char>, i: int)
    requires
        0 <= i <= s.len(),
        s.len() < usize::MAX,
    ensures
        match spec_next_token(file, s, i) {
            Some(r) => match r {
                Ok(tj) => i <= tj.0.span.start.idx && tj.0.span.start.idx
                    <= tj.0.span.end.idx && tj.0.span.end.idx == tj.1 - 1,
                Err(_) => true,
            },
            None => true,
        },
{
    lemma_ws_end_bounds(s, i);
    let k = ws_end(s, i);
    if k < s.len() {
        let c = s[k];
        if is_digit_char(c) {
            lemma_int_end_bounds(s, k + 1);
            assert(int_end(s, k) == int_end(s, k + 1));
            let j = int_end(s, k);
            lemma_spec_pos_bounds(file, s, k);
            lemma_spec_pos_bounds(file, s, j - 1);
        } else if is_ident_start_char(c) {
            lemma_ident_end_bounds(s, k + 1);
            assert(ident_end(s, k) == ident_end(s, k + 1));
            let j = ident_end(s, k);
            lemma_spec_pos_bounds(file, s, k);
            lemma_spec_pos_bounds(file, s, j - 1);
        } else if c == '"' {
            lemma_str_body_end_bounds(s, k + 1);
            let j = str_body_end(s, k + 1);
            if j < s.len() {
                lemma_spec_pos_bounds(file, s, k);
                lemma_spec_pos_bounds(file, s, j);
            }
        } else {
            match spec_punct(s, k) {
                Some(kj) => {
                    lemma_spec_pos_bounds(file, s, k);
                    lemma_spec_pos_bounds(file, s, kj.1 - 1);
                },
                None => {},
            }
        }
    }
}

/// The tokens of a successful tokenization sit on the source text in
/// order, each one at or after the index the scan began at.
pub proof fn lemma_tokenize_ordered(file: Symbol, s: Seq<char>, i: int)
    requires
        0 <= i <= s.len(),
        s.len() < usize::MAX,
    ensures
        match spec_tokenize(file, s, i) {
            Ok(ts2) => spans_ordered(ts2) && forall|a: int|
                0 <= a < ts2.len() ==> i <= #[trigger] ts2[a].span.start.idx,
            Err(_) => true,
        },
    decreases s.len() - i,
{
    lemma_next_token_bounds(file, s, i);
    lemma_next_token_span(file, s, i);
    match spec_next_token(file, s, i) {
        None => {},
        Some(r) => match r {
            Err(_) => {},
            Ok(tj) => {
                let t = tj.0;
                let j = tj.1;
                lemma_tokenize_ordered(file, s, j);
                match spec_tokenize(file, s, j) {
                    Ok(rest) => {
                        let whole = seq![t] + rest;
                        assert forall|a: int|
                            0 <= a < whole.len() implies #[trigger] whole[a].span.start.idx
                            <= whole[a].span.end.idx by {
                            if a > 0 {
                                assert(whole[a] == rest[a - 1]);
                            }
                        }
                        assert forall|a: int|
                            0 <= a < whole.len() implies i <= #[trigger] whole[a].span.start.idx by {
                            if a > 0 {
                                assert(whole[a] == rest[a - 1]);
                                assert(j <= rest[a - 1].span.start.idx);
                            }
                        }
                        assert forall|a: int, b: int|
                            #![trigger whole[a], whole[b]]
                            0 <= a < b < whole.len() implies whole[a].span.end.idx
                            < whole[b].span.start.idx by {
                            assert(whole[b] == rest[b - 1]);
                            assert(j <= rest[b - 1].span.start.idx);
                            if a > 0 {
                                assert(whole[a] == rest[a - 1]);
                            }
                        }
                    },
                    Err(_) => {},
                }
            },
        },
    }
}

} // verus!
