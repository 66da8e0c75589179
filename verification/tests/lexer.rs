use vnengine::lex::{next_token, tokenize, LexError};
use vnengine::ops::BinaryOp;
use vnengine::scan::{Speekable, Speekerator};
use vnengine::symbol::Symbol;
use vnengine::token::{Lit, Token, TokenKind};

fn scan(text: &str) -> Speekable {
    let chars: Vec<char> = text.chars().collect();
    chars.speekable(Symbol::new(0))
}

fn lex(text: &str) -> Vec<Token> {
    tokenize(scan(text)).expect("tokenization failed").0
}

#[test]
fn integers_identifiers_and_operators() {
    let toks = lex("x1 + 23");
    assert_eq!(toks.len(), 3);
    assert_eq!(toks[0].kind, TokenKind::Ident(vec!['x', '1']));
    assert_eq!(toks[1].kind, TokenKind::Op(BinaryOp::Add));
    assert_eq!(toks[2].kind, TokenKind::Lit(Lit::Int(23)));
    assert_eq!((toks[0].span.start.idx, toks[0].span.end.idx), (0, 1));
    assert_eq!((toks[1].span.start.idx, toks[1].span.end.idx), (3, 3));
    assert_eq!((toks[2].span.start.idx, toks[2].span.end.idx), (5, 6));
}

#[test]
fn boolean_keywords_become_literals() {
    let toks = lex("true false truer");
    assert_eq!(toks[0].kind, TokenKind::Lit(Lit::Bool(true)));
    assert_eq!(toks[1].kind, TokenKind::Lit(Lit::Bool(false)));
    assert_eq!(toks[2].kind, TokenKind::Ident(vec!['t', 'r', 'u', 'e', 'r']));
}

#[test]
fn string_literal_with_span_covering_the_quotes() {
    let toks = lex(" \"hi\" ");
    assert_eq!(toks.len(), 1);
    assert_eq!(toks[0].kind, TokenKind::Lit(Lit::Str(vec!['h', 'i'])));
    assert_eq!((toks[0].span.start.idx, toks[0].span.end.idx), (1, 4));
}

#[test]
fn maximal_munch_on_compound_operators() {
    let toks = lex("a <<= 1 << 2 < 3 <= 4");
    let kinds: Vec<&TokenKind> = toks.iter().map(|t| &t.kind).collect();
    assert_eq!(*kinds[1], TokenKind::Op(BinaryOp::LeftShiftAssign));
    assert_eq!(*kinds[3], TokenKind::Op(BinaryOp::LeftShift));
    assert_eq!(*kinds[5], TokenKind::Op(BinaryOp::CmpLt));
    assert_eq!(*kinds[7], TokenKind::Op(BinaryOp::CmpLe));
}

#[test]
fn every_operator_lexes() {
    let toks = lex("+ - * / & | ^ && || << >> = += -= *= /= &= |= ^= <<= >>= == != < > <= >= ! ( )");
    let expected = [
        BinaryOp::Add, BinaryOp::Sub, BinaryOp::Mul, BinaryOp::Div, BinaryOp::BitAnd,
        BinaryOp::BitOr, BinaryOp::BitXor, BinaryOp::LogicAnd, BinaryOp::LogicOr,
        BinaryOp::LeftShift, BinaryOp::RightShift, BinaryOp::Assign, BinaryOp::AddAssign,
        BinaryOp::SubAssign, BinaryOp::MulAssign, BinaryOp::DivAssign, BinaryOp::BitAndAssign,
        BinaryOp::BitOrAssign, BinaryOp::BitXorAssign, BinaryOp::LeftShiftAssign,
        BinaryOp::RightShiftAssign, BinaryOp::CmpEq, BinaryOp::CmpNe, BinaryOp::CmpLt,
        BinaryOp::CmpGt, BinaryOp::CmpLe, BinaryOp::CmpGe,
    ];
    for (i, op) in expected.iter().enumerate() {
        assert_eq!(toks[i].kind, TokenKind::Op(*op));
    }
    assert_eq!(toks[27].kind, TokenKind::Not);
    assert_eq!(toks[28].kind, TokenKind::LParen);
    assert_eq!(toks[29].kind, TokenKind::RParen);
    assert_eq!(toks.len(), 30);
}

#[test]
fn whitespace_only_input_has_no_tokens() {
    let (toks, eoi) = tokenize(scan(" \t\r\n ")).unwrap();
    assert!(toks.is_empty());
    assert_eq!((eoi.row, eoi.col, eoi.idx), (2, 2, 5));
}

#[test]
fn unrecognized_character_is_a_lexical_error_with_its_position() {
    match tokenize(scan("a # b")) {
        Err(LexError::Unrecognized { pos }) => {
            assert_eq!((pos.row, pos.col, pos.idx), (1, 3, 2));
        }
        other => panic!("expected an unrecognized-character error, got {:?}", other),
    }
}

#[test]
fn oversized_integer_literal_is_an_error_spanning_the_digits() {
    assert!(matches!(
        lex("18446744073709551615").as_slice(),
        [Token { kind: TokenKind::Lit(Lit::Int(u64::MAX)), .. }]
    ));
    match tokenize(scan("18446744073709551616")) {
        Err(LexError::IntTooLarge { span }) => {
            assert_eq!((span.start.idx, span.end.idx), (0, 19));
        }
        other => panic!("expected an oversized-literal error, got {:?}", other),
    }
}

#[test]
fn unterminated_string_reports_opening_and_end_of_input() {
    match tokenize(scan("x = \"oops")) {
        Err(LexError::UnterminatedString { start, eoi }) => {
            assert_eq!(start.idx, 4);
            assert_eq!(eoi.idx, 9);
        }
        other => panic!("expected an unterminated-string error, got {:?}", other),
    }
}

#[test]
fn next_token_pulls_one_token_at_a_time() {
    let sp = scan("ab 12");
    let (sp, first) = next_token(sp);
    assert_eq!(first.unwrap().unwrap().kind, TokenKind::Ident(vec!['a', 'b']));
    let (sp, second) = next_token(sp);
    assert_eq!(second.unwrap().unwrap().kind, TokenKind::Lit(Lit::Int(12)));
    let (_, third) = next_token(sp);
    assert!(third.unwrap().is_none());
}
