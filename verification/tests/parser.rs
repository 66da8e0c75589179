use vnengine::ops::{BinaryOp, UnaryOp};
use vnengine::parse::{parse_source, Error, Expected, Expr, ParseError};
use vnengine::symbol::Symbol;
use vnengine::token::Lit;

fn parse(text: &str) -> Result<Expr, Error> {
    parse_source(text.chars().collect(), Symbol::new(0))
}

fn parse_ok(text: &str) -> Expr {
    parse(text).expect("expected a successful parse")
}

fn is_int(e: &Expr, v: u64) -> bool {
    matches!(e, Expr::Literal(Lit::Int(got), _) if *got == v)
}

fn is_ident(e: &Expr, name: &str) -> bool {
    let want: Vec<char> = name.chars().collect();
    matches!(e, Expr::Identifier(got, _) if *got == want)
}

#[test]
fn assignment_chains_to_the_right() {
    match parse_ok("a = b = c") {
        Expr::Binary(BinaryOp::Assign, lhs, rhs, _) => {
            assert!(is_ident(&lhs, "a"));
            match *rhs {
                Expr::Binary(BinaryOp::Assign, l2, r2, _) => {
                    assert!(is_ident(&l2, "b"));
                    assert!(is_ident(&r2, "c"));
                }
                other => panic!("expected a nested assignment, got {:?}", other),
            }
        }
        other => panic!("expected an assignment, got {:?}", other),
    }
}

#[test]
fn multiplication_binds_tighter_than_addition() {
    match parse_ok("1 + 2 * 3") {
        Expr::Binary(BinaryOp::Add, lhs, rhs, _) => {
            assert!(is_int(&lhs, 1));
            match *rhs {
                Expr::Binary(BinaryOp::Mul, l2, r2, _) => {
                    assert!(is_int(&l2, 2));
                    assert!(is_int(&r2, 3));
                }
                other => panic!("expected a product, got {:?}", other),
            }
        }
        other => panic!("expected a sum, got {:?}", other),
    }
}

#[test]
fn subtraction_chains_to_the_left() {
    match parse_ok("1 - 2 - 3") {
        Expr::Binary(BinaryOp::Sub, lhs, rhs, _) => {
            assert!(is_int(&rhs, 3));
            match *lhs {
                Expr::Binary(BinaryOp::Sub, l2, r2, _) => {
                    assert!(is_int(&l2, 1));
                    assert!(is_int(&r2, 2));
                }
                other => panic!("expected a nested difference, got {:?}", other),
            }
        }
        other => panic!("expected a difference, got {:?}", other),
    }
}

#[test]
fn unary_minus_binds_tighter_than_binary_operators() {
    match parse_ok("-1 + 2") {
        Expr::Binary(BinaryOp::Add, lhs, rhs, _) => {
            assert!(is_int(&rhs, 2));
            match *lhs {
                Expr::Unary(UnaryOp::Neg, inner, _) => assert!(is_int(&inner, 1)),
                other => panic!("expected a negation, got {:?}", other),
            }
        }
        other => panic!("expected a sum, got {:?}", other),
    }
}

#[test]
fn grouping_is_kept_as_its_own_node() {
    match parse_ok("(1 + 2) * 3") {
        Expr::Binary(BinaryOp::Mul, lhs, rhs, _) => {
            assert!(is_int(&rhs, 3));
            match *lhs {
                Expr::Grouping(inner, _) => match *inner {
                    Expr::Binary(BinaryOp::Add, l2, r2, _) => {
                        assert!(is_int(&l2, 1));
                        assert!(is_int(&r2, 2));
                    }
                    other => panic!("expected a sum inside the grouping, got {:?}", other),
                },
                other => panic!("expected a grouping, got {:?}", other),
            }
        }
        other => panic!("expected a product, got {:?}", other),
    }
}

#[test]
fn missing_close_paren_errors_at_end_of_input() {
    match parse("(1 + 2") {
        Err(Error::Parse(ParseError::UnexpectedEnd { pos, expected })) => {
            assert_eq!(expected, Expected::CloseParen);
            assert_eq!((pos.row, pos.col, pos.idx), (1, 7, 6));
        }
        other => panic!("expected an unexpected-end error, got {:?}", other),
    }
}

#[test]
fn missing_right_operand_errors_at_end_of_input() {
    match parse("1 +") {
        Err(Error::Parse(ParseError::UnexpectedEnd { pos, expected })) => {
            assert_eq!(expected, Expected::Primary);
            assert_eq!((pos.row, pos.col, pos.idx), (1, 4, 3));
        }
        other => panic!("expected an unexpected-end error, got {:?}", other),
    }
}

#[test]
fn stray_token_where_a_primary_is_required() {
    match parse("1 + *") {
        Err(Error::Parse(ParseError::UnexpectedToken { span, expected })) => {
            assert_eq!(expected, Expected::Primary);
            assert_eq!((span.start.idx, span.end.idx), (4, 4));
        }
        other => panic!("expected an unexpected-token error, got {:?}", other),
    }
}

#[test]
fn trailing_token_after_a_complete_expression() {
    match parse("1 2") {
        Err(Error::Parse(ParseError::UnexpectedToken { span, expected })) => {
            assert_eq!(expected, Expected::EndOfInput);
            assert_eq!(span.start.idx, 2);
        }
        other => panic!("expected an unexpected-token error, got {:?}", other),
    }
}

#[test]
fn empty_input_is_an_error() {
    match parse("   ") {
        Err(Error::Parse(ParseError::UnexpectedEnd { expected, .. })) => {
            assert_eq!(expected, Expected::Primary);
        }
        other => panic!("expected an unexpected-end error, got {:?}", other),
    }
}

#[test]
fn lexical_errors_surface_through_the_parser() {
    assert!(matches!(parse("1 + $"), Err(Error::Lex(_))));
}

#[test]
fn spans_cover_first_to_last_token_of_every_node() {
    match parse_ok("(1 + 2) * 3") {
        Expr::Binary(BinaryOp::Mul, lhs, rhs, sp) => {
            assert_eq!((sp.start.idx, sp.end.idx), (0, 10));
            match *lhs {
                Expr::Grouping(inner, gs) => {
                    assert_eq!((gs.start.idx, gs.end.idx), (0, 6));
                    match *inner {
                        Expr::Binary(BinaryOp::Add, l2, r2, asp) => {
                            assert_eq!((asp.start.idx, asp.end.idx), (1, 5));
                            assert!(matches!(*l2, Expr::Literal(_, s) if s.start.idx == 1));
                            assert!(matches!(*r2, Expr::Literal(_, s) if s.end.idx == 5));
                        }
                        other => panic!("expected a sum, got {:?}", other),
                    }
                }
                other => panic!("expected a grouping, got {:?}", other),
            }
            assert!(matches!(*rhs, Expr::Literal(_, s) if (s.start.idx, s.end.idx) == (10, 10)));
        }
        other => panic!("expected a product, got {:?}", other),
    }
}

#[test]
fn unary_nests_and_spans_include_the_operator() {
    match parse_ok("!-x") {
        Expr::Unary(UnaryOp::Not, inner, sp) => {
            assert_eq!((sp.start.idx, sp.end.idx), (0, 2));
            match *inner {
                Expr::Unary(UnaryOp::Neg, core, isp) => {
                    assert_eq!((isp.start.idx, isp.end.idx), (1, 2));
                    assert!(is_ident(&core, "x"));
                }
                other => panic!("expected a negation, got {:?}", other),
            }
        }
        other => panic!("expected a logical negation, got {:?}", other),
    }
}

#[test]
fn logical_and_binds_tighter_than_logical_or() {
    match parse_ok("a || b && c") {
        Expr::Binary(BinaryOp::LogicOr, lhs, rhs, _) => {
            assert!(is_ident(&lhs, "a"));
            assert!(matches!(*rhs, Expr::Binary(BinaryOp::LogicAnd, _, _, _)));
        }
        other => panic!("expected a disjunction, got {:?}", other),
    }
}

#[test]
fn compound_assignment_parses_as_an_expression() {
    match parse_ok("x += y << 2") {
        Expr::Binary(BinaryOp::AddAssign, lhs, rhs, _) => {
            assert!(is_ident(&lhs, "x"));
            assert!(matches!(*rhs, Expr::Binary(BinaryOp::LeftShift, _, _, _)));
        }
        other => panic!("expected a compound assignment, got {:?}", other),
    }
}

#[test]
fn relational_and_equality_precedence() {
    match parse_ok("a < b == c < d") {
        Expr::Binary(BinaryOp::CmpEq, lhs, rhs, _) => {
            assert!(matches!(*lhs, Expr::Binary(BinaryOp::CmpLt, _, _, _)));
            assert!(matches!(*rhs, Expr::Binary(BinaryOp::CmpLt, _, _, _)));
        }
        other => panic!("expected an equality, got {:?}", other),
    }
}

#[test]
fn string_and_boolean_literals_parse() {
    match parse_ok("s = \"hi\"") {
        Expr::Binary(BinaryOp::Assign, _, rhs, _) => {
            assert!(matches!(*rhs, Expr::Literal(Lit::Str(ref cs), _) if *cs == vec!['h', 'i']));
        }
        other => panic!("expected an assignment, got {:?}", other),
    }
    assert!(matches!(parse_ok("true"), Expr::Literal(Lit::Bool(true), _)));
}

#[test]
fn multiline_input_tracks_rows_and_columns() {
    match parse_ok("1 +\n2") {
        Expr::Binary(BinaryOp::Add, _, rhs, sp) => {
            assert_eq!((sp.start.row, sp.start.col), (1, 1));
            assert_eq!((sp.end.row, sp.end.col), (2, 1));
            assert!(matches!(*rhs, Expr::Literal(_, s) if (s.start.row, s.start.col) == (2, 1)));
        }
        other => panic!("expected a sum, got {:?}", other),
    }
}

#[test]
fn token_other_than_close_paren_inside_grouping() {
    match parse("(1 2") {
        Err(Error::Parse(ParseError::UnexpectedToken { span, expected })) => {
            assert_eq!(expected, Expected::CloseParen);
            assert_eq!(span.start.idx, 3);
        }
        other => panic!("expected an unexpected-token error, got {:?}", other),
    }
}

#[test]
fn empty_grouping_is_an_error() {
    match parse("()") {
        Err(Error::Parse(ParseError::UnexpectedToken { span, expected })) => {
            assert_eq!(expected, Expected::Primary);
            assert_eq!(span.start.idx, 1);
        }
        other => panic!("expected an unexpected-token error, got {:?}", other),
    }
}

#[test]
fn unary_minus_applies_to_a_whole_grouping() {
    match parse_ok("-(1 + 2)") {
        Expr::Unary(UnaryOp::Neg, inner, sp) => {
            assert_eq!((sp.start.idx, sp.end.idx), (0, 7));
            assert!(matches!(*inner, Expr::Grouping(_, _)));
        }
        other => panic!("expected a negation, got {:?}", other),
    }
}

#[test]
fn nested_groupings_each_keep_their_span() {
    match parse_ok("((7))") {
        Expr::Grouping(outer, osp) => {
            assert_eq!((osp.start.idx, osp.end.idx), (0, 4));
            match *outer {
                Expr::Grouping(inner, isp) => {
                    assert_eq!((isp.start.idx, isp.end.idx), (1, 3));
                    assert!(is_int(&inner, 7));
                }
                other => panic!("expected an inner grouping, got {:?}", other),
            }
        }
        other => panic!("expected a grouping, got {:?}", other),
    }
}

#[test]
fn bitwise_precedence_ladder() {
    match parse_ok("a | b ^ c & d") {
        Expr::Binary(BinaryOp::BitOr, lhs, rhs, _) => {
            assert!(is_ident(&lhs, "a"));
            match *rhs {
                Expr::Binary(BinaryOp::BitXor, l2, r2, _) => {
                    assert!(is_ident(&l2, "b"));
                    assert!(matches!(*r2, Expr::Binary(BinaryOp::BitAnd, _, _, _)));
                }
                other => panic!("expected an xor, got {:?}", other),
            }
        }
        other => panic!("expected a bitwise or, got {:?}", other),
    }
}

#[test]
fn assignment_mixes_with_unary_operands() {
    match parse_ok("a = -b") {
        Expr::Binary(BinaryOp::Assign, lhs, rhs, _) => {
            assert!(is_ident(&lhs, "a"));
            assert!(matches!(*rhs, Expr::Unary(UnaryOp::Neg, _, _)));
        }
        other => panic!("expected an assignment, got {:?}", other),
    }
}
