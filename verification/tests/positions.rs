use std::cmp::Ordering;

use vnengine::span::{advance, Pos, Span};
use vnengine::symbol::Symbol;

fn file(id: usize) -> Symbol {
    Symbol::new(id)
}

#[test]
fn advance_ordinary_character_moves_one_column() {
    let p = Pos::new(3, 7, 20, file(0));
    let q = advance(p, 'x');
    assert_eq!(q.row, 3);
    assert_eq!(q.col, 8);
    assert_eq!(q.idx, 21);
    assert_eq!(q.file, file(0));
}

#[test]
fn advance_newline_starts_next_row_at_column_one() {
    let p = Pos::new(3, 7, 20, file(0));
    let q = advance(p, '\n');
    assert_eq!(q.row, 4);
    assert_eq!(q.col, 1);
    assert_eq!(q.idx, 21);
    assert_eq!(q.file, file(0));
}

#[test]
fn advance_carriage_return_counts_as_ordinary() {
    let p = Pos::new(1, 1, 0, file(0));
    let q = advance(p, '\r');
    assert_eq!(q.row, 1);
    assert_eq!(q.col, 2);
}

#[test]
fn positions_in_different_files_are_incomparable_and_unequal() {
    let p1 = Pos::new(1, 1, 0, file(0));
    let p2 = Pos::new(1, 1, 0, file(1));
    assert_eq!(p1.partial_cmp(&p2), None);
    assert!(p1 != p2);
}

#[test]
fn positions_order_by_row_then_column() {
    let f = file(0);
    let a = Pos::new(1, 9, 8, f);
    let b = Pos::new(2, 1, 10, f);
    assert_eq!(a.partial_cmp(&b), Some(Ordering::Less));
    let c = Pos::new(2, 5, 14, f);
    assert_eq!(b.partial_cmp(&c), Some(Ordering::Less));
    assert_eq!(c.partial_cmp(&b), Some(Ordering::Greater));
    assert_eq!(c.partial_cmp(&c), Some(Ordering::Equal));
}

#[test]
fn position_equality_ignores_offset() {
    let f = file(0);
    let a = Pos::new(2, 3, 10, f);
    let b = Pos::new(2, 3, 99, f);
    assert!(a == b);
}

#[test]
fn span_keeps_its_endpoints() {
    let f = file(0);
    let s = Span::new_simple(Pos::new(1, 1, 0, f), Pos::new(1, 4, 3, f));
    assert_eq!(s.start.idx, 0);
    assert_eq!(s.end.idx, 3);
}
