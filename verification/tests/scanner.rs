use vnengine::scan::{Speekable, Speekerator};
use vnengine::symbol::Symbol;

fn scan(text: &str) -> Speekable {
    let chars: Vec<char> = text.chars().collect();
    chars.speekable(Symbol::new(0))
}

#[test]
fn peek_then_next_yields_the_same_character() {
    let mut sp = scan("ab");
    let peeked = sp.peek();
    let taken = sp.next();
    assert_eq!(peeked, Some('a'));
    assert_eq!(taken, Some('a'));
    let peeked = sp.peek();
    let taken = sp.next();
    assert_eq!(peeked, Some('b'));
    assert_eq!(taken, Some('b'));
    assert_eq!(sp.peek(), None);
    assert_eq!(sp.next(), None);
}

#[test]
fn peek_is_idempotent() {
    let mut sp = scan("xy");
    assert_eq!(sp.peek(), Some('x'));
    assert_eq!(sp.peek(), Some('x'));
    assert_eq!(sp.peek(), Some('x'));
    assert_eq!(sp.next(), Some('x'));
}

#[test]
fn speek_reports_the_position_of_the_lookahead_character() {
    let mut sp = scan("a\nb");
    let (p, c) = sp.speek().unwrap();
    assert_eq!(c, 'a');
    assert_eq!((p.row, p.col, p.idx), (1, 1, 0));
    sp.snext();
    let (p, c) = sp.snext().unwrap();
    assert_eq!(c, '\n');
    assert_eq!((p.row, p.col, p.idx), (1, 2, 1));
    let (p, c) = sp.snext().unwrap();
    assert_eq!(c, 'b');
    assert_eq!((p.row, p.col, p.idx), (2, 1, 2));
    assert_eq!(sp.snext(), None);
}

#[test]
fn last_pos_is_the_position_after_the_pulled_characters() {
    let mut sp = scan("ab");
    assert_eq!(sp.last_pos().idx, 0);
    sp.snext();
    let p = sp.last_pos();
    assert_eq!((p.row, p.col, p.idx), (1, 2, 1));
    sp.snext();
    sp.snext();
    let p = sp.last_pos();
    assert_eq!((p.row, p.col, p.idx), (1, 3, 2));
}

#[test]
fn end_of_stream_is_no_character_not_an_error() {
    let mut sp = scan("");
    assert_eq!(sp.peek(), None);
    assert_eq!(sp.snext(), None);
    let p = sp.last_pos();
    assert_eq!((p.row, p.col, p.idx), (1, 1, 0));
}
