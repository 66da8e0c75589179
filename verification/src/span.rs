use vstd::prelude::*;

use crate::symbol::Symbol;
use core::cmp::Ordering;
use vstd::std_specs::cmp::PartialEqSpec;
use vstd::std_specs::cmp::PartialOrdSpec;

verus! {

/// A source position: 1-based row and column, plus the 0-based count of
/// characters consumed from the start of the stream, and the file the
/// position belongs to.
///
/// Equality and ordering are defined only within one file: positions from
/// different files are never equal and never ordered. Ordering compares the
/// row first, then the column; the offset `idx` is a derived convenience
/// field and takes no part in equality or ordering.
#[derive(Clone, Copy, Debug)]
pub struct Pos {
    pub row: usize,
    pub col: usize,
    pub idx: usize,
    pub file: Symbol,
}

impl Pos {
    pub fn new(row: usize, col: usize, idx: usize, file: Symbol) -> (p: Pos)
        ensures
            p.row == row,
            p.col == col,
            p.idx == idx,
            p.file == file,
    {
        Pos { row, col, idx, file }
    }
}

/// The single rule for line/column bookkeeping: consuming a newline starts
/// the next row at column 1; consuming any other character moves one column
/// to the right. Either way the absolute offset grows by one. A carriage
/// return is not special-cased: it counts as an ordinary character.
pub open spec fn spec_advance(p: Pos, c: char) -> Pos {
    if c == '\n' {
        Pos { row: (p.row + 1) as usize, col: 1, idx: (p.idx + 1) as usize, file: p.file }
    } else {
        Pos { row: p.row, col: (p.col + 1) as usize, idx: (p.idx + 1) as usize, file: p.file }
    }
}

/// The position after consuming `c` at position `p`.
///
/// For any non-newline character the row is kept and the column grows by
/// one; for a newline the row grows by one and the column resets to 1.
pub fn advance(p: Pos, c: char) -> (q: Pos)
    requires
        p.row < usize::MAX,
        p.col < usize::MAX,
        p.idx < usize::MAX,
    ensures
        q == spec_advance(p, c),
        c == '\n' ==> q.row == p.row + 1 && q.col == 1,
        c != '\n' ==> q.row == p.row && q.col == p.col + 1,
        q.idx == p.idx + 1,
        q.file == p.file,
{
    if c == '\n' {
        Pos { row: p.row + 1, col: 1, idx: p.idx + 1, file: p.file }
    } else {
        Pos { row: p.row, col: p.col + 1, idx: p.idx + 1, file: p.file }
    }
}

/// The position reached after consuming the first `n` characters of `s`,
/// starting from row 1, column 1, offset 0.
pub open spec fn spec_pos(file: Symbol, s: Seq<char>, n: int) -> Pos
    decreases n,
{
    if n <= 0 {
        Pos { row: 1, col: 1, idx: 0, file }
    } else {
        spec_advance(spec_pos(file, s, n - 1), s[n - 1])
    }
}

/// Consuming `n` characters puts the offset at exactly `n`, and keeps the
/// row and column within `n + 1`, so none of the advance steps wraps.
pub proof fn lemma_spec_pos_bounds(file: Symbol, s: Seq<char>, n: int)
    requires
        0 <= n < usize::MAX,
    ensures
        spec_pos(file, s, n).idx == n,
        1 <= spec_pos(file, s, n).row <= n + 1,
        1 <= spec_pos(file, s, n).col <= n + 1,
        spec_pos(file, s, n).file == file,
    decreases n,
{
    if n > 0 {
        lemma_spec_pos_bounds(file, s, n - 1);
    }
}

impl PartialEq for Pos {
    fn eq(&self, other: &Self) -> (r: bool) {
        self.file == other.file && self.row == other.row && self.col == other.col
    }
}

impl vstd::std_specs::cmp::PartialEqSpecImpl for Pos {
    open spec fn obeys_eq_spec() -> bool {
        true
    }

    open spec fn eq_spec(&self, other: &Self) -> bool {
        self.file == other.file && self.row == other.row && self.col == other.col
    }
}

impl PartialOrd for Pos {
    fn partial_cmp(&self, other: &Self) -> (r: Option<Ordering>) {
        if self.file != other.file {
            None
        } else if self.row < other.row {
            Some(Ordering::Less)
        } else if self.row > other.row {
            Some(Ordering::Greater)
        } else if self.col < other.col {
            Some(Ordering::Less)
        } else if self.col > other.col {
            Some(Ordering::Greater)
        } else {
            Some(Ordering::Equal)
        }
    }
}

impl vstd::std_specs::cmp::PartialOrdSpecImpl for Pos {
    open spec fn obeys_partial_cmp_spec() -> bool {
        true
    }

    open spec fn partial_cmp_spec(&self, other: &Self) -> Option<Ordering> {
        if self.file != other.file {
            None
        } else if self.row < other.row {
            Some(Ordering::Less)
        } else if self.row > other.row {
            Some(Ordering::Greater)
        } else if self.col < other.col {
            Some(Ordering::Less)
        } else if self.col > other.col {
            Some(Ordering::Greater)
        } else {
            Some(Ordering::Equal)
        }
    }
}

/// Positions in different files are incomparable (ordering yields no
/// answer rather than an error) and never equal.
pub proof fn lemma_cross_file_incomparable(p1: Pos, p2: Pos)
    requires
        p1.file != p2.file,
    ensures
        p1.partial_cmp_spec(&p2) is None,
        !p1.eq_spec(&p2),
{
}

/// A start/end pair of positions tagging a token or an AST node. Both
/// endpoints are covered: `end` is the position of the last character of
/// the construct, not the position after it.
#[derive(Clone, Copy, Debug, PartialEq)]
pub struct Span {
    pub start: Pos,
    pub end: Pos,
}

impl Span {
    pub fn new_simple(start: Pos, end: Pos) -> (s: Span)
        ensures
            s.start == start,
            s.end == end,
    {
        Span { start, end }
    }
}

} // verus!
