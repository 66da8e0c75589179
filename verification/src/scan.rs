use vstd::prelude::*;

use crate::span::{Pos, lemma_spec_pos_bounds, spec_pos};
use crate::symbol::Symbol;

verus! {

/// A lookahead scanner over a character stream: it hands characters out one
/// at a time together with the position *at which each character occurs*,
/// and buffers at most one character of lookahead. End of stream is "no
/// character available", never an error.
pub struct Speekable {
    chars: Vec<char>,
    /// How many characters have been pulled off `chars`, the buffered
    /// lookahead included.
    cursor: usize,
    /// The buffered lookahead, with the position it was read at.
    peeked: Option<(Pos, char)>,
    /// The position the next raw character would be read from.
    pos: Pos,
}

impl Speekable {
    /// Every character of the stream, consumed or not.
    pub closed spec fn stream(self) -> Seq<char> {
        self.chars@
    }

    /// The file all positions of this scanner belong to.
    pub closed spec fn file(self) -> Symbol {
        self.pos.file
    }

    /// How many characters have been pulled off the stream, the buffered
    /// lookahead included.
    pub closed spec fn pulled(self) -> int {
        self.cursor as int
    }

    /// How many characters the consumer has taken; the buffered lookahead,
    /// if any, is not yet consumed.
    pub closed spec fn consumed(self) -> int {
        if self.peeked is Some {
            self.cursor - 1
        } else {
            self.cursor as int
        }
    }

    /// The scanner's internal invariant: the cursor stays within the
    /// stream, the tracked position is the one reached by consuming
    /// `cursor` characters, and the buffered lookahead (if any) is the
    /// character just before the cursor, at its own position.
    pub closed spec fn wf(self) -> bool {
        &&& self.chars@.len() < usize::MAX
        &&& self.cursor <= self.chars@.len()
        &&& self.pos == spec_pos(self.pos.file, self.chars@, self.cursor as int)
        &&& match self.peeked {
            Some(pc) => {
                &&& self.cursor >= 1
                &&& pc.1 == self.chars@[self.cursor - 1]
                &&& pc.0 == spec_pos(self.pos.file, self.chars@, self.cursor - 1)
            },
            None => true,
        }
    }

    /// What the consumer sees next: the character at the consumption point
    /// together with its position, or nothing at end of stream.
    pub open spec fn spec_speek(s: Speekable) -> Option<(Pos, char)> {
        if s.consumed() < s.stream().len() {
            Some(
                (
                    spec_pos(s.file(), s.stream(), s.consumed()),
                    s.stream()[s.consumed()],
                ),
            )
        } else {
            None
        }
    }

    /// A well-formed scanner keeps its consumption point within the stream.
    pub proof fn lemma_wf_bounds(self)
        requires
            self.wf(),
        ensures
            0 <= self.consumed() <= self.pulled() <= self.stream().len(),
    {
    }

    pub fn new(inner: Vec<char>, file_name: Symbol) -> (s: Speekable)
        requires
            inner@.len() < usize::MAX,
        ensures
            s.wf(),
            s.stream() == inner@,
            s.file() == file_name,
            s.consumed() == 0,
            s.pulled() == 0,
    {
        Speekable { chars: inner, cursor: 0, peeked: None, pos: Pos::new(1, 1, 0, file_name) }
    }

    /// Fill the lookahead buffer from the stream if it is empty and a
    /// character remains.
    fn tick(&mut self)
        requires
            old(self).wf(),
        ensures
            final(self).wf(),
            final(self).stream() == old(self).stream(),
            final(self).file() == old(self).file(),
            final(self).consumed() == old(self).consumed(),
            final(self).lookahead() == Self::spec_speek(*old(self)),
            final(self).pulled() == if old(self).consumed() < old(self).stream().len() {
                old(self).consumed() + 1
            } else {
                old(self).consumed()
            },
    {
        proof {
            lemma_spec_pos_bounds(self.pos.file, self.chars@, self.cursor as int);
        }
        if self.peeked.is_none() {
            if self.cursor < self.chars.len() {
                let c = self.chars[self.cursor];
                let here = self.pos;
                let next_pos = crate::span::advance(here, c);
                self.peeked = Some((here, c));
                self.pos = next_pos;
                self.cursor = self.cursor + 1;
            }
        }
    }

    /// The buffered lookahead as it stands, without touching the stream.
    pub closed spec fn lookahead(self) -> Option<(Pos, char)> {
        self.peeked
    }

    /// Look at the next character and the position it occurs at, without
    /// consuming it. Repeated calls with no intervening consumption return
    /// the same answer.
    pub fn speek(&mut self) -> (r: Option<(Pos, char)>)
        requires
            old(self).wf(),
        ensures
            final(self).wf(),
            final(self).stream() == old(self).stream(),
            final(self).file() == old(self).file(),
            final(self).consumed() == old(self).consumed(),
            r == Self::spec_speek(*old(self)),
            Self::spec_speek(*final(self)) == Self::spec_speek(*old(self)),
            final(self).pulled() == if old(self).consumed() < old(self).stream().len() {
                old(self).consumed() + 1
            } else {
                old(self).consumed()
            },
    {
        self.tick();
        self.peeked
    }

    /// Look at the next character without consuming it. Idempotent: the
    /// stream and the consumption point are left as they were, so an
    /// immediately repeated `peek`, or a following `snext`, sees the same
    /// character.
    pub fn peek(&mut self) -> (r: Option<char>)
        requires
            old(self).wf(),
        ensures
            final(self).wf(),
            final(self).stream() == old(self).stream(),
            final(self).file() == old(self).file(),
            final(self).consumed() == old(self).consumed(),
            r == match Self::spec_speek(*old(self)) {
                Some(pc) => Some(pc.1),
                None => None::<char>,
            },
            Self::spec_speek(*final(self)) == Self::spec_speek(*old(self)),
            final(self).pulled() == if old(self).consumed() < old(self).stream().len() {
                old(self).consumed() + 1
            } else {
                old(self).consumed()
            },
    {
        self.tick();
        match self.peeked {
            Some(pc) => Some(pc.1),
            None => None,
        }
    }

    /// Consume the next character and return it with the position it
    /// occurred at: the same character an immediately preceding `peek`
    /// reported.
    pub fn snext(&mut self) -> (r: Option<(Pos, char)>)
        requires
            old(self).wf(),
        ensures
            final(self).wf(),
            final(self).stream() == old(self).stream(),
            final(self).file() == old(self).file(),
            r == Self::spec_speek(*old(self)),
            r is Some ==> final(self).consumed() == old(self).consumed() + 1,
            r is None ==> final(self).consumed() == old(self).consumed(),
            final(self).pulled() == final(self).consumed(),
    {
        self.tick();
        let r = self.peeked;
        self.peeked = None;
        r
    }

    /// Consume the next character and return it alone.
    pub fn next(&mut self) -> (r: Option<char>)
        requires
            old(self).wf(),
        ensures
            final(self).wf(),
            final(self).stream() == old(self).stream(),
            final(self).file() == old(self).file(),
            r == match Self::spec_speek(*old(self)) {
                Some(pc) => Some(pc.1),
                None => None::<char>,
            },
            r is Some ==> final(self).consumed() == old(self).consumed() + 1,
            r is None ==> final(self).consumed() == old(self).consumed(),
            final(self).pulled() == final(self).consumed(),
    {
        self.tick();
        let r = self.peeked;
        self.peeked = None;
        match r {
            Some(pc) => Some(pc.1),
            None => None,
        }
    }

    /// The position immediately following the most recently pulled
    /// character: where the next raw character would be read from. With an
    /// empty lookahead buffer this is the consumption point itself.
    pub fn last_pos(&self) -> (p: Pos)
        requires
            self.wf(),
        ensures
            p == spec_pos(self.file(), self.stream(), self.pulled()),
            self.lookahead() is None ==> p == spec_pos(
                self.file(),
                self.stream(),
                self.consumed(),
            ),
    {
        self.pos
    }
}

/// Anything that can hand its characters to a lookahead scanner.
pub trait Speekerator: Sized {
    /// The characters the scanner will see, in order.
    spec fn chars(self) -> Seq<char>;

    /// Wrap the characters in a fresh scanner for the named file.
    fn speekable(self, file_name: Symbol) -> (s: Speekable)
        requires
            self.chars().len() < usize::MAX,
        ensures
            s.wf(),
            s.stream() == self.chars(),
            s.file() == file_name,
            s.consumed() == 0,
            s.pulled() == 0,
    ;
}

impl Speekerator for Vec<char> {
    open spec fn chars(self) -> Seq<char> {
        self@
    }

    fn speekable(self, file_name: Symbol) -> (s: Speekable) {
        Speekable::new(self, file_name)
    }
}

} // verus!
