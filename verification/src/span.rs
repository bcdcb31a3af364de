//! Positions in a source text and the spans between them.

use std::cmp::Ordering;
use vstd::prelude::*;
use vstd::std_specs::cmp::PartialOrdSpecImpl;

verus! {

/// Width of a tab stop, in columns.
pub const TAB_SIZE: usize = 4;

/// A place in a text as unbounded numbers: the model of a [`Pos`].
pub struct Place {
    pub line: nat,
    pub col: nat,
}

/// Where the place after the character `c` lies, when `c` stands at `p`.
///
/// A newline opens the next line, a tab moves to the next tab stop, and every
/// other character is one column wide.
pub open spec fn step(p: Place, c: char) -> Place {
    if c == '\n' {
        Place { line: p.line + 1, col: 0 }
    } else if c == '\t' {
        Place { line: p.line, col: (p.col / 4 + 1) * 4 }
    } else {
        Place { line: p.line, col: p.col + 1 }
    }
}

/// Where the place after all of `s` lies, when `s` starts at `p`.
pub open spec fn walk(p: Place, s: Seq<char>) -> Place
    decreases s.len(),
{
    if s.len() == 0 {
        p
    } else {
        step(walk(p, s.drop_last()), s.last())
    }
}

/// How many newlines `s` holds.
pub open spec fn newlines(s: Seq<char>) -> nat
    decreases s.len(),
{
    if s.len() == 0 {
        0
    } else {
        newlines(s.drop_last()) + if s.last() == '\n' { 1nat } else { 0nat }
    }
}

/// A line and a column, both counted from zero.
#[derive(Clone, Copy, Debug, PartialEq, Eq, Hash, Ord, Structural)]
pub struct Pos {
    pub line: usize,
    pub col: usize,
}

impl View for Pos {
    type V = Place;

    open spec fn view(&self) -> Place {
        Place { line: self.line as nat, col: self.col as nat }
    }
}

/// Positions are ordered by line, and within a line by column.
impl PartialOrd for Pos {
    fn partial_cmp(&self, other: &Pos) -> (r: Option<Ordering>) {
        if self.line < other.line {
            Some(Ordering::Less)
        } else if self.line > other.line {
            Some(Ordering::Greater)
        } else if self.col < other.col {
            Some(Ordering::Less)
        } else if self.col > other.col {
            Some(Ordering::Greater)
        } else {
            Some(Ordering::Equal)
        }
    }
}

impl PartialOrdSpecImpl for Pos {
    open spec fn obeys_partial_cmp_spec() -> bool {
        true
    }

    open spec fn partial_cmp_spec(&self, other: &Pos) -> Option<Ordering> {
        if self.before(*other) {
            Some(Ordering::Less)
        } else if other.before(*self) {
            Some(Ordering::Greater)
        } else {
            Some(Ordering::Equal)
        }
    }
}

impl Pos {
    /// The order of positions: by line, then by column.
    pub open spec fn before(self, other: Pos) -> bool {
        self.line < other.line || (self.line == other.line && self.col < other.col)
    }

    /// The position that marks the end of input.
    pub open spec fn end_mark() -> Pos {
        Pos { line: usize::MAX, col: usize::MAX }
    }

    pub fn new(line: usize, col: usize) -> (p: Pos)
        ensures
            p.line == line,
            p.col == col,
    {
        Pos { line, col }
    }

    /// Moves the position past the character `c`.
    pub fn advance(&mut self, c: char)
        requires
            step(old(self)@, c).line <= usize::MAX,
            step(old(self)@, c).col <= usize::MAX,
        ensures
            final(self)@ == step(old(self)@, c),
            final(self).line == old(self).line + if c == '\n' { 1int } else { 0int },
            c == '\t' ==> final(self).col % 4 == 0,
            c == '\t' ==> old(self).col < final(self).col <= old(self).col + 4,
    {
        if c == '\n' {
            self.line += 1;
            self.col = 0;
        } else if c == '\t' {
            let col: usize = self.col;
            let next: usize = col + TAB_SIZE;
            assert(next & !3usize == next - next % 4) by (bit_vector);
            self.col = (self.col + TAB_SIZE) & !(TAB_SIZE - 1);
        } else {
            self.col += 1;
        }
    }

    pub fn zero() -> (p: Pos)
        ensures
            p == (Pos { line: 0, col: 0 }),
    {
        Pos { line: 0, col: 0 }
    }

    /// The end mark: the greatest line and the greatest column.
    pub fn eof() -> (p: Pos)
        ensures
            p == Pos::end_mark(),
    {
        Pos { line: usize::MAX, col: usize::MAX }
    }

    /// Whether the position is the end mark.
    pub fn is_eof(&self) -> (b: bool)
        ensures
            b == (*self == Pos::end_mark()),
    {
        self.line == usize::MAX && self.col == usize::MAX
    }
}

/// Walking a text from `p` ends as many lines below `p` as the text holds
/// newlines.
pub proof fn lemma_walk_counts_lines(p: Place, s: Seq<char>)
    ensures
        walk(p, s).line == p.line + newlines(s),
    decreases s.len(),
{
    if s.len() > 0 {
        lemma_walk_counts_lines(p, s.drop_last());
    }
}

/// The column after a tab is a multiple of the tab width, and lies past the
/// column of the tab by at least one and at most the tab width.
pub proof fn lemma_tab_reaches_stop(p: Place)
    ensures
        step(p, '\t').col % 4 == 0,
        p.col < step(p, '\t').col <= p.col + 4,
        step(p, '\t').line == p.line,
{
}

/// The start and the end of a stretch of text.
#[derive(Clone, Copy, Debug, PartialEq, Eq, Hash, Ord, Structural)]
pub struct Span {
    pub start: Pos,
    pub end: Pos,
}

/// Spans are ordered by their start, and spans of one start by their end.
impl PartialOrd for Span {
    fn partial_cmp(&self, other: &Span) -> (r: Option<Ordering>) {
        if self.start < other.start {
            Some(Ordering::Less)
        } else if other.start < self.start {
            Some(Ordering::Greater)
        } else if self.end < other.end {
            Some(Ordering::Less)
        } else if other.end < self.end {
            Some(Ordering::Greater)
        } else {
            Some(Ordering::Equal)
        }
    }
}

impl PartialOrdSpecImpl for Span {
    open spec fn obeys_partial_cmp_spec() -> bool {
        true
    }

    open spec fn partial_cmp_spec(&self, other: &Span) -> Option<Ordering> {
        if self.before(*other) {
            Some(Ordering::Less)
        } else if other.before(*self) {
            Some(Ordering::Greater)
        } else {
            Some(Ordering::Equal)
        }
    }
}

impl Span {
    /// The span that stands for the end of input, and for no text at all.
    pub open spec fn end_mark() -> Span {
        Span { start: Pos::end_mark(), end: Pos::end_mark() }
    }

    /// Whether the span starts at the end mark.
    pub open spec fn at_end(self) -> bool {
        self.start == Pos::end_mark()
    }

    /// The two spans joined into one. The end mark gives way to the other
    /// span, and so does any span that starts at the end mark; of two others
    /// the result runs from the start of the first to the end of the second,
    /// in the order given.
    pub open spec fn merged(self, other: Span) -> Span {
        if other == Span::end_mark() {
            self
        } else if self.at_end() {
            other
        } else if other.at_end() {
            self
        } else {
            Span { start: self.start, end: other.end }
        }
    }

    /// The order of spans: by start, then by end.
    pub open spec fn before(self, other: Span) -> bool {
        self.start.before(other.start) || (self.start == other.start && self.end.before(
            other.end,
        ))
    }

    pub fn new(start: Pos, end: Pos) -> (s: Span)
        ensures
            s.start == start,
            s.end == end,
    {
        Span { start, end }
    }

    /// Joins `self` and `other`, which the caller gives in source order.
    pub fn merge(&self, other: &Span) -> (s: Span)
        ensures
            s == self.merged(*other),
            *other == Span::end_mark() ==> s == *self,
            *self == Span::end_mark() ==> s == *other,
    {
        if *other == Span::eof() {
            *self
        } else if self.is_eof() {
            *other
        } else if other.is_eof() {
            *self
        } else {
            Span { start: self.start, end: other.end }
        }
    }

    pub fn zero() -> (s: Span)
        ensures
            s.start == (Pos { line: 0, col: 0 }),
            s.end == (Pos { line: 0, col: 0 }),
    {
        Span { start: Pos::zero(), end: Pos::zero() }
    }

    pub fn eof() -> (s: Span)
        ensures
            s == Span::end_mark(),
    {
        Span { start: Pos::eof(), end: Pos::eof() }
    }

    /// The span of no text: the end mark.
    pub fn empty() -> (s: Span)
        ensures
            s == Span::end_mark(),
    {
        Span::eof()
    }

    pub fn is_eof(&self) -> (b: bool)
        ensures
            b == self.at_end(),
    {
        self.start == Pos::eof()
    }
}

/// The end mark is neutral for merging, on either side, for every span.
pub proof fn lemma_merge_identity(r: Span)
    ensures
        Span::end_mark().merged(r) == r,
        r.merged(Span::end_mark()) == r,
{
}

} // verus!
