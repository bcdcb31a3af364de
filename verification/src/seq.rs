//! A source text as characters at their rows and columns, the tokens that
//! are read from it, each with the rectangle of text that it takes, and the
//! text that a rectangle takes.

use crate::err::CompileError;
use crate::span;
use crate::text::push_char;
use crate::token::{
    fits, span_of_char, spans_of, tokenized, CharSeq, KindView, TokenKind, TokenView,
};
use std::cmp::Ordering;
use vstd::prelude::*;
use vstd::std_specs::cmp::PartialOrdSpecImpl;

verus! {

/// A rectangle of text, from its first row and column to its last, both
/// included.
#[derive(Debug, PartialEq, Eq, Ord, Structural)]
pub struct Span {
    pub row1: usize,
    pub col1: usize,
    pub row2: usize,
    pub col2: usize,
}

/// Spans are ordered by first row, first column, last row and last column,
/// in this order.
impl PartialOrd for Span {
    fn partial_cmp(&self, other: &Span) -> (r: Option<Ordering>) {
        if self.row1 != other.row1 {
            if self.row1 < other.row1 {
                Some(Ordering::Less)
            } else {
                Some(Ordering::Greater)
            }
        } else if self.col1 != other.col1 {
            if self.col1 < other.col1 {
                Some(Ordering::Less)
            } else {
                Some(Ordering::Greater)
            }
        } else if self.row2 != other.row2 {
            if self.row2 < other.row2 {
                Some(Ordering::Less)
            } else {
                Some(Ordering::Greater)
            }
        } else if self.col2 != other.col2 {
            if self.col2 < other.col2 {
                Some(Ordering::Less)
            } else {
                Some(Ordering::Greater)
            }
        } else {
            Some(Ordering::Equal)
        }
    }
}

impl PartialOrdSpecImpl for Span {
    open spec fn obeys_partial_cmp_spec() -> bool {
        true
    }

    open spec fn partial_cmp_spec(&self, other: &Span) -> Option<Ordering> {
        if *self == *other {
            Some(Ordering::Equal)
        } else if self.at_most(*other) {
            Some(Ordering::Less)
        } else {
            Some(Ordering::Greater)
        }
    }
}

impl Span {
    /// The order of spans: by first row, first column, last row and last
    /// column, in this order.
    pub open spec fn at_most(self, other: Span) -> bool {
        if self.row1 != other.row1 {
            self.row1 < other.row1
        } else if self.col1 != other.col1 {
            self.col1 < other.col1
        } else if self.row2 != other.row2 {
            self.row2 < other.row2
        } else {
            self.col2 <= other.col2
        }
    }

    /// The span of one character.
    pub fn single(row: usize, col: usize) -> (s: Span)
        ensures
            s == (Span { row1: row, col1: col, row2: row, col2: col }),
    {
        Span { row1: row, col1: col, row2: row, col2: col }
    }

    pub fn new(row1: usize, col1: usize, row2: usize, col2: usize) -> (s: Span)
        ensures
            s == (Span { row1, col1, row2, col2 }),
    {
        Span { row1, col1, row2, col2 }
    }

    /// The span from the start of the lesser of the two spans to the end of
    /// the greater.
    pub fn concat(&self, other: &Span) -> (s: Span)
        ensures
            self.at_most(*other) ==> s == (Span {
                row1: self.row1,
                col1: self.col1,
                row2: other.row2,
                col2: other.col2,
            }),
            !self.at_most(*other) ==> s == (Span {
                row1: other.row1,
                col1: other.col1,
                row2: self.row2,
                col2: self.col2,
            }),
    {
        if *self <= *other {
            Span { row1: self.row1, col1: self.col1, row2: other.row2, col2: other.col2 }
        } else {
            Span { row1: other.row1, col1: other.col1, row2: self.row2, col2: self.col2 }
        }
    }
}

/// What a token is, as plain values: the model of a [`Token`].
pub enum Lexeme {
    Ident(Seq<char>),
    Punct(char),
    Int(u32),
}

/// A token.
#[derive(Debug, PartialEq, Eq)]
pub enum Token {
    /// A name, with its text as written.
    Ident(String),
    /// Any other character that is not white space, as the character whose
    /// code is the first byte of its encoding in UTF-8: for an ASCII
    /// character, the character itself.
    Punct(char),
    /// A number written in decimal digits.
    Int(u32),
}

impl View for Token {
    type V = Lexeme;

    open spec fn view(&self) -> Lexeme {
        match self {
            Token::Ident(text) => Lexeme::Ident(text@),
            Token::Punct(c) => Lexeme::Punct(*c),
            Token::Int(n) => Lexeme::Int(*n),
        }
    }
}

/// A token with its span, as plain values.
pub struct Item {
    pub token: Lexeme,
    pub span: Span,
}

/// The items of the given tokens and spans, pair by pair.
pub open spec fn items(tokens: Seq<Token>, spans: Seq<Span>) -> Seq<Item>
    recommends
        tokens.len() == spans.len(),
{
    Seq::new(tokens.len(), |i: int| Item { token: tokens[i]@, span: spans[i] })
}

/// Tokens in source order, each with its span.
pub struct Sequence {
    tokens: Vec<Token>,
    spans: Vec<Span>,
}

impl View for Sequence {
    type V = Seq<Item>;

    closed spec fn view(&self) -> Seq<Item> {
        items(self.tokens@, self.spans@)
    }
}

impl Sequence {
    #[verifier::type_invariant]
    spec fn inv(&self) -> bool {
        self.tokens@.len() == self.spans@.len()
    }

    /// A sequence of the given tokens, of which the `i`-th has the `i`-th
    /// span.
    pub fn new(tokens: Vec<Token>, spans: Vec<Span>) -> (seq: Sequence)
        requires
            tokens.len() == spans.len(),
        ensures
            seq@ == items(tokens@, spans@),
    {
        Sequence { tokens, spans }
    }

    pub fn len(&self) -> (n: usize)
        ensures
            n == self@.len(),
    {
        self.tokens.len()
    }

    /// The span of the token at `idx`, if there is one.
    pub fn span(&self, idx: usize) -> (r: Option<&Span>)
        ensures
            idx < self@.len() ==> r == Some(&self@[idx as int].span),
            idx >= self@.len() ==> r is None,
    {
        proof {
            use_type_invariant(self);
        }
        if idx < self.spans.len() {
            Some(&self.spans[idx])
        } else {
            None
        }
    }

    /// The token at `idx`, if there is one.
    pub fn token(&self, idx: usize) -> (r: Option<&Token>)
        ensures
            idx < self@.len() ==> r is Some && r->Some_0@ == self@[idx as int].token,
            idx >= self@.len() ==> r is None,
    {
        if idx < self.tokens.len() {
            Some(&self.tokens[idx])
        } else {
            None
        }
    }

    /// A cursor at the first token.
    pub fn cursor(&self) -> (c: Cursor<'_>)
        ensures
            c.stream() == self@,
            c.at() == 0,
    {
        Cursor { seq: self, offset: 0 }
    }
}

/// A place in a sequence from which tokens are read by their distance.
pub struct Cursor<'a> {
    seq: &'a Sequence,
    offset: usize,
}

impl<'a> Cursor<'a> {
    /// The items that the cursor reads.
    pub closed spec fn stream(&self) -> Seq<Item> {
        self.seq@
    }

    /// How many tokens lie before the cursor.
    pub closed spec fn at(&self) -> nat {
        self.offset as nat
    }

    /// The span of the token `idx` places after the cursor, if there is one.
    pub fn span(&self, idx: usize) -> (r: Option<&Span>)
        requires
            self.at() + idx <= usize::MAX,
        ensures
            self.at() + idx < self.stream().len() ==> r == Some(
                &self.stream()[self.at() + idx].span,
            ),
            self.at() + idx >= self.stream().len() ==> r is None,
    {
        self.seq.span(self.offset + idx)
    }

    /// The token `idx` places after the cursor, if there is one.
    pub fn token(&self, idx: usize) -> (r: Option<&Token>)
        requires
            self.at() + idx <= usize::MAX,
        ensures
            self.at() + idx < self.stream().len() ==> r is Some
                && r->Some_0@ == self.stream()[self.at() + idx].token,
            self.at() + idx >= self.stream().len() ==> r is None,
    {
        self.seq.token(self.offset + idx)
    }

    /// Moves the cursor `d` tokens on.
    pub fn advance(&mut self, d: usize)
        requires
            old(self).at() + d <= usize::MAX,
        ensures
            final(self).at() == old(self).at() + d,
            final(self).stream() == old(self).stream(),
    {
        self.offset += d;
    }
}

/// The rectangle from the start of `span` to its end.
pub open spec fn rows_of(span: span::Span) -> Span {
    Span {
        row1: span.start.line,
        col1: span.start.col,
        row2: span.end.line,
        col2: span.end.col,
    }
}

/// The places of the characters of `text`, in order. A tab and a newline are
/// characters like any other, one column wide; a tab moves what follows it to
/// the next tab stop, and a newline to the start of the next row.
pub open spec fn places_of(text: Seq<char>) -> Seq<Span> {
    Seq::new(text.len(), |i: int| rows_of(span_of_char(text, i)))
}

/// Whether the place `at` of a character lies in `span`: not before the
/// first row and column of the span, and not behind its last.
pub open spec fn holds(span: Span, at: Span) -> bool {
    &&& span.row1 < at.row1 || (span.row1 == at.row1 && span.col1 <= at.col1)
    &&& at.row1 < span.row2 || (at.row1 == span.row2 && at.col1 <= span.col2)
}

/// Those of the first `upto` characters of `text` that lie in `span`, in
/// order.
pub open spec fn picked(text: Seq<char>, span: Span, upto: nat) -> Seq<char>
    recommends
        upto <= text.len(),
    decreases upto,
{
    if upto == 0 || upto > text.len() {
        Seq::empty()
    } else if holds(span, places_of(text)[upto - 1]) {
        picked(text, span, (upto - 1) as nat).push(text[upto - 1])
    } else {
        picked(text, span, (upto - 1) as nat)
    }
}

/// The number `n` taken as an unsigned number of the same 32 bits.
pub open spec fn unsigned(n: i32) -> u32 {
    if n >= 0 {
        n as u32
    } else {
        (n + 0x1_0000_0000) as u32
    }
}

/// A token of the token stream as an item: a name keeps its text, a number
/// is taken as unsigned, and a punctuation byte is the character of that
/// code.
pub open spec fn item_of(token: TokenView) -> Item {
    Item {
        token: match token.token {
            KindView::Ident(text) => Lexeme::Ident(text),
            KindView::Lit(n) => Lexeme::Int(unsigned(n)),
            KindView::Punct(b) => Lexeme::Punct(b as char),
        },
        span: rows_of(token.span),
    }
}

/// The items of the given tokens, in order.
pub open spec fn items_of(tokens: Seq<TokenView>) -> Seq<Item> {
    Seq::new(tokens.len(), |i: int| item_of(tokens[i]))
}

/// Whether the items stand in source order: none ends before it starts, and
/// each ends before the next one starts.
pub open spec fn in_order(items: Seq<Item>) -> bool {
    &&& forall|i: int|
        0 <= i < items.len() ==> (#[trigger] items[i]).span.row1 < items[i].span.row2 || (
        items[i].span.row1 == items[i].span.row2 && items[i].span.col1 <= items[i].span.col2)
    &&& forall|i: int, j: int|
        0 <= i < j < items.len() ==> (#[trigger] items[i]).span.row2 < (
        #[trigger] items[j]).span.row1 || (items[i].span.row2 == items[j].span.row1
            && items[i].span.col2 < items[j].span.col1)
}

fn unsigned_of(n: i32) -> (u: u32)
    ensures
        u == unsigned(n),
{
    if n >= 0 {
        n as u32
    } else {
        (n as i64 + 0x1_0000_0000i64) as u32
    }
}

/// A source text as characters, each at its row and column.
pub struct Code {
    chars: CharSeq,
}

impl View for Code {
    type V = Seq<char>;

    /// The source text. Its characters stand at `places_of` the text.
    closed spec fn view(&self) -> Seq<char> {
        self.chars.chars()
    }
}

impl Code {
    #[verifier::type_invariant]
    spec fn inv(&self) -> bool {
        self.chars.spans() == spans_of(self.chars.chars())
    }

    /// The place of each character of the text.
    pub closed spec fn places(&self) -> Seq<Span> {
        Seq::new(self.chars.spans().len(), |i: int| rows_of(self.chars.spans()[i]))
    }

    /// Reads `code` once, giving every character its place.
    pub fn new(code: &str) -> (source: Code)
        requires
            fits(code@),
        ensures
            source@ == code@,
            source.places() == places_of(code@),
    {
        let chars = CharSeq::new(code);
        assert(Seq::new(chars.spans().len(), |i: int| rows_of(chars.spans()[i])) =~= places_of(
            code@,
        ));
        Code { chars }
    }

    /// Reads the tokens of the text: the longest tokens that it can be cut
    /// into, in source order. No character is refused, so the result is
    /// never an error.
    pub fn lex(&self) -> (r: Result<Sequence, CompileError>)
        ensures
            r is Ok,
            r->Ok_0@ == items_of(tokenized(self@, spans_of(self@), 0)),
            in_order(r->Ok_0@),
    {
        proof {
            use_type_invariant(self);
        }
        let tokens = self.chars.lex();
        let n = tokens.len();
        let mut seq: Vec<Token> = Vec::new();
        let mut spans: Vec<Span> = Vec::new();
        let mut i: usize = 0;
        while i < n
            invariant
                i <= n,
                n == tokens@.len(),
                seq.len() == i,
                spans.len() == i,
                items(seq@, spans@) == items_of(tokens@).take(i as int),
            decreases n - i,
        {
            match tokens.get(i) {
                Some(token) => {
                    let at = Span::new(
                        token.span.start.line,
                        token.span.start.col,
                        token.span.end.line,
                        token.span.end.col,
                    );
                    let item = match &token.token {
                        TokenKind::Ident(text) => Token::Ident(text.clone()),
                        TokenKind::Lit(n) => Token::Int(unsigned_of(*n)),
                        TokenKind::Punct(b) => Token::Punct(*b as char),
                    };
                    seq.push(item);
                    spans.push(at);
                    assert(items(seq@, spans@) =~= items_of(tokens@).take(i + 1));
                },
                None => {},
            }
            i += 1;
        }
        assert(items_of(tokens@).take(n as int) =~= items_of(tokens@));
        Ok(Sequence::new(seq, spans))
    }

    /// The text that `span` takes: the characters that stand in it, in order.
    /// The newline that ends a row stands behind the last column of the row.
    pub fn frag(&self, span: &Span) -> (text: String)
        ensures
            text@ == picked(self@, *span, self@.len()),
    {
        proof {
            use_type_invariant(self);
        }
        let mut res = String::new();
        let n = self.chars.len();
        let mut i: usize = 0;
        while i < n
            invariant
                i <= n,
                n == self@.len(),
                self.chars.spans() == spans_of(self@),
                res@ == picked(self@, *span, i as nat),
            decreases n - i,
        {
            match self.chars.get(i) {
                Some((c, at)) => {
                    let from = span.row1 < at.start.line || (span.row1 == at.start.line
                        && span.col1 <= at.start.col);
                    let to = at.start.line < span.row2 || (at.start.line == span.row2
                        && at.start.col <= span.col2);
                    if from && to {
                        push_char(&mut res, c);
                    }
                },
                None => {},
            }
            i += 1;
        }
        res
    }
}

} // verus!
