//! Characters with their places, tokens, the lexer and the cursor over a token
//! stream.

use crate::span::{lemma_walk_counts_lines, newlines, walk, Place, Pos, Span};
use crate::text::push_char;
use vstd::prelude::*;

verus! {

/// The place of the `i`-th character of `text`, counted from line 0, column 0.
pub open spec fn place_of(text: Seq<char>, i: int) -> Place {
    walk(Place { line: 0, col: 0 }, text.take(i))
}

/// The span of the `i`-th character of `text`: it starts and ends at the
/// character's place.
pub open spec fn span_of_char(text: Seq<char>, i: int) -> Span {
    let p = Pos { line: place_of(text, i).line as usize, col: place_of(text, i).col as usize };
    Span { start: p, end: p }
}

/// The spans of all characters of `text`, in order.
pub open spec fn spans_of(text: Seq<char>) -> Seq<Span> {
    Seq::new(text.len(), |i: int| span_of_char(text, i))
}

/// Whether the places of `text` can be counted in machine words: a column
/// grows by at most four for each character.
pub open spec fn fits(text: Seq<char>) -> bool {
    4 * text.len() <= usize::MAX
}

/// A place reached by walking `s` from `p` lies at most `s.len()` lines and
/// four times as many columns further.
pub proof fn lemma_walk_bounds(p: Place, s: Seq<char>)
    ensures
        walk(p, s).line <= p.line + s.len(),
        walk(p, s).col <= p.col + 4 * s.len(),
    decreases s.len(),
{
    if s.len() > 0 {
        lemma_walk_bounds(p, s.drop_last());
    }
}

/// Later characters of a text stand at later places.
pub proof fn lemma_places_rise(text: Seq<char>, i: int, j: int)
    requires
        0 <= i < j <= text.len(),
    ensures
        place_of(text, i).line < place_of(text, j).line || (place_of(text, i).line == place_of(
            text,
            j,
        ).line && place_of(text, i).col < place_of(text, j).col),
    decreases j - i,
{
    assert(text.take(j).drop_last() =~= text.take(j - 1));
    if i < j - 1 {
        lemma_places_rise(text, i, j - 1);
    }
}

/// A source text as characters, each with the span at which it stands.
pub struct CharSeq {
    chars: Vec<char>,
    spans: Vec<Span>,
}

impl CharSeq {
    #[verifier::type_invariant]
    spec fn inv(&self) -> bool {
        &&& fits(self.chars@)
        &&& self.spans@ == spans_of(self.chars@)
    }

    /// The characters, in source order.
    pub closed spec fn chars(&self) -> Seq<char> {
        self.chars@
    }

    /// The span of each character.
    pub closed spec fn spans(&self) -> Seq<Span> {
        self.spans@
    }

    /// Reads `code` once, giving every character its place. A tab and a
    /// newline are characters like any other; they only move the place of
    /// what follows.
    pub fn new(code: &str) -> (s: CharSeq)
        requires
            fits(code@),
        ensures
            s.chars() == code@,
            s.spans() == spans_of(code@),
            forall|i: int|
                0 <= i < code@.len() ==> (#[trigger] s.spans()[i]).start.line == newlines(
                    code@.take(i),
                ),
            forall|i: int|
                0 < i < code@.len() && code@[i - 1] == '\t' ==> (#[trigger] s.spans()[i]).start.col
                    % 4 == 0,
    {
        let mut chars: Vec<char> = Vec::new();
        let mut spans: Vec<Span> = Vec::new();
        let mut pos = Pos::zero();
        for c in it: code.chars()
            invariant
                it.seq() == code@,
                fits(code@),
                chars@ == code@.take(it.index()),
                spans@ == spans_of(code@).take(it.index()),
                pos@ == place_of(code@, it.index()),
        {
            let ghost i = it.index();
            proof {
                lemma_walk_bounds(Place { line: 0, col: 0 }, code@.take(i));
                assert(code@.take(i + 1).drop_last() =~= code@.take(i));
            }
            chars.push(c);
            spans.push(Span::new(pos, pos));
            pos.advance(c);
        }
        proof {
            assert(code@.take(code@.len() as int) =~= code@);
            assert(spans_of(code@).take(code@.len() as int) =~= spans_of(code@));
            assert forall|i: int| 0 <= i < code@.len() implies (#[trigger] spans@[i]).start.line
                == newlines(code@.take(i)) by {
                lemma_walk_bounds(Place { line: 0, col: 0 }, code@.take(i));
                lemma_walk_counts_lines(Place { line: 0, col: 0 }, code@.take(i));
            }
            assert forall|i: int| 0 < i < code@.len() && code@[i - 1] == '\t' implies (
            #[trigger] spans@[i]).start.col % 4 == 0 by {
                lemma_walk_bounds(Place { line: 0, col: 0 }, code@.take(i));
                assert(code@.take(i).drop_last() =~= code@.take(i - 1));
            }
        }
        CharSeq { chars, spans }
    }

    /// The number of characters.
    pub fn len(&self) -> (n: usize)
        ensures
            n == self.chars().len(),
    {
        self.chars.len()
    }

    /// The `i`-th character and its span, if there is one.
    pub fn get(&self, i: usize) -> (r: Option<(char, Span)>)
        ensures
            self.spans().len() == self.chars().len(),
            i < self.chars().len() ==> r == Some((self.chars()[i as int], self.spans()[i as int])),
            i >= self.chars().len() ==> r is None,
    {
        proof {
            use_type_invariant(self);
        }
        if i < self.chars.len() {
            Some((self.chars[i], self.spans[i]))
        } else {
            None
        }
    }
}

/// What a token is, as plain values: the model of a [`TokenKind`].
pub enum KindView {
    Ident(Seq<char>),
    Lit(i32),
    Punct(u8),
}

/// A token as plain values: the model of a [`Token`].
pub struct TokenView {
    pub token: KindView,
    pub span: Span,
}

/// The three kinds of token.
#[derive(Debug, Clone, PartialEq, Eq)]
pub enum TokenKind {
    /// A name, with its text as written.
    Ident(String),
    /// A number written in decimal digits.
    Lit(i32),
    /// Any other character that is not white space, as the first byte of its
    /// encoding in UTF-8: for an ASCII character, its code.
    Punct(u8),
}

impl View for TokenKind {
    type V = KindView;

    open spec fn view(&self) -> KindView {
        match self {
            TokenKind::Ident(text) => KindView::Ident(text@),
            TokenKind::Lit(n) => KindView::Lit(*n),
            TokenKind::Punct(b) => KindView::Punct(*b),
        }
    }
}

/// A token and the span of text that it was read from.
#[derive(Debug, Clone, PartialEq, Eq)]
pub struct Token {
    pub token: TokenKind,
    pub span: Span,
}

impl View for Token {
    type V = TokenView;

    open spec fn view(&self) -> TokenView {
        TokenView { token: self.token@, span: self.span }
    }
}

/// The models of the tokens of `tokens`, in order.
pub open spec fn views(tokens: Seq<Token>) -> Seq<TokenView> {
    tokens.map_values(|t: Token| t@)
}

pub open spec fn is_digit(c: char) -> bool {
    '0' <= c <= '9'
}

/// Whether `c` can start a name: an ASCII letter or an underscore.
pub open spec fn is_word_start(c: char) -> bool {
    ('a' <= c <= 'z') || ('A' <= c <= 'Z') || c == '_'
}

/// Whether `c` is white space: a blank, a tab, a newline or a carriage return.
pub open spec fn is_blank(c: char) -> bool {
    c == ' ' || c == '\t' || c == '\n' || c == '\r'
}

/// The value of the decimal digit `c`.
pub open spec fn digit_value(c: char) -> i32
    recommends
        is_digit(c),
{
    (c as u32 - '0' as u32) as i32
}

/// The first byte of `c` as it stands in a text, that is of its encoding in
/// UTF-8; for an ASCII character, its code.
pub open spec fn first_byte(c: char) -> u8 {
    vstd::utf8::encode_scalar(c as u32)[0]
}

/// The lowest byte of the code of `c`; for an ASCII character, its code.
pub open spec fn low_byte(c: char) -> u8 {
    (c as u32 % 256) as u8
}

/// What the lexer has read of a token that may still grow.
pub enum Pending {
    Nothing,
    Number(i32, Span),
    Word(Seq<char>, Span),
}

/// The lexer between two characters: the tokens that are complete, and the
/// one that is being read.
pub struct LexState {
    pub done: Seq<TokenView>,
    pub pending: Pending,
}

/// The complete tokens of `st`, followed by the pending one if there is one.
pub open spec fn flushed(st: LexState) -> Seq<TokenView> {
    match st.pending {
        Pending::Nothing => st.done,
        Pending::Number(n, span) => st.done.push(TokenView { token: KindView::Lit(n), span }),
        Pending::Word(text, span) => st.done.push(TokenView { token: KindView::Ident(text), span }),
    }
}

/// The state after the character `c`, which stands at `at`.
///
/// A digit starts a number or extends what is pending; the value of a number
/// grows as `n * 10 + digit`, wrapping at the bounds of `i32`. A letter or an
/// underscore starts a name, after a pending number is complete, or extends a
/// pending name. White space completes what is pending. Every other character
/// completes what is pending and is a token by itself, which holds the first
/// byte of the character's encoding in UTF-8.
pub open spec fn fed(st: LexState, c: char, at: Span) -> LexState {
    if is_digit(c) {
        match st.pending {
            Pending::Nothing => LexState {
                done: st.done,
                pending: Pending::Number(digit_value(c), at),
            },
            Pending::Number(n, span) => LexState {
                done: st.done,
                pending: Pending::Number(
                    n.wrapping_mul(10).wrapping_add(digit_value(c)),
                    span.merged(at),
                ),
            },
            Pending::Word(text, span) => LexState {
                done: st.done,
                pending: Pending::Word(text.push(c), span.merged(at)),
            },
        }
    } else if is_word_start(c) {
        match st.pending {
            Pending::Word(text, span) => LexState {
                done: st.done,
                pending: Pending::Word(text.push(c), span.merged(at)),
            },
            _ => LexState { done: flushed(st), pending: Pending::Word(seq![c], at) },
        }
    } else if is_blank(c) {
        LexState { done: flushed(st), pending: Pending::Nothing }
    } else {
        LexState {
            done: flushed(st).push(TokenView { token: KindView::Punct(first_byte(c)), span: at }),
            pending: Pending::Nothing,
        }
    }
}

/// The state after all of `chars`, of which the `i`-th stands at `spans[i]`.
pub open spec fn lex_state(chars: Seq<char>, spans: Seq<Span>) -> LexState
    recommends
        spans.len() == chars.len(),
    decreases chars.len(),
{
    if chars.len() == 0 {
        LexState { done: Seq::empty(), pending: Pending::Nothing }
    } else {
        fed(lex_state(chars.drop_last(), spans.drop_last()), chars.last(), spans.last())
    }
}

/// The tokens of `chars`: what one pass from left to right completes, and
/// what is pending at the end.
pub open spec fn lexed(chars: Seq<char>, spans: Seq<Span>) -> Seq<TokenView>
    recommends
        spans.len() == chars.len(),
{
    flushed(lex_state(chars, spans))
}

/// Whether every span of `spans` is one place wide and away from the end
/// mark, and later spans stand at later places.
pub open spec fn rising(spans: Seq<Span>) -> bool {
    &&& forall|i: int|
        0 <= i < spans.len() ==> (#[trigger] spans[i]).end == spans[i].start && !spans[i].at_end()
    &&& forall|i: int, j: int|
        0 <= i < j < spans.len() ==> (#[trigger] spans[i]).start.before((#[trigger] spans[j]).start)
}

/// Whether the tokens stand in source order: no span is at the end mark or
/// ends before it starts, and every token ends before the next one starts.
pub open spec fn ordered(tokens: Seq<TokenView>) -> bool {
    &&& forall|i: int|
        0 <= i < tokens.len() ==> !(#[trigger] tokens[i]).span.at_end()
            && !tokens[i].span.end.before(tokens[i].span.start)
    &&& forall|i: int, j: int|
        0 <= i < j < tokens.len() ==> (#[trigger] tokens[i]).span.end.before(
            (#[trigger] tokens[j]).span.start,
        )
}

/// Whether no token of `tokens` ends after `limit`.
pub open spec fn capped(tokens: Seq<TokenView>, limit: Pos) -> bool {
    forall|i: int| 0 <= i < tokens.len() ==> !limit.before((#[trigger] tokens[i]).span.end)
}

/// The spans that a text's characters get are rising.
pub proof fn lemma_spans_of_rising(text: Seq<char>)
    requires
        fits(text),
    ensures
        rising(spans_of(text)),
{
    let spans = spans_of(text);
    assert forall|i: int| 0 <= i < spans.len() implies (#[trigger] spans[i]).end
        == spans[i].start && !spans[i].at_end() by {
        lemma_walk_bounds(Place { line: 0, col: 0 }, text.take(i));
    }
    assert forall|i: int, j: int| 0 <= i < j < spans.len() implies
        (#[trigger] spans[i]).start.before((#[trigger] spans[j]).start) by {
        lemma_walk_bounds(Place { line: 0, col: 0 }, text.take(i));
        lemma_walk_bounds(Place { line: 0, col: 0 }, text.take(j));
        lemma_places_rise(text, i, j);
    }
}

/// Over rising spans the lexer's tokens stand in source order, and none ends
/// after the last character read.
pub proof fn lemma_lex_state_ordered(chars: Seq<char>, spans: Seq<Span>)
    requires
        spans.len() == chars.len(),
        rising(spans),
    ensures
        ordered(flushed(lex_state(chars, spans))),
        chars.len() == 0 ==> flushed(lex_state(chars, spans)).len() == 0,
        chars.len() > 0 ==> capped(flushed(lex_state(chars, spans)), spans.last().start),
    decreases chars.len(),
{
    if chars.len() > 0 {
        let before = spans.drop_last();
        lemma_lex_state_ordered(chars.drop_last(), before);
        let prev = lex_state(chars.drop_last(), before);
        let old_tokens = flushed(prev);
        let at = spans.last();
        let c = chars.last();
        let new_tokens = flushed(fed(prev, c, at));
        let grows = match prev.pending {
            Pending::Nothing => false,
            Pending::Number(_, _) => is_digit(c),
            Pending::Word(_, _) => is_digit(c) || is_word_start(c),
        };
        if grows {
            // the pending token now ends at `c`; the tokens before it stay
            assert(old_tokens.last().span.merged(at) == new_tokens.last().span);
            assert forall|i: int| 0 <= i < old_tokens.len() - 1 implies
                #[trigger] new_tokens[i] == old_tokens[i] by {}
        }
    }
}

/// Whether `c` can stand in a name behind its first character.
pub open spec fn is_word_char(c: char) -> bool {
    is_word_start(c) || is_digit(c)
}

/// The end of the run of digits that holds `from`, or `from` where no digit
/// stands.
pub open spec fn number_end(chars: Seq<char>, from: nat) -> nat
    decreases chars.len() - from,
{
    if from < chars.len() && is_digit(chars[from as int]) {
        number_end(chars, from + 1)
    } else {
        from
    }
}

/// The end of the run of letters, digits and underscores that holds `from`,
/// or `from` where none of them stands.
pub open spec fn name_end(chars: Seq<char>, from: nat) -> nat
    decreases chars.len() - from,
{
    if from < chars.len() && is_word_char(chars[from as int]) {
        name_end(chars, from + 1)
    } else {
        from
    }
}

/// The number that the digits spell in base ten, wrapping at the bounds of
/// `i32`.
pub open spec fn literal(digits: Seq<char>) -> i32
    decreases digits.len(),
{
    if digits.len() == 0 {
        0
    } else {
        literal(digits.drop_last()).wrapping_mul(10).wrapping_add(digit_value(digits.last()))
    }
}

/// The span from the start of the character `from` to the end of the
/// character before `to`.
pub open spec fn cover(spans: Seq<Span>, from: nat, to: nat) -> Span
    recommends
        from < to <= spans.len(),
{
    Span { start: spans[from as int].start, end: spans[to - 1].end }
}

/// The tokens of `chars` from `from` on, each as long as it can be: a digit
/// with all the digits that follow it is a number; a letter or an underscore
/// with all the letters, digits and underscores that follow it is a name;
/// white space is nothing; every other character is a token by itself.
pub open spec fn tokenized(chars: Seq<char>, spans: Seq<Span>, from: nat) -> Seq<TokenView>
    recommends
        spans.len() == chars.len(),
    decreases chars.len() - from,
{
    if from >= chars.len() {
        Seq::empty()
    } else {
        let c = chars[from as int];
        if is_digit(c) {
            let end = number_end(chars, from + 1);
            if from < end <= chars.len() {
                seq![
                    TokenView {
                        token: KindView::Lit(literal(chars.subrange(from as int, end as int))),
                        span: cover(spans, from, end),
                    },
                ] + tokenized(chars, spans, end)
            } else {
                Seq::empty()
            }
        } else if is_word_start(c) {
            let end = name_end(chars, from + 1);
            if from < end <= chars.len() {
                seq![
                    TokenView {
                        token: KindView::Ident(chars.subrange(from as int, end as int)),
                        span: cover(spans, from, end),
                    },
                ] + tokenized(chars, spans, end)
            } else {
                Seq::empty()
            }
        } else if is_blank(c) {
            tokenized(chars, spans, from + 1)
        } else {
            seq![TokenView { token: KindView::Punct(first_byte(c)), span: spans[from as int] }]
                + tokenized(chars, spans, from + 1)
        }
    }
}

/// A run ends behind its start and within the text, and a run that reaches
/// `to` ends where the run from `to` ends.
pub proof fn lemma_runs(chars: Seq<char>, from: nat, to: nat)
    requires
        from <= to <= chars.len(),
    ensures
        from <= number_end(chars, from) <= chars.len(),
        from <= name_end(chars, from) <= chars.len(),
        number_end(chars, from) >= to ==> number_end(chars, from) == number_end(chars, to),
        name_end(chars, from) >= to ==> name_end(chars, from) == name_end(chars, to),
    decreases chars.len() - from,
{
    if from < chars.len() {
        if from < to {
            lemma_runs(chars, from + 1, to);
        } else {
            lemma_runs(chars, from + 1, from + 1);
        }
    }
}

/// Whether the lexer after `k` characters holds what the longest tokens say:
/// the complete tokens are those that end before a place `s`, and what is
/// pending are the characters from `s` on, all of one token.
pub open spec fn agrees(chars: Seq<char>, spans: Seq<Span>, k: nat, s: nat) -> bool {
    let st = lex_state(chars.take(k as int), spans.take(k as int));
    match st.pending {
        Pending::Nothing => tokenized(chars, spans, 0) == st.done + tokenized(chars, spans, k),
        Pending::Number(n, span) => {
            &&& s < k
            &&& is_digit(chars[s as int])
            &&& number_end(chars, s + 1) >= k
            &&& n == literal(chars.subrange(s as int, k as int))
            &&& span == cover(spans, s, k)
            &&& tokenized(chars, spans, 0) == st.done + tokenized(chars, spans, s)
        },
        Pending::Word(text, span) => {
            &&& s < k
            &&& is_word_start(chars[s as int])
            &&& name_end(chars, s + 1) >= k
            &&& text == chars.subrange(s as int, k as int)
            &&& span == cover(spans, s, k)
            &&& tokenized(chars, spans, 0) == st.done + tokenized(chars, spans, s)
        },
    }
}

/// Where the character at `k` does not go on with what is pending, the
/// tokens before `k` are all that the lexer has read, the pending one
/// included.
proof fn lemma_flush_agrees(chars: Seq<char>, spans: Seq<Span>, k: nat, s: nat)
    requires
        spans.len() == chars.len(),
        k <= chars.len(),
        agrees(chars, spans, k, s),
        k < chars.len() ==> match lex_state(chars.take(k as int), spans.take(k as int)).pending {
            Pending::Nothing => true,
            Pending::Number(_, _) => !is_digit(chars[k as int]),
            Pending::Word(_, _) => !is_word_char(chars[k as int]),
        },
    ensures
        tokenized(chars, spans, 0) == flushed(
            lex_state(chars.take(k as int), spans.take(k as int)),
        ) + tokenized(chars, spans, k),
{
    let st = lex_state(chars.take(k as int), spans.take(k as int));
    match st.pending {
        Pending::Nothing => {},
        Pending::Number(n, span) => {
            lemma_runs(chars, s + 1, k);
            let token = TokenView { token: KindView::Lit(n), span };
            assert(tokenized(chars, spans, s) == seq![token] + tokenized(chars, spans, k));
            assert(st.done + (seq![token] + tokenized(chars, spans, k)) =~= st.done.push(token)
                + tokenized(chars, spans, k));
        },
        Pending::Word(text, span) => {
            lemma_runs(chars, s + 1, k);
            let token = TokenView { token: KindView::Ident(text), span };
            assert(tokenized(chars, spans, s) == seq![token] + tokenized(chars, spans, k));
            assert(st.done + (seq![token] + tokenized(chars, spans, k)) =~= st.done.push(token)
                + tokenized(chars, spans, k));
        },
    }
}

/// The state of the lexer after `k + 1` characters is the state after `k`
/// fed with the next one.
proof fn lemma_lex_state_unfolds(chars: Seq<char>, spans: Seq<Span>, k: nat)
    requires
        spans.len() == chars.len(),
        k < chars.len(),
    ensures
        lex_state(chars.take(k + 1 as int), spans.take(k + 1 as int)) == fed(
            lex_state(chars.take(k as int), spans.take(k as int)),
            chars[k as int],
            spans[k as int],
        ),
{
    assert(chars.take(k + 1 as int).drop_last() =~= chars.take(k as int));
    assert(spans.take(k + 1 as int).drop_last() =~= spans.take(k as int));
}

/// A character that goes on with the pending token leaves the lexer in
/// agreement with the longest tokens, and the pending token where it started.
proof fn lemma_step_extends(chars: Seq<char>, spans: Seq<Span>, k: nat, s: nat)
    requires
        spans.len() == chars.len(),
        k < chars.len(),
        rising(spans),
        agrees(chars, spans, k, s),
        match lex_state(chars.take(k as int), spans.take(k as int)).pending {
            Pending::Nothing => false,
            Pending::Number(_, _) => is_digit(chars[k as int]),
            Pending::Word(_, _) => is_word_char(chars[k as int]),
        },
    ensures
        agrees(chars, spans, k + 1, s),
{
    lemma_lex_state_unfolds(chars, spans, k);
    lemma_runs(chars, s + 1, k);
    lemma_runs(chars, k + 1, k + 1);
    assert(chars.subrange(s as int, k + 1 as int).drop_last() =~= chars.subrange(
        s as int,
        k as int,
    ));
    assert(chars.subrange(s as int, k as int).push(chars[k as int]) =~= chars.subrange(
        s as int,
        k + 1 as int,
    ));
}

/// A character that does not go on with the pending token leaves the lexer
/// in agreement with the longest tokens; the result is the place at which the
/// token that is pending afterwards starts.
proof fn lemma_step_turns(chars: Seq<char>, spans: Seq<Span>, k: nat, s: nat) -> (start: nat)
    requires
        spans.len() == chars.len(),
        k < chars.len(),
        rising(spans),
        agrees(chars, spans, k, s),
        match lex_state(chars.take(k as int), spans.take(k as int)).pending {
            Pending::Nothing => true,
            Pending::Number(_, _) => !is_digit(chars[k as int]),
            Pending::Word(_, _) => !is_word_char(chars[k as int]),
        },
    ensures
        agrees(chars, spans, k + 1, start),
{
    lemma_lex_state_unfolds(chars, spans, k);
    lemma_flush_agrees(chars, spans, k, s);
    lemma_runs(chars, k + 1, k + 1);
    let prev = lex_state(chars.take(k as int), spans.take(k as int));
    let c = chars[k as int];
    let at = spans[k as int];
    let done = flushed(prev);
    assert(at == cover(spans, k, k + 1));
    if is_digit(c) {
        assert(chars.subrange(k as int, k + 1 as int) =~= seq![c]);
        assert(chars.subrange(k as int, k + 1 as int).drop_last() =~= Seq::<char>::empty());
        assert(literal(Seq::<char>::empty()) == 0);
        k
    } else if is_word_start(c) {
        assert(chars.subrange(k as int, k + 1 as int) =~= seq![c]);
        k
    } else if is_blank(c) {
        k + 1
    } else {
        let token = TokenView { token: KindView::Punct(first_byte(c)), span: at };
        assert(done + (seq![token] + tokenized(chars, spans, k + 1)) =~= done.push(token)
            + tokenized(chars, spans, k + 1));
        k + 1
    }
}

/// After every number of characters the lexer holds what the longest tokens
/// say; the result is the place at which the pending token starts.
proof fn lemma_machine_agrees(chars: Seq<char>, spans: Seq<Span>, k: nat) -> (s: nat)
    requires
        spans.len() == chars.len(),
        k <= chars.len(),
        rising(spans),
    ensures
        agrees(chars, spans, k, s),
    decreases k,
{
    if k == 0 {
        assert(Seq::<TokenView>::empty() + tokenized(chars, spans, 0) =~= tokenized(
            chars,
            spans,
            0,
        ));
        0
    } else {
        let j = (k - 1) as nat;
        let s0 = lemma_machine_agrees(chars, spans, j);
        let c = chars[j as int];
        let extends = match lex_state(chars.take(j as int), spans.take(j as int)).pending {
            Pending::Nothing => false,
            Pending::Number(_, _) => is_digit(c),
            Pending::Word(_, _) => is_word_char(c),
        };
        if extends {
            lemma_step_extends(chars, spans, j, s0);
            s0
        } else {
            lemma_step_turns(chars, spans, j, s0)
        }
    }
}

/// Over rising spans the lexer reads the longest tokens: what its one pass
/// from left to right yields is what `tokenized` says.
pub proof fn lemma_lexed_is_tokenized(chars: Seq<char>, spans: Seq<Span>)
    requires
        spans.len() == chars.len(),
        rising(spans),
    ensures
        lexed(chars, spans) == tokenized(chars, spans, 0),
{
    let n = chars.len();
    let s = lemma_machine_agrees(chars, spans, n);
    assert(chars.take(n as int) =~= chars);
    assert(spans.take(n as int) =~= spans);
    lemma_flush_agrees(chars, spans, n, s);
    assert(lexed(chars, spans) + tokenized(chars, spans, n) =~= lexed(chars, spans));
}

/// The token that the lexer is reading.
enum Acc {
    Nothing,
    Number(i32, Span),
    Word(String, Span),
}

impl View for Acc {
    type V = Pending;

    closed spec fn view(&self) -> Pending {
        match self {
            Acc::Nothing => Pending::Nothing,
            Acc::Number(n, span) => Pending::Number(*n, *span),
            Acc::Word(text, span) => Pending::Word(text@, *span),
        }
    }
}

/// Moves the token that `acc` holds, if any, to the end of `done`.
fn flush(done: &mut Vec<Token>, acc: Acc)
    ensures
        views(final(done)@) == flushed(LexState { done: views(old(done)@), pending: acc@ }),
{
    match acc {
        Acc::Nothing => {},
        Acc::Number(n, span) => {
            done.push(Token { token: TokenKind::Lit(n), span });
        },
        Acc::Word(text, span) => {
            done.push(Token { token: TokenKind::Ident(text), span });
        },
    }
}

fn digit_of(c: char) -> (d: i32)
    requires
        is_digit(c),
    ensures
        d == digit_value(c),
{
    (c as u32 - '0' as u32) as i32
}

fn first_byte_of(c: char) -> (b: u8)
    ensures
        b == first_byte(c),
{
    let code: u32 = c as u32;
    if code < 0x80 {
        assert(code & 0x7F == code) by (bit_vector)
            requires
                code < 0x80,
        ;
        code as u8
    } else if code < 0x800 {
        let bits: u32 = (code >> 6) & 0x1F;
        assert(bits <= 0x1F) by (bit_vector)
            requires
                bits == (code >> 6) & 0x1F,
        ;
        0xC0 | (bits as u8)
    } else if code < 0x10000 {
        let bits: u32 = (code >> 12) & 0x0F;
        assert(bits <= 0x0F) by (bit_vector)
            requires
                bits == (code >> 12) & 0x0F,
        ;
        0xE0 | (bits as u8)
    } else {
        let bits: u32 = (code >> 18) & 0x7;
        assert(bits <= 0x7) by (bit_vector)
            requires
                bits == (code >> 18) & 0x7,
        ;
        0xF0 | (bits as u8)
    }
}

pub(crate) fn low_byte_of(c: char) -> (b: u8)
    ensures
        b == low_byte(c),
{
    let code: u32 = c as u32;
    assert(code & 0xff == code % 256) by (bit_vector);
    (code & 0xff) as u8
}

impl CharSeq {
    /// Reads the tokens in one pass from left to right. They are the longest
    /// tokens that the text can be cut into, and they stand in source order.
    pub fn lex(&self) -> (tokens: Tokens)
        ensures
            tokens@ == lexed(self.chars(), self.spans()),
            tokens@ == tokenized(self.chars(), self.spans(), 0),
            ordered(tokens@),
    {
        proof {
            use_type_invariant(self);
        }
        let n = self.chars.len();
        let mut done: Vec<Token> = Vec::new();
        let mut acc = Acc::Nothing;
        let mut i: usize = 0;
        while i < n
            invariant
                i <= n,
                n == self.chars@.len(),
                n == self.spans@.len(),
                views(done@) == lex_state(
                    self.chars@.take(i as int),
                    self.spans@.take(i as int),
                ).done,
                acc@ == lex_state(
                    self.chars@.take(i as int),
                    self.spans@.take(i as int),
                ).pending,
            decreases n - i,
        {
            let c = self.chars[i];
            let at = self.spans[i];
            proof {
                assert(self.chars@.take(i + 1).drop_last() =~= self.chars@.take(i as int));
                assert(self.spans@.take(i + 1).drop_last() =~= self.spans@.take(i as int));
            }
            if c >= '0' && c <= '9' {
                let d = digit_of(c);
                acc = match acc {
                    Acc::Nothing => Acc::Number(d, at),
                    Acc::Number(n, span) => Acc::Number(
                        n.wrapping_mul(10).wrapping_add(d),
                        span.merge(&at),
                    ),
                    Acc::Word(text, span) => {
                        let mut text = text;
                        push_char(&mut text, c);
                        Acc::Word(text, span.merge(&at))
                    },
                };
            } else if (c >= 'a' && c <= 'z') || (c >= 'A' && c <= 'Z') || c == '_' {
                acc = match acc {
                    Acc::Word(text, span) => {
                        let mut text = text;
                        push_char(&mut text, c);
                        Acc::Word(text, span.merge(&at))
                    },
                    other => {
                        flush(&mut done, other);
                        let mut text = String::new();
                        push_char(&mut text, c);
                        Acc::Word(text, at)
                    },
                };
            } else if c == ' ' || c == '\t' || c == '\n' || c == '\r' {
                flush(&mut done, acc);
                acc = Acc::Nothing;
            } else {
                flush(&mut done, acc);
                done.push(Token { token: TokenKind::Punct(first_byte_of(c)), span: at });
                acc = Acc::Nothing;
            }
            i += 1;
        }
        flush(&mut done, acc);
        proof {
            assert(self.chars@.take(n as int) =~= self.chars@);
            assert(self.spans@.take(n as int) =~= self.spans@);
            lemma_spans_of_rising(self.chars@);
            lemma_lex_state_ordered(self.chars@, self.spans@);
            lemma_lexed_is_tokenized(self.chars@, self.spans@);
        }
        Tokens { tokens: done }
    }
}

/// Reads the tokens of `code`: the longest tokens that it can be cut into, in
/// source order, each with the span of its characters.
pub fn lex(code: String) -> (tokens: Tokens)
    requires
        fits(code@),
    ensures
        tokens@ == lexed(code@, spans_of(code@)),
        tokens@ == tokenized(code@, spans_of(code@), 0),
        ordered(tokens@),
{
    let chars = CharSeq::new(code.as_str());
    chars.lex()
}

/// A stream of tokens in source order.
pub struct Tokens {
    tokens: Vec<Token>,
}

impl View for Tokens {
    type V = Seq<TokenView>;

    closed spec fn view(&self) -> Seq<TokenView> {
        views(self.tokens@)
    }
}

impl Tokens {
    pub fn new(tokens: Vec<Token>) -> (stream: Tokens)
        ensures
            stream@ == views(tokens@),
    {
        Tokens { tokens }
    }

    pub fn len(&self) -> (n: usize)
        ensures
            n == self@.len(),
    {
        self.tokens.len()
    }

    /// The `i`-th token, if there is one.
    pub fn get(&self, i: usize) -> (r: Option<&Token>)
        ensures
            i < self@.len() ==> r is Some && r->Some_0@ == self@[i as int],
            i >= self@.len() ==> r is None,
    {
        if i < self.tokens.len() {
            Some(&self.tokens[i])
        } else {
            None
        }
    }

    /// A cursor at the first token.
    pub fn cursor(&self) -> (c: Cursor<'_>)
        ensures
            c.stream() == self@,
            c.at() == 0,
            c.wf(),
    {
        Cursor { tokens: self, offset: 0 }
    }
}

/// The span of the token at `at`, or the end mark past the last token.
pub open spec fn span_at(tokens: Seq<TokenView>, at: nat) -> Span {
    if at < tokens.len() {
        tokens[at as int].span
    } else {
        Span::end_mark()
    }
}

/// A read head over a token stream. A copy of a cursor reads on by itself and
/// leaves the cursor that it was copied from where that stood.
#[derive(Clone, Copy)]
pub struct Cursor<'a> {
    tokens: &'a Tokens,
    offset: usize,
}

impl<'a> Cursor<'a> {
    /// The tokens that the cursor reads.
    pub closed spec fn stream(&self) -> Seq<TokenView> {
        self.tokens@
    }

    /// How many tokens lie before the cursor.
    pub closed spec fn at(&self) -> nat {
        self.offset as nat
    }

    /// A cursor never stands past the end of its stream.
    pub open spec fn wf(&self) -> bool {
        self.at() <= self.stream().len()
    }

    /// The current token, if any is left.
    pub fn peek(&self) -> (r: Option<&'a Token>)
        ensures
            self.at() < self.stream().len() ==> r is Some
                && r->Some_0@ == self.stream()[self.at() as int],
            self.at() >= self.stream().len() ==> r is None,
    {
        self.tokens.get(self.offset)
    }

    /// The current token, if any is left; the cursor then stands behind it.
    pub fn next(&mut self) -> (r: Option<&'a Token>)
        ensures
            final(self).stream() == old(self).stream(),
            old(self).at() < old(self).stream().len() ==> r is Some
                && r->Some_0@ == old(self).stream()[old(self).at() as int]
                && final(self).at() == old(self).at() + 1,
            old(self).at() >= old(self).stream().len() ==> r is None
                && final(self).at() == old(self).at(),
    {
        if self.offset < self.tokens.tokens.len() {
            let token = &self.tokens.tokens[self.offset];
            self.offset += 1;
            Some(token)
        } else {
            None
        }
    }

    /// The token `i` places after the current one, if there is one.
    pub fn get(&self, i: usize) -> (r: Option<&'a Token>)
        ensures
            self.at() + i < self.stream().len() ==> r is Some
                && r->Some_0@ == self.stream()[self.at() + i],
            self.at() + i >= self.stream().len() ==> r is None,
    {
        let len = self.tokens.len();
        if self.offset < len && i < len - self.offset {
            self.tokens.get(self.offset + i)
        } else {
            None
        }
    }

    /// How many tokens lie before the cursor.
    pub fn index(&self) -> (n: usize)
        ensures
            n == self.at(),
    {
        self.offset
    }

    /// The span of the current token, or the end mark when none is left.
    pub fn span(&self) -> (s: Span)
        ensures
            s == span_at(self.stream(), self.at()),
    {
        match self.tokens.get(self.offset) {
            Some(t) => t.span,
            None => Span::eof(),
        }
    }
}

} // verus!
