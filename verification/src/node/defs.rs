//! What every grammar node can do, and the nodes that are built from other
//! nodes whatever these are: options, sequences, separated sequences, boxes
//! and tuples.

use crate::span::Span;
use crate::text::same_text;
use crate::token::{low_byte, low_byte_of, span_at, Cursor, KindView, TokenKind, TokenView};
use std::marker::PhantomData;
use vstd::prelude::*;

verus! {

/// What parsing a node yields on given tokens.
pub enum Outcome<V> {
    /// The tree of the node that was read, and the number of tokens that lie
    /// before the cursor afterwards.
    Parsed { tree: V, next: nat },
    /// The span at which the parser gave up.
    Failed { span: Span },
}

/// A node that can be read from a token stream.
///
/// The model of a node is its tree, `deep_view()`. `outcome` says for every
/// token stream and every place in it what `parse` does there.
pub trait Parse: Sized + DeepView {
    /// What parsing yields when the cursor has `at` of `tokens` before it.
    spec fn outcome(tokens: Seq<TokenView>, at: nat) -> Outcome<Self::V>;

    /// Reads one node. On success the cursor stands behind the node's tokens.
    /// On failure the error is the span at which the parser gave up, and the
    /// cursor may stand anywhere from where it stood on.
    fn parse(cursor: &mut Cursor) -> (r: Result<Self, Span>)
        requires
            old(cursor).wf(),
        ensures
            final(cursor).wf(),
            final(cursor).stream() == old(cursor).stream(),
            final(cursor).at() >= old(cursor).at(),
            match Self::outcome(old(cursor).stream(), old(cursor).at()) {
                Outcome::Parsed { tree, next } => r is Ok && r->Ok_0.deep_view() == tree
                    && final(cursor).at() == next,
                Outcome::Failed { span } => r is Err && r->Err_0 == span,
            },
    ;
}

/// A node that knows the span of text that it was read from.
pub trait Node: Parse {
    /// The span of a node with the given tree.
    spec fn span_of(tree: Self::V) -> Span;

    fn span(&self) -> (s: Span)
        ensures
            s == Self::span_of(self.deep_view()),
    ;
}

/// A node that can be checked for meaning.
pub trait SemanticAnalyze {
    /// What the check finds: nothing, or the span of the first fault.
    spec fn verdict(&self) -> Result<(), Span>;

    fn semantic_analyze(&self) -> (r: Result<(), Span>)
        ensures
            r == self.verdict(),
    ;
}

/// The first fault of two checks that run one after the other.
pub open spec fn first_fault(first: Result<(), Span>, second: Result<(), Span>) -> Result<
    (),
    Span,
> {
    if first is Err {
        first
    } else {
        second
    }
}

/// What reading the keyword `text` yields: the span of the current token if
/// that is a name spelled `text`, and else a failure at the current span.
pub open spec fn keyword_outcome(tokens: Seq<TokenView>, at: nat, text: Seq<char>) -> Outcome<
    Span,
> {
    if at < tokens.len() && tokens[at as int].token == KindView::Ident(text) {
        Outcome::Parsed { tree: tokens[at as int].span, next: at + 1 }
    } else {
        Outcome::Failed { span: span_at(tokens, at) }
    }
}

/// Reads the keyword `text`.
pub fn parse_keyword(cursor: &mut Cursor, text: &str) -> (r: Result<Span, Span>)
    requires
        old(cursor).wf(),
    ensures
        final(cursor).wf(),
        final(cursor).stream() == old(cursor).stream(),
        final(cursor).at() >= old(cursor).at(),
        match keyword_outcome(old(cursor).stream(), old(cursor).at(), text@) {
            Outcome::Parsed { tree, next } => r == Ok::<Span, Span>(tree) && final(cursor).at()
                == next,
            Outcome::Failed { span } => r == Err::<Span, Span>(span)
                && final(cursor).at() == old(cursor).at(),
        },
{
    if let Some(token) = cursor.peek() {
        if let TokenKind::Ident(id) = &token.token {
            if same_text(id.as_str(), text) {
                let span = token.span;
                cursor.next();
                return Ok(span);
            }
        }
    }
    Err(cursor.span())
}

/// What reading the rest `text` of a symbol yields, when the tokens read for
/// the symbol so far span `span`: each character of `text` in turn has to be
/// the current token, as a punctuation byte. The failure is at the token
/// that does not match.
pub open spec fn symbol_outcome(
    tokens: Seq<TokenView>,
    at: nat,
    text: Seq<char>,
    span: Span,
) -> Outcome<Span>
    decreases text.len(),
{
    if text.len() == 0 {
        Outcome::Parsed { tree: span, next: at }
    } else if at < tokens.len() && tokens[at as int].token == KindView::Punct(low_byte(text[0])) {
        symbol_outcome(tokens, at + 1, text.drop_first(), span.merged(tokens[at as int].span))
    } else {
        Outcome::Failed { span: span_at(tokens, at) }
    }
}

/// How far reading the symbol `text` gets: the place behind the tokens that
/// match its characters one by one, up to the first that does not.
pub open spec fn symbol_reach(tokens: Seq<TokenView>, at: nat, text: Seq<char>) -> nat
    decreases text.len(),
{
    if text.len() > 0 && at < tokens.len() && tokens[at as int].token == KindView::Punct(
        low_byte(text[0]),
    ) {
        symbol_reach(tokens, at + 1, text.drop_first())
    } else {
        at
    }
}

/// Reads the symbol `text`, one punctuation token for each of its characters.
/// Whether it succeeds or not, the cursor stays behind the tokens that
/// matched.
pub fn parse_symbol(cursor: &mut Cursor, text: &str) -> (r: Result<Span, Span>)
    requires
        old(cursor).wf(),
    ensures
        final(cursor).wf(),
        final(cursor).stream() == old(cursor).stream(),
        final(cursor).at() >= old(cursor).at(),
        final(cursor).at() == symbol_reach(old(cursor).stream(), old(cursor).at(), text@),
        match symbol_outcome(old(cursor).stream(), old(cursor).at(), text@, Span::end_mark()) {
            Outcome::Parsed { tree, next } => r == Ok::<Span, Span>(tree) && final(cursor).at()
                == next,
            Outcome::Failed { span } => r == Err::<Span, Span>(span),
        },
{
    let mut span = Span::empty();
    assert(text@.skip(0) =~= text@);
    for ch in it: text.chars()
        invariant
            it.seq() == text@,
            cursor.wf(),
            cursor.stream() == old(cursor).stream(),
            cursor.at() >= old(cursor).at(),
            symbol_outcome(old(cursor).stream(), old(cursor).at(), text@, Span::end_mark())
                == symbol_outcome(cursor.stream(), cursor.at(), text@.skip(it.index()), span),
            symbol_reach(old(cursor).stream(), old(cursor).at(), text@) == symbol_reach(
                cursor.stream(),
                cursor.at(),
                text@.skip(it.index()),
            ),
    {
        let b = low_byte_of(ch);
        let ghost rest = text@.skip(it.index());
        assert(rest.drop_first() =~= text@.skip(it.index() + 1));
        let mut matched = false;
        if let Some(token) = cursor.peek() {
            if let TokenKind::Punct(p) = &token.token {
                if *p == b {
                    span = span.merge(&cursor.span());
                    cursor.next();
                    matched = true;
                }
            }
        }
        if !matched {
            return Err(cursor.span());
        }
    }
    Ok(span)
}

impl<T: Parse> Parse for Option<T> {
    /// The option reads as its inner node does, failure included.
    open spec fn outcome(tokens: Seq<TokenView>, at: nat) -> Outcome<Option<T::V>> {
        match T::outcome(tokens, at) {
            Outcome::Parsed { tree, next } => Outcome::Parsed { tree: Some(tree), next },
            Outcome::Failed { span } => Outcome::Failed { span },
        }
    }

    fn parse(cursor: &mut Cursor) -> (r: Result<Self, Span>) {
        match T::parse(cursor) {
            Ok(node) => Ok(Some(node)),
            Err(span) => Err(span),
        }
    }
}

impl<T: Node> Node for Option<T> {
    open spec fn span_of(tree: Option<T::V>) -> Span {
        match tree {
            Some(inner) => T::span_of(inner),
            None => Span::end_mark(),
        }
    }

    fn span(&self) -> (s: Span) {
        match self {
            Some(node) => node.span(),
            None => Span::empty(),
        }
    }
}

impl<T: SemanticAnalyze> SemanticAnalyze for Option<T> {
    open spec fn verdict(&self) -> Result<(), Span> {
        match self {
            Some(node) => node.verdict(),
            None => Ok(()),
        }
    }

    fn semantic_analyze(&self) -> (r: Result<(), Span>) {
        match self {
            Some(node) => node.semantic_analyze(),
            None => Ok(()),
        }
    }
}

impl<T: Parse> Parse for Box<T> {
    open spec fn outcome(tokens: Seq<TokenView>, at: nat) -> Outcome<T::V> {
        T::outcome(tokens, at)
    }

    fn parse(cursor: &mut Cursor) -> (r: Result<Self, Span>) {
        match T::parse(cursor) {
            Ok(node) => Ok(Box::new(node)),
            Err(span) => Err(span),
        }
    }
}

impl<T: Node> Node for Box<T> {
    open spec fn span_of(tree: T::V) -> Span {
        T::span_of(tree)
    }

    fn span(&self) -> (s: Span) {
        (**self).span()
    }
}

impl<T: SemanticAnalyze> SemanticAnalyze for Box<T> {
    open spec fn verdict(&self) -> Result<(), Span> {
        (**self).verdict()
    }

    fn semantic_analyze(&self) -> (r: Result<(), Span>) {
        (**self).semantic_analyze()
    }
}

/// The outcome `rest` with the trees of `head` put before its own.
pub open spec fn prepend<V>(head: Seq<V>, rest: Outcome<Seq<V>>) -> Outcome<Seq<V>> {
    match rest {
        Outcome::Parsed { tree, next } => Outcome::Parsed { tree: head + tree, next },
        Outcome::Failed { span } => Outcome::Failed { span },
    }
}

/// What reading `T` again and again yields: the trees of all the nodes read,
/// up to the first place at which `T` fails. It never fails itself.
///
/// A node that takes no token would repeat forever, so the repetition also
/// ends before a `T` that is read without taking a token.
pub open spec fn many<T: Parse>(tokens: Seq<TokenView>, at: nat) -> Outcome<Seq<T::V>>
    decreases tokens.len() - at,
{
    match T::outcome(tokens, at) {
        Outcome::Parsed { tree, next } => if at < next <= tokens.len() {
            prepend(seq![tree], many::<T>(tokens, next))
        } else {
            Outcome::Parsed { tree: Seq::empty(), next: at }
        },
        Outcome::Failed { .. } => Outcome::Parsed { tree: Seq::empty(), next: at },
    }
}

/// The spans of the nodes with the given trees, merged from left to right.
pub open spec fn merged_spans<T: Node>(trees: Seq<T::V>) -> Span
    decreases trees.len(),
{
    if trees.len() == 0 {
        Span::end_mark()
    } else {
        merged_spans::<T>(trees.drop_last()).merged(T::span_of(trees.last()))
    }
}

/// The first fault among the nodes, checked from left to right.
pub open spec fn first_fault_among<T: SemanticAnalyze>(nodes: Seq<T>) -> Result<(), Span>
    decreases nodes.len(),
{
    if nodes.len() == 0 {
        Ok(())
    } else {
        first_fault(nodes[0].verdict(), first_fault_among(nodes.drop_first()))
    }
}

/// Merges the spans of `nodes` from left to right.
fn span_of_all<T: Node>(nodes: &Vec<T>) -> (s: Span)
    ensures
        s == merged_spans::<T>(nodes.deep_view()),
{
    let mut span = Span::empty();
    let mut i: usize = 0;
    while i < nodes.len()
        invariant
            i <= nodes.len(),
            span == merged_spans::<T>(nodes.deep_view().take(i as int)),
        decreases nodes.len() - i,
    {
        proof {
            assert(nodes.deep_view().take(i + 1).drop_last() =~= nodes.deep_view().take(i as int));
        }
        span = span.merge(&nodes[i].span());
        i += 1;
    }
    assert(nodes.deep_view().take(nodes.len() as int) =~= nodes.deep_view());
    span
}

/// Checks `nodes` from left to right and stops at the first fault.
fn analyze_all<T: SemanticAnalyze>(nodes: &Vec<T>) -> (r: Result<(), Span>)
    ensures
        r == first_fault_among(nodes@),
{
    let mut i: usize = 0;
    assert(nodes@.skip(0) =~= nodes@);
    while i < nodes.len()
        invariant
            i <= nodes.len(),
            first_fault_among(nodes@) == first_fault_among(nodes@.skip(i as int)),
        decreases nodes.len() - i,
    {
        proof {
            assert(nodes@.skip(i as int).drop_first() =~= nodes@.skip(i + 1));
        }
        match nodes[i].semantic_analyze() {
            Ok(_) => {},
            Err(span) => {
                return Err(span);
            },
        }
        i += 1;
    }
    Ok(())
}

impl<T: Parse> Parse for Vec<T> {
    open spec fn outcome(tokens: Seq<TokenView>, at: nat) -> Outcome<Seq<T::V>> {
        many::<T>(tokens, at)
    }

    /// Reads `T` on a copy of the cursor for as long as that succeeds and
    /// takes a token, and moves the cursor behind each node that was read.
    /// The cursor ends where `T` first fails or takes nothing, and nothing
    /// after that place is read.
    fn parse(cursor: &mut Cursor) -> (r: Result<Self, Span>)
        ensures
            r is Ok,
            T::outcome(final(cursor).stream(), final(cursor).at()) matches Outcome::Parsed {
                next,
                ..
            } ==> next <= final(cursor).at(),
    {
        let mut nodes: Vec<T> = Vec::new();
        let ghost tokens = cursor.stream();
        let ghost start = cursor.at();
        loop
            invariant
                cursor.wf(),
                cursor.stream() == tokens,
                start <= cursor.at(),
                many::<T>(tokens, start) == prepend(
                    nodes.deep_view(),
                    many::<T>(tokens, cursor.at()),
                ),
            ensures
                cursor.wf(),
                cursor.stream() == tokens,
                start <= cursor.at(),
                many::<T>(tokens, start) == (Outcome::Parsed {
                    tree: nodes.deep_view(),
                    next: cursor.at(),
                }),
                T::outcome(tokens, cursor.at()) matches Outcome::Parsed { next, .. } ==> next
                    <= cursor.at(),
            decreases tokens.len() - cursor.at(),
        {
            let mut attempt = *cursor;
            match T::parse(&mut attempt) {
                Ok(node) => {
                    if attempt.index() <= cursor.index() {
                        break ;
                    }
                    proof {
                        // the node stands behind those read so far and before the rest
                        let tree = node.deep_view();
                        let rest = many::<T>(tokens, attempt.at());
                        if let Outcome::Parsed { tree: more, .. } = rest {
                            assert(nodes.deep_view().push(tree) + more =~= nodes.deep_view() + (
                            seq![tree] + more));
                        }
                    }
                    let ghost before = nodes.deep_view();
                    nodes.push(node);
                    assert(nodes.deep_view() =~= before.push(node.deep_view()));
                    *cursor = attempt;
                },
                Err(_) => {
                    break ;
                },
            }
        }
        Ok(nodes)
    }
}

impl<T: Node> Node for Vec<T> {
    open spec fn span_of(tree: Seq<T::V>) -> Span {
        merged_spans::<T>(tree)
    }

    fn span(&self) -> (s: Span) {
        span_of_all(self)
    }
}

impl<T: SemanticAnalyze> SemanticAnalyze for Vec<T> {
    open spec fn verdict(&self) -> Result<(), Span> {
        first_fault_among(self@)
    }

    fn semantic_analyze(&self) -> (r: Result<(), Span>) {
        analyze_all(self)
    }
}

/// Nodes of type `T` with a node of type `S` between each two of them.
pub struct Split<T, S> {
    data: Vec<T>,
    _marker: PhantomData<S>,
}

impl<T: DeepView, S> DeepView for Split<T, S> {
    type V = Seq<T::V>;

    open spec fn deep_view(&self) -> Seq<T::V> {
        Seq::new(self.items().len(), |i: int| self.items()[i].deep_view())
    }
}

impl<T, S> Split<T, S> {
    /// The nodes between the separators, in order.
    pub closed spec fn items(&self) -> Seq<T> {
        self.data@
    }

    /// The sequence of the given nodes.
    fn of(data: Vec<T>) -> (nodes: Self)
        ensures
            nodes.items() == data@,
    {
        Split { data, _marker: PhantomData }
    }

    /// How many nodes there are between the separators.
    pub fn len(&self) -> (n: usize)
        ensures
            n == self.items().len(),
    {
        self.data.len()
    }
}

/// What follows one `T` in a separated sequence: a separator `S` and a `T`
/// behind it, for as long as both can be read. The sequence ends before the
/// first separator that fails, and before a separator behind which `T`
/// fails: that separator is left unread. It never fails itself.
///
/// A pair that takes no token would repeat forever, so the sequence also ends
/// before such a pair.
pub open spec fn separated_tail<T: Parse, S: Parse>(tokens: Seq<TokenView>, at: nat) -> Outcome<
    Seq<T::V>,
>
    decreases tokens.len() - at,
{
    match S::outcome(tokens, at) {
        Outcome::Failed { .. } => Outcome::Parsed { tree: Seq::empty(), next: at },
        Outcome::Parsed { next: middle, .. } => match T::outcome(tokens, middle) {
            Outcome::Failed { .. } => Outcome::Parsed { tree: Seq::empty(), next: at },
            Outcome::Parsed { tree, next } => if at < next <= tokens.len() {
                prepend(seq![tree], separated_tail::<T, S>(tokens, next))
            } else {
                Outcome::Parsed { tree: Seq::empty(), next: at }
            },
        },
    }
}

/// What reading a separated sequence yields. Where not even the first `T`
/// can be read the sequence is empty and no token is taken.
pub open spec fn separated<T: Parse, S: Parse>(tokens: Seq<TokenView>, at: nat) -> Outcome<
    Seq<T::V>,
> {
    match T::outcome(tokens, at) {
        Outcome::Failed { .. } => Outcome::Parsed { tree: Seq::empty(), next: at },
        Outcome::Parsed { tree, next } => prepend(seq![tree], separated_tail::<T, S>(tokens, next)),
    }
}

impl<T: Parse, S: Parse> Parse for Split<T, S> {
    open spec fn outcome(tokens: Seq<TokenView>, at: nat) -> Outcome<Seq<T::V>> {
        separated::<T, S>(tokens, at)
    }

    /// Reads the first `T`, and then separator and `T` in turn, each such
    /// pair on a copy of the cursor that the cursor follows once the pair is
    /// read. A failure ends the sequence and is not handed on.
    fn parse(cursor: &mut Cursor) -> (r: Result<Self, Span>)
        ensures
            r is Ok,
    {
        let mut nodes: Vec<T> = Vec::new();
        let ghost tokens = cursor.stream();
        let ghost start = cursor.at();
        assert(nodes.deep_view() =~= Seq::empty());
        let mut attempt = *cursor;
        match T::parse(&mut attempt) {
            Ok(node) => {
                nodes.push(node);
                assert(nodes.deep_view() =~= seq![node.deep_view()]);
                *cursor = attempt;
            },
            Err(_) => {
                return Ok(Split::of(nodes));
            },
        }
        loop
            invariant
                cursor.wf(),
                cursor.stream() == tokens,
                start <= cursor.at(),
                separated::<T, S>(tokens, start) == prepend(
                    nodes.deep_view(),
                    separated_tail::<T, S>(tokens, cursor.at()),
                ),
            ensures
                cursor.wf(),
                cursor.stream() == tokens,
                start <= cursor.at(),
                separated::<T, S>(tokens, start) == (Outcome::Parsed {
                    tree: nodes.deep_view(),
                    next: cursor.at(),
                }),
            decreases tokens.len() - cursor.at(),
        {
            let mut attempt = *cursor;
            if S::parse(&mut attempt).is_err() {
                break ;
            }
            match T::parse(&mut attempt) {
                Ok(node) => {
                    if attempt.index() <= cursor.index() {
                        break ;
                    }
                    proof {
                        // the node stands behind those read so far and before the rest
                        let tree = node.deep_view();
                        let rest = separated_tail::<T, S>(tokens, attempt.at());
                        if let Outcome::Parsed { tree: more, .. } = rest {
                            assert(nodes.deep_view().push(tree) + more =~= nodes.deep_view() + (
                            seq![tree] + more));
                        }
                    }
                    let ghost before = nodes.deep_view();
                    nodes.push(node);
                    assert(nodes.deep_view() =~= before.push(node.deep_view()));
                    *cursor = attempt;
                },
                Err(_) => {
                    break ;
                },
            }
        }
        Ok(Split::of(nodes))
    }
}

impl<T: Node, S: Node> Node for Split<T, S> {
    /// The separators add nothing to the span.
    open spec fn span_of(tree: Seq<T::V>) -> Span {
        merged_spans::<T>(tree)
    }

    fn span(&self) -> (s: Span) {
        span_of_all(&self.data)
    }
}

impl<T: SemanticAnalyze, S: SemanticAnalyze> SemanticAnalyze for Split<T, S> {
    open spec fn verdict(&self) -> Result<(), Span> {
        first_fault_among(self.items())
    }

    fn semantic_analyze(&self) -> (r: Result<(), Span>) {
        analyze_all(&self.data)
    }
}

impl<T1: Parse, T2: Parse> Parse for (T1, T2) {
    /// The two nodes are read one after the other; the first failure is
    /// the tuple's.
    open spec fn outcome(tokens: Seq<TokenView>, at: nat) -> Outcome<(T1::V, T2::V)> {
        match T1::outcome(tokens, at) {
            Outcome::Parsed { tree: first, next: middle } => match T2::outcome(tokens, middle) {
                Outcome::Parsed { tree: last, next } => Outcome::Parsed {
                    tree: (first, last),
                    next,
                },
                Outcome::Failed { span } => Outcome::Failed { span },
            },
            Outcome::Failed { span } => Outcome::Failed { span },
        }
    }

    fn parse(cursor: &mut Cursor) -> (r: Result<Self, Span>) {
        Ok((T1::parse(cursor)?, T2::parse(cursor)?))
    }
}

impl<T1: Node, T2: Node> Node for (T1, T2) {
    open spec fn span_of(tree: (T1::V, T2::V)) -> Span {
        T1::span_of(tree.0).merged(T2::span_of(tree.1))
    }

    fn span(&self) -> (s: Span) {
        self.0.span().merge(&self.1.span())
    }
}

impl<T1: SemanticAnalyze, T2: SemanticAnalyze> SemanticAnalyze for (T1, T2) {
    open spec fn verdict(&self) -> Result<(), Span> {
        first_fault(self.0.verdict(), self.1.verdict())
    }

    fn semantic_analyze(&self) -> (r: Result<(), Span>) {
        self.0.semantic_analyze()?;
        self.1.semantic_analyze()?;
        Ok(())
    }
}

impl<T1: Parse, T2: Parse, T3: Parse> Parse for (T1, T2, T3) {
    /// The three nodes are read one after the other; the first failure is
    /// the tuple's.
    open spec fn outcome(tokens: Seq<TokenView>, at: nat) -> Outcome<(T1::V, T2::V, T3::V)> {
        match <(T1, T2)>::outcome(tokens, at) {
            Outcome::Parsed { tree: first, next: middle } => match T3::outcome(tokens, middle) {
                Outcome::Parsed { tree: last, next } => Outcome::Parsed {
                    tree: (first.0, first.1, last),
                    next,
                },
                Outcome::Failed { span } => Outcome::Failed { span },
            },
            Outcome::Failed { span } => Outcome::Failed { span },
        }
    }

    fn parse(cursor: &mut Cursor) -> (r: Result<Self, Span>) {
        Ok((T1::parse(cursor)?, T2::parse(cursor)?, T3::parse(cursor)?))
    }
}

impl<T1: Node, T2: Node, T3: Node> Node for (T1, T2, T3) {
    open spec fn span_of(tree: (T1::V, T2::V, T3::V)) -> Span {
        T1::span_of(tree.0).merged(T2::span_of(tree.1)).merged(T3::span_of(tree.2))
    }

    fn span(&self) -> (s: Span) {
        self.0.span().merge(&self.1.span()).merge(&self.2.span())
    }
}

impl<
    T1: SemanticAnalyze,
    T2: SemanticAnalyze,
    T3: SemanticAnalyze,
> SemanticAnalyze for (T1, T2, T3) {
    open spec fn verdict(&self) -> Result<(), Span> {
        first_fault(self.0.verdict(), first_fault(self.1.verdict(), self.2.verdict()))
    }

    fn semantic_analyze(&self) -> (r: Result<(), Span>) {
        self.0.semantic_analyze()?;
        self.1.semantic_analyze()?;
        self.2.semantic_analyze()?;
        Ok(())
    }
}

impl<T1: Parse, T2: Parse, T3: Parse, T4: Parse> Parse for (T1, T2, T3, T4) {
    /// The four nodes are read one after the other; the first failure is
    /// the tuple's.
    open spec fn outcome(tokens: Seq<TokenView>, at: nat) -> Outcome<(T1::V, T2::V, T3::V, T4::V)> {
        match <(T1, T2, T3)>::outcome(tokens, at) {
            Outcome::Parsed { tree: first, next: middle } => match T4::outcome(tokens, middle) {
                Outcome::Parsed { tree: last, next } => Outcome::Parsed {
                    tree: (first.0, first.1, first.2, last),
                    next,
                },
                Outcome::Failed { span } => Outcome::Failed { span },
            },
            Outcome::Failed { span } => Outcome::Failed { span },
        }
    }

    fn parse(cursor: &mut Cursor) -> (r: Result<Self, Span>) {
        Ok((T1::parse(cursor)?, T2::parse(cursor)?, T3::parse(cursor)?, T4::parse(cursor)?))
    }
}

impl<T1: Node, T2: Node, T3: Node, T4: Node> Node for (T1, T2, T3, T4) {
    open spec fn span_of(tree: (T1::V, T2::V, T3::V, T4::V)) -> Span {
        T1::span_of(tree.0)
            .merged(T2::span_of(tree.1))
            .merged(T3::span_of(tree.2))
            .merged(T4::span_of(tree.3))
    }

    fn span(&self) -> (s: Span) {
        self.0.span().merge(&self.1.span()).merge(&self.2.span()).merge(&self.3.span())
    }
}

impl<
    T1: SemanticAnalyze,
    T2: SemanticAnalyze,
    T3: SemanticAnalyze,
    T4: SemanticAnalyze,
> SemanticAnalyze for (T1, T2, T3, T4) {
    open spec fn verdict(&self) -> Result<(), Span> {
        first_fault(
            self.0.verdict(),
            first_fault(
                self.1.verdict(),
                first_fault(
                    self.2.verdict(),
                    self.3.verdict(),
                ),
            ),
        )
    }

    fn semantic_analyze(&self) -> (r: Result<(), Span>) {
        self.0.semantic_analyze()?;
        self.1.semantic_analyze()?;
        self.2.semantic_analyze()?;
        self.3.semantic_analyze()?;
        Ok(())
    }
}

impl<T1: Parse, T2: Parse, T3: Parse, T4: Parse, T5: Parse> Parse for (T1, T2, T3, T4, T5) {
    /// The five nodes are read one after the other; the first failure is
    /// the tuple's.
    open spec fn outcome(tokens: Seq<TokenView>, at: nat) -> Outcome<
        (T1::V, T2::V, T3::V, T4::V, T5::V),
    > {
        match <(T1, T2, T3, T4)>::outcome(tokens, at) {
            Outcome::Parsed { tree: first, next: middle } => match T5::outcome(tokens, middle) {
                Outcome::Parsed { tree: last, next } => Outcome::Parsed {
                    tree: (first.0, first.1, first.2, first.3, last),
                    next,
                },
                Outcome::Failed { span } => Outcome::Failed { span },
            },
            Outcome::Failed { span } => Outcome::Failed { span },
        }
    }

    fn parse(cursor: &mut Cursor) -> (r: Result<Self, Span>) {
        Ok((
            T1::parse(cursor)?,
            T2::parse(cursor)?,
            T3::parse(cursor)?,
            T4::parse(cursor)?,
            T5::parse(cursor)?,
        ))
    }
}

impl<T1: Node, T2: Node, T3: Node, T4: Node, T5: Node> Node for (T1, T2, T3, T4, T5) {
    open spec fn span_of(tree: (T1::V, T2::V, T3::V, T4::V, T5::V)) -> Span {
        T1::span_of(tree.0)
            .merged(T2::span_of(tree.1))
            .merged(T3::span_of(tree.2))
            .merged(T4::span_of(tree.3))
            .merged(T5::span_of(tree.4))
    }

    fn span(&self) -> (s: Span) {
        self.0.span()
            .merge(&self.1.span())
            .merge(&self.2.span())
            .merge(&self.3.span())
            .merge(&self.4.span())
    }
}

impl<
    T1: SemanticAnalyze,
    T2: SemanticAnalyze,
    T3: SemanticAnalyze,
    T4: SemanticAnalyze,
    T5: SemanticAnalyze,
> SemanticAnalyze for (T1, T2, T3, T4, T5) {
    open spec fn verdict(&self) -> Result<(), Span> {
        first_fault(
            self.0.verdict(),
            first_fault(
                self.1.verdict(),
                first_fault(
                    self.2.verdict(),
                    first_fault(
                        self.3.verdict(),
                        self.4.verdict(),
                    ),
                ),
            ),
        )
    }

    fn semantic_analyze(&self) -> (r: Result<(), Span>) {
        self.0.semantic_analyze()?;
        self.1.semantic_analyze()?;
        self.2.semantic_analyze()?;
        self.3.semantic_analyze()?;
        self.4.semantic_analyze()?;
        Ok(())
    }
}

/// Reads one field of a record: the node is read where the cursor stands,
/// and its span is merged into `span`, the span of the fields before it.
pub fn parse_field<T: Node>(cursor: &mut Cursor, span: &mut Span) -> (r: Result<T, Span>)
    requires
        old(cursor).wf(),
    ensures
        final(cursor).wf(),
        final(cursor).stream() == old(cursor).stream(),
        final(cursor).at() >= old(cursor).at(),
        match T::outcome(old(cursor).stream(), old(cursor).at()) {
            Outcome::Parsed { tree, next } => r is Ok && r->Ok_0.deep_view() == tree
                && final(cursor).at() == next
                && *final(span) == old(span).merged(T::span_of(tree)),
            Outcome::Failed { span: failure } => r is Err && r->Err_0 == failure
                && *final(span) == *old(span),
        },
{
    let node = T::parse(cursor)?;
    *span = span.merge(&node.span());
    Ok(node)
}

/// The farther of two failures: `span` where it lies strictly after `best`,
/// and else `best`.
pub open spec fn farther(best: Span, span: Span) -> Span {
    if best.before(span) {
        span
    } else {
        best
    }
}

/// Tries one variant of a sum type on a copy of the cursor. Where the
/// variant can be read the cursor moves behind it. Where it cannot, the
/// cursor stays where it was, and `farthest` becomes the variant's failure if
/// that lies strictly after it.
pub fn parse_variant<T: Parse>(cursor: &mut Cursor, farthest: &mut Span) -> (r: Option<T>)
    requires
        old(cursor).wf(),
    ensures
        final(cursor).wf(),
        final(cursor).stream() == old(cursor).stream(),
        final(cursor).at() >= old(cursor).at(),
        match T::outcome(old(cursor).stream(), old(cursor).at()) {
            Outcome::Parsed { tree, next } => r is Some && r->Some_0.deep_view() == tree
                && final(cursor).at() == next
                && *final(farthest) == *old(farthest),
            Outcome::Failed { span } => r is None
                && final(cursor).at() == old(cursor).at()
                && *final(farthest) == farther(*old(farthest), span)
                && !final(farthest).before(span)
                && !final(farthest).before(*old(farthest)),
        },
{
    let mut attempt = *cursor;
    match T::parse(&mut attempt) {
        Ok(node) => {
            *cursor = attempt;
            Some(node)
        },
        Err(span) => {
            if *farthest < span {
                *farthest = span;
            }
            None
        },
    }
}

/// The farther of two failures lies before neither of them, and is one of
/// them.
pub proof fn lemma_farther_dominates(best: Span, span: Span)
    ensures
        !farther(best, span).before(best),
        !farther(best, span).before(span),
        farther(best, span) == best || farther(best, span) == span,
{
}

/// Taking the farther failure again and again never moves back: what lay
/// at or before the farthest failure so far still does after one more.
pub proof fn lemma_farther_keeps_dominating(earlier: Span, best: Span, span: Span)
    requires
        !best.before(earlier),
    ensures
        !farther(best, span).before(earlier),
{
}

} // verus!
