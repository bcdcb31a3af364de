//! Grammar nodes: the atoms of the language and the nodes built from them.

pub mod defs;
pub mod expand;

use crate::node::defs::{
    farther, first_fault, first_fault_among, keyword_outcome, parse_field, parse_keyword,
    parse_symbol, parse_variant, symbol_outcome, symbol_reach, Node, Outcome, Parse,
    SemanticAnalyze, Split,
};
use crate::span::Span;
use crate::token::{span_at, Cursor, TokenView};
use vstd::prelude::*;

verus! {

/// The keyword `int`.
pub struct Int {
    span: Span,
}

impl DeepView for Int {
    type V = Span;

    closed spec fn deep_view(&self) -> Span {
        self.span
    }
}

impl Int {
    pub fn new(span: Span) -> (node: Self)
        ensures
            node.deep_view() == span,
    {
        Self { span }
    }
}

impl Parse for Int {
    open spec fn outcome(tokens: Seq<TokenView>, at: nat) -> Outcome<Span> {
        keyword_outcome(tokens, at, "int"@)
    }

    /// A keyword that is not there takes no token.
    fn parse(cursor: &mut Cursor) -> (r: Result<Self, Span>)
        ensures
            r is Err ==> final(cursor).at() == old(cursor).at(),
    {
        match parse_keyword(cursor, "int") {
            Ok(span) => Ok(Int::new(span)),
            Err(span) => Err(span),
        }
    }
}

impl Node for Int {
    open spec fn span_of(tree: Span) -> Span {
        tree
    }

    fn span(&self) -> (s: Span) {
        self.span
    }
}

impl SemanticAnalyze for Int {
    open spec fn verdict(&self) -> Result<(), Span> {
        Ok(())
    }

    fn semantic_analyze(&self) -> (r: Result<(), Span>) {
        Ok(())
    }
}

/// The symbol `==`.
pub struct Eq {
    span: Span,
}

impl DeepView for Eq {
    type V = Span;

    closed spec fn deep_view(&self) -> Span {
        self.span
    }
}

impl Eq {
    pub fn new(span: Span) -> (node: Self)
        ensures
            node.deep_view() == span,
    {
        Self { span }
    }
}

impl Parse for Eq {
    open spec fn outcome(tokens: Seq<TokenView>, at: nat) -> Outcome<Span> {
        symbol_outcome(tokens, at, "=="@, Span::end_mark())
    }

    /// Whether the symbol is there or not, the cursor stays behind the
    /// tokens that matched.
    fn parse(cursor: &mut Cursor) -> (r: Result<Self, Span>)
        ensures
            final(cursor).at() == symbol_reach(old(cursor).stream(), old(cursor).at(), "=="@),
    {
        match parse_symbol(cursor, "==") {
            Ok(span) => Ok(Eq::new(span)),
            Err(span) => Err(span),
        }
    }
}

impl Node for Eq {
    open spec fn span_of(tree: Span) -> Span {
        tree
    }

    fn span(&self) -> (s: Span) {
        self.span
    }
}

impl SemanticAnalyze for Eq {
    open spec fn verdict(&self) -> Result<(), Span> {
        Ok(())
    }

    fn semantic_analyze(&self) -> (r: Result<(), Span>) {
        Ok(())
    }
}

/// The symbol `,`.
pub struct Comma {
    span: Span,
}

impl DeepView for Comma {
    type V = Span;

    closed spec fn deep_view(&self) -> Span {
        self.span
    }
}

impl Comma {
    pub fn new(span: Span) -> (node: Self)
        ensures
            node.deep_view() == span,
    {
        Self { span }
    }
}

impl Parse for Comma {
    open spec fn outcome(tokens: Seq<TokenView>, at: nat) -> Outcome<Span> {
        symbol_outcome(tokens, at, ","@, Span::end_mark())
    }

    /// Whether the symbol is there or not, the cursor stays behind the
    /// tokens that matched.
    fn parse(cursor: &mut Cursor) -> (r: Result<Self, Span>)
        ensures
            final(cursor).at() == symbol_reach(old(cursor).stream(), old(cursor).at(), ","@),
    {
        match parse_symbol(cursor, ",") {
            Ok(span) => Ok(Comma::new(span)),
            Err(span) => Err(span),
        }
    }
}

impl Node for Comma {
    open spec fn span_of(tree: Span) -> Span {
        tree
    }

    fn span(&self) -> (s: Span) {
        self.span
    }
}

impl SemanticAnalyze for Comma {
    open spec fn verdict(&self) -> Result<(), Span> {
        Ok(())
    }

    fn semantic_analyze(&self) -> (r: Result<(), Span>) {
        Ok(())
    }
}

/// A sequence of `int` keywords has no fault.
proof fn lemma_keywords_have_no_fault(nodes: Seq<Int>)
    ensures
        first_fault_among(nodes) is Ok,
    decreases nodes.len(),
{
    if nodes.len() > 0 {
        lemma_keywords_have_no_fault(nodes.drop_first());
    }
}

/// A record of four fields and the span of them all.
pub struct A {
    a: Int,
    b: Eq,
    c: (Int, Eq),
    d: Split<Int, Eq>,
    span: Span,
}

impl DeepView for A {
    type V = (Span, Span, (Span, Span), Seq<Span>);

    closed spec fn deep_view(&self) -> Self::V {
        (self.a.deep_view(), self.b.deep_view(), self.c.deep_view(), self.d.deep_view())
    }
}

impl A {
    /// The stored span is the merge of the spans of the fields.
    #[verifier::type_invariant]
    spec fn inv(&self) -> bool {
        self.span == A::span_of(self.deep_view())
    }
}

impl Parse for A {
    /// The fields are read in the order in which they are declared; the first
    /// failure is the record's.
    open spec fn outcome(tokens: Seq<TokenView>, at: nat) -> Outcome<Self::V> {
        <(Int, Eq, (Int, Eq), Split<Int, Eq>)>::outcome(tokens, at)
    }

    fn parse(cursor: &mut Cursor) -> (r: Result<Self, Span>) {
        let mut span = Span::empty();
        let a = parse_field::<Int>(cursor, &mut span)?;
        let b = parse_field::<Eq>(cursor, &mut span)?;
        let c = parse_field::<(Int, Eq)>(cursor, &mut span)?;
        let d = parse_field::<Split<Int, Eq>>(cursor, &mut span)?;
        Ok(A { a, b, c, d, span })
    }
}

impl Node for A {
    /// The span of a record is the merge of the spans of its fields, in the
    /// order in which they are declared.
    open spec fn span_of(tree: Self::V) -> Span {
        Span::end_mark().merged(Int::span_of(tree.0)).merged(Eq::span_of(tree.1)).merged(
            <(Int, Eq)>::span_of(tree.2),
        ).merged(<Split<Int, Eq>>::span_of(tree.3))
    }

    fn span(&self) -> (s: Span) {
        proof {
            use_type_invariant(self);
        }
        self.span
    }
}

impl SemanticAnalyze for A {
    closed spec fn verdict(&self) -> Result<(), Span> {
        first_fault(
            self.a.verdict(),
            first_fault(self.b.verdict(), first_fault(self.c.verdict(), self.d.verdict())),
        )
    }

    /// No field of this record can be at fault.
    fn semantic_analyze(&self) -> (r: Result<(), Span>)
        ensures
            r is Ok,
    {
        proof {
            lemma_keywords_have_no_fault(self.d.items());
        }
        self.a.semantic_analyze()?;
        self.b.semantic_analyze()?;
        self.c.semantic_analyze()?;
        self.d.semantic_analyze()?;
        Ok(())
    }
}

/// A sum of three variants.
pub enum B {
    A(Int),
    B(Eq),
    C(Int, Eq),
}

/// The tree of a [`B`].
pub enum BView {
    A(Span),
    B(Span),
    C(Span, Span),
}

impl DeepView for B {
    type V = BView;

    open spec fn deep_view(&self) -> BView {
        match self {
            B::A(first) => BView::A(first.deep_view()),
            B::B(first) => BView::B(first.deep_view()),
            B::C(first, second) => BView::C(first.deep_view(), second.deep_view()),
        }
    }
}

impl Parse for B {
    /// The variants are tried in the order in which they are declared, each
    /// from the same place, and the first that can be read is taken. Where
    /// none can, the failure is the farthest of the cursor's span and the
    /// failures of the variants; of equal failures the earliest stays.
    open spec fn outcome(tokens: Seq<TokenView>, at: nat) -> Outcome<BView> {
        match Int::outcome(tokens, at) {
            Outcome::Parsed { tree, next } => Outcome::Parsed { tree: BView::A(tree), next },
            Outcome::Failed { span: first } => match Eq::outcome(tokens, at) {
                Outcome::Parsed { tree, next } => Outcome::Parsed { tree: BView::B(tree), next },
                Outcome::Failed { span: second } => match <(Int, Eq)>::outcome(tokens, at) {
                    Outcome::Parsed { tree, next } => Outcome::Parsed {
                        tree: BView::C(tree.0, tree.1),
                        next,
                    },
                    Outcome::Failed { span: third } => Outcome::Failed {
                        span: farther(farther(farther(span_at(tokens, at), first), second), third),
                    },
                },
            },
        }
    }

    fn parse(cursor: &mut Cursor) -> (r: Result<Self, Span>) {
        let mut span = cursor.span();
        if let Some(first) = parse_variant::<Int>(cursor, &mut span) {
            return Ok(B::A(first));
        }
        if let Some(first) = parse_variant::<Eq>(cursor, &mut span) {
            return Ok(B::B(first));
        }
        if let Some((first, second)) = parse_variant::<(Int, Eq)>(cursor, &mut span) {
            return Ok(B::C(first, second));
        }
        Err(span)
    }
}

impl Node for B {
    /// The span of a variant is the merge of the spans of what it holds.
    open spec fn span_of(tree: BView) -> Span {
        match tree {
            BView::A(first) => Span::end_mark().merged(Int::span_of(first)),
            BView::B(first) => Span::end_mark().merged(Eq::span_of(first)),
            BView::C(first, second) => Span::end_mark().merged(Int::span_of(first)).merged(
                Eq::span_of(second),
            ),
        }
    }

    fn span(&self) -> (s: Span) {
        let mut span = Span::empty();
        match self {
            B::A(first) => {
                span = span.merge(&first.span());
            },
            B::B(first) => {
                span = span.merge(&first.span());
            },
            B::C(first, second) => {
                span = span.merge(&first.span());
                span = span.merge(&second.span());
            },
        }
        span
    }
}

impl SemanticAnalyze for B {
    open spec fn verdict(&self) -> Result<(), Span> {
        match self {
            B::A(first) => first.verdict(),
            B::B(first) => first.verdict(),
            B::C(first, second) => first_fault(first.verdict(), second.verdict()),
        }
    }

    fn semantic_analyze(&self) -> (r: Result<(), Span>) {
        match self {
            B::A(first) => {
                first.semantic_analyze()?;
            },
            B::B(first) => {
                first.semantic_analyze()?;
            },
            B::C(first, second) => {
                first.semantic_analyze()?;
                second.semantic_analyze()?;
            },
        }
        Ok(())
    }
}

/// Where no variant of [`B`] can be read, the failure of `B` lies at or after
/// the span at which the cursor stood, and at or after the failure of every
/// variant.
pub proof fn lemma_sum_failure_is_farthest(tokens: Seq<TokenView>, at: nat)
    ensures
        B::outcome(tokens, at) matches Outcome::Failed { span } ==> {
            &&& !span.before(span_at(tokens, at))
            &&& Int::outcome(tokens, at) matches Outcome::Failed { span: first } && !span.before(
                first,
            )
            &&& Eq::outcome(tokens, at) matches Outcome::Failed { span: second } && !span.before(
                second,
            )
            &&& <(Int, Eq)>::outcome(tokens, at) matches Outcome::Failed { span: third }
                && !span.before(third)
        },
{
}

} // verus!
