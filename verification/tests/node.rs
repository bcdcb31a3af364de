use cfront::node::defs::{parse_field, parse_keyword, parse_symbol, parse_variant, Node, Parse, SemanticAnalyze, Split};
use cfront::node::{self, Comma, Int, A, B};
use cfront::span::{Pos, Span};

fn on_line_0(from: usize, to: usize) -> Span {
    Span::new(Pos::new(0, from), Pos::new(0, to))
}

#[test]
fn test_define() {
    let code = "int ==";
    let tokens = cfront::lex(code.to_owned());
    let mut cursor = tokens.cursor();
    assert!(Int::parse(&mut cursor).is_ok());
    assert!(Int::parse(&mut cursor).is_err());
    assert!(node::Eq::parse(&mut cursor).is_ok());
    cursor = tokens.cursor();
    assert!(<Int as Parse>::parse(&mut cursor).is_ok());
}

#[test]
fn a_record_of_keyword_and_symbol() {
    let tokens = cfront::lex("int ==".to_owned());
    let mut cursor = tokens.cursor();
    let mut span = Span::empty();
    let a: Int = parse_field(&mut cursor, &mut span).ok().unwrap();
    let b: node::Eq = parse_field(&mut cursor, &mut span).ok().unwrap();
    assert_eq!(span, on_line_0(0, 5));
    assert_eq!(a.span().merge(&b.span()), span);
    assert_eq!(cursor.peek(), None);

    let mut cursor = tokens.cursor();
    let pair = <(Int, node::Eq)>::parse(&mut cursor).ok().unwrap();
    assert_eq!(pair.span(), on_line_0(0, 5));
}

#[test]
fn a_record_fails_where_its_first_field_fails() {
    let tokens = cfront::lex("== int".to_owned());
    let mut cursor = tokens.cursor();
    let mut span = Span::empty();
    let a: Result<Int, Span> = parse_field(&mut cursor, &mut span);
    assert_eq!(a.err(), Some(on_line_0(0, 0)));
    assert_eq!(span, Span::empty());

    let mut cursor = tokens.cursor();
    assert_eq!(<(Int, node::Eq)>::parse(&mut cursor).err(), Some(on_line_0(0, 0)));
}

#[test]
fn a_sequence_of_keywords() {
    let tokens = cfront::lex("int int int".to_owned());
    let mut cursor = tokens.cursor();
    let nodes = Vec::<Int>::parse(&mut cursor).ok().unwrap();
    assert_eq!(nodes.len(), 3);
    assert_eq!(cursor.peek(), None);
    assert_eq!(nodes.span(), on_line_0(0, 10));
    assert_eq!(nodes[1].span(), on_line_0(4, 6));
    let more = Vec::<Int>::parse(&mut cursor).ok().unwrap();
    assert_eq!(more.len(), 0);
    assert_eq!(more.span(), Span::empty());
}

#[test]
fn a_sequence_stops_at_the_first_failure() {
    let tokens = cfront::lex("int int == int".to_owned());
    let mut cursor = tokens.cursor();
    let nodes = Vec::<Int>::parse(&mut cursor).ok().unwrap();
    assert_eq!(nodes.len(), 2);
    assert_eq!(cursor.peek(), tokens.get(2));
    let mut cursor = tokens.cursor();
    let nodes = Vec::<node::Eq>::parse(&mut cursor).ok().unwrap();
    assert_eq!(nodes.len(), 0);
    assert_eq!(cursor.peek(), tokens.get(0));
}

#[test]
fn a_sequence_leaves_half_a_symbol_unread() {
    let tokens = cfront::lex("== == = int".to_owned());
    let mut cursor = tokens.cursor();
    let nodes = Vec::<node::Eq>::parse(&mut cursor).ok().unwrap();
    assert_eq!(nodes.len(), 2);
    assert_eq!(cursor.peek(), tokens.get(4));
    assert_eq!(cursor.span(), on_line_0(6, 6));
}

#[test]
fn a_separated_sequence() {
    let tokens = cfront::lex("int, int, int".to_owned());
    let mut cursor = tokens.cursor();
    let nodes = Split::<Int, Comma>::parse(&mut cursor).ok().unwrap();
    assert_eq!(nodes.len(), 3);
    assert_eq!(cursor.peek(), None);
    assert_eq!(nodes.span(), on_line_0(0, 12));
    assert!(nodes.semantic_analyze().is_ok());
}

#[test]
fn a_separated_sequence_may_be_empty() {
    let tokens = cfront::lex(", int".to_owned());
    let mut cursor = tokens.cursor();
    let nodes = Split::<Int, Comma>::parse(&mut cursor).ok().unwrap();
    assert_eq!(nodes.len(), 0);
    assert_eq!(cursor.peek(), tokens.get(0));
    assert_eq!(nodes.span(), Span::empty());
}

#[test]
fn a_separated_sequence_ends_before_what_is_no_separator() {
    let tokens = cfront::lex("int, int == int".to_owned());
    let mut cursor = tokens.cursor();
    let nodes = Split::<Int, Comma>::parse(&mut cursor).ok().unwrap();
    assert_eq!(nodes.len(), 2);
    assert_eq!(cursor.peek(), tokens.get(3));
}

#[test]
fn a_separator_with_nothing_behind_it_is_left_unread() {
    let tokens = cfront::lex("int,".to_owned());
    let mut cursor = tokens.cursor();
    let nodes = Split::<Int, Comma>::parse(&mut cursor).ok().unwrap();
    assert_eq!(nodes.len(), 1);
    assert_eq!(nodes.span(), on_line_0(0, 2));
    assert_eq!(cursor.peek(), tokens.get(1));

    let tokens = cfront::lex("int, int,".to_owned());
    let mut cursor = tokens.cursor();
    let nodes = Split::<Int, Comma>::parse(&mut cursor).ok().unwrap();
    assert_eq!(nodes.len(), 2);
    assert_eq!(nodes.span(), on_line_0(0, 7));
    assert_eq!(cursor.peek(), tokens.get(3));

    let tokens = cfront::lex("int, ==".to_owned());
    let mut cursor = tokens.cursor();
    let nodes = Split::<Int, Comma>::parse(&mut cursor).ok().unwrap();
    assert_eq!(nodes.len(), 1);
    assert_eq!(cursor.peek(), tokens.get(1));
}

#[test]
fn a_repetition_of_what_takes_no_token_comes_to_an_end() {
    let tokens = cfront::lex("int int ==".to_owned());
    let mut cursor = tokens.cursor();
    let nodes = Vec::<Vec<Int>>::parse(&mut cursor).ok().unwrap();
    assert_eq!(nodes.len(), 1);
    assert_eq!(nodes[0].len(), 2);
    assert_eq!(cursor.peek(), tokens.get(2));
    let nodes = Vec::<Vec<Int>>::parse(&mut cursor).ok().unwrap();
    assert_eq!(nodes.len(), 0);
    assert_eq!(cursor.peek(), tokens.get(2));
    let nodes = Vec::<Option<Vec<Comma>>>::parse(&mut cursor).ok().unwrap();
    assert_eq!(nodes.len(), 0);
    let nodes = Split::<Vec<Int>, Vec<Comma>>::parse(&mut cursor).ok().unwrap();
    assert_eq!(nodes.len(), 1);
    assert_eq!(cursor.peek(), tokens.get(2));
}

#[test]
fn a_sum_takes_the_first_variant_that_parses() {
    let tokens = cfront::lex("== int".to_owned());
    let mut cursor = tokens.cursor();
    let node = B::parse(&mut cursor).ok().unwrap();
    assert!(matches!(node, B::B(_)));
    assert_eq!(node.span(), on_line_0(0, 1));
    assert_eq!(cursor.peek(), tokens.get(2));
    let node = B::parse(&mut cursor).ok().unwrap();
    assert!(matches!(node, B::A(_)));
    assert_eq!(node.span(), on_line_0(3, 5));
    assert_eq!(cursor.peek(), None);
    assert!(node.semantic_analyze().is_ok());
}

#[test]
fn a_sum_never_reaches_a_variant_behind_one_that_starts_alike() {
    let tokens = cfront::lex("int ==".to_owned());
    let mut cursor = tokens.cursor();
    let node = B::parse(&mut cursor).ok().unwrap();
    assert!(matches!(node, B::A(_)));
    assert_eq!(cursor.peek(), tokens.get(1));
}

#[test]
fn a_sum_that_fails_reports_the_farthest_failure() {
    let tokens = cfront::lex("12 int".to_owned());
    let mut cursor = tokens.cursor();
    assert_eq!(B::parse(&mut cursor).err(), Some(on_line_0(0, 1)));
    let tokens = cfront::lex("= int".to_owned());
    let mut cursor = tokens.cursor();
    assert_eq!(B::parse(&mut cursor).err(), Some(on_line_0(2, 4)));
    let tokens = cfront::lex(String::new());
    let mut cursor = tokens.cursor();
    assert_eq!(B::parse(&mut cursor).err(), Some(Span::eof()));
}

#[test]
fn a_variant_that_fails_leaves_the_cursor_and_moves_the_farthest_failure() {
    let tokens = cfront::lex("int int == 5".to_owned());
    let mut cursor = tokens.cursor();
    cursor.next();
    let mut farthest = cursor.span();
    assert_eq!(farthest, on_line_0(4, 6));

    let r: Option<node::Eq> = parse_variant(&mut cursor, &mut farthest);
    assert!(r.is_none());
    assert_eq!(cursor.peek(), tokens.get(1));
    assert_eq!(farthest, on_line_0(4, 6));

    let r: Option<(Int, node::Eq, Int)> = parse_variant(&mut cursor, &mut farthest);
    assert!(r.is_none());
    assert_eq!(cursor.peek(), tokens.get(1));
    assert_eq!(farthest, on_line_0(11, 11));

    let r: Option<(Int, Int)> = parse_variant(&mut cursor, &mut farthest);
    assert!(r.is_none());
    assert_eq!(cursor.peek(), tokens.get(1));
    assert_eq!(farthest, on_line_0(11, 11));

    let r: Option<(Int, node::Eq)> = parse_variant(&mut cursor, &mut farthest);
    assert!(r.is_some());
    assert_eq!(cursor.peek(), tokens.get(4));
    assert_eq!(farthest, on_line_0(11, 11));
}

#[test]
fn a_record_of_four_fields() {
    let tokens = cfront::lex("int == int == int == int int".to_owned());
    let mut cursor = tokens.cursor();
    let node = A::parse(&mut cursor).ok().unwrap();
    assert_eq!(node.span(), on_line_0(0, 23));
    assert_eq!(cursor.peek(), tokens.get(10));
    assert!(node.semantic_analyze().is_ok());

    let tokens = cfront::lex("int == int ==".to_owned());
    let mut cursor = tokens.cursor();
    let node = A::parse(&mut cursor).ok().unwrap();
    assert_eq!(node.span(), on_line_0(0, 12));
    assert_eq!(cursor.peek(), None);
}

#[test]
fn a_record_fails_with_the_failure_of_a_field() {
    let tokens = cfront::lex("int == int".to_owned());
    let mut cursor = tokens.cursor();
    assert_eq!(A::parse(&mut cursor).err(), Some(Span::eof()));
    let tokens = cfront::lex("int = int".to_owned());
    let mut cursor = tokens.cursor();
    assert_eq!(A::parse(&mut cursor).err(), Some(on_line_0(6, 8)));
    let tokens = cfront::lex("int = = 7 ==".to_owned());
    let mut cursor = tokens.cursor();
    assert_eq!(A::parse(&mut cursor).err(), Some(on_line_0(8, 8)));
}

#[test]
fn a_record_ends_before_a_separator_with_nothing_behind_it() {
    let tokens = cfront::lex("int == int == int ==".to_owned());
    let mut cursor = tokens.cursor();
    let node = A::parse(&mut cursor).ok().unwrap();
    assert_eq!(node.span(), on_line_0(0, 16));
    assert_eq!(cursor.peek(), tokens.get(7));
}

#[test]
fn an_option_is_what_it_holds() {
    let tokens = cfront::lex("int ==".to_owned());
    let mut cursor = tokens.cursor();
    let node = Option::<Int>::parse(&mut cursor).ok().unwrap();
    assert!(node.is_some());
    assert_eq!(node.span(), on_line_0(0, 2));
    assert!(node.semantic_analyze().is_ok());
    assert_eq!(Option::<Int>::parse(&mut cursor).err(), Some(on_line_0(4, 4)));
    let none: Option<Int> = None;
    assert_eq!(none.span(), Span::empty());
    assert!(none.semantic_analyze().is_ok());
}

#[test]
fn a_box_is_what_it_holds() {
    let tokens = cfront::lex("int ==".to_owned());
    let mut cursor = tokens.cursor();
    let node = Box::<Int>::parse(&mut cursor).ok().unwrap();
    assert_eq!(node.span(), on_line_0(0, 2));
    assert!(node.semantic_analyze().is_ok());
    assert_eq!(Box::<Int>::parse(&mut cursor).err(), Some(on_line_0(4, 4)));
}

#[test]
fn tuples_read_their_parts_in_order() {
    let tokens = cfront::lex("int == , int ,".to_owned());
    let mut cursor = tokens.cursor();
    let node = <(Int, node::Eq, Comma)>::parse(&mut cursor).ok().unwrap();
    assert_eq!(node.span(), on_line_0(0, 7));
    assert!(node.semantic_analyze().is_ok());
    let mut cursor = tokens.cursor();
    let node = <(Int, node::Eq, Comma, Int)>::parse(&mut cursor).ok().unwrap();
    assert_eq!(node.span(), on_line_0(0, 11));
    assert!(node.semantic_analyze().is_ok());
    let mut cursor = tokens.cursor();
    let node = <(Int, node::Eq, Comma, Int, Comma)>::parse(&mut cursor).ok().unwrap();
    assert_eq!(node.span(), on_line_0(0, 13));
    assert!(node.semantic_analyze().is_ok());
    assert_eq!(cursor.peek(), None);
    let mut cursor = tokens.cursor();
    assert_eq!(<(Int, node::Eq, Comma, Int, Int)>::parse(&mut cursor).err(), Some(on_line_0(13, 13)));
    let mut cursor = tokens.cursor();
    assert_eq!(<(Int, Comma, Comma)>::parse(&mut cursor).err(), Some(on_line_0(4, 4)));
    let mut cursor = tokens.cursor();
    assert_eq!(<(Int, node::Eq, Int, Int)>::parse(&mut cursor).err(), Some(on_line_0(7, 7)));
}

#[test]
fn a_keyword_is_a_name_with_the_same_text() {
    let tokens = cfront::lex("inte in int0 Int int".to_owned());
    let mut cursor = tokens.cursor();
    for i in 0..4 {
        assert_eq!(parse_keyword(&mut cursor, "int").err(), Some(cursor.span()));
        assert_eq!(cursor.peek(), tokens.get(i));
        cursor.next();
    }
    assert_eq!(parse_keyword(&mut cursor, "int"), Ok(on_line_0(17, 19)));
    assert_eq!(cursor.peek(), None);
    assert_eq!(parse_keyword(&mut cursor, "int"), Err(Span::eof()));
}

#[test]
fn a_symbol_is_a_run_of_punctuation() {
    let tokens = cfront::lex("= = ==".to_owned());
    let mut cursor = tokens.cursor();
    assert_eq!(parse_symbol(&mut cursor, "=="), Ok(on_line_0(0, 2)));
    assert_eq!(parse_symbol(&mut cursor, "==="), Err(Span::eof()));
    assert_eq!(cursor.peek(), None);

    let tokens = cfront::lex("=+".to_owned());
    let mut cursor = tokens.cursor();
    assert_eq!(parse_symbol(&mut cursor, "=="), Err(on_line_0(1, 1)));
    assert_eq!(cursor.peek(), tokens.get(1));
    assert_eq!(parse_symbol(&mut cursor, ""), Ok(Span::empty()));
    assert_eq!(cursor.peek(), tokens.get(1));
    assert_eq!(parse_symbol(&mut cursor, "+"), Ok(on_line_0(1, 1)));
}

#[test]
fn atoms_keep_the_span_they_are_given() {
    let span = on_line_0(3, 9);
    assert_eq!(Int::new(span).span(), span);
    assert_eq!(node::Eq::new(span).span(), span);
    assert_eq!(Comma::new(span).span(), span);
    assert!(Int::new(span).semantic_analyze().is_ok());
    assert!(node::Eq::new(span).semantic_analyze().is_ok());
    assert!(Comma::new(span).semantic_analyze().is_ok());
}
