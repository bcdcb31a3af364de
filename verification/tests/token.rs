use cfront::span::{Pos, Span};
use cfront::token::{CharSeq, Token, TokenKind, Tokens};

fn on_line_0(from: usize, to: usize) -> Span {
    Span::new(Pos::new(0, from), Pos::new(0, to))
}

#[test]
fn lex_reads_names_numbers_and_punctuation() {
    let tokens = cfront::lex("int ab2 = 12 23;".to_owned());
    assert_eq!(tokens.len(), 6);
    let expected = [
        (TokenKind::Ident("int".to_owned()), 0, 2),
        (TokenKind::Ident("ab2".to_owned()), 4, 6),
        (TokenKind::Punct(b'='), 8, 8),
        (TokenKind::Lit(12), 10, 11),
        (TokenKind::Lit(23), 13, 14),
        (TokenKind::Punct(b';'), 15, 15),
    ];
    for (i, (kind, from, to)) in expected.iter().enumerate() {
        let token = tokens.get(i).unwrap();
        assert_eq!(&token.token, kind);
        assert_eq!(token.span, on_line_0(*from, *to));
    }
    assert!(tokens.get(6).is_none());
}

#[test]
fn char_seq_gives_every_character_its_place() {
    let chars = CharSeq::new("a\tb\nc");
    assert_eq!(chars.len(), 5);
    let at = |line, col| Span::new(Pos::new(line, col), Pos::new(line, col));
    assert_eq!(chars.get(0), Some(('a', at(0, 0))));
    assert_eq!(chars.get(1), Some(('\t', at(0, 1))));
    assert_eq!(chars.get(2), Some(('b', at(0, 4))));
    assert_eq!(chars.get(3), Some(('\n', at(0, 5))));
    assert_eq!(chars.get(4), Some(('c', at(1, 0))));
    assert_eq!(chars.get(5), None);
}

#[test]
fn lex_of_nothing_is_nothing() {
    assert_eq!(cfront::lex(String::new()).len(), 0);
    assert_eq!(cfront::lex(" \t\r\n  ".to_owned()).len(), 0);
}

#[test]
fn lex_flushes_what_is_pending_at_the_end() {
    let tokens = cfront::lex("x 42".to_owned());
    assert_eq!(tokens.len(), 2);
    assert_eq!(tokens.get(1).unwrap().token, TokenKind::Lit(42));
    let tokens = cfront::lex("42 x".to_owned());
    assert_eq!(tokens.get(1).unwrap().token, TokenKind::Ident("x".to_owned()));
    assert_eq!(tokens.get(1).unwrap().span, on_line_0(3, 3));
}

#[test]
fn a_letter_after_digits_starts_a_name() {
    let tokens = cfront::lex("12ab3_c".to_owned());
    assert_eq!(tokens.len(), 2);
    assert_eq!(tokens.get(0).unwrap().token, TokenKind::Lit(12));
    assert_eq!(tokens.get(0).unwrap().span, on_line_0(0, 1));
    assert_eq!(tokens.get(1).unwrap().token, TokenKind::Ident("ab3_c".to_owned()));
    assert_eq!(tokens.get(1).unwrap().span, on_line_0(2, 6));
}

#[test]
fn an_underscore_starts_a_name() {
    let tokens = cfront::lex("_a1".to_owned());
    assert_eq!(tokens.len(), 1);
    assert_eq!(tokens.get(0).unwrap().token, TokenKind::Ident("_a1".to_owned()));
}

#[test]
fn punctuation_ends_what_is_pending() {
    let tokens = cfront::lex("a+1==b".to_owned());
    let kinds: Vec<TokenKind> = (0..tokens.len()).map(|i| tokens.get(i).unwrap().token.clone()).collect();
    assert_eq!(
        kinds,
        vec![
            TokenKind::Ident("a".to_owned()),
            TokenKind::Punct(b'+'),
            TokenKind::Lit(1),
            TokenKind::Punct(b'='),
            TokenKind::Punct(b'='),
            TokenKind::Ident("b".to_owned()),
        ]
    );
}

#[test]
fn a_tab_moves_the_next_token_to_a_tab_stop() {
    let tokens = cfront::lex("a\tbc\n\td".to_owned());
    assert_eq!(tokens.len(), 3);
    assert_eq!(tokens.get(0).unwrap().span, on_line_0(0, 0));
    assert_eq!(tokens.get(1).unwrap().span, on_line_0(4, 5));
    assert_eq!(tokens.get(2).unwrap().span, Span::new(Pos::new(1, 4), Pos::new(1, 4)));
}

#[test]
fn a_number_wraps_at_the_bounds_of_i32() {
    let tokens = cfront::lex("2147483647 2147483648 4294967296 4294967301".to_owned());
    assert_eq!(tokens.get(0).unwrap().token, TokenKind::Lit(i32::MAX));
    assert_eq!(tokens.get(1).unwrap().token, TokenKind::Lit(i32::MIN));
    assert_eq!(tokens.get(2).unwrap().token, TokenKind::Lit(0));
    assert_eq!(tokens.get(3).unwrap().token, TokenKind::Lit(5));
}

#[test]
fn a_character_outside_ascii_is_punctuation_of_its_first_byte() {
    let tokens = cfront::lex("\u{e9}".to_owned());
    assert_eq!(tokens.len(), 1);
    assert_eq!(tokens.get(0).unwrap().token, TokenKind::Punct(0xc3));
    assert_eq!(tokens.get(0).unwrap().span, on_line_0(0, 0));
    let tokens = cfront::lex("a\u{e9}\u{4e2d}".to_owned());
    assert_eq!(tokens.len(), 3);
    assert_eq!(tokens.get(1).unwrap().token, TokenKind::Punct(0xc3));
    assert_eq!(tokens.get(2).unwrap().token, TokenKind::Punct(0xe4));
    assert_eq!(tokens.get(2).unwrap().span, on_line_0(2, 2));
}

#[test]
fn punctuation_holds_the_first_byte_of_the_encoding() {
    for c in ['\u{0}', '!', '\u{7f}', '\u{80}', '\u{7ff}', '\u{800}', '\u{d7ff}', '\u{e000}', '\u{ffff}', '\u{10000}', '\u{10ffff}'] {
        let tokens = cfront::lex(c.to_string());
        assert_eq!(tokens.len(), 1);
        let mut bytes = [0u8; 4];
        c.encode_utf8(&mut bytes);
        assert_eq!(tokens.get(0).unwrap().token, TokenKind::Punct(bytes[0]));
    }
}

#[test]
fn the_line_of_a_character_is_the_number_of_newlines_before_it() {
    let text = "a\tb\n\n\tint x;\r\nlast\t.";
    let chars = CharSeq::new(text);
    let all: Vec<char> = text.chars().collect();
    for i in 0..chars.len() {
        let (c, span) = chars.get(i).unwrap();
        assert_eq!(c, all[i]);
        assert_eq!(span.start, span.end);
        assert_eq!(span.start.line, all[..i].iter().filter(|c| **c == '\n').count());
        if i > 0 && all[i - 1] == '\t' {
            assert_eq!(span.start.col % 4, 0);
        }
    }
}

#[test]
fn token_spans_rise_and_none_is_the_end_mark() {
    let tokens = cfront::lex("int main() {\n\treturn 12+x1;\r\n}\n".to_owned());
    assert_eq!(tokens.len(), 11);
    for i in 0..tokens.len() {
        let span = tokens.get(i).unwrap().span;
        assert!(!span.is_eof());
        assert!(span.start <= span.end);
        if i + 1 < tokens.len() {
            let next = tokens.get(i + 1).unwrap().span;
            assert!(span.end < next.start);
            assert!(span <= next);
        }
    }
}

#[test]
fn cursor_peeks_reads_and_looks_ahead() {
    let tokens = cfront::lex("a b c".to_owned());
    let mut cursor = tokens.cursor();
    assert_eq!(cursor.peek(), tokens.get(0));
    assert_eq!(cursor.get(0), tokens.get(0));
    assert_eq!(cursor.get(2), tokens.get(2));
    assert_eq!(cursor.get(3), None);
    assert_eq!(cursor.get(usize::MAX), None);
    assert_eq!(cursor.span(), on_line_0(0, 0));
    assert_eq!(cursor.index(), 0);
    assert_eq!(cursor.next(), tokens.get(0));
    assert_eq!(cursor.index(), 1);
    assert_eq!(cursor.peek(), tokens.get(1));
    assert_eq!(cursor.get(1), tokens.get(2));
    assert_eq!(cursor.span(), on_line_0(2, 2));
    assert_eq!(cursor.next(), tokens.get(1));
    assert_eq!(cursor.next(), tokens.get(2));
    assert_eq!(cursor.peek(), None);
    assert_eq!(cursor.next(), None);
    assert_eq!(cursor.next(), None);
    assert_eq!(cursor.get(0), None);
    assert_eq!(cursor.span(), Span::eof());
}

#[test]
fn a_copy_of_a_cursor_reads_on_by_itself() {
    let tokens = cfront::lex("a b".to_owned());
    let mut cursor = tokens.cursor();
    let mut copy = cursor;
    copy.next();
    copy.next();
    assert_eq!(copy.peek(), None);
    assert_eq!(cursor.peek(), tokens.get(0));
    cursor.next();
    assert_eq!(cursor.peek(), tokens.get(1));
}

#[test]
fn tokens_can_be_given_directly() {
    let span = on_line_0(0, 0);
    let tokens = Tokens::new(vec![
        Token { token: TokenKind::Lit(7), span },
        Token { token: TokenKind::Punct(b'!'), span: on_line_0(1, 1) },
    ]);
    assert_eq!(tokens.len(), 2);
    assert_eq!(tokens.get(0), Some(&Token { token: TokenKind::Lit(7), span }));
    let mut cursor = tokens.cursor();
    cursor.next();
    assert_eq!(cursor.span(), on_line_0(1, 1));
}
