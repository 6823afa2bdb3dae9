use helion::lexer::{LexError, Lexer};
use helion::token::TokenKind;

#[test]
fn basic_punct() {
    let mut lx = Lexer::new("(){}+");
    assert_eq!(lx.next_token().unwrap().kind, TokenKind::LParen);
    assert_eq!(lx.next_token().unwrap().kind, TokenKind::RParen);
    assert_eq!(lx.next_token().unwrap().kind, TokenKind::LBrace);
    assert_eq!(lx.next_token().unwrap().kind, TokenKind::RBrace);
    assert_eq!(lx.next_token().unwrap().kind, TokenKind::Plus);
}

#[test]
fn all_operators_and_eof() {
    let mut lx = Lexer::new("-*/");
    assert_eq!(lx.next_token().unwrap().kind, TokenKind::Minus);
    assert_eq!(lx.next_token().unwrap().kind, TokenKind::Star);
    assert_eq!(lx.next_token().unwrap().kind, TokenKind::Slash);
    assert_eq!(lx.next_token().unwrap().kind, TokenKind::Eof);
}

#[test]
fn token_position_is_after_its_character() {
    let mut lx = Lexer::new("(\n  )");
    let a = lx.next_token().unwrap();
    assert_eq!((a.kind, a.line, a.column), (TokenKind::LParen, 1, 2));
    let b = lx.next_token().unwrap();
    assert_eq!((b.kind, b.line, b.column), (TokenKind::RParen, 2, 4));
    let c = lx.next_token().unwrap();
    assert_eq!((c.kind, c.line, c.column), (TokenKind::Eof, 2, 4));
}

#[test]
fn whitespace_is_skipped() {
    let mut lx = Lexer::new(" \t\r\n+");
    let t = lx.next_token().unwrap();
    assert_eq!((t.kind, t.line, t.column), (TokenKind::Plus, 2, 2));
}

#[test]
fn eof_repeats() {
    let mut lx = Lexer::new("  ");
    let a = lx.next_token().unwrap();
    let b = lx.next_token().unwrap();
    assert_eq!((a.kind, a.line, a.column), (TokenKind::Eof, 1, 3));
    assert_eq!((b.kind, b.line, b.column), (TokenKind::Eof, 1, 3));
}

#[test]
fn empty_input_gives_eof() {
    let mut lx = Lexer::new("");
    let t = lx.next_token().unwrap();
    assert_eq!((t.kind, t.line, t.column), (TokenKind::Eof, 1, 1));
}

#[test]
fn unexpected_char_is_reported_and_repeats() {
    let mut lx = Lexer::new(" + x");
    assert_eq!(lx.next_token().unwrap().kind, TokenKind::Plus);
    let e = lx.next_token().unwrap_err();
    assert_eq!(e, LexError::UnexpectedChar { ch: 'x', line: 1, column: 4 });
    assert_eq!(lx.next_token().unwrap_err(), e);
}

#[test]
fn byte_order_marks_are_skipped() {
    let mut lx = Lexer::new("\u{feff}\u{feff}+");
    let t = lx.next_token().unwrap();
    assert_eq!((t.kind, t.line, t.column), (TokenKind::Plus, 1, 2));
}

#[test]
fn byte_order_mark_inside_is_an_error() {
    let mut lx = Lexer::new("+\u{feff}");
    assert_eq!(lx.next_token().unwrap().kind, TokenKind::Plus);
    assert_eq!(
        lx.next_token().unwrap_err(),
        LexError::UnexpectedChar { ch: '\u{feff}', line: 1, column: 2 }
    );
}

#[test]
fn peek_does_not_consume() {
    let mut lx = Lexer::new(" ) (");
    let p = lx.peek_token().unwrap();
    let n = lx.next_token().unwrap();
    assert_eq!((p.kind, p.line, p.column), (TokenKind::RParen, 1, 3));
    assert_eq!((n.kind, n.line, n.column), (TokenKind::RParen, 1, 3));
    assert_eq!(lx.peek_token().unwrap().kind, TokenKind::LParen);
    assert_eq!(lx.next_token().unwrap().kind, TokenKind::LParen);
}

#[test]
fn non_ascii_column_counts_characters() {
    let mut lx = Lexer::new("é");
    assert_eq!(
        lx.next_token().unwrap_err(),
        LexError::UnexpectedChar { ch: 'é', line: 1, column: 1 }
    );
}

#[test]
fn tokens_depend_only_on_the_unread_text() {
    let mut a = Lexer::new("+ (");
    let mut b = Lexer::new("\u{feff}+ (");
    for _ in 0..3 {
        let x = a.next_token().unwrap();
        let y = b.next_token().unwrap();
        assert_eq!((x.kind, x.line, x.column), (y.kind, y.line, y.column));
    }
}

#[test]
fn line_counts_newlines_and_column_restarts_after_each() {
    let mut lx = Lexer::new("+\n\n  -\n*");
    let a = lx.next_token().unwrap();
    assert_eq!((a.kind, a.line, a.column), (TokenKind::Plus, 1, 2));
    let b = lx.next_token().unwrap();
    assert_eq!((b.kind, b.line, b.column), (TokenKind::Minus, 3, 4));
    let c = lx.next_token().unwrap();
    assert_eq!((c.kind, c.line, c.column), (TokenKind::Star, 4, 2));
}

#[test]
fn position_after_marks_counts_from_one() {
    let mut lx = Lexer::new("\u{feff}\u{feff}\n(");
    let t = lx.next_token().unwrap();
    assert_eq!((t.kind, t.line, t.column), (TokenKind::LParen, 2, 2));
}
