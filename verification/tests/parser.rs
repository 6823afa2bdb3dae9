use helion::ast::{BinaryOp, Expr, Stmt};
use helion::lexer::LexError;
use helion::parser::{ParseError, Parser};
use helion::token::TokenKind;

fn program_debug(src: &str) -> String {
    let mut p = Parser::new(src).unwrap();
    format!("{:?}", p.parse_program().unwrap().stmts)
}

#[test]
fn empty_program_has_no_statements() {
    let mut p = Parser::new("").unwrap();
    assert_eq!(p.parse_program().unwrap().stmts.len(), 0);
}

#[test]
fn new_reports_lexer_error_on_first_token() {
    match Parser::new("  fn") {
        Err(ParseError::Lex(e)) => {
            assert_eq!(e, LexError::UnexpectedChar { ch: 'f', line: 1, column: 3 })
        }
        other => panic!("unexpected result {:?}", other.is_ok()),
    }
}

#[test]
fn empty_block_statement() {
    let mut p = Parser::new("{}").unwrap();
    let prog = p.parse_program().unwrap();
    assert_eq!(prog.stmts.len(), 1);
    match &prog.stmts[0] {
        Stmt::Block { stmts } => assert_eq!(stmts.len(), 0),
        other => panic!("not a block: {:?}", other),
    }
}

#[test]
fn nested_blocks() {
    assert_eq!(
        program_debug("{ {} } {}"),
        "[Block { stmts: [Block { stmts: [] }] }, Block { stmts: [] }]"
    );
}

#[test]
fn unary_minus_on_object_literal() {
    let mut p = Parser::new("-{}").unwrap();
    let prog = p.parse_program().unwrap();
    match &prog.stmts[0] {
        Stmt::ExprStmt { expr: Expr::UnaryMinus(inner) } => match &**inner {
            Expr::Object(fields) => assert!(fields.is_empty()),
            other => panic!("not an object: {:?}", other),
        },
        other => panic!("not a negation: {:?}", other),
    }
}

#[test]
fn precedence_of_star_over_plus() {
    let mut p = Parser::new("({}) + {} * {}").unwrap();
    let e = p.parse_expr().unwrap();
    match e {
        Expr::Binary { left, op: BinaryOp::Plus, right } => {
            assert!(matches!(*left, Expr::Object(_)));
            assert!(matches!(*right, Expr::Binary { op: BinaryOp::Star, .. }));
        }
        other => panic!("unexpected {:?}", other),
    }
}

#[test]
fn operators_associate_to_the_left() {
    let mut p = Parser::new("{} - {} - {}").unwrap();
    let e = p.parse_expr().unwrap();
    match e {
        Expr::Binary { left, op: BinaryOp::Minus, right } => {
            assert!(matches!(*left, Expr::Binary { op: BinaryOp::Minus, .. }));
            assert!(matches!(*right, Expr::Object(_)));
        }
        other => panic!("unexpected {:?}", other),
    }
}

#[test]
fn slash_and_parenthesized_expression() {
    assert_eq!(
        program_debug("({} / ({}))"),
        "[ExprStmt { expr: Binary { left: Object([]), op: Slash, right: Object([]) } }]"
    );
}

#[test]
fn unclosed_paren_is_unexpected_eof() {
    let mut p = Parser::new("(").unwrap();
    match p.parse_program() {
        Err(ParseError::UnexpectedToken { token, line, column }) => {
            assert_eq!(token.kind, TokenKind::Eof);
            assert_eq!((line, column), (1, 2));
            assert_eq!((token.line, token.column), (1, 2));
        }
        other => panic!("unexpected {:?}", other.is_ok()),
    }
}

#[test]
fn stray_closing_brace_is_unexpected() {
    let mut p = Parser::new("}").unwrap();
    match p.parse_program() {
        Err(ParseError::UnexpectedToken { token, line, column }) => {
            assert_eq!(token.kind, TokenKind::RBrace);
            assert_eq!((line, column), (1, 2));
        }
        other => panic!("unexpected {:?}", other.is_ok()),
    }
}

#[test]
fn lexer_error_after_a_statement() {
    let mut p = Parser::new("{} x").unwrap();
    match p.parse_program() {
        Err(ParseError::Lex(e)) => {
            assert_eq!(e, LexError::UnexpectedChar { ch: 'x', line: 1, column: 4 })
        }
        other => panic!("unexpected {:?}", other.is_ok()),
    }
}

#[test]
fn unclosed_block_reports_eof() {
    let mut p = Parser::new("{ {}").unwrap();
    match p.parse_program() {
        Err(ParseError::UnexpectedToken { token, .. }) => assert_eq!(token.kind, TokenKind::Eof),
        other => panic!("unexpected {:?}", other.is_ok()),
    }
}

#[test]
fn statements_follow_each_other() {
    assert_eq!(
        program_debug("-{} {}"),
        "[ExprStmt { expr: UnaryMinus(Object([])) }, Block { stmts: [] }]"
    );
}

#[test]
fn cloned_program_is_equal() {
    let mut p = Parser::new("{ -({} + {}) }").unwrap();
    let prog = p.parse_program().unwrap();
    let copy = prog.clone();
    assert_eq!(format!("{:?}", copy), format!("{:?}", prog));
}

#[test]
fn a_parsed_program_was_read_to_the_end() {
    let mut p = Parser::new("{} -{}").unwrap();
    assert_eq!(p.parse_program().unwrap().stmts.len(), 2);
    // Nothing is left: parsing again finds only the end of input.
    assert_eq!(p.parse_program().unwrap().stmts.len(), 0);
}

#[test]
fn parse_expr_stops_after_the_expression() {
    let mut p = Parser::new("{} {}").unwrap();
    assert!(matches!(p.parse_expr().unwrap(), Expr::Object(_)));
    assert!(matches!(p.parse_expr().unwrap(), Expr::Object(_)));
    match p.parse_expr() {
        Err(ParseError::UnexpectedToken { token, .. }) => assert_eq!(token.kind, TokenKind::Eof),
        other => panic!("unexpected {:?}", other.is_ok()),
    }
}

#[test]
fn marks_in_front_change_no_token() {
    let plain = program_debug("{ -{} }");
    let marked = program_debug("\u{feff}{ -{} }");
    assert_eq!(plain, marked);
}

#[test]
fn unexpected_token_reports_its_own_position() {
    let mut p = Parser::new("(\n  +").unwrap();
    match p.parse_program() {
        Err(ParseError::UnexpectedToken { token, line, column }) => {
            assert_eq!(token.kind, TokenKind::Plus);
            assert_eq!((line, column), (token.line, token.column));
            assert_eq!((line, column), (2, 4));
        }
        other => panic!("unexpected {:?}", other.is_ok()),
    }
}
