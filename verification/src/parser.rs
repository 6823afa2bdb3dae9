//! The recursive-descent parser.
use vstd::prelude::*;

use crate::ast::{
    lemma_view_array,
    lemma_view_block,
    lemma_view_call,
    lemma_view_object,
    exprs_view,
    fields_view,
    names_view,
    stmts_view,
    BinaryOp,
    Expr,
    Program,
    SpecExpr,
    SpecStmt,
    Stmt,
};
use crate::grammar::{
    ParserState,
    additive,
    additive_op,
    additive_rest,
    advance,
    array_literal,
    assign_stmt,
    assign_targets,
    block,
    block_stmts,
    call_args,
    comma_exprs,
    comparison,
    comparison_op,
    comparison_rest,
    equality,
    equality_op,
    equality_rest,
    expect,
    expression,
    function_decl,
    if_stmt,
    lemma_additive,
    lemma_advance,
    lemma_block,
    lemma_call_args,
    lemma_comparison,
    lemma_expect,
    lemma_expression,
    lemma_multiplicative,
    lemma_skip_ws,
    lemma_statement,
    lemma_top_level,
    lemma_unary,
    law_program_reads_to_end,
    law_program_reports_well,
    let_stmt,
    measure,
    multiplicative,
    multiplicative_op,
    multiplicative_rest,
    object_assign_stmt,
    object_fields,
    object_literal,
    param_names,
    peek_next_is,
    postfix,
    primary,
    program,
    program_stmts,
    reports_well,
    return_stmt,
    skip_ws,
    start,
    statement,
    top_level,
    unary,
    unexpected,
    while_stmt,
};
use crate::lexer::{LexError, Lexer};
use crate::token::{kinds_match, same_kind, Token, TokenKind};

verus! {

/// Errors of the parser.
#[derive(Debug)]
pub enum ParseError {
    /// A token that the grammar does not allow where it stands, with its line and column.
    UnexpectedToken { token: Token, line: usize, column: usize },
    /// An error of the lexer while reading the next token.
    Lex(LexError),
}

/// A lexer error is a parser error.
impl From<LexError> for ParseError {
    fn from(e: LexError) -> (r: ParseError) {
        ParseError::Lex(e)
    }
}

impl vstd::std_specs::convert::FromSpecImpl<LexError> for ParseError {
    open spec fn obeys_from_spec() -> bool {
        true
    }

    open spec fn from_spec(e: LexError) -> ParseError {
        ParseError::Lex(e)
    }
}


/// A result, with its success value taken by its view.
pub open spec fn result_view<T: View>(r: Result<T, ParseError>) -> Result<T::V, ParseError> {
    match r {
        Ok(v) => Ok(v@),
        Err(e) => Err(e),
    }
}

/// A result holding expressions, with them taken by their views.
pub open spec fn exprs_result_view(r: Result<Vec<Expr>, ParseError>) -> Result<
    Seq<SpecExpr>,
    ParseError,
> {
    match r {
        Ok(v) => Ok(exprs_view(v@)),
        Err(e) => Err(e),
    }
}

/// A result holding object fields, with them taken by their views.
pub open spec fn fields_result_view(r: Result<Vec<(String, Expr)>, ParseError>) -> Result<
    Seq<(Seq<char>, SpecExpr)>,
    ParseError,
> {
    match r {
        Ok(v) => Ok(fields_view(v@)),
        Err(e) => Err(e),
    }
}

/// A result holding names, with them taken by their views.
pub open spec fn names_result_view(r: Result<Vec<String>, ParseError>) -> Result<
    Seq<Seq<char>>,
    ParseError,
> {
    match r {
        Ok(v) => Ok(names_view(v@)),
        Err(e) => Err(e),
    }
}

/// A result holding statements, with them taken by their views.
pub open spec fn stmts_result_view(r: Result<Vec<Stmt>, ParseError>) -> Result<
    Seq<SpecStmt>,
    ParseError,
> {
    match r {
        Ok(v) => Ok(stmts_view(v@)),
        Err(e) => Err(e),
    }
}

/// A recursive-descent parser of Helion programs, reading tokens from its lexer.
pub struct Parser {
    lexer: Lexer,
    current: Token,
}

impl View for Parser {
    type V = ParserState;

    closed spec fn view(&self) -> ParserState {
        ParserState { lex: self.lexer@, current: self.current }
    }
}

fn equality_op_of(k: &TokenKind) -> (r: Option<BinaryOp>)
    ensures
        r == equality_op(*k),
{
    match k {
        TokenKind::EqualEqual => Some(BinaryOp::EqualEqual),
        TokenKind::BangEqual => Some(BinaryOp::BangEqual),
        _ => None,
    }
}

fn comparison_op_of(k: &TokenKind) -> (r: Option<BinaryOp>)
    ensures
        r == comparison_op(*k),
{
    match k {
        TokenKind::Less => Some(BinaryOp::Less),
        TokenKind::LessEqual => Some(BinaryOp::LessEqual),
        TokenKind::Greater => Some(BinaryOp::Greater),
        TokenKind::GreaterEqual => Some(BinaryOp::GreaterEqual),
        _ => None,
    }
}

fn additive_op_of(k: &TokenKind) -> (r: Option<BinaryOp>)
    ensures
        r == additive_op(*k),
{
    match k {
        TokenKind::Plus => Some(BinaryOp::Plus),
        TokenKind::Minus => Some(BinaryOp::Minus),
        _ => None,
    }
}

fn multiplicative_op_of(k: &TokenKind) -> (r: Option<BinaryOp>)
    ensures
        r == multiplicative_op(*k),
{
    match k {
        TokenKind::Star => Some(BinaryOp::Star),
        TokenKind::Slash => Some(BinaryOp::Slash),
        _ => None,
    }
}

impl Parser {
    /// A parser of `src`, holding its first token; a lexer error on that
    /// token is returned.
    pub fn new(src: &str) -> (r: Result<Parser, ParseError>)
        requires
            src@.len() < usize::MAX,
        ensures
            result_view(r) == start(src@),
            r matches Ok(p) ==> p@.lex.wf(),
    {
        let mut lexer = Lexer::new(src);
        let first = match lexer.next_token() {
            Ok(t) => t,
            Err(e) => {
                return Err(ParseError::Lex(e));
            },
        };
        Ok(Parser { lexer, current: first })
    }

    fn at(&self, kind: TokenKind) -> (r: bool)
        ensures
            r == kinds_match(self@.current.kind, kind),
    {
        same_kind(&self.current.kind, &kind)
    }

    fn error_here(&self) -> (e: ParseError)
        ensures
            e == unexpected(self@.current),
    {
        ParseError::UnexpectedToken {
            token: self.current.clone(),
            line: self.current.line,
            column: self.current.column,
        }
    }

    fn advance(&mut self) -> (r: Result<(), ParseError>)
        requires
            old(self)@.lex.wf(),
        ensures
            (final(self)@, r) == advance(old(self)@),
            final(self)@.lex.wf(),
    {
        proof {
            lemma_advance(self@);
        }
        match self.lexer.next_token() {
            Ok(t) => {
                self.current = t;
                Ok(())
            },
            Err(e) => Err(ParseError::Lex(e)),
        }
    }

    fn skip_ws(&mut self) -> (r: Result<(), ParseError>)
        requires
            old(self)@.lex.wf(),
        ensures
            (final(self)@, r) == skip_ws(old(self)@),
            final(self)@.lex.wf(),
    {
        while self.at(TokenKind::Semicolon)
            invariant
                self@.lex.wf(),
                skip_ws(self@) == skip_ws(old(self)@),
            decreases measure(self@),
        {
            proof {
                lemma_advance(self@);
            }
            self.advance()?;
        }
        Ok(())
    }

    fn expect(&mut self, kind: TokenKind) -> (r: Result<(), ParseError>)
        requires
            old(self)@.lex.wf(),
        ensures
            (final(self)@, r) == expect(old(self)@, kind),
            final(self)@.lex.wf(),
    {
        self.skip_ws()?;
        if self.at(kind) {
            self.advance()
        } else {
            Err(self.error_here())
        }
    }

    fn peek_next_is(&mut self, kind: TokenKind) -> (r: Result<bool, ParseError>)
        requires
            old(self)@.lex.wf(),
        ensures
            (final(self)@, r) == peek_next_is(old(self)@, kind),
            final(self)@.lex.wf(),
    {
        match self.lexer.peek_token() {
            Ok(t) => Ok(same_kind(&t.kind, &kind)),
            Err(e) => Err(ParseError::Lex(e)),
        }
    }

    fn parse_equality(&mut self) -> (r: Result<Expr, ParseError>)
        requires
            old(self)@.lex.wf(),
        ensures
            (final(self)@, result_view(r)) == equality(old(self)@),
            final(self)@.lex.wf(),
        decreases measure(old(self)@), 6nat,
    {
        proof {
            lemma_comparison(self@);
        }
        let mut expr = self.parse_comparison()?;
        loop
            invariant
                self@.lex.wf(),
                measure(self@) <= measure(old(self)@),
                equality_rest(self@, expr@) == equality(old(self)@),
            ensures
                self@.lex.wf(),
                equality_op(self@.current.kind) is None,
                equality_rest(self@, expr@) == equality(old(self)@),
            decreases measure(self@),
        {
            let ghost s0 = self@;
            match equality_op_of(&self.current.kind) {
                None => {
                    break;
                },
                Some(op) => {
                    proof {
                        lemma_advance(s0);
                    }
                    self.advance()?;
                    proof {
                        lemma_comparison(self@);
                    }
                    let right = self.parse_comparison()?;
                    expr = Expr::Binary { left: Box::new(expr), op, right: Box::new(right) };
                },
            }
        }
        Ok(expr)
    }

    fn parse_comparison(&mut self) -> (r: Result<Expr, ParseError>)
        requires
            old(self)@.lex.wf(),
        ensures
            (final(self)@, result_view(r)) == comparison(old(self)@),
            final(self)@.lex.wf(),
        decreases measure(old(self)@), 5nat,
    {
        proof {
            lemma_additive(self@);
        }
        let mut expr = self.parse_additive()?;
        loop
            invariant
                self@.lex.wf(),
                measure(self@) <= measure(old(self)@),
                comparison_rest(self@, expr@) == comparison(old(self)@),
            ensures
                self@.lex.wf(),
                comparison_op(self@.current.kind) is None,
                comparison_rest(self@, expr@) == comparison(old(self)@),
            decreases measure(self@),
        {
            let ghost s0 = self@;
            match comparison_op_of(&self.current.kind) {
                None => {
                    break;
                },
                Some(op) => {
                    proof {
                        lemma_advance(s0);
                    }
                    self.advance()?;
                    proof {
                        lemma_additive(self@);
                    }
                    let right = self.parse_additive()?;
                    expr = Expr::Binary { left: Box::new(expr), op, right: Box::new(right) };
                },
            }
        }
        Ok(expr)
    }

    fn parse_additive(&mut self) -> (r: Result<Expr, ParseError>)
        requires
            old(self)@.lex.wf(),
        ensures
            (final(self)@, result_view(r)) == additive(old(self)@),
            final(self)@.lex.wf(),
        decreases measure(old(self)@), 4nat,
    {
        proof {
            lemma_multiplicative(self@);
        }
        let mut expr = self.parse_multiplicative()?;
        loop
            invariant
                self@.lex.wf(),
                measure(self@) <= measure(old(self)@),
                additive_rest(self@, expr@) == additive(old(self)@),
            ensures
                self@.lex.wf(),
                additive_op(self@.current.kind) is None,
                additive_rest(self@, expr@) == additive(old(self)@),
            decreases measure(self@),
        {
            let ghost s0 = self@;
            match additive_op_of(&self.current.kind) {
                None => {
                    break;
                },
                Some(op) => {
                    proof {
                        lemma_advance(s0);
                    }
                    self.advance()?;
                    proof {
                        lemma_multiplicative(self@);
                    }
                    let right = self.parse_multiplicative()?;
                    expr = Expr::Binary { left: Box::new(expr), op, right: Box::new(right) };
                },
            }
        }
        Ok(expr)
    }

    fn parse_multiplicative(&mut self) -> (r: Result<Expr, ParseError>)
        requires
            old(self)@.lex.wf(),
        ensures
            (final(self)@, result_view(r)) == multiplicative(old(self)@),
            final(self)@.lex.wf(),
        decreases measure(old(self)@), 3nat,
    {
        proof {
            lemma_unary(self@);
        }
        let mut expr = self.parse_unary()?;
        loop
            invariant
                self@.lex.wf(),
                measure(self@) <= measure(old(self)@),
                multiplicative_rest(self@, expr@) == multiplicative(old(self)@),
            ensures
                self@.lex.wf(),
                multiplicative_op(self@.current.kind) is None,
                multiplicative_rest(self@, expr@) == multiplicative(old(self)@),
            decreases measure(self@),
        {
            let ghost s0 = self@;
            match multiplicative_op_of(&self.current.kind) {
                None => {
                    break;
                },
                Some(op) => {
                    proof {
                        lemma_advance(s0);
                    }
                    self.advance()?;
                    proof {
                        lemma_unary(self@);
                    }
                    let right = self.parse_unary()?;
                    expr = Expr::Binary { left: Box::new(expr), op, right: Box::new(right) };
                },
            }
        }
        Ok(expr)
    }

    /// Parses an expression. An unexpected token is reported at its own line
    /// and column, and is never a semicolon.
    pub fn parse_expr(&mut self) -> (r: Result<Expr, ParseError>)
        requires
            old(self)@.lex.wf(),
        ensures
            (final(self)@, result_view(r)) == expression(old(self)@),
            final(self)@.lex.wf(),
            reports_well(r),
        decreases measure(old(self)@), 7nat,
    {
        proof {
            lemma_skip_ws(self@);
            lemma_expression(self@);
        }
        self.skip_ws()?;
        self.parse_equality()
    }

    fn parse_unary(&mut self) -> (r: Result<Expr, ParseError>)
        requires
            old(self)@.lex.wf(),
        ensures
            (final(self)@, result_view(r)) == unary(old(self)@),
            final(self)@.lex.wf(),
        decreases measure(old(self)@), 2nat,
    {
        proof {
            lemma_skip_ws(self@);
        }
        self.skip_ws()?;
        proof {
            lemma_advance(self@);
        }
        if self.at(TokenKind::Minus) {
            self.advance()?;
            let right = self.parse_unary()?;
            Ok(Expr::UnaryMinus(Box::new(right)))
        } else if self.at(TokenKind::Bang) {
            self.advance()?;
            let right = self.parse_unary()?;
            Ok(Expr::UnaryBang(Box::new(right)))
        } else {
            self.parse_primary()
        }
    }

    fn parse_comma_exprs(&mut self) -> (r: Result<Vec<Expr>, ParseError>)
        requires
            old(self)@.lex.wf(),
        ensures
            (final(self)@, exprs_result_view(r)) == comma_exprs(old(self)@, Seq::empty()),
            final(self)@.lex.wf(),
        decreases measure(old(self)@), 8nat,
    {
        let mut items: Vec<Expr> = Vec::new();
        proof {
            assert(exprs_view(items@) =~= Seq::<SpecExpr>::empty());
        }
        loop
            invariant_except_break
                comma_exprs(self@, exprs_view(items@)) == comma_exprs(old(self)@, Seq::empty()),
            invariant
                self@.lex.wf(),
                measure(self@) <= measure(old(self)@),
            ensures
                self@.lex.wf(),
                comma_exprs(old(self)@, Seq::empty()) == (self@, Ok::<
                    Seq<SpecExpr>,
                    ParseError,
                >(exprs_view(items@))),
            decreases measure(self@),
        {
            let ghost s0 = self@;
            let ghost acc = exprs_view(items@);
            proof {
                lemma_expression(s0);
            }
            let item = self.parse_expr()?;
            let ghost iv = item@;
            items.push(item);
            proof {
                assert(exprs_view(items@) =~= acc.push(iv));
            }
            let ghost s1 = self@;
            self.skip_ws()?;
            proof {
                lemma_skip_ws(s1);
                lemma_advance(self@);
            }
            if self.at(TokenKind::Comma) {
                self.advance()?;
                let ghost s3 = self@;
                self.skip_ws()?;
                proof {
                    lemma_skip_ws(s3);
                }
            } else {
                break ;
            }
        }
        Ok(items)
    }

    fn parse_object_fields(&mut self) -> (r: Result<Vec<(String, Expr)>, ParseError>)
        requires
            old(self)@.lex.wf(),
        ensures
            (final(self)@, fields_result_view(r)) == object_fields(old(self)@, Seq::empty()),
            final(self)@.lex.wf(),
        decreases measure(old(self)@), 8nat,
    {
        let mut fields: Vec<(String, Expr)> = Vec::new();
        proof {
            assert(fields_view(fields@) =~= Seq::<(Seq<char>, SpecExpr)>::empty());
        }
        loop
            invariant_except_break
                object_fields(self@, fields_view(fields@)) == object_fields(
                    old(self)@,
                    Seq::empty(),
                ),
            invariant
                self@.lex.wf(),
                measure(self@) <= measure(old(self)@),
            ensures
                self@.lex.wf(),
                object_fields(old(self)@, Seq::empty()) == (self@, Ok::<
                    Seq<(Seq<char>, SpecExpr)>,
                    ParseError,
                >(fields_view(fields@))),
            decreases measure(self@),
        {
            let ghost s0 = self@;
            let ghost acc = fields_view(fields@);
            let key = match &self.current.kind {
                TokenKind::Ident(s) => s.clone(),
                _ => {
                    return Err(self.error_here());
                },
            };
            proof {
                lemma_advance(s0);
            }
            self.advance()?;
            let ghost s1 = self@;
            self.skip_ws()?;
            let ghost s2 = self@;
            proof {
                lemma_skip_ws(s1);
                lemma_expect(s2, TokenKind::Colon);
            }
            self.expect(TokenKind::Colon)?;
            let ghost s3 = self@;
            self.skip_ws()?;
            let ghost s4 = self@;
            proof {
                lemma_skip_ws(s3);
                lemma_expression(s4);
            }
            let value = self.parse_expr()?;
            let ghost entry = (key@, value@);
            fields.push((key, value));
            proof {
                assert(fields_view(fields@) =~= acc.push(entry));
            }
            let ghost s5 = self@;
            self.skip_ws()?;
            proof {
                lemma_skip_ws(s5);
                lemma_advance(self@);
            }
            if self.at(TokenKind::Comma) {
                self.advance()?;
                let ghost s7 = self@;
                self.skip_ws()?;
                proof {
                    lemma_skip_ws(s7);
                }
            } else {
                break ;
            }
        }
        Ok(fields)
    }

    fn parse_postfix(&mut self, base: Expr) -> (r: Result<Expr, ParseError>)
        requires
            old(self)@.lex.wf(),
        ensures
            (final(self)@, result_view(r)) == postfix(old(self)@, base@),
            final(self)@.lex.wf(),
        decreases measure(old(self)@), 8nat,
    {
        let ghost e0 = base@;
        let mut expr = base;
        loop
            invariant_except_break
                postfix(self@, expr@) == postfix(old(self)@, e0),
            invariant
                self@.lex.wf(),
                measure(self@) <= measure(old(self)@),
                e0 == base@,
            ensures
                self@.lex.wf(),
                postfix(old(self)@, e0) == (self@, Ok::<SpecExpr, ParseError>(expr@)),
            decreases measure(self@),
        {
            let ghost s0 = self@;
            self.skip_ws()?;
            let ghost s1 = self@;
            proof {
                lemma_skip_ws(s0);
                lemma_advance(s1);
            }
            if self.at(TokenKind::Dot) {
                self.advance()?;
                let ghost s2 = self@;
                self.skip_ws()?;
                let ghost s3 = self@;
                proof {
                    lemma_skip_ws(s2);
                    lemma_advance(s3);
                }
                let prop = match &self.current.kind {
                    TokenKind::Ident(s) => s.clone(),
                    _ => {
                        return Err(self.error_here());
                    },
                };
                self.advance()?;
                expr = Expr::Property { object: Box::new(expr), property: prop };
            } else if self.at(TokenKind::LBracket) {
                self.advance()?;
                let ghost s2 = self@;
                proof {
                    lemma_expression(s2);
                }
                let index = self.parse_expr()?;
                let ghost s3 = self@;
                proof {
                    lemma_expect(s3, TokenKind::RBracket);
                }
                self.expect(TokenKind::RBracket)?;
                expr = Expr::Index { array: Box::new(expr), index: Box::new(index) };
            } else {
                break ;
            }
        }
        Ok(expr)
    }

    fn parse_primary(&mut self) -> (r: Result<Expr, ParseError>)
        requires
            old(self)@.lex.wf(),
        ensures
            (final(self)@, result_view(r)) == primary(old(self)@),
            final(self)@.lex.wf(),
        decreases measure(old(self)@), 1nat,
    {
        let ghost s0 = self@;
        self.skip_ws()?;
        let ghost s1 = self@;
        proof {
            lemma_skip_ws(s0);
            lemma_advance(s1);
        }
        match &self.current.kind {
            TokenKind::Ident(s) => {
                let name = s.clone();
                self.advance()?;
                let ghost s2 = self@;
                self.skip_ws()?;
                let ghost s3 = self@;
                proof {
                    lemma_skip_ws(s2);
                    lemma_advance(s3);
                }
                let mut expr = Expr::Ident(name);
                if self.at(TokenKind::LParen) {
                    self.advance()?;
                    let ghost s4 = self@;
                    proof {
                        lemma_call_args(s4, expr@);
                    }
                    expr = self.parse_call_args(expr)?;
                }
                self.parse_postfix(expr)
            },
            TokenKind::Number(n) => {
                let v = *n;
                self.advance()?;
                Ok(Expr::Number(v))
            },
            TokenKind::String(s) => {
                let v = s.clone();
                self.advance()?;
                Ok(Expr::String(v))
            },
            TokenKind::LParen => {
                self.advance()?;
                let ghost s2 = self@;
                proof {
                    lemma_expression(s2);
                }
                let expr = self.parse_expr()?;
                self.expect(TokenKind::RParen)?;
                Ok(expr)
            },
            TokenKind::LBracket => {
                self.advance()?;
                self.parse_array_literal()
            },
            TokenKind::LBrace => {
                self.advance()?;
                self.parse_object_literal()
            },
            _ => Err(self.error_here()),
        }
    }

    fn parse_call_args(&mut self, callee: Expr) -> (r: Result<Expr, ParseError>)
        requires
            old(self)@.lex.wf(),
        ensures
            (final(self)@, result_view(r)) == call_args(old(self)@, callee@),
            final(self)@.lex.wf(),
        decreases measure(old(self)@), 9nat,
    {
        let ghost s0 = self@;
        self.skip_ws()?;
        let ghost s1 = self@;
        proof {
            lemma_skip_ws(s0);
        }
        let args = if !self.at(TokenKind::RParen) {
            self.parse_comma_exprs()?
        } else {
            let none: Vec<Expr> = Vec::new();
            proof {
                assert(exprs_view(none@) =~= Seq::<SpecExpr>::empty());
            }
            none
        };
        self.expect(TokenKind::RParen)?;
        let callee = Box::new(callee);
        proof {
            lemma_view_call(callee, args);
        }
        Ok(Expr::Call { callee, args })
    }

    fn parse_array_literal(&mut self) -> (r: Result<Expr, ParseError>)
        requires
            old(self)@.lex.wf(),
        ensures
            (final(self)@, result_view(r)) == array_literal(old(self)@),
            final(self)@.lex.wf(),
        decreases measure(old(self)@), 9nat,
    {
        let ghost s0 = self@;
        self.skip_ws()?;
        proof {
            lemma_skip_ws(s0);
        }
        let items = if !self.at(TokenKind::RBracket) {
            self.parse_comma_exprs()?
        } else {
            let none: Vec<Expr> = Vec::new();
            proof {
                assert(exprs_view(none@) =~= Seq::<SpecExpr>::empty());
            }
            none
        };
        self.expect(TokenKind::RBracket)?;
        proof {
            lemma_view_array(items);
        }
        Ok(Expr::Array(items))
    }

    fn parse_object_literal(&mut self) -> (r: Result<Expr, ParseError>)
        requires
            old(self)@.lex.wf(),
        ensures
            (final(self)@, result_view(r)) == object_literal(old(self)@),
            final(self)@.lex.wf(),
        decreases measure(old(self)@), 9nat,
    {
        let ghost s0 = self@;
        self.skip_ws()?;
        proof {
            lemma_skip_ws(s0);
        }
        let fields = if !self.at(TokenKind::RBrace) {
            self.parse_object_fields()?
        } else {
            let none: Vec<(String, Expr)> = Vec::new();
            proof {
                assert(fields_view(none@) =~= Seq::<(Seq<char>, SpecExpr)>::empty());
            }
            none
        };
        self.expect(TokenKind::RBrace)?;
        proof {
            lemma_view_object(fields);
        }
        Ok(Expr::Object(fields))
    }

    /// Parses a whole program: statements up to the end of input. On success
    /// the input has been read to its end; an unexpected token is reported at
    /// its own line and column, and is never a semicolon.
    pub fn parse_program(&mut self) -> (r: Result<Program, ParseError>)
        requires
            old(self)@.lex.wf(),
        ensures
            (final(self)@, result_view(r)) == program(old(self)@),
            final(self)@.lex.wf(),
            r is Ok ==> final(self)@.current.kind == TokenKind::Eof,
            reports_well(r),
    {
        proof {
            law_program_reads_to_end(self@);
            law_program_reports_well(self@);
        }
        self.parse_statements()
    }

    fn parse_statements(&mut self) -> (r: Result<Program, ParseError>)
        requires
            old(self)@.lex.wf(),
        ensures
            (final(self)@, result_view(r)) == program(old(self)@),
            final(self)@.lex.wf(),
    {
        let mut stmts: Vec<Stmt> = Vec::new();
        self.skip_ws()?;
        proof {
            assert(stmts_view(stmts@) =~= Seq::<SpecStmt>::empty());
        }
        while !self.at(TokenKind::Eof)
            invariant
                self@.lex.wf(),
                program_stmts(self@, stmts_view(stmts@)) == program(old(self)@),
            decreases measure(self@),
        {
            let ghost s0 = self@;
            let ghost acc = stmts_view(stmts@);
            proof {
                lemma_top_level(s0);
            }
            let st = self.parse_top_level()?;
            let ghost sv = st@;
            stmts.push(st);
            proof {
                assert(stmts_view(stmts@) =~= acc.push(sv));
            }
            let ghost s1 = self@;
            self.skip_ws()?;
            proof {
                lemma_skip_ws(s1);
            }
        }
        Ok(Program { stmts })
    }

    fn parse_top_level(&mut self) -> (r: Result<Stmt, ParseError>)
        requires
            old(self)@.lex.wf(),
        ensures
            (final(self)@, result_view(r)) == top_level(old(self)@),
            final(self)@.lex.wf(),
    {
        self.skip_ws()?;
        match self.current.kind {
            TokenKind::KeywordFn => self.parse_function(),
            TokenKind::KeywordLet => self.parse_let(),
            TokenKind::KeywordReturn => self.parse_return(),
            TokenKind::LBrace => self.parse_block(),
            _ => self.parse_stmt(),
        }
    }

    fn name_here(&self) -> (r: Result<String, ParseError>)
        ensures
            match self@.current.kind {
                TokenKind::Ident(n) => r == Ok::<String, ParseError>(n),
                _ => r == Err::<String, ParseError>(unexpected(self@.current)),
            },
    {
        match &self.current.kind {
            TokenKind::Ident(s) => Ok(s.clone()),
            _ => Err(self.error_here()),
        }
    }

    fn parse_function(&mut self) -> (r: Result<Stmt, ParseError>)
        requires
            old(self)@.lex.wf(),
        ensures
            (final(self)@, result_view(r)) == function_decl(old(self)@),
            final(self)@.lex.wf(),
    {
        self.advance()?;
        self.skip_ws()?;
        let name = self.name_here()?;
        self.advance()?;
        self.skip_ws()?;
        self.expect(TokenKind::LParen)?;
        self.skip_ws()?;
        let params = if !self.at(TokenKind::RParen) {
            self.parse_param_names()?
        } else {
            let none: Vec<String> = Vec::new();
            proof {
                assert(names_view(none@) =~= Seq::<Seq<char>>::empty());
            }
            none
        };
        self.expect(TokenKind::RParen)?;
        self.skip_ws()?;
        let body = self.parse_block()?;
        Ok(Stmt::Function { name, params, body: Box::new(body) })
    }

    fn parse_param_names(&mut self) -> (r: Result<Vec<String>, ParseError>)
        requires
            old(self)@.lex.wf(),
        ensures
            (final(self)@, names_result_view(r)) == param_names(old(self)@, Seq::empty()),
            final(self)@.lex.wf(),
    {
        let mut params: Vec<String> = Vec::new();
        proof {
            assert(names_view(params@) =~= Seq::<Seq<char>>::empty());
        }
        loop
            invariant_except_break
                param_names(self@, names_view(params@)) == param_names(old(self)@, Seq::empty()),
            invariant
                self@.lex.wf(),
            ensures
                self@.lex.wf(),
                param_names(old(self)@, Seq::empty()) == (self@, Ok::<
                    Seq<Seq<char>>,
                    ParseError,
                >(names_view(params@))),
            decreases measure(self@),
        {
            let ghost s0 = self@;
            let ghost acc = names_view(params@);
            let p = self.name_here()?;
            let ghost pv = p@;
            params.push(p);
            proof {
                assert(names_view(params@) =~= acc.push(pv));
                lemma_advance(s0);
            }
            self.advance()?;
            let ghost s1 = self@;
            self.skip_ws()?;
            proof {
                lemma_skip_ws(s1);
                lemma_advance(self@);
            }
            if self.at(TokenKind::Comma) {
                self.advance()?;
                let ghost s3 = self@;
                self.skip_ws()?;
                proof {
                    lemma_skip_ws(s3);
                }
            } else {
                break ;
            }
        }
        Ok(params)
    }

    fn parse_block_stmts(&mut self) -> (r: Result<Vec<Stmt>, ParseError>)
        requires
            old(self)@.lex.wf(),
        ensures
            (final(self)@, stmts_result_view(r)) == block_stmts(old(self)@, Seq::empty()),
            final(self)@.lex.wf(),
        decreases measure(old(self)@), 3nat,
    {
        let mut stmts: Vec<Stmt> = Vec::new();
        proof {
            assert(stmts_view(stmts@) =~= Seq::<SpecStmt>::empty());
        }
        while !self.at(TokenKind::RBrace) && !self.at(TokenKind::Eof)
            invariant
                self@.lex.wf(),
                measure(self@) <= measure(old(self)@),
                block_stmts(self@, stmts_view(stmts@)) == block_stmts(old(self)@, Seq::empty()),
            decreases measure(self@),
        {
            let ghost si = self@;
            let ghost acc = stmts_view(stmts@);
            proof {
                lemma_statement(si);
            }
            let st = self.parse_stmt()?;
            let ghost sv = st@;
            stmts.push(st);
            proof {
                assert(stmts_view(stmts@) =~= acc.push(sv));
            }
            let ghost s4 = self@;
            self.skip_ws()?;
            proof {
                lemma_skip_ws(s4);
            }
        }
        Ok(stmts)
    }

    fn parse_assign_targets(&mut self, base: Expr) -> (r: Result<Expr, ParseError>)
        requires
            old(self)@.lex.wf(),
        ensures
            (final(self)@, result_view(r)) == assign_targets(old(self)@, base@),
            final(self)@.lex.wf(),
    {
        let ghost t0 = base@;
        let mut target = base;
        while self.at(TokenKind::LBracket)
            invariant
                self@.lex.wf(),
                t0 == base@,
                assign_targets(self@, target@) == assign_targets(old(self)@, t0),
            decreases measure(self@),
        {
            let ghost si = self@;
            proof {
                lemma_advance(si);
            }
            self.advance()?;
            let ghost s1 = self@;
            proof {
                lemma_expression(s1);
            }
            let index_expr = self.parse_expr()?;
            let ghost s3 = self@;
            proof {
                lemma_expect(s3, TokenKind::RBracket);
            }
            self.expect(TokenKind::RBracket)?;
            target = Expr::Index { array: Box::new(target), index: Box::new(index_expr) };
            let ghost s4 = self@;
            self.skip_ws()?;
            proof {
                lemma_skip_ws(s4);
            }
        }
        Ok(target)
    }

    fn parse_block(&mut self) -> (r: Result<Stmt, ParseError>)
        requires
            old(self)@.lex.wf(),
        ensures
            (final(self)@, result_view(r)) == block(old(self)@),
            final(self)@.lex.wf(),
        decreases measure(old(self)@), 0nat,
    {
        let ghost s0 = self@;
        self.skip_ws()?;
        let ghost s1 = self@;
        self.expect(TokenKind::LBrace)?;
        let ghost s2 = self@;
        self.skip_ws()?;
        proof {
            lemma_skip_ws(s0);
            lemma_expect(s1, TokenKind::LBrace);
            lemma_skip_ws(s2);
        }
        let stmts = self.parse_block_stmts()?;
        self.expect(TokenKind::RBrace)?;
        proof {
            lemma_view_block(stmts);
        }
        Ok(Stmt::Block { stmts })
    }

    fn parse_stmt(&mut self) -> (r: Result<Stmt, ParseError>)
        requires
            old(self)@.lex.wf(),
        ensures
            (final(self)@, result_view(r)) == statement(old(self)@),
            final(self)@.lex.wf(),
        decreases measure(old(self)@), 2nat,
    {
        let ghost s0 = self@;
        self.skip_ws()?;
        proof {
            lemma_skip_ws(s0);
        }
        match self.current.kind {
            TokenKind::KeywordLet => self.parse_let(),
            TokenKind::KeywordReturn => self.parse_return(),
            TokenKind::KeywordWhile => self.parse_while(),
            TokenKind::KeywordIf => self.parse_if(),
            TokenKind::LBrace => self.parse_block(),
            TokenKind::Ident(_) => {
                // The token after the identifier decides the kind of statement.
                let next = match self.lexer.peek_token() {
                    Ok(t) => t,
                    Err(e) => {
                        return Err(ParseError::Lex(e));
                    },
                };
                if same_kind(&next.kind, &TokenKind::LBracket) {
                    return self.parse_assign();
                }
                if same_kind(&next.kind, &TokenKind::Dot) {
                    return self.parse_object_assign();
                }
                if self.peek_next_is(TokenKind::Equal)? {
                    return self.parse_assign();
                }
                let expr = self.parse_expr()?;
                Ok(Stmt::ExprStmt { expr })
            },
            _ => {
                let expr = self.parse_expr()?;
                Ok(Stmt::ExprStmt { expr })
            },
        }
    }

    fn parse_assign(&mut self) -> (r: Result<Stmt, ParseError>)
        requires
            old(self)@.lex.wf(),
        ensures
            (final(self)@, result_view(r)) == assign_stmt(old(self)@),
            final(self)@.lex.wf(),
    {
        let name = self.name_here()?;
        self.advance()?;
        self.skip_ws()?;
        let target = self.parse_assign_targets(Expr::Ident(name))?;
        self.expect(TokenKind::Equal)?;
        self.skip_ws()?;
        let value = self.parse_expr()?;
        match target {
            Expr::Index { array, index } => Ok(Stmt::ArrayAssign { array: *array, index: *index, value }),
            Expr::Ident(name) => Ok(Stmt::Assign { name, value }),
            _ => Err(self.error_here()),
        }
    }

    fn parse_object_assign(&mut self) -> (r: Result<Stmt, ParseError>)
        requires
            old(self)@.lex.wf(),
        ensures
            (final(self)@, result_view(r)) == object_assign_stmt(old(self)@),
            final(self)@.lex.wf(),
    {
        let obj_name = self.name_here()?;
        self.advance()?;
        self.skip_ws()?;
        self.expect(TokenKind::Dot)?;
        self.skip_ws()?;
        let property = self.name_here()?;
        self.advance()?;
        self.skip_ws()?;
        self.expect(TokenKind::Equal)?;
        self.skip_ws()?;
        let value = self.parse_expr()?;
        Ok(Stmt::ObjectAssign { object: Expr::Ident(obj_name), property, value })
    }

    fn parse_while(&mut self) -> (r: Result<Stmt, ParseError>)
        requires
            old(self)@.lex.wf(),
        ensures
            (final(self)@, result_view(r)) == while_stmt(old(self)@),
            final(self)@.lex.wf(),
        decreases measure(old(self)@), 1nat,
    {
        let ghost s0 = self@;
        self.advance()?;
        let ghost s1 = self@;
        self.skip_ws()?;
        let ghost s2 = self@;
        let condition = self.parse_expr()?;
        let ghost s3 = self@;
        self.skip_ws()?;
        proof {
            lemma_advance(s0);
            lemma_skip_ws(s1);
            lemma_expression(s2);
            lemma_skip_ws(s3);
        }
        let body = self.parse_block()?;
        Ok(Stmt::While { condition, body: Box::new(body) })
    }

    fn parse_if(&mut self) -> (r: Result<Stmt, ParseError>)
        requires
            old(self)@.lex.wf(),
        ensures
            (final(self)@, result_view(r)) == if_stmt(old(self)@),
            final(self)@.lex.wf(),
        decreases measure(old(self)@), 1nat,
    {
        let ghost s0 = self@;
        self.advance()?;
        let ghost s1 = self@;
        self.skip_ws()?;
        let ghost s2 = self@;
        let condition = self.parse_expr()?;
        let ghost s3 = self@;
        self.skip_ws()?;
        let ghost s4 = self@;
        proof {
            lemma_advance(s0);
            lemma_skip_ws(s1);
            lemma_expression(s2);
            lemma_skip_ws(s3);
            lemma_block(s4);
        }
        let then_branch = self.parse_block()?;
        let ghost s5 = self@;
        self.skip_ws()?;
        let ghost s6 = self@;
        proof {
            lemma_skip_ws(s5);
        }
        let else_branch = if self.at(TokenKind::KeywordElse) {
            self.advance()?;
            let ghost s7 = self@;
            self.skip_ws()?;
            proof {
                lemma_advance(s6);
                lemma_skip_ws(s7);
            }
            Some(Box::new(self.parse_block()?))
        } else {
            None
        };
        Ok(Stmt::If { condition, then_branch: Box::new(then_branch), else_branch })
    }

    fn parse_let(&mut self) -> (r: Result<Stmt, ParseError>)
        requires
            old(self)@.lex.wf(),
        ensures
            (final(self)@, result_view(r)) == let_stmt(old(self)@),
            final(self)@.lex.wf(),
    {
        self.advance()?;
        self.skip_ws()?;
        let name = self.name_here()?;
        self.advance()?;
        self.skip_ws()?;
        self.expect(TokenKind::Equal)?;
        self.skip_ws()?;
        let value = self.parse_expr()?;
        Ok(Stmt::Let { name, value })
    }

    fn parse_return(&mut self) -> (r: Result<Stmt, ParseError>)
        requires
            old(self)@.lex.wf(),
        ensures
            (final(self)@, result_view(r)) == return_stmt(old(self)@),
            final(self)@.lex.wf(),
    {
        self.advance()?;
        self.skip_ws()?;
        let value = self.parse_expr()?;
        Ok(Stmt::Return { value })
    }
} // impl Parser

} // verus!
