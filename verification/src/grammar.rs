//! The grammar of Helion as functions on parser states: what each parsing
//! step returns and the state it leaves. The parser is proved to compute them.
//!
//! Where a step goes on after another step of its own recursive group, the
//! definition goes on only when the input left has shrunk; the `lemma_`
//! functions prove that it always has, so the other branch is never taken.
use vstd::prelude::*;

use crate::ast::{BinaryOp, SpecExpr, SpecStmt};
use crate::lexer::{lemma_lex_next, lex_next, LexerState};
use crate::parser::ParseError;
use crate::token::{kinds_match, Token, TokenKind};

verus! {

/// The state of a parser: its lexer and the current token.
pub struct ParserState {
    pub lex: LexerState,
    pub current: Token,
}

/// What a parsing step leaves: the state after it and its result.
pub type Parsed<T> = (ParserState, Result<T, ParseError>);

/// The error for a token that does not fit the grammar.
pub open spec fn unexpected(t: Token) -> ParseError {
    ParseError::UnexpectedToken { token: t, line: t.line, column: t.column }
}

/// An `UnexpectedToken` error carries the line and column of the token it
/// names, and that token is never a semicolon.
pub open spec fn reports_well<T>(r: Result<T, ParseError>) -> bool {
    r matches Err(ParseError::UnexpectedToken { token, line, column }) ==> line == token.line
        && column == token.column && token.kind != TokenKind::Semicolon
}

/// The input left to a parser: the characters left to its lexer, and one
/// more while the current token is not `Eof`.
pub open spec fn measure(s: ParserState) -> nat {
    s.lex.remaining() + if s.current.kind == TokenKind::Eof {
        0nat
    } else {
        1nat
    }
}

/// Moving to the next token; a lexer error keeps the current token.
pub open spec fn advance(s: ParserState) -> Parsed<()> {
    let (l, r) = lex_next(s.lex);
    match r {
        Ok(t) => (ParserState { lex: l, current: t }, Ok(())),
        Err(e) => (ParserState { lex: l, current: s.current }, Err(ParseError::Lex(e))),
    }
}

/// Moving to the next token never moves back, consumes input when the current
/// token is not `Eof`, and keeps the lexer well-formed.
pub proof fn lemma_advance(s: ParserState)
    ensures
        reports_well(advance(s).1),
        measure(advance(s).0) <= measure(s),
        advance(s).1 is Ok && s.current.kind != TokenKind::Eof ==> measure(advance(s).0)
            < measure(s),
        s.lex.wf() ==> advance(s).0.lex.wf(),
{
    lemma_lex_next(s.lex);
}

/// Skipping the semicolons at the current token.
pub open spec fn skip_ws(s: ParserState) -> Parsed<()>
    decreases measure(s),
{
    if s.current.kind == TokenKind::Semicolon {
        let (s1, r) = advance(s);
        proof {
            lemma_advance(s);
        }
        match r {
            Ok(_) => skip_ws(s1),
            Err(e) => (s1, Err(e)),
        }
    } else {
        (s, Ok(()))
    }
}

/// Skipping semicolons never moves back, leaves a current token that is not
/// a semicolon, and keeps the lexer well-formed.
pub proof fn lemma_skip_ws(s: ParserState)
    ensures
        reports_well(skip_ws(s).1),
        measure(skip_ws(s).0) <= measure(s),
        skip_ws(s).1 is Ok ==> skip_ws(s).0.current.kind != TokenKind::Semicolon,
        s.lex.wf() ==> skip_ws(s).0.lex.wf(),
    decreases measure(s),
{
    lemma_advance(s);
    if s.current.kind == TokenKind::Semicolon {
        let (s1, r) = advance(s);
        if r is Ok {
            lemma_skip_ws(s1);
        }
    }
}

/// Skipping semicolons, then consuming a token of the given kind.
pub open spec fn expect(s: ParserState, kind: TokenKind) -> Parsed<()> {
    let (s1, r) = skip_ws(s);
    match r {
        Err(e) => (s1, Err(e)),
        Ok(_) => if kinds_match(s1.current.kind, kind) {
            advance(s1)
        } else {
            (s1, Err(unexpected(s1.current)))
        },
    }
}

/// Expecting a token never moves back, consumes input when it succeeds on a
/// kind other than `Eof`, and keeps the lexer well-formed.
pub proof fn lemma_expect(s: ParserState, kind: TokenKind)
    ensures
        reports_well(expect(s, kind).1),
        measure(expect(s, kind).0) <= measure(s),
        expect(s, kind).1 is Ok && kind != TokenKind::Eof ==> measure(expect(s, kind).0) < measure(s),
        s.lex.wf() ==> expect(s, kind).0.lex.wf(),
{
    lemma_skip_ws(s);
    lemma_advance(skip_ws(s).0);
}

/// After the semicolons, a token of the expected kind is consumed; any
/// other token is reported, at its own place, and stays current.
pub proof fn law_expect(s: ParserState, s1: ParserState, kind: TokenKind)
    requires
        skip_ws(s) == (s1, Ok::<(), ParseError>(())),
    ensures
        kinds_match(s1.current.kind, kind) ==> expect(s, kind) == advance(s1),
        !kinds_match(s1.current.kind, kind) ==> expect(s, kind) == (
            s1,
            Err::<(), ParseError>(
                ParseError::UnexpectedToken {
                    token: s1.current,
                    line: s1.current.line,
                    column: s1.current.column,
                },
            ),
        ),
{
}

/// Skipping semicolons reads exactly the semicolons: a current token that
/// is not one is left as it is.
pub proof fn law_skip_ws_stops(s: ParserState)
    requires
        s.current.kind != TokenKind::Semicolon,
    ensures
        skip_ws(s) == (s, Ok::<(), ParseError>(())),
{
}

/// Whether the token after the current one is of the given kind.
pub open spec fn peek_next_is(s: ParserState, kind: TokenKind) -> Parsed<bool> {
    match lex_next(s.lex).1 {
        Ok(t) => (s, Ok(kinds_match(t.kind, kind))),
        Err(e) => (s, Err(ParseError::Lex(e))),
    }
}

/// The operator of an equality level token.
pub open spec fn equality_op(k: TokenKind) -> Option<BinaryOp> {
    if k == TokenKind::EqualEqual {
        Some(BinaryOp::EqualEqual)
    } else if k == TokenKind::BangEqual {
        Some(BinaryOp::BangEqual)
    } else {
        None
    }
}

/// The operator of a comparison level token.
pub open spec fn comparison_op(k: TokenKind) -> Option<BinaryOp> {
    if k == TokenKind::Less {
        Some(BinaryOp::Less)
    } else if k == TokenKind::LessEqual {
        Some(BinaryOp::LessEqual)
    } else if k == TokenKind::Greater {
        Some(BinaryOp::Greater)
    } else if k == TokenKind::GreaterEqual {
        Some(BinaryOp::GreaterEqual)
    } else {
        None
    }
}

/// The operator of an additive level token.
pub open spec fn additive_op(k: TokenKind) -> Option<BinaryOp> {
    if k == TokenKind::Plus {
        Some(BinaryOp::Plus)
    } else if k == TokenKind::Minus {
        Some(BinaryOp::Minus)
    } else {
        None
    }
}

/// The operator of a multiplicative level token.
pub open spec fn multiplicative_op(k: TokenKind) -> Option<BinaryOp> {
    if k == TokenKind::Star {
        Some(BinaryOp::Star)
    } else if k == TokenKind::Slash {
        Some(BinaryOp::Slash)
    } else {
        None
    }
}

pub open spec fn binary(left: SpecExpr, op: BinaryOp, right: SpecExpr) -> SpecExpr {
    SpecExpr::Binary { left: Box::new(left), op, right: Box::new(right) }
}

/// An expression: semicolons are skipped, then an equality is read.
pub open spec fn expression(s: ParserState) -> Parsed<SpecExpr>
    decreases measure(s), 11nat,
{
    let (s1, r) = skip_ws(s);
    proof {
        lemma_skip_ws(s);
    }
    match r {
        Err(e) => (s1, Err(e)),
        Ok(_) => equality(s1),
    }
}

/// Comparisons joined left to right by `==` and `!=`.
pub open spec fn equality(s: ParserState) -> Parsed<SpecExpr>
    decreases measure(s), 10nat,
{
    let (s1, r) = comparison(s);
    match r {
        Err(e) => (s1, Err(e)),
        Ok(left) => if measure(s1) <= measure(s) {
            equality_rest(s1, left)
        } else {
            (s1, Ok(left))
        },
    }
}

pub open spec fn equality_rest(s: ParserState, left: SpecExpr) -> Parsed<SpecExpr>
    decreases measure(s), 9nat,
{
    match equality_op(s.current.kind) {
        Some(op) => {
            let (s1, r) = advance(s);
            proof {
                lemma_advance(s);
            }
            match r {
                Err(e) => (s1, Err(e)),
                Ok(_) => {
                    let (s2, r2) = comparison(s1);
                    match r2 {
                        Err(e) => (s2, Err(e)),
                        Ok(right) => if measure(s2) < measure(s) {
                            equality_rest(s2, binary(left, op, right))
                        } else {
                            (s2, Ok(binary(left, op, right)))
                        },
                    }
                },
            }
        },
        None => (s, Ok(left)),
    }
}

/// Sums joined left to right by `<`, `<=`, `>` and `>=`.
pub open spec fn comparison(s: ParserState) -> Parsed<SpecExpr>
    decreases measure(s), 8nat,
{
    let (s1, r) = additive(s);
    match r {
        Err(e) => (s1, Err(e)),
        Ok(left) => if measure(s1) <= measure(s) {
            comparison_rest(s1, left)
        } else {
            (s1, Ok(left))
        },
    }
}

pub open spec fn comparison_rest(s: ParserState, left: SpecExpr) -> Parsed<SpecExpr>
    decreases measure(s), 7nat,
{
    match comparison_op(s.current.kind) {
        Some(op) => {
            let (s1, r) = advance(s);
            proof {
                lemma_advance(s);
            }
            match r {
                Err(e) => (s1, Err(e)),
                Ok(_) => {
                    let (s2, r2) = additive(s1);
                    match r2 {
                        Err(e) => (s2, Err(e)),
                        Ok(right) => if measure(s2) < measure(s) {
                            comparison_rest(s2, binary(left, op, right))
                        } else {
                            (s2, Ok(binary(left, op, right)))
                        },
                    }
                },
            }
        },
        None => (s, Ok(left)),
    }
}

/// Products joined left to right by `+` and `-`.
pub open spec fn additive(s: ParserState) -> Parsed<SpecExpr>
    decreases measure(s), 6nat,
{
    let (s1, r) = multiplicative(s);
    match r {
        Err(e) => (s1, Err(e)),
        Ok(left) => if measure(s1) <= measure(s) {
            additive_rest(s1, left)
        } else {
            (s1, Ok(left))
        },
    }
}

pub open spec fn additive_rest(s: ParserState, left: SpecExpr) -> Parsed<SpecExpr>
    decreases measure(s), 5nat,
{
    match additive_op(s.current.kind) {
        Some(op) => {
            let (s1, r) = advance(s);
            proof {
                lemma_advance(s);
            }
            match r {
                Err(e) => (s1, Err(e)),
                Ok(_) => {
                    let (s2, r2) = multiplicative(s1);
                    match r2 {
                        Err(e) => (s2, Err(e)),
                        Ok(right) => if measure(s2) < measure(s) {
                            additive_rest(s2, binary(left, op, right))
                        } else {
                            (s2, Ok(binary(left, op, right)))
                        },
                    }
                },
            }
        },
        None => (s, Ok(left)),
    }
}

/// Unary expressions joined left to right by `*` and `/`.
pub open spec fn multiplicative(s: ParserState) -> Parsed<SpecExpr>
    decreases measure(s), 4nat,
{
    let (s1, r) = unary(s);
    match r {
        Err(e) => (s1, Err(e)),
        Ok(left) => if measure(s1) <= measure(s) {
            multiplicative_rest(s1, left)
        } else {
            (s1, Ok(left))
        },
    }
}

pub open spec fn multiplicative_rest(s: ParserState, left: SpecExpr) -> Parsed<SpecExpr>
    decreases measure(s), 3nat,
{
    match multiplicative_op(s.current.kind) {
        Some(op) => {
            let (s1, r) = advance(s);
            proof {
                lemma_advance(s);
            }
            match r {
                Err(e) => (s1, Err(e)),
                Ok(_) => {
                    let (s2, r2) = unary(s1);
                    match r2 {
                        Err(e) => (s2, Err(e)),
                        Ok(right) => if measure(s2) < measure(s) {
                            multiplicative_rest(s2, binary(left, op, right))
                        } else {
                            (s2, Ok(binary(left, op, right)))
                        },
                    }
                },
            }
        },
        None => (s, Ok(left)),
    }
}

/// Prefix `-` and `!` applied to a primary expression.
pub open spec fn unary(s: ParserState) -> Parsed<SpecExpr>
    decreases measure(s), 2nat,
{
    let (s1, r) = skip_ws(s);
    proof {
        lemma_skip_ws(s);
        lemma_advance(s1);
    }
    match r {
        Err(e) => (s1, Err(e)),
        Ok(_) => if s1.current.kind == TokenKind::Minus || s1.current.kind == TokenKind::Bang {
            let (s2, r2) = advance(s1);
            match r2 {
                Err(e) => (s2, Err(e)),
                Ok(_) => {
                    let (s3, r3) = unary(s2);
                    match r3 {
                        Err(e) => (s3, Err(e)),
                        Ok(inner) => if s1.current.kind == TokenKind::Minus {
                            (s3, Ok(SpecExpr::UnaryMinus(Box::new(inner))))
                        } else {
                            (s3, Ok(SpecExpr::UnaryBang(Box::new(inner))))
                        },
                    }
                },
            }
        } else {
            primary(s1)
        },
    }
}

/// Identifiers with their calls, property accesses and indexing, literals,
/// parenthesized expressions, and array and object literals.
pub open spec fn primary(s: ParserState) -> Parsed<SpecExpr>
    decreases measure(s), 1nat,
{
    let (s1, r) = skip_ws(s);
    proof {
        lemma_skip_ws(s);
        lemma_advance(s1);
    }
    match r {
        Err(e) => (s1, Err(e)),
        Ok(_) => match s1.current.kind {
            TokenKind::Ident(name) => {
                let (s2, r2) = advance(s1);
                match r2 {
                    Err(e) => (s2, Err(e)),
                    Ok(_) => {
                        let (s3, r3) = skip_ws(s2);
                        proof {
                            lemma_skip_ws(s2);
                            lemma_advance(s3);
                        }
                        match r3 {
                            Err(e) => (s3, Err(e)),
                            Ok(_) => if s3.current.kind == TokenKind::LParen {
                                let (s4, r4) = advance(s3);
                                match r4 {
                                    Err(e) => (s4, Err(e)),
                                    Ok(_) => {
                                        let (s5, r5) = call_args(s4, SpecExpr::Ident(name@));
                                        match r5 {
                                            Err(e) => (s5, Err(e)),
                                            Ok(call) => if measure(s5) < measure(s) {
                                                postfix(s5, call)
                                            } else {
                                                (s5, Ok(call))
                                            },
                                        }
                                    },
                                }
                            } else {
                                postfix(s3, SpecExpr::Ident(name@))
                            },
                        }
                    },
                }
            },
            TokenKind::Number(n) => {
                let (s2, r2) = advance(s1);
                match r2 {
                    Err(e) => (s2, Err(e)),
                    Ok(_) => (s2, Ok(SpecExpr::Number(n))),
                }
            },
            TokenKind::String(text) => {
                let (s2, r2) = advance(s1);
                match r2 {
                    Err(e) => (s2, Err(e)),
                    Ok(_) => (s2, Ok(SpecExpr::String(text@))),
                }
            },
            TokenKind::LParen => {
                let (s2, r2) = advance(s1);
                match r2 {
                    Err(e) => (s2, Err(e)),
                    Ok(_) => {
                        let (s3, r3) = expression(s2);
                        match r3 {
                            Err(e) => (s3, Err(e)),
                            Ok(inner) => {
                                let (s4, r4) = expect(s3, TokenKind::RParen);
                                match r4 {
                                    Err(e) => (s4, Err(e)),
                                    Ok(_) => (s4, Ok(inner)),
                                }
                            },
                        }
                    },
                }
            },
            TokenKind::LBracket => {
                let (s2, r2) = advance(s1);
                match r2 {
                    Err(e) => (s2, Err(e)),
                    Ok(_) => array_literal(s2),
                }
            },
            TokenKind::LBrace => {
                let (s2, r2) = advance(s1);
                match r2 {
                    Err(e) => (s2, Err(e)),
                    Ok(_) => object_literal(s2),
                }
            },
            _ => (s1, Err(unexpected(s1.current))),
        },
    }
}

/// The arguments of a call after its `(`, up to its `)`.
pub open spec fn call_args(s: ParserState, callee: SpecExpr) -> Parsed<SpecExpr>
    decreases measure(s), 13nat,
{
    let (s1, r1) = skip_ws(s);
    proof {
        lemma_skip_ws(s);
    }
    match r1 {
        Err(e) => (s1, Err(e)),
        Ok(_) => {
            let (s2, r2) = if s1.current.kind != TokenKind::RParen {
                comma_exprs(s1, Seq::empty())
            } else {
                (s1, Ok(Seq::empty()))
            };
            match r2 {
                Err(e) => (s2, Err(e)),
                Ok(args) => {
                    let (s3, r3) = expect(s2, TokenKind::RParen);
                    match r3 {
                        Err(e) => (s3, Err(e)),
                        Ok(_) => (s3, Ok(SpecExpr::Call { callee: Box::new(callee), args })),
                    }
                },
            }
        },
    }
}

/// The items of an array literal after its `[`, up to its `]`.
pub open spec fn array_literal(s: ParserState) -> Parsed<SpecExpr>
    decreases measure(s), 13nat,
{
    let (s1, r1) = skip_ws(s);
    proof {
        lemma_skip_ws(s);
    }
    match r1 {
        Err(e) => (s1, Err(e)),
        Ok(_) => {
            let (s2, r2) = if s1.current.kind != TokenKind::RBracket {
                comma_exprs(s1, Seq::empty())
            } else {
                (s1, Ok(Seq::empty()))
            };
            match r2 {
                Err(e) => (s2, Err(e)),
                Ok(items) => {
                    let (s3, r3) = expect(s2, TokenKind::RBracket);
                    match r3 {
                        Err(e) => (s3, Err(e)),
                        Ok(_) => (s3, Ok(SpecExpr::Array(items))),
                    }
                },
            }
        },
    }
}

/// The fields of an object literal after its `{`, up to its `}`.
pub open spec fn object_literal(s: ParserState) -> Parsed<SpecExpr>
    decreases measure(s), 13nat,
{
    let (s1, r1) = skip_ws(s);
    proof {
        lemma_skip_ws(s);
    }
    match r1 {
        Err(e) => (s1, Err(e)),
        Ok(_) => {
            let (s2, r2) = if s1.current.kind != TokenKind::RBrace {
                object_fields(s1, Seq::empty())
            } else {
                (s1, Ok(Seq::empty()))
            };
            match r2 {
                Err(e) => (s2, Err(e)),
                Ok(fields) => {
                    let (s3, r3) = expect(s2, TokenKind::RBrace);
                    match r3 {
                        Err(e) => (s3, Err(e)),
                        Ok(_) => (s3, Ok(SpecExpr::Object(fields))),
                    }
                },
            }
        },
    }
}

/// A comma-separated list of expressions, as in call arguments and array literals.
pub open spec fn comma_exprs(s: ParserState, acc: Seq<SpecExpr>) -> Parsed<Seq<SpecExpr>>
    decreases measure(s), 12nat,
{
    let (s1, r) = expression(s);
    match r {
        Err(e) => (s1, Err(e)),
        Ok(item) => {
            let acc1 = acc.push(item);
            let (s2, r2) = skip_ws(s1);
            match r2 {
                Err(e) => (s2, Err(e)),
                Ok(_) => if s2.current.kind == TokenKind::Comma {
                    let (s3, r3) = advance(s2);
                    match r3 {
                        Err(e) => (s3, Err(e)),
                        Ok(_) => {
                            let (s4, r4) = skip_ws(s3);
                            match r4 {
                                Err(e) => (s4, Err(e)),
                                Ok(_) => if measure(s4) < measure(s) {
                                    comma_exprs(s4, acc1)
                                } else {
                                    (s4, Ok(acc1))
                                },
                            }
                        },
                    }
                } else {
                    (s2, Ok(acc1))
                },
            }
        },
    }
}

/// The `key: value` fields of an object literal, separated by commas.
pub open spec fn object_fields(s: ParserState, acc: Seq<(Seq<char>, SpecExpr)>) -> Parsed<
    Seq<(Seq<char>, SpecExpr)>,
>
    decreases measure(s), 12nat,
{
    match s.current.kind {
        TokenKind::Ident(key) => {
            let (s1, r1) = advance(s);
            match r1 {
                Err(e) => (s1, Err(e)),
                Ok(_) => {
                    let (s2, r2) = skip_ws(s1);
                    match r2 {
                        Err(e) => (s2, Err(e)),
                        Ok(_) => {
                            let (s3, r3) = expect(s2, TokenKind::Colon);
                            match r3 {
                                Err(e) => (s3, Err(e)),
                                Ok(_) => {
                                    let (s4, r4) = skip_ws(s3);
                                    proof {
                                        lemma_advance(s);
                                        lemma_skip_ws(s1);
                                        lemma_expect(s2, TokenKind::Colon);
                                        lemma_skip_ws(s3);
                                    }
                                    match r4 {
                                        Err(e) => (s4, Err(e)),
                                        Ok(_) => {
                                            let (s5, r5) = expression(s4);
                                            match r5 {
                                                Err(e) => (s5, Err(e)),
                                                Ok(value) => {
                                                    let acc1 = acc.push((key@, value));
                                                    let (s6, r6) = skip_ws(s5);
                                                    match r6 {
                                                        Err(e) => (s6, Err(e)),
                                                        Ok(_) => if s6.current.kind
                                                            == TokenKind::Comma {
                                                            let (s7, r7) = advance(s6);
                                                            match r7 {
                                                                Err(e) => (s7, Err(e)),
                                                                Ok(_) => {
                                                                    let (s8, r8) = skip_ws(s7);
                                                                    match r8 {
                                                                        Err(e) => (s8, Err(e)),
                                                                        Ok(_) => if measure(s8)
                                                                            < measure(s) {
                                                                            object_fields(
                                                                                s8,
                                                                                acc1,
                                                                            )
                                                                        } else {
                                                                            (s8, Ok(acc1))
                                                                        },
                                                                    }
                                                                },
                                                            }
                                                        } else {
                                                            (s6, Ok(acc1))
                                                        },
                                                    }
                                                },
                                            }
                                        },
                                    }
                                },
                            }
                        },
                    }
                },
            }
        },
        _ => (s, Err(unexpected(s.current))),
    }
}

/// Property accesses `.name` and indexing `[expr]` after a primary expression.
pub open spec fn postfix(s: ParserState, e: SpecExpr) -> Parsed<SpecExpr>
    decreases measure(s), 12nat,
{
    let (s1, r) = skip_ws(s);
    proof {
        lemma_skip_ws(s);
        lemma_advance(s1);
    }
    match r {
        Err(err) => (s1, Err(err)),
        Ok(_) => if s1.current.kind == TokenKind::Dot {
            let (s2, r2) = advance(s1);
            match r2 {
                Err(err) => (s2, Err(err)),
                Ok(_) => {
                    let (s3, r3) = skip_ws(s2);
                    proof {
                        lemma_skip_ws(s2);
                        lemma_advance(s3);
                    }
                    match r3 {
                        Err(err) => (s3, Err(err)),
                        Ok(_) => match s3.current.kind {
                            TokenKind::Ident(prop) => {
                                let (s4, r4) = advance(s3);
                                match r4 {
                                    Err(err) => (s4, Err(err)),
                                    Ok(_) => postfix(
                                        s4,
                                        SpecExpr::Property { object: Box::new(e), property: prop@ },
                                    ),
                                }
                            },
                            _ => (s3, Err(unexpected(s3.current))),
                        },
                    }
                },
            }
        } else if s1.current.kind == TokenKind::LBracket {
            let (s2, r2) = advance(s1);
            match r2 {
                Err(err) => (s2, Err(err)),
                Ok(_) => {
                    let (s3, r3) = expression(s2);
                    match r3 {
                        Err(err) => (s3, Err(err)),
                        Ok(index) => {
                            let (s4, r4) = expect(s3, TokenKind::RBracket);
                            let indexed = SpecExpr::Index {
                                array: Box::new(e),
                                index: Box::new(index),
                            };
                            match r4 {
                                Err(err) => (s4, Err(err)),
                                Ok(_) => if measure(s4) < measure(s) {
                                    postfix(s4, indexed)
                                } else {
                                    (s4, Ok(indexed))
                                },
                            }
                        },
                    }
                },
            }
        } else {
            (s1, Ok(e))
        },
    }
}

/// Parsing an expression never moves back, and a successful parse consumes a token.
pub proof fn lemma_expression(s: ParserState)
    ensures
        reports_well(expression(s).1),
        measure(expression(s).0) <= measure(s),
        expression(s).1 is Ok ==> measure(expression(s).0) < measure(s),
    decreases measure(s), 11nat,
{
    lemma_skip_ws(s);
    let (s1, r) = skip_ws(s);
    if r is Ok {
        lemma_equality(s1);
    }
}

/// Parsing never moves back, and a successful parse consumes a token.
pub proof fn lemma_equality(s: ParserState)
    ensures
        reports_well(equality(s).1),
        measure(equality(s).0) <= measure(s),
        equality(s).1 is Ok ==> measure(equality(s).0) < measure(s),
    decreases measure(s), 10nat,
{
    lemma_comparison(s);
    let (s1, r) = comparison(s);
    if let Ok(left) = r {
        if measure(s1) <= measure(s) {
            lemma_equality_rest(s1, left);
        }
    }
}

/// Parsing never moves back.
pub proof fn lemma_equality_rest(s: ParserState, left: SpecExpr)
    ensures
        reports_well(equality_rest(s, left).1),
        measure(equality_rest(s, left).0) <= measure(s),
    decreases measure(s), 9nat,
{
    if let Some(op) = equality_op(s.current.kind) {
        lemma_advance(s);
        let (s1, r) = advance(s);
        if r is Ok {
            lemma_comparison(s1);
            let (s2, r2) = comparison(s1);
            if let Ok(right) = r2 {
                if measure(s2) < measure(s) {
                    lemma_equality_rest(s2, binary(left, op, right));
                }
            }
        }
    }
}

/// Parsing never moves back, and a successful parse consumes a token.
pub proof fn lemma_comparison(s: ParserState)
    ensures
        reports_well(comparison(s).1),
        measure(comparison(s).0) <= measure(s),
        comparison(s).1 is Ok ==> measure(comparison(s).0) < measure(s),
    decreases measure(s), 8nat,
{
    lemma_additive(s);
    let (s1, r) = additive(s);
    if let Ok(left) = r {
        if measure(s1) <= measure(s) {
            lemma_comparison_rest(s1, left);
        }
    }
}

/// Parsing never moves back.
pub proof fn lemma_comparison_rest(s: ParserState, left: SpecExpr)
    ensures
        reports_well(comparison_rest(s, left).1),
        measure(comparison_rest(s, left).0) <= measure(s),
    decreases measure(s), 7nat,
{
    if let Some(op) = comparison_op(s.current.kind) {
        lemma_advance(s);
        let (s1, r) = advance(s);
        if r is Ok {
            lemma_additive(s1);
            let (s2, r2) = additive(s1);
            if let Ok(right) = r2 {
                if measure(s2) < measure(s) {
                    lemma_comparison_rest(s2, binary(left, op, right));
                }
            }
        }
    }
}

/// Parsing never moves back, and a successful parse consumes a token.
pub proof fn lemma_additive(s: ParserState)
    ensures
        reports_well(additive(s).1),
        measure(additive(s).0) <= measure(s),
        additive(s).1 is Ok ==> measure(additive(s).0) < measure(s),
    decreases measure(s), 6nat,
{
    lemma_multiplicative(s);
    let (s1, r) = multiplicative(s);
    if let Ok(left) = r {
        if measure(s1) <= measure(s) {
            lemma_additive_rest(s1, left);
        }
    }
}

/// Parsing never moves back.
pub proof fn lemma_additive_rest(s: ParserState, left: SpecExpr)
    ensures
        reports_well(additive_rest(s, left).1),
        measure(additive_rest(s, left).0) <= measure(s),
    decreases measure(s), 5nat,
{
    if let Some(op) = additive_op(s.current.kind) {
        lemma_advance(s);
        let (s1, r) = advance(s);
        if r is Ok {
            lemma_multiplicative(s1);
            let (s2, r2) = multiplicative(s1);
            if let Ok(right) = r2 {
                if measure(s2) < measure(s) {
                    lemma_additive_rest(s2, binary(left, op, right));
                }
            }
        }
    }
}

/// Parsing never moves back, and a successful parse consumes a token.
pub proof fn lemma_multiplicative(s: ParserState)
    ensures
        reports_well(multiplicative(s).1),
        measure(multiplicative(s).0) <= measure(s),
        multiplicative(s).1 is Ok ==> measure(multiplicative(s).0) < measure(s),
    decreases measure(s), 4nat,
{
    lemma_unary(s);
    let (s1, r) = unary(s);
    if let Ok(left) = r {
        if measure(s1) <= measure(s) {
            lemma_multiplicative_rest(s1, left);
        }
    }
}

/// Parsing never moves back.
pub proof fn lemma_multiplicative_rest(s: ParserState, left: SpecExpr)
    ensures
        reports_well(multiplicative_rest(s, left).1),
        measure(multiplicative_rest(s, left).0) <= measure(s),
    decreases measure(s), 3nat,
{
    if let Some(op) = multiplicative_op(s.current.kind) {
        lemma_advance(s);
        let (s1, r) = advance(s);
        if r is Ok {
            lemma_unary(s1);
            let (s2, r2) = unary(s1);
            if let Ok(right) = r2 {
                if measure(s2) < measure(s) {
                    lemma_multiplicative_rest(s2, binary(left, op, right));
                }
            }
        }
    }
}

/// Parsing never moves back, and a successful parse consumes a token.
pub proof fn lemma_unary(s: ParserState)
    ensures
        reports_well(unary(s).1),
        measure(unary(s).0) <= measure(s),
        unary(s).1 is Ok ==> measure(unary(s).0) < measure(s),
    decreases measure(s), 2nat,
{
    lemma_skip_ws(s);
    let (s1, r) = skip_ws(s);
    if r is Ok {
        lemma_advance(s1);
        if s1.current.kind == TokenKind::Minus || s1.current.kind == TokenKind::Bang {
            let (s2, r2) = advance(s1);
            if r2 is Ok {
                lemma_unary(s2);
            }
        } else {
            lemma_primary(s1);
        }
    }
}

/// Parsing never moves back, and a successful parse consumes a token.
pub proof fn lemma_primary(s: ParserState)
    ensures
        reports_well(primary(s).1),
        measure(primary(s).0) <= measure(s),
        primary(s).1 is Ok ==> measure(primary(s).0) < measure(s),
    decreases measure(s), 1nat,
{
    lemma_skip_ws(s);
    let (s1, r) = skip_ws(s);
    if r is Ok {
        lemma_advance(s1);
        let (s2, r2) = advance(s1);
        match s1.current.kind {
            TokenKind::Ident(name) => {
                if r2 is Ok {
                    lemma_skip_ws(s2);
                    let (s3, r3) = skip_ws(s2);
                    if r3 is Ok {
                        if s3.current.kind == TokenKind::LParen {
                            lemma_advance(s3);
                            let (s4, r4) = advance(s3);
                            if r4 is Ok {
                                lemma_call_args(s4, SpecExpr::Ident(name@));
                                let (s5, r5) = call_args(s4, SpecExpr::Ident(name@));
                                if let Ok(call) = r5 {
                                    if measure(s5) < measure(s) {
                                        lemma_postfix(s5, call);
                                    }
                                }
                            }
                        } else {
                            lemma_postfix(s3, SpecExpr::Ident(name@));
                        }
                    }
                }
            },
            TokenKind::LParen => {
                if r2 is Ok {
                    lemma_expression(s2);
                    let (s3, r3) = expression(s2);
                    lemma_expect(s3, TokenKind::RParen);
                }
            },
            TokenKind::LBracket => {
                if r2 is Ok {
                    lemma_array_literal(s2);
                }
            },
            TokenKind::LBrace => {
                if r2 is Ok {
                    lemma_object_literal(s2);
                }
            },
            _ => {},
        }
    }
}

/// Parsing never moves back.
pub proof fn lemma_call_args(s: ParserState, callee: SpecExpr)
    ensures
        reports_well(call_args(s, callee).1),
        measure(call_args(s, callee).0) <= measure(s),
    decreases measure(s), 13nat,
{
    lemma_skip_ws(s);
    let (s1, r1) = skip_ws(s);
    if r1 is Ok {
        if s1.current.kind != TokenKind::RParen {
            lemma_comma_exprs(s1, Seq::empty());
        }
        let (s2, r2) = if s1.current.kind != TokenKind::RParen {
            comma_exprs(s1, Seq::empty())
        } else {
            (s1, Ok(Seq::empty()))
        };
        lemma_expect(s2, TokenKind::RParen);
    }
}

/// Parsing never moves back.
pub proof fn lemma_array_literal(s: ParserState)
    ensures
        reports_well(array_literal(s).1),
        measure(array_literal(s).0) <= measure(s),
    decreases measure(s), 13nat,
{
    lemma_skip_ws(s);
    let (s1, r1) = skip_ws(s);
    if r1 is Ok {
        if s1.current.kind != TokenKind::RBracket {
            lemma_comma_exprs(s1, Seq::empty());
        }
        let (s2, r2) = if s1.current.kind != TokenKind::RBracket {
            comma_exprs(s1, Seq::empty())
        } else {
            (s1, Ok(Seq::empty()))
        };
        lemma_expect(s2, TokenKind::RBracket);
    }
}

/// Parsing never moves back.
pub proof fn lemma_object_literal(s: ParserState)
    ensures
        reports_well(object_literal(s).1),
        measure(object_literal(s).0) <= measure(s),
    decreases measure(s), 13nat,
{
    lemma_skip_ws(s);
    let (s1, r1) = skip_ws(s);
    if r1 is Ok {
        if s1.current.kind != TokenKind::RBrace {
            lemma_object_fields(s1, Seq::empty());
        }
        let (s2, r2) = if s1.current.kind != TokenKind::RBrace {
            object_fields(s1, Seq::empty())
        } else {
            (s1, Ok(Seq::empty()))
        };
        lemma_expect(s2, TokenKind::RBrace);
    }
}

/// Parsing never moves back, and a successful parse consumes a token.
pub proof fn lemma_comma_exprs(s: ParserState, acc: Seq<SpecExpr>)
    ensures
        reports_well(comma_exprs(s, acc).1),
        measure(comma_exprs(s, acc).0) <= measure(s),
        comma_exprs(s, acc).1 is Ok ==> measure(comma_exprs(s, acc).0) < measure(s),
    decreases measure(s), 12nat,
{
    lemma_expression(s);
    let (s1, r) = expression(s);
    if let Ok(item) = r {
        lemma_skip_ws(s1);
        let (s2, r2) = skip_ws(s1);
        if r2 is Ok && s2.current.kind == TokenKind::Comma {
            lemma_advance(s2);
            let (s3, r3) = advance(s2);
            if r3 is Ok {
                lemma_skip_ws(s3);
                let (s4, r4) = skip_ws(s3);
                if r4 is Ok && measure(s4) < measure(s) {
                    lemma_comma_exprs(s4, acc.push(item));
                }
            }
        }
    }
}

/// Parsing never moves back, and a successful parse consumes a token.
pub proof fn lemma_object_fields(s: ParserState, acc: Seq<(Seq<char>, SpecExpr)>)
    ensures
        s.current.kind != TokenKind::Semicolon ==> reports_well(object_fields(s, acc).1),
        measure(object_fields(s, acc).0) <= measure(s),
        object_fields(s, acc).1 is Ok ==> measure(object_fields(s, acc).0) < measure(s),
    decreases measure(s), 12nat,
{
    if let TokenKind::Ident(key) = s.current.kind {
        lemma_advance(s);
        let (s1, r1) = advance(s);
        if r1 is Ok {
            lemma_skip_ws(s1);
            let (s2, r2) = skip_ws(s1);
            if r2 is Ok {
                lemma_expect(s2, TokenKind::Colon);
                let (s3, r3) = expect(s2, TokenKind::Colon);
                if r3 is Ok {
                    lemma_skip_ws(s3);
                    let (s4, r4) = skip_ws(s3);
                    if r4 is Ok {
                        lemma_expression(s4);
                        let (s5, r5) = expression(s4);
                        if let Ok(value) = r5 {
                            lemma_skip_ws(s5);
                            let (s6, r6) = skip_ws(s5);
                            if r6 is Ok && s6.current.kind == TokenKind::Comma {
                                lemma_advance(s6);
                                let (s7, r7) = advance(s6);
                                if r7 is Ok {
                                    lemma_skip_ws(s7);
                                    let (s8, r8) = skip_ws(s7);
                                    if r8 is Ok && measure(s8) < measure(s) {
                                        lemma_object_fields(s8, acc.push((key@, value)));
                                    }
                                }
                            }
                        }
                    }
                }
            }
        }
    }
}

/// Parsing never moves back.
pub proof fn lemma_postfix(s: ParserState, e: SpecExpr)
    ensures
        reports_well(postfix(s, e).1),
        measure(postfix(s, e).0) <= measure(s),
    decreases measure(s), 12nat,
{
    lemma_skip_ws(s);
    let (s1, r) = skip_ws(s);
    if r is Ok {
        lemma_advance(s1);
        let (s2, r2) = advance(s1);
        if s1.current.kind == TokenKind::Dot {
            if r2 is Ok {
                lemma_skip_ws(s2);
                let (s3, r3) = skip_ws(s2);
                if r3 is Ok {
                    if let TokenKind::Ident(prop) = s3.current.kind {
                        lemma_advance(s3);
                        let (s4, r4) = advance(s3);
                        if r4 is Ok {
                            lemma_postfix(
                                s4,
                                SpecExpr::Property { object: Box::new(e), property: prop@ },
                            );
                        }
                    }
                }
            }
        } else if s1.current.kind == TokenKind::LBracket {
            if r2 is Ok {
                lemma_expression(s2);
                let (s3, r3) = expression(s2);
                if let Ok(index) = r3 {
                    lemma_expect(s3, TokenKind::RBracket);
                    let (s4, r4) = expect(s3, TokenKind::RBracket);
                    if r4 is Ok && measure(s4) < measure(s) {
                        lemma_postfix(
                            s4,
                            SpecExpr::Index { array: Box::new(e), index: Box::new(index) },
                        );
                    }
                }
            }
        }
    }
}

/// `let name = value`.
pub open spec fn let_stmt(s: ParserState) -> Parsed<SpecStmt> {
    let (s1, r1) = advance(s);
    match r1 {
        Err(e) => (s1, Err(e)),
        Ok(_) => {
            let (s2, r2) = skip_ws(s1);
            match r2 {
                Err(e) => (s2, Err(e)),
                Ok(_) => match s2.current.kind {
                    TokenKind::Ident(name) => {
                        let (s3, r3) = advance(s2);
                        match r3 {
                            Err(e) => (s3, Err(e)),
                            Ok(_) => {
                                let (s4, r4) = skip_ws(s3);
                                match r4 {
                                    Err(e) => (s4, Err(e)),
                                    Ok(_) => {
                                        let (s5, r5) = expect(s4, TokenKind::Equal);
                                        match r5 {
                                            Err(e) => (s5, Err(e)),
                                            Ok(_) => {
                                                let (s6, r6) = skip_ws(s5);
                                                match r6 {
                                                    Err(e) => (s6, Err(e)),
                                                    Ok(_) => {
                                                        let (s7, r7) = expression(s6);
                                                        match r7 {
                                                            Err(e) => (s7, Err(e)),
                                                            Ok(value) => (
                                                                s7,
                                                                Ok(
                                                                    SpecStmt::Let {
                                                                        name: name@,
                                                                        value,
                                                                    },
                                                                ),
                                                            ),
                                                        }
                                                    },
                                                }
                                            },
                                        }
                                    },
                                }
                            },
                        }
                    },
                    _ => (s2, Err(unexpected(s2.current))),
                },
            }
        },
    }
}

/// `return value`.
pub open spec fn return_stmt(s: ParserState) -> Parsed<SpecStmt> {
    let (s1, r1) = advance(s);
    match r1 {
        Err(e) => (s1, Err(e)),
        Ok(_) => {
            let (s2, r2) = skip_ws(s1);
            match r2 {
                Err(e) => (s2, Err(e)),
                Ok(_) => {
                    let (s3, r3) = expression(s2);
                    match r3 {
                        Err(e) => (s3, Err(e)),
                        Ok(value) => (s3, Ok(SpecStmt::Return { value })),
                    }
                },
            }
        },
    }
}

/// An expression used as a statement.
pub open spec fn expr_stmt(s: ParserState) -> Parsed<SpecStmt> {
    let (s1, r1) = expression(s);
    match r1 {
        Err(e) => (s1, Err(e)),
        Ok(expr) => (s1, Ok(SpecStmt::ExprStmt { expr })),
    }
}

/// The `[index]` suffixes of an assignment target.
pub open spec fn assign_targets(s: ParserState, target: SpecExpr) -> Parsed<SpecExpr>
    decreases measure(s),
{
    if s.current.kind == TokenKind::LBracket {
        let (s1, r1) = advance(s);
        proof {
            lemma_advance(s);
        }
        match r1 {
            Err(e) => (s1, Err(e)),
            Ok(_) => {
                let (s2, r2) = expression(s1);
                proof {
                    lemma_expression(s1);
                }
                match r2 {
                    Err(e) => (s2, Err(e)),
                    Ok(index) => {
                        let (s3, r3) = expect(s2, TokenKind::RBracket);
                        proof {
                            lemma_expect(s2, TokenKind::RBracket);
                        }
                        match r3 {
                            Err(e) => (s3, Err(e)),
                            Ok(_) => {
                                let (s4, r4) = skip_ws(s3);
                                proof {
                                    lemma_skip_ws(s3);
                                }
                                let indexed = SpecExpr::Index {
                                    array: Box::new(target),
                                    index: Box::new(index),
                                };
                                match r4 {
                                    Err(e) => (s4, Err(e)),
                                    Ok(_) => assign_targets(s4, indexed),
                                }
                            },
                        }
                    },
                }
            },
        }
    } else {
        (s, Ok(target))
    }
}

/// `name = value` or `name[index]... = value`.
pub open spec fn assign_stmt(s: ParserState) -> Parsed<SpecStmt> {
    match s.current.kind {
        TokenKind::Ident(name) => {
            let (s1, r1) = advance(s);
            match r1 {
                Err(e) => (s1, Err(e)),
                Ok(_) => {
                    let (s2, r2) = skip_ws(s1);
                    match r2 {
                        Err(e) => (s2, Err(e)),
                        Ok(_) => {
                            let (s3, r3) = assign_targets(s2, SpecExpr::Ident(name@));
                            match r3 {
                                Err(e) => (s3, Err(e)),
                                Ok(target) => {
                                    let (s4, r4) = expect(s3, TokenKind::Equal);
                                    match r4 {
                                        Err(e) => (s4, Err(e)),
                                        Ok(_) => {
                                            let (s5, r5) = skip_ws(s4);
                                            match r5 {
                                                Err(e) => (s5, Err(e)),
                                                Ok(_) => {
                                                    let (s6, r6) = expression(s5);
                                                    match r6 {
                                                        Err(e) => (s6, Err(e)),
                                                        Ok(value) => match target {
                                                            SpecExpr::Index {
                                                                array,
                                                                index,
                                                            } => (
                                                                s6,
                                                                Ok(
                                                                    SpecStmt::ArrayAssign {
                                                                        array: *array,
                                                                        index: *index,
                                                                        value,
                                                                    },
                                                                ),
                                                            ),
                                                            SpecExpr::Ident(n) => (
                                                                s6,
                                                                Ok(
                                                                    SpecStmt::Assign {
                                                                        name: n,
                                                                        value,
                                                                    },
                                                                ),
                                                            ),
                                                            _ => (
                                                                s6,
                                                                Err(unexpected(s6.current)),
                                                            ),
                                                        },
                                                    }
                                                },
                                            }
                                        },
                                    }
                                },
                            }
                        },
                    }
                },
            }
        },
        _ => (s, Err(unexpected(s.current))),
    }
}

/// `object.property = value`.
pub open spec fn object_assign_stmt(s: ParserState) -> Parsed<SpecStmt> {
    match s.current.kind {
        TokenKind::Ident(obj) => {
            let (s1, r1) = advance(s);
            match r1 {
                Err(e) => (s1, Err(e)),
                Ok(_) => {
                    let (s2, r2) = skip_ws(s1);
                    match r2 {
                        Err(e) => (s2, Err(e)),
                        Ok(_) => {
                            let (s3, r3) = expect(s2, TokenKind::Dot);
                            match r3 {
                                Err(e) => (s3, Err(e)),
                                Ok(_) => {
                                    let (s4, r4) = skip_ws(s3);
                                    match r4 {
                                        Err(e) => (s4, Err(e)),
                                        Ok(_) => match s4.current.kind {
                                            TokenKind::Ident(prop) => {
                                                let (s5, r5) = advance(s4);
                                                match r5 {
                                                    Err(e) => (s5, Err(e)),
                                                    Ok(_) => {
                                                        let (s6, r6) = skip_ws(s5);
                                                        match r6 {
                                                            Err(e) => (s6, Err(e)),
                                                            Ok(_) => {
                                                                let (s7, r7) = expect(
                                                                    s6,
                                                                    TokenKind::Equal,
                                                                );
                                                                match r7 {
                                                                    Err(e) => (s7, Err(e)),
                                                                    Ok(_) => {
                                                                        let (s8, r8) = skip_ws(s7);
                                                                        match r8 {
                                                                            Err(e) => (s8, Err(e)),
                                                                            Ok(_) => {
                                                                                let (s9, r9) =
                                                                                    expression(s8);
                                                                                match r9 {
                                                                                    Err(e) => (
                                                                                        s9,
                                                                                        Err(e),
                                                                                    ),
                                                                                    Ok(value) => (
                                                                                        s9,
                                                                                        Ok(
                                                                                            SpecStmt::ObjectAssign {
                                                                                                object: SpecExpr::Ident(obj@),
                                                                                                property: prop@,
                                                                                                value,
                                                                                            },
                                                                                        ),
                                                                                    ),
                                                                                }
                                                                            },
                                                                        }
                                                                    },
                                                                }
                                                            },
                                                        }
                                                    },
                                                }
                                            },
                                            _ => (s4, Err(unexpected(s4.current))),
                                        },
                                    }
                                },
                            }
                        },
                    }
                },
            }
        },
        _ => (s, Err(unexpected(s.current))),
    }
}

/// A statement: semicolons are skipped, then the current token chooses the
/// kind of statement. An identifier followed by `[` or `=` starts an
/// assignment, one followed by `.` a property assignment, and any other one
/// an expression.
pub open spec fn statement(s: ParserState) -> Parsed<SpecStmt>
    decreases measure(s), 2nat,
{
    let (s1, r1) = skip_ws(s);
    proof {
        lemma_skip_ws(s);
    }
    match r1 {
        Err(e) => (s1, Err(e)),
        Ok(_) => match s1.current.kind {
            TokenKind::KeywordLet => let_stmt(s1),
            TokenKind::KeywordReturn => return_stmt(s1),
            TokenKind::KeywordWhile => while_stmt(s1),
            TokenKind::KeywordIf => if_stmt(s1),
            TokenKind::LBrace => block(s1),
            TokenKind::Ident(_) => match lex_next(s1.lex).1 {
                Err(e) => (s1, Err(ParseError::Lex(e))),
                Ok(next) => if next.kind == TokenKind::LBracket {
                    assign_stmt(s1)
                } else if next.kind == TokenKind::Dot {
                    object_assign_stmt(s1)
                } else if next.kind == TokenKind::Equal {
                    assign_stmt(s1)
                } else {
                    expr_stmt(s1)
                },
            },
            _ => expr_stmt(s1),
        },
    }
}

/// A block: `{`, statements up to `}` or the end of input, `}`.
pub open spec fn block(s: ParserState) -> Parsed<SpecStmt>
    decreases measure(s), 0nat,
{
    let (s1, r1) = skip_ws(s);
    match r1 {
        Err(e) => (s1, Err(e)),
        Ok(_) => {
            let (s2, r2) = expect(s1, TokenKind::LBrace);
            match r2 {
                Err(e) => (s2, Err(e)),
                Ok(_) => {
                    let (s3, r3) = skip_ws(s2);
                    proof {
                        lemma_skip_ws(s);
                        lemma_expect(s1, TokenKind::LBrace);
                        lemma_skip_ws(s2);
                    }
                    match r3 {
                        Err(e) => (s3, Err(e)),
                        Ok(_) => {
                            let (s4, r4) = block_stmts(s3, Seq::empty());
                            match r4 {
                                Err(e) => (s4, Err(e)),
                                Ok(stmts) => {
                                    let (s5, r5) = expect(s4, TokenKind::RBrace);
                                    match r5 {
                                        Err(e) => (s5, Err(e)),
                                        Ok(_) => (s5, Ok(SpecStmt::Block { stmts })),
                                    }
                                },
                            }
                        },
                    }
                },
            }
        },
    }
}

/// The statements of a block, each followed by optional semicolons.
pub open spec fn block_stmts(s: ParserState, acc: Seq<SpecStmt>) -> Parsed<Seq<SpecStmt>>
    decreases measure(s), 3nat,
{
    if s.current.kind != TokenKind::RBrace && s.current.kind != TokenKind::Eof {
        let (s1, r1) = statement(s);
        match r1 {
            Err(e) => (s1, Err(e)),
            Ok(st) => {
                let (s2, r2) = skip_ws(s1);
                match r2 {
                    Err(e) => (s2, Err(e)),
                    Ok(_) => if measure(s2) < measure(s) {
                        block_stmts(s2, acc.push(st))
                    } else {
                        (s2, Ok(acc.push(st)))
                    },
                }
            },
        }
    } else {
        (s, Ok(acc))
    }
}

/// `while condition { ... }`.
pub open spec fn while_stmt(s: ParserState) -> Parsed<SpecStmt>
    decreases measure(s), 1nat,
{
    let (s1, r1) = advance(s);
    match r1 {
        Err(e) => (s1, Err(e)),
        Ok(_) => {
            let (s2, r2) = skip_ws(s1);
            match r2 {
                Err(e) => (s2, Err(e)),
                Ok(_) => {
                    let (s3, r3) = expression(s2);
                    match r3 {
                        Err(e) => (s3, Err(e)),
                        Ok(condition) => {
                            let (s4, r4) = skip_ws(s3);
                            proof {
                                lemma_advance(s);
                                lemma_skip_ws(s1);
                                lemma_expression(s2);
                                lemma_skip_ws(s3);
                            }
                            match r4 {
                                Err(e) => (s4, Err(e)),
                                Ok(_) => {
                                    let (s5, r5) = block(s4);
                                    match r5 {
                                        Err(e) => (s5, Err(e)),
                                        Ok(body) => (
                                            s5,
                                            Ok(SpecStmt::While { condition, body: Box::new(body) }),
                                        ),
                                    }
                                },
                            }
                        },
                    }
                },
            }
        },
    }
}

/// `if condition { ... }`, with an optional `else { ... }`.
pub open spec fn if_stmt(s: ParserState) -> Parsed<SpecStmt>
    decreases measure(s), 1nat,
{
    let (s1, r1) = advance(s);
    match r1 {
        Err(e) => (s1, Err(e)),
        Ok(_) => {
            let (s2, r2) = skip_ws(s1);
            match r2 {
                Err(e) => (s2, Err(e)),
                Ok(_) => {
                    let (s3, r3) = expression(s2);
                    match r3 {
                        Err(e) => (s3, Err(e)),
                        Ok(condition) => {
                            let (s4, r4) = skip_ws(s3);
                            proof {
                                lemma_advance(s);
                                lemma_skip_ws(s1);
                                lemma_expression(s2);
                                lemma_skip_ws(s3);
                            }
                            match r4 {
                                Err(e) => (s4, Err(e)),
                                Ok(_) => {
                                    let (s5, r5) = block(s4);
                                    match r5 {
                                        Err(e) => (s5, Err(e)),
                                        Ok(then_branch) => {
                                            let (s6, r6) = skip_ws(s5);
                                            match r6 {
                                                Err(e) => (s6, Err(e)),
                                                Ok(_) => if s6.current.kind
                                                    == TokenKind::KeywordElse {
                                                    let (s7, r7) = advance(s6);
                                                    match r7 {
                                                        Err(e) => (s7, Err(e)),
                                                        Ok(_) => {
                                                            let (s8, r8) = skip_ws(s7);
                                                            proof {
                                                                lemma_skip_ws(s5);
                                                                lemma_advance(s6);
                                                                lemma_skip_ws(s7);
                                                            }
                                                            match r8 {
                                                                Err(e) => (s8, Err(e)),
                                                                Ok(_) => {
                                                                    let (s9, r9) = if measure(s5)
                                                                        <= measure(s) {
                                                                        block(s8)
                                                                    } else {
                                                                        (s8, Ok(then_branch))
                                                                    };
                                                                    match r9 {
                                                                        Err(e) => (s9, Err(e)),
                                                                        Ok(else_branch) => (
                                                                            s9,
                                                                            Ok(
                                                                                SpecStmt::If {
                                                                                    condition,
                                                                                    then_branch: Box::new(
                                                                                        then_branch,
                                                                                    ),
                                                                                    else_branch: Some(
                                                                                        Box::new(
                                                                                            else_branch,
                                                                                        ),
                                                                                    ),
                                                                                },
                                                                            ),
                                                                        ),
                                                                    }
                                                                },
                                                            }
                                                        },
                                                    }
                                                } else {
                                                    (
                                                        s6,
                                                        Ok(
                                                            SpecStmt::If {
                                                                condition,
                                                                then_branch: Box::new(then_branch),
                                                                else_branch: None,
                                                            },
                                                        ),
                                                    )
                                                },
                                            }
                                        },
                                    }
                                },
                            }
                        },
                    }
                },
            }
        },
    }
}

/// The comma-separated parameter names of a function.
pub open spec fn param_names(s: ParserState, acc: Seq<Seq<char>>) -> Parsed<Seq<Seq<char>>>
    decreases measure(s),
{
    match s.current.kind {
        TokenKind::Ident(p) => {
            let acc1 = acc.push(p@);
            let (s1, r1) = advance(s);
            match r1 {
                Err(e) => (s1, Err(e)),
                Ok(_) => {
                    let (s2, r2) = skip_ws(s1);
                    match r2 {
                        Err(e) => (s2, Err(e)),
                        Ok(_) => if s2.current.kind == TokenKind::Comma {
                            let (s3, r3) = advance(s2);
                            match r3 {
                                Err(e) => (s3, Err(e)),
                                Ok(_) => {
                                    let (s4, r4) = skip_ws(s3);
                                    proof {
                                        lemma_advance(s);
                                        lemma_skip_ws(s1);
                                        lemma_advance(s2);
                                        lemma_skip_ws(s3);
                                    }
                                    match r4 {
                                        Err(e) => (s4, Err(e)),
                                        Ok(_) => param_names(s4, acc1),
                                    }
                                },
                            }
                        } else {
                            (s2, Ok(acc1))
                        },
                    }
                },
            }
        },
        _ => (s, Err(unexpected(s.current))),
    }
}

/// `fn name(params) { ... }`.
pub open spec fn function_decl(s: ParserState) -> Parsed<SpecStmt> {
    let (s1, r1) = advance(s);
    match r1 {
        Err(e) => (s1, Err(e)),
        Ok(_) => {
            let (s2, r2) = skip_ws(s1);
            match r2 {
                Err(e) => (s2, Err(e)),
                Ok(_) => match s2.current.kind {
                    TokenKind::Ident(name) => {
                        let (s3, r3) = advance(s2);
                        match r3 {
                            Err(e) => (s3, Err(e)),
                            Ok(_) => {
                                let (s4, r4) = skip_ws(s3);
                                match r4 {
                                    Err(e) => (s4, Err(e)),
                                    Ok(_) => {
                                        let (s5, r5) = expect(s4, TokenKind::LParen);
                                        match r5 {
                                            Err(e) => (s5, Err(e)),
                                            Ok(_) => {
                                                let (s6, r6) = skip_ws(s5);
                                                match r6 {
                                                    Err(e) => (s6, Err(e)),
                                                    Ok(_) => {
                                                        let (s7, r7) = if s6.current.kind
                                                            != TokenKind::RParen {
                                                            param_names(s6, Seq::empty())
                                                        } else {
                                                            (s6, Ok(Seq::empty()))
                                                        };
                                                        match r7 {
                                                            Err(e) => (s7, Err(e)),
                                                            Ok(params) => {
                                                                let (s8, r8) = expect(
                                                                    s7,
                                                                    TokenKind::RParen,
                                                                );
                                                                match r8 {
                                                                    Err(e) => (s8, Err(e)),
                                                                    Ok(_) => {
                                                                        let (s9, r9) = skip_ws(s8);
                                                                        match r9 {
                                                                            Err(e) => (s9, Err(e)),
                                                                            Ok(_) => {
                                                                                let (s10, r10) =
                                                                                    block(s9);
                                                                                match r10 {
                                                                                    Err(e) => (
                                                                                        s10,
                                                                                        Err(e),
                                                                                    ),
                                                                                    Ok(body) => (
                                                                                        s10,
                                                                                        Ok(
                                                                                            SpecStmt::Function {
                                                                                                name: name@,
                                                                                                params,
                                                                                                body: Box::new(body),
                                                                                            },
                                                                                        ),
                                                                                    ),
                                                                                }
                                                                            },
                                                                        }
                                                                    },
                                                                }
                                                            },
                                                        }
                                                    },
                                                }
                                            },
                                        }
                                    },
                                }
                            },
                        }
                    },
                    _ => (s2, Err(unexpected(s2.current))),
                },
            }
        },
    }
}

/// A top-level statement: a function declaration, or any statement.
pub open spec fn top_level(s: ParserState) -> Parsed<SpecStmt> {
    let (s1, r1) = skip_ws(s);
    match r1 {
        Err(e) => (s1, Err(e)),
        Ok(_) => match s1.current.kind {
            TokenKind::KeywordFn => function_decl(s1),
            TokenKind::KeywordLet => let_stmt(s1),
            TokenKind::KeywordReturn => return_stmt(s1),
            TokenKind::LBrace => block(s1),
            _ => statement(s1),
        },
    }
}

/// The statements of a program up to the end of input, each followed by optional semicolons.
pub open spec fn program_stmts(s: ParserState, acc: Seq<SpecStmt>) -> Parsed<Seq<SpecStmt>>
    decreases measure(s),
{
    if s.current.kind != TokenKind::Eof {
        let (s1, r1) = top_level(s);
        match r1 {
            Err(e) => (s1, Err(e)),
            Ok(st) => {
                let (s2, r2) = skip_ws(s1);
                proof {
                    lemma_top_level(s);
                    lemma_skip_ws(s1);
                }
                match r2 {
                    Err(e) => (s2, Err(e)),
                    Ok(_) => program_stmts(s2, acc.push(st)),
                }
            },
        }
    } else {
        (s, Ok(acc))
    }
}

/// A whole program: leading semicolons, then top-level statements up to the end of input.
pub open spec fn program(s: ParserState) -> Parsed<Seq<SpecStmt>> {
    let (s1, r1) = skip_ws(s);
    match r1 {
        Err(e) => (s1, Err(e)),
        Ok(_) => program_stmts(s1, Seq::empty()),
    }
}

/// The state of a parser of `src` after it has read the first token.
pub open spec fn start(src: Seq<char>) -> Result<ParserState, ParseError> {
    let (l, r) = lex_next(LexerState::start(src));
    match r {
        Ok(t) => Ok(ParserState { lex: l, current: t }),
        Err(e) => Err(ParseError::Lex(e)),
    }
}

/// Parsing never moves back, and a successful parse consumes a token.
pub proof fn lemma_let_stmt(s: ParserState)
    ensures
        reports_well(let_stmt(s).1),
        measure(let_stmt(s).0) <= measure(s),
        let_stmt(s).1 is Ok ==> measure(let_stmt(s).0) < measure(s),
{
    lemma_advance(s);
    let (s1, r1) = advance(s);
    lemma_skip_ws(s1);
    let (s2, r2) = skip_ws(s1);
    lemma_advance(s2);
    let (s3, r3) = advance(s2);
    lemma_skip_ws(s3);
    let (s4, r4) = skip_ws(s3);
    lemma_expect(s4, TokenKind::Equal);
    let (s5, r5) = expect(s4, TokenKind::Equal);
    lemma_skip_ws(s5);
    let (s6, r6) = skip_ws(s5);
    lemma_expression(s6);
}

/// Parsing never moves back, and a successful parse consumes a token.
pub proof fn lemma_return_stmt(s: ParserState)
    ensures
        reports_well(return_stmt(s).1),
        measure(return_stmt(s).0) <= measure(s),
        return_stmt(s).1 is Ok ==> measure(return_stmt(s).0) < measure(s),
{
    lemma_advance(s);
    let (s1, r1) = advance(s);
    lemma_skip_ws(s1);
    let (s2, r2) = skip_ws(s1);
    lemma_expression(s2);
}

/// Parsing never moves back, and a successful parse consumes a token.
pub proof fn lemma_expr_stmt(s: ParserState)
    ensures
        reports_well(expr_stmt(s).1),
        measure(expr_stmt(s).0) <= measure(s),
        expr_stmt(s).1 is Ok ==> measure(expr_stmt(s).0) < measure(s),
{
    lemma_expression(s);
}

/// Parsing never moves back.
pub proof fn lemma_assign_targets(s: ParserState, target: SpecExpr)
    ensures
        reports_well(assign_targets(s, target).1),
        assign_targets(s, target).1 matches Ok(t) ==> t == target || t is Index,
        measure(assign_targets(s, target).0) <= measure(s),
    decreases measure(s),
{
    if s.current.kind == TokenKind::LBracket {
        lemma_advance(s);
        let (s1, r1) = advance(s);
        if r1 is Ok {
            lemma_expression(s1);
            let (s2, r2) = expression(s1);
            if let Ok(index) = r2 {
                lemma_expect(s2, TokenKind::RBracket);
                let (s3, r3) = expect(s2, TokenKind::RBracket);
                if r3 is Ok {
                    lemma_skip_ws(s3);
                    let (s4, r4) = skip_ws(s3);
                    if r4 is Ok {
                        lemma_assign_targets(
                            s4,
                            SpecExpr::Index { array: Box::new(target), index: Box::new(index) },
                        );
                    }
                }
            }
        }
    }
}

/// Parsing never moves back, and a successful parse consumes a token.
pub proof fn lemma_assign_stmt(s: ParserState)
    ensures
        s.current.kind != TokenKind::Semicolon ==> reports_well(assign_stmt(s).1),
        measure(assign_stmt(s).0) <= measure(s),
        assign_stmt(s).1 is Ok ==> measure(assign_stmt(s).0) < measure(s),
{
    if let TokenKind::Ident(name) = s.current.kind {
        lemma_advance(s);
        let (s1, r1) = advance(s);
        lemma_skip_ws(s1);
        let (s2, r2) = skip_ws(s1);
        lemma_assign_targets(s2, SpecExpr::Ident(name@));
        let (s3, r3) = assign_targets(s2, SpecExpr::Ident(name@));
        lemma_expect(s3, TokenKind::Equal);
        let (s4, r4) = expect(s3, TokenKind::Equal);
        lemma_skip_ws(s4);
        let (s5, r5) = skip_ws(s4);
        lemma_expression(s5);
    }
}

/// Parsing never moves back, and a successful parse consumes a token.
pub proof fn lemma_object_assign_stmt(s: ParserState)
    ensures
        s.current.kind != TokenKind::Semicolon ==> reports_well(object_assign_stmt(s).1),
        measure(object_assign_stmt(s).0) <= measure(s),
        object_assign_stmt(s).1 is Ok ==> measure(object_assign_stmt(s).0) < measure(s),
{
    if let TokenKind::Ident(obj) = s.current.kind {
        lemma_advance(s);
        let (s1, r1) = advance(s);
        lemma_skip_ws(s1);
        let (s2, r2) = skip_ws(s1);
        lemma_expect(s2, TokenKind::Dot);
        let (s3, r3) = expect(s2, TokenKind::Dot);
        lemma_skip_ws(s3);
        let (s4, r4) = skip_ws(s3);
        lemma_advance(s4);
        let (s5, r5) = advance(s4);
        lemma_skip_ws(s5);
        let (s6, r6) = skip_ws(s5);
        lemma_expect(s6, TokenKind::Equal);
        let (s7, r7) = expect(s6, TokenKind::Equal);
        lemma_skip_ws(s7);
        let (s8, r8) = skip_ws(s7);
        lemma_expression(s8);
    }
}

/// Parsing never moves back, and a successful parse consumes a token.
pub proof fn lemma_statement(s: ParserState)
    ensures
        reports_well(statement(s).1),
        measure(statement(s).0) <= measure(s),
        statement(s).1 is Ok ==> measure(statement(s).0) < measure(s),
    decreases measure(s), 2nat,
{
    lemma_skip_ws(s);
    let (s1, r1) = skip_ws(s);
    if r1 is Ok {
        match s1.current.kind {
            TokenKind::KeywordLet => lemma_let_stmt(s1),
            TokenKind::KeywordReturn => lemma_return_stmt(s1),
            TokenKind::KeywordWhile => lemma_while_stmt(s1),
            TokenKind::KeywordIf => lemma_if_stmt(s1),
            TokenKind::LBrace => lemma_block(s1),
            _ => {
                lemma_assign_stmt(s1);
                lemma_object_assign_stmt(s1);
                lemma_expr_stmt(s1);
            },
        }
    }
}

/// Parsing never moves back, and a successful parse consumes a token.
pub proof fn lemma_block(s: ParserState)
    ensures
        reports_well(block(s).1),
        measure(block(s).0) <= measure(s),
        block(s).1 is Ok ==> measure(block(s).0) < measure(s),
    decreases measure(s), 0nat,
{
    lemma_skip_ws(s);
    let (s1, r1) = skip_ws(s);
    lemma_expect(s1, TokenKind::LBrace);
    let (s2, r2) = expect(s1, TokenKind::LBrace);
    lemma_skip_ws(s2);
    let (s3, r3) = skip_ws(s2);
    if r1 is Ok && r2 is Ok && r3 is Ok {
        lemma_block_stmts(s3, Seq::empty());
        let (s4, r4) = block_stmts(s3, Seq::empty());
        lemma_expect(s4, TokenKind::RBrace);
    }
}

/// Parsing never moves back.
pub proof fn lemma_block_stmts(s: ParserState, acc: Seq<SpecStmt>)
    ensures
        reports_well(block_stmts(s, acc).1),
        measure(block_stmts(s, acc).0) <= measure(s),
    decreases measure(s), 3nat,
{
    if s.current.kind != TokenKind::RBrace && s.current.kind != TokenKind::Eof {
        lemma_statement(s);
        let (s1, r1) = statement(s);
        if let Ok(st) = r1 {
            lemma_skip_ws(s1);
            let (s2, r2) = skip_ws(s1);
            if r2 is Ok && measure(s2) < measure(s) {
                lemma_block_stmts(s2, acc.push(st));
            }
        }
    }
}

/// Parsing never moves back, and a successful parse consumes a token.
pub proof fn lemma_while_stmt(s: ParserState)
    ensures
        reports_well(while_stmt(s).1),
        measure(while_stmt(s).0) <= measure(s),
        while_stmt(s).1 is Ok ==> measure(while_stmt(s).0) < measure(s),
    decreases measure(s), 1nat,
{
    lemma_advance(s);
    let (s1, r1) = advance(s);
    lemma_skip_ws(s1);
    let (s2, r2) = skip_ws(s1);
    lemma_expression(s2);
    let (s3, r3) = expression(s2);
    lemma_skip_ws(s3);
    let (s4, r4) = skip_ws(s3);
    if r1 is Ok && r2 is Ok && r3 is Ok && r4 is Ok {
        lemma_block(s4);
    }
}

/// Parsing never moves back, and a successful parse consumes a token.
pub proof fn lemma_if_stmt(s: ParserState)
    ensures
        reports_well(if_stmt(s).1),
        measure(if_stmt(s).0) <= measure(s),
        if_stmt(s).1 is Ok ==> measure(if_stmt(s).0) < measure(s),
    decreases measure(s), 1nat,
{
    lemma_advance(s);
    let (s1, r1) = advance(s);
    lemma_skip_ws(s1);
    let (s2, r2) = skip_ws(s1);
    lemma_expression(s2);
    let (s3, r3) = expression(s2);
    lemma_skip_ws(s3);
    let (s4, r4) = skip_ws(s3);
    if r1 is Ok && r2 is Ok && r3 is Ok && r4 is Ok {
        lemma_block(s4);
        let (s5, r5) = block(s4);
        lemma_skip_ws(s5);
        let (s6, r6) = skip_ws(s5);
        lemma_advance(s6);
        let (s7, r7) = advance(s6);
        lemma_skip_ws(s7);
        let (s8, r8) = skip_ws(s7);
        if r5 is Ok && r6 is Ok && r7 is Ok && r8 is Ok && measure(s5) <= measure(s) {
            lemma_block(s8);
        }
    }
}

/// Parsing never moves back, and a successful parse consumes a token.
pub proof fn lemma_param_names(s: ParserState, acc: Seq<Seq<char>>)
    ensures
        s.current.kind != TokenKind::Semicolon ==> reports_well(param_names(s, acc).1),
        measure(param_names(s, acc).0) <= measure(s),
        param_names(s, acc).1 is Ok ==> measure(param_names(s, acc).0) < measure(s),
    decreases measure(s),
{
    if let TokenKind::Ident(p) = s.current.kind {
        lemma_advance(s);
        let (s1, r1) = advance(s);
        lemma_skip_ws(s1);
        let (s2, r2) = skip_ws(s1);
        lemma_advance(s2);
        let (s3, r3) = advance(s2);
        lemma_skip_ws(s3);
        let (s4, r4) = skip_ws(s3);
        if r1 is Ok && r2 is Ok && s2.current.kind == TokenKind::Comma && r3 is Ok && r4 is Ok {
            lemma_param_names(s4, acc.push(p@));
        }
    }
}

/// Parsing never moves back, and a successful parse consumes a token.
pub proof fn lemma_function_decl(s: ParserState)
    ensures
        reports_well(function_decl(s).1),
        measure(function_decl(s).0) <= measure(s),
        function_decl(s).1 is Ok ==> measure(function_decl(s).0) < measure(s),
{
    lemma_advance(s);
    let (s1, r1) = advance(s);
    lemma_skip_ws(s1);
    let (s2, r2) = skip_ws(s1);
    lemma_advance(s2);
    let (s3, r3) = advance(s2);
    lemma_skip_ws(s3);
    let (s4, r4) = skip_ws(s3);
    lemma_expect(s4, TokenKind::LParen);
    let (s5, r5) = expect(s4, TokenKind::LParen);
    lemma_skip_ws(s5);
    let (s6, r6) = skip_ws(s5);
    lemma_param_names(s6, Seq::empty());
    let (s7, r7) = if s6.current.kind != TokenKind::RParen {
        param_names(s6, Seq::empty())
    } else {
        (s6, Ok(Seq::empty()))
    };
    lemma_expect(s7, TokenKind::RParen);
    let (s8, r8) = expect(s7, TokenKind::RParen);
    lemma_skip_ws(s8);
    let (s9, r9) = skip_ws(s8);
    lemma_block(s9);
}

/// Parsing never moves back, and a successful parse consumes a token.
pub proof fn lemma_top_level(s: ParserState)
    ensures
        reports_well(top_level(s).1),
        measure(top_level(s).0) <= measure(s),
        top_level(s).1 is Ok ==> measure(top_level(s).0) < measure(s),
{
    lemma_skip_ws(s);
    let (s1, r1) = skip_ws(s);
    lemma_function_decl(s1);
    lemma_let_stmt(s1);
    lemma_return_stmt(s1);
    lemma_block(s1);
    lemma_statement(s1);
}


proof fn lemma_program_stmts_end(s: ParserState, acc: Seq<SpecStmt>)
    ensures
        reports_well(program_stmts(s, acc).1),
        program_stmts(s, acc).1 is Ok ==> program_stmts(s, acc).0.current.kind == TokenKind::Eof,
    decreases measure(s),
{
    if s.current.kind != TokenKind::Eof {
        lemma_top_level(s);
        let (s1, r1) = top_level(s);
        if let Ok(st) = r1 {
            lemma_skip_ws(s1);
            let (s2, r2) = skip_ws(s1);
            if r2 is Ok {
                lemma_program_stmts_end(s2, acc.push(st));
            }
        }
    }
}

/// A program parses only when it is read to the end: on success the current token is `Eof`.
pub proof fn law_program_reads_to_end(s: ParserState)
    ensures
        program(s).1 is Ok ==> program(s).0.current.kind == TokenKind::Eof,
{
    let (s1, r1) = skip_ws(s);
    if r1 is Ok {
        lemma_program_stmts_end(s1, Seq::empty());
    }
}

/// A program that fails on a token reports that token at its own line and
/// column, and the token is never a semicolon: semicolons are skipped
/// wherever the grammar looks at a token.
pub proof fn law_program_reports_well(s: ParserState)
    ensures
        reports_well(program(s).1),
{
    lemma_skip_ws(s);
    let (s1, r1) = skip_ws(s);
    if r1 is Ok {
        lemma_program_stmts_end(s1, Seq::empty());
    }
}
} // verus!
