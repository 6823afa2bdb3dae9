//! Laws of the statement grammar, stated over the tokens the parser meets:
//! which keyword starts which statement, what each statement is made of,
//! and that statements are kept in the order they are written.
use vstd::prelude::*;

use crate::ast::{SpecExpr, SpecStmt};
use crate::grammar::{
    advance,
    assign_stmt,
    expr_stmt,
    function_decl,
    object_assign_stmt,
    param_names,
    block,
    block_stmts,
    expect,
    expression,
    if_stmt,
    lemma_advance,
    lemma_block,
    lemma_expression,
    lemma_skip_ws,
    lemma_statement,
    let_stmt,
    program_stmts,
    lemma_top_level,
    measure,
    top_level,
    return_stmt,
    skip_ws,
    statement,
    while_stmt,
    ParserState,
};
use crate::parser::ParseError;
use crate::lexer::lex_next;
use crate::token::TokenKind;

verus! {

/// After the semicolons, `let`, `return`, `while`, `if` and `{` each start
/// the statement they name.
pub proof fn law_statement_keywords(s: ParserState, s1: ParserState)
    requires
        skip_ws(s) == (s1, Ok::<(), ParseError>(())),
    ensures
        s1.current.kind == TokenKind::KeywordLet ==> statement(s) == let_stmt(s1),
        s1.current.kind == TokenKind::KeywordReturn ==> statement(s) == return_stmt(s1),
        s1.current.kind == TokenKind::KeywordWhile ==> statement(s) == while_stmt(s1),
        s1.current.kind == TokenKind::KeywordIf ==> statement(s) == if_stmt(s1),
        s1.current.kind == TokenKind::LBrace ==> statement(s) == block(s1),
{
    lemma_skip_ws(s);
}

/// `let name = value` binds the name read to the expression read.
pub proof fn law_let(
    s: ParserState,
    s1: ParserState,
    s2: ParserState,
    s3: ParserState,
    s4: ParserState,
    s5: ParserState,
    s6: ParserState,
    s7: ParserState,
    name: String,
    value: SpecExpr,
)
    requires
        advance(s) == (s1, Ok::<(), ParseError>(())),
        skip_ws(s1) == (s2, Ok::<(), ParseError>(())),
        s2.current.kind == TokenKind::Ident(name),
        advance(s2) == (s3, Ok::<(), ParseError>(())),
        skip_ws(s3) == (s4, Ok::<(), ParseError>(())),
        expect(s4, TokenKind::Equal) == (s5, Ok::<(), ParseError>(())),
        skip_ws(s5) == (s6, Ok::<(), ParseError>(())),
        expression(s6) == (s7, Ok::<SpecExpr, ParseError>(value)),
    ensures
        let_stmt(s) == (s7, Ok::<SpecStmt, ParseError>(SpecStmt::Let { name: name@, value })),
{
}

/// `return value` returns the expression read.
pub proof fn law_return(s: ParserState, s1: ParserState, s2: ParserState, s3: ParserState, value: SpecExpr)
    requires
        advance(s) == (s1, Ok::<(), ParseError>(())),
        skip_ws(s1) == (s2, Ok::<(), ParseError>(())),
        expression(s2) == (s3, Ok::<SpecExpr, ParseError>(value)),
    ensures
        return_stmt(s) == (s3, Ok::<SpecStmt, ParseError>(SpecStmt::Return { value })),
{
}

/// `while condition body`: the expression read first is the condition and
/// the block after it the body.
pub proof fn law_while(
    s: ParserState,
    s1: ParserState,
    s2: ParserState,
    s3: ParserState,
    s4: ParserState,
    s5: ParserState,
    condition: SpecExpr,
    body: SpecStmt,
)
    requires
        advance(s) == (s1, Ok::<(), ParseError>(())),
        skip_ws(s1) == (s2, Ok::<(), ParseError>(())),
        expression(s2) == (s3, Ok::<SpecExpr, ParseError>(condition)),
        skip_ws(s3) == (s4, Ok::<(), ParseError>(())),
        block(s4) == (s5, Ok::<SpecStmt, ParseError>(body)),
    ensures
        while_stmt(s) == (s5, Ok::<SpecStmt, ParseError>(
            SpecStmt::While { condition, body: Box::new(body) },
        )),
{
}

/// `if condition then_branch` with no `else` after it has no else branch.
pub proof fn law_if_without_else(
    s: ParserState,
    s1: ParserState,
    s2: ParserState,
    s3: ParserState,
    s4: ParserState,
    s5: ParserState,
    s6: ParserState,
    condition: SpecExpr,
    then_branch: SpecStmt,
)
    requires
        advance(s) == (s1, Ok::<(), ParseError>(())),
        skip_ws(s1) == (s2, Ok::<(), ParseError>(())),
        expression(s2) == (s3, Ok::<SpecExpr, ParseError>(condition)),
        skip_ws(s3) == (s4, Ok::<(), ParseError>(())),
        block(s4) == (s5, Ok::<SpecStmt, ParseError>(then_branch)),
        skip_ws(s5) == (s6, Ok::<(), ParseError>(())),
        s6.current.kind != TokenKind::KeywordElse,
    ensures
        if_stmt(s) == (s6, Ok::<SpecStmt, ParseError>(
            SpecStmt::If { condition, then_branch: Box::new(then_branch), else_branch: None },
        )),
{
}

/// `if condition then_branch else else_branch`: the first block is taken
/// when the condition holds, the block after `else` otherwise.
pub proof fn law_if_with_else(
    s: ParserState,
    s1: ParserState,
    s2: ParserState,
    s3: ParserState,
    s4: ParserState,
    s5: ParserState,
    s6: ParserState,
    s7: ParserState,
    s8: ParserState,
    s9: ParserState,
    condition: SpecExpr,
    then_branch: SpecStmt,
    else_branch: SpecStmt,
)
    requires
        advance(s) == (s1, Ok::<(), ParseError>(())),
        skip_ws(s1) == (s2, Ok::<(), ParseError>(())),
        expression(s2) == (s3, Ok::<SpecExpr, ParseError>(condition)),
        skip_ws(s3) == (s4, Ok::<(), ParseError>(())),
        block(s4) == (s5, Ok::<SpecStmt, ParseError>(then_branch)),
        skip_ws(s5) == (s6, Ok::<(), ParseError>(())),
        s6.current.kind == TokenKind::KeywordElse,
        advance(s6) == (s7, Ok::<(), ParseError>(())),
        skip_ws(s7) == (s8, Ok::<(), ParseError>(())),
        block(s8) == (s9, Ok::<SpecStmt, ParseError>(else_branch)),
    ensures
        if_stmt(s) == (s9, Ok::<SpecStmt, ParseError>(
            SpecStmt::If {
                condition,
                then_branch: Box::new(then_branch),
                else_branch: Some(Box::new(else_branch)),
            },
        )),
{
    lemma_advance(s);
    lemma_skip_ws(s1);
    lemma_expression(s2);
    lemma_skip_ws(s3);
    lemma_block(s4);
}

/// `{ statements }` is the block of the statements read between the braces.
pub proof fn law_block(
    s: ParserState,
    s1: ParserState,
    s2: ParserState,
    s3: ParserState,
    s4: ParserState,
    s5: ParserState,
    stmts: Seq<SpecStmt>,
)
    requires
        skip_ws(s) == (s1, Ok::<(), ParseError>(())),
        expect(s1, TokenKind::LBrace) == (s2, Ok::<(), ParseError>(())),
        skip_ws(s2) == (s3, Ok::<(), ParseError>(())),
        block_stmts(s3, Seq::empty()) == (s4, Ok::<Seq<SpecStmt>, ParseError>(stmts)),
        expect(s4, TokenKind::RBrace) == (s5, Ok::<(), ParseError>(())),
    ensures
        block(s) == (s5, Ok::<SpecStmt, ParseError>(SpecStmt::Block { stmts })),
{
}

/// The statements read before a block's rest are kept in front of it: the
/// rest reads the same whatever came before.
pub proof fn law_block_accumulates(s: ParserState, acc: Seq<SpecStmt>)
    ensures
        block_stmts(s, acc) == (block_stmts(s, Seq::empty()).0, match block_stmts(
            s,
            Seq::empty(),
        ).1 {
            Ok(rest) => Ok::<Seq<SpecStmt>, ParseError>(acc + rest),
            Err(e) => Err(e),
        }),
    decreases measure(s),
{
    if s.current.kind != TokenKind::RBrace && s.current.kind != TokenKind::Eof {
        lemma_statement(s);
        let (s1, r1) = statement(s);
        if let Ok(st) = r1 {
            lemma_skip_ws(s1);
            let (s2, r2) = skip_ws(s1);
            if r2 is Ok {
                if measure(s2) < measure(s) {
                    law_block_accumulates(s2, acc.push(st));
                    law_block_accumulates(s2, seq![st]);
                    assert(Seq::<SpecStmt>::empty().push(st) == seq![st]);
                    if let Ok(v) = block_stmts(s2, Seq::empty()).1 {
                        assert(acc.push(st) + v =~= acc + (seq![st] + v));
                    }
                } else {
                    assert(acc.push(st) =~= acc + seq![st]);
                    assert(Seq::<SpecStmt>::empty().push(st) == seq![st]);
                }
            }
        }
    } else {
        assert(acc + Seq::<SpecStmt>::empty() =~= acc);
    }
}

/// A block holding one statement, followed by `}`, reads that statement.
pub proof fn law_block_of_one(s: ParserState, s1: ParserState, s2: ParserState, st: SpecStmt)
    requires
        s.current.kind != TokenKind::RBrace,
        s.current.kind != TokenKind::Eof,
        statement(s) == (s1, Ok::<SpecStmt, ParseError>(st)),
        skip_ws(s1) == (s2, Ok::<(), ParseError>(())),
        s2.current.kind == TokenKind::RBrace,
    ensures
        block_stmts(s, Seq::empty()) == (s2, Ok::<Seq<SpecStmt>, ParseError>(seq![st])),
{
    lemma_statement(s);
    lemma_skip_ws(s1);
    assert(Seq::<SpecStmt>::empty().push(st) == seq![st]);
    assert(block_stmts(s2, seq![st]) == (s2, Ok::<Seq<SpecStmt>, ParseError>(seq![st])));
}

/// The statements read before a program's rest are kept in front of it.
pub proof fn law_program_accumulates(s: ParserState, acc: Seq<SpecStmt>)
    ensures
        program_stmts(s, acc) == (program_stmts(s, Seq::empty()).0, match program_stmts(
            s,
            Seq::empty(),
        ).1 {
            Ok(rest) => Ok::<Seq<SpecStmt>, ParseError>(acc + rest),
            Err(e) => Err(e),
        }),
    decreases measure(s),
{
    if s.current.kind != TokenKind::Eof {
        lemma_top_level(s);
        let (s1, r1) = top_level(s);
        if let Ok(st) = r1 {
            lemma_skip_ws(s1);
            let (s2, r2) = skip_ws(s1);
            if r2 is Ok {
                law_program_accumulates(s2, acc.push(st));
                law_program_accumulates(s2, seq![st]);
                assert(Seq::<SpecStmt>::empty().push(st) == seq![st]);
                if let Ok(v) = program_stmts(s2, Seq::empty()).1 {
                    assert(acc.push(st) + v =~= acc + (seq![st] + v));
                }
            }
        }
    } else {
        assert(acc + Seq::<SpecStmt>::empty() =~= acc);
    }
}

/// A program of one top-level statement reads that statement.
pub proof fn law_program_of_one(s: ParserState, s1: ParserState, s2: ParserState, st: SpecStmt)
    requires
        s.current.kind != TokenKind::Eof,
        top_level(s) == (s1, Ok::<SpecStmt, ParseError>(st)),
        skip_ws(s1) == (s2, Ok::<(), ParseError>(())),
        s2.current.kind == TokenKind::Eof,
    ensures
        program_stmts(s, Seq::empty()) == (s2, Ok::<Seq<SpecStmt>, ParseError>(seq![st])),
{
    assert(Seq::<SpecStmt>::empty().push(st) == seq![st]);
    assert(program_stmts(s2, seq![st]) == (s2, Ok::<Seq<SpecStmt>, ParseError>(seq![st])));
}

/// `name = value` assigns the expression read to the name read.
pub proof fn law_assign(
    s: ParserState,
    s1: ParserState,
    s2: ParserState,
    s3: ParserState,
    s4: ParserState,
    s5: ParserState,
    name: String,
    value: SpecExpr,
)
    requires
        s.current.kind == TokenKind::Ident(name),
        advance(s) == (s1, Ok::<(), ParseError>(())),
        skip_ws(s1) == (s2, Ok::<(), ParseError>(())),
        s2.current.kind != TokenKind::LBracket,
        expect(s2, TokenKind::Equal) == (s3, Ok::<(), ParseError>(())),
        skip_ws(s3) == (s4, Ok::<(), ParseError>(())),
        expression(s4) == (s5, Ok::<SpecExpr, ParseError>(value)),
    ensures
        assign_stmt(s) == (s5, Ok::<SpecStmt, ParseError>(SpecStmt::Assign { name: name@, value })),
{
}

/// `name[index] = value` assigns the value at the index read of the array named.
pub proof fn law_element_assign(
    s: ParserState,
    s1: ParserState,
    s2: ParserState,
    s3: ParserState,
    s4: ParserState,
    s5: ParserState,
    s6: ParserState,
    s7: ParserState,
    s8: ParserState,
    s9: ParserState,
    name: String,
    index: SpecExpr,
    value: SpecExpr,
)
    requires
        s.current.kind == TokenKind::Ident(name),
        advance(s) == (s1, Ok::<(), ParseError>(())),
        skip_ws(s1) == (s2, Ok::<(), ParseError>(())),
        s2.current.kind == TokenKind::LBracket,
        advance(s2) == (s3, Ok::<(), ParseError>(())),
        expression(s3) == (s4, Ok::<SpecExpr, ParseError>(index)),
        expect(s4, TokenKind::RBracket) == (s5, Ok::<(), ParseError>(())),
        skip_ws(s5) == (s6, Ok::<(), ParseError>(())),
        s6.current.kind != TokenKind::LBracket,
        expect(s6, TokenKind::Equal) == (s7, Ok::<(), ParseError>(())),
        skip_ws(s7) == (s8, Ok::<(), ParseError>(())),
        expression(s8) == (s9, Ok::<SpecExpr, ParseError>(value)),
    ensures
        assign_stmt(s) == (s9, Ok::<SpecStmt, ParseError>(
            SpecStmt::ArrayAssign { array: SpecExpr::Ident(name@), index, value },
        )),
{
    let target = SpecExpr::Index {
        array: Box::new(SpecExpr::Ident(name@)),
        index: Box::new(index),
    };
    assert(crate::grammar::assign_targets(s6, target) == (s6, Ok::<SpecExpr, ParseError>(target)));
    assert(crate::grammar::assign_targets(s2, SpecExpr::Ident(name@)) == (s6, Ok::<SpecExpr, ParseError>(target)));
}

/// `object.property = value` assigns the expression read to the property
/// named of the object named.
pub proof fn law_property_assign(
    s: ParserState,
    s1: ParserState,
    s2: ParserState,
    s3: ParserState,
    s4: ParserState,
    s5: ParserState,
    s6: ParserState,
    s7: ParserState,
    s8: ParserState,
    s9: ParserState,
    object: String,
    property: String,
    value: SpecExpr,
)
    requires
        s.current.kind == TokenKind::Ident(object),
        advance(s) == (s1, Ok::<(), ParseError>(())),
        skip_ws(s1) == (s2, Ok::<(), ParseError>(())),
        expect(s2, TokenKind::Dot) == (s3, Ok::<(), ParseError>(())),
        skip_ws(s3) == (s4, Ok::<(), ParseError>(())),
        s4.current.kind == TokenKind::Ident(property),
        advance(s4) == (s5, Ok::<(), ParseError>(())),
        skip_ws(s5) == (s6, Ok::<(), ParseError>(())),
        expect(s6, TokenKind::Equal) == (s7, Ok::<(), ParseError>(())),
        skip_ws(s7) == (s8, Ok::<(), ParseError>(())),
        expression(s8) == (s9, Ok::<SpecExpr, ParseError>(value)),
    ensures
        object_assign_stmt(s) == (s9, Ok::<SpecStmt, ParseError>(
            SpecStmt::ObjectAssign { object: SpecExpr::Ident(object@), property: property@, value },
        )),
{
}

/// Parameter names are read in the order they are written, after those
/// read before.
pub proof fn law_params_accumulate(s: ParserState, acc: Seq<Seq<char>>)
    ensures
        param_names(s, acc) == (param_names(s, Seq::empty()).0, match param_names(
            s,
            Seq::empty(),
        ).1 {
            Ok(rest) => Ok::<Seq<Seq<char>>, ParseError>(acc + rest),
            Err(e) => Err(e),
        }),
    decreases measure(s),
{
    if let TokenKind::Ident(p) = s.current.kind {
        lemma_advance(s);
        let (s1, r1) = advance(s);
        lemma_skip_ws(s1);
        let (s2, r2) = skip_ws(s1);
        lemma_advance(s2);
        let (s3, r3) = advance(s2);
        lemma_skip_ws(s3);
        let (s4, r4) = skip_ws(s3);
        assert(Seq::<Seq<char>>::empty().push(p@) == seq![p@]);
        if r1 is Ok && r2 is Ok && s2.current.kind == TokenKind::Comma && r3 is Ok && r4 is Ok {
            law_params_accumulate(s4, acc.push(p@));
            law_params_accumulate(s4, seq![p@]);
            if let Ok(v) = param_names(s4, Seq::empty()).1 {
                assert(acc.push(p@) + v =~= acc + (seq![p@] + v));
            }
        } else {
            assert(acc.push(p@) =~= acc + seq![p@]);
        }
    }
}

/// A last parameter name, with no comma after it, is read as the one name.
pub proof fn law_last_param(s: ParserState, s1: ParserState, s2: ParserState, name: String)
    requires
        s.current.kind == TokenKind::Ident(name),
        advance(s) == (s1, Ok::<(), ParseError>(())),
        skip_ws(s1) == (s2, Ok::<(), ParseError>(())),
        s2.current.kind != TokenKind::Comma,
    ensures
        param_names(s, Seq::empty()) == (s2, Ok::<Seq<Seq<char>>, ParseError>(seq![name@])),
{
    assert(Seq::<Seq<char>>::empty().push(name@) == seq![name@]);
}

/// `fn name(params) body` declares the function named, with the parameter
/// names read and the block read as its body.
pub proof fn law_function(
    s: ParserState,
    s1: ParserState,
    s2: ParserState,
    s3: ParserState,
    s4: ParserState,
    s5: ParserState,
    s6: ParserState,
    s7: ParserState,
    s8: ParserState,
    s9: ParserState,
    s10: ParserState,
    name: String,
    params: Seq<Seq<char>>,
    body: SpecStmt,
)
    requires
        advance(s) == (s1, Ok::<(), ParseError>(())),
        skip_ws(s1) == (s2, Ok::<(), ParseError>(())),
        s2.current.kind == TokenKind::Ident(name),
        advance(s2) == (s3, Ok::<(), ParseError>(())),
        skip_ws(s3) == (s4, Ok::<(), ParseError>(())),
        expect(s4, TokenKind::LParen) == (s5, Ok::<(), ParseError>(())),
        skip_ws(s5) == (s6, Ok::<(), ParseError>(())),
        s6.current.kind == TokenKind::RParen ==> s7 == s6 && params == Seq::<Seq<char>>::empty(),
        s6.current.kind != TokenKind::RParen ==> param_names(s6, Seq::empty()) == (s7, Ok::<Seq<Seq<char>>, ParseError>(params)),
        expect(s7, TokenKind::RParen) == (s8, Ok::<(), ParseError>(())),
        skip_ws(s8) == (s9, Ok::<(), ParseError>(())),
        block(s9) == (s10, Ok::<SpecStmt, ParseError>(body)),
    ensures
        function_decl(s) == (s10, Ok::<SpecStmt, ParseError>(
            SpecStmt::Function { name: name@, params, body: Box::new(body) },
        )),
{
}

/// A name starts an assignment when `[` or `=` follows it, a property
/// assignment when `.` follows it, and an expression otherwise; any token
/// that starts no other statement starts an expression.
pub proof fn law_statement_after_name(s: ParserState, s1: ParserState)
    requires
        skip_ws(s) == (s1, Ok::<(), ParseError>(())),
    ensures
        s1.current.kind is Ident ==> (lex_next(s1.lex).1 matches Ok(next) ==> {
            &&& (next.kind == TokenKind::LBracket || next.kind == TokenKind::Equal) ==> statement(s)
                == assign_stmt(s1)
            &&& next.kind == TokenKind::Dot ==> statement(s) == object_assign_stmt(s1)
            &&& (next.kind != TokenKind::LBracket && next.kind != TokenKind::Equal && next.kind
                != TokenKind::Dot) ==> statement(s) == expr_stmt(s1)
        }),
        !(s1.current.kind is Ident) && s1.current.kind != TokenKind::KeywordLet
            && s1.current.kind != TokenKind::KeywordReturn && s1.current.kind
            != TokenKind::KeywordWhile && s1.current.kind != TokenKind::KeywordIf
            && s1.current.kind != TokenKind::LBrace ==> statement(s) == expr_stmt(s1),
{
    lemma_skip_ws(s);
}

/// An expression followed by anything is a statement of that expression.
pub proof fn law_expression_statement(s: ParserState, s1: ParserState, e: SpecExpr)
    requires
        expression(s) == (s1, Ok::<SpecExpr, ParseError>(e)),
    ensures
        expr_stmt(s) == (s1, Ok::<SpecStmt, ParseError>(SpecStmt::ExprStmt { expr: e })),
{
}

/// At the top level `fn` starts a function declaration, `let`, `return`
/// and `{` the statements they start inside blocks, and anything else any
/// statement.
pub proof fn law_top_level_keywords(s: ParserState, s1: ParserState)
    requires
        skip_ws(s) == (s1, Ok::<(), ParseError>(())),
    ensures
        s1.current.kind == TokenKind::KeywordFn ==> top_level(s) == function_decl(s1),
        s1.current.kind == TokenKind::KeywordLet ==> top_level(s) == let_stmt(s1),
        s1.current.kind == TokenKind::KeywordReturn ==> top_level(s) == return_stmt(s1),
        s1.current.kind == TokenKind::LBrace ==> top_level(s) == block(s1),
        s1.current.kind != TokenKind::KeywordFn && s1.current.kind != TokenKind::KeywordLet
            && s1.current.kind != TokenKind::KeywordReturn && s1.current.kind != TokenKind::LBrace
            ==> top_level(s) == statement(s1),
{
}

} // verus!
