//! Laws of the expression grammar, stated over the tokens the parser meets:
//! which operators each level takes, that each level binds its operands in
//! source order and associates to the left, and how the levels nest.
use vstd::prelude::*;

use crate::ast::{BinaryOp, SpecExpr};
use crate::grammar::{
    additive,
    additive_rest,
    advance,
    binary,
    comparison,
    comparison_rest,
    equality,
    equality_rest,
    array_literal,
    call_args,
    comma_exprs,
    lemma_comma_exprs,
    lemma_object_fields,
    measure,
    object_fields,
    object_literal,
    expect,
    lemma_expect,
    lemma_expression,
    postfix,
    primary,
    lemma_additive,
    lemma_advance,
    lemma_comparison,
    lemma_multiplicative,
    lemma_skip_ws,
    lemma_unary,
    expression,
    skip_ws,
    multiplicative,
    multiplicative_rest,
    unary,
    ParserState,
};
use crate::parser::ParseError;
use crate::token::TokenKind;

verus! {

/// The operator a token stands for between two operands.
pub open spec fn operator_of(k: TokenKind) -> BinaryOp {
    match k {
        TokenKind::Plus => BinaryOp::Plus,
        TokenKind::Minus => BinaryOp::Minus,
        TokenKind::Star => BinaryOp::Star,
        TokenKind::Slash => BinaryOp::Slash,
        TokenKind::Less => BinaryOp::Less,
        TokenKind::LessEqual => BinaryOp::LessEqual,
        TokenKind::Greater => BinaryOp::Greater,
        TokenKind::GreaterEqual => BinaryOp::GreaterEqual,
        TokenKind::EqualEqual => BinaryOp::EqualEqual,
        _ => BinaryOp::BangEqual,
    }
}

/// `*` or `/`.
pub open spec fn is_product_token(k: TokenKind) -> bool {
    k == TokenKind::Star || k == TokenKind::Slash
}

/// `+` or `-`.
pub open spec fn is_sum_token(k: TokenKind) -> bool {
    k == TokenKind::Plus || k == TokenKind::Minus
}

/// `<`, `<=`, `>` or `>=`.
pub open spec fn is_comparison_token(k: TokenKind) -> bool {
    k == TokenKind::Less || k == TokenKind::LessEqual || k == TokenKind::Greater || k
        == TokenKind::GreaterEqual
}

/// `==` or `!=`.
pub open spec fn is_equality_token(k: TokenKind) -> bool {
    k == TokenKind::EqualEqual || k == TokenKind::BangEqual
}

/// A node with `left` and `right` as operands, in that order.
pub open spec fn node(left: SpecExpr, op: BinaryOp, right: SpecExpr) -> SpecExpr {
    SpecExpr::Binary { left: Box::new(left), op, right: Box::new(right) }
}

/// Where the operand read first is not followed by one of `*` and `/`, the
/// multiplicative level is that operand alone: no other token is taken as its operator.
pub proof fn law_product_of_one(s: ParserState)
    requires
        unary(s).1 is Ok,
        !is_product_token(unary(s).0.current.kind),
    ensures
        multiplicative(s) == unary(s),
{
    lemma_unary(s);
}

/// `x op y`, with `op` one of `*` and `/` and no such operator after `y`, is the
/// node with `x` on the left, the operator `op` stands for, and `y` on the right.
pub proof fn law_product_of_two(
    s: ParserState,
    s1: ParserState,
    x: SpecExpr,
    s2: ParserState,
    s3: ParserState,
    y: SpecExpr,
)
    requires
        unary(s) == (s1, Ok::<SpecExpr, ParseError>(x)),
        is_product_token(s1.current.kind),
        advance(s1) == (s2, Ok::<(), ParseError>(())),
        unary(s2) == (s3, Ok::<SpecExpr, ParseError>(y)),
        !is_product_token(s3.current.kind),
    ensures
        multiplicative(s) == (s3, Ok::<SpecExpr, ParseError>(node(x, operator_of(s1.current.kind), y))),
{
    lemma_unary(s);
    lemma_advance(s1);
    lemma_unary(s2);
    let b = binary(x, operator_of(s1.current.kind), y);
    assert(multiplicative_rest(s3, b) == (s3, Ok::<SpecExpr, ParseError>(b)));
    assert(multiplicative_rest(s1, x) == multiplicative_rest(s3, b));
}

/// `x op1 y op2 z`, with both operators among `*` and `/`, groups to the left:
/// `(x op1 y) op2 z`.
pub proof fn law_product_groups_left(
    s: ParserState,
    s1: ParserState,
    x: SpecExpr,
    s2: ParserState,
    s3: ParserState,
    y: SpecExpr,
    s4: ParserState,
    s5: ParserState,
    z: SpecExpr,
)
    requires
        unary(s) == (s1, Ok::<SpecExpr, ParseError>(x)),
        is_product_token(s1.current.kind),
        advance(s1) == (s2, Ok::<(), ParseError>(())),
        unary(s2) == (s3, Ok::<SpecExpr, ParseError>(y)),
        is_product_token(s3.current.kind),
        advance(s3) == (s4, Ok::<(), ParseError>(())),
        unary(s4) == (s5, Ok::<SpecExpr, ParseError>(z)),
        !is_product_token(s5.current.kind),
    ensures
        multiplicative(s) == (s5, Ok::<SpecExpr, ParseError>(
            node(node(x, operator_of(s1.current.kind), y), operator_of(s3.current.kind), z),
        )),
{
    lemma_unary(s);
    lemma_advance(s1);
    lemma_unary(s2);
    lemma_advance(s3);
    lemma_unary(s4);
    let b1 = binary(x, operator_of(s1.current.kind), y);
    let b2 = binary(b1, operator_of(s3.current.kind), z);
    assert(multiplicative_rest(s5, b2) == (s5, Ok::<SpecExpr, ParseError>(b2)));
    assert(multiplicative_rest(s3, b1) == multiplicative_rest(s5, b2));
    assert(multiplicative_rest(s1, x) == multiplicative_rest(s3, b1));
}

/// Where the operand read first is not followed by one of `+` and `-`, the
/// additive level is that operand alone: no other token is taken as its operator.
pub proof fn law_sum_of_one(s: ParserState)
    requires
        multiplicative(s).1 is Ok,
        !is_sum_token(multiplicative(s).0.current.kind),
    ensures
        additive(s) == multiplicative(s),
{
    lemma_multiplicative(s);
}

/// `x op y`, with `op` one of `+` and `-` and no such operator after `y`, is the
/// node with `x` on the left, the operator `op` stands for, and `y` on the right.
pub proof fn law_sum_of_two(
    s: ParserState,
    s1: ParserState,
    x: SpecExpr,
    s2: ParserState,
    s3: ParserState,
    y: SpecExpr,
)
    requires
        multiplicative(s) == (s1, Ok::<SpecExpr, ParseError>(x)),
        is_sum_token(s1.current.kind),
        advance(s1) == (s2, Ok::<(), ParseError>(())),
        multiplicative(s2) == (s3, Ok::<SpecExpr, ParseError>(y)),
        !is_sum_token(s3.current.kind),
    ensures
        additive(s) == (s3, Ok::<SpecExpr, ParseError>(node(x, operator_of(s1.current.kind), y))),
{
    lemma_multiplicative(s);
    lemma_advance(s1);
    lemma_multiplicative(s2);
    let b = binary(x, operator_of(s1.current.kind), y);
    assert(additive_rest(s3, b) == (s3, Ok::<SpecExpr, ParseError>(b)));
    assert(additive_rest(s1, x) == additive_rest(s3, b));
}

/// `x op1 y op2 z`, with both operators among `+` and `-`, groups to the left:
/// `(x op1 y) op2 z`.
pub proof fn law_sum_groups_left(
    s: ParserState,
    s1: ParserState,
    x: SpecExpr,
    s2: ParserState,
    s3: ParserState,
    y: SpecExpr,
    s4: ParserState,
    s5: ParserState,
    z: SpecExpr,
)
    requires
        multiplicative(s) == (s1, Ok::<SpecExpr, ParseError>(x)),
        is_sum_token(s1.current.kind),
        advance(s1) == (s2, Ok::<(), ParseError>(())),
        multiplicative(s2) == (s3, Ok::<SpecExpr, ParseError>(y)),
        is_sum_token(s3.current.kind),
        advance(s3) == (s4, Ok::<(), ParseError>(())),
        multiplicative(s4) == (s5, Ok::<SpecExpr, ParseError>(z)),
        !is_sum_token(s5.current.kind),
    ensures
        additive(s) == (s5, Ok::<SpecExpr, ParseError>(
            node(node(x, operator_of(s1.current.kind), y), operator_of(s3.current.kind), z),
        )),
{
    lemma_multiplicative(s);
    lemma_advance(s1);
    lemma_multiplicative(s2);
    lemma_advance(s3);
    lemma_multiplicative(s4);
    let b1 = binary(x, operator_of(s1.current.kind), y);
    let b2 = binary(b1, operator_of(s3.current.kind), z);
    assert(additive_rest(s5, b2) == (s5, Ok::<SpecExpr, ParseError>(b2)));
    assert(additive_rest(s3, b1) == additive_rest(s5, b2));
    assert(additive_rest(s1, x) == additive_rest(s3, b1));
}

/// Where the operand read first is not followed by one of `<`, `<=`, `>` and `>=`, the
/// comparison level is that operand alone: no other token is taken as its operator.
pub proof fn law_comparison_of_one(s: ParserState)
    requires
        additive(s).1 is Ok,
        !is_comparison_token(additive(s).0.current.kind),
    ensures
        comparison(s) == additive(s),
{
    lemma_additive(s);
}

/// `x op y`, with `op` one of `<`, `<=`, `>` and `>=` and no such operator after `y`, is the
/// node with `x` on the left, the operator `op` stands for, and `y` on the right.
pub proof fn law_comparison_of_two(
    s: ParserState,
    s1: ParserState,
    x: SpecExpr,
    s2: ParserState,
    s3: ParserState,
    y: SpecExpr,
)
    requires
        additive(s) == (s1, Ok::<SpecExpr, ParseError>(x)),
        is_comparison_token(s1.current.kind),
        advance(s1) == (s2, Ok::<(), ParseError>(())),
        additive(s2) == (s3, Ok::<SpecExpr, ParseError>(y)),
        !is_comparison_token(s3.current.kind),
    ensures
        comparison(s) == (s3, Ok::<SpecExpr, ParseError>(node(x, operator_of(s1.current.kind), y))),
{
    lemma_additive(s);
    lemma_advance(s1);
    lemma_additive(s2);
    let b = binary(x, operator_of(s1.current.kind), y);
    assert(comparison_rest(s3, b) == (s3, Ok::<SpecExpr, ParseError>(b)));
    assert(comparison_rest(s1, x) == comparison_rest(s3, b));
}

/// `x op1 y op2 z`, with both operators among `<`, `<=`, `>` and `>=`, groups to the left:
/// `(x op1 y) op2 z`.
pub proof fn law_comparison_groups_left(
    s: ParserState,
    s1: ParserState,
    x: SpecExpr,
    s2: ParserState,
    s3: ParserState,
    y: SpecExpr,
    s4: ParserState,
    s5: ParserState,
    z: SpecExpr,
)
    requires
        additive(s) == (s1, Ok::<SpecExpr, ParseError>(x)),
        is_comparison_token(s1.current.kind),
        advance(s1) == (s2, Ok::<(), ParseError>(())),
        additive(s2) == (s3, Ok::<SpecExpr, ParseError>(y)),
        is_comparison_token(s3.current.kind),
        advance(s3) == (s4, Ok::<(), ParseError>(())),
        additive(s4) == (s5, Ok::<SpecExpr, ParseError>(z)),
        !is_comparison_token(s5.current.kind),
    ensures
        comparison(s) == (s5, Ok::<SpecExpr, ParseError>(
            node(node(x, operator_of(s1.current.kind), y), operator_of(s3.current.kind), z),
        )),
{
    lemma_additive(s);
    lemma_advance(s1);
    lemma_additive(s2);
    lemma_advance(s3);
    lemma_additive(s4);
    let b1 = binary(x, operator_of(s1.current.kind), y);
    let b2 = binary(b1, operator_of(s3.current.kind), z);
    assert(comparison_rest(s5, b2) == (s5, Ok::<SpecExpr, ParseError>(b2)));
    assert(comparison_rest(s3, b1) == comparison_rest(s5, b2));
    assert(comparison_rest(s1, x) == comparison_rest(s3, b1));
}

/// Where the operand read first is not followed by one of `==` and `!=`, the
/// equality level is that operand alone: no other token is taken as its operator.
pub proof fn law_equality_of_one(s: ParserState)
    requires
        comparison(s).1 is Ok,
        !is_equality_token(comparison(s).0.current.kind),
    ensures
        equality(s) == comparison(s),
{
    lemma_comparison(s);
}

/// `x op y`, with `op` one of `==` and `!=` and no such operator after `y`, is the
/// node with `x` on the left, the operator `op` stands for, and `y` on the right.
pub proof fn law_equality_of_two(
    s: ParserState,
    s1: ParserState,
    x: SpecExpr,
    s2: ParserState,
    s3: ParserState,
    y: SpecExpr,
)
    requires
        comparison(s) == (s1, Ok::<SpecExpr, ParseError>(x)),
        is_equality_token(s1.current.kind),
        advance(s1) == (s2, Ok::<(), ParseError>(())),
        comparison(s2) == (s3, Ok::<SpecExpr, ParseError>(y)),
        !is_equality_token(s3.current.kind),
    ensures
        equality(s) == (s3, Ok::<SpecExpr, ParseError>(node(x, operator_of(s1.current.kind), y))),
{
    lemma_comparison(s);
    lemma_advance(s1);
    lemma_comparison(s2);
    let b = binary(x, operator_of(s1.current.kind), y);
    assert(equality_rest(s3, b) == (s3, Ok::<SpecExpr, ParseError>(b)));
    assert(equality_rest(s1, x) == equality_rest(s3, b));
}

/// `x op1 y op2 z`, with both operators among `==` and `!=`, groups to the left:
/// `(x op1 y) op2 z`.
pub proof fn law_equality_groups_left(
    s: ParserState,
    s1: ParserState,
    x: SpecExpr,
    s2: ParserState,
    s3: ParserState,
    y: SpecExpr,
    s4: ParserState,
    s5: ParserState,
    z: SpecExpr,
)
    requires
        comparison(s) == (s1, Ok::<SpecExpr, ParseError>(x)),
        is_equality_token(s1.current.kind),
        advance(s1) == (s2, Ok::<(), ParseError>(())),
        comparison(s2) == (s3, Ok::<SpecExpr, ParseError>(y)),
        is_equality_token(s3.current.kind),
        advance(s3) == (s4, Ok::<(), ParseError>(())),
        comparison(s4) == (s5, Ok::<SpecExpr, ParseError>(z)),
        !is_equality_token(s5.current.kind),
    ensures
        equality(s) == (s5, Ok::<SpecExpr, ParseError>(
            node(node(x, operator_of(s1.current.kind), y), operator_of(s3.current.kind), z),
        )),
{
    lemma_comparison(s);
    lemma_advance(s1);
    lemma_comparison(s2);
    lemma_advance(s3);
    lemma_comparison(s4);
    let b1 = binary(x, operator_of(s1.current.kind), y);
    let b2 = binary(b1, operator_of(s3.current.kind), z);
    assert(equality_rest(s5, b2) == (s5, Ok::<SpecExpr, ParseError>(b2)));
    assert(equality_rest(s3, b1) == equality_rest(s5, b2));
    assert(equality_rest(s1, x) == equality_rest(s3, b1));
}

/// `a op1 b op2 c` with `op1` one of `+` and `-` and `op2` one of `*` and
/// `/` groups as `a op1 (b op2 c)`: a product binds tighter than a sum.
pub proof fn law_product_inside_sum(
    s: ParserState,
    s1: ParserState,
    a: SpecExpr,
    s2: ParserState,
    s3: ParserState,
    b: SpecExpr,
    s4: ParserState,
    s5: ParserState,
    c: SpecExpr,
)
    requires
        unary(s) == (s1, Ok::<SpecExpr, ParseError>(a)),
        is_sum_token(s1.current.kind),
        advance(s1) == (s2, Ok::<(), ParseError>(())),
        unary(s2) == (s3, Ok::<SpecExpr, ParseError>(b)),
        is_product_token(s3.current.kind),
        advance(s3) == (s4, Ok::<(), ParseError>(())),
        unary(s4) == (s5, Ok::<SpecExpr, ParseError>(c)),
        !is_sum_token(s5.current.kind),
        !is_product_token(s5.current.kind),
    ensures
        additive(s) == (s5, Ok::<SpecExpr, ParseError>(
            node(a, operator_of(s1.current.kind), node(b, operator_of(s3.current.kind), c)),
        )),
{
    law_product_of_one(s);
    law_product_of_two(s2, s3, b, s4, s5, c);
    law_sum_of_two(s, s1, a, s2, s5, node(b, operator_of(s3.current.kind), c));
}

/// `a op1 b op2 c` with `op1` one of `*` and `/` and `op2` one of `+` and
/// `-` groups as `(a op1 b) op2 c`.
pub proof fn law_product_before_sum(
    s: ParserState,
    s1: ParserState,
    a: SpecExpr,
    s2: ParserState,
    s3: ParserState,
    b: SpecExpr,
    s4: ParserState,
    s5: ParserState,
    c: SpecExpr,
)
    requires
        unary(s) == (s1, Ok::<SpecExpr, ParseError>(a)),
        is_product_token(s1.current.kind),
        advance(s1) == (s2, Ok::<(), ParseError>(())),
        unary(s2) == (s3, Ok::<SpecExpr, ParseError>(b)),
        is_sum_token(s3.current.kind),
        advance(s3) == (s4, Ok::<(), ParseError>(())),
        unary(s4) == (s5, Ok::<SpecExpr, ParseError>(c)),
        !is_sum_token(s5.current.kind),
        !is_product_token(s5.current.kind),
    ensures
        additive(s) == (s5, Ok::<SpecExpr, ParseError>(
            node(node(a, operator_of(s1.current.kind), b), operator_of(s3.current.kind), c),
        )),
{
    law_product_of_two(s, s1, a, s2, s3, b);
    law_product_of_one(s4);
    law_sum_of_two(s, s3, node(a, operator_of(s1.current.kind), b), s4, s5, c);
}

/// A sum followed by no comparison or equality operator is the whole
/// expression: `expression` skips semicolons and reads it through the
/// comparison and equality levels unchanged.
pub proof fn law_expression_of_sum(s: ParserState, s1: ParserState, s2: ParserState, e: SpecExpr)
    requires
        skip_ws(s) == (s1, Ok::<(), ParseError>(())),
        additive(s1) == (s2, Ok::<SpecExpr, ParseError>(e)),
        !is_comparison_token(s2.current.kind),
        !is_equality_token(s2.current.kind),
    ensures
        expression(s) == (s2, Ok::<SpecExpr, ParseError>(e)),
{
    lemma_skip_ws(s);
    law_comparison_of_one(s1);
    law_equality_of_one(s1);
}

/// `-x` is the negation of `x`.
pub proof fn law_negation(s: ParserState, s1: ParserState, s2: ParserState, s3: ParserState, x: SpecExpr)
    requires
        skip_ws(s) == (s1, Ok::<(), ParseError>(())),
        s1.current.kind == TokenKind::Minus,
        advance(s1) == (s2, Ok::<(), ParseError>(())),
        unary(s2) == (s3, Ok::<SpecExpr, ParseError>(x)),
    ensures
        unary(s) == (s3, Ok::<SpecExpr, ParseError>(SpecExpr::UnaryMinus(Box::new(x)))),
{
    lemma_skip_ws(s);
}

/// `!x` is the logical not of `x`.
pub proof fn law_logical_not(s: ParserState, s1: ParserState, s2: ParserState, s3: ParserState, x: SpecExpr)
    requires
        skip_ws(s) == (s1, Ok::<(), ParseError>(())),
        s1.current.kind == TokenKind::Bang,
        advance(s1) == (s2, Ok::<(), ParseError>(())),
        unary(s2) == (s3, Ok::<SpecExpr, ParseError>(x)),
    ensures
        unary(s) == (s3, Ok::<SpecExpr, ParseError>(SpecExpr::UnaryBang(Box::new(x)))),
{
    lemma_skip_ws(s);
}

/// Without a leading `-` or `!`, a unary expression is a primary one.
pub proof fn law_unary_without_prefix(s: ParserState, s1: ParserState)
    requires
        skip_ws(s) == (s1, Ok::<(), ParseError>(())),
        s1.current.kind != TokenKind::Minus,
        s1.current.kind != TokenKind::Bang,
    ensures
        unary(s) == primary(s1),
{
    lemma_skip_ws(s);
}

/// A number token is the number it carries.
pub proof fn law_number_literal(s: ParserState, s1: ParserState, s2: ParserState, n: u64)
    requires
        skip_ws(s) == (s1, Ok::<(), ParseError>(())),
        s1.current.kind == TokenKind::Number(n),
        advance(s1) == (s2, Ok::<(), ParseError>(())),
    ensures
        primary(s) == (s2, Ok::<SpecExpr, ParseError>(SpecExpr::Number(n))),
{
    lemma_skip_ws(s);
}

/// A string token is the text it carries.
pub proof fn law_string_literal(s: ParserState, s1: ParserState, s2: ParserState, text: String)
    requires
        skip_ws(s) == (s1, Ok::<(), ParseError>(())),
        s1.current.kind == TokenKind::String(text),
        advance(s1) == (s2, Ok::<(), ParseError>(())),
    ensures
        primary(s) == (s2, Ok::<SpecExpr, ParseError>(SpecExpr::String(text@))),
{
    lemma_skip_ws(s);
}

/// `(e)` is `e`: parentheses group and leave nothing of their own.
pub proof fn law_parenthesized(
    s: ParserState,
    s1: ParserState,
    s2: ParserState,
    s3: ParserState,
    s4: ParserState,
    e: SpecExpr,
)
    requires
        skip_ws(s) == (s1, Ok::<(), ParseError>(())),
        s1.current.kind == TokenKind::LParen,
        advance(s1) == (s2, Ok::<(), ParseError>(())),
        expression(s2) == (s3, Ok::<SpecExpr, ParseError>(e)),
        expect(s3, TokenKind::RParen) == (s4, Ok::<(), ParseError>(())),
    ensures
        primary(s) == (s4, Ok::<SpecExpr, ParseError>(e)),
{
    lemma_skip_ws(s);
}

/// A name followed by none of `(`, `.` and `[` is that name.
pub proof fn law_name_alone(
    s: ParserState,
    s1: ParserState,
    s2: ParserState,
    s3: ParserState,
    name: String,
)
    requires
        skip_ws(s) == (s1, Ok::<(), ParseError>(())),
        s1.current.kind == TokenKind::Ident(name),
        advance(s1) == (s2, Ok::<(), ParseError>(())),
        skip_ws(s2) == (s3, Ok::<(), ParseError>(())),
        s3.current.kind != TokenKind::LParen,
        s3.current.kind != TokenKind::Dot,
        s3.current.kind != TokenKind::LBracket,
    ensures
        primary(s) == (s3, Ok::<SpecExpr, ParseError>(SpecExpr::Ident(name@))),
{
    lemma_skip_ws(s);
    lemma_skip_ws(s2);
    assert(skip_ws(s3) == (s3, Ok::<(), ParseError>(())));
    assert(postfix(s3, SpecExpr::Ident(name@)) == (s3, Ok::<SpecExpr, ParseError>(SpecExpr::Ident(name@))));
}

/// Comma-separated expressions are read in the order they are written,
/// after those read before.
pub proof fn law_items_accumulate(s: ParserState, acc: Seq<SpecExpr>)
    ensures
        comma_exprs(s, acc) == (comma_exprs(s, Seq::empty()).0, match comma_exprs(
            s,
            Seq::empty(),
        ).1 {
            Ok(rest) => Ok::<Seq<SpecExpr>, ParseError>(acc + rest),
            Err(e) => Err(e),
        }),
    decreases measure(s),
{
    lemma_expression(s);
    let (s1, r) = expression(s);
    if let Ok(item) = r {
        assert(Seq::<SpecExpr>::empty().push(item) == seq![item]);
        lemma_skip_ws(s1);
        let (s2, r2) = skip_ws(s1);
        if r2 is Ok && s2.current.kind == TokenKind::Comma {
            lemma_advance(s2);
            let (s3, r3) = advance(s2);
            if r3 is Ok {
                lemma_skip_ws(s3);
                let (s4, r4) = skip_ws(s3);
                if r4 is Ok && measure(s4) < measure(s) {
                    law_items_accumulate(s4, acc.push(item));
                    law_items_accumulate(s4, seq![item]);
                    if let Ok(v) = comma_exprs(s4, Seq::empty()).1 {
                        assert(acc.push(item) + v =~= acc + (seq![item] + v));
                    }
                } else if r4 is Ok {
                    assert(acc.push(item) =~= acc + seq![item]);
                }
            }
        } else if r2 is Ok {
            assert(acc.push(item) =~= acc + seq![item]);
        }
    }
}

/// A last item, with no comma after it, is read as the one item.
pub proof fn law_last_item(s: ParserState, s1: ParserState, s2: ParserState, item: SpecExpr)
    requires
        expression(s) == (s1, Ok::<SpecExpr, ParseError>(item)),
        skip_ws(s1) == (s2, Ok::<(), ParseError>(())),
        s2.current.kind != TokenKind::Comma,
    ensures
        comma_exprs(s, Seq::empty()) == (s2, Ok::<Seq<SpecExpr>, ParseError>(seq![item])),
{
    assert(Seq::<SpecExpr>::empty().push(item) == seq![item]);
}

/// The arguments of a call are the items read between its parentheses, and
/// the callee is kept as it was.
pub proof fn law_call_arguments(
    s: ParserState,
    s1: ParserState,
    s2: ParserState,
    s3: ParserState,
    callee: SpecExpr,
    args: Seq<SpecExpr>,
)
    requires
        skip_ws(s) == (s1, Ok::<(), ParseError>(())),
        s1.current.kind == TokenKind::RParen ==> s2 == s1 && args == Seq::<SpecExpr>::empty(),
        s1.current.kind != TokenKind::RParen ==> comma_exprs(s1, Seq::empty()) == (s2, Ok::<Seq<SpecExpr>, ParseError>(args)),
        expect(s2, TokenKind::RParen) == (s3, Ok::<(), ParseError>(())),
    ensures
        call_args(s, callee) == (s3, Ok::<SpecExpr, ParseError>(
            SpecExpr::Call { callee: Box::new(callee), args },
        )),
{
}

/// An array literal holds the items read between its brackets, in order.
pub proof fn law_array_literal(
    s: ParserState,
    s1: ParserState,
    s2: ParserState,
    s3: ParserState,
    items: Seq<SpecExpr>,
)
    requires
        skip_ws(s) == (s1, Ok::<(), ParseError>(())),
        s1.current.kind == TokenKind::RBracket ==> s2 == s1 && items == Seq::<SpecExpr>::empty(),
        s1.current.kind != TokenKind::RBracket ==> comma_exprs(s1, Seq::empty()) == (s2, Ok::<Seq<SpecExpr>, ParseError>(items)),
        expect(s2, TokenKind::RBracket) == (s3, Ok::<(), ParseError>(())),
    ensures
        array_literal(s) == (s3, Ok::<SpecExpr, ParseError>(SpecExpr::Array(items))),
{
}

/// An object literal holds the fields read between its braces, in order.
pub proof fn law_object_literal(
    s: ParserState,
    s1: ParserState,
    s2: ParserState,
    s3: ParserState,
    fields: Seq<(Seq<char>, SpecExpr)>,
)
    requires
        skip_ws(s) == (s1, Ok::<(), ParseError>(())),
        s1.current.kind == TokenKind::RBrace ==> s2 == s1 && fields == Seq::<(Seq<char>, SpecExpr)>::empty(),
        s1.current.kind != TokenKind::RBrace ==> object_fields(s1, Seq::empty()) == (s2, Ok::<Seq<(Seq<char>, SpecExpr)>, ParseError>(fields)),
        expect(s2, TokenKind::RBrace) == (s3, Ok::<(), ParseError>(())),
    ensures
        object_literal(s) == (s3, Ok::<SpecExpr, ParseError>(SpecExpr::Object(fields))),
{
}

/// A last field `key: value`, with no comma after it, is read as the one
/// field, the key with the value read after the colon.
pub proof fn law_last_field(
    s: ParserState,
    s1: ParserState,
    s2: ParserState,
    s3: ParserState,
    s4: ParserState,
    s5: ParserState,
    s6: ParserState,
    key: String,
    value: SpecExpr,
)
    requires
        s.current.kind == TokenKind::Ident(key),
        advance(s) == (s1, Ok::<(), ParseError>(())),
        skip_ws(s1) == (s2, Ok::<(), ParseError>(())),
        expect(s2, TokenKind::Colon) == (s3, Ok::<(), ParseError>(())),
        skip_ws(s3) == (s4, Ok::<(), ParseError>(())),
        expression(s4) == (s5, Ok::<SpecExpr, ParseError>(value)),
        skip_ws(s5) == (s6, Ok::<(), ParseError>(())),
        s6.current.kind != TokenKind::Comma,
    ensures
        object_fields(s, Seq::empty()) == (s6, Ok::<Seq<(Seq<char>, SpecExpr)>, ParseError>(
            seq![(key@, value)],
        )),
{
    assert(Seq::<(Seq<char>, SpecExpr)>::empty().push((key@, value)) == seq![(key@, value)]);
}

/// Fields are read in the order they are written, after those read before.
pub proof fn law_fields_accumulate(s: ParserState, acc: Seq<(Seq<char>, SpecExpr)>)
    ensures
        object_fields(s, acc) == (object_fields(s, Seq::empty()).0, match object_fields(
            s,
            Seq::empty(),
        ).1 {
            Ok(rest) => Ok::<Seq<(Seq<char>, SpecExpr)>, ParseError>(acc + rest),
            Err(e) => Err(e),
        }),
    decreases measure(s),
{
    lemma_object_fields(s, acc);
    if let TokenKind::Ident(key) = s.current.kind {
        lemma_advance(s);
        let (s1, r1) = advance(s);
        lemma_skip_ws(s1);
        let (s2, r2) = skip_ws(s1);
        lemma_expect(s2, TokenKind::Colon);
        let (s3, r3) = expect(s2, TokenKind::Colon);
        lemma_skip_ws(s3);
        let (s4, r4) = skip_ws(s3);
        lemma_expression(s4);
        let (s5, r5) = expression(s4);
        if r1 is Ok && r2 is Ok && r3 is Ok && r4 is Ok {
            if let Ok(value) = r5 {
                let f = (key@, value);
                assert(Seq::<(Seq<char>, SpecExpr)>::empty().push(f) == seq![f]);
                lemma_skip_ws(s5);
                let (s6, r6) = skip_ws(s5);
                if r6 is Ok && s6.current.kind == TokenKind::Comma {
                    lemma_advance(s6);
                    let (s7, r7) = advance(s6);
                    if r7 is Ok {
                        lemma_skip_ws(s7);
                        let (s8, r8) = skip_ws(s7);
                        if r8 is Ok && measure(s8) < measure(s) {
                            law_fields_accumulate(s8, acc.push(f));
                            law_fields_accumulate(s8, seq![f]);
                            if let Ok(v) = object_fields(s8, Seq::empty()).1 {
                                assert(acc.push(f) + v =~= acc + (seq![f] + v));
                            }
                        } else if r8 is Ok {
                            assert(acc.push(f) =~= acc + seq![f]);
                        }
                    }
                } else if r6 is Ok {
                    assert(acc.push(f) =~= acc + seq![f]);
                }
            }
        }
    }
}

/// After a primary expression, `.name` reads the property of that name of
/// it, and `[index]` the element at the index read; anything else ends it.
pub proof fn law_postfix(s: ParserState, s1: ParserState, e: SpecExpr)
    requires
        skip_ws(s) == (s1, Ok::<(), ParseError>(())),
    ensures
        s1.current.kind != TokenKind::Dot && s1.current.kind != TokenKind::LBracket ==> postfix(s, e)
            == (s1, Ok::<SpecExpr, ParseError>(e)),
        s1.current.kind == TokenKind::Dot ==> ({
            let (s2, r2) = advance(s1);
            let (s3, r3) = skip_ws(s2);
            r2 is Ok && r3 is Ok ==> (s3.current.kind matches TokenKind::Ident(p) ==> {
                let (s4, r4) = advance(s3);
                r4 is Ok ==> postfix(s, e) == postfix(
                    s4,
                    SpecExpr::Property { object: Box::new(e), property: p@ },
                )
            })
        }),
        s1.current.kind == TokenKind::LBracket ==> ({
            let (s2, r2) = advance(s1);
            let (s3, r3) = expression(s2);
            let (s4, r4) = expect(s3, TokenKind::RBracket);
            r2 is Ok && r3 is Ok && r4 is Ok ==> postfix(s, e) == postfix(
                s4,
                SpecExpr::Index { array: Box::new(e), index: Box::new(r3->Ok_0) },
            )
        }),
{
    lemma_skip_ws(s);
    lemma_advance(s1);
    let (s2, r2) = advance(s1);
    lemma_expression(s2);
    let (s3, r3) = expression(s2);
    lemma_expect(s3, TokenKind::RBracket);
}

} // verus!
