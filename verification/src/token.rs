//! Tokens of the Helion language.
use vstd::prelude::*;

verus! {

/// The kinds of token of the Helion language.
///
/// A number literal carries the IEEE-754 binary64 bit pattern of its value,
/// so that the library holds it without floating-point arithmetic.
#[derive(Debug)]
pub enum TokenKind {
    // Keywords
    KeywordFn,
    KeywordLet,
    KeywordConst,
    KeywordReturn,
    KeywordIf,
    KeywordElse,
    KeywordWhile,
    // Identifiers & literals
    Ident(String),
    Number(u64),
    String(String),
    // Operators
    Plus,
    Minus,
    Star,
    Slash,
    Equal,
    EqualEqual,
    Bang,
    BangEqual,
    Less,
    LessEqual,
    Greater,
    GreaterEqual,
    // Punctuation
    LParen,
    RParen,
    LBrace,
    RBrace,
    LBracket,
    RBracket,
    Comma,
    Semicolon,
    Colon,
    Dot,
    // End of input
    Eof,
}

/// A token with the line and column the lexer had reached when it produced it.
#[derive(Debug)]
pub struct Token {
    pub kind: TokenKind,
    pub line: usize,
    pub column: usize,
}

/// The bits of a binary64 NaN: all exponent bits set, and a mantissa that is not zero.
pub open spec fn is_nan_bits(b: u64) -> bool {
    (b & 0x7ff0_0000_0000_0000u64) == 0x7ff0_0000_0000_0000u64 && (b & 0x000f_ffff_ffff_ffffu64)
        != 0
}

/// The bits of a binary64 zero of either sign.
pub open spec fn is_zero_bits(b: u64) -> bool {
    (b & 0x7fff_ffff_ffff_ffffu64) == 0
}

/// Equality of two binary64 numbers given by their bits: the two zeros are
/// equal, a NaN equals nothing, and any other number equals only itself.
pub open spec fn number_eq(a: u64, b: u64) -> bool {
    (is_zero_bits(a) && is_zero_bits(b)) || (!is_nan_bits(a) && a == b)
}

/// Two token kinds are the same: the same variant, with equal names, texts or numbers.
pub open spec fn kinds_match(a: TokenKind, b: TokenKind) -> bool {
    match (a, b) {
        (TokenKind::Ident(x), TokenKind::Ident(y)) => x@ == y@,
        (TokenKind::String(x), TokenKind::String(y)) => x@ == y@,
        (TokenKind::Number(x), TokenKind::Number(y)) => number_eq(x, y),
        _ => a == b,
    }
}

impl Clone for TokenKind {
    fn clone(&self) -> (r: Self)
        ensures
            r == *self,
    {
        match self {
            TokenKind::KeywordFn => TokenKind::KeywordFn,
            TokenKind::KeywordLet => TokenKind::KeywordLet,
            TokenKind::KeywordConst => TokenKind::KeywordConst,
            TokenKind::KeywordReturn => TokenKind::KeywordReturn,
            TokenKind::KeywordIf => TokenKind::KeywordIf,
            TokenKind::KeywordElse => TokenKind::KeywordElse,
            TokenKind::KeywordWhile => TokenKind::KeywordWhile,
            TokenKind::Ident(s) => TokenKind::Ident(s.clone()),
            TokenKind::Number(n) => TokenKind::Number(*n),
            TokenKind::String(s) => TokenKind::String(s.clone()),
            TokenKind::Plus => TokenKind::Plus,
            TokenKind::Minus => TokenKind::Minus,
            TokenKind::Star => TokenKind::Star,
            TokenKind::Slash => TokenKind::Slash,
            TokenKind::Equal => TokenKind::Equal,
            TokenKind::EqualEqual => TokenKind::EqualEqual,
            TokenKind::Bang => TokenKind::Bang,
            TokenKind::BangEqual => TokenKind::BangEqual,
            TokenKind::Less => TokenKind::Less,
            TokenKind::LessEqual => TokenKind::LessEqual,
            TokenKind::Greater => TokenKind::Greater,
            TokenKind::GreaterEqual => TokenKind::GreaterEqual,
            TokenKind::LParen => TokenKind::LParen,
            TokenKind::RParen => TokenKind::RParen,
            TokenKind::LBrace => TokenKind::LBrace,
            TokenKind::RBrace => TokenKind::RBrace,
            TokenKind::LBracket => TokenKind::LBracket,
            TokenKind::RBracket => TokenKind::RBracket,
            TokenKind::Comma => TokenKind::Comma,
            TokenKind::Semicolon => TokenKind::Semicolon,
            TokenKind::Colon => TokenKind::Colon,
            TokenKind::Dot => TokenKind::Dot,
            TokenKind::Eof => TokenKind::Eof,
        }
    }
}

/// Two token kinds are equal when they are the same kind: numbers compare
/// as `f64` values do.
impl PartialEq for TokenKind {
    fn eq(&self, other: &Self) -> (r: bool) {
        same_kind(self, other)
    }
}

impl vstd::std_specs::cmp::PartialEqSpecImpl for TokenKind {
    open spec fn obeys_eq_spec() -> bool {
        true
    }

    open spec fn eq_spec(&self, other: &TokenKind) -> bool {
        kinds_match(*self, *other)
    }
}

impl Clone for Token {
    fn clone(&self) -> (r: Self)
        ensures
            r == *self,
    {
        Token { kind: self.kind.clone(), line: self.line, column: self.column }
    }
}

/// A kind that carries no payload: neither an identifier, a number nor a string.
pub open spec fn is_plain(k: TokenKind) -> bool {
    !(k is Ident || k is Number || k is String)
}

/// Kinds without payload match exactly when they are the same kind; so
/// `<` and `<=`, or `=` and `==`, never match.
pub proof fn law_plain_kinds_match_when_equal(a: TokenKind, b: TokenKind)
    requires
        is_plain(a) || is_plain(b),
    ensures
        kinds_match(a, b) == (a == b),
{
}

/// An identifier matches only an identifier of the same name, a string only
/// a string of the same text, and a number only a number equal to it.
pub proof fn law_payload_kinds_match(a: TokenKind, b: TokenKind)
    ensures
        a is Ident ==> (kinds_match(a, b) <==> b is Ident && b->Ident_0@ == a->Ident_0@),
        a is String ==> (kinds_match(a, b) <==> b is String && b->String_0@ == a->String_0@),
        a is Number ==> (kinds_match(a, b) <==> b is Number && number_eq(a->Number_0, b->Number_0)),
{
}

/// Matching does not depend on the order of the two kinds, and every kind
/// but a NaN number matches itself.
pub proof fn law_kinds_match_symmetric(a: TokenKind, b: TokenKind)
    ensures
        kinds_match(a, b) == kinds_match(b, a),
        !(a matches TokenKind::Number(n) && is_nan_bits(n)) ==> kinds_match(a, a),
{
}

/// Numbers compare as binary64 values: a NaN equals nothing, the two zeros
/// are equal, and any other number equals exactly the number with its bits.
pub proof fn law_number_equality(a: u64, b: u64)
    ensures
        is_nan_bits(a) || is_nan_bits(b) ==> !number_eq(a, b),
        is_zero_bits(a) && is_zero_bits(b) ==> number_eq(a, b),
        !is_nan_bits(a) && !is_zero_bits(a) ==> (number_eq(a, b) <==> a == b),
        number_eq(a, b) == number_eq(b, a),
{
    assert(is_zero_bits(a) ==> !is_nan_bits(a)) by (bit_vector);
    assert(is_zero_bits(b) ==> !is_nan_bits(b)) by (bit_vector);
}

/// Equality of two numbers given by their binary64 bits, as `==` on `f64` has it.
pub fn numbers_equal(a: u64, b: u64) -> (r: bool)
    ensures
        r == number_eq(a, b),
{
    let magnitude: u64 = 0x7fff_ffff_ffff_ffff;
    if a & magnitude == 0 && b & magnitude == 0 {
        return true;
    }
    let nan = (a & 0x7ff0_0000_0000_0000u64) == 0x7ff0_0000_0000_0000u64 && (a
        & 0x000f_ffff_ffff_ffffu64) != 0;
    !nan && a == b
}

/// Tells whether two token kinds are the same: the same variant, and for
/// an identifier, a string or a number, an equal payload.
pub fn same_kind(kind: &TokenKind, other: &TokenKind) -> (r: bool)
    ensures
        r == kinds_match(*kind, *other),
{
    match (kind, other) {
        (TokenKind::Ident(x), TokenKind::Ident(y)) => return *x == *y,
        (TokenKind::String(x), TokenKind::String(y)) => return *x == *y,
        (TokenKind::Number(x), TokenKind::Number(y)) => return numbers_equal(*x, *y),
        _ => {},
    }
    match other {
        TokenKind::KeywordFn => matches!(kind, TokenKind::KeywordFn),
        TokenKind::KeywordLet => matches!(kind, TokenKind::KeywordLet),
        TokenKind::KeywordConst => matches!(kind, TokenKind::KeywordConst),
        TokenKind::KeywordReturn => matches!(kind, TokenKind::KeywordReturn),
        TokenKind::KeywordIf => matches!(kind, TokenKind::KeywordIf),
        TokenKind::KeywordElse => matches!(kind, TokenKind::KeywordElse),
        TokenKind::KeywordWhile => matches!(kind, TokenKind::KeywordWhile),
        TokenKind::Plus => matches!(kind, TokenKind::Plus),
        TokenKind::Minus => matches!(kind, TokenKind::Minus),
        TokenKind::Star => matches!(kind, TokenKind::Star),
        TokenKind::Slash => matches!(kind, TokenKind::Slash),
        TokenKind::Equal => matches!(kind, TokenKind::Equal),
        TokenKind::EqualEqual => matches!(kind, TokenKind::EqualEqual),
        TokenKind::Bang => matches!(kind, TokenKind::Bang),
        TokenKind::BangEqual => matches!(kind, TokenKind::BangEqual),
        TokenKind::Less => matches!(kind, TokenKind::Less),
        TokenKind::LessEqual => matches!(kind, TokenKind::LessEqual),
        TokenKind::Greater => matches!(kind, TokenKind::Greater),
        TokenKind::GreaterEqual => matches!(kind, TokenKind::GreaterEqual),
        TokenKind::LParen => matches!(kind, TokenKind::LParen),
        TokenKind::RParen => matches!(kind, TokenKind::RParen),
        TokenKind::LBrace => matches!(kind, TokenKind::LBrace),
        TokenKind::RBrace => matches!(kind, TokenKind::RBrace),
        TokenKind::LBracket => matches!(kind, TokenKind::LBracket),
        TokenKind::RBracket => matches!(kind, TokenKind::RBracket),
        TokenKind::Comma => matches!(kind, TokenKind::Comma),
        TokenKind::Semicolon => matches!(kind, TokenKind::Semicolon),
        TokenKind::Colon => matches!(kind, TokenKind::Colon),
        TokenKind::Dot => matches!(kind, TokenKind::Dot),
        TokenKind::Eof => matches!(kind, TokenKind::Eof),
        TokenKind::Ident(_) | TokenKind::Number(_) | TokenKind::String(_) => false,
    }
}

} // verus!
