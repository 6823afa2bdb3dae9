//! The lexer: source text to tokens, one at a time.
use std::rc::Rc;
use vstd::prelude::*;

use crate::token::{Token, TokenKind};

verus! {

broadcast use vstd::string::axiom_spec_iter;

/// Errors of the lexer.
#[derive(Debug, Clone, Copy, PartialEq, Eq)]
pub enum LexError {
    /// A character that starts no token, with the line and column where it stands.
    UnexpectedChar { ch: char, line: usize, column: usize },
}

/// The byte order mark, which the lexer skips at the start of its input.
pub const BYTE_ORDER_MARK: char = '\u{feff}';

/// The state of a lexer: the characters of its input, the index of the next
/// character to read, and the line and column of that character.
pub struct LexerState {
    pub chars: Seq<char>,
    pub pos: int,
    pub line: int,
    pub column: int,
}

/// Whitespace the lexer skips between tokens.
pub open spec fn is_whitespace(c: char) -> bool {
    c == ' ' || c == '\t' || c == '\r' || c == '\n'
}

/// The token kind that a single character stands for, if it stands for one.
pub open spec fn punct_kind(c: char) -> Option<TokenKind> {
    if c == '(' {
        Some(TokenKind::LParen)
    } else if c == ')' {
        Some(TokenKind::RParen)
    } else if c == '{' {
        Some(TokenKind::LBrace)
    } else if c == '}' {
        Some(TokenKind::RBrace)
    } else if c == '+' {
        Some(TokenKind::Plus)
    } else if c == '-' {
        Some(TokenKind::Minus)
    } else if c == '*' {
        Some(TokenKind::Star)
    } else if c == '/' {
        Some(TokenKind::Slash)
    } else {
        None
    }
}

/// The number of byte order marks that open `s`.
pub open spec fn leading_marks(s: Seq<char>) -> int
    decreases s.len(),
{
    if s.len() > 0 && s[0] == BYTE_ORDER_MARK {
        1 + leading_marks(s.drop_first())
    } else {
        0
    }
}

impl LexerState {
    pub open spec fn wf(self) -> bool {
        &&& 0 <= self.pos <= self.chars.len()
        &&& self.chars.len() < usize::MAX
        &&& self.line >= 1
        &&& self.column >= 1
        &&& self.line + self.column <= self.pos + 2
    }

    /// The state in which lexing `src` starts: past the byte order marks, at line 1, column 1.
    pub open spec fn start(src: Seq<char>) -> LexerState {
        LexerState { chars: src, pos: leading_marks(src), line: 1, column: 1 }
    }

    /// The state after reading one character: a newline moves to the start
    /// of the next line, any other character one column on.
    pub open spec fn step(self) -> LexerState {
        if self.pos < self.chars.len() {
            if self.chars[self.pos] == '\n' {
                LexerState { pos: self.pos + 1, line: self.line + 1, column: 1, ..self }
            } else {
                LexerState { pos: self.pos + 1, column: self.column + 1, ..self }
            }
        } else {
            self
        }
    }

    /// A token of the given kind at the current line and column.
    pub open spec fn token(self, kind: TokenKind) -> Token {
        Token { kind, line: self.line as usize, column: self.column as usize }
    }

    /// The number of characters left to read.
    pub open spec fn remaining(self) -> nat {
        if self.pos <= self.chars.len() {
            (self.chars.len() - self.pos) as nat
        } else {
            0
        }
    }
}

/// What reading the next token does: whitespace is skipped; a character of
/// a token is consumed and the token is returned with the line and column
/// reached after it; any other character is an error at its own line and
/// column, and stays unread; at the end of the input the result is `Eof`,
/// again and again.
pub open spec fn lex_next(l: LexerState) -> (LexerState, Result<Token, LexError>)
    decreases l.remaining(),
{
    if 0 <= l.pos < l.chars.len() {
        let c = l.chars[l.pos];
        if is_whitespace(c) {
            lex_next(l.step())
        } else {
            match punct_kind(c) {
                Some(kind) => (l.step(), Ok(l.step().token(kind))),
                None => (
                    l,
                    Err(
                        LexError::UnexpectedChar {
                            ch: c,
                            line: l.line as usize,
                            column: l.column as usize,
                        },
                    ),
                ),
            }
        }
    } else {
        (l, Ok(l.token(TokenKind::Eof)))
    }
}

/// Reading a token never moves back, keeps the input and its well-formedness,
/// and a token other than `Eof` consumes at least one character.
pub proof fn lemma_lex_next(l: LexerState)
    ensures
        lex_next(l).0.chars == l.chars,
        lex_next(l).0.remaining() <= l.remaining(),
        l.wf() ==> lex_next(l).0.wf(),
        lex_next(l).1 matches Ok(t) && t.kind != TokenKind::Eof ==> lex_next(l).0.remaining()
            < l.remaining(),
        lex_next(l).1 matches Ok(t) ==> t.kind == TokenKind::Eof || punct_kind(
            l.chars[lex_next(l).0.pos - 1],
        ) == Some(t.kind),
    decreases l.remaining(),
{
    if 0 <= l.pos < l.chars.len() {
        if is_whitespace(l.chars[l.pos]) {
            lemma_lex_next(l.step());
        }
    }
}

/// Two lexer states with the same unread text at the same line and column.
pub open spec fn same_rest(a: LexerState, b: LexerState) -> bool {
    &&& 0 <= a.pos <= a.chars.len()
    &&& 0 <= b.pos <= b.chars.len()
    &&& a.chars.skip(a.pos) == b.chars.skip(b.pos)
    &&& a.line == b.line
    &&& a.column == b.column
}

/// Once the lexer has returned `Eof`, it returns the same `Eof` token again
/// and stays where it is.
pub proof fn law_eof_repeats(l: LexerState)
    requires
        lex_next(l).1 matches Ok(t) && t.kind == TokenKind::Eof,
    ensures
        lex_next(lex_next(l).0) == lex_next(l),
    decreases l.remaining(),
{
    if 0 <= l.pos < l.chars.len() && is_whitespace(l.chars[l.pos]) {
        law_eof_repeats(l.step());
    }
}

/// An unexpected character is reported again by every later call: the
/// lexer does not move past it.
pub proof fn law_error_repeats(l: LexerState)
    requires
        lex_next(l).1 is Err,
    ensures
        lex_next(lex_next(l).0) == lex_next(l),
    decreases l.remaining(),
{
    if 0 <= l.pos < l.chars.len() && is_whitespace(l.chars[l.pos]) {
        law_error_repeats(l.step());
    }
}

/// What the lexer reads depends only on the unread text and the line and
/// column it is at.
pub proof fn law_depends_on_rest(a: LexerState, b: LexerState)
    requires
        same_rest(a, b),
    ensures
        lex_next(a).1 == lex_next(b).1,
        same_rest(lex_next(a).0, lex_next(b).0),
    decreases a.remaining(),
{
    assert(a.chars.skip(a.pos).len() == b.chars.skip(b.pos).len());
    if a.pos < a.chars.len() {
        assert(a.chars[a.pos] == a.chars.skip(a.pos)[0]);
        assert(b.chars[b.pos] == b.chars.skip(b.pos)[0]);
        assert(a.step().chars.skip(a.step().pos) =~= a.chars.skip(a.pos).drop_first());
        assert(b.step().chars.skip(b.step().pos) =~= b.chars.skip(b.pos).drop_first());
        if is_whitespace(a.chars[a.pos]) {
            law_depends_on_rest(a.step(), b.step());
        }
    }
}

/// Byte order marks in front of a text change none of its tokens: lexing
/// starts at the same unread text, line and column.
pub proof fn law_marks_ignored(src: Seq<char>)
    ensures
        same_rest(LexerState::start(seq![BYTE_ORDER_MARK] + src), LexerState::start(src)),
{
    let with = seq![BYTE_ORDER_MARK] + src;
    assert(with.drop_first() =~= src);
    assert(leading_marks(with) == 1 + leading_marks(src));
    lemma_leading_marks_bound(src);
    assert(with.skip(1 + leading_marks(src)) =~= src.skip(leading_marks(src)));
}

/// The number of newlines in `s`.
pub open spec fn newlines(s: Seq<char>) -> int
    decreases s.len(),
{
    if s.len() == 0 {
        0
    } else {
        newlines(s.drop_last()) + if s.last() == '\n' {
            1int
        } else {
            0int
        }
    }
}

/// The column reached after reading `s` from the start of a line: one more
/// than the number of characters after its last newline.
pub open spec fn column_after(s: Seq<char>) -> int
    decreases s.len(),
{
    if s.len() == 0 {
        1
    } else if s.last() == '\n' {
        1
    } else {
        column_after(s.drop_last()) + 1
    }
}

/// The text a lexer has read: its input from past the byte order marks up
/// to the next character.
pub open spec fn consumed(l: LexerState) -> Seq<char> {
    l.chars.subrange(leading_marks(l.chars), l.pos)
}

/// The line and column of a lexer are those reached by reading its text:
/// the line is one more than the newlines read, and the column one more than
/// the characters read since the last of them.
pub open spec fn counted(l: LexerState) -> bool {
    &&& leading_marks(l.chars) <= l.pos <= l.chars.len()
    &&& l.line == 1 + newlines(consumed(l))
    &&& l.column == column_after(consumed(l))
}

/// Lexing starts at line 1, column 1, with nothing read.
pub proof fn law_start_counted(src: Seq<char>)
    ensures
        counted(LexerState::start(src)),
{
    lemma_leading_marks_bound(src);
    let l = LexerState::start(src);
    assert(consumed(l) =~= Seq::<char>::empty());
}

/// Reading a character keeps the line and column those of the text read.
pub proof fn law_step_counted(l: LexerState)
    requires
        counted(l),
    ensures
        counted(l.step()),
{
    lemma_leading_marks_bound(l.chars);
    if l.pos < l.chars.len() {
        let t = l.step();
        assert(consumed(t).drop_last() =~= consumed(l));
        assert(consumed(t).last() == l.chars[l.pos]);
    }
}

/// Reading a token keeps the line and column those of the text read.
pub proof fn law_lex_next_counted(l: LexerState)
    requires
        counted(l),
    ensures
        counted(lex_next(l).0),
    decreases l.remaining(),
{
    if 0 <= l.pos < l.chars.len() {
        law_step_counted(l);
        if is_whitespace(l.chars[l.pos]) {
            law_lex_next_counted(l.step());
        }
    }
}

/// An unexpected character is reported at its own position: the line and
/// column reached by the text read before it, where the lexer stops.
pub proof fn law_error_position(l: LexerState)
    requires
        counted(l),
        l.chars.len() < usize::MAX,
    ensures
        lex_next(l).1 matches Err(LexError::UnexpectedChar { ch, line, column }) ==> {
            let at = lex_next(l).0;
            &&& 0 <= at.pos < at.chars.len()
            &&& at.chars[at.pos] == ch
            &&& line == 1 + newlines(consumed(at))
            &&& column == column_after(consumed(at))
        },
    decreases l.remaining(),
{
    lemma_leading_marks_bound(l.chars);
    if 0 <= l.pos < l.chars.len() && is_whitespace(l.chars[l.pos]) {
        law_step_counted(l);
        law_error_position(l.step());
    } else {
        law_counted_bound(l);
    }
}

/// Spaces, tabs, carriage returns and newlines are skipped: reading a
/// token from one of them reads it from the character after.
pub proof fn law_blanks_skipped(l: LexerState)
    requires
        0 <= l.pos < l.chars.len(),
        l.chars[l.pos] == ' ' || l.chars[l.pos] == '\t' || l.chars[l.pos] == '\r' || l.chars[l.pos]
            == '\n',
    ensures
        lex_next(l) == lex_next(l.step()),
{
}

/// The character a single-character token is written with.
pub open spec fn symbol_of(k: TokenKind) -> char {
    match k {
        TokenKind::LParen => '(',
        TokenKind::RParen => ')',
        TokenKind::LBrace => '{',
        TokenKind::RBrace => '}',
        TokenKind::Plus => '+',
        TokenKind::Minus => '-',
        TokenKind::Star => '*',
        _ => '/',
    }
}

/// A token other than `Eof` is the character last read, which is written
/// as that token; its line and column are those reached after reading it.
pub proof fn law_token_position(l: LexerState)
    requires
        counted(l),
        l.chars.len() < usize::MAX,
    ensures
        lex_next(l).1 matches Ok(t) ==> t.kind != TokenKind::Eof ==> {
            let after = lex_next(l).0;
            &&& 0 < consumed(after).len()
            &&& consumed(after).last() == symbol_of(t.kind)
            &&& t.line == 1 + newlines(consumed(after))
            &&& t.column == column_after(consumed(after))
        },
    decreases l.remaining(),
{
    lemma_leading_marks_bound(l.chars);
    if 0 <= l.pos < l.chars.len() {
        law_step_counted(l);
        if is_whitespace(l.chars[l.pos]) {
            law_token_position(l.step());
        } else {
            let after = l.step();
            law_counted_bound(after);
            assert(consumed(after).last() == l.chars[l.pos]);
        }
    }
}

/// Exactly the characters `(`, `)`, `{`, `}`, `+`, `-`, `*` and `/` are
/// tokens of their own.
pub proof fn law_single_character_tokens(c: char)
    ensures
        punct_kind(c) is Some <==> (c == '(' || c == ')' || c == '{' || c == '}' || c == '+'
            || c == '-' || c == '*' || c == '/'),
        punct_kind(c) matches Some(k) ==> symbol_of(k) == c,
{
}

proof fn lemma_newlines_column_bound(s: Seq<char>)
    ensures
        newlines(s) >= 0,
        column_after(s) >= 1,
        newlines(s) + column_after(s) <= s.len() + 1,
    decreases s.len(),
{
    if s.len() > 0 {
        lemma_newlines_column_bound(s.drop_last());
    }
}

/// The line and column of a lexer whose position follows its text are at
/// least 1, and together at most two more than the characters read: they
/// fit in the machine words that hold them.
pub proof fn law_counted_bound(l: LexerState)
    requires
        counted(l),
    ensures
        l.line >= 1,
        l.column >= 1,
        l.line + l.column <= consumed(l).len() + 2,
        consumed(l).len() <= l.pos,
{
    lemma_leading_marks_bound(l.chars);
    lemma_newlines_column_bound(consumed(l));
}

/// A lexer of Helion source text.
pub struct Lexer {
    chars: Rc<Vec<char>>,
    pos: usize,
    line: usize,
    column: usize,
}

impl View for Lexer {
    type V = LexerState;

    closed spec fn view(&self) -> LexerState {
        LexerState {
            chars: self.chars@,
            pos: self.pos as int,
            line: self.line as int,
            column: self.column as int,
        }
    }
}

impl Clone for Lexer {
    fn clone(&self) -> (r: Self)
        ensures
            r@ == self@,
    {
        Lexer { chars: Rc::clone(&self.chars), pos: self.pos, line: self.line, column: self.column }
    }
}

impl Lexer {
    /// A lexer at the start of `src`, past the byte order marks that open it.
    pub fn new(src: &str) -> (r: Lexer)
        requires
            src@.len() < usize::MAX,
        ensures
            r@ == LexerState::start(src@),
            r@.wf(),
            counted(r@),
    {
        proof {
            law_start_counted(src@);
        }
        let mut chars: Vec<char> = Vec::new();
        for c in it: src.chars()
            invariant
                chars@ == it.seq().take(it.index() as int),
                it.seq() == src@,
        {
            chars.push(c);
            assert(chars@ == it.seq().take(it.index() as int + 1));
        }
        assert(chars@ == src@);
        let mut pos: usize = 0;
        while pos < chars.len() && chars[pos] == BYTE_ORDER_MARK
            invariant
                0 <= pos <= chars@.len(),
                chars@ == src@,
                leading_marks(src@) == pos + leading_marks(src@.skip(pos as int)),
            decreases chars@.len() - pos,
        {
            assert(src@.skip(pos as int).drop_first() == src@.skip(pos + 1));
            pos = pos + 1;
        }
        proof {
            lemma_leading_marks_bound(src@);
        }
        Lexer { chars: Rc::new(chars), pos, line: 1, column: 1 }
    }

    fn current(&self) -> (c: Option<char>)
        ensures
            c == (if 0 <= self@.pos < self@.chars.len() {
                Some(self@.chars[self@.pos])
            } else {
                None
            }),
    {
        if self.pos < self.chars.len() {
            Some(self.chars[self.pos])
        } else {
            None
        }
    }

    fn advance(&mut self)
        requires
            old(self)@.wf(),
        ensures
            final(self)@ == old(self)@.step(),
            final(self)@.wf(),
    {
        if self.pos < self.chars.len() {
            if self.chars[self.pos] == '\n' {
                self.line = self.line + 1;
                self.column = 1;
            } else {
                self.column = self.column + 1;
            }
            self.pos = self.pos + 1;
        }
    }

    fn make_token(&self, kind: TokenKind) -> (t: Token)
        ensures
            t == self@.token(kind),
    {
        Token { kind, line: self.line, column: self.column }
    }

    /// Reads the next token. A lexer whose line and column are those of the
    /// text it has read keeps them so.
    pub fn next_token(&mut self) -> (r: Result<Token, LexError>)
        requires
            old(self)@.wf(),
        ensures
            (final(self)@, r) == lex_next(old(self)@),
            final(self)@.wf(),
            counted(old(self)@) ==> counted(final(self)@),
    {
        proof {
            if counted(self@) {
                law_lex_next_counted(self@);
            }
        }
        loop
            invariant
                self@.wf(),
                lex_next(self@) == lex_next(old(self)@),
                counted(old(self)@) ==> counted(lex_next(old(self)@).0),
            decreases self@.remaining(),
        {
            match self.current() {
                None => {
                    return Ok(self.make_token(TokenKind::Eof));
                },
                Some(c) => {
                    if c == ' ' || c == '\t' || c == '\r' || c == '\n' {
                        self.advance();
                    } else {
                        let kind = if c == '(' {
                            TokenKind::LParen
                        } else if c == ')' {
                            TokenKind::RParen
                        } else if c == '{' {
                            TokenKind::LBrace
                        } else if c == '}' {
                            TokenKind::RBrace
                        } else if c == '+' {
                            TokenKind::Plus
                        } else if c == '-' {
                            TokenKind::Minus
                        } else if c == '*' {
                            TokenKind::Star
                        } else if c == '/' {
                            TokenKind::Slash
                        } else {
                            return Err(
                                LexError::UnexpectedChar {
                                    ch: c,
                                    line: self.line,
                                    column: self.column,
                                },
                            );
                        };
                        self.advance();
                        return Ok(self.make_token(kind));
                    }
                },
            }
        }
    }

    /// Reads the token that `next_token` would return, without consuming it.
    pub fn peek_token(&self) -> (r: Result<Token, LexError>)
        requires
            self@.wf(),
        ensures
            r == lex_next(self@).1,
    {
        let mut probe = self.clone();
        probe.next_token()
    }
}

proof fn lemma_leading_marks_bound(s: Seq<char>)
    ensures
        0 <= leading_marks(s) <= s.len(),
    decreases s.len(),
{
    if s.len() > 0 && s[0] == BYTE_ORDER_MARK {
        lemma_leading_marks_bound(s.drop_first());
    }
}

} // verus!
