//! The scanner: turns source text into tokens, one at a time, borrowing
//! each lexeme from the input. Whitespace and `//` line comments are
//! skipped; scan errors are reported as `Error` tokens whose lexeme is the
//! message.

use vstd::prelude::*;
use vstd::string::StrSliceExecFns;

use crate::num::is_numeral;
use crate::text::str_eq;

verus! {

#[derive(Debug, Clone, Copy, PartialEq, Eq, Structural)]
pub enum TokenType {
    // Single character
    LParen,
    RParen,
    LBrace,
    RBrace,
    Comma,
    Dot,
    Minus,
    Plus,
    Semicolon,
    Slash,
    Star,
    // One or two character tokens
    Bang,
    BangEqual,
    Equal,
    EqualEqual,
    Greater,
    GreaterEqual,
    Less,
    LessEqual,
    // Literals
    Identifier,
    String,
    Number,
    // Keywords
    And,
    Class,
    Else,
    False,
    For,
    Fun,
    If,
    Nil,
    Or,
    Print,
    Return,
    Super,
    This,
    True,
    Var,
    While,
    Error,
    Eof,
}

impl Default for TokenType {
    fn default() -> (r: Self)
        ensures
            r == TokenType::Eof,
    {
        TokenType::Eof
    }
}

/// A token: its kind, its lexeme borrowed from the source (for `Error`
/// tokens, the message), and the line it ended on.
#[derive(Debug, Clone, Copy)]
pub struct Token<'input> {
    pub typ: TokenType,
    pub src: &'input str,
    pub line: usize,
}

impl<'input> Token<'input> {
    /// The placeholder token the parser starts from.
    pub fn blank() -> (r: Token<'static>)
        ensures
            r.typ == TokenType::Eof,
            r.src@.len() == 0,
            r.line == 0,
    {
        proof {
            reveal_strlit("");
        }
        Token { typ: TokenType::Eof, src: "", line: 0 }
    }
}

pub open spec fn is_digit_char(c: char) -> bool {
    '0' <= c && c <= '9'
}

pub open spec fn is_alpha_char(c: char) -> bool {
    ('a' <= c && c <= 'z') || ('A' <= c && c <= 'Z') || c == '_'
}

pub open spec fn is_ident_char(c: char) -> bool {
    is_alpha_char(c) || is_digit_char(c)
}

pub open spec fn is_ws_char(c: char) -> bool {
    c == ' ' || c == '\r' || c == '\t' || c == '\n'
}

/// The position of the next newline at or after `i`, or the end of the
/// source: where a line comment starting before `i` stops.
pub open spec fn line_comment_end(s: Seq<char>, i: int) -> int
    decreases s.len() - i,
{
    if i < 0 || i >= s.len() {
        s.len() as int
    } else if s[i] == '\n' {
        i
    } else {
        line_comment_end(s, i + 1)
    }
}

pub proof fn lemma_line_comment_end_bounds(s: Seq<char>, i: int)
    requires
        0 <= i <= s.len(),
    ensures
        i <= line_comment_end(s, i) <= s.len(),
    decreases s.len() - i,
{
    if i < s.len() && s[i] != '\n' {
        lemma_line_comment_end_bounds(s, i + 1);
    }
}

/// The position where the next token starts: everything before it is
/// whitespace or part of a `//` line comment.
pub open spec fn ws_end(s: Seq<char>, i: int) -> int
    decreases s.len() - i,
{
    if i < 0 || i >= s.len() {
        i
    } else if is_ws_char(s[i]) {
        ws_end(s, i + 1)
    } else if s[i] == '/' && i + 1 < s.len() && s[i + 1] == '/' {
        proof {
            lemma_line_comment_end_bounds(s, i + 2);
        }
        ws_end(s, line_comment_end(s, i + 2))
    } else {
        i
    }
}

pub proof fn lemma_ws_end_bounds(s: Seq<char>, i: int)
    requires
        0 <= i <= s.len(),
    ensures
        i <= ws_end(s, i) <= s.len(),
    decreases s.len() - i,
{
    if i < s.len() {
        if is_ws_char(s[i]) {
            lemma_ws_end_bounds(s, i + 1);
        } else if s[i] == '/' && i + 1 < s.len() && s[i + 1] == '/' {
            lemma_line_comment_end_bounds(s, i + 2);
            lemma_ws_end_bounds(s, line_comment_end(s, i + 2));
        }
    }
}

/// Whitespace skipping stops at a character that is not whitespace.
pub proof fn lemma_ws_end_stops(s: Seq<char>, i: int)
    requires
        0 <= i <= s.len(),
    ensures
        ws_end(s, i) < s.len() ==> !is_ws_char(s[ws_end(s, i)]),
    decreases s.len() - i,
{
    if i < s.len() {
        if is_ws_char(s[i]) {
            lemma_ws_end_stops(s, i + 1);
        } else if s[i] == '/' && i + 1 < s.len() && s[i + 1] == '/' {
            lemma_line_comment_end_bounds(s, i + 2);
            lemma_ws_end_stops(s, line_comment_end(s, i + 2));
        }
    }
}

/// How many newline characters lie in `[a, b)` of the source.
pub open spec fn count_newlines(s: Seq<char>, a: int, b: int) -> int
    decreases b - a,
{
    if b <= a {
        0
    } else {
        count_newlines(s, a, b - 1) + (if s[b - 1] == '\n' {
            1int
        } else {
            0
        })
    }
}

pub proof fn lemma_count_newlines_split(s: Seq<char>, a: int, b: int, c: int)
    requires
        a <= b <= c,
    ensures
        count_newlines(s, a, c) == count_newlines(s, a, b) + count_newlines(s, b, c),
    decreases c - b,
{
    if b < c {
        lemma_count_newlines_split(s, a, b, c - 1);
    }
}

pub proof fn lemma_count_newlines_bound_nonneg(s: Seq<char>, a: int, b: int)
    requires
        a <= b,
    ensures
        0 <= count_newlines(s, a, b) <= b - a,
    decreases b - a,
{
    if a < b {
        lemma_count_newlines_bound_nonneg(s, a, b - 1);
    }
}

pub proof fn lemma_count_newlines_zero(s: Seq<char>, a: int, b: int)
    requires
        forall|j: int| a <= j < b ==> s[j] != '\n',
    ensures
        count_newlines(s, a, b) == 0,
    decreases b - a,
{
    if a < b {
        lemma_count_newlines_zero(s, a, b - 1);
    }
}

/// The line reached after passing `newlines` line breaks, saturating at
/// the machine limit as the scanner's counter does.
pub open spec fn line_after(line0: int, newlines: int) -> int {
    if line0 + newlines <= usize::MAX {
        line0 + newlines
    } else {
        usize::MAX as int
    }
}

pub proof fn lemma_line_after_compose(line0: int, k1: int, k2: int)
    requires
        k1 >= 0,
        k2 >= 0,
    ensures
        line_after(line_after(line0, k1), k2) == line_after(line0, k1 + k2),
{
}

/// A stretch of source without newlines leaves the reached line as it
/// was: joining it onto a counted prefix changes nothing.
pub proof fn lemma_line_join(src: Seq<char>, p0: int, l0: int, p1: int, p2: int, l1: int)
    requires
        p0 <= p1 <= p2,
        l1 == line_after(l0, count_newlines(src, p0, p1)),
        forall|j: int| p1 <= j < p2 ==> src[j] != '\n',
    ensures
        l1 == line_after(l0, count_newlines(src, p0, p2)),
{
    lemma_count_newlines_zero(src, p1, p2);
    lemma_count_newlines_split(src, p0, p1, p2);
}

/// The token type a lexeme of identifier shape denotes: one of the sixteen
/// reserved words, or a plain identifier.
pub open spec fn keyword_type(s: Seq<char>) -> TokenType {
    if s == seq!['a', 'n', 'd'] {
        TokenType::And
    } else if s == seq!['c', 'l', 'a', 's', 's'] {
        TokenType::Class
    } else if s == seq!['e', 'l', 's', 'e'] {
        TokenType::Else
    } else if s == seq!['f', 'a', 'l', 's', 'e'] {
        TokenType::False
    } else if s == seq!['f', 'o', 'r'] {
        TokenType::For
    } else if s == seq!['f', 'u', 'n'] {
        TokenType::Fun
    } else if s == seq!['i', 'f'] {
        TokenType::If
    } else if s == seq!['n', 'i', 'l'] {
        TokenType::Nil
    } else if s == seq!['o', 'r'] {
        TokenType::Or
    } else if s == seq!['p', 'r', 'i', 'n', 't'] {
        TokenType::Print
    } else if s == seq!['r', 'e', 't', 'u', 'r', 'n'] {
        TokenType::Return
    } else if s == seq!['s', 'u', 'p', 'e', 'r'] {
        TokenType::Super
    } else if s == seq!['t', 'h', 'i', 's'] {
        TokenType::This
    } else if s == seq!['t', 'r', 'u', 'e'] {
        TokenType::True
    } else if s == seq!['v', 'a', 'r'] {
        TokenType::Var
    } else if s == seq!['w', 'h', 'i', 'l', 'e'] {
        TokenType::While
    } else {
        TokenType::Identifier
    }
}

/// A lexeme of identifier shape: a letter or underscore, then letters,
/// digits or underscores.
pub open spec fn is_ident_lexeme(s: Seq<char>) -> bool {
    &&& s.len() > 0
    &&& is_alpha_char(s[0])
    &&& forall|i: int| 0 <= i < s.len() ==> is_ident_char(s[i])
}

/// The characters that begin some token: everything else is an
/// `Unexpected character.` scan error.
pub open spec fn starts_token_char(c: char) -> bool {
    ||| c == '(' || c == ')' || c == '{' || c == '}' || c == ';' || c == ',' || c == '.'
    ||| c == '-' || c == '+' || c == '/' || c == '*' || c == '!' || c == '=' || c == '<'
    ||| c == '>' || c == '"'
    ||| is_digit_char(c)
    ||| is_alpha_char(c)
}

pub open spec fn has_dot(s: Seq<char>) -> bool {
    exists|i: int| 0 <= i < s.len() && s[i] == '.'
}

/// What each token type says of its lexeme alone: its exact text for
/// punctuation and operators, its shape for literals and identifiers, the
/// message for `Error` tokens.
pub open spec fn token_lex_ok(typ: TokenType, lex: Seq<char>) -> bool {
    match typ {
        TokenType::LParen => lex == seq!['('],
        TokenType::RParen => lex == seq![')'],
        TokenType::LBrace => lex == seq!['{'],
        TokenType::RBrace => lex == seq!['}'],
        TokenType::Comma => lex == seq![','],
        TokenType::Dot => lex == seq!['.'],
        TokenType::Minus => lex == seq!['-'],
        TokenType::Plus => lex == seq!['+'],
        TokenType::Semicolon => lex == seq![';'],
        TokenType::Slash => lex == seq!['/'],
        TokenType::Star => lex == seq!['*'],
        TokenType::Bang => lex == seq!['!'],
        TokenType::BangEqual => lex == seq!['!', '='],
        TokenType::Equal => lex == seq!['='],
        TokenType::EqualEqual => lex == seq!['=', '='],
        TokenType::Greater => lex == seq!['>'],
        TokenType::GreaterEqual => lex == seq!['>', '='],
        TokenType::Less => lex == seq!['<'],
        TokenType::LessEqual => lex == seq!['<', '='],
        TokenType::Identifier => is_ident_lexeme(lex) && keyword_type(lex)
            == TokenType::Identifier,
        TokenType::String => lex.len() >= 2 && lex[0] == '"' && lex[lex.len() - 1] == '"' && (
        forall|i: int| 1 <= i < lex.len() - 1 ==> lex[i] != '"'),
        TokenType::Number => is_numeral(lex),
        TokenType::And | TokenType::Class | TokenType::Else | TokenType::False | TokenType::For
            | TokenType::Fun | TokenType::If | TokenType::Nil | TokenType::Or | TokenType::Print
            | TokenType::Return | TokenType::Super | TokenType::This | TokenType::True
            | TokenType::Var | TokenType::While => is_ident_lexeme(lex) && keyword_type(lex)
            == typ,
        TokenType::Error => lex == "Unexpected character."@ || lex == "Unterminated string."@,
        TokenType::Eof => lex.len() == 0,
    }
}

/// The maximal-munch side of each token type: the source just after the
/// token could not have extended it.
pub open spec fn token_munch_ok(typ: TokenType, lex: Seq<char>, src: Seq<char>, end: int) -> bool {
    match typ {
        TokenType::Bang | TokenType::Equal | TokenType::Greater | TokenType::Less => end
            >= src.len() || src[end] != '=',
        TokenType::Identifier | TokenType::And | TokenType::Class | TokenType::Else
            | TokenType::False | TokenType::For | TokenType::Fun | TokenType::If | TokenType::Nil
            | TokenType::Or | TokenType::Print | TokenType::Return | TokenType::Super
            | TokenType::This | TokenType::True | TokenType::Var | TokenType::While => end
            >= src.len() || !is_ident_char(src[end]),
        TokenType::Number => (end >= src.len() || !is_digit_char(src[end])) && (has_dot(lex) || end
            + 1 >= src.len() || !(src[end] == '.' && is_digit_char(src[end + 1]))),
        _ => true,
    }
}

/// Everything a token's type says of it: lexeme and maximal munch.
pub open spec fn token_shape_ok(
    typ: TokenType,
    lex: Seq<char>,
    src: Seq<char>,
    end: int,
) -> bool {
    token_lex_ok(typ, lex) && token_munch_ok(typ, lex, src, end)
}

/// A single-pass lexer over a borrowed source, with one or two characters
/// of lookahead.
pub struct Scanner<'input> {
    src: &'input str,
    n: usize,
    start: usize,
    current: usize,
    line: usize,
}

impl<'input> Scanner<'input> {
    pub closed spec fn spec_src(&self) -> Seq<char> {
        self.src@
    }

    pub closed spec fn spec_n(&self) -> int {
        self.n as int
    }

    pub closed spec fn spec_start(&self) -> int {
        self.start as int
    }

    pub closed spec fn spec_pos(&self) -> int {
        self.current as int
    }

    pub closed spec fn spec_line(&self) -> int {
        self.line as int
    }

    pub open spec fn wf(&self) -> bool {
        &&& self.spec_n() == self.spec_src().len()
        &&& 0 <= self.spec_start() <= self.spec_pos() <= self.spec_src().len()
        &&& self.spec_pos() <= usize::MAX as int
        &&& 1 <= self.spec_line() <= self.spec_pos() + 1
    }

    pub fn new(src: &'input str) -> (r: Self)
        ensures
            r.wf(),
            r.spec_src() == src@,
            r.spec_pos() == 0,
            r.spec_start() == 0,
            r.spec_line() == 1,
    {
        let n = src.unicode_len();
        Scanner { src, n, start: 0, current: 0, line: 1 }
    }

    /// The character at `idx`, or NUL past the end of the source.
    fn char_at(&self, idx: usize) -> (c: char)
        requires
            self.wf(),
        ensures
            c == (if idx < self.spec_src().len() {
                self.spec_src()[idx as int]
            } else {
                '\0'
            }),
    {
        if idx < self.n {
            self.src.get_char(idx)
        } else {
            '\0'
        }
    }

    fn peek(&self) -> (c: char)
        requires
            self.wf(),
        ensures
            c == (if self.spec_pos() < self.spec_src().len() {
                self.spec_src()[self.spec_pos()]
            } else {
                '\0'
            }),
    {
        self.char_at(self.current)
    }

    fn peek_next(&self) -> (c: char)
        requires
            self.wf(),
        ensures
            c == (if self.spec_pos() + 1 < self.spec_src().len() {
                self.spec_src()[self.spec_pos() + 1]
            } else {
                '\0'
            }),
    {
        if self.current < self.n {
            self.char_at(self.current + 1)
        } else {
            '\0'
        }
    }

    fn is_at_end(&self) -> (r: bool)
        requires
            self.wf(),
        ensures
            r == (self.spec_pos() >= self.spec_src().len()),
    {
        self.current >= self.n
    }

    fn advance(&mut self) -> (c: char)
        requires
            old(self).wf(),
            old(self).spec_pos() < old(self).spec_src().len(),
        ensures
            final(self).wf(),
            *final(self) == (Scanner { current: (old(self).current + 1) as usize, ..*old(self) }),
            c == old(self).spec_src()[old(self).spec_pos()],
    {
        let c = self.char_at(self.current);
        self.current = self.current + 1;
        c
    }

    /// Consumes the next character exactly when it equals `expected`.
    fn matchh(&mut self, expected: char) -> (r: bool)
        requires
            old(self).wf(),
        ensures
            final(self).wf(),
            r == (old(self).spec_pos() < old(self).spec_src().len() && old(self).spec_src()[old(self).spec_pos()] == expected),
            r ==> *final(self) == (Scanner { current: (old(self).current + 1) as usize, ..*old(self) }),
            !r ==> *final(self) == *old(self),
    {
        if self.is_at_end() {
            return false;
        }
        if self.peek() != expected {
            return false;
        }
        self.current = self.current + 1;
        true
    }

    fn make_token(&self, typ: TokenType) -> (t: Token<'input>)
        requires
            self.wf(),
        ensures
            t.typ == typ,
            t.src@ == self.spec_src().subrange(self.spec_start(), self.spec_pos()),
            t.line == self.spec_line(),
    {
        Token { typ, src: self.src.substring_char(self.start, self.current), line: self.line }
    }

    fn error_token(&self, msg: &'static str) -> (t: Token<'input>)
        requires
            self.wf(),
        ensures
            t.typ == TokenType::Error,
            t.src@ == msg@,
            t.line == self.spec_line(),
    {
        Token { typ: TokenType::Error, src: msg, line: self.line }
    }

    /// Advances past whitespace and line comments, to exactly `ws_end` of
    /// the current position, counting the newlines passed.
    fn skip_whitespace(&mut self)
        requires
            old(self).wf(),
        ensures
            final(self).wf(),
            final(self).src == old(self).src,
            final(self).n == old(self).n,
            final(self).start == old(self).start,
            final(self).spec_line() >= old(self).spec_line(),
            final(self).spec_pos() == ws_end(old(self).spec_src(), old(self).spec_pos()),
            final(self).spec_pos() >= old(self).spec_pos(),
            final(self).spec_line() == line_after(
                old(self).spec_line(),
                count_newlines(old(self).spec_src(), old(self).spec_pos(), final(self).spec_pos()),
            ),
    {
        loop
            invariant
                self.wf(),
                self.src == old(self).src,
                self.n == old(self).n,
                self.start == old(self).start,
                self.spec_line() >= old(self).spec_line(),
                self.spec_pos() >= old(self).spec_pos(),
                ws_end(self.spec_src(), self.spec_pos()) == ws_end(
                    old(self).spec_src(),
                    old(self).spec_pos(),
                ),
                self.spec_line() == line_after(
                    old(self).spec_line(),
                    count_newlines(old(self).spec_src(), old(self).spec_pos(), self.spec_pos()),
                ),
            decreases self.spec_src().len() - self.spec_pos(),
        {
            if self.is_at_end() {
                return ;
            }
            let c = self.peek();
            if c == ' ' || c == '\r' || c == '\t' {
                self.current = self.current + 1;
                proof {
                    lemma_count_newlines_bound_nonneg(
                        old(self).spec_src(),
                        old(self).spec_pos(),
                        self.spec_pos(),
                    );
                }
            } else if c == '\n' {
                self.current = self.current + 1;
                self.line = self.line.saturating_add(1);
                proof {
                    lemma_count_newlines_bound_nonneg(
                        old(self).spec_src(),
                        old(self).spec_pos(),
                        self.spec_pos(),
                    );
                }
            } else if c == '/' {
                if self.peek_next() == '/' {
                    let ghost entry = self.spec_pos();
                    proof {
                        assert(line_comment_end(self.spec_src(), entry) == line_comment_end(
                            self.spec_src(),
                            entry + 1,
                        ));
                        assert(line_comment_end(self.spec_src(), entry + 1) == line_comment_end(
                            self.spec_src(),
                            entry + 2,
                        ));
                        lemma_line_comment_end_bounds(self.spec_src(), entry + 2);
                    }
                    loop
                        invariant
                            self.wf(),
                            self.src == old(self).src,
                            self.n == old(self).n,
                            self.start == old(self).start,
                            self.spec_line() >= old(self).spec_line(),
                            entry <= self.spec_pos() <= self.spec_src().len(),
                            line_comment_end(self.spec_src(), entry) == line_comment_end(
                                self.spec_src(),
                                self.spec_pos(),
                            ),
                            ws_end(self.spec_src(), entry) == ws_end(
                                old(self).spec_src(),
                                old(self).spec_pos(),
                            ),
                            ws_end(self.spec_src(), entry) == ws_end(
                                self.spec_src(),
                                line_comment_end(self.spec_src(), entry),
                            ),
                            self.spec_pos() >= old(self).spec_pos(),
                            self.spec_line() == line_after(
                                old(self).spec_line(),
                                count_newlines(
                                    old(self).spec_src(),
                                    old(self).spec_pos(),
                                    self.spec_pos(),
                                ),
                            ),
                        ensures
                            self.wf(),
                            self.src == old(self).src,
                            self.n == old(self).n,
                            self.start == old(self).start,
                            self.spec_line() >= old(self).spec_line(),
                            entry <= self.spec_pos() <= self.spec_src().len(),
                            line_comment_end(self.spec_src(), entry) == line_comment_end(
                                self.spec_src(),
                                self.spec_pos(),
                            ),
                            ws_end(self.spec_src(), entry) == ws_end(
                                old(self).spec_src(),
                                old(self).spec_pos(),
                            ),
                            ws_end(self.spec_src(), entry) == ws_end(
                                self.spec_src(),
                                line_comment_end(self.spec_src(), entry),
                            ),
                            self.spec_pos() >= self.spec_src().len() || self.spec_src()[self.spec_pos()]
                                == '\n',
                            self.spec_pos() >= old(self).spec_pos(),
                            self.spec_line() == line_after(
                                old(self).spec_line(),
                                count_newlines(
                                    old(self).spec_src(),
                                    old(self).spec_pos(),
                                    self.spec_pos(),
                                ),
                            ),
                        decreases self.spec_src().len() - self.spec_pos(),
                    {
                        if self.is_at_end() {
                            break ;
                        }
                        if self.peek() == '\n' {
                            break ;
                        }
                        self.current = self.current + 1;
                    }
                    proof {
                        assert(self.spec_pos() == line_comment_end(self.spec_src(), entry));
                    }
                } else {
                    return ;
                }
            } else {
                return ;
            }
        }
    }

    /// Scans a string literal; the opening quote is already consumed.
    fn string(&mut self) -> (t: Token<'input>)
        requires
            old(self).wf(),
            old(self).spec_start() == old(self).spec_pos() - 1,
            old(self).spec_src()[old(self).spec_start()] == '"',
        ensures
            final(self).wf(),
            final(self).src == old(self).src,
            final(self).n == old(self).n,
            final(self).start == old(self).start,
            final(self).spec_pos() >= old(self).spec_pos(),
            final(self).spec_line() >= old(self).spec_line(),
            final(self).spec_line() == line_after(
                old(self).spec_line(),
                count_newlines(old(self).spec_src(), old(self).spec_pos(), final(self).spec_pos()),
            ),
            t.line == final(self).spec_line(),
            t.typ == TokenType::String || t.typ == TokenType::Error,
            t.typ == TokenType::String ==> t.src@ == final(self).spec_src().subrange(
                final(self).spec_start(),
                final(self).spec_pos(),
            ),
            t.typ == TokenType::Error ==> t.src@ == "Unterminated string."@ && final(self).spec_pos() == final(self).spec_src().len() && (forall|j: int|
                final(self).spec_start() < j < final(self).spec_src().len() ==> final(self).spec_src()[j] != '"'),
            token_shape_ok(t.typ, t.src@, final(self).spec_src(), final(self).spec_pos()),
    {
        loop
            invariant
                self.wf(),
                self.src == old(self).src,
                self.n == old(self).n,
                self.start == old(self).start,
                self.spec_start() < self.spec_pos(),
                self.spec_pos() >= old(self).spec_pos(),
                self.spec_line() >= old(self).spec_line(),
                self.spec_line() == line_after(
                    old(self).spec_line(),
                    count_newlines(old(self).spec_src(), old(self).spec_pos(), self.spec_pos()),
                ),
                forall|j: int|
                    self.spec_start() < j < self.spec_pos() ==> self.spec_src()[j] != '"',
            ensures
                self.wf(),
                self.src == old(self).src,
                self.n == old(self).n,
                self.start == old(self).start,
                self.spec_start() < self.spec_pos(),
                self.spec_pos() >= old(self).spec_pos(),
                self.spec_line() >= old(self).spec_line(),
                self.spec_line() == line_after(
                    old(self).spec_line(),
                    count_newlines(old(self).spec_src(), old(self).spec_pos(), self.spec_pos()),
                ),
                forall|j: int|
                    self.spec_start() < j < self.spec_pos() ==> self.spec_src()[j] != '"',
                self.spec_pos() < self.spec_src().len(),
                self.spec_src()[self.spec_pos()] == '"',
            decreases self.spec_src().len() - self.spec_pos(),
        {
            if self.is_at_end() {
                proof {
                    reveal_strlit("Unexpected character.");
                    reveal_strlit("Unterminated string.");
                }
                return self.error_token("Unterminated string.");
            }
            let c = self.peek();
            if c == '"' {
                break ;
            }
            self.current = self.current + 1;
            if c == '\n' {
                self.line = self.line.saturating_add(1);
            }
            proof {
                lemma_count_newlines_bound_nonneg(
                    old(self).spec_src(),
                    old(self).spec_pos(),
                    self.spec_pos(),
                );
            }
        }
        self.current = self.current + 1;
        let t = self.make_token(TokenType::String);
        proof {
            let lex = t.src@;
            assert(lex.len() >= 2);
            assert(lex[0] == '"');
            assert(lex[lex.len() - 1] == '"');
        }
        t
    }

    /// Scans a numeral; the first digit is already consumed.
    fn number(&mut self) -> (t: Token<'input>)
        requires
            old(self).wf(),
            old(self).spec_start() == old(self).spec_pos() - 1,
            is_digit_char(old(self).spec_src()[old(self).spec_start()]),
        ensures
            final(self).wf(),
            final(self).src == old(self).src,
            final(self).n == old(self).n,
            final(self).start == old(self).start,
            final(self).line == old(self).line,
            final(self).spec_pos() >= old(self).spec_pos(),
            t.typ == TokenType::Number,
            t.line == final(self).spec_line(),
            t.src@ == final(self).spec_src().subrange(
                final(self).spec_start(),
                final(self).spec_pos(),
            ),
            token_shape_ok(t.typ, t.src@, final(self).spec_src(), final(self).spec_pos()),
    {
        loop
            invariant
                self.wf(),
                self.src == old(self).src,
                self.n == old(self).n,
                self.start == old(self).start,
                self.line == old(self).line,
                self.spec_start() < self.spec_pos(),
                forall|j: int|
                    self.spec_start() <= j < self.spec_pos() ==> is_digit_char(
                        self.spec_src()[j],
                    ),
            ensures
                self.wf(),
                self.src == old(self).src,
                self.n == old(self).n,
                self.start == old(self).start,
                self.line == old(self).line,
                self.spec_start() < self.spec_pos(),
                forall|j: int|
                    self.spec_start() <= j < self.spec_pos() ==> is_digit_char(
                        self.spec_src()[j],
                    ),
                self.spec_pos() >= self.spec_src().len() || !is_digit_char(
                    self.spec_src()[self.spec_pos()],
                ),
            decreases self.spec_src().len() - self.spec_pos(),
        {
            let c = self.peek();
            if !(c >= '0' && c <= '9') {
                break ;
            }
            if self.is_at_end() {
                break ;
            }
            self.current = self.current + 1;
        }
        let ghost int_end = self.spec_pos();
        if self.peek() == '.' && {
            let c2 = self.peek_next();
            c2 >= '0' && c2 <= '9'
        } {
            self.current = self.current + 1;
            loop
                invariant
                    self.wf(),
                    self.src == old(self).src,
                    self.n == old(self).n,
                    self.start == old(self).start,
                    self.line == old(self).line,
                    self.spec_start() < int_end,
                    int_end < self.spec_pos(),
                    self.spec_src()[int_end] == '.',
                    self.spec_pos() == int_end + 1 ==> int_end + 1 < self.spec_src().len()
                        && is_digit_char(self.spec_src()[int_end + 1]),
                    forall|j: int|
                        self.spec_start() <= j < int_end ==> is_digit_char(self.spec_src()[j]),
                    forall|j: int|
                        int_end < j < self.spec_pos() ==> is_digit_char(self.spec_src()[j]),
                ensures
                    self.wf(),
                    self.src == old(self).src,
                    self.n == old(self).n,
                    self.start == old(self).start,
                    self.line == old(self).line,
                    self.spec_start() < int_end,
                    int_end < self.spec_pos(),
                    self.spec_src()[int_end] == '.',
                    self.spec_pos() == int_end + 1 ==> int_end + 1 < self.spec_src().len()
                        && is_digit_char(self.spec_src()[int_end + 1]),
                    forall|j: int|
                        self.spec_start() <= j < int_end ==> is_digit_char(self.spec_src()[j]),
                    forall|j: int|
                        int_end < j < self.spec_pos() ==> is_digit_char(self.spec_src()[j]),
                    self.spec_pos() >= self.spec_src().len() || !is_digit_char(
                        self.spec_src()[self.spec_pos()],
                    ),
                decreases self.spec_src().len() - self.spec_pos(),
            {
                let c = self.peek();
                if !(c >= '0' && c <= '9') {
                    break ;
                }
                if self.is_at_end() {
                    break ;
                }
                self.current = self.current + 1;
            }
            proof {
                assert(self.spec_pos() > int_end + 1);
                let src = self.spec_src();
                let a = self.spec_start();
                let b = self.spec_pos();
                let lex = src.subrange(a, b);
                assert(lex[int_end - a] == '.');
                assert(has_dot(lex));
                assert forall|i: int| 0 <= i < lex.len() && lex[i] == '.' implies i == int_end
                    - a by {
                    assert(lex[i] == src[a + i]);
                };
                assert(is_numeral(lex)) by {
                    assert(lex[0] == src[a]);
                    assert(lex[lex.len() - 1] == src[b - 1]);
                    assert(forall|i: int|
                        0 <= i < lex.len() ==> ('0' <= #[trigger] lex[i] <= '9' || lex[i] == '.'));
                };
                assert(token_shape_ok(TokenType::Number, lex, src, b));
            }
        } else {
            proof {
                let src = self.spec_src();
                let a = self.spec_start();
                let b = self.spec_pos();
                let lex = src.subrange(a, b);
                assert(is_numeral(lex)) by {
                    assert(lex[0] == src[a]);
                    assert(lex[lex.len() - 1] == src[b - 1]);
                    assert(forall|i: int| 0 <= i < lex.len() ==> '0' <= #[trigger] lex[i] <= '9');
                };
                assert(token_shape_ok(TokenType::Number, lex, src, b));
            }
        }
        let t = self.make_token(TokenType::Number);
        t
    }

    /// Scans an identifier or keyword; the first character is already
    /// consumed.
    fn identifier(&mut self) -> (t: Token<'input>)
        requires
            old(self).wf(),
            old(self).spec_start() == old(self).spec_pos() - 1,
            is_alpha_char(old(self).spec_src()[old(self).spec_start()]),
        ensures
            final(self).wf(),
            final(self).src == old(self).src,
            final(self).n == old(self).n,
            final(self).start == old(self).start,
            final(self).line == old(self).line,
            final(self).spec_pos() >= old(self).spec_pos(),
            t.typ != TokenType::Error && t.typ != TokenType::Eof,
            t.line == final(self).spec_line(),
            t.src@ == final(self).spec_src().subrange(
                final(self).spec_start(),
                final(self).spec_pos(),
            ),
            is_ident_lexeme(t.src@),
            token_shape_ok(t.typ, t.src@, final(self).spec_src(), final(self).spec_pos()),
    {
        loop
            invariant
                self.wf(),
                self.src == old(self).src,
                self.n == old(self).n,
                self.start == old(self).start,
                self.line == old(self).line,
                self.spec_start() < self.spec_pos(),
                is_alpha_char(self.spec_src()[self.spec_start()]),
                forall|j: int|
                    self.spec_start() <= j < self.spec_pos() ==> is_ident_char(
                        self.spec_src()[j],
                    ),
            ensures
                self.wf(),
                self.src == old(self).src,
                self.n == old(self).n,
                self.start == old(self).start,
                self.line == old(self).line,
                self.spec_start() < self.spec_pos(),
                is_alpha_char(self.spec_src()[self.spec_start()]),
                forall|j: int|
                    self.spec_start() <= j < self.spec_pos() ==> is_ident_char(
                        self.spec_src()[j],
                    ),
                self.spec_pos() >= self.spec_src().len() || !is_ident_char(
                    self.spec_src()[self.spec_pos()],
                ),
            decreases self.spec_src().len() - self.spec_pos(),
        {
            let c = self.peek();
            let alpha = (c >= 'a' && c <= 'z') || (c >= 'A' && c <= 'Z') || c == '_';
            let digit = c >= '0' && c <= '9';
            if !(alpha || digit) {
                break ;
            }
            if self.is_at_end() {
                break ;
            }
            self.current = self.current + 1;
        }
        let typ = self.identifier_type();
        let t = self.make_token(typ);
        t
    }

    /// Decides whether the identifier just scanned is a reserved word.
    fn identifier_type(&self) -> (typ: TokenType)
        requires
            self.wf(),
            self.spec_start() < self.spec_pos(),
        ensures
            typ == keyword_type(
                self.spec_src().subrange(self.spec_start(), self.spec_pos()),
            ),
            typ != TokenType::Error && typ != TokenType::Eof && typ != TokenType::String && typ
                != TokenType::Number,
    {
        let lex = self.src.substring_char(self.start, self.current);
        proof {
            reveal_strlit("and");
            reveal_strlit("class");
            reveal_strlit("else");
            reveal_strlit("false");
            reveal_strlit("for");
            reveal_strlit("fun");
            reveal_strlit("if");
            reveal_strlit("nil");
            reveal_strlit("or");
            reveal_strlit("print");
            reveal_strlit("return");
            reveal_strlit("super");
            reveal_strlit("this");
            reveal_strlit("true");
            reveal_strlit("var");
            reveal_strlit("while");
            assert("and"@ =~= seq!['a', 'n', 'd']);
            assert("class"@ =~= seq!['c', 'l', 'a', 's', 's']);
            assert("else"@ =~= seq!['e', 'l', 's', 'e']);
            assert("false"@ =~= seq!['f', 'a', 'l', 's', 'e']);
            assert("for"@ =~= seq!['f', 'o', 'r']);
            assert("fun"@ =~= seq!['f', 'u', 'n']);
            assert("if"@ =~= seq!['i', 'f']);
            assert("nil"@ =~= seq!['n', 'i', 'l']);
            assert("or"@ =~= seq!['o', 'r']);
            assert("print"@ =~= seq!['p', 'r', 'i', 'n', 't']);
            assert("return"@ =~= seq!['r', 'e', 't', 'u', 'r', 'n']);
            assert("super"@ =~= seq!['s', 'u', 'p', 'e', 'r']);
            assert("this"@ =~= seq!['t', 'h', 'i', 's']);
            assert("true"@ =~= seq!['t', 'r', 'u', 'e']);
            assert("var"@ =~= seq!['v', 'a', 'r']);
            assert("while"@ =~= seq!['w', 'h', 'i', 'l', 'e']);
        }
        if str_eq(lex, "and") {
            TokenType::And
        } else if str_eq(lex, "class") {
            TokenType::Class
        } else if str_eq(lex, "else") {
            TokenType::Else
        } else if str_eq(lex, "false") {
            TokenType::False
        } else if str_eq(lex, "for") {
            TokenType::For
        } else if str_eq(lex, "fun") {
            TokenType::Fun
        } else if str_eq(lex, "if") {
            TokenType::If
        } else if str_eq(lex, "nil") {
            TokenType::Nil
        } else if str_eq(lex, "or") {
            TokenType::Or
        } else if str_eq(lex, "print") {
            TokenType::Print
        } else if str_eq(lex, "return") {
            TokenType::Return
        } else if str_eq(lex, "super") {
            TokenType::Super
        } else if str_eq(lex, "this") {
            TokenType::This
        } else if str_eq(lex, "true") {
            TokenType::True
        } else if str_eq(lex, "var") {
            TokenType::Var
        } else if str_eq(lex, "while") {
            TokenType::While
        } else {
            TokenType::Identifier
        }
    }

    /// Skips whitespace, then scans and returns the next token. At the end
    /// of the input every call returns `Eof`. Non-`Eof` tokens consume at
    /// least one character, so repeated scanning always reaches the end.
    #[verifier::rlimit(80)]
    pub fn scan_token(&mut self) -> (t: Token<'input>)
        requires
            old(self).wf(),
        ensures
            final(self).wf(),
            final(self).spec_src() == old(self).spec_src(),
            final(self).spec_pos() >= old(self).spec_pos(),
            final(self).spec_line() >= old(self).spec_line(),
            final(self).spec_line() == line_after(
                old(self).spec_line(),
                count_newlines(old(self).spec_src(), old(self).spec_pos(), final(self).spec_pos()),
            ),
            t.line == final(self).spec_line(),
            final(self).spec_start() == ws_end(old(self).spec_src(), old(self).spec_pos()),
            final(self).spec_start() <= final(self).spec_pos(),
            t.typ == TokenType::Eof ==> final(self).spec_pos() == final(self).spec_src().len()
                && final(self).spec_start() == final(self).spec_src().len(),
            t.typ != TokenType::Eof ==> final(self).spec_pos() > old(self).spec_pos(),
            t.typ != TokenType::Error ==> t.src@ == final(self).spec_src().subrange(
                final(self).spec_start(),
                final(self).spec_pos(),
            ),
            t.typ == TokenType::Error && t.src@ == "Unexpected character."@ ==> final(self).spec_pos() == final(self).spec_start() + 1 && !starts_token_char(
                final(self).spec_src()[final(self).spec_start()],
            ),
            t.typ == TokenType::Error && t.src@ == "Unterminated string."@ ==> final(self).spec_start() < final(self).spec_src().len() && final(self).spec_src()[final(self).spec_start()] == '"' && final(self).spec_pos() == final(self).spec_src().len() && (forall|j: int|
                final(self).spec_start() < j < final(self).spec_src().len() ==> final(self).spec_src()[j] != '"'),
            token_shape_ok(t.typ, t.src@, final(self).spec_src(), final(self).spec_pos()),
    {
        proof {
            reveal_strlit("Unexpected character.");
            reveal_strlit("Unterminated string.");
            lemma_ws_end_bounds(old(self).spec_src(), old(self).spec_pos());
        }
        self.skip_whitespace();
        self.start = self.current;
        if self.is_at_end() {
            proof {
                lemma_line_join(
                    self.spec_src(),
                    old(self).spec_pos(),
                    old(self).spec_line(),
                    self.spec_start(),
                    self.spec_pos(),
                    self.spec_line() as int,
                );
            }
            let t = self.make_token(TokenType::Eof);
            return t;
        }
        let c = self.advance();
        if c == '(' {
            proof {
                assert(self.spec_src().subrange(self.spec_start(), self.spec_pos()) =~= seq![
                    '(',
                ]);
                lemma_line_join(
                    self.spec_src(),
                    old(self).spec_pos(),
                    old(self).spec_line(),
                    self.spec_start(),
                    self.spec_pos(),
                    self.spec_line() as int,
                );
            }
            return self.make_token(TokenType::LParen);
        }
        if c == ')' {
            proof {
                assert(self.spec_src().subrange(self.spec_start(), self.spec_pos()) =~= seq![
                    ')',
                ]);
                lemma_line_join(
                    self.spec_src(),
                    old(self).spec_pos(),
                    old(self).spec_line(),
                    self.spec_start(),
                    self.spec_pos(),
                    self.spec_line() as int,
                );
            }
            return self.make_token(TokenType::RParen);
        }
        if c == '{' {
            proof {
                assert(self.spec_src().subrange(self.spec_start(), self.spec_pos()) =~= seq![
                    '{',
                ]);
                lemma_line_join(
                    self.spec_src(),
                    old(self).spec_pos(),
                    old(self).spec_line(),
                    self.spec_start(),
                    self.spec_pos(),
                    self.spec_line() as int,
                );
            }
            return self.make_token(TokenType::LBrace);
        }
        if c == '}' {
            proof {
                assert(self.spec_src().subrange(self.spec_start(), self.spec_pos()) =~= seq![
                    '}',
                ]);
                lemma_line_join(
                    self.spec_src(),
                    old(self).spec_pos(),
                    old(self).spec_line(),
                    self.spec_start(),
                    self.spec_pos(),
                    self.spec_line() as int,
                );
            }
            return self.make_token(TokenType::RBrace);
        }
        if c == ';' {
            proof {
                assert(self.spec_src().subrange(self.spec_start(), self.spec_pos()) =~= seq![
                    ';',
                ]);
                lemma_line_join(
                    self.spec_src(),
                    old(self).spec_pos(),
                    old(self).spec_line(),
                    self.spec_start(),
                    self.spec_pos(),
                    self.spec_line() as int,
                );
            }
            return self.make_token(TokenType::Semicolon);
        }
        if c == ',' {
            proof {
                assert(self.spec_src().subrange(self.spec_start(), self.spec_pos()) =~= seq![
                    ',',
                ]);
                lemma_line_join(
                    self.spec_src(),
                    old(self).spec_pos(),
                    old(self).spec_line(),
                    self.spec_start(),
                    self.spec_pos(),
                    self.spec_line() as int,
                );
            }
            return self.make_token(TokenType::Comma);
        }
        if c == '.' {
            proof {
                assert(self.spec_src().subrange(self.spec_start(), self.spec_pos()) =~= seq![
                    '.',
                ]);
                lemma_line_join(
                    self.spec_src(),
                    old(self).spec_pos(),
                    old(self).spec_line(),
                    self.spec_start(),
                    self.spec_pos(),
                    self.spec_line() as int,
                );
            }
            return self.make_token(TokenType::Dot);
        }
        if c == '-' {
            proof {
                assert(self.spec_src().subrange(self.spec_start(), self.spec_pos()) =~= seq![
                    '-',
                ]);
                lemma_line_join(
                    self.spec_src(),
                    old(self).spec_pos(),
                    old(self).spec_line(),
                    self.spec_start(),
                    self.spec_pos(),
                    self.spec_line() as int,
                );
            }
            return self.make_token(TokenType::Minus);
        }
        if c == '+' {
            proof {
                assert(self.spec_src().subrange(self.spec_start(), self.spec_pos()) =~= seq![
                    '+',
                ]);
                lemma_line_join(
                    self.spec_src(),
                    old(self).spec_pos(),
                    old(self).spec_line(),
                    self.spec_start(),
                    self.spec_pos(),
                    self.spec_line() as int,
                );
            }
            return self.make_token(TokenType::Plus);
        }
        if c == '/' {
            proof {
                assert(self.spec_src().subrange(self.spec_start(), self.spec_pos()) =~= seq![
                    '/',
                ]);
                lemma_line_join(
                    self.spec_src(),
                    old(self).spec_pos(),
                    old(self).spec_line(),
                    self.spec_start(),
                    self.spec_pos(),
                    self.spec_line() as int,
                );
            }
            return self.make_token(TokenType::Slash);
        }
        if c == '*' {
            proof {
                assert(self.spec_src().subrange(self.spec_start(), self.spec_pos()) =~= seq![
                    '*',
                ]);
                lemma_line_join(
                    self.spec_src(),
                    old(self).spec_pos(),
                    old(self).spec_line(),
                    self.spec_start(),
                    self.spec_pos(),
                    self.spec_line() as int,
                );
            }
            return self.make_token(TokenType::Star);
        }
        if c == '!' {
            let two = self.matchh('=');
            proof {
                if two {
                    assert(self.spec_src().subrange(self.spec_start(), self.spec_pos()) =~= seq![
                        '!',
                        '=',
                    ]);
                } else {
                    assert(self.spec_src().subrange(self.spec_start(), self.spec_pos()) =~= seq![
                        '!',
                    ]);
                }
                lemma_line_join(
                    self.spec_src(),
                    old(self).spec_pos(),
                    old(self).spec_line(),
                    self.spec_start(),
                    self.spec_pos(),
                    self.spec_line() as int,
                );
            }
            let typ = if two {
                TokenType::BangEqual
            } else {
                TokenType::Bang
            };
            return self.make_token(typ);
        }
        if c == '=' {
            let two = self.matchh('=');
            proof {
                if two {
                    assert(self.spec_src().subrange(self.spec_start(), self.spec_pos()) =~= seq![
                        '=',
                        '=',
                    ]);
                } else {
                    assert(self.spec_src().subrange(self.spec_start(), self.spec_pos()) =~= seq![
                        '=',
                    ]);
                }
                lemma_line_join(
                    self.spec_src(),
                    old(self).spec_pos(),
                    old(self).spec_line(),
                    self.spec_start(),
                    self.spec_pos(),
                    self.spec_line() as int,
                );
            }
            let typ = if two {
                TokenType::EqualEqual
            } else {
                TokenType::Equal
            };
            return self.make_token(typ);
        }
        if c == '<' {
            let two = self.matchh('=');
            proof {
                if two {
                    assert(self.spec_src().subrange(self.spec_start(), self.spec_pos()) =~= seq![
                        '<',
                        '=',
                    ]);
                } else {
                    assert(self.spec_src().subrange(self.spec_start(), self.spec_pos()) =~= seq![
                        '<',
                    ]);
                }
                lemma_line_join(
                    self.spec_src(),
                    old(self).spec_pos(),
                    old(self).spec_line(),
                    self.spec_start(),
                    self.spec_pos(),
                    self.spec_line() as int,
                );
            }
            let typ = if two {
                TokenType::LessEqual
            } else {
                TokenType::Less
            };
            return self.make_token(typ);
        }
        if c == '>' {
            let two = self.matchh('=');
            proof {
                if two {
                    assert(self.spec_src().subrange(self.spec_start(), self.spec_pos()) =~= seq![
                        '>',
                        '=',
                    ]);
                } else {
                    assert(self.spec_src().subrange(self.spec_start(), self.spec_pos()) =~= seq![
                        '>',
                    ]);
                }
                lemma_line_join(
                    self.spec_src(),
                    old(self).spec_pos(),
                    old(self).spec_line(),
                    self.spec_start(),
                    self.spec_pos(),
                    self.spec_line() as int,
                );
            }
            let typ = if two {
                TokenType::GreaterEqual
            } else {
                TokenType::Greater
            };
            return self.make_token(typ);
        }
        if c == '"' {
            let ghost inner_start = self.spec_pos();
            let t = self.string();
            proof {
                reveal_strlit("Unexpected character.");
                reveal_strlit("Unterminated string.");
                assert("Unexpected character."@.len() == 21);
                assert("Unterminated string."@.len() == 20);
                let src = self.spec_src();
                let p0 = old(self).spec_pos();
                let a = self.spec_start();
                lemma_count_newlines_zero(src, a, inner_start);
                lemma_count_newlines_split(src, p0, a, inner_start);
                lemma_count_newlines_split(src, p0, inner_start, self.spec_pos());
                lemma_count_newlines_bound_nonneg(src, p0, inner_start);
                lemma_count_newlines_bound_nonneg(src, inner_start, self.spec_pos());
                lemma_line_after_compose(
                    old(self).spec_line(),
                    count_newlines(src, p0, inner_start),
                    count_newlines(src, inner_start, self.spec_pos()),
                );
            }
            return t;
        }
        if c >= '0' && c <= '9' {
            let t = self.number();
            proof {
                let src = self.spec_src();
                let a = self.spec_start();
                let b = self.spec_pos();
                assert forall|j: int| a <= j < b implies src[j] != '\n' by {
                    assert(t.src@[j - a] == src[j]);
                };
                lemma_line_join(
                    self.spec_src(),
                    old(self).spec_pos(),
                    old(self).spec_line(),
                    self.spec_start(),
                    self.spec_pos(),
                    self.spec_line() as int,
                );
            }
            return t;
        }
        if (c >= 'a' && c <= 'z') || (c >= 'A' && c <= 'Z') || c == '_' {
            let t = self.identifier();
            proof {
                let src = self.spec_src();
                let a = self.spec_start();
                let b = self.spec_pos();
                assert forall|j: int| a <= j < b implies src[j] != '\n' by {
                    assert(is_ident_char(t.src@[j - a]));
                    assert(t.src@[j - a] == src[j]);
                };
                lemma_line_join(
                    self.spec_src(),
                    old(self).spec_pos(),
                    old(self).spec_line(),
                    self.spec_start(),
                    self.spec_pos(),
                    self.spec_line() as int,
                );
            }
            return t;
        }
        proof {
            reveal_strlit("Unexpected character.");
            reveal_strlit("Unterminated string.");
            assert("Unexpected character."@.len() == 21);
            assert("Unterminated string."@.len() == 20);
            lemma_ws_end_stops(old(self).spec_src(), old(self).spec_pos());
            assert(!is_ws_char(self.spec_src()[self.spec_start()]));
            lemma_line_join(
                    self.spec_src(),
                    old(self).spec_pos(),
                    old(self).spec_line(),
                    self.spec_start(),
                    self.spec_pos(),
                    self.spec_line() as int,
                );
        }
        self.error_token("Unexpected character.")
    }
}

} // verus!
