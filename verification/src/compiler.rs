//! The single-pass compiler: drives the scanner, keeps the parser state
//! (current and previous token, error and panic flags, collected
//! diagnostics), resolves local variables against a compile-time locals
//! array, and emits bytecode into a fresh chunk by Pratt
//! precedence-climbing parsing.

use vstd::prelude::*;
use vstd::string::StrSliceExecFns;
use vstd::string::StringExecFns;

use crate::chunk::{Chunk, OpCode};
use crate::num::num_parse;
use crate::object::{interner_extends, IString, StringInterner};
use crate::scanner::{token_lex_ok, Scanner, Token, TokenType};
use crate::text::{dec_digits, str_eq, usize_to_string};
use crate::value::{valid_values, Value};
use crate::vm::InterpretError;

verus! {

/// The precedence levels, in ascending order of binding strength.
#[derive(Debug, Clone, Copy, PartialEq, Eq, Structural)]
pub enum Precedence {
    PrecNone,
    Assignment,
    Or,
    And,
    Equality,
    Comparison,
    Term,
    Factor,
    Unary,
    Call,
    Primary,
}

/// The numeric rank of a precedence level.
pub open spec fn spec_level(p: Precedence) -> int {
    match p {
        Precedence::PrecNone => 0,
        Precedence::Assignment => 1,
        Precedence::Or => 2,
        Precedence::And => 3,
        Precedence::Equality => 4,
        Precedence::Comparison => 5,
        Precedence::Term => 6,
        Precedence::Factor => 7,
        Precedence::Unary => 8,
        Precedence::Call => 9,
        Precedence::Primary => 10,
    }
}

impl Precedence {
    pub fn level(&self) -> (r: u8)
        ensures
            r as int == spec_level(*self),
    {
        match self {
            Precedence::PrecNone => 0,
            Precedence::Assignment => 1,
            Precedence::Or => 2,
            Precedence::And => 3,
            Precedence::Equality => 4,
            Precedence::Comparison => 5,
            Precedence::Term => 6,
            Precedence::Factor => 7,
            Precedence::Unary => 8,
            Precedence::Call => 9,
            Precedence::Primary => 10,
        }
    }

    /// The next-higher precedence level.
    pub fn next(&self) -> (r: Self)
        requires
            *self != Precedence::Primary,
        ensures
            spec_level(r) == spec_level(*self) + 1,
    {
        match self {
            Precedence::PrecNone => Precedence::Assignment,
            Precedence::Assignment => Precedence::Or,
            Precedence::Or => Precedence::And,
            Precedence::And => Precedence::Equality,
            Precedence::Equality => Precedence::Comparison,
            Precedence::Comparison => Precedence::Term,
            Precedence::Term => Precedence::Factor,
            Precedence::Factor => Precedence::Unary,
            Precedence::Unary => Precedence::Call,
            Precedence::Call => Precedence::Primary,
            Precedence::Primary => {
                proof {
                    assert(false);
                }
                Precedence::Primary
            },
        }
    }
}

/// The prefix parse action a token type selects.
#[derive(Debug, Clone, Copy, PartialEq, Eq, Structural)]
pub enum PrefixRule {
    Grouping,
    Unary,
    Variable,
    StrLit,
    NumLit,
    Literal,
    NoPrefix,
}

/// The infix parse action a token type selects.
#[derive(Debug, Clone, Copy, PartialEq, Eq, Structural)]
pub enum InfixRule {
    Binary,
    NoInfix,
}

/// The Pratt rule table as a pure function: each token type's prefix rule,
/// infix rule, and infix precedence.
pub open spec fn spec_rule(typ: TokenType) -> (PrefixRule, InfixRule, Precedence) {
    match typ {
        TokenType::LParen => (PrefixRule::Grouping, InfixRule::NoInfix, Precedence::PrecNone),
        TokenType::Minus => (PrefixRule::Unary, InfixRule::Binary, Precedence::Term),
        TokenType::Plus => (PrefixRule::NoPrefix, InfixRule::Binary, Precedence::Term),
        TokenType::Slash => (PrefixRule::NoPrefix, InfixRule::Binary, Precedence::Factor),
        TokenType::Star => (PrefixRule::NoPrefix, InfixRule::Binary, Precedence::Factor),
        TokenType::Bang => (PrefixRule::Unary, InfixRule::NoInfix, Precedence::PrecNone),
        TokenType::BangEqual => (PrefixRule::NoPrefix, InfixRule::Binary, Precedence::Equality),
        TokenType::EqualEqual => (PrefixRule::NoPrefix, InfixRule::Binary, Precedence::Equality),
        TokenType::Greater => (PrefixRule::NoPrefix, InfixRule::Binary, Precedence::Comparison),
        TokenType::GreaterEqual => (
            PrefixRule::NoPrefix,
            InfixRule::Binary,
            Precedence::Comparison,
        ),
        TokenType::Less => (PrefixRule::NoPrefix, InfixRule::Binary, Precedence::Comparison),
        TokenType::LessEqual => (PrefixRule::NoPrefix, InfixRule::Binary, Precedence::Comparison),
        TokenType::Identifier => (PrefixRule::Variable, InfixRule::NoInfix, Precedence::PrecNone),
        TokenType::String => (PrefixRule::StrLit, InfixRule::NoInfix, Precedence::PrecNone),
        TokenType::Number => (PrefixRule::NumLit, InfixRule::NoInfix, Precedence::PrecNone),
        TokenType::False => (PrefixRule::Literal, InfixRule::NoInfix, Precedence::PrecNone),
        TokenType::True => (PrefixRule::Literal, InfixRule::NoInfix, Precedence::PrecNone),
        TokenType::Nil => (PrefixRule::Literal, InfixRule::NoInfix, Precedence::PrecNone),
        _ => (PrefixRule::NoPrefix, InfixRule::NoInfix, Precedence::PrecNone),
    }
}

/// The Pratt rule lookup.
pub fn get_rule(typ: TokenType) -> (r: (PrefixRule, InfixRule, Precedence))
    ensures
        r == spec_rule(typ),
{
    match typ {
        TokenType::LParen => (PrefixRule::Grouping, InfixRule::NoInfix, Precedence::PrecNone),
        TokenType::Minus => (PrefixRule::Unary, InfixRule::Binary, Precedence::Term),
        TokenType::Plus => (PrefixRule::NoPrefix, InfixRule::Binary, Precedence::Term),
        TokenType::Slash => (PrefixRule::NoPrefix, InfixRule::Binary, Precedence::Factor),
        TokenType::Star => (PrefixRule::NoPrefix, InfixRule::Binary, Precedence::Factor),
        TokenType::Bang => (PrefixRule::Unary, InfixRule::NoInfix, Precedence::PrecNone),
        TokenType::BangEqual => (PrefixRule::NoPrefix, InfixRule::Binary, Precedence::Equality),
        TokenType::EqualEqual => (PrefixRule::NoPrefix, InfixRule::Binary, Precedence::Equality),
        TokenType::Greater => (PrefixRule::NoPrefix, InfixRule::Binary, Precedence::Comparison),
        TokenType::GreaterEqual => (
            PrefixRule::NoPrefix,
            InfixRule::Binary,
            Precedence::Comparison,
        ),
        TokenType::Less => (PrefixRule::NoPrefix, InfixRule::Binary, Precedence::Comparison),
        TokenType::LessEqual => (PrefixRule::NoPrefix, InfixRule::Binary, Precedence::Comparison),
        TokenType::Identifier => (PrefixRule::Variable, InfixRule::NoInfix, Precedence::PrecNone),
        TokenType::String => (PrefixRule::StrLit, InfixRule::NoInfix, Precedence::PrecNone),
        TokenType::Number => (PrefixRule::NumLit, InfixRule::NoInfix, Precedence::PrecNone),
        TokenType::False => (PrefixRule::Literal, InfixRule::NoInfix, Precedence::PrecNone),
        TokenType::True => (PrefixRule::Literal, InfixRule::NoInfix, Precedence::PrecNone),
        TokenType::Nil => (PrefixRule::Literal, InfixRule::NoInfix, Precedence::PrecNone),
        _ => (PrefixRule::NoPrefix, InfixRule::NoInfix, Precedence::PrecNone),
    }
}

/// The earlier code is a prefix of the later, element for element: a
/// parse step only appends instructions, and the jump patches a construct
/// makes land inside the code that construct itself emitted.
pub open spec fn code_extends(c1: Seq<OpCode>, c0: Seq<OpCode>) -> bool {
    &&& c0.len() <= c1.len()
    &&& forall|i: int| 0 <= i < c0.len() ==> c1[i] == c0[i]
}

/// The code ends with the given instruction suffix.
pub open spec fn code_ends_with(c: Seq<OpCode>, suffix: Seq<OpCode>) -> bool {
    &&& suffix.len() <= c.len()
    &&& forall|i: int| 0 <= i < suffix.len() ==> c[c.len() - suffix.len() + i] == suffix[i]
}

/// The earlier constant pool is a prefix of the later: compilation only
/// appends constants.
pub open spec fn values_extends(v1: Seq<Value>, v0: Seq<Value>) -> bool {
    &&& v0.len() <= v1.len()
    &&& forall|i: int| 0 <= i < v0.len() ==> v1[i] == v0[i]
}

/// The opcodes a binary operator token compiles to, after its operands.
pub open spec fn spec_binary_suffix(typ: TokenType) -> Seq<OpCode> {
    match typ {
        TokenType::BangEqual => seq![OpCode::Equal, OpCode::Not],
        TokenType::EqualEqual => seq![OpCode::Equal],
        TokenType::Greater => seq![OpCode::Greater],
        TokenType::GreaterEqual => seq![OpCode::Less, OpCode::Not],
        TokenType::Less => seq![OpCode::Less],
        TokenType::LessEqual => seq![OpCode::Greater, OpCode::Not],
        TokenType::Plus => seq![OpCode::Add],
        TokenType::Minus => seq![OpCode::Subtract],
        TokenType::Star => seq![OpCode::Multiply],
        _ => seq![OpCode::Divide],
    }
}

/// Appending a sequence leaves the code ending with it.
pub proof fn lemma_append_ends_with(c: Seq<OpCode>, suffix: Seq<OpCode>)
    ensures
        code_ends_with(c + suffix, suffix),
{
    assert forall|i: int| 0 <= i < suffix.len() implies (c + suffix)[(c + suffix).len()
        - suffix.len() + i] == suffix[i] by {};
}

/// Appending one unit leaves the code ending with it.
pub proof fn lemma_push_ends_with(c: Seq<OpCode>, x: OpCode)
    ensures
        code_ends_with(c.push(x), seq![x]),
{
    assert(c.push(x) =~= c + seq![x]);
    lemma_append_ends_with(c, seq![x]);
}

/// Appending two units leaves the code ending with them.
pub proof fn lemma_push2_ends_with(c: Seq<OpCode>, x: OpCode, y: OpCode)
    ensures
        code_ends_with(c.push(x).push(y), seq![x, y]),
{
    assert(c.push(x).push(y) =~= c + seq![x, y]);
    lemma_append_ends_with(c, seq![x, y]);
}

/// The text of one compile diagnostic:
/// `[line N] Error at <lexeme|end>: <message>`.
pub open spec fn spec_error_message(
    typ: TokenType,
    lex: Seq<char>,
    line: int,
    msg: Seq<char>,
) -> Seq<char> {
    "[line "@ + dec_digits(line) + "] Error"@ + (if typ == TokenType::Eof {
        " at end"@
    } else if typ == TokenType::Error {
        Seq::<char>::empty()
    } else {
        " at "@ + lex
    }) + ": "@ + msg
}

/// The earlier diagnostics are a prefix of the later: reports are only
/// ever appended.
pub open spec fn diags_extends(a: Seq<Seq<char>>, b: Seq<Seq<char>>) -> bool {
    &&& b.len() <= a.len()
    &&& forall|i: int| 0 <= i < b.len() ==> a[i] == b[i]
}

/// A diagnostic that forwards a scan error: its message is the error
/// token's lexeme, one of the scanner's two messages.
pub open spec fn is_scan_error_diag(d: Seq<char>) -> bool {
    ||| exists|line: int|
        d == #[trigger] spec_error_message(
            TokenType::Error,
            "Unexpected character."@,
            line,
            "Unexpected character."@,
        )
    ||| exists|line: int|
        d == #[trigger] spec_error_message(
            TokenType::Error,
            "Unterminated string."@,
            line,
            "Unterminated string."@,
        )
}

/// The diagnostics and error flags are consistent: an error has been seen
/// exactly when a diagnostic was recorded, and panic mode implies one was.
pub open spec fn parser_flags_ok(p: Parser) -> bool {
    &&& (p.had_error <==> p.spec_diags().len() > 0)
    &&& (p.panic_mode ==> p.had_error)
}

/// The parser state: a one-token window over the scanner, the error flags,
/// and the compile diagnostics collected so far.
#[derive(Debug)]
pub struct Parser<'input> {
    pub current: Token<'input>,
    pub previous: Token<'input>,
    pub had_error: bool,
    pub panic_mode: bool,
    pub diagnostics: Vec<String>,
}

impl<'input> Parser<'input> {
    /// The diagnostics recorded so far, as character sequences.
    pub open spec fn spec_diags(&self) -> Seq<Seq<char>> {
        Seq::new(self.diagnostics@.len(), |i: int| self.diagnostics@[i]@)
    }

    fn new() -> (r: Self)
        ensures
            r.current.typ == TokenType::Eof,
            r.current.src@.len() == 0,
            r.current.line == 0,
            r.previous.typ == TokenType::Eof,
            r.previous.src@.len() == 0,
            r.previous.line == 0,
            !r.had_error,
            !r.panic_mode,
            r.spec_diags().len() == 0,
    {
        let blank = Token::blank();
        proof {
            reveal_strlit("");
        }
        Parser {
            current: blank,
            previous: blank,
            had_error: false,
            panic_mode: false,
            diagnostics: Vec::new(),
        }
    }

    /// Takes the collected diagnostics, in the order they were recorded.
    fn take_diagnostics(self) -> (r: Vec<String>)
        ensures
            r@.len() == self.spec_diags().len(),
            forall|i: int| 0 <= i < r@.len() ==> r@[i]@ == self.spec_diags()[i],
    {
        self.diagnostics
    }

    /// Records `[line N] Error at <lexeme|end>: <msg>`, once per panic:
    /// while in panic mode further reports are suppressed.
    fn error_at(&mut self, token: Token, msg: &str)
        requires
            parser_flags_ok(*old(self)),
        ensures
            parser_flags_ok(*final(self)),
            final(self).current == old(self).current,
            final(self).previous == old(self).previous,
            old(self).panic_mode ==> *final(self) == *old(self),
            !old(self).panic_mode ==> final(self).panic_mode && final(self).had_error && final(self).spec_diags() == old(self).spec_diags().push(
                spec_error_message(token.typ, token.src@, token.line as int, msg@),
            ),
            old(self).had_error ==> final(self).had_error,
            final(self).spec_diags().len() >= old(self).spec_diags().len(),
    {
        if self.panic_mode {
            return ;
        }
        self.panic_mode = true;
        let mut m = String::from_str("[line ");
        let line_text = usize_to_string(token.line);
        m.append(line_text.as_str());
        m.append("] Error");
        match token.typ {
            TokenType::Eof => m.append(" at end"),
            TokenType::Error => {},
            _ => {
                m.append(" at ");
                m.append(token.src);
            },
        }
        m.append(": ");
        m.append(msg);
        proof {
            assert(m@ =~= spec_error_message(token.typ, token.src@, token.line as int, msg@));
        }
        self.diagnostics.push(m);
        self.had_error = true;
        proof {
            assert(self.spec_diags() =~= old(self).spec_diags().push(
                spec_error_message(token.typ, token.src@, token.line as int, msg@),
            ));
        }
    }

    /// Reports an error at the token being looked at.
    fn error_at_current(&mut self, msg: &str)
        requires
            parser_flags_ok(*old(self)),
        ensures
            parser_flags_ok(*final(self)),
            final(self).current == old(self).current,
            final(self).previous == old(self).previous,
            old(self).panic_mode ==> *final(self) == *old(self),
            !old(self).panic_mode ==> final(self).panic_mode && final(self).had_error && final(self).spec_diags() == old(self).spec_diags().push(
                spec_error_message(
                    old(self).current.typ,
                    old(self).current.src@,
                    old(self).current.line as int,
                    msg@,
                ),
            ),
            old(self).had_error ==> final(self).had_error,
            final(self).spec_diags().len() >= old(self).spec_diags().len(),
    {
        let t = self.current;
        self.error_at(t, msg)
    }

    /// Reports an error at the token just consumed.
    fn error(&mut self, msg: &str)
        requires
            parser_flags_ok(*old(self)),
        ensures
            parser_flags_ok(*final(self)),
            final(self).current == old(self).current,
            final(self).previous == old(self).previous,
            old(self).panic_mode ==> *final(self) == *old(self),
            !old(self).panic_mode ==> final(self).panic_mode && final(self).had_error && final(self).spec_diags() == old(self).spec_diags().push(
                spec_error_message(
                    old(self).previous.typ,
                    old(self).previous.src@,
                    old(self).previous.line as int,
                    msg@,
                ),
            ),
            old(self).had_error ==> final(self).had_error,
            final(self).spec_diags().len() >= old(self).spec_diags().len(),
    {
        let t = self.previous;
        self.error_at(t, msg)
    }
}

/// A compile-time local variable: its name token and its scope depth, or
/// `None` while it is declared but not yet initialized.
#[derive(Debug)]
pub struct Local<'input> {
    pub name: Token<'input>,
    pub depth: Option<usize>,
}

/// What compiling a variable reference guarantees: the instruction for the
/// resolved local slot, or for the freshly interned global name constant,
/// in its get or set form by whether an `=` follows in assignment position.
pub open spec fn named_variable_post<'a>(
    pre: Compiler<'a>,
    post: Compiler<'a>,
    strings0: Seq<Seq<char>>,
    strings1: Seq<Seq<char>>,
    name: Seq<char>,
    can_assign: bool,
) -> bool {
    let assign = can_assign && pre.spec_parser().current.typ == TokenType::Equal;
    let clen = pre.spec_chunk().spec_constants().len() as usize;
    match spec_resolve(pre.spec_locals(), name) {
        Some(i) => {
            &&& (!assign ==> strings1 == strings0 && post.spec_chunk().spec_constants()
                == pre.spec_chunk().spec_constants() && post.spec_chunk().spec_code()
                == pre.spec_chunk().spec_code() + crate::chunk::spec_encode_idx(
                (OpCode::GetLocal, OpCode::GetLocalLong),
                i as usize,
            ))
            &&& (assign ==> code_ends_with(
                post.spec_chunk().spec_code(),
                crate::chunk::spec_encode_idx((OpCode::SetLocal, OpCode::SetLocalLong), i as usize),
            ))
        },
        None => {
            &&& interner_extends(strings1, crate::object::spec_intern(strings0, name).0)
            &&& post.spec_chunk().spec_constants().len() > pre.spec_chunk().spec_constants().len()
            &&& post.spec_chunk().spec_constants()[clen as int] == Value::Str(
                IString(crate::object::spec_intern(strings0, name).1 as usize),
            )
            &&& (!assign && clen <= 65535 ==> strings1 == crate::object::spec_intern(
                strings0,
                name,
            ).0 && post.spec_chunk().spec_code() == pre.spec_chunk().spec_code()
                + crate::chunk::spec_encode_idx((OpCode::GetGlobal, OpCode::GetGlobalLong), clen))
            &&& (assign && clen <= 65535 ==> code_ends_with(
                post.spec_chunk().spec_code(),
                crate::chunk::spec_encode_idx((OpCode::SetGlobal, OpCode::SetGlobalLong), clen),
            ))
        },
    }
}

/// The high byte of a forward-jump operand, truncated to sixteen bits as
/// the patcher writes it.
pub open spec fn jump_hi(n: int) -> u8 {
    ((n as u16) >> 8) as u8
}

/// The low byte of a forward-jump operand.
pub open spec fn jump_lo(n: int) -> u8 {
    (n as u16) as u8
}

/// The code an `if` statement emits after whatever stood before it: the
/// condition, a `JumpIfFalse` over the then arm and its leading `Pop` of
/// the condition, the then arm, a `Jump` over the else arm and its leading
/// `Pop`, and the else arm (empty without an `else`). The patched operands
/// carry exactly the distances the machine must advance to land on the
/// else arm's `Pop`, or past the whole construct.
pub open spec fn if_statement_post(pre: Seq<OpCode>, post: Seq<OpCode>) -> bool {
    exists|cond: Seq<OpCode>, thn: Seq<OpCode>, els: Seq<OpCode>|
        #[trigger] if_shape(pre, cond, thn, els) == post
}

/// The instruction layout of a compiled `if`; see [`if_statement_post`].
pub open spec fn if_shape(
    pre: Seq<OpCode>,
    cond: Seq<OpCode>,
    thn: Seq<OpCode>,
    els: Seq<OpCode>,
) -> Seq<OpCode> {
    pre + cond + seq![
        OpCode::JumpIfFalse,
        OpCode::Byte(jump_hi(thn.len() as int + 4)),
        OpCode::Byte(jump_lo(thn.len() as int + 4)),
        OpCode::Pop,
    ] + thn + seq![
        OpCode::Jump,
        OpCode::Byte(jump_hi(els.len() as int + 1)),
        OpCode::Byte(jump_lo(els.len() as int + 1)),
        OpCode::Pop,
    ] + els
}

/// A statement boundary: the end of the input, just after a semicolon, or
/// at a keyword that begins a statement or declaration.
pub open spec fn at_sync_point(p: Parser) -> bool {
    ||| p.current.typ == TokenType::Eof
    ||| p.previous.typ == TokenType::Semicolon
    ||| p.current.typ == TokenType::Class
    ||| p.current.typ == TokenType::Fun
    ||| p.current.typ == TokenType::Var
    ||| p.current.typ == TokenType::For
    ||| p.current.typ == TokenType::If
    ||| p.current.typ == TokenType::While
    ||| p.current.typ == TokenType::Print
    ||| p.current.typ == TokenType::Return
}

/// The slot of the newest local with this name, scanning from the top of
/// the locals array, or `None` where no local carries it.
pub open spec fn spec_resolve<'a>(locals: Seq<Local<'a>>, name: Seq<char>) -> Option<int>
    decreases locals.len(),
{
    if locals.len() == 0 {
        None
    } else if locals.last().name.src@ == name {
        Some(locals.len() - 1)
    } else {
        spec_resolve(locals.drop_last(), name)
    }
}

/// Whether a local of this name was already declared in the current scope:
/// the walk from the top stops at the first local of a shallower scope.
pub open spec fn spec_scope_collision<'a>(
    locals: Seq<Local<'a>>,
    depth: int,
    name: Seq<char>,
) -> bool
    decreases locals.len(),
{
    if locals.len() == 0 {
        false
    } else if locals.last().depth is Some && locals.last().depth.unwrap() < depth {
        false
    } else if locals.last().name.src@ == name {
        true
    } else {
        spec_scope_collision(locals.drop_last(), depth, name)
    }
}

/// Where resolution finds nothing, no local carries the name.
pub proof fn lemma_spec_resolve_none<'a>(locals: Seq<Local<'a>>, name: Seq<char>)
    requires
        spec_resolve(locals, name) is None,
    ensures
        forall|j: int| 0 <= j < locals.len() ==> locals[j].name.src@ != name,
    decreases locals.len(),
{
    if locals.len() > 0 {
        lemma_spec_resolve_none(locals.drop_last(), name);
        assert forall|j: int| 0 <= j < locals.len() implies locals[j].name.src@ != name by {
            if j < locals.len() - 1 {
                assert(locals.drop_last()[j] == locals[j]);
            }
        };
    }
}

/// The compiler for one translation unit. It owns its scanner, parser and
/// chunk; the string interner is borrowed per call so that it can outlive
/// the compilation.
pub struct Compiler<'input> {
    scanner: Scanner<'input>,
    parser: Parser<'input>,
    compiling_chunk: Chunk,
    locals: Vec<Local<'input>>,
    scope_depth: usize,
    /// How many tokens have been consumed so far; every scope opening
    /// consumes a brace first, so this count bounds the scope depth.
    consumed: Ghost<nat>,
}

impl<'input> Compiler<'input> {
    pub closed spec fn spec_scanner(&self) -> Scanner<'input> {
        self.scanner
    }

    pub closed spec fn spec_parser(&self) -> Parser<'input> {
        self.parser
    }

    pub closed spec fn spec_chunk(&self) -> Chunk {
        self.compiling_chunk
    }

    pub closed spec fn spec_locals(&self) -> Seq<Local<'input>> {
        self.locals@
    }

    pub closed spec fn spec_depth(&self) -> int {
        self.scope_depth as int
    }

    pub closed spec fn spec_consumed(&self) -> nat {
        self.consumed@
    }

    /// The compiler's structural invariant: scanner and chunk well formed,
    /// chunk lines never decreasing and in step with the parser window,
    /// parser tokens shaped as the scanner promises, error flags consistent
    /// with the diagnostics, locals inside the current scope, and the
    /// consumed-token count bounding the scope depth.
    pub open spec fn ok(&self) -> bool {
        &&& self.spec_scanner().wf()
        &&& self.spec_chunk().wf()
        &&& self.spec_chunk().lines_nondecreasing()
        &&& (self.spec_chunk().spec_lines().len() > 0 ==> self.spec_chunk().spec_lines().last().line
            <= self.spec_parser().previous.line)
        &&& self.spec_parser().previous.line <= self.spec_parser().current.line
        &&& self.spec_parser().current.line as int <= self.spec_scanner().spec_line()
        &&& token_lex_ok(self.spec_parser().current.typ, self.spec_parser().current.src@)
        &&& token_lex_ok(self.spec_parser().previous.typ, self.spec_parser().previous.src@)
        &&& self.spec_parser().current.typ != TokenType::Error
        &&& parser_flags_ok(self.spec_parser())
        &&& crate::chunk::code_instr_wf(self.spec_chunk().spec_code())
        &&& crate::chunk::const_reads_in_range(
            self.spec_chunk().spec_code(),
            self.spec_chunk().spec_constants().len() as int,
        )
        &&& (!self.spec_parser().had_error ==> self.spec_chunk().spec_constants().len() <= 65536)
        &&& self.spec_locals().len() <= 65536
        &&& self.spec_depth() <= self.spec_consumed()
        &&& self.spec_consumed() + (if self.spec_parser().current.typ == TokenType::Eof {
            0int
        } else {
            1int
        }) <= self.spec_scanner().spec_pos()
    }

    /// The full invariant: structure plus every string constant pointing
    /// into an interner of length `ilen`.
    pub open spec fn wf(&self, ilen: int) -> bool {
        &&& self.ok()
        &&& valid_values(self.spec_chunk().spec_constants(), ilen)
    }

    /// The termination measure of the parse: unscanned source, plus one
    /// while the lookahead token is not yet the end.
    pub open spec fn measure(&self) -> int {
        2 * (self.spec_scanner().spec_src().len() - self.spec_scanner().spec_pos()) + (
        if self.spec_parser().current.typ == TokenType::Eof {
            0int
        } else {
            1int
        })
    }

    pub fn new(src: &'input str) -> (r: Self)
        ensures
            r.wf(0),
            !r.spec_parser().had_error,
            r.spec_parser().spec_diags().len() == 0,
            r.spec_chunk().spec_code().len() == 0,
            r.spec_chunk().spec_constants().len() == 0,
            r.spec_scanner().spec_pos() == 0,
            r.spec_scanner().spec_src() == src@,
    {
        Compiler {
            scanner: Scanner::new(src),
            parser: Parser::new(),
            compiling_chunk: Chunk::new(),
            locals: Vec::new(),
            scope_depth: 0,
            consumed: Ghost(0),
        }
    }

    /// Moves the window one token on, reporting and skipping over scan
    /// errors, so that `current` is never an `Error` token.
    fn advance(&mut self)
        requires
            old(self).ok(),
        ensures
            final(self).ok(),
            final(self).spec_chunk() == old(self).spec_chunk(),
            final(self).spec_locals() == old(self).spec_locals(),
            final(self).spec_depth() == old(self).spec_depth(),
            final(self).spec_scanner().spec_src() == old(self).spec_scanner().spec_src(),
            final(self).spec_parser().previous == old(self).spec_parser().current,
            final(self).measure() <= old(self).measure(),
            old(self).spec_parser().current.typ != TokenType::Eof ==> final(self).measure() < old(self).measure(),
            old(self).spec_parser().had_error ==> final(self).spec_parser().had_error,
            final(self).spec_parser().spec_diags().len() >= old(self).spec_parser().spec_diags().len(),
            diags_extends(
                final(self).spec_parser().spec_diags(),
                old(self).spec_parser().spec_diags(),
            ),
            forall|i: int|
                old(self).spec_parser().spec_diags().len() <= i < final(self).spec_parser().spec_diags().len() ==> is_scan_error_diag(
                    #[trigger] final(self).spec_parser().spec_diags()[i],
                ),
            final(self).spec_parser().spec_diags().len() == old(self).spec_parser().spec_diags().len()
                ==> final(self).spec_parser().panic_mode == old(self).spec_parser().panic_mode
                && final(self).spec_parser().had_error == old(self).spec_parser().had_error,
            crate::scanner::ws_end(
                old(self).spec_scanner().spec_src(),
                old(self).spec_scanner().spec_pos(),
            ) == old(self).spec_scanner().spec_src().len() ==> final(self).spec_parser().current.typ
                == TokenType::Eof && final(self).spec_parser().spec_diags() == old(self).spec_parser().spec_diags() && final(self).spec_parser().panic_mode == old(self).spec_parser().panic_mode && final(self).spec_scanner().spec_pos() == final(self).spec_scanner().spec_src().len(),
            final(self).spec_consumed() >= old(self).spec_consumed(),
            old(self).spec_parser().current.typ != TokenType::Eof ==> final(self).spec_consumed()
                > old(self).spec_consumed(),
    {
        self.parser.previous = self.parser.current;
        match self.parser.previous.typ {
            TokenType::Eof => {},
            _ => {
                self.consumed = Ghost(self.consumed@ + 1);
            },
        }
        let ghost cafter = self.consumed@;
        let t = self.scanner.scan_token();
        self.parser.current = t;
        proof {
            if crate::scanner::ws_end(
                old(self).spec_scanner().spec_src(),
                old(self).spec_scanner().spec_pos(),
            ) == old(self).spec_scanner().spec_src().len() {
                assert(t.typ == TokenType::Eof) by {
                    let src = self.scanner.spec_src();
                    assert(self.scanner.spec_start() == src.len());
                    if t.typ != TokenType::Eof && t.typ != TokenType::Error {
                        assert(t.src@.len() > 0);
                        assert(t.src@.len() == self.scanner.spec_pos()
                            - self.scanner.spec_start());
                    }
                };
            }
        }
        let ghost m1 = self.measure();
        proof {
            assert(m1 <= old(self).measure());
            if old(self).spec_parser().current.typ != TokenType::Eof {
                assert(m1 < old(self).measure());
            }
        }
        while self.parser.current.typ == TokenType::Error
            invariant
                self.scanner.wf(),
                self.compiling_chunk == old(self).compiling_chunk,
                self.locals == old(self).locals,
                self.scope_depth == old(self).scope_depth,
                self.consumed@ == cafter,
                cafter >= old(self).spec_consumed(),
                old(self).spec_parser().current.typ != TokenType::Eof ==> cafter > old(self).spec_consumed(),
                self.scope_depth as int <= self.consumed@,
                self.scanner.spec_src() == old(self).spec_scanner().spec_src(),
                self.parser.previous == old(self).spec_parser().current,
                self.parser.previous.line <= self.parser.current.line,
                self.parser.current.line as int <= self.scanner.spec_line(),
                token_lex_ok(self.parser.current.typ, self.parser.current.src@),
                parser_flags_ok(self.parser),
                old(self).spec_parser().had_error ==> self.parser.had_error,
                self.parser.spec_diags().len() >= old(self).spec_parser().spec_diags().len(),
                diags_extends(self.parser.spec_diags(), old(self).spec_parser().spec_diags()),
                forall|i: int|
                    old(self).spec_parser().spec_diags().len() <= i
                        < self.parser.spec_diags().len() ==> is_scan_error_diag(
                        #[trigger] self.parser.spec_diags()[i],
                    ),
                self.parser.spec_diags().len() == old(self).spec_parser().spec_diags().len()
                    ==> self.parser.panic_mode == old(self).spec_parser().panic_mode
                    && self.parser.had_error == old(self).spec_parser().had_error,
                self.measure() <= m1,
                crate::scanner::ws_end(
                    old(self).spec_scanner().spec_src(),
                    old(self).spec_scanner().spec_pos(),
                ) == old(self).spec_scanner().spec_src().len() ==> self.parser.current.typ
                    == TokenType::Eof && self.parser.spec_diags() == old(self).spec_parser().spec_diags() && self.parser.panic_mode == old(self).spec_parser().panic_mode && self.scanner.spec_pos() == self.scanner.spec_src().len(),
                self.consumed@ + (if self.parser.current.typ == TokenType::Eof {
                    0int
                } else {
                    1int
                }) <= self.scanner.spec_pos(),
            decreases self.measure(),
        {
            let msg = self.parser.current.src;
            let ghost tok = self.parser.current;
            self.parser.error_at_current(msg);
            proof {
                if !old(self).spec_parser().panic_mode || self.parser.spec_diags().len() > old(self).spec_parser().spec_diags().len() {
                    assert forall|i: int|
                        old(self).spec_parser().spec_diags().len() <= i
                            < self.parser.spec_diags().len() implies is_scan_error_diag(
                        #[trigger] self.parser.spec_diags()[i],
                    ) by {
                        if i == self.parser.spec_diags().len() - 1
                            && self.parser.spec_diags()[i] == spec_error_message(
                            TokenType::Error,
                            tok.src@,
                            tok.line as int,
                            tok.src@,
                        ) {
                            if tok.src@ == "Unexpected character."@ {
                                assert(self.parser.spec_diags()[i] == spec_error_message(
                                    TokenType::Error,
                                    "Unexpected character."@,
                                    tok.line as int,
                                    "Unexpected character."@,
                                ));
                            } else {
                                assert(self.parser.spec_diags()[i] == spec_error_message(
                                    TokenType::Error,
                                    "Unterminated string."@,
                                    tok.line as int,
                                    "Unterminated string."@,
                                ));
                            }
                        }
                    };
                }
            }
            let t2 = self.scanner.scan_token();
            self.parser.current = t2;
        }
    }

    /// Whether the lookahead token has the given type.
    fn check(&self, typ: TokenType) -> (r: bool)
        ensures
            r == (self.spec_parser().current.typ == typ),
    {
        self.parser.current.typ == typ
    }

    /// Consumes the lookahead token exactly when it has the given type.
    fn matches(&mut self, typ: TokenType) -> (r: bool)
        requires
            old(self).ok(),
            typ != TokenType::Error,
        ensures
            final(self).ok(),
            r == (old(self).spec_parser().current.typ == typ),
            final(self).spec_chunk() == old(self).spec_chunk(),
            final(self).spec_locals() == old(self).spec_locals(),
            final(self).spec_depth() == old(self).spec_depth(),
            final(self).spec_scanner().spec_src() == old(self).spec_scanner().spec_src(),
            final(self).measure() <= old(self).measure(),
            r && typ != TokenType::Eof ==> final(self).measure() < old(self).measure(),
            r ==> final(self).spec_parser().previous == old(self).spec_parser().current,
            !r ==> *final(self) == *old(self),
            forall|i: int|
                old(self).spec_parser().spec_diags().len() <= i < final(self).spec_parser().spec_diags().len() ==> is_scan_error_diag(
                    #[trigger] final(self).spec_parser().spec_diags()[i],
                ),
            final(self).spec_parser().spec_diags().len() == old(self).spec_parser().spec_diags().len()
                ==> final(self).spec_parser().panic_mode == old(self).spec_parser().panic_mode
                && final(self).spec_parser().had_error == old(self).spec_parser().had_error,
            r && crate::scanner::ws_end(
                old(self).spec_scanner().spec_src(),
                old(self).spec_scanner().spec_pos(),
            ) == old(self).spec_scanner().spec_src().len() ==> final(self).spec_parser().current.typ
                == TokenType::Eof && final(self).spec_parser().spec_diags() == old(self).spec_parser().spec_diags() && final(self).spec_parser().panic_mode == old(self).spec_parser().panic_mode && final(self).spec_scanner().spec_pos() == final(self).spec_scanner().spec_src().len(),
            old(self).spec_parser().had_error ==> final(self).spec_parser().had_error,
            final(self).spec_parser().spec_diags().len() >= old(self).spec_parser().spec_diags().len(),
            diags_extends(
                final(self).spec_parser().spec_diags(),
                old(self).spec_parser().spec_diags(),
            ),
            final(self).spec_consumed() >= old(self).spec_consumed(),
            r && typ != TokenType::Eof ==> final(self).spec_consumed() > old(self).spec_consumed(),
    {
        if !self.check(typ) {
            false
        } else {
            self.advance();
            true
        }
    }

    /// Consumes a token of the given type, or reports `msg` at the
    /// lookahead token.
    fn consume(&mut self, typ: TokenType, msg: &str)
        requires
            old(self).ok(),
            typ != TokenType::Error,
        ensures
            final(self).ok(),
            final(self).spec_chunk() == old(self).spec_chunk(),
            final(self).spec_locals() == old(self).spec_locals(),
            final(self).spec_depth() == old(self).spec_depth(),
            final(self).spec_scanner().spec_src() == old(self).spec_scanner().spec_src(),
            final(self).measure() <= old(self).measure(),
            old(self).spec_parser().current.typ == typ ==> final(self).spec_parser().previous
                == old(self).spec_parser().current,
            old(self).spec_parser().current.typ != typ ==> final(self).spec_parser().previous
                == old(self).spec_parser().previous && final(self).spec_parser().current == old(self).spec_parser().current && final(self).measure() == old(self).measure() && final(self).spec_consumed() == old(self).spec_consumed() && final(self).spec_parser().had_error
                == (old(self).spec_parser().had_error || !old(self).spec_parser().panic_mode),
            old(self).spec_parser().current.typ != typ && !old(self).spec_parser().panic_mode
                ==> final(self).spec_parser().spec_diags() == old(self).spec_parser().spec_diags().push(
                spec_error_message(
                    old(self).spec_parser().current.typ,
                    old(self).spec_parser().current.src@,
                    old(self).spec_parser().current.line as int,
                    msg@,
                ),
            ),
            old(self).spec_parser().had_error ==> final(self).spec_parser().had_error,
            final(self).spec_parser().spec_diags().len() >= old(self).spec_parser().spec_diags().len(),
            diags_extends(
                final(self).spec_parser().spec_diags(),
                old(self).spec_parser().spec_diags(),
            ),
            final(self).spec_consumed() >= old(self).spec_consumed(),
    {
        if self.check(typ) {
            self.advance()
        } else {
            self.parser.error_at_current(msg)
        }
    }

    /// Appends one operand-less opcode at the line of the token just
    /// consumed.
    fn emit_byte(&mut self, op: OpCode)
        requires
            old(self).ok(),
            !(op is Byte),
            crate::chunk::spec_operand_count(op) == 0,
        ensures
            final(self).ok(),
            final(self).spec_chunk().spec_code() == old(self).spec_chunk().spec_code().push(op),
            final(self).spec_chunk().spec_constants() == old(self).spec_chunk().spec_constants(),
            final(self).spec_parser() == old(self).spec_parser(),
            final(self).spec_locals() == old(self).spec_locals(),
            final(self).spec_depth() == old(self).spec_depth(),
            final(self).spec_consumed() == old(self).spec_consumed(),
            final(self).spec_scanner() == old(self).spec_scanner(),
            final(self).measure() == old(self).measure(),
    {
        let line = self.parser.previous.line;
        self.compiling_chunk.write_chunk(op, line);
        proof {
            assert(crate::chunk::code_instr_wf(seq![op])) by {
                assert(crate::chunk::code_instr_wf_from(seq![op], 1));
            };
            assert(self.spec_chunk().spec_code() =~= old(self).spec_chunk().spec_code() + seq![op]);
            crate::chunk::lemma_instr_wf_append(old(self).spec_chunk().spec_code(), seq![op]);
            let clen = self.spec_chunk().spec_constants().len() as int;
            assert(crate::chunk::const_reads_in_range(seq![op], clen)) by {
                assert(crate::chunk::const_reads_in_range_from(seq![op], 1, clen));
            };
            crate::chunk::lemma_const_range_append(
                old(self).spec_chunk().spec_code(),
                seq![op],
                clen,
            );
        }
    }

    fn emit_bytes(&mut self, b1: OpCode, b2: OpCode)
        requires
            old(self).ok(),
            !(b1 is Byte),
            !(b2 is Byte),
            crate::chunk::spec_operand_count(b1) == 0,
            crate::chunk::spec_operand_count(b2) == 0,
        ensures
            final(self).ok(),
            final(self).spec_chunk().spec_code() == old(self).spec_chunk().spec_code().push(
                b1,
            ).push(b2),
            final(self).spec_chunk().spec_constants() == old(self).spec_chunk().spec_constants(),
            final(self).spec_parser() == old(self).spec_parser(),
            final(self).spec_locals() == old(self).spec_locals(),
            final(self).spec_depth() == old(self).spec_depth(),
            final(self).spec_consumed() == old(self).spec_consumed(),
            final(self).spec_scanner() == old(self).spec_scanner(),
            final(self).measure() == old(self).measure(),
    {
        self.emit_byte(b1);
        self.emit_byte(b2)
    }

    /// Emits a jump opcode with two placeholder bytes and returns the
    /// offset of the first placeholder, to be patched later.
    fn emit_jump(&mut self, instruction: OpCode) -> (r: usize)
        requires
            old(self).ok(),
            instruction == OpCode::Jump || instruction == OpCode::JumpIfFalse,
        ensures
            final(self).ok(),
            final(self).spec_chunk().spec_code() == old(self).spec_chunk().spec_code().push(
                instruction,
            ).push(OpCode::Byte(255)).push(OpCode::Byte(255)),
            r + 2 == final(self).spec_chunk().spec_code().len(),
            final(self).spec_chunk().spec_constants() == old(self).spec_chunk().spec_constants(),
            final(self).spec_parser() == old(self).spec_parser(),
            final(self).spec_locals() == old(self).spec_locals(),
            final(self).spec_depth() == old(self).spec_depth(),
            final(self).spec_consumed() == old(self).spec_consumed(),
            final(self).spec_scanner() == old(self).spec_scanner(),
            final(self).measure() == old(self).measure(),
    {
        let line = self.parser.previous.line;
        self.compiling_chunk.write_chunk(instruction, line);
        self.compiling_chunk.write_chunk(OpCode::Byte(255), line);
        self.compiling_chunk.write_chunk(OpCode::Byte(255), line);
        proof {
            let instr = seq![instruction, OpCode::Byte(255), OpCode::Byte(255)];
            assert(crate::chunk::code_instr_wf(instr)) by {
                assert(crate::chunk::code_instr_wf_from(instr, 3));
            };
            assert(self.spec_chunk().spec_code() =~= old(self).spec_chunk().spec_code() + instr);
            crate::chunk::lemma_instr_wf_append(old(self).spec_chunk().spec_code(), instr);
            let clen = self.spec_chunk().spec_constants().len() as int;
            assert(crate::chunk::const_reads_in_range(instr, clen)) by {
                assert(crate::chunk::const_reads_in_range_from(instr, 3, clen));
            };
            crate::chunk::lemma_const_range_append(
                old(self).spec_chunk().spec_code(),
                instr,
                clen,
            );
        }
        self.compiling_chunk.len() - 2
    }

    /// Writes the distance from the byte after the placeholder pair to the
    /// end of the code into the pair, big-endian; reports an error where
    /// the distance does not fit sixteen bits.
    fn patch_jump(&mut self, offset: usize)
        requires
            old(self).ok(),
            offset + 2 <= old(self).spec_chunk().spec_code().len(),
            crate::chunk::spec_byte_at(old(self).spec_chunk().spec_code(), offset as int) is Some,
            crate::chunk::spec_byte_at(old(self).spec_chunk().spec_code(), offset + 1) is Some,
            offset >= 1,
            old(self).spec_chunk().spec_code()[offset - 1] == OpCode::Jump || old(self).spec_chunk().spec_code()[offset - 1] == OpCode::JumpIfFalse,
        ensures
            final(self).ok(),
            final(self).spec_chunk().spec_code() == old(self).spec_chunk().spec_code().update(
                offset as int,
                OpCode::Byte(
                    (((old(self).spec_chunk().spec_code().len() - offset - 2) as u16) >> 8) as u8,
                ),
            ).update(
                offset + 1,
                OpCode::Byte(((old(self).spec_chunk().spec_code().len() - offset - 2) as u16) as u8),
            ),
            final(self).spec_chunk().spec_constants() == old(self).spec_chunk().spec_constants(),
            final(self).spec_chunk().spec_lines() == old(self).spec_chunk().spec_lines(),
            final(self).spec_locals() == old(self).spec_locals(),
            final(self).spec_depth() == old(self).spec_depth(),
            final(self).spec_consumed() == old(self).spec_consumed(),
            final(self).spec_scanner() == old(self).spec_scanner(),
            final(self).measure() == old(self).measure(),
            old(self).spec_chunk().spec_code().len() - offset - 2 <= 65535 ==> final(self).spec_parser() == old(self).spec_parser(),
            old(self).spec_chunk().spec_code().len() - offset - 2 > 65535 ==> final(self).spec_parser().had_error,
            old(self).spec_parser().had_error ==> final(self).spec_parser().had_error,
            final(self).spec_parser().current == old(self).spec_parser().current,
            final(self).spec_parser().previous == old(self).spec_parser().previous,
            final(self).spec_parser().spec_diags().len() >= old(self).spec_parser().spec_diags().len(),
            diags_extends(
                final(self).spec_parser().spec_diags(),
                old(self).spec_parser().spec_diags(),
            ),
    {
        let jump = self.compiling_chunk.len() - offset - 2;
        if jump > 65535 {
            self.parser.error("Too much code to jump over.")
        }
        let (j1, j2) = crate::util::split_u16(jump as u16);
        proof {
            crate::chunk::lemma_instr_wf_patch(
                self.spec_chunk().spec_code(),
                offset as int,
                j1,
            );
            crate::chunk::lemma_const_range_patch(
                self.spec_chunk().spec_code(),
                offset as int,
                j1,
                self.spec_chunk().spec_constants().len() as int,
            );
        }
        let _ = self.compiling_chunk.patch_byte(offset, j1);
        proof {
            crate::chunk::lemma_instr_wf_patch(
                self.spec_chunk().spec_code(),
                offset + 1,
                j2,
            );
            crate::chunk::lemma_const_range_patch(
                self.spec_chunk().spec_code(),
                offset + 1,
                j2,
                self.spec_chunk().spec_constants().len() as int,
            );
        }
        let _ = self.compiling_chunk.patch_byte(offset + 1, j2);
    }

    /// Adds a constant to the pool and returns its index; indices beyond
    /// 65535 are reported as an error and replaced by zero.
    fn make_constant(&mut self, value: Value) -> (r: usize)
        requires
            old(self).ok(),
        ensures
            final(self).ok(),
            r <= 65535,
            old(self).spec_chunk().spec_constants().len() <= 65535 ==> r == old(self).spec_chunk().spec_constants().len() && final(self).spec_parser() == old(self).spec_parser(),
            old(self).spec_chunk().spec_constants().len() > 65535 ==> r == 0 && final(self).spec_parser().had_error,
            final(self).spec_chunk().spec_code() == old(self).spec_chunk().spec_code(),
            final(self).spec_chunk().spec_constants() == old(self).spec_chunk().spec_constants().push(value),
            final(self).spec_locals() == old(self).spec_locals(),
            final(self).spec_depth() == old(self).spec_depth(),
            final(self).spec_consumed() == old(self).spec_consumed(),
            final(self).spec_scanner() == old(self).spec_scanner(),
            final(self).measure() == old(self).measure(),
            old(self).spec_parser().had_error ==> final(self).spec_parser().had_error,
            final(self).spec_parser().current == old(self).spec_parser().current,
            final(self).spec_parser().previous == old(self).spec_parser().previous,
            final(self).spec_parser().spec_diags().len() >= old(self).spec_parser().spec_diags().len(),
            diags_extends(
                final(self).spec_parser().spec_diags(),
                old(self).spec_parser().spec_diags(),
            ),
    {
        let constant = self.compiling_chunk.add_constant(value);
        proof {
            crate::chunk::lemma_const_range_grow(
                self.spec_chunk().spec_code(),
                old(self).spec_chunk().spec_constants().len() as int,
                self.spec_chunk().spec_constants().len() as int,
            );
        }
        if constant > 65535 {
            self.parser.error("Too many constants in one chunk.");
            0
        } else {
            constant
        }
    }

    /// Emits an index-carrying instruction, choosing the short or long
    /// opcode of the pair by the index's range.
    fn emit_long(&mut self, pair: (OpCode, OpCode), byte: usize)
        requires
            old(self).ok(),
            !(pair.0 is Byte),
            !(pair.1 is Byte),
            crate::chunk::spec_operand_count(pair.0) == 1,
            crate::chunk::spec_operand_count(pair.1) == 2,
            crate::chunk::spec_op_len(pair.0) == crate::chunk::OpLen::Short,
            crate::chunk::spec_op_len(pair.1) == crate::chunk::OpLen::Long,
            crate::chunk::reads_constant(pair.0) && byte <= 65535 ==> byte < old(self).spec_chunk().spec_constants().len(),
            crate::chunk::reads_constant(pair.1) && byte <= 65535 ==> byte < old(self).spec_chunk().spec_constants().len(),
        ensures
            final(self).ok(),
            final(self).spec_chunk().spec_code().len() >= old(self).spec_chunk().spec_code().len(),
            code_extends(final(self).spec_chunk().spec_code(), old(self).spec_chunk().spec_code()),
            diags_extends(
                final(self).spec_parser().spec_diags(),
                old(self).spec_parser().spec_diags(),
            ),
            byte <= 65535 ==> final(self).spec_chunk().spec_code() == old(self).spec_chunk().spec_code() + crate::chunk::spec_encode_idx(pair, byte),
            byte > 65535 ==> final(self).spec_chunk().spec_code() == old(self).spec_chunk().spec_code(),
            final(self).spec_chunk().spec_constants() == old(self).spec_chunk().spec_constants(),
            final(self).spec_parser() == old(self).spec_parser(),
            final(self).spec_locals() == old(self).spec_locals(),
            final(self).spec_depth() == old(self).spec_depth(),
            final(self).spec_consumed() == old(self).spec_consumed(),
            final(self).spec_scanner() == old(self).spec_scanner(),
            final(self).measure() == old(self).measure(),
    {
        let line = self.parser.previous.line;
        let _ = self.compiling_chunk.write_maybe_long(pair, byte, line);
        proof {
            if byte <= 65535 {
                let enc = crate::chunk::spec_encode_idx(pair, byte);
                let clen = self.spec_chunk().spec_constants().len() as int;
                crate::chunk::lemma_encode_standalone(pair, byte, clen);
                crate::chunk::lemma_instr_wf_append(old(self).spec_chunk().spec_code(), enc);
                crate::chunk::lemma_const_range_append(
                    old(self).spec_chunk().spec_code(),
                    enc,
                    clen,
                );
            }
        }
    }

    /// Adds `value` to the pool and emits the instruction that pushes it.
    fn emit_constant(&mut self, value: Value)
        requires
            old(self).ok(),
        ensures
            final(self).ok(),
            final(self).spec_chunk().spec_code().len() >= old(self).spec_chunk().spec_code().len(),
            code_extends(final(self).spec_chunk().spec_code(), old(self).spec_chunk().spec_code()),
            diags_extends(
                final(self).spec_parser().spec_diags(),
                old(self).spec_parser().spec_diags(),
            ),
            final(self).spec_chunk().spec_constants() == old(self).spec_chunk().spec_constants().push(value),
            old(self).spec_chunk().spec_constants().len() <= 65535 ==> final(self).spec_chunk().spec_code() == old(self).spec_chunk().spec_code()
                + crate::chunk::spec_encode_idx(
                (OpCode::Constant, OpCode::ConstantLong),
                old(self).spec_chunk().spec_constants().len() as usize,
            ) && final(self).spec_parser() == old(self).spec_parser(),
            old(self).spec_chunk().spec_constants().len() > 65535 ==> final(self).spec_parser().had_error,
            final(self).spec_locals() == old(self).spec_locals(),
            final(self).spec_depth() == old(self).spec_depth(),
            final(self).spec_consumed() == old(self).spec_consumed(),
            final(self).spec_scanner() == old(self).spec_scanner(),
            final(self).measure() == old(self).measure(),
            old(self).spec_parser().had_error ==> final(self).spec_parser().had_error,
            final(self).spec_parser().current == old(self).spec_parser().current,
            final(self).spec_parser().previous == old(self).spec_parser().previous,
            final(self).spec_parser().spec_diags().len() >= old(self).spec_parser().spec_diags().len(),
    {
        let constant = self.make_constant(value);
        let ghost pre = self.spec_chunk().spec_code();
        let line = self.parser.previous.line;
        let _ = self.compiling_chunk.write_maybe_long(
            (OpCode::Constant, OpCode::ConstantLong),
            constant,
            line,
        );
        proof {
            let enc = crate::chunk::spec_encode_idx(
                (OpCode::Constant, OpCode::ConstantLong),
                constant,
            );
            let clen = self.spec_chunk().spec_constants().len() as int;
            crate::chunk::lemma_encode_standalone(
                (OpCode::Constant, OpCode::ConstantLong),
                constant,
                clen,
            );
            crate::chunk::lemma_instr_wf_append(pre, enc);
            crate::chunk::lemma_const_range_append(pre, enc, clen);
        }
    }

    fn emit_return(&mut self)
        requires
            old(self).ok(),
        ensures
            final(self).ok(),
            final(self).spec_chunk().spec_code() == old(self).spec_chunk().spec_code().push(
                OpCode::Return,
            ),
            final(self).spec_chunk().spec_constants() == old(self).spec_chunk().spec_constants(),
            final(self).spec_parser() == old(self).spec_parser(),
            final(self).spec_locals() == old(self).spec_locals(),
            final(self).spec_depth() == old(self).spec_depth(),
            final(self).spec_consumed() == old(self).spec_consumed(),
            final(self).spec_scanner() == old(self).spec_scanner(),
            final(self).measure() == old(self).measure(),
    {
        self.emit_byte(OpCode::Return)
    }

    /// Interns the name and stores it as a string constant, returning the
    /// constant's index.
    fn identifier_constant(&mut self, name: &str, interner: &mut StringInterner) -> (r: usize)
        requires
            old(self).ok(),
            old(interner).wf(),
        ensures
            final(self).ok(),
            final(interner).wf(),
            interner_extends(final(interner)@, old(interner)@),
            r <= 65535,
            final(interner)@ == crate::object::spec_intern(old(interner)@, name@).0,
            final(self).spec_chunk().spec_code() == old(self).spec_chunk().spec_code(),
            final(self).spec_chunk().spec_constants() == old(self).spec_chunk().spec_constants().push(
                Value::Str(
                    IString(crate::object::spec_intern(old(interner)@, name@).1 as usize),
                ),
            ),
            old(self).spec_chunk().spec_constants().len() <= 65535 ==> r == old(self).spec_chunk().spec_constants().len() && final(self).spec_parser() == old(self).spec_parser(),
            old(self).spec_chunk().spec_constants().len() > 65535 ==> r == 0 && final(self).spec_parser().had_error,
            valid_values(old(self).spec_chunk().spec_constants(), old(interner)@.len() as int)
                ==> valid_values(
                final(self).spec_chunk().spec_constants(),
                final(interner)@.len() as int,
            ),
            final(self).spec_locals() == old(self).spec_locals(),
            final(self).spec_depth() == old(self).spec_depth(),
            final(self).spec_consumed() == old(self).spec_consumed(),
            final(self).spec_scanner() == old(self).spec_scanner(),
            final(self).measure() == old(self).measure(),
            old(self).spec_parser().had_error ==> final(self).spec_parser().had_error,
            final(self).spec_parser().current == old(self).spec_parser().current,
            final(self).spec_parser().previous == old(self).spec_parser().previous,
            final(self).spec_parser().spec_diags().len() >= old(self).spec_parser().spec_diags().len(),
            diags_extends(
                final(self).spec_parser().spec_diags(),
                old(self).spec_parser().spec_diags(),
            ),
    {
        let istr = interner.intern(name);
        proof {
            crate::object::lemma_intern_matches_spec(old(interner)@, *interner, istr, name@);
        }
        let r = self.make_constant(Value::Str(istr));
        proof {
            if valid_values(old(self).spec_chunk().spec_constants(), old(interner)@.len() as int) {
                assert(valid_values(
                    self.spec_chunk().spec_constants(),
                    interner@.len() as int,
                )) by {
                    let cs = self.spec_chunk().spec_constants();
                    let ilen = interner@.len() as int;
                    assert forall|i: int| 0 <= i < cs.len() implies crate::value::valid_value(
                        cs[i],
                        ilen,
                    ) by {
                        if i < cs.len() - 1 {
                            assert(cs[i] == old(self).spec_chunk().spec_constants()[i]);
                        }
                    };
                };
            }
        }
        r
    }

    /// Opens a new block scope.
    fn begin_scope(&mut self)
        requires
            old(self).ok(),
            old(self).spec_depth() < old(self).spec_consumed(),
        ensures
            final(self).ok(),
            final(self).spec_depth() == old(self).spec_depth() + 1,
            *final(self) == (Compiler { scope_depth: (old(self).scope_depth + 1) as usize, ..*old(self) }),
    {
        proof {
            assert(self.consumed@ <= self.scanner.spec_pos());
        }
        self.scope_depth = self.scope_depth + 1
    }

    /// Closes the innermost scope: every local declared in it is dropped,
    /// newest first, with a `Pop` emitted for each, so that at run time the
    /// stack returns to its depth at the matching scope opening.
    fn end_scope(&mut self)
        requires
            old(self).ok(),
            old(self).spec_depth() >= 1,
        ensures
            final(self).ok(),
            final(self).spec_depth() == old(self).spec_depth() - 1,
            final(self).spec_locals().len() <= old(self).spec_locals().len(),
            final(self).spec_locals() == old(self).spec_locals().take(
                final(self).spec_locals().len() as int,
            ),
            forall|i: int|
                final(self).spec_locals().len() <= i < old(self).spec_locals().len() ==> old(self).spec_locals()[i].depth is Some && old(self).spec_locals()[i].depth.unwrap()
                    > final(self).spec_depth(),
            final(self).spec_locals().len() > 0 ==> !(final(self).spec_locals().last().depth
                is Some && final(self).spec_locals().last().depth.unwrap() > final(self).spec_depth()),
            final(self).spec_chunk().spec_code() == old(self).spec_chunk().spec_code() + Seq::new(
                (old(self).spec_locals().len() - final(self).spec_locals().len()) as nat,
                |i: int| OpCode::Pop,
            ),
            final(self).spec_chunk().spec_constants() == old(self).spec_chunk().spec_constants(),
            final(self).spec_parser() == old(self).spec_parser(),
            final(self).spec_consumed() == old(self).spec_consumed(),
            final(self).spec_scanner() == old(self).spec_scanner(),
            final(self).measure() == old(self).measure(),
    {
        self.scope_depth = self.scope_depth - 1;
        let ghost orig = *old(self);
        loop
            invariant
                self.ok(),
                self.scope_depth == orig.scope_depth - 1,
                self.spec_locals().len() <= orig.spec_locals().len(),
                self.spec_locals() == orig.spec_locals().take(self.spec_locals().len() as int),
                forall|i: int|
                    self.spec_locals().len() <= i < orig.spec_locals().len()
                        ==> orig.spec_locals()[i].depth is Some
                        && orig.spec_locals()[i].depth.unwrap() > self.spec_depth(),
                self.spec_chunk().spec_code() == orig.spec_chunk().spec_code() + Seq::new(
                    (orig.spec_locals().len() - self.spec_locals().len()) as nat,
                    |i: int| OpCode::Pop,
                ),
                self.spec_chunk().spec_constants() == orig.spec_chunk().spec_constants(),
                self.spec_parser() == orig.spec_parser(),
                self.spec_consumed() == orig.spec_consumed(),
                self.spec_scanner() == orig.spec_scanner(),
            ensures
                self.spec_locals().len() > 0 ==> !(self.spec_locals().last().depth is Some
                    && self.spec_locals().last().depth.unwrap() > self.spec_depth()),
            decreases self.spec_locals().len(),
        {
            let n = self.locals.len();
            if n == 0 {
                break ;
            }
            let top_depth = self.locals[n - 1].depth;
            match top_depth {
                Some(d) => {
                    if d > self.scope_depth {
                        self.emit_byte(OpCode::Pop);
                        let _ = self.locals.pop();
                        proof {
                            assert(self.spec_locals() =~= orig.spec_locals().take(
                                self.spec_locals().len() as int,
                            ));
                            assert(self.spec_chunk().spec_code() =~= orig.spec_chunk().spec_code()
                                + Seq::new(
                                (orig.spec_locals().len() - self.spec_locals().len()) as nat,
                                |i: int| OpCode::Pop,
                            ));
                        }
                    } else {
                        break ;
                    }
                },
                None => {
                    break ;
                },
            }
        }
    }

    /// Marks the newest local as initialized at the current depth.
    fn mark_initialized(&mut self)
        requires
            old(self).ok(),
        ensures
            final(self).ok(),
            final(self).spec_locals().len() == old(self).spec_locals().len(),
            old(self).spec_locals().len() > 0 ==> final(self).spec_locals() == old(self).spec_locals().update(
                old(self).spec_locals().len() - 1,
                (Local {
                    name: old(self).spec_locals().last().name,
                    depth: Some(old(self).scope_depth),
                }),
            ),
            final(self).spec_chunk() == old(self).spec_chunk(),
            final(self).spec_parser() == old(self).spec_parser(),
            final(self).spec_depth() == old(self).spec_depth(),
            final(self).spec_consumed() == old(self).spec_consumed(),
            final(self).spec_scanner() == old(self).spec_scanner(),
            final(self).measure() == old(self).measure(),
    {
        let n = self.locals.len();
        if n > 0 {
            let name = self.locals[n - 1].name;
            self.locals.set(n - 1, Local { name, depth: Some(self.scope_depth) });
        }
    }

    /// Records a new local for the name, not yet initialized; at most
    /// 65536 locals fit, further ones are reported as an error.
    fn add_local(&mut self, name: Token<'input>)
        requires
            old(self).ok(),
        ensures
            final(self).ok(),
            old(self).spec_locals().len() <= 65535 ==> final(self).spec_locals() == old(self).spec_locals().push((Local { name, depth: None })) && final(self).spec_parser() == old(self).spec_parser(),
            old(self).spec_locals().len() > 65535 ==> final(self).spec_locals() == old(self).spec_locals() && final(self).spec_parser().had_error,
            final(self).spec_chunk() == old(self).spec_chunk(),
            final(self).spec_depth() == old(self).spec_depth(),
            final(self).spec_consumed() == old(self).spec_consumed(),
            final(self).spec_scanner() == old(self).spec_scanner(),
            final(self).measure() == old(self).measure(),
            old(self).spec_parser().had_error ==> final(self).spec_parser().had_error,
            final(self).spec_parser().current == old(self).spec_parser().current,
            final(self).spec_parser().previous == old(self).spec_parser().previous,
            final(self).spec_parser().spec_diags().len() >= old(self).spec_parser().spec_diags().len(),
            diags_extends(
                final(self).spec_parser().spec_diags(),
                old(self).spec_parser().spec_diags(),
            ),
    {
        if self.locals.len() > 65535 {
            self.parser.error("Too many local variables in one function.");
        } else {
            self.locals.push(Local { name, depth: None })
        }
    }

    /// In a local scope, declares the token just consumed as a new local,
    /// not yet initialized, reporting a redeclaration within the same
    /// scope; at global scope, a no-op.
    fn declare_variable(&mut self)
        requires
            old(self).ok(),
        ensures
            final(self).ok(),
            final(self).spec_chunk() == old(self).spec_chunk(),
            old(self).spec_depth() == 0 ==> final(self).spec_locals() == old(self).spec_locals()
                && final(self).spec_parser() == old(self).spec_parser(),
            old(self).spec_depth() > 0 && old(self).spec_locals().len() <= 65535 ==> final(self).spec_locals() == old(self).spec_locals().push(
                (Local { name: old(self).spec_parser().previous, depth: None }),
            ),
            old(self).spec_depth() > 0 && old(self).spec_locals().len() > 65535 ==> final(self).spec_locals() == old(self).spec_locals() && final(self).spec_parser().had_error,
            old(self).spec_depth() > 0 && spec_scope_collision(
                old(self).spec_locals(),
                old(self).spec_depth(),
                old(self).spec_parser().previous.src@,
            ) && !old(self).spec_parser().panic_mode ==> final(self).spec_parser().had_error,
            old(self).spec_depth() > 0 && !spec_scope_collision(
                old(self).spec_locals(),
                old(self).spec_depth(),
                old(self).spec_parser().previous.src@,
            ) && old(self).spec_locals().len() <= 65535 ==> final(self).spec_parser() == old(self).spec_parser(),
            final(self).spec_depth() == old(self).spec_depth(),
            final(self).spec_consumed() == old(self).spec_consumed(),
            final(self).spec_scanner() == old(self).spec_scanner(),
            final(self).measure() == old(self).measure(),
            old(self).spec_parser().had_error ==> final(self).spec_parser().had_error,
            final(self).spec_parser().current == old(self).spec_parser().current,
            final(self).spec_parser().previous == old(self).spec_parser().previous,
            final(self).spec_parser().spec_diags().len() >= old(self).spec_parser().spec_diags().len(),
            diags_extends(
                final(self).spec_parser().spec_diags(),
                old(self).spec_parser().spec_diags(),
            ),
    {
        if self.scope_depth == 0 {
            return ;
        }
        let name = self.parser.previous;
        let ghost depth0 = self.spec_depth();
        let mut i = self.locals.len();
        let ghost mut found = false;
        proof {
            assert(self.spec_locals().take(i as int) =~= self.spec_locals());
        }
        loop
            invariant
                self.ok(),
                i <= self.spec_locals().len(),
                self.spec_chunk() == old(self).spec_chunk(),
                self.spec_locals() == old(self).spec_locals(),
                self.spec_depth() == old(self).spec_depth(),
                self.spec_depth() == depth0,
                self.spec_consumed() == old(self).spec_consumed(),
                self.spec_scanner() == old(self).spec_scanner(),
                old(self).spec_parser().had_error ==> self.spec_parser().had_error,
                self.spec_parser().current == old(self).spec_parser().current,
                self.spec_parser().previous == old(self).spec_parser().previous,
                self.spec_parser().spec_diags().len() >= old(self).spec_parser().spec_diags().len(),
                diags_extends(
                    self.spec_parser().spec_diags(),
                    old(self).spec_parser().spec_diags(),
                ),
                name == old(self).spec_parser().previous,
                spec_scope_collision(self.spec_locals(), depth0, name.src@) == (found
                    || spec_scope_collision(self.spec_locals().take(i as int), depth0, name.src@)),
                found && !old(self).spec_parser().panic_mode ==> self.spec_parser().had_error,
                !found ==> self.spec_parser() == old(self).spec_parser(),
            ensures
                self.ok(),
                self.spec_chunk() == old(self).spec_chunk(),
                self.spec_locals() == old(self).spec_locals(),
                self.spec_depth() == old(self).spec_depth(),
                self.spec_consumed() == old(self).spec_consumed(),
                self.spec_scanner() == old(self).spec_scanner(),
                old(self).spec_parser().had_error ==> self.spec_parser().had_error,
                self.spec_parser().current == old(self).spec_parser().current,
                self.spec_parser().previous == old(self).spec_parser().previous,
                self.spec_parser().spec_diags().len() >= old(self).spec_parser().spec_diags().len(),
                diags_extends(
                    self.spec_parser().spec_diags(),
                    old(self).spec_parser().spec_diags(),
                ),
                name == old(self).spec_parser().previous,
                spec_scope_collision(self.spec_locals(), depth0, name.src@) && !old(self).spec_parser().panic_mode ==> self.spec_parser().had_error,
                !spec_scope_collision(self.spec_locals(), depth0, name.src@) ==> self.spec_parser()
                    == old(self).spec_parser(),
            decreases i,
        {
            if i == 0 {
                break ;
            }
            proof {
                assert(self.spec_locals().take(i as int).last() == self.spec_locals()[i - 1]);
                assert(self.spec_locals().take(i as int).drop_last() =~= self.spec_locals().take(
                    i - 1,
                ));
            }
            let d = self.locals[i - 1].depth;
            match d {
                Some(depth) => {
                    if depth < self.scope_depth {
                        break ;
                    }
                },
                None => {},
            }
            if str_eq(name.src, self.locals[i - 1].name.src) {
                proof {
                    found = true;
                }
                self.parser.error("Already a variable with this name in this scope.")
            }
            i = i - 1;
        }
        self.add_local(name)
    }

    /// Finds the newest local with this name and returns its stack slot;
    /// reading a variable inside its own initializer is reported.
    fn resolve_local(&mut self, name: &str) -> (r: Option<usize>)
        requires
            old(self).ok(),
        ensures
            final(self).ok(),
            final(self).spec_chunk() == old(self).spec_chunk(),
            final(self).spec_locals() == old(self).spec_locals(),
            final(self).spec_depth() == old(self).spec_depth(),
            final(self).spec_consumed() == old(self).spec_consumed(),
            final(self).spec_scanner() == old(self).spec_scanner(),
            final(self).measure() == old(self).measure(),
            old(self).spec_parser().had_error ==> final(self).spec_parser().had_error,
            final(self).spec_parser().current == old(self).spec_parser().current,
            final(self).spec_parser().previous == old(self).spec_parser().previous,
            final(self).spec_parser().spec_diags().len() >= old(self).spec_parser().spec_diags().len(),
            diags_extends(
                final(self).spec_parser().spec_diags(),
                old(self).spec_parser().spec_diags(),
            ),
            r is Some <==> spec_resolve(old(self).spec_locals(), name@) is Some,
            r matches Some(i) ==> Some(i as int) == spec_resolve(old(self).spec_locals(), name@)
                && i < old(self).spec_locals().len() && old(self).spec_locals()[i as int].name.src@
                == name@,
            r matches Some(i) && old(self).spec_locals()[i as int].depth is None && !old(self).spec_parser().panic_mode ==> final(self).spec_parser().had_error,
            (r is None || (r matches Some(i) && old(self).spec_locals()[i as int].depth is Some))
                ==> final(self).spec_parser() == old(self).spec_parser(),
            r is None ==> forall|i: int|
                0 <= i < old(self).spec_locals().len() ==> old(self).spec_locals()[i].name.src@ != name@,
    {
        let mut i = self.locals.len();
        proof {
            assert(self.spec_locals().take(i as int) =~= self.spec_locals());
        }
        loop
            invariant
                self.ok(),
                i <= self.spec_locals().len(),
                *self == *old(self),
                spec_resolve(self.spec_locals(), name@) == spec_resolve(
                    self.spec_locals().take(i as int),
                    name@,
                ),
            ensures
                self.ok(),
                *self == *old(self),
                spec_resolve(self.spec_locals(), name@) is None,
                forall|j: int|
                    0 <= j < self.spec_locals().len() ==> self.spec_locals()[j].name.src@ != name@,
            decreases i,
        {
            if i == 0 {
                proof {
                    lemma_spec_resolve_none(self.spec_locals(), name@);
                }
                break ;
            }
            proof {
                assert(self.spec_locals().take(i as int).last() == self.spec_locals()[i - 1]);
                assert(self.spec_locals().take(i as int).drop_last() =~= self.spec_locals().take(
                    i - 1,
                ));
            }
            if str_eq(self.locals[i - 1].name.src, name) {
                let d = self.locals[i - 1].depth;
                if d.is_none() {
                    self.parser.error("Can't read local variable in its own initializer.")
                }
                return Some(i - 1);
            }
            i = i - 1;
        }
        None
    }

    /// Advances past tokens until a statement boundary, leaving panic
    /// mode so that later errors are reported again.
    fn synchronize(&mut self)
        requires
            old(self).ok(),
        ensures
            final(self).ok(),
            final(self).spec_chunk() == old(self).spec_chunk(),
            final(self).spec_locals() == old(self).spec_locals(),
            final(self).spec_depth() == old(self).spec_depth(),
            final(self).spec_scanner().spec_src() == old(self).spec_scanner().spec_src(),
            final(self).measure() <= old(self).measure(),
            old(self).spec_parser().had_error ==> final(self).spec_parser().had_error,
            final(self).spec_parser().spec_diags().len() >= old(self).spec_parser().spec_diags().len(),
            diags_extends(
                final(self).spec_parser().spec_diags(),
                old(self).spec_parser().spec_diags(),
            ),
            final(self).spec_consumed() >= old(self).spec_consumed(),
            final(self).spec_parser().spec_diags().len() == old(self).spec_parser().spec_diags().len()
                ==> !final(self).spec_parser().panic_mode,
            at_sync_point(final(self).spec_parser()),
    {
        self.parser.panic_mode = false;
        loop
            invariant
                self.ok(),
                self.spec_chunk() == old(self).spec_chunk(),
                self.spec_locals() == old(self).spec_locals(),
                self.spec_depth() == old(self).spec_depth(),
                self.spec_scanner().spec_src() == old(self).spec_scanner().spec_src(),
                self.measure() <= old(self).measure(),
                old(self).spec_parser().had_error ==> self.spec_parser().had_error,
                self.spec_parser().spec_diags().len() >= old(self).spec_parser().spec_diags().len(),
                diags_extends(
                    self.spec_parser().spec_diags(),
                    old(self).spec_parser().spec_diags(),
                ),
                self.spec_consumed() >= old(self).spec_consumed(),
                self.spec_parser().spec_diags().len() == old(self).spec_parser().spec_diags().len()
                    ==> !self.spec_parser().panic_mode,
            ensures
                self.ok(),
                self.spec_chunk() == old(self).spec_chunk(),
                self.spec_locals() == old(self).spec_locals(),
                self.spec_depth() == old(self).spec_depth(),
                self.spec_scanner().spec_src() == old(self).spec_scanner().spec_src(),
                self.measure() <= old(self).measure(),
                old(self).spec_parser().had_error ==> self.spec_parser().had_error,
                self.spec_parser().spec_diags().len() >= old(self).spec_parser().spec_diags().len(),
                diags_extends(
                    self.spec_parser().spec_diags(),
                    old(self).spec_parser().spec_diags(),
                ),
                self.spec_consumed() >= old(self).spec_consumed(),
                self.spec_parser().spec_diags().len() == old(self).spec_parser().spec_diags().len()
                    ==> !self.spec_parser().panic_mode,
                at_sync_point(self.spec_parser()),
            decreases self.measure(),
        {
            if self.check(TokenType::Eof) {
                break ;
            }
            if self.parser.previous.typ == TokenType::Semicolon {
                break ;
            }
            match self.parser.current.typ {
                TokenType::Class | TokenType::Fun | TokenType::Var | TokenType::For
                    | TokenType::If | TokenType::While | TokenType::Print | TokenType::Return => {
                    break ;
                },
                _ => {},
            }
            self.advance()
        }
    }

    /// Parses expressions whose operators bind at least as tightly as
    /// `precedence`: one prefix expression, then infix operators while
    /// their precedence admits them.
    fn parse_precedence(&mut self, precedence: Precedence, interner: &mut StringInterner)
        requires
            old(self).wf(old(interner)@.len() as int),
            old(interner).wf(),
            spec_level(precedence) >= 1,
        ensures
            final(self).wf(final(interner)@.len() as int),
            final(interner).wf(),
            interner_extends(final(interner)@, old(interner)@),
            final(self).spec_scanner().spec_src() == old(self).spec_scanner().spec_src(),
            final(self).spec_depth() == old(self).spec_depth(),
            final(self).measure() <= old(self).measure(),
            old(self).spec_parser().current.typ != TokenType::Eof ==> final(self).measure() < old(self).measure(),
            final(self).spec_chunk().spec_code().len() >= old(self).spec_chunk().spec_code().len(),
            code_extends(final(self).spec_chunk().spec_code(), old(self).spec_chunk().spec_code()),
            diags_extends(
                final(self).spec_parser().spec_diags(),
                old(self).spec_parser().spec_diags(),
            ),
            values_extends(
                final(self).spec_chunk().spec_constants(),
                old(self).spec_chunk().spec_constants(),
            ),
            final(self).spec_locals() == old(self).spec_locals(),
            spec_rule(old(self).spec_parser().current.typ).0 == PrefixRule::NoPrefix ==> final(self).spec_chunk() == old(self).spec_chunk() && final(self).spec_parser().had_error,
            spec_rule(old(self).spec_parser().current.typ).0 == PrefixRule::NoPrefix && !old(self).spec_parser().panic_mode ==> final(self).spec_parser().spec_diags().len() > old(self).spec_parser().spec_diags().len() && (final(self).spec_parser().spec_diags().last()
                == spec_error_message(
                old(self).spec_parser().current.typ,
                old(self).spec_parser().current.src@,
                old(self).spec_parser().current.line as int,
                "Expect expression."@,
            ) || is_scan_error_diag(final(self).spec_parser().spec_diags().last())),
            spec_rule(old(self).spec_parser().current.typ).0 != PrefixRule::NoPrefix && !final(self).spec_parser().had_error ==> final(self).spec_chunk().spec_code().len() > old(self).spec_chunk().spec_code().len(),
            old(self).spec_parser().had_error ==> final(self).spec_parser().had_error,
            final(self).spec_consumed() >= old(self).spec_consumed(),
        decreases old(self).measure(), 6int,
    {
        self.advance();
        let can_assign = precedence.level() <= Precedence::Assignment.level();
        let (prefix, _, _) = get_rule(self.parser.previous.typ);
        match prefix {
            PrefixRule::NoPrefix => {
                self.parser.error("Expect expression.");
                return ;
            },
            PrefixRule::Grouping => self.grouping(can_assign, interner),
            PrefixRule::Unary => self.unary(can_assign, interner),
            PrefixRule::Variable => self.variable(can_assign, interner),
            PrefixRule::StrLit => self.string(can_assign, interner),
            PrefixRule::NumLit => self.number(can_assign),
            PrefixRule::Literal => self.literal(can_assign),
        }
        loop
            invariant
                self.wf(interner@.len() as int),
                interner.wf(),
                interner_extends(interner@, old(interner)@),
                self.spec_scanner().spec_src() == old(self).spec_scanner().spec_src(),
                self.spec_depth() == old(self).spec_depth(),
                self.measure() < old(self).measure(),
                self.spec_chunk().spec_code().len() >= old(self).spec_chunk().spec_code().len(),
                code_extends(self.spec_chunk().spec_code(), old(self).spec_chunk().spec_code()),
                diags_extends(
                    self.spec_parser().spec_diags(),
                    old(self).spec_parser().spec_diags(),
                ),
                values_extends(
                    self.spec_chunk().spec_constants(),
                    old(self).spec_chunk().spec_constants(),
                ),
                self.spec_locals() == old(self).spec_locals(),
                spec_rule(old(self).spec_parser().current.typ).0 != PrefixRule::NoPrefix ==> (
                self.spec_chunk().spec_code().len() > old(self).spec_chunk().spec_code().len()
                    || self.spec_parser().had_error),
                old(self).spec_parser().had_error ==> self.spec_parser().had_error,
                self.spec_consumed() >= old(self).spec_consumed(),
                spec_level(precedence) >= 1,
            decreases self.measure(),
        {
            let (_, _, cur_prec) = get_rule(self.parser.current.typ);
            if !(precedence.level() <= cur_prec.level()) {
                break ;
            }
            proof {
                assert(self.spec_parser().current.typ != TokenType::Eof);
            }
            self.advance();
            let (_, infix, _) = get_rule(self.parser.previous.typ);
            match infix {
                InfixRule::Binary => self.binary(can_assign, interner),
                InfixRule::NoInfix => {
                    proof {
                        assert(false);
                    }
                },
            }
        }
        self.check_assignment_target(can_assign)
    }

    /// After an expression parsed in assignment position, a stray `=` is
    /// consumed and reported: nothing to its left is an assignment target.
    /// Without `can_assign`, or without an `=` waiting, nothing happens.
    fn check_assignment_target(&mut self, can_assign: bool)
        requires
            old(self).ok(),
        ensures
            final(self).ok(),
            final(self).spec_chunk() == old(self).spec_chunk(),
            final(self).spec_locals() == old(self).spec_locals(),
            final(self).spec_depth() == old(self).spec_depth(),
            final(self).spec_scanner().spec_src() == old(self).spec_scanner().spec_src(),
            final(self).measure() <= old(self).measure(),
            final(self).spec_consumed() >= old(self).spec_consumed(),
            old(self).spec_parser().had_error ==> final(self).spec_parser().had_error,
            diags_extends(
                final(self).spec_parser().spec_diags(),
                old(self).spec_parser().spec_diags(),
            ),
            !(can_assign && old(self).spec_parser().current.typ == TokenType::Equal) ==> final(self).spec_parser() == old(self).spec_parser() && final(self).measure() == old(self).measure(),
            can_assign && old(self).spec_parser().current.typ == TokenType::Equal ==> final(self).spec_parser().had_error,
            can_assign && old(self).spec_parser().current.typ == TokenType::Equal && !old(self).spec_parser().panic_mode ==> final(self).spec_parser().spec_diags().len() > old(self).spec_parser().spec_diags().len() && (final(self).spec_parser().spec_diags().last()
                == spec_error_message(
                TokenType::Equal,
                old(self).spec_parser().current.src@,
                old(self).spec_parser().current.line as int,
                "Invalid assignment target."@,
            ) || is_scan_error_diag(final(self).spec_parser().spec_diags().last())),
    {
        if can_assign && self.matches(TokenType::Equal) {
            self.parser.error("Invalid assignment target.")
        }
    }

    /// Parses one expression.
    fn expression(&mut self, interner: &mut StringInterner)
        requires
            old(self).wf(old(interner)@.len() as int),
            old(interner).wf(),
        ensures
            final(self).wf(final(interner)@.len() as int),
            final(interner).wf(),
            interner_extends(final(interner)@, old(interner)@),
            final(self).spec_scanner().spec_src() == old(self).spec_scanner().spec_src(),
            final(self).spec_depth() == old(self).spec_depth(),
            final(self).measure() <= old(self).measure(),
            old(self).spec_parser().current.typ != TokenType::Eof ==> final(self).measure() < old(self).measure(),
            final(self).spec_chunk().spec_code().len() >= old(self).spec_chunk().spec_code().len(),
            code_extends(final(self).spec_chunk().spec_code(), old(self).spec_chunk().spec_code()),
            diags_extends(
                final(self).spec_parser().spec_diags(),
                old(self).spec_parser().spec_diags(),
            ),
            values_extends(
                final(self).spec_chunk().spec_constants(),
                old(self).spec_chunk().spec_constants(),
            ),
            final(self).spec_locals() == old(self).spec_locals(),
            spec_rule(old(self).spec_parser().current.typ).0 == PrefixRule::NoPrefix ==> final(self).spec_chunk() == old(self).spec_chunk() && final(self).spec_parser().had_error,
            spec_rule(old(self).spec_parser().current.typ).0 != PrefixRule::NoPrefix && !final(self).spec_parser().had_error ==> final(self).spec_chunk().spec_code().len() > old(self).spec_chunk().spec_code().len(),
            old(self).spec_parser().had_error ==> final(self).spec_parser().had_error,
            final(self).spec_consumed() >= old(self).spec_consumed(),
        decreases old(self).measure(), 7int,
    {
        self.parse_precedence(Precedence::Assignment, interner)
    }

    /// Compiles a number literal from the token just consumed.
    fn number(&mut self, _can_assign: bool)
        requires
            old(self).ok(),
            old(self).spec_parser().previous.typ == TokenType::Number,
        ensures
            final(self).ok(),
            forall|il: int|
                #[trigger] valid_values(old(self).spec_chunk().spec_constants(), il)
                    ==> valid_values(final(self).spec_chunk().spec_constants(), il),
            final(self).spec_chunk().spec_constants() == old(self).spec_chunk().spec_constants().push(
                Value::Num(
                    crate::num::parse_num_of(old(self).spec_parser().previous.src@).unwrap(),
                ),
            ),
            old(self).spec_chunk().spec_constants().len() <= 65535 ==> final(self).spec_chunk().spec_code() == old(self).spec_chunk().spec_code()
                + crate::chunk::spec_encode_idx(
                (OpCode::Constant, OpCode::ConstantLong),
                old(self).spec_chunk().spec_constants().len() as usize,
            ) && final(self).spec_parser() == old(self).spec_parser(),
            old(self).spec_chunk().spec_constants().len() > 65535 ==> final(self).spec_parser().had_error,
            final(self).spec_locals() == old(self).spec_locals(),
            final(self).spec_scanner() == old(self).spec_scanner(),
            final(self).spec_depth() == old(self).spec_depth(),
            final(self).measure() == old(self).measure(),
            final(self).spec_chunk().spec_code().len() >= old(self).spec_chunk().spec_code().len(),
            code_extends(final(self).spec_chunk().spec_code(), old(self).spec_chunk().spec_code()),
            diags_extends(
                final(self).spec_parser().spec_diags(),
                old(self).spec_parser().spec_diags(),
            ),
            old(self).spec_parser().had_error ==> final(self).spec_parser().had_error,
            final(self).spec_consumed() == old(self).spec_consumed(),
    {
        let bits = num_parse(self.parser.previous.src).unwrap();
        proof {
            crate::value::lemma_valid_values_push(
                self.spec_chunk().spec_constants(),
                Value::Num(bits),
            );
        }
        self.emit_constant(Value::Num(bits))
    }

    /// Compiles a string literal: the quotes are stripped, the contents
    /// interned, and the interned value stored as a constant.
    fn string(&mut self, _can_assign: bool, interner: &mut StringInterner)
        requires
            old(self).wf(old(interner)@.len() as int),
            old(interner).wf(),
            old(self).spec_parser().previous.typ == TokenType::String,
        ensures
            final(self).wf(final(interner)@.len() as int),
            final(interner).wf(),
            interner_extends(final(interner)@, old(interner)@),
            final(interner)@ == crate::object::spec_intern(
                old(interner)@,
                old(self).spec_parser().previous.src@.subrange(
                    1,
                    old(self).spec_parser().previous.src@.len() - 1,
                ),
            ).0,
            final(self).spec_chunk().spec_constants() == old(self).spec_chunk().spec_constants().push(
                Value::Str(
                    IString(
                        crate::object::spec_intern(
                            old(interner)@,
                            old(self).spec_parser().previous.src@.subrange(
                                1,
                                old(self).spec_parser().previous.src@.len() - 1,
                            ),
                        ).1 as usize,
                    ),
                ),
            ),
            old(self).spec_chunk().spec_constants().len() <= 65535 ==> final(self).spec_chunk().spec_code() == old(self).spec_chunk().spec_code()
                + crate::chunk::spec_encode_idx(
                (OpCode::Constant, OpCode::ConstantLong),
                old(self).spec_chunk().spec_constants().len() as usize,
            ) && final(self).spec_parser() == old(self).spec_parser(),
            old(self).spec_chunk().spec_constants().len() > 65535 ==> final(self).spec_parser().had_error,
            final(self).spec_locals() == old(self).spec_locals(),
            final(self).spec_scanner() == old(self).spec_scanner(),
            final(self).spec_depth() == old(self).spec_depth(),
            final(self).measure() == old(self).measure(),
            final(self).spec_chunk().spec_code().len() >= old(self).spec_chunk().spec_code().len(),
            code_extends(final(self).spec_chunk().spec_code(), old(self).spec_chunk().spec_code()),
            diags_extends(
                final(self).spec_parser().spec_diags(),
                old(self).spec_parser().spec_diags(),
            ),
            old(self).spec_parser().had_error ==> final(self).spec_parser().had_error,
            final(self).spec_consumed() == old(self).spec_consumed(),
    {
        let s = self.parser.previous.src;
        let n = s.unicode_len();
        let inner = s.substring_char(1, n - 1);
        let istr = interner.intern(inner);
        proof {
            crate::object::lemma_intern_matches_spec(old(interner)@, *interner, istr, inner@);
            crate::value::lemma_valid_values_grow(
                self.spec_chunk().spec_constants(),
                old(interner)@.len() as int,
                interner@.len() as int,
            );
            crate::value::lemma_valid_values_push(
                self.spec_chunk().spec_constants(),
                Value::Str(istr),
            );
        }
        self.emit_constant(Value::Str(istr))
    }

    /// Compiles `true`, `false` or `nil` from the token just consumed.
    fn literal(&mut self, _can_assign: bool)
        requires
            old(self).ok(),
            spec_rule(old(self).spec_parser().previous.typ).0 == PrefixRule::Literal,
        ensures
            final(self).ok(),
            final(self).spec_chunk().spec_constants() == old(self).spec_chunk().spec_constants(),
            final(self).spec_chunk().spec_code() == old(self).spec_chunk().spec_code().push(
                match old(self).spec_parser().previous.typ {
                    TokenType::False => OpCode::False,
                    TokenType::True => OpCode::True,
                    _ => OpCode::Nil,
                },
            ),
            final(self).spec_parser() == old(self).spec_parser(),
            final(self).spec_locals() == old(self).spec_locals(),
            final(self).spec_scanner() == old(self).spec_scanner(),
            final(self).spec_depth() == old(self).spec_depth(),
            final(self).measure() == old(self).measure(),
            final(self).spec_chunk().spec_code().len() >= old(self).spec_chunk().spec_code().len(),
            code_extends(final(self).spec_chunk().spec_code(), old(self).spec_chunk().spec_code()),
            diags_extends(
                final(self).spec_parser().spec_diags(),
                old(self).spec_parser().spec_diags(),
            ),
            old(self).spec_parser().had_error ==> final(self).spec_parser().had_error,
            final(self).spec_consumed() == old(self).spec_consumed(),
    {
        match self.parser.previous.typ {
            TokenType::False => self.emit_byte(OpCode::False),
            TokenType::True => self.emit_byte(OpCode::True),
            TokenType::Nil => self.emit_byte(OpCode::Nil),
            _ => {
                proof {
                    assert(false);
                }
            },
        }
    }

    /// Compiles a parenthesized expression.
    fn grouping(&mut self, _can_assign: bool, interner: &mut StringInterner)
        requires
            old(self).wf(old(interner)@.len() as int),
            old(interner).wf(),
        ensures
            final(self).wf(final(interner)@.len() as int),
            final(interner).wf(),
            interner_extends(final(interner)@, old(interner)@),
            final(self).spec_scanner().spec_src() == old(self).spec_scanner().spec_src(),
            final(self).spec_depth() == old(self).spec_depth(),
            final(self).measure() <= old(self).measure(),
            final(self).spec_chunk().spec_code().len() >= old(self).spec_chunk().spec_code().len(),
            code_extends(final(self).spec_chunk().spec_code(), old(self).spec_chunk().spec_code()),
            diags_extends(
                final(self).spec_parser().spec_diags(),
                old(self).spec_parser().spec_diags(),
            ),
            values_extends(
                final(self).spec_chunk().spec_constants(),
                old(self).spec_chunk().spec_constants(),
            ),
            final(self).spec_locals() == old(self).spec_locals(),
            !final(self).spec_parser().had_error ==> final(self).spec_chunk().spec_code().len()
                > old(self).spec_chunk().spec_code().len(),
            old(self).spec_parser().had_error ==> final(self).spec_parser().had_error,
            final(self).spec_consumed() >= old(self).spec_consumed(),
        decreases old(self).measure(), 8int,
    {
        self.expression(interner);
        self.consume(TokenType::RParen, "Expect ')' after expression.")
    }

    /// Compiles a unary operator applied to the expression after it.
    fn unary(&mut self, _can_assign: bool, interner: &mut StringInterner)
        requires
            old(self).wf(old(interner)@.len() as int),
            old(interner).wf(),
            spec_rule(old(self).spec_parser().previous.typ).0 == PrefixRule::Unary,
        ensures
            final(self).wf(final(interner)@.len() as int),
            final(interner).wf(),
            interner_extends(final(interner)@, old(interner)@),
            final(self).spec_scanner().spec_src() == old(self).spec_scanner().spec_src(),
            final(self).spec_depth() == old(self).spec_depth(),
            final(self).measure() <= old(self).measure(),
            final(self).spec_chunk().spec_code().len() >= old(self).spec_chunk().spec_code().len(),
            code_extends(final(self).spec_chunk().spec_code(), old(self).spec_chunk().spec_code()),
            diags_extends(
                final(self).spec_parser().spec_diags(),
                old(self).spec_parser().spec_diags(),
            ),
            values_extends(
                final(self).spec_chunk().spec_constants(),
                old(self).spec_chunk().spec_constants(),
            ),
            final(self).spec_locals() == old(self).spec_locals(),
            code_ends_with(
                final(self).spec_chunk().spec_code(),
                seq![
                    if old(self).spec_parser().previous.typ == TokenType::Minus {
                        OpCode::Negate
                    } else {
                        OpCode::Not
                    },
                ],
            ),
            final(self).spec_chunk().spec_code().len() > old(self).spec_chunk().spec_code().len(),
            old(self).spec_parser().had_error ==> final(self).spec_parser().had_error,
            final(self).spec_consumed() >= old(self).spec_consumed(),
        decreases old(self).measure(), 8int,
    {
        let typ = self.parser.previous.typ;
        self.parse_precedence(Precedence::Unary, interner);
        match typ {
            TokenType::Minus => {
                let ghost mid = self.spec_chunk().spec_code();
                self.emit_byte(OpCode::Negate);
                proof {
                    lemma_push_ends_with(mid, OpCode::Negate);
                }
            },
            TokenType::Bang => {
                let ghost mid = self.spec_chunk().spec_code();
                self.emit_byte(OpCode::Not);
                proof {
                    lemma_push_ends_with(mid, OpCode::Not);
                }
            },
            _ => {
                proof {
                    assert(false);
                }
            },
        }
    }

    /// Compiles a binary operator: the right operand at one level higher,
    /// then the operator's opcodes.
    fn binary(&mut self, _can_assign: bool, interner: &mut StringInterner)
        requires
            old(self).wf(old(interner)@.len() as int),
            old(interner).wf(),
            spec_rule(old(self).spec_parser().previous.typ).1 == InfixRule::Binary,
        ensures
            final(self).wf(final(interner)@.len() as int),
            final(interner).wf(),
            interner_extends(final(interner)@, old(interner)@),
            final(self).spec_scanner().spec_src() == old(self).spec_scanner().spec_src(),
            final(self).spec_depth() == old(self).spec_depth(),
            final(self).measure() <= old(self).measure(),
            final(self).spec_chunk().spec_code().len() >= old(self).spec_chunk().spec_code().len(),
            code_extends(final(self).spec_chunk().spec_code(), old(self).spec_chunk().spec_code()),
            diags_extends(
                final(self).spec_parser().spec_diags(),
                old(self).spec_parser().spec_diags(),
            ),
            values_extends(
                final(self).spec_chunk().spec_constants(),
                old(self).spec_chunk().spec_constants(),
            ),
            final(self).spec_locals() == old(self).spec_locals(),
            code_ends_with(
                final(self).spec_chunk().spec_code(),
                spec_binary_suffix(old(self).spec_parser().previous.typ),
            ),
            final(self).spec_chunk().spec_code().len() > old(self).spec_chunk().spec_code().len(),
            old(self).spec_parser().had_error ==> final(self).spec_parser().had_error,
            final(self).spec_consumed() >= old(self).spec_consumed(),
        decreases old(self).measure(), 8int,
    {
        let typ = self.parser.previous.typ;
        let (_, _, precedence) = get_rule(typ);
        proof {
            assert(precedence != Precedence::Primary);
        }
        let next = precedence.next();
        self.parse_precedence(next, interner);
        let ghost mid = self.spec_chunk().spec_code();
        match typ {
            TokenType::BangEqual => self.emit_bytes(OpCode::Equal, OpCode::Not),
            TokenType::EqualEqual => self.emit_byte(OpCode::Equal),
            TokenType::Greater => self.emit_byte(OpCode::Greater),
            TokenType::GreaterEqual => self.emit_bytes(OpCode::Less, OpCode::Not),
            TokenType::Less => self.emit_byte(OpCode::Less),
            TokenType::LessEqual => self.emit_bytes(OpCode::Greater, OpCode::Not),
            TokenType::Plus => self.emit_byte(OpCode::Add),
            TokenType::Minus => self.emit_byte(OpCode::Subtract),
            TokenType::Star => self.emit_byte(OpCode::Multiply),
            TokenType::Slash => self.emit_byte(OpCode::Divide),
            _ => {
                proof {
                    assert(false);
                }
            },
        }
        proof {
            match typ {
                TokenType::BangEqual => lemma_push2_ends_with(mid, OpCode::Equal, OpCode::Not),
                TokenType::EqualEqual => lemma_push_ends_with(mid, OpCode::Equal),
                TokenType::Greater => lemma_push_ends_with(mid, OpCode::Greater),
                TokenType::GreaterEqual => lemma_push2_ends_with(mid, OpCode::Less, OpCode::Not),
                TokenType::Less => lemma_push_ends_with(mid, OpCode::Less),
                TokenType::LessEqual => lemma_push2_ends_with(mid, OpCode::Greater, OpCode::Not),
                TokenType::Plus => lemma_push_ends_with(mid, OpCode::Add),
                TokenType::Minus => lemma_push_ends_with(mid, OpCode::Subtract),
                TokenType::Star => lemma_push_ends_with(mid, OpCode::Multiply),
                TokenType::Slash => lemma_push_ends_with(mid, OpCode::Divide),
                _ => {},
            }
        }
    }

    /// Compiles a variable reference from the token just consumed.
    fn variable(&mut self, can_assign: bool, interner: &mut StringInterner)
        requires
            old(self).wf(old(interner)@.len() as int),
            old(interner).wf(),
        ensures
            final(self).wf(final(interner)@.len() as int),
            final(interner).wf(),
            interner_extends(final(interner)@, old(interner)@),
            final(self).spec_scanner().spec_src() == old(self).spec_scanner().spec_src(),
            final(self).spec_depth() == old(self).spec_depth(),
            final(self).measure() <= old(self).measure(),
            final(self).spec_chunk().spec_code().len() >= old(self).spec_chunk().spec_code().len(),
            code_extends(final(self).spec_chunk().spec_code(), old(self).spec_chunk().spec_code()),
            diags_extends(
                final(self).spec_parser().spec_diags(),
                old(self).spec_parser().spec_diags(),
            ),
            values_extends(
                final(self).spec_chunk().spec_constants(),
                old(self).spec_chunk().spec_constants(),
            ),
            final(self).spec_locals() == old(self).spec_locals(),
            named_variable_post(
                *old(self),
                *final(self),
                old(interner)@,
                final(interner)@,
                old(self).spec_parser().previous.src@,
                can_assign,
            ),
            final(self).spec_chunk().spec_code().len() > old(self).spec_chunk().spec_code().len(),
            old(self).spec_parser().had_error ==> final(self).spec_parser().had_error,
            final(self).spec_consumed() >= old(self).spec_consumed(),
        decreases old(self).measure(), 8int,
    {
        let name = self.parser.previous.src;
        self.named_variable(name, can_assign, interner)
    }

    /// Emits the load or store of a named variable: a stack slot where the
    /// name resolves to a local, a global by name constant otherwise; an
    /// `=` after the name compiles an assignment where allowed.
    fn named_variable(&mut self, name: &str, can_assign: bool, interner: &mut StringInterner)
        requires
            old(self).wf(old(interner)@.len() as int),
            old(interner).wf(),
        ensures
            final(self).wf(final(interner)@.len() as int),
            final(interner).wf(),
            interner_extends(final(interner)@, old(interner)@),
            final(self).spec_scanner().spec_src() == old(self).spec_scanner().spec_src(),
            final(self).spec_depth() == old(self).spec_depth(),
            final(self).measure() <= old(self).measure(),
            final(self).spec_chunk().spec_code().len() >= old(self).spec_chunk().spec_code().len(),
            code_extends(final(self).spec_chunk().spec_code(), old(self).spec_chunk().spec_code()),
            diags_extends(
                final(self).spec_parser().spec_diags(),
                old(self).spec_parser().spec_diags(),
            ),
            values_extends(
                final(self).spec_chunk().spec_constants(),
                old(self).spec_chunk().spec_constants(),
            ),
            final(self).spec_locals() == old(self).spec_locals(),
            named_variable_post(*old(self), *final(self), old(interner)@, final(interner)@, name@, can_assign),
            final(self).spec_chunk().spec_code().len() > old(self).spec_chunk().spec_code().len(),
            old(self).spec_parser().had_error ==> final(self).spec_parser().had_error,
            final(self).spec_consumed() >= old(self).spec_consumed(),
        decreases old(self).measure(), 7int,
    {
        let resolved = self.resolve_local(name);
        let arg: usize;
        let get_pair: (OpCode, OpCode);
        let set_pair: (OpCode, OpCode);
        match resolved {
            Some(idx) => {
                arg = idx;
                get_pair = (OpCode::GetLocal, OpCode::GetLocalLong);
                set_pair = (OpCode::SetLocal, OpCode::SetLocalLong);
            },
            None => {
                arg = self.identifier_constant(name, interner);
                get_pair = (OpCode::GetGlobal, OpCode::GetGlobalLong);
                set_pair = (OpCode::SetGlobal, OpCode::SetGlobalLong);
            },
        }
        if can_assign && self.matches(TokenType::Equal) {
            self.expression(interner);
            let ghost mid = self.spec_chunk().spec_code();
            self.emit_long(set_pair, arg);
            proof {
                lemma_append_ends_with(mid, crate::chunk::spec_encode_idx(set_pair, arg as usize));
                old(self).spec_chunk().lemma_constants_len_bound();
                assert(named_variable_post(
                    *old(self),
                    *self,
                    old(interner)@,
                    interner@,
                    name@,
                    can_assign,
                ));
            }
        } else {
            let ghost mid = self.spec_chunk().spec_code();
            self.emit_long(get_pair, arg);
            proof {
                lemma_append_ends_with(mid, crate::chunk::spec_encode_idx(get_pair, arg as usize));
                old(self).spec_chunk().lemma_constants_len_bound();
                assert(named_variable_post(
                    *old(self),
                    *self,
                    old(interner)@,
                    interner@,
                    name@,
                    can_assign,
                ));
            }
        }
    }

    /// Consumes an identifier as a variable name; in a local scope the
    /// name is declared and the result is unused, at global scope the name
    /// becomes a string constant whose index is returned.
    fn parse_variable(&mut self, msg: &str, interner: &mut StringInterner) -> (r: usize)
        requires
            old(self).wf(old(interner)@.len() as int),
            old(interner).wf(),
        ensures
            final(self).wf(final(interner)@.len() as int),
            final(interner).wf(),
            interner_extends(final(interner)@, old(interner)@),
            r <= 65535,
            final(self).spec_chunk().spec_code() == old(self).spec_chunk().spec_code(),
            ({
                let tok = if old(self).spec_parser().current.typ == TokenType::Identifier {
                    old(self).spec_parser().current
                } else {
                    old(self).spec_parser().previous
                };
                &&& (old(self).spec_depth() > 0 ==> r == 0 && final(self).spec_chunk().spec_constants() == old(self).spec_chunk().spec_constants() && final(interner)@ == old(interner)@ && (old(self).spec_locals().len() <= 65535 ==> final(self).spec_locals() == old(self).spec_locals().push(
                    (Local { name: tok, depth: None }),
                )))
                &&& (old(self).spec_depth() == 0 ==> final(self).spec_locals() == old(self).spec_locals() && final(interner)@ == crate::object::spec_intern(
                    old(interner)@,
                    tok.src@,
                ).0 && final(self).spec_chunk().spec_constants() == old(self).spec_chunk().spec_constants().push(
                    Value::Str(
                        IString(
                            crate::object::spec_intern(old(interner)@, tok.src@).1 as usize,
                        ),
                    ),
                ) && (old(self).spec_chunk().spec_constants().len() <= 65535 ==> r == old(self).spec_chunk().spec_constants().len()))
            }),
            final(self).spec_scanner().spec_src() == old(self).spec_scanner().spec_src(),
            final(self).spec_depth() == old(self).spec_depth(),
            final(self).measure() <= old(self).measure(),
            final(self).spec_chunk().spec_code().len() >= old(self).spec_chunk().spec_code().len(),
            code_extends(final(self).spec_chunk().spec_code(), old(self).spec_chunk().spec_code()),
            diags_extends(
                final(self).spec_parser().spec_diags(),
                old(self).spec_parser().spec_diags(),
            ),
            old(self).spec_parser().had_error ==> final(self).spec_parser().had_error,
            final(self).spec_consumed() >= old(self).spec_consumed(),
    {
        self.consume(TokenType::Identifier, msg);
        self.declare_variable();
        if self.scope_depth > 0 {
            return 0;
        }
        let name = self.parser.previous.src;
        self.identifier_constant(name, interner)
    }

    /// Makes the just-declared variable usable: at global scope, emits the
    /// define instruction for the name constant; in a local scope, marks
    /// the newest local initialized at the current depth.
    fn define_variable(&mut self, global: usize)
        requires
            old(self).ok(),
            old(self).spec_depth() == 0 && global <= 65535 ==> global < old(self).spec_chunk().spec_constants().len(),
        ensures
            final(self).ok(),
            final(self).spec_chunk().spec_constants() == old(self).spec_chunk().spec_constants(),
            final(self).spec_parser() == old(self).spec_parser(),
            old(self).spec_depth() == 0 ==> final(self).spec_locals() == old(self).spec_locals(),
            old(self).spec_depth() == 0 && global <= 65535 ==> final(self).spec_chunk().spec_code()
                == old(self).spec_chunk().spec_code() + crate::chunk::spec_encode_idx(
                (OpCode::DefineGlobal, OpCode::DefineGlobalLong),
                global,
            ),
            old(self).spec_depth() > 0 ==> final(self).spec_chunk() == old(self).spec_chunk() && (
            old(self).spec_locals().len() > 0 ==> final(self).spec_locals() == old(self).spec_locals().update(
                old(self).spec_locals().len() - 1,
                (Local {
                    name: old(self).spec_locals().last().name,
                    depth: Some(old(self).scope_depth),
                }),
            )) && (old(self).spec_locals().len() == 0 ==> final(self).spec_locals() == old(self).spec_locals()),
            final(self).spec_scanner() == old(self).spec_scanner(),
            final(self).spec_depth() == old(self).spec_depth(),
            final(self).measure() == old(self).measure(),
            final(self).spec_chunk().spec_code().len() >= old(self).spec_chunk().spec_code().len(),
            code_extends(final(self).spec_chunk().spec_code(), old(self).spec_chunk().spec_code()),
            diags_extends(
                final(self).spec_parser().spec_diags(),
                old(self).spec_parser().spec_diags(),
            ),
            old(self).spec_parser().had_error ==> final(self).spec_parser().had_error,
            final(self).spec_consumed() == old(self).spec_consumed(),
    {
        if self.scope_depth == 0 {
            self.emit_long((OpCode::DefineGlobal, OpCode::DefineGlobalLong), global)
        } else {
            self.mark_initialized()
        }
    }

    /// Compiles `var name (= initializer)? ;`.
    fn var_declaration(&mut self, interner: &mut StringInterner)
        requires
            old(self).wf(old(interner)@.len() as int),
            old(interner).wf(),
        ensures
            final(self).wf(final(interner)@.len() as int),
            final(interner).wf(),
            interner_extends(final(interner)@, old(interner)@),
            final(self).spec_scanner().spec_src() == old(self).spec_scanner().spec_src(),
            final(self).spec_depth() == old(self).spec_depth(),
            old(self).spec_depth() == 0 ==> final(self).spec_locals() == old(self).spec_locals(),
            old(self).spec_depth() == 0 && old(self).spec_chunk().spec_constants().len() <= 65535
                ==> code_ends_with(
                final(self).spec_chunk().spec_code(),
                crate::chunk::spec_encode_idx(
                    (OpCode::DefineGlobal, OpCode::DefineGlobalLong),
                    old(self).spec_chunk().spec_constants().len() as usize,
                ),
            ),
            old(self).spec_depth() > 0 && old(self).spec_locals().len() <= 65535 ==> final(self).spec_locals() == old(self).spec_locals().push(
                (Local {
                    name: if old(self).spec_parser().current.typ == TokenType::Identifier {
                        old(self).spec_parser().current
                    } else {
                        old(self).spec_parser().previous
                    },
                    depth: Some(old(self).scope_depth),
                }),
            ),
            final(self).measure() <= old(self).measure(),
            final(self).spec_chunk().spec_code().len() >= old(self).spec_chunk().spec_code().len(),
            code_extends(final(self).spec_chunk().spec_code(), old(self).spec_chunk().spec_code()),
            diags_extends(
                final(self).spec_parser().spec_diags(),
                old(self).spec_parser().spec_diags(),
            ),
            old(self).spec_parser().had_error ==> final(self).spec_parser().had_error,
            final(self).spec_consumed() >= old(self).spec_consumed(),
        decreases old(self).measure(), 11int,
    {
        let global = self.parse_variable("Expect variable name.", interner);
        if self.matches(TokenType::Equal) {
            self.expression(interner);
        } else {
            self.emit_byte(OpCode::Nil);
        }
        self.consume(TokenType::Semicolon, "Expect ';' after variable declaration.");
        let ghost mid = self.spec_chunk().spec_code();
        let ghost mid_locals = self.spec_locals();
        self.define_variable(global);
        proof {
            if old(self).spec_depth() == 0 {
                if old(self).spec_chunk().spec_constants().len() <= 65535 {
                    lemma_append_ends_with(
                        mid,
                        crate::chunk::spec_encode_idx(
                            (OpCode::DefineGlobal, OpCode::DefineGlobalLong),
                            global,
                        ),
                    );
                }
            } else {
                if old(self).spec_locals().len() <= 65535 {
                    assert(self.spec_locals() =~= old(self).spec_locals().push(
                        (Local {
                            name: if old(self).spec_parser().current.typ == TokenType::Identifier {
                                old(self).spec_parser().current
                            } else {
                                old(self).spec_parser().previous
                            },
                            depth: Some(old(self).scope_depth),
                        }),
                    ));
                }
            }
        }
    }

    /// Compiles `print expr ;`.
    fn print_statement(&mut self, interner: &mut StringInterner)
        requires
            old(self).wf(old(interner)@.len() as int),
            old(interner).wf(),
        ensures
            final(self).wf(final(interner)@.len() as int),
            final(interner).wf(),
            interner_extends(final(interner)@, old(interner)@),
            final(self).spec_scanner().spec_src() == old(self).spec_scanner().spec_src(),
            final(self).spec_depth() == old(self).spec_depth(),
            final(self).measure() <= old(self).measure(),
            final(self).spec_chunk().spec_code().len() >= old(self).spec_chunk().spec_code().len(),
            code_extends(final(self).spec_chunk().spec_code(), old(self).spec_chunk().spec_code()),
            diags_extends(
                final(self).spec_parser().spec_diags(),
                old(self).spec_parser().spec_diags(),
            ),
            code_ends_with(final(self).spec_chunk().spec_code(), seq![OpCode::Print]),
            final(self).spec_locals() == old(self).spec_locals(),
            old(self).spec_parser().had_error ==> final(self).spec_parser().had_error,
            final(self).spec_consumed() >= old(self).spec_consumed(),
        decreases old(self).measure(), 8int,
    {
        self.expression(interner);
        self.consume(TokenType::Semicolon, "Expect ';' after value.");
        let ghost mid = self.spec_chunk().spec_code();
        self.emit_byte(OpCode::Print);
        proof {
            lemma_push_ends_with(mid, OpCode::Print);
        }
    }

    /// Compiles an expression statement: the value is computed and popped.
    fn expression_statement(&mut self, interner: &mut StringInterner)
        requires
            old(self).wf(old(interner)@.len() as int),
            old(interner).wf(),
        ensures
            final(self).wf(final(interner)@.len() as int),
            final(interner).wf(),
            interner_extends(final(interner)@, old(interner)@),
            final(self).spec_scanner().spec_src() == old(self).spec_scanner().spec_src(),
            final(self).spec_depth() == old(self).spec_depth(),
            final(self).measure() <= old(self).measure(),
            old(self).spec_parser().current.typ != TokenType::Eof ==> final(self).measure() < old(self).measure(),
            final(self).spec_chunk().spec_code().len() >= old(self).spec_chunk().spec_code().len(),
            code_extends(final(self).spec_chunk().spec_code(), old(self).spec_chunk().spec_code()),
            diags_extends(
                final(self).spec_parser().spec_diags(),
                old(self).spec_parser().spec_diags(),
            ),
            code_ends_with(final(self).spec_chunk().spec_code(), seq![OpCode::Pop]),
            final(self).spec_locals() == old(self).spec_locals(),
            old(self).spec_parser().had_error ==> final(self).spec_parser().had_error,
            final(self).spec_consumed() >= old(self).spec_consumed(),
        decreases old(self).measure(), 8int,
    {
        self.expression(interner);
        self.consume(TokenType::Semicolon, "Expect ';' after expression.");
        let ghost mid = self.spec_chunk().spec_code();
        self.emit_byte(OpCode::Pop);
        proof {
            lemma_push_ends_with(mid, OpCode::Pop);
        }
    }

    /// Compiles `if (cond) statement (else statement)?` with forward
    /// jumps over the arm not taken; the condition value is popped on
    /// whichever arm runs.
    #[verifier::rlimit(60)]
    fn if_statement(&mut self, interner: &mut StringInterner)
        requires
            old(self).wf(old(interner)@.len() as int),
            old(interner).wf(),
        ensures
            final(self).wf(final(interner)@.len() as int),
            final(interner).wf(),
            interner_extends(final(interner)@, old(interner)@),
            final(self).spec_scanner().spec_src() == old(self).spec_scanner().spec_src(),
            final(self).spec_depth() == old(self).spec_depth(),
            final(self).measure() <= old(self).measure(),
            final(self).spec_chunk().spec_code().len() >= old(self).spec_chunk().spec_code().len(),
            code_extends(final(self).spec_chunk().spec_code(), old(self).spec_chunk().spec_code()),
            diags_extends(
                final(self).spec_parser().spec_diags(),
                old(self).spec_parser().spec_diags(),
            ),
            if_statement_post(
                old(self).spec_chunk().spec_code(),
                final(self).spec_chunk().spec_code(),
            ),
            old(self).spec_parser().current.typ != TokenType::LParen && !old(self).spec_parser().panic_mode ==> final(self).spec_parser().spec_diags().len() > old(self).spec_parser().spec_diags().len() && final(self).spec_parser().spec_diags()[old(self).spec_parser().spec_diags().len() as int]
                == spec_error_message(
                old(self).spec_parser().current.typ,
                old(self).spec_parser().current.src@,
                old(self).spec_parser().current.line as int,
                "Expect '(' after 'if'."@,
            ),
            old(self).spec_parser().had_error ==> final(self).spec_parser().had_error,
            final(self).spec_consumed() >= old(self).spec_consumed(),
        decreases old(self).measure(), 10int,
    {
        let ghost l0 = old(self).spec_chunk().spec_code().len() as int;
        let ghost d0 = old(self).spec_parser().spec_diags();
        self.consume(TokenType::LParen, "Expect '(' after 'if'.");
        let ghost d1 = self.spec_parser().spec_diags();
        proof {
            if old(self).spec_parser().current.typ != TokenType::LParen && !old(self).spec_parser().panic_mode {
                assert(d1[d0.len() as int] == spec_error_message(
                    old(self).spec_parser().current.typ,
                    old(self).spec_parser().current.src@,
                    old(self).spec_parser().current.line as int,
                    "Expect '(' after 'if'."@,
                ));
            }
        }
        self.expression(interner);
        proof {
            assert(diags_extends(self.spec_parser().spec_diags(), d1));
        }
        let ghost d2 = self.spec_parser().spec_diags();
        self.consume(TokenType::RParen, "Expect ')' after condition.");
        proof {
            assert(diags_extends(self.spec_parser().spec_diags(), d2));
            assert(diags_extends(self.spec_parser().spec_diags(), d1));
        }
        let ghost d3 = self.spec_parser().spec_diags();
        let ghost l1 = self.spec_chunk().spec_code().len() as int;
        let then_jump = self.emit_jump(OpCode::JumpIfFalse);
        self.emit_byte(OpCode::Pop);
        self.statement(interner);
        proof {
            assert(diags_extends(self.spec_parser().spec_diags(), d3));
            assert(diags_extends(self.spec_parser().spec_diags(), d1));
        }
        let ghost d4 = self.spec_parser().spec_diags();
        let ghost l2 = self.spec_chunk().spec_code().len() as int;
        let else_jump = self.emit_jump(OpCode::Jump);
        proof {
            assert(crate::chunk::spec_byte_at(
                self.spec_chunk().spec_code(),
                then_jump as int,
            ) is Some);
            assert(crate::chunk::spec_byte_at(
                self.spec_chunk().spec_code(),
                then_jump + 1,
            ) is Some);
        }
        self.patch_jump(then_jump);
        self.emit_byte(OpCode::Pop);
        proof {
            assert(diags_extends(self.spec_parser().spec_diags(), d4));
            assert(diags_extends(self.spec_parser().spec_diags(), d1));
        }
        let ghost d5 = self.spec_parser().spec_diags();
        if self.matches(TokenType::Else) {
            self.statement(interner);
        }
        proof {
            assert(diags_extends(self.spec_parser().spec_diags(), d5));
            assert(diags_extends(self.spec_parser().spec_diags(), d1));
            assert(crate::chunk::spec_byte_at(
                self.spec_chunk().spec_code(),
                else_jump as int,
            ) is Some);
            assert(crate::chunk::spec_byte_at(
                self.spec_chunk().spec_code(),
                else_jump + 1,
            ) is Some);
        }
        let ghost l3 = self.spec_chunk().spec_code().len() as int;
        self.patch_jump(else_jump);
        proof {
            let fin = self.spec_chunk().spec_code();
            let cond = fin.subrange(l0, l1);
            let thn = fin.subrange(l1 + 4, l2);
            let els = fin.subrange(l2 + 4, l3);
            assert(fin.len() == l3);
            assert(thn.len() == l2 - l1 - 4);
            assert(els.len() == l3 - l2 - 4);
            assert forall|i: int| 0 <= i < fin.len() implies fin[i] == if_shape(
                old(self).spec_chunk().spec_code(),
                cond,
                thn,
                els,
            )[i] by {
                let shape = if_shape(old(self).spec_chunk().spec_code(), cond, thn, els);
                if i < l0 {
                    assert(shape[i] == old(self).spec_chunk().spec_code()[i]);
                } else if i < l1 {
                    assert(shape[i] == cond[i - l0]);
                } else if i < l1 + 4 {
                    assert(shape[i] == seq![
                        OpCode::JumpIfFalse,
                        OpCode::Byte(jump_hi(thn.len() as int + 4)),
                        OpCode::Byte(jump_lo(thn.len() as int + 4)),
                        OpCode::Pop,
                    ][i - l1]);
                } else if i < l2 {
                    assert(shape[i] == thn[i - l1 - 4]);
                } else if i < l2 + 4 {
                    assert(shape[i] == seq![
                        OpCode::Jump,
                        OpCode::Byte(jump_hi(els.len() as int + 1)),
                        OpCode::Byte(jump_lo(els.len() as int + 1)),
                        OpCode::Pop,
                    ][i - l2]);
                } else {
                    assert(shape[i] == els[i - l2 - 4]);
                }
            };
            assert(fin =~= if_shape(old(self).spec_chunk().spec_code(), cond, thn, els));
            assert(if_shape(old(self).spec_chunk().spec_code(), cond, thn, els) == fin);
            if old(self).spec_parser().current.typ != TokenType::LParen && !old(self).spec_parser().panic_mode {
                assert(diags_extends(self.spec_parser().spec_diags(), d1));
                assert(self.spec_parser().spec_diags()[d0.len() as int] == d1[d0.len() as int]);
            }
        }
    }

    /// Compiles declarations until the closing brace of a block.
    fn block(&mut self, interner: &mut StringInterner)
        requires
            old(self).wf(old(interner)@.len() as int),
            old(interner).wf(),
        ensures
            final(self).wf(final(interner)@.len() as int),
            final(interner).wf(),
            interner_extends(final(interner)@, old(interner)@),
            final(self).spec_scanner().spec_src() == old(self).spec_scanner().spec_src(),
            final(self).spec_depth() == old(self).spec_depth(),
            final(self).measure() <= old(self).measure(),
            final(self).spec_chunk().spec_code().len() >= old(self).spec_chunk().spec_code().len(),
            code_extends(final(self).spec_chunk().spec_code(), old(self).spec_chunk().spec_code()),
            diags_extends(
                final(self).spec_parser().spec_diags(),
                old(self).spec_parser().spec_diags(),
            ),
            old(self).spec_parser().had_error ==> final(self).spec_parser().had_error,
            final(self).spec_consumed() >= old(self).spec_consumed(),
        decreases old(self).measure(), 13int,
    {
        loop
            invariant
                self.wf(interner@.len() as int),
                interner.wf(),
                interner_extends(interner@, old(interner)@),
                self.spec_scanner().spec_src() == old(self).spec_scanner().spec_src(),
                self.spec_depth() == old(self).spec_depth(),
                self.measure() <= old(self).measure(),
                self.spec_chunk().spec_code().len() >= old(self).spec_chunk().spec_code().len(),
                code_extends(self.spec_chunk().spec_code(), old(self).spec_chunk().spec_code()),
                diags_extends(
                    self.spec_parser().spec_diags(),
                    old(self).spec_parser().spec_diags(),
                ),
                old(self).spec_parser().had_error ==> self.spec_parser().had_error,
                self.spec_consumed() >= old(self).spec_consumed(),
            ensures
                self.wf(interner@.len() as int),
                interner.wf(),
                interner_extends(interner@, old(interner)@),
                self.spec_scanner().spec_src() == old(self).spec_scanner().spec_src(),
                self.spec_depth() == old(self).spec_depth(),
                self.measure() <= old(self).measure(),
                self.spec_chunk().spec_code().len() >= old(self).spec_chunk().spec_code().len(),
                code_extends(self.spec_chunk().spec_code(), old(self).spec_chunk().spec_code()),
                diags_extends(
                    self.spec_parser().spec_diags(),
                    old(self).spec_parser().spec_diags(),
                ),
                old(self).spec_parser().had_error ==> self.spec_parser().had_error,
                self.spec_consumed() >= old(self).spec_consumed(),
            decreases self.measure(), 12int,
        {
            if self.check(TokenType::RBrace) || self.check(TokenType::Eof) {
                break ;
            }
            self.declaration(interner);
        }
        self.consume(TokenType::RBrace, "Expect '}' after block.")
    }

    /// Compiles one statement: `print`, `if`, a braced block with its own
    /// scope, or an expression statement.
    fn statement(&mut self, interner: &mut StringInterner)
        requires
            old(self).wf(old(interner)@.len() as int),
            old(interner).wf(),
        ensures
            final(self).wf(final(interner)@.len() as int),
            final(interner).wf(),
            interner_extends(final(interner)@, old(interner)@),
            final(self).spec_scanner().spec_src() == old(self).spec_scanner().spec_src(),
            final(self).spec_depth() == old(self).spec_depth(),
            final(self).measure() <= old(self).measure(),
            old(self).spec_parser().current.typ != TokenType::Eof ==> final(self).measure() < old(self).measure(),
            final(self).spec_chunk().spec_code().len() >= old(self).spec_chunk().spec_code().len(),
            code_extends(final(self).spec_chunk().spec_code(), old(self).spec_chunk().spec_code()),
            diags_extends(
                final(self).spec_parser().spec_diags(),
                old(self).spec_parser().spec_diags(),
            ),
            old(self).spec_parser().current.typ == TokenType::Print ==> code_ends_with(
                final(self).spec_chunk().spec_code(),
                seq![OpCode::Print],
            ),
            old(self).spec_parser().had_error ==> final(self).spec_parser().had_error,
            final(self).spec_consumed() >= old(self).spec_consumed(),
        decreases old(self).measure(), 9int,
    {
        if self.matches(TokenType::Print) {
            self.print_statement(interner)
        } else if self.matches(TokenType::If) {
            self.if_statement(interner)
        } else if self.matches(TokenType::LBrace) {
            self.begin_scope();
            self.block(interner);
            self.end_scope()
        } else {
            self.expression_statement(interner)
        }
    }

    /// Compiles one declaration: a variable declaration or a statement,
    /// synchronizing to the next statement boundary after an error.
    fn declaration(&mut self, interner: &mut StringInterner)
        requires
            old(self).wf(old(interner)@.len() as int),
            old(interner).wf(),
        ensures
            final(self).wf(final(interner)@.len() as int),
            final(interner).wf(),
            interner_extends(final(interner)@, old(interner)@),
            final(self).spec_scanner().spec_src() == old(self).spec_scanner().spec_src(),
            final(self).spec_depth() == old(self).spec_depth(),
            final(self).measure() <= old(self).measure(),
            old(self).spec_parser().current.typ != TokenType::Eof ==> final(self).measure() < old(self).measure(),
            final(self).spec_chunk().spec_code().len() >= old(self).spec_chunk().spec_code().len(),
            code_extends(final(self).spec_chunk().spec_code(), old(self).spec_chunk().spec_code()),
            diags_extends(
                final(self).spec_parser().spec_diags(),
                old(self).spec_parser().spec_diags(),
            ),
            old(self).spec_parser().current.typ == TokenType::Print ==> code_ends_with(
                final(self).spec_chunk().spec_code(),
                seq![OpCode::Print],
            ),
            old(self).spec_parser().current.typ == TokenType::Var && old(self).spec_depth() == 0
                && old(self).spec_chunk().spec_constants().len() <= 65535 ==> code_ends_with(
                final(self).spec_chunk().spec_code(),
                crate::chunk::spec_encode_idx(
                    (OpCode::DefineGlobal, OpCode::DefineGlobalLong),
                    old(self).spec_chunk().spec_constants().len() as usize,
                ),
            ),
            old(self).spec_parser().had_error ==> final(self).spec_parser().had_error,
            final(self).spec_consumed() >= old(self).spec_consumed(),
        decreases old(self).measure(), 12int,
    {
        if self.matches(TokenType::Var) {
            self.var_declaration(interner)
        } else {
            self.statement(interner)
        }
        if self.parser.panic_mode {
            self.synchronize()
        }
    }

    /// Ends the compiled chunk with a `Return`.
    fn end_compiler(&mut self)
        requires
            old(self).ok(),
        ensures
            final(self).ok(),
            final(self).spec_chunk().spec_code() == old(self).spec_chunk().spec_code().push(
                OpCode::Return,
            ),
            final(self).spec_chunk().spec_constants() == old(self).spec_chunk().spec_constants(),
            final(self).spec_parser() == old(self).spec_parser(),
    {
        self.emit_return()
    }

    /// Compiles the whole source to a chunk. The first component is the
    /// chunk on success and a compile failure otherwise; the second holds
    /// the diagnostics, and is non-empty exactly when compilation failed.
    pub fn compile(self, interner: &mut StringInterner) -> (r: (
        Result<Chunk, InterpretError>,
        Vec<String>,
    ))
        requires
            self.wf(old(interner)@.len() as int),
            old(interner).wf(),
            !self.spec_parser().had_error,
        ensures
            final(interner).wf(),
            interner_extends(final(interner)@, old(interner)@),
            r.0 is Err ==> r.0 == Err::<Chunk, InterpretError>(InterpretError::Compile),
            (r.0 is Err) <==> r.1@.len() > 0,
            r.0 matches Ok(c) ==> c.wf() && c.lines_nondecreasing() && valid_values(
                c.spec_constants(),
                final(interner)@.len() as int,
            ) && c.spec_constants().len() <= 65536 && c.spec_code().len() > 0
                && c.spec_code().last() == OpCode::Return && crate::chunk::code_instr_wf(
                c.spec_code(),
            ) && crate::chunk::const_reads_in_range(
                c.spec_code(),
                c.spec_constants().len() as int,
            ),
            self.spec_scanner().spec_pos() == 0 && self.spec_chunk().spec_code().len() == 0
                && self.spec_chunk().spec_constants().len() == 0 && crate::scanner::ws_end(
                self.spec_scanner().spec_src(),
                0,
            ) == self.spec_scanner().spec_src().len() ==> (r.0 matches Ok(c) && c.spec_code()
                == seq![OpCode::Return] && c.spec_constants().len() == 0 && r.1@.len() == 0
                && final(interner)@ == old(interner)@),
    {
        let ghost blank = self.spec_scanner().spec_pos() == 0 && self.spec_chunk().spec_code().len()
            == 0 && self.spec_chunk().spec_constants().len() == 0 && crate::scanner::ws_end(
            self.spec_scanner().spec_src(),
            0,
        ) == self.spec_scanner().spec_src().len();
        let mut this = self;
        this.advance();
        loop
            invariant
                this.wf(interner@.len() as int),
                interner.wf(),
                interner_extends(interner@, old(interner)@),
                blank ==> this.spec_chunk().spec_code().len() == 0
                    && this.spec_chunk().spec_constants().len() == 0
                    && this.spec_parser().spec_diags().len() == 0
                    && this.spec_parser().current.typ == TokenType::Eof
                    && this.spec_scanner().spec_pos() == this.spec_scanner().spec_src().len()
                    && interner@ == old(interner)@,
            ensures
                this.wf(interner@.len() as int),
                interner.wf(),
                interner_extends(interner@, old(interner)@),
                blank ==> this.spec_chunk().spec_code().len() == 0
                    && this.spec_chunk().spec_constants().len() == 0
                    && this.spec_parser().spec_diags().len() == 0
                    && interner@ == old(interner)@,
            decreases this.measure(),
        {
            if this.matches(TokenType::Eof) {
                break ;
            }
            this.declaration(interner);
        }
        this.end_compiler();
        proof {
            if blank {
                assert(this.spec_chunk().spec_code() =~= seq![OpCode::Return]);
                assert(this.spec_parser().spec_diags().len() == 0);
                assert(!this.spec_parser().had_error);
            }
        }
        let Compiler { parser, compiling_chunk, .. } = this;
        let had_error = parser.had_error;
        let diags = parser.take_diagnostics();
        if had_error {
            (Err(InterpretError::Compile), diags)
        } else {
            (Ok(compiling_chunk), diags)
        }
    }
}

} // verus!
