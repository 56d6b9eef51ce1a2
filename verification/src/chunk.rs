//! The compiled artifact: an opcode stream, a constant pool, and a
//! run-length line table, together with the variable-width read/write
//! helpers shared by the compiler and the virtual machine.

use vstd::prelude::*;

use crate::util::join_u8s_spec;
use crate::value::Value;

verus! {

/// One unit of the code stream: a named opcode, or a raw operand byte that
/// follows its opcode.
#[derive(Debug, Clone, Copy, PartialEq, Eq, Structural)]
pub enum OpCode {
    Constant,
    ConstantLong,
    Nil,
    True,
    False,
    Pop,
    GetLocal,
    GetLocalLong,
    SetLocal,
    SetLocalLong,
    GetGlobal,
    GetGlobalLong,
    DefineGlobal,
    DefineGlobalLong,
    SetGlobal,
    SetGlobalLong,
    Equal,
    Greater,
    Less,
    Add,
    Subtract,
    Multiply,
    Divide,
    Not,
    Negate,
    Print,
    Jump,
    JumpIfFalse,
    Return,
    Byte(u8),
}

impl OpCode {
    /// The raw byte, where this unit is an operand byte.
    pub fn as_byte(&self) -> (r: Option<u8>)
        ensures
            r == (match *self {
                OpCode::Byte(b) => Some(b),
                _ => None::<u8>,
            }),
    {
        match self {
            OpCode::Byte(b) => Some(*b),
            _ => None,
        }
    }
}

/// The operand width of an index-carrying opcode: one byte for the short
/// forms, two big-endian bytes for the long forms.
#[derive(Debug, Clone, Copy, PartialEq, Eq, Structural)]
pub enum OpLen {
    Short,
    Long,
}

/// The operand width that each opcode declares.
pub open spec fn spec_op_len(code: OpCode) -> OpLen {
    match code {
        OpCode::ConstantLong
        | OpCode::DefineGlobalLong
        | OpCode::GetGlobalLong
        | OpCode::SetGlobalLong
        | OpCode::GetLocalLong
        | OpCode::SetLocalLong => OpLen::Long,
        _ => OpLen::Short,
    }
}

impl OpLen {
    pub fn of(code: OpCode) -> (r: OpLen)
        ensures
            r == spec_op_len(code),
    {
        match code {
            OpCode::ConstantLong
            | OpCode::DefineGlobalLong
            | OpCode::GetGlobalLong
            | OpCode::SetGlobalLong
            | OpCode::GetLocalLong
            | OpCode::SetLocalLong => OpLen::Long,
            _ => OpLen::Short,
        }
    }
}

/// One entry of the run-length line table: from code offset `offset`
/// onward, until the next entry, every unit came from source line `line`.
#[derive(Debug, Clone, Copy, PartialEq, Eq, Structural)]
pub struct LineStart {
    pub offset: usize,
    pub line: usize,
}

/// The operand byte at `i`, if `i` is in range and holds one.
pub open spec fn spec_byte_at(code: Seq<OpCode>, i: int) -> Option<u8> {
    if 0 <= i < code.len() {
        match code[i] {
            OpCode::Byte(b) => Some(b),
            _ => None,
        }
    } else {
        None
    }
}

/// The index read at `pos`: one raw byte for a short form, two big-endian
/// raw bytes for a long form; `None` where an expected operand byte is
/// missing.
pub open spec fn spec_decode_idx(code: Seq<OpCode>, pos: int, len: OpLen) -> Option<usize> {
    match len {
        OpLen::Short => match spec_byte_at(code, pos) {
            Some(b) => Some(b as usize),
            None => None,
        },
        OpLen::Long => match (spec_byte_at(code, pos), spec_byte_at(code, pos + 1)) {
            (Some(b1), Some(b2)) => Some(join_u8s_spec(b1, b2) as usize),
            _ => None,
        },
    }
}

/// The code units that carry an index `n`: the short opcode of the pair and
/// one byte where `n` fits one, else the long opcode and two big-endian
/// bytes. Meaningful for `n <= 65535`.
pub open spec fn spec_encode_idx(pair: (OpCode, OpCode), n: usize) -> Seq<OpCode> {
    if n <= 255 {
        seq![pair.0, OpCode::Byte(n as u8)]
    } else {
        seq![pair.1, OpCode::Byte(((n as u16) >> 8) as u8), OpCode::Byte((n as u16) as u8)]
    }
}

/// Reading back an index written in short-or-long form recovers it exactly,
/// for every index up to 65535.
pub proof fn lemma_write_read_round_trip(code: Seq<OpCode>, pair: (OpCode, OpCode), n: usize)
    requires
        n <= 65535,
    ensures
        ({
            let c2 = code + spec_encode_idx(pair, n);
            let form = if n <= 255 {
                OpLen::Short
            } else {
                OpLen::Long
            };
            &&& c2[code.len() as int] == (if n <= 255 {
                pair.0
            } else {
                pair.1
            })
            &&& spec_decode_idx(c2, code.len() as int + 1, form) == Some(n)
        }),
{
    let c2 = code + spec_encode_idx(pair, n);
    if n <= 255 {
        assert(spec_byte_at(c2, code.len() as int + 1) == Some(n as u8));
    } else {
        let x = n as u16;
        crate::util::lemma_split_join(x);
        assert(spec_byte_at(c2, code.len() as int + 1) == Some(((n as u16) >> 8) as u8));
        assert(spec_byte_at(c2, code.len() as int + 2) == Some((n as u16) as u8));
        assert(join_u8s_spec((x >> 8) as u8, x as u8) == x);
    }
}

/// How many raw operand bytes each opcode carries, per the bytecode
/// table: one for the short index forms, two for the long forms and the
/// jumps, none otherwise.
pub open spec fn spec_operand_count(op: OpCode) -> int {
    match op {
        OpCode::Constant | OpCode::GetLocal | OpCode::SetLocal | OpCode::GetGlobal
            | OpCode::SetGlobal | OpCode::DefineGlobal => 1,
        OpCode::ConstantLong | OpCode::GetLocalLong | OpCode::SetLocalLong
            | OpCode::GetGlobalLong | OpCode::SetGlobalLong | OpCode::DefineGlobalLong
            | OpCode::Jump | OpCode::JumpIfFalse => 2,
        _ => 0,
    }
}

/// From position `i` to the end, the code parses as whole instructions: a
/// named opcode — never a raw byte — followed by exactly its declared
/// operand bytes, and so on, ending exactly at the end of the code.
pub open spec fn code_instr_wf_from(code: Seq<OpCode>, i: int) -> bool
    decreases code.len() - i,
{
    if i < 0 {
        false
    } else if i >= code.len() {
        i == code.len()
    } else {
        &&& !(code[i] is Byte)
        &&& i + 1 + spec_operand_count(code[i]) <= code.len()
        &&& (forall|j: int| i < j <= i + spec_operand_count(code[i]) ==> code[j] is Byte)
        &&& code_instr_wf_from(code, i + 1 + spec_operand_count(code[i]))
    }
}

/// The whole code stream parses as whole instructions.
pub open spec fn code_instr_wf(code: Seq<OpCode>) -> bool {
    code_instr_wf_from(code, 0)
}

proof fn lemma_instr_wf_from_shift(c: Seq<OpCode>, s: Seq<OpCode>, k: int)
    requires
        0 <= k <= s.len(),
        code_instr_wf_from(s, k),
    ensures
        code_instr_wf_from(c + s, c.len() + k),
    decreases s.len() - k,
{
    if k < s.len() {
        assert((c + s)[c.len() + k] == s[k]);
        assert forall|j: int|
            c.len() + k < j <= c.len() + k + spec_operand_count(s[k]) implies (c + s)[j]
            is Byte by {
            assert((c + s)[j] == s[j - c.len()]);
        };
        lemma_instr_wf_from_shift(c, s, k + 1 + spec_operand_count(s[k]));
    }
}

proof fn lemma_instr_wf_from_append(c: Seq<OpCode>, s: Seq<OpCode>, i: int)
    requires
        0 <= i <= c.len(),
        code_instr_wf_from(c, i),
        code_instr_wf(s),
    ensures
        code_instr_wf_from(c + s, i),
    decreases c.len() - i,
{
    if i == c.len() {
        lemma_instr_wf_from_shift(c, s, 0);
    } else {
        assert((c + s)[i] == c[i]);
        assert forall|j: int|
            i < j <= i + spec_operand_count(c[i]) implies (c + s)[j] is Byte by {
            assert((c + s)[j] == c[j]);
        };
        lemma_instr_wf_from_append(c, s, i + 1 + spec_operand_count(c[i]));
    }
}

/// Whole instructions appended to whole instructions parse as whole
/// instructions.
pub proof fn lemma_instr_wf_append(c: Seq<OpCode>, s: Seq<OpCode>)
    requires
        code_instr_wf(c),
        code_instr_wf(s),
    ensures
        code_instr_wf(c + s),
{
    lemma_instr_wf_from_append(c, s, 0);
}

proof fn lemma_instr_wf_from_patch(c: Seq<OpCode>, i: int, b: u8, k: int)
    requires
        0 <= k,
        code_instr_wf_from(c, k),
        0 <= i < c.len(),
        c[i] is Byte,
    ensures
        code_instr_wf_from(c.update(i, OpCode::Byte(b)), k),
    decreases c.len() - k,
{
    let c2 = c.update(i, OpCode::Byte(b));
    if k < c.len() {
        assert(k != i);
        assert(c2[k] == c[k]);
        assert forall|j: int| k < j <= k + spec_operand_count(c[k]) implies c2[j] is Byte by {
            if j != i {
                assert(c2[j] == c[j]);
            }
        };
        lemma_instr_wf_from_patch(c, i, b, k + 1 + spec_operand_count(c[k]));
    }
}

/// Overwriting a raw operand byte with a raw operand byte keeps the code
/// parsing as whole instructions.
pub proof fn lemma_instr_wf_patch(c: Seq<OpCode>, i: int, b: u8)
    requires
        code_instr_wf(c),
        0 <= i < c.len(),
        c[i] is Byte,
    ensures
        code_instr_wf(c.update(i, OpCode::Byte(b))),
{
    lemma_instr_wf_from_patch(c, i, b, 0);
}

/// The opcodes that read a constant-pool index from their operand bytes.
pub open spec fn reads_constant(op: OpCode) -> bool {
    match op {
        OpCode::Constant | OpCode::ConstantLong | OpCode::GetGlobal | OpCode::GetGlobalLong
            | OpCode::SetGlobal | OpCode::SetGlobalLong | OpCode::DefineGlobal
            | OpCode::DefineGlobalLong => true,
        _ => false,
    }
}

/// From position `i` on, every constant-reading instruction's operand
/// decodes to an index below `clen`.
pub open spec fn const_reads_in_range_from(code: Seq<OpCode>, i: int, clen: int) -> bool
    decreases code.len() - i,
{
    if i < 0 {
        false
    } else if i >= code.len() {
        true
    } else {
        &&& i + 1 + spec_operand_count(code[i]) <= code.len()
        &&& (reads_constant(code[i]) ==> (spec_decode_idx(code, i + 1, spec_op_len(code[i]))
            matches Some(n) && n < clen))
        &&& const_reads_in_range_from(code, i + 1 + spec_operand_count(code[i]), clen)
    }
}

/// Every constant-reading operand in the code indexes below `clen`.
pub open spec fn const_reads_in_range(code: Seq<OpCode>, clen: int) -> bool {
    const_reads_in_range_from(code, 0, clen)
}

/// A larger pool keeps every index in range.
pub proof fn lemma_const_range_grow(code: Seq<OpCode>, a: int, b: int)
    requires
        const_reads_in_range(code, a),
        a <= b,
    ensures
        const_reads_in_range(code, b),
{
    lemma_const_range_grow_from(code, 0, a, b);
}

proof fn lemma_const_range_grow_from(code: Seq<OpCode>, i: int, a: int, b: int)
    requires
        const_reads_in_range_from(code, i, a),
        a <= b,
    ensures
        const_reads_in_range_from(code, i, b),
    decreases code.len() - i,
{
    if 0 <= i < code.len() {
        lemma_const_range_grow_from(code, i + 1 + spec_operand_count(code[i]), a, b);
    }
}

proof fn lemma_const_range_shift(c: Seq<OpCode>, s: Seq<OpCode>, k: int, clen: int)
    requires
        0 <= k <= s.len(),
        code_instr_wf_from(s, k),
        const_reads_in_range_from(s, k, clen),
    ensures
        const_reads_in_range_from(c + s, c.len() + k, clen),
    decreases s.len() - k,
{
    if k < s.len() {
        assert((c + s)[c.len() + k] == s[k]);
        if reads_constant(s[k]) {
            assert((c + s)[c.len() + k + 1] == s[k + 1]);
            if spec_op_len(s[k]) is Long {
                assert((c + s)[c.len() + k + 2] == s[k + 2]);
            }
        }
        lemma_const_range_shift(c, s, k + 1 + spec_operand_count(s[k]), clen);
    }
}

proof fn lemma_const_range_append_from(c: Seq<OpCode>, s: Seq<OpCode>, i: int, clen: int)
    requires
        0 <= i <= c.len(),
        code_instr_wf_from(c, i),
        const_reads_in_range_from(c, i, clen),
        code_instr_wf(s),
        const_reads_in_range(s, clen),
    ensures
        const_reads_in_range_from(c + s, i, clen),
    decreases c.len() - i,
{
    if i == c.len() {
        lemma_const_range_shift(c, s, 0, clen);
    } else {
        assert((c + s)[i] == c[i]);
        if reads_constant(c[i]) {
            assert((c + s)[i + 1] == c[i + 1]);
            if spec_op_len(c[i]) is Long {
                assert((c + s)[i + 2] == c[i + 2]);
            }
        }
        lemma_const_range_append_from(c, s, i + 1 + spec_operand_count(c[i]), clen);
    }
}

/// Appending instructions whose constant reads are in range keeps all
/// constant reads in range.
pub proof fn lemma_const_range_append(c: Seq<OpCode>, s: Seq<OpCode>, clen: int)
    requires
        code_instr_wf(c),
        const_reads_in_range(c, clen),
        code_instr_wf(s),
        const_reads_in_range(s, clen),
    ensures
        const_reads_in_range(c + s, clen),
{
    lemma_const_range_append_from(c, s, 0, clen);
}

/// Whether the unit just before `off` (or two before, across one operand
/// byte) is a jump opcode: then `off` is a jump operand, not a constant
/// read.
pub open spec fn is_jump_operand(code: Seq<OpCode>, off: int) -> bool {
    ||| (off >= 1 && (code[off - 1] == OpCode::Jump || code[off - 1] == OpCode::JumpIfFalse))
    ||| (off >= 2 && (code[off - 2] == OpCode::Jump || code[off - 2] == OpCode::JumpIfFalse)
        && code[off - 1] is Byte)
}

proof fn lemma_const_range_patch_from(code: Seq<OpCode>, off: int, b: u8, k: int, clen: int)
    requires
        0 <= k,
        code_instr_wf_from(code, k),
        const_reads_in_range_from(code, k, clen),
        0 <= off < code.len(),
        code[off] is Byte,
        is_jump_operand(code, off),
    ensures
        const_reads_in_range_from(code.update(off, OpCode::Byte(b)), k, clen),
    decreases code.len() - k,
{
    let c2 = code.update(off, OpCode::Byte(b));
    if k < code.len() {
        assert(k != off);
        assert(c2[k] == code[k]);
        if reads_constant(code[k]) {
            assert(code[k + 1] is Byte);
            assert(k + 1 != off) by {
                if k + 1 == off {
                    assert(code[off - 1] == code[k]);
                }
            };
            if spec_op_len(code[k]) is Long {
                assert(code[k + 2] is Byte);
                assert(k + 2 != off) by {
                    if k + 2 == off {
                        assert(code[off - 2] == code[k]);
                        assert(code[off - 1] == code[k + 1]);
                    }
                };
                assert(c2[k + 1] == code[k + 1]);
                assert(c2[k + 2] == code[k + 2]);
            } else {
                assert(c2[k + 1] == code[k + 1]);
            }
        }
        lemma_const_range_patch_from(code, off, b, k + 1 + spec_operand_count(code[k]), clen);
    }
}

/// Patching a jump operand byte leaves every constant read in range.
pub proof fn lemma_const_range_patch(code: Seq<OpCode>, off: int, b: u8, clen: int)
    requires
        code_instr_wf(code),
        const_reads_in_range(code, clen),
        0 <= off < code.len(),
        code[off] is Byte,
        is_jump_operand(code, off),
    ensures
        const_reads_in_range(code.update(off, OpCode::Byte(b)), clen),
{
    lemma_const_range_patch_from(code, off, b, 0, clen);
}

/// A variable-width encoding is, on its own, one whole instruction whose
/// constant read (if its opcodes read one) is the encoded index.
pub proof fn lemma_encode_standalone(pair: (OpCode, OpCode), n: usize, clen: int)
    requires
        n <= 65535,
        !(pair.0 is Byte),
        !(pair.1 is Byte),
        spec_operand_count(pair.0) == 1,
        spec_operand_count(pair.1) == 2,
        spec_op_len(pair.0) == OpLen::Short,
        spec_op_len(pair.1) == OpLen::Long,
        reads_constant(pair.0) ==> n < clen,
        reads_constant(pair.1) ==> n < clen,
    ensures
        code_instr_wf(spec_encode_idx(pair, n)),
        const_reads_in_range(spec_encode_idx(pair, n), clen),
{
    let enc = spec_encode_idx(pair, n);
    if n <= 255 {
        assert(spec_byte_at(enc, 1) == Some(n as u8));
        assert(code_instr_wf_from(enc, enc.len() as int));
        assert(const_reads_in_range_from(enc, enc.len() as int, clen));
    } else {
        let x = n as u16;
        crate::util::lemma_split_join(x);
        assert(spec_byte_at(enc, 1) == Some((x >> 8) as u8));
        assert(spec_byte_at(enc, 2) == Some(x as u8));
        assert(spec_decode_idx(enc, 1, OpLen::Long) == Some(n));
        assert(code_instr_wf_from(enc, enc.len() as int));
        assert(const_reads_in_range_from(enc, enc.len() as int, clen));
    }
}

/// The line recorded for offset `off`: that of the last entry whose
/// starting offset does not exceed `off`.
pub open spec fn spec_line_for(lines: Seq<LineStart>, off: int) -> usize
    decreases lines.len(),
{
    if lines.len() == 0 {
        0
    } else if lines.last().offset <= off {
        lines.last().line
    } else {
        spec_line_for(lines.drop_last(), off)
    }
}

/// A compiled translation unit.
#[derive(Debug)]
pub struct Chunk {
    code: Vec<OpCode>,
    constants: Vec<Value>,
    lines: Vec<LineStart>,
}

impl Chunk {
    pub closed spec fn spec_code(&self) -> Seq<OpCode> {
        self.code@
    }

    pub closed spec fn spec_constants(&self) -> Seq<Value> {
        self.constants@
    }

    pub closed spec fn spec_lines(&self) -> Seq<LineStart> {
        self.lines@
    }

    /// The line table covers the code from offset 0 on, with strictly
    /// increasing starting offsets, each inside the code; it is non-empty
    /// exactly when the code is.
    pub open spec fn wf(&self) -> bool {
        &&& (self.spec_lines().len() > 0 <==> self.spec_code().len() > 0)
        &&& self.spec_lines().len() > 0 ==> self.spec_lines()[0].offset == 0
        &&& forall|i: int, j: int|
            0 <= i < j < self.spec_lines().len() ==> self.spec_lines()[i].offset
                < self.spec_lines()[j].offset
        &&& forall|i: int|
            0 <= i < self.spec_lines().len() ==> self.spec_lines()[i].offset
                < self.spec_code().len()
    }

    /// The recorded lines never decrease along the code. This holds of
    /// every chunk the compiler emits, since source lines only advance.
    pub open spec fn lines_nondecreasing(&self) -> bool {
        forall|i: int, j: int|
            0 <= i <= j < self.spec_lines().len() ==> self.spec_lines()[i].line
                <= self.spec_lines()[j].line
    }

    pub fn new() -> (r: Self)
        ensures
            r.wf(),
            r.lines_nondecreasing(),
            r.spec_code().len() == 0,
            r.spec_constants().len() == 0,
            r.spec_lines().len() == 0,
    {
        Chunk { code: Vec::new(), constants: Vec::new(), lines: Vec::new() }
    }

    /// Appends one code unit; opens a new line-table entry when `line`
    /// differs from the last entry's line.
    pub fn write_chunk(&mut self, op: OpCode, line: usize)
        requires
            old(self).wf(),
        ensures
            final(self).wf(),
            final(self).spec_code() == old(self).spec_code().push(op),
            final(self).spec_constants() == old(self).spec_constants(),
            old(self).spec_lines().len() > 0 && old(self).spec_lines().last().line == line
                ==> final(self).spec_lines() == old(self).spec_lines(),
            !(old(self).spec_lines().len() > 0 && old(self).spec_lines().last().line == line)
                ==> final(self).spec_lines() == old(self).spec_lines().push(
                (LineStart { offset: old(self).spec_code().len() as usize, line }),
            ),
            old(self).lines_nondecreasing() && (old(self).spec_lines().len() == 0 || old(self).spec_lines().last().line <= line) ==> final(self).lines_nondecreasing(),
    {
        let offset = self.code.len();
        self.code.push(op);
        let needs_entry = match self.lines.last() {
            Some(l) => l.line != line,
            None => true,
        };
        if needs_entry {
            self.lines.push(LineStart { offset, line });
        }
    }

    /// Writes `byte` as an index: the short form for values up to 255, the
    /// long big-endian form up to 65535, and `None` (writing nothing)
    /// beyond that.
    pub fn write_maybe_long(&mut self, pair: (OpCode, OpCode), byte: usize, line: usize) -> (r:
        Option<usize>)
        requires
            old(self).wf(),
        ensures
            final(self).wf(),
            final(self).spec_constants() == old(self).spec_constants(),
            byte <= 65535 ==> r == Some(byte) && final(self).spec_code() == old(self).spec_code()
                + spec_encode_idx(pair, byte),
            byte <= 65535 && old(self).spec_lines().len() > 0 && old(
                self,
            ).spec_lines().last().line == line ==> final(self).spec_lines() == old(
                self,
            ).spec_lines(),
            byte <= 65535 && !(old(self).spec_lines().len() > 0 && old(
                self,
            ).spec_lines().last().line == line) ==> final(self).spec_lines() == old(
                self,
            ).spec_lines().push(
                (LineStart { offset: old(self).spec_code().len() as usize, line }),
            ),
            byte > 65535 ==> r is None && final(self).spec_code() == old(self).spec_code() && final(self).spec_lines() == old(self).spec_lines(),
            old(self).lines_nondecreasing() && (old(self).spec_lines().len() == 0 || old(self).spec_lines().last().line <= line) ==> final(self).lines_nondecreasing(),
    {
        if byte <= 255 {
            self.write_chunk(pair.0, line);
            self.write_chunk(OpCode::Byte(byte as u8), line);
            proof {
                assert(self.spec_code() =~= old(self).spec_code() + spec_encode_idx(pair, byte));
            }
        } else if byte <= 65535 {
            let (b1, b2) = crate::util::split_u16(byte as u16);
            self.write_chunk(pair.1, line);
            self.write_chunk(OpCode::Byte(b1), line);
            self.write_chunk(OpCode::Byte(b2), line);
            proof {
                assert(self.spec_code() =~= old(self).spec_code() + spec_encode_idx(pair, byte));
            }
        } else {
            return None;
        }
        Some(byte)
    }

    /// The unit at `offset`, if in range.
    pub fn get_op(&self, offset: usize) -> (r: Option<OpCode>)
        ensures
            offset < self.spec_code().len() ==> r == Some(self.spec_code()[offset as int]),
            offset >= self.spec_code().len() ==> r is None,
    {
        if offset < self.code.len() {
            Some(self.code[offset])
        } else {
            None
        }
    }

    /// The raw operand byte at `offset`, if in range and a raw byte.
    pub fn get_byte(&self, offset: usize) -> (r: Option<u8>)
        ensures
            r == spec_byte_at(self.spec_code(), offset as int),
    {
        match self.get_op(offset) {
            Some(op) => op.as_byte(),
            None => None,
        }
    }

    /// Overwrites the raw operand byte at `offset`, for jump patching;
    /// reports whether `offset` held a raw byte.
    pub fn patch_byte(&mut self, offset: usize, b: u8) -> (r: bool)
        ensures
            final(self).spec_constants() == old(self).spec_constants(),
            final(self).spec_lines() == old(self).spec_lines(),
            old(self).wf() ==> final(self).wf(),
            spec_byte_at(old(self).spec_code(), offset as int) is Some ==> r && final(self).spec_code() == old(self).spec_code().update(offset as int, OpCode::Byte(b)),
            spec_byte_at(old(self).spec_code(), offset as int) is None ==> !r && final(self).spec_code() == old(self).spec_code(),
    {
        if offset < self.code.len() {
            match self.code[offset] {
                OpCode::Byte(_) => {
                    self.code.set(offset, OpCode::Byte(b));
                    true
                },
                _ => false,
            }
        } else {
            false
        }
    }

    /// Appends a constant and returns its index in the pool.
    pub fn add_constant(&mut self, value: Value) -> (r: usize)
        ensures
            final(self).spec_constants() == old(self).spec_constants().push(value),
            r == old(self).spec_constants().len(),
            final(self).spec_code() == old(self).spec_code(),
            final(self).spec_lines() == old(self).spec_lines(),
            old(self).wf() ==> final(self).wf(),
    {
        self.constants.push(value);
        self.constants.len() - 1
    }

    /// The constant at `offset`, if in range.
    pub fn get_constant(&self, offset: usize) -> (r: Option<&Value>)
        ensures
            offset < self.spec_constants().len() ==> r == Some(
                &self.spec_constants()[offset as int],
            ),
            offset >= self.spec_constants().len() ==> r is None,
    {
        if offset < self.constants.len() {
            Some(&self.constants[offset])
        } else {
            None
        }
    }

    /// The source line of the unit at `instruction`: that of the last line
    /// table entry starting at or before it.
    pub fn get_line(&self, instruction: usize) -> (r: usize)
        requires
            self.wf(),
            self.spec_code().len() > 0,
        ensures
            r == spec_line_for(self.spec_lines(), instruction as int),
    {
        let mut i = self.lines.len() - 1;
        proof {
            assert(self.spec_lines().take(self.spec_lines().len() as int) =~= self.spec_lines());
        }
        loop
            invariant
                self.wf(),
                self.spec_lines().len() > 0,
                i < self.spec_lines().len(),
                spec_line_for(self.spec_lines(), instruction as int) == spec_line_for(
                    self.spec_lines().take(i + 1),
                    instruction as int,
                ),
            decreases i,
        {
            proof {
                assert(self.spec_lines().take(i + 1).last() == self.spec_lines()[i as int]);
            }
            if self.lines[i].offset <= instruction {
                return self.lines[i].line;
            }
            proof {
                assert(self.spec_lines().take(i + 1).drop_last() =~= self.spec_lines().take(
                    i as int,
                ));
            }
            i = i - 1;
        }
    }

    /// The code always fits the machine: its length is a vector's.
    pub proof fn lemma_code_len_bound(&self)
        ensures
            self.spec_code().len() <= usize::MAX as int,
    {
        vstd::std_specs::vec::axiom_spec_len(&self.code);
        assert(vstd::std_specs::vec::spec_vec_len(&self.code) == self.code@.len());
    }

    /// The constant pool always fits the machine: its length is a vector's.
    pub proof fn lemma_constants_len_bound(&self)
        ensures
            self.spec_constants().len() <= usize::MAX as int,
    {
        vstd::std_specs::vec::axiom_spec_len(&self.constants);
        assert(vstd::std_specs::vec::spec_vec_len(&self.constants) == self.constants@.len());
    }

    /// The number of code units written so far.
    pub fn len(&self) -> (r: usize)
        ensures
            r == self.spec_code().len(),
    {
        self.code.len()
    }
}

/// The result of `spec_line_for` is the line of one of the table's entries.
proof fn lemma_line_for_is_some_entry(lines: Seq<LineStart>, off: int)
    requires
        lines.len() > 0,
        lines[0].offset <= off,
    ensures
        exists|k: int|
            0 <= k < lines.len() && lines[k].offset <= off && spec_line_for(lines, off)
                == lines[k].line,
    decreases lines.len(),
{
    if lines.last().offset <= off {
        assert(spec_line_for(lines, off) == lines[lines.len() - 1].line);
    } else {
        lemma_line_for_is_some_entry(lines.drop_last(), off);
        let k = choose|k: int|
            0 <= k < lines.drop_last().len() && lines.drop_last()[k].offset <= off && spec_line_for(
                lines.drop_last(),
                off,
            ) == lines.drop_last()[k].line;
        assert(lines[k] == lines.drop_last()[k]);
    }
}

/// For a longer reach the chosen entry can only move later in the table.
proof fn lemma_line_for_last_entry(lines: Seq<LineStart>, off: int, k: int)
    requires
        0 <= k < lines.len(),
        lines[k].offset <= off,
        forall|i: int, j: int| 0 <= i < j < lines.len() ==> lines[i].offset < lines[j].offset,
        forall|i: int, j: int| 0 <= i <= j < lines.len() ==> lines[i].line <= lines[j].line,
    ensures
        spec_line_for(lines, off) >= lines[k].line,
    decreases lines.len(),
{
    if lines.last().offset <= off {
        assert(lines[k].line <= lines[lines.len() - 1].line);
    } else {
        assert(k < lines.len() - 1);
        lemma_line_for_last_entry(lines.drop_last(), off, k);
    }
}

/// The recovered line is monotonically non-decreasing in the code offset:
/// for offsets `i <= j`, `get_line(i) <= get_line(j)`. This holds of every
/// chunk whose line table is well formed and whose recorded lines never
/// decrease, as is the case for compiler output.
pub proof fn lemma_get_line_monotone(c: Chunk, i: int, j: int)
    requires
        c.wf(),
        c.lines_nondecreasing(),
        c.spec_code().len() > 0,
        0 <= i <= j,
    ensures
        spec_line_for(c.spec_lines(), i) <= spec_line_for(c.spec_lines(), j),
{
    let lines = c.spec_lines();
    lemma_line_for_is_some_entry(lines, i);
    let k = choose|k: int|
        0 <= k < lines.len() && lines[k].offset <= i && spec_line_for(lines, i) == lines[k].line;
    lemma_line_for_last_entry(lines, j, k);
}

} // verus!
