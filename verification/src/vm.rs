//! The virtual machine: fetch, decode and execute opcodes against a value
//! stack, a globals table and the shared string interner. One instruction
//! step is specified by [`step_spec`], a pure function on the machine
//! model; the executable step is proved to follow it exactly.
//!
//! The machine never prints: output lines and error lines are collected in
//! buffers that the caller drains, in the order the dispatch loop produced
//! them. Where the bytecode itself is malformed (a truncated operand, an
//! operand byte reached as an opcode, a slot outside the stack), the run
//! stops with a `Compile` failure, the loud analogue of a bug.

use vstd::prelude::*;
use vstd::string::StringExecFns;

use crate::chunk::{spec_decode_idx, spec_encode_idx, spec_line_for, spec_op_len, Chunk,
    LineStart, OpCode, OpLen};
use crate::compiler::Compiler;
use crate::num::{add_bits, div_bits, gt_bits, lt_bits, mul_bits, neg_bits, num_add, num_div,
    num_gt, num_lt, num_mul, num_neg, num_sub, num_text_of, num_to_text, sub_bits};
use crate::object::{interner_extends, spec_intern, IString, StringInterner};
use crate::stack::Stack;
use crate::text::{dec_digits, usize_to_string};
use crate::value::{is_falsey_spec, valid_value, valid_values, value_eq_spec, Value};

verus! {

/// The two failure outcomes of interpreting a source text.
#[derive(Debug, Clone, Copy, PartialEq, Eq, Structural)]
pub enum InterpretError {
    Compile,
    Runtime,
}

/// The globals table: each interned name maps to at most one value.
#[derive(Debug)]
pub struct Globals {
    entries: Vec<(IString, Value)>,
}

impl View for Globals {
    type V = Map<int, Value>;

    closed spec fn view(&self) -> Map<int, Value> {
        Map::new(
            |k: int| exists|i: int| 0 <= i < self.entries@.len() && self.entries@[i].0.0 == k,
            |k: int|
                self.entries@[choose|i: int|
                    0 <= i < self.entries@.len() && self.entries@[i].0.0 == k].1,
        )
    }
}

impl Globals {
    /// Each name occurs at most once.
    pub closed spec fn wf(&self) -> bool {
        forall|i: int, j: int|
            0 <= i < j < self.entries@.len() ==> self.entries@[i].0.0 != self.entries@[j].0.0
    }

    pub fn new() -> (r: Self)
        ensures
            r.wf(),
            r@ =~= Map::<int, Value>::empty(),
    {
        let r = Globals { entries: Vec::new() };
        proof {
            assert(r@ =~= Map::<int, Value>::empty());
        }
        r
    }

    /// The value bound to the name, if any.
    pub fn get(&self, name: IString) -> (r: Option<Value>)
        requires
            self.wf(),
        ensures
            self@.dom().contains(name.0 as int) ==> r == Some(self@[name.0 as int]),
            !self@.dom().contains(name.0 as int) ==> r is None,
    {
        let n = self.entries.len();
        for i in 0..n
            invariant
                n == self.entries@.len(),
                self.wf(),
                forall|j: int| 0 <= j < i ==> self.entries@[j].0.0 != name.0,
        {
            if self.entries[i].0.0 == name.0 {
                proof {
                    assert(self@.dom().contains(name.0 as int));
                    let k = choose|k: int|
                        0 <= k < self.entries@.len() && self.entries@[k].0.0 == name.0 as int;
                    assert(k == i);
                }
                return Some(self.entries[i].1);
            }
        }
        proof {
            assert(!self@.dom().contains(name.0 as int));
        }
        None
    }

    /// Binds the name to the value, replacing any earlier binding.
    pub fn insert(&mut self, name: IString, value: Value)
        requires
            old(self).wf(),
        ensures
            final(self).wf(),
            final(self)@ =~= old(self)@.insert(name.0 as int, value),
    {
        let n = self.entries.len();
        for i in 0..n
            invariant
                n == self.entries@.len(),
                self.wf(),
                *self == *old(self),
                forall|j: int| 0 <= j < i ==> self.entries@[j].0.0 != name.0,
        {
            if self.entries[i].0.0 == name.0 {
                self.entries.set(i, (name, value));
                proof {
                    lemma_globals_insert_at(*old(self), *self, i as int, name, value);
                }
                return ;
            }
        }
        self.entries.push((name, value));
        proof {
            lemma_globals_insert_new(*old(self), *self, name, value);
        }
    }
}

/// Every key occurs at one position only.
proof fn lemma_globals_key_unique(g: Globals, a: int, b: int)
    requires
        g.wf(),
        0 <= a < g.entries@.len(),
        0 <= b < g.entries@.len(),
        g.entries@[a].0.0 == g.entries@[b].0.0,
    ensures
        a == b,
{
    if a < b {
        assert(g.entries@[a].0.0 != g.entries@[b].0.0);
    }
    if b < a {
        assert(g.entries@[b].0.0 != g.entries@[a].0.0);
    }
}

/// Overwriting the entry that holds `name` realises `Map::insert`.
proof fn lemma_globals_insert_at(g0: Globals, g1: Globals, i: int, name: IString, value: Value)
    requires
        g0.wf(),
        0 <= i < g0.entries@.len(),
        g0.entries@[i].0.0 == name.0,
        g1.entries@ == g0.entries@.update(i, (name, value)),
    ensures
        g1.wf(),
        g1@ =~= g0@.insert(name.0 as int, value),
{
    assert forall|a: int, b: int| 0 <= a < b < g1.entries@.len() implies g1.entries@[a].0.0
        != g1.entries@[b].0.0 by {
        if a != i && b != i {
            assert(g1.entries@[a] == g0.entries@[a]);
            assert(g1.entries@[b] == g0.entries@[b]);
            assert(g0.entries@[a].0.0 != g0.entries@[b].0.0);
        } else if a == i {
            assert(g1.entries@[a].0.0 == g0.entries@[a].0.0);
            assert(g1.entries@[b] == g0.entries@[b]);
            assert(g0.entries@[a].0.0 != g0.entries@[b].0.0);
        } else {
            assert(g1.entries@[b].0.0 == g0.entries@[b].0.0);
            assert(g1.entries@[a] == g0.entries@[a]);
            assert(g0.entries@[a].0.0 != g0.entries@[b].0.0);
        }
    };
    assert forall|k: int| #[trigger] g0@.insert(name.0 as int, value).dom().contains(
        k,
    ) implies g1@.dom().contains(k) by {
        if k == name.0 as int {
            assert(g1.entries@[i].0.0 == k);
        } else {
            let j = choose|j: int| 0 <= j < g0.entries@.len() && g0.entries@[j].0.0 == k;
            assert(j != i);
            assert(g1.entries@[j].0.0 == k);
        }
    };
    assert forall|k: int| #[trigger] g1@.dom().contains(k) implies g0@.insert(
        name.0 as int,
        value,
    ).dom().contains(k) && g1@[k] == g0@.insert(name.0 as int, value)[k] by {
        let j = choose|j: int| 0 <= j < g1.entries@.len() && g1.entries@[j].0.0 == k;
        if k == name.0 as int {
            assert forall|a: int, b: int|
                0 <= a < g1.entries@.len() && 0 <= b < g1.entries@.len() && g1.entries@[a].0.0
                    == g1.entries@[b].0.0 implies a == b by {
                lemma_globals_key_unique_post(g1, a, b);
            };
            assert(g1.entries@[i].0.0 == k);
            assert(j == i);
            assert(g1@[k] == g1.entries@[j].1);
            assert(g1.entries@[j].1 == value);
        } else {
            assert(j != i);
            assert(g1.entries@[j] == g0.entries@[j]);
            assert(g0.entries@[j].0.0 == k);
            assert(g0@.dom().contains(k));
            let j0 = choose|j0: int| 0 <= j0 < g0.entries@.len() && g0.entries@[j0].0.0 == k;
            lemma_globals_key_unique(g0, j0, j);
            assert(g1@[k] == g1.entries@[j].1);
            assert(g0@[k] == g0.entries@[j0].1);
        }
    };
    assert(g1@ =~= g0@.insert(name.0 as int, value));
}

/// As `lemma_globals_key_unique`, for a table already shown well formed.
proof fn lemma_globals_key_unique_post(g: Globals, a: int, b: int)
    requires
        forall|x: int, y: int|
            0 <= x < y < g.entries@.len() ==> g.entries@[x].0.0 != g.entries@[y].0.0,
        0 <= a < g.entries@.len(),
        0 <= b < g.entries@.len(),
        g.entries@[a].0.0 == g.entries@[b].0.0,
    ensures
        a == b,
{
    if a < b {
        assert(g.entries@[a].0.0 != g.entries@[b].0.0);
    }
    if b < a {
        assert(g.entries@[b].0.0 != g.entries@[a].0.0);
    }
}

/// Appending an entry for a fresh name realises `Map::insert`.
proof fn lemma_globals_insert_new(g0: Globals, g1: Globals, name: IString, value: Value)
    requires
        g0.wf(),
        forall|j: int| 0 <= j < g0.entries@.len() ==> g0.entries@[j].0.0 != name.0,
        g1.entries@ == g0.entries@.push((name, value)),
    ensures
        g1.wf(),
        g1@ =~= g0@.insert(name.0 as int, value),
{
    let last = g0.entries@.len() as int;
    assert(g1.entries@[last] == (name, value));
    assert forall|a: int, b: int| 0 <= a < b < g1.entries@.len() implies g1.entries@[a].0.0
        != g1.entries@[b].0.0 by {
        assert(g1.entries@[a] == g0.entries@[a]);
        if b < last {
            assert(g1.entries@[b] == g0.entries@[b]);
            assert(g0.entries@[a].0.0 != g0.entries@[b].0.0);
        } else {
            assert(g0.entries@[a].0.0 != name.0);
        }
    };
    assert forall|k: int| #[trigger] g0@.insert(name.0 as int, value).dom().contains(
        k,
    ) implies g1@.dom().contains(k) by {
        if k == name.0 as int {
            assert(g1.entries@[last].0.0 == k);
        } else {
            let j = choose|j: int| 0 <= j < g0.entries@.len() && g0.entries@[j].0.0 == k;
            assert(g1.entries@[j].0.0 == k);
        }
    };
    assert forall|k: int| #[trigger] g1@.dom().contains(k) implies g0@.insert(
        name.0 as int,
        value,
    ).dom().contains(k) && g1@[k] == g0@.insert(name.0 as int, value)[k] by {
        let j = choose|j: int| 0 <= j < g1.entries@.len() && g1.entries@[j].0.0 == k;
        if k == name.0 as int {
            if j < last {
                assert(g1.entries@[j] == g0.entries@[j]);
                assert(g0.entries@[j].0.0 == k);
            }
            assert(j == last);
            assert(g1@[k] == g1.entries@[j].1);
            assert(g1.entries@[j].1 == value);
        } else {
            if j == last {
                assert(g1.entries@[j].0.0 == name.0);
            }
            assert(j < last);
            assert(g1.entries@[j] == g0.entries@[j]);
            assert(g0.entries@[j].0.0 == k);
            assert(g0@.dom().contains(k));
            let j0 = choose|j0: int| 0 <= j0 < g0.entries@.len() && g0.entries@[j0].0.0 == k;
            lemma_globals_key_unique(g0, j0, j);
            assert(g1@[k] == g1.entries@[j].1);
            assert(g0@[k] == g0.entries@[j0].1);
        }
    };
    assert(g1@ =~= g0@.insert(name.0 as int, value));
}

/// The machine as the specification sees it: the chunk's parts, the
/// instruction pointer, the value stack, the globals, the interned
/// strings, and the two output streams.
#[verifier::ext_equal]
pub ghost struct VmModel {
    pub code: Seq<OpCode>,
    pub consts: Seq<Value>,
    pub lines: Seq<LineStart>,
    pub ip: int,
    pub stack: Seq<Value>,
    pub globals: Map<int, Value>,
    pub strings: Seq<Seq<char>>,
    pub out: Seq<Seq<char>>,
    pub errs: Seq<Seq<char>>,
}

/// How a value prints: `nil`, `true` and `false` literally, numbers in
/// their decimal text, strings with surrounding quotes.
pub open spec fn value_text(v: Value, strings: Seq<Seq<char>>) -> Seq<char> {
    match v {
        Value::Nil => "nil"@,
        Value::Bool(b) => if b {
            "true"@
        } else {
            "false"@
        },
        Value::Num(bits) => num_text_of(bits),
        Value::Str(id) => "\""@ + strings[id.0 as int] + "\""@,
    }
}

/// The message a read of an unknown variable produces.
pub open spec fn undefined_var_msg(name: Seq<char>) -> Seq<char> {
    "Undefined variable '"@ + name + "'"@
}

/// The location trailer of a runtime error.
pub open spec fn line_trailer(line: int) -> Seq<char> {
    "[line "@ + dec_digits(line) + "] in script"@
}

/// A runtime error at the instruction whose last unit is `ip + w`: the
/// message and then the location trailer go to the error stream, and the
/// stack is reset.
pub open spec fn spec_runtime_error(m: VmModel, w: int, msg: Seq<char>) -> (
    VmModel,
    Option<Result<(), InterpretError>>,
) {
    (
        VmModel {
            stack: Seq::empty(),
            errs: m.errs.push(msg).push(line_trailer(spec_line_for(m.lines, m.ip + w) as int)),
            ..m
        },
        Some(Err(InterpretError::Runtime)),
    )
}

/// Stopping on a malformed chunk: nothing is printed.
pub open spec fn spec_chunk_fault(m: VmModel) -> (VmModel, Option<Result<(), InterpretError>>) {
    (m, Some(Err(InterpretError::Compile)))
}

/// One instruction of the dispatch loop, as a pure function of the
/// machine: the next machine, and `Some(outcome)` where the run stops.
pub open spec fn step_spec(m: VmModel) -> (VmModel, Option<Result<(), InterpretError>>) {
    if !(0 <= m.ip < m.code.len()) {
        spec_chunk_fault(m)
    } else {
        let op = m.code[m.ip];
        match op {
            OpCode::Constant | OpCode::ConstantLong => {
                let w = if op == OpCode::Constant {
                    1int
                } else {
                    2int
                };
                match spec_decode_idx(m.code, m.ip + 1, spec_op_len(op)) {
                    Some(idx) => if idx < m.consts.len() {
                        (
                            VmModel { ip: m.ip + 1 + w, stack: m.stack.push(m.consts[idx as int]), ..m },
                            None,
                        )
                    } else {
                        spec_chunk_fault(m)
                    },
                    None => spec_chunk_fault(m),
                }
            },
            OpCode::Nil => (VmModel { ip: m.ip + 1, stack: m.stack.push(Value::Nil), ..m }, None),
            OpCode::True => (
                VmModel { ip: m.ip + 1, stack: m.stack.push(Value::Bool(true)), ..m },
                None,
            ),
            OpCode::False => (
                VmModel { ip: m.ip + 1, stack: m.stack.push(Value::Bool(false)), ..m },
                None,
            ),
            OpCode::Pop => (
                VmModel {
                    ip: m.ip + 1,
                    stack: if m.stack.len() > 0 {
                        m.stack.drop_last()
                    } else {
                        m.stack
                    },
                    ..m
                },
                None,
            ),
            OpCode::GetLocal | OpCode::GetLocalLong => {
                let w = if op == OpCode::GetLocal {
                    1int
                } else {
                    2int
                };
                match spec_decode_idx(m.code, m.ip + 1, spec_op_len(op)) {
                    Some(slot) => if slot < m.stack.len() {
                        (
                            VmModel { ip: m.ip + 1 + w, stack: m.stack.push(m.stack[slot as int]), ..m },
                            None,
                        )
                    } else {
                        spec_chunk_fault(m)
                    },
                    None => spec_chunk_fault(m),
                }
            },
            OpCode::SetLocal | OpCode::SetLocalLong => {
                let w = if op == OpCode::SetLocal {
                    1int
                } else {
                    2int
                };
                match spec_decode_idx(m.code, m.ip + 1, spec_op_len(op)) {
                    Some(slot) => if m.stack.len() > 0 && slot < m.stack.len() {
                        (
                            VmModel {
                                ip: m.ip + 1 + w,
                                stack: m.stack.update(slot as int, m.stack.last()),
                                ..m
                            },
                            None,
                        )
                    } else {
                        spec_chunk_fault(m)
                    },
                    None => spec_chunk_fault(m),
                }
            },
            OpCode::GetGlobal | OpCode::GetGlobalLong => {
                let w = if op == OpCode::GetGlobal {
                    1int
                } else {
                    2int
                };
                match spec_decode_idx(m.code, m.ip + 1, spec_op_len(op)) {
                    Some(idx) => if idx < m.consts.len() {
                        match m.consts[idx as int] {
                            Value::Str(id) => if m.globals.dom().contains(id.0 as int) {
                                (
                                    VmModel {
                                        ip: m.ip + 1 + w,
                                        stack: m.stack.push(m.globals[id.0 as int]),
                                        ..m
                                    },
                                    None,
                                )
                            } else {
                                spec_runtime_error(
                                    m,
                                    w,
                                    undefined_var_msg(m.strings[id.0 as int]),
                                )
                            },
                            _ => spec_chunk_fault(m),
                        }
                    } else {
                        spec_chunk_fault(m)
                    },
                    None => spec_chunk_fault(m),
                }
            },
            OpCode::DefineGlobal | OpCode::DefineGlobalLong => {
                let w = if op == OpCode::DefineGlobal {
                    1int
                } else {
                    2int
                };
                match spec_decode_idx(m.code, m.ip + 1, spec_op_len(op)) {
                    Some(idx) => if idx < m.consts.len() {
                        match m.consts[idx as int] {
                            Value::Str(id) => if m.stack.len() > 0 {
                                (
                                    VmModel {
                                        ip: m.ip + 1 + w,
                                        globals: m.globals.insert(id.0 as int, m.stack.last()),
                                        stack: m.stack.drop_last(),
                                        ..m
                                    },
                                    None,
                                )
                            } else {
                                spec_chunk_fault(m)
                            },
                            _ => spec_chunk_fault(m),
                        }
                    } else {
                        spec_chunk_fault(m)
                    },
                    None => spec_chunk_fault(m),
                }
            },
            OpCode::SetGlobal | OpCode::SetGlobalLong => {
                let w = if op == OpCode::SetGlobal {
                    1int
                } else {
                    2int
                };
                match spec_decode_idx(m.code, m.ip + 1, spec_op_len(op)) {
                    Some(idx) => if idx < m.consts.len() {
                        match m.consts[idx as int] {
                            Value::Str(id) => if m.globals.dom().contains(id.0 as int) {
                                if m.stack.len() > 0 {
                                    (
                                        VmModel {
                                            ip: m.ip + 1 + w,
                                            globals: m.globals.insert(id.0 as int, m.stack.last()),
                                            ..m
                                        },
                                        None,
                                    )
                                } else {
                                    spec_chunk_fault(m)
                                }
                            } else {
                                spec_runtime_error(
                                    m,
                                    w,
                                    undefined_var_msg(m.strings[id.0 as int]),
                                )
                            },
                            _ => spec_chunk_fault(m),
                        }
                    } else {
                        spec_chunk_fault(m)
                    },
                    None => spec_chunk_fault(m),
                }
            },
            OpCode::Equal => if m.stack.len() >= 2 {
                let b = m.stack.last();
                let a = m.stack.drop_last().last();
                (
                    VmModel {
                        ip: m.ip + 1,
                        stack: m.stack.drop_last().drop_last().push(
                            Value::Bool(value_eq_spec(a, b)),
                        ),
                        ..m
                    },
                    None,
                )
            } else {
                spec_chunk_fault(m)
            },
            OpCode::Greater | OpCode::Less | OpCode::Subtract | OpCode::Multiply
                | OpCode::Divide => {
                if m.stack.len() >= 2 && m.stack.last() is Num && m.stack.drop_last().last()
                    is Num {
                    let b = m.stack.last()->Num_0;
                    let a = m.stack.drop_last().last()->Num_0;
                    let v = match op {
                        OpCode::Greater => Value::Bool(gt_bits(a, b)),
                        OpCode::Less => Value::Bool(lt_bits(a, b)),
                        OpCode::Subtract => Value::Num(sub_bits(a, b)),
                        OpCode::Multiply => Value::Num(mul_bits(a, b)),
                        _ => Value::Num(div_bits(a, b)),
                    };
                    (
                        VmModel {
                            ip: m.ip + 1,
                            stack: m.stack.drop_last().drop_last().push(v),
                            ..m
                        },
                        None,
                    )
                } else {
                    spec_runtime_error(m, 0, "Operands must be numbers."@)
                }
            },
            OpCode::Add => if m.stack.len() >= 2 && m.stack.last() is Str && m.stack.drop_last().last()
                is Str {
                let b = m.stack.last()->Str_0;
                let a = m.stack.drop_last().last()->Str_0;
                let cat = m.strings[a.0 as int] + m.strings[b.0 as int];
                let si = spec_intern(m.strings, cat);
                (
                    VmModel {
                        ip: m.ip + 1,
                        stack: m.stack.drop_last().drop_last().push(
                            Value::Str(IString(si.1 as usize)),
                        ),
                        strings: si.0,
                        ..m
                    },
                    None,
                )
            } else if m.stack.len() >= 2 && m.stack.last() is Num && m.stack.drop_last().last()
                is Num {
                let b = m.stack.last()->Num_0;
                let a = m.stack.drop_last().last()->Num_0;
                (
                    VmModel {
                        ip: m.ip + 1,
                        stack: m.stack.drop_last().drop_last().push(Value::Num(add_bits(a, b))),
                        ..m
                    },
                    None,
                )
            } else {
                spec_runtime_error(m, 0, "Operands must be two numbers or two strings."@)
            },
            OpCode::Not => if m.stack.len() > 0 {
                let v = m.stack.last();
                (
                    VmModel {
                        ip: m.ip + 1,
                        stack: m.stack.drop_last().push(Value::Bool(is_falsey_spec(v))),
                        ..m
                    },
                    None,
                )
            } else {
                spec_chunk_fault(m)
            },
            OpCode::Negate => if m.stack.len() > 0 && m.stack.last() is Num {
                let n = m.stack.last()->Num_0;
                (
                    VmModel {
                        ip: m.ip + 1,
                        stack: m.stack.drop_last().push(Value::Num(neg_bits(n))),
                        ..m
                    },
                    None,
                )
            } else {
                spec_runtime_error(m, 0, "Operand must be a number."@)
            },
            OpCode::Print => if m.stack.len() > 0 {
                let v = m.stack.last();
                (
                    VmModel {
                        ip: m.ip + 1,
                        stack: m.stack.drop_last(),
                        out: m.out.push(value_text(v, m.strings)),
                        ..m
                    },
                    None,
                )
            } else {
                spec_chunk_fault(m)
            },
            OpCode::Jump => match spec_decode_idx(m.code, m.ip + 1, OpLen::Long) {
                Some(off) => if m.ip + 3 + off <= usize::MAX {
                    (VmModel { ip: m.ip + 3 + off, ..m }, None)
                } else {
                    spec_chunk_fault(m)
                },
                None => spec_chunk_fault(m),
            },
            OpCode::JumpIfFalse => match spec_decode_idx(m.code, m.ip + 1, OpLen::Long) {
                Some(off) => if m.stack.len() > 0 {
                    if is_falsey_spec(m.stack.last()) {
                        if m.ip + 3 + off <= usize::MAX {
                            (VmModel { ip: m.ip + 3 + off, ..m }, None)
                        } else {
                            spec_chunk_fault(m)
                        }
                    } else {
                        (VmModel { ip: m.ip + 3, ..m }, None)
                    }
                } else {
                    spec_chunk_fault(m)
                },
                None => spec_chunk_fault(m),
            },
            OpCode::Return => (m, Some(Ok(()))),
            OpCode::Byte(_) => spec_chunk_fault(m),
        }
    }
}


/// The views of a sequence of owned strings.
pub open spec fn texts_of(v: Seq<String>) -> Seq<Seq<char>> {
    Seq::new(v.len(), |i: int| v[i]@)
}

/// The second stream of lines is a prefix of the first: lines are only
/// ever appended.
pub open spec fn stream_extends(a: Seq<Seq<char>>, b: Seq<Seq<char>>) -> bool {
    &&& b.len() <= a.len()
    &&& forall|i: int| 0 <= i < b.len() ==> a[i] == b[i]
}

/// The virtual machine. The chunk is replaced on each `interpret` call;
/// the interner and the globals persist, so strings and globals accumulate
/// across calls.
pub struct Vm {
    chunk: Chunk,
    ip: usize,
    stack: Stack<Value>,
    interner: StringInterner,
    globals: Globals,
    out: Vec<String>,
    errs: Vec<String>,
}

impl Vm {
    pub closed spec fn spec_chunk(&self) -> Chunk {
        self.chunk
    }

    pub closed spec fn spec_globals(&self) -> Globals {
        self.globals
    }

    pub closed spec fn spec_interner(&self) -> StringInterner {
        self.interner
    }

    /// The machine as the specification sees it.
    pub closed spec fn model(&self) -> VmModel {
        VmModel {
            code: self.chunk.spec_code(),
            consts: self.chunk.spec_constants(),
            lines: self.chunk.spec_lines(),
            ip: self.ip as int,
            stack: self.stack@,
            globals: self.globals@,
            strings: self.interner@,
            out: texts_of(self.out@),
            errs: texts_of(self.errs@),
        }
    }

    /// The machine's invariant: the chunk and the interner well formed,
    /// the globals table without duplicate names, and every string
    /// identity on the stack, in the constant pool or in a global pointing
    /// into the interner.
    pub open spec fn wf(&self) -> bool {
        &&& self.spec_chunk().wf()
        &&& self.spec_interner().wf()
        &&& self.spec_globals().wf()
        &&& valid_values(self.model().consts, self.model().strings.len() as int)
        &&& valid_values(self.model().stack, self.model().strings.len() as int)
        &&& forall|k: int|
            #[trigger] self.model().globals.dom().contains(k) ==> 0 <= k
                < self.model().strings.len() && valid_value(
                self.model().globals[k],
                self.model().strings.len() as int,
            )
    }

    pub fn new() -> (r: Self)
        ensures
            r.wf(),
            r.model().stack.len() == 0,
            r.model().out.len() == 0,
            r.model().errs.len() == 0,
            r.model().strings.len() == 0,
            r.model().globals.dom() =~= Set::<int>::empty(),
    {
        let r = Vm {
            chunk: Chunk::new(),
            ip: 0,
            stack: Stack::new(),
            interner: StringInterner::new(),
            globals: Globals::new(),
            out: Vec::new(),
            errs: Vec::new(),
        };
        proof {
            assert(texts_of(r.out@) =~= Seq::<Seq<char>>::empty());
            assert(texts_of(r.errs@) =~= Seq::<Seq<char>>::empty());
        }
        r
    }

    /// Takes the lines printed so far, oldest first, leaving the buffer
    /// empty.
    pub fn take_stdout(&mut self) -> (r: Vec<String>)
        requires
            old(self).wf(),
        ensures
            final(self).wf(),
            texts_of(r@) == old(self).model().out,
            final(self).model() == (VmModel { out: Seq::empty(), ..old(self).model() }),
    {
        let mut r: Vec<String> = Vec::new();
        std::mem::swap(&mut r, &mut self.out);
        proof {
            assert(texts_of(Seq::<String>::empty()) =~= Seq::<Seq<char>>::empty());
            assert(self.model() =~= (VmModel { out: Seq::empty(), ..old(self).model() }));
        }
        r
    }

    /// Takes the diagnostic lines collected so far, oldest first, leaving
    /// the buffer empty.
    pub fn take_stderr(&mut self) -> (r: Vec<String>)
        requires
            old(self).wf(),
        ensures
            final(self).wf(),
            texts_of(r@) == old(self).model().errs,
            final(self).model() == (VmModel { errs: Seq::empty(), ..old(self).model() }),
    {
        let mut r: Vec<String> = Vec::new();
        std::mem::swap(&mut r, &mut self.errs);
        proof {
            assert(texts_of(Seq::<String>::empty()) =~= Seq::<Seq<char>>::empty());
            assert(self.model() =~= (VmModel { errs: Seq::empty(), ..old(self).model() }));
        }
        r
    }

    /// How many values the evaluation stack holds.
    pub fn stack_len(&self) -> (r: usize)
        ensures
            r == self.model().stack.len(),
    {
        self.stack.len()
    }

    /// Reads the one- or two-byte index after the opcode at `ip`.
    fn read_idx(&self, l: OpLen) -> (r: Option<usize>)
        requires
            0 <= self.model().ip < self.model().code.len(),
        ensures
            r == spec_decode_idx(self.model().code, self.model().ip + 1, l),
    {
        proof {
            self.chunk.lemma_code_len_bound();
        }
        match l {
            OpLen::Short => match self.chunk.get_byte(self.ip + 1) {
                Some(b) => Some(b as usize),
                None => None,
            },
            OpLen::Long => match self.chunk.get_byte(self.ip + 1) {
                Some(b1) => match self.chunk.get_byte(self.ip + 2) {
                    Some(b2) => Some(crate::util::join_u8s(b1, b2) as usize),
                    None => None,
                },
                None => None,
            },
        }
    }

    /// Records a runtime error: the message on the output stream, the
    /// location trailer for the unit at `at` on the error stream, and the
    /// stack reset.
    fn runtime_error(&mut self, msg: String, at: usize)
        requires
            old(self).wf(),
            old(self).model().code.len() > 0,
        ensures
            final(self).wf(),
            final(self).model() == (VmModel {
                stack: Seq::empty(),
                errs: old(self).model().errs.push(msg@).push(
                    line_trailer(spec_line_for(old(self).model().lines, at as int) as int),
                ),
                ..old(self).model()
            }),
    {
        let ghost msg_view = msg@;
        self.errs.push(msg);
        let line = self.chunk.get_line(at);
        let mut e = String::from_str("[line ");
        let line_text = usize_to_string(line);
        e.append(line_text.as_str());
        e.append("] in script");
        proof {
            assert(e@ =~= line_trailer(spec_line_for(old(self).model().lines, at as int) as int));
            assert(texts_of(self.errs@) =~= old(self).model().errs.push(msg_view));
        }
        self.errs.push(e);
        self.stack.reset();
        proof {
            assert(texts_of(self.errs@) =~= old(self).model().errs.push(msg_view).push(
                line_trailer(spec_line_for(old(self).model().lines, at as int) as int),
            ));
            assert(self.model() =~= (VmModel {
                stack: Seq::empty(),
                errs: old(self).model().errs.push(msg_view).push(
                    line_trailer(spec_line_for(old(self).model().lines, at as int) as int),
                ),
                ..old(self).model()
            }));
        }
    }

    /// Appends the printed form of a value to the output stream.
    fn print_val(&mut self, val: Value)
        requires
            old(self).wf(),
            valid_value(val, old(self).model().strings.len() as int),
        ensures
            final(self).wf(),
            final(self).model() == (VmModel {
                out: old(self).model().out.push(value_text(val, old(self).model().strings)),
                ..old(self).model()
            }),
    {
        match val {
            Value::Nil => self.out.push(String::from_str("nil")),
            Value::Bool(b) => if b {
                self.out.push(String::from_str("true"))
            } else {
                self.out.push(String::from_str("false"))
            },
            Value::Num(bits) => self.out.push(num_to_text(bits)),
            Value::Str(id) => {
                let mut s = String::from_str("\"");
                s.append(self.interner.get(id));
                s.append("\"");
                proof {
                    assert(s@ =~= value_text(val, old(self).model().strings));
                }
                self.out.push(s);
            },
        }
        proof {
            assert(texts_of(self.out@) =~= old(self).model().out.push(
                value_text(val, old(self).model().strings),
            ));
            assert(self.model() =~= (VmModel {
                out: old(self).model().out.push(value_text(val, old(self).model().strings)),
                ..old(self).model()
            }));
        }
    }
}


impl Vm {
    /// Executes one instruction, exactly as [`step_spec`] says: `None` to
    /// continue, `Some(outcome)` where the run stops. A continuing step
    /// always advances the instruction pointer.
    #[verifier::rlimit(60)]
    fn step(&mut self) -> (r: Option<Result<(), InterpretError>>)
        requires
            old(self).wf(),
        ensures
            final(self).wf(),
            final(self).model() == step_spec(old(self).model()).0,
            r == step_spec(old(self).model()).1,
            r is None ==> 0 <= old(self).model().ip < old(self).model().code.len() && final(self).model().ip > old(self).model().ip,
            final(self).model().code == old(self).model().code,
            final(self).model().consts == old(self).model().consts,
            final(self).model().lines == old(self).model().lines,
            interner_extends(final(self).model().strings, old(self).model().strings),
            stream_extends(final(self).model().out, old(self).model().out),
            stream_extends(final(self).model().errs, old(self).model().errs),
            r == Some(Err::<(), InterpretError>(InterpretError::Runtime)) ==> final(self).model().stack.len() == 0,
    {
        let ghost m0 = old(self).model();
        proof {
            self.chunk.lemma_code_len_bound();
        }
        let op = match self.chunk.get_op(self.ip) {
            Some(o) => o,
            None => {
                return Some(Err(InterpretError::Compile));
            },
        };
        match op {
            OpCode::Constant | OpCode::ConstantLong => {
                let l = OpLen::of(op);
                let w: usize = match l {
                    OpLen::Short => 1,
                    OpLen::Long => 2,
                };
                let idx = match self.read_idx(l) {
                    Some(i) => i,
                    None => {
                        return Some(Err(InterpretError::Compile));
                    },
                };
                let v = match self.chunk.get_constant(idx) {
                    Some(v) => *v,
                    None => {
                        return Some(Err(InterpretError::Compile));
                    },
                };
                proof {
                    assert(spec_byte_at_bound(m0.code, m0.ip + w));
                }
                self.stack.push(v);
                self.ip = self.ip + 1 + w;
                proof {
                    assert(self.model() =~= step_spec(m0).0);
                }
                None
            },
            OpCode::Nil => {
                self.stack.push(Value::Nil);
                self.ip = self.ip + 1;
                proof {
                    assert(self.model() =~= step_spec(m0).0);
                }
                None
            },
            OpCode::True => {
                self.stack.push(Value::Bool(true));
                self.ip = self.ip + 1;
                proof {
                    assert(self.model() =~= step_spec(m0).0);
                }
                None
            },
            OpCode::False => {
                self.stack.push(Value::Bool(false));
                self.ip = self.ip + 1;
                proof {
                    assert(self.model() =~= step_spec(m0).0);
                }
                None
            },
            OpCode::Pop => {
                let _ = self.stack.pop();
                self.ip = self.ip + 1;
                proof {
                    assert(self.model() =~= step_spec(m0).0);
                }
                None
            },
            OpCode::GetLocal | OpCode::GetLocalLong => {
                let l = OpLen::of(op);
                let w: usize = match l {
                    OpLen::Short => 1,
                    OpLen::Long => 2,
                };
                let slot = match self.read_idx(l) {
                    Some(i) => i,
                    None => {
                        return Some(Err(InterpretError::Compile));
                    },
                };
                let v = match self.stack.get(slot) {
                    Some(v) => *v,
                    None => {
                        return Some(Err(InterpretError::Compile));
                    },
                };
                proof {
                    assert(spec_byte_at_bound(m0.code, m0.ip + w));
                }
                self.stack.push(v);
                self.ip = self.ip + 1 + w;
                proof {
                    assert(self.model() =~= step_spec(m0).0);
                }
                None
            },
            OpCode::SetLocal | OpCode::SetLocalLong => {
                let l = OpLen::of(op);
                let w: usize = match l {
                    OpLen::Short => 1,
                    OpLen::Long => 2,
                };
                let slot = match self.read_idx(l) {
                    Some(i) => i,
                    None => {
                        return Some(Err(InterpretError::Compile));
                    },
                };
                let top = match self.stack.peek(0) {
                    Some(v) => *v,
                    None => {
                        return Some(Err(InterpretError::Compile));
                    },
                };
                if !self.stack.set(slot, top) {
                    return Some(Err(InterpretError::Compile));
                }
                proof {
                    assert(spec_byte_at_bound(m0.code, m0.ip + w));
                }
                self.ip = self.ip + 1 + w;
                proof {
                    assert(self.model() =~= step_spec(m0).0);
                }
                None
            },
            OpCode::GetGlobal | OpCode::GetGlobalLong => {
                let l = OpLen::of(op);
                let w: usize = match l {
                    OpLen::Short => 1,
                    OpLen::Long => 2,
                };
                let idx = match self.read_idx(l) {
                    Some(i) => i,
                    None => {
                        return Some(Err(InterpretError::Compile));
                    },
                };
                let v = match self.chunk.get_constant(idx) {
                    Some(v) => *v,
                    None => {
                        return Some(Err(InterpretError::Compile));
                    },
                };
                let id = match v.as_str() {
                    Some(id) => id,
                    None => {
                        return Some(Err(InterpretError::Compile));
                    },
                };
                proof {
                    assert(spec_byte_at_bound(m0.code, m0.ip + w));
                }
                match self.globals.get(id) {
                    Some(val) => {
                        self.stack.push(val);
                        self.ip = self.ip + 1 + w;
                        proof {
                            assert(self.model() =~= step_spec(m0).0);
                        }
                        None
                    },
                    None => {
                        let mut msg = String::from_str("Undefined variable '");
                        msg.append(self.interner.get(id));
                        msg.append("'");
                        proof {
                            assert(msg@ =~= undefined_var_msg(m0.strings[id.0 as int]));
                        }
                        self.runtime_error(msg, self.ip + w);
                        proof {
                            assert(self.model() =~= step_spec(m0).0);
                        }
                        Some(Err(InterpretError::Runtime))
                    },
                }
            },
            OpCode::DefineGlobal | OpCode::DefineGlobalLong => {
                let l = OpLen::of(op);
                let w: usize = match l {
                    OpLen::Short => 1,
                    OpLen::Long => 2,
                };
                let idx = match self.read_idx(l) {
                    Some(i) => i,
                    None => {
                        return Some(Err(InterpretError::Compile));
                    },
                };
                let v = match self.chunk.get_constant(idx) {
                    Some(v) => *v,
                    None => {
                        return Some(Err(InterpretError::Compile));
                    },
                };
                let id = match v.as_str() {
                    Some(id) => id,
                    None => {
                        return Some(Err(InterpretError::Compile));
                    },
                };
                let val = match self.stack.peek(0) {
                    Some(v) => *v,
                    None => {
                        return Some(Err(InterpretError::Compile));
                    },
                };
                proof {
                    assert(spec_byte_at_bound(m0.code, m0.ip + w));
                }
                self.globals.insert(id, val);
                let _ = self.stack.pop();
                self.ip = self.ip + 1 + w;
                proof {
                    assert(self.model() =~= step_spec(m0).0);
                }
                None
            },
            OpCode::SetGlobal | OpCode::SetGlobalLong => {
                let l = OpLen::of(op);
                let w: usize = match l {
                    OpLen::Short => 1,
                    OpLen::Long => 2,
                };
                let idx = match self.read_idx(l) {
                    Some(i) => i,
                    None => {
                        return Some(Err(InterpretError::Compile));
                    },
                };
                let v = match self.chunk.get_constant(idx) {
                    Some(v) => *v,
                    None => {
                        return Some(Err(InterpretError::Compile));
                    },
                };
                let id = match v.as_str() {
                    Some(id) => id,
                    None => {
                        return Some(Err(InterpretError::Compile));
                    },
                };
                proof {
                    assert(spec_byte_at_bound(m0.code, m0.ip + w));
                }
                match self.globals.get(id) {
                    Some(_) => {
                        let val = match self.stack.peek(0) {
                            Some(v) => *v,
                            None => {
                                return Some(Err(InterpretError::Compile));
                            },
                        };
                        self.globals.insert(id, val);
                        self.ip = self.ip + 1 + w;
                        proof {
                            assert(self.model() =~= step_spec(m0).0);
                        }
                        None
                    },
                    None => {
                        let mut msg = String::from_str("Undefined variable '");
                        msg.append(self.interner.get(id));
                        msg.append("'");
                        proof {
                            assert(msg@ =~= undefined_var_msg(m0.strings[id.0 as int]));
                        }
                        self.runtime_error(msg, self.ip + w);
                        proof {
                            assert(self.model() =~= step_spec(m0).0);
                        }
                        Some(Err(InterpretError::Runtime))
                    },
                }
            },
            OpCode::Equal => {
                if self.stack.len() < 2 {
                    return Some(Err(InterpretError::Compile));
                }
                let b = self.stack.pop().unwrap();
                let a = self.stack.pop().unwrap();
                self.stack.push(Value::Bool(a.eq(&b)));
                self.ip = self.ip + 1;
                proof {
                    assert(self.model() =~= step_spec(m0).0);
                }
                None
            },
            OpCode::Greater | OpCode::Less | OpCode::Subtract | OpCode::Multiply
                | OpCode::Divide => {
                let both_num = {
                    let vb = self.stack.peek(0);
                    let va = self.stack.peek(1);
                    match (vb, va) {
                        (Some(Value::Num(_)), Some(Value::Num(_))) => true,
                        _ => false,
                    }
                };
                if both_num {
                    let b = self.stack.pop().unwrap().as_num().unwrap();
                    let a = self.stack.pop().unwrap().as_num().unwrap();
                    let v = match op {
                        OpCode::Greater => Value::Bool(num_gt(a, b)),
                        OpCode::Less => Value::Bool(num_lt(a, b)),
                        OpCode::Subtract => Value::Num(num_sub(a, b)),
                        OpCode::Multiply => Value::Num(num_mul(a, b)),
                        _ => Value::Num(num_div(a, b)),
                    };
                    self.stack.push(v);
                    self.ip = self.ip + 1;
                    proof {
                        assert(self.model() =~= step_spec(m0).0);
                    }
                    None
                } else {
                    let msg = String::from_str("Operands must be numbers.");
                    self.runtime_error(msg, self.ip);
                    proof {
                        assert(self.model() =~= step_spec(m0).0);
                    }
                    Some(Err(InterpretError::Runtime))
                }
            },
            OpCode::Add => {
                let both_str = {
                    let vb = self.stack.peek(0);
                    let va = self.stack.peek(1);
                    match (vb, va) {
                        (Some(Value::Str(_)), Some(Value::Str(_))) => true,
                        _ => false,
                    }
                };
                let both_num = {
                    let vb = self.stack.peek(0);
                    let va = self.stack.peek(1);
                    match (vb, va) {
                        (Some(Value::Num(_)), Some(Value::Num(_))) => true,
                        _ => false,
                    }
                };
                if both_str {
                    let b_id = self.stack.pop().unwrap().as_str().unwrap();
                    let a_id = self.stack.pop().unwrap().as_str().unwrap();
                    let mut cat = String::from_str(self.interner.get(a_id));
                    cat.append(self.interner.get(b_id));
                    let id = self.interner.intern(cat.as_str());
                    proof {
                        let si = spec_intern(m0.strings, m0.strings[a_id.0 as int] + m0.strings[b_id.0 as int]);
                        if exists|i: int|
                            0 <= i < m0.strings.len() && #[trigger] m0.strings[i]
                                == m0.strings[a_id.0 as int] + m0.strings[b_id.0 as int] {
                            crate::object::lemma_intern_injective(
                                self.interner,
                                id,
                                IString(si.1 as usize),
                            );
                        }
                        assert(id.0 as int == si.1);
                        assert(self.interner@ =~= si.0);
                    }
                    self.stack.push(Value::Str(id));
                    self.ip = self.ip + 1;
                    proof {
                        crate::value::lemma_valid_values_grow(
                            m0.consts,
                            m0.strings.len() as int,
                            self.interner@.len() as int,
                        );
                        crate::value::lemma_valid_values_grow(
                            m0.stack,
                            m0.strings.len() as int,
                            self.interner@.len() as int,
                        );
                        assert forall|i: int| 0 <= i < self.stack@.len() implies valid_value(
                            self.stack@[i],
                            self.interner@.len() as int,
                        ) by {
                            if i < self.stack@.len() - 1 {
                                assert(self.stack@[i] == m0.stack[i]);
                            }
                        };
                        assert forall|k: int| #[trigger] self.globals@.dom().contains(
                            k,
                        ) implies 0 <= k < self.interner@.len() && valid_value(
                            self.globals@[k],
                            self.interner@.len() as int,
                        ) by {
                            assert(m0.globals.dom().contains(k));
                            assert(valid_value(m0.globals[k], m0.strings.len() as int));
                        };
                        assert(self.model() =~= step_spec(m0).0);
                    }
                    None
                } else if both_num {
                    let b = self.stack.pop().unwrap().as_num().unwrap();
                    let a = self.stack.pop().unwrap().as_num().unwrap();
                    self.stack.push(Value::Num(num_add(a, b)));
                    self.ip = self.ip + 1;
                    proof {
                        assert(self.model() =~= step_spec(m0).0);
                    }
                    None
                } else {
                    let msg = String::from_str("Operands must be two numbers or two strings.");
                    self.runtime_error(msg, self.ip);
                    proof {
                        assert(self.model() =~= step_spec(m0).0);
                    }
                    Some(Err(InterpretError::Runtime))
                }
            },
            OpCode::Not => {
                let v = match self.stack.pop() {
                    Some(v) => v,
                    None => {
                        return Some(Err(InterpretError::Compile));
                    },
                };
                self.stack.push(Value::Bool(v.is_falsey()));
                self.ip = self.ip + 1;
                proof {
                    assert(self.model() =~= step_spec(m0).0);
                }
                None
            },
            OpCode::Negate => {
                let is_num = {
                    match self.stack.peek(0) {
                        Some(Value::Num(_)) => true,
                        _ => false,
                    }
                };
                if is_num {
                    let n = self.stack.pop().unwrap().as_num().unwrap();
                    self.stack.push(Value::Num(num_neg(n)));
                    self.ip = self.ip + 1;
                    proof {
                        assert(self.model() =~= step_spec(m0).0);
                    }
                    None
                } else {
                    let msg = String::from_str("Operand must be a number.");
                    self.runtime_error(msg, self.ip);
                    proof {
                        assert(self.model() =~= step_spec(m0).0);
                    }
                    Some(Err(InterpretError::Runtime))
                }
            },
            OpCode::Print => {
                let v = match self.stack.pop() {
                    Some(v) => v,
                    None => {
                        return Some(Err(InterpretError::Compile));
                    },
                };
                self.print_val(v);
                self.ip = self.ip + 1;
                proof {
                    assert(self.model() =~= step_spec(m0).0);
                }
                None
            },
            OpCode::Jump => {
                let off = match self.read_idx(OpLen::Long) {
                    Some(o) => o,
                    None => {
                        return Some(Err(InterpretError::Compile));
                    },
                };
                proof {
                    assert(spec_byte_at_bound(m0.code, m0.ip + 2));
                }
                let base = self.ip + 3;
                match base.checked_add(off) {
                    Some(t) => {
                        self.ip = t;
                        proof {
                            assert(self.model() =~= step_spec(m0).0);
                        }
                        None
                    },
                    None => Some(Err(InterpretError::Compile)),
                }
            },
            OpCode::JumpIfFalse => {
                let off = match self.read_idx(OpLen::Long) {
                    Some(o) => o,
                    None => {
                        return Some(Err(InterpretError::Compile));
                    },
                };
                let cond = match self.stack.peek(0) {
                    Some(v) => *v,
                    None => {
                        return Some(Err(InterpretError::Compile));
                    },
                };
                proof {
                    assert(spec_byte_at_bound(m0.code, m0.ip + 2));
                }
                if cond.is_falsey() {
                    let base = self.ip + 3;
                    match base.checked_add(off) {
                        Some(t) => {
                            self.ip = t;
                            proof {
                                assert(self.model() =~= step_spec(m0).0);
                            }
                            None
                        },
                        None => Some(Err(InterpretError::Compile)),
                    }
                } else {
                    self.ip = self.ip + 3;
                    proof {
                        assert(self.model() =~= step_spec(m0).0);
                    }
                    None
                }
            },
            OpCode::Return => Some(Ok(())),
            OpCode::Byte(_) => Some(Err(InterpretError::Compile)),
        }
    }
}

/// A successfully decoded operand lies inside the code.
pub open spec fn spec_byte_at_bound(code: Seq<OpCode>, i: int) -> bool {
    crate::chunk::spec_byte_at(code, i) is Some ==> 0 <= i < code.len()
}


/// Law: an arithmetic or comparison opcode applied to operands that are
/// not both numbers stops the run with the runtime error
/// `Operands must be numbers.` and a reset stack.
pub proof fn lemma_arith_operands_must_be_numbers(m: VmModel)
    requires
        0 <= m.ip < m.code.len(),
        m.code[m.ip] == OpCode::Subtract || m.code[m.ip] == OpCode::Multiply || m.code[m.ip]
            == OpCode::Divide || m.code[m.ip] == OpCode::Greater || m.code[m.ip] == OpCode::Less,
        !(m.stack.len() >= 2 && m.stack.last() is Num && m.stack.drop_last().last() is Num),
    ensures
        step_spec(m) == spec_runtime_error(m, 0, "Operands must be numbers."@),
        step_spec(m).1 == Some(Err::<(), InterpretError>(InterpretError::Runtime)),
        step_spec(m).0.stack.len() == 0,
{
}

/// Law: `Add` applied to operands that are neither two numbers nor two
/// strings stops the run with the runtime error
/// `Operands must be two numbers or two strings.` and a reset stack.
pub proof fn lemma_add_operands_mismatch(m: VmModel)
    requires
        0 <= m.ip < m.code.len(),
        m.code[m.ip] == OpCode::Add,
        !(m.stack.len() >= 2 && m.stack.last() is Num && m.stack.drop_last().last() is Num),
        !(m.stack.len() >= 2 && m.stack.last() is Str && m.stack.drop_last().last() is Str),
    ensures
        step_spec(m) == spec_runtime_error(m, 0, "Operands must be two numbers or two strings."@),
        step_spec(m).1 == Some(Err::<(), InterpretError>(InterpretError::Runtime)),
        step_spec(m).0.stack.len() == 0,
{
}

/// Law: the variable-width encoding round-trips through the machine. Where
/// the code at the instruction pointer is an index `n` written in
/// short-or-long constant form and `n` names a constant, one step pushes
/// exactly that constant and advances past the whole instruction.
pub proof fn lemma_constant_encoding_round_trip(m: VmModel, n: usize)
    requires
        n <= 65535,
        n < m.consts.len(),
        0 <= m.ip,
        m.ip + spec_encode_idx((OpCode::Constant, OpCode::ConstantLong), n).len() <= m.code.len(),
        m.code.subrange(
            m.ip,
            m.ip + spec_encode_idx((OpCode::Constant, OpCode::ConstantLong), n).len(),
        ) == spec_encode_idx((OpCode::Constant, OpCode::ConstantLong), n),
    ensures
        step_spec(m).1 is None,
        step_spec(m).0.stack == m.stack.push(m.consts[n as int]),
        step_spec(m).0.ip == m.ip + spec_encode_idx(
            (OpCode::Constant, OpCode::ConstantLong),
            n,
        ).len(),
{
    let enc = spec_encode_idx((OpCode::Constant, OpCode::ConstantLong), n);
    let sub = m.code.subrange(m.ip, m.ip + enc.len());
    assert(m.code[m.ip] == sub[0]);
    if n <= 255 {
        assert(m.code[m.ip + 1] == sub[1]);
        assert(crate::chunk::spec_byte_at(m.code, m.ip + 1) == Some(n as u8));
    } else {
        assert(m.code[m.ip + 1] == sub[1]);
        assert(m.code[m.ip + 2] == sub[2]);
        let x = n as u16;
        crate::util::lemma_split_join(x);
        assert(spec_decode_idx(m.code, m.ip + 1, OpLen::Long) == Some(n));
    }
}

/// The fuel of the dispatch loop: how much code lies at or past the
/// instruction pointer. Every continuing step moves the pointer forward,
/// so the loop ends.
pub open spec fn vm_measure(m: VmModel) -> int {
    if 0 <= m.ip <= m.code.len() {
        m.code.len() - m.ip + 1
    } else {
        0
    }
}

/// A continuing step stays inside the code and strictly advances the
/// instruction pointer, leaving the code itself unchanged.
pub proof fn lemma_step_progress(m: VmModel)
    requires
        step_spec(m).1 is None,
    ensures
        0 <= m.ip < m.code.len(),
        step_spec(m).0.ip > m.ip,
        step_spec(m).0.code == m.code,
{
}

/// The whole dispatch loop, as a pure function of the machine: steps are
/// taken until one stops the run, and the machine at that point is the
/// result.
pub open spec fn run_model(m: VmModel) -> (VmModel, Result<(), InterpretError>)
    decreases vm_measure(m),
{
    let s = step_spec(m);
    match s.1 {
        Some(outcome) => (s.0, outcome),
        None => {
            proof {
                lemma_step_progress(m);
            }
            run_model(s.0)
        },
    }
}

impl Vm {
    /// Fetches, decodes and executes until a `Return` or an error, exactly
    /// as [`run_model`] says. On a runtime error the stack has been reset.
    fn run(&mut self) -> (r: Result<(), InterpretError>)
        requires
            old(self).wf(),
        ensures
            final(self).wf(),
            final(self).model() == run_model(old(self).model()).0,
            r == run_model(old(self).model()).1,
            final(self).model().code == old(self).model().code,
            final(self).model().consts == old(self).model().consts,
            final(self).model().lines == old(self).model().lines,
            interner_extends(final(self).model().strings, old(self).model().strings),
            stream_extends(final(self).model().out, old(self).model().out),
            stream_extends(final(self).model().errs, old(self).model().errs),
            r == Err::<(), InterpretError>(InterpretError::Runtime) ==> final(self).model().stack.len() == 0,
    {
        loop
            invariant
                self.wf(),
                run_model(self.model()) == run_model(old(self).model()),
                self.model().code == old(self).model().code,
                self.model().consts == old(self).model().consts,
                self.model().lines == old(self).model().lines,
                interner_extends(self.model().strings, old(self).model().strings),
                stream_extends(self.model().out, old(self).model().out),
                stream_extends(self.model().errs, old(self).model().errs),
            decreases vm_measure(self.model()),
        {
            let ghost pre = self.model();
            let r = self.step();
            match r {
                None => {
                    proof {
                        lemma_step_progress(pre);
                        assert(run_model(pre) == run_model(self.model()));
                    }
                },
                Some(outcome) => {
                    proof {
                        assert(run_model(pre) == (self.model(), outcome));
                    }
                    return outcome;
                },
            }
        }
    }

    /// A machine about to run a fresh chunk, with everything else carried
    /// over from `base`.
    pub open spec fn fresh_run(c: Chunk, strings: Seq<Seq<char>>, base: VmModel) -> VmModel {
        VmModel {
            code: c.spec_code(),
            consts: c.spec_constants(),
            lines: c.spec_lines(),
            ip: 0,
            stack: base.stack,
            globals: base.globals,
            strings,
            out: base.out,
            errs: base.errs,
        }
    }

    /// Compiles and runs one source text against this machine. Compile
    /// diagnostics go to the error stream and leave the machine untouched
    /// otherwise; a compiled chunk is executed from its start exactly as
    /// [`run_model`] says, with strings and globals persisting across
    /// calls. On a runtime error the stack has been reset.
    pub fn interpret(&mut self, src: &str) -> (r: Result<(), InterpretError>)
        requires
            old(self).wf(),
        ensures
            final(self).wf(),
            interner_extends(final(self).model().strings, old(self).model().strings),
            stream_extends(final(self).model().out, old(self).model().out),
            stream_extends(final(self).model().errs, old(self).model().errs),
            r == Err::<(), InterpretError>(InterpretError::Runtime) ==> final(self).model().stack.len() == 0,
            crate::scanner::ws_end(src@, 0) == src@.len() ==> r == Ok::<(), InterpretError>(())
                && final(self).model().out == old(self).model().out && final(self).model().errs
                == old(self).model().errs && final(self).model().stack == old(self).model().stack
                && final(self).model().globals == old(self).model().globals && final(self).model().strings == old(self).model().strings,
            ({
                ||| (r == Err::<(), InterpretError>(InterpretError::Compile) && final(self).model().out == old(self).model().out && final(self).model().stack == old(self).model().stack && final(self).model().globals == old(self).model().globals
                    && final(self).model().code == old(self).model().code && final(self).model().consts == old(self).model().consts && final(self).model().lines == old(self).model().lines && final(self).model().ip == old(self).model().ip
                    && final(self).model().errs.len() > old(self).model().errs.len())
                ||| exists|c: Chunk, strs: Seq<Seq<char>>|
                    {
                        &&& c.wf()
                        &&& interner_extends(strs, old(self).model().strings)
                        &&& valid_values(c.spec_constants(), strs.len() as int)
                        &&& c.spec_code().len() > 0
                        &&& c.spec_code().last() == OpCode::Return
                        &&& #[trigger] run_model(Vm::fresh_run(c, strs, old(self).model())) == (
                            final(self).model(),
                            r,
                        )
                    }
            }),
    {
        let compiler = Compiler::new(src);
        let (res, diags) = compiler.compile(&mut self.interner);
        match res {
            Ok(chunk) => {
                let ghost c = chunk;
                let ghost strs = self.interner@;
                self.chunk = chunk;
                self.ip = 0;
                proof {
                    crate::value::lemma_valid_values_grow(
                        old(self).model().stack,
                        old(self).model().strings.len() as int,
                        strs.len() as int,
                    );
                    assert forall|k: int| #[trigger] self.globals@.dom().contains(k) implies 0 <= k
                        < self.interner@.len() && valid_value(
                        self.globals@[k],
                        self.interner@.len() as int,
                    ) by {
                        assert(old(self).model().globals.dom().contains(k));
                        assert(valid_value(old(self).model().globals[k], old(self).model().strings.len() as int));
                    };
                    assert(self.model() =~= Vm::fresh_run(c, strs, old(self).model()));
                }
                let r = self.run();
                proof {
                    assert(run_model(Vm::fresh_run(c, strs, old(self).model())) == (
                        self.model(),
                        r,
                    ));
                    if crate::scanner::ws_end(src@, 0) == src@.len() {
                        let m1 = Vm::fresh_run(c, strs, old(self).model());
                        assert(c.spec_code() == seq![OpCode::Return]);
                        assert(m1.code[0] == OpCode::Return);
                        assert(step_spec(m1) == (m1, Some(Ok::<(), InterpretError>(()))));
                        assert(run_model(m1) == (m1, Ok::<(), InterpretError>(())));
                    }
                }
                r
            },
            Err(e) => {
                proof {
                    crate::value::lemma_valid_values_grow(
                        old(self).model().consts,
                        old(self).model().strings.len() as int,
                        self.interner@.len() as int,
                    );
                    crate::value::lemma_valid_values_grow(
                        old(self).model().stack,
                        old(self).model().strings.len() as int,
                        self.interner@.len() as int,
                    );
                    assert forall|k: int| #[trigger] self.globals@.dom().contains(k) implies 0 <= k
                        < self.interner@.len() && valid_value(
                        self.globals@[k],
                        self.interner@.len() as int,
                    ) by {
                        assert(old(self).model().globals.dom().contains(k));
                        assert(valid_value(
                            old(self).model().globals[k],
                            old(self).model().strings.len() as int,
                        ));
                    };
                }
                let ghost strs_after = self.interner@;
                let n = diags.len();
                let mut i: usize = 0;
                while i < n
                    invariant
                        n == diags@.len(),
                        n > 0,
                        i <= n,
                        self.wf(),
                        self.chunk == old(self).chunk,
                        self.ip == old(self).ip,
                        self.stack@ == old(self).stack@,
                        self.globals == old(self).globals,
                        self.out@ == old(self).out@,
                        self.interner@ == strs_after,
                        interner_extends(strs_after, old(self).model().strings),
                        texts_of(self.errs@).len() == old(self).model().errs.len() + i,
                        forall|j: int|
                            0 <= j < old(self).model().errs.len() ==> texts_of(self.errs@)[j]
                                == old(self).model().errs[j],
                    decreases n - i,
                {
                    let line = diags[i].clone();
                    let ghost pre_errs = self.errs@;
                    let ghost pre = *self;
                    self.errs.push(line);
                    proof {
                        assert(self.errs@ == pre_errs.push(line));
                        assert(self.model().consts == pre.model().consts);
                        assert(self.model().stack == pre.model().stack);
                        assert(self.model().strings == pre.model().strings);
                        assert(self.model().globals == pre.model().globals);
                        assert(self.spec_chunk() == pre.spec_chunk());
                        assert(self.spec_interner() == pre.spec_interner());
                        assert(self.spec_globals() == pre.spec_globals());
                        assert forall|k: int| #[trigger] self.model().globals.dom().contains(
                            k,
                        ) implies 0 <= k < self.model().strings.len() && valid_value(
                            self.model().globals[k],
                            self.model().strings.len() as int,
                        ) by {
                            assert(pre.model().globals.dom().contains(k));
                        };
                        assert(self.wf());
                        assert forall|j: int| 0 <= j < old(self).model().errs.len() implies texts_of(
                            self.errs@,
                        )[j] == old(self).model().errs[j] by {
                            assert(self.errs@[j] == pre_errs[j]);
                            assert(texts_of(pre_errs)[j] == old(self).model().errs[j]);
                        };
                    }
                    i = i + 1;
                }
                proof {
                    assert(texts_of(self.errs@).len() > old(self).model().errs.len());
                    assert(stream_extends(texts_of(self.errs@), old(self).model().errs));
                }
                Err(e)
            },
        }
    }
}

} // verus!
