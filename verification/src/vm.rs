//! The virtual machine: a dispatch loop over a chunk's bytecode, an operand
//! stack, and a table of global variables.
//!
//! The machine's behaviour is given by the spec function [`spec_run`], a
//! step-by-step model of the dispatch loop over the views of the chunk, the
//! stack, the globals and the printed output. `run` is proved to end exactly
//! as the model does: same success or failure, same error message, same
//! stack, same globals, and same printed lines. The bytecode has no jumps,
//! so the instruction pointer only moves forward and every run ends.

use vstd::prelude::*;

use crate::chunk::{line_for_spec, Chunk};
use crate::errors::{decimal_chars, format_usize, Error};
use crate::globals::{lookup, Globals};
use crate::intern::{intern, interned_str, ustr_chars};
use crate::numeric::{
    add_bits, div_bits, float_gt, float_lt, mul_bits, sub_bits, trunc_bits, num_add, num_div,
    num_gt, num_lt, num_mul, num_sub, num_trunc,
};
use crate::opcode::{byte_opcode, op_from_byte, OpCode};
use crate::stack::Stack;
use crate::value::{value_eq_spec, value_falsy, value_text, ObjStr, Value, ValueV};

verus! {

/// The operand stack's capacity: pushing past it is a runtime error.
pub const STACK_MAX: usize = 256;

/// The result of running a chunk.
pub type VMRunResult<T> = Result<T, Error>;

/// The views of a machine at rest: whether it halted normally, the error
/// message where it did not, and its stack, globals and printed output.
pub struct MachineEnd {
    pub ok: bool,
    pub message: Seq<char>,
    pub stack: Seq<ValueV>,
    pub globals: Map<Seq<char>, ValueV>,
    pub output: Seq<Seq<char>>,
}

/// A runtime error message tagged with the source line of the byte before
/// `ip`: the last byte of the faulting instruction.
pub open spec fn line_msg(lines: Seq<usize>, ip: int, msg: Seq<char>) -> Seq<char> {
    decimal_chars(line_for_spec(lines, ip - 1)) + ": "@ + msg
}

/// The runtime error message for a global name that is not bound.
pub open spec fn undefined_message(name: Seq<char>) -> Seq<char> {
    "Undefined variable '"@ + name + "'."@
}

/// A string repeated `n` times.
pub open spec fn repeat_chars(s: Seq<char>, n: nat) -> Seq<char>
    decreases n,
{
    if n == 0 {
        Seq::empty()
    } else {
        repeat_chars(s, (n - 1) as nat) + s
    }
}

/// The views of a stack of values.
pub open spec fn stack_view(s: Seq<Value>) -> Seq<ValueV> {
    s.map(|i: int, v: Value| v@)
}

/// The views of the printed lines.
pub open spec fn output_view(s: Seq<String>) -> Seq<Seq<char>> {
    s.map(|i: int, v: String| v@)
}

/// The views of a constant pool.
pub open spec fn consts_view(s: Seq<Value>) -> Seq<ValueV> {
    s.map(|i: int, v: Value| v@)
}

/// The global table as a map from names to value views.
pub open spec fn globals_map(g: Globals) -> Map<Seq<char>, ValueV> {
    Map::new(
        |k: Seq<char>| lookup(g.entries@, k) is Some,
        |k: Seq<char>| lookup(g.entries@, k).unwrap()@,
    )
}

/// A halt on bytecode the machine cannot make sense of: an index or a slot
/// out of range, or too few operands on the stack. Emitted code never runs
/// into it.
pub open spec fn malformed(
    stack: Seq<ValueV>,
    globals: Map<Seq<char>, ValueV>,
    output: Seq<Seq<char>>,
) -> MachineEnd {
    MachineEnd { ok: false, message: "Invalid bytecode"@, stack, globals, output }
}

/// A halt with a line-tagged runtime error.
pub open spec fn runtime_halt(
    lines: Seq<usize>,
    ip: int,
    msg: Seq<char>,
    stack: Seq<ValueV>,
    globals: Map<Seq<char>, ValueV>,
    output: Seq<Seq<char>>,
) -> MachineEnd {
    MachineEnd { ok: false, message: line_msg(lines, ip, msg), stack, globals, output }
}

/// What executing the chunk from `ip` onward does to the machine: the
/// dispatch loop, one instruction per recursive step.
pub open spec fn spec_run(
    code: Seq<u8>,
    consts: Seq<ValueV>,
    lines: Seq<usize>,
    ip: int,
    stack: Seq<ValueV>,
    globals: Map<Seq<char>, ValueV>,
    output: Seq<Seq<char>>,
) -> MachineEnd
    decreases code.len() - ip,
{
    if !(0 <= ip < code.len()) {
        MachineEnd { ok: false, message: "Unknown opcode"@, stack, globals, output }
    } else {
        match byte_opcode(code[ip]) {
            None => MachineEnd { ok: false, message: "Unknown opcode"@, stack, globals, output },
            Some(op) => match op {
                OpCode::OP_RETURN => MachineEnd { ok: true, message: Seq::empty(), stack, globals, output },
                OpCode::OP_CONST => {
                    if ip + 1 >= code.len() {
                        MachineEnd { ok: false, message: "Unknown opcode"@, stack, globals, output }
                    } else if code[ip + 1] >= consts.len() {
                        malformed(stack, globals, output)
                    } else if stack.len() >= STACK_MAX {
                        runtime_halt(lines, ip + 2, "Stack overflow."@, stack, globals, output)
                    } else {
                        spec_run(code, consts, lines, ip + 2, stack.push(consts[code[ip + 1] as int]), globals, output)
                    }
                },
                OpCode::OP_NIL => {
                    if stack.len() >= STACK_MAX {
                        runtime_halt(lines, ip + 1, "Stack overflow."@, stack, globals, output)
                    } else {
                        spec_run(code, consts, lines, ip + 1, stack.push(ValueV::Nil), globals, output)
                    }
                },
                OpCode::OP_TRUE => {
                    if stack.len() >= STACK_MAX {
                        runtime_halt(lines, ip + 1, "Stack overflow."@, stack, globals, output)
                    } else {
                        spec_run(code, consts, lines, ip + 1, stack.push(ValueV::Bool(true)), globals, output)
                    }
                },
                OpCode::OP_FALSE => {
                    if stack.len() >= STACK_MAX {
                        runtime_halt(lines, ip + 1, "Stack overflow."@, stack, globals, output)
                    } else {
                        spec_run(code, consts, lines, ip + 1, stack.push(ValueV::Bool(false)), globals, output)
                    }
                },
                OpCode::OP_NEGATE => {
                    if stack.len() == 0 {
                        malformed(stack, globals, output)
                    } else {
                        match stack.last() {
                            ValueV::Num(n) => spec_run(
                                code, consts, lines, ip + 1,
                                stack.drop_last().push(ValueV::Num(crate::numeric::float_neg(n))),
                                globals, output,
                            ),
                            _ => runtime_halt(lines, ip + 1, "Operand must be a number"@, stack.drop_last(), globals, output),
                        }
                    }
                },
                OpCode::OP_NOT => {
                    if stack.len() == 0 {
                        malformed(stack, globals, output)
                    } else {
                        spec_run(
                            code, consts, lines, ip + 1,
                            stack.drop_last().push(ValueV::Bool(value_falsy(stack.last()))),
                            globals, output,
                        )
                    }
                },
                OpCode::OP_EQUAL => {
                    if stack.len() < 2 {
                        malformed(stack, globals, output)
                    } else {
                        spec_run(
                            code, consts, lines, ip + 1,
                            stack.drop_last().drop_last().push(
                                ValueV::Bool(value_eq_spec(stack[stack.len() - 2], stack.last())),
                            ),
                            globals, output,
                        )
                    }
                },
                OpCode::OP_ADD => {
                    if stack.len() < 2 {
                        malformed(stack, globals, output)
                    } else {
                        let a = stack[stack.len() - 2];
                        let b = stack.last();
                        let rest = stack.drop_last().drop_last();
                        match (a, b) {
                            (ValueV::Num(x), ValueV::Num(y)) => spec_run(
                                code, consts, lines, ip + 1,
                                rest.push(ValueV::Num(add_bits(x, y))), globals, output,
                            ),
                            (ValueV::Str(x), ValueV::Str(y)) => spec_run(
                                code, consts, lines, ip + 1,
                                rest.push(ValueV::Str(x + y)), globals, output,
                            ),
                            _ => runtime_halt(lines, ip + 1, "Invalid binary operator"@, rest, globals, output),
                        }
                    }
                },
                OpCode::OP_SUB => {
                    if stack.len() < 2 {
                        malformed(stack, globals, output)
                    } else {
                        let a = stack[stack.len() - 2];
                        let b = stack.last();
                        let rest = stack.drop_last().drop_last();
                        match (a, b) {
                            (ValueV::Num(x), ValueV::Num(y)) => spec_run(
                                code, consts, lines, ip + 1,
                                rest.push(ValueV::Num(sub_bits(x, y))), globals, output,
                            ),
                            _ => runtime_halt(lines, ip + 1, "Invalid binary operator"@, rest, globals, output),
                        }
                    }
                },
                OpCode::OP_MUL => {
                    if stack.len() < 2 {
                        malformed(stack, globals, output)
                    } else {
                        let a = stack[stack.len() - 2];
                        let b = stack.last();
                        let rest = stack.drop_last().drop_last();
                        match (a, b) {
                            (ValueV::Num(x), ValueV::Num(y)) => spec_run(
                                code, consts, lines, ip + 1,
                                rest.push(ValueV::Num(mul_bits(x, y))), globals, output,
                            ),
                            (ValueV::Str(x), ValueV::Num(y)) => spec_run(
                                code, consts, lines, ip + 1,
                                rest.push(ValueV::Str(repeat_chars(x, trunc_bits(y) as nat))),
                                globals, output,
                            ),
                            _ => runtime_halt(lines, ip + 1, "Invalid binary operator"@, rest, globals, output),
                        }
                    }
                },
                OpCode::OP_DIV => {
                    if stack.len() < 2 {
                        malformed(stack, globals, output)
                    } else {
                        let a = stack[stack.len() - 2];
                        let b = stack.last();
                        let rest = stack.drop_last().drop_last();
                        match (a, b) {
                            (ValueV::Num(x), ValueV::Num(y)) => spec_run(
                                code, consts, lines, ip + 1,
                                rest.push(ValueV::Num(div_bits(x, y))), globals, output,
                            ),
                            _ => runtime_halt(lines, ip + 1, "Invalid binary operator"@, rest, globals, output),
                        }
                    }
                },
                OpCode::OP_GREATER => {
                    if stack.len() < 2 {
                        malformed(stack, globals, output)
                    } else {
                        let a = stack[stack.len() - 2];
                        let b = stack.last();
                        let rest = stack.drop_last().drop_last();
                        match (a, b) {
                            (ValueV::Num(x), ValueV::Num(y)) => spec_run(
                                code, consts, lines, ip + 1,
                                rest.push(ValueV::Bool(float_gt(x, y))), globals, output,
                            ),
                            _ => runtime_halt(lines, ip + 1, "Invalid binary operator"@, rest, globals, output),
                        }
                    }
                },
                OpCode::OP_LESS => {
                    if stack.len() < 2 {
                        malformed(stack, globals, output)
                    } else {
                        let a = stack[stack.len() - 2];
                        let b = stack.last();
                        let rest = stack.drop_last().drop_last();
                        match (a, b) {
                            (ValueV::Num(x), ValueV::Num(y)) => spec_run(
                                code, consts, lines, ip + 1,
                                rest.push(ValueV::Bool(float_lt(x, y))), globals, output,
                            ),
                            _ => runtime_halt(lines, ip + 1, "Invalid binary operator"@, rest, globals, output),
                        }
                    }
                },
                OpCode::OP_PRINT => {
                    if stack.len() == 0 {
                        malformed(stack, globals, output)
                    } else {
                        spec_run(
                            code, consts, lines, ip + 1, stack.drop_last(), globals,
                            output.push(value_text(stack.last())),
                        )
                    }
                },
                OpCode::OP_POP => {
                    if stack.len() == 0 {
                        malformed(stack, globals, output)
                    } else {
                        spec_run(code, consts, lines, ip + 1, stack.drop_last(), globals, output)
                    }
                },
                OpCode::OP_DEF_GLOBAL => {
                    if ip + 1 >= code.len() {
                        MachineEnd { ok: false, message: "Unknown opcode"@, stack, globals, output }
                    } else if code[ip + 1] >= consts.len() {
                        malformed(stack, globals, output)
                    } else {
                        match consts[code[ip + 1] as int] {
                            ValueV::Str(name) => {
                                if stack.len() == 0 {
                                    malformed(stack, globals, output)
                                } else {
                                    spec_run(
                                        code, consts, lines, ip + 2, stack.drop_last(),
                                        globals.insert(name, stack.last()), output,
                                    )
                                }
                            },
                            _ => runtime_halt(lines, ip + 2, "Invalid variable name type."@, stack, globals, output),
                        }
                    }
                },
                OpCode::OP_GET_GLOBAL => {
                    if ip + 1 >= code.len() {
                        MachineEnd { ok: false, message: "Unknown opcode"@, stack, globals, output }
                    } else if code[ip + 1] >= consts.len() {
                        malformed(stack, globals, output)
                    } else {
                        match consts[code[ip + 1] as int] {
                            ValueV::Str(name) => {
                                if globals.dom().contains(name) {
                                    if stack.len() >= STACK_MAX {
                                        runtime_halt(lines, ip + 2, "Stack overflow."@, stack, globals, output)
                                    } else {
                                        spec_run(code, consts, lines, ip + 2, stack.push(globals[name]), globals, output)
                                    }
                                } else {
                                    runtime_halt(lines, ip + 2, undefined_message(name), stack, globals, output)
                                }
                            },
                            _ => runtime_halt(lines, ip + 2, "Invalid variable name type."@, stack, globals, output),
                        }
                    }
                },
                OpCode::OP_SET_GLOBAL => {
                    if ip + 1 >= code.len() {
                        MachineEnd { ok: false, message: "Unknown opcode"@, stack, globals, output }
                    } else if code[ip + 1] >= consts.len() {
                        malformed(stack, globals, output)
                    } else {
                        match consts[code[ip + 1] as int] {
                            ValueV::Str(name) => {
                                if !globals.dom().contains(name) {
                                    runtime_halt(lines, ip + 2, undefined_message(name), stack, globals, output)
                                } else if stack.len() == 0 {
                                    malformed(stack, globals, output)
                                } else {
                                    spec_run(
                                        code, consts, lines, ip + 2, stack,
                                        globals.insert(name, stack.last()), output,
                                    )
                                }
                            },
                            _ => runtime_halt(lines, ip + 2, "Invalid variable name type."@, stack, globals, output),
                        }
                    }
                },
                OpCode::OP_GET_LOCAL => {
                    if ip + 1 >= code.len() {
                        MachineEnd { ok: false, message: "Unknown opcode"@, stack, globals, output }
                    } else if code[ip + 1] >= stack.len() {
                        malformed(stack, globals, output)
                    } else if stack.len() >= STACK_MAX {
                        runtime_halt(lines, ip + 2, "Stack overflow."@, stack, globals, output)
                    } else {
                        spec_run(code, consts, lines, ip + 2, stack.push(stack[code[ip + 1] as int]), globals, output)
                    }
                },
                OpCode::OP_SET_LOCAL => {
                    if ip + 1 >= code.len() {
                        MachineEnd { ok: false, message: "Unknown opcode"@, stack, globals, output }
                    } else if code[ip + 1] >= stack.len() || stack.len() == 0 {
                        malformed(stack, globals, output)
                    } else {
                        spec_run(
                            code, consts, lines, ip + 2,
                            stack.update(code[ip + 1] as int, stack.last()), globals, output,
                        )
                    }
                },
            },
        }
    }
}


/// Pushing a value pushes its view.
proof fn lemma_view_push(s: Seq<Value>, v: Value)
    ensures
        stack_view(s.push(v)) =~= stack_view(s).push(v@),
{
}

/// Dropping the top value drops its view.
proof fn lemma_view_drop_last(s: Seq<Value>)
    requires
        s.len() > 0,
    ensures
        stack_view(s.drop_last()) =~= stack_view(s).drop_last(),
{
}

/// Overwriting a slot overwrites its view.
proof fn lemma_view_update(s: Seq<Value>, i: int, v: Value)
    requires
        0 <= i < s.len(),
    ensures
        stack_view(s.update(i, v)) =~= stack_view(s).update(i, v@),
{
}

/// Printing a line appends its view.
proof fn lemma_output_push(s: Seq<String>, v: String)
    ensures
        output_view(s.push(v)) =~= output_view(s).push(v@),
{
}

/// Repeats a string `n` times.
fn repeat_str(s: &str, n: usize) -> (r: String)
    ensures
        r@ == repeat_chars(s@, n as nat),
{
    let mut out = String::new();
    let mut i: usize = 0;
    while i < n
        invariant
            i <= n,
            out@ == repeat_chars(s@, i as nat),
        decreases n - i,
    {
        out.append(s);
        i = i + 1;
    }
    out
}

/// The virtual machine: the chunk being run, the instruction pointer, the
/// operand stack, the global table, and the lines printed so far.
pub struct VM {
    pub chunk: Option<Chunk>,
    pub ip: usize,
    pub stack: Stack,
    pub globals: Globals,
    pub output: Vec<String>,
}

impl VM {
    /// A fresh machine: no chunk, an empty stack, no globals, no output.
    pub fn new() -> (vm: Self)
        ensures
            vm.chunk is None,
            vm.ip == 0,
            vm.stack.stack@ == Seq::<Value>::empty(),
            vm.globals.wf(),
            vm.globals.entries@ == Seq::<(ustr::Ustr, Value)>::empty(),
            vm.output@ == Seq::<String>::empty(),
    {
        VM {
            chunk: None,
            ip: 0,
            stack: Stack::new(STACK_MAX),
            globals: Globals::new(),
            output: Vec::new(),
        }
    }

    /// Runs a chunk to completion against the machine's globals: the stack
    /// is reset, the chunk is executed from its first byte, and the machine
    /// ends exactly as [`spec_run`] says — the same outcome, error message,
    /// stack, globals and printed lines. On success the chunk is handed
    /// back.
    pub fn interpret(&mut self, chunk: Chunk) -> (r: VMRunResult<Chunk>)
        requires
            chunk.wf(),
            old(self).globals.wf(),
        ensures
            final(self).globals.wf(),
            ({
                let end = spec_run(
                    chunk.code@,
                    consts_view(chunk.const_pool.values@),
                    chunk.lines(),
                    0,
                    Seq::empty(),
                    globals_map(old(self).globals),
                    output_view(old(self).output@),
                );
                &&& (r is Ok <==> end.ok)
                &&& (r is Ok ==> r->Ok_0 == chunk)
                &&& (r is Err ==> r->Err_0.message@ == end.message && r->Err_0.token is None)
                &&& stack_view(final(self).stack.stack@) == end.stack
                &&& globals_map(final(self).globals) == end.globals
                &&& output_view(final(self).output@) == end.output
            }),
    {
        self.stack.reset();
        self.ip = 0;
        self.chunk = Some(chunk);

        proof {
            assert(stack_view(Seq::<Value>::empty()) =~= Seq::<ValueV>::empty());
        }

        let result = self.run();
        match result {
            Ok(_) => Ok(self.chunk.take().unwrap()),
            Err(e) => Err(e),
        }
    }

    /// Hands the printed lines out and clears the buffer.
    pub fn take_output(&mut self) -> (out: Vec<String>)
        ensures
            out@ == old(self).output@,
            final(self).output@ == Seq::<String>::empty(),
            final(self).chunk == old(self).chunk,
            final(self).ip == old(self).ip,
            final(self).stack.stack@ == old(self).stack.stack@,
            final(self).globals == old(self).globals,
    {
        let mut swapped: Vec<String> = Vec::new();
        core::mem::swap(&mut swapped, &mut self.output);
        swapped
    }

    /// The source line of the byte the instruction pointer last passed.
    fn read_current_executed_line(&self) -> (line: usize)
        requires
            self.chunk is Some,
            self.chunk.unwrap().wf(),
            1 <= self.ip <= self.chunk.unwrap().code@.len(),
        ensures
            line == line_for_spec(self.chunk.unwrap().lines(), self.ip - 1),
    {
        self.chunk.as_ref().unwrap().get_code_line(self.ip - 1)
    }

    /// A runtime error tagged with the current source line.
    fn runtime_error_text(&self, message: String) -> (e: Error)
        requires
            self.chunk is Some,
            self.chunk.unwrap().wf(),
            1 <= self.ip <= self.chunk.unwrap().code@.len(),
        ensures
            e.token is None,
            e.message@ == line_msg(self.chunk.unwrap().lines(), self.ip as int, message@),
    {
        let line = self.read_current_executed_line();
        let mut m = format_usize(line);
        m.append(": ");
        m.append(message.as_str());
        proof {
            assert(m@ =~= line_msg(
                self.chunk.unwrap().lines(),
                self.ip as int,
                message@,
            ));
        }
        Error::from_string(m)
    }

    /// A runtime error with a fixed message, tagged with the current line.
    fn runtime_error(&self, message: &str) -> (e: Error)
        requires
            self.chunk is Some,
            self.chunk.unwrap().wf(),
            1 <= self.ip <= self.chunk.unwrap().code@.len(),
        ensures
            e.token is None,
            e.message@ == line_msg(self.chunk.unwrap().lines(), self.ip as int, message@),
    {
        self.runtime_error_text(message.to_owned())
    }

    /// Reads the byte under the instruction pointer and moves past it.
    fn advance_read_instruction(&mut self) -> (b: u8)
        requires
            old(self).chunk is Some,
            old(self).ip < old(self).chunk.unwrap().code@.len(),
        ensures
            b == old(self).chunk.unwrap().code@[old(self).ip as int],
            final(self).ip == old(self).ip + 1,
            final(self).chunk == old(self).chunk,
            final(self).stack.stack@ == old(self).stack.stack@,
            final(self).globals == old(self).globals,
            final(self).output@ == old(self).output@,
    {
        let c = self.chunk.as_ref().unwrap();
        let n = c.code.len();
        let b = c.code[self.ip];
        assert(self.ip < n);
        self.ip = self.ip + 1;
        b
    }
}


/// Defining a name in the table inserts its view into the map.
proof fn lemma_globals_define(pre: Globals, post: Globals, name: ustr::Ustr, v: Value)
    requires
        forall|k: Seq<char>|
            #[trigger] post.spec_get(k) == (if k == ustr_chars(name) {
                Some(v)
            } else {
                pre.spec_get(k)
            }),
    ensures
        globals_map(post) =~= globals_map(pre).insert(ustr_chars(name), v@),
{
    let m1 = globals_map(post);
    let m2 = globals_map(pre).insert(ustr_chars(name), v@);
    assert forall|k: Seq<char>| m1.dom().contains(k) implies m2.dom().contains(k) by {
        assert(post.spec_get(k) == (if k == ustr_chars(name) {
            Some(v)
        } else {
            pre.spec_get(k)
        }));
    }
    assert forall|k: Seq<char>| m2.dom().contains(k) implies m1.dom().contains(k) by {
        assert(post.spec_get(k) == (if k == ustr_chars(name) {
            Some(v)
        } else {
            pre.spec_get(k)
        }));
    }
    assert forall|k: Seq<char>| #[trigger] m1.dom().contains(k) implies m1[k] == m2[k] by {
        assert(post.spec_get(k) == (if k == ustr_chars(name) {
            Some(v)
        } else {
            pre.spec_get(k)
        }));
    }
}

impl VM {
    /// The dispatch loop: reads one instruction at a time and applies its
    /// effect, until `OP_RETURN` halts it or an error stops it. Ends exactly
    /// as [`spec_run`] from the starting state says.
    #[verifier::loop_isolation(false)]
    fn run(&mut self) -> (r: VMRunResult<()>)
        requires
            old(self).chunk is Some,
            old(self).chunk.unwrap().wf(),
            old(self).globals.wf(),
            old(self).ip <= old(self).chunk.unwrap().code@.len(),
        ensures
            final(self).chunk == old(self).chunk,
            final(self).globals.wf(),
            ({
                let end = spec_run(
                    old(self).chunk.unwrap().code@,
                    consts_view(old(self).chunk.unwrap().const_pool.values@),
                    old(self).chunk.unwrap().lines(),
                    old(self).ip as int,
                    stack_view(old(self).stack.stack@),
                    globals_map(old(self).globals),
                    output_view(old(self).output@),
                );
                &&& (r is Ok <==> end.ok)
                &&& (r is Err ==> r->Err_0.message@ == end.message && r->Err_0.token is None)
                &&& stack_view(final(self).stack.stack@) == end.stack
                &&& globals_map(final(self).globals) == end.globals
                &&& output_view(final(self).output@) == end.output
            }),
    {
        let ghost code = old(self).chunk.unwrap().code@;
        let ghost consts = consts_view(old(self).chunk.unwrap().const_pool.values@);
        let ghost lines = old(self).chunk.unwrap().lines();
        let ghost end = spec_run(
            code,
            consts,
            lines,
            old(self).ip as int,
            stack_view(old(self).stack.stack@),
            globals_map(old(self).globals),
            output_view(old(self).output@),
        );

        loop
            invariant
                self.chunk == old(self).chunk,
                self.chunk is Some,
                self.chunk.unwrap().wf(),
                self.globals.wf(),
                self.ip <= code.len(),
                code == self.chunk.unwrap().code@,
                consts == consts_view(self.chunk.unwrap().const_pool.values@),
                lines == self.chunk.unwrap().lines(),
                end == spec_run(
                    code,
                    consts,
                    lines,
                    self.ip as int,
                    stack_view(self.stack.stack@),
                    globals_map(self.globals),
                    output_view(self.output@),
                ),
            decreases code.len() - self.ip,
        {
            let ghost ip0 = self.ip as int;
            let ghost st0 = self.stack.stack@;
            let ghost g0 = globals_map(self.globals);
            let ghost out0 = output_view(self.output@);

            let n = self.chunk.as_ref().unwrap().code.len();
            if self.ip >= n {
                return Err(Error::message("Unknown opcode"));
            }

            let instruction = self.advance_read_instruction();

            let op = match op_from_byte(instruction) {
                Some(op) => op,
                None => {
                    return Err(Error::message("Unknown opcode"));
                },
            };

            match op {
                OpCode::OP_RETURN => {
                    return Ok(());
                },
                OpCode::OP_CONST => {
                    if self.ip >= n {
                        return Err(Error::message("Unknown opcode"));
                    }
                    let k = self.advance_read_instruction();
                    if k as usize >= self.chunk.as_ref().unwrap().const_pool.values.len() {
                        return Err(Error::message("Invalid bytecode"));
                    }
                    if self.stack.depth() >= STACK_MAX {
                        return Err(self.runtime_error("Stack overflow."));
                    }
                    let constant = self.chunk.as_ref().unwrap().const_pool.values[k as usize];
                    self.stack.push(constant);
                    proof {
                        lemma_view_push(st0, constant);
                    }
                },
                OpCode::OP_NIL => {
                    if self.stack.depth() >= STACK_MAX {
                        return Err(self.runtime_error("Stack overflow."));
                    }
                    self.stack.push(Value::Nil);
                    proof {
                        lemma_view_push(st0, Value::Nil);
                    }
                },
                OpCode::OP_TRUE => {
                    if self.stack.depth() >= STACK_MAX {
                        return Err(self.runtime_error("Stack overflow."));
                    }
                    self.stack.push(Value::Bool(true));
                    proof {
                        lemma_view_push(st0, Value::Bool(true));
                    }
                },
                OpCode::OP_FALSE => {
                    if self.stack.depth() >= STACK_MAX {
                        return Err(self.runtime_error("Stack overflow."));
                    }
                    self.stack.push(Value::Bool(false));
                    proof {
                        lemma_view_push(st0, Value::Bool(false));
                    }
                },
                OpCode::OP_NEGATE => {
                    if self.stack.depth() == 0 {
                        return Err(Error::message("Invalid bytecode"));
                    }
                    let v = self.stack.pop();
                    proof {
                        lemma_view_drop_last(st0);
                    }
                    match v {
                        Value::Number(x) => {
                            let neg = crate::numeric::num_neg(x);
                            self.stack.push(Value::Number(neg));
                            proof {
                                lemma_view_push(st0.drop_last(), Value::Number(neg));
                            }
                        },
                        _ => {
                            return Err(self.runtime_error("Operand must be a number"));
                        },
                    }
                },
                OpCode::OP_NOT => {
                    if self.stack.depth() == 0 {
                        return Err(Error::message("Invalid bytecode"));
                    }
                    let v = self.stack.pop();
                    let falsy = v.is_falsy();
                    self.stack.push(Value::Bool(falsy));
                    proof {
                        lemma_view_drop_last(st0);
                        lemma_view_push(st0.drop_last(), Value::Bool(falsy));
                    }
                },
                OpCode::OP_EQUAL => {
                    if self.stack.depth() < 2 {
                        return Err(Error::message("Invalid bytecode"));
                    }
                    let b = self.stack.pop();
                    let a = self.stack.pop();
                    let equal = a.eq(&b);
                    self.stack.push(Value::Bool(equal));
                    proof {
                        lemma_view_drop_last(st0);
                        lemma_view_drop_last(st0.drop_last());
                        lemma_view_push(st0.drop_last().drop_last(), Value::Bool(equal));
                    }
                },
                OpCode::OP_ADD => {
                    if self.stack.depth() < 2 {
                        return Err(Error::message("Invalid bytecode"));
                    }
                    let b = self.stack.pop();
                    let a = self.stack.pop();
                    proof {
                        lemma_view_drop_last(st0);
                        lemma_view_drop_last(st0.drop_last());
                    }
                    match (a, b) {
                        (Value::Number(x), Value::Number(y)) => {
                            let sum = num_add(x, y);
                            self.stack.push(Value::Number(sum));
                            proof {
                                lemma_view_push(st0.drop_last().drop_last(), Value::Number(sum));
                            }
                        },
                        (Value::Str(l), Value::Str(r)) => {
                            let joined = interned_str(&l.string).to_owned().concat(
                                interned_str(&r.string),
                            );
                            let handle = intern(joined.as_str());
                            let joined_value = Value::Str(ObjStr { string: handle });
                            self.stack.push(joined_value);
                            proof {
                                lemma_view_push(st0.drop_last().drop_last(), joined_value);
                            }
                        },
                        _ => {
                            return Err(self.runtime_error("Invalid binary operator"));
                        },
                    }
                },
                OpCode::OP_SUB => {
                    if self.stack.depth() < 2 {
                        return Err(Error::message("Invalid bytecode"));
                    }
                    let b = self.stack.pop();
                    let a = self.stack.pop();
                    proof {
                        lemma_view_drop_last(st0);
                        lemma_view_drop_last(st0.drop_last());
                    }
                    match (a, b) {
                        (Value::Number(x), Value::Number(y)) => {
                            let difference = num_sub(x, y);
                            self.stack.push(Value::Number(difference));
                            proof {
                                lemma_view_push(
                                    st0.drop_last().drop_last(),
                                    Value::Number(difference),
                                );
                            }
                        },
                        _ => {
                            return Err(self.runtime_error("Invalid binary operator"));
                        },
                    }
                },
                OpCode::OP_MUL => {
                    if self.stack.depth() < 2 {
                        return Err(Error::message("Invalid bytecode"));
                    }
                    let b = self.stack.pop();
                    let a = self.stack.pop();
                    proof {
                        lemma_view_drop_last(st0);
                        lemma_view_drop_last(st0.drop_last());
                    }
                    match (a, b) {
                        (Value::Number(x), Value::Number(y)) => {
                            let product = num_mul(x, y);
                            self.stack.push(Value::Number(product));
                            proof {
                                lemma_view_push(st0.drop_last().drop_last(), Value::Number(product));
                            }
                        },
                        (Value::Str(l), Value::Number(y)) => {
                            let n_times = num_trunc(y);
                            let repeated = repeat_str(interned_str(&l.string), n_times);
                            let handle = intern(repeated.as_str());
                            let repeated_value = Value::Str(ObjStr { string: handle });
                            self.stack.push(repeated_value);
                            proof {
                                lemma_view_push(st0.drop_last().drop_last(), repeated_value);
                            }
                        },
                        _ => {
                            return Err(self.runtime_error("Invalid binary operator"));
                        },
                    }
                },
                OpCode::OP_DIV => {
                    if self.stack.depth() < 2 {
                        return Err(Error::message("Invalid bytecode"));
                    }
                    let b = self.stack.pop();
                    let a = self.stack.pop();
                    proof {
                        lemma_view_drop_last(st0);
                        lemma_view_drop_last(st0.drop_last());
                    }
                    match (a, b) {
                        (Value::Number(x), Value::Number(y)) => {
                            let quotient = num_div(x, y);
                            self.stack.push(Value::Number(quotient));
                            proof {
                                lemma_view_push(
                                    st0.drop_last().drop_last(),
                                    Value::Number(quotient),
                                );
                            }
                        },
                        _ => {
                            return Err(self.runtime_error("Invalid binary operator"));
                        },
                    }
                },
                OpCode::OP_GREATER => {
                    if self.stack.depth() < 2 {
                        return Err(Error::message("Invalid bytecode"));
                    }
                    let b = self.stack.pop();
                    let a = self.stack.pop();
                    proof {
                        lemma_view_drop_last(st0);
                        lemma_view_drop_last(st0.drop_last());
                    }
                    match (a, b) {
                        (Value::Number(x), Value::Number(y)) => {
                            let greater = num_gt(x, y);
                            self.stack.push(Value::Bool(greater));
                            proof {
                                lemma_view_push(st0.drop_last().drop_last(), Value::Bool(greater));
                            }
                        },
                        _ => {
                            return Err(self.runtime_error("Invalid binary operator"));
                        },
                    }
                },
                OpCode::OP_LESS => {
                    if self.stack.depth() < 2 {
                        return Err(Error::message("Invalid bytecode"));
                    }
                    let b = self.stack.pop();
                    let a = self.stack.pop();
                    proof {
                        lemma_view_drop_last(st0);
                        lemma_view_drop_last(st0.drop_last());
                    }
                    match (a, b) {
                        (Value::Number(x), Value::Number(y)) => {
                            let less = num_lt(x, y);
                            self.stack.push(Value::Bool(less));
                            proof {
                                lemma_view_push(st0.drop_last().drop_last(), Value::Bool(less));
                            }
                        },
                        _ => {
                            return Err(self.runtime_error("Invalid binary operator"));
                        },
                    }
                },
                OpCode::OP_PRINT => {
                    if self.stack.depth() == 0 {
                        return Err(Error::message("Invalid bytecode"));
                    }
                    let v = self.stack.pop();
                    let text = v.render();
                    let ghost out_pre = self.output@;
                    let ghost text_copy = text;
                    self.output.push(text);
                    proof {
                        lemma_view_drop_last(st0);
                        lemma_output_push(out_pre, text_copy);
                    }
                },
                OpCode::OP_POP => {
                    if self.stack.depth() == 0 {
                        return Err(Error::message("Invalid bytecode"));
                    }
                    self.stack.pop();
                    proof {
                        lemma_view_drop_last(st0);
                    }
                },
                OpCode::OP_DEF_GLOBAL => {
                    if self.ip >= n {
                        return Err(Error::message("Unknown opcode"));
                    }
                    let k = self.advance_read_instruction();
                    if k as usize >= self.chunk.as_ref().unwrap().const_pool.values.len() {
                        return Err(Error::message("Invalid bytecode"));
                    }
                    let constant = self.chunk.as_ref().unwrap().const_pool.values[k as usize];
                    let name = match constant {
                        Value::Str(s) => s.string,
                        _ => {
                            return Err(self.runtime_error("Invalid variable name type."));
                        },
                    };
                    if self.stack.depth() == 0 {
                        return Err(Error::message("Invalid bytecode"));
                    }
                    let v = self.stack.pop();
                    let ghost pre = self.globals;
                    self.globals.define(name, v);
                    proof {
                        lemma_view_drop_last(st0);
                        lemma_globals_define(pre, self.globals, name, v);
                    }
                },
                OpCode::OP_GET_GLOBAL => {
                    if self.ip >= n {
                        return Err(Error::message("Unknown opcode"));
                    }
                    let k = self.advance_read_instruction();
                    if k as usize >= self.chunk.as_ref().unwrap().const_pool.values.len() {
                        return Err(Error::message("Invalid bytecode"));
                    }
                    let constant = self.chunk.as_ref().unwrap().const_pool.values[k as usize];
                    let name = match constant {
                        Value::Str(s) => s.string,
                        _ => {
                            return Err(self.runtime_error("Invalid variable name type."));
                        },
                    };
                    match self.globals.get(&name) {
                        Some(v) => {
                            if self.stack.depth() >= STACK_MAX {
                                return Err(self.runtime_error("Stack overflow."));
                            }
                            self.stack.push(v);
                            proof {
                                lemma_view_push(st0, v);
                            }
                        },
                        None => {
                            let mut msg = String::from_str("Undefined variable '");
                            msg.append(interned_str(&name));
                            msg.append("'.");
                            proof {
                                assert(msg@ =~= undefined_message(ustr_chars(name)));
                            }
                            return Err(self.runtime_error_text(msg));
                        },
                    }
                },
                OpCode::OP_SET_GLOBAL => {
                    if self.ip >= n {
                        return Err(Error::message("Unknown opcode"));
                    }
                    let k = self.advance_read_instruction();
                    if k as usize >= self.chunk.as_ref().unwrap().const_pool.values.len() {
                        return Err(Error::message("Invalid bytecode"));
                    }
                    let constant = self.chunk.as_ref().unwrap().const_pool.values[k as usize];
                    let name = match constant {
                        Value::Str(s) => s.string,
                        _ => {
                            return Err(self.runtime_error("Invalid variable name type."));
                        },
                    };
                    let present = self.globals.get(&name).is_some();
                    if !present {
                        let mut msg = String::from_str("Undefined variable '");
                        msg.append(interned_str(&name));
                        msg.append("'.");
                        proof {
                            assert(msg@ =~= undefined_message(ustr_chars(name)));
                        }
                        return Err(self.runtime_error_text(msg));
                    }
                    if self.stack.depth() == 0 {
                        return Err(Error::message("Invalid bytecode"));
                    }
                    let v = self.stack.peek();
                    let ghost pre = self.globals;
                    self.globals.define(name, v);
                    proof {
                        lemma_globals_define(pre, self.globals, name, v);
                    }
                },
                OpCode::OP_GET_LOCAL => {
                    if self.ip >= n {
                        return Err(Error::message("Unknown opcode"));
                    }
                    let slot = self.advance_read_instruction();
                    if slot as usize >= self.stack.depth() {
                        return Err(Error::message("Invalid bytecode"));
                    }
                    if self.stack.depth() >= STACK_MAX {
                        return Err(self.runtime_error("Stack overflow."));
                    }
                    let v = self.stack.get(slot as usize);
                    self.stack.push(v);
                    proof {
                        lemma_view_push(st0, v);
                    }
                },
                OpCode::OP_SET_LOCAL => {
                    if self.ip >= n {
                        return Err(Error::message("Unknown opcode"));
                    }
                    let slot = self.advance_read_instruction();
                    if slot as usize >= self.stack.depth() {
                        return Err(Error::message("Invalid bytecode"));
                    }
                    let last_value = self.stack.peek();
                    self.stack.set(last_value, slot as usize);
                    proof {
                        lemma_view_update(st0, slot as int, last_value);
                    }
                },
            }
        }
    }
}

} // verus!
