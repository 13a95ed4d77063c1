//! The instruction set: one byte per opcode, with zero or one inline operand
//! bytes.

use vstd::prelude::*;

verus! {

/// An instruction of the virtual machine.
#[allow(non_camel_case_types)]
#[derive(Debug, Copy, Clone, PartialEq, Eq, Structural)]
pub enum OpCode {
    OP_RETURN,
    OP_CONST,
    OP_NIL,
    OP_TRUE,
    OP_FALSE,
    OP_EQUAL,
    OP_GREATER,
    OP_LESS,
    OP_NEGATE,
    OP_NOT,
    OP_ADD,
    OP_SUB,
    OP_MUL,
    OP_DIV,
    OP_PRINT,
    OP_POP,
    OP_DEF_GLOBAL,
    OP_GET_GLOBAL,
    OP_SET_GLOBAL,
    OP_GET_LOCAL,
    OP_SET_LOCAL,
}

/// The byte that encodes an opcode.
pub open spec fn opcode_byte(op: OpCode) -> u8 {
    match op {
        OpCode::OP_RETURN => 0,
        OpCode::OP_CONST => 1,
        OpCode::OP_NIL => 2,
        OpCode::OP_TRUE => 3,
        OpCode::OP_FALSE => 4,
        OpCode::OP_EQUAL => 5,
        OpCode::OP_GREATER => 6,
        OpCode::OP_LESS => 7,
        OpCode::OP_NEGATE => 8,
        OpCode::OP_NOT => 9,
        OpCode::OP_ADD => 10,
        OpCode::OP_SUB => 11,
        OpCode::OP_MUL => 12,
        OpCode::OP_DIV => 13,
        OpCode::OP_PRINT => 14,
        OpCode::OP_POP => 15,
        OpCode::OP_DEF_GLOBAL => 16,
        OpCode::OP_GET_GLOBAL => 17,
        OpCode::OP_SET_GLOBAL => 18,
        OpCode::OP_GET_LOCAL => 19,
        OpCode::OP_SET_LOCAL => 20,
    }
}

/// The opcode a byte decodes to, or `None` where the byte encodes none.
pub open spec fn byte_opcode(b: u8) -> Option<OpCode> {
    if b == 0 {
        Some(OpCode::OP_RETURN)
    } else if b == 1 {
        Some(OpCode::OP_CONST)
    } else if b == 2 {
        Some(OpCode::OP_NIL)
    } else if b == 3 {
        Some(OpCode::OP_TRUE)
    } else if b == 4 {
        Some(OpCode::OP_FALSE)
    } else if b == 5 {
        Some(OpCode::OP_EQUAL)
    } else if b == 6 {
        Some(OpCode::OP_GREATER)
    } else if b == 7 {
        Some(OpCode::OP_LESS)
    } else if b == 8 {
        Some(OpCode::OP_NEGATE)
    } else if b == 9 {
        Some(OpCode::OP_NOT)
    } else if b == 10 {
        Some(OpCode::OP_ADD)
    } else if b == 11 {
        Some(OpCode::OP_SUB)
    } else if b == 12 {
        Some(OpCode::OP_MUL)
    } else if b == 13 {
        Some(OpCode::OP_DIV)
    } else if b == 14 {
        Some(OpCode::OP_PRINT)
    } else if b == 15 {
        Some(OpCode::OP_POP)
    } else if b == 16 {
        Some(OpCode::OP_DEF_GLOBAL)
    } else if b == 17 {
        Some(OpCode::OP_GET_GLOBAL)
    } else if b == 18 {
        Some(OpCode::OP_SET_GLOBAL)
    } else if b == 19 {
        Some(OpCode::OP_GET_LOCAL)
    } else if b == 20 {
        Some(OpCode::OP_SET_LOCAL)
    } else {
        None
    }
}

/// How many inline operand bytes follow an opcode: one for the instructions
/// that carry a constant-pool index or a stack slot, none for the rest.
pub open spec fn operand_width(op: OpCode) -> nat {
    match op {
        OpCode::OP_CONST => 1,
        OpCode::OP_DEF_GLOBAL => 1,
        OpCode::OP_GET_GLOBAL => 1,
        OpCode::OP_SET_GLOBAL => 1,
        OpCode::OP_GET_LOCAL => 1,
        OpCode::OP_SET_LOCAL => 1,
        _ => 0,
    }
}

/// Encodes an opcode as its byte.
pub fn op_to_byte(op: OpCode) -> (b: u8)
    ensures
        b == opcode_byte(op),
{
    match op {
        OpCode::OP_RETURN => 0,
        OpCode::OP_CONST => 1,
        OpCode::OP_NIL => 2,
        OpCode::OP_TRUE => 3,
        OpCode::OP_FALSE => 4,
        OpCode::OP_EQUAL => 5,
        OpCode::OP_GREATER => 6,
        OpCode::OP_LESS => 7,
        OpCode::OP_NEGATE => 8,
        OpCode::OP_NOT => 9,
        OpCode::OP_ADD => 10,
        OpCode::OP_SUB => 11,
        OpCode::OP_MUL => 12,
        OpCode::OP_DIV => 13,
        OpCode::OP_PRINT => 14,
        OpCode::OP_POP => 15,
        OpCode::OP_DEF_GLOBAL => 16,
        OpCode::OP_GET_GLOBAL => 17,
        OpCode::OP_SET_GLOBAL => 18,
        OpCode::OP_GET_LOCAL => 19,
        OpCode::OP_SET_LOCAL => 20,
    }
}

/// Decodes a byte back to its opcode.
pub fn op_from_byte(b: u8) -> (r: Option<OpCode>)
    ensures
        r == byte_opcode(b),
{
    if b > 20 {
        return None;
    }
    let op = match b {
        0 => OpCode::OP_RETURN,
        1 => OpCode::OP_CONST,
        2 => OpCode::OP_NIL,
        3 => OpCode::OP_TRUE,
        4 => OpCode::OP_FALSE,
        5 => OpCode::OP_EQUAL,
        6 => OpCode::OP_GREATER,
        7 => OpCode::OP_LESS,
        8 => OpCode::OP_NEGATE,
        9 => OpCode::OP_NOT,
        10 => OpCode::OP_ADD,
        11 => OpCode::OP_SUB,
        12 => OpCode::OP_MUL,
        13 => OpCode::OP_DIV,
        14 => OpCode::OP_PRINT,
        15 => OpCode::OP_POP,
        16 => OpCode::OP_DEF_GLOBAL,
        17 => OpCode::OP_GET_GLOBAL,
        18 => OpCode::OP_SET_GLOBAL,
        19 => OpCode::OP_GET_LOCAL,
        _ => OpCode::OP_SET_LOCAL,
    };
    Some(op)
}

/// Encoding and decoding invert each other, and no two opcodes share a byte.
pub proof fn lemma_opcode_round_trip(op: OpCode, b: u8)
    ensures
        byte_opcode(opcode_byte(op)) == Some(op),
        byte_opcode(b) == Some(op) ==> opcode_byte(op) == b,
{
}

/// Each instruction occupies exactly the tabulated operand byte count: one
/// inline byte after `OP_CONST` and the four global and two local variable
/// instructions, and none after `OP_NIL`, `OP_TRUE`, `OP_FALSE`, the
/// arithmetic, comparison and logic instructions, `OP_PRINT`, `OP_POP` and
/// `OP_RETURN`.
pub proof fn lemma_operand_widths()
    ensures
        operand_width(OpCode::OP_NIL) == 0,
        operand_width(OpCode::OP_TRUE) == 0,
        operand_width(OpCode::OP_FALSE) == 0,
        operand_width(OpCode::OP_EQUAL) == 0,
        operand_width(OpCode::OP_GREATER) == 0,
        operand_width(OpCode::OP_LESS) == 0,
        operand_width(OpCode::OP_NEGATE) == 0,
        operand_width(OpCode::OP_NOT) == 0,
        operand_width(OpCode::OP_ADD) == 0,
        operand_width(OpCode::OP_SUB) == 0,
        operand_width(OpCode::OP_MUL) == 0,
        operand_width(OpCode::OP_DIV) == 0,
        operand_width(OpCode::OP_PRINT) == 0,
        operand_width(OpCode::OP_POP) == 0,
        operand_width(OpCode::OP_RETURN) == 0,
        operand_width(OpCode::OP_CONST) == 1,
        operand_width(OpCode::OP_DEF_GLOBAL) == 1,
        operand_width(OpCode::OP_GET_GLOBAL) == 1,
        operand_width(OpCode::OP_SET_GLOBAL) == 1,
        operand_width(OpCode::OP_GET_LOCAL) == 1,
        operand_width(OpCode::OP_SET_LOCAL) == 1,
{
}


/// The net stack effect of one instruction: how many values it leaves on the
/// operand stack minus how many it consumes.
pub open spec fn op_effect(op: OpCode) -> int {
    match op {
        OpCode::OP_RETURN => 0,
        OpCode::OP_CONST => 1,
        OpCode::OP_NIL => 1,
        OpCode::OP_TRUE => 1,
        OpCode::OP_FALSE => 1,
        OpCode::OP_EQUAL => -1,
        OpCode::OP_GREATER => -1,
        OpCode::OP_LESS => -1,
        OpCode::OP_NEGATE => 0,
        OpCode::OP_NOT => 0,
        OpCode::OP_ADD => -1,
        OpCode::OP_SUB => -1,
        OpCode::OP_MUL => -1,
        OpCode::OP_DIV => -1,
        OpCode::OP_PRINT => -1,
        OpCode::OP_POP => -1,
        OpCode::OP_DEF_GLOBAL => -1,
        OpCode::OP_GET_GLOBAL => 1,
        OpCode::OP_SET_GLOBAL => 0,
        OpCode::OP_GET_LOCAL => 1,
        OpCode::OP_SET_LOCAL => 0,
    }
}

/// The net stack effect of a run of bytecode: the bytes are decoded
/// instruction by instruction, each opcode followed by exactly its tabulated
/// operand bytes, and the per-instruction effects are summed. `None` where
/// the bytes do not decode.
pub open spec fn stack_effect(bytes: Seq<u8>) -> Option<int>
    decreases bytes.len(),
{
    if bytes.len() == 0 {
        Some(0)
    } else {
        match byte_opcode(bytes[0]) {
            None => None,
            Some(op) => {
                if 1 + operand_width(op) as int > bytes.len() {
                    None
                } else {
                    match stack_effect(bytes.skip(1 + operand_width(op) as int)) {
                        None => None,
                        Some(rest) => Some(op_effect(op) + rest),
                    }
                }
            },
        }
    }
}

/// Stack effects add over concatenation of decodable runs.
pub proof fn lemma_stack_effect_add(a: Seq<u8>, b: Seq<u8>, ea: int, eb: int)
    requires
        stack_effect(a) == Some(ea),
        stack_effect(b) == Some(eb),
    ensures
        stack_effect(a + b) == Some(ea + eb),
    decreases a.len(),
{
    if a.len() == 0 {
        assert(a + b =~= b);
    } else {
        let op = byte_opcode(a[0]).unwrap();
        let w = 1 + operand_width(op) as int;
        assert((a + b)[0] == a[0]);
        assert((a + b).skip(w) =~= a.skip(w) + b);
        let rest = stack_effect(a.skip(w)).unwrap();
        lemma_stack_effect_add(a.skip(w), b, rest, eb);
    }
}

/// One operand-free instruction has its opcode's effect.
pub proof fn lemma_stack_effect_one(op: OpCode)
    requires
        operand_width(op) == 0,
    ensures
        stack_effect(seq![opcode_byte(op)]) == Some(op_effect(op)),
{
    let s = seq![opcode_byte(op)];
    lemma_opcode_round_trip(op, opcode_byte(op));
    assert(s[0] == opcode_byte(op));
    assert(s.skip(1) =~= Seq::<u8>::empty());
    assert(stack_effect(Seq::<u8>::empty()) == Some(0int));
    assert(stack_effect(s.skip(1)) == Some(0int));
}

/// One instruction with its operand byte has its opcode's effect.
pub proof fn lemma_stack_effect_two(op: OpCode, operand: u8)
    requires
        operand_width(op) == 1,
    ensures
        stack_effect(seq![opcode_byte(op), operand]) == Some(op_effect(op)),
{
    let s = seq![opcode_byte(op), operand];
    lemma_opcode_round_trip(op, opcode_byte(op));
    assert(s[0] == opcode_byte(op));
    assert(s.skip(2) =~= Seq::<u8>::empty());
    assert(stack_effect(Seq::<u8>::empty()) == Some(0int));
    assert(stack_effect(s.skip(2)) == Some(0int));
}


/// Whether an instruction's operand is a valid constant-pool index for a
/// pool of `n` values; instructions without a pool operand pass.
pub open spec fn pool_index_ok(op: OpCode, operand: u8, n: int) -> bool {
    match op {
        OpCode::OP_CONST => operand < n,
        OpCode::OP_DEF_GLOBAL => operand < n,
        OpCode::OP_GET_GLOBAL => operand < n,
        OpCode::OP_SET_GLOBAL => operand < n,
        _ => true,
    }
}

/// Whether a run of bytecode decodes instruction by instruction with every
/// constant-pool operand inside a pool of `n` values.
pub open spec fn consts_in_range(bytes: Seq<u8>, n: int) -> bool
    decreases bytes.len(),
{
    if bytes.len() == 0 {
        true
    } else {
        match byte_opcode(bytes[0]) {
            None => false,
            Some(op) => {
                if 1 + operand_width(op) as int > bytes.len() {
                    false
                } else {
                    &&& (operand_width(op) == 1 ==> pool_index_ok(op, bytes[1], n))
                    &&& consts_in_range(bytes.skip(1 + operand_width(op) as int), n)
                }
            },
        }
    }
}

/// In-range constant operands survive concatenation.
pub proof fn lemma_consts_add(a: Seq<u8>, b: Seq<u8>, n: int)
    requires
        consts_in_range(a, n),
        consts_in_range(b, n),
    ensures
        consts_in_range(a + b, n),
    decreases a.len(),
{
    if a.len() == 0 {
        assert(a + b =~= b);
    } else {
        let op = byte_opcode(a[0]).unwrap();
        let w = 1 + operand_width(op) as int;
        assert((a + b)[0] == a[0]);
        if operand_width(op) == 1 {
            assert((a + b)[1] == a[1]);
        }
        assert((a + b).skip(w) =~= a.skip(w) + b);
        lemma_consts_add(a.skip(w), b, n);
    }
}

/// In-range constant operands survive pool growth.
pub proof fn lemma_consts_mono(bytes: Seq<u8>, n1: int, n2: int)
    requires
        consts_in_range(bytes, n1),
        n1 <= n2,
    ensures
        consts_in_range(bytes, n2),
    decreases bytes.len(),
{
    if bytes.len() > 0 {
        let op = byte_opcode(bytes[0]).unwrap();
        lemma_consts_mono(bytes.skip(1 + operand_width(op) as int), n1, n2);
    }
}

/// One operand-free instruction holds no pool index.
pub proof fn lemma_consts_one(op: OpCode, n: int)
    requires
        operand_width(op) == 0,
    ensures
        consts_in_range(seq![opcode_byte(op)], n),
{
    let s = seq![opcode_byte(op)];
    lemma_opcode_round_trip(op, opcode_byte(op));
    assert(s[0] == opcode_byte(op));
    assert(s.skip(1) =~= Seq::<u8>::empty());
    assert(consts_in_range(s.skip(1), n));
}

/// One instruction with an in-range operand byte is in range.
pub proof fn lemma_consts_two(op: OpCode, operand: u8, n: int)
    requires
        operand_width(op) == 1,
        pool_index_ok(op, operand, n),
    ensures
        consts_in_range(seq![opcode_byte(op), operand], n),
{
    let s = seq![opcode_byte(op), operand];
    lemma_opcode_round_trip(op, opcode_byte(op));
    assert(s[0] == opcode_byte(op));
    assert(s[1] == operand);
    assert(s.skip(2) =~= Seq::<u8>::empty());
    assert(consts_in_range(s.skip(2), n));
}

} // verus!
