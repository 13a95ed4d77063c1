//! Byte-order helpers for multi-byte operands.

use vstd::prelude::*;

verus! {

/// Reads a little-endian number from the first three bytes of a four-byte
/// group: the disassembler's view of a wide constant index.
pub fn byte_array_to_u32(byte: &[u8; 4]) -> (r: u32)
    ensures
        r == byte@[0] + byte@[1] * 0x100 + byte@[2] * 0x10000,
{
    (byte[0] as u32) + ((byte[1] as u32) * 0x100) + ((byte[2] as u32) * 0x10000)
}

} // verus!
