//! Little-endian integers read from byte buffers.
use vstd::prelude::*;

verus! {

/// The little-endian value of `n` bytes of `s` at `offset`.
pub open spec fn le_value(s: Seq<u8>, offset: int, n: nat) -> nat
    decreases n,
{
    if n == 0 {
        0
    } else {
        s[offset] as nat + 256 * le_value(s, offset + 1, (n - 1) as nat)
    }
}

/// The `u16` at `offset`.
pub fn read_u16(bytes: &[u8], offset: usize) -> (r: u16)
    requires
        offset + 2 <= bytes@.len(),
    ensures
        r == le_value(bytes@, offset as int, 2),
{
    reveal_with_fuel(le_value, 3);
    bytes[offset] as u16 + bytes[offset + 1] as u16 * 256
}

/// The `u32` at `offset`.
pub fn read_u32(bytes: &[u8], offset: usize) -> (r: u32)
    requires
        offset + 4 <= bytes@.len(),
    ensures
        r == le_value(bytes@, offset as int, 4),
{
    reveal_with_fuel(le_value, 5);
    bytes[offset] as u32 + bytes[offset + 1] as u32 * 0x100 + bytes[offset + 2] as u32 * 0x1_0000
        + bytes[offset + 3] as u32 * 0x100_0000
}

/// The `u64` at `offset`.
pub fn read_u64(bytes: &[u8], offset: usize) -> (r: u64)
    requires
        offset + 8 <= bytes@.len(),
    ensures
        r == le_value(bytes@, offset as int, 8),
{
    reveal_with_fuel(le_value, 9);
    let _length = bytes.len();
    let low = read_u32(bytes, offset) as u64;
    let high = read_u32(bytes, offset + 4) as u64;
    proof {
        lemma_le_value_split(bytes@, offset as int, 4, 4);
    }
    low + high * 0x1_0000_0000
}

/// The value of `a + b` bytes is that of the first `a` plus that of the next
/// `b` scaled by `256^a`.
pub proof fn lemma_le_value_split(s: Seq<u8>, offset: int, a: nat, b: nat)
    requires
        a == 4,
        b == 4,
    ensures
        le_value(s, offset, a + b) == le_value(s, offset, a) + 0x1_0000_0000 * le_value(s, offset + a, b),
{
    reveal_with_fuel(le_value, 9);
}

} // verus!
