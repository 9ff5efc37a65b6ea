//! The descriptor of the x86-64 task state segment, from the segment's
//! address and limit.
use vstd::prelude::*;

verus! {

/// An available 64-bit task state segment.
pub const TSS_TYPE: u8 = 0b00001001;

/// A code or data segment rather than a system one.
pub const NOT_SYSTEM_DESCRIPTOR: u8 = 0b00010000;

/// Usable from user mode.
pub const USER_MODE: u8 = 0b01100000;

/// The descriptor is present.
pub const VALID: u8 = 0b10000000;

/// The flags that share a byte with the top of the limit.
pub const DEFAULT_ADDITIONAL_FLAGS: u8 = 0b00000000;

/// The size of the task state segment, in bytes.
pub const TASK_STATE_SEGMENT_SIZE: usize = 104;

/// The selector of the task state segment in the descriptor table.
pub const TASK_STATE_SEGMENT_SELECTOR: u16 = 0x28;

/// A task state segment descriptor.
#[derive(Clone, Copy, Debug, PartialEq, Eq, Structural)]
pub struct TaskStateSegmentDescriptor {
    pub limit_low: u16,
    pub offset_low: u16,
    pub offset_low_middle: u8,
    pub flags: u8,
    pub limit_high_and_additional_flags: u8,
    pub offset_high_middle: u8,
    pub offset_high: u32,
    pub zero: u32,
}

/// The present descriptor of an available task state segment at `address`
/// whose last byte is at offset `limit`: the address and the limit split
/// over their fields.
pub fn task_state_segment_descriptor(address: u64, limit: u32) -> (r: TaskStateSegmentDescriptor)
    requires
        limit < 0x10_0000,
    ensures
        r.limit_low == limit % 0x1_0000,
        r.limit_high_and_additional_flags == limit / 0x1_0000,
        r.offset_low == address % 0x1_0000,
        r.offset_low_middle == (address / 0x1_0000) % 0x100,
        r.offset_high_middle == (address / 0x100_0000) % 0x100,
        r.offset_high == address / 0x1_0000_0000,
        r.flags == TSS_TYPE | VALID,
        r.zero == 0,
{
    let limit_low = (limit & 0xffff) as u16;
    let limit_high = (limit >> 16u32) as u8;
    let offset_low = (address & 0xffff) as u16;
    let offset_low_middle = ((address >> 16u64) & 0xff) as u8;
    let offset_high_middle = ((address >> 24u64) & 0xff) as u8;
    let offset_high = (address >> 32u64) as u32;
    assert(limit & 0xffff == limit % 0x1_0000 && limit >> 16u32 == limit / 0x1_0000 && limit >> 16u32 < 16
        && (limit_high | 0u8) == limit_high && address & 0xffff == address % 0x1_0000 && (address >> 16u64) & 0xff
        == (address / 0x1_0000) % 0x100 && (address >> 24u64) & 0xff == (address / 0x100_0000) % 0x100 && address
        >> 32u64 == address / 0x1_0000_0000) by (bit_vector)
        requires
            limit < 0x10_0000u32,
            limit_high == (limit >> 16u32) as u8,
    ;
    TaskStateSegmentDescriptor {
        limit_low,
        offset_low,
        offset_low_middle,
        flags: TSS_TYPE | VALID,
        limit_high_and_additional_flags: limit_high | DEFAULT_ADDITIONAL_FLAGS,
        offset_high_middle,
        offset_high,
        zero: 0,
    }
}

} // verus!
