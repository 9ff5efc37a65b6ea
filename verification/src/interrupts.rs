//! x86-64 interrupt descriptors, and what the kernel does with an interrupt.
use vstd::prelude::*;

verus! {

/// The descriptor is present.
pub const IDT_PRESENT: u8 = 0x80;

/// An interrupt gate: interrupts are disabled while the handler runs.
pub const IDT_INTERRUPT_GATE: u8 = 0xE;

/// A trap gate: interrupts stay enabled.
pub const IDT_TRAP_GATE: u8 = 0xF;

/// Reachable from kernel mode only.
pub const IDT_KERNEL_PRIVILEGE: u8 = 0x00;

/// Reachable from user mode too.
pub const IDT_USER_PRIVILEGE: u8 = 0x60;

/// The code segment of the kernel.
pub const KERNEL_CODE_SELECTOR: u16 = 0x08;

/// An entry of the interrupt descriptor table.
#[derive(Clone, Copy, Debug, PartialEq, Eq, Structural)]
pub struct IdtEntry {
    pub offset_low: u16,
    pub selector: u16,
    pub ist: u8,
    pub flags: u8,
    pub offset_middle: u16,
    pub offset_high: u32,
    pub zero: u32,
}

impl IdtEntry {
    /// The present, user-reachable gate for the handler at `offset` in the
    /// kernel code segment: a trap gate when `trap`, else an interrupt gate.
    pub fn new(offset: u64, trap: bool) -> (r: Self)
        ensures
            r.offset_low == offset % 0x1_0000,
            r.offset_middle == (offset / 0x1_0000) % 0x1_0000,
            r.offset_high == offset / 0x1_0000_0000,
            r.selector == KERNEL_CODE_SELECTOR,
            r.ist == 0,
            r.flags == (if trap { 0xEFu8 } else { 0xEEu8 }),
            r.zero == 0,
    {
        let gate = if trap { IDT_TRAP_GATE } else { IDT_INTERRUPT_GATE };
        let flags = IDT_PRESENT | gate | IDT_USER_PRIVILEGE;
        let offset_low = (offset & 0xffff) as u16;
        let offset_middle = ((offset >> 16u64) & 0xffff) as u16;
        let offset_high = (offset >> 32u64) as u32;
        assert(flags == (if trap { 0xEFu8 } else { 0xEEu8 }) && offset & 0xffff == offset % 0x1_0000 && (offset
            >> 16u64) & 0xffff == (offset / 0x1_0000) % 0x1_0000 && offset >> 32u64 == offset / 0x1_0000_0000)
            by (bit_vector)
            requires
                flags == 0x80u8 | gate | 0x60u8,
                gate == (if trap { 0xFu8 } else { 0xEu8 }),
        ;
        IdtEntry {
            offset_low,
            selector: KERNEL_CODE_SELECTOR,
            ist: 0,
            flags,
            offset_middle,
            offset_high,
            zero: 0,
        }
    }
}

/// The vector of the local APIC timer.
pub const TIMER_INTERRUPT: u8 = 0x20;

/// The vector of spurious interrupts.
pub const SPURIOUS_INTERRUPT_VECTOR: u8 = 0xFF;

/// What to do about an interrupt.
#[derive(Clone, Copy, Debug, PartialEq, Eq, Structural)]
pub enum InterruptAction {
    /// Nothing (a spurious interrupt).
    Ignore,
    /// Show a tick, rearm the timer with its frequency and signal the end
    /// of the interrupt.
    TimerTick,
    /// Report the interrupt and the saved registers.
    Report,
}

/// What to do about interrupt `number`.
pub fn handle_interrupt(number: u64) -> (r: InterruptAction)
    ensures
        r == (if number == SPURIOUS_INTERRUPT_VECTOR {
            InterruptAction::Ignore
        } else if number == TIMER_INTERRUPT {
            InterruptAction::TimerTick
        } else {
            InterruptAction::Report
        }),
{
    if number == SPURIOUS_INTERRUPT_VECTOR as u64 {
        return InterruptAction::Ignore;
    }
    if number == TIMER_INTERRUPT as u64 {
        return InterruptAction::TimerTick;
    }
    InterruptAction::Report
}

} // verus!
