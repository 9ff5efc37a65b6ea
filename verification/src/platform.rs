//! Values found during boot and kept for later: the ACPI root table, the
//! initial ramdisk and the local APIC timer frequency.
use vstd::prelude::*;
use crate::init_cell::{InitCell, NoConcurrency};

verus! {

/// Records the address of the ACPI root table (RSDT or XSDT); it must be
/// recorded once only.
pub fn init(root_table_address: &mut InitCell<usize>, rsdt_address: usize, no_concurrency: &NoConcurrency)
    requires
        old(root_table_address).value() is None,
    ensures
        final(root_table_address).value() == Some(rsdt_address),
{
    root_table_address.set(rsdt_address, no_concurrency);
}

/// The address of the ACPI root table, once recorded.
pub fn get_root_table_address(root_table_address: &InitCell<usize>) -> (r: Option<usize>)
    ensures
        r == root_table_address.value(),
{
    match root_table_address.get() {
        Some(address) => Some(*address),
        None => None,
    }
}

/// Records the initial ramdisk; it must be recorded once only.
pub fn set_initial_ramdisk(cell: &mut InitCell<&'static [u8]>, ramdisk: &'static [u8], no_concurrency: &NoConcurrency)
    requires
        old(cell).value() is None,
    ensures
        final(cell).value() == Some(ramdisk),
{
    cell.set(ramdisk, no_concurrency);
}

/// The initial ramdisk, once recorded.
pub fn get_initial_ramdisk(cell: &InitCell<&'static [u8]>) -> (r: Option<&'static [u8]>)
    ensures
        r == cell.value(),
{
    match cell.get() {
        Some(ramdisk) => Some(*ramdisk),
        None => None,
    }
}

/// The frequency of the local APIC timer, in ticks per second.
pub struct TimerFrequency {
    frequency: u64,
}

impl TimerFrequency {
    /// The frequency stored.
    pub closed spec fn value(&self) -> u64 {
        self.frequency
    }

    /// A frequency of zero, until one is measured.
    pub fn new() -> (r: Self)
        ensures
            r.value() == 0,
    {
        TimerFrequency { frequency: 0 }
    }
}

/// Stores the timer frequency.
pub fn set_timer_frequency(timer: &mut TimerFrequency, frequency: u64)
    ensures
        final(timer).value() == frequency,
{
    timer.frequency = frequency;
}

/// The stored timer frequency.
pub fn get_timer_frequency(timer: &TimerFrequency) -> (r: u64)
    ensures
        r == timer.value(),
{
    timer.frequency
}

} // verus!
