//! The High Precision Event Timer: its ACPI table and the register values
//! that its driver computes.
use vstd::prelude::*;
use crate::bytes::{le_value, read_u16, read_u64};

verus! {

/// The size of the HPET's register block.
pub const HPET_MMIO_SIZE: usize = 1024;

pub const HPET_CAPABILITIES_OFFSET: usize = 0x00;
pub const HPET_GENERAL_CONFIGURATION_OFFSET: usize = 0x10;
pub const HPET_GENERAL_INTERRUPT_STATUS_OFFSET: usize = 0x20;
pub const HPET_MAIN_COUNTER_VALUE_OFFSET: usize = 0xF0;

/// Femtoseconds per second.
pub const FEMTOSECONDS_PER_SECOND: u64 = 1_000_000_000_000_000;

/// The counter period, in femtoseconds, that the capabilities register gives
/// in its upper half.
pub open spec fn counter_clock_period(capabilities: u64) -> u64 {
    capabilities / 0x1_0000_0000
}

/// The counter frequency, in ticks per second, of a capabilities register
/// with a non-zero period.
pub fn frequency_from_capabilities(capabilities: u64) -> (r: u64)
    requires
        counter_clock_period(capabilities) != 0,
    ensures
        r == FEMTOSECONDS_PER_SECOND / counter_clock_period(capabilities),
{
    let counter_clock_period = (capabilities >> 32u64) as u32;
    assert(capabilities >> 32u64 == capabilities / 0x1_0000_0000) by (bit_vector);
    FEMTOSECONDS_PER_SECOND / counter_clock_period as u64
}

/// The counter period is read from the upper half of the capabilities
/// register (bits 32 to 63), whatever the lower half (revision, timer count,
/// vendor) holds: a register whose upper half is `period` and whose lower
/// half is `lower` gives `period`, and a frequency of 10^15 / `period`
/// ticks per second.
pub proof fn law_period_from_upper_half(period: u64, lower: u64)
    requires
        period < 0x1_0000_0000,
        lower < 0x1_0000_0000,
    ensures
        counter_clock_period((period * 0x1_0000_0000 + lower) as u64) == period,
        period != 0 ==> FEMTOSECONDS_PER_SECOND / counter_clock_period((period * 0x1_0000_0000 + lower) as u64)
            == FEMTOSECONDS_PER_SECOND / period,
{
    let c: int = period * 0x1_0000_0000 + lower;
    assert(c < 0x1_0000_0000_0000_0000) by (nonlinear_arith)
        requires
            c == period * 0x1_0000_0000 + lower,
            period < 0x1_0000_0000,
            lower < 0x1_0000_0000,
    ;
    vstd::arithmetic::div_mod::lemma_fundamental_div_mod_converse(c, 0x1_0000_0000, period as int, lower as int);
}

/// The general configuration with the counter and the legacy replacement
/// routing disabled (bits 0 and 1 cleared).
pub fn configuration_without_counter_and_legacy(general_configuration: u64) -> (r: u64)
    ensures
        r == general_configuration & !3u64,
{
    assert(!(1u64 | 1u64 << 1u64) == !3u64) by (bit_vector);
    general_configuration & !(1u64 | 1u64 << 1u64)
}

/// The general configuration with the counter enabled (bit 0 set).
pub fn configuration_enabled(general_configuration: u64) -> (r: u64)
    ensures
        r == general_configuration | 1,
{
    general_configuration | 1
}

/// The general configuration with the counter disabled (bit 0 cleared).
pub fn configuration_disabled(general_configuration: u64) -> (r: u64)
    ensures
        r == general_configuration & !1u64,
{
    general_configuration & !1
}

/// An HPET: where its registers are and how fast its counter runs.
pub struct Hpet {
    mmio_address: usize,
    frequency: u64,
}

impl Hpet {
    pub closed spec fn spec_frequency(&self) -> u64 {
        self.frequency
    }

    pub closed spec fn spec_mmio_address(&self) -> usize {
        self.mmio_address
    }

    /// The HPET at `physical_address` whose capabilities register reads
    /// `capabilities`.
    pub fn new(physical_address: usize, capabilities: u64) -> (r: Self)
        requires
            counter_clock_period(capabilities) != 0,
        ensures
            r.spec_mmio_address() == physical_address,
            r.spec_frequency() == FEMTOSECONDS_PER_SECOND / counter_clock_period(capabilities),
    {
        Hpet { mmio_address: physical_address, frequency: frequency_from_capabilities(capabilities) }
    }

    /// The counter frequency, in ticks per second.
    pub fn frequency(&self) -> (r: u64)
        ensures
            r == self.spec_frequency(),
    {
        self.frequency
    }

    /// Where the registers are.
    pub fn mmio_address(&self) -> (r: usize)
        ensures
            r == self.spec_mmio_address(),
    {
        self.mmio_address
    }
}

/// The size of the body of the ACPI HPET table.
pub const HPET_TABLE_BODY_SIZE: usize = 20;

/// The body of the ACPI HPET table.
#[derive(Clone, Copy, Debug, PartialEq, Eq, Structural)]
pub struct HpetTableBody {
    pub hardware_revision: u8,
    pub counter_info: u8,
    pub pci_vendor_id: u16,
    pub address_space: u8,
    pub bit_width: u8,
    pub bit_offset: u8,
    pub access_width: u8,
    pub address: u64,
    pub hpet_number: u8,
    pub minimum_tick: u16,
    pub page_protection: u8,
}

impl HpetTableBody {
    /// The body laid out (packed, little-endian) at the start of `bytes`, if
    /// they are long enough.
    pub fn from_bytes(bytes: &[u8]) -> (r: Option<Self>)
        ensures
            bytes@.len() < HPET_TABLE_BODY_SIZE <==> r is None,
            r matches Some(b) ==> {
                &&& b.hardware_revision == bytes@[0]
                &&& b.counter_info == bytes@[1]
                &&& b.pci_vendor_id == le_value(bytes@, 2, 2)
                &&& b.address_space == bytes@[4]
                &&& b.bit_width == bytes@[5]
                &&& b.bit_offset == bytes@[6]
                &&& b.access_width == bytes@[7]
                &&& b.address == le_value(bytes@, 8, 8)
                &&& b.hpet_number == bytes@[16]
                &&& b.minimum_tick == le_value(bytes@, 17, 2)
                &&& b.page_protection == bytes@[19]
            },
    {
        if bytes.len() < HPET_TABLE_BODY_SIZE {
            return None;
        }
        Some(HpetTableBody {
            hardware_revision: bytes[0],
            counter_info: bytes[1],
            pci_vendor_id: read_u16(bytes, 2),
            address_space: bytes[4],
            bit_width: bytes[5],
            bit_offset: bytes[6],
            access_width: bytes[7],
            address: read_u64(bytes, 8),
            hpet_number: bytes[16],
            minimum_tick: read_u16(bytes, 17),
            page_protection: bytes[19],
        })
    }

    /// Every body is taken as valid.
    pub fn validate(&self) -> (r: bool)
        ensures
            r,
    {
        true
    }
}

pub const COUNTER_INFO_COMPARATOR_COUNT_MASK: u8 = 0b0001_1111;
pub const COUNTER_INFO_64_BIT: u8 = 0b0010_0000;
pub const COUNTER_INFO_LEGACY_REPLACEMENT: u8 = 0b1000_0000;

/// What the HPET table says of the timer.
#[derive(Clone, Copy, Debug, PartialEq, Eq, Structural)]
pub struct HpetInfo {
    pub address: u64,
    pub comparator_count: u8,
    pub is_64_bit: bool,
    pub legacy_replacement: bool,
}

/// What the HPET table whose body is `bytes` says of the timer.
pub open spec fn hpet_info_of(bytes: Seq<u8>) -> HpetInfo {
    HpetInfo {
        address: le_value(bytes, 8, 8) as u64,
        comparator_count: ((bytes[1] & COUNTER_INFO_COMPARATOR_COUNT_MASK) + 1) as u8,
        is_64_bit: bytes[1] & COUNTER_INFO_64_BIT != 0,
        legacy_replacement: bytes[1] & COUNTER_INFO_LEGACY_REPLACEMENT != 0,
    }
}

impl HpetInfo {
    /// The timer described by a table body: its address, its number of
    /// comparators (the low five bits of the counter information, plus
    /// one), whether its counter has 64 bits (bit 5) and whether it can
    /// replace the legacy timers (bit 7).
    pub fn new(body: &HpetTableBody) -> (r: HpetInfo)
        ensures
            r.address == body.address,
            r.comparator_count == (body.counter_info & COUNTER_INFO_COMPARATOR_COUNT_MASK) + 1,
            r.is_64_bit == (body.counter_info & COUNTER_INFO_64_BIT != 0),
            r.legacy_replacement == (body.counter_info & COUNTER_INFO_LEGACY_REPLACEMENT != 0),
    {
        let counter_info = body.counter_info;
        assert(counter_info & 0b0001_1111u8 <= 31) by (bit_vector);
        HpetInfo {
            address: body.address,
            comparator_count: (counter_info & COUNTER_INFO_COMPARATOR_COUNT_MASK) + 1,
            is_64_bit: counter_info & COUNTER_INFO_64_BIT != 0,
            legacy_replacement: counter_info & COUNTER_INFO_LEGACY_REPLACEMENT != 0,
        }
    }
}

} // verus!
