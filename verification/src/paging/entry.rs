//! x86-64 page-table entries taken apart into their fields, and the
//! addresses of entries in the recursive mapping.
use vstd::prelude::*;

verus! {

/// The page-table index of the recursive mapping.
pub const RECURSIVE_PAGE_TABLE_INDEX: usize = 256;

/// The start of the recursive mapping.
pub const RECURSIVE_PAGE_TABLE_POINTER: u64 = 0xffff_8000_0000_0000;

/// The bits of an entry that hold the physical address.
pub const PHYSICAL_ADDRESS_MASK: u64 = 0x000f_ffff_ffff_f000;

/// Every bit that [`PageTableEntry`] has a field for.
pub const ENTRY_FIELDS_MASK: u64 = 0x800f_ffff_ffff_f1ff;

/// The fields of a page-table entry (not its layout).
#[derive(Clone, Copy, Debug, PartialEq, Eq, Structural)]
pub struct PageTableEntry {
    pub present: bool,
    pub writeable: bool,
    pub user_accessible: bool,
    pub write_through: bool,
    pub cache_disabled: bool,
    pub accessed: bool,
    pub dirty: bool,
    pub huge_page: bool,
    pub global: bool,
    pub physical_address: u64,
    pub no_execute: bool,
}

/// The entry word of `e`: each flag at its bit (bits 0 to 8, and 63 for
/// no-execute) and the physical address masked to bits 12 to 51.
pub open spec fn entry_word(e: PageTableEntry) -> u64 {
    (if e.present { 1u64 } else { 0u64 }) | (if e.writeable { 2u64 } else { 0u64 }) | (if e.user_accessible {
        4u64
    } else {
        0u64
    }) | (if e.write_through { 8u64 } else { 0u64 }) | (if e.cache_disabled { 16u64 } else { 0u64 }) | (
    if e.accessed {
        32u64
    } else {
        0u64
    }) | (if e.dirty { 64u64 } else { 0u64 }) | (if e.huge_page { 128u64 } else { 0u64 }) | (if e.global {
        256u64
    } else {
        0u64
    }) | (e.physical_address & PHYSICAL_ADDRESS_MASK) | (if e.no_execute {
        0x8000_0000_0000_0000u64
    } else {
        0u64
    })
}

/// The fields of the entry word `w`.
pub open spec fn entry_fields(w: u64) -> PageTableEntry {
    PageTableEntry {
        present: w & 1 != 0,
        writeable: w & 2 != 0,
        user_accessible: w & 4 != 0,
        write_through: w & 8 != 0,
        cache_disabled: w & 16 != 0,
        accessed: w & 32 != 0,
        dirty: w & 64 != 0,
        huge_page: w & 128 != 0,
        global: w & 256 != 0,
        physical_address: w & PHYSICAL_ADDRESS_MASK,
        no_execute: w & 0x8000_0000_0000_0000 != 0,
    }
}

/// The entry word of `data`.
pub fn construct_page_table_entry(data: PageTableEntry) -> (r: u64)
    ensures
        r == entry_word(data),
{
    let present: u64 = if data.present { 1 } else { 0 };
    let writeable: u64 = if data.writeable { 2 } else { 0 };
    let user_accessible: u64 = if data.user_accessible { 4 } else { 0 };
    let write_through: u64 = if data.write_through { 8 } else { 0 };
    let cache_disabled: u64 = if data.cache_disabled { 16 } else { 0 };
    let accessed: u64 = if data.accessed { 32 } else { 0 };
    let dirty: u64 = if data.dirty { 64 } else { 0 };
    let huge_page: u64 = if data.huge_page { 128 } else { 0 };
    let global: u64 = if data.global { 256 } else { 0 };
    let no_execute: u64 = if data.no_execute { 0x8000_0000_0000_0000 } else { 0 };
    present | writeable | user_accessible | write_through | cache_disabled | accessed | dirty | huge_page
        | global | (data.physical_address & PHYSICAL_ADDRESS_MASK) | no_execute
}

/// The fields of the entry word `entry`.
pub fn deconstruct_page_table_entry(entry: u64) -> (r: PageTableEntry)
    ensures
        r == entry_fields(entry),
{
    PageTableEntry {
        present: entry & 1 != 0,
        writeable: entry & 2 != 0,
        user_accessible: entry & 4 != 0,
        write_through: entry & 8 != 0,
        cache_disabled: entry & 16 != 0,
        accessed: entry & 32 != 0,
        dirty: entry & 64 != 0,
        huge_page: entry & 128 != 0,
        global: entry & 256 != 0,
        physical_address: entry & PHYSICAL_ADDRESS_MASK,
        no_execute: entry & 0x8000_0000_0000_0000 != 0,
    }
}

/// The address, in the recursive mapping, of the entry with the given
/// indices (each below 512; entries are 8 bytes).
pub fn get_page_table_entry_address(pml4_index: usize, pml3_index: usize, pml2_index: usize, pml1_index: usize) -> (r: u64)
    requires
        pml4_index < 512,
        pml3_index < 512,
        pml2_index < 512,
        pml1_index < 512,
    ensures
        r == RECURSIVE_PAGE_TABLE_POINTER + 8 * (pml1_index + pml2_index * 512 + pml3_index * 512 * 512
            + pml4_index * 512 * 512 * 512),
{
    let offset = pml1_index as u64 + pml2_index as u64 * 512 + pml3_index as u64 * 512 * 512 + pml4_index as u64
        * 512 * 512 * 512;
    RECURSIVE_PAGE_TABLE_POINTER + offset * 8
}

/// The page-table indices of a virtual address, one per level.
#[derive(Clone, Copy, Debug, PartialEq, Eq, Structural)]
pub struct PageTableIndices {
    pub pml4_index: usize,
    pub pml3_index: usize,
    pub pml2_index: usize,
    pub pml1_index: usize,
}

/// The index of `address` at the level whose entries cover `1 << shift` bytes.
pub open spec fn level_index(address: u64, shift: u64) -> usize {
    ((address >> shift) & 0x1ff) as usize
}

/// The indices of `address`, from bits 39, 30, 21 and 12 upwards.
pub fn deconstruct_virtual_address(address: usize) -> (r: PageTableIndices)
    ensures
        r.pml4_index == level_index(address as u64, 39),
        r.pml3_index == level_index(address as u64, 30),
        r.pml2_index == level_index(address as u64, 21),
        r.pml1_index == level_index(address as u64, 12),
        r.pml4_index < 512 && r.pml3_index < 512 && r.pml2_index < 512 && r.pml1_index < 512,
{
    let a = address as u64;
    proof {
        assert((a >> 39u64) & 0x1ff < 512 && (a >> 30u64) & 0x1ff < 512 && (a >> 21u64) & 0x1ff < 512
            && (a >> 12u64) & 0x1ff < 512) by (bit_vector);
    }
    PageTableIndices {
        pml4_index: ((a >> 39u64) & 0x1ff) as usize,
        pml3_index: ((a >> 30u64) & 0x1ff) as usize,
        pml2_index: ((a >> 21u64) & 0x1ff) as usize,
        pml1_index: ((a >> 12u64) & 0x1ff) as usize,
    }
}

/// Whether `address` lies in the user (lower) half.
pub fn is_valid_user_address(address: usize) -> (r: bool)
    ensures
        r == (address < 0x0000_8000_0000_0000u64),
{
    (address as u64) < 0x0000_8000_0000_0000u64
}

/// Taking an entry word apart gives back every flag it was built from, and
/// the physical address taken to its bits 12 to 51.
pub proof fn lemma_entry_flags_of_word(e: PageTableEntry)
    ensures
        entry_fields(entry_word(e)) == (PageTableEntry {
            present: e.present,
            writeable: e.writeable,
            user_accessible: e.user_accessible,
            write_through: e.write_through,
            cache_disabled: e.cache_disabled,
            accessed: e.accessed,
            dirty: e.dirty,
            huge_page: e.huge_page,
            global: e.global,
            physical_address: e.physical_address & PHYSICAL_ADDRESS_MASK,
            no_execute: e.no_execute,
        }),
        e.physical_address & !PHYSICAL_ADDRESS_MASK == 0 ==> e.physical_address & PHYSICAL_ADDRESS_MASK
            == e.physical_address,
{
    let w = entry_word(e);
    let (p, wr, u, t, c, a, d, h, g, x) = (e.present, e.writeable, e.user_accessible, e.write_through, e.cache_disabled, e.accessed, e.dirty, e.huge_page, e.global, e.no_execute);
    let phys = e.physical_address;
    assert(w == (if p { 1u64 } else { 0u64 }) | (if wr { 2u64 } else { 0u64 }) | (if u { 4u64 } else { 0u64 }) | (if t { 8u64 } else { 0u64 }) | (if c { 16u64 } else { 0u64 }) | (if a { 32u64 } else { 0u64 }) | (if d { 64u64 } else { 0u64 }) | (if h { 128u64 } else { 0u64 }) | (if g { 256u64 } else { 0u64 }) | (phys & 0x000f_ffff_ffff_f000u64) | (if x { 0x8000_0000_0000_0000u64 } else { 0u64 }));
    assert((w & 1 != 0) == p && (w & 2 != 0) == wr && (w & 4 != 0) == u && (w & 8 != 0) == t && (w & 16 != 0) == c
        && (w & 32 != 0) == a && (w & 64 != 0) == d && (w & 128 != 0) == h && (w & 256 != 0) == g
        && (w & 0x8000_0000_0000_0000u64 != 0) == x && (w & 0x000f_ffff_ffff_f000u64) == (phys & 0x000f_ffff_ffff_f000u64)
        && (phys & !0x000f_ffff_ffff_f000u64 == 0 ==> phys & 0x000f_ffff_ffff_f000u64 == phys))
        by (bit_vector)
        requires
            w == (if p { 1u64 } else { 0u64 }) | (if wr { 2u64 } else { 0u64 }) | (if u { 4u64 } else { 0u64 }) | (if t { 8u64 } else { 0u64 }) | (if c { 16u64 } else { 0u64 }) | (if a { 32u64 } else { 0u64 }) | (if d { 64u64 } else { 0u64 }) | (if h { 128u64 } else { 0u64 }) | (if g { 256u64 } else { 0u64 }) | (phys & 0x000f_ffff_ffff_f000u64) | (if x { 0x8000_0000_0000_0000u64 } else { 0u64 }),
    ;
}

/// Taking an entry word apart gives back the fields it was built from,
/// when the physical address lies within bits 12 to 51 and is page-aligned.
pub proof fn lemma_entry_fields_of_word(e: PageTableEntry)
    requires
        e.physical_address & !PHYSICAL_ADDRESS_MASK == 0,
    ensures
        entry_fields(entry_word(e)) == e,
{
    lemma_entry_flags_of_word(e);
}

/// Building a word from the fields of `w` keeps exactly the bits of `w`
/// that have a field.
pub proof fn lemma_word_of_entry_fields(w: u64)
    ensures
        entry_word(entry_fields(w)) == w & ENTRY_FIELDS_MASK,
{
    assert((if w & 1 != 0 { 1u64 } else { 0u64 }) | (if w & 2 != 0 { 2u64 } else { 0u64 }) | (if w & 4 != 0 { 4u64 } else { 0u64 }) | (if w & 8 != 0 { 8u64 } else { 0u64 }) | (if w & 16 != 0 { 16u64 } else { 0u64 }) | (if w & 32 != 0 { 32u64 } else { 0u64 }) | (if w & 64 != 0 { 64u64 } else { 0u64 }) | (if w & 128 != 0 { 128u64 } else { 0u64 }) | (if w & 256 != 0 { 256u64 } else { 0u64 }) | ((w & 0x000f_ffff_ffff_f000u64) & 0x000f_ffff_ffff_f000u64) | (if w & 0x8000_0000_0000_0000u64 != 0 { 0x8000_0000_0000_0000u64 } else { 0u64 })
        == w & 0x800f_ffff_ffff_f1ffu64) by (bit_vector);
}

} // verus!
