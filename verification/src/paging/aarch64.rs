//! The AArch64 page-table format and the page-table indices of its
//! recursive mappings.
use vstd::prelude::*;
use super::{MemoryType, PagePermissions};

verus! {

/// The recursive page index for the upper half (kernel), set by the bootloader.
pub const UPPER_RECURSIVE_MAPPING_INDEX: usize = 0;
pub const UPPER_RECURSIVE_MAPPING_ADDRESS: u64 = 0xffff_0000_0000_0000;

/// The recursive page index for the lower half: the top of the lower half (index 511).
pub const LOWER_RECURSIVE_MAPPING_INDEX: usize = 511;
pub const LOWER_RECURSIVE_MAPPING_ADDRESS: u64 = 0x0000_ff80_0000_0000;

/// The bits of an entry that hold the physical address.
pub const PHYSICAL_PAGE_MASK: u64 = 0x0000_ffff_ffff_f000;

pub const VALID: u64 = 1;
pub const NOT_BLOCK: u64 = 2;
/// Programmed in the MAIR by the bootloader: MAIR[1] is normal write-back memory.
pub const NORMAL_MEMORY: u64 = 0x304;
/// MAIR[0] is device nGnRnE memory.
pub const DEVICE_MEMORY: u64 = 0;
pub const USER_ACCESSIBLE: u64 = 0x40;
pub const READ_ONLY: u64 = 0x80;
pub const ACCESS: u64 = 0x400;
pub const PRIVILEGED_EXECUTE_NEVER: u64 = 0x20_0000_0000_0000;
pub const USER_EXECUTE_NEVER: u64 = 0x40_0000_0000_0000;

/// Every flag bit that has a name.
pub const ALL_FLAGS: u64 = 0x60_0000_0000_07c7;

/// The recursive mapping index of a half.
pub fn recursive_mapping_index(upper_half: bool) -> (r: usize)
    ensures
        r == if upper_half { UPPER_RECURSIVE_MAPPING_INDEX } else { LOWER_RECURSIVE_MAPPING_INDEX },
{
    if upper_half {
        UPPER_RECURSIVE_MAPPING_INDEX
    } else {
        LOWER_RECURSIVE_MAPPING_INDEX
    }
}

/// The recursive mapping address of a half.
pub fn recursive_mapping_address(upper_half: bool) -> (r: u64)
    ensures
        r == if upper_half { UPPER_RECURSIVE_MAPPING_ADDRESS } else { LOWER_RECURSIVE_MAPPING_ADDRESS },
{
    if upper_half {
        UPPER_RECURSIVE_MAPPING_ADDRESS
    } else {
        LOWER_RECURSIVE_MAPPING_ADDRESS
    }
}

/// Whether `address` lies below the lower half's recursive mapping.
pub fn is_valid_user_address(address: usize) -> (r: bool)
    ensures
        r == (address < LOWER_RECURSIVE_MAPPING_ADDRESS),
{
    (address as u64) < LOWER_RECURSIVE_MAPPING_ADDRESS
}

/// A set of page-table entry flags.
#[derive(Clone, Copy, Debug, PartialEq, Eq, Structural)]
pub struct PageTableFlags {
    bits: u64,
}

/// The flags that `from_type_permissions` gives: valid, table-or-page,
/// accessed, the memory type's attribute, user access with privileged
/// execute-never for user pages and user execute-never otherwise,
/// read-only for read-only pages, and both execute-nevers for
/// non-executable pages.
pub open spec fn type_permission_bits(memory_type: MemoryType, permissions: PagePermissions) -> u64 {
    (VALID + NOT_BLOCK + ACCESS + (if memory_type == MemoryType::Normal {
        NORMAL_MEMORY
    } else {
        DEVICE_MEMORY
    }) + (if permissions.user { USER_ACCESSIBLE } else { 0 }) + (if permissions.user
        || !permissions.executable {
        PRIVILEGED_EXECUTE_NEVER
    } else {
        0
    }) + (if !permissions.user || !permissions.executable {
        USER_EXECUTE_NEVER
    } else {
        0
    }) + (if !permissions.writable { READ_ONLY } else { 0 })) as u64
}

impl PageTableFlags {
    /// The flags as a word.
    pub closed spec fn value(&self) -> u64 {
        self.bits
    }

    /// The raw bits.
    pub fn bits(&self) -> (r: u64)
        ensures
            r == self.value(),
    {
        self.bits
    }

    /// The named flags among `bits`, dropping the others.
    pub fn from_bits_truncate(bits: u64) -> (r: Self)
        ensures
            r.value() == bits & ALL_FLAGS,
    {
        PageTableFlags { bits: bits & ALL_FLAGS }
    }

    /// Every flag of `other` is set.
    pub fn contains(&self, other: u64) -> (r: bool)
        ensures
            r == (self.value() & other == other),
    {
        self.bits & other == other
    }

    /// The flags of an entry that points to a further page table.
    pub fn internal_page_table() -> (r: Self)
        ensures
            r.value() == VALID + NOT_BLOCK + ACCESS + NORMAL_MEMORY,
    {
        let bits = VALID | NOT_BLOCK | ACCESS | NORMAL_MEMORY;
        assert(VALID | NOT_BLOCK | ACCESS | NORMAL_MEMORY == 0x707u64) by (bit_vector);
        PageTableFlags { bits }
    }

    /// The flags of a leaf entry for memory of `memory_type` with `permissions`.
    pub fn from_type_permissions(memory_type: MemoryType, permissions: PagePermissions) -> (r: Self)
        ensures
            r.value() == type_permission_bits(memory_type, permissions),
            r.value() & VALID != 0 && r.value() & NOT_BLOCK != 0 && r.value() & ACCESS != 0,
            (r.value() & NORMAL_MEMORY == NORMAL_MEMORY) == (memory_type == MemoryType::Normal),
            (r.value() & USER_ACCESSIBLE != 0) == permissions.user,
            (r.value() & READ_ONLY != 0) == !permissions.writable,
            (r.value() & PRIVILEGED_EXECUTE_NEVER != 0) == (permissions.user || !permissions.executable),
            (r.value() & USER_EXECUTE_NEVER != 0) == (!permissions.user || !permissions.executable),
    {
        let mut flags = VALID | NOT_BLOCK | ACCESS | match memory_type {
            MemoryType::Normal => NORMAL_MEMORY,
            MemoryType::Device => DEVICE_MEMORY,
        };
        let ghost base = flags;
        if permissions.user {
            flags = flags | USER_ACCESSIBLE;
            flags = flags | PRIVILEGED_EXECUTE_NEVER;
        } else {
            flags = flags | USER_EXECUTE_NEVER;
        }
        let ghost after_user = flags;
        if !permissions.writable {
            flags = flags | READ_ONLY;
        }
        let ghost after_write = flags;
        if !permissions.executable {
            flags = flags | PRIVILEGED_EXECUTE_NEVER;
            flags = flags | USER_EXECUTE_NEVER;
        }
        let (n, u, w, x) = (memory_type == MemoryType::Normal, permissions.user, permissions.writable, permissions.executable);
        assert(flags == (0x403u64 + (if n { 0x304u64 } else { 0u64 }) + (if u { 0x40u64 } else { 0u64 }) + (if u || !x { 0x20_0000_0000_0000u64 } else { 0u64 }) + (if !u || !x { 0x40_0000_0000_0000u64 } else { 0u64 }) + (if !w { 0x80u64 } else { 0u64 })) as u64
            && flags & 1u64 != 0 && flags & 2u64 != 0 && flags & 0x400u64 != 0 && (flags & 0x304u64 == 0x304u64) == n
            && (flags & 0x40u64 != 0) == u && (flags & 0x80u64 != 0) == !w
            && (flags & 0x20_0000_0000_0000u64 != 0) == (u || !x) && (flags & 0x40_0000_0000_0000u64 != 0) == (!u || !x))
            by (bit_vector)
            requires
                base == (((1u64 | 2u64) | 0x400u64) | (if n { 0x304u64 } else { 0u64 })),
                after_user == if u { (base | 0x40u64) | 0x20_0000_0000_0000u64 } else { base | 0x40_0000_0000_0000u64 },
                after_write == if !w { after_user | 0x80u64 } else { after_user },
                flags == if !x { (after_write | 0x20_0000_0000_0000u64) | 0x40_0000_0000_0000u64 } else { after_write },
        ;
        PageTableFlags { bits: flags }
    }

    /// The entry is valid.
    pub fn is_present(&self) -> (r: bool)
        ensures
            r == (self.value() & VALID == VALID),
    {
        self.contains(VALID)
    }
}

/// The page-table indices of a virtual address, one per level, and its half.
#[derive(Clone, Copy, Debug, PartialEq, Eq, Structural)]
pub struct PageTableIndices {
    pub upper_half: bool,
    pub level_0_index: usize,
    pub level_1_index: usize,
    pub level_2_index: usize,
    pub level_3_index: usize,
}

/// The four indices of `i` are below 512.
pub open spec fn indices_in_range(i: PageTableIndices) -> bool {
    &&& i.level_0_index < 512
    &&& i.level_1_index < 512
    &&& i.level_2_index < 512
    &&& i.level_3_index < 512
}

/// The recursive mapping index of the half of `i`.
pub open spec fn half_index(upper_half: bool) -> usize {
    if upper_half { UPPER_RECURSIVE_MAPPING_INDEX } else { LOWER_RECURSIVE_MAPPING_INDEX }
}

/// The parent of `i`: the recursive index in front, the others shifted down.
pub open spec fn parent_of(i: PageTableIndices) -> PageTableIndices {
    PageTableIndices {
        upper_half: i.upper_half,
        level_0_index: half_index(i.upper_half),
        level_1_index: i.level_0_index,
        level_2_index: i.level_1_index,
        level_3_index: i.level_2_index,
    }
}

/// `i` names the root page table itself.
pub open spec fn is_root(i: PageTableIndices) -> bool {
    let r = half_index(i.upper_half);
    i.level_0_index == r && i.level_1_index == r && i.level_2_index == r && i.level_3_index == r
}

impl PageTableIndices {
    /// The indices and half of `address`.
    pub fn new(address: usize) -> (r: Self)
        ensures
            r.upper_half == (address >= 0x8000_0000_0000_0000u64),
            r.level_0_index == (address as u64 >> 39u64) & 0x1ff,
            r.level_1_index == (address as u64 >> 30u64) & 0x1ff,
            r.level_2_index == (address as u64 >> 21u64) & 0x1ff,
            r.level_3_index == (address as u64 >> 12u64) & 0x1ff,
            indices_in_range(r),
    {
        let a = address as u64;
        proof {
            assert((a >> 39u64) & 0x1ff < 512 && (a >> 30u64) & 0x1ff < 512 && (a >> 21u64) & 0x1ff < 512
                && (a >> 12u64) & 0x1ff < 512) by (bit_vector);
        }
        Self {
            upper_half: a >= 0x8000_0000_0000_0000u64,
            level_0_index: ((a >> 39u64) & 0x1ff) as usize,
            level_1_index: ((a >> 30u64) & 0x1ff) as usize,
            level_2_index: ((a >> 21u64) & 0x1ff) as usize,
            level_3_index: ((a >> 12u64) & 0x1ff) as usize,
        }
    }

    /// The page-aligned virtual address the indices name.
    pub fn address(&self) -> (r: u64)
        requires
            indices_in_range(*self),
        ensures
            r == (if self.upper_half { 0xffff_0000_0000_0000u64 } else { 0u64 }) + self.level_0_index
                * 0x80_0000_0000 + self.level_1_index * 0x4000_0000 + self.level_2_index * 0x20_0000
                + self.level_3_index * 0x1000,
    {
        let mut address: u64 = 0;
        if self.upper_half {
            address = address | 0xffff_0000_0000_0000u64;
        }
        let (u, l0, l1, l2, l3) = (self.upper_half, self.level_0_index as u64, self.level_1_index as u64, self.level_2_index as u64, self.level_3_index as u64);
        let ghost base = address;
        address = address | (l0 << 39u64);
        address = address | (l1 << 30u64);
        address = address | (l2 << 21u64);
        address = address | (l3 << 12u64);
        assert(address == (if u { 0xffff_0000_0000_0000u64 } else { 0u64 }) + l0 * 0x80_0000_0000 + l1 * 0x4000_0000 + l2 * 0x20_0000 + l3 * 0x1000)
            by (bit_vector)
            requires
                base == if u { 0u64 | 0xffff_0000_0000_0000u64 } else { 0u64 },
                address == (((base | (l0 << 39u64)) | (l1 << 30u64)) | (l2 << 21u64)) | (l3 << 12u64),
                l0 < 512,
                l1 < 512,
                l2 < 512,
                l3 < 512,
        ;
        address
    }

    /// The address of the page-table entry the indices name, through the
    /// recursive mapping of their half (entries are 8 bytes).
    pub fn calculate_page_table_entry_address(&self) -> (r: u64)
        requires
            indices_in_range(*self),
        ensures
            r == (if self.upper_half { UPPER_RECURSIVE_MAPPING_ADDRESS } else { LOWER_RECURSIVE_MAPPING_ADDRESS })
                + 8 * (self.level_3_index + self.level_2_index * 512 + self.level_1_index * 512 * 512
                + self.level_0_index * 512 * 512 * 512),
    {
        // Note that the offset is in units of 8 bytes.
        let offset = self.level_3_index as u64 + self.level_2_index as u64 * 512 + self.level_1_index as u64
            * 512 * 512 + self.level_0_index as u64 * 512 * 512 * 512;
        if self.upper_half {
            UPPER_RECURSIVE_MAPPING_ADDRESS + offset * 8
        } else {
            LOWER_RECURSIVE_MAPPING_ADDRESS + offset * 8
        }
    }

    /// The address of the page table that the entry named by the indices points to.
    pub fn calculate_child_page_table_address(&self) -> (r: u64)
        requires
            indices_in_range(*self),
        ensures
            r == (if self.upper_half { UPPER_RECURSIVE_MAPPING_ADDRESS } else { LOWER_RECURSIVE_MAPPING_ADDRESS })
                + 8 * (self.level_3_index * 512 + self.level_2_index * 512 * 512
                + self.level_1_index * 512 * 512 * 512),
    {
        let indices = PageTableIndices {
            upper_half: self.upper_half,
            level_0_index: self.level_1_index,
            level_1_index: self.level_2_index,
            level_2_index: self.level_3_index,
            level_3_index: 0,
        };
        indices.calculate_page_table_entry_address()
    }

    /// The indices name the root page table.
    pub fn is_root_page_table(&self) -> (r: bool)
        ensures
            r == is_root(*self),
    {
        self.level_0_index == recursive_mapping_index(self.upper_half) && self.level_1_index
            == recursive_mapping_index(self.upper_half) && self.level_2_index == recursive_mapping_index(
            self.upper_half,
        ) && self.level_3_index == recursive_mapping_index(self.upper_half)
    }

    /// The indices of the parent page-table entry; the root page table is
    /// its own parent.
    pub fn parent_indices(&self) -> (r: PageTableIndices)
        ensures
            r == parent_of(*self),
    {
        PageTableIndices {
            upper_half: self.upper_half,
            level_0_index: recursive_mapping_index(self.upper_half),
            level_1_index: self.level_0_index,
            level_2_index: self.level_1_index,
            level_3_index: self.level_2_index,
        }
    }

    /// The ancestors of the entry, itself included, from the root page
    /// table down, leaving out those that name the root page table.
    pub fn ancestor_indices(&self) -> (r: Vec<PageTableIndices>)
        ensures
            r@ == seq![
                parent_of(parent_of(parent_of(*self))),
                parent_of(parent_of(*self)),
                parent_of(*self),
                *self,
            ].filter(|i: PageTableIndices| !is_root(i)),
    {
        let all = [
            self.parent_indices().parent_indices().parent_indices(),
            self.parent_indices().parent_indices(),
            self.parent_indices(),
            *self,
        ];
        let ghost s = seq![
            parent_of(parent_of(parent_of(*self))),
            parent_of(parent_of(*self)),
            parent_of(*self),
            *self,
        ];
        let mut r: Vec<PageTableIndices> = Vec::new();
        let mut k: usize = 0;
        while k < 4
            invariant
                k <= 4,
                all@ == s,
                r@ == s.take(k as int).filter(|i: PageTableIndices| !is_root(i)),
            decreases 4 - k,
        {
            let candidate = all[k];
            proof {
                reveal(Seq::filter);
                assert(s.take(k as int + 1).drop_last() == s.take(k as int));
                assert(s.take(k as int + 1).last() == s[k as int]);
            }
            if !candidate.is_root_page_table() {
                r.push(candidate);
            }
            k = k + 1;
        }
        assert(s.take(4) == s);
        r
    }
}

} // verus!
