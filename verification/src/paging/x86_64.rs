//! The x86-64 page-table format.
use vstd::prelude::*;
use super::{MemoryType, PagePermissions};

verus! {

/// The page-table index of the recursive mapping (the last 2 GiB hold the
/// kernel, so 511 cannot be used).
pub const RECURSIVE_PAGE_TABLE_INDEX: usize = 256;

/// The address at which the recursive mapping starts: index 256 is the first
/// entry of the higher half of the virtual address space.
pub const RECURSIVE_PAGE_TABLE_POINTER: u64 = 0xffff_8000_0000_0000;

/// The bits of an entry that hold the physical address.
pub const PHYSICAL_PAGE_MASK: u64 = 0x000f_ffff_ffff_f000;

pub const PRESENT: u64 = 1;
pub const WRITEABLE: u64 = 2;
pub const USER_ACCESSIBLE: u64 = 4;
pub const WRITE_THROUGH: u64 = 8;
pub const CACHE_DISABLED: u64 = 16;
pub const ACCESSED: u64 = 32;
pub const DIRTY: u64 = 64;
pub const HUGE_PAGE: u64 = 128;
pub const GLOBAL: u64 = 256;
pub const NO_EXECUTE: u64 = 0x8000_0000_0000_0000;

/// Every flag bit that has a name.
pub const ALL_FLAGS: u64 = 0x8000_0000_0000_01ff;

/// The index of the recursive mapping, for either half.
pub fn recursive_mapping_index(_upper_half: bool) -> (r: usize)
    ensures
        r == RECURSIVE_PAGE_TABLE_INDEX,
{
    RECURSIVE_PAGE_TABLE_INDEX
}

/// The address of the recursive mapping, for either half.
pub fn recursive_mapping_address(_upper_half: bool) -> (r: u64)
    ensures
        r == RECURSIVE_PAGE_TABLE_POINTER,
{
    RECURSIVE_PAGE_TABLE_POINTER
}

/// Whether `address` lies in the user (lower) half.
pub fn is_valid_user_address(address: usize) -> (r: bool)
    ensures
        r == (address < 0x8000_0000_0000_0000u64),
{
    (address as u64) < 0x8000_0000_0000_0000u64
}

/// A set of page-table entry flags.
#[derive(Clone, Copy, Debug, PartialEq, Eq, Structural)]
pub struct PageTableFlags {
    bits: u64,
}

/// The flags that `from_type_permissions` gives: present and accessed, and
/// writeable, no-execute, user-accessible and cache-disabled as the type and
/// permissions ask.
pub open spec fn type_permission_bits(memory_type: MemoryType, permissions: PagePermissions) -> u64 {
    (PRESENT + ACCESSED + (if permissions.writable { WRITEABLE } else { 0 }) + (if !permissions.executable {
        NO_EXECUTE
    } else {
        0
    }) + (if permissions.user { USER_ACCESSIBLE } else { 0 }) + (if memory_type == MemoryType::Device {
        CACHE_DISABLED
    } else {
        0
    })) as u64
}

/// The flags of a leaf entry as single bits.
proof fn lemma_flag_bits(writeable: u64, no_execute: u64, user: u64, cache_disabled: u64)
    by (bit_vector)
    requires
        writeable == 0 || writeable == 2,
        no_execute == 0 || no_execute == 0x8000_0000_0000_0000u64,
        user == 0 || user == 4,
        cache_disabled == 0 || cache_disabled == 16,
    ensures
        ({
            let f = (33u64 + writeable + no_execute + user + cache_disabled) as u64;
            &&& f & 1 != 0 && f & 32 != 0
            &&& (f & 2 != 0) == (writeable == 2)
            &&& (f & 4 != 0) == (user == 4)
            &&& (f & 16 != 0) == (cache_disabled == 16)
            &&& (f & 0x8000_0000_0000_0000u64 != 0) == (no_execute == 0x8000_0000_0000_0000u64)
            &&& f & 0x000f_ffff_ffff_f000u64 == 0
        }),
{
}

/// Each permission sets its own flag, whatever the others are: the leaf
/// flags are present and accessed, writeable exactly when writing is
/// allowed, user-accessible exactly when user access is allowed, no-execute
/// exactly when execution is forbidden, cache-disabled exactly for device
/// memory, and hold no address bits.
pub proof fn law_type_permission_flags(memory_type: MemoryType, permissions: PagePermissions)
    ensures
        ({
            let f = type_permission_bits(memory_type, permissions);
            &&& f & PRESENT != 0 && f & ACCESSED != 0
            &&& (f & WRITEABLE != 0) == permissions.writable
            &&& (f & USER_ACCESSIBLE != 0) == permissions.user
            &&& (f & NO_EXECUTE != 0) == !permissions.executable
            &&& (f & CACHE_DISABLED != 0) == (memory_type == MemoryType::Device)
            &&& f & PHYSICAL_PAGE_MASK == 0
        }),
{
    lemma_flag_bits(
        if permissions.writable { 2 } else { 0 },
        if !permissions.executable { 0x8000_0000_0000_0000 } else { 0 },
        if permissions.user { 4 } else { 0 },
        if memory_type == MemoryType::Device { 16 } else { 0 },
    );
}

impl PageTableFlags {
    /// The flags as a word.
    pub closed spec fn value(&self) -> u64 {
        self.bits
    }

    /// The raw bits.
    pub fn bits(&self) -> (r: u64)
        ensures
            r == self.value(),
    {
        self.bits
    }

    /// The named flags among `bits`, dropping the others.
    pub fn from_bits_truncate(bits: u64) -> (r: Self)
        ensures
            r.value() == bits & ALL_FLAGS,
    {
        PageTableFlags { bits: bits & ALL_FLAGS }
    }

    /// Every flag of `other` is set.
    pub fn contains(&self, other: u64) -> (r: bool)
        ensures
            r == (self.value() & other == other),
    {
        self.bits & other == other
    }

    /// The flags of a page-table entry that points to a further page table.
    pub fn internal_page_table() -> (r: Self)
        ensures
            r.value() == PRESENT + ACCESSED + WRITEABLE + USER_ACCESSIBLE,
    {
        let bits = PRESENT | ACCESSED | WRITEABLE | USER_ACCESSIBLE;
        assert(PRESENT | ACCESSED | WRITEABLE | USER_ACCESSIBLE == 39u64) by (bit_vector);
        PageTableFlags { bits }
    }

    /// The flags of a leaf entry for memory of `memory_type` with `permissions`.
    pub fn from_type_permissions(memory_type: MemoryType, permissions: PagePermissions) -> (r: Self)
        ensures
            r.value() == type_permission_bits(memory_type, permissions),
            r.value() & PRESENT != 0 && r.value() & ACCESSED != 0,
            (r.value() & WRITEABLE != 0) == permissions.writable,
            (r.value() & USER_ACCESSIBLE != 0) == permissions.user,
            (r.value() & NO_EXECUTE != 0) == !permissions.executable,
            (r.value() & CACHE_DISABLED != 0) == (memory_type == MemoryType::Device),
    {
        proof {
            law_type_permission_flags(memory_type, permissions);
        }
        let mut flags = PRESENT | ACCESSED;
        let writeable = if permissions.writable { WRITEABLE } else { 0 };
        let no_execute = if !permissions.executable { NO_EXECUTE } else { 0 };
        let user = if permissions.user { USER_ACCESSIBLE } else { 0 };
        let cache_disabled = match memory_type {
            MemoryType::Normal => 0,
            MemoryType::Device => CACHE_DISABLED,
        };
        flags = flags | writeable | no_execute | user | cache_disabled;
        let (w, x, u, d) = (permissions.writable, permissions.executable, permissions.user, memory_type == MemoryType::Device);
        assert(flags == (33u64 + (if w { 2u64 } else { 0u64 }) + (if !x { 0x8000_0000_0000_0000u64 } else { 0u64 }) + (if u { 4u64 } else { 0u64 }) + (if d { 16u64 } else { 0u64 })) as u64)
            by (bit_vector)
            requires
                flags == (((((1u64 | 32u64) | writeable) | no_execute) | user) | cache_disabled),
                writeable == if w { 2u64 } else { 0u64 },
                no_execute == if !x { 0x8000_0000_0000_0000u64 } else { 0u64 },
                user == if u { 4u64 } else { 0u64 },
                cache_disabled == if d { 16u64 } else { 0u64 },
        ;
        PageTableFlags { bits: flags }
    }

    /// The entry is present.
    pub fn is_present(&self) -> (r: bool)
        ensures
            r == (self.value() & PRESENT == PRESENT),
    {
        self.contains(PRESENT)
    }
}

/// The page-table indices of a virtual address, from the top level down,
/// and its half.
#[derive(Clone, Copy, Debug)]
pub struct PageTableIndices {
    pub upper_half: bool,
    pub indices: [usize; 4],
}

/// The size of the region one entry at `level` covers.
pub open spec fn level_span(level: int) -> nat {
    if level == 0 {
        0x80_0000_0000
    } else if level == 1 {
        0x4000_0000
    } else if level == 2 {
        0x20_0000
    } else {
        0x1000
    }
}

/// The four indices of `i` are below 512.
pub open spec fn indices_in_range(i: PageTableIndices) -> bool {
    forall|l: int| 0 <= l < 4 ==> #[trigger] i.indices[l] < 512
}

/// The parent of `i`: the recursive index in front, the others shifted down.
pub open spec fn parent_of(i: PageTableIndices) -> PageTableIndices {
    PageTableIndices {
        upper_half: i.upper_half,
        indices: [RECURSIVE_PAGE_TABLE_INDEX, i.indices[0], i.indices[1], i.indices[2]],
    }
}

/// `i` names the root page table itself.
pub open spec fn is_root(i: PageTableIndices) -> bool {
    forall|l: int| 0 <= l < 4 ==> #[trigger] i.indices[l] == RECURSIVE_PAGE_TABLE_INDEX
}

/// The offset, in entries, of the page-table entry named by `i` from the start
/// of the recursive mapping.
pub open spec fn entry_offset(i: PageTableIndices) -> nat {
    (i.indices[0] * 0x800_0000 + i.indices[1] * 0x4_0000 + i.indices[2] * 0x200 + i.indices[3]) as nat
}

/// The indices and half of `address`.
pub open spec fn page_indices(address: usize) -> PageTableIndices {
    PageTableIndices {
        upper_half: address >= 0x8000_0000_0000_0000u64,
        indices: [
            ((address as nat / level_span(0)) % 512) as usize,
            ((address as nat / level_span(1)) % 512) as usize,
            ((address as nat / level_span(2)) % 512) as usize,
            ((address as nat / level_span(3)) % 512) as usize,
        ],
    }
}

impl PageTableIndices {
    /// The indices and half of `address`.
    pub fn new(address: usize) -> (r: Self)
        ensures
            r.upper_half == (address >= 0x8000_0000_0000_0000u64),
            forall|l: int| 0 <= l < 4 ==> #[trigger] r.indices[l] == ((address as nat) / level_span(l)) % 512,
            indices_in_range(r),
            r == page_indices(address),
    {
        let a = address as u64;
        let indices = [
            ((a / 0x80_0000_0000) % 512) as usize,
            ((a / 0x4000_0000) % 512) as usize,
            ((a / 0x20_0000) % 512) as usize,
            ((a / 0x1000) % 512) as usize,
        ];
        let r = Self {
            // Check if the highest bit is set
            upper_half: a >> 63u64 == 1,
            indices,
        };
        assert(a >> 63u64 == 1 <==> a >= 0x8000_0000_0000_0000u64) by (bit_vector);
        assert forall|l: int| 0 <= l < 4 implies #[trigger] r.indices[l] == ((address as nat) / level_span(l)) % 512 by {
            if l == 0 {} else if l == 1 {} else if l == 2 {} else {}
        }
        assert(r.indices@ =~= page_indices(address).indices@);
        r
    }

    /// The address of the page-table entry the indices name, through the
    /// recursive mapping (entries are 8 bytes).
    pub fn calculate_page_table_entry_address(&self) -> (r: u64)
        requires
            indices_in_range(*self),
        ensures
            r == RECURSIVE_PAGE_TABLE_POINTER + 8 * entry_offset(*self),
    {
        assert(self.indices[0] < 512 && self.indices[1] < 512 && self.indices[2] < 512 && self.indices[3] < 512);
        // Note that the offset is in units of 8 bytes.
        let offset = self.indices[0] as u64 * 0x800_0000 + self.indices[1] as u64 * 0x4_0000
            + self.indices[2] as u64 * 0x200 + self.indices[3] as u64;
        recursive_mapping_address(self.upper_half) + offset * 8
    }

    /// The address of the page table that the entry named by the indices points to.
    pub fn calculate_child_page_table_address(&self) -> (r: u64)
        requires
            indices_in_range(*self),
        ensures
            r == RECURSIVE_PAGE_TABLE_POINTER + 8 * (self.indices[1] * 0x800_0000 + self.indices[2]
                * 0x4_0000 + self.indices[3] * 0x200),
    {
        let child = PageTableIndices {
            upper_half: self.upper_half,
            indices: [self.indices[1], self.indices[2], self.indices[3], 0],
        };
        assert(indices_in_range(child)) by {
            assert(self.indices[1] < 512 && self.indices[2] < 512 && self.indices[3] < 512);
        }
        child.calculate_page_table_entry_address()
    }

    /// The indices name the root page table.
    pub fn is_root_page_table(&self) -> (r: bool)
        ensures
            r == is_root(*self),
    {
        let index = recursive_mapping_index(self.upper_half);
        let r = self.indices[0] == index && self.indices[1] == index && self.indices[2] == index
            && self.indices[3] == index;
        assert(r == is_root(*self)) by {
            if !r {
                assert(exists|l: int| 0 <= l < 4 && #[trigger] self.indices[l] != index) by {
                    if self.indices[0] != index {
                        assert(self.indices[0int] != index);
                    } else if self.indices[1] != index {
                        assert(self.indices[1int] != index);
                    } else if self.indices[2] != index {
                        assert(self.indices[2int] != index);
                    } else {
                        assert(self.indices[3int] != index);
                    }
                }
            }
        }
        r
    }

    /// The indices of the parent page-table entry; the root page table is
    /// its own parent.
    pub fn parent_indices(&self) -> (r: PageTableIndices)
        ensures
            r == parent_of(*self),
    {
        // The first index is the recursive mapping index and everything else is shifted across by one.
        PageTableIndices {
            upper_half: self.upper_half,
            indices: [recursive_mapping_index(self.upper_half), self.indices[0], self.indices[1], self.indices[2]],
        }
    }

    /// The ancestors of the entry, itself included, from the root page
    /// table down, leaving out those that name the root page table.
    pub fn ancestor_indices(&self) -> (r: Vec<PageTableIndices>)
        ensures
            r@ == seq![
                parent_of(parent_of(parent_of(*self))),
                parent_of(parent_of(*self)),
                parent_of(*self),
                *self,
            ].filter(|i: PageTableIndices| !is_root(i)),
    {
        let all = [
            self.parent_indices().parent_indices().parent_indices(),
            self.parent_indices().parent_indices(),
            self.parent_indices(),
            *self,
        ];
        let ghost s = seq![
            parent_of(parent_of(parent_of(*self))),
            parent_of(parent_of(*self)),
            parent_of(*self),
            *self,
        ];
        let mut r: Vec<PageTableIndices> = Vec::new();
        let mut k: usize = 0;
        while k < 4
            invariant
                k <= 4,
                all@ == s,
                r@ == s.take(k as int).filter(|i: PageTableIndices| !is_root(i)),
            decreases 4 - k,
        {
            let candidate = all[k];
            proof {
                reveal(Seq::filter);
                assert(s.take(k as int + 1).drop_last() == s.take(k as int));
                assert(s.take(k as int + 1).last() == s[k as int]);
            }
            if !candidate.is_root_page_table() {
                r.push(candidate);
            }
            k = k + 1;
        }
        assert(s.take(4) == s);
        r
    }
}

} // verus!
