//! Mapping single pages given by memory tokens: the page tables are reached
//! through the recursive mapping by the indices of their entries, and those
//! missing above a page are created from the top.
use vstd::prelude::*;
use crate::memory_token::{AllocatedMemoryToken, MemoryToken, PhysicalMemoryToken, VirtualMemoryToken};
use crate::paging::{MemoryType, PagePermissions, PAGE_SIZE};
use crate::paging::tables::{PageTableMemory, word_at, zeroed_table, is_present_word, entry_address, in_table, lemma_entry_address_injective, lemma_entry_addresses_injective};
use crate::paging::x86_64::{
    PageTableIndices, PageTableFlags, indices_in_range, page_indices, parent_of, is_root, entry_offset, type_permission_bits,
    PHYSICAL_PAGE_MASK, RECURSIVE_PAGE_TABLE_POINTER, PRESENT, ACCESSED, WRITEABLE, USER_ACCESSIBLE, ALL_FLAGS,
    NO_EXECUTE, CACHE_DISABLED,
    RECURSIVE_PAGE_TABLE_INDEX,
};

verus! {

/// Stands for holding the lock of the page tables: paging code cannot make
/// one up.
pub struct Lock {
    _private: (),
}

impl Lock {
    /// The lock; there must be only one.
    pub fn new() -> (r: Self) {
        Lock { _private: () }
    }
}

/// The address of the entry named by `indices`.
pub open spec fn indices_entry_address(indices: PageTableIndices) -> u64 {
    (RECURSIVE_PAGE_TABLE_POINTER + 8 * entry_offset(indices)) as u64
}

/// The address of the table the entry named by `indices` points to.
pub open spec fn indices_child_table(indices: PageTableIndices) -> u64 {
    (RECURSIVE_PAGE_TABLE_POINTER + 8 * (indices.indices[1] * 0x800_0000 + indices.indices[2] * 0x4_0000
        + indices.indices[3] * 0x200)) as u64
}

/// The ancestors of the entry named by `indices`, itself included, from the
/// root page table down, leaving out those that name the root page table.
pub open spec fn ancestors(indices: PageTableIndices) -> Seq<PageTableIndices> {
    seq![parent_of(parent_of(parent_of(indices))), parent_of(parent_of(indices)), parent_of(indices), indices].filter(
        |i: PageTableIndices| !is_root(i),
    )
}

/// Every entry from the root down to the one named by `indices` is present.
pub open spec fn entry_present(words: Map<u64, u64>, indices: PageTableIndices) -> bool {
    forall|k: int|
        0 <= k < ancestors(indices).len() ==> is_present_word(
            #[trigger] word_at(words, indices_entry_address(ancestors(indices)[k])),
        )
}

/// The entry word of a table entry for a new table at `physical`.
pub open spec fn internal_entry_word(physical: u64) -> u64 {
    ((PRESENT + ACCESSED + WRITEABLE + USER_ACCESSIBLE) as u64) | (physical & PHYSICAL_PAGE_MASK)
}

/// `words` after creating the table the entry named by `indices` points to,
/// at `physical`: the entry is set and the table zeroed.
pub open spec fn with_created_table(words: Map<u64, u64>, indices: PageTableIndices, physical: u64) -> Map<u64, u64> {
    zeroed_table(words.insert(indices_entry_address(indices), internal_entry_word(physical)), indices_child_table(indices))
}

/// `words` after making sure of the tables named by `path`, from its first:
/// each whose entry (or an ancestor's) is not present is created, at the
/// matching address of `physical`.
pub open spec fn with_tables_along(words: Map<u64, u64>, path: Seq<PageTableIndices>, physical: Seq<u64>) -> Map<
    u64,
    u64,
>
    decreases path.len(),
{
    if path.len() == 0 {
        words
    } else {
        let before = with_tables_along(words, path.drop_last(), physical.drop_last());
        if entry_present(before, path.last()) {
            before
        } else {
            with_created_table(before, path.last(), physical.last())
        }
    }
}

/// The new page tables that `with_tables_along` creates, in order: for each
/// entry of `path` that is not present when its turn comes, the matching
/// address of `physical`.
pub open spec fn tables_along_created(words: Map<u64, u64>, path: Seq<PageTableIndices>, physical: Seq<u64>) -> Seq<
    u64,
>
    decreases path.len(),
{
    if path.len() == 0 {
        Seq::empty()
    } else {
        let before = with_tables_along(words, path.drop_last(), physical.drop_last());
        tables_along_created(words, path.drop_last(), physical.drop_last()) + if entry_present(before, path.last()) {
            Seq::empty()
        } else {
            seq![physical.last()]
        }
    }
}

/// The indices of every ancestor are in range.
proof fn lemma_ancestors_in_range(indices: PageTableIndices)
    requires
        indices_in_range(indices),
    ensures
        forall|k: int| 0 <= k < ancestors(indices).len() ==> indices_in_range(#[trigger] ancestors(indices)[k]),
        indices_in_range(parent_of(indices)),
{
    let s = seq![parent_of(parent_of(parent_of(indices))), parent_of(parent_of(indices)), parent_of(indices), indices];
    assert forall|k: int| 0 <= k < s.len() implies indices_in_range(#[trigger] s[k]) by {
        assert(indices.indices[0] < 512 && indices.indices[1] < 512 && indices.indices[2] < 512 && indices.indices[3] < 512);
    }
    let f = |i: PageTableIndices| !is_root(i);
    assert forall|k: int| 0 <= k < ancestors(indices).len() implies indices_in_range(#[trigger] ancestors(indices)[k]) by {
        let x = ancestors(indices)[k];
        assert(ancestors(indices).contains(x));
        s.lemma_filter_contains_rev(f, x);
        let j = choose|j: int| 0 <= j < s.len() && s[j] == x;
        assert(indices_in_range(s[j]));
    }
}

/// The present flag among the named flags of a word is its present bit.
proof fn lemma_present_flag(entry: u64)
    ensures
        ((entry & ALL_FLAGS) & PRESENT == PRESENT) == is_present_word(entry),
{
    assert((entry & ALL_FLAGS) & PRESENT == PRESENT <==> entry & 1 != 0) by (bit_vector);
}

/// Whether every entry from the root down to the one named by `indices` is
/// present.
pub fn is_page_table_entry_present<M: PageTableMemory>(memory: &M, indices: PageTableIndices, _lock: &Lock) -> (r: bool)
    requires
        indices_in_range(indices),
    ensures
        r == entry_present(memory.words(), indices),
{
    let ancestor_indices = indices.ancestor_indices();
    proof {
        lemma_ancestors_in_range(indices);
        assert forall|j: int| 0 <= j < ancestor_indices@.len() implies indices_in_range(
            #[trigger] ancestor_indices@[j],
        ) by {
            assert(ancestors(indices)[j] == ancestor_indices@[j]);
        }
    }
    let mut k: usize = 0;
    while k < ancestor_indices.len()
        invariant
            k <= ancestor_indices@.len(),
            ancestor_indices@ == ancestors(indices),
            forall|j: int| 0 <= j < ancestor_indices@.len() ==> indices_in_range(#[trigger] ancestor_indices@[j]),
            forall|j: int|
                0 <= j < k ==> is_present_word(
                    #[trigger] word_at(memory.words(), indices_entry_address(ancestor_indices@[j])),
                ),
        decreases ancestor_indices@.len() - k,
    {
        let ancestor = ancestor_indices[k];
        let entry_address = ancestor.calculate_page_table_entry_address();
        assert(entry_address == indices_entry_address(ancestor));
        let entry = memory.read_word(entry_address);
        let flags = PageTableFlags::from_bits_truncate(entry);
        proof {
            lemma_present_flag(entry);
        }
        if !flags.is_present() {
            assert(!is_present_word(word_at(memory.words(), indices_entry_address(ancestor_indices@[k as int]))));
            return false;
        }
        k = k + 1;
    }
    true
}

/// Creates the table that the entry named by `indices` points to: a new
/// page table is entered there, and zeroed. The entries above must be
/// present.
pub fn create_page_table<M: PageTableMemory>(memory: &mut M, indices: PageTableIndices, _lock: &mut Lock) -> (r: Ghost<u64>)
    requires
        indices_in_range(indices),
    ensures
        final(memory).invalidated() == old(memory).invalidated(),
        final(memory).words() == with_created_table(old(memory).words(), indices, r@),
        final(memory).handed_out() == old(memory).handed_out().push(r@),
{
    let entry_address = indices.calculate_page_table_entry_address();
    let physical_page_table = memory.allocate_page_table();
    let flags = PageTableFlags::internal_page_table();
    let entry = flags.bits() | (physical_page_table & PHYSICAL_PAGE_MASK);
    memory.write_word(entry_address, entry);
    let page_table_address = indices.calculate_child_page_table_address();
    assert(indices.indices[1] < 512 && indices.indices[2] < 512 && indices.indices[3] < 512);
    memory.zero_table(page_table_address);
    Ghost(physical_page_table)
}

/// Makes sure that the page tables above the entry named by `indices`
/// exist: each missing one is created, from the top.
pub fn ensure_page_tables_exist<M: PageTableMemory>(memory: &mut M, indices: PageTableIndices, lock: &mut Lock)
    requires
        indices_in_range(indices),
    ensures
        final(memory).invalidated() == old(memory).invalidated(),
        exists|physical: Seq<u64>|
            physical.len() == ancestors(parent_of(indices)).len() && final(memory).words()
                == #[trigger] with_tables_along(old(memory).words(), ancestors(parent_of(indices)), physical)
                && final(memory).handed_out() == old(memory).handed_out() + tables_along_created(
                old(memory).words(),
                ancestors(parent_of(indices)),
                physical,
            ),
{
    let parent = indices.parent_indices();
    let path = parent.ancestor_indices();
    proof {
        lemma_ancestors_in_range(indices);
        lemma_ancestors_in_range(parent);
        assert forall|j: int| 0 <= j < path@.len() implies indices_in_range(#[trigger] path@[j]) by {
            assert(ancestors(parent)[j] == path@[j]);
        }
    }
    let ghost mut physical: Seq<u64> = Seq::empty();
    let mut k: usize = 0;
    while k < path.len()
        invariant
            k <= path@.len(),
            path@ == ancestors(parent_of(indices)),
            forall|j: int| 0 <= j < path@.len() ==> indices_in_range(#[trigger] path@[j]),
            physical.len() == k,
            memory.words() == with_tables_along(old(memory).words(), path@.take(k as int), physical),
            memory.handed_out() == old(memory).handed_out() + tables_along_created(
                old(memory).words(),
                path@.take(k as int),
                physical,
            ),
            memory.invalidated() == old(memory).invalidated(),
        decreases path@.len() - k,
    {
        let ancestor_indices = path[k];
        let ghost before = memory.words();
        let ghost previous = physical;
        let ghost next_path = path@.take(k as int + 1);
        proof {
            assert(next_path.drop_last() == path@.take(k as int));
            assert(next_path.last() == ancestor_indices);
        }
        if !is_page_table_entry_present(memory, ancestor_indices, lock) {
            // The parent table exists, but this page table does not.
            let created = create_page_table(memory, ancestor_indices, lock);
            proof {
                physical = previous.push(created@);
                assert(physical.drop_last() == previous);
                assert(physical.last() == created@);
                assert(with_tables_along(old(memory).words(), next_path, physical) == with_created_table(
                    before,
                    ancestor_indices,
                    created@,
                ));
                assert(tables_along_created(old(memory).words(), next_path, physical) == tables_along_created(
                    old(memory).words(),
                    path@.take(k as int),
                    previous,
                ).push(created@));
            }
        } else {
            proof {
                physical = previous.push(0u64);
                assert(physical.drop_last() == previous);
                assert(with_tables_along(old(memory).words(), next_path, physical) == before);
                assert(tables_along_created(old(memory).words(), next_path, physical) == tables_along_created(
                    old(memory).words(),
                    path@.take(k as int),
                    previous,
                ));
            }
        }
        k = k + 1;
    }
    assert(path@.take(path@.len() as int) == path@);
}

/// The words after mapping the page at `virtual_address` to
/// `physical_address`, with new page tables (where any are needed) at
/// `physical`.
pub open spec fn page_mapping_words(
    words: Map<u64, u64>,
    virtual_address: usize,
    physical_address: usize,
    memory_type: MemoryType,
    permissions: PagePermissions,
    physical: Seq<u64>,
) -> Map<u64, u64> {
    let indices = page_indices(virtual_address);
    with_tables_along(words, ancestors(parent_of(indices)), physical).insert(
        indices_entry_address(indices),
        type_permission_bits(memory_type, permissions) | ((physical_address as u64) & PHYSICAL_PAGE_MASK),
    )
}

/// Maps the page `virtual_address` to the page `physical_address`, creating
/// the missing page tables above it; the mapped page is handed back as an
/// allocation. Both tokens must be single, page-aligned pages.
pub fn create_page_mapping<M: PageTableMemory>(
    memory: &mut M,
    memory_type: MemoryType,
    permissions: PagePermissions,
    physical_address: PhysicalMemoryToken,
    virtual_address: VirtualMemoryToken,
    lock: &mut Lock,
) -> (r: AllocatedMemoryToken)
    requires
        virtual_address.token_address() % PAGE_SIZE == 0,
        virtual_address.token_size() == PAGE_SIZE,
        physical_address.token_address() % PAGE_SIZE == 0,
        physical_address.token_size() == PAGE_SIZE,
    ensures
        final(memory).invalidated() == old(memory).invalidated(),
        exists|physical: Seq<u64>|
            physical.len() == ancestors(parent_of(page_indices(virtual_address.token_address()))).len()
                && final(memory).words() == #[trigger] page_mapping_words(
                old(memory).words(),
                virtual_address.token_address(),
                physical_address.token_address(),
                memory_type,
                permissions,
                physical,
            ) && final(memory).handed_out() == old(memory).handed_out() + tables_along_created(
                old(memory).words(),
                ancestors(parent_of(page_indices(virtual_address.token_address()))),
                physical,
            ),
        r.token_address() == virtual_address.token_address(),
        r.token_size() == PAGE_SIZE,
{
    let indices = PageTableIndices::new(virtual_address.address());
    let flags = PageTableFlags::from_type_permissions(memory_type, permissions);
    let physical = physical_address.address() as u64;
    let entry = flags.bits() | physical & PHYSICAL_PAGE_MASK;
    let entry_address = indices.calculate_page_table_entry_address();
    assert(entry_address == indices_entry_address(indices));
    ensure_page_tables_exist(memory, indices, lock);
    let ghost path = ancestors(parent_of(indices));
    let ghost tables = choose|physical: Seq<u64>|
        physical.len() == path.len() && memory.words() == #[trigger] with_tables_along(old(memory).words(), path, physical)
            && memory.handed_out() == old(memory).handed_out() + tables_along_created(old(memory).words(), path, physical);
    // The entry's page tables now exist, and the pages are the caller's.
    memory.write_word(entry_address, entry);
    assert(memory.words() == page_mapping_words(
        old(memory).words(),
        virtual_address.token_address(),
        physical_address.token_address(),
        memory_type,
        permissions,
        tables,
    ));
    // The mapping is present, so the page can be used.
    AllocatedMemoryToken::new(virtual_address.address(), PAGE_SIZE)
}

/// Unmaps the mapped page `allocated_address` (a single, page-aligned page),
/// giving back the physical page it was mapped to and the virtual page.
pub fn take_page_mapping<M: PageTableMemory>(
    memory: &mut M,
    allocated_address: AllocatedMemoryToken,
    lock: &mut Lock,
) -> (r: (PhysicalMemoryToken, VirtualMemoryToken))
    requires
        allocated_address.token_address() % PAGE_SIZE == 0,
        allocated_address.token_size() == PAGE_SIZE,
        entry_present(old(memory).words(), page_indices(allocated_address.token_address())),
        is_present_word(
            word_at(old(memory).words(), indices_entry_address(page_indices(allocated_address.token_address()))),
        ),
    ensures
        ({
            let entry_address = indices_entry_address(page_indices(allocated_address.token_address()));
            &&& final(memory).words() == old(memory).words().insert(entry_address, 0)
            &&& final(memory).handed_out() == old(memory).handed_out()
            &&& final(memory).invalidated() == old(memory).invalidated().push(allocated_address.token_address())
            &&& r.0.token_address() == (word_at(old(memory).words(), entry_address) & PHYSICAL_PAGE_MASK) as usize
            &&& r.0.token_size() == PAGE_SIZE
            &&& r.1.token_address() == allocated_address.token_address()
            &&& r.1.token_size() == PAGE_SIZE
        }),
{
    let indices = PageTableIndices::new(allocated_address.address());
    let entry_address = indices.calculate_page_table_entry_address();
    assert(entry_address == indices_entry_address(indices));
    if !is_page_table_entry_present(memory, indices, lock) {
        // Taking a page which is not mapped.
        vstd::pervasive::unreached::<()>();
    }
    let entry = memory.read_word(entry_address);
    // The allocation is the caller's, so it may be unmapped.
    memory.write_word(entry_address, 0);
    memory.clear_page_cache(allocated_address.address());
    let flags = PageTableFlags::from_bits_truncate(entry);
    proof {
        lemma_present_flag(entry);
    }
    if !flags.is_present() {
        // Taking a page which is not mapped.
        vstd::pervasive::unreached::<()>();
    }
    let physical_address = entry & PHYSICAL_PAGE_MASK;
    assert(physical_address <= 0x000f_ffff_ffff_f000u64) by (bit_vector)
        requires
            physical_address == entry & 0x000f_ffff_ffff_f000u64,
    ;
    (
        PhysicalMemoryToken::new(physical_address as usize, PAGE_SIZE),
        VirtualMemoryToken::new(allocated_address.address(), PAGE_SIZE),
    )
}

/// The entry named by `i` is the entry of the recursive mapping at its
/// indices, and the table it points to starts at the entry named by its
/// lower indices and 0.
proof fn lemma_indices_addresses(i: PageTableIndices)
    ensures
        indices_entry_address(i) == entry_address(
            i.indices[0] as int,
            i.indices[1] as int,
            i.indices[2] as int,
            i.indices[3] as int,
        ),
        indices_child_table(i) == entry_address(i.indices[1] as int, i.indices[2] as int, i.indices[3] as int, 0),
{
}

/// The entries above a page's entry, from the root down, outside the
/// recursive mapping's own slot: its three ancestors, and with itself the
/// ancestors of the page's entry.
proof fn lemma_page_ancestors(i: PageTableIndices)
    requires
        i.indices[0] != RECURSIVE_PAGE_TABLE_INDEX,
    ensures
        ancestors(parent_of(i)) == seq![parent_of(parent_of(parent_of(i))), parent_of(parent_of(i)), parent_of(i)],
        ancestors(i) == seq![parent_of(parent_of(parent_of(i))), parent_of(parent_of(i)), parent_of(i), i],
{
    let f = |x: PageTableIndices| !is_root(x);
    let p1 = parent_of(i);
    let p2 = parent_of(p1);
    let p3 = parent_of(p2);
    let p4 = parent_of(p3);
    assert(is_root(p4)) by {
        assert(p4.indices[0] == RECURSIVE_PAGE_TABLE_INDEX && p4.indices[1] == RECURSIVE_PAGE_TABLE_INDEX);
        assert(p4.indices[2] == RECURSIVE_PAGE_TABLE_INDEX && p4.indices[3] == RECURSIVE_PAGE_TABLE_INDEX);
    }
    assert(!is_root(p3)) by {
        assert(p3.indices[3] == i.indices[0]);
    }
    assert(!is_root(p2)) by {
        assert(p2.indices[2] == i.indices[0]);
    }
    assert(!is_root(p1)) by {
        assert(p1.indices[1] == i.indices[0]);
    }
    assert(!is_root(i)) by {
        assert(i.indices[0] != RECURSIVE_PAGE_TABLE_INDEX);
    }
    reveal_with_fuel(Seq::filter, 5);
    assert(seq![p4, p3, p2, p1].drop_last() =~= seq![p4, p3, p2]);
    assert(seq![p4, p3, p2].drop_last() =~= seq![p4, p3]);
    assert(seq![p4, p3].drop_last() =~= seq![p4]);
    assert(seq![p4].drop_last() =~= Seq::<PageTableIndices>::empty());
    assert(seq![p4, p3, p2, p1].filter(f) =~= seq![p3, p2, p1]);
    assert(seq![p3, p2, p1, i].drop_last() =~= seq![p3, p2, p1]);
    assert(seq![p3, p2, p1].drop_last() =~= seq![p3, p2]);
    assert(seq![p3, p2].drop_last() =~= seq![p3]);
    assert(seq![p3].drop_last() =~= Seq::<PageTableIndices>::empty());
    assert(seq![p3, p2, p1, i].filter(f) =~= seq![p3, p2, p1, i]);
}

/// The flags of a page entry (or of a new table's entry) have the present
/// bit and none of the address bits, so an entry made of them and an
/// address is present, holds the address's page-frame bits, and has each
/// flag bit exactly when the flags have it.
proof fn lemma_entry_of_flags(writeable: u64, no_execute: u64, user: u64, cache_disabled: u64, address: u64)
    by (bit_vector)
    requires
        writeable == 0 || writeable == 2,
        no_execute == 0 || no_execute == 0x8000_0000_0000_0000u64,
        user == 0 || user == 4,
        cache_disabled == 0 || cache_disabled == 16,
    ensures
        (((33u64 + writeable + no_execute + user + cache_disabled) as u64) | (address & 0x000f_ffff_ffff_f000u64)) & 1 != 0,
        (((33u64 + writeable + no_execute + user + cache_disabled) as u64) | (address & 0x000f_ffff_ffff_f000u64))
            & 0x000f_ffff_ffff_f000u64 == address & 0x000f_ffff_ffff_f000u64,
        ((((33u64 + writeable + no_execute + user + cache_disabled) as u64) | (address & 0x000f_ffff_ffff_f000u64)) & 2
            != 0) == (writeable == 2),
        ((((33u64 + writeable + no_execute + user + cache_disabled) as u64) | (address & 0x000f_ffff_ffff_f000u64)) & 4
            != 0) == (user == 4),
        ((((33u64 + writeable + no_execute + user + cache_disabled) as u64) | (address & 0x000f_ffff_ffff_f000u64)) & 16
            != 0) == (cache_disabled == 16),
        ((((33u64 + writeable + no_execute + user + cache_disabled) as u64) | (address & 0x000f_ffff_ffff_f000u64))
            & 0x8000_0000_0000_0000u64 != 0) == (no_execute == 0x8000_0000_0000_0000u64),
{
}

/// Mapping a page leaves it ready to be taken back: every entry from the
/// root down to the page's is present, and the page's entry holds the
/// page-frame bits of the physical address it was mapped to. So
/// `take_page_mapping`, given the token that `create_page_mapping` handed
/// out (the page at `virtual_address`), may be called, and gives back the
/// physical page at `physical_address` (for a page-aligned address that the
/// entry can hold) and the virtual page at `virtual_address`. The page's
/// entry gives the access that was asked for: writeable exactly when the
/// permissions allow writing, user-accessible exactly when they allow user
/// access, no-execute exactly when they forbid execution, and uncached
/// exactly for device memory.
pub proof fn law_create_then_take(
    words: Map<u64, u64>,
    virtual_address: usize,
    physical_address: usize,
    memory_type: MemoryType,
    permissions: PagePermissions,
    physical: Seq<u64>,
)
    ensures
        ({
            let indices = page_indices(virtual_address);
            let after = page_mapping_words(words, virtual_address, physical_address, memory_type, permissions, physical);
            &&& entry_present(after, indices)
            &&& is_present_word(word_at(after, indices_entry_address(indices)))
            &&& word_at(after, indices_entry_address(indices)) & PHYSICAL_PAGE_MASK == (physical_address as u64)
                & PHYSICAL_PAGE_MASK
            &&& physical_address % PAGE_SIZE == 0 && physical_address <= PHYSICAL_PAGE_MASK ==> word_at(
                after,
                indices_entry_address(indices),
            ) & PHYSICAL_PAGE_MASK == physical_address
            &&& physical_address % PAGE_SIZE == 0 && physical_address <= PHYSICAL_PAGE_MASK ==> (word_at(
                after,
                indices_entry_address(indices),
            ) & PHYSICAL_PAGE_MASK) as usize == physical_address
            &&& (word_at(after, indices_entry_address(indices)) & WRITEABLE != 0) == permissions.writable
            &&& (word_at(after, indices_entry_address(indices)) & USER_ACCESSIBLE != 0) == permissions.user
            &&& (word_at(after, indices_entry_address(indices)) & NO_EXECUTE != 0) == !permissions.executable
            &&& (word_at(after, indices_entry_address(indices)) & CACHE_DISABLED != 0) == (memory_type
                == MemoryType::Device)
        }),
{
    let pa = physical_address as u64;
    assert(pa % 4096 == 0 && pa <= 0x000f_ffff_ffff_f000u64 ==> pa & 0x000f_ffff_ffff_f000u64 == pa)
        by (bit_vector);
    let i = page_indices(virtual_address);
    let path = ancestors(parent_of(i));
    lemma_page_path(i);
    lemma_along_present(words, path, physical);
    let w = with_tables_along(words, path, physical);
    let leaf = indices_entry_address(i);
    let word = type_permission_bits(memory_type, permissions) | ((physical_address as u64) & PHYSICAL_PAGE_MASK);
    let after = page_mapping_words(words, virtual_address, physical_address, memory_type, permissions, physical);
    assert(after == w.insert(leaf, word));
    lemma_entry_of_flags(
        if permissions.writable { 2 } else { 0 },
        if !permissions.executable { 0x8000_0000_0000_0000 } else { 0 },
        if permissions.user { 4 } else { 0 },
        if memory_type == MemoryType::Device { 16 } else { 0 },
        physical_address as u64,
    );
    assert(word_at(after, leaf) == word);
    assert forall|k: int| 0 <= k < ancestors(i).len() implies is_present_word(
        #[trigger] word_at(after, indices_entry_address(ancestors(i)[k])),
    ) by {
        if k < path.len() {
            assert(ancestors(i)[k] == path[k]);
            assert(is_present_word(word_at(w, indices_entry_address(path[k]))));
        } else {
            assert(ancestors(i)[k] == i);
        }
    }
}

/// An entry that names the root page table has no ancestors.
proof fn lemma_root_ancestors(x: PageTableIndices)
    requires
        is_root(x),
    ensures
        ancestors(x) == Seq::<PageTableIndices>::empty(),
{
    let f = |y: PageTableIndices| !is_root(y);
    let c = parent_of(x);
    let b = parent_of(c);
    let a = parent_of(b);
    assert(x.indices[0] == RECURSIVE_PAGE_TABLE_INDEX && x.indices[1] == RECURSIVE_PAGE_TABLE_INDEX);
    assert(x.indices[2] == RECURSIVE_PAGE_TABLE_INDEX && x.indices[3] == RECURSIVE_PAGE_TABLE_INDEX);
    assert(is_root(a) && is_root(b) && is_root(c)) by {
        assert(c.indices[0] == RECURSIVE_PAGE_TABLE_INDEX && c.indices[1] == RECURSIVE_PAGE_TABLE_INDEX);
        assert(c.indices[2] == RECURSIVE_PAGE_TABLE_INDEX && c.indices[3] == RECURSIVE_PAGE_TABLE_INDEX);
        assert(b.indices[2] == RECURSIVE_PAGE_TABLE_INDEX && b.indices[3] == RECURSIVE_PAGE_TABLE_INDEX);
        assert(a.indices[3] == RECURSIVE_PAGE_TABLE_INDEX);
    }
    reveal_with_fuel(Seq::filter, 5);
    assert(seq![a, b, c, x].drop_last() =~= seq![a, b, c]);
    assert(seq![a, b, c].drop_last() =~= seq![a, b]);
    assert(seq![a, b].drop_last() =~= seq![a]);
    assert(seq![a].drop_last() =~= Seq::<PageTableIndices>::empty());
    assert(seq![a, b, c, x].filter(f) =~= Seq::<PageTableIndices>::empty());
}

/// The entries above a page's entry, from the root down, leaving out those
/// that name the root page table: none of them names it, each one's
/// ancestors are the path up to it, and the table a new table for one of
/// them zeroes holds none of the entries up to it. The page's entry
/// follows them unless it names the root page table itself.
proof fn lemma_page_path(i: PageTableIndices)
    requires
        indices_in_range(i),
    ensures
        ({
            let path = ancestors(parent_of(i));
            &&& forall|k: int| 0 <= k < path.len() ==> !is_root(#[trigger] path[k])
            &&& forall|k: int| 0 <= k < path.len() ==> ancestors(#[trigger] path[k]) == path.take(k + 1)
            &&& forall|m: int, k: int|
                0 <= m <= k < path.len() ==> !in_table(
                    indices_child_table(#[trigger] path[k]),
                    indices_entry_address(#[trigger] path[m]),
                )
            &&& ancestors(i) == if is_root(i) {
                path
            } else {
                path.push(i)
            }
        }),
{
    let r = RECURSIVE_PAGE_TABLE_INDEX;
    let p1 = parent_of(i);
    let p2 = parent_of(p1);
    let p3 = parent_of(p2);
    let p4 = parent_of(p3);
    let (i0, i1, i2, i3) = (i.indices[0], i.indices[1], i.indices[2], i.indices[3]);
    assert(i0 < 512 && i1 < 512 && i2 < 512 && i3 < 512);
    assert(p4.indices[0] == r && p4.indices[1] == r && p4.indices[2] == r && p4.indices[3] == r);
    assert(is_root(p4));
    lemma_root_ancestors(p4);
    lemma_ancestors_step(p3);
    lemma_ancestors_step(p2);
    lemma_ancestors_step(p1);
    lemma_ancestors_step(i);
    lemma_indices_addresses(p1);
    lemma_indices_addresses(p2);
    lemma_indices_addresses(p3);
    lemma_entry_addresses_injective();
    // Which of them name the root page table.
    assert(is_root(p3) <==> i0 == r) by {
        assert(p3.indices[0] == r && p3.indices[1] == r && p3.indices[2] == r && p3.indices[3] == i0);
    }
    assert(is_root(p2) <==> i0 == r && i1 == r) by {
        assert(p2.indices[0] == r && p2.indices[1] == r && p2.indices[2] == i0 && p2.indices[3] == i1);
    }
    assert(is_root(p1) <==> i0 == r && i1 == r && i2 == r) by {
        assert(p1.indices[0] == r && p1.indices[1] == i0 && p1.indices[2] == i1 && p1.indices[3] == i2);
    }
    assert(is_root(i) <==> i0 == r && i1 == r && i2 == r && i3 == r);
    let path = ancestors(p1);
    if i0 != r {
        assert(path =~= seq![p3, p2, p1]);
        assert(path.take(1) =~= seq![p3] && path.take(2) =~= seq![p3, p2] && path.take(3) =~= path);
    } else if i1 != r {
        assert(path =~= seq![p2, p1]);
        assert(path.take(1) =~= seq![p2] && path.take(2) =~= path);
    } else if i2 != r {
        assert(path =~= seq![p1]);
        assert(path.take(1) =~= path);
    } else {
        assert(path =~= Seq::<PageTableIndices>::empty());
    }
}

/// The ancestors of each entry above a page's entry are those above it.
proof fn lemma_upper_ancestors(i: PageTableIndices)
    requires
        i.indices[0] != RECURSIVE_PAGE_TABLE_INDEX,
    ensures
        ancestors(parent_of(parent_of(i))) == seq![parent_of(parent_of(parent_of(i))), parent_of(parent_of(i))],
        ancestors(parent_of(parent_of(parent_of(i)))) == seq![parent_of(parent_of(parent_of(i)))],
{
    let f = |x: PageTableIndices| !is_root(x);
    let p1 = parent_of(i);
    let p2 = parent_of(p1);
    let p3 = parent_of(p2);
    let p4 = parent_of(p3);
    let p5 = parent_of(p4);
    let p6 = parent_of(p5);
    assert(is_root(p4)) by {
        assert(p4.indices[0] == RECURSIVE_PAGE_TABLE_INDEX && p4.indices[1] == RECURSIVE_PAGE_TABLE_INDEX);
        assert(p4.indices[2] == RECURSIVE_PAGE_TABLE_INDEX && p4.indices[3] == RECURSIVE_PAGE_TABLE_INDEX);
    }
    assert(p5 == p4 && p6 == p4);
    assert(!is_root(p3)) by {
        assert(p3.indices[3] == i.indices[0]);
    }
    assert(!is_root(p2)) by {
        assert(p2.indices[2] == i.indices[0]);
    }
    reveal_with_fuel(Seq::filter, 5);
    assert(seq![p5, p4, p3, p2].drop_last() =~= seq![p5, p4, p3]);
    assert(seq![p5, p4, p3].drop_last() =~= seq![p5, p4]);
    assert(seq![p5, p4].drop_last() =~= seq![p5]);
    assert(seq![p5].drop_last() =~= Seq::<PageTableIndices>::empty());
    assert(seq![p5, p4, p3, p2].filter(f) =~= seq![p3, p2]);
    assert(seq![p6, p5, p4, p3].drop_last() =~= seq![p6, p5, p4]);
    assert(seq![p6, p5, p4].drop_last() =~= seq![p6, p5]);
    assert(seq![p6, p5].drop_last() =~= seq![p6]);
    assert(seq![p6].drop_last() =~= Seq::<PageTableIndices>::empty());
    assert(seq![p6, p5, p4, p3].filter(f) =~= seq![p3]);
}

/// Making sure of the table of `e` leaves the word at `address` as it was
/// when it is neither the entry of `e` nor in the table a new one would
/// zero, or when the table is already there.
proof fn lemma_table_step_keeps(before: Map<u64, u64>, e: PageTableIndices, physical: u64, address: u64)
    requires
        (address != indices_entry_address(e) && !in_table(indices_child_table(e), address)) || entry_present(
            before,
            e,
        ),
    ensures
        word_at(
            if entry_present(before, e) {
                before
            } else {
                with_created_table(before, e, physical)
            },
            address,
        ) == word_at(before, address),
{
    if !entry_present(before, e) {
        let inserted = before.insert(indices_entry_address(e), internal_entry_word(physical));
        let zeroes = Map::new(|a: u64| in_table(indices_child_table(e), a), |a: u64| 0u64);
        assert(with_created_table(before, e, physical) == inserted.union_prefer_right(zeroes));
        assert(!zeroes.dom().contains(address));
    }
}

/// Mapping a page (outside the recursive mapping's own slot) leaves every
/// other mapped page as it was: the entries from the root down to its
/// entry, and its entry, keep their words.
#[verifier::rlimit(40)]
pub proof fn law_create_keeps_other_pages(
    words: Map<u64, u64>,
    virtual_address: usize,
    physical_address: usize,
    memory_type: MemoryType,
    permissions: PagePermissions,
    physical: Seq<u64>,
    other_address: usize,
)
    requires
        page_indices(virtual_address).indices[0] != RECURSIVE_PAGE_TABLE_INDEX,
        page_indices(other_address).indices[0] != RECURSIVE_PAGE_TABLE_INDEX,
        indices_entry_address(page_indices(other_address)) != indices_entry_address(page_indices(virtual_address)),
        entry_present(words, page_indices(other_address)),
    ensures
        ({
            let other = page_indices(other_address);
            let after = page_mapping_words(words, virtual_address, physical_address, memory_type, permissions, physical);
            &&& entry_present(after, other)
            &&& word_at(after, indices_entry_address(other)) == word_at(words, indices_entry_address(other))
            &&& forall|k: int|
                0 <= k < ancestors(other).len() ==> #[trigger] word_at(after, indices_entry_address(ancestors(other)[k]))
                    == word_at(words, indices_entry_address(ancestors(other)[k]))
        }),
{
    let i = page_indices(virtual_address);
    let j = page_indices(other_address);
    let r = RECURSIVE_PAGE_TABLE_INDEX as int;
    let (i0, i1, i2, i3) = (i.indices[0] as int, i.indices[1] as int, i.indices[2] as int, i.indices[3] as int);
    let (j0, j1, j2, j3) = (j.indices[0] as int, j.indices[1] as int, j.indices[2] as int, j.indices[3] as int);
    assert(0 <= i0 < 512 && 0 <= i1 < 512 && 0 <= i2 < 512 && 0 <= i3 < 512);
    assert(0 <= j0 < 512 && 0 <= j1 < 512 && 0 <= j2 < 512 && 0 <= j3 < 512);
    let e2 = parent_of(i);
    let e1 = parent_of(e2);
    let e0 = parent_of(e1);
    let f2 = parent_of(j);
    let f1 = parent_of(f2);
    let f0 = parent_of(f1);
    lemma_page_ancestors(i);
    lemma_page_ancestors(j);
    lemma_upper_ancestors(i);
    lemma_indices_addresses(e0);
    lemma_indices_addresses(e1);
    lemma_indices_addresses(e2);
    lemma_indices_addresses(i);
    lemma_indices_addresses(f0);
    lemma_indices_addresses(f1);
    lemma_indices_addresses(f2);
    lemma_indices_addresses(j);
    let a0 = indices_entry_address(e0);
    let a1 = indices_entry_address(e1);
    let a2 = indices_entry_address(e2);
    let leaf = indices_entry_address(i);
    let b0 = indices_entry_address(f0);
    let b1 = indices_entry_address(f1);
    let b2 = indices_entry_address(f2);
    let b3 = indices_entry_address(j);
    // The other page's entries are present to begin with.
    assert(is_present_word(word_at(words, b0)) && is_present_word(word_at(words, b1))) by {
        assert(ancestors(j)[0] == f0 && ancestors(j)[1] == f1);
    }
    assert(is_present_word(word_at(words, b2)) && is_present_word(word_at(words, b3))) by {
        assert(ancestors(j)[2] == f2 && ancestors(j)[3] == j);
    }
    let path = seq![e0, e1, e2];
    let p2 = physical.drop_last();
    let p1 = p2.drop_last();
    assert(path.drop_last() =~= seq![e0, e1]);
    assert(seq![e0, e1].drop_last() =~= seq![e0]);
    assert(seq![e0].drop_last() =~= Seq::<PageTableIndices>::empty());
    let w1 = with_tables_along(words, seq![e0], p1);
    let w2 = with_tables_along(words, seq![e0, e1], p2);
    let w3 = with_tables_along(words, path, physical);
    assert(with_tables_along(words, Seq::<PageTableIndices>::empty(), p1.drop_last()) == words);
    // The first table: it is the other page's when their first indices agree.
    assert(word_at(w1, b0) == word_at(words, b0) && word_at(w1, b1) == word_at(words, b1) && word_at(w1, b2)
        == word_at(words, b2) && word_at(w1, b3) == word_at(words, b3)) by {
        lemma_entry_address_injective(r, r, r, i0, r, r, r, j0);
        lemma_entry_address_injective(r, r, r, i0, r, r, j0, j1);
        lemma_entry_address_injective(r, r, r, i0, r, j0, j1, j2);
        lemma_entry_address_injective(r, r, r, i0, j0, j1, j2, j3);
        lemma_entry_address_injective(r, r, i0, i1, r, r, r, j0);
        lemma_entry_address_injective(r, r, i0, i1, r, r, j0, j1);
        lemma_entry_address_injective(r, r, i0, i1, r, j0, j1, j2);
        lemma_entry_address_injective(r, r, i0, i1, j0, j1, j2, j3);
        if i0 == j0 {
            assert(entry_present(words, e0));
        }
        lemma_table_step_keeps(words, e0, p1.last(), b0);
        lemma_table_step_keeps(words, e0, p1.last(), b1);
        lemma_table_step_keeps(words, e0, p1.last(), b2);
        lemma_table_step_keeps(words, e0, p1.last(), b3);
    }
    // The second.
    assert(word_at(w2, b0) == word_at(words, b0) && word_at(w2, b1) == word_at(words, b1) && word_at(w2, b2)
        == word_at(words, b2) && word_at(w2, b3) == word_at(words, b3)) by {
        lemma_entry_address_injective(r, r, i0, i1, r, r, r, j0);
        lemma_entry_address_injective(r, r, i0, i1, r, r, j0, j1);
        lemma_entry_address_injective(r, r, i0, i1, r, j0, j1, j2);
        lemma_entry_address_injective(r, r, i0, i1, j0, j1, j2, j3);
        lemma_entry_address_injective(r, i0, i1, i2, r, r, r, j0);
        lemma_entry_address_injective(r, i0, i1, i2, r, r, j0, j1);
        lemma_entry_address_injective(r, i0, i1, i2, r, j0, j1, j2);
        lemma_entry_address_injective(r, i0, i1, i2, j0, j1, j2, j3);
        if i0 == j0 && i1 == j1 {
            assert(entry_present(w1, e1)) by {
                assert(ancestors(e1)[0] == e0 && ancestors(e1)[1] == e1);
            }
        }
        lemma_table_step_keeps(w1, e1, p2.last(), b0);
        lemma_table_step_keeps(w1, e1, p2.last(), b1);
        lemma_table_step_keeps(w1, e1, p2.last(), b2);
        lemma_table_step_keeps(w1, e1, p2.last(), b3);
    }
    // The third.
    assert(word_at(w3, b0) == word_at(words, b0) && word_at(w3, b1) == word_at(words, b1) && word_at(w3, b2)
        == word_at(words, b2) && word_at(w3, b3) == word_at(words, b3)) by {
        lemma_entry_address_injective(r, i0, i1, i2, r, r, r, j0);
        lemma_entry_address_injective(r, i0, i1, i2, r, r, j0, j1);
        lemma_entry_address_injective(r, i0, i1, i2, r, j0, j1, j2);
        lemma_entry_address_injective(r, i0, i1, i2, j0, j1, j2, j3);
        lemma_entry_address_injective(i0, i1, i2, i3, r, r, r, j0);
        lemma_entry_address_injective(i0, i1, i2, i3, r, r, j0, j1);
        lemma_entry_address_injective(i0, i1, i2, i3, r, j0, j1, j2);
        lemma_entry_address_injective(i0, i1, i2, i3, j0, j1, j2, j3);
        if i0 == j0 && i1 == j1 && i2 == j2 {
            assert(entry_present(w2, e2)) by {
                assert(ancestors(e2)[0] == e0 && ancestors(e2)[1] == e1 && ancestors(e2)[2] == e2);
            }
        }
        lemma_table_step_keeps(w2, e2, physical.last(), b0);
        lemma_table_step_keeps(w2, e2, physical.last(), b1);
        lemma_table_step_keeps(w2, e2, physical.last(), b2);
        lemma_table_step_keeps(w2, e2, physical.last(), b3);
    }
    // The page's own entry is none of the other page's.
    assert(leaf != b0 && leaf != b1 && leaf != b2) by {
        lemma_entry_address_injective(i0, i1, i2, i3, r, r, r, j0);
        lemma_entry_address_injective(i0, i1, i2, i3, r, r, j0, j1);
        lemma_entry_address_injective(i0, i1, i2, i3, r, j0, j1, j2);
    }
    let word = type_permission_bits(memory_type, permissions) | ((physical_address as u64) & PHYSICAL_PAGE_MASK);
    let after = page_mapping_words(words, virtual_address, physical_address, memory_type, permissions, physical);
    assert(after == w3.insert(leaf, word));
    assert forall|k: int| 0 <= k < ancestors(j).len() implies #[trigger] word_at(
        after,
        indices_entry_address(ancestors(j)[k]),
    ) == word_at(words, indices_entry_address(ancestors(j)[k])) by {
        assert(ancestors(j)[k] == seq![f0, f1, f2, j][k]);
    }
}

/// The ancestors of an entry are those of its parent, then the entry
/// itself unless it names the root page table.
proof fn lemma_ancestors_step(x: PageTableIndices)
    ensures
        ancestors(x) == if is_root(x) {
            ancestors(parent_of(x))
        } else {
            ancestors(parent_of(x)).push(x)
        },
{
    let f = |y: PageTableIndices| !is_root(y);
    let c = parent_of(x);
    let b = parent_of(c);
    let a = parent_of(b);
    let z = parent_of(a);
    assert(is_root(z)) by {
        assert(z.indices[0] == RECURSIVE_PAGE_TABLE_INDEX && z.indices[1] == RECURSIVE_PAGE_TABLE_INDEX);
        assert(z.indices[2] == RECURSIVE_PAGE_TABLE_INDEX && z.indices[3] == RECURSIVE_PAGE_TABLE_INDEX);
    }
    reveal_with_fuel(Seq::filter, 5);
    assert(seq![a, b, c, x].drop_last() =~= seq![a, b, c]);
    assert(seq![a, b, c].drop_last() =~= seq![a, b]);
    assert(seq![a, b].drop_last() =~= seq![a]);
    assert(seq![a].drop_last() =~= Seq::<PageTableIndices>::empty());
    assert(seq![z, a, b, c].drop_last() =~= seq![z, a, b]);
    assert(seq![z, a, b].drop_last() =~= seq![z, a]);
    assert(seq![z, a].drop_last() =~= seq![z]);
    assert(seq![z].drop_last() =~= Seq::<PageTableIndices>::empty());
    assert(seq![z, a, b, c].filter(f) =~= seq![a, b, c].filter(f));
    if is_root(x) {
        assert(seq![a, b, c, x].filter(f) =~= seq![a, b, c].filter(f));
    } else {
        assert(seq![a, b, c, x].filter(f) =~= seq![a, b, c].filter(f).push(x));
    }
}

/// An entry whose parent is an entry further up its own line of ancestors
/// names the root page table: the table that a new table for an entry of
/// the line zeroes holds none of the entries of the line up to it.
proof fn lemma_along_present(words: Map<u64, u64>, path: Seq<PageTableIndices>, physical: Seq<u64>)
    requires
        forall|k: int| 0 <= k < path.len() ==> !is_root(#[trigger] path[k]),
        forall|k: int| 0 <= k < path.len() ==> ancestors(#[trigger] path[k]) == path.take(k + 1),
        forall|m: int, k: int|
            0 <= m <= k < path.len() ==> !in_table(
                indices_child_table(#[trigger] path[k]),
                indices_entry_address(#[trigger] path[m]),
            ),
    ensures
        forall|k: int|
            0 <= k < path.len() ==> is_present_word(
                #[trigger] word_at(with_tables_along(words, path, physical), indices_entry_address(path[k])),
            ),
    decreases path.len(),
{
    if path.len() > 0 {
        let rest = path.drop_last();
        let last = path.last();
        let n = path.len() - 1;
        assert forall|k: int| 0 <= k < rest.len() implies ancestors(#[trigger] rest[k]) == rest.take(k + 1) by {
            assert(rest[k] == path[k]);
            assert(rest.take(k + 1) =~= path.take(k + 1));
        }
        assert forall|m: int, k: int| 0 <= m <= k < rest.len() implies !in_table(
            indices_child_table(#[trigger] rest[k]),
            indices_entry_address(#[trigger] rest[m]),
        ) by {
            assert(rest[k] == path[k] && rest[m] == path[m]);
        }
        lemma_along_present(words, rest, physical.drop_last());
        let before = with_tables_along(words, rest, physical.drop_last());
        assert(ancestors(last) =~= path) by {
            assert(path.take(n + 1) =~= path);
        }
        if entry_present(before, last) {
            assert(with_tables_along(words, path, physical) == before);
            assert(ancestors(last)[n] == last);
            assert(is_present_word(word_at(before, indices_entry_address(ancestors(last)[n]))));
            assert forall|k: int| 0 <= k < path.len() implies is_present_word(
                #[trigger] word_at(with_tables_along(words, path, physical), indices_entry_address(path[k])),
            ) by {
                if k < n {
                    assert(rest[k] == path[k]);
                }
            }
        } else {
            let address = indices_entry_address(last);
            let inserted = before.insert(address, internal_entry_word(physical.last()));
            let zeroes = Map::new(|a: u64| in_table(indices_child_table(last), a), |a: u64| 0u64);
            let after = with_created_table(before, last, physical.last());
            assert(with_tables_along(words, path, physical) == after);
            assert(after == inserted.union_prefer_right(zeroes));
            lemma_entry_of_flags(2, 0, 4, 0, physical.last());
            assert forall|k: int| 0 <= k < path.len() implies is_present_word(
                #[trigger] word_at(with_tables_along(words, path, physical), indices_entry_address(path[k])),
            ) by {
                assert(last == path[n]);
                assert(!in_table(indices_child_table(path[n]), indices_entry_address(path[k])));
                assert(!zeroes.dom().contains(indices_entry_address(path[k])));
                assert(word_at(after, indices_entry_address(path[k])) == word_at(inserted, indices_entry_address(path[k])));
                if k < n {
                    assert(rest[k] == path[k]);
                    if indices_entry_address(path[k]) != address {
                        assert(word_at(inserted, indices_entry_address(path[k])) == word_at(before, indices_entry_address(rest[k])));
                    }
                }
            }
        }
    }
}

/// Taking a mapping just created gives back both tokens: after
/// `create_page_mapping` maps the page `virtual_address` (words `after`,
/// token `created`), `take_page_mapping` may be called with `created`, and
/// when it has (words `taken_words`, tokens `taken`) it gives back the
/// physical page at `physical_address` and the virtual page at
/// `virtual_address`, with the page's entry cleared. This holds for a
/// page-aligned physical address that an entry can hold.
pub proof fn law_create_then_take_tokens(
    before: Map<u64, u64>,
    after: Map<u64, u64>,
    taken_words: Map<u64, u64>,
    virtual_address: usize,
    physical_address: usize,
    memory_type: MemoryType,
    permissions: PagePermissions,
    physical: Seq<u64>,
    created: AllocatedMemoryToken,
    taken: (PhysicalMemoryToken, VirtualMemoryToken),
)
    requires
        physical_address % PAGE_SIZE == 0,
        physical_address <= PHYSICAL_PAGE_MASK,
        after == page_mapping_words(before, virtual_address, physical_address, memory_type, permissions, physical),
        created.token_address() == virtual_address,
        created.token_size() == PAGE_SIZE,
        ({
            let entry_address = indices_entry_address(page_indices(created.token_address()));
            &&& taken_words == after.insert(entry_address, 0)
            &&& taken.0.token_address() == (word_at(after, entry_address) & PHYSICAL_PAGE_MASK) as usize
            &&& taken.0.token_size() == PAGE_SIZE
            &&& taken.1.token_address() == created.token_address()
            &&& taken.1.token_size() == PAGE_SIZE
        }),
    ensures
        entry_present(after, page_indices(created.token_address())),
        is_present_word(word_at(after, indices_entry_address(page_indices(created.token_address())))),
        taken.0.token_address() == physical_address,
        taken.0.token_size() == PAGE_SIZE,
        taken.1.token_address() == virtual_address,
        taken.1.token_size() == PAGE_SIZE,
        word_at(taken_words, indices_entry_address(page_indices(virtual_address))) == 0,
{
    law_create_then_take(before, virtual_address, physical_address, memory_type, permissions, physical);
}

} // verus!
