//! Handles to user memory: ranges of the user half of the current address
//! space, valid while the address space is.
use vstd::prelude::*;
use crate::memory_token::{MemoryToken, PhysicalMemoryToken, VirtualMemoryToken};
use crate::paging::{MemoryType, PagePermissions, PAGE_SIZE};
use crate::paging::mapping::{
    create_page_mapping, page_mapping_words, Lock, entry_present, indices_entry_address, law_create_then_take,
    law_create_keeps_other_pages,
};
use crate::paging::tables::word_at;
use crate::paging::x86_64::{page_indices, PHYSICAL_PAGE_MASK, RECURSIVE_PAGE_TABLE_INDEX, RECURSIVE_PAGE_TABLE_POINTER};
use crate::paging::tables::PageTableMemory;
use crate::pmm::{MemoryBitmapAllocator, BLOCK_SIZE, allocations, free_count, is_lowest_free, lemma_free_count_update, lemma_free_count_none, lemma_lowest_free_unique};

verus! {

/// A handle to the current address space, through which user memory is
/// read and written. Handles to its memory cannot outlive it, so they are
/// all gone when the address space is switched.
pub struct UserAddressSpaceHandle {
    _private: (),
}

/// A range of user memory: its start and its length.
pub struct UserMemoryHandle<'address_space> {
    address: usize,
    length: usize,
    address_space: &'address_space UserAddressSpaceHandle,
}

impl UserAddressSpaceHandle {
    /// The handle; there must be no other on this processor.
    pub fn new() -> (r: Self) {
        UserAddressSpaceHandle { _private: () }
    }

    /// The `length` bytes at `address`, which must lie in the user half
    /// (start and end).
    pub fn memory(&self, address: usize, length: usize) -> (r: UserMemoryHandle<'_>)
        requires
            address < 0x0000_8000_0000_0000u64,
            address + length < 0x0000_8000_0000_0000u64,
        ensures
            r.start() == address,
            r.len() == length,
    {
        UserMemoryHandle { address, length, address_space: self }
    }
}

impl<'address_space> UserMemoryHandle<'address_space> {
    /// Where the range starts.
    pub closed spec fn start(&self) -> usize {
        self.address
    }

    /// How long the range is.
    pub closed spec fn len(&self) -> usize {
        self.length
    }

    /// Where the range starts.
    pub fn address(&self) -> (r: usize)
        ensures
            r == self.start(),
    {
        self.address
    }

    /// How long the range is.
    pub fn length(&self) -> (r: usize)
        ensures
            r == self.len(),
    {
        self.length
    }
}

/// The number of pages of a block.
pub const PAGES_PER_BLOCK: usize = BLOCK_SIZE / PAGE_SIZE;

/// The number of blocks that `size` bytes take.
pub open spec fn blocks_for(size: int) -> int {
    (size + BLOCK_SIZE - 1) / (BLOCK_SIZE as int)
}

/// The physical address of the `k`-th page of the range, whose block is
/// `blocks[k / PAGES_PER_BLOCK]`.
pub open spec fn page_frame(blocks: Seq<int>, k: int) -> int {
    blocks[k / (PAGES_PER_BLOCK as int)] * BLOCK_SIZE + (k % (PAGES_PER_BLOCK as int)) * PAGE_SIZE
}

/// The words after mapping the first `pages` pages at `virtual_address`,
/// page by page, each to its page of the block of `blocks` it falls in,
/// with new page tables (where any are needed) at `tables`.
#[verifier::opaque]
pub open spec fn user_pages_mapped(
    words: Map<u64, u64>,
    virtual_address: int,
    blocks: Seq<int>,
    permissions: PagePermissions,
    tables: Seq<Seq<u64>>,
    pages: nat,
) -> Map<u64, u64>
    decreases pages,
{
    if pages == 0 {
        words
    } else {
        let k: int = pages - 1;
        page_mapping_words(
            user_pages_mapped(words, virtual_address, blocks, permissions, tables, (pages - 1) as nat),
            (virtual_address + k * PAGE_SIZE) as usize,
            page_frame(blocks, k as int) as usize,
            MemoryType::Normal,
            permissions,
            tables[k],
        )
    }
}

/// Only the blocks of the pages mapped so far matter.
proof fn lemma_user_pages_mapped_prefix(
    words: Map<u64, u64>,
    virtual_address: int,
    blocks: Seq<int>,
    more: Seq<int>,
    permissions: PagePermissions,
    tables: Seq<Seq<u64>>,
    more_tables: Seq<Seq<u64>>,
    pages: nat,
)
    requires
        pages <= blocks.len() * PAGES_PER_BLOCK,
        pages <= tables.len(),
        blocks.len() <= more.len(),
        tables.len() <= more_tables.len(),
        blocks == more.subrange(0, blocks.len() as int),
        tables == more_tables.subrange(0, tables.len() as int),
    ensures
        user_pages_mapped(words, virtual_address, blocks, permissions, tables, pages) == user_pages_mapped(
            words,
            virtual_address,
            more,
            permissions,
            more_tables,
            pages,
        ),
    decreases pages,
{
    reveal(user_pages_mapped);
    if pages > 0 {
        lemma_user_pages_mapped_prefix(words, virtual_address, blocks, more, permissions, tables, more_tables, (pages - 1) as nat);
        let k: int = pages - 1;
        assert(k / (PAGES_PER_BLOCK as int) < blocks.len()) by (nonlinear_arith)
            requires
                k < blocks.len() * 16,
                k >= 0,
        ;
        assert(blocks[k / (PAGES_PER_BLOCK as int)] == more.subrange(0, blocks.len() as int)[k / (PAGES_PER_BLOCK as int)]);
        assert(tables[k] == more_tables.subrange(0, tables.len() as int)[k]);
    }
}

/// Mapping one more page extends the mapping of the pages before it.
proof fn lemma_user_pages_step(
    words: Map<u64, u64>,
    virtual_address: int,
    blocks: Seq<int>,
    permissions: PagePermissions,
    tables: Seq<Seq<u64>>,
    new_tables: Seq<u64>,
    k: nat,
)
    requires
        tables.len() == k,
        k < blocks.len() * PAGES_PER_BLOCK,
    ensures
        user_pages_mapped(words, virtual_address, blocks, permissions, tables.push(new_tables), k + 1)
            == page_mapping_words(
            user_pages_mapped(words, virtual_address, blocks, permissions, tables, k),
            (virtual_address + k * PAGE_SIZE) as usize,
            page_frame(blocks, k as int) as usize,
            MemoryType::Normal,
            permissions,
            new_tables,
        ),
{
    reveal(user_pages_mapped);
    let next_tables = tables.push(new_tables);
    assert(tables == next_tables.subrange(0, tables.len() as int));
    assert(k <= blocks.len() * PAGES_PER_BLOCK);
    assert(blocks == blocks.subrange(0, blocks.len() as int));
    lemma_user_pages_mapped_prefix(words, virtual_address, blocks, blocks, permissions, tables, next_tables, k);
}

/// Maps the page at `virtual_address` to the page at `physical_address`,
/// as normal memory with `permissions`; the page tables that had to be made
/// are given back.
fn map_user_page<M: PageTableMemory>(
    memory: &mut M,
    lock: &mut Lock,
    virtual_address: usize,
    physical_address: usize,
    permissions: PagePermissions,
) -> (tables: Ghost<Seq<u64>>)
    requires
        virtual_address % PAGE_SIZE == 0,
        physical_address % PAGE_SIZE == 0,
    ensures
        final(memory).words() == page_mapping_words(
            old(memory).words(),
            virtual_address,
            physical_address,
            MemoryType::Normal,
            permissions,
            tables@,
        ),
{
    let physical_page = PhysicalMemoryToken::new(physical_address, PAGE_SIZE);
    let virtual_page = VirtualMemoryToken::new(virtual_address, PAGE_SIZE);
    let ghost words_before = memory.words();
    let _mapped = create_page_mapping(memory, MemoryType::Normal, permissions, physical_page, virtual_page, lock);
    Ghost(
        choose|physical: Seq<u64>|
            memory.words() == #[trigger] page_mapping_words(
                words_before,
                virtual_address,
                physical_address,
                MemoryType::Normal,
                permissions,
                physical,
            ),
    )
}

/// From `words` and the allocator's view `before`, `n` blocks were
/// allocated, each the lowest free one at its time, and mapped page by page
/// at `virtual_address`, giving `words_after` and the view `after`.
pub open spec fn user_memory_mapped(
    words: Map<u64, u64>,
    words_after: Map<u64, u64>,
    before: Seq<bool>,
    after: Seq<bool>,
    virtual_address: int,
    permissions: PagePermissions,
    n: nat,
) -> bool {
    let (view, blocks) = allocations(before, n);
    &&& after == view
    &&& exists|tables: Seq<Seq<u64>>|
        words_after == #[trigger] user_pages_mapped(
            words,
            virtual_address,
            blocks,
            permissions,
            tables,
            n * PAGES_PER_BLOCK as nat,
        )
}

/// Maps fresh memory at `virtual_address` (block-aligned, and with `size`
/// bytes after it, in the user half) for a user program: a block of
/// physical memory for each block of the range, the lowest free one first,
/// mapped page by page. When physical memory runs out it stops there and
/// returns `false`, having mapped the blocks it could get.
pub fn allocate_user_memory_at<M: PageTableMemory, const BITS: usize>(
    memory: &mut M,
    physical_memory: &mut MemoryBitmapAllocator<BITS>,
    lock: &mut Lock,
    virtual_address: usize,
    size: usize,
    permissions: PagePermissions,
) -> (r: bool)
    requires
        virtual_address % BLOCK_SIZE == 0,
        virtual_address < 0x0000_8000_0000_0000u64,
        virtual_address + size < 0x0000_8000_0000_0000u64,
        virtual_address + blocks_for(size as int) * BLOCK_SIZE <= usize::MAX,
        old(physical_memory).wf(),
        old(physical_memory)@.len() * BLOCK_SIZE <= usize::MAX,
    ensures
        final(physical_memory).wf(),
        r == (free_count(old(physical_memory)@) >= blocks_for(size as int)),
        user_memory_mapped(
            old(memory).words(),
            final(memory).words(),
            old(physical_memory)@,
            final(physical_memory)@,
            virtual_address as int,
            permissions,
            if r {
                blocks_for(size as int) as nat
            } else {
                free_count(old(physical_memory)@)
            },
        ),
{
    let block_count = size / BLOCK_SIZE + if size % BLOCK_SIZE != 0 { 1 } else { 0 };
    proof {
        assert(block_count == (size as int + BLOCK_SIZE - 1) / (BLOCK_SIZE as int));
    }
    let ghost mut tables: Seq<Seq<u64>> = Seq::empty();
    let mut i: usize = 0;
    proof {
        reveal(user_pages_mapped);
    }
    while i < block_count
        invariant
            i <= block_count,
            block_count == blocks_for(size as int),
            virtual_address % BLOCK_SIZE == 0,
            virtual_address + block_count * BLOCK_SIZE <= usize::MAX,
            physical_memory.wf(),
            physical_memory@.len() == old(physical_memory)@.len(),
            physical_memory@.len() * BLOCK_SIZE <= usize::MAX,
            physical_memory@ == allocations(old(physical_memory)@, i as nat).0,
            allocations(old(physical_memory)@, i as nat).1.len() == i,
            free_count(physical_memory@) + i == free_count(old(physical_memory)@),
            tables.len() == i * PAGES_PER_BLOCK,
            memory.words() == user_pages_mapped(
                old(memory).words(),
                virtual_address as int,
                allocations(old(physical_memory)@, i as nat).1,
                permissions,
                tables,
                (i * PAGES_PER_BLOCK) as nat,
            ),
        decreases block_count - i,
    {
        let ghost before = physical_memory@;
        let ghost old_blocks = allocations(old(physical_memory)@, i as nat).1;
        let block = match physical_memory.allocate_block() {
            Some(block) => block,
            None => {
                proof {
                    lemma_free_count_none(before);
                    let n = free_count(old(physical_memory)@);
                    assert(n == i);
                    assert(physical_memory@ == allocations(old(physical_memory)@, n).0);
                    assert(memory.words() == user_pages_mapped(
                        old(memory).words(),
                        virtual_address as int,
                        allocations(old(physical_memory)@, n).1,
                        permissions,
                        tables,
                        n * PAGES_PER_BLOCK as nat,
                    ));
                }
                return false;
            },
        };
        let ghost blocks = old_blocks.push(block as int);
        proof {
            assert(is_lowest_free(before, block as int));
            let chosen = choose|b: int| is_lowest_free(before, b);
            lemma_lowest_free_unique(before, chosen, block as int);
            lemma_free_count_update(before, block as int);
            assert(allocations(old(physical_memory)@, (i + 1) as nat).1 == blocks);
            assert(allocations(old(physical_memory)@, (i + 1) as nat).0 == physical_memory@);
            assert(block * BLOCK_SIZE + BLOCK_SIZE <= physical_memory@.len() * BLOCK_SIZE) by (nonlinear_arith)
                requires
                    block < physical_memory@.len(),
            ;
            assert(old_blocks == blocks.subrange(0, old_blocks.len() as int));
            assert(tables == tables.subrange(0, tables.len() as int));
            assert((i * PAGES_PER_BLOCK) as nat <= old_blocks.len() * PAGES_PER_BLOCK);
            lemma_user_pages_mapped_prefix(
                old(memory).words(),
                virtual_address as int,
                old_blocks,
                blocks,
                permissions,
                tables,
                tables,
                (i * PAGES_PER_BLOCK) as nat,
            );
        }
        let physical_address = block * BLOCK_SIZE;
        let mut page: usize = 0;
        while page < PAGES_PER_BLOCK
            invariant
                page <= PAGES_PER_BLOCK,
                i < block_count,
                virtual_address % BLOCK_SIZE == 0,
                virtual_address + block_count * BLOCK_SIZE <= usize::MAX,
                physical_address == block * BLOCK_SIZE,
                physical_address + BLOCK_SIZE <= usize::MAX,
                blocks.len() == i + 1,
                blocks[i as int] == block,
                tables.len() == i * PAGES_PER_BLOCK + page,
                memory.words() == user_pages_mapped(
                    old(memory).words(),
                    virtual_address as int,
                    blocks,
                    permissions,
                    tables,
                    (i * PAGES_PER_BLOCK + page) as nat,
                ),
            decreases PAGES_PER_BLOCK - page,
        {
            let ghost k = i * PAGES_PER_BLOCK + page;
            proof {
                assert(k * PAGE_SIZE + PAGE_SIZE <= block_count * BLOCK_SIZE) by (nonlinear_arith)
                    requires
                        k == i * 16 + page,
                        page < 16,
                        i < block_count,
                ;
                assert(k / 16 == i && k % 16 == page) by (nonlinear_arith)
                    requires
                        k == i * 16 + page,
                        page < 16,
                ;
                assert(k < blocks.len() * 16) by (nonlinear_arith)
                    requires
                        k == i * 16 + page,
                        page < 16,
                        blocks.len() == i + 1,
                ;
            }
            let page_virtual_address = virtual_address + (i * PAGES_PER_BLOCK + page) * PAGE_SIZE;
            let page_physical_address = physical_address + page * PAGE_SIZE;
            proof {
                assert(page_virtual_address % PAGE_SIZE == 0) by (nonlinear_arith)
                    requires
                        virtual_address % 65536 == 0,
                        page_virtual_address == virtual_address + k * 4096,
                ;
                assert(page_physical_address % PAGE_SIZE == 0) by (nonlinear_arith)
                    requires
                        page_physical_address == block * 65536 + page * 4096,
                ;
                assert(page_physical_address == page_frame(blocks, k as int));
            }
            let new_tables = map_user_page(memory, lock, page_virtual_address, page_physical_address, permissions);
            proof {
                lemma_user_pages_step(
                    old(memory).words(),
                    virtual_address as int,
                    blocks,
                    permissions,
                    tables,
                    new_tables@,
                    k as nat,
                );
                tables = tables.push(new_tables@);
            }
            page = page + 1;
        }
        proof {
            assert(i * PAGES_PER_BLOCK + PAGES_PER_BLOCK == (i + 1) * PAGES_PER_BLOCK) by (nonlinear_arith);
        }
        i = i + 1;
    }
    proof {
        let n = blocks_for(size as int) as nat;
        assert(free_count(old(physical_memory)@) >= n);
        assert(physical_memory@ == allocations(old(physical_memory)@, n).0);
        assert(memory.words() == user_pages_mapped(
            old(memory).words(),
            virtual_address as int,
            allocations(old(physical_memory)@, n).1,
            permissions,
            tables,
            n * PAGES_PER_BLOCK as nat,
        ));
    }
    true
}

/// The address of the `k`-th page from `virtual_address`.
pub open spec fn user_page_address(virtual_address: int, k: int) -> usize {
    (virtual_address + k * PAGE_SIZE) as usize
}

/// A page of the user half is not in the recursive mapping's slot, and its
/// entry lies at the recursive mapping's start plus eight bytes for each
/// page below it.
proof fn lemma_user_page_entry(address: usize)
    requires
        address < 0x0000_8000_0000_0000u64,
    ensures
        page_indices(address).indices[0] != RECURSIVE_PAGE_TABLE_INDEX,
        indices_entry_address(page_indices(address)) == RECURSIVE_PAGE_TABLE_POINTER + 8 * (address / 4096),
{
    let a = address as u64;
    assert(((a / 0x80_0000_0000) % 512) * 0x800_0000 + ((a / 0x4000_0000) % 512) * 0x4_0000 + ((a / 0x20_0000)
        % 512) * 0x200 + (a / 0x1000) % 512 == a / 0x1000 && (a / 0x80_0000_0000) % 512 < 256) by (bit_vector)
        requires
            a < 0x0000_8000_0000_0000u64,
    ;
}

/// Each page of a range mapped page by page is mapped, to its page of the
/// block it falls in: every entry from the root down to the page's is
/// present, and the page's entry holds that page's page-frame bits.
pub proof fn law_user_pages_translate(
    words: Map<u64, u64>,
    virtual_address: int,
    blocks: Seq<int>,
    permissions: PagePermissions,
    tables: Seq<Seq<u64>>,
    pages: nat,
)
    requires
        0 <= virtual_address,
        virtual_address % (PAGE_SIZE as int) == 0,
        virtual_address + pages * PAGE_SIZE <= 0x0000_8000_0000_0000u64,
        virtual_address + pages * PAGE_SIZE <= usize::MAX,
    ensures
        forall|k: int|
            0 <= k < pages ==> {
                let indices = #[trigger] page_indices(user_page_address(virtual_address, k));
                let after = user_pages_mapped(words, virtual_address, blocks, permissions, tables, pages);
                &&& entry_present(after, indices)
                &&& word_at(after, indices_entry_address(indices)) & PHYSICAL_PAGE_MASK == (page_frame(
                    blocks,
                    k,
                ) as usize as u64) & PHYSICAL_PAGE_MASK
            },
    decreases pages,
{
    if pages > 0 {
        let m: int = pages - 1;
        law_user_pages_translate(words, virtual_address, blocks, permissions, tables, (pages - 1) as nat);
        reveal(user_pages_mapped);
        let before = user_pages_mapped(words, virtual_address, blocks, permissions, tables, (pages - 1) as nat);
        let after = user_pages_mapped(words, virtual_address, blocks, permissions, tables, pages);
        let address = user_page_address(virtual_address, m);
        let frame = page_frame(blocks, m) as usize;
        assert(after == page_mapping_words(before, address, frame, MemoryType::Normal, permissions, tables[m]));
        assert(address < 0x0000_8000_0000_0000u64);
        lemma_user_page_entry(address);
        law_create_then_take(before, address, frame, MemoryType::Normal, permissions, tables[m]);
        assert forall|k: int| 0 <= k < pages implies {
            let indices = #[trigger] page_indices(user_page_address(virtual_address, k));
            &&& entry_present(after, indices)
            &&& word_at(after, indices_entry_address(indices)) & PHYSICAL_PAGE_MASK == (page_frame(
                blocks,
                k,
            ) as usize as u64) & PHYSICAL_PAGE_MASK
        } by {
            if k < m {
                let other = user_page_address(virtual_address, k);
                assert(k * 4096 < m * 4096) by (nonlinear_arith)
                    requires
                        k < m,
                ;
                assert(other < 0x0000_8000_0000_0000u64);
                lemma_user_page_entry(other);
                assert(other / 4096 != address / 4096) by (nonlinear_arith)
                    requires
                        other == virtual_address + k * 4096,
                        address == virtual_address + m * 4096,
                        virtual_address % 4096 == 0,
                        k < m,
                        virtual_address >= 0,
                ;
                law_create_keeps_other_pages(
                    before,
                    address,
                    frame,
                    MemoryType::Normal,
                    permissions,
                    tables[m],
                    other,
                );
            }
        }
    }
}

/// After user memory has been allocated and mapped, each of its pages is
/// mapped to its page of the block allocated for it.
pub proof fn law_allocated_user_memory_is_mapped(
    words: Map<u64, u64>,
    words_after: Map<u64, u64>,
    before: Seq<bool>,
    after: Seq<bool>,
    virtual_address: int,
    permissions: PagePermissions,
    n: nat,
)
    requires
        user_memory_mapped(words, words_after, before, after, virtual_address, permissions, n),
        0 <= virtual_address,
        virtual_address % (PAGE_SIZE as int) == 0,
        virtual_address + n * BLOCK_SIZE <= 0x0000_8000_0000_0000u64,
        virtual_address + n * BLOCK_SIZE <= usize::MAX,
    ensures
        forall|k: int|
            0 <= k < n * PAGES_PER_BLOCK ==> {
                let indices = #[trigger] page_indices(user_page_address(virtual_address, k));
                &&& entry_present(words_after, indices)
                &&& word_at(words_after, indices_entry_address(indices)) & PHYSICAL_PAGE_MASK == (page_frame(
                    allocations(before, n).1,
                    k,
                ) as usize as u64) & PHYSICAL_PAGE_MASK
            },
{
    let blocks = allocations(before, n).1;
    let pages = n * PAGES_PER_BLOCK as nat;
    let tables = choose|tables: Seq<Seq<u64>>|
        words_after == #[trigger] user_pages_mapped(words, virtual_address, blocks, permissions, tables, pages);
    assert(pages * PAGE_SIZE == n * BLOCK_SIZE) by (nonlinear_arith)
        requires
            pages == n * 16,
    ;
    law_user_pages_translate(words, virtual_address, blocks, permissions, tables, pages);
}

} // verus!
