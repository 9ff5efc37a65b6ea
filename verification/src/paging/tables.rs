//! Mapping and unmapping pages through the x86-64 recursive mapping: the
//! page-table entries are reached at fixed virtual addresses, and a missing
//! page table is allocated, entered in its parent and zeroed.
use vstd::prelude::*;
use std::collections::HashMap;
use crate::paging::{MemoryType, PagePermissions, PAGE_SIZE};
use crate::paging::entry::{
    PageTableEntry, entry_word, entry_fields, construct_page_table_entry, deconstruct_page_table_entry,
    get_page_table_entry_address, deconstruct_virtual_address, level_index, lemma_entry_fields_of_word, lemma_entry_flags_of_word,
    PageTableIndices,
    RECURSIVE_PAGE_TABLE_INDEX, RECURSIVE_PAGE_TABLE_POINTER, PHYSICAL_ADDRESS_MASK,
};

verus! {

/// The word at `address` of `words`; an address that was never written holds 0.
pub open spec fn word_at(words: Map<u64, u64>, address: u64) -> u64 {
    if words.contains_key(address) {
        words[address]
    } else {
        0
    }
}

/// The address, in the recursive mapping, of the entry with the given indices.
pub open spec fn entry_address(i4: int, i3: int, i2: int, i1: int) -> u64 {
    (RECURSIVE_PAGE_TABLE_POINTER + 8 * (i1 + i2 * 512 + i3 * 512 * 512 + i4 * 512 * 512 * 512)) as u64
}

/// `address` is one of the 512 entries of the table that starts at `table`.
pub open spec fn in_table(table: u64, address: u64) -> bool {
    table <= address < table + 4096 && (address - table) % 8 == 0
}

/// `words` with the table that starts at `table` zeroed.
pub open spec fn zeroed_table(words: Map<u64, u64>, table: u64) -> Map<u64, u64> {
    words.union_prefer_right(Map::new(|a: u64| in_table(table, a), |a: u64| 0u64))
}

/// The present bit of an entry word.
pub open spec fn is_present_word(word: u64) -> bool {
    word & 1 != 0
}

/// The entry through which a new page table at `physical` is reached.
pub open spec fn table_entry(user_page: bool, physical: u64) -> PageTableEntry {
    PageTableEntry {
        present: true,
        writeable: true,
        user_accessible: user_page,
        write_through: false,
        cache_disabled: false,
        accessed: false,
        dirty: false,
        huge_page: false,
        global: false,
        physical_address: physical,
        no_execute: false,
    }
}

/// The entry that maps a page to `physical_address`.
pub open spec fn page_entry(
    user_page: bool,
    physical_address: u64,
    memory_type: MemoryType,
    permissions: PagePermissions,
) -> PageTableEntry {
    PageTableEntry {
        present: true,
        writeable: permissions.writable,
        user_accessible: permissions.user,
        write_through: false,
        cache_disabled: memory_type == MemoryType::Device,
        accessed: false,
        dirty: false,
        huge_page: false,
        global: !user_page,
        physical_address: physical_address,
        no_execute: !permissions.executable,
    }
}

/// `words` after making sure the entry at `entry` is present: unchanged if
/// it is; otherwise it becomes the entry of a new table at `physical`, and
/// the table it leads to, at `table`, is zeroed.
pub open spec fn with_table(words: Map<u64, u64>, entry: u64, table: u64, user_page: bool, physical: u64) -> Map<
    u64,
    u64,
> {
    if is_present_word(word_at(words, entry)) {
        words
    } else {
        zeroed_table(words.insert(entry, entry_word(table_entry(user_page, physical))), table)
    }
}

/// `words` after making sure that the page tables down to the one with
/// index `i2` in its level exist, creating the missing ones (with tables at
/// `p4`, `p3` and `p2`) from the top.
pub open spec fn with_tables(
    words: Map<u64, u64>,
    user_page: bool,
    i4: int,
    i3: int,
    i2: int,
    p4: u64,
    p3: u64,
    p2: u64,
) -> Map<u64, u64> {
    let r = RECURSIVE_PAGE_TABLE_INDEX as int;
    let w4 = with_table(words, entry_address(r, r, r, i4), entry_address(r, r, i4, 0), user_page, p4);
    let w3 = with_table(w4, entry_address(r, r, i4, i3), entry_address(r, i4, i3, 0), user_page, p3);
    with_table(w3, entry_address(r, i4, i3, i2), entry_address(i4, i3, i2, 0), user_page, p2)
}

/// The new page table that making sure of the entry at `entry` creates:
/// none when the entry is present, else the one at `physical`.
pub open spec fn table_created(words: Map<u64, u64>, entry: u64, physical: u64) -> Seq<u64> {
    if is_present_word(word_at(words, entry)) {
        Seq::empty()
    } else {
        seq![physical]
    }
}

/// The new page tables that `with_tables` creates, from the top.
pub open spec fn tables_created(
    words: Map<u64, u64>,
    user_page: bool,
    i4: int,
    i3: int,
    i2: int,
    p4: u64,
    p3: u64,
    p2: u64,
) -> Seq<u64> {
    let r = RECURSIVE_PAGE_TABLE_INDEX as int;
    let w4 = with_table(words, entry_address(r, r, r, i4), entry_address(r, r, i4, 0), user_page, p4);
    let w3 = with_table(w4, entry_address(r, r, i4, i3), entry_address(r, i4, i3, 0), user_page, p3);
    table_created(words, entry_address(r, r, r, i4), p4) + table_created(w4, entry_address(r, r, i4, i3), p3)
        + table_created(w3, entry_address(r, i4, i3, i2), p2)
}

/// The root page table's entry for itself, through which the recursive
/// mapping reaches every table, is present.
pub open spec fn recursive_entry_present(words: Map<u64, u64>) -> bool {
    let r = RECURSIVE_PAGE_TABLE_INDEX as int;
    is_present_word(word_at(words, entry_address(r, r, r, r)))
}

/// The three page tables above the entry with the given indices are present.
pub open spec fn tables_present(words: Map<u64, u64>, i4: int, i3: int, i2: int) -> bool {
    let r = RECURSIVE_PAGE_TABLE_INDEX as int;
    &&& is_present_word(word_at(words, entry_address(r, r, r, i4)))
    &&& is_present_word(word_at(words, entry_address(r, r, i4, i3)))
    &&& is_present_word(word_at(words, entry_address(r, i4, i3, i2)))
}

/// The page-table indices of a virtual address.
pub open spec fn address_indices(virtual_address: u64) -> (int, int, int, int) {
    (
        level_index(virtual_address, 39) as int,
        level_index(virtual_address, 30) as int,
        level_index(virtual_address, 21) as int,
        level_index(virtual_address, 12) as int,
    )
}

/// The address of the entry that maps `virtual_address`.
pub open spec fn leaf_entry_address(virtual_address: u64) -> u64 {
    let (i4, i3, i2, i1) = address_indices(virtual_address);
    entry_address(i4, i3, i2, i1)
}

/// `virtual_address` is mapped: its page tables and its entry are present.
pub open spec fn page_mapped(words: Map<u64, u64>, virtual_address: u64) -> bool {
    let (i4, i3, i2, i1) = address_indices(virtual_address);
    &&& tables_present(words, i4, i3, i2)
    &&& is_present_word(word_at(words, entry_address(i4, i3, i2, i1)))
}

/// The page-table entries as seen through the recursive mapping, and the
/// pool from which new page tables come.
pub trait PageTableMemory {
    /// The entry words, by virtual address. A type that leaves this out gets
    /// one fixed, unknown map, which its writes cannot keep: for such a type
    /// (one outside the verified library), the clauses below are claims
    /// about its code that nothing checks.
    closed spec fn words(&self) -> Map<u64, u64> {
        arbitrary()
    }

    /// The physical pages handed out for new page tables so far, in order.
    /// A type that leaves this out gets one fixed, unknown sequence, as
    /// with `words`.
    closed spec fn handed_out(&self) -> Seq<u64> {
        arbitrary()
    }

    /// The virtual addresses whose cached translations have been dropped so
    /// far, in order. A type that leaves this out gets one fixed, unknown
    /// sequence, as with `words`.
    closed spec fn invalidated(&self) -> Seq<usize> {
        arbitrary()
    }

    /// The entry word at `address`.
    fn read_word(&self, address: u64) -> (r: u64)
        ensures
            r == word_at(self.words(), address),
    ;

    /// Sets the entry word at `address`.
    fn write_word(&mut self, address: u64, word: u64)
        ensures
            final(self).words() == old(self).words().insert(address, word),
            final(self).handed_out() == old(self).handed_out(),
            final(self).invalidated() == old(self).invalidated(),
    ;

    /// Zeroes the 512 entries of the table that starts at `address`.
    fn zero_table(&mut self, address: u64)
        requires
            address + 4096 <= u64::MAX,
        ensures
            final(self).words() == zeroed_table(old(self).words(), address),
            final(self).handed_out() == old(self).handed_out(),
            final(self).invalidated() == old(self).invalidated(),
    ;

    /// The physical address of a new page table, which joins the pages
    /// handed out.
    fn allocate_page_table(&mut self) -> (r: u64)
        ensures
            final(self).words() == old(self).words(),
            final(self).handed_out() == old(self).handed_out().push(r),
            final(self).invalidated() == old(self).invalidated(),
    ;

    /// Drops what the processor has cached of the mapping of
    /// `virtual_address`, which joins the addresses invalidated.
    fn clear_page_cache(&mut self, virtual_address: usize)
        ensures
            final(self).words() == old(self).words(),
            final(self).handed_out() == old(self).handed_out(),
            final(self).invalidated() == old(self).invalidated().push(virtual_address),
    ;
}

/// Entry words kept in memory, with page tables handed out from a counter:
/// the recursive mapping as the paging code sees it, without the processor.
pub struct RecursivePageTables {
    words: HashMap<u64, u64>,
    next_table: u64,
    handed_out: Ghost<Seq<u64>>,
    invalidated: Ghost<Seq<usize>>,
}

impl RecursivePageTables {
    /// The address of the page table that is handed out next.
    pub closed spec fn next_page_table(&self) -> u64 {
        self.next_table
    }

    /// No entry present; new page tables are handed out from `first_table` up.
    pub fn new(first_table: u64) -> (r: Self)
        ensures
            r.words() == Map::<u64, u64>::empty(),
            r.next_page_table() == first_table,
            r.handed_out() == Seq::<u64>::empty(),
            r.invalidated() == Seq::<usize>::empty(),
    {
        RecursivePageTables {
            words: HashMap::new(),
            next_table: first_table,
            handed_out: Ghost(Seq::empty()),
            invalidated: Ghost(Seq::empty()),
        }
    }
}

impl PageTableMemory for RecursivePageTables {
    closed spec fn words(&self) -> Map<u64, u64> {
        self.words@
    }

    closed spec fn handed_out(&self) -> Seq<u64> {
        self.handed_out@
    }

    closed spec fn invalidated(&self) -> Seq<usize> {
        self.invalidated@
    }

    fn read_word(&self, address: u64) -> (r: u64) {
        broadcast use vstd::std_specs::hash::group_hash_axioms;

        match self.words.get(&address) {
            Some(word) => *word,
            None => 0,
        }
    }

    fn write_word(&mut self, address: u64, word: u64) {
        broadcast use vstd::std_specs::hash::group_hash_axioms;

        self.words.insert(address, word);
    }

    fn zero_table(&mut self, address: u64) {
        broadcast use vstd::std_specs::hash::group_hash_axioms;

        let ghost before = self.words@;
        let mut k: u64 = 0;
        while k < 512
            invariant
                k <= 512,
                address + 4096 <= u64::MAX,
                self.handed_out@ == old(self).handed_out@,
                self.invalidated@ == old(self).invalidated@,
                self.words@ == before.union_prefer_right(
                    Map::new(|a: u64| address <= a < address + 8 * k && (a - address) % 8 == 0, |a: u64| 0u64),
                ),
            decreases 512 - k,
        {
            self.words.insert(address + 8 * k, 0);
            k = k + 1;
            assert(self.words@ =~= before.union_prefer_right(
                Map::new(|a: u64| address <= a < address + 8 * k && (a - address) % 8 == 0, |a: u64| 0u64),
            ));
        }
        assert(self.words@ =~= zeroed_table(before, address));
    }

    /// Hands out the next page table; the one after it follows a page
    /// further on (wrapping around at the end of the address space).
    fn allocate_page_table(&mut self) -> (r: u64)
        ensures
            r == old(self).next_page_table(),
            final(self).next_page_table() == if old(self).next_page_table() + PAGE_SIZE <= u64::MAX {
                old(self).next_page_table() + PAGE_SIZE
            } else {
                old(self).next_page_table() + PAGE_SIZE - 0x1_0000_0000_0000_0000
            },
    {
        let table = self.next_table;
        self.next_table = self.next_table.wrapping_add(PAGE_SIZE as u64);
        self.handed_out = Ghost(self.handed_out@.push(table));
        table
    }

    fn clear_page_cache(&mut self, virtual_address: usize) {
        self.invalidated = Ghost(self.invalidated@.push(virtual_address));
    }
}

/// The entry with the given indices.
pub fn read_page_table_entry<M: PageTableMemory>(
    memory: &M,
    pml4_index: usize,
    pml3_index: usize,
    pml2_index: usize,
    pml1_index: usize,
) -> (r: PageTableEntry)
    requires
        pml4_index < 512 && pml3_index < 512 && pml2_index < 512 && pml1_index < 512,
    ensures
        r == entry_fields(
            word_at(memory.words(), entry_address(pml4_index as int, pml3_index as int, pml2_index as int, pml1_index as int)),
        ),
{
    let entry_address = get_page_table_entry_address(pml4_index, pml3_index, pml2_index, pml1_index);
    let entry = memory.read_word(entry_address);
    deconstruct_page_table_entry(entry)
}

/// Sets the entry with the given indices to `entry`.
pub fn write_page_table_entry<M: PageTableMemory>(
    memory: &mut M,
    entry: PageTableEntry,
    pml4_index: usize,
    pml3_index: usize,
    pml2_index: usize,
    pml1_index: usize,
)
    requires
        pml4_index < 512 && pml3_index < 512 && pml2_index < 512 && pml1_index < 512,
    ensures
        final(memory).words() == old(memory).words().insert(
            entry_address(pml4_index as int, pml3_index as int, pml2_index as int, pml1_index as int),
            entry_word(entry),
        ),
        final(memory).handed_out() == old(memory).handed_out(),
        final(memory).invalidated() == old(memory).invalidated(),
{
    let entry_address = get_page_table_entry_address(pml4_index, pml3_index, pml2_index, pml1_index);
    let entry = construct_page_table_entry(entry);
    memory.write_word(entry_address, entry);
}

/// Makes sure the entry with the given indices is present, creating and
/// zeroing the table it leads to when it is not.
fn ensure_table<M: PageTableMemory>(
    memory: &mut M,
    user_page: bool,
    i4: usize,
    i3: usize,
    i2: usize,
    i1: usize,
) -> (r: Ghost<u64>)
    requires
        i4 < 512 && i3 < 512 && i2 < 512 && i1 < 512,
    ensures
        final(memory).invalidated() == old(memory).invalidated(),
        final(memory).words() == with_table(
            old(memory).words(),
            entry_address(i4 as int, i3 as int, i2 as int, i1 as int),
            entry_address(i3 as int, i2 as int, i1 as int, 0),
            user_page,
            r@,
        ),
        final(memory).handed_out() == old(memory).handed_out() + table_created(
            old(memory).words(),
            entry_address(i4 as int, i3 as int, i2 as int, i1 as int),
            r@,
        ),
{
    let entry = read_page_table_entry(memory, i4, i3, i2, i1);
    if !entry.present {
        let physical_address = memory.allocate_page_table();
        write_page_table_entry(
            memory,
            PageTableEntry {
                present: true,
                writeable: true,
                user_accessible: user_page,
                write_through: false,
                cache_disabled: false,
                accessed: false,
                dirty: false,
                huge_page: false,
                global: false,
                physical_address: physical_address,
                no_execute: false,
            },
            i4,
            i3,
            i2,
            i1,
        );
        let address = get_page_table_entry_address(i3, i2, i1, 0);
        memory.zero_table(address);
        Ghost(physical_address)
    } else {
        Ghost(0)
    }
}

/// Makes sure the page tables for the indices `pml4_index`, `pml3_index`
/// and `pml2_index` exist, from the top: each missing one is allocated,
/// entered in its parent (user-accessible for a user page) and zeroed.
pub fn ensure_page_table_exists<M: PageTableMemory>(
    memory: &mut M,
    user_page: bool,
    pml4_index: usize,
    pml3_index: usize,
    pml2_index: usize,
)
    requires
        pml4_index < 512 && pml3_index < 512 && pml2_index < 512,
    ensures
        final(memory).invalidated() == old(memory).invalidated(),
        exists|p4: u64, p3: u64, p2: u64|
            final(memory).words() == #[trigger] with_tables(
                old(memory).words(),
                user_page,
                pml4_index as int,
                pml3_index as int,
                pml2_index as int,
                p4,
                p3,
                p2,
            ) && final(memory).handed_out() == old(memory).handed_out() + tables_created(
                old(memory).words(),
                user_page,
                pml4_index as int,
                pml3_index as int,
                pml2_index as int,
                p4,
                p3,
                p2,
            ),
{
    // Indexing with the first indices set to the recursive index gives the next layer up in the page tables.
    let r = RECURSIVE_PAGE_TABLE_INDEX;
    let p4 = ensure_table(memory, user_page, r, r, r, pml4_index);
    let p3 = ensure_table(memory, user_page, r, r, pml4_index, pml3_index);
    let p2 = ensure_table(memory, user_page, r, pml4_index, pml3_index, pml2_index);
    assert(memory.words() == with_tables(
        old(memory).words(),
        user_page,
        pml4_index as int,
        pml3_index as int,
        pml2_index as int,
        p4@,
        p3@,
        p2@,
    ));
}

/// Entries of the recursive mapping lie where their indices say: two are
/// the same entry only when their indices are.
pub proof fn lemma_entry_address_injective(a: int, b: int, c: int, d: int, w: int, x: int, y: int, z: int)
    requires
        0 <= a < 512 && 0 <= b < 512 && 0 <= c < 512 && 0 <= d < 512,
        0 <= w < 512 && 0 <= x < 512 && 0 <= y < 512 && 0 <= z < 512,
    ensures
        (entry_address(a, b, c, d) == entry_address(w, x, y, z)) <==> (a == w && b == x && c == y && d == z),
        in_table(entry_address(a, b, c, 0), entry_address(w, x, y, z)) <==> (a == w && b == x && c == y),
{
}

/// Entries of the recursive mapping lie where their indices say, for all
/// indices at once.
pub proof fn lemma_entry_addresses_injective()
    ensures
        forall|a: int, b: int, c: int, d: int, w: int, x: int, y: int, z: int|
            #![trigger entry_address(a, b, c, d), entry_address(w, x, y, z)]
            0 <= a < 512 && 0 <= b < 512 && 0 <= c < 512 && 0 <= d < 512 && 0 <= w < 512 && 0 <= x < 512 && 0
                <= y < 512 && 0 <= z < 512 ==> ((entry_address(a, b, c, d) == entry_address(w, x, y, z)) <==> (a
                == w && b == x && c == y && d == z)),
        forall|a: int, b: int, c: int, w: int, x: int, y: int, z: int|
            #![trigger in_table(entry_address(a, b, c, 0), entry_address(w, x, y, z))]
            0 <= a < 512 && 0 <= b < 512 && 0 <= c < 512 && 0 <= w < 512 && 0 <= x < 512 && 0 <= y < 512 && 0
                <= z < 512 ==> (in_table(entry_address(a, b, c, 0), entry_address(w, x, y, z)) <==> (a == w && b
                == x && c == y)),
{
    assert forall|a: int, b: int, c: int, d: int, w: int, x: int, y: int, z: int|
        #![trigger entry_address(a, b, c, d), entry_address(w, x, y, z)]
        0 <= a < 512 && 0 <= b < 512 && 0 <= c < 512 && 0 <= d < 512 && 0 <= w < 512 && 0 <= x < 512 && 0 <= y
            < 512 && 0 <= z < 512 implies ((entry_address(a, b, c, d) == entry_address(w, x, y, z)) <==> (a == w
        && b == x && c == y && d == z)) by {
        lemma_entry_address_injective(a, b, c, d, w, x, y, z);
    }
    assert forall|a: int, b: int, c: int, w: int, x: int, y: int, z: int|
        #![trigger in_table(entry_address(a, b, c, 0), entry_address(w, x, y, z))]
        0 <= a < 512 && 0 <= b < 512 && 0 <= c < 512 && 0 <= w < 512 && 0 <= x < 512 && 0 <= y < 512 && 0 <= z
            < 512 implies (in_table(entry_address(a, b, c, 0), entry_address(w, x, y, z)) <==> (a == w && b == x
        && c == y)) by {
        lemma_entry_address_injective(a, b, c, 0, w, x, y, z);
    }
}

/// An entry whose present flag is set has the present bit set in its word.
proof fn lemma_present_entry(e: PageTableEntry)
    requires
        e.present,
    ensures
        is_present_word(entry_word(e)),
{
    let w = entry_word(e);
    let a: u64 = if e.writeable { 2 } else { 0 };
    let b: u64 = if e.user_accessible { 4 } else { 0 };
    let c: u64 = if e.write_through { 8 } else { 0 };
    let d: u64 = if e.cache_disabled { 16 } else { 0 };
    let f: u64 = if e.accessed { 32 } else { 0 };
    let g: u64 = if e.dirty { 64 } else { 0 };
    let h: u64 = if e.huge_page { 128 } else { 0 };
    let i: u64 = if e.global { 256 } else { 0 };
    let j: u64 = e.physical_address & PHYSICAL_ADDRESS_MASK;
    let k: u64 = if e.no_execute { 0x8000_0000_0000_0000 } else { 0 };
    assert(w == 1u64 | a | b | c | d | f | g | h | i | j | k);
    assert(w & 1 != 0) by (bit_vector)
        requires
            w == 1u64 | a | b | c | d | f | g | h | i | j | k,
    ;
}

/// With the root's entry for itself present where the page lies in the
/// recursive mapping's own slot, making sure of the page tables leaves them
/// present; it changes nothing when they were present, and otherwise leaves
/// the entry below them cleared.
proof fn lemma_with_tables(
    words: Map<u64, u64>,
    user_page: bool,
    i4: int,
    i3: int,
    i2: int,
    i1: int,
    p4: u64,
    p3: u64,
    p2: u64,
)
    requires
        0 <= i4 < 512 && 0 <= i3 < 512 && 0 <= i2 < 512 && 0 <= i1 < 512,
        i4 == RECURSIVE_PAGE_TABLE_INDEX ==> recursive_entry_present(words),
    ensures
        tables_present(with_tables(words, user_page, i4, i3, i2, p4, p3, p2), i4, i3, i2),
        tables_present(words, i4, i3, i2) ==> with_tables(words, user_page, i4, i3, i2, p4, p3, p2) == words,
        !tables_present(words, i4, i3, i2) ==> word_at(
            with_tables(words, user_page, i4, i3, i2, p4, p3, p2),
            entry_address(i4, i3, i2, i1),
        ) == 0,
{
    let r = RECURSIVE_PAGE_TABLE_INDEX as int;
    let a4 = entry_address(r, r, r, i4);
    let a3 = entry_address(r, r, i4, i3);
    let a2 = entry_address(r, i4, i3, i2);
    let leaf = entry_address(i4, i3, i2, i1);
    let t4 = entry_address(r, r, i4, 0);
    let t3 = entry_address(r, i4, i3, 0);
    let t2 = entry_address(i4, i3, i2, 0);
    lemma_entry_addresses_injective();
    lemma_present_entry(table_entry(user_page, p4));
    lemma_present_entry(table_entry(user_page, p3));
    lemma_present_entry(table_entry(user_page, p2));
    lemma_zero_not_present();
}

/// Whether the page tables above the entry for `indices` are present,
/// looking from the top.
pub fn is_page_table_present<M: PageTableMemory>(memory: &M, indices: &PageTableIndices) -> (r: bool)
    requires
        indices.pml4_index < 512 && indices.pml3_index < 512 && indices.pml2_index < 512,
    ensures
        r == tables_present(
            memory.words(),
            indices.pml4_index as int,
            indices.pml3_index as int,
            indices.pml2_index as int,
        ),
{
    let r = RECURSIVE_PAGE_TABLE_INDEX;
    // Check if the pml4 entry is there, then the pml3, then the pml2.
    let pml4_entry = read_page_table_entry(memory, r, r, r, indices.pml4_index);
    if !pml4_entry.present {
        return false;
    }
    let pml3_entry = read_page_table_entry(memory, r, r, indices.pml4_index, indices.pml3_index);
    if !pml3_entry.present {
        return false;
    }
    let pml2_entry = read_page_table_entry(memory, r, indices.pml4_index, indices.pml3_index, indices.pml2_index);
    if !pml2_entry.present {
        return false;
    }
    true
}

/// Whether the page at `virtual_address` is mapped: its page tables and its
/// entry are present.
pub fn is_page_mapped<M: PageTableMemory>(memory: &M, virtual_address: usize) -> (r: bool)
    ensures
        r == page_mapped(memory.words(), virtual_address as u64),
{
    let indices = deconstruct_virtual_address(virtual_address);
    if !is_page_table_present(memory, &indices) {
        return false;
    }
    let entry = read_page_table_entry(
        memory,
        indices.pml4_index,
        indices.pml3_index,
        indices.pml2_index,
        indices.pml1_index,
    );
    entry.present
}

/// A virtual address lies in the user half when bit 47 is clear.
pub open spec fn is_user_page(virtual_address: u64) -> bool {
    virtual_address & 0x8000_0000_0000u64 == 0
}

/// Maps the page at `virtual_address` to `physical_address`: creates the
/// missing page tables (user-accessible for a user page), then sets the
/// page's entry, global for a kernel page. The page must not be mapped; a
/// page in the recursive mapping's own slot is reached through the root's
/// entry for itself, which must be present.
pub fn map_page<M: PageTableMemory>(
    memory: &mut M,
    virtual_address: usize,
    physical_address: usize,
    memory_type: MemoryType,
    permissions: PagePermissions,
)
    requires
        level_index(virtual_address as u64, 39) == RECURSIVE_PAGE_TABLE_INDEX ==> recursive_entry_present(
            old(memory).words(),
        ),
        !page_mapped(old(memory).words(), virtual_address as u64),
    ensures
        final(memory).invalidated() == old(memory).invalidated(),
        exists|p4: u64, p3: u64, p2: u64|
            final(memory).words() == #[trigger] mapped_words(
                old(memory).words(),
                virtual_address as u64,
                physical_address as u64,
                memory_type,
                permissions,
                p4,
                p3,
                p2,
            ) && final(memory).handed_out() == old(memory).handed_out() + tables_created(
                old(memory).words(),
                is_user_page(virtual_address as u64),
                level_index(virtual_address as u64, 39) as int,
                level_index(virtual_address as u64, 30) as int,
                level_index(virtual_address as u64, 21) as int,
                p4,
                p3,
                p2,
            ),
        page_mapped(final(memory).words(), virtual_address as u64),
        word_at(final(memory).words(), leaf_entry_address(virtual_address as u64)) == entry_word(
            page_entry(is_user_page(virtual_address as u64), physical_address as u64, memory_type, permissions),
        ),
{
    let indices = deconstruct_virtual_address(virtual_address);
    let user_page = (virtual_address as u64) & (1u64 << 47u64) == 0;
    assert(1u64 << 47u64 == 0x8000_0000_0000u64) by (bit_vector);
    ensure_page_table_exists(memory, user_page, indices.pml4_index, indices.pml3_index, indices.pml2_index);
    let ghost ensured = memory.words();
    let ghost handed = memory.handed_out();
    let ghost (i4, i3, i2, i1) = address_indices(virtual_address as u64);
    let ghost (p4, p3, p2) = choose|p4: u64, p3: u64, p2: u64|
        ensured == #[trigger] with_tables(old(memory).words(), user_page, i4, i3, i2, p4, p3, p2) && handed
            == old(memory).handed_out() + tables_created(old(memory).words(), user_page, i4, i3, i2, p4, p3, p2);
    proof {
        lemma_with_tables(old(memory).words(), user_page, i4, i3, i2, i1, p4, p3, p2);
        lemma_zero_not_present();
    }
    let entry = read_page_table_entry(
        memory,
        indices.pml4_index,
        indices.pml3_index,
        indices.pml2_index,
        indices.pml1_index,
    );
    if entry.present {
        // Remapping a page which is already mapped.
        vstd::pervasive::unreached::<()>();
    }
    write_page_table_entry(
        memory,
        PageTableEntry {
            present: true,
            writeable: permissions.writable,
            user_accessible: permissions.user,
            write_through: false,
            cache_disabled: memory_type == MemoryType::Device,
            accessed: false,
            dirty: false,
            huge_page: false,
            global: !user_page,
            physical_address: physical_address as u64,
            no_execute: !permissions.executable,
        },
        indices.pml4_index,
        indices.pml3_index,
        indices.pml2_index,
        indices.pml1_index,
    );
    proof {
        lemma_present_entry(page_entry(user_page, physical_address as u64, memory_type, permissions));
        let r = RECURSIVE_PAGE_TABLE_INDEX as int;
        lemma_entry_addresses_injective();
        assert(memory.words() == with_tables(old(memory).words(), user_page, i4, i3, i2, p4, p3, p2).insert(
            entry_address(i4, i3, i2, i1),
            entry_word(page_entry(user_page, physical_address as u64, memory_type, permissions)),
        ));
        assert(user_page == is_user_page(virtual_address as u64));
        assert(memory.handed_out() == old(memory).handed_out() + tables_created(
            old(memory).words(),
            user_page,
            i4,
            i3,
            i2,
            p4,
            p3,
            p2,
        ));
        assert(memory.words() == mapped_words(
            old(memory).words(),
            virtual_address as u64,
            physical_address as u64,
            memory_type,
            permissions,
            p4,
            p3,
            p2,
        ));
    }
}

/// A zero word is not present.
proof fn lemma_zero_not_present()
    ensures
        !is_present_word(0),
{
    assert(0u64 & 1 == 0) by (bit_vector);
}

/// The entry word of an unmapped page.
proof fn lemma_empty_entry_word()
    ensures
        entry_word(
            PageTableEntry {
                present: false,
                writeable: false,
                user_accessible: false,
                write_through: false,
                cache_disabled: false,
                accessed: false,
                dirty: false,
                huge_page: false,
                global: false,
                physical_address: 0,
                no_execute: false,
            },
        ) == 0,
{
    assert((0u64 | 0u64 | 0u64 | 0u64 | 0u64 | 0u64 | 0u64 | 0u64 | 0u64 | (0u64 & 0x000f_ffff_ffff_f000u64)
        | 0u64) == 0) by (bit_vector);
}

/// Unmaps the page at `virtual_address`, which must be mapped: its entry
/// is cleared and the processor's cache of it dropped.
pub fn unmap_page<M: PageTableMemory>(memory: &mut M, virtual_address: usize)
    requires
        page_mapped(old(memory).words(), virtual_address as u64),
    ensures
        final(memory).words() == old(memory).words().insert(leaf_entry_address(virtual_address as u64), 0),
        final(memory).handed_out() == old(memory).handed_out(),
        final(memory).invalidated() == old(memory).invalidated().push(virtual_address),
{
    let indices = deconstruct_virtual_address(virtual_address);
    if !is_page_table_present(memory, &indices) {
        // Unmapping a page that isn't mapped.
        vstd::pervasive::unreached::<()>();
    }
    let entry = read_page_table_entry(
        memory,
        indices.pml4_index,
        indices.pml3_index,
        indices.pml2_index,
        indices.pml1_index,
    );
    if !entry.present {
        // Unmapping a page that isn't mapped.
        vstd::pervasive::unreached::<()>();
    }
    proof {
        lemma_empty_entry_word();
    }
    write_page_table_entry(
        memory,
        PageTableEntry {
            present: false,
            writeable: false,
            user_accessible: false,
            write_through: false,
            cache_disabled: false,
            accessed: false,
            dirty: false,
            huge_page: false,
            global: false,
            physical_address: 0,
            no_execute: false,
        },
        indices.pml4_index,
        indices.pml3_index,
        indices.pml2_index,
        indices.pml1_index,
    );
    memory.clear_page_cache(virtual_address);
}

/// The physical address that the mapped `virtual_address` stands for: the
/// page's physical address plus the offset within the page.
pub fn get_physical_address<M: PageTableMemory>(memory: &M, virtual_address: usize) -> (r: u64)
    requires
        page_mapped(memory.words(), virtual_address as u64),
    ensures
        r == (word_at(memory.words(), leaf_entry_address(virtual_address as u64)) & PHYSICAL_ADDRESS_MASK) + (
        virtual_address as u64) % (PAGE_SIZE as u64),
{
    let indices = deconstruct_virtual_address(virtual_address);
    if !is_page_table_present(memory, &indices) {
        // Attempt to get the value of an unmapped page.
        vstd::pervasive::unreached::<()>();
    }
    let entry = read_page_table_entry(
        memory,
        indices.pml4_index,
        indices.pml3_index,
        indices.pml2_index,
        indices.pml1_index,
    );
    if !entry.present {
        // Attempt to get the value of an unmapped page.
        vstd::pervasive::unreached::<()>();
    }
    let word = entry.physical_address;
    let ghost leaf_word: u64 = word_at(memory.words(), leaf_entry_address(virtual_address as u64));
    assert(word <= 0x000f_ffff_ffff_f000u64) by (bit_vector)
        requires
            word == leaf_word & 0x000f_ffff_ffff_f000u64,
    ;
    entry.physical_address + (virtual_address as u64) % (PAGE_SIZE as u64)
}

/// The words after `map_page` maps `virtual_address` to `physical_address`,
/// with new page tables (where any are needed) at `p4`, `p3` and `p2`.
pub open spec fn mapped_words(
    words: Map<u64, u64>,
    virtual_address: u64,
    physical_address: u64,
    memory_type: MemoryType,
    permissions: PagePermissions,
    p4: u64,
    p3: u64,
    p2: u64,
) -> Map<u64, u64> {
    let (i4, i3, i2, i1) = address_indices(virtual_address);
    let user_page = is_user_page(virtual_address);
    with_tables(words, user_page, i4, i3, i2, p4, p3, p2).insert(
        entry_address(i4, i3, i2, i1),
        entry_word(page_entry(user_page, physical_address, memory_type, permissions)),
    )
}

/// The index of a level is below 512.
proof fn lemma_level_index_bound(address: u64)
    ensures
        level_index(address, 39) < 512,
        level_index(address, 30) < 512,
        level_index(address, 21) < 512,
        level_index(address, 12) < 512,
{
    assert((address >> 39u64) & 0x1ff < 512 && (address >> 30u64) & 0x1ff < 512 && (address >> 21u64) & 0x1ff
        < 512 && (address >> 12u64) & 0x1ff < 512) by (bit_vector);
}

/// A page that has been mapped translates to the physical address it was
/// mapped to (taken to its page-frame bits), plus the offset in the page.
pub proof fn law_map_then_translate(
    words: Map<u64, u64>,
    virtual_address: u64,
    physical_address: u64,
    memory_type: MemoryType,
    permissions: PagePermissions,
    p4: u64,
    p3: u64,
    p2: u64,
)
    requires
        level_index(virtual_address, 39) == RECURSIVE_PAGE_TABLE_INDEX ==> recursive_entry_present(words),
        !page_mapped(words, virtual_address),
    ensures
        ({
            let after = mapped_words(words, virtual_address, physical_address, memory_type, permissions, p4, p3, p2);
            &&& page_mapped(after, virtual_address)
            &&& (word_at(after, leaf_entry_address(virtual_address)) & PHYSICAL_ADDRESS_MASK) + virtual_address % (
            PAGE_SIZE as u64) == (physical_address & PHYSICAL_ADDRESS_MASK) + virtual_address % (PAGE_SIZE as u64)
        }),
{
    lemma_level_index_bound(virtual_address);
    let (i4, i3, i2, i1) = address_indices(virtual_address);
    let user_page = is_user_page(virtual_address);
    lemma_with_tables(words, user_page, i4, i3, i2, i1, p4, p3, p2);
    let e = page_entry(user_page, physical_address, memory_type, permissions);
    lemma_present_entry(e);
    let r = RECURSIVE_PAGE_TABLE_INDEX as int;
    lemma_entry_addresses_injective();
    let w = entry_word(e);
    let a: u64 = if e.writeable { 2 } else { 0 };
    let b: u64 = if e.user_accessible { 4 } else { 0 };
    let d: u64 = if e.cache_disabled { 16 } else { 0 };
    let i: u64 = if e.global { 256 } else { 0 };
    let k: u64 = if e.no_execute { 0x8000_0000_0000_0000 } else { 0 };
    assert(w == 1u64 | a | b | 0u64 | d | 0u64 | 0u64 | 0u64 | i | (physical_address & PHYSICAL_ADDRESS_MASK) | k);
    assert(w & 0x000f_ffff_ffff_f000u64 == physical_address & 0x000f_ffff_ffff_f000u64) by (bit_vector)
        requires
            w == 1u64 | a | b | 0u64 | d | 0u64 | 0u64 | 0u64 | i | (physical_address & 0x000f_ffff_ffff_f000u64) | k,
            a == 0 || a == 2,
            b == 0 || b == 4,
            d == 0 || d == 16,
            i == 0 || i == 256,
            k == 0 || k == 0x8000_0000_0000_0000u64,
    ;
}

/// Mapping a page gives its entry the access that was asked for: the entry
/// is present, writeable exactly when the permissions allow writing,
/// user-accessible exactly when they allow user access, no-execute exactly
/// when they forbid execution, and uncached exactly for device memory; it is
/// global exactly for a kernel page, neither write-through nor huge, and
/// holds the page-frame bits of the physical address.
pub proof fn law_map_sets_permissions(
    words: Map<u64, u64>,
    virtual_address: u64,
    physical_address: u64,
    memory_type: MemoryType,
    permissions: PagePermissions,
    p4: u64,
    p3: u64,
    p2: u64,
)
    ensures
        ({
            let after = mapped_words(words, virtual_address, physical_address, memory_type, permissions, p4, p3, p2);
            let leaf = entry_fields(word_at(after, leaf_entry_address(virtual_address)));
            &&& leaf.present
            &&& leaf.writeable == permissions.writable
            &&& leaf.user_accessible == permissions.user
            &&& leaf.no_execute == !permissions.executable
            &&& leaf.cache_disabled == (memory_type == MemoryType::Device)
            &&& leaf.global == !is_user_page(virtual_address)
            &&& !leaf.write_through && !leaf.huge_page
            &&& leaf.physical_address == physical_address & PHYSICAL_ADDRESS_MASK
        }),
{
    lemma_entry_flags_of_word(page_entry(is_user_page(virtual_address), physical_address, memory_type, permissions));
}

/// A page that has been unmapped is no longer mapped.
pub proof fn law_unmap_clears(words: Map<u64, u64>, virtual_address: u64)
    requires
        page_mapped(words, virtual_address),
    ensures
        !page_mapped(words.insert(leaf_entry_address(virtual_address), 0), virtual_address),
{
    lemma_zero_not_present();
}

/// Mapping a page leaves every other mapped page mapped, to the same entry.
pub proof fn law_map_keeps_other_pages(
    words: Map<u64, u64>,
    virtual_address: u64,
    physical_address: u64,
    memory_type: MemoryType,
    permissions: PagePermissions,
    p4: u64,
    p3: u64,
    p2: u64,
    other_address: u64,
)
    requires
        level_index(virtual_address, 39) == RECURSIVE_PAGE_TABLE_INDEX ==> recursive_entry_present(words),
        !page_mapped(words, virtual_address),
        page_mapped(words, other_address),
    ensures
        ({
            let after = mapped_words(words, virtual_address, physical_address, memory_type, permissions, p4, p3, p2);
            &&& page_mapped(after, other_address)
            &&& word_at(after, leaf_entry_address(other_address)) == word_at(words, leaf_entry_address(other_address))
        }),
{
    lemma_level_index_bound(virtual_address);
    lemma_level_index_bound(other_address);
    let (i4, i3, i2, i1) = address_indices(virtual_address);
    let (j4, j3, j2, j1) = address_indices(other_address);
    let user_page = is_user_page(virtual_address);
    let r = RECURSIVE_PAGE_TABLE_INDEX as int;
    let (e4, e3, e2, leaf) = (
        entry_address(r, r, r, i4),
        entry_address(r, r, i4, i3),
        entry_address(r, i4, i3, i2),
        entry_address(i4, i3, i2, i1),
    );
    let (t4, t3, t2) = (entry_address(r, r, i4, 0), entry_address(r, i4, i3, 0), entry_address(i4, i3, i2, 0));
    let (b4, b3, b2, bl) = (
        entry_address(r, r, r, j4),
        entry_address(r, r, j4, j3),
        entry_address(r, j4, j3, j2),
        entry_address(j4, j3, j2, j1),
    );
    let w4 = with_table(words, e4, t4, user_page, p4);
    let w3 = with_table(w4, e3, t3, user_page, p3);
    let w2 = with_table(w3, e2, t2, user_page, p2);
    assert(w2 == with_tables(words, user_page, i4, i3, i2, p4, p3, p2));
    // The other page's entries, and the root's entry for itself, are present.
    assert(is_present_word(word_at(words, b4)) && is_present_word(word_at(words, b3)) && is_present_word(
        word_at(words, b2),
    ) && is_present_word(word_at(words, bl)));
    assert(word_at(w4, b4) == word_at(words, b4) && word_at(w4, b3) == word_at(words, b3) && word_at(w4, b2)
        == word_at(words, b2) && word_at(w4, bl) == word_at(words, bl)) by {
        lemma_entry_addresses_injective();
        lemma_with_table_keeps(words, e4, t4, user_page, p4, b4);
        lemma_with_table_keeps(words, e4, t4, user_page, p4, b3);
        lemma_with_table_keeps(words, e4, t4, user_page, p4, b2);
        lemma_with_table_keeps(words, e4, t4, user_page, p4, bl);
    }
    assert(word_at(w3, b4) == word_at(words, b4) && word_at(w3, b3) == word_at(words, b3) && word_at(w3, b2)
        == word_at(words, b2) && word_at(w3, bl) == word_at(words, bl)) by {
        lemma_entry_addresses_injective();
        lemma_with_table_keeps(w4, e3, t3, user_page, p3, b4);
        lemma_with_table_keeps(w4, e3, t3, user_page, p3, b3);
        lemma_with_table_keeps(w4, e3, t3, user_page, p3, b2);
        lemma_with_table_keeps(w4, e3, t3, user_page, p3, bl);
    }
    assert(word_at(w2, b4) == word_at(words, b4) && word_at(w2, b3) == word_at(words, b3) && word_at(w2, b2)
        == word_at(words, b2) && word_at(w2, bl) == word_at(words, bl)) by {
        lemma_entry_addresses_injective();
        lemma_with_table_keeps(w3, e2, t2, user_page, p2, b4);
        lemma_with_table_keeps(w3, e2, t2, user_page, p2, b3);
        lemma_with_table_keeps(w3, e2, t2, user_page, p2, b2);
        lemma_with_table_keeps(w3, e2, t2, user_page, p2, bl);
    }
    // The page's own entry is none of the other page's: else it would be
    // mapped already, or cleared by a new table.
    lemma_with_tables(words, user_page, i4, i3, i2, i1, p4, p3, p2);
    assert(leaf != b4 && leaf != b3 && leaf != b2 && leaf != bl) by {
        lemma_entry_addresses_injective();
    }
}

/// Making sure of the entry at `entry` leaves the word at `address` as it
/// was when it is neither that entry nor in the table a new one would
/// zero, or when the entry is already present.
proof fn lemma_with_table_keeps(words: Map<u64, u64>, entry: u64, table: u64, user_page: bool, physical: u64, address: u64)
    requires
        (address != entry && !in_table(table, address)) || is_present_word(word_at(words, entry)),
    ensures
        word_at(with_table(words, entry, table, user_page, physical), address) == word_at(words, address),
{
    if !is_present_word(word_at(words, entry)) {
        let inserted = words.insert(entry, entry_word(table_entry(user_page, physical)));
        let zeroes = Map::new(|a: u64| in_table(table, a), |a: u64| 0u64);
        assert(zeroed_table(inserted, table) == inserted.union_prefer_right(zeroes));
        assert(!zeroes.dom().contains(address));
    }
}

} // verus!
