//! The entries of a fresh slab of the heap's slab allocator: a head that
//! starts the list of unused entries, and the unused entries after it, each
//! linked to its neighbours.
use vstd::prelude::*;
use crate::pmm::BLOCK_SIZE;

verus! {

/// An unused entry: the indices of the unused entries before and after it.
#[derive(Clone, Copy, Debug, PartialEq, Eq, Structural)]
pub struct SlabUnusedEntry {
    pub next_index: u16,
    pub previous_index: u16,
}

/// The first entry of a slab: the addresses of the slabs of the same size
/// before and after it in their list (0 for none), and the index of its
/// first unused entry.
#[derive(Clone, Copy, Debug, PartialEq, Eq, Structural)]
pub struct SlabHeadEntry {
    pub next_of_this_size: usize,
    pub previous_of_this_size: usize,
    pub first_unused_entry: u16,
}

/// An entry of a slab, as its list sees it.
#[derive(Clone, Copy, Debug, PartialEq, Eq, Structural)]
pub enum SlabEntry {
    Head(SlabHeadEntry),
    Unused(SlabUnusedEntry),
}

/// The entries of a fresh slab of `SIZE`-byte entries, taking a block: the
/// head, in no list yet, with entry 1 its first unused one; then entry `i`
/// linked to `i + 1` and `i - 1`.
pub fn initialize_entry_list<const SIZE: usize>() -> (entries: Vec<SlabEntry>)
    requires
        32 <= SIZE <= BLOCK_SIZE,
    ensures
        entries.len() == BLOCK_SIZE / SIZE,
        entries@[0] == SlabEntry::Head(
            SlabHeadEntry { next_of_this_size: 0, previous_of_this_size: 0, first_unused_entry: 1 },
        ),
        forall|i: int|
            1 <= i < entries.len() ==> #[trigger] entries@[i] == SlabEntry::Unused(
                SlabUnusedEntry { next_index: (i + 1) as u16, previous_index: (i - 1) as u16 },
            ),
{
    let entry_count = BLOCK_SIZE / SIZE;
    assert(entry_count <= 2048) by (nonlinear_arith)
        requires
            entry_count == 65536usize / SIZE,
            SIZE >= 32,
    ;
    assert(entry_count >= 1) by (nonlinear_arith)
        requires
            entry_count == 65536usize / SIZE,
            0 < SIZE <= 65536,
    {
        vstd::arithmetic::div_mod::lemma_div_is_ordered(SIZE as int, 65536, SIZE as int);
        vstd::arithmetic::div_mod::lemma_div_by_self(SIZE as int);
    }
    let mut entries: Vec<SlabEntry> = Vec::new();
    entries.push(
        SlabEntry::Head(SlabHeadEntry { next_of_this_size: 0, previous_of_this_size: 0, first_unused_entry: 1 }),
    );
    let mut i: usize = 1;
    while i < entry_count
        invariant
            1 <= i <= entry_count,
            entry_count <= 2048,
            entries.len() == i,
            entries@[0] == SlabEntry::Head(
                SlabHeadEntry { next_of_this_size: 0, previous_of_this_size: 0, first_unused_entry: 1 },
            ),
            forall|j: int|
                1 <= j < i ==> #[trigger] entries@[j] == SlabEntry::Unused(
                    SlabUnusedEntry { next_index: (j + 1) as u16, previous_index: (j - 1) as u16 },
                ),
        decreases entry_count - i,
    {
        entries.push(SlabEntry::Unused(SlabUnusedEntry { next_index: (i + 1) as u16, previous_index: (i - 1) as u16 }));
        i = i + 1;
    }
    entries
}

} // verus!
