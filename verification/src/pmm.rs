//! The physical memory manager: a bitmap of fixed-size blocks in which a set
//! bit marks a free (available) block and a clear bit a used one.
use vstd::prelude::*;
use crate::bits::{
    bit_set, words_view, lemma_words_update, lemma_bit_or_single, lemma_bit_clear_single, lemma_bit_zero,
    lemma_bit_or, lemma_bit_and, lemma_bit_not, lemma_bit_full, lemma_trailing_zeros_lowest,
};
use vstd::std_specs::bits::u64_trailing_zeros;

verus! {

/// The number of bits held by one word of a bitmap.
pub const WORD_BITS: usize = 64;

/// The size of a block (bit) in the bitmap allocator.
pub const BLOCK_SIZE: usize = 65536;

/// The base-two logarithm of [`BLOCK_SIZE`].
pub const LOG2_BLOCK_SIZE: u8 = 16;

/// The number of pages in one block.
pub const PAGES_PER_BLOCK: usize = BLOCK_SIZE / 4096;

/// The largest physical address the allocator covers.
pub const MAX_PHYSICAL_MEMORY: u64 = 0x10_0000_0000;

/// The number of blocks of physical memory.
pub const BLOCK_COUNT: usize = 0x10_0000;

/// The number of words needed for `bits` bits.
pub open spec fn bitmap_words(bits: nat) -> nat {
    ((bits + 63) / 64) as nat
}

/// The number of words needed to hold `bits` bits.
pub fn get_bitmap_size(bits: usize) -> (r: usize)
    requires
        bits + 63 <= usize::MAX,
    ensures
        r == bitmap_words(bits as nat),
{
    (bits + (WORD_BITS - 1)) / WORD_BITS
}

/// The index of the block that holds `address`.
pub fn get_block_index(address: usize) -> (r: usize)
    ensures
        r == address / BLOCK_SIZE,
{
    address / BLOCK_SIZE
}

/// Whether `i` falls in the range that the masks of `mark_range_as_*` cover
/// for `start..end`: the whole of it when `start <= end`.
pub open spec fn range_covers(start: int, end: int, i: int) -> bool {
    let (si, so) = (start / 64, start % 64);
    let (ei, eo) = (end / 64, end % 64);
    if si == ei {
        i / 64 == si && so <= i % 64 < eo
    } else {
        (i / 64 == si && i % 64 >= so) || (si < i / 64 < ei) || (i / 64 == ei && i % 64 < eo)
    }
}

/// For an ordered range the masks cover exactly `start..end`.
pub proof fn lemma_range_covers_ordered(start: int, end: int, i: int)
    requires
        0 <= start <= end,
        0 <= i,
    ensures
        range_covers(start, end, i) <==> start <= i < end,
{
}

/// A bitmap allocator of `BITS` blocks.
pub struct MemoryBitmapAllocator<const BITS: usize> {
    // If a bit is one, that means that it is available (free). Otherwise it is marked as unavailable (used)
    bits: Vec<u64>,
}

impl<const BITS: usize> View for MemoryBitmapAllocator<BITS> {
    type V = Seq<bool>;

    /// Whether each bit of the words is free.
    closed spec fn view(&self) -> Seq<bool> {
        words_view(self.bits@)
    }
}

impl<const BITS: usize> MemoryBitmapAllocator<BITS> {
    /// The allocator's words have the length that `BITS` asks for.
    pub closed spec fn wf(&self) -> bool {
        &&& BITS + 63 <= usize::MAX
        &&& self.bits@.len() == bitmap_words(BITS as nat)
    }

    /// The number of bits, free or used, that the words hold.
    pub open spec fn capacity() -> nat {
        bitmap_words(BITS as nat) * 64
    }

    /// A well-formed allocator's view has one bit for each bit of its words.
    pub proof fn lemma_view_len(&self)
        requires
            self.wf(),
        ensures
            self@.len() == Self::capacity(),
    {
    }

    /// An allocator with every block used.
    pub fn new() -> (r: Self)
        requires
            BITS + 63 <= usize::MAX,
        ensures
            r.wf(),
            r@.len() == Self::capacity(),
            forall|i: int| 0 <= i < r@.len() ==> !#[trigger] r@[i],
    {
        let n = get_bitmap_size(BITS);
        let mut bits: Vec<u64> = Vec::new();
        while bits.len() < n
            invariant
                bits.len() <= n,
                forall|k: int| 0 <= k < bits.len() ==> bits@[k] == 0,
            decreases n - bits.len(),
        {
            bits.push(0);
        }
        let r = Self { bits };
        proof {
            assert forall|i: int| 0 <= i < r@.len() implies !#[trigger] r@[i] by {
                lemma_bit_zero((i % 64) as u64);
            }
        }
        r
    }

    fn get_index_and_bit_offset(bit: usize) -> (r: (usize, usize))
        ensures
            r.0 == bit / 64,
            r.1 == bit % 64,
    {
        let index = bit / WORD_BITS;
        let bit_offset = bit % WORD_BITS;
        (index, bit_offset)
    }

    /// Marks one block free.
    pub fn mark_as_free(&mut self, bit: usize)
        requires
            old(self).wf(),
            bit < old(self)@.len(),
        ensures
            final(self).wf(),
            final(self)@ == old(self)@.update(bit as int, true),
    {
        let (index, bit_offset) = Self::get_index_and_bit_offset(bit);
        let w = self.bits[index] | (1u64 << bit_offset as u64);
        proof {
            lemma_words_update(self.bits@, index as int, w);
            assert forall|i: int| 0 <= i < old(self)@.len() && i / 64 == index implies
                #[trigger] bit_set(w, (i % 64) as u64) == (i == bit || old(self)@[i]) by {
                lemma_bit_or_single(self.bits@[index as int], bit_offset as u64, (i % 64) as u64);
                assert(old(self)@[i] == bit_set(self.bits@[index as int], (i % 64) as u64));
                assert((i % 64 == bit_offset) == (i == bit));
            }
        }
        self.bits.set(index, w);
        assert forall|i: int| 0 <= i < self@.len() implies #[trigger] self@[i] == old(self)@.update(bit as int, true)[i] by {
            if i / 64 == index as int {
                assert(self.bits@ == old(self).bits@.update(index as int, w));
                assert(self@[i] == words_view(old(self).bits@.update(index as int, w))[i]);
                assert(self@[i] == bit_set(w, (i % 64) as u64));
                assert(self@[i] == (i == bit || old(self)@[i]));
            } else {
                assert(i != bit);
            }
        }
        assert(self@ =~= old(self)@.update(bit as int, true));
    }

    /// Marks one block used.
    pub fn mark_as_used(&mut self, bit: usize)
        requires
            old(self).wf(),
            bit < old(self)@.len(),
        ensures
            final(self).wf(),
            final(self)@ == old(self)@.update(bit as int, false),
    {
        let (index, bit_offset) = Self::get_index_and_bit_offset(bit);
        let w = self.bits[index] & !(1u64 << bit_offset as u64);
        proof {
            lemma_words_update(self.bits@, index as int, w);
            assert forall|i: int| 0 <= i < old(self)@.len() && i / 64 == index implies
                #[trigger] bit_set(w, (i % 64) as u64) == (i != bit && old(self)@[i]) by {
                lemma_bit_clear_single(self.bits@[index as int], bit_offset as u64, (i % 64) as u64);
                assert(old(self)@[i] == bit_set(self.bits@[index as int], (i % 64) as u64));
                assert((i % 64 == bit_offset) == (i == bit));
            }
        }
        self.bits.set(index, w);
        assert forall|i: int| 0 <= i < self@.len() implies #[trigger] self@[i] == old(self)@.update(bit as int, false)[i] by {
            if i / 64 == index as int {
                assert(self.bits@ == old(self).bits@.update(index as int, w));
                assert(self@[i] == words_view(old(self).bits@.update(index as int, w))[i]);
                assert(self@[i] == bit_set(w, (i % 64) as u64));
                assert(self@[i] == (i != bit && old(self)@[i]));
            } else {
                assert(i != bit);
            }
        }
        assert(self@ =~= old(self)@.update(bit as int, false));
    }

    /// The word with exactly the bits `start..end` set.
    pub fn get_bit_range_mask(start: usize, end: usize) -> (r: u64)
        requires
            end <= 64,
        ensures
            forall|j: u64| j < 64 ==> #[trigger] bit_set(r, j) == (start <= j < end),
    {
        let mut mask: u64 = 0;
        let mut i = start;
        proof {
            assert forall|j: u64| j < 64 implies #[trigger] bit_set(mask, j) == (start <= j < start) by {
                lemma_bit_zero(j);
            }
        }
        while i < end
            invariant
                start <= i,
                start < end ==> i <= end,
                start >= end ==> i == start,
                end <= 64,
                forall|j: u64| j < 64 ==> #[trigger] bit_set(mask, j) == (start <= j < i),
            decreases end - i,
        {
            let new_mask = mask | (1u64 << i as u64);
            proof {
                assert forall|j: u64| j < 64 implies #[trigger] bit_set(new_mask, j) == (start <= j < i + 1) by {
                    lemma_bit_or_single(mask, i as u64, j);
                }
            }
            mask = new_mask;
            i = i + 1;
        }
        proof {
            assert forall|j: u64| j < 64 implies #[trigger] bit_set(mask, j) == (start <= j < end) by {
                assert(bit_set(mask, j) == (start <= j < i));
            }
        }
        mask
    }

    /// Sets the bits of `mask` in word `index`.
    fn or_word(&mut self, index: usize, mask: u64)
        requires
            old(self).wf(),
            index < old(self).bits@.len(),
        ensures
            final(self).wf(),
            final(self)@.len() == old(self)@.len(),
            forall|i: int|
                0 <= i < final(self)@.len() ==> #[trigger] final(self)@[i] == (old(self)@[i] || (i / 64
                    == index && bit_set(mask, (i % 64) as u64))),
    {
        let w = self.bits[index] | mask;
        proof {
            lemma_words_update(self.bits@, index as int, w);
            assert forall|i: int| 0 <= i < old(self)@.len() && i / 64 == index implies
                #[trigger] bit_set(w, (i % 64) as u64) == (old(self)@[i] || bit_set(mask, (i % 64) as u64)) by {
                lemma_bit_or(self.bits@[index as int], mask, (i % 64) as u64);
            }
        }
        self.bits.set(index, w);
        assert forall|i: int| 0 <= i < self@.len() implies #[trigger] self@[i] == (old(self)@[i] || (i / 64
            == index && bit_set(mask, (i % 64) as u64))) by {
            assert(self@[i] == words_view(old(self).bits@.update(index as int, w))[i]);
        }
    }

    /// Keeps only the bits of `mask` in word `index`.
    fn and_word(&mut self, index: usize, mask: u64)
        requires
            old(self).wf(),
            index < old(self).bits@.len(),
        ensures
            final(self).wf(),
            final(self)@.len() == old(self)@.len(),
            forall|i: int|
                0 <= i < final(self)@.len() ==> #[trigger] final(self)@[i] == (old(self)@[i] && (i / 64
                    != index || bit_set(mask, (i % 64) as u64))),
    {
        let w = self.bits[index] & mask;
        proof {
            lemma_words_update(self.bits@, index as int, w);
            assert forall|i: int| 0 <= i < old(self)@.len() && i / 64 == index implies
                #[trigger] bit_set(w, (i % 64) as u64) == (old(self)@[i] && bit_set(mask, (i % 64) as u64)) by {
                lemma_bit_and(self.bits@[index as int], mask, (i % 64) as u64);
            }
        }
        self.bits.set(index, w);
        assert forall|i: int| 0 <= i < self@.len() implies #[trigger] self@[i] == (old(self)@[i] && (i / 64
            != index || bit_set(mask, (i % 64) as u64))) by {
            assert(self@[i] == words_view(old(self).bits@.update(index as int, w))[i]);
        }
    }

    /// Replaces word `index` by `value`.
    fn store_word(&mut self, index: usize, value: u64)
        requires
            old(self).wf(),
            index < old(self).bits@.len(),
        ensures
            final(self).wf(),
            final(self)@.len() == old(self)@.len(),
            forall|i: int|
                0 <= i < final(self)@.len() ==> #[trigger] final(self)@[i] == if i / 64 == index {
                    bit_set(value, (i % 64) as u64)
                } else {
                    old(self)@[i]
                },
    {
        proof {
            lemma_words_update(self.bits@, index as int, value);
        }
        self.bits.set(index, value);
        assert forall|i: int| 0 <= i < self@.len() implies #[trigger] self@[i] == if i / 64 == index {
            bit_set(value, (i % 64) as u64)
        } else {
            old(self)@[i]
        } by {
            assert(self@[i] == words_view(old(self).bits@.update(index as int, value))[i]);
        }
    }

    /// Marks the blocks of `start..end` free: with `start <= end` exactly
    /// those blocks (see [`range_covers`] for the other order).
    pub fn mark_range_as_free(&mut self, start: usize, end: usize)
        requires
            old(self).wf(),
            start < old(self)@.len(),
            end < old(self)@.len(),
        ensures
            final(self).wf(),
            final(self)@.len() == old(self)@.len(),
            forall|i: int|
                0 <= i < final(self)@.len() ==> #[trigger] final(self)@[i] == (old(self)@[i]
                    || range_covers(start as int, end as int, i)),
    {
        // Split into a series of masks so that we don't have to do so many operations.
        // This means that we take the leading bits before a multiple of the size of usize, we create a mask for that, then we go over all of the complete usizes and set them straight up, then we do the same with the trailing bits.
        let (start_index, start_bit_offset) = Self::get_index_and_bit_offset(start);
        let (end_index, end_bit_offset) = Self::get_index_and_bit_offset(end);
        if start_index == end_index {
            // If the start and end are in the same usize, we can just create a mask for the range between them.
            self.or_word(start_index, Self::get_bit_range_mask(start_bit_offset, end_bit_offset));
        } else {
            // Otherwise the lengthier algorithm.
            self.or_word(start_index, Self::get_bit_range_mask(start_bit_offset, WORD_BITS));
            let ghost after_first = self@;
            let mut i = start_index + 1;
            while i < end_index
                invariant
                    self.wf(),
                    self@.len() == old(self)@.len(),
                    self.bits@.len() == old(self).bits@.len(),
                    start_index + 1 <= i,
                    start_index < end_index ==> i <= end_index,
                    start_index > end_index ==> i == start_index + 1,
                    end_index < self.bits@.len(),
                    forall|k: int|
                        0 <= k < self@.len() ==> #[trigger] self@[k] == (after_first[k] || (
                        start_index < k / 64 < i)),
                decreases end_index - i,
            {
                self.store_word(i, !0u64);
                proof {
                    assert forall|k: int| 0 <= k < self@.len() implies #[trigger] self@[k] == (
                    after_first[k] || (start_index < k / 64 < i + 1)) by {
                        if k / 64 == i {
                            lemma_bit_full((k % 64) as u64);
                        }
                    }
                }
                i = i + 1;
            }
            let ghost after_middle = self@;
            self.or_word(end_index, Self::get_bit_range_mask(0, end_bit_offset));
            proof {
                assert forall|k: int| 0 <= k < self@.len() implies #[trigger] self@[k] == (old(self)@[k]
                    || range_covers(start as int, end as int, k)) by {
                    assert(after_middle[k] == (after_first[k] || (start_index < k / 64 < end_index)));
                }
            }
        }
    }

    /// Marks the blocks of `start..end` used: with `start <= end` exactly
    /// those blocks (see [`range_covers`] for the other order).
    pub fn mark_range_as_used(&mut self, start: usize, end: usize)
        requires
            old(self).wf(),
            start < old(self)@.len(),
            end < old(self)@.len(),
        ensures
            final(self).wf(),
            final(self)@.len() == old(self)@.len(),
            forall|i: int|
                0 <= i < final(self)@.len() ==> #[trigger] final(self)@[i] == (old(self)@[i]
                    && !range_covers(start as int, end as int, i)),
    {
        let (start_index, start_bit_offset) = Self::get_index_and_bit_offset(start);
        let (end_index, end_bit_offset) = Self::get_index_and_bit_offset(end);
        if start_index == end_index {
            let mask = Self::get_bit_range_mask(start_bit_offset, end_bit_offset);
            proof {
                assert forall|j: u64| j < 64 implies #[trigger] bit_set(!mask, j) == !(start_bit_offset <= j < end_bit_offset) by {
                    lemma_bit_not(mask, j);
                }
            }
            self.and_word(start_index, !mask);
        } else {
            let first_mask = Self::get_bit_range_mask(start_bit_offset, WORD_BITS);
            proof {
                assert forall|j: u64| j < 64 implies #[trigger] bit_set(!first_mask, j) == !(start_bit_offset <= j < 64) by {
                    lemma_bit_not(first_mask, j);
                }
            }
            self.and_word(start_index, !first_mask);
            let ghost after_first = self@;
            let mut i = start_index + 1;
            while i < end_index
                invariant
                    self.wf(),
                    self@.len() == old(self)@.len(),
                    self.bits@.len() == old(self).bits@.len(),
                    start_index + 1 <= i,
                    start_index < end_index ==> i <= end_index,
                    start_index > end_index ==> i == start_index + 1,
                    end_index < self.bits@.len(),
                    forall|k: int|
                        0 <= k < self@.len() ==> #[trigger] self@[k] == (after_first[k] && !(
                        start_index < k / 64 < i)),
                decreases end_index - i,
            {
                self.store_word(i, 0u64);
                proof {
                    assert forall|k: int| 0 <= k < self@.len() implies #[trigger] self@[k] == (
                    after_first[k] && !(start_index < k / 64 < i + 1)) by {
                        if k / 64 == i {
                            lemma_bit_zero((k % 64) as u64);
                        }
                    }
                }
                i = i + 1;
            }
            let ghost after_middle = self@;
            let last_mask = Self::get_bit_range_mask(0, end_bit_offset);
            proof {
                assert forall|j: u64| j < 64 implies #[trigger] bit_set(!last_mask, j) == !(0 <= j < end_bit_offset) by {
                    lemma_bit_not(last_mask, j);
                }
            }
            self.and_word(end_index, !last_mask);
            proof {
                assert forall|k: int| 0 <= k < self@.len() implies #[trigger] self@[k] == (old(self)@[k]
                    && !range_covers(start as int, end as int, k)) by {
                    assert(after_middle[k] == (after_first[k] && !(start_index < k / 64 < end_index)));
                }
            }
        }
    }

    /// Takes the lowest free block, marking it used, or `None` when every
    /// block is used.
    pub fn allocate_block(&mut self) -> (r: Option<usize>)
        requires
            old(self).wf(),
        ensures
            final(self).wf(),
            match r {
                None => (forall|i: int| 0 <= i < old(self)@.len() ==> !#[trigger] old(self)@[i])
                    && final(self)@ == old(self)@,
                Some(b) => {
                    &&& b < old(self)@.len()
                    &&& old(self)@[b as int]
                    &&& (forall|j: int| 0 <= j < b ==> !#[trigger] old(self)@[j])
                    &&& final(self)@ == old(self)@.update(b as int, false)
                },
            },
    {
        // Simply traverse the list of words and find the first non-zero one. If there are none, we will return None.
        let n = get_bitmap_size(BITS);
        let mut i: usize = 0;
        while i < n
            invariant
                self.wf(),
                self == old(self),
                n == self.bits@.len(),
                i <= n,
                forall|k: int| 0 <= k < i ==> self.bits@[k] == 0,
            decreases n - i,
        {
            let entry = self.bits[i];
            if entry != 0 {
                let bit = entry.trailing_zeros() as usize;
                proof {
                    lemma_trailing_zeros_lowest(entry);
                    assert forall|j: int| 0 <= j < i * 64 + bit implies !#[trigger] old(self)@[j] by {
                        if j / 64 < i {
                            assert(self.bits@[j / 64] == 0);
                            lemma_bit_zero((j % 64) as u64);
                        } else {
                            assert(!bit_set(entry, (j % 64) as u64));
                        }
                    }
                }
                // Take the entry and put it back with the allocated bit cleared.
                self.mark_as_used(i * WORD_BITS + bit);
                return Some(i * WORD_BITS + bit);
            }
            i = i + 1;
        }
        proof {
            assert forall|j: int| 0 <= j < old(self)@.len() implies !#[trigger] old(self)@[j] by {
                assert(self.bits@[j / 64] == 0);
                lemma_bit_zero((j % 64) as u64);
            }
        }
        None
    }
}

/// Block `b` is the lowest free block of `view`: the one `allocate_block`
/// hands out.
pub open spec fn is_lowest_free(view: Seq<bool>, b: int) -> bool {
    &&& 0 <= b < view.len()
    &&& view[b]
    &&& forall|j: int| 0 <= j < b ==> !view[j]
}

/// `view` after `mark_range_as_free(start, end)`.
pub open spec fn freed_view(view: Seq<bool>, start: int, end: int) -> Seq<bool> {
    Seq::new(view.len(), |i: int| view[i] || range_covers(start, end, i))
}

/// The view of an allocator with no free block after `start..end` has been
/// freed and its first `k` blocks allocated again.
pub open spec fn freed_range_after_allocations(length: nat, start: int, end: int, k: int) -> Seq<bool> {
    Seq::new(length, |i: int| start + k <= i < end)
}

/// Freeing `start..end` on an allocator with no free block, then
/// allocating, hands the blocks out in increasing order: the allocation
/// after `k` others gives `start + k`, and none is left after `end - start`.
pub proof fn law_free_range_then_allocate_in_order(view: Seq<bool>, start: int, end: int, k: int)
    requires
        forall|i: int| 0 <= i < view.len() ==> !#[trigger] view[i],
        0 <= start <= end < view.len(),
        0 <= k < end - start,
    ensures
        freed_view(view, start, end) == freed_range_after_allocations(view.len(), start, end, 0),
        is_lowest_free(freed_range_after_allocations(view.len(), start, end, k), start + k),
        freed_range_after_allocations(view.len(), start, end, k).update(start + k, false)
            == freed_range_after_allocations(view.len(), start, end, k + 1),
        forall|i: int|
            0 <= i < view.len() ==> !#[trigger] freed_range_after_allocations(view.len(), start, end, end - start)[i],
{
    assert forall|i: int| 0 <= i < view.len() implies #[trigger] freed_view(view, start, end)[i]
        == freed_range_after_allocations(view.len(), start, end, 0)[i] by {
        lemma_range_covers_ordered(start, end, i);
    }
    assert(freed_view(view, start, end) =~= freed_range_after_allocations(view.len(), start, end, 0));
    assert(freed_range_after_allocations(view.len(), start, end, k).update(start + k, false)
        =~= freed_range_after_allocations(view.len(), start, end, k + 1));
}

/// The number of free blocks of `view`.
pub open spec fn free_count(view: Seq<bool>) -> nat
    decreases view.len(),
{
    if view.len() == 0 {
        0
    } else {
        free_count(view.drop_last()) + if view.last() {
            1nat
        } else {
            0nat
        }
    }
}

/// Using a free block leaves one fewer.
pub proof fn lemma_free_count_update(view: Seq<bool>, b: int)
    requires
        0 <= b < view.len(),
        view[b],
    ensures
        free_count(view.update(b, false)) + 1 == free_count(view),
    decreases view.len(),
{
    let after = view.update(b, false);
    if b == view.len() - 1 {
        assert(after.drop_last() == view.drop_last());
    } else {
        assert(after.drop_last() == view.drop_last().update(b, false));
        lemma_free_count_update(view.drop_last(), b);
    }
}

/// With no free block, the count is zero.
pub proof fn lemma_free_count_none(view: Seq<bool>)
    requires
        forall|i: int| 0 <= i < view.len() ==> !#[trigger] view[i],
    ensures
        free_count(view) == 0,
    decreases view.len(),
{
    if view.len() > 0 {
        lemma_free_count_none(view.drop_last());
    }
}

/// There is one lowest free block.
pub proof fn lemma_lowest_free_unique(view: Seq<bool>, a: int, b: int)
    requires
        is_lowest_free(view, a),
        is_lowest_free(view, b),
    ensures
        a == b,
{
}

/// The view after `n` allocations from `view`, and the blocks they hand
/// out, each the lowest free one at its time.
pub open spec fn allocations(view: Seq<bool>, n: nat) -> (Seq<bool>, Seq<int>)
    decreases n,
{
    if n == 0 {
        (view, Seq::empty())
    } else {
        let (before, blocks) = allocations(view, (n - 1) as nat);
        let b = choose|b: int| is_lowest_free(before, b);
        (before.update(b, false), blocks.push(b))
    }
}

} // verus!
