//! A store of block-sized memory tokens backed by a bitmap, where each bit
//! stands for one block.
use vstd::prelude::*;
use core::marker::PhantomData;
use crate::bits::{
    bit_set, words_view, lemma_words_update, lemma_bit_or, lemma_bit_and, lemma_bit_not,
    lemma_bit_zero, lemma_bit_full, lemma_trailing_zeros_lowest, lemma_clear_lowest,
    lemma_zero_iff_no_bits,
};
use crate::memory_token::MemoryToken;
use vstd::std_specs::bits::u64_trailing_zeros;

verus! {

/// A token that represents a range of memory in terms of blocks, where each
/// block is of size `BLOCK_SIZE`. Its `address` and `size` are in blocks.
pub struct BitmapToken<Inner, const BLOCK_SIZE: usize> {
    block_index: usize,
    block_count: usize,
    _phantom: PhantomData<Inner>,
}

impl<Inner, const BLOCK_SIZE: usize> BitmapToken<Inner, BLOCK_SIZE> {
    /// The first block: the token's address, which counts blocks.
    pub open spec fn first_block(&self) -> usize {
        self.token_address()
    }

    /// The number of blocks: the token's size, which counts blocks.
    pub open spec fn blocks(&self) -> usize {
        self.token_size()
    }
}

impl<Inner, const BLOCK_SIZE: usize> MemoryToken for BitmapToken<Inner, BLOCK_SIZE> {
    closed spec fn token_address(&self) -> usize {
        self.block_index
    }

    closed spec fn token_size(&self) -> usize {
        self.block_count
    }

    fn new(start: usize, size: usize) -> (r: Self) {
        Self { block_index: start, block_count: size, _phantom: PhantomData }
    }

    fn address(&self) -> (r: usize) {
        self.block_index
    }

    fn size(&self) -> (r: usize) {
        self.block_count
    }
}

/// Why a token cannot be expressed in blocks.
#[derive(Clone, Copy, Debug)]
pub enum BitmapTokenError {
    UnalignedAddress,
    UnalignedSize,
}

impl<Inner: MemoryToken, const BLOCK_SIZE: usize> BitmapToken<Inner, BLOCK_SIZE> {
    /// The start of the range in bytes.
    pub fn byte_address(&self) -> (r: usize)
        requires
            self.first_block() * BLOCK_SIZE <= usize::MAX,
        ensures
            r == self.first_block() * BLOCK_SIZE,
    {
        self.block_index * BLOCK_SIZE
    }

    /// The size of the range in bytes.
    pub fn byte_size(&self) -> (r: usize)
        requires
            self.blocks() * BLOCK_SIZE <= usize::MAX,
        ensures
            r == self.blocks() * BLOCK_SIZE,
    {
        self.block_count * BLOCK_SIZE
    }

    /// The blocks of a byte range, which must start and end on block
    /// boundaries.
    pub fn try_from_inner(inner: Inner) -> (r: Result<Self, BitmapTokenError>)
        requires
            BLOCK_SIZE > 0,
        ensures
            inner.token_address() % BLOCK_SIZE != 0 <==> r matches Err(BitmapTokenError::UnalignedAddress),
            inner.token_address() % BLOCK_SIZE == 0 && inner.token_size() % BLOCK_SIZE != 0
                <==> r matches Err(BitmapTokenError::UnalignedSize),
            r matches Ok(t) ==> {
                &&& inner.token_address() % BLOCK_SIZE == 0
                &&& inner.token_size() % BLOCK_SIZE == 0
                &&& t.first_block() == inner.token_address() / BLOCK_SIZE
                &&& t.blocks() == inner.token_size() / BLOCK_SIZE
            },
    {
        let start = inner.address();
        let size = inner.size();
        if !start.is_multiple_of(BLOCK_SIZE) {
            return Err(BitmapTokenError::UnalignedAddress);
        }
        if !size.is_multiple_of(BLOCK_SIZE) {
            return Err(BitmapTokenError::UnalignedSize);
        }
        Ok(Self { block_index: start / BLOCK_SIZE, block_count: size / BLOCK_SIZE, _phantom: PhantomData })
    }

    /// The byte range the blocks stand for.
    pub fn into_inner(self) -> (r: Inner)
        requires
            self.first_block() * BLOCK_SIZE <= usize::MAX,
            self.blocks() * BLOCK_SIZE <= usize::MAX,
        ensures
            r.token_address() == self.first_block() * BLOCK_SIZE,
            r.token_size() == self.blocks() * BLOCK_SIZE,
    {
        let start = self.byte_address();
        let size = self.byte_size();
        Inner::new(start, size)
    }
}

/// The number of words needed for `bits` bits, rounding up.
pub fn get_bitmap_size(bits: usize) -> (r: usize)
    ensures
        r == crate::pmm::bitmap_words(bits as nat),
{
    bits / 64 + if bits % 64 != 0 {
        1usize
    } else {
        0usize
    }
}

/// Whether block `k` lies under the masks that set `count > 0` blocks from
/// `index`: the first word from `index`, the words between, and the last
/// word up to `index + count - 1`.
spec fn masks_cover(index: int, count: int, k: int) -> bool {
    let (fi, fo) = (index / 64, index % 64);
    let (li, lo) = ((index + count - 1) / 64, (index + count - 1) % 64);
    if fi == li {
        k / 64 == fi && fo <= k % 64 < fo + count
    } else {
        (k / 64 == fi && k % 64 >= fo) || (fi < k / 64 < li) || (k / 64 == li && k % 64 <= lo)
    }
}

/// For a non-empty range, the masks cover exactly the range.
proof fn lemma_masks_cover_range(index: int, count: int, k: int)
    requires
        0 <= index,
        count > 0,
        0 <= k,
    ensures
        masks_cover(index, count, k) <==> index <= k < index + count,
{
}

/// A token store backed by a bitmap, where each bit represents a block of
/// size `BLOCK_SIZE` and `BITS` is the number of blocks; it stores and
/// retrieves tokens by address without choosing among them.
pub struct TokenBitmap<T, const BLOCK_SIZE: usize, const BITS: usize> {
    // Each bit represents a token, with addresses starting at 0.
    bits: Vec<u64>,
    _phantom: PhantomData<T>,
}

impl<T, const BLOCK_SIZE: usize, const BITS: usize> View for TokenBitmap<T, BLOCK_SIZE, BITS> {
    type V = Seq<bool>;

    /// Whether each block is stored.
    closed spec fn view(&self) -> Seq<bool> {
        words_view(self.bits@)
    }
}

impl<T, const BLOCK_SIZE: usize, const BITS: usize> TokenBitmap<T, BLOCK_SIZE, BITS> {
    /// The store has one bit for each of the `BITS` blocks, rounded up to
    /// whole words.
    pub open spec fn wf(&self) -> bool {
        self@.len() == crate::pmm::bitmap_words(BITS as nat) * 64
    }
}

impl<T: MemoryToken, const BLOCK_SIZE: usize, const BITS: usize> TokenBitmap<T, BLOCK_SIZE, BITS> {
    /// An empty store.
    pub fn new() -> (r: Self)
        ensures
            r.wf(),
            r@.len() == crate::pmm::bitmap_words(BITS as nat) * 64,
            forall|i: int| 0 <= i < r@.len() ==> !#[trigger] r@[i],
    {
        let n = get_bitmap_size(BITS);
        let mut bits: Vec<u64> = Vec::new();
        while bits.len() < n
            invariant
                bits.len() <= n,
                forall|k: int| 0 <= k < bits.len() ==> bits@[k] == 0,
            decreases n - bits.len(),
        {
            bits.push(0);
        }
        let r = Self { bits, _phantom: PhantomData };
        proof {
            assert forall|i: int| 0 <= i < r@.len() implies !#[trigger] r@[i] by {
                lemma_bit_zero((i % 64) as u64);
            }
        }
        r
    }

    fn get_index_and_bit_offset(block_index: usize) -> (r: (usize, usize))
        ensures
            r.0 == block_index / 64,
            r.1 == block_index % 64,
    {
        let index = block_index / 64;
        let bit_offset = block_index % 64;
        (index, bit_offset)
    }

    /// The word with bits `start_bit_offset..start_bit_offset + range_length` set.
    fn create_bit_mask(start_bit_offset: usize, range_length: usize) -> (r: u64)
        requires
            start_bit_offset < 64,
            (start_bit_offset == 0 && range_length == 64) || range_length < 64,
        ensures
            forall|j: u64|
                j < 64 ==> #[trigger] bit_set(r, j) == (start_bit_offset <= j < start_bit_offset
                    + range_length),
    {
        if start_bit_offset == 0 && range_length == 64 {
            proof {
                assert forall|j: u64| j < 64 implies #[trigger] bit_set(!0u64, j) == (start_bit_offset
                    <= j < start_bit_offset + range_length) by {
                    lemma_bit_full(j);
                }
            }
            !0u64
        } else {
            let s = start_bit_offset as u64;
            let n = range_length as u64;
            assert(1u64 << n >= 1) by (bit_vector)
                requires
                    n < 64,
            ;
            let r = ((1u64 << n) - 1) << s;
            proof {
                assert forall|j: u64| j < 64 implies #[trigger] bit_set(r, j) == (start_bit_offset <= j
                    < start_bit_offset + range_length) by {
                    assert((((((1u64 << n) - 1) as u64) << s) >> j) & 1u64 == 1u64 <==> (s <= j && j < s + n))
                        by (bit_vector)
                        requires
                            s < 64,
                            n < 64,
                            j < 64,
                    ;
                }
            }
            r
        }
    }

    /// The words of the store.
    pub closed spec fn words(&self) -> Seq<u64> {
        self.bits@
    }

    /// Sets the bits of `mask` in word `index`.
    fn fetch_or(&mut self, index: usize, mask: u64)
        requires
            index < old(self).words().len(),
        ensures
            final(self).words() == old(self).words().update(index as int, old(self).words()[index as int] | mask),
            final(self)@.len() == old(self)@.len(),
            forall|i: int|
                0 <= i < final(self)@.len() ==> #[trigger] final(self)@[i] == (old(self)@[i] || (i / 64
                    == index && bit_set(mask, (i % 64) as u64))),
    {
        let w = self.bits[index] | mask;
        proof {
            lemma_words_update(self.bits@, index as int, w);
            assert forall|i: int| 0 <= i < old(self)@.len() && i / 64 == index implies
                #[trigger] bit_set(w, (i % 64) as u64) == (old(self)@[i] || bit_set(mask, (i % 64) as u64)) by {
                lemma_bit_or(self.bits@[index as int], mask, (i % 64) as u64);
            }
        }
        self.bits.set(index, w);
        assert forall|i: int| 0 <= i < self@.len() implies #[trigger] self@[i] == (old(self)@[i] || (i / 64
            == index && bit_set(mask, (i % 64) as u64))) by {
            assert(self@[i] == words_view(old(self).bits@.update(index as int, w))[i]);
        }
    }

    /// Clears the bits of `mask` in word `index`, returning the word as it was.
    fn fetch_and_not(&mut self, index: usize, mask: u64) -> (r: u64)
        requires
            index < old(self).words().len(),
        ensures
            r == old(self).words()[index as int],
            final(self).words() == old(self).words().update(index as int, r & !mask),
            final(self)@.len() == old(self)@.len(),
            forall|i: int|
                0 <= i < final(self)@.len() ==> #[trigger] final(self)@[i] == (old(self)@[i] && !(i / 64
                    == index && bit_set(mask, (i % 64) as u64))),
    {
        let old_word = self.bits[index];
        let w = old_word & !mask;
        proof {
            lemma_words_update(self.bits@, index as int, w);
            assert forall|i: int| 0 <= i < old(self)@.len() && i / 64 == index implies
                #[trigger] bit_set(w, (i % 64) as u64) == (old(self)@[i] && !bit_set(mask, (i % 64) as u64)) by {
                lemma_bit_and(old_word, !mask, (i % 64) as u64);
                lemma_bit_not(mask, (i % 64) as u64);
            }
        }
        self.bits.set(index, w);
        assert forall|i: int| 0 <= i < self@.len() implies #[trigger] self@[i] == (old(self)@[i] && !(i / 64
            == index && bit_set(mask, (i % 64) as u64))) by {
            assert(self@[i] == words_view(old(self).bits@.update(index as int, w))[i]);
        }
        old_word
    }

    /// Stores the blocks of `token`: exactly the blocks
    /// `first_block..first_block + blocks` become stored, so a token of no
    /// blocks changes nothing.
    pub fn store_range(&mut self, token: BitmapToken<T, BLOCK_SIZE>)
        requires
            token.first_block() + token.blocks() <= old(self)@.len(),
            token.first_block() + token.blocks() <= usize::MAX,
        ensures
            final(self)@.len() == old(self)@.len(),
            old(self).wf() ==> final(self).wf(),
            forall|i: int|
                0 <= i < final(self)@.len() ==> #[trigger] final(self)@[i] == (old(self)@[i] || (
                token.first_block() <= i < token.first_block() + token.blocks())),
            token.blocks() == 0 ==> final(self)@ == old(self)@,
    {
        if token.block_count == 0 {
            return;
        }
        assert(self@.len() == self.words().len() * 64);
        let (first_usize_index, first_bit_offset) = Self::get_index_and_bit_offset(token.block_index);
        let (last_usize_index, last_bit_offset) = Self::get_index_and_bit_offset(
            token.block_index + token.block_count - 1,
        );
        if first_usize_index == last_usize_index {
            let mask = Self::create_bit_mask(first_bit_offset, token.block_count);
            self.fetch_or(first_usize_index, mask);
        } else {
            // Set the bits in the first word
            let first_mask = Self::create_bit_mask(first_bit_offset, 64 - first_bit_offset);
            self.fetch_or(first_usize_index, first_mask);
            let ghost after_first = self@;
            // Set the bits in the middle words
            let mut i = first_usize_index + 1;
            while i < last_usize_index
                invariant
                    self@.len() == old(self)@.len(),
                    self.words().len() == old(self).words().len(),
                    self@.len() == self.words().len() * 64,
                    first_usize_index + 1 <= i,
                    first_usize_index < last_usize_index ==> i <= last_usize_index,
                    first_usize_index > last_usize_index ==> i == first_usize_index + 1,
                    last_usize_index < self.words().len(),
                    forall|k: int|
                        0 <= k < self@.len() ==> #[trigger] self@[k] == (after_first[k] || (
                        first_usize_index < k / 64 < i)),
                decreases last_usize_index - i,
            {
                let ghost before = self@;
                let old_word = self.fetch_and_not(i, 0u64);
                proof {
                    assert forall|k: int| 0 <= k < self@.len() implies #[trigger] self@[k] == before[k] by {
                        lemma_bit_zero((k % 64) as u64);
                    }
                }
                self.fetch_or(i, !0u64);
                proof {
                    assert forall|k: int| 0 <= k < self@.len() implies #[trigger] self@[k] == (
                    after_first[k] || (first_usize_index < k / 64 < i + 1)) by {
                        if k / 64 == i {
                            lemma_bit_full((k % 64) as u64);
                        }
                    }
                }
                i = i + 1;
            }
            let ghost after_middle = self@;
            // Set the bits in the last word
            let last_mask = Self::create_bit_mask(0, last_bit_offset + 1);
            self.fetch_or(last_usize_index, last_mask);
            proof {
                assert forall|k: int| 0 <= k < self@.len() implies #[trigger] self@[k] == (old(self)@[k]
                    || (token.block_index <= k < token.block_index + token.block_count)) by {
                    assert(after_middle[k] == (after_first[k] || (first_usize_index < k / 64 < last_usize_index)));
                    lemma_masks_cover_range(token.block_index as int, token.block_count as int, k);
                }
            }
        }
    }

    /// An iterator that takes the stored blocks of `start_block..start_block + block_count`.
    pub fn read_range(&self, start_block: usize, block_count: usize) -> (r: BitmapRangeIterator<T, BLOCK_SIZE, BITS>)
        ensures
            r.current() == start_block,
            r.count() == block_count,
    {
        BitmapRangeIterator { current_block_index: start_block, block_count, _phantom: PhantomData }
    }
}

/// The cursor of a read over a range of a [`TokenBitmap`]: the next block to
/// look at and the number of blocks from there that the read still covers.
pub struct BitmapRangeIterator<T, const BLOCK_SIZE: usize, const BITS: usize> {
    current_block_index: usize,
    block_count: usize,
    _phantom: PhantomData<T>,
}

impl<T, const BLOCK_SIZE: usize, const BITS: usize> BitmapRangeIterator<T, BLOCK_SIZE, BITS> {
    pub closed spec fn current(&self) -> usize {
        self.current_block_index
    }

    pub closed spec fn count(&self) -> usize {
        self.block_count
    }

    /// The cursor may be used with `bitmap`: its range lies within it.
    pub open spec fn fits(&self, bitmap: &TokenBitmap<T, BLOCK_SIZE, BITS>) -> bool {
        &&& self.current() + self.count() <= bitmap@.len()
        &&& self.current() + self.count() <= usize::MAX
    }
}

/// The range `current..current + count` lies within one word.
pub open spec fn within_one_word(current: int, count: int) -> bool {
    current / 64 == (current + count - 1) / 64
}

impl<T: MemoryToken, const BLOCK_SIZE: usize, const BITS: usize> BitmapRangeIterator<T, BLOCK_SIZE, BITS> {
    /// Takes the lowest stored block of the cursor's range out of `bitmap`,
    /// moving the cursor to it; `None` when the range holds no stored block.
    ///
    /// The algorithm reads several bits and clears them at the same time,
    /// then puts back all but the lowest one it found.
    #[verifier::rlimit(30)]
    pub fn next(&mut self, bitmap: &mut TokenBitmap<T, BLOCK_SIZE, BITS>) -> (r: Option<BitmapToken<T, BLOCK_SIZE>>)
        requires
            old(self).count() == 0 || old(self).fits(old(bitmap)),
        ensures
            final(bitmap)@.len() == old(bitmap)@.len(),
            old(bitmap).wf() ==> final(bitmap).wf(),
            final(self).count() == 0 || final(self).fits(final(bitmap)),
            match r {
                None => {
                    &&& final(bitmap)@ == old(bitmap)@
                    &&& forall|k: int|
                        old(self).current() <= k < old(self).current() + old(self).count()
                            ==> !#[trigger] old(bitmap)@[k]
                    &&& final(self).current() == old(self).current()
                    &&& final(self).count() == if old(self).count() == 0 || within_one_word(
                        old(self).current() as int,
                        old(self).count() as int,
                    ) {
                        0
                    } else {
                        old(self).count()
                    }
                },
                Some(t) => {
                    let k = t.first_block() as int;
                    &&& t.blocks() == 1
                    &&& old(self).current() <= k < old(self).current() + old(self).count()
                    &&& old(bitmap)@[k]
                    &&& forall|j: int| old(self).current() <= j < k ==> !#[trigger] old(bitmap)@[j]
                    &&& final(bitmap)@ == old(bitmap)@.update(k, false)
                    &&& final(self).current() == k
                    &&& final(self).count() == old(self).count() - (k - old(self).current())
                },
            },
    {
        if self.block_count == 0 {
            return None;
        }
        proof {
            assert(bitmap@.len() == bitmap.words().len() * 64);
        }
        let ghost stored = bitmap@;
        let ghost cur = self.current_block_index as int;
        let ghost count = self.block_count as int;
        let (mut current_usize_index, current_bit_offset) = TokenBitmap::<T, BLOCK_SIZE, BITS>::get_index_and_bit_offset(
            self.current_block_index,
        );
        let (last_usize_index, last_bit_offset) = TokenBitmap::<T, BLOCK_SIZE, BITS>::get_index_and_bit_offset(
            self.current_block_index + self.block_count - 1,
        );
        // Unfortunately, we need another special case if the start and end are in the same word.
        if current_usize_index == last_usize_index {
            let mask = TokenBitmap::<T, BLOCK_SIZE, BITS>::create_bit_mask(current_bit_offset, self.block_count);
            let bits = bitmap.fetch_and_not(current_usize_index, mask);
            let found_bits = bits & mask;
            proof {
                assert forall|j: u64| j < 64 implies #[trigger] bit_set(found_bits, j) == (bit_set(bits, j)
                    && current_bit_offset <= j < current_bit_offset + count) by {
                    lemma_bit_and(bits, mask, j);
                }
                assert forall|k: int| 0 <= k < stored.len() && k / 64 == current_usize_index implies #[trigger] stored[k]
                    == bit_set(bits, (k % 64) as u64) by {}
            }
            if found_bits == 0 {
                proof {
                    lemma_zero_iff_no_bits(found_bits);
                    assert forall|k: int| cur <= k < cur + count implies !#[trigger] stored[k] by {
                        assert(!bit_set(found_bits, (k % 64) as u64));
                    }
                    assert forall|i: int| 0 <= i < bitmap@.len() implies #[trigger] bitmap@[i] == stored[i] by {
                        if i / 64 == current_usize_index && bit_set(mask, (i % 64) as u64) {
                            assert(!bit_set(found_bits, (i % 64) as u64));
                        }
                    }
                    assert(bitmap@ =~= stored);
                }
                self.block_count = 0;
                return None;
            }
            let first_set_bit = found_bits.trailing_zeros() as usize;
            // This trick clears the lowest set bit
            let other_bits = found_bits & (found_bits - 1);
            let ghost after_and = bitmap@;
            bitmap.fetch_or(current_usize_index, other_bits);
            let ghost k = current_usize_index * 64 + first_set_bit;
            proof {
                lemma_trailing_zeros_lowest(found_bits);
                assert forall|i: int| 0 <= i < bitmap@.len() implies #[trigger] bitmap@[i] == stored.update(k, false)[i] by {
                    if i / 64 == current_usize_index {
                        lemma_clear_lowest(found_bits, (i % 64) as u64);
                    }
                }
                assert(bitmap@ =~= stored.update(k, false));
                assert forall|j: int| cur <= j < k implies !#[trigger] stored[j] by {
                    assert(!bit_set(found_bits, (j % 64) as u64));
                }
            }
            self.current_block_index += first_set_bit - current_bit_offset;
            self.block_count -= first_set_bit - current_bit_offset;
            return Some(BitmapToken::<T, BLOCK_SIZE> { block_index: self.current_block_index, block_count: 1, _phantom: PhantomData });
        }
        let ghost first_usize_index = current_usize_index;
        let mut search_mask = TokenBitmap::<T, BLOCK_SIZE, BITS>::create_bit_mask(current_bit_offset, 64 - current_bit_offset);
        proof {
            assert(bit_set(search_mask, 63u64));
            lemma_bit_zero(63u64);
        }
        while search_mask != 0
            invariant
                bitmap@ == stored,
                stored == old(bitmap)@,
                cur == old(self).current(),
                count == old(self).count(),
                bitmap@.len() == bitmap.words().len() * 64,
                self.current_block_index == cur,
                self.block_count == count,
                count > 0,
                cur + count <= stored.len(),
                cur + count <= usize::MAX,
                first_usize_index == cur / 64,
                current_bit_offset == cur % 64,
                last_usize_index == (cur + count - 1) / 64,
                last_bit_offset == (cur + count - 1) % 64,
                first_usize_index < last_usize_index,
                first_usize_index <= current_usize_index <= last_usize_index,
                search_mask != 0,
                forall|j: u64|
                    j < 64 ==> #[trigger] bit_set(search_mask, j) == if current_usize_index
                        == first_usize_index {
                        j >= current_bit_offset
                    } else if current_usize_index < last_usize_index {
                        true
                    } else {
                        j <= last_bit_offset
                    },
                forall|k: int| cur <= k < cur + count && k / 64 < current_usize_index ==> !#[trigger] stored[k],
            decreases last_usize_index + 1 - current_usize_index,
        {
            let bits = bitmap.fetch_and_not(current_usize_index, search_mask);
            let found_bits = bits & search_mask;
            proof {
                assert forall|j: u64| j < 64 implies #[trigger] bit_set(found_bits, j) == (bit_set(bits, j)
                    && bit_set(search_mask, j)) by {
                    lemma_bit_and(bits, search_mask, j);
                }
                assert forall|k: int| 0 <= k < stored.len() && k / 64 == current_usize_index implies #[trigger] stored[k]
                    == bit_set(bits, (k % 64) as u64) by {}
            }
            if found_bits != 0 {
                let first_set_bit = found_bits.trailing_zeros() as usize;
                // Clear lowest set bit
                let other_bits = found_bits & (found_bits - 1);
                bitmap.fetch_or(current_usize_index, other_bits);
                let new_block_index = current_usize_index * 64 + first_set_bit;
                proof {
                    lemma_trailing_zeros_lowest(found_bits);
                    let k = new_block_index as int;
                    assert forall|i: int| 0 <= i < bitmap@.len() implies #[trigger] bitmap@[i] == stored.update(k, false)[i] by {
                        if i / 64 == current_usize_index {
                            lemma_clear_lowest(found_bits, (i % 64) as u64);
                        }
                    }
                    assert(bitmap@ =~= stored.update(k, false));
                    assert forall|j: int| cur <= j < k implies !#[trigger] stored[j] by {
                        if j / 64 == current_usize_index {
                            assert(!bit_set(found_bits, (j % 64) as u64));
                        }
                    }
                }
                self.block_count -= new_block_index - self.current_block_index;
                self.current_block_index = new_block_index;
                return Some(BitmapToken::<T, BLOCK_SIZE> { block_index: self.current_block_index, block_count: 1, _phantom: PhantomData });
            }
            proof {
                lemma_zero_iff_no_bits(found_bits);
                assert forall|i: int| 0 <= i < bitmap@.len() implies #[trigger] bitmap@[i] == stored[i] by {
                    if i / 64 == current_usize_index && bit_set(search_mask, (i % 64) as u64) {
                        assert(!bit_set(found_bits, (i % 64) as u64));
                    }
                }
                assert(bitmap@ =~= stored);
                assert forall|k: int| cur <= k < cur + count && k / 64 < current_usize_index + 1 implies !#[trigger] stored[k] by {
                    if k / 64 == current_usize_index {
                        assert(stored[k] == bit_set(bits, (k % 64) as u64));
                        assert(bit_set(search_mask, (k % 64) as u64));
                        assert(!bit_set(found_bits, (k % 64) as u64));
                    }
                }
            }
            current_usize_index += 1;
            if current_usize_index < last_usize_index {
                search_mask = !0u64;
                proof {
                    lemma_bit_zero(0u64);
                    lemma_bit_full(0u64);
                    assert forall|j: u64| j < 64 implies #[trigger] bit_set(search_mask, j) by {
                        lemma_bit_full(j);
                    }
                }
            } else if current_usize_index == last_usize_index {
                search_mask = TokenBitmap::<T, BLOCK_SIZE, BITS>::create_bit_mask(0, last_bit_offset + 1);
                proof {
                    assert(bit_set(search_mask, 0u64));
                    lemma_bit_zero(0u64);
                }
            } else {
                return None;
            }
        }
        None
    }
}

/// What a read gives back of a store: after storing the blocks of a token
/// (`first..first + count`, as `store_range` sets them), every block of
/// that range is stored, so reading the range takes `first` first.
pub proof fn law_store_then_read(before: Seq<bool>, after: Seq<bool>, first: int, count: int)
    requires
        0 <= first,
        count >= 1,
        first + count <= before.len(),
        after.len() == before.len(),
        forall|i: int| 0 <= i < after.len() ==> #[trigger] after[i] == (before[i] || first <= i < first + count),
    ensures
        forall|k: int| first <= k < first + count ==> #[trigger] after[k],
        after[first],
{
    assert(after[first]);
}

/// The stored blocks of `lo..hi`, in increasing order.
pub open spec fn stored_blocks(view: Seq<bool>, lo: int, hi: int) -> Seq<int>
    decreases hi - lo,
{
    if lo >= hi {
        Seq::empty()
    } else if view[lo] {
        seq![lo] + stored_blocks(view, lo + 1, hi)
    } else {
        stored_blocks(view, lo + 1, hi)
    }
}

/// Views that agree on `lo..hi` have the same stored blocks there.
proof fn lemma_stored_blocks_agree(a: Seq<bool>, b: Seq<bool>, lo: int, hi: int)
    requires
        forall|j: int| lo <= j < hi ==> a[j] == b[j],
    ensures
        stored_blocks(a, lo, hi) == stored_blocks(b, lo, hi),
    decreases hi - lo,
{
    if lo < hi {
        lemma_stored_blocks_agree(a, b, lo + 1, hi);
    }
}

/// With nothing stored in `lo..mid`, the stored blocks of `lo..hi` are
/// those of `mid..hi`.
proof fn lemma_stored_blocks_skip(view: Seq<bool>, lo: int, mid: int, hi: int)
    requires
        lo <= mid <= hi,
        forall|j: int| lo <= j < mid ==> !view[j],
    ensures
        stored_blocks(view, lo, hi) == stored_blocks(view, mid, hi),
    decreases mid - lo,
{
    if lo < mid {
        lemma_stored_blocks_skip(view, lo + 1, mid, hi);
    }
}

/// A read takes the stored blocks of its range one at a time, in
/// increasing order: when `next` takes block `k` (the lowest stored block
/// from the cursor to the end of the range, which it clears and moves the
/// cursor to), the stored blocks from the cursor are `k` followed by those
/// that remain from `k`; and when it gives `None`, none are left. So the
/// blocks of a read, until `None`, are the range's stored blocks in order.
pub proof fn law_read_takes_blocks_in_order(view: Seq<bool>, current: int, end: int, k: int)
    requires
        0 <= current <= k < end <= view.len(),
        view[k],
        forall|j: int| current <= j < k ==> !view[j],
    ensures
        stored_blocks(view, current, end) == seq![k] + stored_blocks(view.update(k, false), k, end),
        stored_blocks(view.update(k, false), k, end) == stored_blocks(view, k + 1, end),
{
    lemma_stored_blocks_skip(view, current, k, end);
    let after = view.update(k, false);
    lemma_stored_blocks_agree(after, view, k + 1, end);
    assert(stored_blocks(after, k, end) == stored_blocks(after, k + 1, end));
}

/// A read whose range holds no stored block has none to take.
pub proof fn law_read_ends_when_none_stored(view: Seq<bool>, current: int, end: int)
    requires
        0 <= current <= end <= view.len(),
        forall|j: int| current <= j < end ==> !view[j],
    ensures
        stored_blocks(view, current, end) == Seq::<int>::empty(),
{
    lemma_stored_blocks_skip(view, current, end, end);
}

/// One call of `BitmapRangeIterator::next` that takes block `k`, as its
/// contract states it: from the view `before` with the cursor at `current`
/// and `count` blocks left, to the view `after` with the cursor at
/// `next_current` and `next_count` blocks left.
pub open spec fn takes_block(
    before: Seq<bool>,
    current: int,
    count: int,
    after: Seq<bool>,
    next_current: int,
    next_count: int,
    k: int,
) -> bool {
    &&& current <= k < current + count
    &&& before[k]
    &&& forall|j: int| current <= j < k ==> !#[trigger] before[j]
    &&& after == before.update(k, false)
    &&& next_current == k
    &&& next_count == count - (k - current)
}

/// A whole read: calls of `next` that take the blocks `taken`, one after
/// another (the views, cursors and counts before each call and after the
/// last), until a call gives `None`, which leaves no stored block in the
/// rest of the range. It takes the stored blocks of the range, in
/// increasing order, and clears exactly them.
pub proof fn law_read_takes_stored_blocks(
    views: Seq<Seq<bool>>,
    currents: Seq<int>,
    counts: Seq<int>,
    taken: Seq<int>,
)
    requires
        views.len() == taken.len() + 1,
        currents.len() == taken.len() + 1,
        counts.len() == taken.len() + 1,
        0 <= currents[0],
        0 <= counts[0],
        currents[0] + counts[0] <= views[0].len(),
        forall|i: int|
            0 <= i < taken.len() ==> takes_block(
                views[i],
                currents[i],
                counts[i],
                views[i + 1],
                currents[i + 1],
                counts[i + 1],
                #[trigger] taken[i],
            ),
        forall|j: int|
            currents[taken.len() as int] <= j < currents[taken.len() as int] + counts[taken.len() as int]
                ==> !#[trigger] views[taken.len() as int][j],
    ensures
        taken == stored_blocks(views[0], currents[0], currents[0] + counts[0]),
        views[taken.len() as int].len() == views[0].len(),
        forall|j: int|
            0 <= j < views[0].len() ==> #[trigger] views[taken.len() as int][j] == (views[0][j] && !taken.contains(j)),
    decreases taken.len(),
{
    let end = currents[0] + counts[0];
    if taken.len() == 0 {
        law_read_ends_when_none_stored(views[0], currents[0], end);
    } else {
        assert(takes_block(views[0], currents[0], counts[0], views[1], currents[1], counts[1], taken[0]));
        law_read_takes_blocks_in_order(views[0], currents[0], end, taken[0]);
        let rest = taken.drop_first();
        assert forall|i: int| 0 <= i < rest.len() implies takes_block(
            views.drop_first()[i],
            currents.drop_first()[i],
            counts.drop_first()[i],
            views.drop_first()[i + 1],
            currents.drop_first()[i + 1],
            counts.drop_first()[i + 1],
            #[trigger] rest[i],
        ) by {
            assert(rest[i] == taken[i + 1]);
            assert(takes_block(
                views[i + 1],
                currents[i + 1],
                counts[i + 1],
                views[i + 2],
                currents[i + 2],
                counts[i + 2],
                taken[i + 1],
            ));
        }
        law_read_takes_stored_blocks(views.drop_first(), currents.drop_first(), counts.drop_first(), rest);
        assert(currents[1] + counts[1] == end);
        assert(taken =~= seq![taken[0]] + rest);
        assert forall|j: int| 0 <= j < views[0].len() implies #[trigger] views[taken.len() as int][j] == (
        views[0][j] && !taken.contains(j)) by {
            assert(views.drop_first()[rest.len() as int] == views[taken.len() as int]);
            if j == taken[0] {
                assert(taken.contains(j));
            } else {
                assert(taken.contains(j) <==> rest.contains(j)) by {
                    if taken.contains(j) {
                        let i = choose|i: int| 0 <= i < taken.len() && taken[i] == j;
                        assert(rest[i - 1] == j);
                    }
                    if rest.contains(j) {
                        let i = choose|i: int| 0 <= i < rest.len() && rest[i] == j;
                        assert(taken[i + 1] == j);
                    }
                }
            }
        }
    }
}

} // verus!
