//! How the kernel heap sizes an allocation: every size is rounded up to a
//! power of two of at least the smallest slab entry; those up to half a
//! block come from slabs, larger ones are given whole.
use vstd::prelude::*;
use vstd::arithmetic::power2::{pow2, lemma_pow2_adds, lemma2_to64};
use crate::pmm::BLOCK_SIZE;
use crate::slab::MIN_SLAB_ENTRY_SIZE;

verus! {

/// The smallest allocation: the smallest slab entry (a power of two).
pub const MIN_SMALL_SIZE: usize = MIN_SLAB_ENTRY_SIZE;

/// `p` is the smallest power of two that is at least `n`.
pub open spec fn is_next_power_of_two(n: nat, p: nat) -> bool {
    &&& exists|k: nat| p == pow2(k)
    &&& p >= n
    &&& (p == 1 || p / 2 < n)
}

/// The size an allocation of `size` bytes takes: the smallest power of two
/// that is at least `size` and at least the smallest slab entry.
pub fn allocation_size(size: usize) -> (r: usize)
    requires
        size <= usize::MAX / 2 + 1,
    ensures
        is_next_power_of_two(if size > MIN_SMALL_SIZE { size as nat } else { MIN_SMALL_SIZE as nat }, r as nat),
{
    let wanted = if size > MIN_SMALL_SIZE { size } else { MIN_SMALL_SIZE };
    let mut p: usize = MIN_SMALL_SIZE;
    let ghost mut k: nat = 5;
    let ghost top: nat = if usize::MAX == 0xffff_ffff { 31 } else { 63 };
    proof {
        lemma2_to64();
        vstd::arithmetic::power2::lemma2_to64_rest();
    }
    while p < wanted
        invariant
            wanted <= usize::MAX / 2 + 1,
            usize::MAX / 2 + 1 == pow2(top),
            top == 31 || top == 63,
            wanted >= 32,
            p == pow2(k),
            k >= 5,
            k <= top,
            p <= usize::MAX / 2 + 1,
            p == 32 || p / 2 < wanted,
        decreases top - k,
    {
        proof {
            lemma_pow2_adds(k, 1);
            lemma2_to64();
            if k >= top {
                if k > top {
                    vstd::arithmetic::power2::lemma_pow2_strictly_increases(top, k);
                }
            }
            assert(k + 1 <= top);
            if k + 1 < top {
                vstd::arithmetic::power2::lemma_pow2_strictly_increases(k + 1, top);
            }
        }
        p = p * 2;
        proof {
            k = k + 1;
        }
    }
    p
}

/// The smallest power of two that is at least `size` (1 for 0): the size
/// that `realloc` compares to see whether the memory can stay where it is.
pub fn power_of_two_at_least(size: usize) -> (r: usize)
    requires
        size <= usize::MAX / 2 + 1,
    ensures
        is_next_power_of_two(size as nat, r as nat),
{
    let mut p: usize = 1;
    let ghost mut k: nat = 0;
    let ghost top: nat = if usize::MAX == 0xffff_ffff { 31 } else { 63 };
    proof {
        lemma2_to64();
        vstd::arithmetic::power2::lemma2_to64_rest();
    }
    while p < size
        invariant
            size <= usize::MAX / 2 + 1,
            usize::MAX / 2 + 1 == pow2(top),
            top == 31 || top == 63,
            p == pow2(k),
            k <= top,
            p <= usize::MAX / 2 + 1,
            p == 1 || p / 2 < size,
        decreases top - k,
    {
        proof {
            lemma_pow2_adds(k, 1);
            lemma2_to64();
            if k >= top {
                if k > top {
                    vstd::arithmetic::power2::lemma_pow2_strictly_increases(top, k);
                }
            }
            assert(k + 1 <= top);
            if k + 1 < top {
                vstd::arithmetic::power2::lemma_pow2_strictly_increases(k + 1, top);
            }
        }
        p = p * 2;
        proof {
            k = k + 1;
        }
    }
    p
}

/// An allocation of `size` (already rounded) comes from a slab: it is at
/// most half a block.
pub fn is_small_allocation(size: usize) -> (r: bool)
    ensures
        r == (size <= BLOCK_SIZE / 2),
{
    size <= BLOCK_SIZE / 2
}

} // verus!
