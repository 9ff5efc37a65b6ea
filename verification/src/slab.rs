//! Slabs: block-sized chunks of memory divided into fixed-size entries. The
//! first entry is the head; the unused entries form a list through their own
//! memory, and slabs of one size are chained through their heads.
use vstd::prelude::*;
use crate::memory_token::{AllocatedMemoryToken, MemoryToken};
use crate::pmm::BLOCK_SIZE;

verus! {

/// The smallest entry a slab is made of.
pub const MIN_SLAB_ENTRY_SIZE: usize = 32;

/// The space an entry of `size` bytes takes in a slab: its size rounded up
/// to the 8-byte alignment of the head.
pub open spec fn entry_stride(size: int) -> int {
    (size + 7) / 8 * 8
}

/// The number of entries of a slab of `size`-byte entries, head included.
pub open spec fn entry_count(size: int) -> int {
    (BLOCK_SIZE as int) / entry_stride(size)
}

/// A slab of `SIZE`-byte entries.
pub struct Slab<const SIZE: usize> {
    address: usize,
    next: usize,
    previous_of_this_size: usize,
    first_unused_index: u16,
    allocated_count: u16,
    next_index: Vec<u16>,
    unused: Ghost<Seq<u16>>,
}

impl<const SIZE: usize> Slab<SIZE> {
    /// Where the slab's block starts.
    pub closed spec fn block_address(&self) -> usize {
        self.address
    }

    /// The unused entries, in the order in which they are handed out.
    pub closed spec fn unused(&self) -> Seq<u16> {
        self.unused@
    }

    /// The number of entries handed out.
    pub closed spec fn allocated(&self) -> nat {
        self.allocated_count as nat
    }

    /// The block of the next slab in the chain (0 for none).
    pub closed spec fn next_slab(&self) -> usize {
        self.next
    }

    /// The block of the previous slab of this size (0 for none).
    pub closed spec fn previous_slab(&self) -> usize {
        self.previous_of_this_size
    }

    /// The list of unused entries runs through their links, from the first
    /// unused index to a link of 0, with no entry twice and never the head;
    /// with the entries handed out, it accounts for every entry but the head.
    pub closed spec fn wf(&self) -> bool {
        let unused = self.unused@;
        let count = entry_count(SIZE as int);
        &&& MIN_SLAB_ENTRY_SIZE <= SIZE <= BLOCK_SIZE / 2
        &&& self.address + BLOCK_SIZE <= usize::MAX
        &&& self.next_index@.len() == count
        &&& self.first_unused_index == (if unused.len() == 0 { 0 } else { unused[0] })
        &&& forall|i: int| 0 <= i < unused.len() - 1 ==> #[trigger] self.next_index@[unused[i] as int] == unused[i + 1]
        &&& unused.len() > 0 ==> self.next_index@[unused.last() as int] == 0
        &&& forall|i: int| 0 <= i < unused.len() ==> 1 <= #[trigger] unused[i] < count
        &&& forall|i: int, j: int| 0 <= i < j < unused.len() ==> unused[i] != unused[j]
        &&& self.allocated_count + unused.len() == count - 1
    }
}

/// The numbers of entries of a slab, head included, lie between 2 and 2048.
pub proof fn lemma_entry_count_bounds(size: int)
    requires
        MIN_SLAB_ENTRY_SIZE <= size <= BLOCK_SIZE / 2,
    ensures
        size <= entry_stride(size) < size + 8,
        32 <= entry_stride(size) <= BLOCK_SIZE / 2,
        2 <= entry_count(size) <= 2048,
        entry_count(size) * size <= BLOCK_SIZE,
{
    let stride = entry_stride(size);
    let blocks = BLOCK_SIZE as int;
    vstd::arithmetic::div_mod::lemma_fundamental_div_mod(size + 7, 8);
    vstd::arithmetic::div_mod::lemma_div_is_ordered(size + 7, 32775, 8);
    assert(32775int / 8 == 4096);
    assert(39int / 8 == 4);
    vstd::arithmetic::div_mod::lemma_div_is_ordered(39, size + 7, 8);
    assert(size <= stride < size + 8);
    assert(32 <= stride <= 32768);
    vstd::arithmetic::div_mod::lemma_div_is_ordered_by_denominator(blocks, 32, stride);
    vstd::arithmetic::div_mod::lemma_div_is_ordered_by_denominator(blocks, stride, 32768);
    assert(blocks / 32 == 2048);
    assert(blocks / 32768 == 2);
    let q = entry_count(size);
    assert(q == blocks / stride);
    vstd::arithmetic::div_mod::lemma_fundamental_div_mod(blocks, stride);
    vstd::arithmetic::div_mod::lemma_mod_pos_bound(blocks, stride);
    vstd::arithmetic::mul::lemma_mul_is_commutative(q, stride);
    assert(q * stride <= blocks);
    assert(q * size <= q * stride) by (nonlinear_arith)
        requires
            size <= stride,
            q >= 0,
    ;
}

/// Distinct entries between `lo` and `hi`, none of them `excluded`, are
/// fewer than the range.
proof fn lemma_distinct_bounded(s: Seq<u16>, lo: int, hi: int, excluded: int)
    requires
        lo <= excluded < hi,
        forall|i: int| 0 <= i < s.len() ==> lo <= #[trigger] s[i] < hi && s[i] != excluded,
        forall|i: int, j: int| 0 <= i < j < s.len() ==> s[i] != s[j],
    ensures
        s.len() <= hi - lo - 1,
{
    let t = s.map_values(|x: u16| x as int);
    assert(t.no_duplicates()) by {
        assert forall|i: int, j: int| 0 <= i < t.len() && 0 <= j < t.len() && i != j implies t[i] != t[j] by {
            if i < j {
                assert(s[i] != s[j]);
            } else {
                assert(s[j] != s[i]);
            }
        }
    }
    t.unique_seq_to_set();
    let range = vstd::set_lib::set_int_range(lo, hi).remove(excluded);
    vstd::set_lib::lemma_int_range(lo, hi);
    assert(t.to_set().subset_of(range)) by {
        assert forall|x: int| t.to_set().contains(x) implies range.contains(x) by {
            let i = choose|i: int| 0 <= i < t.len() && t[i] == x;
            assert(lo <= s[i] < hi && s[i] != excluded);
        }
    }
    vstd::set_lib::lemma_len_subset(t.to_set(), range);
}

impl<const SIZE: usize> Slab<SIZE> {
    /// The number of entries, head included.
    pub fn entry_count() -> (r: usize)
        requires
            MIN_SLAB_ENTRY_SIZE <= SIZE <= BLOCK_SIZE / 2,
        ensures
            r == entry_count(SIZE as int),
            2 <= r <= 2048,
    {
        proof {
            lemma_entry_count_bounds(SIZE as int);
        }
        BLOCK_SIZE / ((SIZE + 7) / 8 * 8)
    }

    /// A slab over the block-sized `allocation`, which cannot lie at address
    /// 0, the address that stands for no slab: every entry but the head is
    /// unused, handed out from the lowest; no slab is chained to it.
    pub fn new(allocation: AllocatedMemoryToken) -> (r: Self)
        requires
            MIN_SLAB_ENTRY_SIZE <= SIZE <= BLOCK_SIZE / 2,
            allocation.token_size() == BLOCK_SIZE,
            allocation.token_address() != 0,
            allocation.token_address() + BLOCK_SIZE <= usize::MAX,
        ensures
            r.wf(),
            r.block_address() == allocation.token_address(),
            r.unused() == Seq::new((entry_count(SIZE as int) - 1) as nat, |i: int| (i + 1) as u16),
            r.allocated() == 0,
            r.next_slab() == 0,
            r.previous_slab() == 0,
    {
        let count = Self::entry_count();
        let address = allocation.into_ptr();
        // The head has no link; every other entry links to the one after it, and the last to nothing.
        let mut next_index: Vec<u16> = Vec::new();
        next_index.push(0);
        let mut i: usize = 1;
        while i < count
            invariant
                1 <= i <= count,
                2 <= count <= 2048,
                next_index@.len() == i,
                forall|j: int| 1 <= j < i ==> #[trigger] next_index@[j] == (if j + 1 < count { (j + 1) as u16 } else { 0u16 }),
            decreases count - i,
        {
            if i + 1 < count {
                next_index.push((i + 1) as u16);
            } else {
                next_index.push(0);
            }
            i = i + 1;
        }
        let ghost unused = Seq::new((count - 1) as nat, |j: int| (j + 1) as u16);
        Slab {
            address,
            next: 0,
            previous_of_this_size: 0,
            first_unused_index: 1,
            allocated_count: 0,
            next_index,
            unused: Ghost(unused),
        }
    }

    /// No entry is left unused.
    pub fn is_full(&self) -> (r: bool)
        requires
            self.wf(),
        ensures
            r == (self.unused().len() == 0),
    {
        proof {
            if self.unused@.len() > 0 {
                assert(1 <= self.unused@[0]);
            }
        }
        self.first_unused_index == 0
    }

    /// No entry is handed out.
    pub fn is_empty(&self) -> (r: bool)
        ensures
            r == (self.allocated() == 0),
    {
        self.allocated_count == 0
    }

    /// The whole block back, when no entry is handed out; else the slab.
    pub fn try_into_allocation(self) -> (r: Result<AllocatedMemoryToken, Self>)
        ensures
            self.allocated() == 0 <==> r is Ok,
            r matches Ok(token) ==> token.token_address() == self.block_address() && token.token_size() == BLOCK_SIZE,
            r matches Err(slab) ==> slab == self,
    {
        if self.is_empty() {
            // All entries are back, so the original block-sized allocation is whole again.
            Ok(AllocatedMemoryToken::new(self.address, BLOCK_SIZE))
        } else {
            Err(self)
        }
    }

    /// The address of the slab's block.
    pub fn address(&self) -> (r: usize)
        ensures
            r == self.block_address(),
    {
        self.address
    }

    /// The address of the slab's block, giving up the slab.
    pub fn into_ptr(self) -> (r: usize)
        ensures
            r == self.block_address(),
    {
        self.address
    }

    /// Takes back the entry of `token`, which was handed out by this slab:
    /// it becomes the first unused entry.
    pub fn free(&mut self, token: AllocatedMemoryToken)
        requires
            old(self).wf(),
            token.token_size() == SIZE,
            old(self).block_address() <= token.token_address(),
            (token.token_address() - old(self).block_address()) % (SIZE as int) == 0,
            0 < (token.token_address() - old(self).block_address()) / (SIZE as int) < entry_count(SIZE as int),
            !old(self).unused().contains(
                ((token.token_address() - old(self).block_address()) / (SIZE as int)) as u16,
            ),
        ensures
            final(self).wf(),
            final(self).unused() == seq![
                ((token.token_address() - old(self).block_address()) / (SIZE as int)) as u16,
            ] + old(self).unused(),
            final(self).allocated() == old(self).allocated() - 1,
            final(self).block_address() == old(self).block_address(),
            final(self).next_slab() == old(self).next_slab(),
            final(self).previous_slab() == old(self).previous_slab(),
    {
        proof {
            lemma_entry_count_bounds(SIZE as int);
        }
        let offset = token.address() - self.address;
        let index = offset / SIZE;
        let ghost old_unused = self.unused@;
        let old_unused_index = self.first_unused_index;
        self.first_unused_index = index as u16;
        assert(self.allocated_count > 0) by {
            lemma_distinct_bounded(old_unused, 1, entry_count(SIZE as int), index as int);
        }
        self.allocated_count = self.allocated_count - 1;
        self.next_index.set(index, old_unused_index);
        self.unused = Ghost(seq![index as u16] + old_unused);
        assert(forall|i: int| 0 <= i < old_unused.len() ==> old_unused[i] != index as u16);
    }

    /// Hands out the first unused entry, if there is one.
    pub fn allocate(&mut self) -> (r: Option<AllocatedMemoryToken>)
        requires
            old(self).wf(),
        ensures
            final(self).wf(),
            old(self).unused().len() == 0 <==> r is None,
            r is None ==> *final(self) == *old(self),
            r matches Some(token) ==> {
                &&& token.token_address() == old(self).block_address() + old(self).unused()[0] * SIZE
                &&& token.token_size() == SIZE
                &&& final(self).unused() == old(self).unused().drop_first()
                &&& final(self).allocated() == old(self).allocated() + 1
            },
            final(self).block_address() == old(self).block_address(),
            final(self).next_slab() == old(self).next_slab(),
            final(self).previous_slab() == old(self).previous_slab(),
    {
        proof {
            lemma_entry_count_bounds(SIZE as int);
        }
        if self.first_unused_index == 0 {
            proof {
                if self.unused@.len() > 0 {
                    assert(1 <= self.unused@[0]);
                }
            }
            // No free entries.
            return None;
        }
        let index = self.first_unused_index as usize;
        let new_unused_index = self.next_index[index];
        let ghost old_unused = self.unused@;
        self.first_unused_index = new_unused_index;
        self.allocated_count = self.allocated_count + 1;
        self.unused = Ghost(old_unused.drop_first());
        proof {
            assert(index < entry_count(SIZE as int));
            assert(index * SIZE < entry_count(SIZE as int) * SIZE) by (nonlinear_arith)
                requires
                    index < entry_count(SIZE as int),
                    SIZE > 0,
            ;
        }
        // The entry is out of the list, so the slab no longer owns it.
        Some(AllocatedMemoryToken::new(self.address + index * SIZE, SIZE))
    }

    /// Takes the link to the next slab, leaving none.
    pub fn take_next(&mut self) -> (r: Option<usize>)
        ensures
            old(self).next_slab() == 0 <==> r is None,
            r matches Some(next) ==> next == old(self).next_slab(),
            final(self).next_slab() == 0,
            final(self).previous_slab() == old(self).previous_slab(),
            final(self).unused() == old(self).unused(),
            final(self).allocated() == old(self).allocated(),
            final(self).block_address() == old(self).block_address(),
            old(self).wf() ==> final(self).wf(),
    {
        if self.next == 0 {
            None
        } else {
            let next = self.next;
            self.next = 0;
            Some(next)
        }
    }

    /// Takes the link to the previous slab, leaving none.
    pub fn take_previous(&mut self) -> (r: Option<usize>)
        ensures
            old(self).previous_slab() == 0 <==> r is None,
            r matches Some(previous) ==> previous == old(self).previous_slab(),
            final(self).previous_slab() == 0,
            final(self).next_slab() == old(self).next_slab(),
            final(self).unused() == old(self).unused(),
            final(self).allocated() == old(self).allocated(),
            final(self).block_address() == old(self).block_address(),
            old(self).wf() ==> final(self).wf(),
    {
        if self.previous_of_this_size == 0 {
            None
        } else {
            let previous = self.previous_of_this_size;
            self.previous_of_this_size = 0;
            Some(previous)
        }
    }

    /// Chains `next` after this slab. The slab that followed this one, and
    /// the one that preceded `next`, are returned: they are no longer linked.
    pub fn set_next(&mut self, next: &mut Slab<SIZE>) -> (r: (Option<usize>, Option<usize>))
        ensures
            r.0 == (if old(self).next_slab() == 0 { None } else { Some(old(self).next_slab()) }),
            r.1 == (if old(next).previous_slab() == 0 { None } else { Some(old(next).previous_slab()) }),
            final(self).next_slab() == old(next).block_address(),
            final(next).previous_slab() == old(self).block_address(),
            final(self).previous_slab() == old(self).previous_slab(),
            final(next).next_slab() == old(next).next_slab(),
            final(self).unused() == old(self).unused() && final(self).allocated() == old(self).allocated(),
            final(next).unused() == old(next).unused() && final(next).allocated() == old(next).allocated(),
            final(self).block_address() == old(self).block_address(),
            final(next).block_address() == old(next).block_address(),
            old(self).wf() ==> final(self).wf(),
            old(next).wf() ==> final(next).wf(),
    {
        let this_next = self.take_next();
        let provided_previous = next.take_previous();
        next.previous_of_this_size = self.address;
        self.next = next.address;
        (this_next, provided_previous)
    }

    /// Chains `previous` before this slab. The slab that preceded this one,
    /// and the one that followed `previous`, are returned: they are no
    /// longer linked.
    pub fn set_previous(&mut self, previous: &mut Slab<SIZE>) -> (r: (Option<usize>, Option<usize>))
        ensures
            r.0 == (if old(self).previous_slab() == 0 { None } else { Some(old(self).previous_slab()) }),
            r.1 == (if old(previous).next_slab() == 0 { None } else { Some(old(previous).next_slab()) }),
            final(self).previous_slab() == old(previous).block_address(),
            final(previous).next_slab() == old(self).block_address(),
            final(self).next_slab() == old(self).next_slab(),
            final(previous).previous_slab() == old(previous).previous_slab(),
            final(self).unused() == old(self).unused() && final(self).allocated() == old(self).allocated(),
            final(previous).unused() == old(previous).unused() && final(previous).allocated() == old(
                previous,
            ).allocated(),
            final(self).block_address() == old(self).block_address(),
            final(previous).block_address() == old(previous).block_address(),
            old(self).wf() ==> final(self).wf(),
            old(previous).wf() ==> final(previous).wf(),
    {
        let this_previous = self.take_previous();
        let provided_next = previous.take_next();
        previous.next = self.address;
        self.previous_of_this_size = previous.address;
        (this_previous, provided_next)
    }
}

/// A slab hands out the entry freed last first: after `free` puts `index`
/// in front of the unused entries, `allocate` takes it and leaves the
/// unused entries as they were.
pub proof fn law_free_then_allocate(unused: Seq<u16>, index: u16)
    ensures
        (seq![index] + unused)[0] == index,
        (seq![index] + unused).drop_first() == unused,
{
    assert((seq![index] + unused).drop_first() =~= unused);
}

/// Every entry but the head is handed out or unused, never both: the
/// unused entries of a well-formed slab are distinct, and so many fewer than
/// the entries that the rest are handed out.
pub proof fn law_slab_accounts_for_entries<const SIZE: usize>(slab: Slab<SIZE>)
    requires
        slab.wf(),
    ensures
        slab.allocated() + slab.unused().len() == entry_count(SIZE as int) - 1,
        forall|i: int, j: int| 0 <= i < j < slab.unused().len() ==> slab.unused()[i] != slab.unused()[j],
        forall|i: int| 0 <= i < slab.unused().len() ==> 1 <= #[trigger] slab.unused()[i] < entry_count(SIZE as int),
{
}

/// The unused entries after freeing the entries of `freed`, in order,
/// starting from `unused`: each goes in front.
pub open spec fn unused_after_frees(unused: Seq<u16>, freed: Seq<u16>) -> Seq<u16>
    decreases freed.len(),
{
    if freed.len() == 0 {
        unused
    } else {
        seq![freed.last()] + unused_after_frees(unused, freed.drop_last())
    }
}

/// The entries handed out by `n` allocations from `unused` (each takes the
/// first), and the unused entries after them.
pub open spec fn allocations_from(unused: Seq<u16>, n: nat) -> (Seq<u16>, Seq<u16>)
    decreases n,
{
    if n == 0 || unused.len() == 0 {
        (Seq::empty(), unused)
    } else {
        let (taken, rest) = allocations_from(unused.drop_first(), (n - 1) as nat);
        (seq![unused[0]] + taken, rest)
    }
}

/// Over any history of frees, a slab hands the freed entries out again in
/// the opposite order: freeing the entries of `freed` in turn puts them in
/// front of the unused entries, last freed first, and as many allocations
/// then take exactly them, in that order, leaving the unused entries as
/// they were before the frees.
pub proof fn law_frees_then_allocations(unused: Seq<u16>, freed: Seq<u16>)
    ensures
        unused_after_frees(unused, freed) == freed.reverse() + unused,
        allocations_from(unused_after_frees(unused, freed), freed.len()) == (freed.reverse(), unused),
    decreases freed.len(),
{
    if freed.len() > 0 {
        let rest = freed.drop_last();
        law_frees_then_allocations(unused, rest);
        assert(freed.reverse() =~= seq![freed.last()] + rest.reverse()) by {
            assert forall|i: int| 0 <= i < freed.len() implies freed.reverse()[i] == (seq![freed.last()]
                + rest.reverse())[i] by {
                if i > 0 {
                    assert(rest.reverse()[i - 1] == rest[rest.len() - 1 - (i - 1)]);
                }
            }
        }
        let front = unused_after_frees(unused, freed);
        assert(front.drop_first() =~= unused_after_frees(unused, rest));
        assert((seq![freed.last()] + (rest.reverse() + unused)) =~= freed.reverse() + unused);
    }
}

} // verus!
