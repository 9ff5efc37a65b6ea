//! The small allocator of one entry size: the slabs of that size, by the
//! address of their block, and the list of partially used slabs, from which
//! entries are handed out first.
use vstd::prelude::*;
use std::collections::HashMap;
use crate::memory_token::{AllocatedMemoryToken, MemoryToken};
use crate::pmm::BLOCK_SIZE;
use crate::slab::{Slab, MIN_SLAB_ENTRY_SIZE, entry_count, lemma_entry_count_bounds};

verus! {

/// The slabs of `SIZE`-byte entries.
pub struct SmallAllocator<const SIZE: usize> {
    slabs: HashMap<usize, Slab<SIZE>>,
    partial_list: usize,
    list: Ghost<Seq<usize>>,
}

/// `after` is `before` with different links to other slabs, if any.
pub open spec fn same_entries<const SIZE: usize>(before: Slab<SIZE>, after: Slab<SIZE>) -> bool {
    &&& after.wf()
    &&& after.block_address() == before.block_address()
    &&& after.unused() == before.unused()
    &&& after.allocated() == before.allocated()
}

/// `after` is `before` with the same links.
pub open spec fn same_slab<const SIZE: usize>(before: Slab<SIZE>, after: Slab<SIZE>) -> bool {
    &&& same_entries(before, after)
    &&& after.next_slab() == before.next_slab()
    &&& after.previous_slab() == before.previous_slab()
}

/// The block that holds `address`.
pub open spec fn slab_of(address: int) -> int {
    address - address % (BLOCK_SIZE as int)
}

/// The entry of its slab that `address` is.
pub open spec fn entry_of(address: int, size: int) -> int {
    (address - slab_of(address)) / size
}

impl<const SIZE: usize> SmallAllocator<SIZE> {
    /// The slabs, by the address of their block.
    pub closed spec fn slabs(&self) -> Map<usize, Slab<SIZE>> {
        self.slabs@
    }

    /// The block of the first partially used slab (0 for none).
    pub closed spec fn partial(&self) -> usize {
        self.partial_list
    }

    /// The blocks of the slabs of the partial list, from its head.
    pub closed spec fn partial_slabs(&self) -> Seq<usize> {
        self.list@
    }

    /// Every slab is well formed and kept under its own block's address
    /// (never 0), and the partial list is a chain of distinct slabs, none
    /// full, each linked both ways to its neighbours in the chain; a slab
    /// off the chain has no links.
    pub open spec fn wf(&self) -> bool {
        &&& MIN_SLAB_ENTRY_SIZE <= SIZE <= BLOCK_SIZE / 2
        &&& forall|a: usize| #[trigger]
            self.slabs().contains_key(a) ==> self.slabs()[a].wf() && self.slabs()[a].block_address() == a && a != 0
        &&& self.partial() == if self.partial_slabs().len() == 0 {
            0
        } else {
            self.partial_slabs()[0]
        }
        &&& forall|i: int, j: int|
            0 <= i < j < self.partial_slabs().len() ==> self.partial_slabs()[i] != self.partial_slabs()[j]
        &&& forall|k: int| 0 <= k < self.partial_slabs().len() ==> #[trigger] self.linked_at(k)
        &&& forall|a: usize| #[trigger]
            self.slabs().contains_key(a) && !self.partial_slabs().contains(a) ==> self.slabs()[a].next_slab() == 0
                && self.slabs()[a].previous_slab() == 0
    }

    /// The `k`-th slab of the partial list is one of the slabs, not full,
    /// linked to the slabs before and after it in the list (0 at the ends).
    pub open spec fn linked_at(&self, k: int) -> bool {
        let list = self.partial_slabs();
        let slab = self.slabs()[list[k]];
        &&& self.slabs().contains_key(list[k])
        &&& slab.unused().len() > 0
        &&& slab.next_slab() == if k + 1 < list.len() {
            list[k + 1]
        } else {
            0
        }
        &&& slab.previous_slab() == if k > 0 {
            list[k - 1]
        } else {
            0
        }
    }

    /// No slab, and an empty partial list.
    pub fn new() -> (r: Self)
        requires
            MIN_SLAB_ENTRY_SIZE <= SIZE <= BLOCK_SIZE / 2,
        ensures
            r.wf(),
            r.slabs() == Map::<usize, Slab<SIZE>>::empty(),
            r.partial() == 0,
    {
        SmallAllocator { slabs: HashMap::new(), partial_list: 0, list: Ghost(Seq::empty()) }
    }

    /// Hands out the first unused entry of the first partial slab; when that
    /// fills it, the next slab starts the partial list. `None` when the
    /// partial list is empty.
    pub fn allocate_from_partial_list(&mut self) -> (r: Option<AllocatedMemoryToken>)
        requires
            old(self).wf(),
        ensures
            final(self).wf(),
            old(self).partial() == 0 ==> r is None && final(self).slabs() == old(self).slabs() && final(self).partial() == 0
                && final(self).partial_slabs() == old(self).partial_slabs(),
            old(self).partial() != 0 ==> ({
                let head = old(self).partial();
                let slab = old(self).slabs()[head];
                let after = final(self).slabs()[head];
                let next = slab.next_slab();
                &&& r matches Some(token) && token.token_address() == head + slab.unused()[0] * SIZE
                    && token.token_size() == SIZE
                &&& final(self).slabs().dom() == old(self).slabs().dom()
                &&& forall|a: usize| #[trigger]
                    final(self).slabs().contains_key(a) && a != head && !(slab.unused().len() == 1 && a == next)
                        ==> final(self).slabs()[a] == old(self).slabs()[a]
                &&& after.wf()
                &&& after.block_address() == head
                &&& after.unused() == slab.unused().drop_first()
                &&& after.allocated() == slab.allocated() + 1
                &&& after.previous_slab() == slab.previous_slab()
                &&& final(self).partial_slabs() == if slab.unused().len() == 1 {
                    old(self).partial_slabs().drop_first()
                } else {
                    old(self).partial_slabs()
                }
                &&& if slab.unused().len() == 1 {
                    // It became full, so it leaves the partial list, which
                    // its next slab now starts.
                    &&& after.next_slab() == 0
                    &&& final(self).partial() == next
                    &&& next != 0 ==> {
                        &&& same_entries(old(self).slabs()[next], final(self).slabs()[next])
                        &&& final(self).slabs()[next].previous_slab() == 0
                        &&& final(self).slabs()[next].next_slab() == old(self).slabs()[next].next_slab()
                    }
                } else {
                    after.next_slab() == slab.next_slab() && final(self).partial() == head
                }
            }),
    {
        broadcast use vstd::std_specs::hash::group_hash_axioms;

        if self.partial_list == 0 {
            return None;
        }
        let head = self.partial_list;
        proof {
            assert(self.linked_at(0));
        }
        let mut slab = match self.slabs.remove(&head) {
            Some(slab) => slab,
            None => vstd::pervasive::unreached(),
        };
        let ghost before = slab;
        let token = match slab.allocate() {
            Some(token) => token,
            None => vstd::pervasive::unreached(),
        };
        // If it became full, it leaves the partial list, which its next slab
        // now starts.
        if slab.is_full() {
            self.partial_list = match slab.take_next() {
                Some(next) => {
                    proof {
                        assert(old(self).linked_at(1));
                    }
                    let mut next_slab = match self.slabs.remove(&next) {
                        Some(s) => s,
                        None => vstd::pervasive::unreached(),
                    };
                    let _ = next_slab.take_previous();
                    self.slabs.insert(next, next_slab);
                    next
                },
                None => 0,
            };
            self.list = Ghost(self.list@.drop_first());
        }
        self.slabs.insert(head, slab);
        proof {
            let list = old(self).partial_slabs();
            assert forall|a: usize| #[trigger]
                self.slabs@.contains_key(a) implies self.slabs@[a].wf() && self.slabs@[a].block_address() == a
                && a != 0 by {
                assert(old(self).slabs@.contains_key(a));
            }
            assert(self.slabs@.dom() =~= old(self).slabs@.dom());
            if before.unused().len() == 1 {
                assert forall|k: int| 0 <= k < self.partial_slabs().len() implies #[trigger] self.linked_at(k) by {
                    assert(old(self).linked_at(k + 1));
                    assert(self.partial_slabs()[k] == list[k + 1]);
                    if k > 0 {
                        assert(self.partial_slabs()[k - 1] == list[k]);
                    }
                    if k + 1 < self.partial_slabs().len() {
                        assert(self.partial_slabs()[k + 1] == list[k + 2]);
                    }
                }
                assert forall|a: usize| #[trigger]
                    self.slabs().contains_key(a) && !self.partial_slabs().contains(a) implies self.slabs()[a].next_slab()
                    == 0 && self.slabs()[a].previous_slab() == 0 by {
                    if a != head {
                        if list.contains(a) {
                            let k = choose|k: int| 0 <= k < list.len() && list[k] == a;
                            assert(k > 0);
                            assert(self.partial_slabs()[k - 1] == a);
                        }
                    }
                }
            } else {
                assert forall|k: int| 0 <= k < self.partial_slabs().len() implies #[trigger] self.linked_at(k) by {
                    assert(old(self).linked_at(k));
                }
            }
        }
        Some(token)
    }

    /// Hands out the first entry of a new slab over the block-sized
    /// `slab_allocation`; the slab joins the slabs, and starts the partial
    /// list unless that filled it. Used when the partial list is empty (when
    /// `allocate_from_partial_list` gave `None`).
    pub fn allocate_from_new_slab(&mut self, slab_allocation: AllocatedMemoryToken) -> (r: AllocatedMemoryToken)
        requires
            old(self).wf(),
            old(self).partial() == 0,
            slab_allocation.token_size() == BLOCK_SIZE,
            slab_allocation.token_address() % BLOCK_SIZE == 0,
            slab_allocation.token_address() != 0,
            slab_allocation.token_address() + BLOCK_SIZE <= usize::MAX,
            !old(self).slabs().contains_key(slab_allocation.token_address()),
        ensures
            final(self).wf(),
            ({
                let block = slab_allocation.token_address();
                let slab = final(self).slabs()[block];
                &&& r.token_address() == block + SIZE
                &&& r.token_size() == SIZE
                &&& final(self).slabs().dom() == old(self).slabs().dom().insert(block)
                &&& forall|a: usize| #[trigger]
                    final(self).slabs().contains_key(a) && a != block ==> final(self).slabs()[a] == old(self).slabs()[a]
                &&& slab.unused() == Seq::new((entry_count(SIZE as int) - 2) as nat, |i: int| (i + 2) as u16)
                &&& slab.allocated() == 1
                &&& slab.next_slab() == 0
                &&& slab.previous_slab() == 0
                &&& final(self).partial() == if entry_count(SIZE as int) > 2 {
                    block
                } else {
                    0
                }
                &&& final(self).partial_slabs() == if entry_count(SIZE as int) > 2 {
                    seq![block]
                } else {
                    Seq::<usize>::empty()
                }
            }),
    {
        broadcast use vstd::std_specs::hash::group_hash_axioms;

        let block = slab_allocation.address();
        proof {
            lemma_entry_count_bounds(SIZE as int);
        }
        let mut new_slab = Slab::<SIZE>::new(slab_allocation);
        assert(new_slab.unused()[0] == 1);
        let token = match new_slab.allocate() {
            Some(token) => token,
            None => vstd::pervasive::unreached(),
        };
        if !new_slab.is_full() {
            self.partial_list = block;
            self.list = Ghost(Seq::empty().push(block));
        }
        self.slabs.insert(block, new_slab);
        proof {
            assert forall|a: usize| #[trigger]
                self.slabs@.contains_key(a) implies self.slabs@[a].wf() && self.slabs@[a].block_address() == a
                && a != 0 by {
                if a != block {
                    assert(old(self).slabs@.contains_key(a));
                }
            }
            assert(self.slabs@.dom() =~= old(self).slabs@.dom().insert(block));
            assert(self.slabs@[block].unused() =~= Seq::new(
                (entry_count(SIZE as int) - 2) as nat,
                |i: int| (i + 2) as u16,
            ));
            assert(token.token_address() == block + SIZE);
            assert(self.slabs@[block].allocated() == 1);
            assert(self.slabs@[block].next_slab() == 0);
            assert(self.partial_list == if entry_count(SIZE as int) > 2 {
                block
            } else {
                old(self).partial_list
            });
            if old(self).partial_slabs().len() > 0 {
                assert(old(self).linked_at(0));
            }
            assert(old(self).partial_slabs().len() == 0);
            assert forall|k: int| 0 <= k < self.partial_slabs().len() implies #[trigger] self.linked_at(k) by {
                assert(self.partial_slabs()[0] == block);
                assert(self.slabs@[block].unused().len() == entry_count(SIZE as int) - 2);
            }
            assert forall|a: usize| #[trigger]
                self.slabs().contains_key(a) && !self.partial_slabs().contains(a) implies self.slabs()[a].next_slab()
                == 0 && self.slabs()[a].previous_slab() == 0 by {
                if a != block {
                    assert(old(self).slabs().contains_key(a));
                    assert(!old(self).partial_slabs().contains(a));
                }
            }
        }
        token
    }

    /// Takes back the entry of `token`, handed out from the slab whose
    /// block holds it. A slab that becomes empty leaves the chain (its
    /// neighbours are linked to each other, or its next one starts the
    /// partial list) and its block is handed back; a slab that was full
    /// starts the partial list again.
    pub fn free_small_const(&mut self, token: AllocatedMemoryToken) -> (r: Option<AllocatedMemoryToken>)
        requires
            old(self).wf(),
            token.token_size() == SIZE,
            old(self).slabs().contains_key(slab_of(token.token_address() as int) as usize),
            ({
                let block = slab_of(token.token_address() as int) as usize;
                let slab = old(self).slabs()[block];
                let index = entry_of(token.token_address() as int, SIZE as int);
                let previous = slab.previous_slab();
                let next = slab.next_slab();
                &&& (token.token_address() - block) % (SIZE as int) == 0
                &&& 0 < index < entry_count(SIZE as int)
                &&& !slab.unused().contains(index as u16)
            }),
        ensures
            final(self).wf(),
            ({
                let block = slab_of(token.token_address() as int) as usize;
                let slab = old(self).slabs()[block];
                let index = entry_of(token.token_address() as int, SIZE as int) as u16;
                let previous = slab.previous_slab();
                let next = slab.next_slab();
                let head = old(self).partial();
                if slab.allocated() == 1 {
                    &&& r matches Some(allocation) && allocation.token_address() == block
                        && allocation.token_size() == BLOCK_SIZE
                    &&& final(self).slabs().dom() == old(self).slabs().dom().remove(block)
                    &&& forall|a: usize| #[trigger]
                        final(self).slabs().contains_key(a) && a != previous && a != next
                            ==> final(self).slabs()[a] == old(self).slabs()[a]
                    &&& previous != 0 && next != 0 ==> {
                        &&& same_entries(old(self).slabs()[previous], final(self).slabs()[previous])
                        &&& final(self).slabs()[previous].next_slab() == next
                        &&& final(self).slabs()[previous].previous_slab() == old(self).slabs()[previous].previous_slab()
                        &&& same_entries(old(self).slabs()[next], final(self).slabs()[next])
                        &&& final(self).slabs()[next].previous_slab() == previous
                        &&& final(self).slabs()[next].next_slab() == old(self).slabs()[next].next_slab()
                    }
                    &&& previous != 0 && next == 0 ==> {
                        &&& same_entries(old(self).slabs()[previous], final(self).slabs()[previous])
                        &&& final(self).slabs()[previous].next_slab() == 0
                        &&& final(self).slabs()[previous].previous_slab() == old(self).slabs()[previous].previous_slab()
                    }
                    &&& previous == 0 && next != 0 ==> {
                        &&& same_entries(old(self).slabs()[next], final(self).slabs()[next])
                        &&& final(self).slabs()[next].previous_slab() == 0
                        &&& final(self).slabs()[next].next_slab() == old(self).slabs()[next].next_slab()
                    }
                    &&& final(self).partial() == if head == block {
                        next
                    } else {
                        head
                    }
                    // No slab is left linked to the block handed back.
                    &&& forall|a: usize| #[trigger]
                        final(self).slabs().contains_key(a) ==> final(self).slabs()[a].next_slab() != block
                            && final(self).slabs()[a].previous_slab() != block
                    &&& final(self).partial_slabs() == if old(self).partial_slabs().contains(block) {
                        old(self).partial_slabs().remove(old(self).partial_slabs().index_of(block))
                    } else {
                        old(self).partial_slabs()
                    }
                } else {
                    let after = final(self).slabs()[block];
                    &&& r is None
                    &&& final(self).slabs().dom() == old(self).slabs().dom()
                    &&& after.wf()
                    &&& after.block_address() == block
                    &&& after.unused() == seq![index] + slab.unused()
                    &&& after.allocated() == slab.allocated() - 1
                    &&& after.previous_slab() == previous
                    &&& final(self).partial_slabs() == if slab.unused().len() == 0 {
                        seq![block] + old(self).partial_slabs()
                    } else {
                        old(self).partial_slabs()
                    }
                    &&& if slab.unused().len() == 0 {
                        // It was full: it starts the partial list again.
                        &&& final(self).partial() == block
                        &&& after.next_slab() == if head != 0 {
                            head
                        } else {
                            next
                        }
                        &&& head != 0 ==> {
                            &&& same_entries(old(self).slabs()[head], final(self).slabs()[head])
                            &&& final(self).slabs()[head].previous_slab() == block
                            &&& final(self).slabs()[head].next_slab() == old(self).slabs()[head].next_slab()
                        }
                        &&& forall|a: usize| #[trigger]
                            final(self).slabs().contains_key(a) && a != block && a != head
                                ==> final(self).slabs()[a] == old(self).slabs()[a]
                    } else {
                        &&& final(self).partial() == head
                        &&& after.next_slab() == next
                        &&& forall|a: usize| #[trigger]
                            final(self).slabs().contains_key(a) && a != block ==> final(self).slabs()[a] == old(self).slabs()[a]
                    }
                }
            }),
    {
        broadcast use vstd::std_specs::hash::group_hash_axioms;

        let address = token.address();
        // The slab is found by aligning the token's address down to a block boundary.
        let block = address - address % BLOCK_SIZE;
        let mut slab = match self.slabs.remove(&block) {
            Some(slab) => slab,
            None => vstd::pervasive::unreached(),
        };
        let ghost old_slab = slab;
        let ghost list = self.list@;
        let ghost in_list = list.contains(block);
        let ghost kb = list.index_of(block);
        proof {
            if in_list {
                assert(old(self).linked_at(kb));
                if kb > 0 {
                    assert(old(self).linked_at(kb - 1));
                }
                if kb + 1 < list.len() {
                    assert(old(self).linked_at(kb + 1));
                }
            } else {
                assert(old(self).slabs().contains_key(block));
            }
            if list.len() > 0 {
                assert(old(self).linked_at(0));
            }
        }
        let was_full = slab.is_full();
        slab.free(token);
        let is_empty = slab.is_empty();
        if is_empty {
            // Remove it from the chain.
            let previous = slab.take_previous();
            let next = slab.take_next();
            match (previous, next) {
                (Some(previous), Some(next)) => {
                    let mut previous_slab = match self.slabs.remove(&previous) {
                        Some(s) => s,
                        None => vstd::pervasive::unreached(),
                    };
                    let mut next_slab = match self.slabs.remove(&next) {
                        Some(s) => s,
                        None => vstd::pervasive::unreached(),
                    };
                    previous_slab.set_next(&mut next_slab);
                    self.slabs.insert(previous, previous_slab);
                    self.slabs.insert(next, next_slab);
                },
                (Some(previous), None) => {
                    let mut previous_slab = match self.slabs.remove(&previous) {
                        Some(s) => s,
                        None => vstd::pervasive::unreached(),
                    };
                    let _ = previous_slab.take_next();
                    self.slabs.insert(previous, previous_slab);
                },
                (None, Some(next)) => {
                    let mut next_slab = match self.slabs.remove(&next) {
                        Some(s) => s,
                        None => vstd::pervasive::unreached(),
                    };
                    let _ = next_slab.take_previous();
                    self.slabs.insert(next, next_slab);
                    if self.partial_list == block {
                        self.partial_list = next;
                    }
                },
                (None, None) => {
                    if self.partial_list == block {
                        self.partial_list = 0;
                    }
                },
            }
            self.list = Ghost(if in_list { list.remove(kb) } else { list });
            proof {
                let after = self.partial_slabs();
                assert forall|a: usize| #[trigger]
                    self.slabs@.contains_key(a) implies self.slabs@[a].wf() && self.slabs@[a].block_address() == a
                    && a != 0 by {
                    assert(old(self).slabs@.contains_key(a));
                }
                if in_list {
                    assert(after.len() == list.len() - 1);
                    assert forall|k: int| 0 <= k < after.len() implies after[k] == if k < kb {
                        list[k]
                    } else {
                        list[k + 1]
                    } by {}
                    assert forall|i: int, j: int| 0 <= i < j < after.len() implies after[i] != after[j] by {
                        let ii = if i < kb { i } else { i + 1 };
                        let jj = if j < kb { j } else { j + 1 };
                        assert(list[ii] != list[jj]);
                    }
                    assert forall|k: int| 0 <= k < after.len() implies #[trigger] self.linked_at(k) by {
                        let kk = if k < kb { k } else { k + 1 };
                        assert(old(self).linked_at(kk));
                        assert(list[kk] != block);
                        if k > 0 {
                            let pk = if k - 1 < kb { k - 1 } else { k };
                            assert(after[k - 1] == list[pk]);
                        }
                        if k + 1 < after.len() {
                            let nk = if k + 1 < kb { k + 1 } else { k + 2 };
                            assert(after[k + 1] == list[nk]);
                        }
                    }
                    assert forall|a: usize| #[trigger]
                        self.slabs().contains_key(a) && !after.contains(a) implies self.slabs()[a].next_slab() == 0
                        && self.slabs()[a].previous_slab() == 0 by {
                        assert(old(self).slabs().contains_key(a));
                        if list.contains(a) {
                            let k = choose|k: int| 0 <= k < list.len() && list[k] == a;
                            if k != kb {
                                let kk = if k < kb { k } else { k - 1 };
                                assert(after[kk] == a);
                            }
                        }
                    }
                    if after.len() > 0 {
                        assert(self.linked_at(0));
                    }
                } else {
                    assert forall|k: int| 0 <= k < after.len() implies #[trigger] self.linked_at(k) by {
                        assert(old(self).linked_at(k));
                        assert(list[k] != block);
                    }
                    assert forall|a: usize| #[trigger]
                        self.slabs().contains_key(a) && !after.contains(a) implies self.slabs()[a].next_slab() == 0
                        && self.slabs()[a].previous_slab() == 0 by {
                        assert(old(self).slabs().contains_key(a));
                    }
                }
            }
            proof {
                let after = self.partial_slabs();
                assert(!self.slabs().contains_key(block));
                assert forall|a: usize| #[trigger] self.slabs().contains_key(a) implies self.slabs()[a].next_slab()
                    != block && self.slabs()[a].previous_slab() != block by {
                    if after.contains(a) {
                        let k = choose|k: int| 0 <= k < after.len() && after[k] == a;
                        assert(self.linked_at(k));
                        if k + 1 < after.len() {
                            assert(self.linked_at(k + 1));
                        }
                        if k > 0 {
                            assert(self.linked_at(k - 1));
                        }
                    }
                }
            }
            match slab.try_into_allocation() {
                Ok(allocation) => Some(allocation),
                Err(_) => vstd::pervasive::unreached(),
            }
        } else if was_full {
            // Back on the partial list, in front.
            if self.partial_list != 0 {
                let head = self.partial_list;
                self.partial_list = 0;
                let mut head_slab = match self.slabs.remove(&head) {
                    Some(s) => s,
                    None => vstd::pervasive::unreached(),
                };
                slab.set_next(&mut head_slab);
                self.slabs.insert(head, head_slab);
            }
            self.partial_list = block;
            self.slabs.insert(block, slab);
            self.list = Ghost(Seq::empty().push(block) + list);
            proof {
                let after = self.partial_slabs();
                assert(after =~= seq![block] + list);
                assert(!list.contains(block));
                assert forall|a: usize| #[trigger]
                    self.slabs@.contains_key(a) implies self.slabs@[a].wf() && self.slabs@[a].block_address() == a
                    && a != 0 by {
                    if a != block {
                        assert(old(self).slabs@.contains_key(a));
                    }
                }
                assert forall|k: int| 0 < k < after.len() implies after[k] == list[k - 1] by {}
                assert forall|i: int, j: int| 0 <= i < j < after.len() implies after[i] != after[j] by {
                    if i > 0 {
                        assert(list[i - 1] != list[j - 1]);
                    } else {
                        assert(list.contains(list[j - 1]));
                    }
                }
                assert forall|k: int| 0 <= k < after.len() implies #[trigger] self.linked_at(k) by {
                    if k > 0 {
                        assert(old(self).linked_at(k - 1));
                        assert(list[k - 1] != block);
                    }
                }
                assert forall|a: usize| #[trigger]
                    self.slabs().contains_key(a) && !after.contains(a) implies self.slabs()[a].next_slab() == 0
                    && self.slabs()[a].previous_slab() == 0 by {
                    if a == block {
                        assert(after[0] == block);
                    } else {
                        assert(old(self).slabs().contains_key(a));
                        if list.contains(a) {
                            let k = choose|k: int| 0 <= k < list.len() && list[k] == a;
                            assert(after[k + 1] == a);
                        }
                    }
                }
            }
            None
        } else {
            self.slabs.insert(block, slab);
            proof {
                assert forall|k: int| 0 <= k < self.partial_slabs().len() implies #[trigger] self.linked_at(k) by {
                    assert(old(self).linked_at(k));
                }
                assert forall|a: usize| #[trigger]
                    self.slabs().contains_key(a) && !self.partial_slabs().contains(a) implies self.slabs()[a].next_slab()
                    == 0 && self.slabs()[a].previous_slab() == 0 by {
                    assert(old(self).slabs().contains_key(a));
                }
            }
            None
        }
    }
}

} // verus!
