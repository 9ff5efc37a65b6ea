//! Tokens that stand for the ownership of a range of memory.
use vstd::prelude::*;

verus! {

/// A token for a range of memory: its start address and its size in bytes.
///
/// Ownership of a token stands for unique ownership of the range it names.
/// Zero-sized ranges are valid and impose nothing.
pub trait MemoryToken: Sized {
    /// The start of the range.
    spec fn token_address(&self) -> usize;

    /// The size of the range.
    spec fn token_size(&self) -> usize;

    /// A token for `size` bytes at `start`; the caller must own that range.
    fn new(start: usize, size: usize) -> (r: Self)
        ensures
            r.token_address() == start,
            r.token_size() == size,
    ;

    fn address(&self) -> (r: usize)
        ensures
            r == self.token_address(),
    ;

    fn size(&self) -> (r: usize)
        ensures
            r == self.token_size(),
    ;

    /// An empty token at `address`.
    fn empty(address: usize) -> (r: Self)
        ensures
            r.token_address() == address,
            r.token_size() == 0,
    {
        Self::new(address, 0)
    }

    /// Returns `self`, replacing `self` with an empty token at the same address.
    fn take(&mut self) -> (r: Self)
        ensures
            r == *old(self),
            final(self).token_address() == old(self).token_address(),
            final(self).token_size() == 0,
    {
        let address = self.address();
        let mut taken = Self::empty(address);
        core::mem::swap(self, &mut taken);
        taken
    }

    /// Splits the range into its first `split_at` bytes and the rest.
    fn split_at(self, split_at: usize) -> (r: (Self, Self))
        requires
            split_at <= self.token_size(),
            self.token_address() + split_at <= usize::MAX,
        ensures
            r.0.token_address() == self.token_address(),
            r.0.token_size() == split_at,
            r.1.token_address() == self.token_address() + split_at,
            r.1.token_size() == self.token_size() - split_at,
    {
        let first = Self::new(self.address(), split_at);
        let second = Self::new(self.address() + split_at, self.size() - split_at);
        (first, second)
    }

    /// An iterator over consecutive pieces of `chunk_size` bytes (the last
    /// one possibly shorter).
    fn chunks(self, chunk_size: usize) -> (r: MemoryTokenChunks<Self>)
        ensures
            r.remaining() == self,
            r.chunk_size() == chunk_size,
    {
        MemoryTokenChunks { remaining_token: self, chunk_size }
    }

    /// Joins two contiguous ranges.
    fn merge(self, other: Self) -> (r: Self)
        requires
            self.token_address() + self.token_size() == other.token_address(),
            self.token_size() + other.token_size() <= usize::MAX,
        ensures
            r.token_address() == self.token_address(),
            r.token_size() == self.token_size() + other.token_size(),
    {
        Self::new(self.address(), self.size() + other.size())
    }

    /// A view of `size` bytes at `offset` within the range, which cannot
    /// outlive `self`; the view is a token of the same kind.
    fn view(&self, offset: usize, size: usize) -> (r: MemoryTokenView<'_, Self, Self>)
        requires
            offset + size <= self.token_size(),
            self.token_address() + offset <= usize::MAX,
        ensures
            r.token() == self,
            r.view_token().token_address() == self.token_address() + offset,
            r.view_token().token_size() == size,
    {
        let view = Self::new(self.address() + offset, size);
        MemoryTokenView { token: self, view }
    }
}

/// An iterator over chunks of a `MemoryToken`.
pub struct MemoryTokenChunks<Token> {
    remaining_token: Token,
    chunk_size: usize,
}

impl<Token> MemoryTokenChunks<Token> {
    /// The part of the range not yet handed out.
    pub closed spec fn remaining(&self) -> Token {
        self.remaining_token
    }

    /// The size of each chunk.
    pub closed spec fn chunk_size(&self) -> usize {
        self.chunk_size
    }
}

impl<Token: MemoryToken> MemoryTokenChunks<Token> {
    /// The next chunk: the first `min(chunk_size, remaining size)` bytes of
    /// what remains, or `None` once nothing remains.
    pub fn next(&mut self) -> (r: Option<Token>)
        requires
            old(self).remaining().token_address() + old(self).remaining().token_size() <= usize::MAX,
        ensures
            final(self).chunk_size() == old(self).chunk_size(),
            final(self).remaining().token_address() + final(self).remaining().token_size()
                <= usize::MAX,
            old(self).remaining().token_size() == 0 ==> r is None && *final(self) == *old(self),
            old(self).remaining().token_size() > 0 ==> {
                let n = if old(self).chunk_size() < old(self).remaining().token_size() {
                    old(self).chunk_size()
                } else {
                    old(self).remaining().token_size()
                };
                &&& r is Some
                &&& r->0.token_address() == old(self).remaining().token_address()
                &&& r->0.token_size() == n
                &&& final(self).remaining().token_address() == old(self).remaining().token_address() + n
                &&& final(self).remaining().token_size() == old(self).remaining().token_size() - n
            },
    {
        if self.remaining_token.size() == 0 {
            return None;
        }
        let remaining_size = self.remaining_token.size();
        let chunk_size = if self.chunk_size < remaining_size {
            self.chunk_size
        } else {
            remaining_size
        };
        let remaining_token = self.remaining_token.take();
        let (chunk, remaining) = remaining_token.split_at(chunk_size);
        self.remaining_token = remaining;
        Some(chunk)
    }

    /// The exact number of chunks left, as a lower and an upper bound.
    pub fn size_hint(&self) -> (r: (usize, Option<usize>))
        requires
            self.chunk_size() > 0,
        ensures
            r.0 == chunk_count(self.remaining().token_size() as nat, self.chunk_size() as nat),
            r.1 == Some(r.0),
    {
        let remaining_size = self.remaining_token.size();
        let cs = self.chunk_size;
        assert(remaining_size % cs != 0 ==> remaining_size / cs < usize::MAX) by (nonlinear_arith)
            requires
                cs > 0,
                remaining_size <= usize::MAX,
        {
            if remaining_size % cs != 0 {
                assert(cs >= 2);
                assert(remaining_size / cs <= remaining_size / 2);
            }
        }
        let num_chunks = remaining_size / self.chunk_size + if remaining_size % self.chunk_size
            != 0 {
            1usize
        } else {
            0usize
        };
        (num_chunks, Some(num_chunks))
    }
}

/// The number of chunks of `chunk_size` bytes that cover `size` bytes.
pub open spec fn chunk_count(size: nat, chunk_size: nat) -> nat
    recommends
        chunk_size > 0,
{
    if size % chunk_size == 0 {
        size / chunk_size
    } else {
        size / chunk_size + 1
    }
}

/// A view into a memory region represented by a `MemoryToken`, which cannot
/// outlive the original token.
pub struct MemoryTokenView<'a, Token, ViewToken> {
    token: &'a Token,
    view: ViewToken,
}

impl<'a, Token, ViewToken> MemoryTokenView<'a, Token, ViewToken> {
    /// The token the view was taken from.
    pub closed spec fn token(&self) -> &'a Token {
        self.token
    }

    /// The token of the viewed part.
    pub closed spec fn view_token(&self) -> ViewToken {
        self.view
    }
}

impl<'a, Token: MemoryToken, ViewToken: MemoryToken> MemoryTokenView<'a, Token, ViewToken> {
    /// The viewed part.
    pub fn get(&self) -> (r: &ViewToken)
        ensures
            *r == self.view_token(),
    {
        &self.view
    }

    /// The start of the viewed part.
    pub fn address(&self) -> (r: usize)
        ensures
            r == self.view_token().token_address(),
    {
        self.view.address()
    }

    /// The size of the viewed part.
    pub fn size(&self) -> (r: usize)
        ensures
            r == self.view_token().token_size(),
    {
        self.view.size()
    }
}

/// Represents ownership of an unused block of physical memory.
pub struct PhysicalMemoryToken {
    start: usize,
    size: usize,
}

impl MemoryToken for PhysicalMemoryToken {
    closed spec fn token_address(&self) -> usize {
        self.start
    }

    closed spec fn token_size(&self) -> usize {
        self.size
    }

    fn new(start: usize, size: usize) -> (r: Self) {
        PhysicalMemoryToken { start, size }
    }

    fn address(&self) -> (r: usize) {
        self.start
    }

    fn size(&self) -> (r: usize) {
        self.size
    }
}

/// Represents ownership of an unallocated block of virtual memory.
pub struct VirtualMemoryToken {
    start: usize,
    size: usize,
}

impl MemoryToken for VirtualMemoryToken {
    closed spec fn token_address(&self) -> usize {
        self.start
    }

    closed spec fn token_size(&self) -> usize {
        self.size
    }

    fn new(start: usize, size: usize) -> (r: Self) {
        VirtualMemoryToken { start, size }
    }

    fn address(&self) -> (r: usize) {
        self.start
    }

    fn size(&self) -> (r: usize) {
        self.size
    }
}

/// Represents ownership of an allocated block of normal memory.
pub struct AllocatedMemoryToken {
    start: usize,
    size: usize,
}

impl AllocatedMemoryToken {
    /// The start address, giving up the token.
    pub fn into_ptr(self) -> (r: usize)
        ensures
            r == self.token_address(),
    {
        self.start
    }
}

impl MemoryToken for AllocatedMemoryToken {
    closed spec fn token_address(&self) -> usize {
        self.start
    }

    closed spec fn token_size(&self) -> usize {
        self.size
    }

    fn new(start: usize, size: usize) -> (r: Self) {
        AllocatedMemoryToken { start, size }
    }

    fn address(&self) -> (r: usize) {
        self.start
    }

    fn size(&self) -> (r: usize) {
        self.size
    }
}

/// Splitting a token and merging the two pieces gives back its range: the
/// pieces are contiguous, so they may be merged, and together they span the
/// original address and size.
pub proof fn law_split_then_merge<T: MemoryToken>(token: T, split_at: int, first: T, second: T, merged: T)
    requires
        0 <= split_at <= token.token_size(),
        first.token_address() == token.token_address(),
        first.token_size() == split_at,
        second.token_address() == token.token_address() + split_at,
        second.token_size() == token.token_size() - split_at,
        merged.token_address() == first.token_address(),
        merged.token_size() == first.token_size() + second.token_size(),
    ensures
        first.token_address() + first.token_size() == second.token_address(),
        merged.token_address() == token.token_address(),
        merged.token_size() == token.token_size(),
{
}

/// What remains, as an address and a size, after one call of
/// `MemoryTokenChunks::next` on `address..address + size`.
pub open spec fn chunk_step(address: int, size: int, chunk_size: int) -> (int, int) {
    if size == 0 {
        (address, size)
    } else {
        let n = if chunk_size < size {
            chunk_size
        } else {
            size
        };
        (address + n, size - n)
    }
}

/// What remains after `j` calls of `next`.
pub open spec fn remaining_after(address: int, size: int, chunk_size: int, j: nat) -> (int, int)
    decreases j,
{
    if j == 0 {
        (address, size)
    } else {
        let (a, s) = remaining_after(address, size, chunk_size, (j - 1) as nat);
        chunk_step(a, s, chunk_size)
    }
}

/// The bytes taken by the first `j` chunks.
pub open spec fn taken(size: int, chunk_size: int, j: nat) -> int {
    if j * chunk_size < size {
        j * chunk_size
    } else {
        size
    }
}

proof fn lemma_remaining_after(address: int, size: int, chunk_size: int, j: nat)
    requires
        chunk_size > 0,
        size >= 0,
    ensures
        remaining_after(address, size, chunk_size, j) == (
            address + taken(size, chunk_size, j),
            size - taken(size, chunk_size, j),
        ),
    decreases j,
{
    if j > 0 {
        lemma_remaining_after(address, size, chunk_size, (j - 1) as nat);
        assert((j - 1) * chunk_size + chunk_size == j * chunk_size) by (nonlinear_arith);
    }
}

/// Taking chunks of `chunk_size` bytes tiles a token: the `j`-th chunk
/// starts `j * chunk_size` bytes in and is `chunk_size` bytes long, or what
/// is left when that is less; there are `chunk_count` of them, after which
/// nothing remains and `next` gives `None`.
pub proof fn law_chunks_tile(address: int, size: int, chunk_size: int)
    requires
        chunk_size > 0,
        size >= 0,
    ensures
        forall|j: nat|
            #[trigger] remaining_after(address, size, chunk_size, j) == (
                address + taken(size, chunk_size, j),
                size - taken(size, chunk_size, j),
            ),
        forall|j: nat|
            j < chunk_count(size as nat, chunk_size as nat) ==> {
                let (a, s) = #[trigger] remaining_after(address, size, chunk_size, j);
                &&& a == address + j * chunk_size
                &&& s > 0
                &&& chunk_step(a, s, chunk_size).0 - a == if chunk_size < s {
                    chunk_size
                } else {
                    s
                }
            },
        remaining_after(address, size, chunk_size, chunk_count(size as nat, chunk_size as nat)).1 == 0,
{
    assert forall|j: nat| #[trigger] remaining_after(address, size, chunk_size, j) == (
        address + taken(size, chunk_size, j),
        size - taken(size, chunk_size, j),
    ) by {
        lemma_remaining_after(address, size, chunk_size, j);
    }
    let count = chunk_count(size as nat, chunk_size as nat);
    assert(count * chunk_size >= size) by (nonlinear_arith)
        requires
            chunk_size > 0,
            size >= 0,
            count == (if size % chunk_size == 0 {
                size / chunk_size
            } else {
                size / chunk_size + 1
            }),
    ;
    assert forall|j: nat| j < count implies {
        let (a, s) = #[trigger] remaining_after(address, size, chunk_size, j);
        &&& a == address + j * chunk_size
        &&& s > 0
        &&& chunk_step(a, s, chunk_size).0 - a == if chunk_size < s {
            chunk_size
        } else {
            s
        }
    } by {
        lemma_remaining_after(address, size, chunk_size, j);
        assert(j * chunk_size < size) by (nonlinear_arith)
            requires
                chunk_size > 0,
                size >= 0,
                j < count,
                count == (if size % chunk_size == 0 {
                    size / chunk_size
                } else {
                    size / chunk_size + 1
                }),
        ;
    }
    lemma_remaining_after(address, size, chunk_size, count);
}

/// Call `i` of a run of `MemoryTokenChunks::next`, as its contract states
/// it: something remains, and the call gives the first `chunk_size` bytes
/// of it, or all of it when less remains.
pub open spec fn chunk_call(
    chunk_size: int,
    addresses: Seq<int>,
    sizes: Seq<int>,
    chunk_addresses: Seq<int>,
    chunk_sizes: Seq<int>,
    i: int,
) -> bool {
    let n = if chunk_size < sizes[i] {
        chunk_size
    } else {
        sizes[i]
    };
    &&& sizes[i] > 0
    &&& chunk_addresses[i] == addresses[i]
    &&& chunk_sizes[i] == n
    &&& addresses[i + 1] == addresses[i] + n
    &&& sizes[i + 1] == sizes[i] - n
}

/// A run of calls of `MemoryTokenChunks::next` that each give a chunk, as
/// its contract states them: before call `i` what remains starts at
/// `addresses[i]` and has `sizes[i]` bytes, and the call gives the chunk at
/// `chunk_addresses[i]` of `chunk_sizes[i]` bytes. The chunks are those of
/// the tiling: the `j`-th starts `j * chunk_size` bytes in and has
/// `chunk_size` bytes, or what is left when that is less; and when nothing
/// remains after the last, there were `chunk_count` of them.
pub proof fn law_chunk_calls_tile(
    chunk_size: int,
    addresses: Seq<int>,
    sizes: Seq<int>,
    chunk_addresses: Seq<int>,
    chunk_sizes: Seq<int>,
)
    requires
        chunk_size > 0,
        sizes[0] >= 0,
        addresses.len() == sizes.len(),
        addresses.len() == chunk_addresses.len() + 1,
        chunk_sizes.len() == chunk_addresses.len(),
        forall|i: int|
            0 <= i < chunk_addresses.len() ==> #[trigger] chunk_call(
                chunk_size,
                addresses,
                sizes,
                chunk_addresses,
                chunk_sizes,
                i,
            ),
    ensures
        forall|j: int|
            0 <= j < chunk_addresses.len() ==> #[trigger] chunk_addresses[j] == addresses[0] + j * chunk_size
                && chunk_sizes[j] == if chunk_size < sizes[0] - j * chunk_size {
                chunk_size
            } else {
                sizes[0] - j * chunk_size
            },
        sizes[chunk_addresses.len() as int] == 0 ==> chunk_addresses.len() == chunk_count(
            sizes[0] as nat,
            chunk_size as nat,
        ),
{
    let a = addresses[0];
    let n = sizes[0];
    law_chunks_tile(a, n, chunk_size);
    // What remains before each call is what `remaining_after` gives.
    assert forall|i: int| 0 <= i <= chunk_addresses.len() implies (addresses[i], sizes[i]) == #[trigger] remaining_after(
        a,
        n,
        chunk_size,
        i as nat,
    ) by {
        lemma_run_remaining(chunk_size, addresses, sizes, chunk_addresses, chunk_sizes, i);
    }
    assert forall|j: int| 0 <= j < chunk_addresses.len() implies #[trigger] chunk_addresses[j] == addresses[0] + j
        * chunk_size && chunk_sizes[j] == if chunk_size < sizes[0] - j * chunk_size {
        chunk_size
    } else {
        sizes[0] - j * chunk_size
    } by {
        assert((addresses[j], sizes[j]) == remaining_after(a, n, chunk_size, j as nat));
        assert(chunk_call(chunk_size, addresses, sizes, chunk_addresses, chunk_sizes, j));
        assert(j * chunk_size < n);
    }
    let m = chunk_addresses.len();
    if sizes[m as int] == 0 {
        lemma_run_remaining(chunk_size, addresses, sizes, chunk_addresses, chunk_sizes, m as int);
        let count = chunk_count(n as nat, chunk_size as nat);
        if m < count {
            assert(sizes[m as int] > 0);
        }
        if m > count {
            lemma_run_remaining(chunk_size, addresses, sizes, chunk_addresses, chunk_sizes, count as int);
            assert(chunk_call(chunk_size, addresses, sizes, chunk_addresses, chunk_sizes, count as int));
        }
    }
}

proof fn lemma_run_remaining(
    chunk_size: int,
    addresses: Seq<int>,
    sizes: Seq<int>,
    chunk_addresses: Seq<int>,
    chunk_sizes: Seq<int>,
    i: int,
)
    requires
        chunk_size > 0,
        addresses.len() == sizes.len(),
        addresses.len() == chunk_addresses.len() + 1,
        chunk_sizes.len() == chunk_addresses.len(),
        forall|i: int|
            0 <= i < chunk_addresses.len() ==> #[trigger] chunk_call(
                chunk_size,
                addresses,
                sizes,
                chunk_addresses,
                chunk_sizes,
                i,
            ),
        0 <= i <= chunk_addresses.len(),
    ensures
        (addresses[i], sizes[i]) == remaining_after(addresses[0], sizes[0], chunk_size, i as nat),
    decreases i,
{
    if i > 0 {
        lemma_run_remaining(chunk_size, addresses, sizes, chunk_addresses, chunk_sizes, i - 1);
        assert(chunk_call(chunk_size, addresses, sizes, chunk_addresses, chunk_sizes, i - 1));
    }
}

} // verus!
