//! Address alignment helpers and the power-of-two facts they rest on.
use vstd::prelude::*;
use vstd::arithmetic::power2::pow2;
use vstd::bits::{lemma_u64_low_bits_mask_is_mod, lemma_u64_shl_is_mul, lemma_u64_pow2_no_overflow, low_bits_mask};

verus! {

/// `n` is a power of two: exactly one bit is set.
pub open spec fn is_power_of_two(n: u64) -> bool {
    n > 0 && n & ((n - 1) as u64) == 0
}

/// The largest multiple of `alignment` that is at most `address`.
pub open spec fn align_down_spec(address: int, alignment: int) -> int {
    address - address % alignment
}

/// The smallest multiple of `alignment` that is at least `address`.
pub open spec fn align_up_spec(address: int, alignment: int) -> int {
    if address % alignment == 0 {
        address
    } else {
        address - address % alignment + alignment
    }
}

/// A power of two is `1 << k` for some `k < 64`.
pub proof fn lemma_power_of_two_exponent(a: u64) -> (k: u64)
    requires
        is_power_of_two(a),
    ensures
        k < 64,
        a == 1u64 << k,
    decreases a,
{
    if a == 1 {
        assert(1u64 == 1u64 << 0u64) by (bit_vector);
        0
    } else {
        let b = a >> 1u64;
        assert(b > 0 && b & ((b - 1) as u64) == 0 && b < a && b != 1u64 << 63u64 && a == b << 1u64)
            by (bit_vector)
            requires
                a > 1,
                a & ((a - 1) as u64) == 0,
                b == a >> 1u64,
        ;
        let j = lemma_power_of_two_exponent(b);
        assert(j < 63) by {
            if j == 63 {
                assert(b == 1u64 << 63u64);
            }
        }
        assert(a == 1u64 << ((j + 1) as u64)) by (bit_vector)
            requires
                j < 63,
                b == 1u64 << j,
                a == b << 1u64,
        ;
        (j + 1) as u64
    }
}

/// For a power of two `a`, masking with `a - 1` is the remainder modulo `a`.
pub proof fn lemma_mask_is_mod(x: u64, a: u64)
    requires
        is_power_of_two(a),
    ensures
        x & ((a - 1) as u64) == x % a,
        x & !((a - 1) as u64) == x - x % a,
{
    let k = lemma_power_of_two_exponent(a);
    lemma_u64_pow2_no_overflow(k as nat);
    lemma_u64_shl_is_mul(1, k);
    assert(a == pow2(k as nat));
    assert(low_bits_mask(k as nat) == a - 1);
    lemma_u64_low_bits_mask_is_mod(x, k as nat);
    assert(x & !((a - 1) as u64) == x - (x & ((a - 1) as u64))) by (bit_vector);
}

/// Rounds `address` down to `alignment`, by masking off the low bits.
pub fn align_address_down(address: usize, alignment: usize) -> (r: usize)
    requires
        alignment > 0,
    ensures
        r == address & !((alignment - 1) as usize),
        is_power_of_two(alignment as u64) ==> r == align_down_spec(address as int, alignment as int),
{
    let r = address & !(alignment - 1);
    proof {
        if is_power_of_two(alignment as u64) {
            let a = alignment as u64;
            let x = address as u64;
            lemma_mask_is_mod(x, a);
            assert(r as u64 == x & !((a - 1) as u64)) by (bit_vector)
                requires
                    r == address & !((alignment - 1) as usize),
                    x == address,
                    a == alignment,
                    alignment > 0,
            ;
        }
    }
    r
}

/// Rounds `address` up to `alignment`.
pub fn align_address_up(address: usize, alignment: usize) -> (r: usize)
    requires
        alignment > 0,
        address + alignment - 1 <= usize::MAX,
    ensures
        r == ((address + alignment - 1) as usize) & !((alignment - 1) as usize),
        is_power_of_two(alignment as u64) ==> r == align_up_spec(address as int, alignment as int),
{
    let s = address + (alignment - 1);
    let r = s & !(alignment - 1);
    proof {
        if is_power_of_two(alignment as u64) {
            let a = alignment as u64;
            let y = s as u64;
            lemma_mask_is_mod(y, a);
            assert(r as u64 == y & !((a - 1) as u64)) by (bit_vector)
                requires
                    r == s & !((alignment - 1) as usize),
                    y == s,
                    a == alignment,
                    alignment > 0,
            ;
            let m = (address as int) % (a as int);
            assert(r == s as int - (s as int) % (a as int));
            if m == 0 {
                vstd::arithmetic::div_mod::lemma_mod_add_multiples_vanish(0, a as int);
                assert((address as int + (a - 1)) % (a as int) == a - 1) by {
                    vstd::arithmetic::div_mod::lemma_fundamental_div_mod(address as int, a as int);
                    vstd::arithmetic::div_mod::lemma_mod_multiples_vanish(address as int / a as int, a - 1, a as int);
                    vstd::arithmetic::div_mod::lemma_small_mod((a - 1) as nat, a as nat);
                    vstd::arithmetic::mul::lemma_mul_is_commutative(a as int, address as int / a as int);
                };
            } else {
                assert((address as int + (a - 1)) % (a as int) == m - 1) by {
                    vstd::arithmetic::div_mod::lemma_fundamental_div_mod(address as int, a as int);
                    let q = address as int / a as int;
                    assert(address as int + (a - 1) == a * (q + 1) + (m - 1)) by (nonlinear_arith)
                        requires address as int == a * q + m;
                    vstd::arithmetic::mul::lemma_mul_is_commutative(a as int, q + 1);
                    vstd::arithmetic::div_mod::lemma_mod_multiples_vanish(q + 1, m - 1, a as int);
                    vstd::arithmetic::div_mod::lemma_small_mod((m - 1) as nat, a as nat);
                };
            }
        }
    }
    r
}

/// Types whose instances, when read from memory, can be checked to be
/// instances of the right type.
pub trait Validateable {
    /// The instance is a valid one. (Types that leave this out, such as
    /// those of unverified users, are taken as valid.)
    closed spec fn valid(&self) -> bool {
        true
    }

    fn validate(&self) -> (r: bool)
        ensures
            r == self.valid(),
    ;
}

/// Types with a field that says how large the structure is, as in tables
/// whose entries have different types and sizes.
pub trait DynamicallySized {
    /// The size the instance gives itself. (Types that leave this out,
    /// such as those of unverified users, say nothing of their size.)
    closed spec fn dynamic_size(&self) -> nat {
        arbitrary()
    }

    fn size(&self) -> (r: usize)
        ensures
            r == self.dynamic_size(),
    ;

    /// The bound to which offsets are aligned in a buffer when they move on,
    /// for sizes that do not count padding.
    const ALIGNMENT: usize = 1;
}

/// Types that can be read from the start of a byte buffer.
pub trait FromBytes: Sized {
    /// The instance at the start of `bytes`, if there is one. (Types that
    /// leave this out, such as those of unverified users, say nothing of it.)
    closed spec fn parsed(bytes: Seq<u8>) -> Option<Self> {
        arbitrary()
    }

    fn from_bytes(bytes: &[u8]) -> (r: Option<Self>)
        ensures
            r == Self::parsed(bytes@),
    ;
}

/// The valid instance at the start of `bytes`.
pub open spec fn reinterpreted<T: Validateable + FromBytes>(bytes: Seq<u8>) -> Option<T> {
    match T::parsed(bytes) {
        Some(v) => if v.valid() {
            Some(v)
        } else {
            None
        },
        None => None,
    }
}

/// Reads an instance from the start of `memory`, if there is a valid one.
pub fn reinterpret_memory<T: Validateable + FromBytes>(memory: &[u8]) -> (r: Option<T>)
    ensures
        r == reinterpreted::<T>(memory@),
{
    match T::from_bytes(memory) {
        Some(value) => if value.validate() {
            Some(value)
        } else {
            None
        },
        None => None,
    }
}

/// An item of a buffer of dynamically-sized structures: the structure and
/// the memory it spans.
pub struct DynamicallySizedItem<'lifetime, T> {
    pub value: T,
    pub value_memory: &'lifetime [u8],
}

/// Walks a buffer of dynamically-sized structures, each starting where the
/// previous one ends, rounded up to the type's alignment.
pub struct DynamicallySizedObjectIterator<'lifetime, T> {
    total_memory: &'lifetime [u8],
    current_offset: usize,
    _phantom: core::marker::PhantomData<T>,
}

impl<'lifetime, T> DynamicallySizedObjectIterator<'lifetime, T> {
    /// The buffer.
    pub closed spec fn memory(&self) -> Seq<u8> {
        self.total_memory@
    }

    /// Where the next structure starts.
    pub closed spec fn offset(&self) -> usize {
        self.current_offset
    }
}

/// Where the walk goes on after a structure of `size` bytes at `offset`.
pub open spec fn next_offset(offset: int, size: int, alignment: int) -> int {
    align_up_spec(offset + size, alignment)
}

/// What the walk yields at `offset` of `memory`: the valid structure there
/// and its size, if it fits in what remains.
pub open spec fn item_at<T: Validateable + FromBytes + DynamicallySized>(memory: Seq<u8>, offset: int) -> Option<(T, nat)> {
    if offset >= memory.len() {
        None
    } else {
        match reinterpreted::<T>(memory.subrange(offset, memory.len() as int)) {
            Some(v) => if v.dynamic_size() <= memory.len() - offset {
                Some((v, v.dynamic_size()))
            } else {
                None
            },
            None => None,
        }
    }
}

impl<'lifetime, T: DynamicallySized + Validateable + FromBytes> DynamicallySizedObjectIterator<'lifetime, T> {
    /// A walk from the start of `memory`.
    pub fn new(memory: &'lifetime [u8]) -> (r: Self)
        ensures
            r.memory() == memory@,
            r.offset() == 0,
    {
        Self { total_memory: memory, current_offset: 0, _phantom: core::marker::PhantomData }
    }

    /// The structure at the current offset, moving past it; `None` (and no
    /// move) when the offset is past the end, the memory there holds no
    /// valid structure or the structure does not fit.
    pub fn next(&mut self) -> (r: Option<DynamicallySizedItem<'lifetime, T>>)
        requires
            is_power_of_two(T::ALIGNMENT as u64),
            old(self).memory().len() + T::ALIGNMENT <= usize::MAX,
        ensures
            final(self).memory() == old(self).memory(),
            match item_at::<T>(old(self).memory(), old(self).offset() as int) {
                None => r is None && final(self).offset() == old(self).offset(),
                Some((v, size)) => {
                    &&& r matches Some(item)
                    &&& item.value == v
                    &&& item.value_memory@ == old(self).memory().subrange(
                        old(self).offset() as int,
                        old(self).offset() + size,
                    )
                    &&& final(self).offset() == next_offset(
                        old(self).offset() as int,
                        size as int,
                        T::ALIGNMENT as int,
                    )
                },
            },
    {
        if self.current_offset >= self.total_memory.len() {
            return None;
        }
        let value_memory = &self.total_memory[self.current_offset..self.total_memory.len()];
        let optional_value: Option<T> = reinterpret_memory(value_memory);
        let value = match optional_value {
            Some(value) => value,
            None => return None,
        };
        let size = value.size();
        if size > self.total_memory.len() - self.current_offset {
            return None;
        }
        let value_memory = &value_memory[0..size];
        assert(value_memory@ == self.total_memory@.subrange(self.current_offset as int, self.current_offset + size));
        self.current_offset = self.current_offset + size;
        // Align current_offset up to the correct boundary.
        self.current_offset = align_address_up(self.current_offset, T::ALIGNMENT);
        Some(DynamicallySizedItem { value, value_memory })
    }

    /// Where the next structure starts.
    pub fn position(&self) -> (r: usize)
        ensures
            r == self.offset(),
    {
        self.current_offset
    }

    /// What `next` would give, without moving.
    pub fn peek(&self) -> (r: Option<DynamicallySizedItem<'lifetime, T>>)
        requires
            is_power_of_two(T::ALIGNMENT as u64),
            self.memory().len() + T::ALIGNMENT <= usize::MAX,
        ensures
            match item_at::<T>(self.memory(), self.offset() as int) {
                None => r is None,
                Some((v, size)) => {
                    &&& r matches Some(item)
                    &&& item.value == v
                    &&& item.value_memory@ == self.memory().subrange(self.offset() as int, self.offset() + size)
                },
            },
    {
        let mut walk = Self { total_memory: self.total_memory, current_offset: self.current_offset, _phantom: core::marker::PhantomData };
        walk.next()
    }
}

/// Rounding to an alignment gives the nearest multiple of it on its side:
/// rounding down gives a multiple of `alignment` at most `address` and less
/// than `alignment` below it; rounding up gives a multiple at least
/// `address` and less than `alignment` above it, `address` itself when it
/// is aligned.
pub proof fn law_alignment_rounds_to_nearest_multiple(address: int, alignment: int)
    requires
        0 <= address,
        0 < alignment,
    ensures
        align_down_spec(address, alignment) % alignment == 0,
        align_down_spec(address, alignment) <= address < align_down_spec(address, alignment) + alignment,
        align_up_spec(address, alignment) % alignment == 0,
        address <= align_up_spec(address, alignment) < address + alignment,
        address % alignment == 0 ==> align_up_spec(address, alignment) == address && align_down_spec(
            address,
            alignment,
        ) == address,
{
    let q = address / alignment;
    vstd::arithmetic::div_mod::lemma_fundamental_div_mod(address, alignment);
    vstd::arithmetic::div_mod::lemma_mod_pos_bound(address, alignment);
    vstd::arithmetic::mul::lemma_mul_is_commutative(alignment, q);
    vstd::arithmetic::div_mod::lemma_mod_multiples_basic(q, alignment);
    vstd::arithmetic::mul::lemma_mul_is_distributive_add_other_way(alignment, q, 1);
    vstd::arithmetic::div_mod::lemma_mod_multiples_basic(q + 1, alignment);
    assert(align_down_spec(address, alignment) == q * alignment);
}

} // verus!
