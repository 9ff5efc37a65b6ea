//! Single-bit facts about 64-bit words, shared by the bitmap allocators.
use vstd::prelude::*;
use vstd::std_specs::bits::{u64_trailing_zeros, axiom_u64_trailing_zeros};

verus! {

/// Bit `i` of `w` is set.
pub open spec fn bit_set(w: u64, i: u64) -> bool {
    (w >> i) & 1u64 == 1u64
}

pub proof fn lemma_bit_or_single(w: u64, b: u64, i: u64)
    requires
        b < 64,
        i < 64,
    ensures
        bit_set(w | (1u64 << b), i) == (i == b || bit_set(w, i)),
{
    assert(((w | (1u64 << b)) >> i) & 1u64 == 1u64 <==> (i == b || (w >> i) & 1u64 == 1u64))
        by (bit_vector)
        requires
            b < 64,
            i < 64,
    ;
}

pub proof fn lemma_bit_clear_single(w: u64, b: u64, i: u64)
    requires
        b < 64,
        i < 64,
    ensures
        bit_set(w & !(1u64 << b), i) == (i != b && bit_set(w, i)),
{
    assert(((w & !(1u64 << b)) >> i) & 1u64 == 1u64 <==> (i != b && (w >> i) & 1u64 == 1u64))
        by (bit_vector)
        requires
            b < 64,
            i < 64,
    ;
}

pub proof fn lemma_bit_or(w: u64, m: u64, i: u64)
    requires
        i < 64,
    ensures
        bit_set(w | m, i) == (bit_set(w, i) || bit_set(m, i)),
{
    assert(((w | m) >> i) & 1u64 == 1u64 <==> ((w >> i) & 1u64 == 1u64 || (m >> i) & 1u64 == 1u64))
        by (bit_vector)
        requires
            i < 64,
    ;
}

pub proof fn lemma_bit_and(w: u64, m: u64, i: u64)
    requires
        i < 64,
    ensures
        bit_set(w & m, i) == (bit_set(w, i) && bit_set(m, i)),
{
    assert(((w & m) >> i) & 1u64 == 1u64 <==> ((w >> i) & 1u64 == 1u64 && (m >> i) & 1u64 == 1u64))
        by (bit_vector)
        requires
            i < 64,
    ;
}

pub proof fn lemma_bit_not(w: u64, i: u64)
    requires
        i < 64,
    ensures
        bit_set(!w, i) == !bit_set(w, i),
{
    assert(((!w) >> i) & 1u64 == 1u64 <==> !((w >> i) & 1u64 == 1u64)) by (bit_vector)
        requires
            i < 64,
    ;
}

pub proof fn lemma_bit_zero(i: u64)
    requires
        i < 64,
    ensures
        !bit_set(0u64, i),
{
    assert(!((0u64 >> i) & 1u64 == 1u64)) by (bit_vector);
}

pub proof fn lemma_bit_full(i: u64)
    requires
        i < 64,
    ensures
        bit_set(!0u64, i),
{
    assert(((!0u64) >> i) & 1u64 == 1u64) by (bit_vector)
        requires
            i < 64,
    ;
}

/// A word is zero exactly when none of its 64 bits is set.
pub proof fn lemma_zero_iff_no_bits(w: u64)
    ensures
        w == 0 <==> (forall|i: u64| i < 64 ==> !#[trigger] bit_set(w, i)),
{
    if w == 0 {
        assert forall|i: u64| i < 64 implies !#[trigger] bit_set(w, i) by {
            lemma_bit_zero(i);
        }
    } else {
        axiom_u64_trailing_zeros(w);
        let t = u64_trailing_zeros(w) as u64;
        assert(bit_set(w, t));
    }
}

/// The trailing zero count of a non-zero word is its lowest set bit.
pub proof fn lemma_trailing_zeros_lowest(w: u64)
    requires
        w != 0,
    ensures
        (u64_trailing_zeros(w) as u64) < 64,
        bit_set(w, u64_trailing_zeros(w) as u64),
        forall|j: u64| j < u64_trailing_zeros(w) ==> !#[trigger] bit_set(w, j),
{
    axiom_u64_trailing_zeros(w);
    assert forall|j: u64| j < u64_trailing_zeros(w) implies !#[trigger] bit_set(w, j) by {
        assert((w >> j) & 1u64 == 0u64);
    }
}

/// `w & (w - 1)` clears exactly the lowest set bit.
pub proof fn lemma_clear_lowest(w: u64, i: u64)
    requires
        w != 0,
        i < 64,
    ensures
        bit_set(w & ((w - 1) as u64), i) == (bit_set(w, i) && i != u64_trailing_zeros(w) as u64),
{
    axiom_u64_trailing_zeros(w);
    let t = u64_trailing_zeros(w) as u64;
    assert((((w & ((w - 1) as u64)) >> i) & 1u64 == 1u64) <==> ((w >> i) & 1u64 == 1u64 && i != t))
        by (bit_vector)
        requires
            w != 0,
            i < 64,
            t < 64,
            (w >> t) & 1u64 == 1u64,
            w << ((64 - t) as u64) == 0,
    ;
}

/// The bits of a sequence of words, word `k` holding bits `64 * k .. 64 * k + 64`.
pub open spec fn words_view(words: Seq<u64>) -> Seq<bool> {
    Seq::new(words.len() * 64, |i: int| bit_set(words[i / 64], (i % 64) as u64))
}

/// Replacing one word changes exactly the 64 bits that it holds.
pub proof fn lemma_words_update(words: Seq<u64>, k: int, w: u64)
    requires
        0 <= k < words.len(),
    ensures
        words_view(words.update(k, w)).len() == words_view(words).len(),
        forall|i: int|
            0 <= i < words.len() * 64 ==> #[trigger] words_view(words.update(k, w))[i] == if i / 64
                == k {
                bit_set(w, (i % 64) as u64)
            } else {
                words_view(words)[i]
            },
{
}

} // verus!
