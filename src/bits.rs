//! Facts about single bits of a 64-bit bitboard.
use vstd::prelude::*;

verus! {

/// Bit `i` of `bb` is set.
pub open spec fn is_set(bb: u64, i: u64) -> bool {
    (bb >> i) & 1u64 == 1u64
}

/// Bit `i` of `bb` is set, for a square given as a mathematical integer.
pub open spec fn sq_set(bb: u64, i: int) -> bool {
    0 <= i < 64 && is_set(bb, i as u64)
}

/// Testing a bit with a mask agrees with `is_set`.
pub proof fn lemma_mask_test(bb: u64, i: u64)
    requires
        i < 64,
    ensures
        (bb & (1u64 << i) != 0) == is_set(bb, i),
{
    assert((bb & (1u64 << i) != 0) == ((bb >> i) & 1u64 == 1u64)) by (bit_vector)
        requires
            i < 64,
    ;
}

/// Toggling bit `i` flips that bit and keeps every other one.
pub proof fn lemma_toggle(bb: u64, i: u64, j: u64)
    requires
        i < 64,
        j < 64,
    ensures
        is_set(bb ^ (1u64 << i), j) == (if i == j { !is_set(bb, j) } else { is_set(bb, j) }),
{
    assert(((bb ^ (1u64 << i)) >> j) & 1u64 == 1u64 <==> (if i == j {
        !((bb >> j) & 1u64 == 1u64)
    } else {
        (bb >> j) & 1u64 == 1u64
    })) by (bit_vector)
        requires
            i < 64,
            j < 64,
    ;
}

/// A bit of a union or of an intersection.
pub proof fn lemma_or_and(a: u64, b: u64, j: u64)
    ensures
        is_set(a | b, j) == (is_set(a, j) || is_set(b, j)),
        is_set(a & b, j) == (is_set(a, j) && is_set(b, j)),
{
    assert(((a | b) >> j) & 1u64 == 1u64 <==> ((a >> j) & 1u64 == 1u64 || (b >> j) & 1u64
        == 1u64)) by (bit_vector);
    assert(((a & b) >> j) & 1u64 == 1u64 <==> ((a >> j) & 1u64 == 1u64 && (b >> j) & 1u64
        == 1u64)) by (bit_vector);
}

/// The only bit of `1 << k` is bit `k`.
pub proof fn lemma_single(k: u64, j: u64)
    requires
        k < 64,
        j < 64,
    ensures
        is_set(1u64 << k, j) == (j == k),
{
    assert((((1u64 << k) >> j) & 1u64 == 1u64) == (j == k)) by (bit_vector)
        requires
            k < 64,
            j < 64,
    ;
}

/// Toggling a bit below 49 keeps a word below `2^49`.
pub proof fn lemma_toggle_bound(bb: u64, i: u64)
    requires
        i < 49,
        bb < 0x2_0000_0000_0000u64,
    ensures
        bb ^ (1u64 << i) < 0x2_0000_0000_0000u64,
{
    assert(bb ^ (1u64 << i) < 0x2_0000_0000_0000u64) by (bit_vector)
        requires
            i < 49,
            bb < 0x2_0000_0000_0000u64,
    ;
}

/// Moving a piece: toggling two distinct bits with one mask is toggling each.
pub proof fn lemma_two_bits(bb: u64, s: u64, e: u64)
    requires
        s < 64,
        e < 64,
        s != e,
    ensures
        bb ^ ((1u64 << s) | (1u64 << e)) == (bb ^ (1u64 << e)) ^ (1u64 << s),
{
    assert(bb ^ ((1u64 << s) | (1u64 << e)) == (bb ^ (1u64 << e)) ^ (1u64 << s)) by (bit_vector)
        requires
            s < 64,
            e < 64,
            s != e,
    ;
}

/// The empty word has no bit set.
pub proof fn lemma_zero(j: u64)
    ensures
        !(is_set(0u64, j)),
{
    assert(!((0u64 >> j) & 1u64 == 1u64)) by (bit_vector);
}

} // verus!
