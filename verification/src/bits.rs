//! Bit-level view of bitmap words, and the handful of bit-vector facts
//! the bitmap proofs rest on.  A bitmap word is a `u64`; a byte cell of
//! the object-start table is a `u8`.

use vstd::prelude::*;

verus! {

/// Bit `k` of the word `w`.
pub open spec fn nth_bit(w: u64, k: u64) -> bool {
    (w >> k) & 1 == 1
}

/// Bit `k` of the byte `w`.
pub open spec fn nth_bit8(w: u8, k: u8) -> bool {
    (w >> k) & 1 == 1
}

/// Setting bit `k` (by or-ing the mask `1 << k`) sets exactly that bit.
pub proof fn lemma_or_bit(w: u64, k: u64, j: u64)
    by (bit_vector)
    requires
        k < 64,
        j < 64,
    ensures
        nth_bit(w | (1u64 << k), j) == (j == k || nth_bit(w, j)),
{
}

/// Clearing bit `k` (by and-ing with the complement of `1 << k`) clears
/// exactly that bit.
pub proof fn lemma_andnot_bit(w: u64, k: u64, j: u64)
    by (bit_vector)
    requires
        k < 64,
        j < 64,
    ensures
        nth_bit(w & !(1u64 << k), j) == (j != k && nth_bit(w, j)),
{
}

/// Testing a word against the mask `1 << k` reads bit `k`.
pub proof fn lemma_mask_test(w: u64, k: u64)
    by (bit_vector)
    requires
        k < 64,
    ensures
        ((w & (1u64 << k)) != 0) == nth_bit(w, k),
{
}

/// A zero word has no bits set.
pub proof fn lemma_zero_word(j: u64)
    by (bit_vector)
    requires
        j < 64,
    ensures
        !nth_bit(0u64, j),
{
}

/// Identities the default solver does not compute on its own: masking
/// with zero, shifting by zero, and the values of the small powers of
/// two the header fields use.
pub proof fn lemma_bit_basics()
    by (bit_vector)
    ensures
        forall|x: u64, y: u64| x == 0 || y == 0 ==> #[trigger] (x & y) == 0,
        forall|x: u64, k: u64| k == 0 ==> #[trigger] (x >> k) == x,
        forall|x: u64, k: u64| k == 0 ==> #[trigger] (x << k) == x,
        forall|x: u64, k: u64| x == 0 && k < 64 ==> #[trigger] (x >> k) == 0,
        (1u64 << 1u64) == 2,
        (1u64 << 2u64) == 4,
        (1u64 << 13u64) == 8192,
        (1u64 << 58u64) == 0x0400_0000_0000_0000u64,
{
}

/// One step of a trailing-zeros scan: a word with clear low `i` bits and
/// a clear bit `i` has clear low `i + 1` bits; at the top bit this pins
/// the word to zero.
pub proof fn lemma_trailing_zeros_step(w: u64, i: u64)
    by (bit_vector)
    requires
        i < 64,
        w & (((1u64 << i) - 1) as u64) == 0,
        (w >> i) & 1 != 1,
    ensures
        i < 63 ==> w & (((1u64 << ((i + 1) as u64)) - 1) as u64) == 0,
        i == 63 ==> w == 0,
{
}

/// The conjunction `a & !b` reads "set in `a` and clear in `b`", bit by bit.
pub proof fn lemma_and_not_bits(a: u64, b: u64, j: u64)
    by (bit_vector)
    requires
        j < 64,
    ensures
        nth_bit(a & !b, j) == (nth_bit(a, j) && !nth_bit(b, j)),
{
}

/// Keeping the bits at and below position `b` with the mask
/// `(1 << (b + 1)) - 1`.
pub proof fn lemma_low_mask_le(w: u64, b: u64, j: u64)
    by (bit_vector)
    requires
        b < 63,
        j < 64,
    ensures
        nth_bit(w & (((1u64 << ((b + 1) as u64)) - 1) as u64), j) == (j <= b && nth_bit(w, j)),
{
}

/// One step of a highest-set-bit scan, descending: if every bit above
/// `j` is clear and bit `j` is clear, every bit at or above `j` is
/// clear.
pub proof fn lemma_high_clear_step(w: u64, j: u64)
    by (bit_vector)
    requires
        j < 64,
        (w >> j) & 1 != 1,
        j == 63 || w >> ((j + 1) as u64) == 0,
    ensures
        w >> j == 0,
{
}

/// A word whose bits above `j` are clear (as a shifted test) reads
/// clear at each bit above `j`.
pub proof fn lemma_shifted_zero_bits(w: u64, j: u64, k: u64)
    by (bit_vector)
    requires
        j < 63,
        w >> ((j + 1) as u64) == 0,
        j < k < 64,
    ensures
        !nth_bit(w, k),
{
}

/// Byte variant: setting bit `k` of a byte sets exactly that bit.
pub proof fn lemma_or_bit8(w: u8, k: u8, j: u8)
    by (bit_vector)
    requires
        k < 8,
        j < 8,
    ensures
        nth_bit8(w | (1u8 << k), j) == (j == k || nth_bit8(w, j)),
{
}

/// Byte variant: clearing bit `k` of a byte clears exactly that bit.
pub proof fn lemma_andnot_bit8(w: u8, k: u8, j: u8)
    by (bit_vector)
    requires
        k < 8,
        j < 8,
    ensures
        nth_bit8(w & !(1u8 << k), j) == (j != k && nth_bit8(w, j)),
{
}

/// Byte variant: testing against `1 << k` reads bit `k`.
pub proof fn lemma_mask_test8(w: u8, k: u8)
    by (bit_vector)
    requires
        k < 8,
    ensures
        ((w & (1u8 << k)) != 0) == nth_bit8(w, k),
{
}

/// A zero byte has no bits set.
pub proof fn lemma_zero_byte(j: u8)
    by (bit_vector)
    requires
        j < 8,
    ensures
        !nth_bit8(0u8, j),
{
}

/// Byte variant of the descending highest-set-bit step.
pub proof fn lemma_high_clear_step8(w: u8, j: u8)
    by (bit_vector)
    requires
        j < 8,
        (w >> j) & 1 != 1,
        j == 7 || w >> ((j + 1) as u8) == 0,
    ensures
        w >> j == 0,
{
}

/// Byte variant: bits above `j` read clear when the shifted word is
/// zero.
pub proof fn lemma_shifted_zero_bits8(w: u8, j: u8, k: u8)
    by (bit_vector)
    requires
        j < 7,
        w >> ((j + 1) as u8) == 0,
        j < k < 8,
    ensures
        !nth_bit8(w, k),
{
}

/// Shifting a byte by zero returns it.
pub proof fn lemma_byte_basics()
    by (bit_vector)
    ensures
        forall|x: u8, k: u8| k == 0 ==> #[trigger] (x >> k) == x,
{
}

/// Byte variant of the low mask `(1 << (b + 1)) - 1`.
pub proof fn lemma_low_mask_le8(w: u8, b: u8, j: u8)
    by (bit_vector)
    requires
        b < 7,
        j < 8,
    ensures
        nth_bit8(w & (((1u8 << ((b + 1) as u8)) - 1) as u8), j) == (j <= b && nth_bit8(w, j)),
{
}

} // verus!
